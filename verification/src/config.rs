//! The configuration the launcher consumes. The ranking and dispatch core
//! depends only on `max_results` and `terminal_emulator`; the remaining
//! fields are consumed by the rendering collaborator.

use vstd::prelude::*;

verus! {

/// Launcher configuration. `max_results` bounds every ranking result list;
/// `terminal_emulator` is the command that wraps terminal applications.
pub struct Config {
    pub show_icons: bool,
    pub max_results: usize,
    pub theme: Theme,
    pub terminal_emulator: String,
    pub window_width: i32,
    pub window_height: i32,
    pub icon_size: i32,
}

/// Visual theme settings; consumed only by the rendering collaborator.
pub struct Theme {
    pub font_size: u32,
    pub font_family: String,
    pub bg_color: String,
    pub font_color: String,
    pub selection_color: String,
    pub entry_min_height: u32,
    pub entry_border_color: String,
    pub entry_border_radius: u32,
}

pub fn default_show_icons() -> (r: bool)
    ensures
        r == true,
{
    true
}

pub fn default_max_results() -> (r: usize)
    ensures
        r == 5,
{
    5
}

pub fn default_font_size() -> (r: u32)
    ensures
        r == 14,
{
    14
}

pub fn default_terminal_emulator() -> (r: String)
    ensures
        r@ == "kitty"@,
{
    String::from_str("kitty")
}

pub fn default_window_width() -> (r: i32)
    ensures
        r == 600,
{
    600
}

pub fn default_window_height() -> (r: i32)
    ensures
        r == 260,
{
    260
}

pub fn default_icon_size() -> (r: i32)
    ensures
        r == 32,
{
    32
}

pub fn default_font_family() -> (r: String)
    ensures
        r@ == "Sans"@,
{
    String::from_str("Sans")
}

pub fn default_bg_color() -> (r: String)
    ensures
        r@ == "#171717"@,
{
    String::from_str("#171717")
}

pub fn default_font_color() -> (r: String)
    ensures
        r@ == "#f0f0f0"@,
{
    String::from_str("#f0f0f0")
}

pub fn default_selection_color() -> (r: String)
    ensures
        r@ == "#1e46c9"@,
{
    String::from_str("#1e46c9")
}

pub fn default_entry_min_height() -> (r: u32)
    ensures
        r == 32,
{
    32
}

pub fn default_entry_border_color() -> (r: String)
    ensures
        r@ == "#3a3a3a"@,
{
    String::from_str("#3a3a3a")
}

pub fn default_entry_border_radius() -> (r: u32)
    ensures
        r == 4,
{
    4
}

impl Default for Theme {
    fn default() -> (r: Self)
        ensures
            r.font_size == 14,
            r.font_family@ == "Sans"@,
            r.bg_color@ == "#171717"@,
            r.font_color@ == "#f0f0f0"@,
            r.selection_color@ == "#1e46c9"@,
            r.entry_min_height == 32,
            r.entry_border_color@ == "#3a3a3a"@,
            r.entry_border_radius == 4,
    {
        Theme {
            font_size: default_font_size(),
            font_family: default_font_family(),
            bg_color: default_bg_color(),
            font_color: default_font_color(),
            selection_color: default_selection_color(),
            entry_min_height: default_entry_min_height(),
            entry_border_color: default_entry_border_color(),
            entry_border_radius: default_entry_border_radius(),
        }
    }
}

impl Default for Config {
    fn default() -> (r: Self)
        ensures
            r.show_icons == true,
            r.max_results == 5,
            r.theme.font_size == 14,
            r.terminal_emulator@ == "kitty"@,
            r.window_width == 600,
            r.window_height == 260,
            r.icon_size == 32,
    {
        Config {
            show_icons: default_show_icons(),
            max_results: default_max_results(),
            theme: Theme::default(),
            terminal_emulator: default_terminal_emulator(),
            window_width: default_window_width(),
            window_height: default_window_height(),
            icon_size: default_icon_size(),
        }
    }
}

impl Clone for Config {
    fn clone(&self) -> (r: Self)
        ensures
            r == *self,
    {
        Config {
            show_icons: self.show_icons,
            max_results: self.max_results,
            theme: self.theme.clone(),
            terminal_emulator: self.terminal_emulator.clone(),
            window_width: self.window_width,
            window_height: self.window_height,
            icon_size: self.icon_size,
        }
    }
}

impl Clone for Theme {
    fn clone(&self) -> (r: Self)
        ensures
            r == *self,
    {
        Theme {
            font_size: self.font_size,
            font_family: self.font_family.clone(),
            bg_color: self.bg_color.clone(),
            font_color: self.font_color.clone(),
            selection_color: self.selection_color.clone(),
            entry_min_height: self.entry_min_height,
            entry_border_color: self.entry_border_color.clone(),
            entry_border_radius: self.entry_border_radius,
        }
    }
}

} // verus!
