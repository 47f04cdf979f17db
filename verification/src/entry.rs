//! Launchable entries: installed applications, the four fixed system power
//! actions, and calculator results synthesized per query.

use vstd::prelude::*;

verus! {

/// One of the four fixed power-state operations.
#[derive(Clone, Copy, Debug, PartialEq, Eq, Structural)]
pub enum SystemAction {
    Shutdown,
    Restart,
    Hibernate,
    Sleep,
}

/// What the core reads of an installed application: its display name, the
/// executable to spawn, whether it must run inside a terminal emulator, and
/// the icon name the rendering collaborator resolves.
pub struct AppDescriptor {
    pub display_name: String,
    pub executable_path: String,
    pub requires_terminal: bool,
    pub icon_reference: String,
}

/// The kind of a launchable entry.
pub enum EntryKind {
    App(AppDescriptor),
    Action(SystemAction),
    Result(String),
}

/// One ranked, selectable item: a title shown to the user and the kind that
/// decides how it is dispatched.
pub struct Entry {
    pub title: String,
    pub kind: EntryKind,
}

/// Mathematical model of an [`AppDescriptor`].
pub ghost struct AppDescriptorView {
    pub display_name: Seq<char>,
    pub executable_path: Seq<char>,
    pub requires_terminal: bool,
    pub icon_reference: Seq<char>,
}

/// Mathematical model of an [`EntryKind`].
pub ghost enum EntryKindView {
    App(AppDescriptorView),
    Action(SystemAction),
    Result(Seq<char>),
}

/// Mathematical model of an [`Entry`].
pub ghost struct EntryView {
    pub title: Seq<char>,
    pub kind: EntryKindView,
}

impl View for AppDescriptor {
    type V = AppDescriptorView;

    open spec fn view(&self) -> AppDescriptorView {
        AppDescriptorView {
            display_name: self.display_name@,
            executable_path: self.executable_path@,
            requires_terminal: self.requires_terminal,
            icon_reference: self.icon_reference@,
        }
    }
}

impl View for EntryKind {
    type V = EntryKindView;

    open spec fn view(&self) -> EntryKindView {
        match self {
            EntryKind::App(d) => EntryKindView::App(d@),
            EntryKind::Action(a) => EntryKindView::Action(*a),
            EntryKind::Result(s) => EntryKindView::Result(s@),
        }
    }
}

impl View for Entry {
    type V = EntryView;

    open spec fn view(&self) -> EntryView {
        EntryView { title: self.title@, kind: self.kind@ }
    }
}

impl Clone for AppDescriptor {
    fn clone(&self) -> (r: Self)
        ensures
            r == *self,
    {
        AppDescriptor {
            display_name: self.display_name.clone(),
            executable_path: self.executable_path.clone(),
            requires_terminal: self.requires_terminal,
            icon_reference: self.icon_reference.clone(),
        }
    }
}

impl Clone for EntryKind {
    fn clone(&self) -> (r: Self)
        ensures
            r == *self,
    {
        match self {
            EntryKind::App(d) => EntryKind::App(d.clone()),
            EntryKind::Action(a) => EntryKind::Action(*a),
            EntryKind::Result(s) => EntryKind::Result(s.clone()),
        }
    }
}

impl Clone for Entry {
    fn clone(&self) -> (r: Self)
        ensures
            r == *self,
    {
        Entry { title: self.title.clone(), kind: self.kind.clone() }
    }
}

/// The title under which a system action is listed.
pub open spec fn spec_action_title(action: SystemAction) -> Seq<char> {
    match action {
        SystemAction::Shutdown => "Shutdown"@,
        SystemAction::Restart => "Restart"@,
        SystemAction::Sleep => "Sleep"@,
        SystemAction::Hibernate => "Hibernate"@,
    }
}

/// The model of the catalog entry built for an application.
pub open spec fn spec_app_entry(d: AppDescriptorView) -> EntryView {
    EntryView { title: d.display_name, kind: EntryKindView::App(d) }
}

/// The model of the catalog entry built for a system action.
pub open spec fn spec_action_entry(action: SystemAction) -> EntryView {
    EntryView { title: spec_action_title(action), kind: EntryKindView::Action(action) }
}

/// The model of the entry synthesized for a calculator result with the given
/// rendered title.
pub open spec fn spec_calc_entry(title: Seq<char>) -> EntryView {
    EntryView { title: title, kind: EntryKindView::Result(title) }
}

impl Entry {
    /// The catalog entry for an installed application: titled by its display
    /// name.
    pub fn from_app(app: AppDescriptor) -> (r: Self)
        ensures
            r@ == spec_app_entry(app@),
    {
        let title = app.display_name.clone();
        Entry { title, kind: EntryKind::App(app) }
    }

    /// The catalog entry for a system power action, under its fixed title.
    pub fn system_action(action: SystemAction) -> (r: Self)
        ensures
            r@ == spec_action_entry(action),
    {
        let title: String = match action {
            SystemAction::Shutdown => String::from_str("Shutdown"),
            SystemAction::Restart => String::from_str("Restart"),
            SystemAction::Sleep => String::from_str("Sleep"),
            SystemAction::Hibernate => String::from_str("Hibernate"),
        };
        Entry { title, kind: EntryKind::Action(action) }
    }

    /// The entry synthesized for a successfully evaluated arithmetic query,
    /// titled by the rendered value.
    pub fn math_result(rendered: String) -> (r: Self)
        ensures
            r@ == spec_calc_entry(rendered@),
    {
        let title = rendered.clone();
        Entry { title, kind: EntryKind::Result(rendered) }
    }

    /// True of the entries the catalog may hold: applications and system
    /// actions, never calculator results.
    pub open spec fn is_catalog_entry(self) -> bool {
        !(self.kind is Result)
    }
}

} // verus!
