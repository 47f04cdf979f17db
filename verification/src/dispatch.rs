//! Planning the execution of a selected entry. The core decides *what* to
//! run: the argument vector for a terminal-wrapped launch, the descriptor
//! for a desktop-activated launch with its direct-spawn fallback, the power
//! operation for a system action, or nothing for a calculator result. The
//! surrounding process performs the spawn itself, detached and without
//! waiting, so the launcher never blocks past process creation.

use vstd::prelude::*;
use crate::config::Config;
use crate::entry::{AppDescriptor, AppDescriptorView, Entry, EntryKind, EntryKindView, EntryView};
use crate::entry::SystemAction;
use crate::session::SessionEvent;

verus! {

/// Why a dispatch did not terminate the session.
pub enum LaunchError {
    /// Spawning a GUI or terminal-wrapped application failed; recoverable,
    /// the session may stay active so another entry can be picked.
    LaunchFailed(String),
    /// The privileged power operation reported failure.
    SystemActionFailed,
}

/// Mathematical model of a [`LaunchError`].
pub ghost enum LaunchErrorView {
    LaunchFailed(Seq<char>),
    SystemActionFailed,
}

impl View for LaunchError {
    type V = LaunchErrorView;

    open spec fn view(&self) -> LaunchErrorView {
        match self {
            LaunchError::LaunchFailed(s) => LaunchErrorView::LaunchFailed(s@),
            LaunchError::SystemActionFailed => LaunchErrorView::SystemActionFailed,
        }
    }
}

/// How a selected entry is to be executed.
pub enum LaunchPlan {
    /// Spawn this argument vector as a new, detached session, standard
    /// output and error discarded, without waiting for the child.
    SpawnDetached { argv: Vec<String> },
    /// Launch through the desktop-activation capability so the platform's
    /// own startup handling applies, falling back to a detached spawn of
    /// `fallback_argv` where activation is unavailable.
    DesktopActivate { app: AppDescriptor, fallback_argv: Vec<String> },
    /// Invoke the matching privileged power operation.
    PowerAction { action: SystemAction },
    /// Nothing to execute: selecting a calculator result only closes the
    /// session.
    CloseOnly,
}

/// Mathematical model of a [`LaunchPlan`].
pub ghost enum LaunchPlanView {
    SpawnDetached { argv: Seq<Seq<char>> },
    DesktopActivate { app: AppDescriptorView, fallback_argv: Seq<Seq<char>> },
    PowerAction { action: SystemAction },
    CloseOnly,
}

/// The models of a sequence of argument strings.
pub open spec fn strings_views(s: Seq<String>) -> Seq<Seq<char>> {
    s.map_values(|x: String| x@)
}

impl View for LaunchPlan {
    type V = LaunchPlanView;

    open spec fn view(&self) -> LaunchPlanView {
        match self {
            LaunchPlan::SpawnDetached { argv } => LaunchPlanView::SpawnDetached {
                argv: strings_views(argv@),
            },
            LaunchPlan::DesktopActivate { app, fallback_argv } => LaunchPlanView::DesktopActivate {
                app: app@,
                fallback_argv: strings_views(fallback_argv@),
            },
            LaunchPlan::PowerAction { action } => LaunchPlanView::PowerAction { action: *action },
            LaunchPlan::CloseOnly => LaunchPlanView::CloseOnly,
        }
    }
}

/// Whether an application must be wrapped in the configured terminal
/// emulator.
pub fn needs_terminal(app: &AppDescriptor) -> (r: bool)
    ensures
        r == app.requires_terminal,
{
    app.requires_terminal
}

/// The plan a selected entry dispatches under. A terminal-requiring
/// application is spawned as `[terminal_emulator, executable]`; any other
/// application goes through desktop activation with its bare executable as
/// the fallback vector; a system action maps to its power operation; a
/// calculator result only closes the session.
pub open spec fn spec_dispatch_plan(e: EntryView, terminal: Seq<char>) -> LaunchPlanView {
    match e.kind {
        EntryKindView::App(d) => {
            if d.requires_terminal {
                LaunchPlanView::SpawnDetached { argv: seq![terminal, d.executable_path] }
            } else {
                LaunchPlanView::DesktopActivate { app: d, fallback_argv: seq![d.executable_path] }
            }
        },
        EntryKindView::Action(a) => LaunchPlanView::PowerAction { action: a },
        EntryKindView::Result(_) => LaunchPlanView::CloseOnly,
    }
}

/// Decide how the selected entry is executed, under the configured terminal
/// emulator.
pub fn dispatch_plan(entry: &Entry, cfg: &Config) -> (p: LaunchPlan)
    ensures
        p@ == spec_dispatch_plan(entry@, cfg.terminal_emulator@),
{
    match &entry.kind {
        EntryKind::App(d) => {
            if d.requires_terminal {
                let mut argv: Vec<String> = Vec::new();
                argv.push(cfg.terminal_emulator.clone());
                argv.push(d.executable_path.clone());
                let p = LaunchPlan::SpawnDetached { argv };
                proof {
                    assert(p@->SpawnDetached_argv =~= seq![
                        cfg.terminal_emulator@,
                        d.executable_path@,
                    ]);
                }
                p
            } else {
                let mut fallback_argv: Vec<String> = Vec::new();
                fallback_argv.push(d.executable_path.clone());
                let p = LaunchPlan::DesktopActivate { app: d.clone(), fallback_argv };
                proof {
                    assert(p@->DesktopActivate_fallback_argv =~= seq![d.executable_path@]);
                }
                p
            }
        },
        EntryKind::Action(a) => LaunchPlan::PowerAction { action: *a },
        EntryKind::Result(_) => LaunchPlan::CloseOnly,
    }
}

/// The argument vector for a terminal-wrapped launch: the terminal prefix,
/// then the application's own argument vector.
pub fn terminal_argv(terminal_prefix: &Vec<String>, app_argv: &Vec<String>) -> (r: Vec<String>)
    ensures
        strings_views(r@) == strings_views(terminal_prefix@) + strings_views(app_argv@),
{
    let mut out: Vec<String> = Vec::new();
    let mut i: usize = 0;
    while i < terminal_prefix.len()
        invariant
            i <= terminal_prefix@.len(),
            strings_views(out@) == strings_views(terminal_prefix@.take(i as int)),
        decreases terminal_prefix@.len() - i,
    {
        let ghost prev = out@;
        out.push(terminal_prefix[i].clone());
        i = i + 1;
        proof {
            assert(strings_views(out@) =~= strings_views(prev).push(
                terminal_prefix@[i as int - 1]@,
            ));
            assert(strings_views(terminal_prefix@.take(i as int)) =~= strings_views(
                terminal_prefix@.take(i as int - 1),
            ).push(terminal_prefix@[i as int - 1]@));
        }
    }
    let mut j: usize = 0;
    while j < app_argv.len()
        invariant
            j <= app_argv@.len(),
            strings_views(out@) == strings_views(terminal_prefix@) + strings_views(
                app_argv@.take(j as int),
            ),
        decreases app_argv@.len() - j,
    {
        let ghost prev = out@;
        out.push(app_argv[j].clone());
        j = j + 1;
        proof {
            assert(strings_views(out@) =~= strings_views(prev).push(app_argv@[j as int - 1]@));
            assert(strings_views(terminal_prefix@) + strings_views(app_argv@.take(j as int))
                =~= (strings_views(terminal_prefix@) + strings_views(
                app_argv@.take(j as int - 1),
            )).push(app_argv@[j as int - 1]@));
        }
    }
    proof {
        assert(terminal_prefix@.take(terminal_prefix@.len() as int) =~= terminal_prefix@);
        assert(app_argv@.take(app_argv@.len() as int) =~= app_argv@);
    }
    out
}

/// The error a failed execution of a plan surfaces: a failed spawn of an
/// application is reported with its detail and is recoverable; a failed
/// power operation is a system-action failure.
pub fn launch_failure(plan: &LaunchPlan, detail: String) -> (r: LaunchError)
    requires
        !(*plan is CloseOnly),
    ensures
        (*plan is SpawnDetached || *plan is DesktopActivate) ==> r@
            == LaunchErrorView::LaunchFailed(detail@),
        *plan is PowerAction ==> r@ == LaunchErrorView::SystemActionFailed,
{
    match plan {
        LaunchPlan::PowerAction { .. } => LaunchError::SystemActionFailed,
        _ => LaunchError::LaunchFailed(detail),
    }
}

/// The session event a dispatch failure drives: an application that failed
/// to spawn leaves the session running; a failed system action ends it.
pub fn failure_event(err: &LaunchError) -> (r: SessionEvent)
    ensures
        (*err is LaunchFailed) ==> r == SessionEvent::DispatchFailedRecoverably,
        (*err is SystemActionFailed) ==> r == SessionEvent::DispatchFailedFatally,
{
    match err {
        LaunchError::LaunchFailed(_) => SessionEvent::DispatchFailedRecoverably,
        LaunchError::SystemActionFailed => SessionEvent::DispatchFailedFatally,
    }
}

/// A terminal-requiring application's planned argument vector always begins
/// with the configured terminal emulator, followed by the application's
/// executable; a non-terminal application's planned fallback vector never
/// includes the emulator, provided the application's executable is not
/// itself the configured emulator.
pub proof fn lemma_dispatch_terminal_prefix(e: EntryView, d: AppDescriptorView, terminal: Seq<
    char,
>)
    requires
        e.kind == EntryKindView::App(d),
    ensures
        d.requires_terminal ==> spec_dispatch_plan(e, terminal) == (LaunchPlanView::SpawnDetached {
            argv: seq![terminal, d.executable_path],
        }),
        (!d.requires_terminal && d.executable_path != terminal) ==> {
            &&& spec_dispatch_plan(e, terminal) == (LaunchPlanView::DesktopActivate {
                app: d,
                fallback_argv: seq![d.executable_path],
            })
            &&& !spec_dispatch_plan(e, terminal)->DesktopActivate_fallback_argv.contains(terminal)
        },
{
    if !d.requires_terminal && d.executable_path != terminal {
        let fb = spec_dispatch_plan(e, terminal)->DesktopActivate_fallback_argv;
        assert(fb.len() == 1 && fb[0] == d.executable_path);
        assert(forall|i: int| 0 <= i < fb.len() ==> fb[i] != terminal);
    }
}

} // verus!
