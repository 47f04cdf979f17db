use scout::config::Config;
use scout::dispatch::{dispatch_plan, failure_event, launch_failure, needs_terminal, terminal_argv};
use scout::dispatch::{LaunchError, LaunchPlan};
use scout::entry::{AppDescriptor, Entry, SystemAction};
use scout::session::SessionEvent;

fn app(name: &str, exec: &str, requires_terminal: bool) -> AppDescriptor {
    AppDescriptor {
        display_name: name.to_string(),
        executable_path: exec.to_string(),
        requires_terminal,
        icon_reference: String::new(),
    }
}

#[test]
fn terminal_app_argv_begins_with_emulator() {
    let cfg = Config::default();
    let entry = Entry::from_app(app("Top", "/usr/bin/top", true));
    let plan = dispatch_plan(&entry, &cfg);
    match plan {
        LaunchPlan::SpawnDetached { argv } => {
            assert_eq!(argv, vec!["kitty".to_string(), "/usr/bin/top".to_string()]);
        },
        _ => panic!("expected a detached terminal spawn"),
    }
}

#[test]
fn gui_app_argv_never_includes_emulator() {
    let cfg = Config::default();
    let entry = Entry::from_app(app("Firefox", "/usr/bin/firefox", false));
    let plan = dispatch_plan(&entry, &cfg);
    match plan {
        LaunchPlan::DesktopActivate { app, fallback_argv } => {
            assert_eq!(app.executable_path, "/usr/bin/firefox");
            assert_eq!(fallback_argv, vec!["/usr/bin/firefox".to_string()]);
            assert!(!fallback_argv.contains(&cfg.terminal_emulator));
        },
        _ => panic!("expected desktop activation"),
    }
}

#[test]
fn system_action_plans_power_operation() {
    let cfg = Config::default();
    let entry = Entry::system_action(SystemAction::Restart);
    let plan = dispatch_plan(&entry, &cfg);
    assert!(matches!(plan, LaunchPlan::PowerAction { action: SystemAction::Restart }));
}

#[test]
fn calc_result_dispatch_is_noop() {
    let cfg = Config::default();
    let entry = Entry::math_result("4".to_string());
    let plan = dispatch_plan(&entry, &cfg);
    assert!(matches!(plan, LaunchPlan::CloseOnly));
}

#[test]
fn terminal_argv_concatenates() {
    let prefix = vec!["kitty".to_string()];
    let argv = vec!["/usr/bin/htop".to_string()];
    let combined = terminal_argv(&prefix, &argv);
    assert_eq!(combined, vec!["kitty".to_string(), "/usr/bin/htop".to_string()]);
}

#[test]
fn needs_terminal_reads_descriptor() {
    assert!(needs_terminal(&app("Top", "/usr/bin/top", true)));
    assert!(!needs_terminal(&app("Firefox", "/usr/bin/firefox", false)));
}

#[test]
fn app_failure_is_recoverable() {
    let cfg = Config::default();
    let entry = Entry::from_app(app("Firefox", "/usr/bin/firefox", false));
    let plan = dispatch_plan(&entry, &cfg);
    let err = launch_failure(&plan, "spawn failed".to_string());
    match &err {
        LaunchError::LaunchFailed(detail) => assert_eq!(detail, "spawn failed"),
        _ => panic!("expected a recoverable launch failure"),
    }
    assert!(matches!(failure_event(&err), SessionEvent::DispatchFailedRecoverably));
}

#[test]
fn system_action_failure_is_fatal() {
    let cfg = Config::default();
    let entry = Entry::system_action(SystemAction::Shutdown);
    let plan = dispatch_plan(&entry, &cfg);
    let err = launch_failure(&plan, String::new());
    assert!(matches!(err, LaunchError::SystemActionFailed));
    assert!(matches!(failure_event(&err), SessionEvent::DispatchFailedFatally));
}
