use window_switcher::focus;
use window_switcher::get_window_from_arg;
use window_switcher::unminimize;
use window_switcher::Command;
use window_switcher::Destination;
use window_switcher::SelectedAction;
use window_switcher::Window;

fn window(
    monitor: i32,
    class: &str,
    title: &str,
    workspace: (i32, &str),
    pid: i32,
    fullscreen: u8,
) -> Window {
    Window {
        monitor,
        class: class.to_owned(),
        title: title.to_owned(),
        workspace: (workspace.0, workspace.1.to_owned()),
        pid,
        fullscreen,
    }
}

#[test]
fn label_round_trips_through_resolver() {
    let windows = vec![
        window(0, "foo", "foo", (1, "(term)"), 100, 0),
        window(1, "bar", "baz", (2, "(web)"), 200, 0),
    ];
    let label = windows[1].format().unwrap();
    let resolved = get_window_from_arg(&windows, &label).unwrap();
    assert_eq!(resolved.pid, 200);
    assert_eq!(resolved.format().unwrap(), label);
}

#[test]
fn resolver_returns_first_of_equal_labels() {
    let windows = vec![
        window(0, "foo", "foo", (1, "(term)"), 100, 0),
        window(0, "foo", "foo", (1, "(term)"), 200, 0),
    ];
    let label = windows[1].format().unwrap();
    let resolved = get_window_from_arg(&windows, &label).unwrap();
    assert_eq!(resolved.pid, 100);
}

#[test]
fn resolver_misses_on_unknown_text() {
    let windows = vec![window(0, "foo", "foo", (1, "(term)"), 100, 0)];
    assert!(get_window_from_arg(&windows, "arbitrary user text").is_none());
}

#[test]
fn resolver_never_matches_placeholder() {
    let windows = vec![window(0, "", "", (0, ""), 0, 0)];
    let label = "0: , Workspace: ".to_owned();
    assert!(get_window_from_arg(&windows, &label).is_none());
}

#[test]
fn minimized_workspace_selects_unminimize() {
    let windows = vec![
        window(0, "foo", "foo", (1, "(term)"), 100, 0),
        window(0, "editor", "notes", (-98, "(special:minimized)"), 300, 0),
    ];
    let label = windows[1].format().unwrap();
    assert_eq!(label, "0: editor >> notes, Workspace: special:minimized");
    let resolved = get_window_from_arg(&windows, &label).unwrap();
    assert_eq!(resolved.select_action(), SelectedAction::Unminimize);
    assert_eq!(windows[0].select_action(), SelectedAction::Focus);
}

#[test]
fn focus_with_fullscreen_blocker_issues_three_commands() {
    let windows = vec![
        window(0, "foo", "foo", (1, "(term)"), 100, 0),
        window(0, "bar", "bar", (2, "(web)"), 200, 1),
        window(0, "baz", "baz", (2, "(web)"), 300, 0),
    ];
    let cmds = focus(&windows, 300, "(web)");
    assert_eq!(
        cmds,
        vec![
            Command::FocusWindow { pid: 200 },
            Command::ToggleFullscreen,
            Command::FocusWindow { pid: 300 },
        ]
    );
}

#[test]
fn focus_without_blocker_issues_one_command() {
    let windows = vec![
        window(0, "foo", "foo", (1, "(term)"), 100, 1),
        window(0, "baz", "baz", (2, "(web)"), 300, 0),
    ];
    let cmds = focus(&windows, 300, "(web)");
    assert_eq!(cmds, vec![Command::FocusWindow { pid: 300 }]);
}

#[test]
fn focus_picks_earliest_blocker() {
    let windows = vec![
        window(0, "a", "a", (2, "(web)"), 100, 2),
        window(0, "b", "b", (2, "(web)"), 200, 1),
    ];
    let cmds = focus(&windows, 300, "(web)");
    assert_eq!(
        cmds,
        vec![
            Command::FocusWindow { pid: 100 },
            Command::ToggleFullscreen,
            Command::FocusWindow { pid: 300 },
        ]
    );
}

#[test]
fn unminimize_with_fullscreen_active_window_toggles_first() {
    let active = window(0, "term", "term", (4, "(dev)"), 500, 1);
    let cmds = unminimize(Some(&active), None, 42).unwrap();
    assert_eq!(
        cmds,
        vec![
            Command::ToggleFullscreen,
            Command::MoveToWorkspace { destination: Destination::Id(4), pid: 42 },
        ]
    );
}

#[test]
fn unminimize_with_normal_active_window_moves_only() {
    let active = window(0, "term", "term", (4, "(dev)"), 500, 0);
    let cmds = unminimize(Some(&active), None, 42).unwrap();
    assert_eq!(
        cmds,
        vec![Command::MoveToWorkspace { destination: Destination::Id(4), pid: 42 }]
    );
}

#[test]
fn unminimize_falls_back_to_active_workspace_name() {
    let cmds = unminimize(None, Some("dev"), 42).unwrap();
    assert_eq!(
        cmds,
        vec![
            Command::MoveToWorkspace {
                destination: Destination::Name("dev".to_owned()),
                pid: 42,
            },
        ]
    );
}

#[test]
fn unminimize_without_context_fails() {
    let r = unminimize(None, None, 42);
    assert!(r.is_err());
    assert_eq!(
        r.unwrap_err().message(),
        "Failed to get active workspace or active window"
    );
}

#[test]
fn dispatch_args_of_focus_command() {
    let cmd = Command::FocusWindow { pid: 42 };
    assert_eq!(cmd.dispatch_args(), vec!["dispatch", "focuswindow", "pid:42"]);
}

#[test]
fn dispatch_args_of_fullscreen_toggle() {
    let cmd = Command::ToggleFullscreen;
    assert_eq!(cmd.dispatch_args(), vec!["dispatch", "fullscreen"]);
}

#[test]
fn dispatch_args_of_move_by_id() {
    let cmd = Command::MoveToWorkspace { destination: Destination::Id(3), pid: 42 };
    assert_eq!(cmd.dispatch_args(), vec!["dispatch", "movetoworkspace", "3,pid:42"]);
}

#[test]
fn dispatch_args_of_move_by_name() {
    let cmd = Command::MoveToWorkspace {
        destination: Destination::Name("dev".to_owned()),
        pid: -7,
    };
    assert_eq!(
        cmd.dispatch_args(),
        vec!["dispatch", "movetoworkspace", "dev,pid:-7"]
    );
}

#[test]
fn negative_monitor_formats_with_sign() {
    let w = window(-3, "foo", "foo", (1, "(term)"), 100, 0);
    assert_eq!(w.format().unwrap(), "-3: foo, Workspace: term");
}
