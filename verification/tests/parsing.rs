use window_switcher::parse_activeworkspace;
use window_switcher::parse_clients;
use window_switcher::Window;

fn window(
    monitor: i32,
    class: &str,
    title: &str,
    workspace: (i32, &str),
    pid: i32,
    fullscreen: u8,
) -> Window {
    Window {
        monitor,
        class: class.to_owned(),
        title: title.to_owned(),
        workspace: (workspace.0, workspace.1.to_owned()),
        pid,
        fullscreen,
    }
}

const TWO_RECORD_DUMP: &str = "Window X ->\n\tmonitor: 0\n\tclass: foo\n\ttitle: foo\n\tworkspace: 1 (term)\n\tpid: 100\n\tfullscreen: 0\n\nWindow Y ->\n\tmonitor: 1\n\tclass: bar\n\ttitle: baz\n\tworkspace: 2 (web)\n\tpid: 200\n\tfullscreen: 0\n\n";

#[test]
fn parses_two_records() {
    let windows = parse_clients(TWO_RECORD_DUMP);
    assert_eq!(windows.len(), 2);

    assert_eq!(windows[0].monitor, 0);
    assert_eq!(windows[0].class, "foo");
    assert_eq!(windows[0].title, "foo");
    assert_eq!(windows[0].workspace.0, 1);
    assert_eq!(windows[0].workspace.1, "(term)");
    assert_eq!(windows[0].pid, 100);
    assert_eq!(windows[0].fullscreen, 0);

    assert_eq!(windows[1].monitor, 1);
    assert_eq!(windows[1].class, "bar");
    assert_eq!(windows[1].title, "baz");
    assert_eq!(windows[1].workspace.0, 2);
    assert_eq!(windows[1].workspace.1, "(web)");
    assert_eq!(windows[1].pid, 200);
    assert_eq!(windows[1].fullscreen, 0);
}

#[test]
fn labels_of_two_records() {
    let windows = parse_clients(TWO_RECORD_DUMP);
    assert_eq!(windows[0].format(), Some("0: foo, Workspace: term".to_owned()));
    assert_eq!(windows[1].format(), Some("1: bar >> baz, Workspace: web".to_owned()));
}

#[test]
fn parsing_preserves_record_order() {
    let dump = "class: one\n\nclass: two\n\nclass: three\n\n";
    let windows = parse_clients(dump);
    assert_eq!(windows.len(), 3);
    assert_eq!(windows[0].class, "one");
    assert_eq!(windows[1].class, "two");
    assert_eq!(windows[2].class, "three");
}

#[test]
fn corrupt_pid_keeps_record() {
    let dump = "monitor: 1\nclass: foo\ntitle: bar\nworkspace: 2 (web)\npid: garbage\nfullscreen: 0\n\n";
    let windows = parse_clients(dump);
    assert_eq!(windows.len(), 1);
    assert_eq!(windows[0].pid, 0);
    assert_eq!(windows[0].monitor, 1);
    assert_eq!(windows[0].class, "foo");
    assert_eq!(windows[0].title, "bar");
    assert_eq!(windows[0].workspace.0, 2);
    assert_eq!(windows[0].workspace.1, "(web)");
}

#[test]
fn trailing_separator_yields_no_phantom_window() {
    let dump = "class: a\n\nclass: b\n\n";
    assert_eq!(parse_clients(dump).len(), 2);
}

#[test]
fn final_record_without_trailing_separator_is_kept() {
    let dump = "class: a\n\nclass: b";
    let windows = parse_clients(dump);
    assert_eq!(windows.len(), 2);
    assert_eq!(windows[0].class, "a");
    assert_eq!(windows[1].class, "b");
}

#[test]
fn unicode_whitespace_is_trimmed_from_field_lines() {
    let dump = "\u{a0}class: foo\u{2009}\n\n";
    let windows = parse_clients(dump);
    assert_eq!(windows.len(), 1);
    assert_eq!(windows[0].class, "foo");
}

#[test]
fn empty_dump_yields_no_window() {
    assert_eq!(parse_clients("").len(), 0);
}

#[test]
fn header_lines_are_discarded() {
    let dump = "Window 5af ->\n\tclass: kitty\n\ttitle: kitty\n\n";
    let windows = parse_clients(dump);
    assert_eq!(windows.len(), 1);
    assert_eq!(windows[0].class, "kitty");
}

#[test]
fn unknown_keys_are_ignored() {
    let dump = "class: foo\nfloating: 1\nxwayland: 0\n\n";
    let windows = parse_clients(dump);
    assert_eq!(windows.len(), 1);
    assert_eq!(windows[0].class, "foo");
    assert_eq!(windows[0].monitor, 0);
}

#[test]
fn numeric_fields_parse_leniently() {
    let dump = "monitor: -2\nclass: c\npid: 99999999999\nfullscreen: 300\n\n";
    let windows = parse_clients(dump);
    assert_eq!(windows.len(), 1);
    assert_eq!(windows[0].monitor, -2);
    assert_eq!(windows[0].pid, 0);
    assert_eq!(windows[0].fullscreen, 0);
}

#[test]
fn numeric_fields_honour_type_bounds() {
    let dump = "class: c\npid: -2147483648\nmonitor: 2147483647\nfullscreen: 255\n\n";
    let windows = parse_clients(dump);
    assert_eq!(windows[0].pid, -2147483648);
    assert_eq!(windows[0].monitor, 2147483647);
    assert_eq!(windows[0].fullscreen, 255);

    let dump = "class: c\npid: 2147483648\nmonitor: -2147483649\nfullscreen: 256\n\n";
    let windows = parse_clients(dump);
    assert_eq!(windows[0].pid, 0);
    assert_eq!(windows[0].monitor, 0);
    assert_eq!(windows[0].fullscreen, 0);
}

#[test]
fn empty_and_signed_only_numerals_default() {
    let dump = "class: c\npid: \nmonitor: -\nfullscreen: +\n\n";
    let windows = parse_clients(dump);
    assert_eq!(windows[0].pid, 0);
    assert_eq!(windows[0].monitor, 0);
    assert_eq!(windows[0].fullscreen, 0);
}

#[test]
fn plus_signed_numeral_parses() {
    let dump = "monitor: +7\nclass: c\npid: +8\n\n";
    let windows = parse_clients(dump);
    assert_eq!(windows[0].monitor, 7);
    assert_eq!(windows[0].pid, 8);
}

#[test]
fn workspace_without_space_becomes_default() {
    let dump = "class: c\nworkspace: 5\n\n";
    let windows = parse_clients(dump);
    assert_eq!(windows[0].workspace.0, 0);
    assert_eq!(windows[0].workspace.1, "");
}

#[test]
fn default_window_is_placeholder() {
    let w = Window::new();
    assert_eq!(w.monitor, 0);
    assert_eq!(w.class, "");
    assert_eq!(w.title, "");
    assert_eq!(w.workspace, (0, "".to_owned()));
    assert_eq!(w.pid, 0);
    assert_eq!(w.fullscreen, 0);
    assert_eq!(w.format(), None);
}

#[test]
fn empty_class_never_formats() {
    let w = window(3, "", "some title", (9, "(web)"), 77, 1);
    assert_eq!(w.format(), None);
}

#[test]
fn activeworkspace_extracts_display_name() {
    assert_eq!(
        parse_activeworkspace("workspace ID 3 (dev) on monitor 0"),
        Some("dev")
    );
}

#[test]
fn activeworkspace_takes_first_line_only() {
    assert_eq!(
        parse_activeworkspace("workspace ID 12 (web) on monitor 1\nmore text\n"),
        Some("web")
    );
}

#[test]
fn activeworkspace_rejects_other_text() {
    assert_eq!(parse_activeworkspace(""), None);
    assert_eq!(parse_activeworkspace("no such report"), None);
    assert_eq!(parse_activeworkspace("workspace 3 (dev) on monitor 0"), None);
}
