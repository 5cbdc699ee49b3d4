use tomorin::command::parse_exec_request;
use tomorin::router::{help_text, route, status_text, Dispatch};

#[test]
fn shell_prefixes_ascii_and_full_width() {
    assert_eq!(route(",echo hi"), Dispatch::Shell("echo hi".to_string()));
    assert_eq!(route("，ls"), Dispatch::Shell("ls".to_string()));
    assert_eq!(route(".ls"), Dispatch::Shell("ls".to_string()));
    assert_eq!(route("。ls"), Dispatch::Shell("ls".to_string()));
}

#[test]
fn repeated_prefixes_are_all_stripped() {
    assert_eq!(route(",,ls"), Dispatch::Shell("ls".to_string()));
    assert_eq!(route("r#r#1 + 1"), Dispatch::Eval("1 + 1".to_string()));
}

#[test]
fn eval_prefix_wins_over_shell_prefixes() {
    assert_eq!(route("r#,not a shell command"), Dispatch::Eval(",not a shell command".to_string()));
}

#[test]
fn exact_repeat_marker_only() {
    assert_eq!(route("+"), Dispatch::Repeat);
    assert_eq!(route("++"), Dispatch::Ignore);
    assert_eq!(route("+ "), Dispatch::Ignore);
}

#[test]
fn help_and_status_markers() {
    assert_eq!(route("h#"), Dispatch::Help);
    assert_eq!(route("h# anything"), Dispatch::Help);
    assert_eq!(route("s#"), Dispatch::Status);
}

#[test]
fn a_bare_prefix_dispatches_an_empty_command() {
    assert_eq!(route(","), Dispatch::Shell(String::new()));
    assert_eq!(route("."), Dispatch::Shell(String::new()));
    assert!(parse_exec_request("").is_none());
}

#[test]
fn unrecognized_text_is_no_command() {
    assert_eq!(route("hello there"), Dispatch::Ignore);
    assert_eq!(route(""), Dispatch::Ignore);
    assert_eq!(route("r"), Dispatch::Ignore);
}

#[test]
fn exec_requests_split_on_whitespace() {
    let req = parse_exec_request("echo hi").unwrap();
    assert_eq!(req.program, "echo");
    assert_eq!(req.arguments, vec!["hi".to_string()]);

    let req = parse_exec_request("ls  -l\t/tmp").unwrap();
    assert_eq!(req.program, "ls");
    assert_eq!(req.arguments, vec!["-l".to_string(), "/tmp".to_string()]);

    let req = parse_exec_request("true").unwrap();
    assert_eq!(req.program, "true");
    assert!(req.arguments.is_empty());
}

#[test]
fn empty_command_text_yields_no_request() {
    assert!(parse_exec_request("").is_none());
    assert!(parse_exec_request("   \t ").is_none());
}

#[test]
fn help_text_lists_every_command() {
    let h = help_text();
    assert!(h.contains("`+`"));
    assert!(h.contains("r#<code>"));
    assert!(h.contains("s#"));
    assert!(h.contains("h#"));
    // Both the ASCII and the full-width shell prefixes are shown as examples.
    assert!(h.contains("`,ls`"));
    assert!(h.contains("`，ls`"));
    assert!(h.contains("`.ls`"));
    assert!(h.contains("`。ls`"));
}

#[test]
fn status_text_embeds_the_measurements() {
    let s = status_text(
        "Linux 6.1",
        "x86_64",
        "2024-01-01 00:00:00",
        "1h 2m 3s",
        "2024-01-01 01:02:03",
        "12345.6",
        "0.1.0",
    );
    assert!(s.contains("OS - Linux 6.1 - x86_64"));
    assert!(s.contains("Start time - 2024-01-01 00:00:00"));
    assert!(s.contains("Uptime - 1h 2m 3s"));
    assert!(s.contains("Current time - 2024-01-01 01:02:03"));
    assert!(s.contains("Memory usage - 12345.6 KiB"));
    assert!(s.contains("Tomorin Version - 0.1.0"));
}

#[test]
fn default_configuration_is_empty() {
    let conf = tomorin::conf::Conf::default();
    assert_eq!(conf.api_id, 0);
    assert_eq!(conf.api_hash, "");
    assert_eq!(conf.phone, "");
    let args = tomorin::args::Args::default();
    assert!(!args.debug);
}
