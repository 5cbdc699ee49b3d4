use tomorin::render::{
    eval_report, render_window, spawn_failure_report, CmdSession, SourceChannel, StyleTag,
    MAX_RENDER_LINES,
};

const HINT: &str = "以上行数被杜叔叔吃掉了！";

#[test]
fn rendering_the_same_buffer_twice_is_identical() {
    let buffer = (1..=40).map(|i| format!("line {i}\n")).collect::<String>();
    let a = render_window(&buffer, MAX_RENDER_LINES, StyleTag::StdOut);
    let b = render_window(&buffer, MAX_RENDER_LINES, StyleTag::StdOut);
    assert_eq!(a.text, b.text);
    assert_eq!(a.annotations.len(), b.annotations.len());
    assert_eq!(a.annotations[0].offset, b.annotations[0].offset);
    assert_eq!(a.annotations[0].length, b.annotations[0].length);
}

#[test]
fn window_keeps_the_last_lines_behind_the_hint() {
    let buffer = (1..=35).map(|i| format!("line {i}\n")).collect::<String>();
    let r = render_window(&buffer, 30, StyleTag::StdOut);
    let lines: Vec<&str> = r.text.split('\n').collect();
    assert_eq!(lines.len(), 31);
    assert_eq!(lines[0], HINT);
    for (k, line) in lines[1..].iter().enumerate() {
        assert_eq!(*line, format!("line {}", k + 6));
    }
    assert_eq!(r.annotations.len(), 1);
    assert_eq!(r.annotations[0].offset, 0);
    assert_eq!(r.annotations[0].length, r.text.chars().count());
}

#[test]
fn window_under_the_budget_is_the_trimmed_buffer() {
    let r = render_window("  a\nb\n", 30, StyleTag::StdOut);
    assert_eq!(r.text, "a\nb");
    assert_eq!(r.annotations[0].length, 3);
}

#[test]
fn a_full_session_ends_with_the_done_marker() {
    let mut s = CmdSession::new("echo hi");
    s.append_line(SourceChannel::StdOut, "hi");
    let (mid, done) = s.on_tick();
    assert!(!done);
    assert_eq!(mid.text, "\u{276f} echo hi\nhi");
    s.close(SourceChannel::StdOut);
    s.close(SourceChannel::StdErr);
    let (_, done) = s.on_tick();
    assert!(done);
    let report = s.finish(true, "");
    assert_eq!(report.text, "\u{276f} echo hi\nhi\nDone.");
    assert_eq!(report.annotations.len(), 1);
    assert_eq!(report.annotations[0].tag, StyleTag::StdOut);
    assert_eq!(report.annotations[0].tag.language(), "StdOut");
}

#[test]
fn a_failed_exit_is_marked_and_error_styled() {
    let mut s = CmdSession::new("false");
    s.close(SourceChannel::StdOut);
    s.close(SourceChannel::StdErr);
    let report = s.finish(false, "exit status: 1");
    assert!(report.text.contains("笨！"));
    assert!(report.text.contains("exit status: 1"));
    assert_eq!(report.annotations[0].tag, StyleTag::StdErr);
}

#[test]
fn interleaved_channels_keep_arrival_order() {
    let mut s = CmdSession::new("cmd");
    s.append_line(SourceChannel::StdOut, "out one");
    s.append_line(SourceChannel::StdErr, "err one");
    s.append_line(SourceChannel::StdOut, "out two");
    let (r, _) = s.on_tick();
    assert_eq!(r.text, "\u{276f} cmd\nout one\nerr one\nout two");
}

#[test]
fn spawn_failure_is_a_single_error_styled_block() {
    let r = spawn_failure_report("doesnotexist123", "No such file or directory (os error 2)");
    assert_eq!(
        r.text,
        "\u{276f} doesnotexist123\n笨！\nNo such file or directory (os error 2)"
    );
    assert_eq!(r.annotations.len(), 1);
    assert_eq!(r.annotations[0].offset, 0);
    assert_eq!(r.annotations[0].length, r.text.chars().count());
    assert_eq!(r.annotations[0].tag, StyleTag::StdErr);
}

#[test]
fn scenario_shell_echo_runs_to_done() {
    let dispatch = tomorin::router::route(",echo hi");
    let cmd = match dispatch {
        tomorin::router::Dispatch::Shell(c) => c,
        _ => panic!("expected a shell dispatch"),
    };
    let req = tomorin::command::parse_exec_request(&cmd).unwrap();
    assert_eq!(req.program, "echo");
    assert_eq!(req.arguments, vec!["hi".to_string()]);
    let mut s = CmdSession::new(&cmd);
    s.append_line(SourceChannel::StdOut, "hi");
    s.close(SourceChannel::StdOut);
    s.close(SourceChannel::StdErr);
    let (_, done) = s.on_tick();
    assert!(done);
    let r = s.finish(true, "");
    assert!(r.text.contains("\nhi\n"));
    assert!(r.text.ends_with("Done."));
}

#[test]
fn eval_reports_style_code_and_output_separately() {
    let r = eval_report(" 1 + 1 ", " 2 ");
    assert_eq!(r.text, "1 + 1\n2");
    assert_eq!(r.annotations.len(), 2);
    assert_eq!(r.annotations[0].offset, 0);
    assert_eq!(r.annotations[0].length, 5);
    assert_eq!(r.annotations[0].tag, StyleTag::Rust);
    assert_eq!(r.annotations[1].offset, 5);
    assert_eq!(r.annotations[1].length, 2);
    assert_eq!(r.annotations[1].tag, StyleTag::Output);
}
