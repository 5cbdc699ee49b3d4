use tomorin::report::{
    generate_result_from_response, truncate_output, Channel, CrateType, Mode, Response,
};

fn ok_response(stdout: &str) -> Response {
    Response { stderr: String::new(), stdout: stdout.to_string(), success: true }
}

fn err_response(stderr: &str) -> Response {
    Response { stderr: stderr.to_string(), stdout: String::new(), success: false }
}

#[test]
fn success_output_round_trips_untouched() {
    let r = generate_result_from_response(ok_response("42"), Channel::Nightly, false);
    assert_eq!(r, "42");
}

#[test]
fn success_output_is_trimmed() {
    let r = generate_result_from_response(ok_response("  42\n"), Channel::Nightly, false);
    assert_eq!(r, "42");
}

#[test]
fn empty_success_output_gets_a_placeholder() {
    let r = generate_result_from_response(ok_response("   \n  "), Channel::Nightly, false);
    assert_eq!(r, "(no output)");
}

#[test]
fn success_output_is_html_escaped() {
    let r = generate_result_from_response(ok_response("<x> & 'y'"), Channel::Nightly, false);
    assert_eq!(r, "&lt;x&gt; &amp; &#x27;y&#x27;");
}

#[test]
fn line_budget_cuts_after_the_third_line() {
    assert_eq!(truncate_output("a\nb\nc\nd", 3, 216), "a\nb\nc...");
    assert_eq!(truncate_output("a\nb\nc", 3, 216), "a\nb\nc");
}

#[test]
fn width_budget_cuts_wide_output_near_the_budget() {
    let wide: String = "\u{3042}".repeat(120);
    let r = truncate_output(&wide, 3, 216);
    let expected = format!("{}...", "\u{3042}".repeat(106));
    assert_eq!(r, expected);
    // Wide glyphs count as two columns: the kept text stays within the
    // budget plus the ellipsis allowance.
    let width: usize = r
        .chars()
        .map(|c| unicode_width::UnicodeWidthChar::width_cjk(c).unwrap_or(1))
        .sum();
    assert!(width <= 216 + 2);
    assert!(r.ends_with("..."));
}

#[test]
fn the_single_width_three_character_costs_three_columns() {
    // U+17D8 is the one character the width tables give three columns.
    let text: String = "\u{17d8}".repeat(80);
    let r = truncate_output(&text, 3, 216);
    // The budget overflows at the seventy-third character; the backward scan
    // frees one three-column character and cuts there.
    let expected = format!("{}...", "\u{17d8}".repeat(71));
    assert_eq!(r, expected);
    let width: usize = r
        .chars()
        .map(|c| unicode_width::UnicodeWidthChar::width_cjk(c).unwrap_or(1))
        .sum();
    assert!(width <= 216 + 2);
}

#[test]
fn private_context_skips_truncation() {
    let long = "x".repeat(500);
    let r = generate_result_from_response(ok_response(&long), Channel::Nightly, true);
    assert_eq!(r, long);
}

#[test]
fn non_private_context_truncates_long_output() {
    let long = "x".repeat(500);
    let r = generate_result_from_response(ok_response(&long), Channel::Nightly, false);
    assert!(r.ends_with("..."));
    assert!(r.len() < 500);
}

#[test]
fn failure_picks_the_error_line_and_links_its_code() {
    let r = generate_result_from_response(
        err_response("error[E0308]: mismatched types\n --> src/main.rs:1:1"),
        Channel::Nightly,
        false,
    );
    let url = htmlescape::encode_attribute("https://doc.rust-lang.org/nightly/error-index.html#E0308");
    let expected = format!("error<a href=\"{url}\">[E0308]</a>: mismatched types");
    assert_eq!(r, expected);
    assert!(r.starts_with("error"));
    assert!(r.contains("E0308"));
}

#[test]
fn failure_skips_build_noise() {
    let r = generate_result_from_response(
        err_response("Compiling playground v0.0.1\nFinished dev\nRunning target\nerror: boom"),
        Channel::Nightly,
        false,
    );
    assert_eq!(r, "error: boom");
}

#[test]
fn failure_prefers_a_later_error_line_over_an_earlier_candidate() {
    let r = generate_result_from_response(
        err_response("warning: unused variable\nerror: real problem"),
        Channel::Nightly,
        false,
    );
    assert_eq!(r, "error: real problem");
}

#[test]
fn failure_falls_back_to_the_first_non_noise_line() {
    let r = generate_result_from_response(
        err_response("Compiling playground v0.0.1\nwarning: unused variable\nnote: here"),
        Channel::Nightly,
        false,
    );
    assert_eq!(r, "warning: unused variable");
}

#[test]
fn failure_with_nothing_left_gets_a_placeholder() {
    let r = generate_result_from_response(
        err_response("Compiling playground v0.0.1\n\nFinished dev"),
        Channel::Nightly,
        false,
    );
    assert_eq!(r, "(nothing??)");
}

#[test]
fn failure_line_is_escaped_before_enrichment() {
    let r = generate_result_from_response(
        err_response("error: expected `&str`"),
        Channel::Nightly,
        false,
    );
    assert_eq!(r, "error: expected <code>&amp;str</code>");
}

#[test]
fn backtick_spans_become_inline_code() {
    let r = generate_result_from_response(
        err_response("error: expected `;`, found `}`"),
        Channel::Nightly,
        false,
    );
    assert_eq!(r, "error: expected <code>;</code>, found <code>}</code>");
}

#[test]
fn issue_markers_link_to_the_tracker() {
    let r = generate_result_from_response(
        err_response("error: not stable yet (see issue #12345)"),
        Channel::Nightly,
        false,
    );
    assert_eq!(
        r,
        "error: not stable yet (see issue <a href=\"https://github.com/rust-lang/rust/issues/12345\">#12345</a>)"
    );
}

#[test]
fn channel_names_match_the_service() {
    assert_eq!(Channel::Stable.as_str(), "stable");
    assert_eq!(Channel::Beta.as_str(), "beta");
    assert_eq!(Channel::Nightly.as_str(), "nightly");
    assert_eq!(Channel::Nightly, Channel::Nightly);
    assert_ne!(Mode::Debug, Mode::Release);
    assert_eq!(CrateType::Bin, CrateType::Bin);
}

#[test]
fn eval_requests_normalize_the_snippet_first() {
    let req = tomorin::report::prepare_eval_request("\u{201c}hi\u{201d}");
    assert!(req.code.contains("\"hi\""));
    assert!(!req.code.contains('\u{201c}'));
}

#[test]
fn eval_requests_carry_the_fixed_shape() {
    let req = tomorin::report::prepare_eval_request("1 + 1");
    assert_eq!(req.channel, Channel::Nightly);
    assert_eq!(req.edition, "2024");
    assert_eq!(req.mode, Mode::Debug);
    assert_eq!(req.crate_type, CrateType::Bin);
    assert!(!req.tests);
    assert!(!req.backtrace);
    assert!(req.code.contains("fn main()"));
    assert!(req.code.contains("1 + 1"));
}
