//! Classification of incoming message text: exactly one dispatch per text,
//! first match wins, and unrecognized text is no command at all. Also the
//! fixed texts answered to the help and status commands.

use vstd::prelude::*;
use vstd::string::StringExecFns;

use crate::text::{
    chars_to_string, matches_at, occurs_at, str_chars, trim_start_matches, trim_start_matches_seq,
};

verus! {

/// Where a classified message is dispatched: each variant carries what the
/// handler needs, and `Ignore` means the text is no command.
#[derive(Debug, PartialEq)]
pub enum Dispatch {
    Repeat,
    Eval(String),
    Shell(String),
    Help,
    Status,
    Ignore,
}

pub open spec fn repeat_marker() -> Seq<char> {
    "+"@
}

pub open spec fn eval_prefix() -> Seq<char> {
    "r#"@
}

pub open spec fn help_prefix() -> Seq<char> {
    "h#"@
}

pub open spec fn status_prefix() -> Seq<char> {
    "s#"@
}

/// The shell-command prefixes, both the ASCII and the full-width forms,
/// checked in this order.
pub open spec fn shell_prefixes() -> Seq<Seq<char>> {
    seq![","@, "\u{ff0c}"@, "."@, "\u{3002}"@]
}

/// The index of the first shell prefix the text starts with, or `-1`.
pub open spec fn shell_prefix_match(s: Seq<char>) -> int {
    if occurs_at(s, shell_prefixes()[0], 0) {
        0
    } else if occurs_at(s, shell_prefixes()[1], 0) {
        1
    } else if occurs_at(s, shell_prefixes()[2], 0) {
        2
    } else if occurs_at(s, shell_prefixes()[3], 0) {
        3
    } else {
        -1
    }
}

/// The routing rule: the exact repeat marker first, then the evaluate
/// prefix, then the shell prefixes as a set, then the help and status
/// markers; anything else is ignored. A prefixed payload is the text with
/// every leading copy of the prefix removed.
pub open spec fn route_ok(s: Seq<char>, d: Dispatch) -> bool {
    if s == repeat_marker() {
        d == Dispatch::Repeat
    } else if occurs_at(s, eval_prefix(), 0) {
        d matches Dispatch::Eval(c) && c@ == trim_start_matches_seq(s, eval_prefix())
    } else if shell_prefix_match(s) >= 0 {
        d matches Dispatch::Shell(c) && c@ == trim_start_matches_seq(
            s,
            shell_prefixes()[shell_prefix_match(s)],
        )
    } else if occurs_at(s, help_prefix(), 0) {
        d == Dispatch::Help
    } else if occurs_at(s, status_prefix(), 0) {
        d == Dispatch::Status
    } else {
        d == Dispatch::Ignore
    }
}

/// Classify one message text.
pub fn route(text: &str) -> (d: Dispatch)
    ensures
        route_ok(text@, d),
{
    let v = str_chars(text);
    let plus = str_chars("+");
    if v.len() == plus.len() && matches_at(&v, &plus, 0) {
        proof {
            assert(v@.subrange(0, plus@.len() as int) =~= v@);
        }
        return Dispatch::Repeat;
    }
    proof {
        if v@ == repeat_marker() {
            assert(v@.subrange(0, plus@.len() as int) =~= plus@);
            assert(occurs_at(v@, plus@, 0));
            assert(false);
        }
    }
    let evalp = str_chars("r#");
    if matches_at(&v, &evalp, 0) {
        let rest = trim_start_matches(&v, &evalp);
        return Dispatch::Eval(chars_to_string(&rest));
    }
    let shell1 = str_chars(",");
    if matches_at(&v, &shell1, 0) {
        let rest = trim_start_matches(&v, &shell1);
        return Dispatch::Shell(chars_to_string(&rest));
    }
    let shell2 = str_chars("\u{ff0c}");
    if matches_at(&v, &shell2, 0) {
        let rest = trim_start_matches(&v, &shell2);
        return Dispatch::Shell(chars_to_string(&rest));
    }
    let shell3 = str_chars(".");
    if matches_at(&v, &shell3, 0) {
        let rest = trim_start_matches(&v, &shell3);
        return Dispatch::Shell(chars_to_string(&rest));
    }
    let shell4 = str_chars("\u{3002}");
    if matches_at(&v, &shell4, 0) {
        let rest = trim_start_matches(&v, &shell4);
        return Dispatch::Shell(chars_to_string(&rest));
    }
    let helpp = str_chars("h#");
    if matches_at(&v, &helpp, 0) {
        return Dispatch::Help;
    }
    let statusp = str_chars("s#");
    if matches_at(&v, &statusp, 0) {
        return Dispatch::Status;
    }
    Dispatch::Ignore
}

/// The fixed help text.
pub open spec fn help_seq() -> Seq<char> {
    "**Available commands**:\n\n`+` - Reply to forward/repeat the message\n`r#<code>` - Evaluate Rust code\n`<prefix><command>` - Execute a shell command (e.g., `,ls`, `\u{ff0c}ls`, `.ls`, `\u{3002}ls`)\n`s#` - Show bot status\n`h#` - Show this help message"@
}

pub fn help_text() -> (r: String)
    ensures
        r@ == help_seq(),
{
    "**Available commands**:\n\n`+` - Reply to forward/repeat the message\n`r#<code>` - Evaluate Rust code\n`<prefix><command>` - Execute a shell command (e.g., `,ls`, `\u{ff0c}ls`, `.ls`, `\u{3002}ls`)\n`s#` - Show bot status\n`h#` - Show this help message".to_owned()
}

/// The status text assembled from the measured values, each already
/// formatted by the caller.
pub open spec fn status_seq(
    os: Seq<char>,
    arch: Seq<char>,
    start_time: Seq<char>,
    uptime: Seq<char>,
    now: Seq<char>,
    mem_kib: Seq<char>,
    version: Seq<char>,
) -> Seq<char> {
    "**Status**:\n\nOS - "@ + os + " - "@ + arch + "\nStart time - "@ + start_time
        + "\nUptime - "@ + uptime + "\nCurrent time - "@ + now + "\nMemory usage - "@ + mem_kib
        + " KiB\nTomorin Version - "@ + version + "\n"@
}

pub fn status_text(
    os: &str,
    arch: &str,
    start_time: &str,
    uptime: &str,
    now: &str,
    mem_kib: &str,
    version: &str,
) -> (r: String)
    ensures
        r@ == status_seq(os@, arch@, start_time@, uptime@, now@, mem_kib@, version@),
{
    let mut r = String::new();
    r.append("**Status**:\n\nOS - ");
    r.append(os);
    r.append(" - ");
    r.append(arch);
    r.append("\nStart time - ");
    r.append(start_time);
    r.append("\nUptime - ");
    r.append(uptime);
    r.append("\nCurrent time - ");
    r.append(now);
    r.append("\nMemory usage - ");
    r.append(mem_kib);
    r.append(" KiB\nTomorin Version - ");
    r.append(version);
    r.append("\n");
    proof {
        assert(r@ =~= status_seq(os@, arch@, start_time@, uptime@, now@, mem_kib@, version@));
    }
    r
}

} // verus!
