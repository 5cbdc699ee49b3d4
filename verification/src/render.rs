//! Bounded rendering of live command output: the aggregate buffer of one
//! execution, the window of lines actually shown, the style annotations put
//! on the rendered text, and the report texts for spawn failures, snippet
//! results, help and status.

use vstd::prelude::*;
use vstd::string::StringExecFns;

use crate::text::{
    chars_to_string, join_lines, push_all, push_char, split_lines, split_lines_seq, str_chars,
    sub_chars, tail_join, trim_chars, trim_seq,
};

verus! {

/// The style a rendered block is tagged with.
#[derive(Clone, Copy, Debug, PartialEq, Eq, Structural)]
pub enum StyleTag {
    StdOut,
    StdErr,
    Rust,
    Output,
}

pub open spec fn tag_language(t: StyleTag) -> Seq<char> {
    match t {
        StyleTag::StdOut => "StdOut"@,
        StyleTag::StdErr => "StdErr"@,
        StyleTag::Rust => "Rust"@,
        StyleTag::Output => "Output"@,
    }
}

impl StyleTag {
    pub fn language(self) -> (r: &'static str)
        ensures
            r@ == tag_language(self),
    {
        match self {
            StyleTag::StdOut => "StdOut",
            StyleTag::StdErr => "StdErr",
            StyleTag::Rust => "Rust",
            StyleTag::Output => "Output",
        }
    }
}

/// One fixed-width styled region of a rendered text: a character offset, a
/// character count, and the style of the region.
#[derive(Clone, Copy, Debug, PartialEq, Eq, Structural)]
pub struct Annotation {
    pub offset: usize,
    pub length: usize,
    pub tag: StyleTag,
}

/// A rendered text with its style annotations, ready to hand to the
/// message-update collaborator.
pub struct RenderedReport {
    pub text: String,
    pub annotations: Vec<Annotation>,
}

/// How many lines of output one rendered window may show.
pub const MAX_RENDER_LINES: usize = 30;

/// The fixed hint line put before the kept tail when earlier output was
/// discarded.
pub open spec fn hint_line() -> Seq<char> {
    "\u{4ee5}\u{4e0a}\u{884c}\u{6570}\u{88ab}\u{675c}\u{53d4}\u{53d4}\u{5403}\u{6389}\u{4e86}\u{ff01}"@
}

/// The window of a buffer that is actually shown: the trimmed text where it
/// fits, else the hint line followed by the chronologically last `max` lines
/// in their original order.
pub open spec fn window_seq(s: Seq<char>, max: int) -> Seq<char> {
    let t = trim_seq(s);
    let ls = split_lines_seq(t);
    if ls.len() > max {
        hint_line() + seq!['\n'] + join_lines(ls.skip(ls.len() - max))
    } else {
        t
    }
}

/// `r` is the render of buffer `s` under line budget `max`: the window text,
/// wrapped as one styled block covering all of it.
pub open spec fn is_render_of(r: RenderedReport, s: Seq<char>, max: int, tag: StyleTag) -> bool {
    &&& r.text@ == window_seq(s, max)
    &&& r.annotations@.len() == 1
    &&& r.annotations@[0].offset == 0
    &&& r.annotations@[0].length == r.text@.len()
    &&& r.annotations@[0].tag == tag
}

/// Rendering is a pure function of the buffer: two renders of the same
/// buffer under the same budget carry identical text and identical
/// annotation offsets, so the update-suppression rule can detect no-ops.
pub proof fn lemma_render_deterministic(
    r1: RenderedReport,
    r2: RenderedReport,
    s: Seq<char>,
    max: int,
    tag: StyleTag,
)
    requires
        is_render_of(r1, s, max, tag),
        is_render_of(r2, s, max, tag),
    ensures
        r1.text@ == r2.text@,
        r1.annotations@.len() == r2.annotations@.len(),
        r1.annotations@[0].offset == r2.annotations@[0].offset,
        r1.annotations@[0].length == r2.annotations@[0].length,
        r1.annotations@[0].tag == r2.annotations@[0].tag,
{
}

proof fn lemma_hint_line_has_no_newline()
    ensures
        forall|j: int| 0 <= j < hint_line().len() ==> hint_line()[j] != '\n',
{
    reveal_strlit(
        "\u{4ee5}\u{4e0a}\u{884c}\u{6570}\u{88ab}\u{675c}\u{53d4}\u{53d4}\u{5403}\u{6389}\u{4e86}\u{ff01}",
    );
    assert forall|j: int| 0 <= j < hint_line().len() implies hint_line()[j] != '\n' by {
        let h = hint_line();
        assert(h.len() == 12);
        if j == 0 {
            assert(h[0] != '\n');
        } else if j == 1 {
            assert(h[1] != '\n');
        } else if j == 2 {
            assert(h[2] != '\n');
        } else if j == 3 {
            assert(h[3] != '\n');
        } else if j == 4 {
            assert(h[4] != '\n');
        } else if j == 5 {
            assert(h[5] != '\n');
        } else if j == 6 {
            assert(h[6] != '\n');
        } else if j == 7 {
            assert(h[7] != '\n');
        } else if j == 8 {
            assert(h[8] != '\n');
        } else if j == 9 {
            assert(h[9] != '\n');
        } else if j == 10 {
            assert(h[10] != '\n');
        } else {
            assert(h[11] != '\n');
        }
    }
}

/// The truncation law of the window: where the buffer holds more lines than
/// the budget, the window holds exactly the budget plus the one hint line,
/// and the kept lines are exactly the chronologically last `max` lines of
/// the trimmed buffer, in their original order.
pub proof fn lemma_window_truncation(s: Seq<char>, max: int)
    requires
        0 < max,
        split_lines_seq(trim_seq(s)).len() > max,
    ensures
        split_lines_seq(window_seq(s, max)).len() == max + 1,
        split_lines_seq(window_seq(s, max))[0] == hint_line(),
        split_lines_seq(window_seq(s, max)).skip(1) == split_lines_seq(trim_seq(s)).skip(
            split_lines_seq(trim_seq(s)).len() - max,
        ),
{
    let t = trim_seq(s);
    let ls = split_lines_seq(t);
    let kept = ls.skip(ls.len() - max);
    let all = seq![hint_line()] + kept;
    assert(kept.len() == max);
    assert(window_seq(s, max) == hint_line() + seq!['\n'] + join_lines(kept));
    assert(join_lines(all) =~= hint_line() + seq!['\n'] + join_lines(kept)) by {
        assert(all[0] == hint_line());
        assert(all.drop_first() =~= kept);
        assert(join_lines(all) == all[0] + tail_join(all.drop_first()));
        assert(tail_join(kept) == seq!['\n'] + kept[0] + tail_join(kept.drop_first()));
        assert(join_lines(kept) == kept[0] + tail_join(kept.drop_first()));
    }
    lemma_hint_line_has_no_newline();
    crate::text::lemma_split_lines_no_newline(t);
    assert forall|k: int, j: int|
        0 <= k < all.len() && 0 <= j < all[k].len() implies #[trigger] all[k][j] != '\n' by {
        if k == 0 {
            assert(all[0] == hint_line());
        } else {
            assert(all[k] == ls[ls.len() - max + k - 1]);
        }
    }
    crate::text::lemma_split_of_join(all);
    assert(split_lines_seq(window_seq(s, max)) == all);
    assert(all.skip(1) =~= kept);
}

/// Copy the tail of a line list from index `from` on.
fn tail_lines(ls: &Vec<Vec<char>>, from: usize) -> (r: Vec<Vec<char>>)
    requires
        from <= ls@.len(),
    ensures
        r@.map_values(|l: Vec<char>| l@) == ls@.map_values(|l: Vec<char>| l@).skip(from as int),
{
    let mut r: Vec<Vec<char>> = Vec::new();
    let mut i: usize = from;
    while i < ls.len()
        invariant
            from <= i <= ls@.len(),
            r@.map_values(|l: Vec<char>| l@) == ls@.map_values(|l: Vec<char>| l@).subrange(
                from as int,
                i as int,
            ),
        decreases ls@.len() - i,
    {
        let line = sub_chars(&ls[i], 0, ls[i].len());
        proof {
            assert(line@ =~= ls@.map_values(|l: Vec<char>| l@)[i as int]);
        }
        let ghost r0 = r@;
        r.push(line);
        proof {
            let lhs = r@.map_values(|l: Vec<char>| l@);
            let rhs = ls@.map_values(|l: Vec<char>| l@).subrange(from as int, i + 1 as int);
            assert(r@ == r0.push(line));
            assert(lhs.len() == r0.len() + 1);
            assert(r0.map_values(|l: Vec<char>| l@).len() == i - from);
            assert(rhs.len() == i + 1 - from);
            assert(lhs.len() == rhs.len());
            assert forall|j: int| 0 <= j < lhs.len() implies lhs[j] == rhs[j] by {
                if j < r0.len() {
                    assert(lhs[j] == r0.map_values(|l: Vec<char>| l@)[j]);
                    assert(r0.map_values(|l: Vec<char>| l@)[j] == ls@.map_values(
                        |l: Vec<char>| l@,
                    ).subrange(from as int, i as int)[j]);
                } else {
                    assert(r@[j] == line);
                }
            }
            assert(lhs =~= rhs);
        }
        i += 1;
    }
    proof {
        assert(ls@.map_values(|l: Vec<char>| l@).subrange(from as int, ls@.len() as int)
            =~= ls@.map_values(|l: Vec<char>| l@).skip(from as int));
    }
    r
}

/// Render the window of a buffer as one styled block.
pub fn render_window(buffer: &str, max_lines: usize, tag: StyleTag) -> (r: RenderedReport)
    ensures
        is_render_of(r, buffer@, max_lines as int, tag),
{
    let v = str_chars(buffer);
    let t = trim_chars(&v);
    let ls = split_lines(&t);
    let body: Vec<char> = if ls.len() > max_lines {
        let kept = tail_lines(&ls, ls.len() - max_lines);
        let joined = crate::text::join_lines_vec(&kept);
        let mut b = str_chars(
            "\u{4ee5}\u{4e0a}\u{884c}\u{6570}\u{88ab}\u{675c}\u{53d4}\u{53d4}\u{5403}\u{6389}\u{4e86}\u{ff01}",
        );
        b.push('\n');
        push_all(&mut b, &joined);
        proof {
            assert(b@ =~= window_seq(buffer@, max_lines as int));
        }
        b
    } else {
        t
    };
    let len = body.len();
    let text = chars_to_string(&body);
    let mut annotations: Vec<Annotation> = Vec::new();
    annotations.push(Annotation { offset: 0, length: len, tag });
    RenderedReport { text, annotations }
}

/// The channel a piece of output arrived on.
#[derive(Clone, Copy, Debug, PartialEq, Eq, Structural)]
pub enum SourceChannel {
    StdOut,
    StdErr,
}

/// The echoed prompt-and-command header line a session buffer starts with.
pub open spec fn prompt_seq(cmd: Seq<char>) -> Seq<char> {
    seq!['\u{276f}', ' '] + cmd + seq!['\n']
}

/// The marker text prepended to failure reports.
pub open spec fn fail_marker() -> Seq<char> {
    seq!['\u{7b28}', '\u{ff01}', '\n']
}

/// The terminal marker line of a finished execution: a fixed success marker,
/// or the failure marker followed by the exit-status description.
pub open spec fn final_line_seq(exit_ok: bool, status: Seq<char>) -> Seq<char> {
    if exit_ok {
        "Done."@
    } else {
        fail_marker() + status
    }
}

/// The state of one live command execution: the aggregate output buffer and
/// the end-of-stream state of the two output channels. The buffer is
/// append-only and owned by one execution. An execution that produces no
/// output at all still renders deterministically: the echoed command line,
/// then the terminal marker that `finish` appends.
pub struct CmdSession {
    pub buf: String,
    pub stdout_done: bool,
    pub stderr_done: bool,
}

impl CmdSession {
    /// Start a session: the buffer holds the echoed prompt and command, and
    /// both streams are open.
    pub fn new(cmd: &str) -> (s: Self)
        ensures
            s.buf@ == prompt_seq(cmd@),
            !s.stdout_done,
            !s.stderr_done,
    {
        let mut buf = String::new();
        push_char(&mut buf, '\u{276f}');
        push_char(&mut buf, ' ');
        buf.append(cmd);
        push_char(&mut buf, '\n');
        proof {
            assert(buf@ =~= prompt_seq(cmd@));
        }
        CmdSession { buf, stdout_done: false, stderr_done: false }
    }

    /// Append one arrived line: the trimmed line plus a line feed, in
    /// arrival order whatever the channel.
    pub fn append_line(&mut self, channel: SourceChannel, line: &str)
        ensures
            final(self).buf@ == old(self).buf@ + trim_seq(line@) + seq!['\n'],
            final(self).stdout_done == old(self).stdout_done,
            final(self).stderr_done == old(self).stderr_done,
    {
        let lv = str_chars(line);
        let t = trim_chars(&lv);
        let ts = chars_to_string(&t);
        self.buf.append(ts.as_str());
        push_char(&mut self.buf, '\n');
        proof {
            assert(self.buf@ =~= old(self).buf@ + trim_seq(line@) + seq!['\n']);
        }
    }

    /// One output channel reported end-of-stream.
    pub fn close(&mut self, channel: SourceChannel)
        ensures
            final(self).buf == old(self).buf,
            final(self).stdout_done == (old(self).stdout_done || channel == SourceChannel::StdOut),
            final(self).stderr_done == (old(self).stderr_done || channel == SourceChannel::StdErr),
    {
        match channel {
            SourceChannel::StdOut => {
                self.stdout_done = true;
            },
            SourceChannel::StdErr => {
                self.stderr_done = true;
            },
        }
    }

    /// A timer tick: the current window is rendered, and the loop is over
    /// once both channels have closed.
    pub fn on_tick(&self) -> (r: (RenderedReport, bool))
        ensures
            is_render_of(r.0, self.buf@, MAX_RENDER_LINES as int, StyleTag::StdOut),
            r.1 == (self.stdout_done && self.stderr_done),
    {
        let report = render_window(self.buf.as_str(), MAX_RENDER_LINES, StyleTag::StdOut);
        (report, self.stdout_done && self.stderr_done)
    }

    /// The subprocess exited: append the terminal marker line and render one
    /// final time, styled by the exit state.
    pub fn finish(&mut self, exit_ok: bool, status: &str) -> (r: RenderedReport)
        ensures
            final(self).buf@ == old(self).buf@ + final_line_seq(exit_ok, status@) + seq!['\n'],
            final(self).stdout_done == old(self).stdout_done,
            final(self).stderr_done == old(self).stderr_done,
            is_render_of(
                r,
                final(self).buf@,
                MAX_RENDER_LINES as int,
                if exit_ok {
                    StyleTag::StdOut
                } else {
                    StyleTag::StdErr
                },
            ),
    {
        if exit_ok {
            self.buf.append("Done.");
        } else {
            push_char(&mut self.buf, '\u{7b28}');
            push_char(&mut self.buf, '\u{ff01}');
            push_char(&mut self.buf, '\n');
            self.buf.append(status);
        }
        push_char(&mut self.buf, '\n');
        proof {
            assert(self.buf@ =~= old(self).buf@ + final_line_seq(exit_ok, status@) + seq!['\n']);
        }
        let tag = if exit_ok {
            StyleTag::StdOut
        } else {
            StyleTag::StdErr
        };
        render_window(self.buf.as_str(), MAX_RENDER_LINES, tag)
    }
}

/// The report of a command whose subprocess could not be spawned: the echoed
/// command, the failure marker and the spawn error, as one error-styled
/// block. No session is started.
pub fn spawn_failure_report(cmd: &str, err: &str) -> (r: RenderedReport)
    ensures
        is_render_of(
            r,
            prompt_seq(cmd@) + fail_marker() + err@,
            MAX_RENDER_LINES as int,
            StyleTag::StdErr,
        ),
{
    let mut buf = String::new();
    push_char(&mut buf, '\u{276f}');
    push_char(&mut buf, ' ');
    buf.append(cmd);
    push_char(&mut buf, '\n');
    push_char(&mut buf, '\u{7b28}');
    push_char(&mut buf, '\u{ff01}');
    push_char(&mut buf, '\n');
    buf.append(err);
    proof {
        assert(buf@ =~= prompt_seq(cmd@) + fail_marker() + err@);
    }
    render_window(buf.as_str(), MAX_RENDER_LINES, StyleTag::StdErr)
}

/// The text of an answered snippet evaluation: the trimmed code, then the
/// trimmed response on its own lines.
pub open spec fn eval_text_seq(code: Seq<char>, resp: Seq<char>) -> Seq<char> {
    trim_seq(code) + seq!['\n'] + trim_seq(resp)
}

/// The rendered form of an answered snippet evaluation: the code block
/// styled as source, the response that follows styled as output.
pub fn eval_report(code: &str, resp: &str) -> (r: RenderedReport)
    ensures
        r.text@ == eval_text_seq(code@, resp@),
        r.annotations@.len() == 2,
        r.annotations@[0].offset == 0,
        r.annotations@[0].length == trim_seq(code@).len(),
        r.annotations@[0].tag == StyleTag::Rust,
        r.annotations@[1].offset == trim_seq(code@).len(),
        r.annotations@[1].length == trim_seq(resp@).len() + 1,
        r.annotations@[1].tag == StyleTag::Output,
{
    let cv = str_chars(code);
    let ct = trim_chars(&cv);
    let rv = str_chars(resp);
    let rt = trim_chars(&rv);
    let code_len = ct.len();
    let mut body = ct;
    body.push('\n');
    push_all(&mut body, &rt);
    proof {
        assert(body@ =~= eval_text_seq(code@, resp@));
    }
    let out_len = body.len() - code_len;
    let text = chars_to_string(&body);
    let mut annotations: Vec<Annotation> = Vec::new();
    annotations.push(Annotation { offset: 0, length: code_len, tag: StyleTag::Rust });
    annotations.push(Annotation { offset: code_len, length: out_len, tag: StyleTag::Output });
    RenderedReport { text, annotations }
}

} // verus!
