//! The remote execution interface values and the result formatting rules:
//! the request and response shapes of the execution service, display-width
//! bounded truncation of successful output, and the selection and enrichment
//! of a representative error line from failed output.

use vstd::prelude::*;
use vstd::string::StringExecFns;

use crate::text::{
    chars_to_string, occurs_at, starts_with, str_chars, sub_chars, trim_chars, trim_seq,
};

verus! {

/// The release channel a snippet is evaluated on.
#[derive(Clone, Copy, Debug, PartialEq, Eq, Structural)]
pub enum Channel {
    Stable,
    Beta,
    Nightly,
}

/// The build mode of an evaluation.
#[derive(Clone, Copy, Debug, PartialEq, Eq, Structural)]
pub enum Mode {
    Debug,
    Release,
}

/// What kind of unit the service builds.
#[derive(Clone, Copy, Debug, PartialEq, Eq, Structural)]
pub enum CrateType {
    Bin,
}

pub open spec fn channel_name(c: Channel) -> Seq<char> {
    match c {
        Channel::Stable => "stable"@,
        Channel::Beta => "beta"@,
        Channel::Nightly => "nightly"@,
    }
}

impl Channel {
    pub fn as_str(self) -> (r: &'static str)
        ensures
            r@ == channel_name(self),
    {
        match self {
            Channel::Stable => "stable",
            Channel::Beta => "beta",
            Channel::Nightly => "nightly",
        }
    }
}

/// One request to the remote execution service.
pub struct Request {
    pub channel: Channel,
    pub edition: String,
    pub mode: Mode,
    pub crate_type: CrateType,
    pub tests: bool,
    pub backtrace: bool,
    pub code: String,
}

impl Request {
    /// The fixed request shape used for snippet evaluation: nightly channel,
    /// the 2024 edition, a debug build of a binary, no tests, no backtrace.
    pub fn for_eval(code: String) -> (r: Request)
        ensures
            r.channel == Channel::Nightly,
            r.edition@ == "2024"@,
            r.mode == Mode::Debug,
            r.crate_type == CrateType::Bin,
            !r.tests,
            !r.backtrace,
            r.code == code,
    {
        Request {
            channel: Channel::Nightly,
            edition: "2024".to_owned(),
            mode: Mode::Debug,
            crate_type: CrateType::Bin,
            tests: false,
            backtrace: false,
            code,
        }
    }
}

/// Build the full evaluation request for a raw snippet: the snippet is
/// normalized, assembled into a compile unit, and wrapped in the fixed
/// request shape.
pub fn prepare_eval_request(code: &str) -> (r: Request)
    ensures
        r.channel == Channel::Nightly,
        r.edition@ == "2024"@,
        r.mode == Mode::Debug,
        r.crate_type == CrateType::Bin,
        !r.tests,
        !r.backtrace,
        r.code@ == crate::snippet::generate_spec(crate::snippet::normalize_seq(code@)),
{
    let normalized = crate::snippet::normalize_unicode_chars(code);
    let generated = crate::snippet::generate_code_to_send(normalized.as_str());
    Request::for_eval(generated)
}

/// What the remote execution service answers.
pub struct Response {
    pub stderr: String,
    pub stdout: String,
    pub success: bool,
}

/// The table width of a character at or above U+00A0, as the East-Asian
/// aware width lookup gives it: at most three columns (the table packs
/// widths of zero, one or two, and its escape arm gives the one documented
/// width-three character, KHMER SIGN BEYYAL).
pub uninterp spec fn wide_cjk_width(c: char) -> usize;

/// The display width this crate budgets for one character: characters below
/// U+00A0 count one column (printable ASCII is single width, and a control
/// character defaults to one), anything else takes the width of the lookup.
pub open spec fn display_width(c: char) -> int {
    if (c as u32) < 0xa0 {
        1
    } else {
        wide_cjk_width(c) as int
    }
}

/// Relies on unicode_width's `UnicodeWidthChar::width_cjk`: characters below
/// U+0020 and in U+007F..U+00A0 are controls without a width (the default of
/// one is taken), the rest of ASCII is single width, and every other
/// character gets a table width of at most three columns.
#[verifier::external_body]
fn char_display_width(c: char) -> (w: usize)
    ensures
        w as int == display_width(c),
        (c as u32) >= 0xa0 ==> w == wide_cjk_width(c),
        w <= 3,
{
    unicode_width::UnicodeWidthChar::width_cjk(c).unwrap_or(1)
}

/// The accumulated display width of a text.
pub open spec fn width_of(s: Seq<char>) -> int
    decreases s.len(),
{
    if s.len() == 0 {
        0
    } else {
        display_width(s[0]) + width_of(s.drop_first())
    }
}

/// The marker appended where output was cut.
pub open spec fn ellipsis() -> Seq<char> {
    seq!['.', '.', '.']
}

/// Backward scan from index `k`: the index of the character at which at
/// least three display columns have accumulated, or `None` if the whole
/// prefix is narrower than that.
pub open spec fn back_cut(s: Seq<char>, k: int, acc: int) -> Option<int>
    decreases k + 1,
{
    if k < 0 || k >= s.len() {
        None
    } else {
        let a2 = acc + display_width(s[k]);
        if a2 >= 3 {
            Some(k)
        } else {
            back_cut(s, k - 1, a2)
        }
    }
}

/// The truncation scan from index `i` on, carrying the width and line count
/// accumulated so far. Where the width budget is exceeded and at least three
/// columns can be freed, the text is cut there; where the line budget fills
/// up, the text is cut at that line feed; in both cases the ellipsis marker
/// is appended.
pub open spec fn trunc_from(
    s: Seq<char>,
    i: int,
    cols: int,
    lines: int,
    maxl: int,
    maxc: int,
) -> Seq<char>
    decreases s.len() - i,
{
    if 0 <= i < s.len() {
        let c2 = cols + display_width(s[i]);
        if c2 > maxc && back_cut(s, i - 1, 0) is Some {
            s.take(back_cut(s, i - 1, 0)->Some_0) + ellipsis()
        } else if s[i] == '\n' && lines + 1 == maxl {
            s.take(i) + ellipsis()
        } else if s[i] == '\n' {
            trunc_from(s, i + 1, c2, lines + 1, maxl, maxc)
        } else {
            trunc_from(s, i + 1, c2, lines, maxl, maxc)
        }
    } else {
        s
    }
}

/// What `truncate_output` returns for the given budgets.
pub open spec fn truncate_spec(s: Seq<char>, maxl: int, maxc: int) -> Seq<char> {
    trunc_from(s, 0, 0, 0, maxl, maxc)
}

pub proof fn lemma_width_push(a: Seq<char>, c: char)
    ensures
        width_of(a.push(c)) == width_of(a) + display_width(c),
    decreases a.len(),
{
    if a.len() == 0 {
        assert(a.push(c).drop_first() =~= Seq::<char>::empty());
        assert(width_of(Seq::<char>::empty()) == 0);
        assert(a =~= Seq::<char>::empty());
    } else {
        assert(a.push(c)[0] == a[0]);
        assert(a.push(c).drop_first() =~= a.drop_first().push(c));
        lemma_width_push(a.drop_first(), c);
    }
}

pub proof fn lemma_width_concat(a: Seq<char>, b: Seq<char>)
    ensures
        width_of(a + b) == width_of(a) + width_of(b),
    decreases a.len(),
{
    if a.len() == 0 {
        assert(a + b =~= b);
    } else {
        assert((a + b)[0] == a[0]);
        assert((a + b).drop_first() =~= a.drop_first() + b);
        lemma_width_concat(a.drop_first(), b);
    }
}

proof fn lemma_width_ellipsis()
    ensures
        width_of(ellipsis()) == 3,
{
    let e = ellipsis();
    assert(display_width('.') == 1);
    assert(e.drop_first() =~= seq!['.', '.']);
    assert(seq!['.', '.'].drop_first() =~= seq!['.']);
    assert(seq!['.'].drop_first() =~= Seq::<char>::empty());
    assert(width_of(Seq::<char>::empty()) == 0);
    assert(width_of(seq!['.']) == 1);
    assert(width_of(seq!['.', '.']) == 2);
}

proof fn lemma_back_cut_some(s: Seq<char>, k: int, acc: int, j: int)
    requires
        0 <= acc,
        k < s.len(),
        back_cut(s, k, acc) == Some(j),
    ensures
        0 <= j <= k,
        acc + width_of(s.subrange(j, k + 1)) >= 3,
    decreases k + 1,
{
    let a2 = acc + display_width(s[k]);
    if a2 >= 3 {
        assert(j == k);
        assert(s.subrange(k, k + 1) =~= Seq::<char>::empty().push(s[k]));
        lemma_width_push(Seq::<char>::empty(), s[k]);
        assert(width_of(Seq::<char>::empty()) == 0);
    } else {
        lemma_back_cut_some(s, k - 1, a2, j);
        assert(s.subrange(j, k + 1) =~= s.subrange(j, k).push(s[k]));
        lemma_width_push(s.subrange(j, k), s[k]);
    }
}

proof fn lemma_back_cut_none(s: Seq<char>, k: int, acc: int)
    requires
        0 <= acc < 3,
        -1 <= k < s.len(),
        back_cut(s, k, acc) is None,
    ensures
        acc + width_of(s.subrange(0, k + 1)) < 3,
    decreases k + 1,
{
    if k < 0 {
        assert(s.subrange(0, k + 1) =~= s.subrange(0, 0));
        assert(s.subrange(0, 0) =~= Seq::<char>::empty());
        assert(width_of(Seq::<char>::empty()) == 0);
    } else {
        let a2 = acc + display_width(s[k]);
        assert(a2 < 3);
        assert(a2 >= 0);
        lemma_back_cut_none(s, k - 1, a2);
        assert(s.subrange(0, k + 1) =~= s.subrange(0, k).push(s[k]));
        lemma_width_push(s.subrange(0, k), s[k]);
    }
}

proof fn lemma_trunc_bound(s: Seq<char>, i: int, cols: int, lines: int, maxl: int, maxc: int)
    requires
        maxc >= 5,
        0 <= i <= s.len(),
        cols == width_of(s.take(i)),
        cols <= maxc,
        width_of(s) > maxc,
        forall|j: int| 0 <= j < s.len() ==> display_width(s[j]) <= 3,
    ensures
        ({
            let r = trunc_from(s, i, cols, lines, maxl, maxc);
            width_of(r) <= maxc + 2 && r.len() >= 3 && r.skip(r.len() - 3) == ellipsis()
        }),
    decreases s.len() - i,
{
    lemma_width_ellipsis();
    if i == s.len() {
        assert(s.take(i) =~= s);
        assert(false);
    } else {
        let c2 = cols + display_width(s[i]);
        assert(s.take(i + 1) =~= s.take(i).push(s[i]));
        lemma_width_push(s.take(i), s[i]);
        if c2 > maxc {
            // The prefix is at least three columns wide, so the backward
            // scan finds a cut.
            assert(display_width(s[i]) <= 3);
            assert(cols >= 3);
            if back_cut(s, i - 1, 0) is None {
                lemma_back_cut_none(s, i - 1, 0);
                assert(s.subrange(0, i) =~= s.take(i));
                assert(false);
            }
            let j = back_cut(s, i - 1, 0)->Some_0;
            lemma_back_cut_some(s, i - 1, 0, j);
            let r = s.take(j) + ellipsis();
            assert(trunc_from(s, i, cols, lines, maxl, maxc) == r);
            assert(s.take(i) =~= s.take(j) + s.subrange(j, i));
            lemma_width_concat(s.take(j), s.subrange(j, i));
            lemma_width_concat(s.take(j), ellipsis());
            assert(width_of(s.take(j)) <= maxc - 3);
            assert(width_of(r) <= maxc);
            assert(r.len() == j + 3);
            assert(r.skip(r.len() - 3) =~= ellipsis());
        } else if s[i] == '\n' && lines + 1 == maxl {
            let r = s.take(i) + ellipsis();
            assert(trunc_from(s, i, cols, lines, maxl, maxc) == r);
            assert(display_width('\n') == 1);
            assert(cols == c2 - 1);
            lemma_width_concat(s.take(i), ellipsis());
            assert(width_of(r) <= maxc + 2);
            assert(r.len() == i + 3);
            assert(r.skip(r.len() - 3) =~= ellipsis());
        } else {
            assert(c2 <= maxc);
            lemma_trunc_bound(s, i + 1, c2, if s[i] == '\n' {
                lines + 1
            } else {
                lines
            }, maxl, maxc);
        }
    }
}

/// The width-bounded truncation law: where the accumulated display width of
/// the text exceeds a budget of at least five columns, the truncated result
/// ends with the ellipsis marker and never exceeds the budget by more than
/// two display columns. The last hypothesis records what the width lookup
/// guarantees of every character, a width of at most three columns, as the
/// trusted width item states of each character it is asked about.
pub proof fn lemma_truncate_width_bound(s: Seq<char>, maxl: int, maxc: int)
    requires
        maxc >= 5,
        width_of(s) > maxc,
        forall|j: int| 0 <= j < s.len() ==> display_width(s[j]) <= 3,
    ensures
        ({
            let r = truncate_spec(s, maxl, maxc);
            width_of(r) <= maxc + 2 && r.len() >= 3 && r.skip(r.len() - 3) == ellipsis()
        }),
{
    assert(s.take(0) =~= Seq::<char>::empty());
    assert(width_of(Seq::<char>::empty()) == 0);
    lemma_trunc_bound(s, 0, 0, 0, maxl, maxc);
}

fn back_cut_x(v: &Vec<char>, i: usize) -> (r: Option<usize>)
    requires
        i <= v@.len(),
    ensures
        match r {
            Some(j) => back_cut(v@, i as int - 1, 0) == Some(j as int) && j < i,
            None => back_cut(v@, i as int - 1, 0) is None,
        },
{
    let mut k = i;
    let mut acc: u128 = 0;
    loop
        invariant
            k <= i <= v@.len(),
            acc <= 3 * (i as u128),
            back_cut(v@, i as int - 1, 0) == back_cut(v@, k as int - 1, acc as int),
        decreases k,
    {
        if k == 0 {
            return None;
        }
        let w = char_display_width(v[k - 1]);
        let a2 = acc + w as u128;
        if a2 >= 3 {
            return Some(k - 1);
        }
        proof {
            assert(display_width(v@[k as int - 1]) <= 3);
        }
        acc = a2;
        k -= 1;
    }
}

/// Truncate `output` to at most `max_lines` lines and a display width near
/// `max_total_columns`, appending the ellipsis marker at a cut.
pub fn truncate_output(output: &str, max_lines: usize, max_total_columns: usize) -> (r: String)
    ensures
        r@ == truncate_spec(output@, max_lines as int, max_total_columns as int),
{
    let v = str_chars(output);
    let n = v.len();
    let mut i: usize = 0;
    let mut cols: u128 = 0;
    let mut lines: usize = 0;
    while i < n
        invariant
            v@ == output@,
            n == v@.len(),
            i <= n,
            lines <= i,
            cols <= 3 * (i as u128),
            truncate_spec(v@, max_lines as int, max_total_columns as int) == trunc_from(
                v@,
                i as int,
                cols as int,
                lines as int,
                max_lines as int,
                max_total_columns as int,
            ),
        decreases n - i,
    {
        let w = char_display_width(v[i]);
        proof {
            assert(display_width(v@[i as int]) <= 3);
        }
        let c2 = cols + w as u128;
        if c2 > max_total_columns as u128 {
            match back_cut_x(&v, i) {
                Some(j) => {
                    let mut r = sub_chars(&v, 0, j);
                    r.push('.');
                    r.push('.');
                    r.push('.');
                    proof {
                        assert(r@ =~= v@.take(j as int) + ellipsis());
                        assert(cols as int + display_width(v@[i as int]) > max_total_columns
                            as int);
                        assert(trunc_from(
                            v@,
                            i as int,
                            cols as int,
                            lines as int,
                            max_lines as int,
                            max_total_columns as int,
                        ) == v@.take(j as int) + ellipsis());
                    }
                    return chars_to_string(&r);
                },
                None => {},
            }
        }
        if v[i] == '\n' {
            if lines + 1 == max_lines {
                let mut r = sub_chars(&v, 0, i);
                r.push('.');
                r.push('.');
                r.push('.');
                proof {
                    assert(r@ =~= v@.take(i as int) + ellipsis());
                    assert(trunc_from(
                        v@,
                        i as int,
                        cols as int,
                        lines as int,
                        max_lines as int,
                        max_total_columns as int,
                    ) == v@.take(i as int) + ellipsis());
                }
                return chars_to_string(&r);
            }
            lines += 1;
        }
        cols = c2;
        i += 1;
    }
    chars_to_string(&v)
}

/// What one character becomes under the minimal HTML encoding: the five
/// markup-significant characters become entities, the rest stay.
pub open spec fn encode_minimal_char(c: char) -> Seq<char> {
    if c == '"' {
        seq!['&', 'q', 'u', 'o', 't', ';']
    } else if c == '&' {
        seq!['&', 'a', 'm', 'p', ';']
    } else if c == '\'' {
        seq!['&', '#', 'x', '2', '7', ';']
    } else if c == '<' {
        seq!['&', 'l', 't', ';']
    } else if c == '>' {
        seq!['&', 'g', 't', ';']
    } else {
        seq![c]
    }
}

pub open spec fn encode_minimal_seq(s: Seq<char>) -> Seq<char>
    decreases s.len(),
{
    if s.len() == 0 {
        Seq::empty()
    } else {
        encode_minimal_char(s[0]) + encode_minimal_seq(s.drop_first())
    }
}

pub open spec fn is_digit_char(c: char) -> bool {
    0x30 <= (c as u32) && (c as u32) <= 0x39
}

pub open spec fn is_alnum_char(c: char) -> bool {
    (0x61 <= (c as u32) && (c as u32) <= 0x7a) || (0x41 <= (c as u32) && (c as u32) <= 0x5a)
        || is_digit_char(c)
}

/// The uppercase hexadecimal digit of a value below sixteen.
pub open spec fn hex_digit(n: int) -> char {
    if 0 <= n && n < 10 {
        (0x30 + n) as char
    } else if 10 <= n && n < 16 {
        (0x41 + (n - 10)) as char
    } else {
        '0'
    }
}

/// What one character becomes under the attribute HTML encoding: the five
/// entities as in the minimal encoding; any other Latin-1 character that is
/// not an ASCII letter or digit becomes a hexadecimal reference of its byte;
/// the rest stay.
pub open spec fn encode_attribute_char(c: char) -> Seq<char> {
    if c == '"' || c == '&' || c == '\'' || c == '<' || c == '>' {
        encode_minimal_char(c)
    } else if (c as u32) < 256 && ((c as u32) > 127 || !is_alnum_char(c)) {
        seq!['&', '#', 'x', hex_digit((c as u32) as int / 16), hex_digit((c as u32) as int % 16), ';']
    } else {
        seq![c]
    }
}

pub open spec fn encode_attribute_seq(s: Seq<char>) -> Seq<char>
    decreases s.len(),
{
    if s.len() == 0 {
        Seq::empty()
    } else {
        encode_attribute_char(s[0]) + encode_attribute_seq(s.drop_first())
    }
}

/// Relies on htmlescape::encode_minimal: each of the five
/// markup-significant characters becomes its entity, character by character.
#[verifier::external_body]
fn encode_minimal_str(s: &str) -> (r: String)
    ensures
        r@ == encode_minimal_seq(s@),
{
    htmlescape::encode_minimal(s)
}

/// Relies on htmlescape::encode_attribute: the minimal entities, plus a
/// hexadecimal character reference for every other non-alphanumeric Latin-1
/// character, character by character.
#[verifier::external_body]
fn encode_attribute_str(s: &str) -> (r: String)
    ensures
        r@ == encode_attribute_seq(s@),
{
    htmlescape::encode_attribute(s)
}

/// A build-progress noise line: blank, or one of the progress prefixes.
pub open spec fn is_noise_line(l: Seq<char>) -> bool {
    l.len() == 0 || occurs_at(l, "Compiling"@, 0) || occurs_at(l, "Finished"@, 0) || occurs_at(
        l,
        "Running"@,
        0,
    )
}

pub open spec fn starts_error(l: Seq<char>) -> bool {
    occurs_at(l, "error"@, 0)
}

/// The first line whose trimmed text starts with the error marker.
pub open spec fn first_error_line(ls: Seq<Seq<char>>) -> Option<Seq<char>>
    decreases ls.len(),
{
    if ls.len() == 0 {
        None
    } else if starts_error(trim_seq(ls[0])) {
        Some(trim_seq(ls[0]))
    } else {
        first_error_line(ls.drop_first())
    }
}

/// The representative line of a failure: scanning top to bottom and trimming
/// each line, noise is skipped; the first line starting with the error marker
/// wins; otherwise the first non-noise line seen is kept, but a later error
/// line still takes precedence over it.
pub open spec fn pick_line(ls: Seq<Seq<char>>) -> Option<Seq<char>>
    decreases ls.len(),
{
    if ls.len() == 0 {
        None
    } else {
        let l = trim_seq(ls[0]);
        if is_noise_line(l) {
            pick_line(ls.drop_first())
        } else if starts_error(l) {
            Some(l)
        } else {
            match first_error_line(ls.drop_first()) {
                Some(e) => Some(e),
                None => Some(l),
            }
        }
    }
}

/// The line carries a leading `error[E` then four digits then `]:`.
pub open spec fn has_error_code(l: Seq<char>) -> bool {
    l.len() >= 13 && occurs_at(l, "error["@, 0) && l[6] == 'E' && is_digit_char(l[7])
        && is_digit_char(l[8]) && is_digit_char(l[9]) && is_digit_char(l[10]) && l[11] == ']'
        && l[12] == ':'
}

/// The five-character error code, `E` and its four digits.
pub open spec fn error_code_of(l: Seq<char>) -> Seq<char> {
    l.subrange(6, 11)
}

/// The documentation address of an error code on the given channel.
pub open spec fn error_url(l: Seq<char>, channel: Channel) -> Seq<char> {
    "https://doc.rust-lang.org/"@ + channel_name(channel) + "/error-index.html#"@ + error_code_of(
        l,
    )
}

/// The first enrichment: a leading error-code marker is rewritten into a
/// hyperlink to that code's documentation anchor.
pub open spec fn error_link_spec(l: Seq<char>, channel: Channel) -> Seq<char> {
    if has_error_code(l) {
        "error<a href=\""@ + encode_attribute_seq(error_url(l, channel)) + "\">["@
            + error_code_of(l) + "]</a>:"@ + l.skip(13)
    } else {
        l
    }
}

/// The first backtick at or after `j`, or `-1` if there is none.
pub open spec fn next_tick(s: Seq<char>, j: int) -> int
    decreases s.len() - j,
{
    if 0 <= j < s.len() {
        if s[j] == '`' {
            j
        } else {
            next_tick(s, j + 1)
        }
    } else {
        -1
    }
}

pub proof fn lemma_next_tick(s: Seq<char>, j: int)
    requires
        0 <= j <= s.len(),
    ensures
        next_tick(s, j) == -1 || j <= next_tick(s, j) < s.len(),
    decreases s.len() - j,
{
    if j < s.len() && s[j] != '`' {
        lemma_next_tick(s, j + 1);
    }
}

pub open spec fn has_newline_between(s: Seq<char>, a: int, b: int) -> bool {
    exists|m: int| a <= m < b && s[m] == '\n'
}

/// The second enrichment, from position `i` on: every backtick-delimited
/// span of at least one character, not crossing a line feed, is rewritten
/// into an inline-code span.
pub open spec fn code_spans_from(s: Seq<char>, i: int) -> Seq<char>
    decreases s.len() - i,
{
    if 0 <= i < s.len() {
        if s[i] == '`' {
            let j = next_tick(s, i + 2);
            if i + 2 <= j < s.len() && !has_newline_between(s, i + 1, j) {
                "<code>"@ + s.subrange(i + 1, j) + "</code>"@ + code_spans_from(s, j + 1)
            } else {
                seq![s[i]] + code_spans_from(s, i + 1)
            }
        } else {
            seq![s[i]] + code_spans_from(s, i + 1)
        }
    } else {
        Seq::empty()
    }
}

/// The first index at or after `j` holding a non-digit character.
pub open spec fn scan_digits(s: Seq<char>, j: int) -> int
    decreases s.len() - j,
{
    if 0 <= j < s.len() && is_digit_char(s[j]) {
        scan_digits(s, j + 1)
    } else {
        j
    }
}

pub proof fn lemma_scan_digits(s: Seq<char>, j: int)
    requires
        0 <= j <= s.len(),
    ensures
        j <= scan_digits(s, j) <= s.len(),
    decreases s.len() - j,
{
    if 0 <= j < s.len() && is_digit_char(s[j]) {
        lemma_scan_digits(s, j + 1);
    }
}

/// An issue marker `(see issue #` with at least one digit and a closing
/// parenthesis starts at `i`.
pub open spec fn issue_at(s: Seq<char>, i: int) -> bool {
    occurs_at(s, "(see issue #"@, i) && scan_digits(s, i + 12) > i + 12 && scan_digits(s, i + 12)
        < s.len() && s[scan_digits(s, i + 12)] == ')'
}

/// The first index at or after `i` where an issue marker starts, or `-1`.
pub open spec fn find_issue_from(s: Seq<char>, i: int) -> int
    decreases s.len() - i,
{
    if 0 <= i < s.len() {
        if issue_at(s, i) {
            i
        } else {
            find_issue_from(s, i + 1)
        }
    } else {
        -1
    }
}

/// The third enrichment: the first issue marker is rewritten into a
/// hyperlink to the public issue tracker entry.
pub open spec fn issue_link_spec(s: Seq<char>) -> Seq<char> {
    let m = find_issue_from(s, 0);
    if m >= 0 {
        let de = scan_digits(s, m + 12);
        let num = s.subrange(m + 12, de);
        s.take(m) + "(see issue <a href=\"https://github.com/rust-lang/rust/issues/"@ + num
            + "\">#"@ + num + "</a>)"@ + s.skip(de + 1)
    } else {
        s
    }
}

proof fn lemma_code_spans_absent(s: Seq<char>, i: int)
    requires
        0 <= i <= s.len(),
        forall|j: int| i <= j < s.len() ==> s[j] != '`',
    ensures
        code_spans_from(s, i) == s.skip(i),
    decreases s.len() - i,
{
    if 0 <= i < s.len() {
        lemma_code_spans_absent(s, i + 1);
        assert(seq![s[i]] + s.skip(i + 1) =~= s.skip(i));
    } else {
        assert(s.skip(i) =~= Seq::<char>::empty());
    }
}

proof fn lemma_find_issue_none(s: Seq<char>, i: int)
    requires
        0 <= i <= s.len(),
        forall|j: int| !issue_at(s, j),
    ensures
        find_issue_from(s, i) == -1,
    decreases s.len() - i,
{
    if 0 <= i < s.len() {
        lemma_find_issue_none(s, i + 1);
    }
}

proof fn lemma_issue_link_absent(s: Seq<char>)
    requires
        forall|j: int| !issue_at(s, j),
    ensures
        issue_link_spec(s) == s,
{
    lemma_find_issue_none(s, 0);
}

/// The escaped representative line of a failure, where one exists.
pub open spec fn picked_escaped_line(stderr: Seq<char>) -> Seq<char> {
    encode_minimal_seq(pick_line(crate::text::split_lines_seq(stderr))->Some_0)
}

/// The error-code linking law: where the representative line of a failure
/// starts with an error-code marker, and the linked line leaves the later
/// enrichments nothing to rewrite (no backtick, no issue marker), the whole
/// failure report is exactly that line with its code wrapped in a hyperlink
/// to the code's documentation anchor on the given channel.
pub proof fn lemma_failure_report_links_error_code(stderr: Seq<char>, channel: Channel)
    requires
        pick_line(crate::text::split_lines_seq(stderr)) is Some,
        has_error_code(picked_escaped_line(stderr)),
        forall|j: int|
            0 <= j < error_link_spec(picked_escaped_line(stderr), channel).len()
                ==> error_link_spec(picked_escaped_line(stderr), channel)[j] != '`',
        forall|j: int| !issue_at(error_link_spec(picked_escaped_line(stderr), channel), j),
    ensures
        failure_report(stderr, channel) == "error<a href=\""@ + encode_attribute_seq(
            error_url(picked_escaped_line(stderr), channel),
        ) + "\">["@ + error_code_of(picked_escaped_line(stderr)) + "]</a>:"@
            + picked_escaped_line(stderr).skip(13),
{
    let e = picked_escaped_line(stderr);
    let linked = error_link_spec(e, channel);
    lemma_code_spans_absent(linked, 0);
    assert(linked.skip(0) =~= linked);
    lemma_issue_link_absent(linked);
}

/// How many lines and columns a non-private success report may fill.
pub open spec fn report_max_lines() -> int {
    3
}

pub open spec fn report_max_columns() -> int {
    216
}

/// The report of a successful evaluation: trimmed output, truncated unless
/// the context is private, a fixed placeholder where nothing remains, and
/// minimal HTML escaping.
pub open spec fn success_report(stdout: Seq<char>, is_private: bool) -> Seq<char> {
    let t = trim_seq(stdout);
    let o = if is_private {
        t
    } else {
        truncate_spec(t, report_max_lines(), report_max_columns())
    };
    if o.len() == 0 {
        "(no output)"@
    } else {
        encode_minimal_seq(o)
    }
}

/// The report of a failed evaluation: the representative line, escaped and
/// then enriched three times, or a fixed placeholder where no line remains.
pub open spec fn failure_report(stderr: Seq<char>, channel: Channel) -> Seq<char> {
    match pick_line(crate::text::split_lines_seq(stderr)) {
        Some(l) => issue_link_spec(
            code_spans_from(error_link_spec(encode_minimal_seq(l), channel), 0),
        ),
        None => "(nothing??)"@,
    }
}

/// What `generate_result_from_response` returns.
pub open spec fn result_spec(
    stdout: Seq<char>,
    stderr: Seq<char>,
    success: bool,
    channel: Channel,
    is_private: bool,
) -> Seq<char> {
    if success {
        success_report(stdout, is_private)
    } else {
        failure_report(stderr, channel)
    }
}

fn pick_line_x(lines: &Vec<Vec<char>>) -> (r: Option<Vec<char>>)
    ensures
        match r {
            Some(l) => pick_line(lines@.map_values(|x: Vec<char>| x@)) == Some(l@),
            None => pick_line(lines@.map_values(|x: Vec<char>| x@)) is None,
        },
{
    let ghost views = lines@.map_values(|x: Vec<char>| x@);
    let noise1 = str_chars("Compiling");
    let noise2 = str_chars("Finished");
    let noise3 = str_chars("Running");
    let err_pat = str_chars("error");
    let n = lines.len();
    let mut k: usize = 0;
    proof {
        assert(views.skip(0) =~= views);
    }
    while k < n
        invariant
            n == views.len(),
            views == lines@.map_values(|x: Vec<char>| x@),
            k <= n,
            noise1@ == "Compiling"@,
            noise2@ == "Finished"@,
            noise3@ == "Running"@,
            err_pat@ == "error"@,
            pick_line(views) == pick_line(views.skip(k as int)),
        decreases n - k,
    {
        let l = trim_chars(&lines[k]);
        let noise = l.len() == 0 || starts_with(&l, &noise1) || starts_with(&l, &noise2)
            || starts_with(&l, &noise3);
        proof {
            assert(views.skip(k as int)[0] == views[k as int]);
            assert(views.skip(k as int).drop_first() =~= views.skip(k as int + 1));
        }
        if !noise {
            if starts_with(&l, &err_pat) {
                return Some(l);
            }
            // A later error line still takes precedence over this candidate.
            let mut m: usize = k + 1;
            proof {
                assert(views.skip(k as int + 1) =~= views.skip(m as int));
            }
            while m < n
                invariant
                    n == views.len(),
                    views == lines@.map_values(|x: Vec<char>| x@),
                    k < m <= n,
                    err_pat@ == "error"@,
                    l@ == trim_seq(views[k as int]),
                    !is_noise_line(l@),
                    !starts_error(l@),
                    pick_line(views) == pick_line(views.skip(k as int)),
                    first_error_line(views.skip(k as int + 1)) == first_error_line(
                        views.skip(m as int),
                    ),
                decreases n - m,
            {
                let e = trim_chars(&lines[m]);
                proof {
                    assert(views.skip(m as int)[0] == views[m as int]);
                    assert(views.skip(m as int).drop_first() =~= views.skip(m as int + 1));
                    assert(views.skip(k as int)[0] == views[k as int]);
                    assert(views.skip(k as int).drop_first() =~= views.skip(k as int + 1));
                }
                if starts_with(&e, &err_pat) {
                    return Some(e);
                }
                m += 1;
            }
            proof {
                assert(views.skip(n as int) =~= Seq::<Seq<char>>::empty());
            }
            return Some(l);
        }
        k += 1;
    }
    proof {
        assert(views.skip(n as int) =~= Seq::<Seq<char>>::empty());
    }
    None
}

fn error_link_x(l: &Vec<char>, channel: Channel) -> (r: Vec<char>)
    ensures
        r@ == error_link_spec(l@, channel),
{
    let pat = str_chars("error[");
    let mut marked = l.len() >= 13 && crate::text::matches_at(l, &pat, 0);
    if marked {
        let c7 = l[7] as u32;
        let c8 = l[8] as u32;
        let c9 = l[9] as u32;
        let c10 = l[10] as u32;
        let colon = l[12];
        marked = l[6] == 'E' && 0x30 <= c7 && c7 <= 0x39 && 0x30 <= c8 && c8 <= 0x39 && 0x30
            <= c9 && c9 <= 0x39 && 0x30 <= c10 && c10 <= 0x39 && l[11] == ']' && colon == ':';
    }
    if !marked {
        return sub_chars(l, 0, l.len());
    }
    let code = sub_chars(l, 6, 11);
    let code_s = chars_to_string(&code);
    let mut url = String::new();
    url.append("https://doc.rust-lang.org/");
    url.append(channel.as_str());
    url.append("/error-index.html#");
    url.append(code_s.as_str());
    proof {
        assert(url@ =~= error_url(l@, channel));
    }
    let enc = encode_attribute_str(url.as_str());
    let enc_v = str_chars(enc.as_str());
    let mut out = str_chars("error<a href=\"");
    crate::text::push_all(&mut out, &enc_v);
    let mid = str_chars("\">[");
    crate::text::push_all(&mut out, &mid);
    crate::text::push_all(&mut out, &code);
    let tail = str_chars("]</a>:");
    crate::text::push_all(&mut out, &tail);
    let rest = sub_chars(l, 13, l.len());
    crate::text::push_all(&mut out, &rest);
    proof {
        assert(out@ =~= error_link_spec(l@, channel));
    }
    out
}

fn next_tick_x(v: &Vec<char>, j: usize) -> (r: Option<usize>)
    requires
        j <= v@.len(),
    ensures
        match r {
            Some(t) => next_tick(v@, j as int) == t as int && j <= t < v@.len(),
            None => next_tick(v@, j as int) == -1,
        },
{
    let mut t = j;
    while t < v.len()
        invariant
            j <= t <= v@.len(),
            next_tick(v@, j as int) == next_tick(v@, t as int),
        decreases v@.len() - t,
    {
        if v[t] == '`' {
            return Some(t);
        }
        t += 1;
    }
    None
}

fn has_newline_between_x(v: &Vec<char>, a: usize, b: usize) -> (r: bool)
    requires
        a <= b <= v@.len(),
    ensures
        r == has_newline_between(v@, a as int, b as int),
{
    let mut m = a;
    while m < b
        invariant
            a <= m <= b <= v@.len(),
            forall|x: int| a <= x < m ==> v@[x] != '\n',
        decreases b - m,
    {
        if v[m] == '\n' {
            return true;
        }
        m += 1;
    }
    false
}

fn code_spans_x(l: &Vec<char>) -> (r: Vec<char>)
    ensures
        r@ == code_spans_from(l@, 0),
{
    let n = l.len();
    let mut out: Vec<char> = Vec::new();
    let mut i: usize = 0;
    proof {
        assert(out@ + code_spans_from(l@, 0) =~= code_spans_from(l@, 0));
    }
    while i < n
        invariant
            n == l@.len(),
            i <= n,
            code_spans_from(l@, 0) == out@ + code_spans_from(l@, i as int),
        decreases n - i,
    {
        let ghost out0 = out@;
        let c = l[i];
        let mut plain = true;
        if c == '`' && n - i >= 2 {
            match next_tick_x(l, i + 2) {
                Some(j) => {
                    if !has_newline_between_x(l, i + 1, j) {
                        let open_tag = str_chars("<code>");
                        crate::text::push_all(&mut out, &open_tag);
                        let content = sub_chars(l, i + 1, j);
                        crate::text::push_all(&mut out, &content);
                        let close_tag = str_chars("</code>");
                        crate::text::push_all(&mut out, &close_tag);
                        proof {
                            assert(out@ =~= out0 + ("<code>"@ + l@.subrange(i as int + 1, j as int)
                                + "</code>"@));
                            assert(code_spans_from(l@, i as int) == ("<code>"@ + l@.subrange(
                                i as int + 1,
                                j as int,
                            ) + "</code>"@) + code_spans_from(l@, j as int + 1));
                            assert(out0 + (("<code>"@ + l@.subrange(i as int + 1, j as int)
                                + "</code>"@) + code_spans_from(l@, j as int + 1)) =~= (out0 + (
                            "<code>"@ + l@.subrange(i as int + 1, j as int) + "</code>"@))
                                + code_spans_from(l@, j as int + 1));
                        }
                        i = j + 1;
                        plain = false;
                    }
                },
                None => {},
            }
        }
        if plain {
            proof {
                assert(n - i < 2 && l@[i as int] == '`' ==> next_tick(l@, i as int + 2) == -1);
                assert(code_spans_from(l@, i as int) == seq![l@[i as int]] + code_spans_from(
                    l@,
                    i as int + 1,
                ));
                assert(out0.push(l@[i as int]) + code_spans_from(l@, i as int + 1) =~= out0 + (
                seq![l@[i as int]] + code_spans_from(l@, i as int + 1)));
            }
            out.push(c);
            i += 1;
        }
    }
    proof {
        assert(out@ + code_spans_from(l@, n as int) =~= out@);
    }
    out
}

fn issue_link_x(l: &Vec<char>) -> (r: Vec<char>)
    ensures
        r@ == issue_link_spec(l@),
{
    let n = l.len();
    let pat = str_chars("(see issue #");
    let mut i: usize = 0;
    while i < n
        invariant
            n == l@.len(),
            i <= n,
            pat@ == "(see issue #"@,
            find_issue_from(l@, 0) == find_issue_from(l@, i as int),
        decreases n - i,
    {
        if crate::text::matches_at(l, &pat, i) {
            proof {
                reveal_strlit("(see issue #");
                assert(pat@.len() == 12);
            }
            // Scan the digits after the marker.
            let mut de = i + 12;
            while de < n && l[de] as u32 >= 0x30 && l[de] as u32 <= 0x39
                invariant
                    n == l@.len(),
                    i + 12 <= de <= n,
                    scan_digits(l@, i as int + 12) == scan_digits(l@, de as int),
                decreases n - de,
            {
                de += 1;
            }
            if de > i + 12 && de < n && l[de] == ')' {
                proof {
                    assert(issue_at(l@, i as int));
                }
                let num = sub_chars(l, i + 12, de);
                let mut out = sub_chars(l, 0, i);
                let part1 = str_chars("(see issue <a href=\"https://github.com/rust-lang/rust/issues/");
                crate::text::push_all(&mut out, &part1);
                crate::text::push_all(&mut out, &num);
                let part2 = str_chars("\">#");
                crate::text::push_all(&mut out, &part2);
                crate::text::push_all(&mut out, &num);
                let part3 = str_chars("</a>)");
                crate::text::push_all(&mut out, &part3);
                let rest = sub_chars(l, de + 1, n);
                crate::text::push_all(&mut out, &rest);
                proof {
                    assert(out@ =~= issue_link_spec(l@));
                }
                return out;
            }
            proof {
                assert(!issue_at(l@, i as int));
            }
        }
        i += 1;
    }
    proof {
        assert(find_issue_from(l@, n as int) == -1);
    }
    sub_chars(l, 0, n)
}

/// Turn a structured execution result into the bounded, escaped, enriched
/// report text.
pub fn generate_result_from_response(resp: Response, channel: Channel, is_private: bool) -> (r:
    String)
    ensures
        r@ == result_spec(resp.stdout@, resp.stderr@, resp.success, channel, is_private),
{
    if resp.success {
        let sv = str_chars(resp.stdout.as_str());
        let t = trim_chars(&sv);
        let t_s = chars_to_string(&t);
        let o = if is_private {
            t_s
        } else {
            truncate_output(t_s.as_str(), 3, 216)
        };
        let ov = str_chars(o.as_str());
        if ov.len() == 0 {
            return "(no output)".to_owned();
        }
        encode_minimal_str(o.as_str())
    } else {
        let ev = str_chars(resp.stderr.as_str());
        let lines = crate::text::split_lines(&ev);
        match pick_line_x(&lines) {
            Some(l) => {
                let e_s = encode_minimal_str(chars_to_string(&l).as_str());
                let e = str_chars(e_s.as_str());
                let linked = error_link_x(&e, channel);
                let spanned = code_spans_x(&linked);
                let done = issue_link_x(&spanned);
                chars_to_string(&done)
            },
            None => "(nothing??)".to_owned(),
        }
    }
}

} // verus!
