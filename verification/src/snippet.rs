//! Preparation of user-submitted code snippets for the remote execution
//! service: normalization of mistyped Unicode punctuation, extraction of the
//! leading header region (inner attributes and external-dependency
//! declarations), and assembly of the final compile unit.

use vstd::prelude::*;
use vstd::string::StringExecFns;

use crate::text::{
    contains_seq, contains_sub, chars_to_string, is_space, is_space_char, occurs_at, str_chars,
    sub_chars,
};

verus! {

/// What one character normalizes to: curly quotes become ASCII quotes, an
/// em-dash becomes two hyphens, a no-break space becomes a plain space, and
/// every other character stays itself.
pub open spec fn normalize_char(c: char) -> Seq<char> {
    if c == '\u{201c}' || c == '\u{201d}' {
        seq!['"']
    } else if c == '\u{2018}' || c == '\u{2019}' {
        seq!['\'']
    } else if c == '\u{2014}' {
        seq!['-', '-']
    } else if c == '\u{a0}' {
        seq![' ']
    } else {
        seq![c]
    }
}

pub open spec fn normalize_seq(s: Seq<char>) -> Seq<char>
    decreases s.len(),
{
    if s.len() == 0 {
        Seq::empty()
    } else {
        normalize_char(s[0]) + normalize_seq(s.drop_first())
    }
}

pub proof fn lemma_normalize_append(a: Seq<char>, b: Seq<char>)
    ensures
        normalize_seq(a + b) == normalize_seq(a) + normalize_seq(b),
    decreases a.len(),
{
    if a.len() == 0 {
        assert(a + b =~= b);
        assert(normalize_seq(a) + normalize_seq(b) =~= normalize_seq(b));
    } else {
        lemma_normalize_append(a.drop_first(), b);
        assert((a + b).drop_first() =~= a.drop_first() + b);
        assert(normalize_char(a[0]) + (normalize_seq(a.drop_first()) + normalize_seq(b)) =~= (
        normalize_char(a[0]) + normalize_seq(a.drop_first())) + normalize_seq(b));
        assert((a + b)[0] == a[0]);
    }
}

/// Over input that is purely ASCII, normalization is the identity.
pub proof fn lemma_normalize_ascii_identity(s: Seq<char>)
    requires
        forall|i: int| 0 <= i < s.len() ==> (s[i] as u32) < 128,
    ensures
        normalize_seq(s) == s,
    decreases s.len(),
{
    if s.len() == 0 {
        assert(normalize_seq(s) =~= s);
    } else {
        assert((s[0] as u32) < 128);
        assert(normalize_char(s[0]) == seq![s[0]]);
        lemma_normalize_ascii_identity(s.drop_first());
        assert(normalize_seq(s) =~= s);
    }
}

/// Normalize the mistyped Unicode characters of `input` to their ASCII
/// equivalents; any other character is kept as it is. Already-ASCII input is
/// returned unchanged without rebuilding it.
pub fn normalize_unicode_chars(input: &str) -> (r: String)
    ensures
        r@ == normalize_seq(input@),
{
    let v = str_chars(input);
    let mut ascii_only = true;
    let mut i: usize = 0;
    while i < v.len()
        invariant
            i <= v@.len(),
            ascii_only <==> forall|j: int| 0 <= j < i ==> (v@[j] as u32) < 128,
        decreases v@.len() - i,
    {
        if v[i] as u32 >= 128 {
            ascii_only = false;
        }
        i += 1;
    }
    if ascii_only {
        proof {
            lemma_normalize_ascii_identity(input@);
        }
        return input.to_owned();
    }
    let mut out: Vec<char> = Vec::new();
    let mut i: usize = 0;
    proof {
        assert(v@.take(0) =~= Seq::<char>::empty());
        assert(out@ =~= normalize_seq(v@.take(0)));
    }
    while i < v.len()
        invariant
            i <= v@.len(),
            out@ == normalize_seq(v@.take(i as int)),
        decreases v@.len() - i,
    {
        let c = v[i];
        if c == '\u{201c}' || c == '\u{201d}' {
            out.push('"');
        } else if c == '\u{2018}' || c == '\u{2019}' {
            out.push('\'');
        } else if c == '\u{2014}' {
            out.push('-');
            out.push('-');
        } else if c == '\u{a0}' {
            out.push(' ');
        } else {
            out.push(c);
        }
        proof {
            lemma_normalize_append(v@.take(i as int), seq![c]);
            assert(v@.take(i + 1 as int) =~= v@.take(i as int) + seq![c]);
            assert(normalize_seq(seq![c]) =~= normalize_char(c)) by {
                assert(seq![c].drop_first() =~= Seq::<char>::empty());
                assert(normalize_seq(Seq::<char>::empty()) =~= Seq::<char>::empty());
                assert(normalize_seq(seq![c]) == normalize_char(seq![c][0]) + normalize_seq(
                    seq![c].drop_first(),
                ));
                assert(normalize_char(c) + Seq::<char>::empty() =~= normalize_char(c));
            }
            assert(out@ =~= normalize_seq(v@.take(i as int)) + normalize_char(c));
        }
        i += 1;
    }
    proof {
        assert(v@.take(v@.len() as int) =~= v@);
    }
    chars_to_string(&out)
}

/// Whether a character counts as alphanumeric under Unicode.
pub uninterp spec fn unicode_alnum(c: char) -> bool;

/// Relies on std's `char::is_alphanumeric`: a pure classification of the
/// one character. Within ASCII, exactly the letters and digits are
/// alphanumeric.
#[verifier::external_body]
fn char_is_alphanumeric(c: char) -> (b: bool)
    ensures
        b == unicode_alnum(c),
        (c as u32) < 128 ==> b == ((0x30 <= (c as u32) && (c as u32) <= 0x39) || (0x41 <= (
        c as u32) && (c as u32) <= 0x5a) || (0x61 <= (c as u32) && (c as u32) <= 0x7a)),
{
    c.is_alphanumeric()
}

/// A character of a dependency name: a Unicode alphanumeric character or an
/// underscore.
pub open spec fn is_ident_char(c: char) -> bool {
    unicode_alnum(c) || c == '_'
}

fn is_ident(c: char) -> (b: bool)
    ensures
        b == is_ident_char(c),
{
    char_is_alphanumeric(c) || c == '_'
}

/// The first index at or after `i` holding a non-space character, or the end.
pub open spec fn skip_spaces(s: Seq<char>, i: int) -> int
    decreases s.len() - i,
{
    if i < s.len() && is_space_char(s[i]) {
        skip_spaces(s, i + 1)
    } else {
        i
    }
}

pub proof fn lemma_skip_spaces(s: Seq<char>, i: int)
    requires
        0 <= i <= s.len(),
    ensures
        i <= skip_spaces(s, i) <= s.len(),
    decreases s.len() - i,
{
    if i < s.len() && is_space_char(s[i]) {
        lemma_skip_spaces(s, i + 1);
    }
}

/// The first `]` at or after `i`, or `-1` if there is none.
pub open spec fn find_close(s: Seq<char>, i: int) -> int
    decreases s.len() - i,
{
    if i < s.len() {
        if s[i] == ']' {
            i
        } else {
            find_close(s, i + 1)
        }
    } else {
        -1
    }
}

pub proof fn lemma_find_close(s: Seq<char>, i: int)
    requires
        0 <= i <= s.len(),
    ensures
        find_close(s, i) == -1 || i <= find_close(s, i) < s.len(),
    decreases s.len() - i,
{
    if i < s.len() && s[i] != ']' {
        lemma_find_close(s, i + 1);
    }
}

/// A bracketed attribute body `[` ... `]` starting at `i`: the index just
/// after the closing bracket, if the brackets are there.
pub open spec fn parse_attr_body(s: Seq<char>, i: int) -> Option<int> {
    if 0 <= i < s.len() && s[i] == '[' {
        let j = find_close(s, i + 1);
        if j >= 0 {
            Some(j + 1)
        } else {
            None
        }
    } else {
        None
    }
}

pub proof fn lemma_parse_attr_body(s: Seq<char>, i: int)
    ensures
        parse_attr_body(s, i) matches Some(j) ==> i < j <= s.len(),
{
    if 0 <= i < s.len() && s[i] == '[' {
        lemma_find_close(s, i + 1);
    }
}

/// An outer attribute `# [ ... ]` starting at `i`.
pub open spec fn parse_outer_attr(s: Seq<char>, i: int) -> Option<int> {
    if 0 <= i < s.len() && s[i] == '#' {
        parse_attr_body(s, skip_spaces(s, i + 1))
    } else {
        None
    }
}

pub proof fn lemma_parse_outer_attr(s: Seq<char>, i: int)
    ensures
        parse_outer_attr(s, i) matches Some(j) ==> i < j <= s.len(),
{
    if 0 <= i < s.len() && s[i] == '#' {
        lemma_skip_spaces(s, i + 1);
        lemma_parse_attr_body(s, skip_spaces(s, i + 1));
    }
}

/// Zero or more adjacent outer attributes: the index after the last one.
pub open spec fn parse_outer_attrs(s: Seq<char>, i: int) -> int
    decreases s.len() - i,
{
    match parse_outer_attr(s, i) {
        Some(j) => if i < j <= s.len() {
            parse_outer_attrs(s, j)
        } else {
            i
        },
        None => i,
    }
}

pub proof fn lemma_parse_outer_attrs(s: Seq<char>, i: int)
    requires
        0 <= i <= s.len(),
    ensures
        i <= parse_outer_attrs(s, i) <= s.len(),
    decreases s.len() - i,
{
    lemma_parse_outer_attr(s, i);
    match parse_outer_attr(s, i) {
        Some(j) => {
            lemma_parse_outer_attrs(s, j);
        },
        None => {},
    }
}

/// An inner attribute `# ! [ ... ]` starting at `i`.
pub open spec fn parse_inner_attr(s: Seq<char>, i: int) -> Option<int> {
    if 0 <= i < s.len() && s[i] == '#' {
        let j = skip_spaces(s, i + 1);
        if j < s.len() && s[j] == '!' {
            parse_attr_body(s, skip_spaces(s, j + 1))
        } else {
            None
        }
    } else {
        None
    }
}

pub proof fn lemma_parse_inner_attr(s: Seq<char>, i: int)
    ensures
        parse_inner_attr(s, i) matches Some(j) ==> i < j <= s.len(),
{
    if 0 <= i < s.len() && s[i] == '#' {
        lemma_skip_spaces(s, i + 1);
        let j = skip_spaces(s, i + 1);
        if j < s.len() && s[j] == '!' {
            lemma_skip_spaces(s, j + 1);
            lemma_parse_attr_body(s, skip_spaces(s, j + 1));
        }
    }
}

/// At least one space at `i`, then any further spaces.
pub open spec fn parse_spaces1(s: Seq<char>, i: int) -> Option<int> {
    if 0 <= i < s.len() && is_space_char(s[i]) {
        Some(skip_spaces(s, i + 1))
    } else {
        None
    }
}

/// The first index at or after `i` holding a non-identifier character.
pub open spec fn scan_ident(s: Seq<char>, i: int) -> int
    decreases s.len() - i,
{
    if i < s.len() && is_ident_char(s[i]) {
        scan_ident(s, i + 1)
    } else {
        i
    }
}

pub proof fn lemma_scan_ident(s: Seq<char>, i: int)
    requires
        0 <= i <= s.len(),
    ensures
        i <= scan_ident(s, i) <= s.len(),
    decreases s.len() - i,
{
    if i < s.len() && is_ident_char(s[i]) {
        lemma_scan_ident(s, i + 1);
    }
}

/// At least one identifier character at `i`, then any further ones.
pub open spec fn parse_ident1(s: Seq<char>, i: int) -> Option<int> {
    if 0 <= i < s.len() && is_ident_char(s[i]) {
        Some(scan_ident(s, i + 1))
    } else {
        None
    }
}

/// The first keyword of a dependency declaration.
pub open spec fn kw_decl_first() -> Seq<char> {
    seq!['e', 'x', 't', 'e', 'r', 'n']
}

/// The second keyword of a dependency declaration.
pub open spec fn kw_decl_second() -> Seq<char> {
    seq!['c', 'r', 'a', 't', 'e']
}

/// A dependency declaration starting at `i`: optional outer attributes, then
/// the two keywords, the dependency name, and a final semicolon, with spaces
/// in between.
pub open spec fn parse_dep_decl(s: Seq<char>, i: int) -> Option<int> {
    let a = parse_outer_attrs(s, i);
    let b = skip_spaces(s, a);
    if occurs_at(s, kw_decl_first(), b) {
        match parse_spaces1(s, b + 6) {
            Some(c) => if occurs_at(s, kw_decl_second(), c) {
                match parse_spaces1(s, c + 5) {
                    Some(d) => match parse_ident1(s, d) {
                        Some(e) => {
                            let f = skip_spaces(s, e);
                            if f < s.len() && s[f] == ';' {
                                Some(f + 1)
                            } else {
                                None
                            }
                        },
                        None => None,
                    },
                    None => None,
                }
            } else {
                None
            },
            None => None,
        }
    } else {
        None
    }
}

/// One header item: a dependency declaration, or failing that an inner
/// attribute.
pub open spec fn parse_header_item(s: Seq<char>, i: int) -> Option<int> {
    match parse_dep_decl(s, i) {
        Some(j) => Some(j),
        None => parse_inner_attr(s, i),
    }
}

/// Zero or more header items, each followed by spaces: the index after the
/// spaces that follow the last item parsed.
pub open spec fn parse_header_items(s: Seq<char>, i: int) -> int
    decreases s.len() - i,
{
    match parse_header_item(s, i) {
        Some(j) => if i < j <= s.len() {
            let k = skip_spaces(s, j);
            if j <= k <= s.len() {
                parse_header_items(s, k)
            } else {
                i
            }
        } else {
            i
        },
        None => i,
    }
}

/// Where the leading header region of a snippet ends: leading spaces, then
/// header items each followed by spaces.
pub open spec fn header_end(s: Seq<char>) -> int {
    parse_header_items(s, skip_spaces(s, 0))
}

pub proof fn lemma_parse_dep_decl(s: Seq<char>, i: int)
    requires
        0 <= i <= s.len(),
    ensures
        parse_dep_decl(s, i) matches Some(j) ==> i < j <= s.len(),
{
    lemma_parse_outer_attrs(s, i);
    let a = parse_outer_attrs(s, i);
    lemma_skip_spaces(s, a);
    let b = skip_spaces(s, a);
    if occurs_at(s, kw_decl_first(), b) {
        match parse_spaces1(s, b + 6) {
            Some(c) => {
                lemma_skip_spaces(s, b + 7);
                if occurs_at(s, kw_decl_second(), c) {
                    match parse_spaces1(s, c + 5) {
                        Some(d) => {
                            lemma_skip_spaces(s, c + 6);
                            match parse_ident1(s, d) {
                                Some(e) => {
                                    lemma_scan_ident(s, d + 1);
                                    lemma_skip_spaces(s, e);
                                },
                                None => {},
                            }
                        },
                        None => {},
                    }
                }
            },
            None => {},
        }
    }
}

pub proof fn lemma_parse_header_item(s: Seq<char>, i: int)
    requires
        0 <= i <= s.len(),
    ensures
        parse_header_item(s, i) matches Some(j) ==> i < j <= s.len(),
{
    lemma_parse_dep_decl(s, i);
    lemma_parse_inner_attr(s, i);
}

pub proof fn lemma_parse_header_items(s: Seq<char>, i: int)
    requires
        0 <= i <= s.len(),
    ensures
        i <= parse_header_items(s, i) <= s.len(),
    decreases s.len() - i,
{
    lemma_parse_header_item(s, i);
    match parse_header_item(s, i) {
        Some(j) => {
            lemma_skip_spaces(s, j);
            let k = skip_spaces(s, j);
            lemma_parse_header_items(s, k);
        },
        None => {},
    }
}

/// The never-fail contract of header extraction: whatever the input, the
/// header region ends at a valid split point of the text, so a header and a
/// body always exist.
pub proof fn lemma_header_end_bounds(s: Seq<char>)
    ensures
        0 <= header_end(s) <= s.len(),
{
    lemma_skip_spaces(s, 0);
    lemma_parse_header_items(s, skip_spaces(s, 0));
}

fn skip_spaces_x(v: &Vec<char>, i: usize) -> (r: usize)
    requires
        i <= v@.len(),
    ensures
        r as int == skip_spaces(v@, i as int),
        i <= r <= v@.len(),
{
    let mut r = i;
    while r < v.len() && is_space(v[r])
        invariant
            i <= r <= v@.len(),
            skip_spaces(v@, i as int) == skip_spaces(v@, r as int),
        decreases v@.len() - r,
    {
        r += 1;
    }
    r
}

fn find_close_x(v: &Vec<char>, i: usize) -> (r: Option<usize>)
    requires
        i <= v@.len(),
    ensures
        match r {
            Some(k) => find_close(v@, i as int) == k as int && k < v@.len(),
            None => find_close(v@, i as int) == -1,
        },
{
    let mut r = i;
    while r < v.len()
        invariant
            i <= r <= v@.len(),
            find_close(v@, i as int) == find_close(v@, r as int),
        decreases v@.len() - r,
    {
        if v[r] == ']' {
            return Some(r);
        }
        r += 1;
    }
    None
}

fn parse_attr_body_x(v: &Vec<char>, i: usize) -> (r: Option<usize>)
    ensures
        match r {
            Some(j) => parse_attr_body(v@, i as int) == Some(j as int) && i < j <= v@.len(),
            None => parse_attr_body(v@, i as int) is None,
        },
{
    if i >= v.len() || v[i] != '[' {
        return None;
    }
    match find_close_x(v, i + 1) {
        Some(k) => {
            proof {
                lemma_find_close(v@, i + 1 as int);
            }
            Some(k + 1)
        },
        None => None,
    }
}

fn parse_outer_attr_x(v: &Vec<char>, i: usize) -> (r: Option<usize>)
    requires
        i <= v@.len(),
    ensures
        match r {
            Some(j) => parse_outer_attr(v@, i as int) == Some(j as int) && i < j <= v@.len(),
            None => parse_outer_attr(v@, i as int) is None,
        },
{
    if i >= v.len() || v[i] != '#' {
        return None;
    }
    let j = skip_spaces_x(v, i + 1);
    parse_attr_body_x(v, j)
}

fn parse_outer_attrs_x(v: &Vec<char>, i: usize) -> (r: usize)
    requires
        i <= v@.len(),
    ensures
        r as int == parse_outer_attrs(v@, i as int),
        i <= r <= v@.len(),
{
    let mut cur = i;
    loop
        invariant
            i <= cur <= v@.len(),
            parse_outer_attrs(v@, i as int) == parse_outer_attrs(v@, cur as int),
        decreases v@.len() - cur,
    {
        match parse_outer_attr_x(v, cur) {
            Some(j) => {
                cur = j;
            },
            None => {
                return cur;
            },
        }
    }
}

fn parse_inner_attr_x(v: &Vec<char>, i: usize) -> (r: Option<usize>)
    requires
        i <= v@.len(),
    ensures
        match r {
            Some(j) => parse_inner_attr(v@, i as int) == Some(j as int) && i < j <= v@.len(),
            None => parse_inner_attr(v@, i as int) is None,
        },
{
    if i >= v.len() || v[i] != '#' {
        return None;
    }
    let j = skip_spaces_x(v, i + 1);
    if j >= v.len() || v[j] != '!' {
        return None;
    }
    let k = skip_spaces_x(v, j + 1);
    parse_attr_body_x(v, k)
}

fn parse_spaces1_x(v: &Vec<char>, i: usize) -> (r: Option<usize>)
    ensures
        match r {
            Some(j) => parse_spaces1(v@, i as int) == Some(j as int) && i < j <= v@.len(),
            None => parse_spaces1(v@, i as int) is None,
        },
{
    if i >= v.len() || !is_space(v[i]) {
        return None;
    }
    Some(skip_spaces_x(v, i + 1))
}

fn parse_ident1_x(v: &Vec<char>, i: usize) -> (r: Option<usize>)
    ensures
        match r {
            Some(j) => parse_ident1(v@, i as int) == Some(j as int) && i < j <= v@.len(),
            None => parse_ident1(v@, i as int) is None,
        },
{
    if i >= v.len() || !is_ident(v[i]) {
        return None;
    }
    let mut r = i + 1;
    while r < v.len() && is_ident(v[r])
        invariant
            i + 1 <= r <= v@.len(),
            scan_ident(v@, i + 1) == scan_ident(v@, r as int),
        decreases v@.len() - r,
    {
        r += 1;
    }
    Some(r)
}

fn kw_decl_first_vec() -> (r: Vec<char>)
    ensures
        r@ == kw_decl_first(),
{
    let mut r: Vec<char> = Vec::new();
    r.push('e');
    r.push('x');
    r.push('t');
    r.push('e');
    r.push('r');
    r.push('n');
    proof {
        assert(r@ =~= kw_decl_first());
    }
    r
}

fn kw_decl_second_vec() -> (r: Vec<char>)
    ensures
        r@ == kw_decl_second(),
{
    let mut r: Vec<char> = Vec::new();
    r.push('c');
    r.push('r');
    r.push('a');
    r.push('t');
    r.push('e');
    proof {
        assert(r@ =~= kw_decl_second());
    }
    r
}

fn parse_dep_decl_x(v: &Vec<char>, i: usize) -> (r: Option<usize>)
    requires
        i <= v@.len(),
    ensures
        match r {
            Some(j) => parse_dep_decl(v@, i as int) == Some(j as int) && i < j <= v@.len(),
            None => parse_dep_decl(v@, i as int) is None,
        },
{
    let n = v.len();
    let a = parse_outer_attrs_x(v, i);
    let b = skip_spaces_x(v, a);
    let kw1 = kw_decl_first_vec();
    if !crate::text::matches_at(v, &kw1, b) {
        return None;
    }
    proof {
        assert(b + 6 <= n);
    }
    let c = match parse_spaces1_x(v, b + 6) {
        Some(c) => c,
        None => {
            return None;
        },
    };
    let kw2 = kw_decl_second_vec();
    if !crate::text::matches_at(v, &kw2, c) {
        return None;
    }
    proof {
        assert(c + 5 <= n);
    }
    let d = match parse_spaces1_x(v, c + 5) {
        Some(d) => d,
        None => {
            return None;
        },
    };
    let e = match parse_ident1_x(v, d) {
        Some(e) => e,
        None => {
            return None;
        },
    };
    let f = skip_spaces_x(v, e);
    if f < v.len() && v[f] == ';' {
        proof {
            lemma_parse_dep_decl(v@, i as int);
        }
        Some(f + 1)
    } else {
        None
    }
}

fn parse_header_item_x(v: &Vec<char>, i: usize) -> (r: Option<usize>)
    requires
        i <= v@.len(),
    ensures
        match r {
            Some(j) => parse_header_item(v@, i as int) == Some(j as int) && i < j <= v@.len(),
            None => parse_header_item(v@, i as int) is None,
        },
{
    match parse_dep_decl_x(v, i) {
        Some(j) => Some(j),
        None => parse_inner_attr_x(v, i),
    }
}

fn parse_header_items_x(v: &Vec<char>, i: usize) -> (r: usize)
    requires
        i <= v@.len(),
    ensures
        r as int == parse_header_items(v@, i as int),
        i <= r <= v@.len(),
{
    let mut cur = i;
    loop
        invariant
            i <= cur <= v@.len(),
            parse_header_items(v@, i as int) == parse_header_items(v@, cur as int),
        decreases v@.len() - cur,
    {
        match parse_header_item_x(v, cur) {
            Some(j) => {
                let k = skip_spaces_x(v, j);
                cur = k;
            },
            None => {
                return cur;
            },
        }
    }
}

/// Split a snippet into its leading header region and the remaining body.
/// The split never fails: where no header items are found, the header is
/// empty and the body is the whole input.
pub fn extract_code_headers(code: &str) -> (r: (String, String))
    ensures
        r.0@ == code@.take(header_end(code@)),
        r.1@ == code@.skip(header_end(code@)),
        r.0@ + r.1@ == code@,
{
    let v = str_chars(code);
    let a = skip_spaces_x(&v, 0);
    let e = parse_header_items_x(&v, a);
    let h = sub_chars(&v, 0, e);
    let b = sub_chars(&v, e, v.len());
    proof {
        assert(h@ + b@ =~= code@);
    }
    (chars_to_string(&h), chars_to_string(&b))
}

/// The fixed prelude of convenience imports added to every assembled unit.
pub open spec fn prelude_text() -> Seq<char> {
    "use std::collections::{BTreeMap, BTreeSet, HashMap, HashSet};"@
}

/// A body that already prints is kept verbatim inside a block statement.
pub open spec fn wrap_statements(body: Seq<char>) -> Seq<char> {
    "{\n"@ + body + "\n};"@
}

/// A bare expression is wrapped so that its value is captured and printed
/// with debug formatting.
pub open spec fn wrap_expression(body: Seq<char>) -> Seq<char> {
    "println!(\"{:?}\", {\n        "@ + body + "\n    });\n"@
}

/// The final compile unit: a suppress-all-warnings directive, the extracted
/// header, the fixed prelude, and a synthesized entry point that evaluates
/// the wrapped body and returns a success/error result.
pub open spec fn assemble_unit(header: Seq<char>, wrapped: Seq<char>) -> Seq<char> {
    "#![allow(warnings)]\n"@ + header + "\n"@ + prelude_text() + "\n"@
        + "fn main() -> Result<(), Box<dyn std::error::Error>> {\n    "@ + wrapped
        + "\n    Ok(())\n}\n"@
}

/// What `generate_code_to_send` returns: input with its own entry point is
/// passed through unchanged; anything else is split into header and body,
/// the body wrapped according to whether it prints already, and the result
/// assembled into a full compile unit.
pub open spec fn generate_spec(code: Seq<char>) -> Seq<char> {
    if contains_seq(code, "fn main()"@) {
        code
    } else {
        let h = code.take(header_end(code));
        let b = code.skip(header_end(code));
        if contains_seq(b, "println!"@) || contains_seq(b, "print!"@) {
            assemble_unit(h, wrap_statements(b))
        } else {
            assemble_unit(h, wrap_expression(b))
        }
    }
}

/// Build the compile unit to submit for a snippet, as `generate_spec` says.
pub fn generate_code_to_send(code: &str) -> (r: String)
    ensures
        r@ == generate_spec(code@),
{
    let v = str_chars(code);
    let main_pat = str_chars("fn main()");
    if contains_sub(&v, &main_pat) {
        return code.to_owned();
    }
    let hb = extract_code_headers(code);
    let header = hb.0;
    let body = hb.1;
    let bv = str_chars(body.as_str());
    let pr_long = str_chars("println!");
    let pr_short = str_chars("print!");
    let prints = contains_sub(&bv, &pr_long) || contains_sub(&bv, &pr_short);
    let mut out = String::new();
    out.append("#![allow(warnings)]\n");
    out.append(header.as_str());
    out.append("\n");
    out.append("use std::collections::{BTreeMap, BTreeSet, HashMap, HashSet};");
    out.append("\n");
    out.append("fn main() -> Result<(), Box<dyn std::error::Error>> {\n    ");
    if prints {
        out.append("{\n");
        out.append(body.as_str());
        out.append("\n};");
    } else {
        out.append("println!(\"{:?}\", {\n        ");
        out.append(body.as_str());
        out.append("\n    });\n");
    }
    out.append("\n    Ok(())\n}\n");
    proof {
        assert(out@ =~= generate_spec(code@));
    }
    out
}

} // verus!
