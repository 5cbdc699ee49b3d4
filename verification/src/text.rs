//! Character-level text utilities shared by the rendering, snippet and
//! formatting logic: whitespace classification, trimming, line splitting and
//! joining, substring search, and the conversions between `&str` / `String`
//! and `Vec<char>` that the rest of the crate computes on.

use vstd::prelude::*;
use vstd::string::StrSliceExecFns;

verus! {

/// The Unicode white-space characters, exactly those that
/// `char::is_whitespace` recognizes.
pub open spec fn is_space_char(c: char) -> bool {
    ||| c == ' '
    ||| c == '\t'
    ||| c == '\n'
    ||| c == '\u{b}'
    ||| c == '\u{c}'
    ||| c == '\r'
    ||| c == '\u{85}'
    ||| c == '\u{a0}'
    ||| c == '\u{1680}'
    ||| ('\u{2000}' <= c && c <= '\u{200a}')
    ||| c == '\u{2028}'
    ||| c == '\u{2029}'
    ||| c == '\u{202f}'
    ||| c == '\u{205f}'
    ||| c == '\u{3000}'
}

pub fn is_space(c: char) -> (b: bool)
    ensures
        b == is_space_char(c),
{
    let u = c as u32;
    u == 0x20 || (0x9 <= u && u <= 0xd) || u == 0x85 || u == 0xa0 || u == 0x1680 || (0x2000 <= u
        && u <= 0x200a) || u == 0x2028 || u == 0x2029 || u == 0x202f || u == 0x205f || u == 0x3000
}

/// Relies on `String::push`: appends exactly the one character.
#[verifier::external_body]
pub(crate) fn push_char(s: &mut String, c: char)
    ensures
        final(s)@ == old(s)@.push(c),
{
    s.push(c);
}

pub fn str_chars(s: &str) -> (v: Vec<char>)
    ensures
        v@ == s@,
{
    let n = s.unicode_len();
    let mut v: Vec<char> = Vec::new();
    let mut i: usize = 0;
    while i < n
        invariant
            n == s@.len(),
            i <= n,
            v@ == s@.take(i as int),
        decreases n - i,
    {
        let c = s.get_char(i);
        v.push(c);
        proof {
            assert(v@ =~= s@.take(i + 1 as int));
        }
        i += 1;
    }
    proof {
        assert(s@.take(n as int) =~= s@);
    }
    v
}

pub fn chars_to_string(v: &Vec<char>) -> (s: String)
    ensures
        s@ == v@,
{
    let mut s = String::new();
    let mut i: usize = 0;
    while i < v.len()
        invariant
            i <= v@.len(),
            s@ == v@.take(i as int),
        decreases v@.len() - i,
    {
        push_char(&mut s, v[i]);
        proof {
            assert(s@ =~= v@.take(i + 1 as int));
        }
        i += 1;
    }
    proof {
        assert(v@.take(v@.len() as int) =~= v@);
    }
    s
}

pub open spec fn trim_left(s: Seq<char>) -> Seq<char>
    decreases s.len(),
{
    if s.len() > 0 && is_space_char(s[0]) {
        trim_left(s.drop_first())
    } else {
        s
    }
}

pub open spec fn trim_right(s: Seq<char>) -> Seq<char>
    decreases s.len(),
{
    if s.len() > 0 && is_space_char(s.last()) {
        trim_right(s.drop_last())
    } else {
        s
    }
}

/// What `str::trim` leaves: the input without leading and trailing
/// white space.
pub open spec fn trim_seq(s: Seq<char>) -> Seq<char> {
    trim_right(trim_left(s))
}

proof fn lemma_trim_left_at(s: Seq<char>, i: int)
    requires
        0 <= i <= s.len(),
        forall|j: int| 0 <= j < i ==> is_space_char(s[j]),
        i == s.len() || !is_space_char(s[i]),
    ensures
        trim_left(s) == s.subrange(i, s.len() as int),
    decreases i,
{
    if i == 0 {
        assert(s.subrange(0, s.len() as int) =~= s);
    } else {
        assert(is_space_char(s[0]));
        lemma_trim_left_at(s.drop_first(), i - 1);
        assert(s.drop_first().subrange(i - 1, s.drop_first().len() as int) =~= s.subrange(
            i,
            s.len() as int,
        ));
    }
}

proof fn lemma_trim_right_at(s: Seq<char>, i: int)
    requires
        0 <= i <= s.len(),
        forall|j: int| i <= j < s.len() ==> is_space_char(s[j]),
        i == 0 || !is_space_char(s[i - 1]),
    ensures
        trim_right(s) == s.subrange(0, i),
    decreases s.len() - i,
{
    if i == s.len() {
        assert(s.subrange(0, i) =~= s);
    } else {
        assert(is_space_char(s.last()));
        lemma_trim_right_at(s.drop_last(), i);
        assert(s.drop_last().subrange(0, i) =~= s.subrange(0, i));
    }
}

pub fn trim_chars(v: &Vec<char>) -> (r: Vec<char>)
    ensures
        r@ == trim_seq(v@),
{
    let n = v.len();
    let mut a: usize = 0;
    while a < n && is_space(v[a])
        invariant
            n == v@.len(),
            a <= n,
            forall|j: int| 0 <= j < a ==> is_space_char(v@[j]),
        decreases n - a,
    {
        a += 1;
    }
    let mut b: usize = n;
    while b > a && is_space(v[b - 1])
        invariant
            n == v@.len(),
            a <= b <= n,
            forall|j: int| b <= j < n ==> is_space_char(v@[j]),
        decreases b,
    {
        b -= 1;
    }
    let mut r: Vec<char> = Vec::new();
    let mut i: usize = a;
    while i < b
        invariant
            a <= i <= b <= n,
            n == v@.len(),
            r@ == v@.subrange(a as int, i as int),
        decreases b - i,
    {
        r.push(v[i]);
        proof {
            assert(r@ =~= v@.subrange(a as int, i + 1 as int));
        }
        i += 1;
    }
    proof {
        lemma_trim_left_at(v@, a as int);
        let t = v@.subrange(a as int, n as int);
        lemma_trim_right_at(t, b - a);
        assert(t.subrange(0, b - a) =~= v@.subrange(a as int, b as int));
        if a == b {
            assert(r@ =~= v@.subrange(a as int, b as int));
        }
    }
    r
}

/// The pattern `p` occurs in `s` starting at index `i`.
pub open spec fn occurs_at(s: Seq<char>, p: Seq<char>, i: int) -> bool {
    0 <= i && i + p.len() <= s.len() && s.subrange(i, i + p.len()) == p
}

pub open spec fn contains_seq(s: Seq<char>, p: Seq<char>) -> bool {
    exists|i: int| occurs_at(s, p, i)
}

pub fn matches_at(v: &Vec<char>, p: &Vec<char>, i: usize) -> (b: bool)
    requires
        i <= v@.len(),
    ensures
        b == occurs_at(v@, p@, i as int),
{
    let n = v.len();
    if n - i < p.len() {
        return false;
    }
    let mut j: usize = 0;
    while j < p.len()
        invariant
            n == v@.len(),
            i + p@.len() <= n,
            j <= p@.len(),
            forall|k: int| 0 <= k < j ==> v@[i + k] == p@[k],
        decreases p@.len() - j,
    {
        if v[i + j] != p[j] {
            assert(v@.subrange(i as int, i + p@.len()) != p@) by {
                assert(v@.subrange(i as int, i + p@.len())[j as int] != p@[j as int]);
            }
            return false;
        }
        j += 1;
    }
    proof {
        assert(v@.subrange(i as int, i + p@.len()) =~= p@);
    }
    true
}

pub fn starts_with(v: &Vec<char>, p: &Vec<char>) -> (b: bool)
    ensures
        b == occurs_at(v@, p@, 0),
{
    matches_at(v, p, 0)
}

/// The least index at or after `from` where `p` occurs in `s`, if any.
pub fn find_sub_from(v: &Vec<char>, p: &Vec<char>, from: usize) -> (r: Option<usize>)
    requires
        from <= v@.len(),
    ensures
        match r {
            Some(i) => from <= i && occurs_at(v@, p@, i as int) && forall|j: int|
                from <= j < i ==> !occurs_at(v@, p@, j),
            None => forall|j: int| from <= j ==> !occurs_at(v@, p@, j),
        },
{
    let mut i: usize = from;
    loop
        invariant
            from <= i <= v@.len(),
            forall|j: int| from <= j < i ==> !occurs_at(v@, p@, j),
        decreases v@.len() - i,
    {
        if matches_at(v, p, i) {
            return Some(i);
        }
        if i == v.len() {
            proof {
                assert forall|j: int| from <= j implies !occurs_at(v@, p@, j) by {
                    if j > i as int {
                        assert(j + p@.len() > v@.len());
                    }
                }
            }
            return None;
        }
        i += 1;
    }
}

pub fn push_all(r: &mut Vec<char>, src: &Vec<char>)
    ensures
        final(r)@ == old(r)@ + src@,
{
    let mut i: usize = 0;
    while i < src.len()
        invariant
            i <= src@.len(),
            r@ == old(r)@ + src@.take(i as int),
        decreases src@.len() - i,
    {
        r.push(src[i]);
        proof {
            assert(old(r)@ + src@.take(i + 1 as int) =~= (old(r)@ + src@.take(i as int)).push(
                src@[i as int],
            ));
        }
        i += 1;
    }
    proof {
        assert(src@.take(src@.len() as int) =~= src@);
    }
}

pub fn sub_chars(v: &Vec<char>, a: usize, b: usize) -> (r: Vec<char>)
    requires
        a <= b <= v@.len(),
    ensures
        r@ == v@.subrange(a as int, b as int),
{
    let mut r: Vec<char> = Vec::new();
    let mut i: usize = a;
    while i < b
        invariant
            a <= i <= b <= v@.len(),
            r@ == v@.subrange(a as int, i as int),
        decreases b - i,
    {
        r.push(v[i]);
        proof {
            assert(r@ =~= v@.subrange(a as int, i + 1 as int));
        }
        i += 1;
    }
    r
}

/// Index of the first line feed in `s`, or `-1` if there is none.
pub open spec fn find_newline(s: Seq<char>) -> int
    decreases s.len(),
{
    if s.len() == 0 {
        -1
    } else if s[0] == '\n' {
        0
    } else {
        let r = find_newline(s.drop_first());
        if r < 0 {
            -1
        } else {
            r + 1
        }
    }
}

pub proof fn lemma_find_newline_none(s: Seq<char>)
    requires
        forall|j: int| 0 <= j < s.len() ==> s[j] != '\n',
    ensures
        find_newline(s) == -1,
    decreases s.len(),
{
    if s.len() > 0 {
        lemma_find_newline_none(s.drop_first());
    }
}

pub proof fn lemma_find_newline_at(s: Seq<char>, k: int)
    requires
        0 <= k < s.len(),
        s[k] == '\n',
        forall|j: int| 0 <= j < k ==> s[j] != '\n',
    ensures
        find_newline(s) == k,
    decreases k,
{
    if k > 0 {
        lemma_find_newline_at(s.drop_first(), k - 1);
    }
}

pub proof fn lemma_find_newline_found(s: Seq<char>)
    requires
        find_newline(s) >= 0,
    ensures
        find_newline(s) < s.len(),
        s[find_newline(s)] == '\n',
        forall|j: int| 0 <= j < find_newline(s) ==> s[j] != '\n',
    decreases s.len(),
{
    if s.len() > 0 && s[0] != '\n' {
        lemma_find_newline_found(s.drop_first());
        assert forall|j: int| 0 < j < find_newline(s) implies s[j] != '\n' by {
            assert(s.drop_first()[j - 1] != '\n');
        }
    }
}

/// The lines of `s`, split at each line feed: one more line than there are
/// line feeds, and no line contains a line feed.
pub open spec fn split_lines_seq(s: Seq<char>) -> Seq<Seq<char>>
    decreases s.len(),
{
    let i = find_newline(s);
    if 0 <= i < s.len() {
        seq![s.take(i)] + split_lines_seq(s.skip(i + 1))
    } else {
        seq![s]
    }
}

pub proof fn lemma_split_lines_no_newline(s: Seq<char>)
    ensures
        split_lines_seq(s).len() >= 1,
        forall|k: int, j: int|
            0 <= k < split_lines_seq(s).len() && 0 <= j < split_lines_seq(s)[k].len()
                ==> #[trigger] split_lines_seq(s)[k][j] != '\n',
    decreases s.len(),
{
    let i = find_newline(s);
    if 0 <= i < s.len() {
        lemma_find_newline_found(s);
        lemma_split_lines_no_newline(s.skip(i + 1));
        let parts = split_lines_seq(s);
        assert forall|k: int, j: int|
            0 <= k < parts.len() && 0 <= j < parts[k].len() implies #[trigger] parts[k][j]
            != '\n' by {
            if k == 0 {
                assert(parts[0] == s.take(i));
                assert(s.take(i)[j] == s[j]);
            } else {
                assert(parts[k] == split_lines_seq(s.skip(i + 1))[k - 1]);
            }
        }
    } else {
        if find_newline(s) >= 0 {
            lemma_find_newline_found(s);
        }
        assert(find_newline(s) < 0);
        assert forall|k: int, j: int|
            0 <= k < split_lines_seq(s).len() && 0 <= j < split_lines_seq(s)[k].len()
            implies #[trigger] split_lines_seq(s)[k][j] != '\n' by {
            lemma_find_newline_first_is_none(s, j);
        }
    }
}

proof fn lemma_find_newline_first_is_none(s: Seq<char>, j: int)
    requires
        find_newline(s) == -1,
        0 <= j < s.len(),
    ensures
        s[j] != '\n',
    decreases j,
{
    if j > 0 {
        lemma_find_newline_first_is_none(s.drop_first(), j - 1);
    }
}

/// The lines joined back with a line feed between each pair.
pub open spec fn join_lines(ls: Seq<Seq<char>>) -> Seq<char>
    decreases ls.len(),
{
    if ls.len() == 0 {
        Seq::empty()
    } else {
        ls[0] + tail_join(ls.drop_first())
    }
}

pub open spec fn tail_join(ls: Seq<Seq<char>>) -> Seq<char>
    decreases ls.len(),
{
    if ls.len() == 0 {
        Seq::empty()
    } else {
        seq!['\n'] + ls[0] + tail_join(ls.drop_first())
    }
}

/// Splitting the joined lines gives the lines back, provided none of them
/// contains a line feed.
pub proof fn lemma_split_of_join(ls: Seq<Seq<char>>)
    requires
        ls.len() >= 1,
        forall|k: int, j: int|
            0 <= k < ls.len() && 0 <= j < ls[k].len() ==> #[trigger] ls[k][j] != '\n',
    ensures
        split_lines_seq(join_lines(ls)) == ls,
    decreases ls.len(),
{
    let s = join_lines(ls);
    if ls.len() == 1 {
        assert(s =~= ls[0]);
        assert forall|j: int| 0 <= j < s.len() implies s[j] != '\n' by {
            assert(ls[0][j] != '\n');
        }
        lemma_find_newline_none(s);
        assert(split_lines_seq(s) =~= seq![ls[0]]);
        assert(seq![ls[0]] =~= ls);
    } else {
        let rest = ls.drop_first();
        let k = ls[0].len() as int;
        assert(s =~= ls[0] + seq!['\n'] + join_lines(rest)) by {
            assert(tail_join(rest) =~= seq!['\n'] + rest[0] + tail_join(rest.drop_first()));
            assert(join_lines(rest) =~= rest[0] + tail_join(rest.drop_first()));
        }
        assert(s[k] == '\n');
        assert forall|j: int| 0 <= j < k implies s[j] != '\n' by {
            assert(s[j] == ls[0][j]);
        }
        lemma_find_newline_at(s, k);
        assert(s.take(k) =~= ls[0]);
        assert(s.skip(k + 1) =~= join_lines(rest));
        assert forall|k2: int, j: int|
            0 <= k2 < rest.len() && 0 <= j < rest[k2].len() implies #[trigger] rest[k2][j]
            != '\n' by {
            assert(ls[k2 + 1][j] != '\n');
        }
        lemma_split_of_join(rest);
        assert(split_lines_seq(s) =~= seq![ls[0]] + rest);
        assert(seq![ls[0]] + rest =~= ls);
    }
}

pub fn split_lines(v: &Vec<char>) -> (r: Vec<Vec<char>>)
    ensures
        r@.map_values(|l: Vec<char>| l@) == split_lines_seq(v@),
{
    let mut out: Vec<Vec<char>> = Vec::new();
    let mut cur: Vec<char> = Vec::new();
    let mut i: usize = 0;
    proof {
        assert(cur@ + v@.skip(0) =~= v@);
        assert(out@.map_values(|l: Vec<char>| l@) + split_lines_seq(v@) =~= split_lines_seq(
            v@,
        ));
    }
    while i < v.len()
        invariant
            i <= v@.len(),
            forall|j: int| 0 <= j < cur@.len() ==> cur@[j] != '\n',
            split_lines_seq(v@) == out@.map_values(|l: Vec<char>| l@) + split_lines_seq(
                cur@ + v@.skip(i as int),
            ),
        decreases v@.len() - i,
    {
        let c = v[i];
        if c == '\n' {
            proof {
                let s = cur@ + v@.skip(i as int);
                assert(s[cur@.len() as int] == v@[i as int]) by {
                    assert(v@.skip(i as int)[0] == v@[i as int]);
                }
                lemma_find_newline_at(s, cur@.len() as int);
                assert(s.take(cur@.len() as int) =~= cur@);
                assert(s.skip(cur@.len() as int + 1) =~= v@.skip(i + 1));
                assert(split_lines_seq(s) =~= seq![cur@] + split_lines_seq(v@.skip(i + 1)));
                assert((out@.map_values(|l: Vec<char>| l@) + seq![cur@]) =~= out@.push(
                    cur,
                ).map_values(|l: Vec<char>| l@));
                assert(out@.map_values(|l: Vec<char>| l@) + (seq![cur@] + split_lines_seq(
                    v@.skip(i + 1),
                )) =~= (out@.map_values(|l: Vec<char>| l@) + seq![cur@]) + split_lines_seq(
                    v@.skip(i + 1),
                ));
            }
            out.push(cur);
            cur = Vec::new();
            proof {
                assert(cur@ + v@.skip(i + 1) =~= v@.skip(i + 1));
            }
        } else {
            proof {
                assert(cur@.push(c) + v@.skip(i + 1) =~= cur@ + v@.skip(i as int)) by {
                    assert(v@.skip(i as int)[0] == v@[i as int]);
                }
            }
            cur.push(c);
        }
        i += 1;
    }
    proof {
        let s = cur@ + v@.skip(i as int);
        assert(s =~= cur@);
        lemma_find_newline_none(cur@);
        assert(split_lines_seq(s) =~= seq![cur@]);
        assert(out@.map_values(|l: Vec<char>| l@) + seq![cur@] =~= out@.push(cur).map_values(
            |l: Vec<char>| l@,
        ));
    }
    out.push(cur);
    out
}

pub fn join_lines_vec(ls: &Vec<Vec<char>>) -> (r: Vec<char>)
    ensures
        r@ == join_lines(ls@.map_values(|l: Vec<char>| l@)),
{
    let ghost views = ls@.map_values(|l: Vec<char>| l@);
    if ls.len() == 0 {
        let r: Vec<char> = Vec::new();
        proof {
            assert(r@ =~= join_lines(views));
        }
        return r;
    }
    let mut r: Vec<char> = Vec::new();
    push_all(&mut r, &ls[0]);
    proof {
        assert(r@ =~= views[0]);
        assert(views.drop_first() =~= views.skip(1));
    }
    let mut i: usize = 1;
    while i < ls.len()
        invariant
            1 <= i <= views.len(),
            views == ls@.map_values(|l: Vec<char>| l@),
            join_lines(views) == r@ + tail_join(views.skip(i as int)),
        decreases views.len() - i,
    {
        let ghost r0 = r@;
        r.push('\n');
        push_all(&mut r, &ls[i]);
        proof {
            let rest = views.skip(i as int);
            assert(rest.len() > 0);
            assert(rest[0] == views[i as int]);
            assert(rest.drop_first() =~= views.skip(i + 1));
            assert(tail_join(rest) == seq!['\n'] + rest[0] + tail_join(views.skip(i + 1)));
            assert(r@ == r0.push('\n') + views[i as int]);
            assert(r0 + (seq!['\n'] + views[i as int] + tail_join(views.skip(i + 1))) =~= (
            r0.push('\n') + views[i as int]) + tail_join(views.skip(i + 1)));
            assert(r0 + tail_join(rest) =~= r0 + (seq!['\n'] + views[i as int] + tail_join(
                views.skip(i + 1),
            )));
        }
        i += 1;
    }
    proof {
        assert(views.skip(views.len() as int) =~= Seq::<Seq<char>>::empty());
        assert(r@ =~= r@ + tail_join(views.skip(views.len() as int)));
    }
    r
}

/// What `str::trim_start_matches` leaves: the input with every leading copy
/// of the pattern removed.
pub open spec fn trim_start_matches_seq(s: Seq<char>, p: Seq<char>) -> Seq<char>
    decreases s.len(),
{
    if p.len() > 0 && occurs_at(s, p, 0) {
        trim_start_matches_seq(s.skip(p.len() as int), p)
    } else {
        s
    }
}

pub fn trim_start_matches(v: &Vec<char>, p: &Vec<char>) -> (r: Vec<char>)
    ensures
        r@ == trim_start_matches_seq(v@, p@),
{
    let n = v.len();
    let mut off: usize = 0;
    proof {
        assert(v@.skip(0) =~= v@);
    }
    while p.len() > 0 && matches_at_checked(v, p, off)
        invariant
            n == v@.len(),
            off <= v@.len(),
            trim_start_matches_seq(v@.skip(off as int), p@) == trim_start_matches_seq(v@, p@),
        decreases v@.len() - off,
    {
        proof {
            let s = v@.skip(off as int);
            assert(occurs_at(s, p@, 0)) by {
                assert(s.subrange(0, p@.len() as int) =~= v@.subrange(
                    off as int,
                    off + p@.len(),
                ));
            }
            assert(s.skip(p@.len() as int) =~= v@.skip(off + p@.len()));
        }
        off += p.len();
    }
    let mut r: Vec<char> = Vec::new();
    let mut i: usize = off;
    while i < v.len()
        invariant
            off <= i <= v@.len(),
            r@ == v@.subrange(off as int, i as int),
        decreases v@.len() - i,
    {
        r.push(v[i]);
        proof {
            assert(r@ =~= v@.subrange(off as int, i + 1 as int));
        }
        i += 1;
    }
    proof {
        assert(r@ =~= v@.skip(off as int));
        let s = v@.skip(off as int);
        if p@.len() > 0 && occurs_at(s, p@, 0) {
            assert(occurs_at(v@, p@, off as int)) by {
                assert(v@.subrange(off as int, off + p@.len()) =~= s.subrange(
                    0,
                    p@.len() as int,
                ));
            }
            assert(false);
        }
    }
    r
}

/// Like `matches_at`, but total in the start index.
fn matches_at_checked(v: &Vec<char>, p: &Vec<char>, i: usize) -> (b: bool)
    ensures
        b == occurs_at(v@, p@, i as int),
{
    if i > v.len() {
        return false;
    }
    matches_at(v, p, i)
}

pub fn contains_sub(v: &Vec<char>, p: &Vec<char>) -> (b: bool)
    ensures
        b == contains_seq(v@, p@),
{
    let r = find_sub_from(v, p, 0);
    match r {
        Some(_) => true,
        None => {
            proof {
                assert forall|j: int| !occurs_at(v@, p@, j) by {
                    if occurs_at(v@, p@, j) {
                        assert(j >= 0);
                    }
                }
            }
            false
        },
    }
}

} // verus!
