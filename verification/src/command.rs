//! The execution request of a shell command: the raw command text split on
//! white space, the first token naming the program, the rest its arguments.

use vstd::prelude::*;

use crate::text::{chars_to_string, is_space, is_space_char, str_chars, sub_chars};

verus! {

/// A subprocess to spawn: a non-empty program name and its arguments in
/// order.
pub struct ExecutionRequest {
    pub program: String,
    pub arguments: Vec<String>,
}

/// The first index at or after `i` holding a non-blank character.
pub open spec fn skip_blanks(s: Seq<char>, i: int) -> int
    decreases s.len() - i,
{
    if i < s.len() && is_space_char(s[i]) {
        skip_blanks(s, i + 1)
    } else {
        i
    }
}

/// The first index at or after `i` holding a blank character, or the end.
pub open spec fn scan_token(s: Seq<char>, i: int) -> int
    decreases s.len() - i,
{
    if i < s.len() && !is_space_char(s[i]) {
        scan_token(s, i + 1)
    } else {
        i
    }
}

/// The white-space separated tokens of `s` from index `i` on.
pub open spec fn tokens_from(s: Seq<char>, i: int) -> Seq<Seq<char>>
    decreases s.len() - i,
{
    let a = skip_blanks(s, i);
    if i <= a && a < s.len() {
        let b = scan_token(s, a + 1);
        if a < b <= s.len() {
            seq![s.subrange(a, b)] + tokens_from(s, b)
        } else {
            Seq::empty()
        }
    } else {
        Seq::empty()
    }
}

/// The white-space separated tokens of the whole text.
pub open spec fn tokens_of(s: Seq<char>) -> Seq<Seq<char>> {
    tokens_from(s, 0)
}

fn skip_blanks_x(v: &Vec<char>, i: usize) -> (r: usize)
    requires
        i <= v@.len(),
    ensures
        r as int == skip_blanks(v@, i as int),
        i <= r <= v@.len(),
{
    let mut r = i;
    while r < v.len() && is_space(v[r])
        invariant
            i <= r <= v@.len(),
            skip_blanks(v@, i as int) == skip_blanks(v@, r as int),
        decreases v@.len() - r,
    {
        r += 1;
    }
    r
}

fn scan_token_x(v: &Vec<char>, i: usize) -> (r: usize)
    requires
        i <= v@.len(),
    ensures
        r as int == scan_token(v@, i as int),
        i <= r <= v@.len(),
{
    let mut r = i;
    while r < v.len() && !is_space(v[r])
        invariant
            i <= r <= v@.len(),
            scan_token(v@, i as int) == scan_token(v@, r as int),
        decreases v@.len() - r,
    {
        r += 1;
    }
    r
}

/// Split a raw command text into the program and its arguments. `None`
/// exactly where the text holds no token at all.
pub fn parse_exec_request(cmd: &str) -> (r: Option<ExecutionRequest>)
    ensures
        match r {
            Some(req) => tokens_of(cmd@).len() >= 1 && req.program@ == tokens_of(cmd@)[0]
                && req.arguments@.map_values(|a: String| a@) == tokens_of(cmd@).skip(1),
            None => tokens_of(cmd@).len() == 0,
        },
{
    let v = str_chars(cmd);
    let n = v.len();
    let mut toks: Vec<String> = Vec::new();
    let mut i: usize = 0;
    proof {
        assert(toks@.map_values(|a: String| a@) + tokens_from(v@, 0) =~= tokens_from(v@, 0));
    }
    loop
        invariant
            i <= n,
            n == v@.len(),
            v@ == cmd@,
            tokens_of(v@) == toks@.map_values(|a: String| a@) + tokens_from(v@, i as int),
        ensures
            tokens_of(cmd@) == toks@.map_values(|a: String| a@),
        decreases n - i,
    {
        let a = skip_blanks_x(&v, i);
        if a == n {
            proof {
                assert(tokens_from(v@, i as int) =~= Seq::<Seq<char>>::empty());
                assert(toks@.map_values(|a2: String| a2@) + Seq::<Seq<char>>::empty()
                    =~= toks@.map_values(|a2: String| a2@));
            }
            break;
        }
        let b = scan_token_x(&v, a + 1);
        let tok = sub_chars(&v, a, b);
        let ghost toks0 = toks@;
        toks.push(chars_to_string(&tok));
        proof {
            assert(tokens_from(v@, i as int) == seq![v@.subrange(a as int, b as int)]
                + tokens_from(v@, b as int));
            let lhs = toks@.map_values(|a2: String| a2@);
            assert(lhs =~= toks0.map_values(|a2: String| a2@) + seq![
                v@.subrange(a as int, b as int),
            ]);
            assert(toks0.map_values(|a2: String| a2@) + (seq![v@.subrange(a as int, b as int)]
                + tokens_from(v@, b as int)) =~= lhs + tokens_from(v@, b as int));
        }
        i = b;
    }
    if toks.len() == 0 {
        return None;
    }
    let ghost before = toks@;
    let program = toks.remove(0);
    proof {
        assert forall|j: int| 0 <= j < toks@.len() implies toks@.map_values(|a: String| a@)[j]
            == tokens_of(cmd@).skip(1)[j] by {
            assert(toks@[j] == before[j + 1]);
            assert(before.map_values(|a: String| a@)[j + 1] == before[j + 1]@);
        }
        assert(toks@.map_values(|a: String| a@) =~= tokens_of(cmd@).skip(1));
    }
    Some(ExecutionRequest { program, arguments: toks })
}

} // verus!
