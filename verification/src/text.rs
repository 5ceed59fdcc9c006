//! Scanning text for a character.

use vstd::prelude::*;
use vstd::string::*;

verus! {

/// How many characters stand in `s` before the first `c`; the length of
/// `s` where it holds no `c`.
pub open spec fn until(s: Seq<char>, c: char) -> nat
    decreases s.len(),
{
    if s.len() == 0 || s[0] == c {
        0
    } else {
        1 + until(s.skip(1), c)
    }
}

/// The characters before the first `c` are inside `s` and are not `c`, and
/// what follows them, if anything does, is `c`.
pub proof fn lemma_until(s: Seq<char>, c: char)
    ensures
        until(s, c) <= s.len(),
        forall|k: int| 0 <= k < until(s, c) ==> s[k] != c,
        until(s, c) < s.len() ==> s[until(s, c) as int] == c,
    decreases s.len(),
{
    if s.len() > 0 && s[0] != c {
        let t = s.skip(1);
        lemma_until(t, c);
        assert forall|k: int| 0 <= k < until(s, c) implies s[k] != c by {
            if k > 0 {
                assert(s[k] == t[k - 1]);
            }
        }
    }
}

/// A run without `c`, followed by nothing or by `c`, is all that stands
/// before the first `c`.
pub proof fn lemma_until_of_run(run: Seq<char>, rest: Seq<char>, c: char)
    requires
        forall|k: int| 0 <= k < run.len() ==> run[k] != c,
        rest.len() == 0 || rest[0] == c,
    ensures
        until(run + rest, c) == run.len(),
    decreases run.len(),
{
    if run.len() > 0 {
        assert((run + rest).skip(1) =~= run.skip(1) + rest);
        lemma_until_of_run(run.skip(1), rest, c);
    }
}

/// The characters of `s`, in order.
pub fn to_chars(s: &str) -> (out: Vec<char>)
    ensures
        out@ == s@,
{
    let mut out: Vec<char> = Vec::new();
    for c in it: s.chars()
        invariant
            out@ == it.seq().take(it.index() as int),
            it.seq() == s@,
    {
        out.push(c);
    }
    out
}

/// The place of the first `c` in `chars` at or after `from` and before
/// `to`; `to` where there is none.
pub fn find(chars: &Vec<char>, from: usize, to: usize, c: char) -> (at: usize)
    requires
        from <= to <= chars.len(),
    ensures
        from <= at <= to,
        at == from + until(chars@.subrange(from as int, to as int), c),
        forall|k: int| from <= k < at ==> chars@[k] != c,
        at < to ==> chars@[at as int] == c,
{
    let mut at: usize = from;
    while at < to && chars[at] != c
        invariant
            from <= at <= to <= chars.len(),
            forall|k: int| from <= k < at ==> chars@[k] != c,
        decreases to - at,
    {
        at += 1;
    }
    proof {
        let run = chars@.subrange(from as int, at as int);
        let rest = chars@.subrange(at as int, to as int);
        assert(chars@.subrange(from as int, to as int) =~= run + rest);
        lemma_until_of_run(run, rest, c);
    }
    at
}

} // verus!
