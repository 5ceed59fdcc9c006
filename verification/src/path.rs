//! Paths as sequences of segments.
//!
//! A path such as `/users/42/posts` is read as the list of its non-empty,
//! slash-free pieces: `users`, `42`, `posts`. Empty pieces (a leading slash,
//! a trailing slash, doubled slashes) carry no meaning and are dropped, so
//! `/users//42/` names the same place as `users/42`.

use crate::text::{find, lemma_until, lemma_until_of_run, to_chars, until};
use vstd::prelude::*;
use vstd::string::*;

verus! {

/// A segment is a non-empty run of characters that holds no slash.
pub open spec fn is_segment(t: Seq<char>) -> bool {
    t.len() > 0 && forall|k: int| 0 <= k < t.len() ==> t[k] != '/'
}

/// Every element of `segs` is a segment.
pub open spec fn all_segments(segs: Seq<Seq<char>>) -> bool {
    forall|k: int| 0 <= k < segs.len() ==> is_segment(#[trigger] segs[k])
}

/// The segments of `s`, in order: the maximal slash-free runs of `s`.
pub open spec fn split_path(s: Seq<char>) -> Seq<Seq<char>>
    decreases s.len(),
{
    if s.len() == 0 {
        Seq::empty()
    } else if s[0] == '/' {
        split_path(s.skip(1))
    } else {
        proof {
            lemma_until(s, '/');
        }
        let n = until(s, '/') as int;
        seq![s.take(n)] + split_path(s.skip(n))
    }
}

/// The canonical spelling of a list of segments: each one behind a slash.
pub open spec fn join_path(segs: Seq<Seq<char>>) -> Seq<char>
    decreases segs.len(),
{
    if segs.len() == 0 {
        Seq::empty()
    } else {
        join_path(segs.drop_last()) + seq!['/'] + segs.last()
    }
}

/// The segments joined by single slashes, with no slash in front.
pub open spec fn join_relative(segs: Seq<Seq<char>>) -> Seq<char> {
    if segs.len() == 0 {
        Seq::empty()
    } else {
        join_path(segs).skip(1)
    }
}

/// Splitting takes a leading segment off as it stands.
pub proof fn lemma_split_run(run: Seq<char>, rest: Seq<char>)
    requires
        is_segment(run),
        rest.len() == 0 || rest[0] == '/',
    ensures
        split_path(run + rest) == seq![run] + split_path(rest),
{
    let s = run + rest;
    lemma_until_of_run(run, rest, '/');
    assert(s.take(run.len() as int) =~= run);
    assert(s.skip(run.len() as int) =~= rest);
}

/// A segment splits into itself.
pub proof fn lemma_split_segment(t: Seq<char>)
    requires
        is_segment(t),
    ensures
        split_path(t) == seq![t],
{
    lemma_split_run(t, Seq::empty());
}

/// Whatever `s` holds, its pieces are segments.
pub proof fn lemma_split_gives_segments(s: Seq<char>)
    ensures
        all_segments(split_path(s)),
    decreases s.len(),
{
    if s.len() > 0 && s[0] == '/' {
        lemma_split_gives_segments(s.skip(1));
    } else if s.len() > 0 {
        lemma_until(s, '/');
        lemma_split_gives_segments(s.skip(until(s, '/') as int));
    }
}

/// Splitting sees a slash between two texts as a boundary and nothing more:
/// the pieces of `a/b` are the pieces of `a`, then the pieces of `b`.
pub proof fn lemma_split_concat(a: Seq<char>, b: Seq<char>)
    ensures
        split_path(a + seq!['/'] + b) == split_path(a) + split_path(b),
    decreases a.len(),
{
    let s = a + seq!['/'] + b;
    if a.len() == 0 {
        assert(s.skip(1) =~= b);
    } else if a[0] == '/' {
        assert(s.skip(1) =~= a.skip(1) + seq!['/'] + b);
        lemma_split_concat(a.skip(1), b);
    } else {
        lemma_until(a, '/');
        let n = until(a, '/') as int;
        let run = a.take(n);
        let rest = a.skip(n) + seq!['/'] + b;
        assert(s =~= run + rest);
        lemma_split_run(run, rest);
        lemma_split_concat(a.skip(n), b);
    }
}

/// Joining is undone by splitting.
pub proof fn lemma_split_join(segs: Seq<Seq<char>>)
    requires
        all_segments(segs),
    ensures
        split_path(join_path(segs)) == segs,
    decreases segs.len(),
{
    if segs.len() > 0 {
        let init = segs.drop_last();
        lemma_split_join(init);
        lemma_split_concat(join_path(init), segs.last());
        lemma_split_segment(segs.last());
    }
}

/// Splits `path` into its segments.
pub fn split_segments(path: &str) -> (out: Vec<String>)
    ensures
        out.deep_view() == split_path(path@),
{
    let chars = to_chars(path);
    let n: usize = chars.len();
    let mut out: Vec<String> = Vec::new();
    let mut i: usize = 0;
    assert(path@.skip(0) =~= path@);
    while i < n
        invariant
            chars@ == path@,
            n == chars.len(),
            i <= n,
            split_path(path@) == out.deep_view() + split_path(path@.skip(i as int)),
        decreases n - i,
    {
        if chars[i] == '/' {
            assert(path@.skip(i as int).skip(1) =~= path@.skip(i + 1));
            i += 1;
        } else {
            let start: usize = i;
            i = find(&chars, start, n, '/');
            let seg = path.substring_char(start, i).to_owned();
            proof {
                let run = path@.subrange(start as int, i as int);
                let rest = path@.skip(i as int);
                assert(path@.skip(start as int) =~= run + rest);
                lemma_split_run(run, rest);
            }
            out.push(seg);
        }
    }
    out
}

/// Spells a list of segments as a path: each one behind a slash.
pub fn join_segments(segs: &Vec<String>) -> (out: String)
    ensures
        out@ == join_path(segs.deep_view()),
{
    let mut out = String::new();
    let mut i: usize = 0;
    while i < segs.len()
        invariant
            i <= segs.len(),
            out@ == join_path(segs.deep_view().take(i as int)),
        decreases segs.len() - i,
    {
        proof {
            reveal_strlit("/");
            let upto = segs.deep_view().take(i + 1);
            assert(upto.drop_last() =~= segs.deep_view().take(i as int));
        }
        out.append("/");
        out.append(segs[i].as_str());
        i += 1;
    }
    assert(segs.deep_view().take(i as int) =~= segs.deep_view());
    out
}

} // verus!
