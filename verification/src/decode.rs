//! Decoding lists of `name=value` pieces.
//!
//! A query string (`a=1&b=2`), a form body of the same shape and a cookie
//! header (`a=1; b=2`) are all read the same way: the text is cut at every
//! separator, spaces around a piece are dropped, a piece that is left
//! empty is skipped, and every other piece is cut at its first `=` into
//! name and value. A piece without `=` is a name with an empty value.
//! Escapes are not undone here: names and values are as they were sent.

use crate::fields::{Fields, Pairs};
use crate::text::{find, to_chars, until};
use vstd::prelude::*;
use vstd::string::*;

verus! {

/// `s` without the spaces at its front.
pub open spec fn strip_front(s: Seq<char>) -> Seq<char>
    decreases s.len(),
{
    if s.len() > 0 && s[0] == ' ' {
        strip_front(s.skip(1))
    } else {
        s
    }
}

/// `s` without the spaces at its back.
pub open spec fn strip_back(s: Seq<char>) -> Seq<char>
    decreases s.len(),
{
    if s.len() > 0 && s.last() == ' ' {
        strip_back(s.drop_last())
    } else {
        s
    }
}

/// `s` without the spaces around it.
pub open spec fn trim(s: Seq<char>) -> Seq<char> {
    strip_back(strip_front(s))
}

/// The name and value that a piece stands for: what is before its first
/// `=`, and what is behind it.
pub open spec fn read_pair(piece: Seq<char>) -> (Seq<char>, Seq<char>) {
    let n = until(piece, '=') as int;
    if n < piece.len() {
        (piece.take(n), piece.skip(n + 1))
    } else {
        (piece, Seq::empty())
    }
}

/// What one piece of the text adds to the list: its pair, or nothing where
/// only spaces are in it.
pub open spec fn read_piece(piece: Seq<char>) -> Pairs {
    if trim(piece).len() == 0 {
        Seq::empty()
    } else {
        seq![read_pair(trim(piece))]
    }
}

/// The pairs that a text stands for, in order.
pub open spec fn spec_decode(text: Seq<char>, separator: char) -> Pairs
    decreases text.len(),
{
    let n = until(text, separator) as int;
    if n < text.len() {
        read_piece(text.take(n)) + spec_decode(text.skip(n + 1), separator)
    } else {
        read_piece(text)
    }
}

/// Where the part of `chars` between `from` and `to` begins and ends once
/// the spaces around it are dropped.
fn trim_bounds(chars: &Vec<char>, from: usize, to: usize) -> (ends: (usize, usize))
    requires
        from <= to <= chars.len(),
    ensures
        from <= ends.0 <= ends.1 <= to,
        chars@.subrange(ends.0 as int, ends.1 as int) == trim(
            chars@.subrange(from as int, to as int),
        ),
{
    let mut a: usize = from;
    while a < to && chars[a] == ' '
        invariant
            from <= a <= to <= chars.len(),
            strip_front(chars@.subrange(from as int, to as int)) == strip_front(
                chars@.subrange(a as int, to as int),
            ),
        decreases to - a,
    {
        assert(chars@.subrange(a as int, to as int).skip(1) =~= chars@.subrange(
            a + 1,
            to as int,
        ));
        a += 1;
    }
    let mut b: usize = to;
    while b > a && chars[b - 1] == ' '
        invariant
            a <= b <= to <= chars.len(),
            strip_back(chars@.subrange(a as int, to as int)) == strip_back(
                chars@.subrange(a as int, b as int),
            ),
        decreases b - a,
    {
        assert(chars@.subrange(a as int, b as int).drop_last() =~= chars@.subrange(
            a as int,
            b - 1,
        ));
        b -= 1;
    }
    (a, b)
}

/// Reads a list of `name=value` pieces that `separator` stands between.
pub fn decode(text: &str, separator: char) -> (out: Fields)
    ensures
        out@ == spec_decode(text@, separator),
{
    let chars = to_chars(text);
    let n: usize = chars.len();
    let mut out = Fields::new();
    let mut start: usize = 0;
    let mut done = false;
    assert(text@.skip(0) =~= text@);
    while !done
        invariant
            chars@ == text@,
            n == chars.len(),
            start <= n,
            !done ==> spec_decode(text@, separator) == out@ + spec_decode(
                text@.skip(start as int),
                separator,
            ),
            done ==> out@ == spec_decode(text@, separator),
        decreases
                (if done {
                    0
                } else {
                    n - start + 1
                }),
    {
        let ghost rest = text@.skip(start as int);
        let ghost before = out@;
        let end = find(&chars, start, n, separator);
        let (a, b) = trim_bounds(&chars, start, end);
        proof {
            assert(rest =~= chars@.subrange(start as int, n as int));
            assert(rest.take(end - start) =~= chars@.subrange(start as int, end as int));
        }
        if a < b {
            let eq = find(&chars, a, b, '=');
            let name = text.substring_char(a, eq).to_owned();
            let value = if eq < b {
                text.substring_char(eq + 1, b).to_owned()
            } else {
                String::new()
            };
            proof {
                let piece = chars@.subrange(a as int, b as int);
                assert(name@ =~= piece.take(eq - a));
                if eq < b {
                    assert(value@ =~= piece.skip(eq - a + 1));
                } else {
                    assert(name@ =~= piece);
                }
            }
            out.push_owned(name, value);
        }
        assert(out@ =~= before + read_piece(rest.take(end - start)));
        if end < n {
            assert(rest.skip(end - start + 1) =~= text@.skip(end + 1));
            start = end + 1;
        } else {
            assert(rest.take(end - start) =~= rest);
            done = true;
        }
    }
    out
}

} // verus!
