//! Conversions between `str`/`String` and character vectors.

use vstd::prelude::*;
use vstd::std_specs::iter::IteratorSpec;

use crate::text::sat;

verus! {

/// Appends one character to a `String` (calls `String::push`).
/// Claimed: the string's characters afterwards are the old ones followed by `c`.
#[verifier::external_body]
pub fn push_char(s: &mut String, c: char)
    ensures
        final(s)@ == old(s)@.push(c),
{
    s.push(c);
}

/// Collects the characters of `s` in order.
pub fn chars_of(s: &str) -> (r: Vec<char>)
    ensures
        r@ == s@,
{
    let mut out: Vec<char> = Vec::new();
    let mut it = s.chars();
    proof {
        vstd::string::axiom_spec_iter(s);
    }
    loop
        invariant
            it.remaining() == s@.subrange(out@.len() as int, s@.len() as int),
            out@ == s@.subrange(0, out@.len() as int),
            out@.len() <= s@.len(),
            it.obeys_prophetic_iter_laws(),
        ensures
            out@ == s@,
        decreases s@.len() - out@.len(),
    {
        let ghost before = it;
        match it.next() {
            Some(c) => {
                proof {
                    vstd::string::next_postcondition(&before, &it, Some(c));
                }
                assert(s@.subrange(0, out@.len() as int).push(c) =~= s@.subrange(0, out@.len() + 1 as int));
                out.push(c);
            },
            None => {
                proof {
                    vstd::string::next_postcondition(&before, &it, None);
                    assert(before.remaining().len() == 0);
                    assert(out@.len() == s@.len());
                }
                assert(s@.subrange(0, s@.len() as int) =~= s@);
                break;
            },
        }
    }
    out
}

/// Builds a `String` whose characters are exactly `v`.
pub fn string_of(v: &[char]) -> (r: String)
    ensures
        r@ == v@,
{
    let mut s = String::new();
    let mut i: usize = 0;
    while i < v.len()
        invariant
            i <= v@.len(),
            s@ == v@.subrange(0, i as int),
        decreases v@.len() - i,
    {
        push_char(&mut s, v[i]);
        assert(v@.subrange(0, i as int).push(v@[i as int]) =~= v@.subrange(0, i + 1));
        i += 1;
    }
    assert(v@.subrange(0, v@.len() as int) =~= v@);
    s
}

/// Copies `v[start..end]` into a fresh vector.
pub fn slice_chars(v: &[char], start: usize, end: usize) -> (r: Vec<char>)
    requires
        start <= end <= v@.len(),
    ensures
        r@ == v@.subrange(start as int, end as int),
{
    let mut out: Vec<char> = Vec::new();
    let mut i = start;
    while i < end
        invariant
            start <= i <= end <= v@.len(),
            out@ == v@.subrange(start as int, i as int),
        decreases end - i,
    {
        out.push(v[i]);
        assert(v@.subrange(start as int, i as int).push(v@[i as int]) =~= v@.subrange(
            start as int,
            i + 1,
        ));
        i += 1;
    }
    out
}

/// Appends all of `src` to `dst`.
pub fn extend_chars(dst: &mut Vec<char>, src: &[char])
    ensures
        final(dst)@ == old(dst)@ + src@,
{
    let mut i: usize = 0;
    while i < src.len()
        invariant
            i <= src@.len(),
            dst@ == old(dst)@ + src@.subrange(0, i as int),
        decreases src@.len() - i,
    {
        dst.push(src[i]);
        assert(old(dst)@ + src@.subrange(0, i as int).push(src@[i as int]) =~= old(dst)@
            + src@.subrange(0, i + 1));
        i += 1;
    }
    assert(src@.subrange(0, src@.len() as int) =~= src@);
}

/// A vector of `n` copies of `c`.
pub fn repeat_char(c: char, n: usize) -> (r: Vec<char>)
    ensures
        r@ == Seq::new(n as nat, |_i: int| c),
{
    let mut out: Vec<char> = Vec::new();
    let mut i: usize = 0;
    while i < n
        invariant
            i <= n,
            out@ == Seq::new(i as nat, |_i: int| c),
        decreases n - i,
    {
        out.push(c);
        assert(Seq::new(i as nat, |_i: int| c).push(c) =~= Seq::new((i + 1) as nat, |_i: int| c));
        i += 1;
    }
    out
}

/// `n` spaces.
pub open spec fn spaces(n: nat) -> Seq<char> {
    Seq::new(n, |_i: int| ' ')
}

/// ASCII lowercase of one character (other characters unchanged).
pub open spec fn ascii_lower(c: char) -> char {
    if 'A' <= c && c <= 'Z' {
        ((c as u32) + 32) as char
    } else {
        c
    }
}

/// The text that `str::to_lowercase` returns for `s` (Unicode lowercase mapping).
pub uninterp spec fn lowercase(s: Seq<char>) -> Seq<char>;

/// Calls `str::to_lowercase`.
/// Claimed: the result is `lowercase(s)`; for text made only of ASCII characters it is the
/// ASCII lowercase of each character, as the Unicode lowercase mapping gives for them.
#[verifier::external_body]
pub fn to_lowercase(s: &str) -> (r: String)
    ensures
        r@ == lowercase(s@),
        (forall|i: int| 0 <= i < s@.len() ==> (#[trigger] s@[i] as u32) < 0x80) ==> r@ == s@.map_values(
            |c: char| ascii_lower(c),
        ),
{
    s.to_lowercase()
}


/// Bytes that UTF-8 needs for a character.
pub open spec fn utf8_len(c: char) -> nat {
    let u = c as u32;
    if u < 0x80 {
        1
    } else if u < 0x800 {
        2
    } else if u < 0x10000 {
        3
    } else {
        4
    }
}

/// Length in bytes of the UTF-8 encoding of `s`.
pub open spec fn utf8_bytes(s: Seq<char>) -> nat
    decreases s.len(),
{
    if s.len() == 0 {
        0
    } else {
        utf8_bytes(s.drop_last()) + utf8_len(s.last())
    }
}

/// Length in bytes of the UTF-8 encoding of `s`, saturating.
pub fn utf8_length(s: &[char]) -> (r: usize)
    ensures
        r == sat(utf8_bytes(s@)),
{
    let mut total: usize = 0;
    let mut i: usize = 0;
    while i < s.len()
        invariant
            i <= s@.len(),
            total == sat(utf8_bytes(s@.subrange(0, i as int))),
        decreases s@.len() - i,
    {
        let u = s[i] as u32;
        let l: usize = if u < 0x80 {
            1
        } else if u < 0x800 {
            2
        } else if u < 0x10000 {
            3
        } else {
            4
        };
        assert(s@.subrange(0, i + 1 as int).drop_last() =~= s@.subrange(0, i as int));
        total = total.saturating_add(l);
        i += 1;
    }
    assert(s@.subrange(0, s@.len() as int) =~= s@);
    total
}

/// Bytes that UTF-8 needs for `c`.
pub fn char_utf8_len(c: char) -> (r: usize)
    ensures
        r == utf8_len(c),
{
    let u = c as u32;
    if u < 0x80 {
        1
    } else if u < 0x800 {
        2
    } else if u < 0x10000 {
        3
    } else {
        4
    }
}

} // verus!
