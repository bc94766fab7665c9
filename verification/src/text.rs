//! Character-level helpers: ASCII case folding, reading a string slice as a
//! sequence of characters, and the ordinal (code point by code point) order
//! on character sequences.

use vstd::prelude::*;

verus! {

/// The ASCII lowercase form of `c`; characters outside `A..=Z` stay as they are.
pub open spec fn ascii_lower(c: char) -> char {
    if 'A' <= c && c <= 'Z' {
        ((c as u8 + 32) as u8) as char
    } else {
        c
    }
}

/// `s` with every character replaced by its ASCII lowercase form.
pub open spec fn ascii_lowercase(s: Seq<char>) -> Seq<char> {
    Seq::new(s.len(), |i: int| ascii_lower(s[i]))
}

/// Strict ordinal order: `a` comes before `b` when `a` is a proper prefix of
/// `b`, or when at the first position where they differ `a` holds the smaller
/// code point.
pub open spec fn ordinal_lt(a: Seq<char>, b: Seq<char>) -> bool
    decreases a.len(),
{
    if b.len() == 0 {
        false
    } else if a.len() == 0 {
        true
    } else if a[0] != b[0] {
        (a[0] as u32) < (b[0] as u32)
    } else {
        ordinal_lt(a.skip(1), b.skip(1))
    }
}

/// Lowercases one character the ASCII way.
pub fn to_ascii_lower(c: char) -> (r: char)
    ensures
        r == ascii_lower(c),
{
    if 'A' <= c && c <= 'Z' {
        let b: u8 = c as u8;
        (b + 32) as char
    } else {
        c
    }
}

/// Collects the characters of `s` in order.
pub fn chars_of(s: &str) -> (r: Vec<char>)
    ensures
        r@ == s@,
{
    let mut out: Vec<char> = Vec::new();
    for c in it: s.chars()
        invariant
            it.seq() == s@,
            out@ == s@.take(it.index()),
    {
        out.push(c);
    }
    out
}

/// Decides the ordinal order of two character sequences.
pub fn ordinal_less(a: &Vec<char>, b: &Vec<char>) -> (r: bool)
    ensures
        r == ordinal_lt(a@, b@),
{
    let mut i: usize = 0;
    assert(a@.skip(0) =~= a@ && b@.skip(0) =~= b@);
    while i < a.len() && i < b.len()
        invariant
            i <= a.len(),
            i <= b.len(),
            ordinal_lt(a@, b@) == ordinal_lt(a@.skip(i as int), b@.skip(i as int)),
        decreases a.len() - i,
    {
        let x: char = a[i];
        let y: char = b[i];
        proof {
            let ra = a@.skip(i as int);
            let rb = b@.skip(i as int);
            assert(ra[0] == x && rb[0] == y);
            assert(ra.skip(1) =~= a@.skip(i + 1));
            assert(rb.skip(1) =~= b@.skip(i + 1));
        }
        if x != y {
            return (x as u32) < (y as u32);
        }
        i += 1;
    }
    i < b.len()
}

/// No sequence comes before itself.
pub proof fn ordinal_lt_irreflexive(a: Seq<char>)
    ensures
        !ordinal_lt(a, a),
    decreases a.len(),
{
    if a.len() > 0 {
        ordinal_lt_irreflexive(a.skip(1));
    }
}

/// The ordinal order is transitive.
pub proof fn ordinal_lt_transitive(a: Seq<char>, b: Seq<char>, c: Seq<char>)
    requires
        ordinal_lt(a, b),
        ordinal_lt(b, c),
    ensures
        ordinal_lt(a, c),
    decreases a.len(),
{
    if a.len() > 0 && a[0] == b[0] && b[0] == c[0] {
        ordinal_lt_transitive(a.skip(1), b.skip(1), c.skip(1));
    }
}

/// Two different sequences are ordered one way or the other.
pub proof fn ordinal_lt_connected(a: Seq<char>, b: Seq<char>)
    requires
        a != b,
    ensures
        ordinal_lt(a, b) || ordinal_lt(b, a),
    decreases a.len(),
{
    if a.len() > 0 && b.len() > 0 && a[0] == b[0] {
        if a.skip(1) == b.skip(1) {
            assert(a =~= seq![a[0]] + a.skip(1));
            assert(b =~= seq![b[0]] + b.skip(1));
        }
        ordinal_lt_connected(a.skip(1), b.skip(1));
    } else if a.len() == 0 && b.len() == 0 {
        assert(a =~= b);
    } else if a.len() > 0 && b.len() > 0 {
        vstd::utf8::char_u32_cast(a[0], a[0] as u32);
        vstd::utf8::char_u32_cast(b[0], b[0] as u32);
    }
}

} // verus!
