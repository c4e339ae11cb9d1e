//! Character classes and string building.
use vstd::prelude::*;
use vstd::std_specs::iter::IteratorSpec;

verus! {

/// What Unicode's `Alphabetic` property says of a character.
pub uninterp spec fn unicode_alphabetic(c: char) -> bool;

/// What Unicode's `Alphabetic` or `Numeric` properties say of a character.
pub uninterp spec fn unicode_alphanumeric(c: char) -> bool;

pub open spec fn is_ascii_letter(c: char) -> bool {
    ('a' <= c && c <= 'z') || ('A' <= c && c <= 'Z')
}

pub open spec fn is_digit(c: char) -> bool {
    '0' <= c && c <= '9'
}

/// A character that may start an identifier: `_` or an ASCII letter, or,
/// past ASCII, a Unicode alphabetic character.
pub open spec fn ident_start(c: char) -> bool {
    if (c as u32) < 128 {
        c == '_' || is_ascii_letter(c)
    } else {
        unicode_alphabetic(c)
    }
}

/// A character that may continue an identifier: `_`, an ASCII letter or
/// digit, or, past ASCII, a Unicode alphanumeric character.
pub open spec fn ident_char(c: char) -> bool {
    if (c as u32) < 128 {
        c == '_' || is_ascii_letter(c) || is_digit(c)
    } else {
        unicode_alphanumeric(c)
    }
}

/// Relies on char::is_alphabetic: whether the character has Unicode's
/// `Alphabetic` property.
#[verifier::external_body]
fn alphabetic(c: char) -> (r: bool)
    ensures
        r == unicode_alphabetic(c),
{
    c.is_alphabetic()
}

/// Relies on char::is_alphanumeric: whether the character is `Alphabetic` or
/// `Numeric` in Unicode.
#[verifier::external_body]
fn alphanumeric(c: char) -> (r: bool)
    ensures
        r == unicode_alphanumeric(c),
{
    c.is_alphanumeric()
}

pub fn is_ident_start(c: char) -> (r: bool)
    ensures
        r == ident_start(c),
{
    if (c as u32) < 128 {
        c == '_' || ('a' <= c && c <= 'z') || ('A' <= c && c <= 'Z')
    } else {
        alphabetic(c)
    }
}

pub fn is_ident_char(c: char) -> (r: bool)
    ensures
        r == ident_char(c),
{
    if (c as u32) < 128 {
        c == '_' || ('a' <= c && c <= 'z') || ('A' <= c && c <= 'Z') || ('0' <= c && c <= '9')
    } else {
        alphanumeric(c)
    }
}

/// Relies on String::push: appends the character at the end.
#[verifier::external_body]
pub(crate) fn push_char(s: &mut String, c: char)
    ensures
        final(s)@ == old(s)@.push(c),
{
    s.push(c)
}

/// The characters of a string, in order.
pub fn chars_of(s: &str) -> (r: Vec<char>)
    ensures
        r@ == s@,
{
    broadcast use vstd::string::group_string_axioms;

    let mut r: Vec<char> = Vec::new();
    let mut it = s.chars();
    loop
        invariant
            r@ + IteratorSpec::remaining(&it) == s@,
            IteratorSpec::decrease(&it) is Some,
        decreases IteratorSpec::decrease(&it)->0,
    {
        match it.next() {
            Some(c) => {
                let ghost before = r@;
                r.push(c);
                assert(r@ + IteratorSpec::remaining(&it) =~= before + seq![c] + IteratorSpec::remaining(&it));
                assert(r@ + IteratorSpec::remaining(&it) == s@) by {
                    assert(before + seq![c] + IteratorSpec::remaining(&it) =~= before + (seq![c] + IteratorSpec::remaining(&it)));
                }
            },
            None => {
                assert(r@ =~= s@);
                return r;
            },
        }
    }
}

/// The characters `v[lo..hi]` as a string.
pub fn string_of(v: &Vec<char>, lo: usize, hi: usize) -> (r: String)
    requires
        lo <= hi <= v.len(),
    ensures
        r@ == v@.subrange(lo as int, hi as int),
{
    let mut s = String::new();
    let mut i = lo;
    while i < hi
        invariant
            lo <= i <= hi <= v.len(),
            s@ == v@.subrange(lo as int, i as int),
        decreases hi - i,
    {
        push_char(&mut s, v[i]);
        i = i + 1;
        assert(s@ =~= v@.subrange(lo as int, i as int));
    }
    s
}

/// Whether `v[lo..hi]` spells `w`.
pub fn spells(v: &Vec<char>, lo: usize, hi: usize, w: &[char]) -> (r: bool)
    requires
        lo <= hi <= v.len(),
    ensures
        r == (v@.subrange(lo as int, hi as int) == w@),
{
    if hi - lo != w.len() {
        return false;
    }
    let mut i: usize = 0;
    while i < w.len()
        invariant
            lo <= hi <= v.len(),
            hi - lo == w.len(),
            i <= w.len(),
            forall|k: int| 0 <= k < i ==> v@[lo + k] == w@[k],
        decreases w.len() - i,
    {
        if v[lo + i] != w[i] {
            assert(v@.subrange(lo as int, hi as int)[i as int] != w@[i as int]);
            return false;
        }
        i = i + 1;
    }
    assert(v@.subrange(lo as int, hi as int) =~= w@);
    true
}

} // verus!
