//! Characters, and the handful of operations on text that every other module is
//! built from.
//!
//! Text is modelled as `Seq<char>`, the view of `str` and `String`. Executable
//! code that needs to look at a position more than once works on a `Vec<char>`.

use vstd::prelude::*;

verus! {

/// `c` is one of the letters `A` to `Z`.
pub open spec fn is_ascii_upper(c: char) -> bool {
    'A' <= c <= 'Z'
}

/// `c` is a letter or a digit of ASCII.
pub open spec fn is_ascii_alphanumeric(c: char) -> bool {
    ||| 'a' <= c <= 'z'
    ||| 'A' <= c <= 'Z'
    ||| '0' <= c <= '9'
}

/// `c` lies in the ASCII range.
pub open spec fn is_ascii_char(c: char) -> bool {
    c <= '\x7f'
}

/// Every character of `s` lies in the ASCII range.
pub open spec fn is_ascii_text(s: Seq<char>) -> bool {
    forall|i: int| 0 <= i < s.len() ==> is_ascii_char(#[trigger] s[i])
}

/// The letters `A` to `Z` go to `a` to `z`; every other character stays.
pub open spec fn ascii_lower(c: char) -> char {
    if is_ascii_upper(c) {
        ((c as u8) + 32) as char
    } else {
        c
    }
}

/// `s` with `ascii_lower` applied to each character.
pub open spec fn ascii_lowered(s: Seq<char>) -> Seq<char> {
    s.map_values(|c: char| ascii_lower(c))
}

/// The text that `str::to_lowercase` returns for the text `s`.
///
/// Lower-casing follows the Unicode tables and is not spelled out here; what
/// the crate relies on is stated with `str::to_lowercase` below.
pub uninterp spec fn lowercased(s: Seq<char>) -> Seq<char>;

/// Assumed of `str::to_lowercase`, which is not verified here:
///
/// * its result depends on the characters of `s` alone, so it has a name,
///   `lowercased`;
/// * the result holds none of the letters `A` to `Z`: each of them has a
///   lower-case mapping, and no mapping yields one;
/// * on text that is ASCII throughout it agrees with `str::to_ascii_lowercase`:
///   `A` to `Z` become `a` to `z` and nothing else changes.
pub assume_specification[ str::to_lowercase ](s: &str) -> (lowered: String)
    ensures
        lowered@ == lowercased(s@),
        forall|i: int| 0 <= i < lowered@.len() ==> !is_ascii_upper(#[trigger] lowered@[i]),
        is_ascii_text(s@) ==> lowered@ == ascii_lowered(s@),
;

/// Assumed of `String::push`: it appends `c` and changes nothing else.
pub assume_specification[ String::push ](s: &mut String, c: char)
    ensures
        final(s)@ == old(s)@.push(c),
;

/// `s` with `from` replaced by `to` wherever it occurs.
pub open spec fn substituted(s: Seq<char>, from: char, to: char) -> Seq<char> {
    s.map_values(|c: char| if c == from { to } else { c })
}

/// `s` with every space replaced by an underscore.
pub open spec fn underscored(s: Seq<char>) -> Seq<char> {
    substituted(s, ' ', '_')
}

/// Tells whether `c` is a letter or a digit of ASCII.
pub fn ascii_alphanumeric(c: char) -> (b: bool)
    ensures
        b == is_ascii_alphanumeric(c),
{
    ('a' <= c && c <= 'z') || ('A' <= c && c <= 'Z') || ('0' <= c && c <= '9')
}

/// The characters of `s`, one by one.
pub fn chars_of(s: &str) -> (chars: Vec<char>)
    ensures
        chars@ == s@,
{
    let mut chars: Vec<char> = Vec::new();
    for c in it: s.chars()
        invariant
            it.seq() == s@,
            chars@ == s@.take(it.index() as int),
    {
        chars.push(c);
    }
    chars
}

/// The text made of `chars[from..to]`.
pub fn text_of(chars: &Vec<char>, from: usize, to: usize) -> (s: String)
    requires
        from <= to <= chars@.len(),
    ensures
        s@ == chars@.subrange(from as int, to as int),
{
    let mut s = String::new();
    let mut i: usize = from;
    while i < to
        invariant
            from <= i <= to <= chars@.len(),
            s@ == chars@.subrange(from as int, i as int),
        decreases to - i,
    {
        s.push(chars[i]);
        i += 1;
    }
    s
}

/// Replaces each `from` in `s` by `to`.
pub fn substitute(s: &str, from: char, to: char) -> (out: String)
    ensures
        out@ == substituted(s@, from, to),
{
    let mut out = String::new();
    for c in it: s.chars()
        invariant
            it.seq() == s@,
            out@ == substituted(s@.take(it.index() as int), from, to),
    {
        if c == from {
            out.push(to);
        } else {
            out.push(c);
        }
    }
    out
}

/// Appends the characters of `tail` to `out`.
pub fn push_text(out: &mut String, tail: &str)
    ensures
        final(out)@ == old(out)@ + tail@,
{
    for c in it: tail.chars()
        invariant
            it.seq() == tail@,
            out@ == old(out)@ + tail@.take(it.index() as int),
    {
        out.push(c);
    }
}

} // verus!
