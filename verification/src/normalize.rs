//! Canonical names: the file name a document is stored under, and the keys by
//! which documents are found.
//!
//! Three derivations live here and are deliberately not the same:
//!
//! * a *file stem* is lower-cased, its spaces become underscores, and every
//!   character that is neither an ASCII letter or digit nor an underscore is
//!   dropped (`normalized_name`);
//! * a *link target* is lower-cased and its spaces become underscores; nothing
//!   is dropped (`link_key`);
//! * a *relative path* loses its extension, its separators become underscores,
//!   and the rest is treated like a link target (`path_key`).

use vstd::prelude::*;
use crate::text::{
    ascii_alphanumeric, ascii_lowered, chars_of, is_ascii_alphanumeric, is_ascii_text,
    is_ascii_upper, lowercased, substitute, substituted, text_of, underscored,
};

verus! {

/// `c` may appear in a canonical file stem: `a` to `z`, a digit or `_`.
pub open spec fn is_slug_char(c: char) -> bool {
    ||| 'a' <= c <= 'z'
    ||| '0' <= c <= '9'
    ||| c == '_'
}

/// `s` is a canonical file stem: every character of it is a slug character.
pub open spec fn is_slug(s: Seq<char>) -> bool {
    forall|i: int| 0 <= i < s.len() ==> is_slug_char(#[trigger] s[i])
}

/// `c` survives the last step of normalizing a file stem.
pub open spec fn is_kept(c: char) -> bool {
    is_ascii_alphanumeric(c) || c == '_'
}

/// `is_kept` as a predicate that can be handed to `Seq::filter`.
pub open spec fn kept() -> spec_fn(char) -> bool {
    |c: char| is_kept(c)
}

/// What is left of lower-cased text once its spaces have become underscores
/// and every character that is not kept has been dropped.
pub open spec fn squeezed(lowered: Seq<char>) -> Seq<char> {
    underscored(lowered).filter(kept())
}

/// The canonical form of a file stem.
pub open spec fn normalized_name(name: Seq<char>) -> Seq<char> {
    squeezed(lowercased(name))
}

/// The key under which a link target is looked up.
pub open spec fn link_key(target: Seq<char>) -> Seq<char> {
    underscored(lowercased(target))
}

/// The extension by which a document is known, with its dot.
pub open spec fn extension() -> Seq<char> {
    seq!['.', 'm', 'd']
}

/// The extension ends `s`.
pub open spec fn has_extension(s: Seq<char>) -> bool {
    &&& s.len() >= 3
    &&& s[s.len() - 3] == '.'
    &&& s[s.len() - 2] == 'm'
    &&& s[s.len() - 1] == 'd'
}

/// `path` without the extension at its end; where the extension stands there
/// more than once, every occurrence goes.
pub open spec fn without_extension(path: Seq<char>) -> Seq<char>
    decreases path.len(),
{
    if has_extension(path) {
        without_extension(path.take(path.len() - 3))
    } else {
        path
    }
}

/// The key under which the document at the relative path `path` is indexed:
/// the path without its extension, with `/` replaced by `_`, keyed like a
/// link target.
pub open spec fn path_key(path: Seq<char>) -> Seq<char> {
    link_key(substituted(without_extension(path), '/', '_'))
}

/// Every character of `squeezed(s)` is kept, and is an underscore or occurs in `s`.
pub proof fn lemma_squeezed_chars(s: Seq<char>)
    ensures
        forall|i: int|
            0 <= i < squeezed(s).len() ==> is_kept(#[trigger] squeezed(s)[i]) && (squeezed(s)[i]
                == '_' || s.contains(squeezed(s)[i])),
{
    let u = underscored(s);
    let q = squeezed(s);
    assert forall|i: int| 0 <= i < q.len() implies is_kept(#[trigger] q[i]) && (q[i] == '_'
        || s.contains(q[i])) by {
        u.lemma_filter_pred(kept(), i);
        u.lemma_filter_contains_rev(kept(), q[i]);
    }
}

/// Text in which every character is kept and none is a space comes through
/// `squeezed` unchanged.
pub proof fn lemma_squeezed_fixed(s: Seq<char>)
    requires
        forall|i: int| 0 <= i < s.len() ==> is_kept(#[trigger] s[i]),
    ensures
        squeezed(s) == s,
{
    assert(underscored(s) =~= s);
    lemma_filter_all(s);
}

/// A filter that every element passes changes nothing.
proof fn lemma_filter_all(s: Seq<char>)
    requires
        forall|i: int| 0 <= i < s.len() ==> is_kept(#[trigger] s[i]),
    ensures
        s.filter(kept()) == s,
    decreases s.len(),
{
    reveal(Seq::filter);
    if s.len() > 0 {
        lemma_filter_all(s.drop_last());
    }
}

/// Squeezing is idempotent: what it returns, it returns unchanged.
pub proof fn lemma_squeezed_idempotent(s: Seq<char>)
    ensures
        squeezed(squeezed(s)) == squeezed(s),
{
    lemma_squeezed_chars(s);
    lemma_squeezed_fixed(squeezed(s));
}

/// Lower-cased text that is squeezed is a slug.
proof fn lemma_squeezed_lowered_is_slug(lowered: Seq<char>)
    requires
        forall|i: int| 0 <= i < lowered.len() ==> !is_ascii_upper(#[trigger] lowered[i]),
    ensures
        is_slug(squeezed(lowered)),
{
    lemma_squeezed_chars(lowered);
}

/// Replaces the spaces of lower-cased text by underscores and drops every
/// character that is neither an ASCII letter or digit nor an underscore.
pub fn squeeze(lowered: &str) -> (out: String)
    ensures
        out@ == squeezed(lowered@),
{
    let mut out = String::new();
    for c in it: lowered.chars()
        invariant
            it.seq() == lowered@,
            out@ == squeezed(lowered@.take(it.index() as int)),
    {
        let ghost before = lowered@.take(it.index() as int);
        let ghost d = if c == ' ' { '_' } else { c };
        proof {
            assert(lowered@.take(it.index() + 1) =~= before.push(c));
            assert(underscored(before.push(c)) =~= underscored(before).push(d));
            underscored(before).lemma_filter_push(d, kept());
        }
        if c == ' ' {
            out.push('_');
        } else if ascii_alphanumeric(c) || c == '_' {
            out.push(c);
        }
    }
    proof {
        assert(lowered@.take(lowered@.len() as int) =~= lowered@);
    }
    out
}

/// Brings a file stem into its canonical form: lower case, underscores for
/// spaces, and nothing but ASCII letters, digits and underscores.
///
/// The result is always a slug, and a slug is returned as it is, so the
/// function is idempotent. For a stem that is ASCII throughout, lower case is
/// the lower case of ASCII.
pub fn normalize_filename(filename: &str) -> (out: String)
    ensures
        out@ == normalized_name(filename@),
        is_slug(out@),
        is_slug(filename@) ==> out@ == filename@,
        is_ascii_text(filename@) ==> out@ == squeezed(ascii_lowered(filename@)),
{
    let lowered = filename.to_lowercase();
    proof {
        lemma_squeezed_lowered_is_slug(lowered@);
        if is_slug(filename@) {
            assert(ascii_lowered(filename@) =~= filename@);
            lemma_squeezed_fixed(filename@);
        }
    }
    squeeze(lowered.as_str())
}

/// The key under which the link target `target` is looked up: the target in
/// lower case, with underscores for spaces. Punctuation stays. For a target
/// that is ASCII throughout, lower case is the lower case of ASCII.
pub fn key_of_target(target: &str) -> (key: String)
    ensures
        key@ == link_key(target@),
        is_ascii_text(target@) ==> key@ == underscored(ascii_lowered(target@)),
{
    let lowered = target.to_lowercase();
    substitute(lowered.as_str(), ' ', '_')
}

/// Tells whether the extension ends the first `end` characters of `chars`.
pub fn ends_with_extension(chars: &Vec<char>, end: usize) -> (b: bool)
    requires
        end <= chars@.len(),
    ensures
        b == has_extension(chars@.take(end as int)),
{
    end >= 3 && chars[end - 3] == '.' && chars[end - 2] == 'm' && chars[end - 1] == 'd'
}

/// Appends the extension to `name`.
pub fn push_extension(name: &mut String)
    ensures
        final(name)@ == old(name)@ + extension(),
{
    name.push('.');
    name.push('m');
    name.push('d');
}

/// The key under which the document at `relative_path` is indexed.
///
/// The extension is taken off the end of the path, as often as it stands
/// there; `/` becomes `_`; what is left is keyed like a link target.
pub fn key_of_path(relative_path: &str) -> (key: String)
    ensures
        key@ == path_key(relative_path@),
        is_ascii_text(relative_path@) ==> key@ == underscored(
            ascii_lowered(substituted(without_extension(relative_path@), '/', '_')),
        ),
{
    let chars = chars_of(relative_path);
    let mut end: usize = chars.len();
    proof {
        assert(chars@.take(chars@.len() as int) =~= chars@);
    }
    while ends_with_extension(&chars, end)
        invariant
            end <= chars@.len(),
            without_extension(chars@.take(end as int)) == without_extension(chars@),
        decreases end,
    {
        proof {
            assert(chars@.take(end as int).take(end - 3) =~= chars@.take(end - 3));
        }
        end -= 3;
    }
    let stem = text_of(&chars, 0, end);
    let flat = substitute(stem.as_str(), '/', '_');
    key_of_target(flat.as_str())
}

} // verus!
