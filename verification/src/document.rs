//! Which files are documents, and what a document's file is to be called.
//!
//! A document is a file whose name is a non-empty stem followed by the
//! extension `.md`. Its canonical name is the canonical form of its stem,
//! followed by the same extension.

use vstd::prelude::*;
use crate::normalize::{
    ends_with_extension, extension, has_extension, is_slug, normalize_filename, normalized_name,
    push_extension, squeezed,
};
use crate::text::{ascii_lowered, chars_of, is_ascii_text, text_of};

verus! {

/// A file of this name is a document.
pub open spec fn is_document(file_name: Seq<char>) -> bool {
    file_name.len() > 3 && has_extension(file_name)
}

/// The part of a document's file name that stands before its extension.
pub open spec fn stem_of(file_name: Seq<char>) -> Seq<char> {
    file_name.take(file_name.len() - 3)
}

/// The name under which the document that is now called `file_name` is to be
/// stored.
pub open spec fn canonical_name(file_name: Seq<char>) -> Seq<char> {
    normalized_name(stem_of(file_name)) + extension()
}

/// `file_name` is a slug followed by the extension: the form that every
/// canonical name has.
pub open spec fn is_canonical(file_name: Seq<char>) -> bool {
    has_extension(file_name) && is_slug(stem_of(file_name))
}

/// What is to be done about the name of a file.
#[derive(Debug, PartialEq, Eq)]
pub enum NamePlan {
    /// The file is no document; it is left alone.
    NotDocument,
    /// The file is a document and has its canonical name already.
    Keep,
    /// The file is a document and is to be renamed to the name given, in the
    /// directory it is in.
    Rename(String),
}

/// Tells whether the file called `file_name` is a document.
pub fn is_document_name(file_name: &str) -> (b: bool)
    ensures
        b == is_document(file_name@),
{
    let chars = chars_of(file_name);
    chars.len() > 3 && ends_with_extension(&chars, chars.len())
}

/// Decides what is to be done about the name of the file called `file_name`.
///
/// A document keeps its name if and only if the name is canonical, and a name
/// that this function asks for is canonical: once the documents have been
/// renamed as asked, no further renaming is asked for. For a name that is
/// ASCII throughout, lower case is the lower case of ASCII.
pub fn plan_name(file_name: &str) -> (plan: NamePlan)
    ensures
        plan is NotDocument <==> !is_document(file_name@),
        plan is Keep <==> is_document(file_name@) && is_canonical(file_name@),
        plan is Keep ==> canonical_name(file_name@) == file_name@,
        plan matches NamePlan::Rename(name) ==> name@ == canonical_name(file_name@),
        plan matches NamePlan::Rename(name) ==> is_canonical(name@),
        plan matches NamePlan::Rename(name) ==> (is_ascii_text(file_name@) ==> name@ == squeezed(
            ascii_lowered(stem_of(file_name@)),
        ) + extension()),
{
    let chars = chars_of(file_name);
    let len = chars.len();
    if !(len > 3 && ends_with_extension(&chars, len)) {
        return NamePlan::NotDocument;
    }
    let stem = text_of(&chars, 0, len - 3);
    let mut name = normalize_filename(stem.as_str());
    push_extension(&mut name);
    let current = text_of(&chars, 0, len);
    proof {
        assert(chars@.subrange(0, len as int) =~= file_name@);
        assert(file_name@ =~= stem_of(file_name@) + extension());
    }
    if name == current {
        NamePlan::Keep
    } else {
        NamePlan::Rename(name)
    }
}

} // verus!
