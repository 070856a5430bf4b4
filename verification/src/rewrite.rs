//! Rewriting the links of one document.
//!
//! A document is read from left to right. Where a link starts, the whole link
//! is replaced by `[label](destination)` and reading goes on behind it; any
//! other character is copied. The destination is the indexed path of the
//! link's key, or the key itself where the index does not hold it; the label
//! is the one that the link gives, or the key where it gives none.

use vstd::prelude::*;
use crate::index::{index_of, lemma_index_of_holds_latest, Index};
use crate::link::{
    lemma_label_end, lemma_link_at_len, lemma_target_end, link_at, scan_link, target_end, Link,
};
use crate::normalize::{key_of_target, link_key, path_key};
use crate::text::{chars_of, push_text, text_of};

verus! {

/// Where a link with the key `key` leads: to the path that the index holds
/// for the key, or to the key itself.
pub open spec fn destination(key: Seq<char>, index: Map<Seq<char>, Seq<char>>) -> Seq<char> {
    if index.contains_key(key) {
        index[key]
    } else {
        key
    }
}

/// What a link with the key `key` shows: its label, or the key where it has
/// no label.
pub open spec fn display_text(key: Seq<char>, label: Option<Seq<char>>) -> Seq<char> {
    match label {
        Some(label) => label,
        None => key,
    }
}

/// The link `[shown](dest)`.
pub open spec fn markdown_link(shown: Seq<char>, dest: Seq<char>) -> Seq<char> {
    seq!['['] + shown + seq![']', '('] + dest + seq![')']
}

/// The text that stands in place of a link with the key `key` and the label
/// `label` after rewriting.
pub open spec fn rendered_key(
    key: Seq<char>,
    label: Option<Seq<char>>,
    index: Map<Seq<char>, Seq<char>>,
) -> Seq<char> {
    markdown_link(display_text(key, label), destination(key, index))
}

/// The text that stands in place of `link` after rewriting.
pub open spec fn rendered(link: Link, index: Map<Seq<char>, Seq<char>>) -> Seq<char> {
    rendered_key(link_key(link.target), link.label, index)
}

/// `text[from..]` with every link rewritten.
pub open spec fn rewritten_from(
    text: Seq<char>,
    index: Map<Seq<char>, Seq<char>>,
    from: int,
) -> Seq<char>
    decreases text.len() - from,
{
    if from < 0 || from >= text.len() {
        Seq::empty()
    } else {
        match link_at(text, from) {
            Some(link) => {
                proof {
                    lemma_link_at_len(text, from);
                }
                rendered(link, index) + rewritten_from(text, index, from + link.markup().len())
            },
            None => seq![text[from]] + rewritten_from(text, index, from + 1),
        }
    }
}

/// `text` with every link rewritten.
pub open spec fn rewritten(text: Seq<char>, index: Map<Seq<char>, Seq<char>>) -> Seq<char> {
    rewritten_from(text, index, 0)
}

/// The number of links in `text[from..]`.
pub open spec fn link_count_from(text: Seq<char>, from: int) -> nat
    decreases text.len() - from,
{
    if from < 0 || from >= text.len() {
        0
    } else {
        match link_at(text, from) {
            Some(link) => {
                proof {
                    lemma_link_at_len(text, from);
                }
                1 + link_count_from(text, from + link.markup().len())
            },
            None => link_count_from(text, from + 1),
        }
    }
}

/// The number of links in `text`.
pub open spec fn link_count(text: Seq<char>) -> nat {
    link_count_from(text, 0)
}

/// Rewriting a text without links gives the text back.
pub proof fn lemma_rewritten_without_links(
    text: Seq<char>,
    index: Map<Seq<char>, Seq<char>>,
    from: int,
)
    requires
        0 <= from <= text.len(),
        link_count_from(text, from) == 0,
    ensures
        rewritten_from(text, index, from) == text.skip(from),
    decreases text.len() - from,
{
    if from < text.len() {
        lemma_rewritten_without_links(text, index, from + 1);
    }
}

/// Every link ends in two closing brackets: a text in which no `]` is
/// followed by another holds no link.
pub proof fn lemma_no_link_without_closing(text: Seq<char>, from: int)
    requires
        0 <= from <= text.len(),
        no_double_close(text),
    ensures
        link_count_from(text, from) == 0,
    decreases text.len() - from,
{
    if from < text.len() {
        if link_at(text, from) is Some {
            // The link would end in two closing brackets.
            lemma_target_end(text, from + 2);
            lemma_label_end(text, target_end(text, from + 2) + 1);
        }
        lemma_no_link_without_closing(text, from + 1);
    }
}

/// A link whose key the index does not hold still becomes a link: one that
/// leads to the key itself, and that shows the key unless it has a label.
pub proof fn lemma_unresolved_link(link: Link, index: Map<Seq<char>, Seq<char>>)
    requires
        !index.contains_key(link_key(link.target)),
    ensures
        link.label is None ==> rendered(link, index) == markdown_link(
            link_key(link.target),
            link_key(link.target),
        ),
        link.label is Some ==> rendered(link, index) == markdown_link(
            link.label->0,
            link_key(link.target),
        ),
{
}

/// A link leads to the document that was recorded last under the link's key.
pub proof fn lemma_link_leads_to_latest(link: Link, paths: Seq<Seq<char>>, i: int)
    requires
        0 <= i < paths.len(),
        link_key(link.target) == path_key(paths[i]),
        forall|j: int| i < j < paths.len() ==> path_key(#[trigger] paths[j]) != path_key(paths[i]),
    ensures
        destination(link_key(link.target), index_of(paths)) == paths[i],
{
    lemma_index_of_holds_latest(paths, i);
}

/// No `]` is followed by another in `text`.
pub open spec fn no_double_close(text: Seq<char>) -> bool {
    forall|i: int|
        0 <= i && i + 1 < text.len() ==> !(#[trigger] text[i] == ']' && text[i + 1] == ']')
}

/// Rewriting `text[from..]` will not bring one `]` behind another: outside
/// links no `]` is followed by another, and what stands in place of a link
/// holds no such pair.
pub open spec fn closes_stay_single(
    text: Seq<char>,
    index: Map<Seq<char>, Seq<char>>,
    from: int,
) -> bool
    decreases text.len() - from,
{
    if from < 0 || from >= text.len() {
        true
    } else {
        match link_at(text, from) {
            Some(link) => {
                proof {
                    lemma_link_at_len(text, from);
                }
                &&& no_double_close(rendered(link, index))
                &&& closes_stay_single(text, index, from + link.markup().len())
            },
            None => {
                &&& !(text[from] == ']' && from + 1 < text.len() && text[from + 1] == ']')
                &&& closes_stay_single(text, index, from + 1)
            },
        }
    }
}

/// The rewritten text begins with the `[` of a rewritten link where a link
/// begins, and with the character that is copied where none does.
pub proof fn lemma_rewritten_first(text: Seq<char>, index: Map<Seq<char>, Seq<char>>, from: int)
    requires
        0 <= from < text.len(),
    ensures
        rewritten_from(text, index, from).len() > 0,
        link_at(text, from) is Some ==> rewritten_from(text, index, from)[0] == '[',
        link_at(text, from) is None ==> rewritten_from(text, index, from)[0] == text[from],
{
}

/// `closes_stay_single` says of the text what `no_double_close` says of the
/// rewritten text.
pub proof fn lemma_rewritten_closes(text: Seq<char>, index: Map<Seq<char>, Seq<char>>, from: int)
    requires
        0 <= from <= text.len(),
    ensures
        closes_stay_single(text, index, from) <==> no_double_close(
            rewritten_from(text, index, from),
        ),
    decreases text.len() - from,
{
    if from < text.len() {
        match link_at(text, from) {
            Some(link) => {
                lemma_link_at_len(text, from);
                let next = from + link.markup().len();
                lemma_rewritten_closes(text, index, next);
                // What stands in place of the link ends in `)`, so that no
                // pair reaches from it into what follows.
                let head = rendered(link, index);
                let rest = rewritten_from(text, index, next);
                assert(head[head.len() - 1] == ')');
                lemma_no_double_close_concat(head, rest);
            },
            None => {
                lemma_rewritten_closes(text, index, from + 1);
                let rest = rewritten_from(text, index, from + 1);
                if from + 1 < text.len() {
                    lemma_rewritten_first(text, index, from + 1);
                }
                lemma_no_double_close_concat(seq![text[from]], rest);
            },
        }
    }
}

/// Two texts put together hold a `]` behind another where one of them does,
/// or where the first ends in `]` and the second begins with one.
pub proof fn lemma_no_double_close_concat(a: Seq<char>, b: Seq<char>)
    ensures
        no_double_close(a + b) <==> no_double_close(a) && no_double_close(b) && !(a.len() > 0
            && b.len() > 0 && a.last() == ']' && b.first() == ']'),
{
    let ab = a + b;
    if no_double_close(ab) {
        assert forall|i: int| 0 <= i && i + 1 < a.len() implies !(#[trigger] a[i] == ']' && a[i
            + 1] == ']') by {
            assert(ab[i] == a[i] && ab[i + 1] == a[i + 1]);
        }
        assert forall|i: int| 0 <= i && i + 1 < b.len() implies !(#[trigger] b[i] == ']' && b[i
            + 1] == ']') by {
            assert(ab[a.len() + i] == b[i] && ab[a.len() + i + 1] == b[i + 1]);
        }
        if a.len() > 0 && b.len() > 0 {
            assert(ab[a.len() - 1] == a.last() && ab[a.len() - 1 + 1] == b.first());
        }
    }
    if no_double_close(a) && no_double_close(b) && !(a.len() > 0 && b.len() > 0 && a.last() == ']'
        && b.first() == ']') {
        assert forall|i: int| 0 <= i && i + 1 < ab.len() implies !(#[trigger] ab[i] == ']' && ab[i
            + 1] == ']') by {
            if i + 1 < a.len() {
                assert(ab[i] == a[i] && ab[i + 1] == a[i + 1]);
            } else if i >= a.len() {
                assert(ab[i] == b[i - a.len()] && ab[i + 1] == b[i - a.len() + 1]);
            } else {
                assert(ab[i] == a.last() && ab[i + 1] == b.first());
            }
        }
    }
}

/// Rewriting settles a document unless it brings one `]` behind another: the
/// rewritten text then holds no link, so that rewriting it again, against
/// whatever index, changes nothing.
pub proof fn lemma_rewriting_settles(
    text: Seq<char>,
    index: Map<Seq<char>, Seq<char>>,
    later: Map<Seq<char>, Seq<char>>,
)
    requires
        closes_stay_single(text, index, 0),
    ensures
        link_count(rewritten(text, index)) == 0,
        rewritten(rewritten(text, index), later) == rewritten(text, index),
{
    let once = rewritten(text, index);
    lemma_rewritten_closes(text, index, 0);
    lemma_no_link_without_closing(once, 0);
    lemma_rewritten_without_links(once, later, 0);
}

/// What became of a document when its links were rewritten.
#[derive(Debug, PartialEq, Eq)]
pub enum Rewrite {
    /// The document holds no link and is left as it is.
    Untouched,
    /// The document held `links` links; `body` is its new text.
    Rewritten { body: String, links: usize },
}

impl Rewrite {
    /// The number of links that were found in the document.
    pub open spec fn spec_links(&self) -> usize {
        match self {
            Rewrite::Untouched => 0,
            Rewrite::Rewritten { links, .. } => *links,
        }
    }

    /// The number of links that were found in the document.
    #[verifier::when_used_as_spec(spec_links)]
    pub fn links(&self) -> (n: usize)
        ensures
            n == self.spec_links(),
    {
        match self {
            Rewrite::Untouched => 0,
            Rewrite::Rewritten { links, .. } => *links,
        }
    }
}

/// The label as text, where there is one.
pub open spec fn label_view(label: Option<&str>) -> Option<Seq<char>> {
    match label {
        Some(label) => Some(label@),
        None => None,
    }
}

/// The text that stands in place of a link once its key is known: the link
/// `[label](path)`, with the key in place of a label that is missing and in
/// place of a path that `index` does not hold.
pub fn render_link(key: &str, label: Option<&str>, index: &Index) -> (out: String)
    ensures
        out@ == rendered_key(key@, label_view(label), index@),
{
    let mut out = String::new();
    out.push('[');
    match label {
        Some(label) => push_text(&mut out, label),
        None => push_text(&mut out, key),
    }
    out.push(']');
    out.push('(');
    match index.get(key) {
        Some(path) => push_text(&mut out, path.as_str()),
        None => push_text(&mut out, key),
    }
    out.push(')');
    out
}

/// Counts the links of `text`.
fn count_in(text: &Vec<char>) -> (n: usize)
    ensures
        n == link_count(text@),
{
    let mut n: usize = 0;
    let mut at: usize = 0;
    while at < text.len()
        invariant
            at <= text@.len(),
            n <= at,
            n + link_count_from(text@, at as int) == link_count(text@),
        decreases text@.len() - at,
    {
        match scan_link(text, at) {
            Some(span) => {
                proof {
                    lemma_link_at_len(text@, at as int);
                }
                n += 1;
                at = span.end;
            },
            None => {
                at += 1;
            },
        }
    }
    n
}

/// Rewrites the links of `text`.
fn rewrite_in(text: &Vec<char>, index: &Index) -> (out: String)
    ensures
        out@ == rewritten(text@, index@),
{
    let mut out = String::new();
    let mut at: usize = 0;
    while at < text.len()
        invariant
            at <= text@.len(),
            out@ + rewritten_from(text@, index@, at as int) == rewritten(text@, index@),
        decreases text@.len() - at,
    {
        let ghost before = out@;
        match scan_link(text, at) {
            Some(span) => {
                let ghost link = span.link(text@, at as int);
                let target = text_of(text, at + 2, span.target_end);
                let key = key_of_target(target.as_str());
                let shown = if span.has_label() {
                    let label = text_of(text, span.target_end + 1, span.end - 2);
                    render_link(key.as_str(), Some(label.as_str()), index)
                } else {
                    render_link(key.as_str(), None, index)
                };
                push_text(&mut out, shown.as_str());
                proof {
                    lemma_link_at_len(text@, at as int);
                    assert(out@ + rewritten_from(text@, index@, span.end as int) =~= before + (
                    rendered(link, index@) + rewritten_from(text@, index@, span.end as int)));
                }
                at = span.end;
            },
            None => {
                out.push(text[at]);
                proof {
                    assert(out@ + rewritten_from(text@, index@, at + 1) =~= before + (seq![
                        text@[at as int],
                    ] + rewritten_from(text@, index@, at + 1)));
                }
                at += 1;
            },
        }
    }
    out
}

/// Counts the links of `content`: the matches of the link grammar, read from
/// left to right, none overlapping another.
pub fn count_links(content: &str) -> (n: usize)
    ensures
        n == link_count(content@),
{
    let text = chars_of(content);
    count_in(&text)
}

/// Rewrites every link of `content` to `[label](destination)`.
///
/// A link whose key `index` holds leads to the indexed path; any other link
/// leads to its key. Text outside links is copied unchanged.
pub fn replace_links(content: &str, index: &Index) -> (out: String)
    ensures
        out@ == rewritten(content@, index@),
{
    let text = chars_of(content);
    rewrite_in(&text, index)
}

/// Decides what becomes of a document whose text is `content`: a document
/// without links is left untouched; any other gets its links rewritten, and the
/// links that were found in the text as it was are counted.
pub fn rewrite_document(content: &str, index: &Index) -> (outcome: Rewrite)
    ensures
        outcome.spec_links() == link_count(content@),
        outcome is Untouched <==> link_count(content@) == 0,
        outcome is Rewritten ==> outcome->body@ == rewritten(content@, index@),
{
    let text = chars_of(content);
    let links = count_in(&text);
    if links == 0 {
        Rewrite::Untouched
    } else {
        Rewrite::Rewritten { body: rewrite_in(&text, index), links }
    }
}

} // verus!
