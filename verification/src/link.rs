//! The link grammar.
//!
//! A link is written `[[target]]` or `[[target|label]]`. The target is a
//! non-empty run of characters other than `|` and `]`; the label, where there
//! is one, is a non-empty run of characters other than `]`. Links do not nest:
//! the first `]]` that can close a link closes it.

use vstd::prelude::*;

verus! {

/// A link reference: the target as the author wrote it, and the label that is
/// to be shown in its place, if one was given.
pub struct Link {
    pub target: Seq<char>,
    pub label: Option<Seq<char>>,
}

/// `c` may stand in a target.
pub open spec fn is_target_char(c: char) -> bool {
    c != '|' && c != ']'
}

/// `c` may stand in a label.
pub open spec fn is_label_char(c: char) -> bool {
    c != ']'
}

impl Link {
    /// The link as it is written in a document.
    pub open spec fn markup(self) -> Seq<char> {
        match self.label {
            Some(label) => seq!['[', '['] + self.target + seq!['|'] + label + seq![']', ']'],
            None => seq!['[', '['] + self.target + seq![']', ']'],
        }
    }

    /// The grammar's demands on target and label.
    pub open spec fn well_formed(self) -> bool {
        &&& self.target.len() > 0
        &&& forall|i: int| 0 <= i < self.target.len() ==> is_target_char(#[trigger] self.target[i])
        &&& match self.label {
            Some(label) => {
                &&& label.len() > 0
                &&& forall|i: int| 0 <= i < label.len() ==> is_label_char(#[trigger] label[i])
            },
            None => true,
        }
    }
}

/// The end of the longest run of target characters that starts at `from`.
pub open spec fn target_end(text: Seq<char>, from: int) -> int
    decreases text.len() - from,
{
    if 0 <= from < text.len() && is_target_char(text[from]) {
        target_end(text, from + 1)
    } else {
        from
    }
}

/// The end of the longest run of label characters that starts at `from`.
pub open spec fn label_end(text: Seq<char>, from: int) -> int
    decreases text.len() - from,
{
    if 0 <= from < text.len() && is_label_char(text[from]) {
        label_end(text, from + 1)
    } else {
        from
    }
}

/// The link that starts at position `at` of `text`, if one does.
pub open spec fn link_at(text: Seq<char>, at: int) -> Option<Link> {
    if 0 <= at && at + 1 < text.len() && text[at] == '[' && text[at + 1] == '[' {
        let bar = target_end(text, at + 2);
        if bar <= at + 2 || bar + 1 >= text.len() {
            None
        } else if text[bar] == ']' {
            if text[bar + 1] == ']' {
                Some(Link { target: text.subrange(at + 2, bar), label: None })
            } else {
                None
            }
        } else {
            // The target ends at a bar; the label runs up to the next `]`.
            let close = label_end(text, bar + 1);
            if bar + 1 < close && close + 1 < text.len() && text[close] == ']' && text[close + 1]
                == ']' {
                Some(
                    Link {
                        target: text.subrange(at + 2, bar),
                        label: Some(text.subrange(bar + 1, close)),
                    },
                )
            } else {
                None
            }
        }
    } else {
        None
    }
}

/// Where a link found in a text stops: `target_end` is the position just behind
/// its target, `end` the position just behind its closing brackets. A link
/// without a label has its closing brackets right behind the target.
#[derive(Clone, Copy, Debug, PartialEq, Eq)]
pub struct LinkSpan {
    pub target_end: usize,
    pub end: usize,
}

impl LinkSpan {
    /// The span lies in `text` as the span of a link that starts at `at` does.
    pub open spec fn fits(self, text: Seq<char>, at: int) -> bool {
        &&& 0 <= at
        &&& at + 2 < self.target_end
        &&& self.end <= text.len()
        &&& (self.end == self.target_end + 2 || self.end >= self.target_end + 4)
    }

    /// The link has a label.
    pub open spec fn labelled(self) -> bool {
        self.target_end + 2 < self.end
    }

    /// Tells whether the link has a label.
    pub fn has_label(&self) -> (b: bool)
        ensures
            b == self.labelled(),
    {
        self.end > self.target_end && self.end - self.target_end > 2
    }

    /// The link that the span marks in `text`, for a link that starts at `at`.
    pub open spec fn link(self, text: Seq<char>, at: int) -> Link {
        Link {
            target: text.subrange(at + 2, self.target_end as int),
            label: if self.labelled() {
                Some(text.subrange(self.target_end + 1, self.end - 2))
            } else {
                None
            },
        }
    }
}

/// `target_end` stops at the first character that cannot stand in a target.
pub proof fn lemma_target_end(text: Seq<char>, from: int)
    requires
        0 <= from <= text.len(),
    ensures
        from <= target_end(text, from) <= text.len(),
        forall|i: int| from <= i < target_end(text, from) ==> is_target_char(#[trigger] text[i]),
        target_end(text, from) < text.len() ==> !is_target_char(text[target_end(text, from)]),
    decreases text.len() - from,
{
    if from < text.len() && is_target_char(text[from]) {
        lemma_target_end(text, from + 1);
    }
}

/// `label_end` stops at the first `]`.
pub proof fn lemma_label_end(text: Seq<char>, from: int)
    requires
        0 <= from <= text.len(),
    ensures
        from <= label_end(text, from) <= text.len(),
        forall|i: int| from <= i < label_end(text, from) ==> is_label_char(#[trigger] text[i]),
        label_end(text, from) < text.len() ==> !is_label_char(text[label_end(text, from)]),
    decreases text.len() - from,
{
    if from < text.len() && is_label_char(text[from]) {
        lemma_label_end(text, from + 1);
    }
}

/// A run of target characters that is followed by another character, or by
/// the end of the text, is the one that `target_end` finds.
pub proof fn lemma_target_end_is(text: Seq<char>, from: int, end: int)
    requires
        0 <= from <= end <= text.len(),
        forall|i: int| from <= i < end ==> is_target_char(#[trigger] text[i]),
        end < text.len() ==> !is_target_char(text[end]),
    ensures
        target_end(text, from) == end,
    decreases end - from,
{
    if from < end {
        lemma_target_end_is(text, from + 1, end);
    }
}

/// A run of label characters that is followed by `]`, or by the end of the
/// text, is the one that `label_end` finds.
pub proof fn lemma_label_end_is(text: Seq<char>, from: int, end: int)
    requires
        0 <= from <= end <= text.len(),
        forall|i: int| from <= i < end ==> is_label_char(#[trigger] text[i]),
        end < text.len() ==> !is_label_char(text[end]),
    ensures
        label_end(text, from) == end,
    decreases end - from,
{
    if from < end {
        lemma_label_end_is(text, from + 1, end);
    }
}

/// A link that is found takes up at least five characters and lies inside the
/// text.
pub proof fn lemma_link_at_len(text: Seq<char>, at: int)
    requires
        link_at(text, at) is Some,
    ensures
        5 <= link_at(text, at)->0.markup().len() <= text.len() - at,
{
    lemma_target_end(text, at + 2);
    let bar = target_end(text, at + 2);
    if text[bar] != ']' {
        lemma_label_end(text, bar + 1);
    }
}

/// `link` is written at position `at` of `text`, and is a link by the grammar.
pub open spec fn stands_at(link: Link, text: Seq<char>, at: int) -> bool {
    &&& 0 <= at <= text.len()
    &&& link.well_formed()
    &&& link.markup().is_prefix_of(text.skip(at))
}

/// What `link_at` finds is a link by the grammar, written at that position.
pub proof fn lemma_link_at_sound(text: Seq<char>, at: int)
    requires
        link_at(text, at) is Some,
    ensures
        stands_at(link_at(text, at)->0, text, at),
{
    let bar = target_end(text, at + 2);
    lemma_target_end(text, at + 2);
    if text[bar] != ']' {
        lemma_label_end(text, bar + 1);
    }
}

/// Where a link stands by the grammar, `link_at` finds it, so at most one link
/// starts at any position.
pub proof fn lemma_link_at_complete(link: Link, text: Seq<char>, at: int)
    requires
        stands_at(link, text, at),
    ensures
        link_at(text, at) == Some(link),
{
    let markup = link.markup();
    let bar = at + 2 + link.target.len();
    // The text holds the markup, character by character.
    assert(forall|i: int| 0 <= i < markup.len() ==> text[at + i] == #[trigger] markup[i]);
    assert(text[at] == markup[0]);
    assert(text[at + 1] == markup[1]);
    assert forall|i: int| at + 2 <= i < bar implies is_target_char(#[trigger] text[i]) by {
        assert(markup[i - at] == link.target[i - at - 2]);
    }
    // The target is the run of target characters behind the opening brackets.
    assert(text[bar] == markup[bar - at]);
    lemma_target_end_is(text, at + 2, bar);
    assert(text.subrange(at + 2, bar) =~= link.target) by {
        assert forall|i: int| 0 <= i < link.target.len() implies text[at + 2 + i]
            == link.target[i] by {
            assert(text[at + 2 + i] == markup[2 + i]);
        }
    }
    match link.label {
        Some(label) => {
            let close = bar + 1 + label.len();
            assert forall|i: int| bar + 1 <= i < close implies is_label_char(#[trigger] text[i]) by {
                assert(markup[i - at] == label[i - bar - 1]);
            }
            // The label is the run of label characters behind the bar.
            assert(text[close] == markup[close - at]);
            assert(text[close + 1] == markup[close + 1 - at]);
            lemma_label_end_is(text, bar + 1, close);
            assert(text.subrange(bar + 1, close) =~= label) by {
                assert forall|i: int| 0 <= i < label.len() implies text[bar + 1 + i]
                    == label[i] by {
                    assert(text[bar + 1 + i] == markup[bar + 1 + i - at]);
                }
            }
        },
        None => {
            assert(text[bar + 1] == markup[bar + 1 - at]);
        },
    }
}

/// Looks for a link that starts at position `at` of `text`.
pub fn scan_link(text: &Vec<char>, at: usize) -> (found: Option<LinkSpan>)
    ensures
        found is Some <==> link_at(text@, at as int) is Some,
        found matches Some(span) ==> span.fits(text@, at as int),
        found matches Some(span) ==> link_at(text@, at as int) == Some(span.link(text@, at as int)),
{
    let len = text.len();
    if len < 2 || at >= len - 1 || text[at] != '[' || text[at + 1] != '[' {
        return None;
    }
    let mut bar: usize = at + 2;
    while bar < len && text[bar] != '|' && text[bar] != ']'
        invariant
            at + 2 <= bar <= len,
            len == text@.len(),
            target_end(text@, bar as int) == target_end(text@, at + 2),
        decreases len - bar,
    {
        bar += 1;
    }
    if bar == at + 2 || bar >= len - 1 {
        return None;
    }
    if text[bar] == ']' {
        if text[bar + 1] == ']' {
            return Some(LinkSpan { target_end: bar, end: bar + 2 });
        }
        return None;
    }
    let mut close: usize = bar + 1;
    while close < len && text[close] != ']'
        invariant
            bar + 1 <= close <= len,
            len == text@.len(),
            label_end(text@, close as int) == label_end(text@, bar + 1),
        decreases len - close,
    {
        close += 1;
    }
    if close == bar + 1 || close >= len - 1 || text[close + 1] != ']' {
        return None;
    }
    Some(LinkSpan { target_end: bar, end: close + 2 })
}

} // verus!
