//! The counters that a run reports.

use vstd::prelude::*;

verus! {

/// The number of counts in `links` that are not zero: of the documents whose
/// link counts are `links`, the number that hold a link.
pub open spec fn documents_with_links(links: Seq<nat>) -> nat
    decreases links.len(),
{
    if links.len() == 0 {
        0
    } else {
        documents_with_links(links.drop_last()) + if links.last() > 0 {
            1nat
        } else {
            0nat
        }
    }
}

/// The sum of the counts in `links`.
pub open spec fn total_links(links: Seq<nat>) -> nat
    decreases links.len(),
{
    if links.len() == 0 {
        0
    } else {
        total_links(links.drop_last()) + links.last()
    }
}

/// There are no more documents with links than links.
pub proof fn lemma_documents_with_links_bound(links: Seq<nat>)
    ensures
        documents_with_links(links) <= total_links(links),
        documents_with_links(links) <= links.len(),
    decreases links.len(),
{
    if links.len() > 0 {
        lemma_documents_with_links_bound(links.drop_last());
    }
}

/// The counters of a run: how many documents were found, how many of the
/// documents read so far were changed, and how many links were changed in
/// them.
pub struct Summary {
    file_count: usize,
    files_changed: usize,
    links_changed: usize,
    recorded: Ghost<Seq<nat>>,
}

impl Summary {
    /// The link counts of the documents recorded so far, in the order in
    /// which they were recorded.
    pub closed spec fn recorded(&self) -> Seq<nat> {
        self.recorded@
    }

    /// The number of documents that were found.
    pub closed spec fn spec_file_count(&self) -> usize {
        self.file_count
    }

    /// The number of documents that were changed.
    pub closed spec fn spec_files_changed(&self) -> usize {
        self.files_changed
    }

    /// The number of links that were changed.
    pub closed spec fn spec_links_changed(&self) -> usize {
        self.links_changed
    }

    /// The counters agree with what was recorded: a document counts as changed
    /// if it held a link, and every link that a document held counts as
    /// changed.
    pub open spec fn wf(&self) -> bool {
        &&& self.spec_files_changed() == documents_with_links(self.recorded())
        &&& self.spec_links_changed() == total_links(self.recorded())
    }

    /// The summary of a run that found `file_count` documents and has read
    /// none of them yet.
    pub fn new(file_count: usize) -> (summary: Summary)
        ensures
            summary.wf(),
            summary.recorded() == Seq::<nat>::empty(),
            summary.spec_file_count() == file_count,
    {
        Summary { file_count, files_changed: 0, links_changed: 0, recorded: Ghost(Seq::empty()) }
    }

    /// Tells whether a document with `links` links can be recorded without
    /// the link counter leaving the range of `usize`.
    pub fn can_record(&self, links: usize) -> (ok: bool)
        ensures
            ok == (self.spec_links_changed() + links <= usize::MAX),
    {
        links <= usize::MAX - self.links_changed
    }

    /// Records a document that held `links` links.
    pub fn record(&mut self, links: usize)
        requires
            old(self).wf(),
            old(self).spec_links_changed() + links <= usize::MAX,
        ensures
            final(self).wf(),
            final(self).recorded() == old(self).recorded().push(links as nat),
            final(self).spec_file_count() == old(self).spec_file_count(),
    {
        proof {
            lemma_documents_with_links_bound(self.recorded@);
            assert(self.recorded@.push(links as nat).drop_last() =~= self.recorded@);
        }
        if links > 0 {
            self.files_changed += 1;
            self.links_changed += links;
        }
        self.recorded = Ghost(self.recorded@.push(links as nat));
    }

    /// The number of documents that were found.
    #[verifier::when_used_as_spec(spec_file_count)]
    pub fn file_count(&self) -> (n: usize)
        ensures
            n == self.spec_file_count(),
    {
        self.file_count
    }

    /// The number of documents that were changed.
    #[verifier::when_used_as_spec(spec_files_changed)]
    pub fn files_changed(&self) -> (n: usize)
        ensures
            n == self.spec_files_changed(),
    {
        self.files_changed
    }

    /// The number of links that were changed.
    #[verifier::when_used_as_spec(spec_links_changed)]
    pub fn links_changed(&self) -> (n: usize)
        ensures
            n == self.spec_links_changed(),
    {
        self.links_changed
    }
}

} // verus!
