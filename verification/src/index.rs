//! The index: for each canonical key, the relative path of the document that
//! links with that key lead to.
//!
//! An index is filled while the documents are discovered and only read while
//! links are rewritten. Where two documents share a key, the one that was
//! recorded later holds it.

use vstd::prelude::*;
use vstd::hash_map::StringHashMap;
use crate::normalize::{key_of_path, path_key};
use crate::summary::Summary;

verus! {

/// A mapping from canonical keys to relative paths.
pub struct Index {
    entries: StringHashMap<String>,
}

impl View for Index {
    type V = Map<Seq<char>, Seq<char>>;

    closed spec fn view(&self) -> Map<Seq<char>, Seq<char>> {
        self.entries@.map_values(|path: String| path@)
    }
}

/// The index that results from recording the documents at `paths`, one after
/// the other, each under the key of its path.
pub open spec fn index_of(paths: Seq<Seq<char>>) -> Map<Seq<char>, Seq<char>>
    decreases paths.len(),
{
    if paths.len() == 0 {
        Map::empty()
    } else {
        index_of(paths.drop_last()).insert(path_key(paths.last()), paths.last())
    }
}

/// Whoever was recorded last under a key holds it: a document that no later
/// document shares its key with is the one that its key leads to.
pub proof fn lemma_index_of_holds_latest(paths: Seq<Seq<char>>, i: int)
    requires
        0 <= i < paths.len(),
        forall|j: int| i < j < paths.len() ==> path_key(#[trigger] paths[j]) != path_key(paths[i]),
    ensures
        index_of(paths).contains_key(path_key(paths[i])),
        index_of(paths)[path_key(paths[i])] == paths[i],
    decreases paths.len(),
{
    if i < paths.len() - 1 {
        lemma_index_of_holds_latest(paths.drop_last(), i);
    }
}

/// The keys of an index are the keys of the documents that were recorded, and
/// every key leads to a document that has it.
pub proof fn lemma_index_of_keys(paths: Seq<Seq<char>>, key: Seq<char>)
    ensures
        index_of(paths).contains_key(key) <==> exists|i: int|
            0 <= i < paths.len() && path_key(#[trigger] paths[i]) == key,
        index_of(paths).contains_key(key) ==> path_key(index_of(paths)[key]) == key,
    decreases paths.len(),
{
    if paths.len() > 0 {
        let front = paths.drop_last();
        lemma_index_of_keys(front, key);
        if path_key(paths.last()) != key && !index_of(front).contains_key(key) {
            assert forall|i: int| 0 <= i < paths.len() implies path_key(#[trigger] paths[i])
                != key by {
                if i < front.len() {
                    assert(paths[i] == front[i]);
                }
            }
        }
    }
}

impl Index {
    /// An index without entries.
    pub fn new() -> (index: Index)
        ensures
            index@ == Map::<Seq<char>, Seq<char>>::empty(),
    {
        Index { entries: StringHashMap::new() }
    }

    /// Lets `key` lead to `path`. An entry that `key` had before is replaced.
    pub fn insert(&mut self, key: String, path: String)
        ensures
            final(self)@ == old(self)@.insert(key@, path@),
    {
        self.entries.insert(key, path);
    }

    /// The path that `key` leads to, if it leads anywhere.
    pub fn get(&self, key: &str) -> (path: Option<&String>)
        ensures
            path is Some <==> self@.contains_key(key@),
            path matches Some(path) ==> path@ == self@[key@],
    {
        self.entries.get(key)
    }

    /// Tells whether `key` leads anywhere.
    pub fn contains_key(&self, key: &str) -> (found: bool)
        ensures
            found == self@.contains_key(key@),
    {
        self.entries.contains_key(key)
    }

    /// The number of keys.
    pub fn len(&self) -> (n: usize)
        ensures
            n == self@.len(),
    {
        broadcast use vstd::hash_map::group_hash_map_axioms;

        proof {
            assert(self@.dom() =~= self.entries@.dom());
        }
        self.entries.len()
    }

    /// Records the document at `relative_path` under the key of that path.
    pub fn add_document(&mut self, relative_path: String)
        ensures
            final(self)@ == old(self)@.insert(path_key(relative_path@), relative_path@),
    {
        let key = key_of_path(relative_path.as_str());
        self.insert(key, relative_path);
    }
}

/// The index while it is being built: the index itself, and the number of
/// documents that went into it.
pub struct IndexBuilder {
    index: Index,
    documents: usize,
    paths: Ghost<Seq<Seq<char>>>,
}

impl IndexBuilder {
    /// The relative paths of the documents recorded so far, in the order in
    /// which they were recorded.
    pub closed spec fn paths(&self) -> Seq<Seq<char>> {
        self.paths@
    }

    /// The index as it stands.
    pub closed spec fn index(&self) -> Map<Seq<char>, Seq<char>> {
        self.index@
    }

    /// The number of documents recorded so far.
    pub closed spec fn spec_file_count(&self) -> usize {
        self.documents
    }

    /// Every document that was recorded has been counted, and the index is
    /// the one that recording them in their order gives.
    pub open spec fn wf(&self) -> bool {
        &&& self.spec_file_count() == self.paths().len()
        &&& self.index() == index_of(self.paths())
    }

    /// A builder that has recorded nothing.
    pub fn new() -> (builder: IndexBuilder)
        ensures
            builder.wf(),
            builder.paths() == Seq::<Seq<char>>::empty(),
    {
        IndexBuilder { index: Index::new(), documents: 0, paths: Ghost(Seq::empty()) }
    }

    /// Tells whether one more document can be counted.
    pub fn has_room(&self) -> (ok: bool)
        ensures
            ok == (self.spec_file_count() < usize::MAX),
    {
        self.documents < usize::MAX
    }

    /// Records the document at `relative_path`: it is counted, and its key
    /// leads to it from now on, whatever the key led to before.
    pub fn add_document(&mut self, relative_path: String)
        requires
            old(self).wf(),
            old(self).spec_file_count() < usize::MAX,
        ensures
            final(self).wf(),
            final(self).paths() == old(self).paths().push(relative_path@),
    {
        proof {
            assert(self.paths@.push(relative_path@).drop_last() =~= self.paths@);
        }
        self.paths = Ghost(self.paths@.push(relative_path@));
        self.index.add_document(relative_path);
        self.documents += 1;
    }

    /// The number of documents recorded so far.
    #[verifier::when_used_as_spec(spec_file_count)]
    pub fn file_count(&self) -> (n: usize)
        ensures
            n == self.spec_file_count(),
    {
        self.documents
    }

    /// Ends the building. Hands out the index, which is only read from now
    /// on, and a summary that holds the number of documents recorded and has
    /// read none of them yet.
    pub fn finish(self) -> (built: (Index, Summary))
        requires
            self.wf(),
        ensures
            built.0@ == index_of(self.paths()),
            built.1.wf(),
            built.1.recorded() == Seq::<nat>::empty(),
            built.1.spec_file_count() == self.paths().len(),
    {
        let summary = Summary::new(self.documents);
        (self.index, summary)
    }
}

} // verus!
