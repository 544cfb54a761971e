//! A table of records keyed by the word they describe.
//!
//! Entries are kept in insertion order; when a word is inserted twice the
//! later entry wins, as with a map insert.
use vstd::prelude::*;

verus! {

/// The map that a sequence of `(word, record)` insertions produces: later
/// insertions of the same word replace earlier ones.
pub open spec fn entries_view<R>(entries: Seq<(String, R)>) -> Map<Seq<char>, R>
    decreases entries.len(),
{
    if entries.len() == 0 {
        Map::empty()
    } else {
        let last = entries.last();
        entries_view(entries.drop_last()).insert(last.0@, last.1)
    }
}

/// Records keyed by word.
pub struct WordTable<R> {
    entries: Vec<(String, R)>,
}

impl<R> View for WordTable<R> {
    type V = Map<Seq<char>, R>;

    closed spec fn view(&self) -> Map<Seq<char>, R> {
        entries_view(self.entries@)
    }
}

/// The domain of the map that the insertions produce is finite.
pub proof fn lemma_entries_view_finite<R>(entries: Seq<(String, R)>)
    ensures
        entries_view(entries).dom().finite(),
    decreases entries.len(),
{
    if entries.len() > 0 {
        lemma_entries_view_finite(entries.drop_last());
    }
}

/// A word is in the map exactly when some entry carries it, and the value is
/// that of the last such entry.
proof fn lemma_entries_view_last<R>(entries: Seq<(String, R)>, w: Seq<char>, i: int)
    requires
        0 <= i < entries.len(),
        entries[i].0@ == w,
        forall|j: int| i < j < entries.len() ==> entries[j].0@ != w,
    ensures
        entries_view(entries).contains_key(w),
        entries_view(entries)[w] == entries[i].1,
    decreases entries.len(),
{
    if i < entries.len() - 1 {
        lemma_entries_view_last(entries.drop_last(), w, i);
    }
}

proof fn lemma_entries_view_absent<R>(entries: Seq<(String, R)>, w: Seq<char>)
    requires
        forall|j: int| 0 <= j < entries.len() ==> entries[j].0@ != w,
    ensures
        !entries_view(entries).contains_key(w),
    decreases entries.len(),
{
    if entries.len() > 0 {
        lemma_entries_view_absent(entries.drop_last(), w);
    }
}

impl<R> WordTable<R> {
    /// An empty table.
    pub fn new() -> (t: Self)
        ensures
            t@ == Map::<Seq<char>, R>::empty(),
    {
        WordTable { entries: Vec::new() }
    }

    /// Files `rec` under `word`, replacing any record filed there before.
    pub fn insert(&mut self, word: String, rec: R)
        ensures
            final(self)@ == old(self)@.insert(word@, rec),
    {
        self.entries.push((word, rec));
        proof {
            assert(self.entries@.drop_last() =~= old(self).entries@);
        }
    }

    /// The record filed under `word`, if any.
    pub fn get(&self, word: &str) -> (r: Option<&R>)
        ensures
            match r {
                Some(v) => self@.contains_key(word@) && *v == self@[word@],
                None => !self@.contains_key(word@),
            },
    {
        let key = String::from_str(word);
        let mut i = self.entries.len();
        while i > 0
            invariant
                i <= self.entries.len(),
                key@ == word@,
                forall|j: int| i <= j < self.entries.len() ==> self.entries@[j].0@ != word@,
            decreases i,
        {
            i = i - 1;
            if self.entries[i].0 == key {
                proof {
                    lemma_entries_view_last(self.entries@, word@, i as int);
                }
                return Some(&self.entries[i].1);
            }
        }
        proof {
            lemma_entries_view_absent(self.entries@, word@);
        }
        None
    }
}

} // verus!
