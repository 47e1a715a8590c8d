//! The table of word counts.

use vstd::prelude::*;
use vstd::hash_map::StringHashMap;
use crate::tally::{
    count_in, is_most_common, lemma_count_at_most_sum, lemma_sum_with_one_more, sum_of_counts,
    with_one_more,
};

verus! {

/// One word with the number of its occurrences.
struct Entry {
    word: String,
    count: usize,
}

/// The counts of the words seen so far.
///
/// The table keeps its entries in the order in which the words were first
/// added and finds an entry through a hash index, so that adding a word
/// takes one lookup and the most common word does not depend on how a hash
/// map happens to be walked.
pub struct WordCounts {
    index: StringHashMap<usize>,
    entries: Vec<Entry>,
    total: usize,
}

impl View for WordCounts {
    type V = Map<Seq<char>, nat>;

    /// The table as a map from each word to its count. A word that was
    /// never added has no entry.
    closed spec fn view(&self) -> Map<Seq<char>, nat> {
        Map::new(
            |w: Seq<char>| self.index@.contains_key(w),
            |w: Seq<char>| self.entries@[self.index@[w] as int].count as nat,
        )
    }
}

impl WordCounts {
    /// The words of the table in the order in which they were first added.
    pub closed spec fn order(&self) -> Seq<Seq<char>> {
        self.entries@.map_values(|e: Entry| e.word@)
    }

    /// The invariant of the table: the index and the entries describe the
    /// same words, every count is at least 1, and the running total is the
    /// sum of the counts.
    pub closed spec fn wf(&self) -> bool {
        &&& self.index@.dom().finite()
        &&& self.index@.dom().len() == self.entries@.len()
        &&& forall|i: int|
            0 <= i < self.entries@.len() ==> {
                &&& self.index@.contains_key(#[trigger] self.entries@[i].word@)
                &&& self.index@[self.entries@[i].word@] == i
                &&& self.entries@[i].count >= 1
            }
        &&& forall|w: Seq<char>|
            self.index@.contains_key(w) ==> {
                &&& 0 <= #[trigger] self.index@[w] < self.entries@.len()
                &&& self.entries@[self.index@[w] as int].word@ == w
            }
        &&& self.total == sum_of_counts(self@)
    }

    /// What the invariant means for the map and the order: the map is
    /// finite, no count is 0, and the order lists each word of the map once.
    pub proof fn lemma_wf(&self)
        requires
            self.wf(),
        ensures
            self@.dom().finite(),
            forall|w: Seq<char>| self@.contains_key(w) ==> self@[w] >= 1,
            self.order().no_duplicates(),
            self.order().len() == self@.dom().len(),
            forall|w: Seq<char>| self.order().contains(w) <==> self@.contains_key(w),
            sum_of_counts(self@) <= usize::MAX,
    {
        assert(self@.dom() =~= self.index@.dom());
        assert forall|w: Seq<char>| self.order().contains(w) <==> self@.contains_key(w) by {
            if self@.contains_key(w) {
                assert(self.order()[self.index@[w] as int] == w);
            }
        }
    }

    /// An empty table.
    pub fn new() -> (counts: Self)
        ensures
            counts.wf(),
            counts@ == Map::<Seq<char>, nat>::empty(),
            counts.order() == Seq::<Seq<char>>::empty(),
            sum_of_counts(counts@) == 0,
    {
        let counts = WordCounts { index: StringHashMap::new(), entries: Vec::new(), total: 0 };
        proof {
            assert(counts@ =~= Map::<Seq<char>, nat>::empty());
            assert(counts.order() =~= Seq::<Seq<char>>::empty());
            assert(counts@.dom() =~= Set::<Seq<char>>::empty());
        }
        counts
    }

    /// Counts one more occurrence of `word`. A word that is new to the table
    /// starts at 1 and is placed last in the order. The total, which grows
    /// by one, must still fit in a `usize`.
    pub fn add(&mut self, word: String)
        requires
            old(self).wf(),
            sum_of_counts(old(self)@) < usize::MAX,
        ensures
            final(self).wf(),
            final(self)@ == with_one_more(old(self)@, word@),
            final(self).order() == if old(self)@.contains_key(word@) {
                old(self).order()
            } else {
                old(self).order().push(word@)
            },
            sum_of_counts(final(self)@) == sum_of_counts(old(self)@) + 1,
    {
        proof {
            old(self).lemma_wf();
            lemma_count_at_most_sum(old(self)@, word@);
            lemma_sum_with_one_more(old(self)@, word@);
        }
        let found: Option<usize> = match self.index.get(word.as_str()) {
            Some(position) => Some(*position),
            None => None,
        };
        match found {
            Some(position) => {
                let count: usize = self.entries[position].count;
                self.entries.set(position, Entry { word, count: count + 1 });
                self.total = self.total + 1;
                proof {
                    assert(self.order() =~= old(self).order());
                    assert(self@ =~= with_one_more(old(self)@, word@));
                }
            },
            None => {
                let position: usize = self.entries.len();
                self.index.insert(word.clone(), position);
                self.entries.push(Entry { word, count: 1 });
                self.total = self.total + 1;
                proof {
                    assert(self.order() =~= old(self).order().push(word@));
                    assert(self@ =~= with_one_more(old(self)@, word@));
                }
            },
        }
    }

    /// The number of occurrences counted for `word`: 0 for a word that was
    /// never added.
    pub fn count(&self, word: &str) -> (count: usize)
        requires
            self.wf(),
        ensures
            count == count_in(self@, word@),
    {
        match self.index.get(word) {
            Some(position) => self.entries[*position].count,
            None => 0,
        }
    }

    /// The number of occurrences counted over all words.
    pub fn total(&self) -> (total: usize)
        requires
            self.wf(),
        ensures
            total == sum_of_counts(self@),
    {
        self.total
    }

    /// The number of distinct words.
    pub fn unique(&self) -> (unique: usize)
        requires
            self.wf(),
        ensures
            unique == self@.dom().len(),
    {
        proof {
            self.lemma_wf();
            assert(self.order().len() == self.entries@.len());
        }
        self.entries.len()
    }

    /// The word with the largest count, and that count. Of several words
    /// with the largest count the one that was added first is returned. An
    /// empty table has no most common word.
    pub fn most_common(&self) -> (best: Option<(String, usize)>)
        requires
            self.wf(),
        ensures
            best is None <==> self@.dom().len() == 0,
            best matches Some(pair) ==> is_most_common(
                self@,
                self.order(),
                pair.0@,
                pair.1 as nat,
            ),
    {
        proof {
            self.lemma_wf();
        }
        let n: usize = self.entries.len();
        if n == 0 {
            return None;
        }
        let mut best: usize = 0;
        let mut i: usize = 1;
        while i < n
            invariant
                n == self.entries@.len(),
                0 <= best < i <= n,
                forall|j: int| 0 <= j < i ==> self.entries@[j].count <= self.entries@[best as int].count,
                forall|j: int| 0 <= j < best ==> self.entries@[j].count < self.entries@[best as int].count,
            decreases n - i,
        {
            if self.entries[i].count > self.entries[best].count {
                best = i;
            }
            i += 1;
        }
        let word = self.entries[best].word.clone();
        let count: usize = self.entries[best].count;
        proof {
            let order = self.order();
            assert(order[best as int] == word@);
            assert forall|w: Seq<char>| self@.contains_key(w) implies self@[w] <= count by {
                let j = self.index@[w];
                assert(self.entries@[j as int].count <= count);
            }
            assert forall|j: int| 0 <= j < best implies self@[#[trigger] order[j]] < count by {
                assert(self.index@[self.entries@[j].word@] == j);
            }
        }
        Some((word, count))
    }
}

} // verus!
