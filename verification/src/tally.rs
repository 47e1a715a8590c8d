//! The arithmetic of counting words, stated over sequences and maps.

use vstd::prelude::*;

verus! {

/// How often `word` occurs in `words`.
pub open spec fn occurrences(words: Seq<Seq<char>>, word: Seq<char>) -> nat
    decreases words.len(),
{
    if words.len() == 0 {
        0
    } else {
        occurrences(words.drop_last(), word) + if words.last() == word {
            1nat
        } else {
            0nat
        }
    }
}

/// The counts of `words`: each word that occurs, with the number of its
/// occurrences. A word that does not occur has no entry.
pub open spec fn tally(words: Seq<Seq<char>>) -> Map<Seq<char>, nat> {
    Map::new(|w: Seq<char>| words.contains(w), |w: Seq<char>| occurrences(words, w))
}

/// The distinct words of `words`, each at the place of its first
/// occurrence.
pub open spec fn first_seen(words: Seq<Seq<char>>) -> Seq<Seq<char>>
    decreases words.len(),
{
    if words.len() == 0 {
        Seq::empty()
    } else if words.drop_last().contains(words.last()) {
        first_seen(words.drop_last())
    } else {
        first_seen(words.drop_last()).push(words.last())
    }
}

/// The count that `counts` holds for `word`: 0 for a word without an entry.
pub open spec fn count_in(counts: Map<Seq<char>, nat>, word: Seq<char>) -> nat {
    if counts.contains_key(word) {
        counts[word]
    } else {
        0
    }
}

/// `counts` after one more occurrence of `word`.
pub open spec fn with_one_more(counts: Map<Seq<char>, nat>, word: Seq<char>) -> Map<
    Seq<char>,
    nat,
> {
    counts.insert(word, count_in(counts, word) + 1)
}

/// The sum of all counts of a finite map.
pub open spec fn sum_of_counts(counts: Map<Seq<char>, nat>) -> nat
    decreases counts.dom().len(),
    when counts.dom().finite()
{
    if counts.dom().len() == 0 {
        0
    } else {
        let word = counts.dom().choose();
        counts[word] + sum_of_counts(counts.remove(word))
    }
}

/// Whether `word` with `count` is the most common entry of `counts`, where
/// `order` lists the words of `counts`: no entry has a larger count, and
/// among the entries with the largest count `word` comes first in `order`.
pub open spec fn is_most_common(
    counts: Map<Seq<char>, nat>,
    order: Seq<Seq<char>>,
    word: Seq<char>,
    count: nat,
) -> bool {
    &&& counts.contains_key(word)
    &&& counts[word] == count
    &&& forall|w: Seq<char>| counts.contains_key(w) ==> counts[w] <= count
    &&& exists|p: int|
        0 <= p < order.len() && order[p] == word && forall|i: int|
            0 <= i < p ==> counts[#[trigger] order[i]] < count
}

/// The sum of the counts can be taken apart at any entry.
pub proof fn lemma_sum_remove(counts: Map<Seq<char>, nat>, word: Seq<char>)
    requires
        counts.dom().finite(),
        counts.contains_key(word),
    ensures
        sum_of_counts(counts) == counts[word] + sum_of_counts(counts.remove(word)),
    decreases counts.dom().len(),
{
    let chosen = counts.dom().choose();
    if chosen != word {
        let rest = counts.remove(chosen);
        lemma_sum_remove(rest, word);
        lemma_sum_remove(counts.remove(word), chosen);
        assert(rest.remove(word) =~= counts.remove(word).remove(chosen));
    }
}

/// No single count exceeds the sum of all of them.
pub proof fn lemma_count_at_most_sum(counts: Map<Seq<char>, nat>, word: Seq<char>)
    requires
        counts.dom().finite(),
    ensures
        count_in(counts, word) <= sum_of_counts(counts),
{
    if counts.contains_key(word) {
        lemma_sum_remove(counts, word);
    }
}

/// One more occurrence raises the sum of the counts by one.
pub proof fn lemma_sum_with_one_more(counts: Map<Seq<char>, nat>, word: Seq<char>)
    requires
        counts.dom().finite(),
    ensures
        with_one_more(counts, word).dom().finite(),
        sum_of_counts(with_one_more(counts, word)) == sum_of_counts(counts) + 1,
{
    let more = with_one_more(counts, word);
    lemma_sum_remove(more, word);
    if counts.contains_key(word) {
        lemma_sum_remove(counts, word);
        assert(more.remove(word) =~= counts.remove(word));
    } else {
        assert(more.remove(word) =~= counts);
    }
}

/// A word occurs at least once exactly when the sequence contains it.
pub proof fn lemma_occurrences_positive(words: Seq<Seq<char>>, word: Seq<char>)
    ensures
        occurrences(words, word) >= 1 <==> words.contains(word),
    decreases words.len(),
{
    if words.len() > 0 {
        let front = words.drop_last();
        lemma_occurrences_positive(front, word);
        if front.contains(word) {
            let i = choose|i: int| 0 <= i < front.len() && front[i] == word;
            assert(words[i] == word);
        }
        if words.contains(word) && words.last() != word {
            let i = choose|i: int| 0 <= i < words.len() && words[i] == word;
            assert(front[i] == word);
        }
    }
}

/// Counting one more word is one more occurrence of it in the tally.
pub proof fn lemma_tally_push(words: Seq<Seq<char>>, word: Seq<char>)
    ensures
        tally(words.push(word)) == with_one_more(tally(words), word),
{
    let longer = words.push(word);
    assert(longer.drop_last() =~= words);
    lemma_occurrences_positive(words, word);
    assert forall|w: Seq<char>| longer.contains(w) <==> (words.contains(w) || w == word) by {
        lemma_occurrences_positive(longer, w);
        lemma_occurrences_positive(words, w);
    }
    let more = with_one_more(tally(words), word);
    assert forall|w: Seq<char>| tally(longer).contains_key(w) implies tally(longer)[w]
        == more[w] by {
        assert(occurrences(longer, w) == occurrences(words, w) + if word == w {
            1nat
        } else {
            0nat
        });
    }
    assert(tally(longer).dom() =~= more.dom());
    assert(tally(longer) =~= more);
}

/// A word seen for the first time goes to the end of the order of first
/// occurrence; a word seen before leaves that order as it is.
pub proof fn lemma_first_seen_push(words: Seq<Seq<char>>, word: Seq<char>)
    ensures
        first_seen(words.push(word)) == if words.contains(word) {
            first_seen(words)
        } else {
            first_seen(words).push(word)
        },
{
    assert(words.push(word).drop_last() =~= words);
}

/// The order of first occurrence lists each word of the tally once.
pub proof fn lemma_first_seen_lists_tally(words: Seq<Seq<char>>)
    ensures
        first_seen(words).no_duplicates(),
        first_seen(words).to_set() == tally(words).dom(),
        first_seen(words).len() == tally(words).dom().len(),
        tally(words).dom().finite(),
    decreases words.len(),
{
    if words.len() == 0 {
        assert(first_seen(words).to_set() =~= tally(words).dom());
    } else {
        let front = words.drop_last();
        let word = words.last();
        lemma_first_seen_lists_tally(front);
        assert(front.push(word) =~= words);
        lemma_tally_push(front, word);
        lemma_first_seen_push(front, word);
        let order = first_seen(front);
        if front.contains(word) {
            assert(tally(words).dom() =~= tally(front).dom());
        } else {
            assert(!order.to_set().contains(word));
            assert(!order.contains(word));
            order.lemma_push_to_set_commute(word);
            assert(tally(words).dom() =~= tally(front).dom().insert(word));
        }
    }
    first_seen(words).unique_seq_to_set();
}

/// The counts of a tally add up to the number of words tallied, and none of
/// them is 0.
pub proof fn lemma_tally_sum(words: Seq<Seq<char>>)
    ensures
        tally(words).dom().finite(),
        sum_of_counts(tally(words)) == words.len(),
        forall|w: Seq<char>| tally(words).contains_key(w) ==> tally(words)[w] >= 1,
    decreases words.len(),
{
    lemma_first_seen_lists_tally(words);
    if words.len() == 0 {
        assert(tally(words).dom() =~= Set::<Seq<char>>::empty());
    } else {
        let front = words.drop_last();
        lemma_tally_sum(front);
        assert(front.push(words.last()) =~= words);
        lemma_tally_push(front, words.last());
        lemma_sum_with_one_more(tally(front), words.last());
    }
    assert forall|w: Seq<char>| tally(words).contains_key(w) implies tally(words)[w] >= 1 by {
        lemma_occurrences_positive(words, w);
    }
}

/// At most one entry is the most common one: the rule leaves no choice.
pub proof fn lemma_most_common_unique(
    counts: Map<Seq<char>, nat>,
    order: Seq<Seq<char>>,
    word_a: Seq<char>,
    count_a: nat,
    word_b: Seq<char>,
    count_b: nat,
)
    requires
        is_most_common(counts, order, word_a, count_a),
        is_most_common(counts, order, word_b, count_b),
    ensures
        word_a == word_b,
        count_a == count_b,
{
    let pa = choose|p: int|
        0 <= p < order.len() && order[p] == word_a && forall|i: int|
            0 <= i < p ==> counts[#[trigger] order[i]] < count_a;
    let pb = choose|p: int|
        0 <= p < order.len() && order[p] == word_b && forall|i: int|
            0 <= i < p ==> counts[#[trigger] order[i]] < count_b;
    if pa < pb {
        assert(counts[order[pa]] < count_b);
    } else if pb < pa {
        assert(counts[order[pb]] < count_a);
    }
}

} // verus!
