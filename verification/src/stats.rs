//! From a text to its statistics.

use vstd::prelude::*;
use vstd::set_lib::lemma_len_subset;
use crate::args::ParsedOptions;
use crate::counts::WordCounts;
use crate::filter::{build_filter, lemma_min_length_narrows, lemma_min_length_zero, passes_filter};
use crate::normalize::{normalize_word, normalized};
use crate::tally::{
    first_seen, is_most_common, lemma_first_seen_push, lemma_most_common_unique, lemma_tally_push,
    lemma_tally_sum, sum_of_counts, tally,
};
use crate::text::views;
use crate::tokens::{tokenize, tokens_of};

verus! {

/// What is reported of a table of word counts.
#[derive(Debug, PartialEq, Eq)]
pub struct Stats {
    /// The number of words counted, each as often as it occurred.
    pub total_words: usize,
    /// The number of distinct words counted.
    pub unique_words: usize,
    /// The most common word and its count, unless nothing was counted.
    pub most_common: Option<(String, usize)>,
}

impl Stats {
    /// Whether these are the statistics of `counts`, whose words `order`
    /// lists: the total is the sum of all counts, the number of distinct
    /// words is the number of entries, and the most common word is the
    /// most common entry, absent exactly when there is no entry.
    pub open spec fn describes(&self, counts: Map<Seq<char>, nat>, order: Seq<Seq<char>>) -> bool {
        &&& self.total_words == sum_of_counts(counts)
        &&& self.unique_words == counts.dom().len()
        &&& self.most_common is None <==> counts.dom().len() == 0
        &&& self.most_common matches Some(pair) ==> is_most_common(
            counts,
            order,
            pair.0@,
            pair.1 as nat,
        )
    }
}

/// Whether a normalized word is counted: it is not empty and the filter
/// keeps it.
pub open spec fn is_kept(min_length: Option<usize>, starts_with: Option<char>, word: Seq<char>) -> bool {
    word.len() > 0 && passes_filter(min_length, starts_with, word)
}

/// Normalization, as a function on tokens.
pub open spec fn normalizer() -> spec_fn(Seq<char>) -> Seq<char> {
    |token: Seq<char>| normalized(token)
}

/// The test that a word is counted, as a function on words.
pub open spec fn keeper(min_length: Option<usize>, starts_with: Option<char>) -> spec_fn(
    Seq<char>,
) -> bool {
    |word: Seq<char>| is_kept(min_length, starts_with, word)
}

/// The words that are counted among `tokens`: each token normalized, those
/// that are counted kept, in the order of the tokens.
pub open spec fn kept_of(
    tokens: Seq<Seq<char>>,
    min_length: Option<usize>,
    starts_with: Option<char>,
) -> Seq<Seq<char>> {
    tokens.map_values(normalizer()).filter(keeper(min_length, starts_with))
}

/// The words of `text` that are counted under the two options.
pub open spec fn kept_words(
    text: Seq<char>,
    min_length: Option<usize>,
    starts_with: Option<char>,
) -> Seq<Seq<char>> {
    kept_of(tokens_of(text), min_length, starts_with)
}

/// One more token adds its normalized form to the kept words if that form
/// is counted, and nothing otherwise.
pub proof fn lemma_kept_of_push(
    tokens: Seq<Seq<char>>,
    token: Seq<char>,
    min_length: Option<usize>,
    starts_with: Option<char>,
)
    ensures
        kept_of(tokens.push(token), min_length, starts_with) == if is_kept(
            min_length,
            starts_with,
            normalized(token),
        ) {
            kept_of(tokens, min_length, starts_with).push(normalized(token))
        } else {
            kept_of(tokens, min_length, starts_with)
        },
        kept_of(tokens, min_length, starts_with).len() <= tokens.len(),
{
    tokens.lemma_push_map_commute(normalizer(), token);
    tokens.map_values(normalizer()).lemma_filter_push(
        normalized(token),
        keeper(min_length, starts_with),
    );
    tokens.map_values(normalizer()).lemma_filter_len(keeper(min_length, starts_with));
}

/// The total of a run is the number of words that were kept: the counts of
/// their tally add up to it.
pub proof fn lemma_total_is_kept_words(
    text: Seq<char>,
    min_length: Option<usize>,
    starts_with: Option<char>,
)
    ensures
        sum_of_counts(tally(kept_words(text, min_length, starts_with))) == kept_words(
            text,
            min_length,
            starts_with,
        ).len(),
{
    lemma_tally_sum(kept_words(text, min_length, starts_with));
}

/// Two runs on the same counts report the same: the same total, the same
/// number of distinct words, and the same most common word with the same
/// count.
pub proof fn lemma_same_counts_same_stats(
    first: Stats,
    second: Stats,
    counts: Map<Seq<char>, nat>,
    order: Seq<Seq<char>>,
)
    requires
        first.describes(counts, order),
        second.describes(counts, order),
    ensures
        first.total_words == second.total_words,
        first.unique_words == second.unique_words,
        first.most_common is None <==> second.most_common is None,
        first.most_common matches Some(a) ==> second.most_common matches Some(b) && a.0@ == b.0@
            && a.1 == b.1,
{
    if let Some(a) = first.most_common {
        let b = second.most_common->Some_0;
        lemma_most_common_unique(counts, order, a.0@, a.1 as nat, b.0@, b.1 as nat);
    }
}

/// Two runs on the same text with the same options count the same: their
/// tables hold the same words with the same counts in the same order.
pub proof fn lemma_same_input_same_counts(
    first: WordCounts,
    second: WordCounts,
    text: Seq<char>,
    min_length: Option<usize>,
    starts_with: Option<char>,
)
    requires
        first.counts_text(text, min_length, starts_with),
        second.counts_text(text, min_length, starts_with),
    ensures
        first@ == second@,
        first.order() == second.order(),
{
}

/// A filter that keeps less counts less: where every word kept under the
/// first pair of options is kept under the second, the first run has no
/// more words in total and no more distinct words than the second.
pub proof fn lemma_narrower_filter_counts_less(
    tokens: Seq<Seq<char>>,
    min_a: Option<usize>,
    start_a: Option<char>,
    min_b: Option<usize>,
    start_b: Option<char>,
)
    requires
        forall|w: Seq<char>| is_kept(min_a, start_a, w) ==> is_kept(min_b, start_b, w),
    ensures
        kept_of(tokens, min_a, start_a).len() <= kept_of(tokens, min_b, start_b).len(),
        forall|w: Seq<char>|
            kept_of(tokens, min_a, start_a).contains(w) ==> kept_of(tokens, min_b, start_b).contains(
                w,
            ),
    decreases tokens.len(),
{
    if tokens.len() > 0 {
        let front = tokens.drop_last();
        let word = normalized(tokens.last());
        lemma_narrower_filter_counts_less(front, min_a, start_a, min_b, start_b);
        assert(front.push(tokens.last()) =~= tokens);
        lemma_kept_of_push(front, tokens.last(), min_a, start_a);
        lemma_kept_of_push(front, tokens.last(), min_b, start_b);
        let kept_a = kept_of(front, min_a, start_a);
        let kept_b = kept_of(front, min_b, start_b);
        assert forall|w: Seq<char>| kept_of(tokens, min_a, start_a).contains(w) implies kept_of(
            tokens,
            min_b,
            start_b,
        ).contains(w) by {
            if kept_a.contains(w) {
                let i = choose|i: int| 0 <= i < kept_b.len() && kept_b[i] == w;
                assert(kept_of(tokens, min_b, start_b)[i] == w);
            } else {
                assert(w == word);
                assert(kept_of(tokens, min_b, start_b).last() == w);
            }
        }
    } else {
        assert(kept_of(tokens, min_a, start_a).len() == 0) by {
            tokens.map_values(normalizer()).lemma_filter_len(keeper(min_a, start_a));
        }
    }
}

/// Asking for a minimum length never counts more: for the same text and
/// the same first character, the run with a minimum length has no more
/// words in total and no more distinct words than the run without.
pub proof fn lemma_min_length_counts_less(text: Seq<char>, n: usize, starts_with: Option<char>)
    ensures
        sum_of_counts(tally(kept_words(text, Some(n), starts_with))) <= sum_of_counts(
            tally(kept_words(text, None, starts_with)),
        ),
        tally(kept_words(text, Some(n), starts_with)).dom().len() <= tally(
            kept_words(text, None, starts_with),
        ).dom().len(),
{
    let with = kept_words(text, Some(n), starts_with);
    let without = kept_words(text, None, starts_with);
    assert forall|w: Seq<char>| is_kept(Some(n), starts_with, w) implies is_kept(
        None,
        starts_with,
        w,
    ) by {
        lemma_min_length_narrows(n, starts_with, w);
    }
    lemma_narrower_filter_counts_less(tokens_of(text), Some(n), starts_with, None, starts_with);
    lemma_tally_sum(with);
    lemma_tally_sum(without);
    assert(tally(with).dom().subset_of(tally(without).dom()));
    lemma_len_subset(tally(with).dom(), tally(without).dom());
}

/// Filter monotonicity, in terms of what is reported: of two runs on the
/// same text with the same first character, the one with a minimum length
/// reports no larger total and no larger number of distinct words.
pub proof fn lemma_min_length_never_raises_stats(
    with: Stats,
    without: Stats,
    text: Seq<char>,
    n: usize,
    starts_with: Option<char>,
)
    requires
        with.describes(
            tally(kept_words(text, Some(n), starts_with)),
            first_seen(kept_words(text, Some(n), starts_with)),
        ),
        without.describes(
            tally(kept_words(text, None, starts_with)),
            first_seen(kept_words(text, None, starts_with)),
        ),
    ensures
        with.total_words <= without.total_words,
        with.unique_words <= without.unique_words,
{
    lemma_min_length_counts_less(text, n, starts_with);
}

/// A minimum length of 0 changes nothing: the words kept are those kept
/// without a minimum length, the words of one character or more.
pub proof fn lemma_min_length_zero_keeps_all(text: Seq<char>, starts_with: Option<char>)
    ensures
        kept_words(text, Some(0), starts_with) == kept_words(text, None, starts_with),
{
    assert forall|w: Seq<char>| is_kept(Some(0), starts_with, w) == is_kept(
        None,
        starts_with,
        w,
    ) by {
        lemma_min_length_zero(starts_with, w);
    }
    assert(keeper(Some(0), starts_with) =~= keeper(None, starts_with));
}

impl WordCounts {
    /// Whether this table is the count of `text` under the two options: it
    /// holds the tally of the kept words, in the order of their first
    /// occurrence.
    pub open spec fn counts_text(
        &self,
        text: Seq<char>,
        min_length: Option<usize>,
        starts_with: Option<char>,
    ) -> bool {
        &&& self.wf()
        &&& self@ == tally(kept_words(text, min_length, starts_with))
        &&& self.order() == first_seen(kept_words(text, min_length, starts_with))
    }
}

/// Counts the words of `text`: cuts it into tokens, normalizes each,
/// drops the empty ones and those that the filter rejects, and counts the
/// rest.
pub fn count_words(text: &str, min_length: Option<usize>, starts_with: Option<char>) -> (counts:
    WordCounts)
    ensures
        counts.counts_text(text@, min_length, starts_with),
{
    let tokens = tokenize(text);
    let filter = build_filter(min_length, starts_with);
    let mut counts = WordCounts::new();
    let n: usize = tokens.len();
    let mut i: usize = 0;
    proof {
        let none = Seq::<Seq<char>>::empty();
        assert(views(tokens@).take(0) =~= none);
        none.map_values(normalizer()).lemma_filter_len(keeper(min_length, starts_with));
        assert(kept_of(none, min_length, starts_with) =~= none);
        assert(tally(none) =~= Map::<Seq<char>, nat>::empty());
    }
    while i < n
        invariant
            n == tokens@.len(),
            0 <= i <= n,
            views(tokens@) == tokens_of(text@),
            forall|word: &String| call_requires(filter, (word,)),
            forall|word: &String, kept: bool|
                call_ensures(filter, (word,), kept) ==> kept == passes_filter(
                    min_length,
                    starts_with,
                    word@,
                ),
            counts.wf(),
            counts@ == tally(kept_of(views(tokens@).take(i as int), min_length, starts_with)),
            counts.order() == first_seen(
                kept_of(views(tokens@).take(i as int), min_length, starts_with),
            ),
        decreases n - i,
    {
        let ghost seen = views(tokens@).take(i as int);
        let ghost kept = kept_of(seen, min_length, starts_with);
        let word = normalize_word(tokens[i].as_str());
        proof {
            assert(views(tokens@).take(i + 1) =~= seen.push(tokens@[i as int]@));
            lemma_kept_of_push(seen, tokens@[i as int]@, min_length, starts_with);
            lemma_tally_sum(kept);
            lemma_tally_push(kept, word@);
            lemma_first_seen_push(kept, word@);
        }
        if !word.as_str().is_empty() && filter(&word) {
            counts.add(word);
        }
        i += 1;
    }
    proof {
        assert(views(tokens@).take(n as int) =~= views(tokens@));
    }
    counts
}

/// The statistics of a table of word counts.
pub fn summarize(counts: &WordCounts) -> (stats: Stats)
    requires
        counts.wf(),
    ensures
        stats.describes(counts@, counts.order()),
{
    Stats {
        total_words: counts.total(),
        unique_words: counts.unique(),
        most_common: counts.most_common(),
    }
}

/// The statistics of `text` under `options`: those of the tally of its
/// kept words. The total is the number of kept words.
pub fn analyze(text: &str, options: &ParsedOptions) -> (stats: Stats)
    ensures
        stats.describes(
            tally(kept_words(text@, options.min_length, options.starts_with)),
            first_seen(kept_words(text@, options.min_length, options.starts_with)),
        ),
        stats.total_words == kept_words(text@, options.min_length, options.starts_with).len(),
{
    let counts = count_words(text, options.min_length, options.starts_with);
    proof {
        lemma_total_is_kept_words(text@, options.min_length, options.starts_with);
    }
    summarize(&counts)
}

} // verus!
