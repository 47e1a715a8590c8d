//! From a raw token to the word that is counted.

use vstd::prelude::*;
use crate::text::{append_chars, chars_of};
use crate::trusted::{lowercase_chars, unicode_alphanumeric, unicode_lowercase};

verus! {

/// Index of the first `true` of `keep` at or after `from`, or `keep.len()`
/// when there is none.
pub open spec fn first_kept(keep: Seq<bool>, from: int) -> int
    decreases keep.len() - from,
{
    if from >= keep.len() {
        keep.len() as int
    } else if keep[from] {
        from
    } else {
        first_kept(keep, from + 1)
    }
}

/// One past the index of the last `true` of `keep` before `to`, or 0 when
/// there is none.
pub open spec fn last_kept_end(keep: Seq<bool>, to: int) -> int
    decreases to,
{
    if to <= 0 {
        0
    } else if keep[to - 1] {
        to
    } else {
        last_kept_end(keep, to - 1)
    }
}

/// The range that trimming keeps, where `keep` says of each position
/// whether its character may stand at an end: from the first `true` up to
/// and including the last one. Without any `true` the range is empty, and
/// given as `(0, 0)`.
pub open spec fn kept_range(keep: Seq<bool>) -> (int, int) {
    let start = first_kept(keep, 0);
    let end = last_kept_end(keep, keep.len() as int);
    if start < end {
        (start, end)
    } else {
        (0, 0)
    }
}

/// Of each character of `word`, whether it is alphanumeric.
pub open spec fn alphanumeric_flags(word: Seq<char>) -> Seq<bool> {
    word.map_values(|c: char| unicode_alphanumeric(c))
}

/// `word` without its leading and trailing characters that are not
/// alphanumeric. Characters between two alphanumeric ones stay.
pub open spec fn trimmed(word: Seq<char>) -> Seq<char> {
    let range = kept_range(alphanumeric_flags(word));
    word.subrange(range.0, range.1)
}

/// Every character of `word` replaced by its lowercase mapping.
pub open spec fn lowercased(word: Seq<char>) -> Seq<char> {
    word.map_values(|c: char| unicode_lowercase(c)).flatten()
}

/// The canonical form of a token: trimmed, then lowercased.
pub open spec fn normalized(token: Seq<char>) -> Seq<char> {
    lowercased(trimmed(token))
}

/// A character that lowercasing leaves alone: its lowercase mapping is the
/// character itself.
pub open spec fn settled(c: char) -> bool {
    unicode_lowercase(c) == seq![c]
}

/// Whether every character of `word` is settled.
pub open spec fn all_settled(word: Seq<char>) -> bool {
    forall|i: int| 0 <= i < word.len() ==> settled(#[trigger] word[i])
}

/// A word that is already normalized: it starts and ends with an
/// alphanumeric character and each of its characters is settled. The empty
/// word is in normal form.
pub open spec fn is_normal_form(word: Seq<char>) -> bool {
    &&& word.len() > 0 ==> unicode_alphanumeric(word.first()) && unicode_alphanumeric(word.last())
    &&& all_settled(word)
}

/// Whether lowercasing the characters of `word` once is enough: every
/// character of every lowercase mapping is settled.
pub open spec fn lowercase_settles(word: Seq<char>) -> bool {
    forall|i: int| 0 <= i < word.len() ==> all_settled(unicode_lowercase(#[trigger] word[i]))
}

/// Whether lowercasing keeps the ends of `word` alphanumeric: the mapping
/// of its first character starts with an alphanumeric character and the
/// mapping of its last character ends with one.
pub open spec fn lowercase_keeps_ends(word: Seq<char>) -> bool {
    word.len() > 0 ==> {
        &&& unicode_lowercase(word.first()).len() > 0
        &&& unicode_lowercase(word.last()).len() > 0
        &&& unicode_alphanumeric(unicode_lowercase(word.first()).first())
        &&& unicode_alphanumeric(unicode_lowercase(word.last()).last())
    }
}

/// What `first_kept` finds: no `true` lies before it, and it is one itself
/// unless the flags ran out.
pub proof fn lemma_first_kept(keep: Seq<bool>, from: int)
    requires
        0 <= from <= keep.len(),
    ensures
        from <= first_kept(keep, from) <= keep.len(),
        forall|j: int| from <= j < first_kept(keep, from) ==> !keep[j],
        first_kept(keep, from) < keep.len() ==> keep[first_kept(keep, from)],
    decreases keep.len() - from,
{
    if from < keep.len() && !keep[from] {
        lemma_first_kept(keep, from + 1);
    }
}

/// What `last_kept_end` finds: no `true` lies at or after it, and the flag
/// just before it is one unless the flags ran out.
pub proof fn lemma_last_kept_end(keep: Seq<bool>, to: int)
    requires
        0 <= to <= keep.len(),
    ensures
        0 <= last_kept_end(keep, to) <= to,
        forall|j: int| last_kept_end(keep, to) <= j < to ==> !keep[j],
        last_kept_end(keep, to) > 0 ==> keep[last_kept_end(keep, to) - 1],
    decreases to,
{
    if to > 0 && !keep[to - 1] {
        lemma_last_kept_end(keep, to - 1);
    }
}

/// The kept range lies within the flags, holds every `true`, and starts and
/// ends with one unless it is empty.
pub proof fn lemma_kept_range(keep: Seq<bool>)
    ensures
        0 <= kept_range(keep).0 <= kept_range(keep).1 <= keep.len(),
        forall|j: int| 0 <= j < kept_range(keep).0 ==> !keep[j],
        forall|j: int| kept_range(keep).1 <= j < keep.len() ==> !keep[j],
        kept_range(keep).0 < kept_range(keep).1 ==> keep[kept_range(keep).0] && keep[kept_range(
            keep,
        ).1 - 1],
{
    lemma_first_kept(keep, 0);
    lemma_last_kept_end(keep, keep.len() as int);
}

/// Trimming cuts `word` into three parts: a prefix and a suffix without any
/// alphanumeric character, and between them the result, which is empty or
/// starts and ends with an alphanumeric character.
pub proof fn lemma_trimmed_parts(word: Seq<char>) -> (cut: (int, int))
    ensures
        0 <= cut.0 <= cut.1 <= word.len(),
        trimmed(word) == word.subrange(cut.0, cut.1),
        forall|j: int| 0 <= j < cut.0 ==> !unicode_alphanumeric(word[j]),
        forall|j: int| cut.1 <= j < word.len() ==> !unicode_alphanumeric(word[j]),
        trimmed(word).len() > 0 ==> unicode_alphanumeric(trimmed(word).first())
            && unicode_alphanumeric(trimmed(word).last()),
{
    let keep = alphanumeric_flags(word);
    lemma_kept_range(keep);
    let cut = kept_range(keep);
    assert forall|j: int| 0 <= j < cut.0 implies !unicode_alphanumeric(word[j]) by {
        assert(!keep[j]);
    }
    assert forall|j: int| cut.1 <= j < word.len() implies !unicode_alphanumeric(word[j]) by {
        assert(!keep[j]);
    }
    cut
}

/// Lowercasing works character by character: a word with one more
/// character lowercases to what it did before, followed by the mapping of
/// that character.
pub proof fn lemma_lowercased_push(word: Seq<char>, c: char)
    ensures
        lowercased(word.push(c)) == lowercased(word) + unicode_lowercase(c),
{
    let f = |c: char| unicode_lowercase(c);
    word.lemma_push_map_commute(f, c);
    word.map_values(f).lemma_flatten_push(f(c));
}

/// A word whose characters are all settled is its own lowercased form.
pub proof fn lemma_lowercased_fixed(word: Seq<char>)
    requires
        all_settled(word),
    ensures
        lowercased(word) == word,
    decreases word.len(),
{
    if word.len() == 0 {
        assert(word.map_values(|c: char| unicode_lowercase(c)) =~= Seq::<Seq<char>>::empty());
        assert(lowercased(word) =~= word);
    } else {
        let front = word.drop_last();
        assert(forall|i: int| 0 <= i < front.len() ==> front[i] == word[i]);
        lemma_lowercased_fixed(front);
        lemma_lowercased_push(front, word.last());
        assert(settled(word[word.len() - 1]));
        assert(front.push(word.last()) =~= word);
        assert(lowercased(word) =~= word);
    }
}

/// Where lowercasing once is enough, every character of the lowercased
/// word is settled.
pub proof fn lemma_lowercased_is_settled(word: Seq<char>)
    requires
        lowercase_settles(word),
    ensures
        all_settled(lowercased(word)),
    decreases word.len(),
{
    if word.len() == 0 {
        assert(word.map_values(|c: char| unicode_lowercase(c)) =~= Seq::<Seq<char>>::empty());
    } else {
        let front = word.drop_last();
        assert(forall|i: int| 0 <= i < front.len() ==> front[i] == word[i]);
        lemma_lowercased_is_settled(front);
        lemma_lowercased_push(front, word.last());
        assert(front.push(word.last()) =~= word);
        assert(all_settled(unicode_lowercase(word[word.len() - 1])));
    }
}

/// The lowercased word starts with the mapping of the first character and
/// ends with the mapping of the last one.
pub proof fn lemma_lowercased_ends(word: Seq<char>)
    requires
        word.len() > 0,
        unicode_lowercase(word.first()).len() > 0,
        unicode_lowercase(word.last()).len() > 0,
    ensures
        lowercased(word).len() > 0,
        lowercased(word).first() == unicode_lowercase(word.first()).first(),
        lowercased(word).last() == unicode_lowercase(word.last()).last(),
{
    let front = word.drop_last();
    lemma_lowercased_push(front, word.last());
    assert(front.push(word.last()) =~= word);
    let mapped = word.map_values(|c: char| unicode_lowercase(c));
    assert(mapped.first() == unicode_lowercase(word.first()));
}

/// A word in normal form is a fixed point of normalization: normalizing an
/// already normalized word returns the same word.
pub proof fn lemma_normal_form_is_fixed(word: Seq<char>)
    requires
        is_normal_form(word),
    ensures
        normalized(word) == word,
{
    let keep = alphanumeric_flags(word);
    if word.len() > 0 {
        assert(keep[0]);
        assert(keep[keep.len() - 1]);
    }
    assert(trimmed(word) =~= word);
    lemma_lowercased_fixed(word);
}

/// Normalization yields a word in normal form wherever lowercasing the
/// trimmed token once is enough and keeps its ends alphanumeric.
pub proof fn lemma_normalized_is_normal_form(token: Seq<char>)
    requires
        lowercase_settles(trimmed(token)),
        lowercase_keeps_ends(trimmed(token)),
    ensures
        is_normal_form(normalized(token)),
{
    let word = trimmed(token);
    lemma_lowercased_is_settled(word);
    if word.len() > 0 {
        lemma_lowercased_ends(word);
    } else {
        assert(word.map_values(|c: char| unicode_lowercase(c)) =~= Seq::<Seq<char>>::empty());
    }
}

/// Normalization is idempotent: normalizing the normalized form of a token
/// returns that form unchanged. This holds of every token for which
/// lowercasing the trimmed token once is enough and keeps its ends
/// alphanumeric. A token that ends in a letter whose lowercase mapping ends
/// in a combining mark is not among them: the first pass leaves the mark at
/// the end and the second strips it.
pub proof fn lemma_normalize_idempotent(token: Seq<char>)
    requires
        lowercase_settles(trimmed(token)),
        lowercase_keeps_ends(trimmed(token)),
    ensures
        normalized(normalized(token)) == normalized(token),
{
    lemma_normalized_is_normal_form(token);
    lemma_normal_form_is_fixed(normalized(token));
}

/// Finds the range that trimming keeps, given of each position whether its
/// character may stand at an end: `bounds.0` is the first such position and
/// `bounds.1` one past the last. Both are 0 when there is none.
pub fn trim_bounds(keep: &[bool]) -> (bounds: (usize, usize))
    ensures
        (bounds.0 as int, bounds.1 as int) == kept_range(keep@),
{
    let n: usize = keep.len();
    let mut start: usize = 0;
    while start < n && !keep[start]
        invariant
            n == keep@.len(),
            start <= n,
            first_kept(keep@, 0) == first_kept(keep@, start as int),
        decreases n - start,
    {
        start += 1;
    }
    if start == n {
        proof {
            lemma_last_kept_end(keep@, n as int);
        }
        return (0, 0);
    }
    let mut end: usize = n;
    while !keep[end - 1]
        invariant
            n == keep@.len(),
            start < end <= n,
            keep@[start as int],
            last_kept_end(keep@, n as int) == last_kept_end(keep@, end as int),
        decreases end,
    {
        end -= 1;
    }
    (start, end)
}

/// Normalizes a raw token: strips the leading and trailing characters that
/// are not alphanumeric and lowercases what is left, character by
/// character. Punctuation inside the word stays. The result may be empty.
pub fn normalize_word(word: &str) -> (result: String)
    ensures
        result@ == normalized(word@),
{
    let chars = chars_of(word);
    let n: usize = chars.len();
    let mut keep: Vec<bool> = Vec::new();
    let mut i: usize = 0;
    while i < n
        invariant
            n == chars@.len(),
            i <= n,
            keep@ == alphanumeric_flags(chars@).take(i as int),
        decreases n - i,
    {
        keep.push(chars[i].is_alphanumeric());
        i += 1;
        proof {
            assert(alphanumeric_flags(chars@).take(i as int) =~= alphanumeric_flags(chars@).take(
                i - 1,
            ).push(unicode_alphanumeric(chars@[i - 1])));
        }
    }
    proof {
        assert(alphanumeric_flags(chars@).take(n as int) =~= alphanumeric_flags(chars@));
        lemma_kept_range(keep@);
    }
    let (start, end) = trim_bounds(keep.as_slice());
    let mut result = String::new();
    let mut i: usize = start;
    proof {
        assert(chars@.subrange(start as int, start as int) =~= Seq::<char>::empty());
        assert(Seq::<char>::empty().map_values(|c: char| unicode_lowercase(c))
            =~= Seq::<Seq<char>>::empty());
    }
    while i < end
        invariant
            start <= i <= end <= chars@.len(),
            result@ == lowercased(chars@.subrange(start as int, i as int)),
        decreases end - i,
    {
        let lower = lowercase_chars(chars[i]);
        append_chars(&mut result, lower.as_slice());
        proof {
            lemma_lowercased_push(chars@.subrange(start as int, i as int), chars@[i as int]);
            assert(chars@.subrange(start as int, i + 1) =~= chars@.subrange(
                start as int,
                i as int,
            ).push(chars@[i as int]));
        }
        i += 1;
    }
    result
}

} // verus!
