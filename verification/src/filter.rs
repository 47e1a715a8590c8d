//! Which words are kept.

use vstd::prelude::*;
use vstd::utf8::encode_utf8;
use crate::trusted::{lowercase_chars, unicode_lowercase};

verus! {

/// Length of `word` in bytes, as UTF-8 encodes it. This is the length that
/// a minimum length is compared with.
pub open spec fn byte_len(word: Seq<char>) -> nat {
    encode_utf8(word).len()
}

/// The first of `chars`, or `fallback` where there is none.
pub open spec fn first_or(chars: Seq<char>, fallback: char) -> char {
    if chars.len() > 0 {
        chars[0]
    } else {
        fallback
    }
}

/// Whether `word` passes the two tests with the values as given: it takes
/// more than `min_length` bytes, and its first character is `first`. The
/// length bound is strict: a word as long as `min_length` fails. Both tests
/// must pass; an absent one always does.
pub open spec fn passes(min_length: Option<usize>, first: Option<char>, word: Seq<char>) -> bool {
    &&& min_length matches Some(n) ==> byte_len(word) > n
    &&& first matches Some(c) ==> word.len() > 0 && word[0] == c
}

/// The character that a word must start with when `c` was asked for: the
/// first character of the lowercase mapping of `c`, or `c` itself should
/// the mapping be empty.
pub open spec fn first_lowercase(c: char) -> char {
    first_or(unicode_lowercase(c), c)
}

/// The first character that is asked of a word, if any.
pub open spec fn wanted_first(starts_with: Option<char>) -> Option<char> {
    match starts_with {
        Some(c) => Some(first_lowercase(c)),
        None => None,
    }
}

/// Whether a filter built from `min_length` and `starts_with` keeps `word`:
/// the word takes more than `min_length` bytes and starts with the
/// lowercase form of `starts_with`.
pub open spec fn passes_filter(
    min_length: Option<usize>,
    starts_with: Option<char>,
    word: Seq<char>,
) -> bool {
    passes(min_length, wanted_first(starts_with), word)
}

/// A word takes at least as many bytes as it has characters.
pub proof fn lemma_byte_len_covers_chars(word: Seq<char>)
    ensures
        byte_len(word) >= word.len(),
    decreases word.len(),
{
    if word.len() > 0 {
        lemma_byte_len_covers_chars(word.drop_first());
    }
}

/// A minimum length of 0 drops nothing but the empty word: every word of
/// one character or more is judged as if no minimum had been given.
pub proof fn lemma_min_length_zero(starts_with: Option<char>, word: Seq<char>)
    ensures
        word.len() >= 1 ==> passes_filter(Some(0), starts_with, word) == passes_filter(
            None,
            starts_with,
            word,
        ),
        word.len() == 0 ==> !passes_filter(Some(0), starts_with, word),
        passes_filter(Some(0), None, word) <==> word.len() >= 1,
{
    lemma_byte_len_covers_chars(word);
}

/// A minimum length only ever drops words: whatever passes with it passes
/// without it.
pub proof fn lemma_min_length_narrows(n: usize, starts_with: Option<char>, word: Seq<char>)
    ensures
        passes_filter(Some(n), starts_with, word) ==> passes_filter(None, starts_with, word),
{
}

/// The first of `chars`, or `fallback` where there is none.
pub fn first_char_or(chars: &[char], fallback: char) -> (c: char)
    ensures
        c == first_or(chars@, fallback),
{
    if chars.len() > 0 {
        chars[0]
    } else {
        fallback
    }
}

/// Tests one word: whether it takes more than `min_length` bytes, if a
/// minimum is given, and starts with `first`, if a first character is
/// given.
pub fn word_passes(word: &str, min_length: Option<usize>, first: Option<char>) -> (kept: bool)
    ensures
        kept == passes(min_length, first, word@),
{
    let long_enough = match min_length {
        Some(n) => word.as_bytes().len() > n,
        None => true,
    };
    let starts_right = match first {
        Some(c) => {
            let mut chars = word.chars();
            match chars.next() {
                Some(found) => found == c,
                None => false,
            }
        },
        None => true,
    };
    long_enough && starts_right
}

/// Builds the predicate that decides which normalized words are counted.
/// It may be called on any word, any number of times, and its answer
/// depends on the word and the two options alone.
pub fn build_filter(min_length: Option<usize>, starts_with: Option<char>) -> (filter: impl Fn(
    &String,
) -> bool)
    ensures
        forall|word: &String| call_requires(filter, (word,)),
        forall|word: &String, kept: bool|
            call_ensures(filter, (word,), kept) ==> kept == passes_filter(
                min_length,
                starts_with,
                word@,
            ),
{
    let first: Option<char> = match starts_with {
        Some(c) => {
            let lower = lowercase_chars(c);
            Some(first_char_or(lower.as_slice(), c))
        },
        None => None,
    };
    move |word: &String| -> (kept: bool)
        ensures
            kept == passes_filter(min_length, starts_with, word@),
        { word_passes(word.as_str(), min_length, first) }
}

} // verus!
