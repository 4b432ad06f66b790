//! Words taken as a set: each word once, in the order of first occurrence.

use vstd::prelude::*;

verus! {

broadcast use vstd::seq_lib::group_seq_properties;

/// The words of `words` without repetitions: each stands where it first occurred.
pub open spec fn distinct(words: Seq<Seq<char>>) -> Seq<Seq<char>>
    decreases words.len(),
{
    if words.len() == 0 {
        words
    } else {
        let earlier = distinct(words.drop_last());
        if earlier.contains(words.last()) {
            earlier
        } else {
            earlier.push(words.last())
        }
    }
}

/// Removing repetitions neither adds nor loses a word.
pub proof fn lemma_distinct_keeps_words(words: Seq<Seq<char>>, word: Seq<char>)
    ensures
        distinct(words).contains(word) <==> words.contains(word),
    decreases words.len(),
{
    if words.len() > 0 {
        let earlier = words.drop_last();
        lemma_distinct_keeps_words(earlier, word);
        lemma_distinct_keeps_words(earlier, words.last());
        assert(words == earlier.push(words.last()));
        if words.contains(word) {
            let i = choose|i: int| 0 <= i < words.len() && words[i] == word;
            if i < earlier.len() {
                assert(earlier[i] == word);
            }
        }
        if earlier.contains(word) {
            let i = choose|i: int| 0 <= i < earlier.len() && earlier[i] == word;
            assert(words[i] == word);
        }
    }
}

/// What is left holds no word twice.
pub proof fn lemma_distinct_has_no_duplicates(words: Seq<Seq<char>>)
    ensures
        distinct(words).no_duplicates(),
    decreases words.len(),
{
    if words.len() > 0 {
        lemma_distinct_has_no_duplicates(words.drop_last());
    }
}

/// Whether `word` is one of `words`.
pub fn contains_word(words: &Vec<String>, word: &str) -> (found: bool)
    ensures
        found == words.deep_view().contains(word@),
{
    for i in 0..words.len()
        invariant
            forall|k: int| 0 <= k < i ==> words.deep_view()[k] != word@,
    {
        if words[i].as_str().eq(word) {
            assert(words.deep_view()[i as int] == word@);
            return true;
        }
    }
    false
}

/// The first position at which `words` holds `word`, if it holds it at all.
pub fn position_of_word(words: &Vec<String>, word: &str) -> (found: Option<usize>)
    ensures
        match found {
            Some(position) => position < words@.len() && words.deep_view()[position as int]
                == word@ && forall|k: int|
                0 <= k < position ==> words.deep_view()[k] != word@,
            None => !words.deep_view().contains(word@),
        },
{
    for i in 0..words.len()
        invariant
            forall|k: int| 0 <= k < i ==> words.deep_view()[k] != word@,
    {
        if words[i].as_str().eq(word) {
            return Some(i);
        }
    }
    None
}

/// Drops every word that occurred before.
pub fn distinct_words(words: &Vec<String>) -> (kept: Vec<String>)
    ensures
        kept.deep_view() == distinct(words.deep_view()),
        kept.deep_view().no_duplicates(),
{
    let mut kept: Vec<String> = Vec::new();
    proof {
        assert(words.deep_view().take(0) == Seq::<Seq<char>>::empty());
        assert(kept.deep_view() == Seq::<Seq<char>>::empty());
    }
    for i in 0..words.len()
        invariant
            kept.deep_view() == distinct(words.deep_view().take(i as int)),
    {
        proof {
            let seen = words.deep_view().take(i as int);
            assert(words.deep_view().take(i + 1) == seen.push(words@[i as int]@));
            assert(seen.push(words@[i as int]@).drop_last() == seen);
        }
        if !contains_word(&kept, words[i].as_str()) {
            let ghost before = kept.deep_view();
            kept.push(words[i].clone());
            assert(kept.deep_view() == before.push(words@[i as int]@));
        }
    }
    proof {
        assert(words.deep_view().take(words@.len() as int) == words.deep_view());
        lemma_distinct_has_no_duplicates(words.deep_view());
    }
    kept
}

} // verus!
