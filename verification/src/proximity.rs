//! Proximity evaluator: does a city's name stand close to a keyword in a sentence?

use vstd::prelude::*;
use crate::word_set::contains_word;

verus! {

/// How many positions lie between two positions.
pub open spec fn distance(i: int, j: int) -> int {
    if i <= j {
        j - i
    } else {
        i - j
    }
}

/// Whether the city's name stands at some position of `words` and a keyword at
/// another (or the same), at most `reach` positions apart.
pub open spec fn within_reach(
    words: Seq<Seq<char>>,
    city_name: Seq<char>,
    keywords: Seq<Seq<char>>,
    reach: int,
) -> bool {
    exists|i: int, j: int|
        0 <= i < words.len() && 0 <= j < words.len() && #[trigger] words[i] == city_name
            && keywords.contains(#[trigger] words[j]) && distance(i, j) <= reach
}

/// The positions, in rising order, at which `words` holds the city's name.
pub fn city_positions(words: &Vec<String>, city_name: &str) -> (positions: Vec<usize>)
    ensures
        forall|k: int| 0 <= k < positions@.len() ==> (#[trigger] positions@[k]) < words@.len(),
        forall|k: int|
            0 <= k < positions@.len() ==> words.deep_view()[(#[trigger] positions@[k]) as int]
                == city_name@,
        forall|i: int|
            0 <= i < words@.len() && #[trigger] words.deep_view()[i] == city_name@
                ==> exists|k: int| 0 <= k < positions@.len() && #[trigger] positions@[k] == i,
        forall|k: int, m: int| 0 <= k < m < positions@.len() ==> positions@[k] < positions@[m],
{
    let mut positions: Vec<usize> = Vec::new();
    for i in 0..words.len()
        invariant
            forall|k: int| 0 <= k < positions@.len() ==> (#[trigger] positions@[k]) < i,
            forall|k: int|
                0 <= k < positions@.len() ==> words.deep_view()[(#[trigger] positions@[k]) as int]
                    == city_name@,
            forall|m: int|
                0 <= m < i && #[trigger] words.deep_view()[m] == city_name@
                    ==> exists|k: int| 0 <= k < positions@.len() && #[trigger] positions@[k] == m,
            forall|k: int, m: int|
                0 <= k < m < positions@.len() ==> positions@[k] < positions@[m],
    {
        if words[i].as_str().eq(city_name) {
            let ghost before = positions@;
            positions.push(i);
            proof {
                assert(positions@[before.len() as int] == i);
                assert forall|m: int|
                    0 <= m < i + 1 && #[trigger] words.deep_view()[m]
                        == city_name@ implies exists|k: int|
                    0 <= k < positions@.len() && #[trigger] positions@[k] == m by {
                    if m == i {
                        assert(positions@[before.len() as int] == m);
                    } else {
                        let k = choose|k: int| 0 <= k < before.len() && #[trigger] before[k] == m;
                        assert(positions@[k] == m);
                    }
                }
            }
        }
    }
    positions
}

/// The positions, in rising order, at which `words` holds a keyword.
pub fn keyword_positions(words: &Vec<String>, keywords: &Vec<String>) -> (positions: Vec<usize>)
    ensures
        forall|k: int| 0 <= k < positions@.len() ==> (#[trigger] positions@[k]) < words@.len(),
        forall|k: int|
            0 <= k < positions@.len() ==> keywords.deep_view().contains(
                words.deep_view()[(#[trigger] positions@[k]) as int],
            ),
        forall|i: int|
            0 <= i < words@.len() && keywords.deep_view().contains(#[trigger] words.deep_view()[i])
                ==> exists|k: int| 0 <= k < positions@.len() && #[trigger] positions@[k] == i,
        forall|k: int, m: int| 0 <= k < m < positions@.len() ==> positions@[k] < positions@[m],
{
    let mut positions: Vec<usize> = Vec::new();
    for i in 0..words.len()
        invariant
            forall|k: int| 0 <= k < positions@.len() ==> (#[trigger] positions@[k]) < i,
            forall|k: int|
                0 <= k < positions@.len() ==> keywords.deep_view().contains(
                    words.deep_view()[(#[trigger] positions@[k]) as int],
                ),
            forall|m: int|
                0 <= m < i && keywords.deep_view().contains(#[trigger] words.deep_view()[m])
                    ==> exists|k: int| 0 <= k < positions@.len() && #[trigger] positions@[k] == m,
            forall|k: int, m: int|
                0 <= k < m < positions@.len() ==> positions@[k] < positions@[m],
    {
        if contains_word(keywords, words[i].as_str()) {
            let ghost before = positions@;
            positions.push(i);
            proof {
                assert(positions@[before.len() as int] == i);
                assert forall|m: int|
                    0 <= m < i + 1 && keywords.deep_view().contains(
                        #[trigger] words.deep_view()[m],
                    ) implies exists|k: int|
                    0 <= k < positions@.len() && #[trigger] positions@[k] == m by {
                    if m == i {
                        assert(positions@[before.len() as int] == m);
                    } else {
                        let k = choose|k: int| 0 <= k < before.len() && #[trigger] before[k] == m;
                        assert(positions@[k] == m);
                    }
                }
            }
        }
    }
    positions
}

/// Whether some position of the first list lies within `reach` of some
/// position of the second.
pub fn any_pair_within(first: &Vec<usize>, second: &Vec<usize>, reach: usize) -> (near: bool)
    ensures
        near == exists|a: int, b: int|
            0 <= a < first@.len() && 0 <= b < second@.len() && distance(
                (#[trigger] first@[a]) as int,
                (#[trigger] second@[b]) as int,
            ) <= reach,
{
    for a in 0..first.len()
        invariant
            forall|x: int, y: int|
                0 <= x < a && 0 <= y < second@.len() ==> distance(
                    (#[trigger] first@[x]) as int,
                    (#[trigger] second@[y]) as int,
                ) > reach,
    {
        for b in 0..second.len()
            invariant
                a < first@.len(),
                forall|x: int, y: int|
                    0 <= x < a && 0 <= y < second@.len() ==> distance(
                        (#[trigger] first@[x]) as int,
                        (#[trigger] second@[y]) as int,
                    ) > reach,
                forall|y: int|
                    0 <= y < b ==> distance(first@[a as int] as int, (#[trigger] second@[y]) as int)
                        > reach,
        {
            let p: usize = first[a];
            let q: usize = second[b];
            let apart: usize = if p <= q {
                q - p
            } else {
                p - q
            };
            if apart <= reach {
                return true;
            }
        }
    }
    false
}

/// Decides whether the city's name and a keyword stand within
/// `proximity_threshold` positions of each other in `sentence_words`.
pub fn city_and_keyword_in_proximity(
    sentence_words: &Vec<String>,
    city_name: &str,
    keywords: &Vec<String>,
    proximity_threshold: usize,
) -> (near: bool)
    ensures
        near == within_reach(
            sentence_words.deep_view(),
            city_name@,
            keywords.deep_view(),
            proximity_threshold as int,
        ),
{
    let of_city = city_positions(sentence_words, city_name);
    let of_keywords = keyword_positions(sentence_words, keywords);
    let near = any_pair_within(&of_city, &of_keywords, proximity_threshold);
    proof {
        let words = sentence_words.deep_view();
        if near {
            let (a, b) = choose|a: int, b: int|
                0 <= a < of_city@.len() && 0 <= b < of_keywords@.len() && distance(
                    (#[trigger] of_city@[a]) as int,
                    (#[trigger] of_keywords@[b]) as int,
                ) <= proximity_threshold;
            let i = of_city@[a] as int;
            let j = of_keywords@[b] as int;
            assert(words[i] == city_name@ && keywords.deep_view().contains(words[j]));
        }
        if within_reach(words, city_name@, keywords.deep_view(), proximity_threshold as int) {
            let (i, j) = choose|i: int, j: int|
                0 <= i < words.len() && 0 <= j < words.len() && #[trigger] words[i] == city_name@
                    && keywords.deep_view().contains(#[trigger] words[j]) && distance(i, j)
                    <= proximity_threshold;
            let a = choose|a: int| 0 <= a < of_city@.len() && #[trigger] of_city@[a] == i;
            let b = choose|b: int| 0 <= b < of_keywords@.len() && #[trigger] of_keywords@[b] == j;
            assert(distance(of_city@[a] as int, of_keywords@[b] as int) <= proximity_threshold);
        }
    }
    near
}

} // verus!
