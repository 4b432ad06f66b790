//! The document classifier: to which cities, if any, is a document attributed?
//!
//! The title is looked at first. Every city that a title word names is
//! attributed outright. Where a title word is a keyword the document is
//! relevant, and the body is not read. Otherwise the body is read sentence by
//! sentence, if that is asked for: a sentence that holds a keyword makes the
//! document relevant, and attributes the cities that one of its words names
//! close to a keyword. A relevant document without a city goes to the
//! unspecified location; a document that is not relevant goes nowhere.

use vstd::prelude::*;
use crate::gazetteer::Gazetteer;
use crate::link_context::{inside_link, is_inside_link, LinkContext};
use crate::models::{
    news_item_of, Attribution, AttributionView, MetadataEntry, MetadataEntryView, NewsItem,
    NewsItemView,
};
use crate::proximity::{city_and_keyword_in_proximity, within_reach};
use crate::sentences::{sentences_of, split_sentences};
use crate::text_processing::{
    fuzzy_match_city, fuzzy_matches, split_content_into_words, tokens, WordSplitter,
};
use crate::word_set::{
    contains_word, distinct, distinct_words, lemma_distinct_has_no_duplicates,
    lemma_distinct_keeps_words,
};

verus! {

broadcast use vstd::seq_lib::group_seq_properties;

/// The similarity that a title word must reach to name a city: the double 0.95.
pub const TITLE_THRESHOLD: u64 = 0x3FEE_6666_6666_6666;

/// The similarity that a word of the body must reach to name a city: the double 0.95.
pub const CONTENT_THRESHOLD: u64 = 0x3FEE_6666_6666_6666;

/// How many positions may lie between a city and a keyword in a sentence.
pub const PROXIMITY_THRESHOLD: usize = 3;

/// The words of a text as a set: each once, in the order of first occurrence.
pub open spec fn word_set(splitter: WordSplitter, text: Seq<char>) -> Seq<Seq<char>> {
    distinct(tokens(splitter, text))
}

/// Whether one of the words matches the city's name at the threshold.
pub open spec fn names_city(words: Seq<Seq<char>>, city_name: Seq<char>, threshold: u64) -> bool {
    exists|i: int| 0 <= i < words.len() && fuzzy_matches(city_name, #[trigger] words[i], threshold)
}

/// Whether one of the words is a keyword.
pub open spec fn holds_keyword(words: Seq<Seq<char>>, keywords: Seq<Seq<char>>) -> bool {
    exists|i: int| 0 <= i < words.len() && keywords.contains(#[trigger] words[i])
}

/// The test of a city against the words of a title.
pub open spec fn named_by(words: Seq<Seq<char>>, threshold: u64) -> spec_fn(Seq<char>) -> bool {
    |city_name: Seq<char>| names_city(words, city_name, threshold)
}

/// The cities that the title names, in the order of the gazetteer.
pub open spec fn title_cities(
    names: Seq<Seq<char>>,
    words: Seq<Seq<char>>,
    threshold: u64,
) -> Seq<Seq<char>> {
    names.filter(named_by(words, threshold))
}

/// The test of a city against the words of a sentence: a word names it, its
/// name is not link text (unless that is let pass), and it stands close to a
/// keyword.
pub open spec fn attributed_by(
    words: Seq<Seq<char>>,
    keywords: Seq<Seq<char>>,
    anchor_texts: Seq<Seq<char>>,
    threshold: u64,
    reach: int,
    relaxed: bool,
) -> spec_fn(Seq<char>) -> bool {
    |city_name: Seq<char>|
        names_city(words, city_name, threshold) && (relaxed || !inside_link(
            anchor_texts,
            city_name,
        )) && within_reach(words, city_name, keywords, reach)
}

/// Whether a sentence is searched for cities: it holds a keyword and is not
/// link text (unless that is let pass).
pub open spec fn sentence_counts(
    splitter: WordSplitter,
    sentence: Seq<char>,
    keywords: Seq<Seq<char>>,
    anchor_texts: Seq<Seq<char>>,
    relaxed: bool,
) -> bool {
    holds_keyword(word_set(splitter, sentence), keywords) && (relaxed || !inside_link(
        anchor_texts,
        sentence,
    ))
}

/// The cities that one sentence attributes, in the order of the gazetteer.
pub open spec fn sentence_cities(
    splitter: WordSplitter,
    names: Seq<Seq<char>>,
    sentence: Seq<char>,
    keywords: Seq<Seq<char>>,
    anchor_texts: Seq<Seq<char>>,
    threshold: u64,
    reach: int,
    relaxed: bool,
) -> Seq<Seq<char>> {
    if sentence_counts(splitter, sentence, keywords, anchor_texts, relaxed) {
        names.filter(
            attributed_by(
                word_set(splitter, sentence),
                keywords,
                anchor_texts,
                threshold,
                reach,
                relaxed,
            ),
        )
    } else {
        Seq::empty()
    }
}

/// The cities that the sentences attribute, sentence after sentence.
pub open spec fn content_cities(
    splitter: WordSplitter,
    names: Seq<Seq<char>>,
    sentences: Seq<Seq<char>>,
    keywords: Seq<Seq<char>>,
    anchor_texts: Seq<Seq<char>>,
    threshold: u64,
    reach: int,
    relaxed: bool,
) -> Seq<Seq<char>>
    decreases sentences.len(),
{
    if sentences.len() == 0 {
        Seq::empty()
    } else {
        content_cities(
            splitter,
            names,
            sentences.drop_last(),
            keywords,
            anchor_texts,
            threshold,
            reach,
            relaxed,
        ) + sentence_cities(
            splitter,
            names,
            sentences.last(),
            keywords,
            anchor_texts,
            threshold,
            reach,
            relaxed,
        )
    }
}

/// Whether one of the sentences holds a keyword.
pub open spec fn keyword_in_sentences(
    splitter: WordSplitter,
    sentences: Seq<Seq<char>>,
    keywords: Seq<Seq<char>>,
) -> bool {
    exists|i: int|
        0 <= i < sentences.len() && holds_keyword(
            word_set(splitter, #[trigger] sentences[i]),
            keywords,
        )
}

/// Whether the document is relevant: a keyword stands in its title, or, where
/// the body is read, in one of its sentences.
pub open spec fn is_relevant(
    splitter: WordSplitter,
    title: Seq<char>,
    content: Seq<char>,
    keywords: Seq<Seq<char>>,
    parse_content: bool,
) -> bool {
    holds_keyword(word_set(splitter, title), keywords) || (parse_content && keyword_in_sentences(
        splitter,
        sentences_of(content),
        keywords,
    ))
}

/// The cities found for a document, in the order in which they are found and
/// with repetitions: those of the title, then, where no keyword stands in the
/// title and the body is read, those of the sentences.
pub open spec fn cities_found(
    splitter: WordSplitter,
    title: Seq<char>,
    content: Seq<char>,
    anchor_texts: Seq<Seq<char>>,
    keywords: Seq<Seq<char>>,
    names: Seq<Seq<char>>,
    fuzzy_threshold_title: u64,
    fuzzy_threshold_content: u64,
    proximity_threshold: int,
    parse_content: bool,
    relaxed: bool,
) -> Seq<Seq<char>> {
    let in_title = title_cities(names, word_set(splitter, title), fuzzy_threshold_title);
    if !holds_keyword(word_set(splitter, title), keywords) && parse_content {
        in_title + content_cities(
            splitter,
            names,
            sentences_of(content),
            keywords,
            anchor_texts,
            fuzzy_threshold_content,
            proximity_threshold,
            relaxed,
        )
    } else {
        in_title
    }
}

/// The places of a relevant document: its cities, each once, or the
/// unspecified location where it has none.
pub open spec fn places_of(cities: Seq<Seq<char>>) -> Seq<AttributionView> {
    if cities.len() == 0 {
        seq![AttributionView::Unspecified]
    } else {
        distinct(cities).map_values(|city_name: Seq<char>| AttributionView::City(city_name))
    }
}

/// The places a document is attributed to. A document that is not relevant
/// has none.
pub open spec fn attributions(
    splitter: WordSplitter,
    title: Seq<char>,
    content: Seq<char>,
    anchor_texts: Seq<Seq<char>>,
    keywords: Seq<Seq<char>>,
    names: Seq<Seq<char>>,
    fuzzy_threshold_title: u64,
    fuzzy_threshold_content: u64,
    proximity_threshold: int,
    parse_content: bool,
    relaxed: bool,
) -> Seq<AttributionView> {
    if is_relevant(splitter, title, content, keywords, parse_content) {
        places_of(
            cities_found(
                splitter,
                title,
                content,
                anchor_texts,
                keywords,
                names,
                fuzzy_threshold_title,
                fuzzy_threshold_content,
                proximity_threshold,
                parse_content,
                relaxed,
            ),
        )
    } else {
        Seq::empty()
    }
}

/// A document is attributed to no place twice.
pub proof fn lemma_places_stand_once(cities: Seq<Seq<char>>)
    ensures
        places_of(cities).no_duplicates(),
{
    lemma_distinct_has_no_duplicates(cities);
}

/// The unspecified location stands alone: a document that is attributed to it
/// is attributed to no city.
pub proof fn lemma_unspecified_stands_alone(cities: Seq<Seq<char>>)
    ensures
        places_of(cities).contains(AttributionView::Unspecified) <==> cities.len() == 0,
        cities.len() == 0 ==> places_of(cities) == seq![AttributionView::Unspecified],
{
    if cities.len() == 0 {
        assert(places_of(cities)[0] == AttributionView::Unspecified);
    }
}

/// A relevant document is attributed to every city that was found for it, and
/// to no other.
pub proof fn lemma_found_cities_are_places(cities: Seq<Seq<char>>, city_name: Seq<char>)
    ensures
        places_of(cities).contains(AttributionView::City(city_name)) <==> cities.contains(
            city_name,
        ),
{
    lemma_distinct_keeps_words(cities, city_name);
    let once = distinct(cities);
    let places = places_of(cities);
    if cities.contains(city_name) {
        let i = once.index_of(city_name);
        assert(places[i] == AttributionView::City(city_name));
    }
    if places.contains(AttributionView::City(city_name)) {
        let i = places.index_of(AttributionView::City(city_name));
        if cities.len() > 0 {
            assert(once[i] == city_name);
        }
    }
}

/// A document has a place exactly when it is relevant.
pub proof fn lemma_relevant_documents_have_places(
    splitter: WordSplitter,
    title: Seq<char>,
    content: Seq<char>,
    anchor_texts: Seq<Seq<char>>,
    keywords: Seq<Seq<char>>,
    names: Seq<Seq<char>>,
    fuzzy_threshold_title: u64,
    fuzzy_threshold_content: u64,
    proximity_threshold: int,
    parse_content: bool,
    relaxed: bool,
)
    ensures
        attributions(
            splitter,
            title,
            content,
            anchor_texts,
            keywords,
            names,
            fuzzy_threshold_title,
            fuzzy_threshold_content,
            proximity_threshold,
            parse_content,
            relaxed,
        ).len() > 0 <==> is_relevant(splitter, title, content, keywords, parse_content),
{
    let cities = cities_found(
        splitter,
        title,
        content,
        anchor_texts,
        keywords,
        names,
        fuzzy_threshold_title,
        fuzzy_threshold_content,
        proximity_threshold,
        parse_content,
        relaxed,
    );
    if cities.len() > 0 {
        lemma_distinct_keeps_words(cities, cities[0]);
    }
}

/// A document whose title holds a keyword is attributed to a city of the
/// gazetteer exactly when a word of the title names that city, whatever its
/// body says; where the title names no city it goes to the unspecified
/// location.
pub proof fn lemma_title_with_keyword_decides(
    splitter: WordSplitter,
    title: Seq<char>,
    content: Seq<char>,
    anchor_texts: Seq<Seq<char>>,
    keywords: Seq<Seq<char>>,
    names: Seq<Seq<char>>,
    fuzzy_threshold_title: u64,
    fuzzy_threshold_content: u64,
    proximity_threshold: int,
    parse_content: bool,
    relaxed: bool,
    city_name: Seq<char>,
)
    requires
        holds_keyword(word_set(splitter, title), keywords),
    ensures
        attributions(
            splitter,
            title,
            content,
            anchor_texts,
            keywords,
            names,
            fuzzy_threshold_title,
            fuzzy_threshold_content,
            proximity_threshold,
            parse_content,
            relaxed,
        ) == places_of(title_cities(names, word_set(splitter, title), fuzzy_threshold_title)),
        attributions(
            splitter,
            title,
            content,
            anchor_texts,
            keywords,
            names,
            fuzzy_threshold_title,
            fuzzy_threshold_content,
            proximity_threshold,
            parse_content,
            relaxed,
        ).contains(AttributionView::City(city_name)) <==> names.contains(city_name) && names_city(
            word_set(splitter, title),
            city_name,
            fuzzy_threshold_title,
        ),
{
    let words = word_set(splitter, title);
    let in_title = title_cities(names, words, fuzzy_threshold_title);
    lemma_found_cities_are_places(in_title, city_name);
    lemma_filter_keeps(names, named_by(words, fuzzy_threshold_title), city_name);
}

/// What passes a test is what was there and meets the test.
pub proof fn lemma_filter_keeps(
    names: Seq<Seq<char>>,
    test: spec_fn(Seq<char>) -> bool,
    city_name: Seq<char>,
)
    ensures
        names.filter(test).contains(city_name) <==> names.contains(city_name) && test(city_name),
{
    if names.filter(test).contains(city_name) {
        let i = names.filter(test).index_of(city_name);
        names.lemma_filter_pred(test, i);
        names.lemma_filter_contains_rev(test, city_name);
    }
    if names.contains(city_name) && test(city_name) {
        let i = names.index_of(city_name);
        names.lemma_filter_contains(test, i);
    }
}

/// The entries that a document adds to the index: its news item, once under
/// each place.
pub open spec fn entries_for(places: Seq<AttributionView>, entry: MetadataEntryView) -> Seq<
    (AttributionView, NewsItemView),
> {
    places.map_values(|place: AttributionView| (place, news_item_of(entry)))
}

/// A list of entries as (place, item) pairs of views.
pub open spec fn entry_views(entries: Seq<(Attribution, NewsItem)>) -> Seq<
    (AttributionView, NewsItemView),
> {
    entries.map_values(|entry: (Attribution, NewsItem)| (entry.0@, entry.1@))
}

/// Decides whether one of the words matches the city's name.
pub fn any_word_names(words: &Vec<String>, city_name: &str, threshold: u64) -> (named: bool)
    ensures
        named == names_city(words.deep_view(), city_name@, threshold),
{
    for i in 0..words.len()
        invariant
            forall|k: int|
                0 <= k < i ==> !fuzzy_matches(
                    city_name@,
                    #[trigger] words.deep_view()[k],
                    threshold,
                ),
    {
        if fuzzy_match_city(city_name, words[i].as_str(), threshold) {
            assert(fuzzy_matches(city_name@, words.deep_view()[i as int], threshold));
            return true;
        }
    }
    false
}

/// Decides whether one of the words is a keyword.
pub fn any_keyword(words: &Vec<String>, keywords: &Vec<String>) -> (found: bool)
    ensures
        found == holds_keyword(words.deep_view(), keywords.deep_view()),
{
    for i in 0..words.len()
        invariant
            forall|k: int|
                0 <= k < i ==> !keywords.deep_view().contains(#[trigger] words.deep_view()[k]),
    {
        if contains_word(keywords, words[i].as_str()) {
            assert(keywords.deep_view().contains(words.deep_view()[i as int]));
            return true;
        }
    }
    false
}

/// Picks the cities that the words of a title name.
pub fn cities_in_title(names: &Vec<String>, words: &Vec<String>, threshold: u64) -> (cities: Vec<
    String,
>)
    ensures
        cities.deep_view() == title_cities(names.deep_view(), words.deep_view(), threshold),
{
    let mut cities: Vec<String> = Vec::new();
    let ghost test = named_by(words.deep_view(), threshold);
    proof {
        reveal(Seq::filter);
        assert(names.deep_view().take(0) == Seq::<Seq<char>>::empty());
        assert(cities.deep_view() == Seq::<Seq<char>>::empty());
    }
    for i in 0..names.len()
        invariant
            test == named_by(words.deep_view(), threshold),
            cities.deep_view() == names.deep_view().take(i as int).filter(test),
    {
        let ghost seen = names.deep_view().take(i as int);
        let ghost before = cities.deep_view();
        proof {
            assert(names.deep_view().take(i + 1) == seen.push(names@[i as int]@));
            seen.lemma_filter_push(names@[i as int]@, test);
        }
        if any_word_names(words, names[i].as_str(), threshold) {
            cities.push(names[i].clone());
            assert(cities.deep_view() == before.push(names@[i as int]@));
        }
    }
    proof {
        assert(names.deep_view().take(names@.len() as int) == names.deep_view());
    }
    cities
}

/// Picks the cities that a sentence attributes, given its words.
pub fn cities_in_sentence(
    names: &Vec<String>,
    words: &Vec<String>,
    keywords: &Vec<String>,
    links: &LinkContext,
    threshold: u64,
    proximity_threshold: usize,
    relaxed: bool,
) -> (cities: Vec<String>)
    ensures
        cities.deep_view() == names.deep_view().filter(
            attributed_by(
                words.deep_view(),
                keywords.deep_view(),
                links@,
                threshold,
                proximity_threshold as int,
                relaxed,
            ),
        ),
{
    let mut cities: Vec<String> = Vec::new();
    let ghost test = attributed_by(
        words.deep_view(),
        keywords.deep_view(),
        links@,
        threshold,
        proximity_threshold as int,
        relaxed,
    );
    proof {
        reveal(Seq::filter);
        assert(names.deep_view().take(0) == Seq::<Seq<char>>::empty());
        assert(cities.deep_view() == Seq::<Seq<char>>::empty());
    }
    for i in 0..names.len()
        invariant
            test == attributed_by(
                words.deep_view(),
                keywords.deep_view(),
                links@,
                threshold,
                proximity_threshold as int,
                relaxed,
            ),
            cities.deep_view() == names.deep_view().take(i as int).filter(test),
    {
        let ghost seen = names.deep_view().take(i as int);
        let ghost before = cities.deep_view();
        proof {
            assert(names.deep_view().take(i + 1) == seen.push(names@[i as int]@));
            seen.lemma_filter_push(names@[i as int]@, test);
        }
        let city_name = names[i].as_str();
        if any_word_names(words, city_name, threshold) && (relaxed || !is_inside_link(
            links,
            city_name,
        )) && city_and_keyword_in_proximity(words, city_name, keywords, proximity_threshold) {
            cities.push(names[i].clone());
            assert(cities.deep_view() == before.push(names@[i as int]@));
        }
    }
    proof {
        assert(names.deep_view().take(names@.len() as int) == names.deep_view());
    }
    cities
}

/// Searches the sentences of a body: tells whether one of them holds a keyword,
/// and appends to `cities` the cities that they attribute.
pub fn search_sentences(
    sentences: &Vec<String>,
    cities: &mut Vec<String>,
    links: &LinkContext,
    splitter: &WordSplitter,
    keywords: &Vec<String>,
    names: &Vec<String>,
    threshold: u64,
    proximity_threshold: usize,
    relaxed: bool,
) -> (keyword_found: bool)
    ensures
        keyword_found == keyword_in_sentences(
            *splitter,
            sentences.deep_view(),
            keywords.deep_view(),
        ),
        final(cities).deep_view() == old(cities).deep_view() + content_cities(
            *splitter,
            names.deep_view(),
            sentences.deep_view(),
            keywords.deep_view(),
            links@,
            threshold,
            proximity_threshold as int,
            relaxed,
        ),
{
    let mut keyword_found = false;
    let ghost all = sentences.deep_view();
    proof {
        assert(all.take(0) == Seq::<Seq<char>>::empty());
        assert(cities.deep_view() + Seq::<Seq<char>>::empty() == cities.deep_view());
    }
    for i in 0..sentences.len()
        invariant
            all == sentences.deep_view(),
            keyword_found == keyword_in_sentences(
                *splitter,
                all.take(i as int),
                keywords.deep_view(),
            ),
            cities.deep_view() == old(cities).deep_view() + content_cities(
                *splitter,
                names.deep_view(),
                all.take(i as int),
                keywords.deep_view(),
                links@,
                threshold,
                proximity_threshold as int,
                relaxed,
            ),
    {
        let sentence = sentences[i].as_str();
        let words = distinct_words(&split_content_into_words(splitter, sentence));
        let ghost found_before = content_cities(
            *splitter,
            names.deep_view(),
            all.take(i as int),
            keywords.deep_view(),
            links@,
            threshold,
            proximity_threshold as int,
            relaxed,
        );
        let ghost found_here = sentence_cities(
            *splitter,
            names.deep_view(),
            sentence@,
            keywords.deep_view(),
            links@,
            threshold,
            proximity_threshold as int,
            relaxed,
        );
        let ghost before = cities.deep_view();
        proof {
            assert(all.take(i + 1).drop_last() == all.take(i as int));
            assert(all.take(i + 1).last() == sentence@);
            assert(words.deep_view() == word_set(*splitter, sentence@));
            assert(before + (found_before + found_here) == (before + found_before) + found_here);
            lemma_keyword_in_one_more(
                *splitter,
                all.take(i as int),
                sentence@,
                keywords.deep_view(),
            );
            assert(all.take(i as int).push(sentence@) == all.take(i + 1));
        }
        if any_keyword(&words, keywords) {
            keyword_found = true;
            if relaxed || !is_inside_link(links, sentence) {
                let mut found = cities_in_sentence(
                    names,
                    &words,
                    keywords,
                    links,
                    threshold,
                    proximity_threshold,
                    relaxed,
                );
                let ghost added = found.deep_view();
                cities.append(&mut found);
                assert(cities.deep_view() == before + added);
            } else {
                assert(before + found_here == before);
            }
        } else {
            assert(before + found_here == before);
        }
    }
    proof {
        assert(all.take(all.len() as int) == all);
    }
    keyword_found
}

/// A keyword stands in one of the sentences and one more exactly when it
/// stands in one of the sentences or in the one more.
pub proof fn lemma_keyword_in_one_more(
    splitter: WordSplitter,
    sentences: Seq<Seq<char>>,
    sentence: Seq<char>,
    keywords: Seq<Seq<char>>,
)
    ensures
        keyword_in_sentences(splitter, sentences.push(sentence), keywords) == (keyword_in_sentences(
            splitter,
            sentences,
            keywords,
        ) || holds_keyword(word_set(splitter, sentence), keywords)),
{
    let more = sentences.push(sentence);
    if keyword_in_sentences(splitter, sentences, keywords) {
        let i = choose|i: int|
            0 <= i < sentences.len() && holds_keyword(
                word_set(splitter, #[trigger] sentences[i]),
                keywords,
            );
        assert(more[i] == sentences[i]);
    }
    if holds_keyword(word_set(splitter, sentence), keywords) {
        assert(more[sentences.len() as int] == sentence);
    }
    if keyword_in_sentences(splitter, more, keywords) {
        let i = choose|i: int|
            0 <= i < more.len() && holds_keyword(word_set(splitter, #[trigger] more[i]), keywords);
        if i < sentences.len() {
            assert(sentences[i] == more[i]);
        }
    }
}

/// Makes the places of a relevant document of the cities found for it.
pub fn places_for(cities: &Vec<String>) -> (places: Vec<Attribution>)
    ensures
        places@.map_values(|place: Attribution| place@) == places_of(cities.deep_view()),
{
    let mut places: Vec<Attribution> = Vec::new();
    if cities.len() == 0 {
        places.push(Attribution::Unspecified);
        assert(places@.map_values(|place: Attribution| place@) == seq![
            AttributionView::Unspecified,
        ]);
        return places;
    }
    let once = distinct_words(cities);
    for i in 0..once.len()
        invariant
            places@.map_values(|place: Attribution| place@) == once.deep_view().take(
                i as int,
            ).map_values(|city_name: Seq<char>| AttributionView::City(city_name)),
    {
        let ghost before = places@.map_values(|place: Attribution| place@);
        let place = Attribution::City(once[i].clone());
        places.push(place);
        proof {
            assert(places@.map_values(|place: Attribution| place@) == before.push(
                AttributionView::City(once@[i as int]@),
            ));
            assert(once.deep_view().take(i + 1) == once.deep_view().take(i as int).push(
                once@[i as int]@,
            ));
        }
    }
    proof {
        assert(once.deep_view().take(once@.len() as int) == once.deep_view());
    }
    places
}

/// Classifies one document: returns the entries that it adds to the index,
/// its news item once under each place it is attributed to, and nothing where
/// it is not relevant.
///
/// `content` is the body and `links` the anchor texts of the same document.
/// The thresholds are bit patterns of doubles. With `parse_content` unset the
/// body is never read; with `relaxed` set text inside links counts like any
/// other.
pub fn process_entry(
    entry: &MetadataEntry,
    content: &str,
    links: &LinkContext,
    splitter: &WordSplitter,
    keywords: &Vec<String>,
    gazetteer: &Gazetteer,
    fuzzy_threshold_title: u64,
    fuzzy_threshold_content: u64,
    proximity_threshold: usize,
    parse_content: bool,
    relaxed: bool,
) -> (updates: Vec<(Attribution, NewsItem)>)
    ensures
        entry_views(updates@) == entries_for(
            attributions(
                *splitter,
                entry@.title,
                content@,
                links@,
                keywords.deep_view(),
                gazetteer@.keys,
                fuzzy_threshold_title,
                fuzzy_threshold_content,
                proximity_threshold as int,
                parse_content,
                relaxed,
            ),
            entry@,
        ),
{
    let names = gazetteer.keys();
    let title_words = distinct_words(&split_content_into_words(splitter, entry.title.as_str()));
    let mut cities = cities_in_title(names, &title_words, fuzzy_threshold_title);
    let mut keyword_found = any_keyword(&title_words, keywords);
    if !keyword_found && parse_content {
        let sentences = split_sentences(content);
        keyword_found =
        search_sentences(
            &sentences,
            &mut cities,
            links,
            splitter,
            keywords,
            names,
            fuzzy_threshold_content,
            proximity_threshold,
            relaxed,
        );
    }
    let mut updates: Vec<(Attribution, NewsItem)> = Vec::new();
    if !keyword_found {
        assert(entry_views(updates@) == Seq::<(AttributionView, NewsItemView)>::empty());
        return updates;
    }
    let places = places_for(&cities);
    let ghost place_views = places@.map_values(|place: Attribution| place@);
    for i in 0..places.len()
        invariant
            place_views == places@.map_values(|place: Attribution| place@),
            entry_views(updates@) == entries_for(place_views.take(i as int), entry@),
    {
        let ghost before = entry_views(updates@);
        updates.push((places[i].duplicate(), NewsItem::from_entry(entry)));
        proof {
            assert(entry_views(updates@) == before.push(
                (place_views[i as int], news_item_of(entry@)),
            ));
            assert(place_views.take(i + 1) == place_views.take(i as int).push(
                place_views[i as int],
            ));
        }
    }
    proof {
        assert(place_views.take(place_views.len() as int) == place_views);
    }
    updates
}

} // verus!
