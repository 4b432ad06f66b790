//! Tokenizer and fuzzy matcher.
//!
//! Words are what lies between the matches of [`WORD_SEPARATOR`], lower-cased,
//! the empty ones left out. Two words match fuzzily when their Jaro-Winkler
//! similarity reaches a threshold.
//!
//! A similarity and a threshold are carried as the bit pattern of an IEEE-754
//! double and compared in the order of the doubles, whatever their sign: a
//! threshold of zero or below is reached by every similarity, and a threshold
//! that is no number by none.

use vstd::prelude::*;
use regex::Regex;
use crate::doubles::{at_most, is_at_most, is_number};
use crate::strings::lowercase_of;

verus! {

broadcast use vstd::seq_lib::group_seq_properties;

/// The pattern whose matches separate words: a run of characters that are no
/// word characters.
pub const WORD_SEPARATOR: &'static str = r"[^\w]+";

/// The double 1.0: the similarity of a word to itself.
pub const FULL_SIMILARITY: u64 = 0x3FF0_0000_0000_0000;

/// `regex::Regex`, a compiled regular expression. Nothing of its inside is
/// known here.
#[verifier::external_type_specification]
#[verifier::external_body]
pub struct ExRegex(regex::Regex);

/// `regex::Error`, the reason for which a pattern was refused. Nothing of its
/// inside is known here.
#[verifier::external_type_specification]
#[verifier::external_body]
pub struct ExRegexError(regex::Error);

/// `Regex::new`: whether the engine, with the limits it has by default,
/// compiles the pattern rather than refusing it.
pub uninterp spec fn pattern_accepted(pattern: Seq<char>) -> bool;

/// `Regex::as_str`: the pattern text that a compiled expression was built from.
pub uninterp spec fn pattern_text(expression: Regex) -> Seq<char>;

/// `Regex::split`: the parts of `haystack` that no match of `expression`
/// covers, from left to right.
pub uninterp spec fn split_pieces(expression: Regex, haystack: Seq<char>) -> Seq<Seq<char>>;

/// `strsim::jaro_winkler`: the Jaro-Winkler similarity of two texts, as the
/// bit pattern of the double.
pub uninterp spec fn jaro_winkler_bits(a: Seq<char>, b: Seq<char>) -> u64;

/// `Regex::new` compiles a pattern or refuses it; which of the two depends on
/// the pattern alone. An expression that it hands back reports the pattern it
/// was given as its text.
pub assume_specification[ Regex::new ](re: &str) -> (compiled: Result<Regex, regex::Error>)
    ensures
        compiled is Ok <==> pattern_accepted(re@),
        compiled matches Ok(expression) ==> pattern_text(expression) == re@,
;

/// `Regex::split`, its pieces copied out in the order in which the iterator
/// yields them.
#[verifier::external_body]
fn split_by(expression: &Regex, haystack: &str) -> (pieces: Vec<String>)
    ensures
        pieces.deep_view() == split_pieces(*expression, haystack@),
{
    expression.split(haystack).map(String::from).collect()
}

/// `strsim::jaro_winkler`, the double it returns taken by its bits. The score
/// is computed from the characters of the two texts and nothing else, and it
/// lies between 0.0 and 1.0: its pattern is at most that of 1.0.
#[verifier::external_body]
fn jaro_winkler_score(a: &str, b: &str) -> (bits: u64)
    ensures
        bits == jaro_winkler_bits(a@, b@),
        bits <= FULL_SIMILARITY,
{
    strsim::jaro_winkler(a, b).to_bits()
}

/// The regex engine refused the word separator.
#[derive(Debug, Clone, Copy, PartialEq, Eq)]
pub struct PatternRejected;

/// A compiled pattern whose matches separate words: [`WORD_SEPARATOR`], as a
/// rule. It is compiled once and then shared, read-only, by every tokenization.
pub struct WordSplitter {
    separator: Regex,
}

impl WordSplitter {
    /// The pattern text the splitter was compiled from.
    pub closed spec fn pattern(&self) -> Seq<char> {
        pattern_text(self.separator)
    }

    /// The parts of `content` that lie between the separators, empty ones included.
    pub closed spec fn pieces(&self, content: Seq<char>) -> Seq<Seq<char>> {
        split_pieces(self.separator, content)
    }

    /// Compiles [`WORD_SEPARATOR`]. There is a splitter exactly when the engine
    /// accepts that pattern.
    pub fn new() -> (made: Result<WordSplitter, PatternRejected>)
        ensures
            made is Ok <==> pattern_accepted(WORD_SEPARATOR@),
            made matches Ok(splitter) ==> splitter.pattern() == WORD_SEPARATOR@,
    {
        let compiled = Regex::new(WORD_SEPARATOR);
        WordSplitter::from_compiled(compiled)
    }

    /// The compiled expression that the splitter holds.
    pub closed spec fn expression(&self) -> Regex {
        self.separator
    }

    /// Makes a splitter of what compiling a pattern gave: the splitter that
    /// holds the compiled expression, or the refusal where the pattern was
    /// refused.
    pub fn from_compiled(compiled: Result<Regex, regex::Error>) -> (made: Result<
        WordSplitter,
        PatternRejected,
    >)
        ensures
            match compiled {
                Ok(expression) => made matches Ok(splitter) && splitter.expression() == expression
                    && splitter.pattern() == pattern_text(expression) && forall|
                    content: Seq<char>,
                |
                    #[trigger] splitter.pieces(content) == split_pieces(expression, content),
                Err(_) => made is Err,
            },
    {
        match compiled {
            Ok(separator) => Ok(WordSplitter { separator }),
            Err(_) => Err(PatternRejected),
        }
    }
}

/// The test that keeps a piece as a word: it holds at least one character.
pub open spec fn holds_text() -> spec_fn(Seq<char>) -> bool {
    |piece: Seq<char>| piece.len() > 0
}

/// Pieces made into words: each lower-cased, the empty ones left out.
pub open spec fn normalized(pieces: Seq<Seq<char>>) -> Seq<Seq<char>> {
    pieces.map_values(|piece: Seq<char>| lowercase_of(piece)).filter(holds_text())
}

/// The words of a text. An empty text has none.
pub open spec fn tokens(splitter: WordSplitter, content: Seq<char>) -> Seq<Seq<char>> {
    if content.len() == 0 {
        Seq::empty()
    } else {
        normalized(splitter.pieces(content))
    }
}

/// Every word of a text holds at least one character.
pub proof fn lemma_tokens_hold_text(splitter: WordSplitter, content: Seq<char>, i: int)
    requires
        0 <= i < tokens(splitter, content).len(),
    ensures
        tokens(splitter, content)[i].len() > 0,
{
    lemma_words_hold_text(splitter.pieces(content), i);
}

/// The empty text has no words.
pub proof fn lemma_empty_text_has_no_words(splitter: WordSplitter)
    ensures
        tokens(splitter, Seq::empty()) == Seq::<Seq<char>>::empty(),
{
}

/// Every word holds at least one character.
pub proof fn lemma_words_hold_text(pieces: Seq<Seq<char>>, i: int)
    requires
        0 <= i < normalized(pieces).len(),
    ensures
        normalized(pieces)[i].len() > 0,
{
    let lowered = pieces.map_values(|piece: Seq<char>| lowercase_of(piece));
    lowered.lemma_filter_pred(holds_text(), i);
}

/// Every word is the lower-cased form of one of the pieces.
pub proof fn lemma_words_are_lowered_pieces(pieces: Seq<Seq<char>>, i: int)
    requires
        0 <= i < normalized(pieces).len(),
    ensures
        exists|j: int| 0 <= j < pieces.len() && normalized(pieces)[i] == lowercase_of(pieces[j]),
{
    let lowered = pieces.map_values(|piece: Seq<char>| lowercase_of(piece));
    let word = normalized(pieces)[i];
    assert(lowered.filter(holds_text()).contains(word));
    lowered.lemma_filter_contains_rev(holds_text(), word);
    let j = lowered.index_of(word);
    assert(lowered[j] == lowercase_of(pieces[j]));
}

/// Words that hold text and are their own lower-cased form stay as they are.
pub proof fn lemma_words_stay_words(words: Seq<Seq<char>>)
    requires
        forall|i: int| 0 <= i < words.len() ==> (#[trigger] words[i]).len() > 0,
        forall|i: int| 0 <= i < words.len() ==> lowercase_of(#[trigger] words[i]) == words[i],
    ensures
        normalized(words) == words,
    decreases words.len(),
{
    if words.len() == 0 {
        lemma_no_pieces_no_words();
        assert(words == Seq::<Seq<char>>::empty());
    } else {
        lemma_words_stay_words(words.drop_last());
        lemma_normalized_push(words.drop_last(), words.last());
        assert(words == words.drop_last().push(words.last()));
    }
}

/// No pieces, no words.
pub proof fn lemma_no_pieces_no_words()
    ensures
        normalized(Seq::<Seq<char>>::empty()) == Seq::<Seq<char>>::empty(),
{
    reveal(Seq::filter);
    let lowered = Seq::<Seq<char>>::empty().map_values(|piece: Seq<char>| lowercase_of(piece));
    assert(lowered.len() == 0);
}

proof fn lemma_normalized_push(pieces: Seq<Seq<char>>, piece: Seq<char>)
    ensures
        normalized(pieces.push(piece)) == if lowercase_of(piece).len() > 0 {
            normalized(pieces).push(lowercase_of(piece))
        } else {
            normalized(pieces)
        },
{
    let lower = |p: Seq<char>| lowercase_of(p);
    assert(pieces.push(piece).map_values(lower) == pieces.map_values(lower).push(
        lowercase_of(piece),
    ));
    pieces.map_values(lower).lemma_filter_push(lowercase_of(piece), holds_text());
}

/// Makes words of pieces: lower-cases each and leaves the empty ones out.
pub fn normalize_pieces(pieces: &Vec<String>) -> (words: Vec<String>)
    ensures
        words.deep_view() == normalized(pieces.deep_view()),
        forall|i: int| 0 <= i < words@.len() ==> (#[trigger] words@[i])@.len() > 0,
{
    let mut words: Vec<String> = Vec::new();
    proof {
        lemma_no_pieces_no_words();
        assert(pieces.deep_view().take(0) == Seq::<Seq<char>>::empty());
        assert(words.deep_view() == Seq::<Seq<char>>::empty());
    }
    for i in 0..pieces.len()
        invariant
            words.deep_view() == normalized(pieces.deep_view().take(i as int)),
            forall|k: int| 0 <= k < words@.len() ==> (#[trigger] words@[k])@.len() > 0,
    {
        let lowered = pieces[i].as_str().to_lowercase();
        proof {
            let seen = pieces.deep_view().take(i as int);
            assert(pieces.deep_view().take(i + 1) == seen.push(pieces@[i as int]@));
            lemma_normalized_push(seen, pieces@[i as int]@);
        }
        if !lowered.as_str().is_empty() {
            let ghost before = words.deep_view();
            words.push(lowered);
            assert(words.deep_view() == before.push(lowered@));
        }
    }
    proof {
        assert(pieces.deep_view().take(pieces@.len() as int) == pieces.deep_view());
    }
    words
}

/// Splits a text into its words: what lies between runs of characters that
/// are no word characters, lower-cased, without the empty pieces. An empty
/// text is not handed to the splitter.
pub fn split_content_into_words(splitter: &WordSplitter, content: &str) -> (words: Vec<String>)
    ensures
        words.deep_view() == tokens(*splitter, content@),
        forall|i: int| 0 <= i < words@.len() ==> (#[trigger] words@[i])@.len() > 0,
        content@.len() == 0 ==> words@.len() == 0,
{
    if content.is_empty() {
        let words: Vec<String> = Vec::new();
        assert(words.deep_view() == Seq::<Seq<char>>::empty());
        return words;
    }
    let pieces = split_by(&splitter.separator, content);
    normalize_pieces(&pieces)
}

/// Whether a similarity reaches a threshold: as doubles, the threshold is at
/// most the similarity.
pub fn reaches(similarity: u64, threshold: u64) -> (reached: bool)
    ensures
        reached == at_most(threshold, similarity),
{
    is_at_most(threshold, similarity)
}

/// Whether a word counts as the city's name at a threshold: a word equal to the
/// name has full similarity, any other word the Jaro-Winkler similarity to it.
pub open spec fn fuzzy_matches(city_name: Seq<char>, word: Seq<char>, threshold: u64) -> bool {
    if city_name == word {
        at_most(threshold, FULL_SIMILARITY)
    } else {
        at_most(threshold, jaro_winkler_bits(city_name, word))
    }
}

/// Decides whether `word` matches `city_name` at `threshold`. Equal texts are
/// decided without scoring. Every pair matches at a threshold of zero or
/// below, and none at a threshold above 1.0.
pub fn fuzzy_match_city(city_name: &str, word: &str, threshold: u64) -> (matched: bool)
    ensures
        matched == fuzzy_matches(city_name@, word@, threshold),
        at_most(threshold, 0) ==> matched,
        matched ==> at_most(threshold, FULL_SIMILARITY),
{
    if city_name.eq(word) {
        reaches(FULL_SIMILARITY, threshold)
    } else {
        reaches(jaro_winkler_score(city_name, word), threshold)
    }
}

/// A text matches itself at every threshold of at most 1.0, the thresholds
/// of zero and below among them.
pub proof fn lemma_identical_texts_match(text: Seq<char>, threshold: u64)
    requires
        at_most(threshold, FULL_SIMILARITY),
    ensures
        fuzzy_matches(text, text, threshold),
{
}

/// What matches at a threshold matches at every lower threshold.
pub proof fn lemma_match_at_lower_threshold(
    city_name: Seq<char>,
    word: Seq<char>,
    lower: u64,
    higher: u64,
)
    requires
        at_most(lower, higher),
        fuzzy_matches(city_name, word, higher),
    ensures
        fuzzy_matches(city_name, word, lower),
{
}

/// At a threshold that is no number nothing matches.
pub proof fn lemma_nothing_matches_at_no_number(
    city_name: Seq<char>,
    word: Seq<char>,
    threshold: u64,
)
    requires
        !is_number(threshold),
    ensures
        !fuzzy_matches(city_name, word, threshold),
{
}

} // verus!
