use city_news::doubles::{is_at_most, NEGATIVE_INFINITY, NEGATIVE_ZERO, POSITIVE_INFINITY};
use city_news::sentences::split_sentences;
use city_news::text_processing::{
    fuzzy_match_city, normalize_pieces, reaches, split_content_into_words, PatternRejected,
    WordSplitter, FULL_SIMILARITY, WORD_SEPARATOR,
};
use regex::Regex;
use city_news::processing::{CONTENT_THRESHOLD, PROXIMITY_THRESHOLD, TITLE_THRESHOLD};
use city_news::word_set::{contains_word, distinct_words, position_of_word};

fn strings(words: &[&str]) -> Vec<String> {
    words.iter().map(|word| word.to_string()).collect()
}

#[test]
fn separator_is_a_run_of_non_word_characters() {
    assert_eq!(WORD_SEPARATOR, "[^\\w]+");
}

#[test]
fn the_word_separator_compiles() {
    assert!(WordSplitter::new().is_ok());
    assert!(WordSplitter::from_compiled(Regex::new(WORD_SEPARATOR)).is_ok());
}

#[test]
fn a_refused_pattern_gives_no_splitter() {
    assert_eq!(WordSplitter::from_compiled(Regex::new("(")).err(), Some(PatternRejected));
    assert_eq!(WordSplitter::from_compiled(Regex::new("[a")).err(), Some(PatternRejected));
}

#[test]
fn a_splitter_splits_by_the_expression_it_was_given() {
    let by_comma = WordSplitter::from_compiled(Regex::new(",")).unwrap();
    assert_eq!(split_content_into_words(&by_comma, "A b,,C"), strings(&["a b", "c"]));
    let by_separator = WordSplitter::from_compiled(Regex::new(WORD_SEPARATOR)).unwrap();
    assert_eq!(split_content_into_words(&by_separator, "A b,,C"), strings(&["a", "b", "c"]));
}

#[test]
fn empty_text_has_no_words() {
    let splitter = WordSplitter::new().unwrap();
    assert_eq!(split_content_into_words(&splitter, ""), Vec::<String>::new());
}

#[test]
fn text_of_separators_has_no_words() {
    let splitter = WordSplitter::new().unwrap();
    assert_eq!(split_content_into_words(&splitter, " .,;!? \n\t-- "), Vec::<String>::new());
}

#[test]
fn words_are_split_and_lower_cased() {
    let splitter = WordSplitter::new().unwrap();
    assert_eq!(
        split_content_into_words(&splitter, "Warsaw economy GROWS, again!"),
        strings(&["warsaw", "economy", "grows", "again"])
    );
}

#[test]
fn underscores_and_digits_stay_in_words() {
    let splitter = WordSplitter::new().unwrap();
    assert_eq!(
        split_content_into_words(&splitter, "foo_bar 42nd-street (x)"),
        strings(&["foo_bar", "42nd", "street", "x"])
    );
}

#[test]
fn leading_and_trailing_separators_leave_no_empty_word() {
    let splitter = WordSplitter::new().unwrap();
    assert_eq!(split_content_into_words(&splitter, "...Hello..."), strings(&["hello"]));
}

#[test]
fn letters_beyond_ascii_are_word_characters() {
    let splitter = WordSplitter::new().unwrap();
    assert_eq!(
        split_content_into_words(&splitter, "Łódź i Kraków"),
        strings(&["łódź", "i", "kraków"])
    );
}

#[test]
fn every_word_is_nonempty_lower_case_and_of_word_characters() {
    let splitter = WordSplitter::new().unwrap();
    let words = split_content_into_words(&splitter, "A-b_C  d9!! É?x\u{00a0}Y");
    assert_eq!(words, strings(&["a", "b_c", "d9", "é", "x", "y"]));
    for word in &words {
        assert!(!word.is_empty());
        assert!(word.chars().all(|c| c.is_alphanumeric() || c == '_'));
        assert_eq!(word.to_lowercase(), *word);
    }
}

#[test]
fn tokenizing_the_joined_words_gives_the_same_words() {
    let splitter = WordSplitter::new().unwrap();
    let words = split_content_into_words(&splitter, "Growth reported near Gdansk, this year.");
    let joined = words.join(" ");
    assert_eq!(split_content_into_words(&splitter, &joined), words);
}

#[test]
fn pieces_are_lower_cased_and_empty_ones_dropped() {
    let pieces = strings(&["", "Hello", "", "WORLD", ""]);
    assert_eq!(normalize_pieces(&pieces), strings(&["hello", "world"]));
    assert_eq!(normalize_pieces(&Vec::new()), Vec::<String>::new());
}

#[test]
fn thresholds_are_the_bits_of_the_doubles() {
    assert_eq!(FULL_SIMILARITY, 1.0f64.to_bits());
    assert_eq!(TITLE_THRESHOLD, 0.95f64.to_bits());
    assert_eq!(CONTENT_THRESHOLD, 0.95f64.to_bits());
    assert_eq!(PROXIMITY_THRESHOLD, 3);
}

#[test]
fn reaching_is_at_least() {
    assert!(reaches(5, 5));
    assert!(reaches(6, 5));
    assert!(!reaches(4, 5));
    assert!(reaches(0.96f64.to_bits(), 0.95f64.to_bits()));
    assert!(!reaches(0.94f64.to_bits(), 0.95f64.to_bits()));
}

fn doubles() -> Vec<f64> {
    vec![
        0.0,
        -0.0,
        f64::MIN_POSITIVE,
        -f64::MIN_POSITIVE,
        5e-324,
        -5e-324,
        0.5,
        -0.5,
        0.7,
        0.95,
        1.0,
        -1.0,
        1.0000000000000002,
        1.5,
        -1.5,
        f64::MAX,
        f64::MIN,
        f64::INFINITY,
        f64::NEG_INFINITY,
        f64::NAN,
        -f64::NAN,
        f64::from_bits(0x7FF0_0000_0000_0001),
        f64::from_bits(0xFFFF_FFFF_FFFF_FFFF),
    ]
}

#[test]
fn patterns_of_the_infinities_and_of_negative_zero() {
    assert_eq!(POSITIVE_INFINITY, f64::INFINITY.to_bits());
    assert_eq!(NEGATIVE_INFINITY, f64::NEG_INFINITY.to_bits());
    assert_eq!(NEGATIVE_ZERO, (-0.0f64).to_bits());
}

#[test]
fn the_order_of_patterns_is_the_order_of_the_doubles() {
    for first in doubles() {
        for second in doubles() {
            assert_eq!(
                is_at_most(first.to_bits(), second.to_bits()),
                first <= second,
                "{} <= {}",
                first,
                second
            );
            assert_eq!(
                reaches(first.to_bits(), second.to_bits()),
                first >= second,
                "{} >= {}",
                first,
                second
            );
        }
    }
}

#[test]
fn a_threshold_of_zero_or_below_is_reached_by_every_score() {
    for threshold in [0.0f64, -0.0, -0.5, -1.0, f64::MIN, f64::NEG_INFINITY] {
        assert!(fuzzy_match_city("warsaw", "warsaw", threshold.to_bits()));
        assert!(fuzzy_match_city("", "", threshold.to_bits()));
        assert!(fuzzy_match_city("warsaw", "krakow", threshold.to_bits()));
        assert!(fuzzy_match_city("abc", "xyz", threshold.to_bits()));
        assert!(fuzzy_match_city("abc", "", threshold.to_bits()));
    }
}

#[test]
fn a_threshold_that_is_no_number_is_never_reached() {
    for threshold in [f64::NAN, -f64::NAN, f64::from_bits(0xFFF0_0000_0000_0001)] {
        assert!(!fuzzy_match_city("warsaw", "warsaw", threshold.to_bits()));
        assert!(!fuzzy_match_city("warsaw", "warsaww", threshold.to_bits()));
        assert!(!fuzzy_match_city("abc", "xyz", threshold.to_bits()));
    }
}

#[test]
fn a_match_at_a_threshold_is_a_match_at_every_lower_threshold() {
    let thresholds = doubles();
    for (city, word) in [("warsaw", "warsaww"), ("warsaw", "warsaw"), ("abc", "xyz"), ("", "a")] {
        for higher in &thresholds {
            for lower in &thresholds {
                if lower <= higher && fuzzy_match_city(city, word, higher.to_bits()) {
                    assert!(
                        fuzzy_match_city(city, word, lower.to_bits()),
                        "{} {} at {} but not at {}",
                        city,
                        word,
                        higher,
                        lower
                    );
                }
            }
        }
    }
}

#[test]
fn fuzzy_match_agrees_with_the_score_compared_as_a_double() {
    for (city, word) in [("warsaw", "warsaww"), ("warsaw", "warsaw"), ("abc", "xyz"), ("", "")] {
        let score = strsim::jaro_winkler(city, word);
        for threshold in doubles() {
            assert_eq!(
                fuzzy_match_city(city, word, threshold.to_bits()),
                score >= threshold,
                "{} {} at {}",
                city,
                word,
                threshold
            );
        }
    }
}

#[test]
fn identical_texts_match_at_every_threshold_up_to_one() {
    for text in ["warsaw", "", "a", "Łódź", "new york"] {
        assert!(fuzzy_match_city(text, text, 1.0f64.to_bits()));
        assert!(fuzzy_match_city(text, text, 0.95f64.to_bits()));
        assert!(fuzzy_match_city(text, text, 0.0f64.to_bits()));
        assert!(fuzzy_match_city(text, text, (-0.0f64).to_bits()));
        assert!(fuzzy_match_city(text, text, (-0.5f64).to_bits()));
        assert!(fuzzy_match_city(text, text, f64::NEG_INFINITY.to_bits()));
    }
}

#[test]
fn identical_texts_do_not_reach_a_threshold_above_one() {
    assert!(!fuzzy_match_city("warsaw", "warsaw", 1.5f64.to_bits()));
}

#[test]
fn only_identical_texts_match_at_threshold_one() {
    assert!(!fuzzy_match_city("warsaw", "warsaww", 1.0f64.to_bits()));
    assert!(!fuzzy_match_city("warsaw", "warsa", 1.0f64.to_bits()));
    assert!(!fuzzy_match_city("abcdefghijklmnop", "abcdefghijklmnopq", 1.0f64.to_bits()));
    assert!(!fuzzy_match_city("warsaw", "", 1.0f64.to_bits()));
}

#[test]
fn close_spellings_match_at_the_title_threshold() {
    assert!(fuzzy_match_city("warsaw", "warsaww", TITLE_THRESHOLD));
    assert!(!fuzzy_match_city("warsaw", "krakow", TITLE_THRESHOLD));
    assert!(!fuzzy_match_city("krakow", "growth", TITLE_THRESHOLD));
}

#[test]
fn fuzzy_match_is_the_jaro_winkler_score_against_the_threshold() {
    // Jaro-Winkler of "cheeseburger" and "cheese fries" is about 0.866.
    assert!(fuzzy_match_city("cheeseburger", "cheese fries", 0.86f64.to_bits()));
    assert!(!fuzzy_match_city("cheeseburger", "cheese fries", 0.87f64.to_bits()));
    // Texts without a common character score 0.
    assert!(fuzzy_match_city("abc", "xyz", 0.0f64.to_bits()));
    assert!(!fuzzy_match_city("abc", "xyz", 0.01f64.to_bits()));
}

#[test]
fn sentences_end_at_full_stops() {
    assert_eq!(split_sentences("One. Two.Three"), strings(&["One", " Two", "Three"]));
    assert_eq!(split_sentences(""), strings(&[""]));
    assert_eq!(split_sentences("."), strings(&["", ""]));
    assert_eq!(split_sentences("a.."), strings(&["a", "", ""]));
    assert_eq!(split_sentences("no stop"), strings(&["no stop"]));
}

#[test]
fn distinct_words_keep_the_first_occurrence() {
    assert_eq!(
        distinct_words(&strings(&["b", "a", "b", "c", "a", "b"])),
        strings(&["b", "a", "c"])
    );
    assert_eq!(distinct_words(&Vec::new()), Vec::<String>::new());
}

#[test]
fn words_are_found_where_they_first_stand() {
    let words = strings(&["b", "a", "b"]);
    assert!(contains_word(&words, "a"));
    assert!(!contains_word(&words, "c"));
    assert_eq!(position_of_word(&words, "b"), Some(0));
    assert_eq!(position_of_word(&words, "a"), Some(1));
    assert_eq!(position_of_word(&words, "c"), None);
}
