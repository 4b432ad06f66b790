//! Sentences: the parts of a body between full stops.

use vstd::prelude::*;
use vstd::std_specs::iter::IteratorSpec;

verus! {

broadcast use {vstd::string::group_string_axioms, vstd::seq_lib::group_seq_properties};

/// The character that ends a sentence.
pub const SENTENCE_END: char = '.';

/// The parts of `text` between the occurrences of `delimiter`: one part more
/// than there are delimiters, empty parts included. The last part is the one
/// that the end of the text closes.
pub open spec fn parts_between(text: Seq<char>, delimiter: char) -> Seq<Seq<char>>
    decreases text.len(),
{
    if text.len() == 0 {
        seq![Seq::<char>::empty()]
    } else {
        let earlier = parts_between(text.drop_last(), delimiter);
        if text.last() == delimiter {
            earlier.push(Seq::<char>::empty())
        } else {
            earlier.drop_last().push(earlier.last().push(text.last()))
        }
    }
}

/// The sentences of a body.
pub open spec fn sentences_of(content: Seq<char>) -> Seq<Seq<char>> {
    parts_between(content, SENTENCE_END)
}

/// Splits a body into its sentences at every full stop.
pub fn split_sentences(content: &str) -> (sentences: Vec<String>)
    ensures
        sentences.deep_view() == sentences_of(content@),
{
    let mut closed: Vec<String> = Vec::new();
    let mut open = String::new();
    let rest = content.chars();
    proof {
        assert(content@.take(0) == Seq::<char>::empty());
        assert(closed.deep_view() == Seq::<Seq<char>>::empty());
        assert(closed.deep_view().push(open@) == seq![Seq::<char>::empty()]);
    }
    for c in it: rest
        invariant
            it.seq() == content@,
            closed.deep_view().push(open@) == parts_between(
                content@.take(it.index()),
                SENTENCE_END,
            ),
    {
        let ghost seen = content@.take(it.index());
        let ghost parts = closed.deep_view();
        let ghost current = open@;
        proof {
            assert(content@.take(it.index() + 1).drop_last() == seen);
            assert(content@.take(it.index() + 1).last() == c);
            assert(parts.push(current).drop_last() == parts);
        }
        if c == SENTENCE_END {
            closed.push(open);
            open = String::new();
            assert(closed.deep_view() == parts.push(current));
        } else {
            open.push(c);
            assert(closed.deep_view() == parts);
        }
    }
    let ghost parts = closed.deep_view();
    let ghost current = open@;
    closed.push(open);
    proof {
        assert(content@.take(content@.len() as int) == content@);
        assert(closed.deep_view() == parts.push(current));
    }
    closed
}

} // verus!
