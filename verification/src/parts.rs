//! Lists of parts, joined, and what does not depend on the order of the parts.

use vstd::prelude::*;

verus! {

/// Lists that hold the same parts, each as often, hold after joining their
/// parts the same elements, each as often.
pub proof fn lemma_joined_parts_as_multiset<E>(first: Seq<Seq<E>>, second: Seq<Seq<E>>)
    requires
        first.to_multiset() == second.to_multiset(),
    ensures
        first.flatten().to_multiset() == second.flatten().to_multiset(),
    decreases first.len(),
{
    broadcast use vstd::seq_lib::group_to_multiset_ensures;

    if first.len() == 0 {
        vstd::seq_lib::to_multiset_len(first);
        vstd::seq_lib::to_multiset_len(second);
        assert(second.len() == 0);
        assert(first == second);
    } else {
        let part = first.last();
        assert(first == first.drop_last().push(part));
        assert(first.to_multiset().count(part) > 0);
        assert(second.contains(part));
        let at = second.index_of(part);
        let rest = second.remove(at);
        assert(first.drop_last().to_multiset() =~= first.to_multiset().remove(part));
        lemma_joined_parts_as_multiset(first.drop_last(), rest);
        first.drop_last().lemma_flatten_push(part);
        vstd::seq_lib::lemma_multiset_commutative(first.drop_last().flatten(), part);
        lemma_removed_part_as_multiset(second, at);
    }
}

/// Joining the parts of a list gives the elements of one part together with
/// what joining the other parts gives.
pub proof fn lemma_removed_part_as_multiset<E>(parts: Seq<Seq<E>>, at: int)
    requires
        0 <= at < parts.len(),
    ensures
        parts.flatten().to_multiset() == parts.remove(at).flatten().to_multiset().add(
            parts[at].to_multiset(),
        ),
    decreases parts.len(),
{
    broadcast use vstd::seq_lib::group_to_multiset_ensures;

    let earlier = parts.drop_last();
    assert(parts == earlier.push(parts.last()));
    earlier.lemma_flatten_push(parts.last());
    vstd::seq_lib::lemma_multiset_commutative(earlier.flatten(), parts.last());
    if at == parts.len() - 1 {
        assert(parts.remove(at) == earlier);
    } else {
        lemma_removed_part_as_multiset(earlier, at);
        assert(parts.remove(at) == earlier.remove(at).push(parts.last()));
        earlier.remove(at).lemma_flatten_push(parts.last());
        vstd::seq_lib::lemma_multiset_commutative(earlier.remove(at).flatten(), parts.last());
        assert(earlier[at] == parts[at]);
    }
}

/// Lists that hold the same documents, each as often, give after classifying
/// each document lists that hold the same outcomes, each as often.
pub proof fn lemma_mapped_as_multiset<D, E>(first: Seq<D>, second: Seq<D>, each: spec_fn(D) -> E)
    requires
        first.to_multiset() == second.to_multiset(),
    ensures
        first.map_values(each).to_multiset() == second.map_values(each).to_multiset(),
    decreases first.len(),
{
    broadcast use vstd::seq_lib::group_to_multiset_ensures;

    if first.len() == 0 {
        vstd::seq_lib::to_multiset_len(first);
        vstd::seq_lib::to_multiset_len(second);
        assert(second.len() == 0);
        assert(first.map_values(each) == second.map_values(each));
    } else {
        let one = first.last();
        assert(first == first.drop_last().push(one));
        assert(first.to_multiset().count(one) > 0);
        assert(second.contains(one));
        let at = second.index_of(one);
        assert(first.drop_last().to_multiset() =~= first.to_multiset().remove(one));
        lemma_mapped_as_multiset(first.drop_last(), second.remove(at), each);
        assert(first.map_values(each) == first.drop_last().map_values(each).push(each(one)));
        assert(second.remove(at).map_values(each) == second.map_values(each).remove(at));
        assert(second.map_values(each)[at] == each(one));
        assert(second.map_values(each).remove(at).to_multiset() == second.map_values(
            each,
        ).to_multiset().remove(each(one)));
        assert(second.map_values(each).to_multiset().count(each(one)) > 0);
        assert(second.map_values(each).to_multiset() =~= second.map_values(each).remove(
            at,
        ).to_multiset().insert(each(one)));
    }
}

/// A part that holds nothing adds nothing to what the parts join to.
pub proof fn lemma_empty_part_joins_to_nothing<E>(parts: Seq<Seq<E>>, at: int)
    requires
        0 <= at < parts.len(),
        parts[at].len() == 0,
    ensures
        parts.flatten() == parts.remove(at).flatten(),
    decreases parts.len(),
{
    let earlier = parts.drop_last();
    assert(parts == earlier.push(parts.last()));
    earlier.lemma_flatten_push(parts.last());
    if at == parts.len() - 1 {
        assert(parts.remove(at) == earlier);
        assert(earlier.flatten() + parts.last() == earlier.flatten());
    } else {
        lemma_empty_part_joins_to_nothing(earlier, at);
        assert(parts.remove(at) == earlier.remove(at).push(parts.last()));
        earlier.remove(at).lemma_flatten_push(parts.last());
    }
}

/// What stands in the joined parts stands in one of the parts.
pub proof fn lemma_joined_element_is_in_a_part<E>(parts: Seq<Seq<E>>, element: E)
    requires
        parts.flatten().contains(element),
    ensures
        exists|at: int| 0 <= at < parts.len() && (#[trigger] parts[at]).contains(element),
    decreases parts.len(),
{
    if parts.len() == 0 {
        assert(parts.flatten().len() == 0);
    } else {
        let earlier = parts.drop_last();
        let joined = parts.flatten();
        assert(parts == earlier.push(parts.last()));
        earlier.lemma_flatten_push(parts.last());
        let i = choose|i: int| 0 <= i < joined.len() && joined[i] == element;
        if i < earlier.flatten().len() {
            assert(earlier.flatten()[i] == element);
            lemma_joined_element_is_in_a_part(earlier, element);
            let at = choose|at: int|
                0 <= at < earlier.len() && (#[trigger] earlier[at]).contains(element);
            assert(parts[at] == earlier[at]);
        } else {
            assert(parts.last()[i - earlier.flatten().len()] == element);
            assert(parts[parts.len() - 1].contains(element));
        }
    }
}

} // verus!
