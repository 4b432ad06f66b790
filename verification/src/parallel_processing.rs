//! The aggregator: classifies every document and merges what they add into
//! one index.
//!
//! The documents are classified independently of each other, by a pool of
//! workers. What each adds is then merged in the order of the documents, so
//! the outcome does not depend on how the work was spread.

use vstd::prelude::*;
use rayon::iter::{IntoParallelRefIterator, ParallelIterator};
use crate::city_index::{no_news, record_views, records_of, CityIndex, IndexView};
use crate::gazetteer::Gazetteer;
use crate::link_context::{selected_texts, LinkContext, ANCHOR_SELECTOR};
use crate::models::{
    news_item_of, Attribution, AttributionView, Document, DocumentView, NewsByCity, NewsItem,
    NewsItemView,
};
use crate::processing::{attributions, entries_for, entry_views, process_entry};
use crate::parts::{
    lemma_empty_part_joins_to_nothing, lemma_joined_element_is_in_a_part,
    lemma_joined_parts_as_multiset, lemma_mapped_as_multiset,
};
use crate::text_processing::WordSplitter;

verus! {

broadcast use vstd::seq_lib::group_seq_properties;

/// What one document adds to the index. A document without a body adds
/// nothing, and neither does one whose anchors cannot be read.
pub open spec fn document_entries(
    splitter: WordSplitter,
    document: DocumentView,
    keywords: Seq<Seq<char>>,
    names: Seq<Seq<char>>,
    fuzzy_threshold_title: u64,
    fuzzy_threshold_content: u64,
    proximity_threshold: int,
    parse_content: bool,
    relaxed: bool,
) -> Seq<(AttributionView, NewsItemView)> {
    match document.content {
        Some(content) => match selected_texts(content, ANCHOR_SELECTOR@) {
            Some(anchor_texts) => entries_for(
                attributions(
                    splitter,
                    document.entry.title,
                    content,
                    anchor_texts,
                    keywords,
                    names,
                    fuzzy_threshold_title,
                    fuzzy_threshold_content,
                    proximity_threshold,
                    parse_content,
                    relaxed,
                ),
                document.entry,
            ),
            None => Seq::empty(),
        },
        None => Seq::empty(),
    }
}

/// What a document adds to the index, as a function of the document alone.
pub open spec fn entries_of(
    splitter: WordSplitter,
    keywords: Seq<Seq<char>>,
    names: Seq<Seq<char>>,
    fuzzy_threshold_title: u64,
    fuzzy_threshold_content: u64,
    proximity_threshold: int,
    parse_content: bool,
    relaxed: bool,
) -> spec_fn(DocumentView) -> Seq<(AttributionView, NewsItemView)> {
    |document: DocumentView|
        document_entries(
            splitter,
            document,
            keywords,
            names,
            fuzzy_threshold_title,
            fuzzy_threshold_content,
            proximity_threshold,
            parse_content,
            relaxed,
        )
}

/// What the documents add to the index, document after document.
pub open spec fn all_entries(
    splitter: WordSplitter,
    documents: Seq<DocumentView>,
    keywords: Seq<Seq<char>>,
    names: Seq<Seq<char>>,
    fuzzy_threshold_title: u64,
    fuzzy_threshold_content: u64,
    proximity_threshold: int,
    parse_content: bool,
    relaxed: bool,
) -> Seq<(AttributionView, NewsItemView)> {
    documents.map_values(
        entries_of(
            splitter,
            keywords,
            names,
            fuzzy_threshold_title,
            fuzzy_threshold_content,
            proximity_threshold,
            parse_content,
            relaxed,
        ),
    ).flatten()
}

/// A list of documents, as their views.
pub open spec fn document_views(documents: Seq<Document>) -> Seq<DocumentView> {
    documents.map_values(|document: Document| document@)
}

/// Classifies one document that was handed over with or without its body.
pub fn classify_document(
    document: &Document,
    splitter: &WordSplitter,
    keywords: &Vec<String>,
    gazetteer: &Gazetteer,
    fuzzy_threshold_title: u64,
    fuzzy_threshold_content: u64,
    proximity_threshold: usize,
    parse_content: bool,
    relaxed: bool,
) -> (updates: Vec<(Attribution, NewsItem)>)
    ensures
        entry_views(updates@) == document_entries(
            *splitter,
            document@,
            keywords.deep_view(),
            gazetteer@.keys,
            fuzzy_threshold_title,
            fuzzy_threshold_content,
            proximity_threshold as int,
            parse_content,
            relaxed,
        ),
{
    match &document.content {
        Some(content) => match LinkContext::parse(content.as_str()) {
            Some(links) => process_entry(
                &document.entry,
                content.as_str(),
                &links,
                splitter,
                keywords,
                gazetteer,
                fuzzy_threshold_title,
                fuzzy_threshold_content,
                proximity_threshold,
                parse_content,
                relaxed,
            ),
            None => {
                let updates: Vec<(Attribution, NewsItem)> = Vec::new();
                assert(entry_views(updates@) == Seq::<(AttributionView, NewsItemView)>::empty());
                updates
            },
        },
        None => {
            let updates: Vec<(Attribution, NewsItem)> = Vec::new();
            assert(entry_views(updates@) == Seq::<(AttributionView, NewsItemView)>::empty());
            updates
        },
    }
}

/// `par_iter`, `map` and `collect` of rayon: every document is classified by
/// [`classify_document`], on whichever worker takes it, and the outcomes are
/// collected into a vector in the order of the documents.
#[verifier::external_body]
fn classify_each(
    documents: &Vec<Document>,
    splitter: &WordSplitter,
    keywords: &Vec<String>,
    gazetteer: &Gazetteer,
    fuzzy_threshold_title: u64,
    fuzzy_threshold_content: u64,
    proximity_threshold: usize,
    parse_content: bool,
    relaxed: bool,
) -> (outcomes: Vec<Vec<(Attribution, NewsItem)>>)
    ensures
        outcomes@.len() == documents@.len(),
        forall|i: int|
            0 <= i < documents@.len() ==> entry_views((#[trigger] outcomes@[i])@)
                == document_entries(
                *splitter,
                documents@[i]@,
                keywords.deep_view(),
                gazetteer@.keys,
                fuzzy_threshold_title,
                fuzzy_threshold_content,
                proximity_threshold as int,
                parse_content,
                relaxed,
            ),
{
    documents.par_iter().map(
        |document| {
            classify_document(
                document,
                splitter,
                keywords,
                gazetteer,
                fuzzy_threshold_title,
                fuzzy_threshold_content,
                proximity_threshold,
                parse_content,
                relaxed,
            )
        },
    ).collect()
}

/// The outcomes of classifying documents, as lists of (place, item) pairs of views.
pub open spec fn outcome_views(outcomes: Seq<Vec<(Attribution, NewsItem)>>) -> Seq<
    Seq<(AttributionView, NewsItemView)>,
> {
    outcomes.map_values(|updates: Vec<(Attribution, NewsItem)>| entry_views(updates@))
}

/// Merges what each document adds, in the order of the documents.
pub fn merge_outcomes(outcomes: Vec<Vec<(Attribution, NewsItem)>>) -> (index: CityIndex)
    ensures
        index@ == no_news().with_all(outcome_views(outcomes@).flatten()),
        index@.wf(),
{
    let ghost all = outcome_views(outcomes@);
    let mut index = CityIndex::new();
    proof {
        assert(all.take(0) == Seq::<Seq<(AttributionView, NewsItemView)>>::empty());
        assert(all.take(0).flatten() == Seq::<(AttributionView, NewsItemView)>::empty());
    }
    for updates in it: outcomes
        invariant
            outcome_views(it.seq()) == all,
            index@ == no_news().with_all(all.take(it.index()).flatten()),
            index@.wf(),
    {
        proof {
            let done = it.index();
            assert(all[done] == entry_views(updates@));
            assert(all.take(done + 1) == all.take(done).push(all[done]));
            all.take(done).lemma_flatten_push(all[done]);
            crate::city_index::lemma_with_all_joined(
                no_news(),
                all.take(done).flatten(),
                all[done],
            );
        }
        index = index.merge(updates);
    }
    proof {
        assert(all.take(all.len() as int) == all);
    }
    index
}

/// The index that the documents give.
pub open spec fn index_of(
    splitter: WordSplitter,
    documents: Seq<DocumentView>,
    keywords: Seq<Seq<char>>,
    names: Seq<Seq<char>>,
    fuzzy_threshold_title: u64,
    fuzzy_threshold_content: u64,
    proximity_threshold: int,
    parse_content: bool,
    relaxed: bool,
) -> IndexView {
    no_news().with_all(
        all_entries(
            splitter,
            documents,
            keywords,
            names,
            fuzzy_threshold_title,
            fuzzy_threshold_content,
            proximity_threshold,
            parse_content,
            relaxed,
        ),
    )
}

/// Classifies all documents on a pool of workers and returns the index they
/// give as a list of output records, with the coordinates of each city.
///
/// A document whose body is missing is passed over; the others are not
/// affected by it.
pub fn run_in_parallel(
    documents: &Vec<Document>,
    keywords: &Vec<String>,
    gazetteer: &Gazetteer,
    splitter: &WordSplitter,
    fuzzy_threshold_title: u64,
    fuzzy_threshold_content: u64,
    proximity_threshold: usize,
    parse_content: bool,
    relaxed: bool,
) -> (news_by_city: Vec<NewsByCity>)
    ensures
        record_views(news_by_city@) == records_of(
            index_of(
                *splitter,
                document_views(documents@),
                keywords.deep_view(),
                gazetteer@.keys,
                fuzzy_threshold_title,
                fuzzy_threshold_content,
                proximity_threshold as int,
                parse_content,
                relaxed,
            ),
            gazetteer@,
        ),
{
    let outcomes = classify_each(
        documents,
        splitter,
        keywords,
        gazetteer,
        fuzzy_threshold_title,
        fuzzy_threshold_content,
        proximity_threshold,
        parse_content,
        relaxed,
    );
    proof {
        let given = outcome_views(outcomes@);
        let owed = document_views(documents@).map_values(
            entries_of(
                *splitter,
                keywords.deep_view(),
                gazetteer@.keys,
                fuzzy_threshold_title,
                fuzzy_threshold_content,
                proximity_threshold as int,
                parse_content,
                relaxed,
            ),
        );
        assert(given == owed);
    }
    merge_outcomes(outcomes).into_list(gazetteer)
}

/// The index does not depend, as a set, on the order in which the documents
/// are taken: two lists that hold the same documents, each as often, give the
/// same places and under each place the same items.
pub proof fn lemma_document_order_is_immaterial(
    splitter: WordSplitter,
    first: Seq<DocumentView>,
    second: Seq<DocumentView>,
    keywords: Seq<Seq<char>>,
    names: Seq<Seq<char>>,
    fuzzy_threshold_title: u64,
    fuzzy_threshold_content: u64,
    proximity_threshold: int,
    parse_content: bool,
    relaxed: bool,
)
    requires
        first.to_multiset() == second.to_multiset(),
    ensures
        index_of(
            splitter,
            first,
            keywords,
            names,
            fuzzy_threshold_title,
            fuzzy_threshold_content,
            proximity_threshold,
            parse_content,
            relaxed,
        ).same_as_set(
            index_of(
                splitter,
                second,
                keywords,
                names,
                fuzzy_threshold_title,
                fuzzy_threshold_content,
                proximity_threshold,
                parse_content,
                relaxed,
            ),
        ),
{
    let each = entries_of(
        splitter,
        keywords,
        names,
        fuzzy_threshold_title,
        fuzzy_threshold_content,
        proximity_threshold,
        parse_content,
        relaxed,
    );
    lemma_mapped_as_multiset(first, second, each);
    lemma_joined_parts_as_multiset(first.map_values(each), second.map_values(each));
    crate::city_index::lemma_merge_order_is_immaterial(
        no_news(),
        first.map_values(each).flatten(),
        second.map_values(each).flatten(),
    );
}

/// A document without a body adds nothing to the index.
pub proof fn lemma_missing_body_adds_nothing(
    splitter: WordSplitter,
    document: DocumentView,
    keywords: Seq<Seq<char>>,
    names: Seq<Seq<char>>,
    fuzzy_threshold_title: u64,
    fuzzy_threshold_content: u64,
    proximity_threshold: int,
    parse_content: bool,
    relaxed: bool,
)
    requires
        document.content is None,
    ensures
        document_entries(
            splitter,
            document,
            keywords,
            names,
            fuzzy_threshold_title,
            fuzzy_threshold_content,
            proximity_threshold,
            parse_content,
            relaxed,
        ) == Seq::<(AttributionView, NewsItemView)>::empty(),
{
}

/// A document without a body leaves no trace: the index of the documents is
/// the index of the other documents alone.
pub proof fn lemma_missing_document_leaves_no_trace(
    splitter: WordSplitter,
    documents: Seq<DocumentView>,
    missing: int,
    keywords: Seq<Seq<char>>,
    names: Seq<Seq<char>>,
    fuzzy_threshold_title: u64,
    fuzzy_threshold_content: u64,
    proximity_threshold: int,
    parse_content: bool,
    relaxed: bool,
)
    requires
        0 <= missing < documents.len(),
        documents[missing].content is None,
    ensures
        index_of(
            splitter,
            documents,
            keywords,
            names,
            fuzzy_threshold_title,
            fuzzy_threshold_content,
            proximity_threshold,
            parse_content,
            relaxed,
        ) == index_of(
            splitter,
            documents.remove(missing),
            keywords,
            names,
            fuzzy_threshold_title,
            fuzzy_threshold_content,
            proximity_threshold,
            parse_content,
            relaxed,
        ),
{
    let each = entries_of(
        splitter,
        keywords,
        names,
        fuzzy_threshold_title,
        fuzzy_threshold_content,
        proximity_threshold,
        parse_content,
        relaxed,
    );
    let parts = documents.map_values(each);
    assert(parts[missing] == Seq::<(AttributionView, NewsItemView)>::empty());
    assert(documents.remove(missing).map_values(each) == parts.remove(missing));
    lemma_empty_part_joins_to_nothing(parts, missing);
}

/// Every item of the index is the projection of the metadata of one of the
/// documents, and of one that has a body: a document without a body is
/// listed nowhere.
pub proof fn lemma_items_are_projections_of_read_documents(
    splitter: WordSplitter,
    documents: Seq<DocumentView>,
    keywords: Seq<Seq<char>>,
    names: Seq<Seq<char>>,
    fuzzy_threshold_title: u64,
    fuzzy_threshold_content: u64,
    proximity_threshold: int,
    parse_content: bool,
    relaxed: bool,
    place: int,
    position: int,
)
    requires
        0 <= place < index_of(
            splitter,
            documents,
            keywords,
            names,
            fuzzy_threshold_title,
            fuzzy_threshold_content,
            proximity_threshold,
            parse_content,
            relaxed,
        ).news.len(),
        0 <= position < index_of(
            splitter,
            documents,
            keywords,
            names,
            fuzzy_threshold_title,
            fuzzy_threshold_content,
            proximity_threshold,
            parse_content,
            relaxed,
        ).news[place].len(),
    ensures
        exists|d: int|
            0 <= d < documents.len() && (#[trigger] documents[d]).content is Some && index_of(
                splitter,
                documents,
                keywords,
                names,
                fuzzy_threshold_title,
                fuzzy_threshold_content,
                proximity_threshold,
                parse_content,
                relaxed,
            ).news[place][position] == news_item_of(documents[d].entry),
{
    let each = entries_of(
        splitter,
        keywords,
        names,
        fuzzy_threshold_title,
        fuzzy_threshold_content,
        proximity_threshold,
        parse_content,
        relaxed,
    );
    let parts = documents.map_values(each);
    let index = no_news().with_all(parts.flatten());
    let entry = (index.places[place], index.news[place][position]);
    crate::city_index::lemma_items_come_from_entries(parts.flatten(), place, position);
    lemma_joined_element_is_in_a_part(parts, entry);
    let d = choose|d: int| 0 <= d < parts.len() && (#[trigger] parts[d]).contains(entry);
    let at = parts[d].index_of(entry);
    assert(parts[d] == each(documents[d]));
    assert(parts[d][at] == entry);
    assert(documents[d].content is Some);
    assert(entry.1 == news_item_of(documents[d].entry));
}

} // verus!
