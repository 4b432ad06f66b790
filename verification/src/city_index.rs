//! The city index: the news listed under each place.
//!
//! Places stand in the order in which they first received an item, and the
//! items of a place in the order in which they arrived. Taken as a set (the
//! places, and under each place the items as a multiset) the index depends
//! only on which entries were merged, not on their order.

use vstd::multiset::Multiset;
use vstd::prelude::*;
use crate::gazetteer::{Gazetteer, GazetteerView};
use crate::models::{
    label_of, Attribution, AttributionView, NewsByCity, NewsByCityView, NewsItem, NewsItemView,
};
use crate::processing::entry_views;
use crate::strings::lowercase_of;

verus! {

broadcast use {vstd::seq_lib::group_seq_properties, vstd::seq_lib::group_to_multiset_ensures};

/// The places of an index and, for each, the items listed under it.
pub struct IndexView {
    pub places: Seq<AttributionView>,
    pub news: Seq<Seq<NewsItemView>>,
}

impl IndexView {
    /// Every place has its list, no place stands twice, and no list is empty.
    pub open spec fn wf(self) -> bool {
        &&& self.places.len() == self.news.len()
        &&& self.places.no_duplicates()
        &&& forall|i: int| 0 <= i < self.news.len() ==> (#[trigger] self.news[i]).len() > 0
    }

    /// The index with one more item under a place. A place that the index did
    /// not hold is added after the others.
    pub open spec fn with(self, place: AttributionView, item: NewsItemView) -> IndexView {
        if self.places.contains(place) {
            let at = self.places.index_of(place);
            IndexView { places: self.places, news: self.news.update(at, self.news[at].push(item)) }
        } else {
            IndexView { places: self.places.push(place), news: self.news.push(seq![item]) }
        }
    }

    /// The index with the entries merged in, one after the other.
    pub open spec fn with_all(self, entries: Seq<(AttributionView, NewsItemView)>) -> IndexView
        decreases entries.len(),
    {
        if entries.len() == 0 {
            self
        } else {
            self.with_all(entries.drop_last()).with(entries.last().0, entries.last().1)
        }
    }

    /// The items listed under a place, without their order.
    pub open spec fn items_under(self, place: AttributionView) -> Multiset<NewsItemView> {
        if self.places.contains(place) {
            self.news[self.places.index_of(place)].to_multiset()
        } else {
            Multiset::empty()
        }
    }

    /// Whether two indexes are equal as sets: they hold the same places, and
    /// under each place the same items, each as often.
    pub open spec fn same_as_set(self, other: IndexView) -> bool {
        &&& forall|place: AttributionView|
            self.places.contains(place) <==> other.places.contains(place)
        &&& forall|place: AttributionView|
            #[trigger] self.items_under(place) == other.items_under(place)
    }
}

/// The index that holds nothing.
pub open spec fn no_news() -> IndexView {
    IndexView { places: Seq::empty(), news: Seq::empty() }
}

/// Merging an item keeps an index well-formed.
pub proof fn lemma_with_keeps_wf(index: IndexView, place: AttributionView, item: NewsItemView)
    requires
        index.wf(),
    ensures
        index.with(place, item).wf(),
{
}

/// Merging entries keeps an index well-formed.
pub proof fn lemma_with_all_keeps_wf(
    index: IndexView,
    entries: Seq<(AttributionView, NewsItemView)>,
)
    requires
        index.wf(),
    ensures
        index.with_all(entries).wf(),
    decreases entries.len(),
{
    if entries.len() > 0 {
        lemma_with_all_keeps_wf(index, entries.drop_last());
        lemma_with_keeps_wf(
            index.with_all(entries.drop_last()),
            entries.last().0,
            entries.last().1,
        );
    }
}

/// Merging first one list of entries and then another is merging the two
/// lists joined.
pub proof fn lemma_with_all_joined(
    index: IndexView,
    first: Seq<(AttributionView, NewsItemView)>,
    second: Seq<(AttributionView, NewsItemView)>,
)
    ensures
        index.with_all(first).with_all(second) == index.with_all(first + second),
    decreases second.len(),
{
    if second.len() == 0 {
        assert(first + second == first);
    } else {
        lemma_with_all_joined(index, first, second.drop_last());
        assert((first + second).drop_last() == first + second.drop_last());
        assert((first + second).last() == second.last());
    }
}

/// The items that a list of entries holds for a place, without their order.
pub open spec fn items_for(
    entries: Seq<(AttributionView, NewsItemView)>,
    place: AttributionView,
) -> Multiset<NewsItemView>
    decreases entries.len(),
{
    if entries.len() == 0 {
        Multiset::empty()
    } else {
        let earlier = items_for(entries.drop_last(), place);
        if entries.last().0 == place {
            earlier.insert(entries.last().1)
        } else {
            earlier
        }
    }
}

/// A place stands in a well-formed index exactly when items are listed under it.
pub proof fn lemma_places_hold_items(index: IndexView, place: AttributionView)
    requires
        index.wf(),
    ensures
        index.places.contains(place) <==> index.items_under(place).len() > 0,
{
    if index.places.contains(place) {
        let at = index.places.index_of(place);
        assert(index.news[at].len() > 0);
    }
}

/// Merging an item adds it to the items of its place and leaves the other
/// places as they were.
pub proof fn lemma_items_after_with(
    index: IndexView,
    place: AttributionView,
    item: NewsItemView,
    other: AttributionView,
)
    requires
        index.wf(),
    ensures
        index.with(place, item).items_under(other) == if other == place {
            index.items_under(other).insert(item)
        } else {
            index.items_under(other)
        },
{
    let grown = index.with(place, item);
    if index.places.contains(place) {
        let at = index.places.index_of(place);
        if other == place {
            assert(grown.news[at] == index.news[at].push(item));
        } else if index.places.contains(other) {
            let there = index.places.index_of(other);
            assert(grown.news[there] == index.news[there]);
        }
    } else {
        assert(grown.places[index.places.len() as int] == place);
        if other == place {
            assert(grown.places.contains(place));
            assert(grown.places.index_of(place) == index.places.len());
            assert(seq![item] == Seq::<NewsItemView>::empty().push(item));
            assert(Seq::<NewsItemView>::empty().to_multiset() == Multiset::<NewsItemView>::empty());
        } else if index.places.contains(other) {
            let there = index.places.index_of(other);
            assert(grown.places[there] == other);
            assert(grown.places.contains(other));
            lemma_with_keeps_wf(index, place, item);
            assert(grown.places.index_of(other) == there);
        } else {
            if grown.places.contains(other) {
                let k = grown.places.index_of(other);
                if k < index.places.len() {
                    assert(index.places[k] == other);
                }
            }
        }
    }
}

/// Merging entries adds to the items of each place the items that the
/// entries hold for it.
pub proof fn lemma_items_after_with_all(
    index: IndexView,
    entries: Seq<(AttributionView, NewsItemView)>,
    place: AttributionView,
)
    requires
        index.wf(),
    ensures
        index.with_all(entries).items_under(place) == index.items_under(place).add(
            items_for(entries, place),
        ),
    decreases entries.len(),
{
    if entries.len() > 0 {
        let earlier = entries.drop_last();
        lemma_items_after_with_all(index, earlier, place);
        lemma_with_all_keeps_wf(index, earlier);
        lemma_items_after_with(index.with_all(earlier), entries.last().0, entries.last().1, place);
    }
}

/// How often an item stands among the items of a place is how often the pair
/// of the place and the item stands among the entries.
pub proof fn lemma_items_for_counts(
    entries: Seq<(AttributionView, NewsItemView)>,
    place: AttributionView,
    item: NewsItemView,
)
    ensures
        items_for(entries, place).count(item) == entries.to_multiset().count((place, item)),
    decreases entries.len(),
{
    if entries.len() == 0 {
        assert(entries.to_multiset().len() == 0);
    } else {
        let earlier = entries.drop_last();
        lemma_items_for_counts(earlier, place, item);
        assert(entries == earlier.push(entries.last()));
        vstd::seq_lib::to_multiset_build(earlier, entries.last());
    }
}

/// Taken as a set, an index depends only on which entries were merged into it,
/// not on the order in which they came: two lists that hold the same entries,
/// each as often, give the same places and the same items under each place.
pub proof fn lemma_merge_order_is_immaterial(
    index: IndexView,
    first: Seq<(AttributionView, NewsItemView)>,
    second: Seq<(AttributionView, NewsItemView)>,
)
    requires
        index.wf(),
        first.to_multiset() == second.to_multiset(),
    ensures
        index.with_all(first).same_as_set(index.with_all(second)),
{
    let one = index.with_all(first);
    let other = index.with_all(second);
    lemma_with_all_keeps_wf(index, first);
    lemma_with_all_keeps_wf(index, second);
    assert forall|place: AttributionView| #[trigger]
        one.items_under(place) == other.items_under(place) by {
        lemma_items_after_with_all(index, first, place);
        lemma_items_after_with_all(index, second, place);
        assert forall|item: NewsItemView|
            items_for(first, place).count(item) == items_for(second, place).count(item) by {
            lemma_items_for_counts(first, place, item);
            lemma_items_for_counts(second, place, item);
        }
        assert(items_for(first, place) =~= items_for(second, place));
    }
    assert forall|place: AttributionView|
        one.places.contains(place) <==> other.places.contains(place) by {
        lemma_places_hold_items(one, place);
        lemma_places_hold_items(other, place);
        assert(one.items_under(place) == other.items_under(place));
    }
}

/// Every item of an index that was built of entries alone came with one of
/// the entries, and is listed under the place of that entry.
pub proof fn lemma_items_come_from_entries(
    entries: Seq<(AttributionView, NewsItemView)>,
    place: int,
    position: int,
)
    requires
        0 <= place < no_news().with_all(entries).news.len(),
        0 <= position < no_news().with_all(entries).news[place].len(),
    ensures
        no_news().with_all(entries).wf(),
        entries.contains(
            (
                no_news().with_all(entries).places[place],
                no_news().with_all(entries).news[place][position],
            ),
        ),
{
    let index = no_news().with_all(entries);
    lemma_with_all_keeps_wf(no_news(), entries);
    let at = index.places[place];
    let item = index.news[place][position];
    assert(index.places.contains(at));
    assert(index.places.index_of(at) == place);
    assert(index.news[place].contains(item));
    assert(index.items_under(at).count(item) > 0);
    lemma_items_after_with_all(no_news(), entries, at);
    lemma_items_for_counts(entries, at, item);
}

/// The output record of one place: its key, the coordinates that the
/// gazetteer has for a city's lower-cased key, and the items. The unspecified
/// location has no coordinates.
pub open spec fn record_of(
    place: AttributionView,
    news: Seq<NewsItemView>,
    gazetteer: GazetteerView,
) -> NewsByCityView {
    NewsByCityView {
        city: label_of(place),
        coordinates: match place {
            AttributionView::City(name) => gazetteer.coordinates_of(lowercase_of(name)),
            AttributionView::Unspecified => None,
        },
        news,
    }
}

/// The output records of an index, place by place.
pub open spec fn records_of(index: IndexView, gazetteer: GazetteerView) -> Seq<NewsByCityView> {
    Seq::new(
        index.places.len(),
        |i: int| record_of(index.places[i], index.news[i], gazetteer),
    )
}

/// A list of output records, as their views.
pub open spec fn record_views(records: Seq<NewsByCity>) -> Seq<NewsByCityView> {
    records.map_values(|record: NewsByCity| record@)
}

/// The items of a list of news, as their views.
pub open spec fn item_views(news: Seq<NewsItem>) -> Seq<NewsItemView> {
    news.map_values(|item: NewsItem| item@)
}

/// The news listed under each place.
pub struct CityIndex {
    places: Vec<Attribution>,
    news: Vec<Vec<NewsItem>>,
}

impl View for CityIndex {
    type V = IndexView;

    closed spec fn view(&self) -> IndexView {
        IndexView {
            places: self.places@.map_values(|place: Attribution| place@),
            news: self.news@.map_values(|list: Vec<NewsItem>| item_views(list@)),
        }
    }
}

impl CityIndex {
    /// What holds of every index.
    #[verifier::type_invariant]
    closed spec fn well_formed(self) -> bool {
        self@.wf()
    }

    /// An index without news.
    pub fn new() -> (index: CityIndex)
        ensures
            index@ == no_news(),
    {
        let index = CityIndex { places: Vec::new(), news: Vec::new() };
        assert(index@.places == Seq::<AttributionView>::empty());
        assert(index@.news == Seq::<Seq<NewsItemView>>::empty());
        index
    }

    /// The position of a place among the places of the index.
    fn position_of(&self, place: &Attribution) -> (found: Option<usize>)
        ensures
            match found {
                Some(position) => position < self.places@.len() && self@.places[position as int]
                    == place@,
                None => !self@.places.contains(place@),
            },
    {
        for i in 0..self.places.len()
            invariant
                forall|k: int| 0 <= k < i ==> self@.places[k] != place@,
        {
            if self.places[i].same_place(place) {
                return Some(i);
            }
        }
        None
    }

    /// Lists an item under a place.
    pub fn insert(self, place: Attribution, item: NewsItem) -> (grown: CityIndex)
        ensures
            grown@ == self@.with(place@, item@),
            grown@.wf(),
    {
        proof {
            use_type_invariant(&self);
        }
        let found = self.position_of(&place);
        let ghost before = self@;
        let CityIndex { mut places, mut news } = self;
        match found {
            Some(position) => {
                let mut list = news.remove(position);
                let ghost old_list = item_views(list@);
                list.push(item);
                assert(item_views(list@) == old_list.push(item@));
                news.insert(position, list);
                proof {
                    assert(before.places.contains(place@));
                    assert(before.places.index_of(place@) == position);
                    let after = IndexView {
                        places: places@.map_values(|place: Attribution| place@),
                        news: news@.map_values(|list: Vec<NewsItem>| item_views(list@)),
                    };
                    assert(after.news == before.news.update(
                        position as int,
                        before.news[position as int].push(item@),
                    ));
                }
            },
            None => {
                let mut list: Vec<NewsItem> = Vec::new();
                list.push(item);
                assert(item_views(list@) == seq![item@]);
                places.push(place);
                news.push(list);
                proof {
                    let after = IndexView {
                        places: places@.map_values(|place: Attribution| place@),
                        news: news@.map_values(|list: Vec<NewsItem>| item_views(list@)),
                    };
                    assert(after.places == before.places.push(place@));
                    assert(after.news == before.news.push(seq![item@]));
                }
            },
        }
        proof {
            lemma_with_keeps_wf(before, place@, item@);
        }
        CityIndex { places, news }
    }

    /// Merges the entries of one document into the index, one after the other.
    pub fn merge(self, updates: Vec<(Attribution, NewsItem)>) -> (grown: CityIndex)
        ensures
            grown@ == self@.with_all(entry_views(updates@)),
            grown@.wf(),
    {
        proof {
            use_type_invariant(&self);
        }
        let ghost all = entry_views(updates@);
        let ghost start = self@;
        let mut index = self;
        proof {
            assert(all.take(0) == Seq::<(AttributionView, NewsItemView)>::empty());
        }
        for update in it: updates
            invariant
                entry_views(it.seq()) == all,
                index@ == start.with_all(all.take(it.index())),
                index@.wf(),
        {
            proof {
                let done = it.index();
                assert(all[done] == (update.0@, update.1@));
                assert(all.take(done + 1).drop_last() == all.take(done));
                assert(all.take(done + 1).last() == all[done]);
            }
            let (place, item) = update;
            index = index.insert(place, item);
        }
        proof {
            assert(all.take(all.len() as int) == all);
        }
        index
    }

    /// Turns the index into the list of output records, one for each place,
    /// and looks up the coordinates of each city in the gazetteer.
    pub fn into_list(self, gazetteer: &Gazetteer) -> (list: Vec<NewsByCity>)
        ensures
            record_views(list@) == records_of(self@, gazetteer@),
    {
        proof {
            use_type_invariant(&self);
        }
        let ghost index = self@;
        let CityIndex { places, news } = self;
        let mut list: Vec<NewsByCity> = Vec::new();
        let mut at: usize = 0;
        for items in it: news
            invariant
                at == it.index(),
                places@.len() == it.seq().len(),
                index.places == places@.map_values(|place: Attribution| place@),
                index.news == it.seq().map_values(|list: Vec<NewsItem>| item_views(list@)),
                record_views(list@) == records_of(index, gazetteer@).take(at as int),
        {
            let ghost before = record_views(list@);
            assert(at < places.len());
            let coordinates = match &places[at] {
                Attribution::City(name) => gazetteer.coordinates_of(
                    name.as_str().to_lowercase().as_str(),
                ),
                Attribution::Unspecified => None,
            };
            let record = NewsByCity { city: places[at].label(), coordinates, news: items };
            proof {
                assert(record@.news == index.news[at as int]);
                assert(record@ == record_of(
                    index.places[at as int],
                    index.news[at as int],
                    gazetteer@,
                ));
            }
            list.push(record);
            proof {
                assert(record_views(list@) == before.push(record@));
                assert(records_of(index, gazetteer@).take(at + 1) == records_of(
                    index,
                    gazetteer@,
                ).take(at as int).push(record@));
            }
            at = at + 1;
        }
        proof {
            let all = records_of(index, gazetteer@);
            assert(all.take(all.len() as int) == all);
        }
        list
    }
}

} // verus!
