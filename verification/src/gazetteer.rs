//! The gazetteer: the known cities, found by their case-folded names.

use vstd::prelude::*;
use crate::models::{coordinates_view, City, CityView};
use crate::strings::lowercase_of;
use crate::word_set::position_of_word;

verus! {

broadcast use vstd::seq_lib::group_seq_properties;

/// The cities of a gazetteer and the key of each: its name, lower-cased.
pub struct GazetteerView {
    pub keys: Seq<Seq<char>>,
    pub cities: Seq<CityView>,
}

impl GazetteerView {
    /// Every city has its key, and no key stands twice.
    pub open spec fn wf(self) -> bool {
        &&& self.keys.len() == self.cities.len()
        &&& self.keys.no_duplicates()
        &&& forall|i: int|
            0 <= i < self.keys.len() ==> #[trigger] self.keys[i] == lowercase_of(
                self.cities[i].name,
            )
    }

    /// The gazetteer with one more city. A city whose key is known already
    /// takes the place of the one that had it.
    pub open spec fn with(self, city: CityView) -> GazetteerView {
        let key = lowercase_of(city.name);
        if self.keys.contains(key) {
            GazetteerView {
                keys: self.keys,
                cities: self.cities.update(self.keys.index_of(key), city),
            }
        } else {
            GazetteerView { keys: self.keys.push(key), cities: self.cities.push(city) }
        }
    }

    /// The coordinates of the city with this key, if there is one.
    pub open spec fn coordinates_of(self, key: Seq<char>) -> Option<Seq<u64>> {
        if self.keys.contains(key) {
            Some(self.cities[self.keys.index_of(key)].coordinates)
        } else {
            None
        }
    }
}

/// The gazetteer that holds nothing.
pub open spec fn no_cities() -> GazetteerView {
    GazetteerView { keys: Seq::empty(), cities: Seq::empty() }
}

/// The gazetteer made of a list of cities, taken in one by one.
pub open spec fn gazetteer_of(cities: Seq<CityView>) -> GazetteerView
    decreases cities.len(),
{
    if cities.len() == 0 {
        no_cities()
    } else {
        gazetteer_of(cities.drop_last()).with(cities.last())
    }
}

/// Taking in a city keeps a gazetteer well-formed.
pub proof fn lemma_with_keeps_wf(gazetteer: GazetteerView, city: CityView)
    requires
        gazetteer.wf(),
    ensures
        gazetteer.with(city).wf(),
{
}

/// Every gazetteer made of a list is well-formed.
pub proof fn lemma_gazetteer_of_wf(cities: Seq<CityView>)
    ensures
        gazetteer_of(cities).wf(),
    decreases cities.len(),
{
    if cities.len() > 0 {
        lemma_gazetteer_of_wf(cities.drop_last());
        lemma_with_keeps_wf(gazetteer_of(cities.drop_last()), cities.last());
    }
}

/// The cities of a list, as their views.
pub open spec fn city_views(cities: Seq<City>) -> Seq<CityView> {
    cities.map_values(|city: City| city@)
}

/// The known cities, each under its case-folded name.
pub struct Gazetteer {
    keys: Vec<String>,
    cities: Vec<City>,
}

impl View for Gazetteer {
    type V = GazetteerView;

    closed spec fn view(&self) -> GazetteerView {
        GazetteerView { keys: self.keys.deep_view(), cities: city_views(self.cities@) }
    }
}

impl Gazetteer {
    /// What holds of every gazetteer.
    #[verifier::type_invariant]
    closed spec fn well_formed(self) -> bool {
        self@.wf()
    }

    /// A gazetteer without cities.
    pub fn new() -> (gazetteer: Gazetteer)
        ensures
            gazetteer@ == no_cities(),
    {
        let gazetteer = Gazetteer { keys: Vec::new(), cities: Vec::new() };
        assert(gazetteer@.keys == Seq::<Seq<char>>::empty());
        assert(gazetteer@.cities == Seq::<CityView>::empty());
        gazetteer
    }

    /// Takes in a city under its lower-cased name.
    pub fn insert(self, city: City) -> (grown: Gazetteer)
        ensures
            grown@ == self@.with(city@),
    {
        proof {
            use_type_invariant(&self);
        }
        let Gazetteer { mut keys, mut cities } = self;
        let key = city.name.as_str().to_lowercase();
        let ghost before = GazetteerView { keys: keys.deep_view(), cities: city_views(cities@) };
        match position_of_word(&keys, key.as_str()) {
            Some(position) => {
                cities.set(position, city);
                proof {
                    assert(before.keys.contains(key@));
                    assert(before.keys.index_of(key@) == position);
                    assert(city_views(cities@) == before.cities.update(position as int, city@));
                }
            },
            None => {
                keys.push(key);
                cities.push(city);
                proof {
                    assert(keys.deep_view() == before.keys.push(key@));
                    assert(city_views(cities@) == before.cities.push(city@));
                }
            },
        }
        proof {
            lemma_with_keeps_wf(before, city@);
        }
        Gazetteer { keys, cities }
    }

    /// Builds the gazetteer of a list of cities. Of two cities with the same
    /// lower-cased name the later one stays.
    pub fn from_cities(cities: Vec<City>) -> (gazetteer: Gazetteer)
        ensures
            gazetteer@ == gazetteer_of(city_views(cities@)),
    {
        let mut gazetteer = Gazetteer::new();
        let ghost all = city_views(cities@);
        proof {
            assert(all.take(0) == Seq::<CityView>::empty());
        }
        for city in it: cities
            invariant
                city_views(it.seq()) == all,
                gazetteer@ == gazetteer_of(all.take(it.index())),
        {
            proof {
                let done = it.index();
                assert(city@ == all[done]);
                assert(all.take(done + 1).drop_last() == all.take(done));
                assert(all.take(done + 1).last() == all[done]);
            }
            gazetteer = gazetteer.insert(city);
        }
        proof {
            assert(all.take(all.len() as int) == all);
        }
        gazetteer
    }

    /// The keys of the cities, in the order in which they were first taken in.
    pub fn keys(&self) -> (keys: &Vec<String>)
        ensures
            keys.deep_view() == self@.keys,
            self@.wf(),
    {
        proof {
            use_type_invariant(self);
        }
        &self.keys
    }

    /// The coordinates of the city with this key, if there is one.
    pub fn coordinates_of(&self, key: &str) -> (coordinates: Option<Vec<u64>>)
        ensures
            coordinates_view(coordinates) == self@.coordinates_of(key@),
    {
        proof {
            use_type_invariant(self);
        }
        match position_of_word(&self.keys, key) {
            Some(position) => {
                assert(self@.keys.contains(key@));
                assert(self@.keys.index_of(key@) == position);
                let found = self.cities[position].loc.coordinates.clone();
                assert(found@ == self.cities@[position as int].loc.coordinates@);
                Some(found)
            },
            None => None,
        }
    }
}

} // verus!
