//! The records that flow through classification, each with its mathematical view.
//!
//! Strings are viewed as sequences of characters. Coordinates are carried as the
//! bit patterns of IEEE-754 doubles: the library never computes on them, it only
//! hands them from the gazetteer to the output.

use vstd::prelude::*;

verus! {

/// The key under which news without an attributed city is listed in the output.
pub const UNSPECIFIED_LOCATION: &'static str = "UNSPECIFIED_LOCATION";

/// Where a gazetteer city lies: latitude and longitude, as bit patterns of doubles.
#[derive(Debug, Clone, PartialEq, Eq)]
pub struct Location {
    pub coordinates: Vec<u64>,
}

/// One city of the gazetteer.
#[derive(Debug, Clone, PartialEq, Eq)]
pub struct City {
    pub name: String,
    pub loc: Location,
}

pub struct CityView {
    pub name: Seq<char>,
    pub coordinates: Seq<u64>,
}

impl View for City {
    type V = CityView;

    open spec fn view(&self) -> CityView {
        CityView { name: self.name@, coordinates: self.loc.coordinates@ }
    }
}

/// What is known of a collected document besides its body.
#[derive(Debug, Clone, PartialEq, Eq)]
pub struct MetadataEntry {
    pub filepath: String,
    pub title: String,
    pub url: String,
    pub collection_date: String,
}

pub struct MetadataEntryView {
    pub filepath: Seq<char>,
    pub title: Seq<char>,
    pub url: Seq<char>,
    pub collection_date: Seq<char>,
}

impl View for MetadataEntry {
    type V = MetadataEntryView;

    open spec fn view(&self) -> MetadataEntryView {
        MetadataEntryView {
            filepath: self.filepath@,
            title: self.title@,
            url: self.url@,
            collection_date: self.collection_date@,
        }
    }
}

/// A document as it is listed under a city.
#[derive(Debug, Clone, PartialEq, Eq)]
pub struct NewsItem {
    pub title: String,
    pub link: String,
    pub filepath: String,
    pub collection_date: String,
}

pub struct NewsItemView {
    pub title: Seq<char>,
    pub link: Seq<char>,
    pub filepath: Seq<char>,
    pub collection_date: Seq<char>,
}

impl View for NewsItem {
    type V = NewsItemView;

    open spec fn view(&self) -> NewsItemView {
        NewsItemView {
            title: self.title@,
            link: self.link@,
            filepath: self.filepath@,
            collection_date: self.collection_date@,
        }
    }
}

/// The news item that lists the document described by `entry`.
pub open spec fn news_item_of(entry: MetadataEntryView) -> NewsItemView {
    NewsItemView {
        title: entry.title,
        link: entry.url,
        filepath: entry.filepath,
        collection_date: entry.collection_date,
    }
}

impl NewsItem {
    /// Projects a metadata record onto the item that is listed for it.
    pub fn from_entry(entry: &MetadataEntry) -> (item: NewsItem)
        ensures
            item@ == news_item_of(entry@),
    {
        NewsItem {
            title: entry.title.clone(),
            link: entry.url.clone(),
            filepath: entry.filepath.clone(),
            collection_date: entry.collection_date.clone(),
        }
    }

    /// A copy with the same four texts.
    pub fn duplicate(&self) -> (copy: NewsItem)
        ensures
            copy@ == self@,
    {
        NewsItem {
            title: self.title.clone(),
            link: self.link.clone(),
            filepath: self.filepath.clone(),
            collection_date: self.collection_date.clone(),
        }
    }
}

/// The place a document is attributed to: a gazetteer city, named by its
/// case-folded key, or no city at all.
#[derive(Debug, Clone, PartialEq, Eq)]
pub enum Attribution {
    City(String),
    Unspecified,
}

pub enum AttributionView {
    City(Seq<char>),
    Unspecified,
}

impl View for Attribution {
    type V = AttributionView;

    open spec fn view(&self) -> AttributionView {
        match self {
            Attribution::City(name) => AttributionView::City(name@),
            Attribution::Unspecified => AttributionView::Unspecified,
        }
    }
}

/// The output key of an attribution: the city's key, or the sentinel.
pub open spec fn label_of(place: AttributionView) -> Seq<char> {
    match place {
        AttributionView::City(name) => name,
        AttributionView::Unspecified => UNSPECIFIED_LOCATION@,
    }
}

impl Attribution {
    /// Whether two attributions name the same place.
    pub fn same_place(&self, other: &Attribution) -> (same: bool)
        ensures
            same == (self@ == other@),
    {
        match (self, other) {
            (Attribution::City(a), Attribution::City(b)) => a.as_str().eq(b.as_str()),
            (Attribution::Unspecified, Attribution::Unspecified) => true,
            _ => false,
        }
    }

    /// A copy that names the same place.
    pub fn duplicate(&self) -> (copy: Attribution)
        ensures
            copy@ == self@,
    {
        match self {
            Attribution::City(name) => Attribution::City(name.clone()),
            Attribution::Unspecified => Attribution::Unspecified,
        }
    }

    /// The key under which the attribution is listed in the output.
    pub fn label(&self) -> (text: String)
        ensures
            text@ == label_of(self@),
    {
        match self {
            Attribution::City(name) => name.clone(),
            Attribution::Unspecified => UNSPECIFIED_LOCATION.to_owned(),
        }
    }
}

/// One record of the output: a key, the city's coordinates where the gazetteer
/// knows the key, and the news listed under it.
#[derive(Debug, Clone, PartialEq, Eq)]
pub struct NewsByCity {
    pub city: String,
    pub coordinates: Option<Vec<u64>>,
    pub news: Vec<NewsItem>,
}

/// Coordinates that may be missing, as their view.
pub open spec fn coordinates_view(coordinates: Option<Vec<u64>>) -> Option<Seq<u64>> {
    match coordinates {
        Some(numbers) => Some(numbers@),
        None => None,
    }
}

pub struct NewsByCityView {
    pub city: Seq<char>,
    pub coordinates: Option<Seq<u64>>,
    pub news: Seq<NewsItemView>,
}

impl View for NewsByCity {
    type V = NewsByCityView;

    open spec fn view(&self) -> NewsByCityView {
        NewsByCityView {
            city: self.city@,
            coordinates: coordinates_view(self.coordinates),
            news: self.news@.map_values(|item: NewsItem| item@),
        }
    }
}

/// A document handed over for classification: its metadata and its body, or no
/// body where the file could not be read.
#[derive(Debug, Clone, PartialEq, Eq)]
pub struct Document {
    pub entry: MetadataEntry,
    pub content: Option<String>,
}

pub struct DocumentView {
    pub entry: MetadataEntryView,
    pub content: Option<Seq<char>>,
}

impl View for Document {
    type V = DocumentView;

    open spec fn view(&self) -> DocumentView {
        DocumentView {
            entry: self.entry@,
            content: match self.content {
                Some(text) => Some(text@),
                None => None,
            },
        }
    }
}

} // verus!
