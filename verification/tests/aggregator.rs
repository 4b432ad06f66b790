use city_news::city_index::CityIndex;
use city_news::file_io::decode_content;
use city_news::gazetteer::Gazetteer;
use city_news::models::{
    Attribution, City, Document, Location, MetadataEntry, NewsByCity, NewsItem,
    UNSPECIFIED_LOCATION,
};
use city_news::parallel_processing::{classify_document, merge_outcomes, run_in_parallel};
use city_news::processing::{CONTENT_THRESHOLD, PROXIMITY_THRESHOLD, TITLE_THRESHOLD};
use city_news::text_processing::WordSplitter;

fn city(name: &str, lat: f64, lon: f64) -> City {
    City { name: name.to_string(), loc: Location { coordinates: vec![lat.to_bits(), lon.to_bits()] } }
}

fn poland() -> Gazetteer {
    Gazetteer::from_cities(vec![
        city("Warsaw", 52.23, 21.01),
        city("Krakow", 50.06, 19.94),
        city("Gdansk", 54.35, 18.65),
    ])
}

fn entry(number: usize, title: &str) -> MetadataEntry {
    MetadataEntry {
        filepath: format!("data/{}.html", number),
        title: title.to_string(),
        url: format!("https://example.org/{}", number),
        collection_date: "2024-01-01".to_string(),
    }
}

fn item(number: usize, title: &str) -> NewsItem {
    NewsItem {
        title: title.to_string(),
        link: format!("https://example.org/{}", number),
        filepath: format!("data/{}.html", number),
        collection_date: "2024-01-01".to_string(),
    }
}

fn document(number: usize, title: &str, content: Option<&str>) -> Document {
    Document { entry: entry(number, title), content: content.map(|text| text.to_string()) }
}

fn corpus() -> Vec<Document> {
    vec![
        document(0, "Warsaw economy grows", Some("")),
        document(1, "Local news today", Some("Nothing grows here.")),
        document(2, "Quarterly report", Some("Economy grows near Gdansk this year.")),
        document(3, "Weather", Some("Rain in Krakow.")),
        document(4, "Warsaw again grows", Some("")),
        document(5, "Krakow grows", None),
    ]
}

fn run(documents: &Vec<Document>) -> Vec<NewsByCity> {
    let splitter = WordSplitter::new().unwrap();
    run_in_parallel(
        documents,
        &vec!["grows".to_string()],
        &poland(),
        &splitter,
        TITLE_THRESHOLD,
        CONTENT_THRESHOLD,
        PROXIMITY_THRESHOLD,
        true,
        true,
    )
}

fn as_set(mut list: Vec<NewsByCity>) -> Vec<(String, Option<Vec<u64>>, Vec<String>)> {
    list.sort_by(|a, b| a.city.cmp(&b.city));
    list.into_iter()
        .map(|record| {
            let mut files: Vec<String> =
                record.news.into_iter().map(|news| news.filepath).collect();
            files.sort();
            (record.city, record.coordinates, files)
        })
        .collect()
}

#[test]
fn documents_are_listed_under_their_cities() {
    let list = run(&corpus());
    assert_eq!(
        list,
        vec![
            NewsByCity {
                city: "warsaw".to_string(),
                coordinates: Some(vec![52.23f64.to_bits(), 21.01f64.to_bits()]),
                news: vec![item(0, "Warsaw economy grows"), item(4, "Warsaw again grows")],
            },
            NewsByCity {
                city: UNSPECIFIED_LOCATION.to_string(),
                coordinates: None,
                news: vec![item(1, "Local news today")],
            },
            NewsByCity {
                city: "gdansk".to_string(),
                coordinates: Some(vec![54.35f64.to_bits(), 18.65f64.to_bits()]),
                news: vec![item(2, "Quarterly report")],
            },
        ]
    );
}

#[test]
fn no_documents_give_no_records() {
    assert_eq!(run(&Vec::new()), Vec::<NewsByCity>::new());
}

#[test]
fn the_pool_gives_what_one_document_after_the_other_gives() {
    let documents = corpus();
    let splitter = WordSplitter::new().unwrap();
    let gazetteer = poland();
    let keywords = vec!["grows".to_string()];
    let mut index = CityIndex::new();
    for document in &documents {
        index = index.merge(classify_document(
            document,
            &splitter,
            &keywords,
            &gazetteer,
            TITLE_THRESHOLD,
            CONTENT_THRESHOLD,
            PROXIMITY_THRESHOLD,
            true,
            true,
        ));
    }
    assert_eq!(index.into_list(&gazetteer), run(&documents));
}

#[test]
fn the_order_of_the_documents_changes_the_index_only_in_its_order() {
    let documents = corpus();
    let mut reversed = corpus();
    reversed.reverse();
    let mut rotated = corpus();
    rotated.rotate_left(2);
    let expected = as_set(run(&documents));
    assert_eq!(as_set(run(&reversed)), expected);
    assert_eq!(as_set(run(&rotated)), expected);
    assert_ne!(run(&reversed), run(&documents));
}

#[test]
fn a_large_corpus_is_listed_in_the_order_of_its_documents() {
    let mut documents = Vec::new();
    let mut expected = Vec::new();
    for number in 0..500 {
        documents.push(document(number, "Krakow grows", Some("")));
        expected.push(item(number, "Krakow grows"));
    }
    let list = run(&documents);
    assert_eq!(list.len(), 1);
    assert_eq!(list[0].city, "krakow");
    assert_eq!(list[0].news, expected);
}

#[test]
fn a_document_without_body_is_passed_over() {
    let with_missing = corpus();
    let mut without: Vec<Document> = corpus();
    without.remove(5);
    assert_eq!(run(&with_missing), run(&without));
    let splitter = WordSplitter::new().unwrap();
    let updates = classify_document(
        &document(5, "Krakow grows", None),
        &splitter,
        &vec!["grows".to_string()],
        &poland(),
        TITLE_THRESHOLD,
        CONTENT_THRESHOLD,
        PROXIMITY_THRESHOLD,
        true,
        true,
    );
    assert!(updates.is_empty());
}

#[test]
fn only_missing_documents_give_no_records() {
    let documents = vec![document(0, "Krakow grows", None), document(1, "Warsaw grows", None)];
    assert_eq!(run(&documents), Vec::<NewsByCity>::new());
}

#[test]
fn index_lists_items_under_places_in_order_of_arrival() {
    let index = CityIndex::new()
        .insert(Attribution::City("krakow".to_string()), item(0, "a"))
        .insert(Attribution::Unspecified, item(1, "b"))
        .insert(Attribution::City("krakow".to_string()), item(2, "c"))
        .insert(Attribution::City("nowhere".to_string()), item(3, "d"));
    assert_eq!(
        index.into_list(&poland()),
        vec![
            NewsByCity {
                city: "krakow".to_string(),
                coordinates: Some(vec![50.06f64.to_bits(), 19.94f64.to_bits()]),
                news: vec![item(0, "a"), item(2, "c")],
            },
            NewsByCity {
                city: "UNSPECIFIED_LOCATION".to_string(),
                coordinates: None,
                news: vec![item(1, "b")],
            },
            NewsByCity { city: "nowhere".to_string(), coordinates: None, news: vec![item(3, "d")] },
        ]
    );
}

#[test]
fn merging_in_another_order_gives_the_same_set() {
    let krakow = Attribution::City("krakow".to_string());
    let first = vec![(krakow.clone(), item(0, "a")), (Attribution::Unspecified, item(1, "b"))];
    let second = vec![(krakow.clone(), item(2, "c"))];
    let one = CityIndex::new().merge(first.clone()).merge(second.clone()).into_list(&poland());
    let other = CityIndex::new().merge(second.clone()).merge(first.clone()).into_list(&poland());
    assert_eq!(as_set(one), as_set(other));
    let joined = merge_outcomes(vec![first, Vec::new(), second]).into_list(&poland());
    assert_eq!(joined.len(), 2);
    assert_eq!(joined[0].news, vec![item(0, "a"), item(2, "c")]);
}

#[test]
fn the_unspecified_location_has_no_coordinates_whatever_the_gazetteer_holds() {
    let gazetteer = Gazetteer::from_cities(vec![city("unspecified_location", 1.0, 2.0)]);
    let list = CityIndex::new().insert(Attribution::Unspecified, item(0, "a")).into_list(&gazetteer);
    assert_eq!(list[0].city, "UNSPECIFIED_LOCATION");
    assert_eq!(list[0].coordinates, None);
}

#[test]
fn gazetteer_keys_are_lower_cased_names() {
    let gazetteer = poland();
    assert_eq!(
        *gazetteer.keys(),
        vec!["warsaw".to_string(), "krakow".to_string(), "gdansk".to_string()]
    );
    assert_eq!(
        gazetteer.coordinates_of("krakow"),
        Some(vec![50.06f64.to_bits(), 19.94f64.to_bits()])
    );
    assert_eq!(gazetteer.coordinates_of("Krakow"), None);
    assert_eq!(gazetteer.coordinates_of("berlin"), None);
    assert_eq!(Gazetteer::new().keys().len(), 0);
}

#[test]
fn of_two_cities_with_one_key_the_later_stays() {
    let gazetteer = Gazetteer::from_cities(vec![
        city("Lodz", 1.0, 2.0),
        city("Krakow", 3.0, 4.0),
        city("LODZ", 5.0, 6.0),
    ]);
    assert_eq!(*gazetteer.keys(), vec!["lodz".to_string(), "krakow".to_string()]);
    assert_eq!(gazetteer.coordinates_of("lodz"), Some(vec![5.0f64.to_bits(), 6.0f64.to_bits()]));
    let grown = gazetteer.insert(city("Opole", 7.0, 8.0));
    assert_eq!(grown.keys().len(), 3);
    assert_eq!(grown.coordinates_of("opole"), Some(vec![7.0f64.to_bits(), 8.0f64.to_bits()]));
}

#[test]
fn bytes_that_are_no_utf8_decode_to_an_empty_body() {
    assert_eq!(decode_content("Zażółć gęślą jaźń".as_bytes()), "Zażółć gęślą jaźń");
    assert_eq!(decode_content(&[]), "");
    assert_eq!(decode_content(&[0x66, 0x6f, 0x6f, 0xff]), "");
    assert_eq!(decode_content(&[0xc3, 0x28]), "");
}

#[test]
fn news_item_is_the_projection_of_the_metadata() {
    let projected = NewsItem::from_entry(&entry(7, "Title"));
    assert_eq!(projected, item(7, "Title"));
    assert_eq!(projected.duplicate(), projected);
    assert_eq!(Attribution::Unspecified.label(), "UNSPECIFIED_LOCATION");
    assert_eq!(Attribution::City("krakow".to_string()).label(), "krakow");
    assert!(Attribution::Unspecified.same_place(&Attribution::Unspecified));
    assert!(!Attribution::Unspecified.same_place(&Attribution::City("krakow".to_string())));
    assert!(Attribution::City("krakow".to_string())
        .same_place(&Attribution::City("krakow".to_string()).duplicate()));
    assert!(!Attribution::City("krakow".to_string())
        .same_place(&Attribution::City("gdansk".to_string())));
}
