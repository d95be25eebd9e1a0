use comic_catalog::crawler::ComicInfo;
use comic_catalog::search::{search, Location, Search, SearchError};
use comic_catalog::utils::CowStr;

fn info(index: u32, title: &str, transcript: Option<&str>, alt_text: Option<&str>) -> ComicInfo {
    ComicInfo {
        index,
        title: CowStr(title.to_string()),
        transcript: transcript.map(|t| CowStr(t.to_string())),
        alt_text: alt_text.map(|t| CowStr(t.to_string())),
        wiki_url: CowStr(format!("/wiki/{index}")),
        xkcd_url: CowStr(format!("https://xkcd.com/{index}")),
        image_url: CowStr(format!("https://imgs.example/{index}.png")),
    }
}

fn two_records() -> Vec<ComicInfo> {
    vec![
        info(1, "Robots", None, None),
        info(2, "Cats", Some("I love robots"), None),
    ]
}

#[test]
fn field_priority_short_circuits() {
    let query = Search::new(vec!["robot".to_string()]).unwrap();
    let results = search(&query, &two_records());
    let pairs: Vec<(u32, Location)> = results
        .iter()
        .map(|r| (r.comic.index, r.location))
        .collect();
    assert_eq!(pairs, vec![(1, Location::Title), (2, Location::Transcript)]);
}

#[test]
fn restricting_to_title_drops_transcript_matches() {
    let mut builder = Search::builder();
    builder.add_query("robot".to_string());
    builder.add_location(Location::Title);
    let query = builder.build().unwrap();
    let results = search(&query, &two_records());
    assert_eq!(results.len(), 1);
    assert_eq!(results[0].comic.index, 1);
    assert_eq!(results[0].location, Location::Title);
}

#[test]
fn matching_ignores_ascii_case() {
    let query = Search::new(vec!["ROBOT".to_string()]).unwrap();
    let results = search(&query, &two_records());
    assert_eq!(results.len(), 2);
}

#[test]
fn matching_is_substring_not_whole_field() {
    let query = Search::new(vec!["obo".to_string()]).unwrap();
    let results = search(&query, &two_records());
    let pairs: Vec<(u32, Location)> = results
        .iter()
        .map(|r| (r.comic.index, r.location))
        .collect();
    assert_eq!(pairs, vec![(1, Location::Title), (2, Location::Transcript)]);
}

#[test]
fn unmatched_patterns_yield_nothing() {
    let query = Search::new(vec!["zebra".to_string()]).unwrap();
    assert_eq!(search(&query, &two_records()).len(), 0);
}

#[test]
fn any_of_several_patterns_matches() {
    let query = Search::new(vec!["zebra".to_string(), "cats".to_string()]).unwrap();
    let results = search(&query, &two_records());
    assert_eq!(results.len(), 1);
    assert_eq!(results[0].comic.index, 2);
    assert_eq!(results[0].location, Location::Title);
}

#[test]
fn alt_text_is_searched_last() {
    let records = vec![info(7, "Plain", Some("nothing here"), Some("hidden robot"))];
    let query = Search::new(vec!["robot".to_string()]).unwrap();
    let results = search(&query, &records);
    assert_eq!(results.len(), 1);
    assert_eq!(results[0].location, Location::AltText);
}

#[test]
fn absent_fields_are_skipped() {
    let records = vec![info(3, "Nothing", None, None)];
    let query = Search::new(vec!["robot".to_string()]).unwrap();
    assert_eq!(search(&query, &records).len(), 0);
}

#[test]
fn searching_twice_reports_the_same_pairs() {
    let query = Search::new(vec!["robot".to_string()]).unwrap();
    let records = two_records();
    let first: Vec<(u32, Location)> = search(&query, &records)
        .iter()
        .map(|r| (r.comic.index, r.location))
        .collect();
    let second: Vec<(u32, Location)> = search(&query, &records)
        .iter()
        .map(|r| (r.comic.index, r.location))
        .collect();
    assert_eq!(first, second);
}

#[test]
fn empty_pattern_set_is_rejected() {
    match Search::new(Vec::new()) {
        Err(SearchError::NoPatterns) => {}
        _ => panic!("an empty pattern set must be rejected at construction"),
    }
}

#[test]
fn builder_without_patterns_is_rejected() {
    let builder = Search::builder();
    match builder.build() {
        Err(SearchError::NoPatterns) => {}
        _ => panic!("an empty builder must be rejected at build"),
    }
}

#[test]
fn builder_without_field_selection_searches_every_field() {
    let mut builder = Search::builder();
    builder.add_queries(vec!["robot".to_string()]);
    let query = builder.build().unwrap();
    let pairs: Vec<(u32, Location)> = search(&query, &two_records())
        .iter()
        .map(|r| (r.comic.index, r.location))
        .collect();
    assert_eq!(pairs, vec![(1, Location::Title), (2, Location::Transcript)]);
}
