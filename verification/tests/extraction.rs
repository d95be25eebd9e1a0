use comic_catalog::crawler::{
    assemble_comic, check_distinct_indices, chunk_comic_data, extract_alt_text, extract_link,
    extract_transcript, listing_rows_to_data, merge_chunks, row_to_data, sort_comics,
    sub_listing_urls, ComicData, ComicInfo, ExtractionError,
};
use comic_catalog::page::{DetailLink, DetailPage, ListingRow, PageNode, TableCell};
use comic_catalog::utils::CowStr;

fn node(text: &str, href: Option<&str>, descendants: &[&str]) -> PageNode {
    PageNode {
        text: text.to_string(),
        href: href.map(|h| h.to_string()),
        descendant_hrefs: descendants.iter().map(|h| h.to_string()).collect(),
    }
}

fn cell(text: &str, href: Option<&str>, descendants: &[&str], anchors: Vec<PageNode>) -> TableCell {
    TableCell {
        node: node(text, href, descendants),
        anchors,
    }
}

fn good_row() -> ListingRow {
    ListingRow {
        cells: vec![
            cell(" xkcd.com/614 ", None, &[], vec![]),
            cell(
                "614: Woodpecker",
                None,
                &[],
                vec![node("Woodpecker", Some("/wiki/index.php/614"), &[])],
            ),
            cell("2009-07-24", None, &[], vec![]),
            cell("image", None, &["https://imgs.xkcd.com/comics/woodpecker.png"], vec![]),
        ],
    }
}

#[test]
fn link_prefers_nodes_own_target() {
    let n = node("x", Some("/own"), &["/descendant"]);
    assert_eq!(extract_link(&n).unwrap(), "/own");
}

#[test]
fn link_falls_back_to_first_descendant() {
    let n = node("x", None, &["/first", "/second"]);
    assert_eq!(extract_link(&n).unwrap(), "/first");
}

#[test]
fn link_missing_everywhere_is_an_error() {
    let n = node("x", None, &[]);
    assert_eq!(extract_link(&n).unwrap_err(), ExtractionError::MissingLink);
}

#[test]
fn sub_listing_urls_keep_document_order() {
    let nodes = vec![
        node("a", Some("/wiki/List_1"), &[]),
        node("b", None, &["/wiki/List_2"]),
    ];
    let urls = sub_listing_urls(&nodes, "https://wiki.example.com").unwrap();
    assert_eq!(
        urls,
        vec![
            "https://wiki.example.com/wiki/List_1".to_string(),
            "https://wiki.example.com/wiki/List_2".to_string(),
        ]
    );
}

#[test]
fn sub_listing_without_link_fails() {
    let nodes = vec![node("a", Some("/ok"), &[]), node("b", None, &[])];
    assert_eq!(
        sub_listing_urls(&nodes, "https://wiki.example.com").unwrap_err(),
        ExtractionError::MissingLink
    );
}

#[test]
fn index_page_without_entries_is_a_structural_mismatch() {
    let nodes: Vec<PageNode> = Vec::new();
    assert_eq!(
        sub_listing_urls(&nodes, "https://wiki.example.com").unwrap_err(),
        ExtractionError::MissingStructure
    );
}

#[test]
fn listing_table_without_rows_is_a_structural_mismatch() {
    let rows: Vec<ListingRow> = Vec::new();
    assert_eq!(
        listing_rows_to_data(&rows).unwrap_err(),
        ExtractionError::MissingStructure
    );
}

#[test]
fn row_extracts_all_four_columns() {
    let d = row_to_data(&good_row()).unwrap();
    assert_eq!(d.index, 614);
    assert_eq!(d.title, "Woodpecker");
    assert_eq!(d.wiki_url, "/wiki/index.php/614");
    assert_eq!(d.xkcd_url, "https://xkcd.com/614");
    assert_eq!(d.image_url, "https://imgs.xkcd.com/comics/woodpecker.png");
}

#[test]
fn row_with_too_few_columns_fails() {
    let mut row = good_row();
    row.cells.truncate(3);
    assert_eq!(row_to_data(&row).unwrap_err(), ExtractionError::MissingColumn);
}

#[test]
fn row_with_unparseable_index_fails() {
    let mut row = good_row();
    row.cells[0] = cell("xkcd.com/not-a-number", None, &[], vec![]);
    assert_eq!(row_to_data(&row).unwrap_err(), ExtractionError::BadIndex);
}

#[test]
fn row_without_slash_in_canonical_url_fails() {
    let mut row = good_row();
    row.cells[0] = cell("xkcd", None, &[], vec![]);
    assert_eq!(row_to_data(&row).unwrap_err(), ExtractionError::BadIndex);
}

#[test]
fn row_with_oversized_index_fails() {
    let mut row = good_row();
    row.cells[0] = cell("xkcd.com/99999999999", None, &[], vec![]);
    assert_eq!(row_to_data(&row).unwrap_err(), ExtractionError::BadIndex);
}

#[test]
fn row_without_anchor_fails() {
    let mut row = good_row();
    row.cells[1] = cell("614: Woodpecker", None, &[], vec![]);
    assert_eq!(row_to_data(&row).unwrap_err(), ExtractionError::MissingAnchor);
}

#[test]
fn bad_row_aborts_the_whole_listing() {
    let mut bad = good_row();
    bad.cells[0] = cell("xkcd.com/oops", None, &[], vec![]);
    let rows = vec![good_row(), bad];
    assert_eq!(
        listing_rows_to_data(&rows).unwrap_err(),
        ExtractionError::BadIndex
    );
}

#[test]
fn good_rows_all_extract() {
    let rows = vec![good_row(), good_row()];
    let data = listing_rows_to_data(&rows).unwrap();
    assert_eq!(data.len(), 2);
    assert_eq!(data[1].index, 614);
}

#[test]
fn transcript_between_marker_and_next_section() {
    let texts: Vec<String> = ["Transcript[edit]", "Line one.", "Line two.", "See Also[edit]"]
        .iter()
        .map(|s| s.to_string())
        .collect();
    assert_eq!(extract_transcript(&texts), Some("Line one.\nLine two.".to_string()));
}

#[test]
fn transcript_absent_without_marker() {
    let texts: Vec<String> = ["Explanation[edit]", "Some text."]
        .iter()
        .map(|s| s.to_string())
        .collect();
    assert_eq!(extract_transcript(&texts), None);
}

#[test]
fn transcript_stops_at_blank_line() {
    let texts: Vec<String> = ["Transcript[edit]", "Only line.", "   ", "More."]
        .iter()
        .map(|s| s.to_string())
        .collect();
    assert_eq!(extract_transcript(&texts), Some("Only line.".to_string()));
}

#[test]
fn transcript_absent_when_nothing_follows_marker() {
    let texts: Vec<String> = ["Intro.", "Transcript[edit]", "Trivia[edit]"]
        .iter()
        .map(|s| s.to_string())
        .collect();
    assert_eq!(extract_transcript(&texts), None);
}

#[test]
fn transcript_starts_at_the_first_marker() {
    let texts: Vec<String> = ["Transcript[edit]", "A", "", "Transcript[edit]", "B"]
        .iter()
        .map(|s| s.to_string())
        .collect();
    assert_eq!(extract_transcript(&texts), Some("A".to_string()));
}

#[test]
fn canonical_text_is_trimmed_of_unicode_whitespace() {
    let mut row = good_row();
    row.cells[0] = cell("\u{00A0}xkcd.com/7\u{00A0}", None, &[], vec![]);
    let d = row_to_data(&row).unwrap();
    assert_eq!(d.index, 7);
    assert_eq!(d.xkcd_url, "https://xkcd.com/7");
}

#[test]
fn index_with_sign_is_not_a_number() {
    let mut row = good_row();
    row.cells[0] = cell("xkcd.com/+12", None, &[], vec![]);
    assert_eq!(row_to_data(&row).unwrap_err(), ExtractionError::BadIndex);
}

#[test]
fn alt_text_from_matching_table_link() {
    let links = vec![
        DetailLink {
            href: "/wiki/other".to_string(),
            title: Some("unrelated".to_string()),
        },
        DetailLink {
            href: "https://imgs.xkcd.com/comics/woodpecker.png".to_string(),
            title: Some("A robot eating soup".to_string()),
        },
    ];
    assert_eq!(
        extract_alt_text(&links, "https://imgs.xkcd.com/comics/woodpecker.png"),
        Some("A robot eating soup".to_string())
    );
}

#[test]
fn alt_text_absent_without_matching_link() {
    let links = vec![DetailLink {
        href: "/wiki/other".to_string(),
        title: Some("unrelated".to_string()),
    }];
    assert_eq!(extract_alt_text(&links, "https://imgs.example/missing.png"), None);
}

#[test]
fn alt_text_absent_when_matching_link_has_no_title() {
    let links = vec![DetailLink {
        href: "https://imgs.example/a.png".to_string(),
        title: None,
    }];
    assert_eq!(extract_alt_text(&links, "https://imgs.example/a.png"), None);
}

#[test]
fn assemble_carries_fields_and_detail_extractions() {
    let data = row_to_data(&good_row()).unwrap();
    let page = DetailPage {
        table_links: vec![DetailLink {
            href: "https://imgs.xkcd.com/comics/woodpecker.png".to_string(),
            title: Some("A robot eating soup".to_string()),
        }],
        content_texts: ["Transcript[edit]", "Line one.", "Line two.", "See Also[edit]"]
            .iter()
            .map(|s| s.to_string())
            .collect(),
    };
    let info = assemble_comic(data, &page, "https://wiki.example.com");
    assert_eq!(info.index, 614);
    assert_eq!(info.title.as_str(), "Woodpecker");
    assert_eq!(
        info.wiki_url.as_str(),
        "https://wiki.example.com/wiki/index.php/614"
    );
    assert_eq!(info.xkcd_url.as_str(), "https://xkcd.com/614");
    assert_eq!(info.image_url.as_str(), "https://imgs.xkcd.com/comics/woodpecker.png");
    assert_eq!(info.transcript.as_ref().map(|t| t.as_str()), Some("Line one.\nLine two."));
    assert_eq!(info.alt_text.as_ref().map(|t| t.as_str()), Some("A robot eating soup"));
}

fn bare_info(index: u32, title: &str) -> ComicInfo {
    ComicInfo {
        index,
        title: CowStr(title.to_string()),
        transcript: None,
        alt_text: None,
        wiki_url: CowStr(format!("/wiki/{index}")),
        xkcd_url: CowStr(format!("https://xkcd.com/{index}")),
        image_url: CowStr(format!("https://imgs.example/{index}.png")),
    }
}

#[test]
fn sorting_orders_strictly_by_index() {
    let mut comics = vec![bare_info(3, "c"), bare_info(1, "a"), bare_info(2, "b")];
    sort_comics(&mut comics);
    let indices: Vec<u32> = comics.iter().map(|c| c.index).collect();
    assert_eq!(indices, vec![1, 2, 3]);
    assert!(indices.windows(2).all(|w| w[0] < w[1]));
}

#[test]
fn distinct_indices_pass_the_check() {
    let mut comics = vec![bare_info(2, "b"), bare_info(1, "a"), bare_info(3, "c")];
    sort_comics(&mut comics);
    assert!(check_distinct_indices(&comics));
}

#[test]
fn a_duplicated_index_fails_the_check() {
    let mut comics = vec![bare_info(2, "b"), bare_info(1, "a"), bare_info(2, "again")];
    sort_comics(&mut comics);
    assert!(!check_distinct_indices(&comics));
}

fn bare_data(index: u32) -> ComicData {
    ComicData {
        index,
        title: format!("t{index}"),
        wiki_url: format!("/wiki/{index}"),
        xkcd_url: format!("https://xkcd.com/{index}"),
        image_url: format!("https://imgs.example/{index}.png"),
    }
}

#[test]
fn chunks_are_carved_from_the_tail() {
    let data: Vec<ComicData> = (1..=5).map(bare_data).collect();
    let chunks = chunk_comic_data(data, 2);
    let shape: Vec<Vec<u32>> = chunks
        .iter()
        .map(|c| c.iter().map(|d| d.index).collect())
        .collect();
    assert_eq!(shape, vec![vec![4, 5], vec![2, 3], vec![1]]);
    let mut all: Vec<u32> = shape.concat();
    all.sort();
    assert_eq!(all, vec![1, 2, 3, 4, 5]);
}

#[test]
fn merge_concatenates_batches_in_arrival_order() {
    let chunks = vec![
        vec![bare_info(4, "d"), bare_info(5, "e")],
        vec![bare_info(1, "a")],
    ];
    let merged = merge_chunks(chunks);
    let indices: Vec<u32> = merged.iter().map(|c| c.index).collect();
    assert_eq!(indices, vec![4, 5, 1]);
}

#[test]
fn cowstr_wraps_and_exposes_text() {
    let c = CowStr::from("hello".to_string());
    assert_eq!(c.as_str(), "hello");
    assert_eq!(c, CowStr("hello".to_string()));
}
