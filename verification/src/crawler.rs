//! The crawl pipeline's verified core: the extraction rules that turn
//! parsed pages into typed records, record assembly, and the partitioning,
//! merging and ordering the orchestrator applies around the fetches.
//!
//! Fetching pages and parsing HTML are collaborators outside this crate;
//! they hand these functions values of the page model in `crate::page`.

use vstd::prelude::*;
use vstd::string::StrSliceExecFns;
use vstd::string::StringExecFns;
use crate::page::DetailLink;
use crate::page::DetailPage;
use crate::page::ListingRow;
use crate::page::PageNode;
use crate::page::node_link;
use crate::text::all_ws;
use crate::text::ends_with;
use crate::text::find_last_slash;
use crate::text::join_nl;
use crate::text::last_slash_index;
use crate::text::parse_u32;
use crate::text::parse_u32_spec;
use crate::text::str_ends_with;
use crate::text::str_eq;
use crate::text::text_all_ws;
use crate::text::trim;
use crate::text::trim_spec;
use crate::utils::CowStr;

verus! {

/// An expected structural element was absent from a parsed page. Always
/// fatal to the enclosing crawl stage: a mismatch means the upstream page
/// structure no longer fits the extraction rules.
#[derive(Debug, Clone, Copy, PartialEq, Eq, Hash, Structural)]
pub enum ExtractionError {
    /// The expected structural nodes are absent from the page: the index
    /// page has no definition-list entries, or a listing table has no
    /// data rows.
    MissingStructure,
    /// A node that must carry a link target carries none, itself or below.
    MissingLink,
    /// A listing-table row has fewer columns than the rules read.
    MissingColumn,
    /// The title column holds no anchor.
    MissingAnchor,
    /// The canonical-URL column has no parseable trailing catalogue number.
    BadIndex,
}

/// One row of basic metadata from a sub-listing table, the intermediate
/// shape between listing extraction and the detail fetch.
#[derive(Debug, Clone)]
pub struct ComicData {
    pub index: u32,
    pub title: String,
    pub wiki_url: String,
    pub xkcd_url: String,
    pub image_url: String,
}

/// One finished catalogue record.
#[derive(Debug, Clone)]
pub struct ComicInfo {
    pub index: u32,
    pub title: CowStr,
    pub transcript: Option<CowStr>,
    pub alt_text: Option<CowStr>,
    pub wiki_url: CowStr,
    pub xkcd_url: CowStr,
    pub image_url: CowStr,
}

impl ComicInfo {
    /// An owned copy, equal to the original in every field.
    pub fn duplicate(&self) -> (r: ComicInfo)
        ensures
            r == *self,
    {
        ComicInfo {
            index: self.index,
            title: CowStr(self.title.0.clone()),
            transcript: match &self.transcript {
                Some(t) => Some(CowStr(t.0.clone())),
                None => None,
            },
            alt_text: match &self.alt_text {
                Some(t) => Some(CowStr(t.0.clone())),
                None => None,
            },
            wiki_url: CowStr(self.wiki_url.0.clone()),
            xkcd_url: CowStr(self.xkcd_url.0.clone()),
            image_url: CowStr(self.image_url.0.clone()),
        }
    }
}

/// Resolve the link a node carries: the node's own target first, else the
/// target of its first linked descendant, else a structural mismatch.
pub fn extract_link(node: &PageNode) -> (r: Result<&str, ExtractionError>)
    ensures
        match r {
            Ok(s) => node_link(*node) == Some(s@),
            Err(e) => node_link(*node) is None && e == ExtractionError::MissingLink,
        },
{
    match &node.href {
        Some(h) => Ok(h.as_str()),
        None => {
            if node.descendant_hrefs.len() > 0 {
                Ok(node.descendant_hrefs[0].as_str())
            } else {
                Err(ExtractionError::MissingLink)
            }
        },
    }
}

pub open spec fn nodes_all_linked(nodes: Seq<PageNode>) -> bool {
    forall|i: int| 0 <= i < nodes.len() ==> node_link(#[trigger] nodes[i]) is Some
}

/// From the definition-list entries of the master index page, in document
/// order, the sub-listing URLs: each entry's link target appended to the
/// configured base URL. A page with no entries at all is a structural
/// mismatch, and a single entry without a link target fails the whole
/// extraction: both are fatal to the crawl.
pub fn sub_listing_urls(nodes: &Vec<PageNode>, url_base: &str) -> (r: Result<
    Vec<String>,
    ExtractionError,
>)
    ensures
        match r {
            Ok(urls) => nodes@.len() > 0 && nodes_all_linked(nodes@) && urls@.len()
                == nodes@.len() && forall|i: int|
                0 <= i < nodes@.len() ==> (#[trigger] urls@[i])@ == url_base@ + node_link(
                    nodes@[i],
                )->0,
            Err(e) => (e == ExtractionError::MissingStructure && nodes@.len() == 0) || (e
                == ExtractionError::MissingLink && exists|i: int|
                0 <= i < nodes@.len() && node_link(#[trigger] nodes@[i]) is None),
        },
{
    if nodes.len() == 0 {
        return Err(ExtractionError::MissingStructure);
    }
    let mut urls: Vec<String> = Vec::new();
    let mut i: usize = 0;
    while i < nodes.len()
        invariant
            i <= nodes@.len(),
            urls@.len() == i,
            forall|j: int| 0 <= j < i ==> node_link(#[trigger] nodes@[j]) is Some,
            forall|j: int|
                0 <= j < i ==> (#[trigger] urls@[j])@ == url_base@ + node_link(nodes@[j])->0,
        decreases nodes@.len() - i,
    {
        match extract_link(&nodes[i]) {
            Ok(link) => {
                let mut url = url_base.to_owned();
                url.append(link);
                urls.push(url);
            },
            Err(e) => {
                return Err(e);
            },
        }
        i = i + 1;
    }
    Ok(urls)
}

/// The trimmed text of a row's canonical-URL column.
pub open spec fn row_canonical_text(row: ListingRow) -> Seq<char> {
    trim_spec(row.cells[0].node.text@)
}

/// The catalogue number a row's canonical-URL column parses to: the run of
/// digits after the last `/` of the trimmed text.
pub open spec fn row_index_parse(row: ListingRow) -> Option<u32> {
    let t = row_canonical_text(row);
    if last_slash_index(t) < 0 {
        None
    } else {
        parse_u32_spec(t.skip(last_slash_index(t) + 1))
    }
}

/// The first structural fault of a row, checked in the order the rule
/// reads the row, or `None` for a well-formed row.
pub open spec fn row_error(row: ListingRow) -> Option<ExtractionError> {
    if row.cells@.len() < 4 {
        Some(ExtractionError::MissingColumn)
    } else if row_index_parse(row) is None {
        Some(ExtractionError::BadIndex)
    } else if row.cells[1].anchors@.len() == 0 {
        Some(ExtractionError::MissingAnchor)
    } else if node_link(row.cells[1].anchors[0]) is None {
        Some(ExtractionError::MissingLink)
    } else if node_link(row.cells[3].node) is None {
        Some(ExtractionError::MissingLink)
    } else {
        None
    }
}

pub open spec fn row_ok(row: ListingRow) -> bool {
    row_error(row) is None
}

/// The basic-metadata fields a well-formed row extracts to.
pub open spec fn data_matches_row(d: ComicData, row: ListingRow) -> bool {
    &&& Some(d.index) == row_index_parse(row)
    &&& d.title@ == row.cells[1].anchors[0].text@
    &&& Some(d.wiki_url@) == node_link(row.cells[1].anchors[0])
    &&& d.xkcd_url@ == "https://"@ + row_canonical_text(row)
    &&& Some(d.image_url@) == node_link(row.cells[3].node)
}

/// Extract one row: column one gives the canonical URL and the catalogue
/// number, column two's first anchor gives the title and the detail-page
/// link, column four gives the image link; column three carries nothing.
pub fn row_to_data(row: &ListingRow) -> (r: Result<ComicData, ExtractionError>)
    ensures
        match r {
            Ok(d) => row_ok(*row) && data_matches_row(d, *row),
            Err(e) => row_error(*row) == Some(e),
        },
{
    if row.cells.len() < 4 {
        return Err(ExtractionError::MissingColumn);
    }
    let c1_text = trim(row.cells[0].node.text.as_str());
    let n1: usize = c1_text.unicode_len();
    let slash: usize = match find_last_slash(c1_text) {
        Some(i) => i,
        None => {
            return Err(ExtractionError::BadIndex);
        },
    };
    let index_text = c1_text.substring_char(slash + 1, n1);
    let index: u32 = match parse_u32(index_text) {
        Some(v) => v,
        None => {
            proof {
                assert(index_text@ =~= row_canonical_text(*row).skip(slash + 1));
            }
            return Err(ExtractionError::BadIndex);
        },
    };
    proof {
        assert(index_text@ =~= row_canonical_text(*row).skip(slash + 1));
    }
    let mut xkcd_url = "https://".to_owned();
    xkcd_url.append(c1_text);

    if row.cells[1].anchors.len() == 0 {
        return Err(ExtractionError::MissingAnchor);
    }
    let anchor = &row.cells[1].anchors[0];
    let title = anchor.text.clone();
    let wiki_url = match extract_link(anchor) {
        Ok(l) => l.to_owned(),
        Err(e) => {
            return Err(e);
        },
    };
    let image_url = match extract_link(&row.cells[3].node) {
        Ok(l) => l.to_owned(),
        Err(e) => {
            return Err(e);
        },
    };
    Ok(ComicData { index, title, wiki_url, xkcd_url, image_url })
}

/// Extract every row of a sub-listing table. A table with no data rows
/// at all is a structural mismatch. Otherwise the policy is fail-fast:
/// the first malformed row fails the whole collection with its own
/// fault, and nothing partial is returned.
pub fn listing_rows_to_data(rows: &Vec<ListingRow>) -> (r: Result<Vec<ComicData>, ExtractionError>)
    ensures
        match r {
            Ok(data) => rows@.len() > 0 && data@.len() == rows@.len() && forall|i: int|
                0 <= i < rows@.len() ==> row_ok(#[trigger] rows@[i]) && data_matches_row(
                    data@[i],
                    rows@[i],
                ),
            Err(e) => (e == ExtractionError::MissingStructure && rows@.len() == 0) || exists|i: int|
                0 <= i < rows@.len() && #[trigger] row_error(rows@[i]) == Some(e) && forall|j: int|
                    0 <= j < i ==> row_ok(#[trigger] rows@[j]),
        },
{
    if rows.len() == 0 {
        return Err(ExtractionError::MissingStructure);
    }
    let mut data: Vec<ComicData> = Vec::new();
    let mut i: usize = 0;
    while i < rows.len()
        invariant
            i <= rows@.len(),
            data@.len() == i,
            forall|j: int|
                0 <= j < i ==> row_ok(#[trigger] rows@[j]) && data_matches_row(data@[j], rows@[j]),
        decreases rows@.len() - i,
    {
        match row_to_data(&rows[i]) {
            Ok(d) => {
                data.push(d);
            },
            Err(e) => {
                return Err(e);
            },
        }
        i = i + 1;
    }
    Ok(data)
}

/// The literal marker that opens the transcript section of a detail page.
pub open spec fn marker_text() -> Seq<char> {
    "Transcript[edit]"@
}

/// The literal suffix that marks a section heading.
pub open spec fn edit_suffix() -> Seq<char> {
    "[edit]"@
}

/// A content line that ends the transcript: empty, a section heading, or
/// nothing but whitespace.
pub open spec fn is_boundary(t: Seq<char>) -> bool {
    t.len() == 0 || ends_with(t, edit_suffix()) || all_ws(t)
}

/// Whether a content line ends the transcript.
pub fn is_boundary_text(s: &str) -> (r: bool)
    ensures
        r == is_boundary(s@),
{
    if s.unicode_len() == 0 {
        true
    } else if str_ends_with(s, "[edit]") {
        true
    } else {
        text_all_ws(s)
    }
}

/// The position of the first content line equal to the transcript marker,
/// or the number of lines when no line is the marker.
pub open spec fn find_marker(texts: Seq<Seq<char>>) -> int
    decreases texts.len(),
{
    if texts.len() == 0 {
        0
    } else if texts[0] == marker_text() {
        0
    } else {
        1 + find_marker(texts.skip(1))
    }
}

proof fn lemma_find_marker_at(texts: Seq<Seq<char>>, i: int)
    requires
        0 <= i <= texts.len(),
        forall|j: int| 0 <= j < i ==> texts[j] != marker_text(),
        i < texts.len() ==> texts[i] == marker_text(),
    ensures
        find_marker(texts) == i,
    decreases i,
{
    if texts.len() == 0 {
    } else if i == 0 {
    } else {
        assert(texts[0] != marker_text());
        assert forall|j: int| 0 <= j < i - 1 implies texts.skip(1)[j] != marker_text() by {
            assert(texts.skip(1)[j] == texts[j + 1]);
        }
        if i - 1 < texts.skip(1).len() {
            assert(texts.skip(1)[i - 1] == texts[i]);
        }
        lemma_find_marker_at(texts.skip(1), i - 1);
    }
}

/// The content lines that follow the marker, up to but not including the
/// first boundary line.
pub open spec fn take_lines(texts: Seq<Seq<char>>) -> Seq<Seq<char>>
    decreases texts.len(),
{
    if texts.len() == 0 || is_boundary(texts[0]) {
        Seq::empty()
    } else {
        seq![texts[0]] + take_lines(texts.skip(1))
    }
}

/// What transcript the running content text of a detail page yields: the
/// lines between the first marker line and the next boundary, joined by
/// line breaks; absent when there is no marker, or nothing follows it.
pub open spec fn transcript_spec(texts: Seq<Seq<char>>) -> Option<Seq<char>> {
    let m = find_marker(texts);
    if m == texts.len() {
        None
    } else {
        let lines = take_lines(texts.skip(m + 1));
        if lines.len() == 0 {
            None
        } else {
            Some(join_nl(lines))
        }
    }
}

proof fn lemma_join_nl_push(lines: Seq<Seq<char>>, l: Seq<char>)
    requires
        lines.len() > 0,
    ensures
        join_nl(lines.push(l)) == join_nl(lines) + seq!['\n'] + l,
{
    assert(lines.push(l).drop_last() =~= lines);
    assert(lines.push(l).last() == l);
}

/// Assemble the transcript of a detail page from its content lines, in
/// document order.
pub fn extract_transcript(texts: &Vec<String>) -> (r: Option<String>)
    ensures
        match r {
            Some(t) => transcript_spec(texts.deep_view()) == Some(t@),
            None => transcript_spec(texts.deep_view()) is None,
        },
{
    let ghost tv = texts.deep_view();
    proof {
        assert(tv.len() == texts@.len());
    }
    let n: usize = texts.len();
    let mut m: usize = 0;
    while m < n && !str_eq(texts[m].as_str(), "Transcript[edit]")
        invariant
            m <= n,
            n == tv.len(),
            tv == texts.deep_view(),
            forall|j: int| 0 <= j < m ==> tv[j] != marker_text(),
        decreases n - m,
    {
        proof {
            assert(tv[m as int] == texts@[m as int]@);
        }
        m = m + 1;
    }
    proof {
        if m < n {
            assert(tv[m as int] == texts@[m as int]@);
        }
        lemma_find_marker_at(tv, m as int);
    }
    if m == n {
        return None;
    }
    let mut cur: usize = m + 1;
    let mut acc: Option<String> = None;
    let ghost mut collected: Seq<Seq<char>> = Seq::empty();
    proof {
        assert(take_lines(tv.skip(m + 1)) =~= collected + take_lines(tv.skip(cur as int)));
    }
    while cur < n && !is_boundary_text(texts[cur].as_str())
        invariant
            m + 1 <= cur <= n,
            n == tv.len(),
            tv == texts.deep_view(),
            take_lines(tv.skip(m + 1)) == collected + take_lines(tv.skip(cur as int)),
            match acc {
                Some(s) => collected.len() > 0 && s@ == join_nl(collected),
                None => collected.len() == 0,
            },
        decreases n - cur,
    {
        proof {
            assert(tv[cur as int] == texts@[cur as int]@);
            assert(tv.skip(cur as int)[0] == tv[cur as int]);
            assert(tv.skip(cur as int).skip(1) =~= tv.skip(cur + 1));
        }
        let line = texts[cur].as_str();
        let ghost prev = collected;
        acc = match acc {
            None => Some(line.to_owned()),
            Some(mut s) => {
                s.append("\n");
                s.append(line);
                Some(s)
            },
        };
        proof {
            collected = prev.push(tv[cur as int]);
            if prev.len() == 0 {
                assert(collected =~= seq![tv[cur as int]]);
                assert(join_nl(collected) == collected[0]);
                assert(collected[0] == tv[cur as int]);
            } else {
                lemma_join_nl_push(prev, tv[cur as int]);
                reveal_strlit("\n");
                assert("\n"@ =~= seq!['\n']);
            }
            assert(seq![tv[cur as int]] + take_lines(tv.skip(cur + 1)) == take_lines(
                tv.skip(cur as int),
            ));
            assert(collected + take_lines(tv.skip(cur + 1)) =~= take_lines(tv.skip(m + 1)));
        }
        cur = cur + 1;
    }
    proof {
        if cur < n {
            assert(tv[cur as int] == texts@[cur as int]@);
            assert(tv.skip(cur as int)[0] == tv[cur as int]);
        }
        assert(take_lines(tv.skip(cur as int)) =~= Seq::<Seq<char>>::empty());
        assert(take_lines(tv.skip(m + 1)) =~= collected);
    }
    acc
}

/// What alt text a detail page yields for a record whose image URL is
/// known: the title attribute of the first content-table link whose target
/// equals that URL; absent when no link matches, or the matching link has
/// no title.
pub open spec fn alt_text_spec(links: Seq<DetailLink>, url: Seq<char>) -> Option<Seq<char>>
    decreases links.len(),
{
    if links.len() == 0 {
        None
    } else if links[0].href@ == url {
        match links[0].title {
            Some(t) => Some(t@),
            None => None,
        }
    } else {
        alt_text_spec(links.skip(1), url)
    }
}

/// Find the alt text of a record's image among the links of its detail
/// page's content table.
pub fn extract_alt_text(links: &Vec<DetailLink>, image_url: &str) -> (r: Option<String>)
    ensures
        match r {
            Some(t) => alt_text_spec(links@, image_url@) == Some(t@),
            None => alt_text_spec(links@, image_url@) is None,
        },
{
    let n: usize = links.len();
    let mut i: usize = 0;
    proof {
        assert(links@.skip(0) =~= links@);
    }
    while i < n
        invariant
            i <= n,
            n == links@.len(),
            alt_text_spec(links@, image_url@) == alt_text_spec(links@.skip(i as int), image_url@),
        decreases n - i,
    {
        proof {
            assert(links@.skip(i as int)[0] == links@[i as int]);
            assert(links@.skip(i as int).skip(1) =~= links@.skip(i + 1));
        }
        if str_eq(links[i].href.as_str(), image_url) {
            return match &links[i].title {
                Some(t) => Some(t.clone()),
                None => None,
            };
        }
        i = i + 1;
    }
    None
}

/// Build one finished record from its basic metadata and the content of
/// its detail page. The carried-over fields pass through unchanged, but
/// for the detail-page link, which is stored in its absolute form: the
/// configured base URL followed by the link. The transcript and the alt
/// text come from the detail rules, and their absence is not an error.
pub fn assemble_comic(data: ComicData, page: &DetailPage, url_base: &str) -> (r: ComicInfo)
    ensures
        r.index == data.index,
        r.title@ == data.title@,
        r.wiki_url@ == url_base@ + data.wiki_url@,
        r.xkcd_url@ == data.xkcd_url@,
        r.image_url@ == data.image_url@,
        match r.transcript {
            Some(t) => transcript_spec(page.content_texts.deep_view()) == Some(t@),
            None => transcript_spec(page.content_texts.deep_view()) is None,
        },
        match r.alt_text {
            Some(t) => alt_text_spec(page.table_links@, data.image_url@) == Some(t@),
            None => alt_text_spec(page.table_links@, data.image_url@) is None,
        },
{
    let alt = extract_alt_text(&page.table_links, data.image_url.as_str());
    let transcript = extract_transcript(&page.content_texts);
    let ComicData { index, title, wiki_url, xkcd_url, image_url } = data;
    let mut wiki_url_abs = url_base.to_owned();
    wiki_url_abs.append(wiki_url.as_str());
    ComicInfo {
        index,
        title: CowStr(title),
        transcript: match transcript {
            Some(t) => Some(CowStr(t)),
            None => None,
        },
        alt_text: match alt {
            Some(t) => Some(CowStr(t)),
            None => None,
        },
        wiki_url: CowStr(wiki_url_abs),
        xkcd_url: CowStr(xkcd_url),
        image_url: CowStr(image_url),
    }
}

/// Where the next chunk starts when `len` entries remain: a full chunk is
/// taken from the tail while one fits, the remainder forms the last chunk.
pub open spec fn chunk_start(len: int, size: int) -> int {
    if len >= size {
        len - size
    } else {
        0
    }
}

/// The partition of the basic-metadata pool into detail-fetch chunks, in
/// the order the chunks are carved from the tail of the pool.
pub open spec fn chunks_of(s: Seq<ComicData>, size: int) -> Seq<Seq<ComicData>>
    decreases s.len(),
    when size >= 1
{
    if s.len() == 0 {
        Seq::empty()
    } else {
        let st = chunk_start(s.len() as int, size);
        seq![s.skip(st)] + chunks_of(s.take(st), size)
    }
}

pub open spec fn data_chunk_views(chunks: Seq<Vec<ComicData>>) -> Seq<Seq<ComicData>> {
    chunks.map_values(|v: Vec<ComicData>| v@)
}

/// Partition the pooled basic metadata into fixed-size chunks, one
/// concurrent detail-fetch task each. The chunk size tunes throughput
/// only; every entry lands in exactly one chunk.
pub fn chunk_comic_data(data: Vec<ComicData>, chunk_size: usize) -> (r: Vec<Vec<ComicData>>)
    requires
        chunk_size >= 1,
    ensures
        data_chunk_views(r@) == chunks_of(data@, chunk_size as int),
{
    let ghost orig = data@;
    let mut data = data;
    let mut out: Vec<Vec<ComicData>> = Vec::new();
    proof {
        assert(data_chunk_views(out@) =~= Seq::<Seq<ComicData>>::empty());
        assert(data_chunk_views(out@) + chunks_of(data@, chunk_size as int) =~= chunks_of(
            orig,
            chunk_size as int,
        ));
    }
    while data.len() > 0
        invariant
            chunk_size >= 1,
            data_chunk_views(out@) + chunks_of(data@, chunk_size as int) == chunks_of(
                orig,
                chunk_size as int,
            ),
        decreases data@.len(),
    {
        let ghost before = data@;
        let ghost out_before = out@;
        let len = data.len();
        let start: usize = if len >= chunk_size {
            len - chunk_size
        } else {
            0
        };
        let chunk = data.split_off(start);
        out.push(chunk);
        proof {
            assert(chunk@ =~= before.skip(start as int));
            assert(data@ =~= before.take(start as int));
            assert(chunks_of(before, chunk_size as int) == seq![before.skip(start as int)]
                + chunks_of(before.take(start as int), chunk_size as int));
            assert(data_chunk_views(out@) =~= data_chunk_views(out_before).push(chunk@));
            assert(data_chunk_views(out@) + chunks_of(data@, chunk_size as int)
                =~= data_chunk_views(out_before) + chunks_of(before, chunk_size as int));
        }
    }
    proof {
        assert(data_chunk_views(out@) + chunks_of(data@, chunk_size as int) =~= data_chunk_views(
            out@,
        ));
    }
    out
}

pub open spec fn info_chunk_views(chunks: Seq<Vec<ComicInfo>>) -> Seq<Seq<ComicInfo>> {
    chunks.map_values(|v: Vec<ComicInfo>| v@)
}

/// Concatenate the per-chunk record batches into one collection, in the
/// order the batches arrive. No batch order is guaranteed by the
/// concurrent stage; the collection is ordered afterwards.
pub fn merge_chunks(chunks: Vec<Vec<ComicInfo>>) -> (r: Vec<ComicInfo>)
    ensures
        r@ == info_chunk_views(chunks@).flatten(),
{
    let ghost orig = chunks@;
    let mut chunks = chunks;
    let mut out: Vec<ComicInfo> = Vec::new();
    proof {
        assert(out@ + info_chunk_views(chunks@).flatten() =~= info_chunk_views(orig).flatten());
    }
    while chunks.len() > 0
        invariant
            out@ + info_chunk_views(chunks@).flatten() == info_chunk_views(orig).flatten(),
        decreases chunks@.len(),
    {
        let ghost before = chunks@;
        let ghost out_before = out@;
        let mut c = chunks.remove(0);
        out.append(&mut c);
        proof {
            let vs = info_chunk_views(before);
            assert(vs.len() > 0);
            assert(vs.flatten() == vs.first() + vs.drop_first().flatten());
            assert(vs.first() == before[0]@);
            assert(info_chunk_views(chunks@) =~= vs.drop_first());
            assert(out@ =~= out_before + before[0]@);
            assert(out@ + info_chunk_views(chunks@).flatten() =~= out_before + vs.flatten());
        }
    }
    proof {
        assert(info_chunk_views(chunks@).flatten() =~= Seq::<ComicInfo>::empty());
        assert(out@ + info_chunk_views(chunks@).flatten() =~= out@);
    }
    out
}

/// The collection is ordered by catalogue number, never descending.
pub open spec fn sorted_by_index(s: Seq<ComicInfo>) -> bool {
    forall|i: int, j: int| 0 <= i < j < s.len() ==> #[trigger] s[i].index <= #[trigger] s[j].index
}

/// No two records carry the same catalogue number.
pub open spec fn distinct_indices(s: Seq<ComicInfo>) -> bool {
    forall|i: int, j: int| 0 <= i < j < s.len() ==> #[trigger] s[i].index != #[trigger] s[j].index
}

/// Order the finished records ascending by catalogue number. The records
/// themselves are kept exactly: the result holds the same records, as a
/// multiset, as the input.
pub fn sort_comics(comics: &mut Vec<ComicInfo>)
    ensures
        sorted_by_index(final(comics)@),
        final(comics)@.to_multiset() == old(comics)@.to_multiset(),
{
    broadcast use vstd::seq_lib::group_to_multiset_ensures;

    let mut out: Vec<ComicInfo> = Vec::new();
    proof {
        assert(out@.to_multiset().add(comics@.to_multiset()) =~= old(comics)@.to_multiset());
    }
    while comics.len() > 0
        invariant
            sorted_by_index(out@),
            out@.to_multiset().add(comics@.to_multiset()) == old(comics)@.to_multiset(),
            forall|p: int, q: int|
                0 <= p < out@.len() && 0 <= q < comics@.len() ==> #[trigger] out@[p].index
                    <= #[trigger] comics@[q].index,
        decreases comics@.len(),
    {
        let mut m: usize = 0;
        let mut k: usize = 1;
        while k < comics.len()
            invariant
                m < k <= comics@.len(),
                comics@.len() > 0,
                forall|j: int| 0 <= j < k ==> comics@[m as int].index <= #[trigger] comics@[j].index,
            decreases comics@.len() - k,
        {
            if comics[k].index < comics[m].index {
                m = k;
            }
            k = k + 1;
        }
        let ghost before = comics@;
        let ghost out_before = out@;
        let c = comics.remove(m);
        out.push(c);
        proof {
            broadcast use vstd::multiset::group_multiset_axioms;

            assert(before.contains(before[m as int]));
            vstd::seq_lib::to_multiset_contains(before, before[m as int]);
            vstd::seq_lib::to_multiset_remove(before, m as int);
            vstd::seq_lib::to_multiset_build(out_before, c);
            assert(out@.to_multiset().add(comics@.to_multiset()) =~= out_before.to_multiset().add(
                before.to_multiset(),
            ));
            assert forall|q: int| 0 <= q < comics@.len() implies c.index
                <= #[trigger] comics@[q].index by {
                if q < m {
                    assert(comics@[q] == before[q]);
                } else {
                    assert(comics@[q] == before[q + 1]);
                }
            }
        }
    }
    *comics = out;
}

/// Whether an ordered collection is free of duplicate catalogue numbers.
/// The orchestrator applies this after ordering and before persistence: a
/// duplicated number means the source pages repeated an index, and the
/// collection invariant cannot be met, so nothing is persisted.
pub fn check_distinct_indices(comics: &Vec<ComicInfo>) -> (r: bool)
    requires
        sorted_by_index(comics@),
    ensures
        r == distinct_indices(comics@),
{
    let n: usize = comics.len();
    if n == 0 {
        return true;
    }
    let mut k: usize = 0;
    while k < n - 1
        invariant
            sorted_by_index(comics@),
            n == comics@.len(),
            n > 0,
            k <= n - 1,
            forall|t: int| 0 <= t < k ==> #[trigger] comics@[t].index != comics@[t + 1].index,
        decreases comics@.len() - k,
    {
        if comics[k].index == comics[k + 1].index {
            return false;
        }
        k = k + 1;
    }
    proof {
        assert forall|i: int, j: int|
            0 <= i < j < comics@.len() implies #[trigger] comics@[i].index
            != #[trigger] comics@[j].index by {
            assert(comics@[i].index != comics@[i + 1].index);
            if i + 1 < j {
                assert(comics@[i].index <= comics@[i + 1].index);
                assert(comics@[i + 1].index <= comics@[j].index);
            }
        }
    }
    true
}

/// A sorted collection with pairwise distinct catalogue numbers is
/// strictly ascending: after a successful crawl the persisted order has no
/// equal neighbours and no duplicates anywhere.
pub proof fn lemma_sorted_distinct_strictly_ascending(s: Seq<ComicInfo>)
    requires
        sorted_by_index(s),
        distinct_indices(s),
    ensures
        forall|i: int, j: int| 0 <= i < j < s.len() ==> #[trigger] s[i].index < #[trigger] s[j].index,
{
}

/// The partition into detail-fetch chunks loses no entry and invents
/// none: the chunks, taken together, hold exactly the pooled entries.
pub proof fn lemma_chunks_preserve_entries(s: Seq<ComicData>, size: int)
    requires
        size >= 1,
    ensures
        chunks_of(s, size).flatten().to_multiset() == s.to_multiset(),
    decreases s.len(),
{
    broadcast use vstd::seq_lib::group_to_multiset_ensures;

    if s.len() == 0 {
        assert(chunks_of(s, size).flatten() =~= Seq::<ComicData>::empty());
        assert(chunks_of(s, size).flatten().to_multiset() =~= s.to_multiset());
    } else {
        let st = chunk_start(s.len() as int, size);
        let cs = chunks_of(s, size);
        lemma_chunks_preserve_entries(s.take(st), size);
        assert(cs == seq![s.skip(st)] + chunks_of(s.take(st), size));
        assert(cs.first() == s.skip(st));
        assert(cs.drop_first() =~= chunks_of(s.take(st), size));
        assert(cs.flatten() == s.skip(st) + chunks_of(s.take(st), size).flatten());
        vstd::seq_lib::lemma_multiset_commutative(s.skip(st), chunks_of(s.take(st), size).flatten());
        vstd::seq_lib::lemma_multiset_commutative(s.take(st), s.skip(st));
        assert(s.take(st) + s.skip(st) =~= s);
        assert(cs.flatten().to_multiset() =~= s.to_multiset());
    }
}

} // verus!
