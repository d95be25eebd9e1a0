//! The parsed-page model the extraction rules work on.
//!
//! HTML parsing and selector mechanics are a collaborator outside this
//! crate. What the rules actually read of a page is small: the text of a
//! node, the link target a node carries itself or in its first linked
//! descendant, the anchors of a table cell, and the link/title pairs and
//! running text of a detail page. These types carry exactly that, in
//! document order.

use vstd::prelude::*;

verus! {

/// One node of interest: its plain text, the link target on the node
/// itself, and the link targets of its descendants in document order.
#[derive(Debug, Clone)]
pub struct PageNode {
    pub text: String,
    pub href: Option<String>,
    pub descendant_hrefs: Vec<String>,
}

/// The link a node resolves to: its own target first, else the target of
/// its first linked descendant.
pub open spec fn node_link(n: PageNode) -> Option<Seq<char>> {
    match n.href {
        Some(h) => Some(h@),
        None => if n.descendant_hrefs@.len() > 0 {
            Some(n.descendant_hrefs@[0]@)
        } else {
            None
        },
    }
}

/// One cell of a listing-table row, with the anchors found under it in
/// document order.
#[derive(Debug, Clone)]
pub struct TableCell {
    pub node: PageNode,
    pub anchors: Vec<PageNode>,
}

/// One row of a sub-listing table, header row already skipped.
#[derive(Debug, Clone)]
pub struct ListingRow {
    pub cells: Vec<TableCell>,
}

/// One link found in the main content table of a detail page: its target
/// and its title attribute, if it carries one.
#[derive(Debug, Clone)]
pub struct DetailLink {
    pub href: String,
    pub title: Option<String>,
}

/// What the detail rules read of one item's detail page: the links of the
/// main content table, and the plain text of every heading,
/// definition-list and paragraph node under the content region, in
/// document order.
#[derive(Debug, Clone)]
pub struct DetailPage {
    pub table_links: Vec<DetailLink>,
    pub content_texts: Vec<String>,
}

} // verus!
