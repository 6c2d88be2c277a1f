//! The crawl-and-download engine.

use crate::download::crawl::{
    cheap_extract_from_html, crawled_page, is_listing, sanitize_html, ParseError,
};
use crate::download::types::Node;
use crate::link::parse_url;
use vstd::prelude::*;

pub mod crawl;
pub mod fetch;
pub mod listing_laws;
pub mod types;
pub mod walk_laws;

verus! {

/// Reads the body `html` of the page that was fetched from `url`: the name
/// of the directory it lists and the entries of the listing, in order. The
/// entries are not followed.
///
/// The page's entities are decoded first; the page is then read the pattern
/// way, with `url` as the base of its links.
pub fn crawl_url(url: &str, html: &str) -> (listing: Result<(String, Vec<Node>), ParseError>)
    ensures
        is_listing(listing, crawled_page(url@, html@)),
{
    let text = sanitize_html(html)?;
    if parse_url(url).is_none() {
        return Err(ParseError::UnreadableUrl);
    }
    cheap_extract_from_html(text.as_str(), url)
}

} // verus!
