//! HTML text, decoded by the `html_escape` crate and read by the `scraper`
//! crate.
//!
//! What the two crates make of a text is not restated here: the spec
//! functions of this module name their answers, and the executable
//! functions make the calls and hand the answers out as plain values.

use html_escape::decode_html_entities_to_vec;
use scraper::{Html, Selector};
use vstd::prelude::*;

verus! {

/// What a listing reads of one child of a table row: the first node below
/// it.
#[derive(Debug, Clone, PartialEq, Eq)]
pub struct Cell {
    /// The value of the attribute asked for, where the first node is an
    /// element that has it.
    pub link: Option<String>,
    /// The text of the first node below the first node, where that is a
    /// text.
    pub link_text: Option<String>,
    /// The text of the first node, where it is a text.
    pub text: Option<String>,
}

/// The mathematical value of a [`Cell`].
pub struct CellModel {
    pub link: Option<Seq<char>>,
    pub link_text: Option<Seq<char>>,
    pub text: Option<Seq<char>>,
}

impl DeepView for Cell {
    type V = CellModel;

    open spec fn deep_view(&self) -> CellModel {
        CellModel {
            link: self.link.deep_view(),
            link_text: self.link_text.deep_view(),
            text: self.text.deep_view(),
        }
    }
}

/// The text that `html_escape::decode_html_entities_to_vec` writes for
/// `text`, read as UTF-8; `None` where the bytes written are not UTF-8.
pub uninterp spec fn html_entities_decoded(text: Seq<char>) -> Option<Seq<char>>;

/// For each element that `scraper::Html::select` finds in the document
/// parsed from `html`, in the order in which the nodes were put into the
/// document's tree, the texts that
/// `scraper::ElementRef::text` yields; `None` where `selector` is no
/// selector.
pub uninterp spec fn html_selected_texts(html: Seq<char>, selector: Seq<char>) -> Option<
    Seq<Seq<Seq<char>>>,
>;

/// For each element that `scraper::Html::select` finds in the document
/// parsed from `html`, in the order in which the nodes were put into the
/// document's tree, what each of its child nodes
/// shows as a [`Cell`], with `attribute` as the attribute asked for; `None`
/// where `selector` is no selector.
pub uninterp spec fn html_selected_cells(
    html: Seq<char>,
    selector: Seq<char>,
    attribute: Seq<char>,
) -> Option<Seq<Seq<CellModel>>>;

/// Decodes the HTML entities of `text` with
/// `html_escape::decode_html_entities_to_vec` and reads the bytes as UTF-8.
///
/// Not proved: that the result is the decoded text.
#[verifier::external_body]
pub(crate) fn decode_entities(text: &str) -> (decoded: Option<String>)
    ensures
        decoded.deep_view() == html_entities_decoded(text@),
{
    let mut bytes = Vec::new();
    decode_html_entities_to_vec(text, &mut bytes);
    String::from_utf8(bytes).ok()
}

/// Parses `html` with `scraper::Html::parse_document`, selects with
/// `scraper::Html::select` and collects, for each element found, the texts
/// that `scraper::ElementRef::text` yields.
///
/// Not proved: that the texts are those of the selected elements.
#[verifier::external_body]
pub(crate) fn selected_texts(html: &str, selector: &str) -> (texts: Option<Vec<Vec<String>>>)
    ensures
        texts.deep_view() == html_selected_texts(html@, selector@),
{
    let document = Html::parse_document(html);
    let selector = Selector::parse(selector).ok()?;
    let found = document.select(&selector);
    Some(found.map(|element| element.text().map(|text| text.to_owned()).collect()).collect())
}

/// Parses `html` with `scraper::Html::parse_document`, selects with
/// `scraper::Html::select` and collects, for each element found, its child
/// nodes: of each the first node below it, by its attribute, its text, and
/// the text of the first node below that one.
///
/// Not proved: that the cells show the child nodes of the selected
/// elements.
#[verifier::external_body]
pub(crate) fn selected_cells(html: &str, selector: &str, attribute: &str) -> (rows: Option<
    Vec<Vec<Cell>>,
>)
    ensures
        rows.deep_view() == html_selected_cells(html@, selector@, attribute@),
{
    let document = Html::parse_document(html);
    let selector = Selector::parse(selector).ok()?;
    let cells = document.select(&selector).map(|row| row.children().map(|child| {
        let first = child.first_child();
        let inner = first.and_then(|node| node.first_child());
        Cell {
            link: first.and_then(|n| n.value().as_element()?.attr(attribute)).map(str::to_owned),
            link_text: inner.and_then(|n| n.value().as_text()).map(|t| t.to_string()),
            text: first.and_then(|n| n.value().as_text()).map(|t| t.to_string()),
        }
    }).collect());
    Some(cells.collect())
}

} // verus!
