//! What holds of every listing that a page is read into.

use crate::download::crawl::{
    classified, entries_of_lines, entries_of_rows, entry_of_line, expanded, group, has_fields,
    heading_name, listing_of_parts, opens_entry, row_entry, row_of_line, ParseError,
    EMPTY_SIZE_STRING, INDEX_OF, POS_SIZE, RX_MAIN,
};
use crate::download::types::NodeModel;
use crate::markup::CellModel;
use crate::pattern::regex_captures;
use vstd::prelude::*;

verus! {

/// Whether `node` is the kind of entry that a row of this size makes: a
/// directory that is still to be crawled where the size is the placeholder,
/// a file otherwise.
pub open spec fn sorted_by_size(node: NodeModel, size: Seq<char>) -> bool {
    if size == EMPTY_SIZE_STRING@ {
        node is PendingDir
    } else {
        node is File
    }
}

/// The name of the directory is what follows "Index of " in the heading:
/// the heading is "Index of " and the name behind it.
pub proof fn law_name_follows_index_of(headings: Seq<Seq<Seq<char>>>)
    ensures
        heading_name(headings) matches Ok(name) ==> headings.len() > 0 && headings[0].len() > 0
            && headings[0][0] == INDEX_OF@ + name,
{
    if let Ok(name) = heading_name(headings) {
        let heading = headings[0][0];
        assert(heading =~= INDEX_OF@ + heading.skip(INDEX_OF@.len() as int));
    }
}

/// The name of a listing that is read from a page's parts is what follows
/// "Index of " in the page's first heading.
pub proof fn law_listing_name_follows_index_of(
    headings: Seq<Seq<Seq<char>>>,
    rows: Option<Seq<Seq<CellModel>>>,
    base: Seq<char>,
)
    ensures
        listing_of_parts(Some(headings), rows, base) matches Ok(listing) ==> headings.len() > 0
            && headings[0].len() > 0 && headings[0][0] == INDEX_OF@ + listing.0,
{
    law_name_follows_index_of(headings);
}

/// A row is a directory or a file by its size alone: where the size is the
/// placeholder the entry is a directory that is still to be crawled,
/// otherwise it is a file. No row makes a crawled directory.
pub proof fn law_rows_sorted_by_size(
    url: Seq<char>,
    name: Seq<char>,
    last_modified: Seq<char>,
    size: Seq<char>,
    description: Seq<char>,
)
    ensures
        classified(url, name, last_modified, size, description) matches Some(node)
            ==> sorted_by_size(node, size),
{
}

/// An entry that was expanded is no directory that is still to be crawled:
/// the page at one URL is asked for once.
pub proof fn law_expansion_leaves_none_pending(node: NodeModel, html: Seq<char>)
    ensures
        expanded(node, html) matches Ok(after) ==> !(after is PendingDir),
        expanded(node, html) matches Ok(after) ==> (node is PendingDir <==> after != node),
        !(node is PendingDir) ==> expanded(node, html) == Ok::<
            NodeModel,
            ParseError,
        >(node),
{
}

/// Whether `line` shows a size and `node` is the kind of entry that a row
/// of this size makes.
pub open spec fn line_sorted(line: Seq<char>, node: NodeModel) -> bool {
    &&& regex_captures(RX_MAIN@, line) is Some
    &&& group(regex_captures(RX_MAIN@, line)->0, POS_SIZE as int) is Some
    &&& sorted_by_size(node, group(regex_captures(RX_MAIN@, line)->0, POS_SIZE as int)->0)
}

/// Whether the fourth child of a table row shows a size and `node` is the
/// kind of entry that a row of this size makes.
pub open spec fn row_sorted(cells: Seq<CellModel>, node: NodeModel) -> bool {
    &&& cells.len() >= 5
    &&& cells[3].text is Some
    &&& sorted_by_size(node, cells[3].text->0)
}

/// Every line that makes an entry makes it by the size that the line
/// shows.
pub proof fn law_lines_sorted_by_size(base: Seq<char>, line: Seq<char>)
    ensures
        row_of_line(base, line) matches Some(node) ==> line_sorted(line, node),
{
}

/// Every line that lists an entry holds all its fields, and the entry is
/// the one that they make.
pub proof fn law_line_entry_is_row(base: Seq<char>, line: Seq<char>)
    ensures
        entry_of_line(base, line) matches Ok(Some(node)) ==> has_fields(line) && row_of_line(
            base,
            line,
        ) == Some(node),
{
}

/// A line that sets out to list an entry and does not hold all its fields
/// is never passed over: it makes the reading fail.
pub proof fn law_broken_line_fails(base: Seq<char>, line: Seq<char>)
    requires
        opens_entry(line),
        !has_fields(line),
    ensures
        entry_of_line(base, line) == Err::<Option<NodeModel>, ParseError>(
            ParseError::MalformedRow,
        ),
{
}

/// A page with a line that fails is no listing: where the lines make a
/// listing, every line either lists an entry or does not set out to list
/// one.
pub proof fn law_listing_has_no_broken_line(base: Seq<char>, lines: Seq<Seq<char>>)
    ensures
        entries_of_lines(base, lines) is Ok ==> forall|i: int|
            0 <= i < lines.len() ==> entry_of_line(base, #[trigger] lines[i]) is Ok,
    decreases lines.len(),
{
    if lines.len() > 0 {
        law_listing_has_no_broken_line(base, lines.drop_last());
        if entries_of_lines(base, lines) is Ok {
            assert forall|i: int| 0 <= i < lines.len() implies entry_of_line(
                base,
                #[trigger] lines[i],
            ) is Ok by {
                if i < lines.len() - 1 {
                    assert(lines.drop_last()[i] == lines[i]);
                }
            }
        }
    }
}

/// Every entry that the lines of a page list is a directory that is still
/// to be crawled or a file: no line makes a crawled directory.
pub proof fn law_lines_make_links(base: Seq<char>, lines: Seq<Seq<char>>)
    ensures
        entries_of_lines(base, lines) matches Ok(nodes) ==> forall|i: int|
            0 <= i < nodes.len() ==> !(#[trigger] nodes[i] is CrawledDir),
    decreases lines.len(),
{
    if lines.len() > 0 {
        law_lines_make_links(base, lines.drop_last());
        law_lines_sorted_by_size(base, lines.last());
    }
}

/// Every table row that makes an entry makes it by the size that the row
/// shows.
pub proof fn law_row_sorted_by_size(base: Seq<char>, cells: Seq<CellModel>)
    ensures
        row_entry(base, cells) matches Ok(node) ==> row_sorted(cells, node),
{
}

/// Where the rows of a page make a listing, there is one entry for each
/// row, in the order of the rows, and each is a directory or a file by the
/// size that its row shows.
pub proof fn law_table_sorted_by_size(base: Seq<char>, rows: Seq<Seq<CellModel>>)
    ensures
        entries_of_rows(base, rows) matches Ok(nodes) ==> nodes.len() == rows.len() && forall|
            i: int,
        |
            0 <= i < rows.len() ==> row_sorted(#[trigger] rows[i], nodes[i]),
    decreases rows.len(),
{
    if rows.len() > 0 {
        law_table_sorted_by_size(base, rows.drop_last());
        if let Ok(nodes) = entries_of_rows(base, rows) {
            let before = entries_of_rows(base, rows.drop_last())->Ok_0;
            law_row_sorted_by_size(base, rows.last());
            assert forall|i: int| 0 <= i < rows.len() implies row_sorted(
                #[trigger] rows[i],
                nodes[i],
            ) by {
                if i < rows.len() - 1 {
                    assert(rows.drop_last()[i] == rows[i]);
                    assert(nodes[i] == before[i]);
                }
            }
        }
    }
}

} // verus!
