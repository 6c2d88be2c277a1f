//! Listing pages: how a page is read into entries, and how the tree of
//! entries grows from them.
//!
//! A page is read in one of two ways. The pattern way looks for the fixed
//! markup of a listing line by line; the structural way goes by the
//! document's elements. Both make the same entries of the same rows.

use crate::download::crawl_url;
use crate::download::types::{
    lemma_crawled_dir_view, DirLinkMetaData, DirLinkModel, FileLinkMetaData, FileLinkModel, Node,
    NodeModel,
};
use crate::link::{
    join_url, parse_url, pop_all, popped_all, reached, url_joined, url_parsed,
    url_popped_if_empty,
};
use crate::markup::{
    decode_entities, html_entities_decoded, html_selected_cells, html_selected_texts,
    selected_cells, selected_texts, Cell, CellModel,
};
use crate::pattern::{pattern_captures, regex_captures};
use crate::text::{
    clone_text, contains_part, has_part, lines_of, same_text, split_lines, strip_prefix,
    trim_suffix, without_prefix, without_suffix,
};
use vstd::prelude::*;

verus! {

/// The group of a listing line that holds the link target.
pub const POS_HREF: usize = 1;

/// The group of a listing line that holds the name.
pub const POS_NAME: usize = 2;

/// The group of a listing line that holds the date of the last change.
pub const POS_DATE: usize = 3;

/// The group of a listing line that holds the size.
pub const POS_SIZE: usize = 4;

/// The group of a listing line that holds the description.
pub const POS_DESC: usize = 5;

/// The markup of one listing line.
pub const RX_MAIN: &'static str =
    "</td><td><a href=\"(.+?)\">(.+?)</a></td><td align=\"right\">(.+?)  </td><td align=\"right\">(.+?)</td><td>(.+?)</td></tr>";

/// What the markup of a listing line starts with: a line that holds this
/// sets out to list an entry.
pub const ROW_OPENING: &'static str = "</td><td><a href=\"";

/// What the link to the parent directory ends with. The line of that link
/// lists no entry.
pub const PARENT_LINK: &'static str = "\">Parent Directory</a>";

/// The markup of the heading.
pub const RX_TITLE: &'static str = "<h1>Index of (.+?)</h1>";

/// What a listing shows as the size of a directory.
pub const EMPTY_SIZE_STRING: &'static str = "  - ";

/// What a listing puts behind the date of an entry.
pub const DATE_PADDING: &'static str = "  ";

/// What the heading of a listing starts with.
pub const INDEX_OF: &'static str = "Index of ";

/// Where the heading stands in the document.
pub const HEADING_SELECTOR: &'static str = "body > h1";

/// Where the rows of entries stand in the document: behind the two header
/// rows and the row of the parent directory.
pub const ROW_SELECTOR: &'static str = "body > table > tbody > tr:nth-child(3) ~ tr";

/// The attribute that holds a link's target.
pub const LINK_ATTRIBUTE: &'static str = "href";

/// Why a page is no listing.
#[derive(Debug, Clone, Copy, PartialEq, Eq, Structural)]
pub enum ParseError {
    /// The decoded page is not valid UTF-8.
    InvalidEncoding,
    /// The URL that the page was fetched from cannot be read.
    UnreadableUrl,
    /// The page has no heading.
    MissingHeading,
    /// The heading holds no text.
    EmptyHeading,
    /// The heading does not read "Index of ...".
    UnrecognizedHeading,
    /// A row does not hold a link, a name, a date, a size and a
    /// description.
    MalformedRow,
    /// The target of a row's link cannot be resolved against the page's
    /// URL.
    UnresolvableLink,
}

/// The group at `position`; `None` where there is none or it took no part
/// in the match.
pub open spec fn group(groups: Seq<Option<Seq<char>>>, position: int) -> Option<Seq<char>> {
    if 0 <= position < groups.len() {
        groups[position]
    } else {
        None
    }
}

/// The first group of the first match of `pattern` in `text`.
pub open spec fn first_group(text: Seq<char>, pattern: Seq<char>) -> Option<Seq<char>> {
    match regex_captures(pattern, text) {
        Some(groups) => group(groups, 1),
        None => None,
    }
}

/// `url` without the empty segments at the end of its path.
pub open spec fn cleaned_url(url: Seq<char>) -> Option<Seq<char>> {
    popped_all(url)
}

/// The entry that a row makes of its fields, its link resolved to `url`
/// and `cleaned` being that URL cleaned: a directory that is still to be
/// crawled, at `url`, where the size is the placeholder; a file at the
/// cleaned URL otherwise, and none where there is no cleaned URL.
pub open spec fn entry_from_fields(
    url: Seq<char>,
    cleaned: Option<Seq<char>>,
    name: Seq<char>,
    last_modified: Seq<char>,
    size: Seq<char>,
    description: Seq<char>,
) -> Option<NodeModel> {
    if size == EMPTY_SIZE_STRING@ {
        Some(NodeModel::PendingDir(DirLinkModel { url, name, last_modified, description }))
    } else {
        match cleaned {
            Some(clean) => Some(
                NodeModel::File(
                    FileLinkModel { url: clean, name, last_modified, size, description },
                ),
            ),
            None => None,
        }
    }
}

/// The entry that a row makes once its link is resolved to `url`: a
/// directory that is still to be crawled where the size is the
/// placeholder, a file otherwise. A file's URL is cleaned; the entry is
/// `None` where that cannot be done.
pub open spec fn classified(
    url: Seq<char>,
    name: Seq<char>,
    last_modified: Seq<char>,
    size: Seq<char>,
    description: Seq<char>,
) -> Option<NodeModel> {
    entry_from_fields(url, cleaned_url(url), name, last_modified, size, description)
}

/// The entry that the five fields of a row make on a page at `base`.
pub open spec fn entry_of(
    base: Seq<char>,
    href: Seq<char>,
    name: Seq<char>,
    last_modified: Seq<char>,
    size: Seq<char>,
    description: Seq<char>,
) -> Option<NodeModel> {
    match url_joined(base, href) {
        Some(url) => classified(url, name, last_modified, size, description),
        None => None,
    }
}

/// The entry that a line of a page at `base` makes, where it holds the
/// markup of a listing line.
pub open spec fn row_of_line(base: Seq<char>, line: Seq<char>) -> Option<NodeModel> {
    match regex_captures(RX_MAIN@, line) {
        Some(groups) => match (
            group(groups, POS_HREF as int),
            group(groups, POS_NAME as int),
            group(groups, POS_DATE as int),
            group(groups, POS_SIZE as int),
            group(groups, POS_DESC as int),
        ) {
            (Some(href), Some(name), Some(date), Some(size), Some(description)) => entry_of(
                base,
                href,
                name,
                date,
                size,
                description,
            ),
            _ => None,
        },
        None => None,
    }
}

/// Whether `line` holds the whole markup of a listing line, with all its
/// five fields.
pub open spec fn has_fields(line: Seq<char>) -> bool {
    match regex_captures(RX_MAIN@, line) {
        Some(groups) => {
            &&& group(groups, POS_HREF as int) is Some
            &&& group(groups, POS_NAME as int) is Some
            &&& group(groups, POS_DATE as int) is Some
            &&& group(groups, POS_SIZE as int) is Some
            &&& group(groups, POS_DESC as int) is Some
        },
        None => false,
    }
}

/// Whether `line` sets out to list an entry: it holds the opening of the
/// markup of a listing line, and is not the line of the parent directory.
pub open spec fn opens_entry(line: Seq<char>) -> bool {
    has_part(line, ROW_OPENING@) && !has_part(line, PARENT_LINK@)
}

/// What a line of a page at `base` comes to: the entry that it lists; none
/// where it does not set out to list one; an error where it sets out to
/// list one and does not hold all its fields, or holds them and its link
/// cannot be resolved.
pub open spec fn entry_of_line(base: Seq<char>, line: Seq<char>) -> Result<
    Option<NodeModel>,
    ParseError,
> {
    if has_fields(line) {
        match row_of_line(base, line) {
            Some(node) => Ok(Some(node)),
            None => Err(ParseError::UnresolvableLink),
        }
    } else if opens_entry(line) {
        Err(ParseError::MalformedRow)
    } else {
        Ok(None)
    }
}

/// The entries that `lines` list, in order; the error of the first line
/// that fails. A line that does not set out to list an entry is passed
/// over.
pub open spec fn entries_of_lines(base: Seq<char>, lines: Seq<Seq<char>>) -> Result<
    Seq<NodeModel>,
    ParseError,
>
    decreases lines.len(),
{
    if lines.len() == 0 {
        Ok(Seq::empty())
    } else {
        match entries_of_lines(base, lines.drop_last()) {
            Err(e) => Err(e),
            Ok(before) => match entry_of_line(base, lines.last()) {
                Ok(Some(node)) => Ok(before.push(node)),
                Ok(None) => Ok(before),
                Err(e) => Err(e),
            },
        }
    }
}

/// What the pattern way reads of a page at `base`: the directory's name
/// from the heading, and the entries that the lines list. A page without
/// the heading is no listing, and neither is one with a line that sets out
/// to list an entry and fails.
pub open spec fn cheap_listing(html: Seq<char>, base: Seq<char>) -> Result<
    (Seq<char>, Seq<NodeModel>),
    ParseError,
> {
    match first_group(html, RX_TITLE@) {
        Some(name) => match entries_of_lines(base, lines_of(html)) {
            Ok(nodes) => Ok((name, nodes)),
            Err(e) => Err(e),
        },
        None => Err(ParseError::UnrecognizedHeading),
    }
}

/// The directory's name that the texts of the page's headings give: what
/// follows "Index of " in the first text of the first heading.
pub open spec fn heading_name(headings: Seq<Seq<Seq<char>>>) -> Result<Seq<char>, ParseError> {
    if headings.len() == 0 {
        Err(ParseError::MissingHeading)
    } else if headings[0].len() == 0 {
        Err(ParseError::EmptyHeading)
    } else {
        match without_prefix(headings[0][0], INDEX_OF@) {
            Some(name) => Ok(name),
            None => Err(ParseError::UnrecognizedHeading),
        }
    }
}

/// The entry that a table row makes on a page at `base`. The row's first
/// child is passed over. The second holds the link, whose target is
/// resolved, and whose text is the name; the third, fourth and fifth hold
/// the date, the size and the description. The date is taken without the
/// padding behind it, as the markup of a listing line has it.
pub open spec fn row_entry(base: Seq<char>, cells: Seq<CellModel>) -> Result<
    NodeModel,
    ParseError,
> {
    if cells.len() < 2 || cells[1].link is None {
        Err(ParseError::MalformedRow)
    } else {
        match url_joined(base, cells[1].link->0) {
            None => Err(ParseError::UnresolvableLink),
            Some(url) => if cells.len() < 5 {
                Err(ParseError::MalformedRow)
            } else {
                match (cells[1].link_text, cells[2].text, cells[3].text, cells[4].text) {
                    (Some(name), Some(date), Some(size), Some(description)) => match classified(
                        url,
                        name,
                        without_suffix(date, DATE_PADDING@),
                        size,
                        description,
                    ) {
                        Some(node) => Ok(node),
                        None => Err(ParseError::UnresolvableLink),
                    },
                    _ => Err(ParseError::MalformedRow),
                }
            },
        }
    }
}

/// The entries that `rows` make, in order; the error of the first row that
/// makes none.
pub open spec fn entries_of_rows(base: Seq<char>, rows: Seq<Seq<CellModel>>) -> Result<
    Seq<NodeModel>,
    ParseError,
>
    decreases rows.len(),
{
    if rows.len() == 0 {
        Ok(Seq::empty())
    } else {
        match entries_of_rows(base, rows.drop_last()) {
            Err(e) => Err(e),
            Ok(before) => match row_entry(base, rows.last()) {
                Ok(node) => Ok(before.push(node)),
                Err(e) => Err(e),
            },
        }
    }
}

/// What the headings and the rows of a page at `base` come to: the
/// directory's name and the entries. A page without readable rows is no
/// listing.
pub open spec fn listing_of_parts(
    headings: Option<Seq<Seq<Seq<char>>>>,
    rows: Option<Seq<Seq<CellModel>>>,
    base: Seq<char>,
) -> Result<(Seq<char>, Seq<NodeModel>), ParseError> {
    match headings {
        None => Err(ParseError::MissingHeading),
        Some(headings) => match heading_name(headings) {
            Err(e) => Err(e),
            Ok(name) => match rows {
                None => Err(ParseError::MalformedRow),
                Some(rows) => match entries_of_rows(base, rows) {
                    Ok(nodes) => Ok((name, nodes)),
                    Err(e) => Err(e),
                },
            },
        },
    }
}

/// What the structural way reads of a page at `base`.
pub open spec fn structural_listing(html: Seq<char>, base: Seq<char>) -> Result<
    (Seq<char>, Seq<NodeModel>),
    ParseError,
> {
    listing_of_parts(
        html_selected_texts(html, HEADING_SELECTOR@),
        html_selected_cells(html, ROW_SELECTOR@, LINK_ATTRIBUTE@),
        base,
    )
}

/// What a page fetched from `url` comes to: its entities are decoded, the
/// URL is read, and the pattern way reads the listing.
pub open spec fn crawled_page(url: Seq<char>, html: Seq<char>) -> Result<
    (Seq<char>, Seq<NodeModel>),
    ParseError,
> {
    match html_entities_decoded(html) {
        None => Err(ParseError::InvalidEncoding),
        Some(text) => if url_parsed(url) is None {
            Err(ParseError::UnreadableUrl)
        } else {
            cheap_listing(text, url)
        },
    }
}

/// Whether a listing in executable form has the value `model`.
pub open spec fn is_listing(
    listing: Result<(String, Vec<Node>), ParseError>,
    model: Result<(Seq<char>, Seq<NodeModel>), ParseError>,
) -> bool {
    match listing {
        Ok((name, nodes)) => model == Ok::<(Seq<char>, Seq<NodeModel>), ParseError>(
            (name@, nodes.deep_view()),
        ),
        Err(e) => model == Err::<(Seq<char>, Seq<NodeModel>), ParseError>(e),
    }
}

/// Takes the empty segments off the end of the path of `url`, all of them:
/// the result is reached by taking one off at a time, and has none left to
/// take off, so that cleaning it again changes nothing. The result is
/// `None` where `url` is no URL or has no path of segments.
pub fn clean_url(url: &str) -> (cleaned: Option<String>)
    ensures
        cleaned.deep_view() == cleaned_url(url@),
        cleaned matches Some(clean) ==> {
            &&& reached(url@, clean@)
            &&& url_popped_if_empty(clean@) == Some(clean@)
            &&& cleaned_url(clean@) == Some(clean@)
        },
{
    proof {
        crate::link::law_popped_all_settles(url@);
    }
    pop_all(url)
}

/// Whether `size` is what a listing shows as the size of a directory.
pub fn is_directory_size(size: &str) -> (placeholder: bool)
    ensures
        placeholder == (size@ == EMPTY_SIZE_STRING@),
{
    same_text(size, EMPTY_SIZE_STRING)
}

/// Makes the entry of a row of its fields, its link resolved to `url` and
/// `cleaned` being that URL cleaned: a directory that is still to be
/// crawled where `size` is the placeholder, a file at the cleaned URL
/// otherwise.
pub fn entry_from(
    url: String,
    cleaned: Option<String>,
    name: String,
    last_modified: String,
    size: String,
    description: String,
) -> (node: Option<Node>)
    ensures
        node.deep_view() == entry_from_fields(
            url@,
            cleaned.deep_view(),
            name@,
            last_modified@,
            size@,
            description@,
        ),
        node matches Some(n) ==> (n is PendingDir <==> size@ == EMPTY_SIZE_STRING@) && (n is File
            <==> size@ != EMPTY_SIZE_STRING@),
{
    if is_directory_size(size.as_str()) {
        Some(Node::PendingDir(DirLinkMetaData { url, name, last_modified, description }))
    } else {
        match cleaned {
            Some(clean) => Some(
                Node::File(FileLinkMetaData { url: clean, name, last_modified, size, description }),
            ),
            None => None,
        }
    }
}

/// Makes the entry of a row whose link is resolved to `url`: a directory
/// that is still to be crawled where `size` is the placeholder, a file with
/// a cleaned URL otherwise.
pub fn classify(
    url: String,
    name: String,
    last_modified: String,
    size: String,
    description: String,
) -> (node: Option<Node>)
    ensures
        node.deep_view() == classified(url@, name@, last_modified@, size@, description@),
        node matches Some(n) ==> (n is PendingDir <==> size@ == EMPTY_SIZE_STRING@) && (n is File
            <==> size@ != EMPTY_SIZE_STRING@),
{
    let cleaned = if is_directory_size(size.as_str()) {
        None
    } else {
        clean_url(url.as_str())
    };
    entry_from(url, cleaned, name, last_modified, size, description)
}

/// A copy of the group at `position`.
fn group_at(groups: &Vec<Option<String>>, position: usize) -> (found: Option<String>)
    ensures
        found.deep_view() == group(groups.deep_view(), position as int),
{
    if position < groups.len() {
        match &groups[position] {
            Some(text) => Some(text.clone()),
            None => None,
        }
    } else {
        None
    }
}

/// The first group of the first match of `pattern` in `text`; an error
/// where there is no match or no such group.
pub fn get_first(text: &str, pattern: &str) -> (found: Result<String, ParseError>)
    ensures
        match found {
            Ok(name) => first_group(text@, pattern@) == Some(name@),
            Err(e) => first_group(text@, pattern@) is None && e == ParseError::UnrecognizedHeading,
        },
{
    match pattern_captures(pattern, text) {
        Some(groups) => match group_at(&groups, 1) {
            Some(name) => Ok(name),
            None => Err(ParseError::UnrecognizedHeading),
        },
        None => Err(ParseError::UnrecognizedHeading),
    }
}

/// Reads a line of a page at `base_url`: the entry that the line lists,
/// or none where the line does not set out to list one. A line that sets
/// out to list an entry and does not hold all its fields is an error, and
/// so is one whose link cannot be resolved.
pub fn cheap_read_line(base_url: &str, line: &str) -> (entry: Result<Option<Node>, ParseError>)
    ensures
        match entry {
            Ok(node) => entry_of_line(base_url@, line@) == Ok::<Option<NodeModel>, ParseError>(
                node.deep_view(),
            ),
            Err(e) => entry_of_line(base_url@, line@) == Err::<Option<NodeModel>, ParseError>(e),
        },
{
    let fields = match pattern_captures(RX_MAIN, line) {
        Some(groups) => (
            group_at(&groups, POS_HREF),
            group_at(&groups, POS_NAME),
            group_at(&groups, POS_DATE),
            group_at(&groups, POS_SIZE),
            group_at(&groups, POS_DESC),
        ),
        None => (None, None, None, None, None),
    };
    match fields {
        (Some(href), Some(name), Some(last_modified), Some(size), Some(description)) => {
            let node = match join_url(base_url, href.as_str()) {
                Some(url) => classify(url, name, last_modified, size, description),
                None => None,
            };
            match node {
                Some(node) => Ok(Some(node)),
                None => Err(ParseError::UnresolvableLink),
            }
        },
        _ => {
            if contains_part(line, ROW_OPENING) && !contains_part(line, PARENT_LINK) {
                Err(ParseError::MalformedRow)
            } else {
                Ok(None)
            }
        },
    }
}

/// Turns a line of a page at `base_url` into an entry, where the line holds
/// the markup of a listing line and its link can be resolved.
pub fn cheap_process_row(base_url: &str, line: &str) -> (node: Option<Node>)
    ensures
        node.deep_view() == row_of_line(base_url@, line@),
{
    match cheap_read_line(base_url, line) {
        Ok(node) => node,
        Err(_) => None,
    }
}

/// Lines that fail up to some line fail as a whole, with the same error.
pub proof fn lemma_lines_fail(base: Seq<char>, lines: Seq<Seq<char>>, upto: int)
    requires
        0 <= upto <= lines.len(),
        entries_of_lines(base, lines.take(upto)) is Err,
    ensures
        entries_of_lines(base, lines) == entries_of_lines(base, lines.take(upto)),
    decreases lines.len() - upto,
{
    if upto < lines.len() {
        assert(lines.take(upto + 1).drop_last() =~= lines.take(upto));
        lemma_lines_fail(base, lines, upto + 1);
    } else {
        assert(lines.take(upto) =~= lines);
    }
}

/// Reads a page at `base_url` the pattern way: the directory's name from
/// the heading, and one entry for each line that lists one, in the order of
/// the lines. The first line that sets out to list an entry and fails ends
/// the reading with its error.
pub fn cheap_extract_from_html(html: &str, base_url: &str) -> (listing: Result<
    (String, Vec<Node>),
    ParseError,
>)
    ensures
        is_listing(listing, cheap_listing(html@, base_url@)),
{
    let name = get_first(html, RX_TITLE)?;
    let lines = split_lines(html);
    let mut nodes: Vec<Node> = Vec::new();
    let ghost all = lines.deep_view();
    let mut i: usize = 0;
    assert(all.take(0) =~= Seq::<Seq<char>>::empty());
    assert(nodes.deep_view() =~= Seq::<NodeModel>::empty());
    while i < lines.len()
        invariant
            i <= lines.len(),
            all == lines.deep_view(),
            all == lines_of(html@),
            first_group(html@, RX_TITLE@) == Some(name@),
            entries_of_lines(base_url@, all.take(i as int)) == Ok::<Seq<NodeModel>, ParseError>(
                nodes.deep_view(),
            ),
        decreases lines.len() - i,
    {
        let ghost before = nodes.deep_view();
        assert(all.take(i + 1).drop_last() =~= all.take(i as int));
        assert(all.take(i + 1).last() == lines@[i as int]@);
        match cheap_read_line(base_url, lines[i].as_str()) {
            Ok(Some(node)) => {
                nodes.push(node);
                assert(nodes.deep_view() =~= before.push(node.deep_view()));
            },
            Ok(None) => {},
            Err(e) => {
                proof {
                    lemma_lines_fail(base_url@, all, i + 1);
                }
                return Err(e);
            },
        }
        i += 1;
    }
    assert(all.take(i as int) =~= all);
    Ok((name, nodes))
}

/// The directory's name that a heading gives: what follows "Index of ".
pub fn directory_name(heading: &str) -> (name: Option<String>)
    ensures
        name.deep_view() == without_prefix(heading@, INDEX_OF@),
        name matches Some(n) ==> heading@ == INDEX_OF@ + n@,
{
    let name = strip_prefix(heading, INDEX_OF);
    proof {
        if name is Some {
            assert(heading@ =~= INDEX_OF@ + heading@.skip(INDEX_OF@.len() as int));
        }
    }
    name
}

/// Turns a table row of a page at `base_url` into an entry. `cells` holds
/// the row's children, the first of which is passed over.
pub fn process_row(cells: &Vec<Cell>, base_url: &str) -> (node: Result<Node, ParseError>)
    ensures
        match node {
            Ok(n) => row_entry(base_url@, cells.deep_view()) == Ok::<NodeModel, ParseError>(
                n.deep_view(),
            ),
            Err(e) => row_entry(base_url@, cells.deep_view()) == Err::<NodeModel, ParseError>(e),
        },
{
    if cells.len() < 2 {
        return Err(ParseError::MalformedRow);
    }
    let ghost row = cells.deep_view();
    assert(row[1] == cells@[1].deep_view());
    let href = match clone_text(&cells[1].link) {
        Some(href) => href,
        None => {
            return Err(ParseError::MalformedRow);
        },
    };
    let url = match join_url(base_url, href.as_str()) {
        Some(url) => url,
        None => {
            return Err(ParseError::UnresolvableLink);
        },
    };
    if cells.len() < 5 {
        return Err(ParseError::MalformedRow);
    }
    assert(row[2] == cells@[2].deep_view());
    assert(row[3] == cells@[3].deep_view());
    assert(row[4] == cells@[4].deep_view());
    let name = clone_text(&cells[1].link_text);
    let last_modified = clone_text(&cells[2].text);
    let size = clone_text(&cells[3].text);
    let description = clone_text(&cells[4].text);
    match (name, last_modified, size, description) {
        (Some(name), Some(last_modified), Some(size), Some(description)) => match classify(
            url,
            name,
            trim_suffix(last_modified.as_str(), DATE_PADDING),
            size,
            description,
        ) {
            Some(node) => Ok(node),
            None => Err(ParseError::UnresolvableLink),
        },
        _ => Err(ParseError::MalformedRow),
    }
}

/// Makes the listing of a page at `base_url` from the texts of its
/// headings and the cells of its rows, as the document reader found them.
pub fn listing_from_parts(
    headings: &Option<Vec<Vec<String>>>,
    rows: &Option<Vec<Vec<Cell>>>,
    base_url: &str,
) -> (listing: Result<(String, Vec<Node>), ParseError>)
    ensures
        is_listing(listing, listing_of_parts(headings.deep_view(), rows.deep_view(), base_url@)),
{
    let texts = match headings {
        Some(texts) => texts,
        None => {
            return Err(ParseError::MissingHeading);
        },
    };
    if texts.len() == 0 {
        return Err(ParseError::MissingHeading);
    }
    assert(texts.deep_view()[0] == texts@[0].deep_view());
    if texts[0].len() == 0 {
        return Err(ParseError::EmptyHeading);
    }
    assert(texts.deep_view()[0][0] == texts@[0]@[0]@);
    let name = match directory_name(texts[0][0].as_str()) {
        Some(name) => name,
        None => {
            return Err(ParseError::UnrecognizedHeading);
        },
    };
    let table = match rows {
        Some(table) => table,
        None => {
            return Err(ParseError::MalformedRow);
        },
    };
    let ghost all = table.deep_view();
    let mut nodes: Vec<Node> = Vec::new();
    let mut i: usize = 0;
    assert(all.take(0) =~= Seq::<Seq<CellModel>>::empty());
    assert(nodes.deep_view() =~= Seq::<NodeModel>::empty());
    while i < table.len()
        invariant
            i <= table.len(),
            all == table.deep_view(),
            rows.deep_view() == Some(all),
            entries_of_rows(base_url@, all.take(i as int)) == Ok::<Seq<NodeModel>, ParseError>(
                nodes.deep_view(),
            ),
            headings.deep_view() matches Some(h) && heading_name(h) == Ok::<
                Seq<char>,
                ParseError,
            >(name@),
        decreases table.len() - i,
    {
        let ghost before = nodes.deep_view();
        assert(all.take(i + 1).drop_last() =~= all.take(i as int));
        assert(all.take(i + 1).last() == table@[i as int].deep_view());
        match process_row(&table[i], base_url) {
            Ok(node) => {
                nodes.push(node);
                assert(nodes.deep_view() =~= before.push(node.deep_view()));
            },
            Err(e) => {
                proof {
                    lemma_rows_fail(base_url@, all, i + 1);
                }
                return Err(e);
            },
        }
        i += 1;
    }
    assert(all.take(i as int) =~= all);
    Ok((name, nodes))
}

/// Rows that fail up to some row fail as a whole, with the same error.
pub proof fn lemma_rows_fail(base: Seq<char>, rows: Seq<Seq<CellModel>>, upto: int)
    requires
        0 <= upto <= rows.len(),
        entries_of_rows(base, rows.take(upto)) is Err,
    ensures
        entries_of_rows(base, rows) == entries_of_rows(base, rows.take(upto)),
    decreases rows.len() - upto,
{
    if upto < rows.len() {
        assert(rows.take(upto + 1).drop_last() =~= rows.take(upto));
        lemma_rows_fail(base, rows, upto + 1);
    } else {
        assert(rows.take(upto) =~= rows);
    }
}

/// Reads a page at `base_url` the structural way: the directory's name
/// from the first heading, and one entry for each row of the table behind
/// the header rows, in document order. The first row that is no entry ends
/// the reading with its error.
pub fn extract_from_html(html_string: &str, base_url: &str) -> (listing: Result<
    (String, Vec<Node>),
    ParseError,
>)
    ensures
        is_listing(listing, structural_listing(html_string@, base_url@)),
{
    let headings = selected_texts(html_string, HEADING_SELECTOR);
    let rows = selected_cells(html_string, ROW_SELECTOR, LINK_ATTRIBUTE);
    listing_from_parts(&headings, &rows, base_url)
}

/// Decodes the HTML entities of `text`.
pub fn sanitize_html(text: &str) -> (decoded: Result<String, ParseError>)
    ensures
        match decoded {
            Ok(clean) => html_entities_decoded(text@) == Some(clean@),
            Err(e) => html_entities_decoded(text@) is None && e == ParseError::InvalidEncoding,
        },
{
    match decode_entities(text) {
        Some(clean) => Ok(clean),
        None => Err(ParseError::InvalidEncoding),
    }
}

/// The root of the tree, made of the body `html` of the page fetched from
/// `url`: a crawled directory under the name that the page gives, without
/// date and description, with the page's entries as children. Its URL is
/// `url` in the form in which the URL parser writes it.
pub fn get_root_dir(url: &str, html: &str) -> (root: Result<Node, ParseError>)
    ensures
        match root {
            Ok(node) => {
                &&& crawled_page(url@, html@) is Ok
                &&& url_parsed(url@) is Some
                &&& node.deep_view() == NodeModel::CrawledDir(
                    DirLinkModel {
                        url: url_parsed(url@)->0,
                        name: crawled_page(url@, html@)->Ok_0.0,
                        last_modified: Seq::empty(),
                        description: Seq::empty(),
                    },
                    crawled_page(url@, html@)->Ok_0.1,
                )
            },
            Err(e) => crawled_page(url@, html@) == Err::<(Seq<char>, Seq<NodeModel>), ParseError>(
                e,
            ),
        },
{
    let (name, children) = crawl_url(url, html)?;
    let address = match parse_url(url) {
        Some(address) => address,
        None => {
            return Err(ParseError::UnreadableUrl);
        },
    };
    let node = Node::CrawledDir(
        DirLinkMetaData {
            url: address,
            name,
            description: String::new(),
            last_modified: String::new(),
        },
        children,
    );
    proof {
        lemma_crawled_dir_view(node);
    }
    Ok(node)
}

/// Whether no entry of `nodes` before `end` is a directory that is still
/// to be crawled.
pub open spec fn none_pending_before(nodes: Seq<Node>, end: int) -> bool {
    forall|j: int| 0 <= j < end && j < nodes.len() ==> !(#[trigger] nodes[j] is PendingDir)
}

/// The place and the URL of the first entry of `nodes` that is a directory
/// still to be crawled: the page to fetch next. `None` where every
/// directory is crawled.
pub fn next_pending(nodes: &Vec<Node>) -> (next: Option<(usize, String)>)
    ensures
        match next {
            Some((index, url)) => {
                &&& index < nodes.len()
                &&& nodes@[index as int] matches Node::PendingDir(dir) && dir.url@ == url@
                &&& none_pending_before(nodes@, index as int)
            },
            None => none_pending_before(nodes@, nodes.len() as int),
        },
{
    let mut i: usize = 0;
    while i < nodes.len()
        invariant
            i <= nodes.len(),
            none_pending_before(nodes@, i as int),
        decreases nodes.len() - i,
    {
        if let Node::PendingDir(dir) = &nodes[i] {
            return Some((i, dir.url.clone()));
        }
        i += 1;
    }
    None
}

/// What the entry `node` becomes when `html` is the body of the page
/// fetched from its URL: a directory that is still to be crawled becomes a
/// crawled one, under the name that the page gives, with the page's entries
/// as children; any other entry stays as it is.
pub open spec fn expanded(node: NodeModel, html: Seq<char>) -> Result<NodeModel, ParseError> {
    match node {
        NodeModel::PendingDir(dir) => match crawled_page(dir.url, html) {
            Ok((name, children)) => Ok(
                NodeModel::CrawledDir(DirLinkModel { name, ..dir }, children),
            ),
            Err(e) => Err(e),
        },
        _ => Ok(node),
    }
}

/// Expands the entry at `index` with the body `html` of the page fetched
/// from its URL. A directory that is still to be crawled is replaced by a
/// crawled one that carries the page's entries; the entries of the page are
/// not expanded themselves. Files and crawled directories are left as they
/// are, and so is every other entry of `nodes`. Where the page is no
/// listing, nothing changes.
pub fn expand_node(nodes: &mut Vec<Node>, index: usize, html: &str) -> (outcome: Result<
    (),
    ParseError,
>)
    requires
        index < old(nodes).len(),
    ensures
        final(nodes).len() == old(nodes).len(),
        forall|j: int|
            0 <= j < old(nodes).len() && j != index ==> final(nodes)@[j] == old(nodes)@[j],
        match outcome {
            Ok(()) => expanded(old(nodes)@[index as int].deep_view(), html@) == Ok::<
                NodeModel,
                ParseError,
            >(final(nodes)@[index as int].deep_view()),
            Err(e) => {
                &&& expanded(old(nodes)@[index as int].deep_view(), html@) == Err::<
                    NodeModel,
                    ParseError,
                >(e)
                &&& final(nodes)@ == old(nodes)@
            },
        },
{
    let replacement = match &nodes[index] {
        Node::PendingDir(dir) => {
            let (name, children) = crawl_url(dir.url.as_str(), html)?;
            let node = Node::CrawledDir(
                DirLinkMetaData {
                    url: dir.url.clone(),
                    name,
                    description: dir.description.clone(),
                    last_modified: dir.last_modified.clone(),
                },
                children,
            );
            proof {
                lemma_crawled_dir_view(node);
            }
            node
        },
        other => {
            proof {
                if other is CrawledDir {
                    lemma_crawled_dir_view(*other);
                }
            }
            return Ok(());
        },
    };
    nodes.set(index, replacement);
    Ok(())
}

/// The entries below `tree`: the children of a crawled directory, none
/// for any other entry.
pub open spec fn children_of(tree: Node) -> Seq<Node> {
    match tree {
        Node::CrawledDir(_, children) => children@,
        _ => Seq::empty(),
    }
}

/// What is known about the directory `tree` itself, where it is a crawled
/// directory.
pub open spec fn about_of(tree: Node) -> Option<DirLinkMetaData> {
    match tree {
        Node::CrawledDir(dir, _) => Some(dir),
        _ => None,
    }
}

/// The place and the URL of the first child of `tree` that is a directory
/// still to be crawled: the page to fetch next. `None` where `tree` is no
/// crawled directory or every directory below it is crawled.
pub fn next_pending_child(tree: &Node) -> (next: Option<(usize, String)>)
    ensures
        match next {
            Some((index, url)) => {
                &&& index < children_of(*tree).len()
                &&& children_of(*tree)[index as int] matches Node::PendingDir(dir) && dir.url@
                    == url@
                &&& none_pending_before(children_of(*tree), index as int)
            },
            None => none_pending_before(children_of(*tree), children_of(*tree).len() as int),
        },
{
    match tree {
        Node::CrawledDir(_, children) => next_pending(children),
        _ => None,
    }
}

/// Expands the child at `index` of the crawled directory `tree` with the
/// body `html` of the page fetched from the child's URL, as [`expand_node`]
/// does. The directory itself and its other children stay as they are;
/// the children of the child are not expanded.
pub fn expand_tree(tree: &mut Node, index: usize, html: &str) -> (outcome: Result<
    (),
    ParseError,
>)
    requires
        index < children_of(*old(tree)).len(),
    ensures
        about_of(*final(tree)) is Some,
        about_of(*final(tree)) == about_of(*old(tree)),
        children_of(*final(tree)).len() == children_of(*old(tree)).len(),
        forall|j: int|
            0 <= j < children_of(*old(tree)).len() && j != index ==> children_of(
                *final(tree),
            )[j] == children_of(*old(tree))[j],
        match outcome {
            Ok(()) => expanded(children_of(*old(tree))[index as int].deep_view(), html@) == Ok::<
                NodeModel,
                ParseError,
            >(children_of(*final(tree))[index as int].deep_view()),
            Err(e) => {
                &&& expanded(children_of(*old(tree))[index as int].deep_view(), html@) == Err::<
                    NodeModel,
                    ParseError,
                >(e)
                &&& children_of(*final(tree)) == children_of(*old(tree))
            },
        },
{
    match tree {
        Node::CrawledDir(_, children) => expand_node(children, index, html),
        _ => Ok(()),
    }
}

} // verus!
