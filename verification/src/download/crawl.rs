//! The listing parser and the expansion of the node tree.
//!
//! A listing page carries one heading, `Index of <name>`, and a table with
//! one row on each line. Both are found with patterns; what a pattern finds
//! in a text is named by [`captures_of`], and the contracts here say what
//! the parser makes of it.

use super::foreign::{
    captures_of, decode_entities, decoded_entities, drop_empty_last_segment, groups_view,
    join_url, joined_url, regex_captures_each, split_at_line_feed, string_from_utf8,
    without_empty_last_segment,
};
use super::types::{
    lemma_trees_empty, lemma_trees_push, trees, CrawlError, DirLinkMetaData, DirMeta,
    FileLinkMetaData, FileMeta, Node, Tree,
};
use vstd::prelude::*;
use vstd::string::*;
use vstd::utf8::*;

verus! {

/// Pattern of the heading that names the directory.
pub const RX_TITLE: &'static str = "<h1>Index of (.+?)</h1>";

/// Pattern of one row of the listing's table.
pub const RX_MAIN: &'static str =
    "</td><td><a href=\"(.+?)\">(.+?)</a></td><td align=\"right\">(.+?)  </td><td align=\"right\">(.+?)</td><td>(.+?)</td></tr>";

/// What the size column shows for a row that is no file.
pub const EMPTY_SIZE_STRING: &'static str = "  - ";

/// Capture group of a row's link target.
pub const POS_HREF: usize = 1;

/// Capture group of a row's link text.
pub const POS_NAME: usize = 2;

/// Capture group of a row's last-modified column.
pub const POS_DATE: usize = 3;

/// Capture group of a row's size column.
pub const POS_SIZE: usize = 4;

/// Capture group of a row's description column.
pub const POS_DESC: usize = 5;

/// How many trailing empty path segments are taken off a file's URL at most.
pub const MAX_TRAILING_SEGMENTS: usize = 17;

/// The text of capture group `index`, if the match has that group.
pub open spec fn group(groups: Seq<Option<Seq<char>>>, index: int) -> Option<Seq<char>> {
    if 0 <= index < groups.len() {
        groups[index]
    } else {
        None
    }
}

/// The first capture group of the first match of `pattern` in `text`.
pub open spec fn first_match(text: Seq<char>, pattern: Seq<char>) -> Result<
    Seq<char>,
    CrawlError,
> {
    match captures_of(pattern, text) {
        Some(groups) => match group(groups, 1) {
            Some(found) => Ok(found),
            None => Err(CrawlError::MalformedListing),
        },
        None => Err(CrawlError::MalformedListing),
    }
}

/// Copies capture group `index` out of a match.
fn group_text(groups: &Vec<Option<String>>, index: usize) -> (text: Option<String>)
    ensures
        match text {
            Some(t) => group(groups_view(groups@), index as int) == Some(t@),
            None => group(groups_view(groups@), index as int) is None,
        },
{
    if index < groups.len() {
        match &groups[index] {
            Some(found) => Some(found.clone()),
            None => None,
        }
    } else {
        None
    }
}

/// Searches one text for a pattern.
fn captures(pattern: &str, text: &str) -> (found: Option<Vec<Option<String>>>)
    ensures
        match found {
            Some(groups) => captures_of(pattern@, text@) == Some(groups_view(groups@)),
            None => captures_of(pattern@, text@) is None,
        },
{
    let mut texts: Vec<&str> = Vec::new();
    texts.push(text);
    let mut found = regex_captures_each(pattern, &texts);
    assert(texts[0]@ == text@);
    match found.pop() {
        Some(only) => only,
        None => None,
    }
}

/// Returns the first capture group of the first match of `pattern` in
/// `text`, or `MalformedListing` if there is no match or no such group.
pub fn get_first(text: &str, pattern: &str) -> (found: Result<String, CrawlError>)
    ensures
        match found {
            Ok(t) => first_match(text@, pattern@) == Ok::<Seq<char>, CrawlError>(t@),
            Err(e) => first_match(text@, pattern@) == Err::<Seq<char>, CrawlError>(e),
        },
{
    match captures(pattern, text) {
        Some(groups) => match group_text(&groups, 1) {
            Some(found) => Ok(found),
            None => Err(CrawlError::MalformedListing),
        },
        None => Err(CrawlError::MalformedListing),
    }
}

/// `url` after `times` rounds of taking an empty last path segment off.
pub open spec fn strip_trailing(url: Seq<char>, times: nat) -> Seq<char>
    decreases times,
{
    if times == 0 {
        url
    } else {
        strip_trailing(without_empty_last_segment(url), (times - 1) as nat)
    }
}

/// A file's URL as the tree keeps it.
pub open spec fn cleaned_url(url: Seq<char>) -> Seq<char> {
    strip_trailing(url, MAX_TRAILING_SEGMENTS as nat)
}

/// Once a round changes nothing, no later round does.
proof fn lemma_strip_fixed_point(url: Seq<char>, times: nat)
    requires
        without_empty_last_segment(url) == url,
    ensures
        strip_trailing(url, times) == url,
    decreases times,
{
    if times > 0 {
        lemma_strip_fixed_point(url, (times - 1) as nat);
    }
}

/// Takes up to [`MAX_TRAILING_SEGMENTS`] empty segments off the end of the
/// URL's path. More than that many are no error: the rest stays.
pub fn clean_url(url: String) -> (cleaned: String)
    ensures
        cleaned@ == cleaned_url(url@),
{
    let ghost start = url@;
    let mut current = url;
    let mut round: usize = 0;
    while round < MAX_TRAILING_SEGMENTS
        invariant
            round <= MAX_TRAILING_SEGMENTS,
            start == url@,
            strip_trailing(current@, (MAX_TRAILING_SEGMENTS - round) as nat) == cleaned_url(start),
        decreases MAX_TRAILING_SEGMENTS - round,
    {
        let shorter = drop_empty_last_segment(current.as_str());
        if shorter == current {
            proof {
                lemma_strip_fixed_point(current@, (MAX_TRAILING_SEGMENTS - round) as nat);
            }
            return current;
        }
        current = shorter;
        round = round + 1;
    }
    current
}

/// The node that a row with these columns stands for: a directory still
/// to be fetched where the size column holds the placeholder, else a file,
/// whose URL loses its trailing empty segments.
pub open spec fn classified(
    url: Seq<char>,
    name: Seq<char>,
    last_modified: Seq<char>,
    size: Seq<char>,
    description: Seq<char>,
) -> Tree {
    if size == EMPTY_SIZE_STRING@ {
        Tree::PendingDir(DirMeta { url, name, last_modified, description })
    } else {
        Tree::File(FileMeta { url: cleaned_url(url), name, last_modified, size, description })
    }
}

/// The node for a row whose link target resolved to `url`.
pub fn classify(
    url: String,
    name: String,
    last_modified: String,
    size: String,
    description: String,
) -> (node: Node)
    ensures
        node@ == classified(url@, name@, last_modified@, size@, description@),
        node is PendingDir <==> size@ == EMPTY_SIZE_STRING@,
        node is File <==> size@ != EMPTY_SIZE_STRING@,
{
    let placeholder = EMPTY_SIZE_STRING.to_owned();
    if size == placeholder {
        Node::PendingDir(DirLinkMetaData { url, name, last_modified, description })
    } else {
        let url = clean_url(url);
        Node::File(FileLinkMetaData { url, name, last_modified, size, description })
    }
}

/// The columns of a match of the row pattern, if it has all five.
pub open spec fn columns(groups: Seq<Option<Seq<char>>>) -> Option<
    (Seq<char>, Seq<char>, Seq<char>, Seq<char>, Seq<char>),
> {
    match (
        group(groups, POS_HREF as int),
        group(groups, POS_NAME as int),
        group(groups, POS_DATE as int),
        group(groups, POS_SIZE as int),
        group(groups, POS_DESC as int),
    ) {
        (Some(href), Some(name), Some(last_modified), Some(size), Some(description)) => Some(
            (href, name, last_modified, size, description),
        ),
        _ => None,
    }
}

/// The node that a match of the row pattern stands for, if any: all five
/// columns must be there and the link target must resolve against `base`.
pub open spec fn entry_of(base: Seq<char>, groups: Seq<Option<Seq<char>>>) -> Option<Tree> {
    match columns(groups) {
        Some((href, name, last_modified, size, description)) => match joined_url(base, href) {
            Some(url) => Some(classified(url, name, last_modified, size, description)),
            None => None,
        },
        None => None,
    }
}

/// The node that one line of a listing stands for, if it is a row.
pub open spec fn row_of(base: Seq<char>, line: Seq<char>) -> Option<Tree> {
    match captures_of(RX_MAIN@, line) {
        Some(groups) => entry_of(base, groups),
        None => None,
    }
}

/// Builds the node for a match of the row pattern. `groups` holds the
/// match's capture groups by number, the whole match first.
pub fn entry_from_groups(base_url: &str, groups: &Vec<Option<String>>) -> (entry: Option<Node>)
    ensures
        match entry {
            Some(node) => entry_of(base_url@, groups_view(groups@)) == Some(node@),
            None => entry_of(base_url@, groups_view(groups@)) is None,
        },
{
    let href = match group_text(groups, POS_HREF) {
        Some(text) => text,
        None => { return None; },
    };
    let name = match group_text(groups, POS_NAME) {
        Some(text) => text,
        None => { return None; },
    };
    let last_modified = match group_text(groups, POS_DATE) {
        Some(text) => text,
        None => { return None; },
    };
    let size = match group_text(groups, POS_SIZE) {
        Some(text) => text,
        None => { return None; },
    };
    let description = match group_text(groups, POS_DESC) {
        Some(text) => text,
        None => { return None; },
    };
    match join_url(base_url, href.as_str()) {
        Some(url) => Some(classify(url, name, last_modified, size, description)),
        None => None,
    }
}

/// Turns one line of a listing into a node: `None` for a line that is no
/// row, is short of a column, or whose link target does not resolve.
pub fn cheap_process_row(base_url: &str, line: &str) -> (entry: Option<Node>)
    ensures
        match entry {
            Some(node) => row_of(base_url@, line@) == Some(node@),
            None => row_of(base_url@, line@) is None,
        },
{
    match captures(RX_MAIN, line) {
        Some(groups) => entry_from_groups(base_url, &groups),
        None => None,
    }
}

/// The length of the first line of `text`: the place of its first line
/// feed, or its whole length if it has none.
pub open spec fn line_end(text: Seq<char>) -> int
    decreases text.len(),
{
    if text.len() == 0 || text[0] == '\n' {
        0
    } else {
        1 + line_end(text.skip(1))
    }
}

/// A line without the carriage return at its end, if it has one there.
pub open spec fn without_carriage_return(line: Seq<char>) -> Seq<char> {
    if line.len() > 0 && line.last() == '\r' {
        line.drop_last()
    } else {
        line
    }
}

/// The lines of a text. Every line feed ends a line; text after the last
/// line feed is a line of its own unless it is empty. A line does not hold
/// its line feed, nor one carriage return before it.
pub open spec fn text_lines(text: Seq<char>) -> Seq<Seq<char>>
    decreases text.len(),
{
    if text.len() == 0 {
        Seq::empty()
    } else {
        let end = line_end(text);
        let line = without_carriage_return(text.take(end));
        if 0 <= end < text.len() {
            seq![line] + text_lines(text.skip(end + 1))
        } else {
            seq![line]
        }
    }
}

/// The texts of a list of lines, in order.
pub open spec fn line_texts(lines: Seq<&str>) -> Seq<Seq<char>> {
    lines.map_values(|line: &str| line@)
}

/// A text that starts with a line free of line feeds, then a line feed,
/// has its first line end where that line feed stands.
proof fn lemma_line_end_at_feed(head: Seq<char>, tail: Seq<char>)
    requires
        !head.contains('\n'),
    ensures
        line_end(head + seq!['\n'] + tail) == head.len(),
    decreases head.len(),
{
    let text = head + seq!['\n'] + tail;
    if head.len() == 0 {
        assert(text[0] == '\n');
    } else {
        assert(head.contains(head[0]));
        assert(text[0] == head[0]);
        let shorter = head.skip(1);
        assert forall|i: int| 0 <= i < shorter.len() implies shorter[i] != '\n' by {
            assert(head.contains(head[i + 1]));
        }
        assert(text.skip(1) =~= shorter + seq!['\n'] + tail);
        lemma_line_end_at_feed(shorter, tail);
    }
}

/// A text free of line feeds is one line.
proof fn lemma_line_end_without_feed(text: Seq<char>)
    requires
        !text.contains('\n'),
    ensures
        line_end(text) == text.len(),
    decreases text.len(),
{
    if text.len() > 0 {
        assert(text.contains(text[0]));
        let shorter = text.skip(1);
        assert forall|i: int| 0 <= i < shorter.len() implies shorter[i] != '\n' by {
            assert(text.contains(text[i + 1]));
        }
        lemma_line_end_without_feed(shorter);
    }
}

/// The first line of a text ends within the text, on its first line feed
/// if it has one.
proof fn lemma_line_end(text: Seq<char>)
    ensures
        0 <= line_end(text) <= text.len(),
        forall|j: int| 0 <= j < line_end(text) ==> text[j] != '\n',
        line_end(text) < text.len() ==> text[line_end(text)] == '\n',
    decreases text.len(),
{
    if text.len() > 0 && text[0] != '\n' {
        let shorter = text.skip(1);
        lemma_line_end(shorter);
        assert forall|j: int| 0 <= j < line_end(text) implies text[j] != '\n' by {
            if j > 0 {
                assert(text[j] == shorter[j - 1]);
            }
        }
        assert(line_end(text) < text.len() ==> text[line_end(text)] == shorter[line_end(shorter)]);
    }
}

/// No line holds a line feed, and there are no more lines than characters.
pub proof fn lemma_lines_hold_no_line_feed(text: Seq<char>)
    ensures
        text_lines(text).len() <= text.len(),
        forall|i: int|
            0 <= i < text_lines(text).len() ==> !(#[trigger] text_lines(text)[i]).contains('\n'),
    decreases text.len(),
{
    if text.len() > 0 {
        lemma_line_end(text);
        let end = line_end(text);
        let line = without_carriage_return(text.take(end));
        assert forall|j: int| 0 <= j < line.len() implies line[j] != '\n' by {
            assert(line[j] == text[j]);
        }
        if end < text.len() {
            let rest = text.skip(end + 1);
            lemma_lines_hold_no_line_feed(rest);
            assert forall|i: int| 0 <= i < text_lines(text).len() implies !(
            #[trigger] text_lines(text)[i]).contains('\n') by {
                if i > 0 {
                    assert(text_lines(text)[i] == text_lines(rest)[i - 1]);
                }
            }
        }
    }
}

/// Takes one carriage return off the end of a line, if there is one.
fn strip_carriage_return<'a>(line: &'a str) -> (stripped: &'a str)
    ensures
        stripped@ == without_carriage_return(line@),
{
    let length = line.unicode_len();
    if length > 0 && line.get_char(length - 1) == '\r' {
        let stripped = line.substring_char(0, length - 1);
        assert(stripped@ =~= line@.drop_last());
        stripped
    } else {
        line
    }
}

/// Cuts a text into its lines.
pub fn lines_of<'a>(text: &'a str) -> (lines: Vec<&'a str>)
    ensures
        line_texts(lines@) == text_lines(text@),
{
    let mut lines: Vec<&'a str> = Vec::new();
    let mut rest: &'a str = text;
    let mut more: bool = !text.is_empty();
    proof {
        assert(line_texts(lines@) + text_lines(text@) =~= text_lines(text@));
    }
    while more
        invariant
            more ==> rest@.len() > 0,
            text_lines(text@) == line_texts(lines@) + (if more {
                text_lines(rest@)
            } else {
                Seq::empty()
            }),
        decreases (if more { rest@.len() + 1 } else { 0 }),
    {
        let ghost whole = rest@;
        let ghost listed = lines@;
        let parts = split_at_line_feed(rest);
        let line: &'a str = match parts {
            Some((head, _)) => head,
            None => rest,
        };
        let line = strip_carriage_return(line);
        proof {
            match parts {
                Some((head, tail)) => {
                    lemma_line_end_at_feed(head@, tail@);
                    assert(whole.take(head@.len() as int) =~= head@);
                    assert(whole.skip(head@.len() as int + 1) =~= tail@);
                    assert(text_lines(whole) == seq![line@] + text_lines(tail@));
                },
                None => {
                    lemma_line_end_without_feed(whole);
                    assert(whole.take(whole.len() as int) =~= whole);
                    assert(text_lines(whole) == seq![line@]);
                },
            }
        }
        lines.push(line);
        match parts {
            Some((_, tail)) => {
                rest = tail;
                more = !tail.is_empty();
            },
            None => {
                more = false;
            },
        }
        proof {
            assert(line_texts(lines@) =~= line_texts(listed).push(line@));
            let left = if more {
                text_lines(rest@)
            } else {
                Seq::empty()
            };
            assert(text_lines(text@) =~= line_texts(lines@) + left);
        }
    }
    proof {
        assert(line_texts(lines@) + Seq::<Seq<char>>::empty() =~= line_texts(lines@));
    }
    lines
}

/// The nodes that a sequence of lines stands for, in the order of the
/// lines. A line that is no row adds nothing.
pub open spec fn entries_of(base: Seq<char>, lines: Seq<Seq<char>>) -> Seq<Tree>
    decreases lines.len(),
{
    if lines.len() == 0 {
        Seq::empty()
    } else {
        let earlier = entries_of(base, lines.drop_last());
        match row_of(base, lines.last()) {
            Some(entry) => earlier.push(entry),
            None => earlier,
        }
    }
}

/// What a listing page holds: the name in its heading and its entries.
/// A page without the heading is no listing.
pub open spec fn listing_of(html: Seq<char>, base: Seq<char>) -> Result<
    (Seq<char>, Seq<Tree>),
    CrawlError,
> {
    match first_match(html, RX_TITLE@) {
        Ok(title) => Ok((title, entries_of(base, text_lines(html)))),
        Err(error) => Err(error),
    }
}

/// The value of a parse's result.
pub open spec fn listing_view(listing: Result<(String, Vec<Node>), CrawlError>) -> Result<
    (Seq<char>, Seq<Tree>),
    CrawlError,
> {
    match listing {
        Ok((title, entries)) => Ok((title@, trees(entries@))),
        Err(error) => Err(error),
    }
}

/// Parses a listing page: the directory's name from its heading, and one
/// node for each line that is a row, in the order of the lines.
///
/// Link targets are resolved against `base_url`, the URL of the page. Fails
/// with `MalformedListing` exactly when the page has no heading.
pub fn cheap_extract_from_html(html: &str, base_url: &str) -> (listing: Result<
    (String, Vec<Node>),
    CrawlError,
>)
    ensures
        listing_view(listing) == listing_of(html@, base_url@),
{
    let title = match get_first(html, RX_TITLE) {
        Ok(title) => title,
        Err(error) => { return Err(error); },
    };
    let lines = lines_of(html);
    let found = regex_captures_each(RX_MAIN, &lines);
    let ghost all = line_texts(lines@);
    let mut nodes: Vec<Node> = Vec::new();
    let mut index: usize = 0;
    proof {
        lemma_trees_empty();
        assert(all.take(0) =~= Seq::empty());
    }
    while index < found.len()
        invariant
            index <= found.len() == lines.len(),
            all == line_texts(lines@),
            forall|i: int|
                0 <= i < lines.len() ==> match #[trigger] found[i] {
                    Some(groups) => captures_of(RX_MAIN@, lines[i]@) == Some(
                        groups_view(groups@),
                    ),
                    None => captures_of(RX_MAIN@, lines[i]@) is None,
                },
            trees(nodes@) == entries_of(base_url@, all.take(index as int)),
        decreases found.len() - index,
    {
        proof {
            let upto = all.take(index + 1);
            assert(upto.drop_last() =~= all.take(index as int));
            assert(upto.last() == lines[index as int]@);
        }
        let entry = match &found[index] {
            Some(groups) => entry_from_groups(base_url, groups),
            None => None,
        };
        match entry {
            Some(node) => {
                proof {
                    lemma_trees_push(nodes@, node);
                }
                nodes.push(node);
            },
            None => {},
        }
        index = index + 1;
    }
    proof {
        assert(all.take(index as int) =~= all);
    }
    Ok((title, nodes))
}

/// A page's text with its character references decoded, or
/// `EncodingError` where the decoded bytes are no well-formed UTF-8.
pub open spec fn sanitized(text: Seq<char>) -> Result<Seq<char>, CrawlError> {
    let bytes = decoded_entities(text);
    if valid_utf8(bytes) {
        Ok(decode_utf8(bytes))
    } else {
        Err(CrawlError::EncodingError)
    }
}

/// Decodes the character references of a page and checks that what comes
/// out is text.
pub fn sanitize_html(text: &str) -> (clean: Result<String, CrawlError>)
    ensures
        match clean {
            Ok(html) => sanitized(text@) == Ok::<Seq<char>, CrawlError>(html@),
            Err(error) => sanitized(text@) == Err::<Seq<char>, CrawlError>(error),
        },
{
    let bytes = decode_entities(text);
    match string_from_utf8(bytes) {
        Some(html) => Ok(html),
        None => Err(CrawlError::EncodingError),
    }
}

/// The body that a fetch brought, as a value; `None` stands for a transport
/// that failed.
pub open spec fn body_view(fetched: Option<&str>) -> Option<Seq<char>> {
    match fetched {
        Some(body) => Some(body@),
        None => None,
    }
}

/// The listing that the outcome of a fetch holds: `FetchError` where the
/// transport failed, else the page is sanitized and parsed.
pub open spec fn fetched_listing(fetched: Option<Seq<char>>, base: Seq<char>) -> Result<
    (Seq<char>, Seq<Tree>),
    CrawlError,
> {
    match fetched {
        None => Err(CrawlError::FetchError),
        Some(body) => match sanitized(body) {
            Ok(html) => listing_of(html, base),
            Err(error) => Err(error),
        },
    }
}

/// The root of a tree: a fetched directory at `url`, named by its page,
/// with nothing known of its date or description.
pub open spec fn root_of(url: Seq<char>, fetched: Option<Seq<char>>) -> Result<Tree, CrawlError> {
    match fetched_listing(fetched, url) {
        Ok((title, entries)) => Ok(
            Tree::CrawledDir(
                DirMeta {
                    url,
                    name: title,
                    last_modified: Seq::empty(),
                    description: Seq::empty(),
                },
                entries,
            ),
        ),
        Err(error) => Err(error),
    }
}

/// What a directory link becomes once its page is fetched: it keeps its
/// URL, date and description, takes the page's title as its name, and
/// holds the page's entries.
pub open spec fn expanded(meta: DirMeta, fetched: Option<Seq<char>>) -> Result<Tree, CrawlError> {
    match fetched_listing(fetched, meta.url) {
        Ok((title, entries)) => Ok(
            Tree::CrawledDir(
                DirMeta {
                    url: meta.url,
                    name: title,
                    last_modified: meta.last_modified,
                    description: meta.description,
                },
                entries,
            ),
        ),
        Err(error) => Err(error),
    }
}

/// Sanitizes and parses what a fetch of the page at `base_url` brought.
fn read_listing(fetched: Option<&str>, base_url: &str) -> (listing: Result<
    (String, Vec<Node>),
    CrawlError,
>)
    ensures
        listing_view(listing) == fetched_listing(body_view(fetched), base_url@),
{
    let body = match fetched {
        Some(body) => body,
        None => { return Err(CrawlError::FetchError); },
    };
    let html = match sanitize_html(body) {
        Ok(html) => html,
        Err(error) => { return Err(error); },
    };
    cheap_extract_from_html(html.as_str(), base_url)
}

/// Builds the root of the tree from the outcome of fetching `url`: the
/// caller passes the body it read, or `None` if the transport failed.
pub fn get_root_dir(url: &str, fetched: Option<&str>) -> (root: Result<Node, CrawlError>)
    ensures
        match root {
            Ok(node) => root_of(url@, body_view(fetched)) == Ok::<Tree, CrawlError>(node@),
            Err(error) => root_of(url@, body_view(fetched)) == Err::<Tree, CrawlError>(error),
        },
{
    match read_listing(fetched, url) {
        Ok((title, entries)) => Ok(
            Node::CrawledDir(
                DirLinkMetaData {
                    url: url.to_owned(),
                    name: title,
                    last_modified: String::new(),
                    description: String::new(),
                },
                entries,
            ),
        ),
        Err(error) => Err(error),
    }
}

/// The first directory at or after `from` whose page is still to be
/// fetched.
pub fn next_pending(nodes: &Vec<Node>, from: usize) -> (found: Option<usize>)
    ensures
        match found {
            Some(index) => {
                &&& from <= index < nodes.len()
                &&& nodes[index as int] is PendingDir
                &&& forall|j: int| from <= j < index ==> !(nodes[j] is PendingDir)
            },
            None => forall|j: int| from <= j < nodes.len() ==> !(nodes[j] is PendingDir),
        },
{
    let mut index: usize = from;
    while index < nodes.len()
        invariant
            from <= index,
            forall|j: int| from <= j < index && j < nodes.len() ==> !(nodes[j] is PendingDir),
        decreases nodes.len() - index,
    {
        match &nodes[index] {
            Node::PendingDir(_) => { return Some(index); },
            _ => {},
        }
        index = index + 1;
    }
    None
}

/// Replaces the directory link at `index` by the directory that the
/// outcome of fetching its page describes. The caller passes the body it
/// read from the link's URL, or `None` if the transport failed.
///
/// On any failure the nodes stay as they were. No other node changes
/// either way, and the entries of the new directory are not expanded.
pub fn expand_node(nodes: &mut Vec<Node>, index: usize, fetched: Option<&str>) -> (done: Result<
    (),
    CrawlError,
>)
    requires
        index < old(nodes).len(),
        old(nodes)[index as int] is PendingDir,
    ensures
        match expanded(old(nodes)[index as int]@->PendingDir_0, body_view(fetched)) {
            Ok(tree) => {
                &&& done is Ok
                &&& final(nodes).len() == old(nodes).len()
                &&& final(nodes)[index as int]@ == tree
                &&& forall|j: int|
                    0 <= j < old(nodes).len() && j != index ==> final(nodes)[j] == old(nodes)[j]
            },
            Err(error) => done == Err::<(), CrawlError>(error) && *final(nodes) == *old(nodes),
        },
{
    let (url, last_modified, description) = match &nodes[index] {
        Node::PendingDir(meta) => (
            meta.url.clone(),
            meta.last_modified.clone(),
            meta.description.clone(),
        ),
        _ => { return Ok(()); },
    };
    match read_listing(fetched, url.as_str()) {
        Ok((title, entries)) => {
            let node = Node::CrawledDir(
                DirLinkMetaData { url, name: title, last_modified, description },
                entries,
            );
            nodes.set(index, node);
            Ok(())
        },
        Err(error) => Err(error),
    }
}

/// Parsing is repeatable: two parses of the same page against the same
/// base give the same title and the same entries, or the same error.
pub proof fn lemma_parsing_is_repeatable(
    html: Seq<char>,
    base: Seq<char>,
    first: Result<(String, Vec<Node>), CrawlError>,
    second: Result<(String, Vec<Node>), CrawlError>,
)
    ensures
        listing_view(first) == listing_of(html, base) && listing_view(second) == listing_of(
            html,
            base,
        ) ==> listing_view(first) == listing_view(second),
{
}

/// A line that matches the row pattern with all its columns, and whose
/// link target resolves, is classified by its size column alone: the
/// placeholder makes it a directory still to be fetched, anything else a
/// file. The columns are taken over as they stand. Any other line is no
/// entry.
pub proof fn lemma_rows_are_classified_by_size(base: Seq<char>, line: Seq<char>)
    ensures
        match captures_of(RX_MAIN@, line) {
            Some(groups) => match columns(groups) {
                Some((href, name, last_modified, size, description)) => match joined_url(
                    base,
                    href,
                ) {
                    Some(url) => {
                        &&& row_of(base, line) matches Some(entry)
                        &&& size == EMPTY_SIZE_STRING@ ==> entry == Tree::PendingDir(
                            DirMeta { url, name, last_modified, description },
                        )
                        &&& size != EMPTY_SIZE_STRING@ ==> entry == Tree::File(
                            FileMeta {
                                url: cleaned_url(url),
                                name,
                                last_modified,
                                size,
                                description,
                            },
                        )
                    },
                    None => row_of(base, line) is None,
                },
                None => row_of(base, line) is None,
            },
            None => row_of(base, line) is None,
        },
{
}

/// Expansion only advances a node: what a directory link becomes is a
/// fetched directory with the link's URL, date and description.
pub proof fn lemma_expansion_advances(meta: DirMeta, fetched: Option<Seq<char>>)
    ensures
        expanded(meta, fetched) matches Ok(tree) ==> {
            &&& tree is CrawledDir
            &&& tree.url() == meta.url
            &&& tree->CrawledDir_0.last_modified == meta.last_modified
            &&& tree->CrawledDir_0.description == meta.description
        },
        fetched is None ==> expanded(meta, fetched) == Err::<Tree, CrawlError>(
            CrawlError::FetchError,
        ),
{
}

} // verus!
