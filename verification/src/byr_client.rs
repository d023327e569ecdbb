//! What goes to the tracker and what comes back: logins and the page of free torrents.

use crate::config::Config;
use crate::decimal;
use crate::models::{ApiEnvelope, LoginData, TorrentInfo, TorrentView};
use crate::planner;
use crate::text;
use select::document::Document;
use select::predicate::Name;
use scraper::{Html, Selector};
use vstd::prelude::*;
use vstd::slice::*;
use vstd::string::*;

verus! {

/// Eleven digits.
pub open spec fn is_phone_number(value: Seq<char>) -> bool {
    value.len() == 11 && decimal::all_digits(value)
}

/// Whether a user name is a phone number.
pub fn looks_like_phone_number(value: &str) -> (r: bool)
    ensures
        r == is_phone_number(value@),
{
    let chars = text::chars(value);
    if chars.len() != 11 {
        return false;
    }
    let mut i: usize = 0;
    while i < chars.len()
        invariant
            i <= chars@.len(),
            chars@ == value@,
            forall|j: int| 0 <= j < i ==> decimal::is_digit(#[trigger] value@[j]),
        decreases chars@.len() - i,
    {
        if chars[i] < '0' || '9' < chars[i] {
            assert(!decimal::is_digit(value@[i as int]));
            return false;
        }
        i = i + 1;
    }
    true
}

/// The digits of a text.
pub open spec fn digits_in(s: Seq<char>) -> Seq<char> {
    s.filter(|c: char| decimal::is_digit(c))
}

/// The number that the digits of a text make up; minus one where there is none, or where it is too
/// large.
pub open spec fn count_in(s: Seq<char>) -> int {
    let value = decimal::digits_value(digits_in(s));
    if digits_in(s).len() == 0 || value > i32::MAX {
        -1
    } else {
        value as int
    }
}

/// The number that the digits of a text make up.
pub fn parse_int(value: &str) -> (r: i32)
    ensures
        r == count_in(value@),
{
    let chars = text::chars(value);
    let ghost digit = |c: char| decimal::is_digit(c);
    let mut any: bool = false;
    let mut number: i64 = 0;
    let mut i: usize = 0;
    proof {
        reveal(Seq::filter);
    }
    while i < chars.len()
        invariant
            i <= chars@.len(),
            chars@ == value@,
            digit == (|c: char| decimal::is_digit(c)),
            any == (value@.take(i as int).filter(digit).len() > 0),
            0 <= number <= 30_000_000_000,
            number == decimal::digits_value(value@.take(i as int).filter(digit)) || (number
                > i32::MAX && decimal::digits_value(value@.take(i as int).filter(digit))
                > i32::MAX),
        decreases chars@.len() - i,
    {
        let c: char = chars[i];
        proof {
            reveal(Seq::filter);
            assert(value@.take(i + 1).drop_last() =~= value@.take(i as int));
        }
        if '0' <= c && c <= '9' {
            proof {
                let before = value@.take(i as int).filter(digit);
                assert(before.push(c).drop_last() =~= before);
            }
            any = true;
            if number <= 0x7fff_ffff {
                number = number * 10 + (c as u32 - '0' as u32) as i64;
            }
        }
        i = i + 1;
    }
    assert(value@.take(value@.len() as int) =~= value@);
    if !any || number > 0x7fff_ffff {
        -1
    } else {
        number as i32
    }
}

/// The words of a text: its longest runs without white space.
pub open spec fn words(s: Seq<char>) -> Seq<Seq<char>>
    decreases s.len(),
{
    if s.len() == 0 {
        Seq::empty()
    } else {
        let before = words(s.drop_last());
        let c = s.last();
        if text::is_white(c) {
            before
        } else if s.len() >= 2 && !text::is_white(s[s.len() - 2]) {
            before.drop_last().push(before.last().push(c))
        } else {
            before.push(seq![c])
        }
    }
}

/// Words with a space between each two.
pub open spec fn joined(words: Seq<Seq<char>>) -> Seq<char>
    decreases words.len(),
{
    if words.len() == 0 {
        Seq::empty()
    } else if words.len() == 1 {
        words[0]
    } else {
        joined(words.drop_last()) + seq![' '] + words.last()
    }
}

proof fn lemma_words(s: Seq<char>)
    ensures
        s.len() > 0 && !text::is_white(s.last()) ==> words(s).len() > 0,
{
}

/// The words of a text, with one space between each two.
pub fn collect_text(node_text: &str) -> (r: String)
    ensures
        r@ == joined(words(node_text@)),
{
    let chars = text::chars(node_text);
    let mut out: Vec<char> = Vec::new();
    let mut any: bool = false;
    let mut inside: bool = false;
    let mut i: usize = 0;
    while i < chars.len()
        invariant
            i <= chars@.len(),
            chars@ == node_text@,
            out@ == joined(words(chars@.take(i as int))),
            any == (words(chars@.take(i as int)).len() > 0),
            inside == (i > 0 && !text::is_white(chars@[i - 1])),
        decreases chars@.len() - i,
    {
        let c: char = chars[i];
        let ghost now = chars@.take(i as int);
        let ghost next = chars@.take(i + 1);
        assert(next.drop_last() =~= now);
        if text::white(c) {
            inside = false;
        } else {
            let ghost before = words(now);
            if inside {
                proof {
                    lemma_words(now);
                    let after = before.drop_last().push(before.last().push(c));
                    assert(words(next) == after);
                    assert(after.drop_last() =~= before.drop_last());
                    assert(joined(after) =~= joined(before).push(c));
                }
            } else {
                if any {
                    out.push(' ');
                }
                proof {
                    let after = before.push(seq![c]);
                    assert(words(next) == after);
                    assert(after.drop_last() =~= before);
                    assert(joined(after) =~= out@.push(c));
                }
            }
            out.push(c);
            any = true;
            inside = true;
        }
        i = i + 1;
    }
    assert(chars@.take(chars@.len() as int) =~= chars@);
    text::string(out.as_slice())
}

/// The promotion that a class of the page stands for.
pub open spec fn tag_of(raw: Seq<char>) -> Seq<char> {
    if raw == "free_bg"@ || raw == "free"@ {
        "免费"@
    } else if raw == "twoupfree_bg"@ || raw == "free2up"@ || raw == "twoupfree"@ {
        "免费&2x上传"@
    } else if raw == "twoup"@ || raw == "2up"@ {
        "2x上传"@
    } else if raw == "halfdown"@ || raw == "50pctdown"@ {
        "50%下载"@
    } else if raw == "twouphalfdown"@ || raw == "50pctdown2up"@ {
        "50%下载&2x上传"@
    } else if raw == "thirtypercentdown"@ || raw == "30pctdown"@ {
        "30%下载"@
    } else {
        ""@
    }
}

/// The promotion that a class of the page stands for, nothing for other classes.
pub fn map_tag(raw: &str) -> (r: &'static str)
    ensures
        r@ == tag_of(raw@),
{
    if text::same_text(raw, "free_bg") || text::same_text(raw, "free") {
        "免费"
    } else if text::same_text(raw, "twoupfree_bg") || text::same_text(raw, "free2up")
        || text::same_text(raw, "twoupfree") {
        "免费&2x上传"
    } else if text::same_text(raw, "twoup") || text::same_text(raw, "2up") {
        "2x上传"
    } else if text::same_text(raw, "halfdown") || text::same_text(raw, "50pctdown") {
        "50%下载"
    } else if text::same_text(raw, "twouphalfdown") || text::same_text(raw, "50pctdown2up") {
        "50%下载&2x上传"
    } else if text::same_text(raw, "thirtypercentdown") || text::same_text(raw, "30pctdown") {
        "30%下载"
    } else {
        ""
    }
}

/// A node below a row of the page: its element name, its HTML and its text.
#[derive(Debug)]
pub struct PageNode {
    pub name: Option<String>,
    pub html: String,
    pub text: String,
}

/// A row of the page: its class and the nodes below it.
#[derive(Debug)]
pub struct PageRow {
    pub class: Option<String>,
    pub children: Vec<PageNode>,
}

/// An element of a cell: its text, where it links to and its title.
#[derive(Debug)]
pub struct PageElement {
    pub text: String,
    pub link: Option<String>,
    pub title: Option<String>,
}

/// The text of an optional string.
pub open spec fn optional_text(s: Option<String>) -> Option<Seq<char>> {
    match s {
        Some(text) => Some(text@),
        None => None,
    }
}

impl View for PageNode {
    type V = (Option<Seq<char>>, Seq<char>, Seq<char>);

    open spec fn view(&self) -> (Option<Seq<char>>, Seq<char>, Seq<char>) {
        (optional_text(self.name), self.html@, self.text@)
    }
}

impl View for PageRow {
    type V = (Option<Seq<char>>, Seq<(Option<Seq<char>>, Seq<char>, Seq<char>)>);

    open spec fn view(&self) -> (
        Option<Seq<char>>,
        Seq<(Option<Seq<char>>, Seq<char>, Seq<char>)>,
    ) {
        (optional_text(self.class), self.children@.map_values(|child: PageNode| child@))
    }
}

impl View for PageElement {
    type V = (Seq<char>, Option<Seq<char>>, Option<Seq<char>>);

    open spec fn view(&self) -> (Seq<char>, Option<Seq<char>>, Option<Seq<char>>) {
        (self.text@, optional_text(self.link), optional_text(self.title))
    }
}

/// The elements of that name in a page, in the order of the page: the attribute of each, and the
/// element name, the HTML and the text of the nodes right below it.
pub uninterp spec fn named_elements(
    html: Seq<char>,
    name: Seq<char>,
    attribute: Seq<char>,
) -> Seq<(Option<Seq<char>>, Seq<(Option<Seq<char>>, Seq<char>, Seq<char>)>)>;

/// `select::document::Document`: parses a page and finds the elements of a name (`Document::from`,
/// `Document::find` with the predicate `Name`), then reads an attribute and the child nodes of each
/// (`Node::attr`, `Node::children`, `Node::name`, `Node::html`, `Node::text`). The result depends
/// on the arguments alone; it is named, not described. The crate walks a page by recursion, so the
/// stack bounds how deep its elements may lie within each other.
#[verifier::external_body]
fn find_elements(html: &str, name: &str, attribute: &str) -> (r: Vec<PageRow>)
    ensures
        r@.map_values(|row: PageRow| row@) == named_elements(html@, name@, attribute@),
{
    let document = Document::from(html);
    let rows = document.find(Name(name)).map(
        |row| PageRow {
            class: row.attr(attribute).map(str::to_string),
            children: row.children().map(
                |child| PageNode {
                    name: child.name().map(str::to_string),
                    html: child.html(),
                    text: child.text(),
                },
            ).collect(),
        },
    );
    rows.collect()
}

/// The elements of a fragment of HTML that a selector matches, in order: the text of each, and its
/// two attributes.
pub uninterp spec fn selected_elements(
    fragment: Seq<char>,
    selector: Seq<char>,
    link_attribute: Seq<char>,
    title_attribute: Seq<char>,
) -> Seq<(Seq<char>, Option<Seq<char>>, Option<Seq<char>>)>;

/// The selector of the link to a torrent's category.
pub const CATEGORY_SELECTOR: &'static str = ".cat-link";

/// The selector of the link to a torrent's page.
pub const TITLE_SELECTOR: &'static str = "table.torrentname a[href*='details.php?id=']";

/// `scraper::Html`: parses a fragment and selects elements (`Html::parse_fragment`,
/// `Selector::parse`, `Html::select`), then reads the text and two attributes of each
/// (`ElementRef::text`, `Element::attr`). The selectors that it is called with are valid ones. The
/// result depends on the arguments alone; it is named, not described.
#[verifier::external_body]
fn select_elements(
    fragment: &str,
    selector: &str,
    link_attribute: &str,
    title_attribute: &str,
) -> (r: Vec<PageElement>)
    requires
        selector@ == CATEGORY_SELECTOR@ || selector@ == TITLE_SELECTOR@,
    ensures
        r@.map_values(|element: PageElement| element@) == selected_elements(
            fragment@,
            selector@,
            link_attribute@,
            title_attribute@,
        ),
{
    let parsed = Selector::parse(selector).unwrap();
    let document = Html::parse_fragment(fragment);
    let elements = document.select(&parsed).map(
        |element| PageElement {
            text: element.text().collect(),
            link: element.value().attr(link_attribute).map(str::to_string),
            title: element.value().attr(title_attribute).map(str::to_string),
        },
    );
    elements.collect()
}

/// The part of a text before the first occurrence of a marker, or all of it.
pub open spec fn before(s: Seq<char>, marker: Seq<char>) -> Seq<char> {
    match text::find(s, marker) {
        None => s,
        Some(i) => s.take(i),
    }
}

/// The part of a link between the first `id=` and the next, or the end, or an ampersand.
pub open spec fn id_in_link(link: Seq<char>) -> Seq<char> {
    match text::find(link, seq!['i', 'd', '=']) {
        None => Seq::empty(),
        Some(i) => before(before(link.skip(i + 3), seq!['i', 'd', '=']), seq!['&']),
    }
}

/// The part of a text before the first occurrence of a marker, or all of it.
fn part_before<'a>(s: &'a [char], marker: &[char]) -> (r: &'a [char])
    ensures
        r@ == before(s@, marker@),
{
    match text::position(s, marker) {
        None => s,
        Some(i) => {
            let part = slice_subrange(s, 0, i);
            assert(part@ =~= s@.take(i as int));
            part
        },
    }
}

/// The part of a link that names the torrent.
pub fn seed_id_of(link: &str) -> (r: String)
    ensures
        r@ == id_in_link(link@),
{
    let marker: [char; 3] = ['i', 'd', '='];
    let ampersand: [char; 1] = ['&'];
    assert(marker@ =~= seq!['i', 'd', '=']);
    assert(ampersand@ =~= seq!['&']);
    let chars = text::chars(link);
    match text::position(chars.as_slice(), &marker) {
        None => {
            let r = String::new();
            assert(r@ =~= Seq::<char>::empty());
            r
        },
        Some(i) => {
            let end: usize = chars.len();
            let rest = slice_subrange(chars.as_slice(), i + 3, end);
            assert(rest@ =~= link@.skip(i + 3));
            text::string(part_before(part_before(rest, &marker), &ampersand))
        },
    }
}

/// The classes of the rows of free torrents.
pub open spec fn is_free_class(class: Seq<char>) -> bool {
    class == "free_bg"@ || class == "twoupfree_bg"@
}

/// The cells of a row: the HTML and the text of the `td` elements below it.
pub open spec fn cells_of(
    children: Seq<(Option<Seq<char>>, Seq<char>, Seq<char>)>,
) -> Seq<(Seq<char>, Seq<char>)> {
    children.filter(
        |child: (Option<Seq<char>>, Seq<char>, Seq<char>)| child.0 == Some("td"@),
    ).map_values(|child: (Option<Seq<char>>, Seq<char>, Seq<char>)| (child.1, child.2))
}

/// The torrent that a row lists, by the class of the row, its cells, and the elements in the first
/// two cells that link to the category and to the torrent. Rows of other classes, of fewer than
/// eight cells or without a link to a torrent list none.
pub open spec fn listed_torrent(
    class: Seq<char>,
    cells: Seq<(Seq<char>, Seq<char>)>,
    categories: Seq<(Seq<char>, Option<Seq<char>>, Option<Seq<char>>)>,
    titles: Seq<(Seq<char>, Option<Seq<char>>, Option<Seq<char>>)>,
) -> Option<TorrentView> {
    if !is_free_class(class) || cells.len() < 8 || titles.len() == 0 {
        None
    } else {
        let link = match titles[0].1 {
            Some(link) => link,
            None => Seq::empty(),
        };
        let title = match titles[0].2 {
            Some(title) => title,
            None => link,
        };
        let category = if categories.len() == 0 {
            Seq::empty()
        } else {
            text::trim(categories[0].0)
        };
        let size_text = joined(words(cells[4].1));
        if id_in_link(link).len() == 0 {
            None
        } else {
            Some(
                TorrentView {
                    seed_id: id_in_link(link),
                    category,
                    title: "["@ + category + "] "@ + title,
                    tag: tag_of(class),
                    size_text,
                    size_bytes: planner::listed_size(size_text),
                    seeders: count_in(joined(words(cells[5].1))),
                    leechers: count_in(joined(words(cells[6].1))),
                    finished: count_in(joined(words(cells[7].1))),
                    is_hot: text::contains(cells[1].0, "class=\"hot\""@),
                    is_new: text::contains(cells[1].0, "class=\"new\""@),
                    is_recommended: text::contains(cells[1].0, "class=\"recommended\""@),
                },
            )
        }
    }
}

/// The elements that a cell links with.
pub open spec fn links_in(html: Seq<char>, selector: Seq<char>) -> Seq<
    (Seq<char>, Option<Seq<char>>, Option<Seq<char>>),
> {
    selected_elements(html, selector, "href"@, "title"@)
}

/// The torrent that a row of the page lists.
#[verifier::opaque]
pub open spec fn row_torrent(
    row: (Option<Seq<char>>, Seq<(Option<Seq<char>>, Seq<char>, Seq<char>)>),
) -> Option<TorrentView> {
    let class = match row.0 {
        Some(class) => class,
        None => Seq::empty(),
    };
    let cells = cells_of(row.1);
    if !is_free_class(class) || cells.len() < 8 {
        None
    } else {
        listed_torrent(
            class,
            cells,
            links_in(cells[0].0, CATEGORY_SELECTOR@),
            links_in(cells[1].0, TITLE_SELECTOR@),
        )
    }
}

/// The torrents that some rows of the page list, in order.
pub open spec fn rows_torrents(
    rows: Seq<(Option<Seq<char>>, Seq<(Option<Seq<char>>, Seq<char>, Seq<char>)>)>,
) -> Seq<TorrentView>
    decreases rows.len(),
{
    if rows.len() == 0 {
        Seq::empty()
    } else {
        let before = rows_torrents(rows.drop_last());
        match row_torrent(rows.last()) {
            Some(torrent) => before.push(torrent),
            None => before,
        }
    }
}

/// Every torrent that is read off a page is free to download and can be asked for.
pub proof fn law_listed_torrents_are_free(
    rows: Seq<(Option<Seq<char>>, Seq<(Option<Seq<char>>, Seq<char>, Seq<char>)>)>,
    i: int,
)
    requires
        0 <= i < rows_torrents(rows).len(),
    ensures
        rows_torrents(rows)[i].seed_id.len() > 0,
        rows_torrents(rows)[i].tag == tag_of("free_bg"@) || rows_torrents(rows)[i].tag == tag_of(
            "twoupfree_bg"@,
        ),
    decreases rows.len(),
{
    if rows.len() > 0 {
        reveal(row_torrent);
        if i < rows_torrents(rows.drop_last()).len() {
            law_listed_torrents_are_free(rows.drop_last(), i);
        }
    }
}

/// Whether a class is that of free torrents.
fn free_class(class: &str) -> (r: bool)
    ensures
        r == is_free_class(class@),
{
    text::same_text(class, "free_bg") || text::same_text(class, "twoupfree_bg")
}

/// A cell of a row: its HTML and its text.
#[derive(Debug)]
pub struct Cell {
    pub html: String,
    pub text: String,
}

impl View for Cell {
    type V = (Seq<char>, Seq<char>);

    open spec fn view(&self) -> (Seq<char>, Seq<char>) {
        (self.html@, self.text@)
    }
}

/// The cells among the nodes below a row.
pub fn row_cells(children: &Vec<PageNode>) -> (r: Vec<Cell>)
    ensures
        r@.map_values(|cell: Cell| cell@) == cells_of(
            children@.map_values(|child: PageNode| child@),
        ),
{
    let ghost all = children@.map_values(|child: PageNode| child@);
    let ghost is_cell = |child: (Option<Seq<char>>, Seq<char>, Seq<char>)| child.0 == Some("td"@);
    let ghost content = |child: (Option<Seq<char>>, Seq<char>, Seq<char>)| (child.1, child.2);
    let mut cells: Vec<Cell> = Vec::new();
    let mut i: usize = 0;
    proof {
        reveal(Seq::filter);
    }
    assert(cells@.map_values(|cell: Cell| cell@) =~= all.take(0).filter(is_cell).map_values(content));
    while i < children.len()
        invariant
            i <= children@.len(),
            all == children@.map_values(|child: PageNode| child@),
            is_cell == (|child: (Option<Seq<char>>, Seq<char>, Seq<char>)|
                child.0 == Some("td"@)),
            content == (|child: (Option<Seq<char>>, Seq<char>, Seq<char>)| (child.1, child.2)),
            cells@.map_values(|cell: Cell| cell@) == all.take(i as int).filter(is_cell).map_values(
                content,
            ),
        decreases children@.len() - i,
    {
        let child = &children[i];
        proof {
            reveal(Seq::filter);
            assert(all.take(i + 1).drop_last() =~= all.take(i as int));
            assert(all[i as int] == child@);
        }
        let named: bool = match &child.name {
            Some(name) => text::same_text(name.as_str(), "td"),
            None => false,
        };
        assert(named == is_cell(child@));
        if named {
            let ghost before = cells@.map_values(|cell: Cell| cell@);
            cells.push(Cell { html: child.html.clone(), text: child.text.clone() });
            proof {
                let kept = all.take(i as int).filter(is_cell);
                assert(kept.push(child@).map_values(content) =~= kept.map_values(content).push(
                    content(child@),
                ));
                assert(cells@.map_values(|cell: Cell| cell@) =~= before.push(content(child@)));
            }
        }
        i = i + 1;
    }
    assert(all.take(all.len() as int) =~= all);
    cells
}

/// Whether a cell's HTML holds a mark.
fn has_mark(html: &[char], mark: &str) -> (r: bool)
    ensures
        r == text::contains(html@, mark@),
{
    text::position(html, text::chars(mark).as_slice()).is_some()
}

/// The torrent that a row lists, if it lists one.
pub fn parse_row(
    class: &str,
    cells: &[Cell],
    categories: &[PageElement],
    titles: &[PageElement],
) -> (r: Option<TorrentInfo>)
    ensures
        (match r {
            Some(torrent) => Some(torrent@),
            None => None,
        }) == listed_torrent(
            class@,
            cells@.map_values(|cell: Cell| cell@),
            categories@.map_values(|element: PageElement| element@),
            titles@.map_values(|element: PageElement| element@),
        ),
{
    if !free_class(class) || cells.len() < 8 || titles.len() == 0 {
        return None;
    }
    let link = match &titles[0].link {
        Some(link) => link.clone(),
        None => String::new(),
    };
    let seed_id = seed_id_of(link.as_str());
    if seed_id.as_str().is_empty() {
        return None;
    }
    let title = match &titles[0].title {
        Some(title) => title.clone(),
        None => link,
    };
    let category = if categories.len() == 0 {
        String::new()
    } else {
        text::trimmed_text(categories[0].text.as_str())
    };
    let mut heading = String::from_str("[");
    heading.append(category.as_str());
    heading.append("] ");
    heading.append(title.as_str());
    let size_text = collect_text(cells[4].text.as_str());
    let size_bytes = planner::parse_size_to_bytes(size_text.as_str());
    let main_html = text::chars(cells[1].html.as_str());
    Some(
        TorrentInfo {
            seed_id,
            category,
            title: heading,
            tag: String::from_str(map_tag(class)),
            size_text,
            size_bytes,
            seeders: parse_int(collect_text(cells[5].text.as_str()).as_str()),
            leechers: parse_int(collect_text(cells[6].text.as_str()).as_str()),
            finished: parse_int(collect_text(cells[7].text.as_str()).as_str()),
            is_hot: has_mark(main_html.as_slice(), "class=\"hot\""),
            is_new: has_mark(main_html.as_slice(), "class=\"new\""),
            is_recommended: has_mark(main_html.as_slice(), "class=\"recommended\""),
        },
    )
}

/// The torrent that a row of the page lists.
fn torrent_of_row(row: &PageRow) -> (r: Option<TorrentInfo>)
    ensures
        (match r {
            Some(torrent) => Some(torrent@),
            None => None,
        }) == row_torrent(row@),
{
    proof {
        reveal(row_torrent);
    }
    let class = match &row.class {
        Some(class) => class.clone(),
        None => String::new(),
    };
    if !free_class(class.as_str()) {
        return None;
    }
    let cells = row_cells(&row.children);
    if cells.len() < 8 {
        return None;
    }
    let categories = select_elements(cells[0].html.as_str(), CATEGORY_SELECTOR, "href", "title");
    let titles = select_elements(cells[1].html.as_str(), TITLE_SELECTOR, "href", "title");
    assert(cells@.map_values(|cell: Cell| cell@)[0] == cells@[0]@);
    assert(cells@.map_values(|cell: Cell| cell@)[1] == cells@[1]@);
    parse_row(class.as_str(), cells.as_slice(), categories.as_slice(), titles.as_slice())
}

/// The free torrents of the tracker's list, in the order of the page.
pub fn parse_free_torrents(html: &str) -> (r: Vec<TorrentInfo>)
    ensures
        r@.map_values(|torrent: TorrentInfo| torrent@) == rows_torrents(
            named_elements(html@, "tr"@, "class"@),
        ),
{
    let rows = find_elements(html, "tr", "class");
    let ghost all = named_elements(html@, "tr"@, "class"@);
    let mut torrents: Vec<TorrentInfo> = Vec::new();
    let mut i: usize = 0;
    assert(torrents@.map_values(|torrent: TorrentInfo| torrent@) =~= Seq::<TorrentView>::empty());
    while i < rows.len()
        invariant
            i <= rows@.len(),
            rows@.map_values(|row: PageRow| row@) == all,
            torrents@.map_values(|torrent: TorrentInfo| torrent@) == rows_torrents(
                all.take(i as int),
            ),
        decreases rows@.len() - i,
    {
        assert(all.take(i + 1).drop_last() =~= all.take(i as int));
        assert(all[i as int] == rows@[i as int]@);
        let ghost before = torrents@.map_values(|torrent: TorrentInfo| torrent@);
        match torrent_of_row(&rows[i]) {
            Some(torrent) => {
                let ghost view = torrent@;
                torrents.push(torrent);
                assert(torrents@.map_values(|torrent: TorrentInfo| torrent@) =~= before.push(view));
            },
            None => {},
        }
        i = i + 1;
    }
    assert(all.take(all.len() as int) =~= all);
    torrents
}

/// How a user logs in: with a phone number or with a name.
#[derive(Debug)]
pub enum LoginPayload {
    Mobile { mobile: String, password: String },
    Username { username: String, password: String },
}

/// The login of a configuration.
pub fn login_payload(config: &Config) -> (r: LoginPayload)
    ensures
        match r {
            LoginPayload::Mobile { mobile, password } => is_phone_number(config.byr_username@)
                && mobile@ == config.byr_username@ && password@ == config.byr_password@,
            LoginPayload::Username { username, password } => !is_phone_number(config.byr_username@)
                && username@ == config.byr_username@ && password@ == config.byr_password@,
        },
{
    if looks_like_phone_number(config.byr_username.as_str()) {
        LoginPayload::Mobile {
            mobile: config.byr_username.clone(),
            password: config.byr_password.clone(),
        }
    } else {
        LoginPayload::Username {
            username: config.byr_username.clone(),
            password: config.byr_password.clone(),
        }
    }
}

/// Why a login failed.
#[derive(Debug)]
pub enum LoginError {
    /// The tracker gave no token.
    NoToken,
}

impl LoginError {
    /// The message of the error.
    pub fn message(&self) -> (r: &'static str)
        ensures
            r@ == "BYR login API did not return auth_token"@,
    {
        "BYR login API did not return auth_token"
    }
}

/// The token that the tracker answers a login with; no login succeeds without one, whatever else
/// the answer says.
pub fn login_token(envelope: ApiEnvelope<LoginData>) -> (r: Result<String, LoginError>)
    ensures
        r == (match envelope.data.auth_token {
            Some(token) => Ok(token),
            None => Err(LoginError::NoToken),
        }),
{
    match envelope.data.auth_token {
        Some(token) => Ok(token),
        None => Err(LoginError::NoToken),
    }
}

/// The value of the header with which the tracker is asked.
pub fn authorization(token: &str) -> (r: String)
    ensures
        r@ == "Bearer "@ + token@,
{
    let mut value = String::from_str("Bearer ");
    value.append(token);
    value
}

/// The address of the file of a torrent.
pub fn download_url(torrent_id: &str) -> (r: String)
    ensures
        r@ == "https://byr.pt/download.php?id="@ + torrent_id@,
{
    let mut address = String::from_str("https://byr.pt/download.php?id=");
    address.append(torrent_id);
    address
}

} // verus!
