//! What is read off the tracker's page, and how a login is made.

use crate::byr_client;
use crate::decimal;
use crate::planner;
use crate::rotation_law;
use crate::text;
use crate::text_law;
use vstd::prelude::*;

verus! {

/// A phone number is a row of eleven digits.
pub proof fn law_phone_numbers(value: Seq<char>)
    ensures
        byr_client::is_phone_number(value) <==> value.len() == 11 && forall|i: int|
            0 <= i < 11 ==> '0' <= #[trigger] value[i] <= '9',
{
    if value.len() == 11 && forall|i: int| 0 <= i < 11 ==> '0' <= #[trigger] value[i] <= '9' {
        assert(decimal::all_digits(value));
    }
}

/// Digits count as the number that they write, as far as a signed 32-bit number reaches.
pub proof fn law_counts(s: Seq<char>)
    requires
        s.len() > 0,
        forall|i: int| 0 <= i < s.len() ==> '0' <= #[trigger] s[i] <= '9',
    ensures
        decimal::digits_value(s) <= 0x7fff_ffff ==> byr_client::count_in(s)
            == decimal::digits_value(s),
        decimal::digits_value(s) > 0x7fff_ffff ==> byr_client::count_in(s) == -1,
{
    let digit = |c: char| decimal::is_digit(c);
    assert forall|i: int| 0 <= i < s.len() implies digit(#[trigger] s[i]) by {}
    lemma_all_kept(s, digit);
}

proof fn lemma_all_kept(s: Seq<char>, wanted: spec_fn(char) -> bool)
    requires
        forall|i: int| 0 <= i < s.len() ==> wanted(#[trigger] s[i]),
    ensures
        s.filter(wanted) == s,
    decreases s.len(),
{
    reveal(Seq::filter);
    if s.len() == 0 {
        assert(s.filter(wanted) =~= s);
    } else {
        let rest = s.drop_last();
        assert forall|i: int| 0 <= i < rest.len() implies wanted(#[trigger] rest[i]) by {
            assert(rest[i] == s[i]);
        }
        lemma_all_kept(rest, wanted);
        assert(wanted(s[s.len() - 1]));
        assert(rest.push(s.last()) =~= s);
    }
}

/// Other characters between the digits make no difference to a count, and without digits there is
/// none.
pub proof fn law_counts_pass_over_others(a: Seq<char>, c: char, b: Seq<char>)
    requires
        !('0' <= c <= '9'),
    ensures
        byr_client::count_in(a + seq![c] + b) == byr_client::count_in(a + b),
        byr_client::count_in(Seq::empty()) == -1,
{
    let digit = |c: char| decimal::is_digit(c);
    rotation_law::lemma_filter_parts(a + seq![c], b, digit);
    rotation_law::lemma_filter_parts(a, seq![c], digit);
    rotation_law::lemma_filter_parts(a, b, digit);
    reveal(Seq::filter);
    assert(seq![c].drop_last() =~= Seq::<char>::empty());
    assert(seq![c].last() == c && !digit(c));
    assert(Seq::<char>::empty().filter(digit) =~= Seq::<char>::empty());
    assert(seq![c].filter(digit) =~= Seq::<char>::empty());
    assert(a.filter(digit) + Seq::<char>::empty() =~= a.filter(digit));
    assert(Seq::<char>::empty().filter(digit).len() == 0);
}

/// The tidied text.
pub open spec fn tidied(s: Seq<char>) -> Seq<char> {
    byr_client::joined(byr_client::words(s))
}

proof fn lemma_words_around(a: Seq<char>, w: char, b: Seq<char>)
    requires
        text::is_white(w),
    ensures
        byr_client::words(a + seq![w] + b) == byr_client::words(a) + byr_client::words(b),
        b.len() > 0 && !text::is_white(b.last()) ==> byr_client::words(b).len() > 0,
    decreases b.len(),
{
    let whole = a + seq![w] + b;
    if b.len() == 0 {
        assert(whole.drop_last() =~= a);
        assert(byr_client::words(a) + byr_client::words(b) =~= byr_client::words(a));
    } else {
        let rest = b.drop_last();
        lemma_words_around(a, w, rest);
        assert(whole.drop_last() =~= a + seq![w] + rest);
        assert(whole.last() == b.last());
        let x = byr_client::words(a);
        let y = byr_client::words(rest);
        if !text::is_white(b.last()) {
            if b.len() >= 2 && !text::is_white(b[b.len() - 2]) {
                assert(whole[whole.len() - 2] == b[b.len() - 2]);
                assert(rest.last() == b[b.len() - 2]);
                assert(y.len() > 0);
                assert((x + y).drop_last().push((x + y).last().push(b.last())) =~= x
                    + y.drop_last().push(y.last().push(b.last())));
            } else {
                if b.len() == 1 {
                    assert(whole[whole.len() - 2] == w);
                } else {
                    assert(whole[whole.len() - 2] == b[b.len() - 2]);
                }
                assert((x + y).push(seq![b.last()]) =~= x + y.push(seq![b.last()]));
            }
        }
    }
}

proof fn lemma_joined(a: Seq<Seq<char>>, b: Seq<Seq<char>>)
    ensures
        byr_client::joined(a + b) == (if a.len() == 0 {
            byr_client::joined(b)
        } else if b.len() == 0 {
            byr_client::joined(a)
        } else {
            byr_client::joined(a) + seq![' '] + byr_client::joined(b)
        }),
    decreases b.len(),
{
    if a.len() == 0 {
        assert(a + b =~= b);
    } else if b.len() == 0 {
        assert(a + b =~= a);
    } else {
        let rest = b.drop_last();
        lemma_joined(a, rest);
        assert((a + b).drop_last() =~= a + rest);
        assert((a + b).last() == b.last());
        if rest.len() == 0 {
            assert(a + rest =~= a);
            assert(b[0] == b.last());
        } else {
            assert(byr_client::joined(a) + seq![' '] + byr_client::joined(rest) + seq![' ']
                + b.last() =~= byr_client::joined(a) + seq![' '] + (byr_client::joined(rest)
                + seq![' '] + b.last()));
        }
    }
}

proof fn lemma_one_word(s: Seq<char>)
    requires
        s.len() > 0,
        forall|i: int| 0 <= i < s.len() ==> !text::is_white(#[trigger] s[i]),
    ensures
        byr_client::words(s) == seq![s],
    decreases s.len(),
{
    let rest = s.drop_last();
    assert(!text::is_white(s[s.len() - 1]));
    if s.len() == 1 {
        assert(byr_client::words(rest) =~= Seq::<Seq<char>>::empty());
        assert(seq![s.last()] =~= s);
        assert(byr_client::words(s) =~= seq![s]);
    } else {
        assert forall|i: int| 0 <= i < rest.len() implies !text::is_white(#[trigger] rest[i]) by {
            assert(rest[i] == s[i]);
        }
        lemma_one_word(rest);
        assert(!text::is_white(s[s.len() - 2]));
        assert(rest.push(s.last()) =~= s);
        assert(byr_client::words(s) =~= seq![s]);
    }
}

/// The text of a cell is tidied: white space between two parts with words becomes one space, white
/// space around the words falls away, and the words stay as they are.
pub proof fn law_tidied(a: Seq<char>, w: char, b: Seq<char>)
    requires
        text::is_white(w),
    ensures
        tidied(a + seq![w] + b) == (if tidied(a).len() == 0 {
            tidied(b)
        } else if tidied(b).len() == 0 {
            tidied(a)
        } else {
            tidied(a) + seq![' '] + tidied(b)
        }),
        tidied(Seq::empty()) == Seq::<char>::empty(),
        b.len() > 0 && (forall|i: int| 0 <= i < b.len() ==> !text::is_white(#[trigger] b[i]))
            ==> tidied(b) == b,
{
    lemma_words_around(a, w, b);
    lemma_joined(byr_client::words(a), byr_client::words(b));
    lemma_no_empty_words(a);
    lemma_no_empty_words(b);
    lemma_joined_length(byr_client::words(a));
    lemma_joined_length(byr_client::words(b));
    if byr_client::words(a).len() == 0 {
        assert(tidied(a) =~= Seq::<char>::empty());
    }
    if byr_client::words(b).len() == 0 {
        assert(tidied(b) =~= Seq::<char>::empty());
    }
    if b.len() > 0 && (forall|i: int| 0 <= i < b.len() ==> !text::is_white(#[trigger] b[i])) {
        lemma_one_word(b);
        assert(seq![b][0] == b);
    }
}

proof fn lemma_no_empty_words(s: Seq<char>)
    ensures
        forall|i: int|
            0 <= i < byr_client::words(s).len() ==> (#[trigger] byr_client::words(s)[i]).len() > 0,
        s.len() > 0 && !text::is_white(s.last()) ==> byr_client::words(s).len() > 0,
    decreases s.len(),
{
    if s.len() > 0 {
        let rest = s.drop_last();
        let before = byr_client::words(rest);
        lemma_no_empty_words(rest);
        if !text::is_white(s.last()) && s.len() >= 2 && !text::is_white(s[s.len() - 2]) {
            assert(rest.last() == s[s.len() - 2]);
            assert(before.len() > 0);
        }
    }
}

proof fn lemma_joined_length(words: Seq<Seq<char>>)
    requires
        forall|i: int| 0 <= i < words.len() ==> (#[trigger] words[i]).len() > 0,
    ensures
        words.len() > 0 ==> byr_client::joined(words).len() > 0,
{
    if words.len() > 0 {
        assert(words.last() == words[words.len() - 1]);
    }
}

/// The classes of the page and the promotions that they stand for.
pub proof fn law_promotions_of_classes(raw: Seq<char>)
    ensures
        raw == "free_bg"@ || raw == "free"@ ==> byr_client::tag_of(raw) == "免费"@,
        raw == "twoupfree_bg"@ || raw == "free2up"@ || raw == "twoupfree"@ ==> byr_client::tag_of(
            raw,
        ) == "免费&2x上传"@,
        raw == "twoup"@ || raw == "2up"@ ==> byr_client::tag_of(raw) == "2x上传"@,
        raw == "halfdown"@ || raw == "50pctdown"@ ==> byr_client::tag_of(raw) == "50%下载"@,
        raw == "twouphalfdown"@ || raw == "50pctdown2up"@ ==> byr_client::tag_of(raw)
            == "50%下载&2x上传"@,
        raw == "thirtypercentdown"@ || raw == "30pctdown"@ ==> byr_client::tag_of(raw)
            == "30%下载"@,
{
    reveal_strlit("free_bg");
    reveal_strlit("free");
    reveal_strlit("twoupfree_bg");
    reveal_strlit("free2up");
    reveal_strlit("twoupfree");
    reveal_strlit("twoup");
    reveal_strlit("2up");
    reveal_strlit("halfdown");
    reveal_strlit("50pctdown");
    reveal_strlit("twouphalfdown");
    reveal_strlit("50pctdown2up");
    reveal_strlit("thirtypercentdown");
    reveal_strlit("30pctdown");
    assert("free_bg"@.len() == 7 && "free"@.len() == 4 && "twoupfree_bg"@.len() == 12
        && "free2up"@.len() == 7 && "twoupfree"@.len() == 9 && "twoup"@.len() == 5 && "2up"@.len()
        == 3 && "halfdown"@.len() == 8 && "50pctdown"@.len() == 9 && "twouphalfdown"@.len() == 13
        && "50pctdown2up"@.len() == 12 && "thirtypercentdown"@.len() == 17 && "30pctdown"@.len()
        == 9);
    assert("free_bg"@[4] == '_' && "free2up"@[4] == '2');
    assert("twoupfree"@[0] == 't' && "50pctdown"@[0] == '5' && "30pctdown"@[0] == '3');
    assert("twoupfree_bg"@[0] == 't' && "50pctdown2up"@[0] == '5');
}

/// A link names its torrent behind its first `id=`, up to an ampersand or the end.
pub proof fn law_links_name_their_torrent(before: Seq<char>, id: Seq<char>, rest: Seq<char>)
    requires
        !text::contains(before + seq!['i', 'd'], seq!['i', 'd', '=']),
        !text::contains(id + rest, seq!['i', 'd', '=']),
        !id.contains('&'),
        rest.len() > 0 ==> rest[0] == '&',
    ensures
        byr_client::id_in_link(before + seq!['i', 'd', '='] + id + rest) == id,
{
    let mark = seq!['i', 'd', '='];
    let link = before + mark + id + rest;
    let n = before.len() as int;
    assert(mark[0] == 'i' && mark[1] == 'd' && mark[2] == '=');
    text_law::law_find(link, mark);
    assert(link.subrange(n, n + mark.len()) =~= mark);
    let i = text::find(link, mark)->0;
    assert(i == n) by {
        if i < n {
            let part = before + seq!['i', 'd'];
            assert(i + 3 <= part.len());
            assert(part.subrange(i, i + mark.len()) =~= link.subrange(i, i + mark.len()));
            assert(text::occurs_at(part, mark, i));
        }
    }
    let tail = link.skip(i + 3);
    assert(tail =~= id + rest);
    text_law::law_find(tail, mark);
    assert(text::find(tail, mark) is None) by {
        if text::find(tail, mark) is Some {
            let k = text::find(tail, mark)->0;
            assert(text::occurs_at(tail, mark, k));
        }
    }
    let amp = seq!['&'];
    assert(amp[0] == '&');
    text_law::law_find(tail, amp);
    match text::find(tail, amp) {
        Some(k) => {
            assert(tail.subrange(k, k + amp.len())[0] == tail[k]);
            if k < id.len() {
                assert(id[k] == '&');
                assert(id.contains(id[k]));
            }
            if k > id.len() {
                assert(tail[id.len() as int] == '&');
                assert(tail.subrange(id.len() as int, id.len() as int + amp.len()) =~= amp);
            }
            assert(tail.take(k) =~= id);
        },
        None => {
            if rest.len() > 0 {
                assert(tail.subrange(id.len() as int, id.len() as int + amp.len()) =~= amp);
            }
            assert(tail =~= id);
        },
    }
}

/// A link without `id=` names no torrent.
pub proof fn law_other_links_name_none(link: Seq<char>)
    requires
        !text::contains(link, seq!['i', 'd', '=']),
    ensures
        byr_client::id_in_link(link).len() == 0,
{
    let mark = seq!['i', 'd', '='];
    text_law::law_find(link, mark);
    if text::find(link, mark) is Some {
        assert(text::occurs_at(link, mark, text::find(link, mark)->0));
    }
}

/// A row lists a torrent where its class is one of the two free ones, it has eight cells or more,
/// and its first link to a torrent names one.
pub proof fn law_rows_that_list_torrents(
    class: Seq<char>,
    cells: Seq<(Seq<char>, Seq<char>)>,
    categories: Seq<(Seq<char>, Option<Seq<char>>, Option<Seq<char>>)>,
    titles: Seq<(Seq<char>, Option<Seq<char>>, Option<Seq<char>>)>,
)
    ensures
        byr_client::listed_torrent(class, cells, categories, titles) is Some <==> (class
            == "free_bg"@ || class == "twoupfree_bg"@) && cells.len() >= 8 && titles.len() > 0
            && titles[0].1 is Some && byr_client::id_in_link(titles[0].1->0).len() > 0,
{
    if titles.len() > 0 && titles[0].1 is None {
        let none = Seq::<char>::empty();
        let mark = seq!['i', 'd', '='];
        assert(!text::contains(none, mark)) by {
            if text::contains(none, mark) {
                let i = choose|i: int| text::occurs_at(none, mark, i);
                assert(mark.len() == 3);
            }
        }
        law_other_links_name_none(none);
    }
}

/// Where each part of a listed torrent comes from.
pub proof fn law_listed_torrent(
    class: Seq<char>,
    cells: Seq<(Seq<char>, Seq<char>)>,
    categories: Seq<(Seq<char>, Option<Seq<char>>, Option<Seq<char>>)>,
    titles: Seq<(Seq<char>, Option<Seq<char>>, Option<Seq<char>>)>,
)
    requires
        byr_client::listed_torrent(class, cells, categories, titles) is Some,
    ensures
        ({
            let torrent = byr_client::listed_torrent(class, cells, categories, titles)->0;
            &&& torrent.seed_id == byr_client::id_in_link(titles[0].1->0)
            &&& categories.len() == 0 ==> torrent.category.len() == 0
            &&& categories.len() > 0 ==> torrent.category == text::trim(categories[0].0)
            &&& titles[0].2 matches Some(title) ==> torrent.title == "["@ + torrent.category + "] "@
                + title
            &&& titles[0].2 is None ==> torrent.title == "["@ + torrent.category + "] "@
                + titles[0].1->0
            &&& class == "free_bg"@ ==> torrent.tag == "免费"@
            &&& class == "twoupfree_bg"@ ==> torrent.tag == "免费&2x上传"@
            &&& torrent.size_text == tidied(cells[4].1)
            &&& torrent.size_bytes == planner::listed_size(tidied(cells[4].1))
            &&& torrent.seeders == byr_client::count_in(tidied(cells[5].1))
            &&& torrent.leechers == byr_client::count_in(tidied(cells[6].1))
            &&& torrent.finished == byr_client::count_in(tidied(cells[7].1))
            &&& torrent.is_hot == text::contains(cells[1].0, "class=\"hot\""@)
            &&& torrent.is_new == text::contains(cells[1].0, "class=\"new\""@)
            &&& torrent.is_recommended == text::contains(cells[1].0, "class=\"recommended\""@)
        }),
{
    law_rows_that_list_torrents(class, cells, categories, titles);
    law_promotions_of_classes(class);
}

/// The cells of a row are its `td` elements, all of them and in order.
pub proof fn law_cells(
    children: Seq<(Option<Seq<char>>, Seq<char>, Seq<char>)>,
    child: (Option<Seq<char>>, Seq<char>, Seq<char>),
)
    ensures
        byr_client::cells_of(Seq::empty()).len() == 0,
        child.0 == Some("td"@) ==> byr_client::cells_of(children.push(child))
            == byr_client::cells_of(children).push((child.1, child.2)),
        child.0 != Some("td"@) ==> byr_client::cells_of(children.push(child))
            == byr_client::cells_of(children),
{
    reveal(Seq::filter);
    assert(children.push(child).drop_last() =~= children);
    let cell = |child: (Option<Seq<char>>, Seq<char>, Seq<char>)| child.0 == Some("td"@);
    let content = |child: (Option<Seq<char>>, Seq<char>, Seq<char>)| (child.1, child.2);
    let kept = children.filter(cell);
    assert(kept.push(child).map_values(content) =~= kept.map_values(content).push(content(child)));
}

/// The rows of a page are read one by one: what two parts of it list is what each of them lists.
pub proof fn law_rows_are_read_one_by_one(
    a: Seq<(Option<Seq<char>>, Seq<(Option<Seq<char>>, Seq<char>, Seq<char>)>)>,
    b: Seq<(Option<Seq<char>>, Seq<(Option<Seq<char>>, Seq<char>, Seq<char>)>)>,
)
    ensures
        byr_client::rows_torrents(a + b) == byr_client::rows_torrents(a)
            + byr_client::rows_torrents(b),
    decreases b.len(),
{
    if b.len() == 0 {
        assert(a + b =~= a);
        assert(byr_client::rows_torrents(a) + byr_client::rows_torrents(b)
            =~= byr_client::rows_torrents(a));
    } else {
        law_rows_are_read_one_by_one(a, b.drop_last());
        assert((a + b).drop_last() =~= a + b.drop_last());
        assert((a + b).last() == b.last());
        assert(byr_client::rows_torrents(a + b) =~= byr_client::rows_torrents(a)
            + byr_client::rows_torrents(b));
    }
}

/// A row by itself lists the torrent of its cells: the category is looked for in the first cell, the
/// link to the torrent in the second.
pub proof fn law_one_row(
    row: (Option<Seq<char>>, Seq<(Option<Seq<char>>, Seq<char>, Seq<char>)>),
)
    requires
        byr_client::cells_of(row.1).len() >= 8,
        row.0 is Some,
    ensures
        ({
            let cells = byr_client::cells_of(row.1);
            let listed = byr_client::listed_torrent(
                row.0->0,
                cells,
                byr_client::selected_elements(cells[0].0, ".cat-link"@, "href"@, "title"@),
                byr_client::selected_elements(
                    cells[1].0,
                    "table.torrentname a[href*='details.php?id=']"@,
                    "href"@,
                    "title"@,
                ),
            );
            byr_client::rows_torrents(seq![row]) == match listed {
                Some(torrent) => seq![torrent],
                None => Seq::empty(),
            }
        }),
{
    reveal(byr_client::row_torrent);
    let rows = seq![row];
    assert(rows.drop_last().len() == 0);
    assert(rows.last() == row);
    let none = byr_client::rows_torrents(rows.drop_last());
    assert(none =~= Seq::empty());
    match byr_client::row_torrent(row) {
        Some(torrent) => {
            assert(none.push(torrent) =~= seq![torrent]);
        },
        None => {},
    }
}

/// A row without a class, or with too few cells, lists nothing.
pub proof fn law_rows_that_list_none(
    row: (Option<Seq<char>>, Seq<(Option<Seq<char>>, Seq<char>, Seq<char>)>),
)
    requires
        row.0 is None || byr_client::cells_of(row.1).len() < 8 || row.0->0 != "free_bg"@ && row.0->0
            != "twoupfree_bg"@,
    ensures
        byr_client::rows_torrents(seq![row]).len() == 0,
{
    reveal(byr_client::row_torrent);
    reveal_strlit("free_bg");
    reveal_strlit("twoupfree_bg");
    assert("free_bg"@.len() == 7 && "twoupfree_bg"@.len() == 12);
    let rows = seq![row];
    assert(rows.drop_last().len() == 0);
    assert(rows.last() == row);
    assert(byr_client::rows_torrents(rows.drop_last()).len() == 0);
    assert(byr_client::row_torrent(row) is None);
}

} // verus!
