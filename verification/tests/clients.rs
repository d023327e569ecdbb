use byrradar::binary64::Binary64;
use byrradar::byr_client::{
    authorization, collect_text, download_url, login_payload, login_token, looks_like_phone_number, map_tag,
    parse_free_torrents, parse_int, parse_row, row_cells, seed_id_of, Cell, LoginPayload, PageElement, PageNode,
};
use byrradar::config::Config;
use byrradar::models::{ApiEnvelope, LoginData, QbTorrent};
use byrradar::qb_client::{
    add_request, check_new, cookie_url, cookie_url_of, endpoint, extract_torrent_name, first_listed, host_base,
    is_among, judge_answer, judge_poll, listed_torrent, listed_torrents, space_snapshot, tag_with, torrent_names,
    unique_tag, NameError, Poll, TorrentInfoDict, TorrentListing, TorrentMetaInfo, MOST_POLLS,
};

fn config(username: &str) -> Config {
    Config {
        byr_username: username.to_string(),
        byr_password: "p".to_string(),
        qb_host: "http://h".to_string(),
        qb_username: "u".to_string(),
        qb_password: "q".to_string(),
        qb_download_path: "H:/BT".to_string(),
        dry_run: false,
        include_categories: None,
        auto_rotate_enabled: false,
        max_remove_per_cycle: 0,
        min_seeding_hours_before_remove: 0,
        max_leechers_for_stale: 0,
        max_recent_upspeed_kib: 0,
    }
}

fn row(class: &str, title: &str, cells: usize) -> String {
    let mut html = format!("<tr class=\"{class}\"><td><a class=\"cat-link\" href=\"?cat=1\"> 电影 </a></td><td><table class=\"torrentname\"><tr><td>{title}</td></tr></table></td><td>2</td><td>3</td><td> 20.5\n <br> GiB </td><td><b>1,024</b></td><td>7</td><td>--</td>");
    for _ in 8..cells {
        html.push_str("<td>x</td>");
    }
    html.push_str("</tr>");
    html
}

#[test]
fn free_torrents_are_read_off_the_page() {
    let mut page = String::from("<html><body><table class=\"torrents\">");
    page.push_str("<tr class=\"colhead\"><td>head</td></tr>");
    page.push_str(&row("free_bg", "<a title=\"First &amp; best\" href=\"details.php?id=101&hit=1\"><b>First</b></a><b class=\"hot\">热门</b>", 9));
    page.push_str(&row("halfdown_bg", "<a title=\"Half\" href=\"details.php?id=102\">Half</a>", 9));
    page.push_str(&row("twoupfree_bg", "<a href=\"details.php?id=103\">Second</a><b class=\"new\">新</b><b class=\"recommended\">荐</b>", 8));
    page.push_str(&row("free_bg", "<a href=\"userdetails.php?id=104\">Not it</a>", 8));
    page.push_str("<tr class=\"free_bg\"><td>short</td></tr>");
    page.push_str("</table></body></html>");

    let torrents = parse_free_torrents(&page);
    assert_eq!(torrents.len(), 3);
    let first = &torrents[0];
    assert_eq!(first.seed_id, "101");
    assert_eq!(first.category, "电影");
    assert_eq!(first.title, "[电影] First & best");
    assert_eq!(first.tag, "免费");
    assert_eq!(first.size_text, "20.5 GiB");
    assert_eq!(first.size_bytes, Some(22011707392));
    assert_eq!((first.seeders, first.leechers, first.finished), (1024, 7, -1));
    assert!(first.is_hot && !first.is_new && !first.is_recommended);
    let second = &torrents[1];
    assert_eq!(second.seed_id, "103");
    assert_eq!(second.title, "[电影] details.php?id=103");
    assert_eq!(second.tag, "免费&2x上传");
    assert!(!second.is_hot && second.is_new && second.is_recommended);
    assert_eq!(torrents[2].seed_id, "104");
    assert!(parse_free_torrents("").is_empty());
    for torrent in &torrents {
        assert!(!torrent.seed_id.is_empty());
        assert!(torrent.tag == "免费" || torrent.tag == "免费&2x上传");
    }
}

fn cell(text: &str) -> Cell {
    Cell { html: format!("<td>{text}</td>"), text: text.to_string() }
}

fn element(text: &str, link: Option<&str>, title: Option<&str>) -> PageElement {
    PageElement { text: text.to_string(), link: link.map(str::to_string), title: title.map(str::to_string) }
}

#[test]
fn rows_without_a_torrent_are_passed_over() {
    let cells: Vec<Cell> = ["c", "t", "2", "3", "1 GiB", "4", "5", "6"].iter().map(|text| cell(text)).collect();
    let link = [element("x", Some("details.php?id=9"), Some("T"))];
    let torrent = parse_row("free_bg", &cells, &[], &link).unwrap();
    assert_eq!(torrent.category, "");
    assert_eq!(torrent.title, "[] T");
    assert_eq!((torrent.seeders, torrent.leechers, torrent.finished), (4, 5, 6));
    assert!(parse_row("free", &cells, &[], &link).is_none());
    assert!(parse_row("", &cells, &[], &link).is_none());
    assert!(parse_row("free_bg", &cells[..7], &[], &link).is_none());
    assert!(parse_row("free_bg", &cells, &[], &[]).is_none());
    assert!(parse_row("free_bg", &cells, &[], &[element("x", None, Some("T"))]).is_none());
    assert!(parse_row("free_bg", &cells, &[], &[element("x", Some("details.php?id=&a"), None)]).is_none());
}

#[test]
fn cells_are_the_td_elements() {
    let node = |name: Option<&str>, text: &str| PageNode {
        name: name.map(str::to_string),
        html: format!("<{text}>"),
        text: text.to_string(),
    };
    let cells = row_cells(&vec![node(Some("td"), "a"), node(None, "b"), node(Some("th"), "c"), node(Some("td"), "d")]);
    let texts: Vec<(&str, &str)> = cells.iter().map(|cell| (cell.html.as_str(), cell.text.as_str())).collect();
    assert_eq!(texts, [("<a>", "a"), ("<d>", "d")]);
}

#[test]
fn links_name_their_torrent() {
    for (link, id) in [
        ("details.php?id=12&hit=1", "12"),
        ("details.php?id=12", "12"),
        ("details.php", ""),
        ("id=a&b", "a"),
        ("id=aid=b", "a"),
        ("id=id=b", ""),
        ("id=&b", ""),
    ] {
        assert_eq!(seed_id_of(link), id);
        let expected = link.split("id=").nth(1).and_then(|rest| rest.split('&').next()).unwrap_or_default();
        assert_eq!(seed_id_of(link), expected);
    }
}

#[test]
fn texts_of_the_page_are_tidied() {
    assert_eq!(collect_text("  a\n b\u{3000}c "), "a b c");
    assert_eq!(collect_text(" \t"), "");
    assert_eq!(parse_int("1,024 人"), 1024);
    assert_eq!(parse_int("2147483648"), -1);
    assert_eq!(parse_int("2147483647"), 2147483647);
    assert_eq!(parse_int("none"), -1);
    assert_eq!(parse_int("-5"), 5);
    assert_eq!(map_tag("50pctdown2up"), "50%下载&2x上传");
    assert_eq!(map_tag("30pctdown"), "30%下载");
    assert_eq!(map_tag("2up"), "2x上传");
    assert_eq!(map_tag("halfdown"), "50%下载");
    assert_eq!(map_tag("other"), "");
}

#[test]
fn a_phone_number_logs_in_as_such() {
    assert!(looks_like_phone_number("13800138000"));
    for name in ["1380013800", "138001380000", "1380013800a", "１３８００１３８０００"] {
        assert!(!looks_like_phone_number(name), "{name}");
    }
    match login_payload(&config("13800138000")) {
        LoginPayload::Mobile { mobile, password } => assert_eq!((mobile.as_str(), password.as_str()), ("13800138000", "p")),
        LoginPayload::Username { .. } => panic!("a phone number"),
    }
    match login_payload(&config("name")) {
        LoginPayload::Username { username, password } => assert_eq!((username.as_str(), password.as_str()), ("name", "p")),
        LoginPayload::Mobile { .. } => panic!("no phone number"),
    }
}

fn envelope(auth_token: Option<&str>, success: bool) -> ApiEnvelope<LoginData> {
    ApiEnvelope {
        success,
        code: 0,
        msg: String::new(),
        data: LoginData {
            auth_token: auth_token.map(str::to_string),
            verify_token: None,
            user_id: None,
            need_mobile_verify: None,
            need_reset_password: None,
        },
    }
}

#[test]
fn a_login_needs_a_token() {
    assert_eq!(login_token(envelope(Some("t"), false)).unwrap(), "t");
    let error = login_token(envelope(None, true)).unwrap_err();
    assert_eq!(error.message(), "BYR login API did not return auth_token");
    assert_eq!(authorization("t"), "Bearer t");
    assert_eq!(download_url("7"), "https://byr.pt/download.php?id=7");
}

#[test]
fn the_host_is_a_url() {
    assert_eq!(host_base("http://localhost:8080//"), "http://localhost:8080");
    assert_eq!(endpoint("http://h", "torrents/add"), "http://h/api/v2/torrents/add");
    assert_eq!(cookie_url("HTTP://LocalHost:80").unwrap(), "http://localhost/");
    let error = cookie_url("localhost").unwrap_err();
    assert_eq!(error.message(), "failed to parse qB host as URL");
    assert_eq!(error.cause, "relative URL without a base");
    assert_eq!(cookie_url_of(Ok("u".to_string())).unwrap(), "u");
    assert_eq!(cookie_url_of(Err("c".to_string())).unwrap_err().cause, "c");
}

fn listing(hash: &str) -> TorrentListing {
    TorrentListing {
        name: format!("name {hash}"),
        hash: hash.to_string(),
        state: "downloading".to_string(),
        tags: None,
        total_size: None,
        size: None,
        completed: None,
        added_on: None,
        upspeed: None,
        num_leechs: None,
        num_seeds: None,
        progress: None,
    }
}

#[test]
fn listings_become_torrents() {
    let bare = listed_torrent(listing("a"));
    assert_eq!((bare.name.as_str(), bare.hash.as_str(), bare.state.as_str(), bare.tags.as_str()), ("name a", "a", "downloading", ""));
    assert_eq!((bare.total_size, bare.completed, bare.added_on, bare.upspeed), (0, 0, 0, 0));
    assert_eq!((bare.num_leechs, bare.num_seeds, bare.progress), (0, 0, Binary64 { bits: 0 }));
    let mut full = listing("b");
    full.tags = Some("keep".to_string());
    full.size = Some(3);
    full.completed = Some(2);
    full.added_on = Some(-4);
    full.upspeed = Some(5);
    full.num_leechs = Some(6);
    full.num_seeds = Some(-7);
    full.progress = Some(Binary64 { bits: 0.5f64.to_bits() });
    let torrent = listed_torrent(full);
    assert_eq!((torrent.total_size, torrent.completed, torrent.added_on, torrent.upspeed), (3, 2, -4, 5));
    assert_eq!((torrent.num_leechs, torrent.num_seeds, torrent.tags.as_str()), (6, -7, "keep"));
    assert_eq!(torrent.progress, Binary64 { bits: 0.5f64.to_bits() });
    let mut both = listing("c");
    both.total_size = Some(9);
    both.size = Some(3);
    assert_eq!(listed_torrent(both).total_size, 9);
    let all = listed_torrents(vec![listing("a"), listing("b"), listing("c")]);
    assert_eq!(torrent_names(&all), ["name a", "name b", "name c"]);
    assert_eq!(first_listed(vec![listing("x"), listing("y")]).unwrap().hash, "x");
    assert!(first_listed(Vec::new()).is_none());
}

fn present(state: &str, total_size: u64, completed: u64) -> QbTorrent {
    let mut torrent = listed_torrent(listing("h"));
    torrent.state = state.to_string();
    torrent.total_size = total_size;
    torrent.completed = completed;
    torrent
}

#[test]
fn what_is_still_to_come_is_summed_up() {
    for state in ["downloading", "forcedDL", "metaDL", "forcedMetaDL", "stalledDL", "checkingDL", "queuedDL"] {
        assert_eq!(space_snapshot(9, &[present(state, 10, 4)]).downloading_remaining_bytes, 6, "{state}");
    }
    let space = space_snapshot(9, &[present("downloading", 10, 4), present("uploading", 10, 4), present("queuedDL", 3, 5), present("metaDL", 7, 0)]);
    assert_eq!((space.free_space_bytes, space.downloading_remaining_bytes), (9, 13));
    let much = space_snapshot(0, &[present("metaDL", u64::MAX, 0), present("metaDL", 3, 0)]);
    assert_eq!(much.downloading_remaining_bytes, 2);
}

fn meta(name_utf8: Option<&str>, name: Option<&str>) -> Option<TorrentMetaInfo> {
    Some(TorrentMetaInfo {
        info: TorrentInfoDict { name: name.map(str::to_string), name_utf8: name_utf8.map(str::to_string), pieces: None },
    })
}

#[test]
fn a_torrent_file_has_a_name() {
    assert_eq!(extract_torrent_name(meta(Some("u"), Some("n"))).unwrap(), "u");
    assert_eq!(extract_torrent_name(meta(None, Some("n"))).unwrap(), "n");
    let missing = extract_torrent_name(meta(None, None)).unwrap_err();
    assert!(matches!(missing, NameError::Missing));
    assert_eq!(missing.message(), "torrent info dictionary did not contain a name field");
    let unreadable = extract_torrent_name(None).unwrap_err();
    assert_eq!(unreadable.message(), "failed to parse torrent metadata with serde_bencode");
}

#[test]
fn adding_fails_for_a_cause() {
    let existing = ["a".to_string(), "b".to_string()];
    assert!(is_among("b", &existing) && !is_among("c", &existing));
    assert!(check_new(&Some("c".to_string()), &existing).is_ok());
    assert!(check_new(&None, &existing).is_ok());
    assert_eq!(
        check_new(&Some("b".to_string()), &existing).unwrap_err().message(),
        "torrent appears to already exist in qB by name: b"
    );
    assert!(judge_answer(true, "200 OK", "Ok.", &None).is_ok());
    assert_eq!(
        judge_answer(false, "415 Unsupported Media Type", " no \n", &None).unwrap_err().message(),
        "qB add torrent endpoint returned error status 415 Unsupported Media Type with body no"
    );
    assert_eq!(
        judge_answer(true, "200 OK", " Fails.\n", &None).unwrap_err().message(),
        "qB rejected torrent add request with body 'Fails.'"
    );
    assert_eq!(
        judge_answer(true, "200 OK", "Fails.", &Some("n".to_string())).unwrap_err().message(),
        "qB rejected torrent add request with body 'Fails.' (torrent name: n)"
    );
}

#[test]
fn a_torrent_is_asked_for_ten_times() {
    assert_eq!(MOST_POLLS, 10);
    assert!(matches!(judge_poll(1, None), Poll::Again));
    assert!(matches!(judge_poll(9, None), Poll::Again));
    assert!(matches!(judge_poll(10, Some(listed_torrent(listing("h")))), Poll::Found(torrent) if torrent.hash == "h"));
    match judge_poll(10, None) {
        Poll::Failed(error) => assert_eq!(error.message(), "torrent added request succeeded but no new qB torrent was detected"),
        other => panic!("{other:?}"),
    }
}

#[test]
fn a_request_carries_its_tag() {
    let request = add_request("12", "H:/BT", true, "temp_x");
    assert_eq!((request.file_name.as_str(), request.savepath.as_str(), request.paused, request.tags.as_str()), ("12.torrent", "H:/BT", "true", "temp_x"));
    assert_eq!(add_request("12", "", false, "").paused, "false");
    assert_eq!(tag_with("id"), "temp_id");
    let tag = unique_tag();
    let id = tag.strip_prefix("temp_").unwrap();
    assert_eq!(id.len(), 32);
    assert!(id.chars().all(|c| c.is_ascii_digit() || ('a'..='f').contains(&c)));
    assert_eq!(&id[12..13], "4");
    assert!(["8", "9", "a", "b"].contains(&&id[16..17]));
    assert_ne!(tag, unique_tag());
}
