use byrradar::binary64::Binary64;
use byrradar::clock::{current_unix_ts, unix_ts};
use byrradar::config::Config;
use byrradar::models::{QbTorrent, TorrentInfo};
use byrradar::planner::{
    find_appropriate_torrents, parse_size_to_bytes, priority_key, size_in_bytes, sort_torrents_by_priority,
};
use byrradar::rotation::{
    adoption_pool_at, age_hours, build_cleanup_plan, cleanup_pool_at, cleanup_reason_at, cleanup_reason_summary,
    count_keep_torrents, count_managed_torrents, has_keep_tag, is_cleanup_eligible, is_completed_torrent,
    is_managed_torrent, matches_keep_query, parse_keep_query, select_adoption_pool, select_cleanup_pool,
    select_keep_targets, CleanupPlan, COMPLETE_BITS,
};

const GIB: u64 = 1024 * 1024 * 1024;

fn offer(seed_id: &str, seeders: i32, leechers: i32, size_text: &str) -> TorrentInfo {
    TorrentInfo {
        seed_id: seed_id.to_string(),
        category: "电影".to_string(),
        title: format!("[电影] {seed_id}"),
        tag: "免费".to_string(),
        size_text: size_text.to_string(),
        size_bytes: parse_size_to_bytes(size_text),
        seeders,
        leechers,
        finished: 0,
        is_hot: false,
        is_new: false,
        is_recommended: false,
    }
}

fn ids(torrents: &[TorrentInfo]) -> Vec<&str> {
    torrents.iter().map(|torrent| torrent.seed_id.as_str()).collect()
}

fn present(hash: &str, tags: &str) -> QbTorrent {
    QbTorrent {
        name: format!("Name {hash}"),
        hash: hash.to_string(),
        state: "stalledUP".to_string(),
        tags: tags.to_string(),
        total_size: 10 * GIB,
        completed: 10 * GIB,
        added_on: 1_000,
        upspeed: 0,
        num_leechs: 0,
        num_seeds: 5,
        progress: Binary64 { bits: 1.0f64.to_bits() },
    }
}

fn hashes(torrents: &[QbTorrent]) -> Vec<&str> {
    torrents.iter().map(|torrent| torrent.hash.as_str()).collect()
}

fn config() -> Config {
    Config {
        byr_username: "u".to_string(),
        byr_password: "p".to_string(),
        qb_host: "http://h".to_string(),
        qb_username: "u".to_string(),
        qb_password: "p".to_string(),
        qb_download_path: "H:/BT".to_string(),
        dry_run: false,
        include_categories: None,
        auto_rotate_enabled: true,
        max_remove_per_cycle: 3,
        min_seeding_hours_before_remove: 24,
        max_leechers_for_stale: 2,
        max_recent_upspeed_kib: 10,
    }
}

#[test]
fn sizes_are_read_in_bytes() {
    assert_eq!(parse_size_to_bytes("1 KiB"), Some(1024));
    assert_eq!(parse_size_to_bytes("1.5 mib"), Some(1572864));
    assert_eq!(parse_size_to_bytes(" 20.37 GiB "), Some((20.37f64 * GIB as f64) as u64));
    assert_eq!(parse_size_to_bytes("0.1TiB"), Some((0.1f64 * (1024 * GIB) as f64) as u64));
    assert_eq!(parse_size_to_bytes("-1 GiB"), Some(0));
    assert_eq!(parse_size_to_bytes("inf GiB"), Some(u64::MAX));
    assert_eq!(parse_size_to_bytes("nan GiB"), Some(0));
    for text in ["", "12", "GiB", "x GiB", "1 GB", "1 GiB/s", "1\tGiB"] {
        assert_eq!(parse_size_to_bytes(text), None, "{text}");
    }
    let chars: Vec<char> = "2GIB".chars().collect();
    assert_eq!(size_in_bytes(&chars), Some(2 * GIB));
    let small: Vec<char> = "2gib".chars().collect();
    assert_eq!(size_in_bytes(&small), None);
}

#[test]
fn of_few_torrents_those_with_peers_are_taken() {
    let torrents = [offer("a", 1, 0, "1 MiB"), offer("b", 0, 9, "1 GiB"), offer("c", 1, -1, "1 GiB"), offer("d", 2, 3, "?")];
    assert_eq!(ids(&find_appropriate_torrents(&torrents)), ["a", "d"]);
}

#[test]
fn of_many_torrents_those_in_demand_are_taken() {
    let mut torrents = vec![
        offer("in", 1, 20, "20 GiB"),
        offer("low", 3, 59, "30 GiB"),
        offer("just", 3, 60, "30 GiB"),
        offer("small", 1, 90, "19.99 GiB"),
        offer("unit", 1, 90, "2 TiB"),
        offer("none", 0, 90, "30 GiB"),
        offer("less", 1, -1, "30 GiB"),
        offer("odd", 1, 90, "x GiB"),
        offer("nan", 1, 90, "nan GiB"),
    ];
    while torrents.len() < 19 {
        torrents.push(offer("filler", 1, 0, "1 MiB"));
    }
    assert_eq!(find_appropriate_torrents(&torrents).len(), 17);
    torrents.push(offer("last", 1, 100, "100 GiB"));
    assert_eq!(ids(&find_appropriate_torrents(&torrents)), ["in", "just", "nan", "last"]);
}

#[test]
fn ranks_follow_promotion_ratio_size_and_leechers() {
    let mut torrents = vec![
        offer("half", 1, 50, "1 GiB"),
        offer("free", 1, 5, "1 GiB"),
        offer("free more", 1, 6, "1 GiB"),
        offer("double", 9, 1, "1 GiB"),
        offer("free large", 1, 5, "2 GiB"),
        offer("free again", 1, 5, "1 GiB"),
    ];
    torrents[0].tag = "50%下载".to_string();
    torrents[3].tag = "免费&2x上传".to_string();
    let sorted = sort_torrents_by_priority(&torrents);
    assert_eq!(ids(&sorted), ["double", "free more", "free large", "free", "free again", "half"]);
    let ranks: Vec<i128> = ["免费&2x上传", "免费", "50%下载&2x上传", "50%下载", "30%下载", "2x上传"]
        .iter()
        .map(|tag| {
            let mut torrent = offer("t", 1, 1, "1 GiB");
            torrent.tag = tag.to_string();
            priority_key(&torrent).first
        })
        .collect();
    assert_eq!(ranks, [0, 1, 2, 3, 4, 5]);
}

#[test]
fn ratios_are_scaled_as_double_precision_does() {
    for (leechers, seeders) in [(1, 3), (2, 3), (7, 1000), (2147483647, 1), (-1, 3), (-2147483648, 7), (0, 4), (5, 0), (5, -1)] {
        let key = priority_key(&offer("t", seeders, leechers, "1 GiB"));
        let expected = if seeders > 0 { ((leechers as f64 / seeders as f64) * 1000.0) as i64 } else { 0 };
        assert_eq!(key.second, -(expected as i128), "{leechers}/{seeders}");
        assert_eq!(key.fourth, leechers.wrapping_neg() as i128);
    }
    let mut torrent = offer("t", 1, 1, "1 GiB");
    for size in [0u64, 1, 1 << 62, 1 << 63, u64::MAX] {
        torrent.size_bytes = Some(size);
        assert_eq!(priority_key(&torrent).third, (size as i64).wrapping_neg() as i128);
    }
    torrent.size_bytes = None;
    assert_eq!(priority_key(&torrent).third, 0);
}

#[test]
fn tags_are_found_whatever_their_case() {
    assert!(is_managed_torrent(&present("a", "x, ByrRadar ,y")));
    assert!(!is_managed_torrent(&present("a", "byrradar2")));
    assert!(has_keep_tag(&present("a", "KEEP")));
    assert!(!has_keep_tag(&present("a", "keep it")));
    let torrents = [present("a", "byrradar,keep"), present("b", "keep"), present("c", "byrradar"), present("d", "")];
    assert_eq!(count_managed_torrents(&torrents), 2);
    assert_eq!(count_keep_torrents(&torrents), 2);
}

#[test]
fn complete_means_nearly_all_of_it() {
    assert_eq!(COMPLETE_BITS, 0.999f64.to_bits());
    let mut torrent = present("a", "");
    assert!(is_completed_torrent(&torrent));
    torrent.completed = 1;
    torrent.progress = Binary64 { bits: 0.999f64.to_bits() };
    assert!(is_completed_torrent(&torrent));
    torrent.progress = Binary64 { bits: 0.9989999f64.to_bits() };
    assert!(!is_completed_torrent(&torrent));
    torrent.progress = Binary64 { bits: f64::NAN.to_bits() };
    assert!(!is_completed_torrent(&torrent));
    torrent.progress = Binary64 { bits: (-1.0f64).to_bits() };
    assert!(!is_completed_torrent(&torrent));
    torrent.completed = 10 * GIB;
    for state in ["downloading", "forcedDL", "metaDL", "forcedMetaDL", "checkingDL", "allocating"] {
        torrent.state = state.to_string();
        assert!(!is_completed_torrent(&torrent), "{state}");
    }
    torrent.state = "stalledDL".to_string();
    assert!(is_completed_torrent(&torrent));
    torrent.total_size = 0;
    assert!(!is_completed_torrent(&torrent));
}

#[test]
fn age_counts_whole_hours() {
    let mut torrent = present("a", "");
    assert_eq!(age_hours(&torrent, 1_000 + 3_599), 0);
    assert_eq!(age_hours(&torrent, 1_000 + 7_200), 2);
    assert_eq!(age_hours(&torrent, 999), 0);
    torrent.added_on = 0;
    assert_eq!(age_hours(&torrent, i64::MAX), 0);
    torrent.added_on = 1;
    assert_eq!(age_hours(&torrent, i64::MAX), (i64::MAX as u64 - 1) / 3600);
}

#[test]
fn only_stale_managed_torrents_may_go() {
    let now = 1_000 + 24 * 3600;
    let fits = present("a", "byrradar");
    assert!(is_cleanup_eligible(&fits, &config(), now));
    assert!(!is_cleanup_eligible(&fits, &config(), now - 1));
    assert!(!is_cleanup_eligible(&present("a", "byrradar,keep"), &config(), now));
    assert!(!is_cleanup_eligible(&present("a", "other"), &config(), now));
    let mut wanted = fits.clone();
    wanted.num_leechs = 3;
    assert!(!is_cleanup_eligible(&wanted, &config(), now));
    let mut busy = fits.clone();
    busy.upspeed = 10 * 1024 + 1;
    assert!(!is_cleanup_eligible(&busy, &config(), now));
    busy.upspeed = u64::MAX;
    let mut lax = config();
    lax.max_recent_upspeed_kib = u64::MAX;
    assert!(is_cleanup_eligible(&busy, &lax, now));
    let mut partial = fits.clone();
    partial.completed = 0;
    partial.progress = Binary64 { bits: 0 };
    assert!(!is_cleanup_eligible(&partial, &config(), now));
}

#[test]
fn the_least_wanted_go_first() {
    let now = 10_000_000;
    let mut torrents: Vec<QbTorrent> =
        ["a", "b", "c", "d", "e", "f", "k"].iter().map(|hash| present(hash, "byrradar")).collect();
    torrents[0].num_leechs = 1;
    torrents[1].num_seeds = 9;
    torrents[2].upspeed = 7;
    torrents[3].added_on = 2_000;
    torrents[4].total_size = 20 * GIB;
    torrents[4].completed = 20 * GIB;
    torrents[5].num_leechs = -4;
    torrents[6].tags = "byrradar,keep".to_string();
    let pool = cleanup_pool_at(&torrents, &config(), now);
    assert_eq!(hashes(&pool), ["e", "f", "d", "c", "b", "a"]);
    assert_eq!(hashes(&select_cleanup_pool(&torrents, &config())), ["e", "f", "d", "c", "b", "a"]);
}

#[test]
fn the_oldest_are_adopted_first() {
    let mut torrents: Vec<QbTorrent> =
        ["a", "b", "c", "m", "k"].iter().map(|hash| present(hash, "")).collect();
    torrents[0].added_on = 1_000 + 50 * 3600;
    torrents[1].upspeed = 1;
    torrents[3].tags = "byrradar".to_string();
    torrents[4].tags = "keep".to_string();
    assert_eq!(hashes(&adoption_pool_at(&torrents, 1_000 + 100 * 3600)), ["c", "b", "a"]);
    assert_eq!(hashes(&select_adoption_pool(&torrents)), ["c", "b", "a"]);
    let managed = cleanup_pool_at(&torrents, &config(), 1_000 + 100 * 3600);
    assert_eq!(hashes(&managed), ["m"]);
}

#[test]
fn queries_name_torrents_to_keep() {
    assert_eq!(parse_keep_query(" Foo,\nBAR\r, ,"), ["foo", "bar"]);
    let torrents = [present("AbC", "keep"), present("def", ""), present("xyz", "keep")];
    assert!(matches_keep_query(&torrents[0], &["abc".to_string()]));
    assert!(!matches_keep_query(&torrents[0], &["ABC".to_string()]));
    assert_eq!(hashes(&select_keep_targets(&torrents, "ABC, name d", None)), ["AbC", "def"]);
    assert_eq!(hashes(&select_keep_targets(&torrents, "name", Some(true))), ["AbC", "xyz"]);
    assert_eq!(hashes(&select_keep_targets(&torrents, "name", Some(false))), ["def"]);
    assert!(select_keep_targets(&torrents, " , ", None).is_empty());
}

#[test]
fn no_more_is_removed_than_is_needed() {
    let pool: Vec<QbTorrent> = ["a", "b", "c"].iter().map(|hash| present(hash, "byrradar")).collect();
    let plan = build_cleanup_plan(&pool, 10 * GIB, 3);
    assert_eq!((hashes(&plan.selected), plan.reclaimed_bytes), (vec!["a"], 10 * GIB));
    let plan = build_cleanup_plan(&pool, 10 * GIB + 1, 3);
    assert_eq!((hashes(&plan.selected), plan.reclaimed_bytes), (vec!["a", "b"], 20 * GIB));
    let plan = build_cleanup_plan(&pool, 100 * GIB, 2);
    assert_eq!((hashes(&plan.selected), plan.reclaimed_bytes), (vec!["a", "b"], 20 * GIB));
    assert!(build_cleanup_plan(&pool, 0, 3).selected.is_empty());
    assert!(build_cleanup_plan(&[], 5, 3).selected.is_empty());
    let mut huge = pool;
    huge[0].total_size = u64::MAX - 1;
    assert_eq!(build_cleanup_plan(&huge, u64::MAX, 3).reclaimed_bytes, u64::MAX);
    let nothing = CleanupPlan::default();
    assert!(nothing.selected.is_empty() && nothing.reclaimed_bytes == 0);
}

#[test]
fn reasons_are_given_in_numbers() {
    let mut torrent = present("a", "byrradar");
    torrent.num_leechs = -1;
    torrent.upspeed = 2047;
    assert_eq!(
        cleanup_reason_at(&torrent, 1_000 + 7_200),
        "age=2h leechers=-1 upspeed=1KiB/s size=10.00GiB"
    );
    for size in [0u64, 1, 5368709, 5368710, 16106127, 1395864371, 12884901888, 1 << 63, u64::MAX] {
        torrent.total_size = size;
        let shown = format!("size={:.2}GiB", size as f64 / 1024.0 / 1024.0 / 1024.0);
        assert!(cleanup_reason_at(&torrent, 0).ends_with(&shown), "{size}");
    }
    assert!(cleanup_reason_summary(&torrent).starts_with("age="));
}

#[test]
fn the_clock_gives_seconds() {
    assert!(current_unix_ts() > 1_600_000_000);
    assert_eq!(unix_ts(Some(5)), 5);
    assert_eq!(unix_ts(None), 0);
    assert_eq!(unix_ts(Some(u64::MAX)), -1);
}
