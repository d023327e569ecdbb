use byrradar::binary64::Binary64;
use byrradar::config::{Config, ConfigForm};
use byrradar::models::{PlannerConfig, QbTorrent, SpaceSnapshot, TorrentInfo};
use byrradar::monitor::{
    active_status, next_beat, snapshot, toggle, waits_on, Beat, ReportView, RuntimeState, Switch, MAX_LOG_LINES,
};
use byrradar::planning::{Fetched, Planner, Step};
use byrradar::qb_client::NameError;
use byrradar::runner::{apply_category_filter, begin, opening_log, Addition, Delivery, RunReport};

fn offer(seed_id: &str, size_bytes: Option<u64>) -> TorrentInfo {
    TorrentInfo {
        seed_id: seed_id.to_string(),
        category: "电影".to_string(),
        title: format!("[电影] {seed_id}"),
        tag: "免费".to_string(),
        size_text: "size".to_string(),
        size_bytes,
        seeders: 1,
        leechers: 1,
        finished: 0,
        is_hot: false,
        is_new: false,
        is_recommended: false,
    }
}

fn present(hash: &str, total_size: u64) -> QbTorrent {
    QbTorrent {
        name: format!("Name {hash}"),
        hash: hash.to_string(),
        state: "stalledUP".to_string(),
        tags: "byrradar".to_string(),
        total_size,
        completed: total_size,
        added_on: 1,
        upspeed: 0,
        num_leechs: 0,
        num_seeds: 0,
        progress: Binary64 { bits: 0 },
    }
}

fn config(dry_run: bool) -> Config {
    Config {
        byr_username: "u".to_string(),
        byr_password: "p".to_string(),
        qb_host: "http://h".to_string(),
        qb_username: "u".to_string(),
        qb_password: "p".to_string(),
        qb_download_path: "H:/BT".to_string(),
        dry_run,
        include_categories: None,
        auto_rotate_enabled: true,
        max_remove_per_cycle: 2,
        min_seeding_hours_before_remove: 0,
        max_leechers_for_stale: 0,
        max_recent_upspeed_kib: 0,
    }
}

fn file(name: &str) -> Fetched {
    Fetched::File(name.as_bytes().to_vec(), Ok(name.to_string()))
}

fn fetch(planner: &mut Planner) -> String {
    match planner.step() {
        Step::Fetch(seed_id) => seed_id,
        other => panic!("{other:?}"),
    }
}

#[test]
fn torrents_are_confined_to_categories() {
    let mut torrents = vec![offer("a", None), offer("b", None)];
    torrents[1].category = "剧集".to_string();
    let kept = apply_category_filter(torrents.clone(), Some(&vec!["剧集".to_string(), "x".to_string()]));
    assert_eq!(kept.len(), 1);
    assert_eq!(kept[0].seed_id, "b");
    assert_eq!(apply_category_filter(torrents.clone(), None).len(), 2);
    assert!(apply_category_filter(torrents, Some(&Vec::new())).is_empty());
}

#[test]
fn a_run_says_what_it_is() {
    assert_eq!(opening_log(&config(false)), ["Starting byrRadar core"]);
    let mut dry = config(true);
    dry.include_categories = Some(vec!["a".to_string(), "b".to_string()]);
    assert_eq!(opening_log(&dry), ["Starting byrRadar core", "Mode: dry-run", "Category filter: a, b"]);
}

fn planner(queue: Vec<TorrentInfo>, capacity: u64, budget: u64, pool: Vec<QbTorrent>, auto_rotate: bool, most: usize) -> Planner {
    Planner::new(queue, capacity, budget, pool, auto_rotate, most, vec!["there".to_string()])
}

#[test]
fn torrents_are_left_out_for_a_reason() {
    let queue = vec![
        offer("1", None),
        offer("2", Some(11)),
        offer("3", Some(1)),
        offer("4", Some(1)),
        offer("5", Some(9)),
        offer("6", Some(2)),
    ];
    let mut plan = planner(queue, 8, 10, Vec::new(), false, 5);
    assert!(matches!(plan.step(), Step::Skipped));
    assert!(matches!(plan.step(), Step::Skipped));
    assert_eq!(fetch(&mut plan), "3");
    plan.settle(Fetched::Failed("gone".to_string()), 0);
    assert_eq!(fetch(&mut plan), "4");
    plan.settle(file("there"), 0);
    assert_eq!(fetch(&mut plan), "5");
    plan.settle(file("new"), 0);
    assert_eq!(fetch(&mut plan), "6");
    plan.settle(Fetched::File(vec![7], Err(NameError::Missing)), 0);
    assert!(matches!(plan.step(), Step::Done));
    assert!(matches!(plan.step(), Step::Done));
    assert_eq!(
        plan.take_log(),
        [
            "Planner skip: [1] missing size_bytes from 'size'",
            "Planner skip: [2] exceeds remaining download budget 10 bytes",
            "Preflight skip: [3] failed to download torrent file: gone",
            "Preflight duplicate: [4] there",
            "Rotation skip: [5] needs 1 bytes but auto rotation is disabled",
            "Preflight warning: [6] failed to parse torrent name: torrent info dictionary did not contain a name field",
        ]
    );
    assert!(plan.take_log().is_empty());
    let outcome = plan.into_outcome();
    assert_eq!(outcome.planned.len(), 1);
    assert_eq!(outcome.planned[0].seed_id, "6");
    assert_eq!(outcome.files, vec![vec![7]]);
    assert_eq!((outcome.rough_planned_count, outcome.duplicate_skip_count, outcome.skipped_count), (2, 1, 4));
    assert_eq!(outcome.planned.len() + outcome.duplicate_skip_count + outcome.skipped_count, 6);
    assert!(outcome.cleanup_selected.is_empty());
}

#[test]
fn room_is_made_where_it_is_needed() {
    let queue = vec![offer("1", Some(8)), offer("2", Some(9)), offer("3", Some(40)), offer("4", Some(1))];
    let pool = vec![present("a", 3), present("b", 4), present("c", 50)];
    let mut plan = planner(queue, 10, 100, pool, true, 2);
    fetch(&mut plan);
    plan.settle(file("x"), 7_200);
    fetch(&mut plan);
    plan.settle(file("y"), 7_200);
    assert_eq!(
        plan.take_log(),
        [
            "Cleanup planned: [a] Name a | age=1h leechers=0 upspeed=0KiB/s size=0.00GiB",
            "Cleanup planned: [b] Name b | age=1h leechers=0 upspeed=0KiB/s size=0.00GiB",
        ]
    );
    fetch(&mut plan);
    plan.settle(file("z"), 7_200);
    assert_eq!(plan.take_log(), ["Rotation skip: [3] still short 40 bytes after cleanup planning"]);
    fetch(&mut plan);
    plan.settle(file("w"), 7_200);
    assert_eq!(plan.take_log(), ["Rotation skip: [4] still short 1 bytes after cleanup planning"]);
    assert!(matches!(plan.step(), Step::Done));
    let outcome = plan.into_outcome();
    assert_eq!(outcome.planned.len(), 2);
    assert_eq!(outcome.cleanup_selected.len(), 2);
    assert_eq!(outcome.cleanup_reclaimed_bytes, 7);
    let taken: u64 = outcome.planned.iter().map(|torrent| torrent.size_bytes.unwrap()).sum();
    assert!(taken <= 10 + outcome.cleanup_reclaimed_bytes);
}

#[test]
fn equal_hashes_free_room_once() {
    let queue = vec![offer("1", Some(6))];
    let pool = vec![present("a", 3), present("a", 3)];
    let mut plan = planner(queue, 0, 100, pool, true, 5);
    fetch(&mut plan);
    plan.settle(file("x"), 0);
    let log = plan.take_log();
    assert_eq!(log.len(), 2);
    assert_eq!(log[1], "Planner skip: [1] need=6 remaining=3");
    let outcome = plan.into_outcome();
    assert_eq!((outcome.cleanup_selected.len(), outcome.skipped_count), (1, 1));
}

#[test]
fn room_beyond_64_bits_serves_the_torrent_too() {
    let pool = vec![present("a", u64::MAX - 3), present("b", u64::MAX), present("c", 1)];
    let mut plan = planner(vec![offer("1", Some(u64::MAX))], 2, u64::MAX, pool, true, 3);
    fetch(&mut plan);
    plan.settle(file("x"), 0);
    assert!(matches!(plan.step(), Step::Done));
    let outcome = plan.into_outcome();
    assert_eq!((outcome.planned.len(), outcome.cleanup_selected.len(), outcome.cleanup_pool.len()), (1, 2, 3));
    assert_eq!(outcome.cleanup_reclaimed_bytes, u64::MAX);
}

fn limits(min_free_space_bytes: u64, download_budget_bytes: Option<u64>) -> PlannerConfig {
    PlannerConfig { min_free_space_bytes, download_budget_bytes }
}

fn space(free_space_bytes: u64, downloading_remaining_bytes: u64) -> SpaceSnapshot {
    SpaceSnapshot { free_space_bytes, downloading_remaining_bytes }
}

#[test]
fn a_run_starts_from_a_survey() {
    let mut offered = vec![offer("1", Some(1)), offer("2", Some(2)), offer("3", Some(3))];
    offered[0].seeders = 0;
    let mut there = vec![present("a", 5), present("b", 5), present("c", 5)];
    there[1].tags = "byrradar, keep".to_string();
    there[2].state = "downloading".to_string();
    let mut start = begin(&offered, &there, &space(100, 30), &limits(20, Some(40)), &config(false), 10);
    let survey = &start.survey;
    assert_eq!((survey.free_count, survey.filtered_count, survey.cleanup_eligible_count), (3, 2, 1));
    assert_eq!((survey.managed_count, survey.keep_count, survey.seeding_count, survey.total_torrents), (3, 1, 2, 3));
    assert_eq!((survey.budget_bytes, survey.free_space_bytes, survey.downloading_remaining_bytes), (40, 100, 30));
    assert!(survey.auto_rotate_enabled);
    assert_eq!(survey.max_remove_per_cycle, 2);
    assert!(survey.cleanup_eligible_count <= survey.managed_count && survey.managed_count <= survey.total_torrents);
    assert!(survey.filtered_count <= survey.free_count && survey.budget_bytes <= survey.free_space_bytes);
    assert_eq!(start.log, ["Cleanup pool: eligible=1 auto_rotate=true max_remove_per_cycle=2"]);
    assert_eq!(fetch(&mut start.planner), "3");
    let poor = begin(&offered, &[].to_vec(), &space(10, 30), &limits(20, None), &config(false), 10);
    assert_eq!(poor.survey.budget_bytes, 0);
    assert!(poor.log.is_empty());
    let open = begin(&offered, &[].to_vec(), &space(100, 30), &limits(20, None), &config(false), 10);
    assert_eq!(open.survey.budget_bytes, 50);
}

fn planned_run(dry_run: bool) -> Delivery {
    let offered = vec![offer("1", Some(10)), offer("2", Some(8)), offer("3", Some(30))];
    let there = vec![present("a", 5)];
    let mut start = begin(&offered, &there, &space(15, 0), &limits(0, None), &config(dry_run), 3_601);
    assert_eq!(fetch(&mut start.planner), "3");
    start.planner.settle(file("three"), 3_601);
    assert_eq!(fetch(&mut start.planner), "1");
    start.planner.settle(file("one"), 3_601);
    assert_eq!(fetch(&mut start.planner), "2");
    start.planner.settle(file("two"), 3_601);
    assert!(matches!(start.planner.step(), Step::Done));
    start.planner.take_log();
    Delivery::new(start.survey, start.planner)
}

#[test]
fn a_run_removes_adds_and_reports() {
    let mut run = planned_run(false);
    assert_eq!(
        run.take_log(),
        ["Scan summary: free=3, filtered=3, rough_planned=3, actionable=2, duplicate_skipped=0, cleanup_eligible=1, cleanup_selected=1, reclaimed=5 bytes, budget=15 bytes, free_space=15 bytes, downloading_remaining=0 bytes"]
    );
    assert_eq!(run.hashes_to_remove(), ["a"]);
    run.note_removed();
    assert_eq!(run.take_log(), ["Cleanup removed: [a][5 bytes] Name a"]);
    match run.next_addition() {
        Addition::Add(seed_id, file) => assert_eq!((seed_id.as_str(), file), ("1", b"one".to_vec())),
        other => panic!("{other:?}"),
    }
    run.settle(Ok(present("new", 10)));
    match run.next_addition() {
        Addition::Add(seed_id, file) => assert_eq!((seed_id.as_str(), file), ("2", b"two".to_vec())),
        other => panic!("{other:?}"),
    }
    run.settle(Err("full".to_string()));
    assert!(matches!(run.next_addition(), Addition::Done));
    let report = run.finish();
    assert_eq!(
        run.take_log(),
        [
            "Candidate: [1][免费][size] [电影] 1",
            "Added: [new][Name new][10 bytes]",
            "Candidate: [2][免费][size] [电影] 2",
            "Skip: [2] full",
            "Execution summary: added=1, skipped=2, duplicate_skipped=0, actionable=2, rough_planned=3, cleanup_selected=1, reclaimed=5 bytes",
        ]
    );
    assert_eq!((report.free_count, report.filtered_count, report.planned_count, report.rough_planned_count), (3, 3, 2, 3));
    assert_eq!((report.added_count, report.skipped_count, report.duplicate_skip_count), (1, 2, 0));
    assert_eq!((report.cleanup_eligible_count, report.cleanup_selected_count, report.cleanup_reclaimed_bytes), (1, 1, 5));
    assert_eq!((report.managed_count, report.keep_count, report.seeding_count, report.total_torrents), (1, 0, 1, 1));
    assert_eq!((report.budget_bytes, report.free_space_bytes, report.downloading_remaining_bytes), (15, 15, 0));
    assert!(!report.queue_saturated);
    assert_eq!(report.added_count + report.skipped_count + report.duplicate_skip_count, report.filtered_count);
    assert!(report.rough_planned_count + report.duplicate_skip_count <= report.filtered_count);
    assert!(report.cleanup_selected_count <= report.cleanup_eligible_count);
    assert!(report.cleanup_selected_count > 0 && report.planned_count > 0);
    assert!(10 + 8 <= report.budget_bytes + report.cleanup_reclaimed_bytes);
}

#[test]
fn kept_torrents_are_not_removed() {
    let mut there = vec![present("k", 50), present("a", 5), present("o", 50)];
    there[0].tags = "byrradar,keep".to_string();
    there[2].tags = "other".to_string();
    let mut start = begin(&vec![offer("1", Some(10))], &there, &space(5, 0), &limits(0, None), &config(false), 0);
    fetch(&mut start.planner);
    start.planner.settle(file("one"), 0);
    assert_eq!(Delivery::new(start.survey, start.planner).hashes_to_remove(), ["a"]);
}

#[test]
fn a_dry_run_changes_nothing() {
    let mut run = planned_run(true);
    assert_eq!(run.take_log()[1], "Dry-run cleanup summary: would remove 1 torrents and reclaim 5 bytes");
    assert!(run.hashes_to_remove().is_empty());
    assert!(matches!(run.next_addition(), Addition::Skipped));
    assert_eq!(run.take_log(), ["Candidate: [1][免费][size] [电影] 1", "Skip: [1] dry-run mode"]);
    assert!(matches!(run.next_addition(), Addition::Skipped));
    assert!(matches!(run.next_addition(), Addition::Done));
    let report = run.finish();
    assert_eq!((report.added_count, report.planned_count, report.skipped_count), (0, 2, 1));
}

#[test]
fn a_full_disk_saturates_the_queue() {
    let offered = vec![offer("1", Some(10))];
    let mut start = begin(&offered, &Vec::new(), &space(5, 0), &limits(0, None), &config(false), 0);
    fetch(&mut start.planner);
    start.planner.settle(file("one"), 0);
    let mut run = Delivery::new(start.survey, start.planner);
    let report = run.finish();
    assert!(report.queue_saturated);
    let none = begin(&Vec::new(), &Vec::new(), &space(5, 0), &limits(0, None), &config(false), 0);
    assert!(!Delivery::new(none.survey, none.planner).finish().queue_saturated);
    let poor = begin(&Vec::new(), &Vec::new(), &space(0, 0), &limits(0, None), &config(false), 0);
    assert!(Delivery::new(poor.survey, poor.planner).finish().queue_saturated);
}

fn report() -> RunReport {
    RunReport { free_count: 1, filtered_count: 2, planned_count: 3, budget_bytes: 4, queue_saturated: true, ..RunReport::default() }
}

#[test]
fn the_monitor_starts_once() {
    let mut state = RuntimeState::default();
    assert_eq!(state.status, "空闲");
    assert_eq!(state.start(true).unwrap(), "开始监控（Dry Run）");
    assert!(state.running && state.dry_run && !state.paused);
    assert_eq!(state.status, "监控中 / Dry Run");
    assert_eq!(state.start(false).unwrap_err().message(), "监控已经在运行");
    assert!(state.dry_run);
    assert_eq!(state.end(), "监控已停止");
    assert!(!state.running && !state.dry_run);
    assert_eq!(state.start(false).unwrap(), "开始监控（执行模式）");
    assert_eq!(active_status(false), "监控中 / 执行");
}

#[test]
fn the_monitor_rests_and_goes_on() {
    let mut state = RuntimeState::default();
    assert!(state.pause().is_none() && state.resume().is_none() && state.stop().is_none());
    assert!(matches!(toggle(&state), Switch::Nothing));
    assert!(state.start(false).is_ok());
    assert!(matches!(toggle(&state), Switch::Pause));
    assert_eq!(state.pause(), Some("暂停监控"));
    assert_eq!(state.status, "已暂停监控");
    assert!(state.pause().is_none());
    assert!(matches!(toggle(&state), Switch::Resume));
    assert_eq!(state.resume(), Some("恢复监控"));
    assert_eq!(state.status, "监控中 / 执行");
    assert!(state.resume().is_none());
    assert_eq!(state.pause(), Some("暂停监控"));
    assert_eq!(state.stop(), Some("停止监控"));
    assert!(state.running && !state.paused);
    assert_eq!(state.status, "停止中");
    state.end();
    assert!(state.start(true).is_ok());
    state.pause();
    assert_eq!(state.resume(), Some("恢复监控（Dry Run）"));
}

#[test]
fn scans_are_shown() {
    let mut state = RuntimeState::default();
    assert!(state.start(false).is_ok());
    assert_eq!(state.begin_scan(false), "开始一轮扫描");
    assert_eq!(state.fail_scan("no net"), "运行失败: no net");
    assert_eq!(state.status, "失败");
    assert_eq!(state.last_error.as_deref(), Some("no net"));
    state.end_scan(false, &report());
    assert_eq!(state.status, "监控中 / 执行");
    assert!(state.last_error.is_none());
    assert_eq!((state.report.free_count, state.report.planned_count, state.report.budget_bytes), (1, 3, 4));
    state.set_running_state("x", true);
    assert!(state.paused);
    state.set_status("y");
    assert_eq!(state.status, "y");
    let shown = ReportView::from(&report());
    assert!(shown.queue_saturated);
    assert_eq!(ReportView::default().free_count, 0);
}

#[test]
fn the_log_keeps_the_latest_lines() {
    let mut state = RuntimeState::default();
    for i in 0..MAX_LOG_LINES + 3 {
        state.push_log(&i.to_string());
    }
    assert_eq!(state.logs.len(), 800);
    assert_eq!(state.logs[0], "3");
    assert_eq!(state.logs[799], "802");
}

#[test]
fn a_snapshot_shows_the_state() {
    let mut state = RuntimeState::default();
    state.push_log("line");
    state.set_error("bad");
    let shown = snapshot("/p", &ConfigForm::default(), &state);
    assert_eq!(shown.config_path, "/p");
    assert_eq!(shown.config.qb_username, "admin");
    assert_eq!(shown.logs, ["line"]);
    assert_eq!(shown.status, "空闲");
    assert_eq!(shown.last_error.as_deref(), Some("bad"));
    state.clear_error();
    assert!(snapshot("/p", &ConfigForm::default(), &state).last_error.is_none());
}

#[test]
fn the_monitor_beats() {
    assert!(matches!(next_beat(true, true), Beat::Stop));
    assert!(matches!(next_beat(false, true), Beat::Rest));
    assert!(matches!(next_beat(false, false), Beat::Scan));
    assert!(waits_on(44, false, false));
    assert!(!waits_on(45, false, false));
    assert!(!waits_on(0, true, false));
    assert!(!waits_on(0, false, true));
}
