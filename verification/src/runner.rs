//! One run: what is on offer and what is there, what is planned, and what came of it.

use crate::config;
use crate::config::Config;
use crate::lines;
use crate::models::{PlannerConfig, QbTorrent, SpaceSnapshot, TorrentInfo};
use crate::planner;
use crate::planning;
use crate::planning::{PlanView, Planner};
use crate::qb_client;
use crate::rotation;
use crate::sorting;
use crate::text;
use vstd::prelude::*;
use vstd::string::*;

verus! {

/// What a run came to.
#[derive(Debug)]
pub struct RunReport {
    pub free_count: usize,
    pub filtered_count: usize,
    pub planned_count: usize,
    pub rough_planned_count: usize,
    pub added_count: usize,
    pub skipped_count: usize,
    pub duplicate_skip_count: usize,
    pub cleanup_eligible_count: usize,
    pub cleanup_selected_count: usize,
    pub cleanup_reclaimed_bytes: u64,
    pub managed_count: usize,
    pub keep_count: usize,
    pub budget_bytes: u64,
    pub free_space_bytes: u64,
    pub downloading_remaining_bytes: u64,
    pub seeding_count: usize,
    pub total_torrents: usize,
    pub queue_saturated: bool,
}

impl RunReport {
    pub open spec fn nothing() -> RunReport {
        RunReport {
            free_count: 0,
            filtered_count: 0,
            planned_count: 0,
            rough_planned_count: 0,
            added_count: 0,
            skipped_count: 0,
            duplicate_skip_count: 0,
            cleanup_eligible_count: 0,
            cleanup_selected_count: 0,
            cleanup_reclaimed_bytes: 0,
            managed_count: 0,
            keep_count: 0,
            budget_bytes: 0,
            free_space_bytes: 0,
            downloading_remaining_bytes: 0,
            seeding_count: 0,
            total_torrents: 0,
            queue_saturated: false,
        }
    }
}

impl Default for RunReport {
    fn default() -> (r: Self)
        ensures
            r == RunReport::nothing(),
    {
        RunReport {
            free_count: 0,
            filtered_count: 0,
            planned_count: 0,
            rough_planned_count: 0,
            added_count: 0,
            skipped_count: 0,
            duplicate_skip_count: 0,
            cleanup_eligible_count: 0,
            cleanup_selected_count: 0,
            cleanup_reclaimed_bytes: 0,
            managed_count: 0,
            keep_count: 0,
            budget_bytes: 0,
            free_space_bytes: 0,
            downloading_remaining_bytes: 0,
            seeding_count: 0,
            total_torrents: 0,
            queue_saturated: false,
        }
    }
}

impl Clone for RunReport {
    fn clone(&self) -> (r: Self)
        ensures
            r == *self,
    {
        RunReport {
            free_count: self.free_count,
            filtered_count: self.filtered_count,
            planned_count: self.planned_count,
            rough_planned_count: self.rough_planned_count,
            added_count: self.added_count,
            skipped_count: self.skipped_count,
            duplicate_skip_count: self.duplicate_skip_count,
            cleanup_eligible_count: self.cleanup_eligible_count,
            cleanup_selected_count: self.cleanup_selected_count,
            cleanup_reclaimed_bytes: self.cleanup_reclaimed_bytes,
            managed_count: self.managed_count,
            keep_count: self.keep_count,
            budget_bytes: self.budget_bytes,
            free_space_bytes: self.free_space_bytes,
            downloading_remaining_bytes: self.downloading_remaining_bytes,
            seeding_count: self.seeding_count,
            total_torrents: self.total_torrents,
            queue_saturated: self.queue_saturated,
        }
    }
}

/// The lines with which a run of that configuration starts.
pub open spec fn opening_lines(config: Config) -> Seq<Seq<char>> {
    let start = seq!["Starting byrRadar core"@];
    let mode = if config.dry_run {
        start.push("Mode: dry-run"@)
    } else {
        start
    };
    match config.include_categories {
        Some(categories) => mode.push(lines::categories_chosen(config::texts(categories@))),
        None => mode,
    }
}

/// The lines with which a run of that configuration starts.
pub fn opening_log(config: &Config) -> (r: Vec<String>)
    ensures
        config::texts(r@) == opening_lines(*config),
{
    let mut log: Vec<String> = Vec::new();
    log.push(String::from_str("Starting byrRadar core"));
    if config.dry_run {
        log.push(String::from_str("Mode: dry-run"));
    }
    match &config.include_categories {
        Some(categories) => {
            log.push(lines::categories_chosen_line(categories.as_slice()));
        },
        None => {},
    }
    assert(config::texts(log@) =~= opening_lines(*config));
    log
}

/// The torrents of the categories that are asked for, all of them where none is.
pub open spec fn in_categories(
    torrents: Seq<TorrentInfo>,
    categories: Option<Seq<Seq<char>>>,
) -> Seq<TorrentInfo> {
    match categories {
        Some(categories) => torrents.filter(
            |torrent: TorrentInfo| categories.contains(torrent.category@),
        ),
        None => torrents,
    }
}

/// The torrents of the categories that are asked for.
pub fn apply_category_filter(
    torrents: Vec<TorrentInfo>,
    include_categories: Option<&Vec<String>>,
) -> (r: Vec<TorrentInfo>)
    ensures
        r@ == in_categories(
            torrents@,
            match include_categories {
                Some(categories) => Some(config::texts(categories@)),
                None => None,
            },
        ),
{
    let categories = match include_categories {
        Some(categories) => categories,
        None => {
            return torrents;
        },
    };
    let ghost wanted = |torrent: TorrentInfo|
        config::texts(categories@).contains(torrent.category@);
    let mut found: Vec<TorrentInfo> = Vec::new();
    let mut i: usize = 0;
    proof {
        reveal(Seq::filter);
    }
    assert(found@ =~= torrents@.take(0).filter(wanted));
    while i < torrents.len()
        invariant
            i <= torrents@.len(),
            wanted == (|torrent: TorrentInfo|
                config::texts(categories@).contains(torrent.category@)),
            found@ == torrents@.take(i as int).filter(wanted),
        decreases torrents@.len() - i,
    {
        proof {
            reveal(Seq::filter);
            assert(torrents@.take(i + 1).drop_last() =~= torrents@.take(i as int));
        }
        if qb_client::is_among(torrents[i].category.as_str(), categories.as_slice()) {
            found.push(torrents[i].clone());
        }
        i = i + 1;
    }
    assert(torrents@.take(torrents@.len() as int) =~= torrents@);
    found
}

/// The states of a torrent that is handed on.
pub open spec fn is_seeding_state(state: Seq<char>) -> bool {
    ||| state == "uploading"@
    ||| state == "stalledUP"@
    ||| state == "queuedUP"@
    ||| state == "forcedUP"@
}

/// The torrents that are handed on.
pub open spec fn seeding(torrents: Seq<QbTorrent>) -> Seq<QbTorrent> {
    torrents.filter(|torrent: QbTorrent| is_seeding_state(torrent.state@))
}

/// How many torrents are handed on.
fn count_seeding(torrents: &[QbTorrent]) -> (r: usize)
    ensures
        r == seeding(torrents@).len(),
{
    let ghost wanted = |torrent: QbTorrent| is_seeding_state(torrent.state@);
    let mut count: usize = 0;
    let mut i: usize = 0;
    proof {
        reveal(Seq::filter);
    }
    while i < torrents.len()
        invariant
            i <= torrents@.len(),
            count <= i,
            wanted == (|torrent: QbTorrent| is_seeding_state(torrent.state@)),
            count == torrents@.take(i as int).filter(wanted).len(),
        decreases torrents@.len() - i,
    {
        proof {
            reveal(Seq::filter);
            assert(torrents@.take(i + 1).drop_last() =~= torrents@.take(i as int));
        }
        let state = torrents[i].state.as_str();
        if text::same_text(state, "uploading") || text::same_text(state, "stalledUP")
            || text::same_text(state, "queuedUP") || text::same_text(state, "forcedUP") {
            count = count + 1;
        }
        i = i + 1;
    }
    assert(torrents@.take(torrents@.len() as int) =~= torrents@);
    count
}

/// `a` less `b`, or nothing where `b` is more.
pub open spec fn less(a: nat, b: nat) -> nat {
    if a >= b {
        (a - b) as nat
    } else {
        0
    }
}

/// The bytes that may be stored: what is free, less what is still to come and what stays free.
pub open spec fn capacity(space: SpaceSnapshot, limits: PlannerConfig) -> nat {
    less(
        less(space.free_space_bytes as nat, space.downloading_remaining_bytes as nat),
        limits.min_free_space_bytes as nat,
    )
}

/// The bytes that may be downloaded.
pub open spec fn download_limit(limits: PlannerConfig) -> nat {
    match limits.download_budget_bytes {
        Some(limit) => limit as nat,
        None => u64::MAX as nat,
    }
}

/// The bytes that may be downloaded and stored.
pub open spec fn budget(space: SpaceSnapshot, limits: PlannerConfig) -> nat {
    if download_limit(limits) <= capacity(space, limits) {
        download_limit(limits)
    } else {
        capacity(space, limits)
    }
}

/// What a run starts from.
#[derive(Debug)]
pub struct Survey {
    pub dry_run: bool,
    pub auto_rotate_enabled: bool,
    pub max_remove_per_cycle: usize,
    pub free_count: usize,
    pub filtered_count: usize,
    pub cleanup_eligible_count: usize,
    pub managed_count: usize,
    pub keep_count: usize,
    pub budget_bytes: u64,
    pub free_space_bytes: u64,
    pub downloading_remaining_bytes: u64,
    pub seeding_count: usize,
    pub total_torrents: usize,
}

impl Survey {
    /// The survey of the torrents on offer and of those that are there.
    pub open spec fn is_of(
        self,
        offered: Seq<TorrentInfo>,
        present: Seq<QbTorrent>,
        space: SpaceSnapshot,
        limits: PlannerConfig,
        config: Config,
        now: int,
    ) -> bool {
        &&& self.dry_run == config.dry_run
        &&& self.auto_rotate_enabled == config.auto_rotate_enabled
        &&& self.max_remove_per_cycle == config.max_remove_per_cycle
        &&& self.free_count == offered.len()
        &&& self.filtered_count == planner::appropriate(offered).len()
        &&& self.cleanup_eligible_count == rotation::cleanup_pool(present, config, now).len()
        &&& self.managed_count == present.filter(
            |torrent: QbTorrent| rotation::is_managed(torrent),
        ).len()
        &&& self.keep_count == present.filter(
            |torrent: QbTorrent| rotation::is_kept(torrent),
        ).len()
        &&& self.budget_bytes == budget(space, limits)
        &&& self.free_space_bytes == space.free_space_bytes
        &&& self.downloading_remaining_bytes == space.downloading_remaining_bytes
        &&& self.seeding_count == seeding(present).len()
        &&& self.total_torrents == present.len()
    }

    /// The survey is that of the planning.
    pub open spec fn opens(self, plan: PlanView) -> bool {
        &&& self.filtered_count == plan.queue.len()
        &&& self.cleanup_eligible_count == plan.pool.len()
        &&& self.auto_rotate_enabled == plan.auto_rotate
        &&& self.max_remove_per_cycle == plan.max_remove
        &&& self.budget_bytes == (if plan.start_budget <= plan.start_capacity {
            plan.start_budget
        } else {
            plan.start_capacity
        })
    }
}

proof fn lemma_filter_within(
    torrents: Seq<QbTorrent>,
    narrow: spec_fn(QbTorrent) -> bool,
    wide: spec_fn(QbTorrent) -> bool,
)
    requires
        forall|torrent: QbTorrent| #[trigger] narrow(torrent) ==> wide(torrent),
    ensures
        torrents.filter(narrow).len() <= torrents.filter(wide).len() <= torrents.len(),
    decreases torrents.len(),
{
    reveal(Seq::filter);
    if torrents.len() > 0 {
        lemma_filter_within(torrents.drop_last(), narrow, wide);
    }
}

/// What a survey counts adds up: no more torrents are in demand than on offer, what may be removed
/// is managed, and no count of what is there goes beyond it; nor does the budget go beyond what is
/// free.
pub proof fn law_survey_adds_up(
    survey: Survey,
    offered: Seq<TorrentInfo>,
    present: Seq<QbTorrent>,
    space: SpaceSnapshot,
    limits: PlannerConfig,
    config: Config,
    now: int,
)
    requires
        survey.is_of(offered, present, space, limits, config, now),
    ensures
        survey.filtered_count <= survey.free_count,
        survey.cleanup_eligible_count <= survey.managed_count <= survey.total_torrents,
        survey.keep_count <= survey.total_torrents,
        survey.seeding_count <= survey.total_torrents,
        survey.budget_bytes <= survey.free_space_bytes,
{
    offered.lemma_filter_len(|torrent: TorrentInfo| planner::is_in_demand(torrent));
    offered.lemma_filter_len(|torrent: TorrentInfo| planner::has_peers(torrent));
    let removable = |torrent: QbTorrent| rotation::is_removable(torrent, config, now);
    let managed = |torrent: QbTorrent| rotation::is_managed(torrent);
    let kept = |torrent: QbTorrent| rotation::is_kept(torrent);
    let handed_on = |torrent: QbTorrent| is_seeding_state(torrent.state@);
    lemma_filter_within(present, removable, managed);
    lemma_filter_within(present, kept, kept);
    lemma_filter_within(present, handed_on, handed_on);
    let pool = present.filter(removable);
    sorting::law_stable_order_exists(rotation::removal_keys(pool));
}

/// The planning that starts from there: the torrents in demand, the most wanted first.
pub open spec fn opening_plan(
    offered: Seq<TorrentInfo>,
    present: Seq<QbTorrent>,
    space: SpaceSnapshot,
    limits: PlannerConfig,
    config: Config,
    now: int,
) -> PlanView {
    let pool = rotation::cleanup_pool(present, config, now);
    planning::opening(
        planner::by_priority(planner::appropriate(offered)),
        capacity(space, limits),
        download_limit(limits),
        pool,
        config.auto_rotate_enabled,
        config.max_remove_per_cycle as nat,
        qb_client::names(present),
    )
}

/// The lines with which the planning starts.
pub open spec fn pool_lines(
    present: Seq<QbTorrent>,
    config: Config,
    now: int,
) -> Seq<Seq<char>> {
    let pool = rotation::cleanup_pool(present, config, now);
    if pool.len() > 0 {
        seq![
            lines::pool_found(
                pool.len(),
                config.auto_rotate_enabled,
                config.max_remove_per_cycle as nat,
            ),
        ]
    } else {
        Seq::empty()
    }
}

/// A start: the survey, the planning and the lines to log before it.
#[derive(Debug)]
pub struct Start {
    pub survey: Survey,
    pub planner: Planner,
    pub log: Vec<String>,
}

/// As many torrents are up for planning as are in demand.
pub proof fn law_all_in_demand_are_considered(torrents: Seq<TorrentInfo>)
    requires
        torrents.len() <= usize::MAX,
    ensures
        planner::by_priority(torrents).len() == torrents.len(),
        forall|torrent: TorrentInfo| #[trigger]
            planner::by_priority(torrents).contains(torrent) <==> torrents.contains(torrent),
{
    let keys = planner::priorities(torrents);
    sorting::law_stable_order_exists(keys);
    assert forall|torrent: TorrentInfo| #[trigger]
        planner::by_priority(torrents).contains(torrent) <==> torrents.contains(torrent) by {
        sorting::law_arranging_keeps_items(torrents, keys, torrent);
    }
}

/// Starts a run from the torrents on offer, those that are there, and the limits.
pub fn begin(
    offered: &Vec<TorrentInfo>,
    present: &Vec<QbTorrent>,
    space: &SpaceSnapshot,
    limits: &PlannerConfig,
    config: &Config,
    now: i64,
) -> (r: Start)
    ensures
        r.survey.is_of(offered@, present@, *space, *limits, *config, now as int),
        r.planner@ == opening_plan(offered@, present@, *space, *limits, *config, now as int),
        r.planner@.wf(),
        r.survey.opens(r.planner@),
        limits.download_budget_bytes matches Some(n) ==> r.planner@.budget == n
            && r.planner@.start_budget == n,
        limits.download_budget_bytes is None ==> r.planner@.budget == u64::MAX,
        config::texts(r.log@) == pool_lines(present@, *config, now as int),
{
    let filtered = planner::find_appropriate_torrents(offered.as_slice());
    let queue = planner::sort_torrents_by_priority(filtered.as_slice());
    let filtered_count: usize = filtered.len();
    proof {
        law_all_in_demand_are_considered(filtered@);
    }
    let names = qb_client::torrent_names(present.as_slice());
    let pool = rotation::cleanup_pool_at(present.as_slice(), config, now);
    let eligible: usize = pool.len();
    let mut log: Vec<String> = Vec::new();
    if eligible > 0 {
        log.push(
            lines::pool_found_line(
                eligible,
                config.auto_rotate_enabled,
                config.max_remove_per_cycle,
            ),
        );
    }
    assert(config::texts(log@) =~= pool_lines(present@, *config, now as int));
    let room: u64 = space.free_space_bytes.saturating_sub(
        space.downloading_remaining_bytes,
    ).saturating_sub(limits.min_free_space_bytes);
    let limit: u64 = limits.download_budget_bytes.unwrap_or(u64::MAX);
    let survey = Survey {
        dry_run: config.dry_run,
        auto_rotate_enabled: config.auto_rotate_enabled,
        max_remove_per_cycle: config.max_remove_per_cycle,
        free_count: offered.len(),
        filtered_count,
        cleanup_eligible_count: eligible,
        managed_count: rotation::count_managed_torrents(present.as_slice()),
        keep_count: rotation::count_keep_torrents(present.as_slice()),
        budget_bytes: if limit <= room {
            limit
        } else {
            room
        },
        free_space_bytes: space.free_space_bytes,
        downloading_remaining_bytes: space.downloading_remaining_bytes,
        seeding_count: count_seeding(present.as_slice()),
        total_torrents: present.len(),
    };
    let planner = Planner::new(
        queue,
        room,
        limit,
        pool,
        config.auto_rotate_enabled,
        config.max_remove_per_cycle,
        names,
    );
    Start { survey, planner, log }
}

/// The state of the second half of a run, in which what was planned is carried out.
#[verifier::ext_equal]
pub struct DeliveryView {
    pub survey: Survey,
    /// The torrents that are taken and their files, and how many of them are dealt with.
    pub planned: Seq<TorrentInfo>,
    pub files: Seq<Seq<u8>>,
    pub next: nat,
    /// The torrents that may be removed, those that are, and the bytes that they free.
    pub pool: Seq<QbTorrent>,
    pub selected: Seq<QbTorrent>,
    pub reclaimed: nat,
    pub rough: nat,
    pub duplicates: nat,
    pub skipped: nat,
    pub added: nat,
    /// The lines that were logged.
    pub log: Seq<Seq<char>>,
}

/// What the planning came to, in one line.
pub open spec fn scan_summary(
    survey: Survey,
    planned: nat,
    rough: nat,
    duplicates: nat,
    selected: nat,
    reclaimed: nat,
) -> Seq<char> {
    "Scan summary: free="@ + text::digits(survey.free_count as nat) + ", filtered="@ + text::digits(
        survey.filtered_count as nat,
    ) + ", rough_planned="@ + text::digits(rough) + ", actionable="@ + text::digits(planned)
        + ", duplicate_skipped="@ + text::digits(duplicates) + ", cleanup_eligible="@
        + text::digits(survey.cleanup_eligible_count as nat) + ", cleanup_selected="@
        + text::digits(selected) + ", reclaimed="@ + text::digits(reclaimed) + " bytes, budget="@
        + text::digits(survey.budget_bytes as nat) + " bytes, free_space="@ + text::digits(
        survey.free_space_bytes as nat,
    ) + " bytes, downloading_remaining="@ + text::digits(survey.downloading_remaining_bytes as nat)
        + " bytes"@
}

/// What the planning came to, in one line.
pub fn scan_summary_line(
    survey: &Survey,
    planned: usize,
    rough: usize,
    duplicates: usize,
    selected: usize,
    reclaimed: u64,
) -> (r: String)
    ensures
        r@ == scan_summary(
            *survey,
            planned as nat,
            rough as nat,
            duplicates as nat,
            selected as nat,
            reclaimed as nat,
        ),
{
    let mut line = String::from_str("Scan summary: free=");
    text::append_number(&mut line, survey.free_count as u64);
    line.append(", filtered=");
    text::append_number(&mut line, survey.filtered_count as u64);
    line.append(", rough_planned=");
    text::append_number(&mut line, rough as u64);
    line.append(", actionable=");
    text::append_number(&mut line, planned as u64);
    line.append(", duplicate_skipped=");
    text::append_number(&mut line, duplicates as u64);
    line.append(", cleanup_eligible=");
    text::append_number(&mut line, survey.cleanup_eligible_count as u64);
    line.append(", cleanup_selected=");
    text::append_number(&mut line, selected as u64);
    line.append(", reclaimed=");
    text::append_number(&mut line, reclaimed);
    line.append(" bytes, budget=");
    text::append_number(&mut line, survey.budget_bytes);
    line.append(" bytes, free_space=");
    text::append_number(&mut line, survey.free_space_bytes);
    line.append(" bytes, downloading_remaining=");
    text::append_number(&mut line, survey.downloading_remaining_bytes);
    line.append(" bytes");
    line
}

/// What a run came to, in one line.
pub open spec fn execution_summary(
    added: nat,
    skipped: nat,
    duplicates: nat,
    planned: nat,
    rough: nat,
    selected: nat,
    reclaimed: nat,
) -> Seq<char> {
    "Execution summary: added="@ + text::digits(added) + ", skipped="@ + text::digits(skipped)
        + ", duplicate_skipped="@ + text::digits(duplicates) + ", actionable="@ + text::digits(
        planned,
    ) + ", rough_planned="@ + text::digits(rough) + ", cleanup_selected="@ + text::digits(selected)
        + ", reclaimed="@ + text::digits(reclaimed) + " bytes"@
}

/// What a run came to, in one line.
pub fn execution_summary_line(
    added: usize,
    skipped: usize,
    duplicates: usize,
    planned: usize,
    rough: usize,
    selected: usize,
    reclaimed: u64,
) -> (r: String)
    ensures
        r@ == execution_summary(
            added as nat,
            skipped as nat,
            duplicates as nat,
            planned as nat,
            rough as nat,
            selected as nat,
            reclaimed as nat,
        ),
{
    let mut line = String::from_str("Execution summary: added=");
    text::append_number(&mut line, added as u64);
    line.append(", skipped=");
    text::append_number(&mut line, skipped as u64);
    line.append(", duplicate_skipped=");
    text::append_number(&mut line, duplicates as u64);
    line.append(", actionable=");
    text::append_number(&mut line, planned as u64);
    line.append(", rough_planned=");
    text::append_number(&mut line, rough as u64);
    line.append(", cleanup_selected=");
    text::append_number(&mut line, selected as u64);
    line.append(", reclaimed=");
    text::append_number(&mut line, reclaimed);
    line.append(" bytes");
    line
}

impl DeliveryView {
    pub open spec fn logged(self, line: Seq<char>) -> DeliveryView {
        DeliveryView { log: self.log.push(line), ..self }
    }

    /// The state right after the planning.
    pub open spec fn opened(survey: Survey, plan: PlanView) -> DeliveryView {
        let start = DeliveryView {
            survey,
            planned: plan.planned,
            files: plan.files,
            next: 0,
            pool: plan.pool,
            selected: plan.selected,
            reclaimed: plan.reclaimed,
            rough: plan.rough,
            duplicates: plan.duplicates,
            skipped: plan.skipped,
            added: 0,
            log: plan.log,
        }.logged(
            scan_summary(
                survey,
                plan.planned.len(),
                plan.rough,
                plan.duplicates,
                plan.selected.len(),
                plan.reclaimed,
            ),
        );
        if survey.dry_run && plan.selected.len() > 0 {
            start.logged(lines::removal_pretended(plan.selected.len(), plan.reclaimed))
        } else {
            start
        }
    }

    /// The hashes of the torrents to remove; a dry run removes none.
    pub open spec fn doomed(self) -> Seq<Seq<char>> {
        if self.survey.dry_run {
            Seq::empty()
        } else {
            planning::hashes(self.selected)
        }
    }

    /// The torrents were removed.
    pub open spec fn cleared(self) -> DeliveryView {
        DeliveryView {
            log: self.log + self.selected.map_values(|torrent: QbTorrent| lines::removed(torrent)),
            ..self
        }
    }

    /// The next torrent is up; a dry run leaves it at that.
    pub open spec fn announced(self) -> DeliveryView {
        if self.next >= self.planned.len() {
            self
        } else {
            let torrent = self.planned[self.next as int];
            let shown = self.logged(lines::candidate(torrent));
            if self.survey.dry_run {
                DeliveryView { next: self.next + 1, ..shown.logged(lines::dry_run_skip(torrent)) }
            } else {
                shown
            }
        }
    }

    /// The torrent was added, or not, for the cause given.
    pub open spec fn settled(self, outcome: Result<QbTorrent, String>) -> DeliveryView {
        match outcome {
            Ok(torrent) => DeliveryView {
                added: self.added + 1,
                next: self.next + 1,
                ..self.logged(lines::added(torrent))
            },
            Err(cause) => DeliveryView {
                skipped: self.skipped + 1,
                next: self.next + 1,
                ..self.logged(lines::not_added(self.planned[self.next as int], cause@))
            },
        }
    }

    /// The line that ends the run.
    pub open spec fn closing(self) -> Seq<char> {
        execution_summary(
            self.added,
            self.skipped,
            self.duplicates,
            self.planned.len(),
            self.rough,
            self.selected.len(),
            self.reclaimed,
        )
    }

    /// What the run came to.
    pub open spec fn is_report(self, report: RunReport) -> bool {
        &&& report.free_count == self.survey.free_count
        &&& report.filtered_count == self.survey.filtered_count
        &&& report.planned_count == self.planned.len()
        &&& report.rough_planned_count == self.rough
        &&& report.added_count == self.added
        &&& report.skipped_count == self.skipped
        &&& report.duplicate_skip_count == self.duplicates
        &&& report.cleanup_eligible_count == self.survey.cleanup_eligible_count
        &&& report.cleanup_selected_count == self.selected.len()
        &&& report.cleanup_reclaimed_bytes == self.reclaimed
        &&& report.managed_count == self.survey.managed_count
        &&& report.keep_count == self.survey.keep_count
        &&& report.budget_bytes == self.survey.budget_bytes
        &&& report.free_space_bytes == self.survey.free_space_bytes
        &&& report.downloading_remaining_bytes == self.survey.downloading_remaining_bytes
        &&& report.seeding_count == self.survey.seeding_count
        &&& report.total_torrents == self.survey.total_torrents
        &&& report.queue_saturated == (self.survey.budget_bytes == 0 || self.survey.filtered_count
            > 0 && self.planned.len() == 0)
    }

    /// Each planned torrent has its file, and every torrent in demand is counted once, those of a
    /// dry run as planned and never as added; the new ones are among those not there.
    pub open spec fn adds_up(self) -> bool {
        &&& self.next <= self.planned.len()
        &&& self.files.len() == self.planned.len()
        &&& self.planned.len() <= self.rough
        &&& self.rough + self.duplicates <= self.survey.filtered_count
        &&& if self.survey.dry_run {
            self.added == 0 && self.planned.len() + self.duplicates + self.skipped
                == self.survey.filtered_count
        } else {
            self.added <= self.next && self.added + self.planned.len() + self.duplicates
                + self.skipped == self.survey.filtered_count + self.next
        }
    }

    /// What is removed comes out of the pool, each hash once and no more than the limit, nothing
    /// where nothing may be removed; and where each torrent of the pool has a hash of its own,
    /// something is taken if something is removed.
    pub open spec fn removes_properly(self) -> bool {
        &&& self.pool.len() == self.survey.cleanup_eligible_count
        &&& self.selected.len() <= self.pool.len()
        &&& self.selected.len() <= self.survey.max_remove_per_cycle
        &&& !self.survey.auto_rotate_enabled ==> self.selected.len() == 0
        &&& self.reclaimed == rotation::held_u64(rotation::total_bytes(self.selected))
        &&& planning::hashes(self.selected).no_duplicates()
        &&& forall|i: int|
            0 <= i < self.selected.len() ==> self.pool.contains(#[trigger] self.selected[i])
        &&& planning::hashes(self.pool).no_duplicates() && self.selected.len() > 0
            ==> self.planned.len() > 0
    }

    /// No more is taken than the budget and what is removed make room for.
    pub open spec fn fits(self) -> bool {
        planning::offered_bytes(self.planned) <= self.survey.budget_bytes
            + rotation::total_bytes(self.selected)
    }

    /// What holds at every step.
    pub open spec fn wf(self) -> bool {
        self.adds_up() && self.removes_properly() && self.fits()
    }
}

/// What a report says at the end of a run adds up: every torrent in demand was added, there or
/// left out, and the new ones were not there; a dry run adds none and counts what it would have
/// added as planned. No more is removed than may be, and nothing where nothing may be; and where
/// each torrent that may be removed has a hash of its own, something was planned if something was
/// selected for removal.
pub proof fn law_report_adds_up(run: DeliveryView, report: RunReport)
    requires
        run.wf(),
        run.next == run.planned.len(),
        run.is_report(report),
    ensures
        report.planned_count <= report.rough_planned_count,
        report.added_count <= report.planned_count,
        report.rough_planned_count + report.duplicate_skip_count <= report.filtered_count,
        !run.survey.dry_run ==> report.added_count + report.skipped_count
            + report.duplicate_skip_count == report.filtered_count,
        run.survey.dry_run ==> report.added_count == 0 && report.planned_count
            + report.skipped_count + report.duplicate_skip_count == report.filtered_count,
        report.cleanup_selected_count <= report.cleanup_eligible_count,
        report.cleanup_selected_count <= run.survey.max_remove_per_cycle,
        !run.survey.auto_rotate_enabled ==> report.cleanup_selected_count == 0,
        report.cleanup_selected_count == 0 ==> report.cleanup_reclaimed_bytes == 0,
        planning::hashes(run.pool).no_duplicates() && report.cleanup_selected_count > 0
            ==> report.planned_count > 0,
{
}

/// What is planned fits into the budget that the report gives and the bytes of what is removed.
pub proof fn law_planned_within_reported_budget(run: DeliveryView, report: RunReport)
    requires
        run.wf(),
        run.is_report(report),
    ensures
        planning::offered_bytes(run.planned) <= report.budget_bytes + rotation::total_bytes(
            run.selected,
        ),
        report.cleanup_selected_count == 0 ==> planning::offered_bytes(run.planned)
            <= report.budget_bytes,
{
}

/// What is handed to qBittorrent for removal is managed, complete and there, and never kept; and no
/// hash is handed over twice.
pub proof fn law_kept_torrents_are_not_removed(
    run: DeliveryView,
    present: Seq<QbTorrent>,
    config: Config,
    now: int,
    i: int,
)
    requires
        run.wf(),
        run.pool == rotation::cleanup_pool(present, config, now),
        present.len() <= usize::MAX,
        0 <= i < run.doomed().len(),
    ensures
        run.doomed().no_duplicates(),
        run.doomed()[i] == run.selected[i].hash@,
        present.contains(run.selected[i]),
        rotation::is_managed(run.selected[i]),
        rotation::is_completed(run.selected[i]),
        !rotation::is_kept(run.selected[i]),
{
    assert(run.pool.contains(run.selected[i]));
    rotation::law_pool_holds_the_removable(present, config, now, run.selected[i]);
}

/// A dry run removes nothing and asks for nothing to be added.
pub proof fn law_dry_run_changes_nothing(run: DeliveryView)
    requires
        run.survey.dry_run,
    ensures
        run.doomed().len() == 0,
        run.next < run.planned.len() ==> run.announced().next == run.next + 1,
        run.announced().added == run.added,
{
}

/// What is to be done next.
#[derive(Debug)]
pub enum Addition {
    /// The torrent of that identifier is to be added, with its file.
    Add(String, Vec<u8>),
    /// A dry run passed over a torrent; the next one follows.
    Skipped,
    /// All torrents are dealt with.
    Done,
}

/// The second half of a run.
#[derive(Debug)]
pub struct Delivery {
    survey: Survey,
    planned: Vec<TorrentInfo>,
    files: Vec<Vec<u8>>,
    next: usize,
    pool: Vec<QbTorrent>,
    selected: Vec<QbTorrent>,
    reclaimed: u64,
    rough: usize,
    duplicates: usize,
    skipped: usize,
    added: usize,
    log: Vec<String>,
}

impl View for Delivery {
    type V = DeliveryView;

    closed spec fn view(&self) -> DeliveryView {
        DeliveryView {
            survey: self.survey,
            planned: self.planned@,
            files: planning::contents(self.files@),
            next: self.next as nat,
            pool: self.pool@,
            selected: self.selected@,
            reclaimed: self.reclaimed as nat,
            rough: self.rough as nat,
            duplicates: self.duplicates as nat,
            skipped: self.skipped as nat,
            added: self.added as nat,
            log: config::texts(self.log@),
        }
    }
}

impl Delivery {
    /// Goes on once all torrents were considered.
    pub fn new(survey: Survey, planner: Planner) -> (r: Self)
        requires
            planner@.wf(),
            planner@.next == planner@.queue.len(),
            survey.opens(planner@),
        ensures
            r@ == DeliveryView::opened(survey, planner@),
            r@.wf(),
    {
        let ghost plan = planner@;
        proof {
            planning::law_plan_within_limits(plan);
        }
        let outcome = planner.into_outcome();
        let summary = scan_summary_line(
            &survey,
            outcome.planned.len(),
            outcome.rough_planned_count,
            outcome.duplicate_skip_count,
            outcome.cleanup_selected.len(),
            outcome.cleanup_reclaimed_bytes,
        );
        let pretence = if survey.dry_run && outcome.cleanup_selected.len() > 0 {
            Some(
                lines::removal_pretended_line(
                    outcome.cleanup_selected.len(),
                    outcome.cleanup_reclaimed_bytes,
                ),
            )
        } else {
            None
        };
        let mut r = Delivery {
            survey,
            planned: outcome.planned,
            files: outcome.files,
            next: 0,
            pool: outcome.cleanup_pool,
            selected: outcome.cleanup_selected,
            reclaimed: outcome.cleanup_reclaimed_bytes,
            rough: outcome.rough_planned_count,
            duplicates: outcome.duplicate_skip_count,
            skipped: outcome.skipped_count,
            added: 0,
            log: outcome.log,
        };
        r.write(summary);
        match pretence {
            Some(line) => r.write(line),
            None => {},
        }
        assert(r@ =~= DeliveryView::opened(survey, plan));
        r
    }

    /// Adds a line to the log.
    fn write(&mut self, line: String)
        ensures
            final(self)@ == old(self)@.logged(line@),
    {
        let ghost before = config::texts(self.log@);
        self.log.push(line);
        assert(config::texts(self.log@) =~= before.push(line@));
        assert(self@ =~= old(self)@.logged(line@));
    }

    /// The hashes of the torrents to remove.
    pub fn hashes_to_remove(&self) -> (r: Vec<String>)
        ensures
            config::texts(r@) == self@.doomed(),
            self@.survey.dry_run ==> r@.len() == 0,
            !self@.survey.dry_run ==> r@.len() == self@.selected.len() && forall|i: int|
                0 <= i < r@.len() ==> (#[trigger] r@[i])@ == self@.selected[i].hash@,
    {
        let mut doomed: Vec<String> = Vec::new();
        if self.survey.dry_run {
            assert(config::texts(doomed@) =~= self@.doomed());
            return doomed;
        }
        let mut i: usize = 0;
        while i < self.selected.len()
            invariant
                i <= self.selected@.len(),
                doomed@.len() == i,
                forall|j: int| 0 <= j < i ==> (#[trigger] doomed@[j])@ == self.selected@[j].hash@,
            decreases self.selected@.len() - i,
        {
            doomed.push(self.selected[i].hash.clone());
            i = i + 1;
        }
        assert(config::texts(doomed@) =~= self@.doomed());
        doomed
    }

    /// Notes that those torrents were removed.
    pub fn note_removed(&mut self)
        ensures
            final(self)@ == old(self)@.cleared(),
    {
        let ghost start = self@;
        let ghost shown = self.selected@.map_values(|torrent: QbTorrent| lines::removed(torrent));
        let mut i: usize = 0;
        assert(start.log + shown.take(0) =~= start.log);
        while i < self.selected.len()
            invariant
                i <= self.selected@.len(),
                shown == self.selected@.map_values(
                    |torrent: QbTorrent| lines::removed(torrent),
                ),
                self.selected@ == start.selected,
                self@ == (DeliveryView { log: start.log + shown.take(i as int), ..start }),
            decreases self.selected@.len() - i,
        {
            let line = lines::removed_line(&self.selected[i]);
            self.write(line);
            assert(start.log + shown.take(i + 1) =~= (start.log + shown.take(i as int)).push(
                shown[i as int],
            ));
            i = i + 1;
        }
        assert(shown.take(shown.len() as int) =~= shown);
    }

    /// Turns to the next torrent.
    pub fn next_addition(&mut self) -> (r: Addition)
        requires
            old(self)@.wf(),
        ensures
            final(self)@ == old(self)@.announced(),
            final(self)@.wf(),
            match r {
                Addition::Done => old(self)@.next == old(self)@.planned.len(),
                Addition::Skipped => old(self)@.next < old(self)@.planned.len()
                    && old(self)@.survey.dry_run,
                Addition::Add(seed_id, file) => {
                    &&& old(self)@.next < old(self)@.planned.len()
                    &&& !old(self)@.survey.dry_run
                    &&& seed_id@ == old(self)@.planned[old(self)@.next as int].seed_id@
                    &&& file@ == old(self)@.files[old(self)@.next as int]
                },
            },
    {
        if self.next >= self.planned.len() {
            return Addition::Done;
        }
        let line = lines::candidate_line(&self.planned[self.next]);
        self.write(line);
        if self.survey.dry_run {
            let skip = lines::dry_run_skip_line(&self.planned[self.next]);
            self.write(skip);
            self.next = self.next + 1;
            assert(self@ =~= old(self)@.announced());
            Addition::Skipped
        } else {
            let seed_id = self.planned[self.next].seed_id.clone();
            let file = self.files[self.next].clone();
            assert(file@ =~= self.files@[self.next as int]@);
            Addition::Add(seed_id, file)
        }
    }

    /// Goes on with what came of adding the torrent.
    pub fn settle(&mut self, outcome: Result<QbTorrent, String>)
        requires
            old(self)@.wf(),
            old(self)@.next < old(self)@.planned.len(),
            !old(self)@.survey.dry_run,
        ensures
            final(self)@ == old(self)@.settled(outcome),
            final(self)@.wf(),
    {
        let length: usize = self.planned.len();
        match outcome {
            Ok(torrent) => {
                let line = lines::added_line(&torrent);
                self.write(line);
                self.added = self.added + 1;
            },
            Err(cause) => {
                let line = lines::not_added_line(&self.planned[self.next], cause.as_str());
                self.write(line);
                self.skipped = self.skipped + 1;
            },
        }
        self.next = self.next + 1;
        assert(self@ =~= old(self)@.settled(outcome));
    }

    /// Ends the run.
    pub fn finish(&mut self) -> (r: RunReport)
        ensures
            old(self)@.is_report(r),
            final(self)@ == old(self)@.logged(old(self)@.closing()),
    {
        let line = execution_summary_line(
            self.added,
            self.skipped,
            self.duplicates,
            self.planned.len(),
            self.rough,
            self.selected.len(),
            self.reclaimed,
        );
        self.write(line);
        RunReport {
            free_count: self.survey.free_count,
            filtered_count: self.survey.filtered_count,
            planned_count: self.planned.len(),
            rough_planned_count: self.rough,
            added_count: self.added,
            skipped_count: self.skipped,
            duplicate_skip_count: self.duplicates,
            cleanup_eligible_count: self.survey.cleanup_eligible_count,
            cleanup_selected_count: self.selected.len(),
            cleanup_reclaimed_bytes: self.reclaimed,
            managed_count: self.survey.managed_count,
            keep_count: self.survey.keep_count,
            budget_bytes: self.survey.budget_bytes,
            free_space_bytes: self.survey.free_space_bytes,
            downloading_remaining_bytes: self.survey.downloading_remaining_bytes,
            seeding_count: self.survey.seeding_count,
            total_torrents: self.survey.total_torrents,
            queue_saturated: self.survey.budget_bytes == 0 || (self.survey.filtered_count > 0
                && self.planned.len() == 0),
        }
    }

    /// Hands the lines out that were logged so far, and forgets them.
    pub fn take_log(&mut self) -> (r: Vec<String>)
        ensures
            config::texts(r@) == old(self)@.log,
            final(self)@ == (DeliveryView { log: Seq::empty(), ..old(self)@ }),
    {
        let mut log: Vec<String> = Vec::new();
        std::mem::swap(&mut log, &mut self.log);
        assert(self@ =~= (DeliveryView { log: Seq::empty(), ..old(self)@ }));
        log
    }
}

} // verus!
