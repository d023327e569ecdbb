//! What the log says, and when.

use crate::config;
use crate::config::Config;
use crate::lines;
use crate::models::QbTorrent;
use crate::planning;
use crate::planning::{Fetched, PlanView};
use crate::qb_client::NameError;
use crate::rotation;
use crate::rotation_law;
use crate::run_law;
use crate::runner;
use crate::runner::{DeliveryView, Survey};
use crate::text;
use vstd::prelude::*;

verus! {

/// The line holds this text between some beginning and some end.
pub open spec fn tells(line: Seq<char>, part: Seq<char>) -> bool {
    exists|i: int| 0 <= i <= line.len() - part.len() && #[trigger] line.subrange(i, i + part.len())
        == part
}

proof fn lemma_tells(before: Seq<char>, part: Seq<char>, after: Seq<char>)
    ensures
        tells(before + part + after, part),
{
    let line = before + part + after;
    let i = before.len() as int;
    assert(line.subrange(i, i + part.len()) =~= part);
}

/// The lines with which a run starts: that it does, that it is a dry run where it is one, and the
/// categories where it is confined to some.
pub proof fn law_opening_lines(config: Config)
    ensures
        ({
            let lines = runner::opening_lines(config);
            let chosen: nat = if config.include_categories is Some {
                1
            } else {
                0
            };
            &&& lines[0] == "Starting byrRadar core"@
            &&& config.dry_run ==> lines.len() == 2 + chosen && lines[1] == "Mode: dry-run"@
            &&& !config.dry_run ==> lines.len() == 1 + chosen
            &&& config.include_categories matches Some(categories) ==> lines.last()
                == lines::categories_chosen(config::texts(categories@))
        }),
{
}

/// A list is shown with a comma and a space between each two of its texts.
pub proof fn law_lists_are_shown(parts: Seq<Seq<char>>, part: Seq<char>)
    ensures
        lines::categories_chosen(Seq::empty()) == "Category filter: "@,
        lines::categories_chosen(seq![part]) == "Category filter: "@ + part,
        parts.len() > 0 ==> lines::categories_chosen(parts.push(part)) == lines::categories_chosen(
            parts,
        ) + ", "@ + part,
{
    assert(parts.push(part).drop_last() =~= parts);
    if parts.len() > 0 {
        assert(lines::comma_list(parts.push(part)) == lines::comma_list(parts) + ", "@ + part);
        assert("Category filter: "@ + (lines::comma_list(parts) + ", "@ + part)
            =~= "Category filter: "@ + lines::comma_list(parts) + ", "@ + part);
    }
    assert("Category filter: "@ + Seq::<char>::empty() =~= "Category filter: "@);
}

/// The client that answers is named with its version.
pub proof fn law_client_line(version: Seq<char>)
    ensures
        lines::client_ready(version) == "qBittorrent: ok ("@ + version + ")"@,
{
}

/// The torrents that may be removed are logged where there are any: how many, whether they are, and
/// how many at most.
pub proof fn law_pool_line(present: Seq<QbTorrent>, config: Config, now: int)
    ensures
        ({
            let logged = runner::pool_lines(present, config, now);
            let count = rotation::cleanup_pool(present, config, now).len();
            let shown = if config.auto_rotate_enabled {
                "true"@
            } else {
                "false"@
            };
            &&& count == 0 ==> logged.len() == 0
            &&& count > 0 ==> logged.len() == 1 && logged[0] == "Cleanup pool: eligible="@
                + text::digits(count) + " auto_rotate="@ + shown + " max_remove_per_cycle="@
                + text::digits(config.max_remove_per_cycle as nat)
        }),
{
}

/// A torrent that is skipped for its size is logged with what its size was to be, or with what may
/// still be downloaded.
pub proof fn law_lines_before_a_file(plan: PlanView)
    requires
        plan.next < plan.queue.len(),
    ensures
        ({
            let torrent = plan.queue[plan.next as int];
            let log = plan.examined().log;
            &&& torrent.size_bytes is None ==> log == plan.log.push(
                "Planner skip: ["@ + torrent.seed_id@ + "] missing size_bytes from '"@
                    + torrent.size_text@ + "'"@,
            )
            &&& torrent.size_bytes matches Some(size) ==> if size > plan.budget {
                log == plan.log.push(
                    "Planner skip: ["@ + torrent.seed_id@
                        + "] exceeds remaining download budget "@ + text::digits(plan.budget)
                        + " bytes"@,
                )
            } else {
                log == plan.log
            }
        }),
{
}

/// A torrent whose file did not come is logged with the cause, and one that is there with its name.
pub proof fn law_lines_of_a_file(
    plan: PlanView,
    cause: String,
    file: Vec<u8>,
    name: String,
    now: int,
    i: int,
)
    ensures
        plan.settled(Fetched::Failed(cause), now).log == plan.log.push(
            "Preflight skip: ["@ + plan.queue[plan.next as int].seed_id@
                + "] failed to download torrent file: "@ + cause@,
        ),
        0 <= i < plan.names.len() && plan.names[i] == name@ ==> plan.settled(
            Fetched::File(file, Ok(name)),
            now,
        ).log == plan.log.push(
            "Preflight duplicate: ["@ + plan.queue[plan.next as int].seed_id@ + "] "@ + name@,
        ),
{
    if 0 <= i < plan.names.len() && plan.names[i] == name@ {
        assert(plan.names.contains(name@));
    }
}

/// The log once the name of a file was read: a line more where it could not be.
pub open spec fn warned(plan: PlanView, name: Result<String, NameError>) -> Seq<Seq<char>> {
    match name {
        Ok(_) => plan.log,
        Err(error) => plan.log.push(
            "Preflight warning: ["@ + plan.queue[plan.next as int].seed_id@
                + "] failed to parse torrent name: "@ + error.spec_message(),
        ),
    }
}

/// A new torrent that fits is taken without a word; one that does not, while nothing may be removed,
/// is logged with the bytes that it lacks.
pub proof fn law_lines_of_a_new_torrent(
    plan: PlanView,
    file: Vec<u8>,
    name: Result<String, NameError>,
    now: int,
)
    requires
        run_law::is_new(name, plan.names),
        plan.next < plan.queue.len(),
        plan.queue[plan.next as int].size_bytes is Some,
    ensures
        ({
            let torrent = plan.queue[plan.next as int];
            let size = torrent.size_bytes->0;
            let log = plan.settled(Fetched::File(file, name), now).log;
            &&& size <= plan.capacity ==> log == warned(plan, name)
            &&& size > plan.capacity && !plan.auto_rotate ==> log == warned(plan, name).push(
                "Rotation skip: ["@ + torrent.seed_id@ + "] needs "@ + text::digits(
                    (size - plan.capacity) as nat,
                ) + " bytes but auto rotation is disabled"@,
            )
        }),
{
}

/// A new torrent for which too little may be removed is logged with the bytes that are missing then.
pub proof fn law_line_of_too_little_room(
    plan: PlanView,
    file: Vec<u8>,
    name: Result<String, NameError>,
    now: int,
)
    requires
        run_law::is_new(name, plan.names),
        plan.next < plan.queue.len(),
        plan.queue[plan.next as int].size_bytes is Some,
        plan.queue[plan.next as int].size_bytes->0 > plan.capacity,
        plan.auto_rotate,
        plan.capacity + rotation::total_bytes(plan.removal())
            < plan.queue[plan.next as int].size_bytes->0,
    ensures
        ({
            let torrent = plan.queue[plan.next as int];
            plan.settled(Fetched::File(file, name), now).log == warned(plan, name).push(
                "Rotation skip: ["@ + torrent.seed_id@ + "] still short "@ + text::digits(
                    (torrent.size_bytes->0 - plan.capacity - rotation::total_bytes(
                        plan.removal(),
                    )) as nat,
                ) + " bytes after cleanup planning"@,
            )
        }),
{
    let start = match name {
        Err(error) => plan.logged(lines::unnamed(plan.current(), error.spec_message())),
        _ => plan,
    };
    assert(start.as_new().removal() == plan.removal());
}

/// One more torrent is selected for removal, unless one of its hash is. Its bytes count as
/// reclaimed and as room, as far as 64 bits hold them, and it is logged with its hash, its name and
/// the reason.
pub proof fn law_selecting(plan: PlanView, torrent: QbTorrent, now: int)
    ensures
        ({
            let after = plan.with_removal(torrent, now);
            let reclaimed = plan.reclaimed + torrent.total_size;
            let room = plan.capacity + torrent.total_size;
            &&& (exists|i: int|
                0 <= i < plan.selected.len() && (#[trigger] plan.selected[i]).hash@ == torrent.hash@)
                ==> after == plan
            &&& (forall|i: int|
                0 <= i < plan.selected.len() ==> (#[trigger] plan.selected[i]).hash@
                    != torrent.hash@) ==> after == (PlanView {
                selected: plan.selected.push(torrent),
                reclaimed: if reclaimed <= 0xffff_ffff_ffff_ffff {
                    reclaimed as nat
                } else {
                    0xffff_ffff_ffff_ffff
                },
                capacity: if room <= 0xffff_ffff_ffff_ffff {
                    room as nat
                } else {
                    0xffff_ffff_ffff_ffff
                },
                log: plan.log.push(
                    "Cleanup planned: ["@ + torrent.hash@ + "] "@ + torrent.name@ + " | "@
                        + rotation::reason(torrent, now),
                ),
                ..plan
            })
        }),
{
    run_law::law_hashes(plan.selected);
    let taken = planning::hashes(plan.selected);
    if exists|i: int|
        0 <= i < plan.selected.len() && (#[trigger] plan.selected[i]).hash@ == torrent.hash@ {
        let i = choose|i: int|
            0 <= i < plan.selected.len() && (#[trigger] plan.selected[i]).hash@ == torrent.hash@;
        assert(taken[i] == torrent.hash@);
        assert(taken.contains(torrent.hash@));
    } else if taken.contains(torrent.hash@) {
        let i = choose|i: int| 0 <= i < taken.len() && taken[i] == torrent.hash@;
        assert(plan.selected[i].hash@ == torrent.hash@);
    }
}

/// Torrents are selected for removal one after another.
pub proof fn law_selecting_in_turn(
    plan: PlanView,
    torrents: Seq<QbTorrent>,
    torrent: QbTorrent,
    now: int,
)
    ensures
        plan.with_removals(Seq::empty(), now) == plan,
        plan.with_removals(torrents.push(torrent), now) == plan.with_removals(
            torrents,
            now,
        ).with_removal(torrent, now),
{
    assert(torrents.push(torrent).drop_last() =~= torrents);
}

/// Nothing is removed for a torrent once as many are selected as may be.
pub proof fn law_removal_has_a_limit(plan: PlanView)
    requires
        plan.selected.len() >= plan.max_remove,
    ensures
        plan.removal().len() == 0,
{
    rotation_law::law_removal_is_enough_and_no_more(
        plan.available(),
        plan.required(),
        plan.removals_left(),
    );
}

/// The reason gives the age in hours, the leechers, the upload in KiB and the size in hundredths of
/// a GiB.
pub proof fn law_reasons(torrent: QbTorrent, now: int)
    ensures
        ({
            let line = rotation::reason(torrent, now);
            let size = rotation::gib_hundredths(torrent.total_size);
            &&& tells(
                line,
                "age="@ + text::digits(rotation::age(torrent.added_on as int, now) as nat)
                    + "h leechers="@,
            )
            &&& tells(
                line,
                "h leechers="@ + text::signed_digits(torrent.num_leechs as int) + " upspeed="@,
            )
            &&& tells(
                line,
                " upspeed="@ + text::digits((torrent.upspeed / 1024) as nat) + "KiB/s size="@,
            )
            &&& tells(
                line,
                "KiB/s size="@ + text::digits(size / 100) + "."@ + text::digits(size / 10 % 10)
                    + text::digits(size % 10) + "GiB"@,
            )
        }),
{
    let none = Seq::<char>::empty();
    let line = rotation::reason(torrent, now);
    let size = rotation::gib_hundredths(torrent.total_size);
    let age = text::digits(rotation::age(torrent.added_on as int, now) as nat);
    let leechers = text::signed_digits(torrent.num_leechs as int);
    let speed = text::digits((torrent.upspeed / 1024) as nat);
    let shown = text::digits(size / 100) + "."@ + text::digits(size / 10 % 10) + text::digits(
        size % 10,
    ) + "GiB"@;
    let a = "age="@ + age + "h leechers="@;
    let b = "h leechers="@ + leechers + " upspeed="@;
    let c = " upspeed="@ + speed + "KiB/s size="@;
    let d = "KiB/s size="@ + text::digits(size / 100) + "."@ + text::digits(size / 10 % 10)
        + text::digits(size % 10) + "GiB"@;
    assert(line =~= none + a + (leechers + " upspeed="@ + speed + "KiB/s size="@ + shown));
    lemma_tells(none, a, leechers + " upspeed="@ + speed + "KiB/s size="@ + shown);
    assert(line =~= ("age="@ + age) + b + (speed + "KiB/s size="@ + shown));
    lemma_tells("age="@ + age, b, speed + "KiB/s size="@ + shown);
    assert(line =~= ("age="@ + age + "h leechers="@ + leechers) + c + shown);
    lemma_tells("age="@ + age + "h leechers="@ + leechers, c, shown);
    assert(line =~= ("age="@ + age + "h leechers="@ + leechers + " upspeed="@ + speed) + d + none);
    lemma_tells("age="@ + age + "h leechers="@ + leechers + " upspeed="@ + speed, d, none);
}

/// The lines between the planning and the additions: the summary of the planning; then, where a dry
/// run would remove something, how much.
pub proof fn law_lines_of_the_planning(survey: Survey, plan: PlanView)
    ensures
        ({
            let log = DeliveryView::opened(survey, plan).log;
            let summary = runner::scan_summary(
                survey,
                plan.planned.len(),
                plan.rough,
                plan.duplicates,
                plan.selected.len(),
                plan.reclaimed,
            );
            if survey.dry_run && plan.selected.len() > 0 {
                log == plan.log.push(summary).push(
                    "Dry-run cleanup summary: would remove "@ + text::digits(plan.selected.len())
                        + " torrents and reclaim "@ + text::digits(plan.reclaimed) + " bytes"@,
                )
            } else {
                log == plan.log.push(summary)
            }
        }),
{
}

/// Each torrent that was removed is logged, in order, with its hash, its size and its name.
pub proof fn law_lines_of_removals(run: DeliveryView, i: int)
    requires
        0 <= i < run.selected.len(),
    ensures
        run.cleared().log[run.log.len() + i] == "Cleanup removed: ["@ + run.selected[i].hash@
            + "]["@ + text::digits(run.selected[i].total_size as nat) + " bytes] "@
            + run.selected[i].name@,
{
}

/// Each planned torrent is logged as it comes up, and a dry run says that it leaves it at that.
pub proof fn law_lines_of_candidates(run: DeliveryView)
    requires
        run.next < run.planned.len(),
    ensures
        ({
            let torrent = run.planned[run.next as int];
            let shown = run.log.push(
                "Candidate: ["@ + torrent.seed_id@ + "]["@ + torrent.tag@ + "]["@
                    + torrent.size_text@ + "] "@ + torrent.title@,
            );
            if run.survey.dry_run {
                run.announced().log == shown.push(
                    "Skip: ["@ + torrent.seed_id@ + "] dry-run mode"@,
                )
            } else {
                run.announced().log == shown
            }
        }),
{
}

/// What was added is logged with its hash, its name and its size, and what was not with the cause.
pub proof fn law_lines_of_additions(run: DeliveryView, torrent: QbTorrent, cause: String)
    ensures
        run.settled(Ok(torrent)).log == run.log.push(
            "Added: ["@ + torrent.hash@ + "]["@ + torrent.name@ + "]["@ + text::digits(
                torrent.total_size as nat,
            ) + " bytes]"@,
        ),
        run.settled(Err(cause)).log == run.log.push(
            "Skip: ["@ + run.planned[run.next as int].seed_id@ + "] "@ + cause@,
        ),
{
}

/// The summary of a planning gives each number behind its name.
pub proof fn law_scan_summary(
    survey: Survey,
    planned: nat,
    rough: nat,
    duplicates: nat,
    selected: nat,
    reclaimed: nat,
)
    ensures
        runner::scan_summary(survey, planned, rough, duplicates, selected, reclaimed)
            == "Scan summary: free="@ + text::digits(survey.free_count as nat) + ", filtered="@
            + text::digits(survey.filtered_count as nat) + ", rough_planned="@ + text::digits(rough)
            + ", actionable="@ + text::digits(planned) + ", duplicate_skipped="@ + text::digits(
            duplicates,
        ) + ", cleanup_eligible="@ + text::digits(survey.cleanup_eligible_count as nat)
            + ", cleanup_selected="@ + text::digits(selected) + ", reclaimed="@ + text::digits(
            reclaimed,
        ) + " bytes, budget="@ + text::digits(survey.budget_bytes as nat)
            + " bytes, free_space="@ + text::digits(survey.free_space_bytes as nat)
            + " bytes, downloading_remaining="@ + text::digits(
            survey.downloading_remaining_bytes as nat,
        ) + " bytes"@,
{
}

/// The last line of a run gives each number of it behind its name.
pub proof fn law_closing_line(run: DeliveryView)
    ensures
        run.closing() == "Execution summary: added="@ + text::digits(run.added) + ", skipped="@
            + text::digits(run.skipped) + ", duplicate_skipped="@ + text::digits(run.duplicates)
            + ", actionable="@ + text::digits(run.planned.len()) + ", rough_planned="@
            + text::digits(run.rough) + ", cleanup_selected="@ + text::digits(run.selected.len())
            + ", reclaimed="@ + text::digits(run.reclaimed) + " bytes"@,
{
}

} // verus!
