//! What a run does, from the torrents that it starts with to the report that it ends with.

use crate::choice_law;
use crate::config::Config;
use crate::lines;
use crate::models::{PlannerConfig, QbTorrent, SpaceSnapshot, TorrentInfo};
use crate::planner;
use crate::planning;
use crate::planning::{Fetched, Outcome, PlanView};
use crate::qb_client::NameError;
use crate::rotation;
use crate::rotation_law;
use crate::runner;
use crate::runner::{DeliveryView, RunReport, Survey};
use vstd::prelude::*;

verus! {

/// A filter of categories keeps exactly the torrents whose category is one of those asked for, at
/// whichever place it is asked for, in the order of the list.
pub proof fn law_category_filter(torrents: Seq<TorrentInfo>, categories: Seq<Seq<char>>)
    ensures
        exists|places: Seq<int>| #[trigger]
            choice_law::stands_at(
                runner::in_categories(torrents, Some(categories)),
                torrents,
                places,
            ) && forall|p: int|
                0 <= p < torrents.len() ==> (#[trigger] places.contains(p) <==> exists|i: int|
                    0 <= i < categories.len() && #[trigger] categories[i] == torrents[p].category@),
        runner::in_categories(torrents, None) == torrents,
{
    let wanted = |torrent: TorrentInfo| categories.contains(torrent.category@);
    let places = choice_law::lemma_filter_places(torrents, wanted);
    let kept = runner::in_categories(torrents, Some(categories));
    assert(choice_law::stands_at(kept, torrents, places));
    assert forall|p: int| 0 <= p < torrents.len() implies (#[trigger] places.contains(p) <==> exists|
        i: int,
    |
        0 <= i < categories.len() && #[trigger] categories[i] == torrents[p].category@) by {
        assert(places.contains(p) <==> wanted(torrents[p]));
    }
}

/// A torrent passes a filter of categories if its category is among them, and only then.
pub proof fn law_category_members(
    torrents: Seq<TorrentInfo>,
    categories: Seq<Seq<char>>,
    torrent: TorrentInfo,
)
    ensures
        runner::in_categories(torrents, Some(categories)).contains(torrent) <==> torrents.contains(
            torrent,
        ) && exists|i: int| 0 <= i < categories.len() && #[trigger] categories[i] == torrent.category@,
{
    let wanted = |torrent: TorrentInfo| categories.contains(torrent.category@);
    let kept = torrents.filter(wanted);
    if kept.contains(torrent) {
        torrents.lemma_filter_contains_rev(wanted, torrent);
        let i = choose|i: int| 0 <= i < kept.len() && kept[i] == torrent;
        torrents.lemma_filter_pred(wanted, i);
    }
    if torrents.contains(torrent) && wanted(torrent) {
        let i = choose|i: int| 0 <= i < torrents.len() && torrents[i] == torrent;
        torrents.lemma_filter_contains(wanted, i);
    }
}

/// The order in which categories are asked for, and how often, makes no difference.
pub proof fn law_category_order(
    torrents: Seq<TorrentInfo>,
    categories: Seq<Seq<char>>,
    others: Seq<Seq<char>>,
)
    requires
        forall|category: Seq<char>| #[trigger]
            categories.contains(category) <==> others.contains(category),
    ensures
        runner::in_categories(torrents, Some(categories)) == runner::in_categories(
            torrents,
            Some(others),
        ),
{
    assert((|torrent: TorrentInfo| categories.contains(torrent.category@)) =~= (
    |torrent: TorrentInfo| others.contains(torrent.category@)));
}

/// What the planning starts with. What may be downloaded is the budget that was configured, whatever
/// the space on the disk, and anything where none was; what may be stored is the free space less
/// what is still to come and what stays free, and nothing where that is more. Nothing is planned,
/// selected or counted yet.
pub proof fn law_opening(
    offered: Seq<TorrentInfo>,
    present: Seq<QbTorrent>,
    space: SpaceSnapshot,
    limits: PlannerConfig,
    config: Config,
    now: int,
)
    ensures
        ({
            let plan = runner::opening_plan(offered, present, space, limits, config, now);
            let room = space.free_space_bytes - space.downloading_remaining_bytes
                - limits.min_free_space_bytes;
            &&& limits.download_budget_bytes matches Some(n) ==> plan.budget == n
                && plan.start_budget == n
            &&& limits.download_budget_bytes is None ==> plan.budget == 0xffff_ffff_ffff_ffff
                && plan.start_budget == 0xffff_ffff_ffff_ffff
            &&& room >= 0 ==> plan.capacity == room && plan.start_capacity == room
            &&& room < 0 ==> plan.capacity == 0 && plan.start_capacity == 0
            &&& plan.next == 0 && plan.planned.len() == 0 && plan.files.len() == 0
                && plan.selected.len() == 0
            &&& plan.rough == 0 && plan.duplicates == 0 && plan.skipped == 0 && plan.reclaimed == 0
            &&& plan.auto_rotate == config.auto_rotate_enabled
            &&& plan.max_remove == config.max_remove_per_cycle
            &&& plan.queue == planner::by_priority(planner::appropriate(offered))
            &&& plan.pool == rotation::cleanup_pool(present, config, now)
            &&& plan.names.len() == present.len()
            &&& forall|i: int|
                0 <= i < present.len() ==> #[trigger] plan.names[i] == present[i].name@
        }),
{
}

/// The budget of the disk has no say in what may be downloaded.
pub proof fn law_budget_ignores_the_disk(
    offered: Seq<TorrentInfo>,
    present: Seq<QbTorrent>,
    space: SpaceSnapshot,
    other: SpaceSnapshot,
    limits: PlannerConfig,
    config: Config,
    now: int,
)
    ensures
        runner::opening_plan(offered, present, space, limits, config, now).budget
            == runner::opening_plan(offered, present, other, limits, config, now).budget,
{
}

/// A torrent is left out before its file is fetched where its size is unknown or beyond what may
/// still be downloaded, and nowhere else; then it is counted as skipped, and nothing else changes
/// but the log.
pub proof fn law_examining(plan: PlanView)
    requires
        plan.next < plan.queue.len(),
    ensures
        ({
            let torrent = plan.queue[plan.next as int];
            let after = plan.examined();
            if torrent.size_bytes is None || torrent.size_bytes->0 > plan.budget {
                &&& after.skipped == plan.skipped + 1
                &&& after.next == plan.next + 1
                &&& after.planned == plan.planned && after.files == plan.files
                &&& after.rough == plan.rough && after.duplicates == plan.duplicates
                &&& after.capacity == plan.capacity && after.budget == plan.budget
                &&& after.selected == plan.selected && after.reclaimed == plan.reclaimed
                &&& after.log.drop_last() == plan.log && after.log.len() == plan.log.len() + 1
                &&& plan.same_terms(after)
                &&& !plan.wants_file()
            } else {
                after == plan && plan.wants_file()
            }
        }),
{
    let torrent = plan.queue[plan.next as int];
    let line = if torrent.size_bytes is None {
        lines::size_missing(torrent)
    } else {
        lines::over_budget(torrent, plan.budget)
    };
    assert(plan.log.push(line).drop_last() =~= plan.log);
}

/// At the end of the list nothing happens any more.
pub proof fn law_examining_ends(plan: PlanView)
    requires
        plan.next >= plan.queue.len(),
    ensures
        plan.examined() == plan,
        !plan.wants_file(),
{
}

/// A torrent whose file does not come is skipped, and nothing else changes but the log.
pub proof fn law_lost_files_are_skipped(plan: PlanView, cause: String, now: int)
    ensures
        ({
            let after = plan.settled(Fetched::Failed(cause), now);
            &&& after.skipped == plan.skipped + 1
            &&& after.next == plan.next + 1
            &&& after.planned == plan.planned && after.files == plan.files
            &&& after.rough == plan.rough && after.duplicates == plan.duplicates
            &&& after.capacity == plan.capacity && after.budget == plan.budget
            &&& after.selected == plan.selected && after.reclaimed == plan.reclaimed
            &&& plan.same_terms(after)
        }),
{
}

/// A torrent whose name is there counts as a duplicate, and nothing else changes but the log.
pub proof fn law_present_names_are_duplicates(
    plan: PlanView,
    file: Vec<u8>,
    name: String,
    now: int,
    i: int,
)
    requires
        0 <= i < plan.names.len(),
        plan.names[i] == name@,
    ensures
        ({
            let after = plan.settled(Fetched::File(file, Ok(name)), now);
            &&& after.duplicates == plan.duplicates + 1
            &&& after.next == plan.next + 1
            &&& after.planned == plan.planned && after.files == plan.files
            &&& after.rough == plan.rough && after.skipped == plan.skipped
            &&& after.capacity == plan.capacity && after.budget == plan.budget
            &&& after.selected == plan.selected && after.reclaimed == plan.reclaimed
            &&& plan.same_terms(after)
        }),
{
    assert(plan.names.contains(name@));
}

/// The torrent is not there by its name: it has another one than all that are, or none that could
/// be read.
pub open spec fn is_new(name: Result<String, NameError>, names: Seq<Seq<char>>) -> bool {
    match name {
        Ok(name) => forall|i: int| 0 <= i < names.len() ==> #[trigger] names[i] != name@,
        Err(_) => true,
    }
}

/// The torrents that may still be removed are those of the pool that share no hash with a selected
/// one, in the order of the pool.
pub proof fn law_available(plan: PlanView)
    ensures
        exists|places: Seq<int>| #[trigger]
            choice_law::stands_at(plan.available(), plan.pool, places) && forall|p: int|
                0 <= p < plan.pool.len() ==> (#[trigger] places.contains(p) <==> forall|i: int|
                    0 <= i < plan.selected.len() ==> (#[trigger] plan.selected[i]).hash@
                        != plan.pool[p].hash@),
{
    let wanted = |torrent: QbTorrent| !planning::hashes(plan.selected).contains(torrent.hash@);
    let places = choice_law::lemma_filter_places(plan.pool, wanted);
    let taken = planning::hashes(plan.selected);
    assert forall|p: int| 0 <= p < plan.pool.len() implies (#[trigger] places.contains(p)
        <==> forall|i: int|
        0 <= i < plan.selected.len() ==> (#[trigger] plan.selected[i]).hash@
            != plan.pool[p].hash@) by {
        assert(places.contains(p) <==> wanted(plan.pool[p]));
        if wanted(plan.pool[p]) {
            assert forall|i: int| 0 <= i < plan.selected.len() implies (
            #[trigger] plan.selected[i]).hash@ != plan.pool[p].hash@ by {
                assert(taken[i] == plan.selected[i].hash@);
                assert(taken.contains(taken[i]));
            }
        } else {
            let i = choose|i: int| 0 <= i < taken.len() && taken[i] == plan.pool[p].hash@;
            assert(plan.selected[i].hash@ == plan.pool[p].hash@);
        }
    }
    assert(choice_law::stands_at(plan.available(), plan.pool, places));
}

/// A new torrent that fits is taken with its file; what may be stored and downloaded shrinks by its
/// size, and nothing is removed for it.
pub proof fn law_what_fits_is_taken(
    plan: PlanView,
    file: Vec<u8>,
    name: Result<String, NameError>,
    now: int,
)
    requires
        is_new(name, plan.names),
        plan.next < plan.queue.len(),
        plan.queue[plan.next as int].size_bytes is Some,
        plan.queue[plan.next as int].size_bytes->0 <= plan.budget,
        plan.queue[plan.next as int].size_bytes->0 <= plan.capacity,
    ensures
        ({
            let torrent = plan.queue[plan.next as int];
            let after = plan.settled(Fetched::File(file, name), now);
            &&& after.planned == plan.planned.push(torrent)
            &&& after.files == plan.files.push(file@)
            &&& after.capacity == plan.capacity - torrent.size_bytes->0
            &&& after.budget == plan.budget - torrent.size_bytes->0
            &&& after.rough == plan.rough + 1
            &&& after.next == plan.next + 1
            &&& after.skipped == plan.skipped && after.duplicates == plan.duplicates
            &&& after.selected == plan.selected && after.reclaimed == plan.reclaimed
            &&& plan.same_terms(after)
        }),
{
}

/// A new torrent that does not fit is skipped, and nothing removed for it, where nothing may be
/// removed at all, or where what may still be removed does not free what it lacks.
pub proof fn law_what_cannot_fit_is_skipped(
    plan: PlanView,
    file: Vec<u8>,
    name: Result<String, NameError>,
    now: int,
)
    requires
        is_new(name, plan.names),
        plan.wf(),
        plan.next < plan.queue.len(),
        plan.queue[plan.next as int].size_bytes is Some,
        plan.queue[plan.next as int].size_bytes->0 <= plan.budget,
        plan.queue[plan.next as int].size_bytes->0 > plan.capacity,
        !plan.auto_rotate || forall|k: int|
            0 <= k <= plan.available().len() && k + plan.selected.len() <= plan.max_remove
                ==> plan.capacity + rotation::total_bytes(#[trigger] plan.available().take(k))
                < plan.queue[plan.next as int].size_bytes->0,
    ensures
        ({
            let after = plan.settled(Fetched::File(file, name), now);
            &&& after.skipped == plan.skipped + 1
            &&& after.rough == plan.rough + 1
            &&& after.next == plan.next + 1
            &&& after.planned == plan.planned && after.files == plan.files
            &&& after.duplicates == plan.duplicates
            &&& after.capacity == plan.capacity && after.budget == plan.budget
            &&& after.selected == plan.selected && after.reclaimed == plan.reclaimed
            &&& plan.same_terms(after)
        }),
{
    if plan.auto_rotate {
        let available = plan.available();
        rotation_law::law_removal_is_enough_and_no_more(
            available,
            plan.required(),
            plan.removals_left(),
        );
        let n = plan.removal().len() as int;
        assert(plan.removal() == available.take(n));
        assert(rotation::total_bytes(available.take(n)) < plan.required());
        let warned = match name {
            Err(error) => plan.logged(lines::unnamed(plan.current(), error.spec_message())),
            _ => plan,
        };
        assert(warned.as_new().removal() == plan.removal());
    }
}

/// A new torrent that lacks room is taken wherever torrents may be removed and those that still may
/// free what it lacks. They are removed from the start, as few as it takes; what may be downloaded
/// shrinks by the size of the torrent alone.
pub proof fn law_room_is_made(
    plan: PlanView,
    file: Vec<u8>,
    name: Result<String, NameError>,
    now: int,
    enough: int,
)
    requires
        is_new(name, plan.names),
        plan.wf(),
        plan.next < plan.queue.len(),
        plan.queue[plan.next as int].size_bytes is Some,
        plan.queue[plan.next as int].size_bytes->0 <= plan.budget,
        plan.queue[plan.next as int].size_bytes->0 > plan.capacity,
        plan.auto_rotate,
        planning::hashes(plan.pool).no_duplicates(),
        0 <= enough <= plan.available().len(),
        enough + plan.selected.len() <= plan.max_remove,
        plan.capacity + rotation::total_bytes(plan.available().take(enough))
            >= plan.queue[plan.next as int].size_bytes->0,
    ensures
        ({
            let torrent = plan.queue[plan.next as int];
            let after = plan.settled(Fetched::File(file, name), now);
            let n = after.selected.len() - plan.selected.len();
            let freed = rotation::total_bytes(plan.available().take(n));
            &&& after.planned == plan.planned.push(torrent)
            &&& after.files == plan.files.push(file@)
            &&& 0 < n <= enough
            &&& after.selected == plan.selected + plan.available().take(n)
            &&& plan.capacity + freed >= torrent.size_bytes->0
            &&& forall|k: int|
                0 <= k < n ==> plan.capacity + rotation::total_bytes(
                    #[trigger] plan.available().take(k),
                ) < torrent.size_bytes->0
            &&& plan.capacity + freed <= 0xffff_ffff_ffff_ffff ==> after.capacity == plan.capacity
                + freed - torrent.size_bytes->0
            &&& after.budget == plan.budget - torrent.size_bytes->0
            &&& after.rough == plan.rough + 1
            &&& after.next == plan.next + 1
            &&& after.skipped == plan.skipped && after.duplicates == plan.duplicates
            &&& plan.same_terms(after)
        }),
{
    let available = plan.available();
    let removal = plan.removal();
    let torrent = plan.queue[plan.next as int];
    rotation_law::law_removal_is_enough_and_no_more(
        available,
        plan.required(),
        plan.removals_left(),
    );
    assert(rotation::total_bytes(available.take(enough)) >= plan.required());
    let n = removal.len() as int;
    assert(removal == available.take(n));
    assert(rotation::total_bytes(removal) >= plan.required());
    assert forall|k: int| 0 <= k < n implies plan.capacity + rotation::total_bytes(
        #[trigger] available.take(k),
    ) < torrent.size_bytes->0 by {
        if rotation::total_bytes(available.take(k)) >= plan.required() {
            assert(n <= k);
        }
    }
    assert(n > 0) by {
        if n == 0 {
            assert(available.take(0) =~= Seq::<QbTorrent>::empty());
            assert(rotation::total_bytes(removal) == 0);
        }
    }
    let warned = match name {
        Err(error) => plan.logged(lines::unnamed(plan.current(), error.spec_message())),
        _ => plan,
    };
    let start = warned.as_new();
    assert(start.removal() == removal);
    planning::lemma_removal_is_added(plan, start, now);
    let made = start.with_removals(removal, now);
    assert(made.selected == plan.selected + available.take(n));
}

/// The bytes of torrents on offer add up, one by one.
pub proof fn law_offered_bytes_add_up(torrents: Seq<TorrentInfo>, torrent: TorrentInfo)
    ensures
        planning::offered_bytes(Seq::empty()) == 0,
        torrent.size_bytes matches Some(size) ==> planning::offered_bytes(torrents.push(torrent))
            == planning::offered_bytes(torrents) + size,
{
    assert(torrents.push(torrent).drop_last() =~= torrents);
}

/// The hashes of torrents are theirs, one for each and in order.
pub proof fn law_hashes(torrents: Seq<QbTorrent>)
    ensures
        planning::hashes(torrents).len() == torrents.len(),
        forall|i: int|
            0 <= i < torrents.len() ==> #[trigger] planning::hashes(torrents)[i]
                == torrents[i].hash@,
{
}

/// What the planning hands out is what it came to.
pub proof fn law_outcome(outcome: Outcome, plan: PlanView)
    requires
        outcome.is_of(plan),
    ensures
        outcome.planned@ == plan.planned,
        outcome.files@.len() == plan.files.len(),
        forall|i: int|
            0 <= i < plan.files.len() ==> (#[trigger] outcome.files@[i])@ == plan.files[i],
        outcome.rough_planned_count == plan.rough,
        outcome.duplicate_skip_count == plan.duplicates,
        outcome.skipped_count == plan.skipped,
        outcome.cleanup_pool@ == plan.pool,
        outcome.cleanup_selected@ == plan.selected,
        outcome.cleanup_reclaimed_bytes == plan.reclaimed,
{
    assert forall|i: int| 0 <= i < plan.files.len() implies (#[trigger] outcome.files@[i])@
        == plan.files[i] by {
        assert(planning::contents(outcome.files@)[i] == outcome.files@[i]@);
    }
}

/// The second half of a run takes over what the planning came to, and has added nothing yet.
pub proof fn law_delivery_takes_over(survey: Survey, plan: PlanView)
    ensures
        ({
            let run = DeliveryView::opened(survey, plan);
            &&& run.survey == survey
            &&& run.planned == plan.planned && run.files == plan.files
            &&& run.selected == plan.selected && run.reclaimed == plan.reclaimed
            &&& run.pool == plan.pool
            &&& run.rough == plan.rough && run.duplicates == plan.duplicates && run.skipped
                == plan.skipped
            &&& run.next == 0 && run.added == 0
            &&& run.log.len() > plan.log.len() && run.log.take(plan.log.len() as int) == plan.log
        }),
{
    let run = DeliveryView::opened(survey, plan);
    assert(run.log.take(plan.log.len() as int) =~= plan.log);
}

/// Unless it is a dry run, every torrent that was selected is handed over for removal, by its hash,
/// and nothing else is; a dry run hands nothing over.
pub proof fn law_selected_torrents_are_removed(run: DeliveryView)
    ensures
        run.survey.dry_run ==> run.doomed().len() == 0,
        !run.survey.dry_run ==> run.doomed().len() == run.selected.len() && forall|i: int|
            0 <= i < run.selected.len() ==> #[trigger] run.doomed()[i] == run.selected[i].hash@,
{
}

/// Noting what was removed changes the log alone, by a line for each torrent.
pub proof fn law_removals_are_noted(run: DeliveryView)
    ensures
        run.cleared() == (DeliveryView { log: run.cleared().log, ..run }),
        run.cleared().log.len() == run.log.len() + run.selected.len(),
        run.cleared().log.take(run.log.len() as int) == run.log,
{
    assert(run.cleared().log.take(run.log.len() as int) =~= run.log);
}

/// Turning to a torrent changes the log alone; a dry run also passes over it. At the end nothing
/// changes.
pub proof fn law_turning_to_a_torrent(run: DeliveryView)
    ensures
        run.next >= run.planned.len() ==> run.announced() == run,
        run.next < run.planned.len() && !run.survey.dry_run ==> run.announced() == (DeliveryView {
            log: run.announced().log,
            ..run
        }),
        run.next < run.planned.len() && run.survey.dry_run ==> run.announced() == (DeliveryView {
            log: run.announced().log,
            next: run.next + 1,
            ..run
        }),
{
}

/// A torrent that was added counts as added, one that was not as skipped; either way it is done
/// with, and nothing else changes but the log.
pub proof fn law_additions_are_counted(run: DeliveryView, outcome: Result<QbTorrent, String>)
    ensures
        ({
            let after = run.settled(outcome);
            &&& after.next == run.next + 1
            &&& outcome is Ok ==> after.added == run.added + 1 && after.skipped == run.skipped
            &&& outcome is Err ==> after.added == run.added && after.skipped == run.skipped + 1
            &&& after.survey == run.survey && after.planned == run.planned && after.files
                == run.files
            &&& after.selected == run.selected && after.pool == run.pool && after.reclaimed
                == run.reclaimed
            &&& after.rough == run.rough && after.duplicates == run.duplicates
        }),
{
}

/// What a report says: what the survey found, what the planning came to, what was added and skipped;
/// and that the queue is full where there is no room for anything, or where torrents were in demand
/// and none was planned.
pub proof fn law_report(run: DeliveryView, report: RunReport)
    requires
        run.is_report(report),
    ensures
        report.free_count == run.survey.free_count,
        report.filtered_count == run.survey.filtered_count,
        report.planned_count == run.planned.len(),
        report.rough_planned_count == run.rough,
        report.added_count == run.added,
        report.skipped_count == run.skipped,
        report.duplicate_skip_count == run.duplicates,
        report.cleanup_eligible_count == run.survey.cleanup_eligible_count,
        report.cleanup_selected_count == run.selected.len(),
        report.cleanup_reclaimed_bytes == run.reclaimed,
        report.managed_count == run.survey.managed_count,
        report.keep_count == run.survey.keep_count,
        report.budget_bytes == run.survey.budget_bytes,
        report.free_space_bytes == run.survey.free_space_bytes,
        report.downloading_remaining_bytes == run.survey.downloading_remaining_bytes,
        report.seeding_count == run.survey.seeding_count,
        report.total_torrents == run.survey.total_torrents,
        report.budget_bytes == 0 ==> report.queue_saturated,
        report.filtered_count > 0 && report.planned_count == 0 ==> report.queue_saturated,
        report.budget_bytes > 0 && (report.filtered_count == 0 || report.planned_count > 0)
            ==> !report.queue_saturated,
{
}

/// What a survey counts. The budget is what may be stored, or downloaded where that is less.
pub proof fn law_survey(
    survey: Survey,
    offered: Seq<TorrentInfo>,
    present: Seq<QbTorrent>,
    space: SpaceSnapshot,
    limits: PlannerConfig,
    config: Config,
    now: int,
)
    requires
        survey.is_of(offered, present, space, limits, config, now),
    ensures
        survey.dry_run == config.dry_run,
        survey.auto_rotate_enabled == config.auto_rotate_enabled,
        survey.max_remove_per_cycle == config.max_remove_per_cycle,
        survey.free_count == offered.len(),
        survey.filtered_count == planner::appropriate(offered).len(),
        survey.cleanup_eligible_count == rotation::cleanup_pool(present, config, now).len(),
        survey.managed_count == present.filter(
            |torrent: QbTorrent| rotation::has_tag(torrent.tags@, "byrradar"@),
        ).len(),
        survey.keep_count == present.filter(
            |torrent: QbTorrent| rotation::has_tag(torrent.tags@, "keep"@),
        ).len(),
        survey.seeding_count == present.filter(
            |torrent: QbTorrent|
                torrent.state@ == "uploading"@ || torrent.state@ == "stalledUP"@ || torrent.state@
                    == "queuedUP"@ || torrent.state@ == "forcedUP"@,
        ).len(),
        survey.total_torrents == present.len(),
        survey.free_space_bytes == space.free_space_bytes,
        survey.downloading_remaining_bytes == space.downloading_remaining_bytes,
        ({
            let room = space.free_space_bytes - space.downloading_remaining_bytes
                - limits.min_free_space_bytes;
            &&& survey.budget_bytes <= room || survey.budget_bytes == 0
            &&& limits.download_budget_bytes matches Some(n) ==> survey.budget_bytes <= n
            &&& survey.budget_bytes == room || room <= 0 || limits.download_budget_bytes == Some(
                survey.budget_bytes,
            )
        }),
{
    assert((|torrent: QbTorrent| rotation::is_managed(torrent)) =~= (|torrent: QbTorrent|
        rotation::has_tag(torrent.tags@, "byrradar"@)));
    assert((|torrent: QbTorrent| rotation::is_kept(torrent)) =~= (|torrent: QbTorrent|
        rotation::has_tag(torrent.tags@, "keep"@)));
    assert((|torrent: QbTorrent| runner::is_seeding_state(torrent.state@)) =~= (
    |torrent: QbTorrent|
        torrent.state@ == "uploading"@ || torrent.state@ == "stalledUP"@ || torrent.state@
            == "queuedUP"@ || torrent.state@ == "forcedUP"@));
}

} // verus!
