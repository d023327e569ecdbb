//! How the answers of qBittorrent are read, and what is shown of the monitor.

use crate::choice_law;
use crate::clock;
use crate::config;
use crate::models::QbTorrent;
use crate::monitor;
use crate::monitor::{ReportView, RuntimeView};
use crate::qb_client;
use crate::qb_client::{AddError, NameError, TorrentListing};
use crate::runner::RunReport;
use crate::startup;
use crate::startup::StartupView;
use crate::text;
use vstd::prelude::*;
use vstd::std_specs::cmp::PartialEqSpec;

verus! {

/// What is still to come adds up, torrent by torrent: of one in one of seven states of a download
/// the bytes that it lacks, of any other nothing.
pub proof fn law_outstanding_bytes(torrents: Seq<QbTorrent>, torrent: QbTorrent)
    ensures
        qb_client::outstanding_bytes(Seq::empty()) == 0,
        ({
            let added = qb_client::outstanding_bytes(torrents.push(torrent))
                - qb_client::outstanding_bytes(torrents);
            let comes = torrent.state@ == "downloading"@ || torrent.state@ == "forcedDL"@
                || torrent.state@ == "metaDL"@ || torrent.state@ == "forcedMetaDL"@
                || torrent.state@ == "stalledDL"@ || torrent.state@ == "checkingDL"@
                || torrent.state@ == "queuedDL"@;
            &&& comes && torrent.completed <= torrent.total_size ==> added == torrent.total_size
                - torrent.completed
            &&& !comes || torrent.completed > torrent.total_size ==> added == 0
        }),
{
    assert(torrents.push(torrent).drop_last() =~= torrents);
}

/// A torrent has the numbers of its listing: the total size before the other one, and zero for what
/// is left out.
pub proof fn law_listings(torrent: QbTorrent, listing: TorrentListing)
    requires
        qb_client::is_listed(torrent, listing),
    ensures
        torrent.name@ == listing.name@,
        torrent.hash@ == listing.hash@,
        torrent.state@ == listing.state@,
        listing.tags matches Some(tags) ==> torrent.tags@ == tags@,
        listing.tags is None ==> torrent.tags@.len() == 0,
        listing.total_size matches Some(size) ==> torrent.total_size == size,
        listing.total_size is None ==> (listing.size matches Some(size) ==> torrent.total_size
            == size),
        listing.total_size is None && listing.size is None ==> torrent.total_size == 0,
        torrent.completed == listing.completed.unwrap_or(0),
        torrent.added_on == listing.added_on.unwrap_or(0),
        torrent.upspeed == listing.upspeed.unwrap_or(0),
        torrent.num_leechs == listing.num_leechs.unwrap_or(0),
        torrent.num_seeds == listing.num_seeds.unwrap_or(0),
        listing.progress matches Some(progress) ==> torrent.progress == progress,
        listing.progress is None ==> torrent.progress.bits == 0,
{
}

/// The names of torrents are theirs, one for each and in order.
pub proof fn law_names(torrents: Seq<QbTorrent>)
    ensures
        qb_client::names(torrents).len() == torrents.len(),
        forall|i: int|
            0 <= i < torrents.len() ==> #[trigger] qb_client::names(torrents)[i]
                == torrents[i].name@,
{
}

/// A request to add a torrent failed where the status says so, or where the answer is `Fails.`, and
/// succeeded otherwise.
pub proof fn law_judgement(
    r: Result<(), AddError>,
    success: bool,
    status: Seq<char>,
    body: Seq<char>,
    name: Option<String>,
)
    requires
        qb_client::is_judgement(r, success, status, body, name),
    ensures
        r is Ok <==> success && text::trim(body) != "Fails."@,
        !success ==> (r matches Err(AddError::Status { status: shown, body: answer }) && shown@
            == status && answer@ == text::trim(body)),
        success && text::trim(body) == "Fails."@ ==> r == Err::<(), AddError>(
            AddError::Rejected { torrent: name },
        ),
{
}

/// An identifier has thirty-two digits in base sixteen, and gives its version.
pub proof fn law_identifiers(id: Seq<char>)
    ensures
        qb_client::is_identifier(id) <==> id.len() == 32 && id[12] == '4' && (id[16] == '8'
            || id[16] == '9' || id[16] == 'a' || id[16] == 'b') && forall|i: int|
            0 <= i < 32 ==> '0' <= #[trigger] id[i] <= '9' || 'a' <= id[i] <= 'f',
{
}

/// What is told of a torrent that was not added.
pub proof fn law_messages(name: String, status: String, body: String)
    ensures
        (AddError::Present { name }).spec_message()
            == "torrent appears to already exist in qB by name: "@ + name@,
        (AddError::Status { status, body }).spec_message()
            == "qB add torrent endpoint returned error status "@ + status@ + " with body "@ + body@,
        (AddError::Rejected { torrent: Some(name) }).spec_message()
            == "qB rejected torrent add request with body 'Fails.'"@ + " (torrent name: "@ + name@
            + ")"@,
        (AddError::Rejected { torrent: None }).spec_message()
            == "qB rejected torrent add request with body 'Fails.'"@,
        AddError::Undetected.spec_message()
            == "torrent added request succeeded but no new qB torrent was detected"@,
        NameError::Unreadable.spec_message()
            == "failed to parse torrent metadata with serde_bencode"@,
        NameError::Missing.spec_message() == "torrent info dictionary did not contain a name field"@,
{
}

/// The part of a report that is shown is shown as it is.
pub proof fn law_shown_report(report: RunReport)
    ensures
        ({
            let shown = ReportView::of(report);
            &&& shown.free_count == report.free_count && shown.filtered_count
                == report.filtered_count && shown.planned_count == report.planned_count
            &&& shown.rough_planned_count == report.rough_planned_count && shown.added_count
                == report.added_count && shown.skipped_count == report.skipped_count
            &&& shown.duplicate_skip_count == report.duplicate_skip_count && shown.budget_bytes
                == report.budget_bytes && shown.free_space_bytes == report.free_space_bytes
            &&& shown.downloading_remaining_bytes == report.downloading_remaining_bytes
                && shown.seeding_count == report.seeding_count && shown.total_torrents
                == report.total_torrents && shown.queue_saturated == report.queue_saturated
        }),
{
}

/// Of a log the last eight hundred lines are kept, as they are and in order; a shorter log is kept
/// whole.
pub proof fn law_kept_lines(logs: Seq<Seq<char>>)
    ensures
        logs.len() <= 800 ==> monitor::kept(logs) == logs,
        logs.len() > 800 ==> monitor::kept(logs).len() == 800,
        forall|i: int|
            0 <= i < monitor::kept(logs).len() ==> #[trigger] monitor::kept(logs)[i] == logs[logs.len()
                - monitor::kept(logs).len() + i],
{
}

/// A monitor that starts runs, does not rest, and has no error to show; what it showed and logged
/// stays.
pub proof fn law_starting(state: RuntimeView, dry_run: bool)
    ensures
        ({
            let after = state.started(dry_run);
            &&& after.running && !after.paused && after.dry_run == dry_run
            &&& after.last_error is None
            &&& dry_run ==> after.status == "监控中 / Dry Run"@
            &&& !dry_run ==> after.status == "监控中 / 执行"@
            &&& after.report == state.report && after.logs == state.logs
        }),
{
}

/// A monitor that pauses, resumes or stops goes on running; pausing alone makes it rest.
pub proof fn law_pausing_and_stopping(state: RuntimeView)
    ensures
        ({
            let after = state.paused();
            &&& after.paused && after.running == state.running && after.dry_run == state.dry_run
            &&& after.status == "已暂停监控"@
            &&& after.report == state.report && after.logs == state.logs && after.last_error
                == state.last_error
        }),
        ({
            let after = state.resumed();
            &&& !after.paused && after.running == state.running && after.dry_run == state.dry_run
            &&& state.dry_run ==> after.status == "监控中 / Dry Run"@
            &&& !state.dry_run ==> after.status == "监控中 / 执行"@
            &&& after.report == state.report && after.logs == state.logs && after.last_error
                == state.last_error
        }),
        ({
            let after = state.stopping();
            &&& !after.paused && after.running == state.running && after.dry_run == state.dry_run
            &&& after.status == "停止中"@
            &&& after.report == state.report && after.logs == state.logs && after.last_error
                == state.last_error
        }),
{
}

/// A monitor that ended neither runs nor rests; the last report, the log and the last error stay.
pub proof fn law_ending(state: RuntimeView)
    ensures
        ({
            let after = state.stopped();
            &&& !after.running && !after.paused && !after.dry_run
            &&& after.status == "空闲"@
            &&& after.report == state.report && after.logs == state.logs && after.last_error
                == state.last_error
        }),
{
}

/// A new status or a new line changes nothing else.
pub proof fn law_status_and_log(state: RuntimeView, text: Seq<char>)
    ensures
        state.with_status(text).status == text,
        state.with_status(text) == (RuntimeView { status: text, ..state }),
        state.with_log(text) == (RuntimeView { logs: state.with_log(text).logs, ..state }),
        state.with_log(text).logs.len() > 0 && state.with_log(text).logs.last() == text,
        state.logs.len() < 800 ==> state.with_log(text).logs == state.logs.push(text),
        state.logs.len() == 800 ==> state.with_log(text).logs == state.logs.drop_first().push(text),
{
    if state.logs.len() == 800 {
        assert(state.with_log(text).logs =~= state.logs.drop_first().push(text));
    }
}

/// Before the first start nothing runs, and there is nothing to show.
pub proof fn law_before_the_first_start()
    ensures
        ({
            let state = RuntimeView::initial();
            &&& !state.running && !state.paused && !state.dry_run
            &&& state.status == "空闲"@
            &&& state.logs.len() == 0 && state.last_error is None
            &&& state.report == ReportView::of(RunReport::nothing())
        }),
        ({
            let none = RunReport::nothing();
            &&& none.free_count == 0 && none.filtered_count == 0 && none.planned_count == 0
            &&& none.rough_planned_count == 0 && none.added_count == 0 && none.skipped_count == 0
            &&& none.duplicate_skip_count == 0 && none.cleanup_eligible_count == 0
                && none.cleanup_selected_count == 0 && none.cleanup_reclaimed_bytes == 0
            &&& none.managed_count == 0 && none.keep_count == 0 && none.budget_bytes == 0
            &&& none.free_space_bytes == 0 && none.downloading_remaining_bytes == 0
            &&& none.total_torrents == 0 && none.seeding_count == 0 && !none.queue_saturated
        }),
{
}

/// How long is waited and how often, and where the settings were kept before.
pub proof fn law_constants()
    ensures
        monitor::REST_MILLIS == 300,
        monitor::SECONDS_BETWEEN_SCANS == 45,
        monitor::MAX_LOG_LINES == 800,
        qb_client::MOST_POLLS == 10,
        qb_client::POLL_PAUSE_MILLIS == 500,
        startup::PREVIOUS_APP_IDENTIFIER@ == "com.byrbot.desktop"@,
{
}

/// Seconds since the epoch are the time as it is, and none are the epoch itself.
pub proof fn law_timestamps(seconds: u64)
    ensures
        seconds <= i64::MAX ==> clock::timestamp(Some(seconds)) == seconds,
        clock::timestamp(None) == 0,
{
}

/// The texts of strings are theirs, one for each and in order.
pub proof fn law_texts(strings: Seq<String>)
    ensures
        config::texts(strings).len() == strings.len(),
        forall|i: int|
            0 <= i < strings.len() ==> #[trigger] config::texts(strings)[i] == strings[i]@,
{
}

/// The older places for settings, where equality of places means that they are the same: each of
/// those proposed, once and in order, but for the target.
pub proof fn law_older_places<T: PartialEq>(target: T, proposed: Seq<T>)
    requires
        forall|a: T, b: T| #[trigger] a.eq_spec(&b) <==> a == b,
    ensures
        startup::distinct(target, proposed).no_duplicates(),
        forall|place: T| #[trigger]
            startup::distinct(target, proposed).contains(place) <==> proposed.contains(place)
                && place != target,
        exists|places: Seq<int>| #[trigger]
            choice_law::stands_at(startup::distinct(target, proposed), proposed, places),
    decreases proposed.len(),
{
    let all = startup::distinct(target, proposed);
    if proposed.len() == 0 {
        assert(choice_law::stands_at(all, proposed, Seq::empty()));
    } else {
        let rest = proposed.drop_last();
        let last = proposed.last();
        law_older_places(target, rest);
        let before = startup::distinct(target, rest);
        let places = choose|places: Seq<int>| #[trigger]
            choice_law::stands_at(before, rest, places);
        let known = exists|i: int| 0 <= i < before.len() && (#[trigger] before[i]).eq_spec(&last);
        assert(known <==> before.contains(last)) by {
            if known {
                let i = choose|i: int|
                    0 <= i < before.len() && (#[trigger] before[i]).eq_spec(&last);
                assert(before[i] == last);
            }
            if before.contains(last) {
                let i = choose|i: int| 0 <= i < before.len() && before[i] == last;
                assert(before[i].eq_spec(&last));
            }
        }
        assert(last.eq_spec(&target) <==> last == target);
        if last == target || known {
            assert(all == before);
            assert(choice_law::stands_at(all, proposed, places));
        } else {
            assert(all == before.push(last));
            let more = places.push(proposed.len() - 1);
            assert forall|i: int| 0 <= i < more.len() implies 0 <= #[trigger] more[i]
                < proposed.len() && all[i] == proposed[more[i]] by {
                if i < places.len() {
                    assert(more[i] == places[i]);
                    assert(rest[places[i]] == proposed[places[i]]);
                }
            }
            assert(choice_law::stands_at(all, proposed, more));
        }
        assert forall|place: T| #[trigger] all.contains(place) <==> proposed.contains(place) && place
            != target by {
            if all.contains(place) {
                let i = choose|i: int| 0 <= i < all.len() && all[i] == place;
                if i < before.len() {
                    assert(before.contains(before[i]));
                    let k = choose|k: int| 0 <= k < rest.len() && rest[k] == place;
                    assert(proposed[k] == place);
                } else {
                    assert(proposed[proposed.len() - 1] == place);
                }
            }
            if proposed.contains(place) && place != target {
                let k = choose|k: int| 0 <= k < proposed.len() && proposed[k] == place;
                if k < rest.len() {
                    assert(rest[k] == place);
                    assert(before.contains(place));
                    let i = choose|i: int| 0 <= i < before.len() && before[i] == place;
                    assert(all[i] == place);
                } else if known {
                    assert(before.contains(place));
                    let i = choose|i: int| 0 <= i < before.len() && before[i] == place;
                    assert(all[i] == place);
                } else {
                    assert(all[before.len() as int] == place);
                }
            }
        }
    }
}

/// What is logged at the start: that the program is there, where the settings are, what there is to
/// tell of them, and at last what went wrong.
pub proof fn law_startup_lines(config_path: Seq<char>, startup: StartupView)
    ensures
        ({
            let lines = startup::startup_lines(config_path, startup);
            &&& lines.len() == 2 + startup.notes.len() + (if startup.error is Some {
                1int
            } else {
                0
            })
            &&& lines[0] == "Tauri shell ready"@
            &&& lines[1] == "配置文件: "@ + config_path
            &&& forall|i: int|
                0 <= i < startup.notes.len() ==> lines[2 + i] == #[trigger] startup.notes[i]
            &&& startup.error matches Some(message) ==> lines.last() == message
        }),
{
}

} // verus!
