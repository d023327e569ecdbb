//! The lines that a run logs.

use crate::config;
use crate::models::{QbTorrent, TorrentInfo};
use crate::rotation;
use crate::text;
use vstd::prelude::*;
use vstd::string::*;

verus! {

/// A switch as it is shown.
pub open spec fn shown_switch(on: bool) -> Seq<char> {
    if on {
        "true"@
    } else {
        "false"@
    }
}

/// A switch as it is shown.
fn switch(on: bool) -> (r: &'static str)
    ensures
        r@ == shown_switch(on),
{
    if on {
        "true"
    } else {
        "false"
    }
}

/// Some texts with a comma and a space between each two.
pub open spec fn comma_list(parts: Seq<Seq<char>>) -> Seq<char>
    decreases parts.len(),
{
    if parts.len() == 0 {
        Seq::empty()
    } else if parts.len() == 1 {
        parts[0]
    } else {
        comma_list(parts.drop_last()) + ", "@ + parts.last()
    }
}

/// The categories that a run is confined to.
pub open spec fn categories_chosen(categories: Seq<Seq<char>>) -> Seq<char> {
    "Category filter: "@ + comma_list(categories)
}

/// The categories that a run is confined to.
pub fn categories_chosen_line(categories: &[String]) -> (r: String)
    ensures
        r@ == categories_chosen(config::texts(categories@)),
{
    let ghost all = config::texts(categories@);
    let mut line = String::from_str("Category filter: ");
    let mut i: usize = 0;
    assert(line@ =~= "Category filter: "@ + comma_list(all.take(0)));
    while i < categories.len()
        invariant
            i <= categories@.len(),
            all == config::texts(categories@),
            line@ == "Category filter: "@ + comma_list(all.take(i as int)),
        decreases categories@.len() - i,
    {
        let ghost before = line@;
        assert(all[i as int] == categories@[i as int]@);
        assert(all.take(i + 1).drop_last() =~= all.take(i as int));
        if i > 0 {
            line.append(", ");
        } else {
            assert(all.take(0) =~= Seq::<Seq<char>>::empty());
        }
        line.append(categories[i].as_str());
        assert(line@ =~= "Category filter: "@ + comma_list(all.take(i + 1)));
        i = i + 1;
    }
    assert(all.take(all.len() as int) =~= all);
    line
}

/// qBittorrent answers, in a version.
pub open spec fn client_ready(version: Seq<char>) -> Seq<char> {
    "qBittorrent: ok ("@ + version + ")"@
}

/// qBittorrent answers, in a version.
pub fn client_ready_line(version: &str) -> (r: String)
    ensures
        r@ == client_ready(version@),
{
    let mut line = String::from_str("qBittorrent: ok (");
    line.append(version);
    line.append(")");
    line
}

/// Some torrents may be removed.
pub open spec fn pool_found(eligible: nat, auto_rotate: bool, max_remove: nat) -> Seq<char> {
    "Cleanup pool: eligible="@ + text::digits(eligible) + " auto_rotate="@
        + shown_switch(auto_rotate) + " max_remove_per_cycle="@ + text::digits(max_remove)
}

/// Some torrents may be removed.
pub fn pool_found_line(eligible: usize, auto_rotate: bool, max_remove: usize) -> (r: String)
    ensures
        r@ == pool_found(eligible as nat, auto_rotate, max_remove as nat),
{
    let mut line = String::from_str("Cleanup pool: eligible=");
    text::append_number(&mut line, eligible as u64);
    line.append(" auto_rotate=");
    line.append(switch(auto_rotate));
    line.append(" max_remove_per_cycle=");
    text::append_number(&mut line, max_remove as u64);
    line
}

/// A torrent is left out for want of a size.
pub open spec fn size_missing(torrent: TorrentInfo) -> Seq<char> {
    "Planner skip: ["@ + torrent.seed_id@ + "] missing size_bytes from '"@ + torrent.size_text@
        + "'"@
}

/// A torrent is left out for want of a size.
pub fn size_missing_line(torrent: &TorrentInfo) -> (r: String)
    ensures
        r@ == size_missing(*torrent),
{
    let mut line = String::from_str("Planner skip: [");
    line.append(torrent.seed_id.as_str());
    line.append("] missing size_bytes from '");
    line.append(torrent.size_text.as_str());
    line.append("'");
    line
}

/// A torrent is left out for it exceeds what may be downloaded.
pub open spec fn over_budget(torrent: TorrentInfo, budget: nat) -> Seq<char> {
    "Planner skip: ["@ + torrent.seed_id@ + "] exceeds remaining download budget "@
        + text::digits(budget) + " bytes"@
}

/// A torrent is left out for it exceeds what may be downloaded.
pub fn over_budget_line(torrent: &TorrentInfo, budget: u64) -> (r: String)
    ensures
        r@ == over_budget(*torrent, budget as nat),
{
    let mut line = String::from_str("Planner skip: [");
    line.append(torrent.seed_id.as_str());
    line.append("] exceeds remaining download budget ");
    text::append_number(&mut line, budget);
    line.append(" bytes");
    line
}

/// A torrent is left out for its file did not come.
pub open spec fn download_failed(torrent: TorrentInfo, cause: Seq<char>) -> Seq<char> {
    "Preflight skip: ["@ + torrent.seed_id@ + "] failed to download torrent file: "@ + cause
}

/// A torrent is left out for its file did not come.
pub fn download_failed_line(torrent: &TorrentInfo, cause: &str) -> (r: String)
    ensures
        r@ == download_failed(*torrent, cause@),
{
    let mut line = String::from_str("Preflight skip: [");
    line.append(torrent.seed_id.as_str());
    line.append("] failed to download torrent file: ");
    line.append(cause);
    line
}

/// A torrent is left out for it is there.
pub open spec fn duplicate(torrent: TorrentInfo, name: Seq<char>) -> Seq<char> {
    "Preflight duplicate: ["@ + torrent.seed_id@ + "] "@ + name
}

/// A torrent is left out for it is there.
pub fn duplicate_line(torrent: &TorrentInfo, name: &str) -> (r: String)
    ensures
        r@ == duplicate(*torrent, name@),
{
    let mut line = String::from_str("Preflight duplicate: [");
    line.append(torrent.seed_id.as_str());
    line.append("] ");
    line.append(name);
    line
}

/// A torrent file gives no name.
pub open spec fn unnamed(torrent: TorrentInfo, cause: Seq<char>) -> Seq<char> {
    "Preflight warning: ["@ + torrent.seed_id@ + "] failed to parse torrent name: "@ + cause
}

/// A torrent file gives no name.
pub fn unnamed_line(torrent: &TorrentInfo, cause: &str) -> (r: String)
    ensures
        r@ == unnamed(*torrent, cause@),
{
    let mut line = String::from_str("Preflight warning: [");
    line.append(torrent.seed_id.as_str());
    line.append("] failed to parse torrent name: ");
    line.append(cause);
    line
}

/// A torrent is left out for nothing may be removed for it.
pub open spec fn rotation_off(torrent: TorrentInfo, required: nat) -> Seq<char> {
    "Rotation skip: ["@ + torrent.seed_id@ + "] needs "@ + text::digits(required)
        + " bytes but auto rotation is disabled"@
}

/// A torrent is left out for nothing may be removed for it.
pub fn rotation_off_line(torrent: &TorrentInfo, required: u64) -> (r: String)
    ensures
        r@ == rotation_off(*torrent, required as nat),
{
    let mut line = String::from_str("Rotation skip: [");
    line.append(torrent.seed_id.as_str());
    line.append("] needs ");
    text::append_number(&mut line, required);
    line.append(" bytes but auto rotation is disabled");
    line
}

/// A torrent is left out for too little can be removed for it.
pub open spec fn still_short(torrent: TorrentInfo, missing: nat) -> Seq<char> {
    "Rotation skip: ["@ + torrent.seed_id@ + "] still short "@ + text::digits(missing)
        + " bytes after cleanup planning"@
}

/// A torrent is left out for too little can be removed for it.
pub fn still_short_line(torrent: &TorrentInfo, missing: u64) -> (r: String)
    ensures
        r@ == still_short(*torrent, missing as nat),
{
    let mut line = String::from_str("Rotation skip: [");
    line.append(torrent.seed_id.as_str());
    line.append("] still short ");
    text::append_number(&mut line, missing);
    line.append(" bytes after cleanup planning");
    line
}

/// A torrent is to be removed.
pub open spec fn removal_planned(torrent: QbTorrent, now: int) -> Seq<char> {
    "Cleanup planned: ["@ + torrent.hash@ + "] "@ + torrent.name@ + " | "@
        + rotation::reason(torrent, now)
}

/// A torrent is to be removed.
pub fn removal_planned_line(torrent: &QbTorrent, now: i64) -> (r: String)
    ensures
        r@ == removal_planned(*torrent, now as int),
{
    let mut line = String::from_str("Cleanup planned: [");
    line.append(torrent.hash.as_str());
    line.append("] ");
    line.append(torrent.name.as_str());
    line.append(" | ");
    line.append(rotation::cleanup_reason_at(torrent, now).as_str());
    line
}

/// A torrent is left out for want of room.
pub open spec fn no_room(torrent: TorrentInfo, need: nat, capacity: nat) -> Seq<char> {
    "Planner skip: ["@ + torrent.seed_id@ + "] need="@ + text::digits(need) + " remaining="@
        + text::digits(capacity)
}

/// A torrent is left out for want of room.
pub fn no_room_line(torrent: &TorrentInfo, need: u64, capacity: u64) -> (r: String)
    ensures
        r@ == no_room(*torrent, need as nat, capacity as nat),
{
    let mut line = String::from_str("Planner skip: [");
    line.append(torrent.seed_id.as_str());
    line.append("] need=");
    text::append_number(&mut line, need);
    line.append(" remaining=");
    text::append_number(&mut line, capacity);
    line
}

/// What a dry run would remove.
pub open spec fn removal_pretended(count: nat, bytes: nat) -> Seq<char> {
    "Dry-run cleanup summary: would remove "@ + text::digits(count) + " torrents and reclaim "@
        + text::digits(bytes) + " bytes"@
}

/// What a dry run would remove.
pub fn removal_pretended_line(count: usize, bytes: u64) -> (r: String)
    ensures
        r@ == removal_pretended(count as nat, bytes as nat),
{
    let mut line = String::from_str("Dry-run cleanup summary: would remove ");
    text::append_number(&mut line, count as u64);
    line.append(" torrents and reclaim ");
    text::append_number(&mut line, bytes);
    line.append(" bytes");
    line
}

/// A torrent was removed.
pub open spec fn removed(torrent: QbTorrent) -> Seq<char> {
    "Cleanup removed: ["@ + torrent.hash@ + "]["@ + text::digits(torrent.total_size as nat)
        + " bytes] "@ + torrent.name@
}

/// A torrent was removed.
pub fn removed_line(torrent: &QbTorrent) -> (r: String)
    ensures
        r@ == removed(*torrent),
{
    let mut line = String::from_str("Cleanup removed: [");
    line.append(torrent.hash.as_str());
    line.append("][");
    text::append_number(&mut line, torrent.total_size);
    line.append(" bytes] ");
    line.append(torrent.name.as_str());
    line
}

/// A torrent is up next.
pub open spec fn candidate(torrent: TorrentInfo) -> Seq<char> {
    "Candidate: ["@ + torrent.seed_id@ + "]["@ + torrent.tag@ + "]["@ + torrent.size_text@
        + "] "@ + torrent.title@
}

/// A torrent is up next.
pub fn candidate_line(torrent: &TorrentInfo) -> (r: String)
    ensures
        r@ == candidate(*torrent),
{
    let mut line = String::from_str("Candidate: [");
    line.append(torrent.seed_id.as_str());
    line.append("][");
    line.append(torrent.tag.as_str());
    line.append("][");
    line.append(torrent.size_text.as_str());
    line.append("] ");
    line.append(torrent.title.as_str());
    line
}

/// A dry run adds nothing.
pub open spec fn dry_run_skip(torrent: TorrentInfo) -> Seq<char> {
    "Skip: ["@ + torrent.seed_id@ + "] dry-run mode"@
}

/// A dry run adds nothing.
pub fn dry_run_skip_line(torrent: &TorrentInfo) -> (r: String)
    ensures
        r@ == dry_run_skip(*torrent),
{
    let mut line = String::from_str("Skip: [");
    line.append(torrent.seed_id.as_str());
    line.append("] dry-run mode");
    line
}

/// A torrent was added.
pub open spec fn added(torrent: QbTorrent) -> Seq<char> {
    "Added: ["@ + torrent.hash@ + "]["@ + torrent.name@ + "]["@
        + text::digits(torrent.total_size as nat) + " bytes]"@
}

/// A torrent was added.
pub fn added_line(torrent: &QbTorrent) -> (r: String)
    ensures
        r@ == added(*torrent),
{
    let mut line = String::from_str("Added: [");
    line.append(torrent.hash.as_str());
    line.append("][");
    line.append(torrent.name.as_str());
    line.append("][");
    text::append_number(&mut line, torrent.total_size);
    line.append(" bytes]");
    line
}

/// A torrent was not added.
pub open spec fn not_added(torrent: TorrentInfo, cause: Seq<char>) -> Seq<char> {
    "Skip: ["@ + torrent.seed_id@ + "] "@ + cause
}

/// A torrent was not added.
pub fn not_added_line(torrent: &TorrentInfo, cause: &str) -> (r: String)
    ensures
        r@ == not_added(*torrent, cause@),
{
    let mut line = String::from_str("Skip: [");
    line.append(torrent.seed_id.as_str());
    line.append("] ");
    line.append(cause);
    line
}

} // verus!
