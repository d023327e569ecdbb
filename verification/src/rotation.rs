//! Which finished torrents may make room for new ones.

use crate::binary64;
use crate::binary64::Binary64;
use crate::clock;
use crate::config;
use crate::config::Config;
use crate::models::QbTorrent;
use crate::natural::Natural;
use crate::planner;
use crate::sorting;
use crate::sorting::SortKey;
use crate::text;
use vstd::arithmetic::power2::*;
use vstd::prelude::*;
use vstd::string::*;

verus! {

/// The tag of torrents that may be removed.
pub const MANAGED_TAG: &'static str = "byrradar";

/// The tag of torrents that stay.
pub const KEEP_TAG: &'static str = "keep";

/// The bit pattern of 0.999, from which on a download counts as complete.
pub const COMPLETE_BITS: u64 = 0x3fef_f7ce_d916_872b;

/// `COMPLETE_BITS` is the pattern of the number nearest to 999 thousandths.
pub proof fn law_complete_bits()
    ensures
        binary64::nearest_bits(999, 1000) == COMPLETE_BITS,
{
    lemma_pow2_adds(1021, 53);
    lemma_pow2_adds(1021, 52);
    lemma_pow2_unfold(1074);
    lemma_pow2_pos(1021);
    lemma2_to64();
    lemma2_to64_rest();
    assert(999 * pow2(1074) == 999 * pow2(53) * pow2(1021)) by (nonlinear_arith)
        requires
            pow2(1074) == pow2(1021) * pow2(53),
    ;
    assert(binary64::is_scale(999, 1000, 1021));
    binary64::lemma_scale_unique(999, 1000, 1021);
    binary64::lemma_half_even_factor(999 * pow2(53), 1000, pow2(1021));
}

/// One of the tags between commas is `tag`, white space around it and case aside.
pub open spec fn has_tag(tags: Seq<char>, tag: Seq<char>) -> bool {
    exists|i: int|
        0 <= i < text::split(tags, seq![',']).len() && text::same_ignoring_case(
            text::trim(#[trigger] text::split(tags, seq![','])[i]),
            tag,
        )
}

pub open spec fn is_managed(torrent: QbTorrent) -> bool {
    has_tag(torrent.tags@, MANAGED_TAG@)
}

pub open spec fn is_kept(torrent: QbTorrent) -> bool {
    has_tag(torrent.tags@, KEEP_TAG@)
}

/// The states of a torrent that is not there yet.
pub open spec fn is_incomplete_state(state: Seq<char>) -> bool {
    ||| state == "downloading"@
    ||| state == "forcedDL"@
    ||| state == "metaDL"@
    ||| state == "forcedMetaDL"@
    ||| state == "checkingDL"@
    ||| state == "allocating"@
}

/// All of the torrent is there, or 99.9 percent, and it is in no state of a download.
pub open spec fn is_completed(torrent: QbTorrent) -> bool {
    &&& torrent.total_size > 0
    &&& torrent.completed >= torrent.total_size || torrent.progress.at_least(
        Binary64 { bits: COMPLETE_BITS },
    )
    &&& !is_incomplete_state(torrent.state@)
}

/// The whole hours since a torrent was added; zero where that is unknown or still to come.
pub open spec fn age(added_on: int, now: int) -> int {
    if added_on <= 0 || now <= added_on {
        0
    } else {
        (now - added_on) / 3600
    }
}

/// The torrent may be removed: it is managed, not kept, complete, old enough, and few want it.
pub open spec fn is_removable(torrent: QbTorrent, config: Config, now: int) -> bool {
    &&& is_managed(torrent)
    &&& !is_kept(torrent)
    &&& is_completed(torrent)
    &&& age(torrent.added_on as int, now) >= config.min_seeding_hours_before_remove
    &&& torrent.num_leechs <= config.max_leechers_for_stale
    &&& torrent.upspeed <= config.max_recent_upspeed_kib * 1024
}

pub open spec fn at_least_zero(n: int) -> int {
    if n < 0 {
        0
    } else {
        n
    }
}

/// Who goes first: the fewest leechers, the fewest seeds, the slowest upload, the oldest, the
/// largest.
pub open spec fn removal_key(torrent: QbTorrent) -> SortKey {
    SortKey {
        first: at_least_zero(torrent.num_leechs as int) as i128,
        second: at_least_zero(torrent.num_seeds as int) as i128,
        third: torrent.upspeed as i128,
        fourth: torrent.added_on as i128,
        fifth: planner::negated_size(torrent.total_size) as i128,
    }
}

fn tagged(tags: &str, tag: &str) -> (r: bool)
    ensures
        r == has_tag(tags@, tag@),
{
    let comma: [char; 1] = [','];
    assert(comma@ =~= seq![',']);
    let parts = text::pieces(text::chars(tags).as_slice(), &comma);
    let wanted = text::lowered(text::chars(tag).as_slice());
    let ghost all = text::split(tags@, seq![',']);
    let mut i: usize = 0;
    while i < parts.len()
        invariant
            i <= parts@.len(),
            text::views(parts@) == all,
            all == text::split(tags@, seq![',']),
            wanted@ == text::lower(tag@),
            forall|j: int|
                0 <= j < i ==> !text::same_ignoring_case(text::trim(#[trigger] all[j]), tag@),
        decreases parts@.len() - i,
    {
        assert(text::views(parts@)[i as int] == parts@[i as int]@);
        let part = text::lowered(text::trimmed(parts[i].as_slice()));
        if text::same(part.as_slice(), wanted.as_slice()) {
            assert(text::same_ignoring_case(text::trim(all[i as int]), tag@));
            return true;
        }
        i = i + 1;
    }
    false
}

/// Whether the torrent may be removed at all.
pub fn is_managed_torrent(torrent: &QbTorrent) -> (r: bool)
    ensures
        r == is_managed(*torrent),
{
    tagged(torrent.tags.as_str(), MANAGED_TAG)
}

/// Whether the torrent stays.
pub fn has_keep_tag(torrent: &QbTorrent) -> (r: bool)
    ensures
        r == is_kept(*torrent),
{
    tagged(torrent.tags.as_str(), KEEP_TAG)
}

/// Whether the torrent is complete.
pub fn is_completed_torrent(torrent: &QbTorrent) -> (r: bool)
    ensures
        r == is_completed(*torrent),
{
    let bound = Binary64 { bits: COMPLETE_BITS };
    let state = torrent.state.as_str();
    torrent.total_size > 0 && (torrent.completed >= torrent.total_size
        || torrent.progress.is_at_least(&bound)) && !(text::same_text(state, "downloading")
        || text::same_text(state, "forcedDL") || text::same_text(state, "metaDL")
        || text::same_text(state, "forcedMetaDL") || text::same_text(state, "checkingDL")
        || text::same_text(state, "allocating"))
}

/// The whole hours since a torrent was added.
pub fn age_hours(torrent: &QbTorrent, now: i64) -> (r: u64)
    ensures
        r == age(torrent.added_on as int, now as int),
{
    if torrent.added_on <= 0 || now <= torrent.added_on {
        return 0;
    }
    ((now - torrent.added_on) as u64) / 3600
}

/// Whether the torrent may be removed now.
pub fn is_cleanup_eligible(torrent: &QbTorrent, config: &Config, now: i64) -> (r: bool)
    ensures
        r == is_removable(*torrent, *config, now as int),
{
    if !is_managed_torrent(torrent) || has_keep_tag(torrent) {
        return false;
    }
    if !is_completed_torrent(torrent) {
        return false;
    }
    if age_hours(torrent, now) < config.min_seeding_hours_before_remove {
        return false;
    }
    if torrent.num_leechs > config.max_leechers_for_stale {
        return false;
    }
    torrent.upspeed as u128 <= config.max_recent_upspeed_kib as u128 * 1024
}

/// What torrents are sorted by for removal.
pub open spec fn removal_keys(torrents: Seq<QbTorrent>) -> Seq<SortKey> {
    torrents.map_values(|torrent: QbTorrent| removal_key(torrent))
}

/// The torrents that may be removed, who goes first first.
pub open spec fn cleanup_pool(torrents: Seq<QbTorrent>, config: Config, now: int) -> Seq<QbTorrent> {
    let removable = torrents.filter(|torrent: QbTorrent| is_removable(torrent, config, now));
    sorting::arranged(removable, sorting::stable_order(removal_keys(removable)))
}

/// What may be removed is managed, complete and not kept; nothing else is in the pool, and nothing
/// of it is left out.
pub proof fn law_pool_holds_the_removable(
    torrents: Seq<QbTorrent>,
    config: Config,
    now: int,
    torrent: QbTorrent,
)
    requires
        torrents.len() <= usize::MAX,
    ensures
        cleanup_pool(torrents, config, now).contains(torrent) <==> torrents.contains(torrent)
            && is_removable(torrent, config, now),
        cleanup_pool(torrents, config, now).contains(torrent) ==> is_managed(torrent) && !is_kept(
            torrent,
        ) && is_completed(torrent),
{
    let wanted = |torrent: QbTorrent| is_removable(torrent, config, now);
    let removable = torrents.filter(wanted);
    torrents.lemma_filter_len(wanted);
    sorting::law_arranging_keeps_items(removable, removal_keys(removable), torrent);
    if removable.contains(torrent) {
        torrents.lemma_filter_contains_rev(wanted, torrent);
        let i = choose|i: int| 0 <= i < removable.len() && removable[i] == torrent;
        torrents.lemma_filter_pred(wanted, i);
    }
    if torrents.contains(torrent) && wanted(torrent) {
        let i = choose|i: int| 0 <= i < torrents.len() && torrents[i] == torrent;
        torrents.lemma_filter_contains(wanted, i);
    }
}

/// Who is adopted first: the oldest, the fewest leechers, the slowest upload, the largest.
pub open spec fn adoption_key(torrent: QbTorrent, now: int) -> SortKey {
    SortKey {
        first: (-age(torrent.added_on as int, now)) as i128,
        second: at_least_zero(torrent.num_leechs as int) as i128,
        third: torrent.upspeed as i128,
        fourth: planner::negated_size(torrent.total_size) as i128,
        fifth: 0,
    }
}

/// What torrents are sorted by for adoption.
pub open spec fn adoption_keys(torrents: Seq<QbTorrent>, now: int) -> Seq<SortKey> {
    torrents.map_values(|torrent: QbTorrent| adoption_key(torrent, now))
}

/// Complete torrents that are neither managed nor kept.
pub open spec fn is_adoptable(torrent: QbTorrent) -> bool {
    !is_managed(torrent) && !is_kept(torrent) && is_completed(torrent)
}

/// The torrents that may be adopted, who goes first first.
pub open spec fn adoption_pool(torrents: Seq<QbTorrent>, now: int) -> Seq<QbTorrent> {
    let adoptable = torrents.filter(|torrent: QbTorrent| is_adoptable(torrent));
    sorting::arranged(adoptable, sorting::stable_order(adoption_keys(adoptable, now)))
}

/// No torrent is up both for removal and for adoption, and none that is kept is up for either.
pub proof fn law_pools_are_apart(
    torrents: Seq<QbTorrent>,
    config: Config,
    now: int,
    torrent: QbTorrent,
)
    requires
        torrents.len() <= usize::MAX,
    ensures
        !(cleanup_pool(torrents, config, now).contains(torrent) && adoption_pool(
            torrents,
            now,
        ).contains(torrent)),
        is_kept(torrent) ==> !cleanup_pool(torrents, config, now).contains(torrent)
            && !adoption_pool(torrents, now).contains(torrent),
{
    law_pool_holds_the_removable(torrents, config, now, torrent);
    let wanted = |torrent: QbTorrent| is_adoptable(torrent);
    let adoptable = torrents.filter(wanted);
    torrents.lemma_filter_len(wanted);
    sorting::law_arranging_keeps_items(adoptable, adoption_keys(adoptable, now), torrent);
    if adoptable.contains(torrent) {
        let i = choose|i: int| 0 <= i < adoptable.len() && adoptable[i] == torrent;
        torrents.lemma_filter_pred(wanted, i);
    }
}

/// The torrents in the order of their keys.
fn arrange(torrents: &Vec<QbTorrent>, keys: &Vec<SortKey>) -> (r: Vec<QbTorrent>)
    requires
        torrents@.len() == keys@.len(),
    ensures
        r@ == sorting::arranged(torrents@, sorting::stable_order(keys@)),
{
    let order = sorting::sort_order(keys.as_slice());
    let mut sorted: Vec<QbTorrent> = Vec::new();
    let mut k: usize = 0;
    while k < order.len()
        invariant
            k <= order@.len(),
            sorting::is_stable_order(keys@, order@),
            keys@.len() == torrents@.len(),
            sorted@ == sorting::arranged(torrents@, order@.take(k as int)),
        decreases order@.len() - k,
    {
        sorted.push(torrents[order[k]].clone());
        assert(sorting::arranged(torrents@, order@.take(k + 1)) =~= sorting::arranged(
            torrents@,
            order@.take(k as int),
        ).push(torrents@[order@[k as int] as int]));
        k = k + 1;
    }
    assert(order@.take(order@.len() as int) =~= order@);
    sorted
}

/// The torrents that may be removed at a given time.
pub fn cleanup_pool_at(qb_torrents: &[QbTorrent], config: &Config, now: i64) -> (r: Vec<QbTorrent>)
    ensures
        r@ == cleanup_pool(qb_torrents@, *config, now as int),
{
    let mut candidates: Vec<QbTorrent> = Vec::new();
    let mut keys: Vec<SortKey> = Vec::new();
    let ghost wanted = |torrent: QbTorrent| is_removable(torrent, *config, now as int);
    let mut i: usize = 0;
    proof {
        reveal(Seq::filter);
    }
    assert(candidates@ =~= qb_torrents@.take(0).filter(wanted));
    while i < qb_torrents.len()
        invariant
            i <= qb_torrents@.len(),
            wanted == (|torrent: QbTorrent| is_removable(torrent, *config, now as int)),
            candidates@ == qb_torrents@.take(i as int).filter(wanted),
            keys@ == removal_keys(candidates@),
        decreases qb_torrents@.len() - i,
    {
        proof {
            reveal(Seq::filter);
            assert(qb_torrents@.take(i + 1).drop_last() =~= qb_torrents@.take(i as int));
        }
        let torrent = &qb_torrents[i];
        if is_cleanup_eligible(torrent, config, now) {
            let key = SortKey {
                first: if torrent.num_leechs < 0 {
                    0
                } else {
                    torrent.num_leechs as i128
                },
                second: if torrent.num_seeds < 0 {
                    0
                } else {
                    torrent.num_seeds as i128
                },
                third: torrent.upspeed as i128,
                fourth: torrent.added_on as i128,
                fifth: negate_size(torrent.total_size),
            };
            assert(key == removal_key(*torrent));
            let ghost before = candidates@;
            candidates.push(torrent.clone());
            keys.push(key);
            assert(removal_keys(candidates@) =~= removal_keys(before).push(key));
        }
        i = i + 1;
    }
    assert(qb_torrents@.take(qb_torrents@.len() as int) =~= qb_torrents@);
    arrange(&candidates, &keys)
}

/// The size as a signed number, negated.
fn negate_size(size: u64) -> (r: i128)
    ensures
        r == planner::negated_size(size),
{
    if size <= 0x8000_0000_0000_0000 {
        -(size as i128)
    } else {
        0x1_0000_0000_0000_0000i128 - size as i128
    }
}

/// The torrents that may be removed now.
pub fn select_cleanup_pool(qb_torrents: &[QbTorrent], config: &Config) -> (r: Vec<QbTorrent>)
    ensures
        exists|now: i64| r@ == #[trigger] cleanup_pool(qb_torrents@, *config, now as int),
{
    let now = clock::current_unix_ts();
    cleanup_pool_at(qb_torrents, config, now)
}

/// The torrents that may be adopted at a given time.
pub fn adoption_pool_at(qb_torrents: &[QbTorrent], now: i64) -> (r: Vec<QbTorrent>)
    ensures
        r@ == adoption_pool(qb_torrents@, now as int),
{
    let mut candidates: Vec<QbTorrent> = Vec::new();
    let mut keys: Vec<SortKey> = Vec::new();
    let ghost wanted = |torrent: QbTorrent| is_adoptable(torrent);
    let mut i: usize = 0;
    proof {
        reveal(Seq::filter);
    }
    assert(candidates@ =~= qb_torrents@.take(0).filter(wanted));
    while i < qb_torrents.len()
        invariant
            i <= qb_torrents@.len(),
            wanted == (|torrent: QbTorrent| is_adoptable(torrent)),
            candidates@ == qb_torrents@.take(i as int).filter(wanted),
            keys@ == adoption_keys(candidates@, now as int),
        decreases qb_torrents@.len() - i,
    {
        proof {
            reveal(Seq::filter);
            assert(qb_torrents@.take(i + 1).drop_last() =~= qb_torrents@.take(i as int));
        }
        let torrent = &qb_torrents[i];
        if !is_managed_torrent(torrent) && !has_keep_tag(torrent) && is_completed_torrent(torrent) {
            let key = SortKey {
                first: -(age_hours(torrent, now) as i128),
                second: if torrent.num_leechs < 0 {
                    0
                } else {
                    torrent.num_leechs as i128
                },
                third: torrent.upspeed as i128,
                fourth: negate_size(torrent.total_size),
                fifth: 0,
            };
            assert(key == adoption_key(*torrent, now as int));
            let ghost before = candidates@;
            candidates.push(torrent.clone());
            keys.push(key);
            assert(adoption_keys(candidates@, now as int) =~= adoption_keys(
                before,
                now as int,
            ).push(key));
        }
        i = i + 1;
    }
    assert(qb_torrents@.take(qb_torrents@.len() as int) =~= qb_torrents@);
    arrange(&candidates, &keys)
}

/// The torrents that may be adopted now.
pub fn select_adoption_pool(qb_torrents: &[QbTorrent]) -> (r: Vec<QbTorrent>)
    ensures
        exists|now: i64| r@ == #[trigger] adoption_pool(qb_torrents@, now as int),
{
    let now = clock::current_unix_ts();
    adoption_pool_at(qb_torrents, now)
}

/// How many torrents are managed.
pub fn count_managed_torrents(qb_torrents: &[QbTorrent]) -> (r: usize)
    ensures
        r == qb_torrents@.filter(|torrent: QbTorrent| is_managed(torrent)).len(),
{
    let ghost wanted = |torrent: QbTorrent| is_managed(torrent);
    let mut count: usize = 0;
    let mut i: usize = 0;
    proof {
        reveal(Seq::filter);
    }
    while i < qb_torrents.len()
        invariant
            i <= qb_torrents@.len(),
            count <= i,
            wanted == (|torrent: QbTorrent| is_managed(torrent)),
            count == qb_torrents@.take(i as int).filter(wanted).len(),
        decreases qb_torrents@.len() - i,
    {
        proof {
            reveal(Seq::filter);
            assert(qb_torrents@.take(i + 1).drop_last() =~= qb_torrents@.take(i as int));
        }
        if is_managed_torrent(&qb_torrents[i]) {
            count = count + 1;
        }
        i = i + 1;
    }
    assert(qb_torrents@.take(qb_torrents@.len() as int) =~= qb_torrents@);
    count
}

/// How many torrents are kept.
pub fn count_keep_torrents(qb_torrents: &[QbTorrent]) -> (r: usize)
    ensures
        r == qb_torrents@.filter(|torrent: QbTorrent| is_kept(torrent)).len(),
{
    let ghost wanted = |torrent: QbTorrent| is_kept(torrent);
    let mut count: usize = 0;
    let mut i: usize = 0;
    proof {
        reveal(Seq::filter);
    }
    while i < qb_torrents.len()
        invariant
            i <= qb_torrents@.len(),
            count <= i,
            wanted == (|torrent: QbTorrent| is_kept(torrent)),
            count == qb_torrents@.take(i as int).filter(wanted).len(),
        decreases qb_torrents@.len() - i,
    {
        proof {
            reveal(Seq::filter);
            assert(qb_torrents@.take(i + 1).drop_last() =~= qb_torrents@.take(i as int));
        }
        if has_keep_tag(&qb_torrents[i]) {
            count = count + 1;
        }
        i = i + 1;
    }
    assert(qb_torrents@.take(qb_torrents@.len() as int) =~= qb_torrents@);
    count
}

/// The parts of a query between commas and line ends, trimmed, in small letters, without the blank
/// ones.
pub open spec fn query_tokens(query: Seq<char>) -> Seq<Seq<char>> {
    text::split(query, seq![',', '\n', '\r']).map_values(
        |part: Seq<char>| text::lower(text::trim(part)),
    ).filter(|token: Seq<char>| token.len() > 0)
}

/// The name or the hash of the torrent, in small letters, holds one of the tokens.
pub open spec fn is_queried(torrent: QbTorrent, tokens: Seq<Seq<char>>) -> bool {
    exists|i: int|
        0 <= i < tokens.len() && (text::contains(
            text::lower(torrent.name@),
            #[trigger] tokens[i],
        ) || text::contains(text::lower(torrent.hash@), tokens[i]))
}

/// The torrent is kept or not, as asked; either way where nothing is asked.
pub open spec fn has_keep_state(torrent: QbTorrent, keep_state: Option<bool>) -> bool {
    keep_state matches Some(kept) ==> is_kept(torrent) == kept
}

/// The tokens of a query.
pub fn parse_keep_query(query: &str) -> (r: Vec<String>)
    ensures
        config::texts(r@) == query_tokens(query@),
{
    let ends: [char; 3] = [',', '\n', '\r'];
    assert(ends@ =~= seq![',', '\n', '\r']);
    let parts = text::pieces(text::chars(query).as_slice(), &ends);
    let ghost all = text::split(query@, seq![',', '\n', '\r']);
    let ghost small = all.map_values(|part: Seq<char>| text::lower(text::trim(part)));
    let ghost named = |token: Seq<char>| token.len() > 0;
    let mut tokens: Vec<String> = Vec::new();
    let mut i: usize = 0;
    proof {
        reveal(Seq::filter);
    }
    assert(config::texts(tokens@) =~= small.take(0).filter(named));
    while i < parts.len()
        invariant
            i <= parts@.len(),
            text::views(parts@) == all,
            small == all.map_values(|part: Seq<char>| text::lower(text::trim(part))),
            named == (|token: Seq<char>| token.len() > 0),
            config::texts(tokens@) == small.take(i as int).filter(named),
        decreases parts@.len() - i,
    {
        assert(text::views(parts@)[i as int] == parts@[i as int]@);
        let token = text::lowered(text::trimmed(parts[i].as_slice()));
        proof {
            reveal(Seq::filter);
            assert(small.take(i + 1).drop_last() =~= small.take(i as int));
        }
        if token.len() > 0 {
            let ghost before = config::texts(tokens@);
            tokens.push(text::string(token.as_slice()));
            assert(config::texts(tokens@) =~= before.push(token@));
        }
        i = i + 1;
    }
    assert(small.take(small.len() as int) =~= small);
    tokens
}

/// Whether the torrent holds one of the tokens.
pub fn matches_keep_query(torrent: &QbTorrent, tokens: &[String]) -> (r: bool)
    ensures
        r == is_queried(*torrent, config::texts(tokens@)),
{
    let name = text::lowered(text::chars(torrent.name.as_str()).as_slice());
    let hash = text::lowered(text::chars(torrent.hash.as_str()).as_slice());
    let ghost all = config::texts(tokens@);
    let mut i: usize = 0;
    while i < tokens.len()
        invariant
            i <= tokens@.len(),
            all == config::texts(tokens@),
            name@ == text::lower(torrent.name@),
            hash@ == text::lower(torrent.hash@),
            forall|j: int|
                0 <= j < i ==> !text::contains(name@, #[trigger] all[j]) && !text::contains(
                    hash@,
                    all[j],
                ),
        decreases tokens@.len() - i,
    {
        assert(all[i as int] == tokens@[i as int]@);
        let token = text::chars(tokens[i].as_str());
        if text::position(name.as_slice(), token.as_slice()).is_some() || text::position(
            hash.as_slice(),
            token.as_slice(),
        ).is_some() {
            return true;
        }
        i = i + 1;
    }
    false
}

/// The torrents that a query means, those kept or not kept where that is asked.
pub fn select_keep_targets(qb_torrents: &[QbTorrent], query: &str, keep_state: Option<bool>) -> (r:
    Vec<QbTorrent>)
    ensures
        r@ == qb_torrents@.filter(
            |torrent: QbTorrent|
                has_keep_state(torrent, keep_state) && is_queried(torrent, query_tokens(query@)),
        ),
{
    let tokens = parse_keep_query(query);
    let ghost wanted = |torrent: QbTorrent|
        has_keep_state(torrent, keep_state) && is_queried(torrent, query_tokens(query@));
    let mut targets: Vec<QbTorrent> = Vec::new();
    let mut i: usize = 0;
    proof {
        reveal(Seq::filter);
    }
    assert(targets@ =~= qb_torrents@.take(0).filter(wanted));
    while i < qb_torrents.len()
        invariant
            i <= qb_torrents@.len(),
            config::texts(tokens@) == query_tokens(query@),
            wanted == (|torrent: QbTorrent|
                has_keep_state(torrent, keep_state) && is_queried(torrent, query_tokens(query@))),
            targets@ == qb_torrents@.take(i as int).filter(wanted),
        decreases qb_torrents@.len() - i,
    {
        proof {
            reveal(Seq::filter);
            assert(qb_torrents@.take(i + 1).drop_last() =~= qb_torrents@.take(i as int));
        }
        let torrent = &qb_torrents[i];
        let asked: bool = match keep_state {
            Some(true) => has_keep_tag(torrent),
            Some(false) => !has_keep_tag(torrent),
            None => true,
        };
        if asked && matches_keep_query(torrent, tokens.as_slice()) {
            targets.push(torrent.clone());
        }
        i = i + 1;
    }
    assert(qb_torrents@.take(qb_torrents@.len() as int) =~= qb_torrents@);
    targets
}

/// What is removed, and how many bytes that frees.
#[derive(Debug)]
pub struct CleanupPlan {
    pub selected: Vec<QbTorrent>,
    pub reclaimed_bytes: u64,
}

impl Default for CleanupPlan {
    fn default() -> (r: Self)
        ensures
            r.selected@.len() == 0,
            r.reclaimed_bytes == 0,
    {
        CleanupPlan { selected: Vec::new(), reclaimed_bytes: 0 }
    }
}

/// The bytes of some torrents together.
pub open spec fn total_bytes(torrents: Seq<QbTorrent>) -> nat
    decreases torrents.len(),
{
    if torrents.len() == 0 {
        0
    } else {
        total_bytes(torrents.drop_last()) + torrents.last().total_size as nat
    }
}

/// `n`, or the largest 64-bit number where it is larger.
pub open spec fn held_u64(n: nat) -> nat {
    if n <= u64::MAX {
        n
    } else {
        u64::MAX as nat
    }
}

/// How many torrents from the start of the pool free the required bytes, or all of them.
pub open spec fn needed(pool: Seq<QbTorrent>, required: nat) -> nat
    decreases pool.len(),
{
    if pool.len() == 0 || required == 0 {
        0
    } else if required <= pool[0].total_size {
        1
    } else {
        1 + needed(pool.drop_first(), (required - pool[0].total_size) as nat)
    }
}

/// What is removed to free the required bytes: as much as needed from the start of the pool, no
/// more than `most`.
pub open spec fn planned_removal(pool: Seq<QbTorrent>, required: nat, most: nat) -> Seq<QbTorrent> {
    let open_to = if most <= pool.len() {
        pool.take(most as int)
    } else {
        pool
    };
    open_to.take(needed(open_to, required) as int)
}

proof fn lemma_needed_bound(pool: Seq<QbTorrent>, required: nat)
    ensures
        needed(pool, required) <= pool.len(),
    decreases pool.len(),
{
    if pool.len() > 0 && required > pool[0].total_size {
        lemma_needed_bound(pool.drop_first(), (required - pool[0].total_size) as nat);
    }
}

proof fn lemma_total_first(torrents: Seq<QbTorrent>)
    requires
        torrents.len() > 0,
    ensures
        total_bytes(torrents) == torrents[0].total_size + total_bytes(torrents.drop_first()),
    decreases torrents.len(),
{
    if torrents.len() > 1 {
        lemma_total_first(torrents.drop_last());
        assert(torrents.drop_first().drop_last() =~= torrents.drop_last().drop_first());
        assert(torrents.drop_first().last() == torrents.last());
    } else {
        assert(torrents.drop_last() =~= Seq::<QbTorrent>::empty());
        assert(torrents.drop_first() =~= Seq::<QbTorrent>::empty());
        assert(total_bytes(torrents.drop_last()) == 0);
    }
}

/// As many torrents as are needed are enough, and one less is not; where they are not enough,
/// all of the pool is taken.
pub proof fn law_needed_is_minimal(pool: Seq<QbTorrent>, required: nat)
    ensures
        needed(pool, required) <= pool.len(),
        total_bytes(pool.take(needed(pool, required) as int)) >= required || needed(pool, required)
            == pool.len(),
        forall|n: int|
            0 <= n < needed(pool, required) ==> total_bytes(#[trigger] pool.take(n)) < required,
    decreases pool.len(),
{
    lemma_needed_bound(pool, required);
    let n = needed(pool, required);
    assert(pool.take(0) =~= Seq::<QbTorrent>::empty());
    if n > 0 {
        let rest = pool.drop_first();
        let first = pool[0].total_size as nat;
        let left = (if required <= first {
            0
        } else {
            required - first
        }) as nat;
        law_needed_is_minimal(rest, left);
        assert(n == 1 + needed(rest, left));
        assert forall|k: int| 0 < k <= pool.len() implies total_bytes(#[trigger] pool.take(k))
            == first + total_bytes(rest.take(k - 1)) by {
            lemma_total_first(pool.take(k));
            assert(pool.take(k).drop_first() =~= rest.take(k - 1));
        }
        assert forall|k: int| 0 <= k < n implies total_bytes(#[trigger] pool.take(k)) < required by {
            if k > 0 {
                assert(total_bytes(rest.take(k - 1)) < left);
            }
        }
    }
}

proof fn lemma_needed_step(pool: Seq<QbTorrent>, required: nat, n: nat)
    requires
        n <= pool.len(),
        forall|k: int| 0 <= k < n ==> total_bytes(#[trigger] pool.take(k)) < required,
        n == pool.len() || total_bytes(pool.take(n as int)) >= required,
    ensures
        needed(pool, required) == n,
{
    law_needed_is_minimal(pool, required);
    let m = needed(pool, required);
    if m < n {
        assert(total_bytes(pool.take(m as int)) < required);
    }
    if n < m {
        assert(total_bytes(pool.take(n as int)) < required);
    }
}

/// Plans what to remove from the pool to free the required bytes.
pub fn build_cleanup_plan(
    cleanup_pool: &[QbTorrent],
    required_bytes: u64,
    max_remove_per_cycle: usize,
) -> (r: CleanupPlan)
    ensures
        r.selected@ == planned_removal(
            cleanup_pool@,
            required_bytes as nat,
            max_remove_per_cycle as nat,
        ),
        r.reclaimed_bytes == held_u64(total_bytes(r.selected@)),
{
    let most: usize = if max_remove_per_cycle <= cleanup_pool.len() {
        max_remove_per_cycle
    } else {
        cleanup_pool.len()
    };
    let ghost open_to = cleanup_pool@.take(most as int);
    let mut selected: Vec<QbTorrent> = Vec::new();
    let mut reclaimed: u64 = 0;
    let mut i: usize = 0;
    proof {
        assert(cleanup_pool@.take(cleanup_pool@.len() as int) =~= cleanup_pool@);
        assert(open_to.take(0) =~= Seq::<QbTorrent>::empty());
    }
    while i < most && reclaimed < required_bytes
        invariant
            i <= most <= cleanup_pool@.len(),
            open_to == cleanup_pool@.take(most as int),
            selected@ == open_to.take(i as int),
            reclaimed == held_u64(total_bytes(selected@)),
            forall|k: int| 0 <= k < i ==> total_bytes(#[trigger] open_to.take(k)) < required_bytes,
        decreases most - i,
    {
        let torrent = &cleanup_pool[i];
        reclaimed = reclaimed.saturating_add(torrent.total_size);
        selected.push(torrent.clone());
        proof {
            assert(open_to.take(i + 1).drop_last() =~= open_to.take(i as int));
            assert(selected@ =~= open_to.take(i + 1));
        }
        i = i + 1;
    }
    proof {
        lemma_needed_step(open_to, required_bytes as nat, i as nat);
    }
    CleanupPlan { selected, reclaimed_bytes: reclaimed }
}

/// Hundredths of a GiB, to the nearest one, to the even one where two are equally near; of the
/// double-precision number nearest to the size.
pub open spec fn gib_hundredths(size: u64) -> nat {
    binary64::half_even(
        binary64::units_of(binary64::nearest_bits(size as nat, 1)) * 100,
        pow2(1104),
    )
}

/// Why a torrent is removed.
pub open spec fn reason(torrent: QbTorrent, now: int) -> Seq<char> {
    let hundredths = gib_hundredths(torrent.total_size);
    "age="@ + text::digits(age(torrent.added_on as int, now) as nat) + "h leechers="@
        + text::signed_digits(torrent.num_leechs as int) + " upspeed="@ + text::digits(
        (torrent.upspeed / 1024) as nat,
    ) + "KiB/s size="@ + text::digits(hundredths / 100) + "."@ + text::digits(hundredths / 10 % 10)
        + text::digits(hundredths % 10) + "GiB"@
}

fn hundredths_of_gib(size: u64) -> (r: u64)
    ensures
        r == gib_hundredths(size),
{
    let bits: u64 = binary64::nearest(&Natural::from_u64(size), &Natural::new(1));
    proof {
        let q = binary64::scale(size as nat, 1);
        let m = binary64::half_even(size as nat * pow2(1074), 1 * pow2(q));
        lemma2_to64();
        binary64::lemma_scale_bound(size as nat, 1, 64);
        binary64::lemma_nearest_value(size as nat, 1);
        assert(q * binary64::FRACTION_SPAN as nat <= 1085 * binary64::FRACTION_SPAN as nat);
        let u = binary64::units_of(bits as nat);
        assert(u == m * pow2(q));
        binary64::lemma_pow2_order(q, 1085);
        lemma_pow2_adds(1085, 53);
        lemma_pow2_adds(1138, 7);
        lemma_pow2_adds(1104, 53);
        lemma_pow2_strictly_increases(1145, 1157);
        lemma2_to64_rest();
        assert(u <= pow2(1138)) by (nonlinear_arith)
            requires
                u == m * pow2(q),
                m <= pow2(53),
                pow2(q) <= pow2(1085),
                pow2(1138) == pow2(1085) * pow2(53),
        ;
        assert(u * 100 <= pow2(1145));
        lemma_pow2_pos(1104);
    }
    let amount = binary64::units(bits).times_plus(100, 0);
    let one = Natural::new(1);
    binary64::divide_half_even(&amount, &binary64::shifted(&one, 1104))
}

/// Why a torrent is removed, at a given time.
pub fn cleanup_reason_at(torrent: &QbTorrent, now: i64) -> (r: String)
    ensures
        r@ == reason(*torrent, now as int),
{
    let hundredths = hundredths_of_gib(torrent.total_size);
    let mut line = String::from_str("age=");
    text::append_number(&mut line, age_hours(torrent, now));
    line.append("h leechers=");
    text::append_signed(&mut line, torrent.num_leechs as i64);
    line.append(" upspeed=");
    text::append_number(&mut line, torrent.upspeed / 1024);
    line.append("KiB/s size=");
    text::append_number(&mut line, hundredths / 100);
    line.append(".");
    text::append_number(&mut line, hundredths / 10 % 10);
    text::append_number(&mut line, hundredths % 10);
    line.append("GiB");
    line
}

/// Why a torrent is removed: its age, its leechers, its upload and its size.
pub fn cleanup_reason_summary(torrent: &QbTorrent) -> (r: String)
    ensures
        exists|now: i64| r@ == #[trigger] reason(*torrent, now as int),
{
    let now = clock::current_unix_ts();
    cleanup_reason_at(torrent, now)
}

} // verus!
