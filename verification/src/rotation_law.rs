//! Which torrents may go and which may be adopted, in which order, and how many of them do go.

use crate::binary64;
use crate::binary64::Binary64;
use crate::choice_law;
use crate::config::Config;
use crate::models::QbTorrent;
use crate::number_law;
use crate::rotation;
use crate::sorting;
use crate::text;
use crate::text_law;
use vstd::arithmetic::div_mod::*;
use vstd::arithmetic::mul::*;
use vstd::arithmetic::power2::*;
use vstd::prelude::*;

verus! {

/// Tags stand between commas: a list of tags has a tag where one of its parts has it, and a part
/// has it where it is the tag, white space around it and the case of its letters aside.
pub proof fn law_tags(a: Seq<char>, b: Seq<char>, tag: Seq<char>)
    ensures
        rotation::has_tag(a + seq![','] + b, tag) <==> rotation::has_tag(a, tag)
            || rotation::has_tag(b, tag),
        !a.contains(',') ==> (rotation::has_tag(a, tag) <==> text::lower(text::trim(a))
            == text::lower(tag)),
{
    let comma = seq![','];
    assert(comma[0] == ',');
    assert(comma.contains(','));
    text_law::law_split(a, b, comma, ',');
    text_law::law_split(b, a, comma, ',');
    let x = text::split(a, comma);
    let y = text::split(b, comma);
    let all = text::split(a + comma + b, comma);
    assert(all == x + y);
    if rotation::has_tag(a + comma + b, tag) {
        let i = choose|i: int|
            0 <= i < all.len() && text::same_ignoring_case(text::trim(#[trigger] all[i]), tag);
        if i < x.len() {
            assert(x[i] == all[i]);
        } else {
            assert(y[i - x.len()] == all[i]);
        }
    }
    if rotation::has_tag(a, tag) {
        let i = choose|i: int|
            0 <= i < x.len() && text::same_ignoring_case(text::trim(#[trigger] x[i]), tag);
        assert(all[i] == x[i]);
    }
    if rotation::has_tag(b, tag) {
        let i = choose|i: int|
            0 <= i < y.len() && text::same_ignoring_case(text::trim(#[trigger] y[i]), tag);
        assert(all[x.len() + i] == y[i]);
    }
    if !a.contains(',') {
        assert forall|i: int| 0 <= i < a.len() implies !comma.contains(#[trigger] a[i]) by {
            assert(a.contains(a[i]));
        }
        assert(x == seq![a]);
        assert(x[0] == a);
    }
}

/// What is managed carries the tag `byrradar`, and what is kept the tag `keep`.
pub proof fn law_managed_and_kept(torrent: QbTorrent)
    ensures
        rotation::is_managed(torrent) <==> rotation::has_tag(torrent.tags@, "byrradar"@),
        rotation::is_kept(torrent) <==> rotation::has_tag(torrent.tags@, "keep"@),
{
}

/// A torrent all of which is there is complete, unless it is in one of six states of a download;
/// one that seeds always is.
pub proof fn law_whole_torrents_are_complete(torrent: QbTorrent)
    requires
        0 < torrent.total_size <= torrent.completed,
    ensures
        rotation::is_completed(torrent) <==> torrent.state@ != "downloading"@ && torrent.state@
            != "forcedDL"@ && torrent.state@ != "metaDL"@ && torrent.state@ != "forcedMetaDL"@
            && torrent.state@ != "checkingDL"@ && torrent.state@ != "allocating"@,
        torrent.state@ == "uploading"@ || torrent.state@ == "stalledUP"@ || torrent.state@
            == "queuedUP"@ || torrent.state@ == "forcedUP"@ ==> rotation::is_completed(torrent),
{
    reveal_strlit("downloading");
    reveal_strlit("forcedDL");
    reveal_strlit("metaDL");
    reveal_strlit("forcedMetaDL");
    reveal_strlit("checkingDL");
    reveal_strlit("allocating");
    reveal_strlit("uploading");
    reveal_strlit("stalledUP");
    reveal_strlit("queuedUP");
    reveal_strlit("forcedUP");
    assert("downloading"@.len() == 11);
    assert("forcedDL"@.len() == 8);
    assert("metaDL"@.len() == 6);
    assert("forcedMetaDL"@.len() == 12);
    assert("checkingDL"@.len() == 10);
    assert("allocating"@.len() == 10);
    assert("uploading"@.len() == 9);
    assert("stalledUP"@.len() == 9);
    assert("queuedUP"@.len() == 8);
    assert("forcedUP"@.len() == 8);
    assert("queuedUP"@[0] == 'q');
    assert("forcedDL"@[0] == 'f');
    assert("forcedUP"@[6] == 'U');
    assert("forcedDL"@[6] == 'D');
}

/// A torrent that is not all there is complete only by its progress, which has to reach 0.999; and
/// one without a size never is.
pub proof fn law_progress_completes(torrent: QbTorrent)
    requires
        torrent.completed < torrent.total_size || torrent.total_size == 0,
    ensures
        rotation::is_completed(torrent) ==> torrent.total_size > 0 && binary64::nearest_bits(
            999,
            1000,
        ) <= torrent.progress.bits <= 0x7ff0_0000_0000_0000,
        rotation::is_completed(torrent) ==> torrent.state@ != "downloading"@ && torrent.state@
            != "forcedDL"@ && torrent.state@ != "metaDL"@ && torrent.state@ != "forcedMetaDL"@
            && torrent.state@ != "checkingDL"@ && torrent.state@ != "allocating"@,
        torrent.total_size > 0 && binary64::nearest_bits(999, 1000) <= torrent.progress.bits
            <= 0x7ff0_0000_0000_0000 && torrent.state@ != "downloading"@ && torrent.state@
            != "forcedDL"@ && torrent.state@ != "metaDL"@ && torrent.state@ != "forcedMetaDL"@
            && torrent.state@ != "checkingDL"@ && torrent.state@ != "allocating"@
            ==> rotation::is_completed(torrent),
{
    rotation::law_complete_bits();
    let bound = Binary64 { bits: rotation::COMPLETE_BITS };
    binary64::law_units_increase(torrent.progress.magnitude(), bound.magnitude());
    binary64::law_units_increase(bound.magnitude(), torrent.progress.magnitude());
}

/// A torrent reaches an age of so many hours where it was added at a known time so many times 3600
/// seconds ago.
pub proof fn law_age(added_on: int, now: int, hours: nat)
    requires
        hours > 0,
    ensures
        rotation::age(added_on, now) >= hours <==> added_on > 0 && now - added_on >= 3600 * hours,
        rotation::age(added_on, now) >= 0,
{
}

/// The torrent may be removed: it carries the tag of managed torrents and not that of kept ones, is
/// complete, was added long enough ago, and few enough ask for it.
pub open spec fn may_go(torrent: QbTorrent, config: Config, now: int) -> bool {
    &&& rotation::has_tag(torrent.tags@, "byrradar"@)
    &&& !rotation::has_tag(torrent.tags@, "keep"@)
    &&& rotation::is_completed(torrent)
    &&& config.min_seeding_hours_before_remove == 0 || torrent.added_on > 0 && now
        - torrent.added_on >= 3600 * config.min_seeding_hours_before_remove
    &&& torrent.num_leechs <= config.max_leechers_for_stale
    &&& torrent.upspeed <= 1024 * config.max_recent_upspeed_kib
}

/// The pool of a cleanup holds exactly the torrents that may be removed, each as often as it is
/// there.
pub proof fn law_cleanup_pool(
    torrents: Seq<QbTorrent>,
    config: Config,
    now: int,
    torrent: QbTorrent,
)
    requires
        torrents.len() <= usize::MAX,
    ensures
        rotation::cleanup_pool(torrents, config, now).contains(torrent) <==> torrents.contains(
            torrent,
        ) && rotation::has_tag(torrent.tags@, "byrradar"@) && !rotation::has_tag(
            torrent.tags@,
            "keep"@,
        ) && rotation::is_completed(torrent) && (config.min_seeding_hours_before_remove == 0
            || torrent.added_on > 0 && now - torrent.added_on >= 3600
            * config.min_seeding_hours_before_remove) && torrent.num_leechs
            <= config.max_leechers_for_stale && torrent.upspeed <= 1024
            * config.max_recent_upspeed_kib,
        exists|places: Seq<int>| #[trigger] is_rearranged(
            rotation::cleanup_pool(torrents, config, now),
            torrents,
            places,
        ) && forall|p: int|
            0 <= p < torrents.len() ==> (#[trigger] places.contains(p) <==> may_go(
                torrents[p],
                config,
                now,
            )),
{
    rotation::law_pool_holds_the_removable(torrents, config, now, torrent);
    law_managed_and_kept(torrent);
    if config.min_seeding_hours_before_remove > 0 {
        law_age(
            torrent.added_on as int,
            now,
            config.min_seeding_hours_before_remove as nat,
        );
    } else {
        law_age(torrent.added_on as int, now, 1);
    }
    let wanted = |torrent: QbTorrent| rotation::is_removable(torrent, config, now);
    let removable = torrents.filter(wanted);
    torrents.lemma_filter_len(wanted);
    let kept = choice_law::lemma_filter_places(torrents, wanted);
    let keys = rotation::removal_keys(removable);
    let places = lemma_rearranged(removable, torrents, kept, keys);
    assert forall|p: int| 0 <= p < torrents.len() implies (#[trigger] places.contains(p) <==> may_go(
        torrents[p],
        config,
        now,
    )) by {
        assert(kept.contains(p) <==> wanted(torrents[p]));
        if config.min_seeding_hours_before_remove > 0 {
            law_age(
                torrents[p].added_on as int,
                now,
                config.min_seeding_hours_before_remove as nat,
            );
        } else {
            law_age(torrents[p].added_on as int, now, 1);
        }
    }
}

/// A torrent may be removed exactly where all of that holds.
pub proof fn law_removable(torrent: QbTorrent, config: Config, now: int)
    ensures
        rotation::is_removable(torrent, config, now) <==> may_go(torrent, config, now),
{
    if config.min_seeding_hours_before_remove > 0 {
        law_age(torrent.added_on as int, now, config.min_seeding_hours_before_remove as nat);
    } else {
        law_age(torrent.added_on as int, now, 1);
    }
}

/// `chosen` are the items of `from` at these places, no place named twice.
pub open spec fn is_rearranged<T>(chosen: Seq<T>, from: Seq<T>, places: Seq<int>) -> bool {
    &&& places.len() == chosen.len()
    &&& places.no_duplicates()
    &&& forall|i: int|
        0 <= i < places.len() ==> 0 <= #[trigger] places[i] < from.len() && chosen[i]
            == from[places[i]]
}

proof fn lemma_rearranged(
    items: Seq<QbTorrent>,
    from: Seq<QbTorrent>,
    kept: Seq<int>,
    keys: Seq<sorting::SortKey>,
) -> (places: Seq<int>)
    requires
        choice_law::stands_at(items, from, kept),
        keys.len() == items.len() <= usize::MAX,
    ensures
        is_rearranged(
            sorting::arranged(items, sorting::stable_order(keys)),
            from,
            places,
        ),
        forall|p: int| #[trigger] places.contains(p) <==> kept.contains(p),
{
    sorting::law_stable_order_exists(keys);
    let order = sorting::stable_order(keys);
    let places = Seq::new(order.len(), |i: int| kept[order[i] as int]);
    assert forall|i: int, j: int| 0 <= i < places.len() && 0 <= j < places.len() && i
        != j implies places[i] != places[j] by {
        if i < j {
            assert(sorting::comes_first(keys, order[i], order[j]));
        } else {
            assert(sorting::comes_first(keys, order[j], order[i]));
        }
        sorting::law_keys_compare_in_order(keys[order[i] as int], keys[order[j] as int]);
        assert(order[i] != order[j]);
        if order[i] < order[j] {
            assert(kept[order[i] as int] < kept[order[j] as int]);
        } else {
            assert(kept[order[j] as int] < kept[order[i] as int]);
        }
    }
    assert forall|p: int| #[trigger] places.contains(p) <==> kept.contains(p) by {
        if places.contains(p) {
            let i = choose|i: int| 0 <= i < places.len() && places[i] == p;
            assert(kept[order[i] as int] == p);
        }
        if kept.contains(p) {
            let k = choose|k: int| 0 <= k < kept.len() && kept[k] == p;
            assert(order.contains(k as usize));
            let i = choose|i: int| 0 <= i < order.len() && order[i] == k as usize;
            assert(places[i] == p);
        }
    }
    places
}

/// Who of two torrents goes first: who has fewer leechers, then fewer seeds, then the slower upload,
/// then the longer stay, then the larger size. Numbers below zero count as zero.
pub proof fn law_removal_order(torrents: Seq<QbTorrent>, config: Config, now: int, i: int, j: int)
    requires
        torrents.len() <= usize::MAX,
        0 <= i < j < rotation::cleanup_pool(torrents, config, now).len(),
    ensures
        ({
            let a = rotation::cleanup_pool(torrents, config, now)[i];
            let b = rotation::cleanup_pool(torrents, config, now)[j];
            let leechers = a.num_leechs == b.num_leechs || a.num_leechs <= 0 && b.num_leechs <= 0;
            let seeds = a.num_seeds == b.num_seeds || a.num_seeds <= 0 && b.num_seeds <= 0;
            &&& a.num_leechs <= b.num_leechs || a.num_leechs <= 0
            &&& leechers ==> a.num_seeds <= b.num_seeds || a.num_seeds <= 0
            &&& leechers && seeds ==> a.upspeed <= b.upspeed
            &&& leechers && seeds && a.upspeed == b.upspeed ==> a.added_on <= b.added_on
            &&& leechers && seeds && a.upspeed == b.upspeed && a.added_on == b.added_on
                && a.total_size <= 0x8000_0000_0000_0000 && b.total_size <= 0x8000_0000_0000_0000
                ==> a.total_size >= b.total_size
        }),
{
    let wanted = |torrent: QbTorrent| rotation::is_removable(torrent, config, now);
    let removable = torrents.filter(wanted);
    torrents.lemma_filter_len(wanted);
    let keys = rotation::removal_keys(removable);
    sorting::law_stable_order_exists(keys);
    let order = sorting::stable_order(keys);
    let ka = keys[order[i] as int];
    let kb = keys[order[j] as int];
    assert(sorting::comes_first(keys, order[i], order[j]));
    sorting::law_keys_compare_in_order(ka, kb);
    sorting::law_keys_compare_in_order(kb, ka);
}

/// The pool of adoptions holds exactly the torrents that are complete and neither managed nor kept.
pub proof fn law_adoption_pool(torrents: Seq<QbTorrent>, now: int, torrent: QbTorrent)
    requires
        torrents.len() <= usize::MAX,
    ensures
        rotation::adoption_pool(torrents, now).contains(torrent) <==> torrents.contains(torrent)
            && !rotation::has_tag(torrent.tags@, "byrradar"@) && !rotation::has_tag(
            torrent.tags@,
            "keep"@,
        ) && rotation::is_completed(torrent),
        exists|places: Seq<int>| #[trigger] is_rearranged(
            rotation::adoption_pool(torrents, now),
            torrents,
            places,
        ) && forall|p: int|
            0 <= p < torrents.len() ==> (#[trigger] places.contains(p) <==> !rotation::has_tag(
                torrents[p].tags@,
                "byrradar"@,
            ) && !rotation::has_tag(torrents[p].tags@, "keep"@) && rotation::is_completed(
                torrents[p],
            )),
{
    let wanted = |torrent: QbTorrent| rotation::is_adoptable(torrent);
    let adoptable = torrents.filter(wanted);
    torrents.lemma_filter_len(wanted);
    let kept = choice_law::lemma_filter_places(torrents, wanted);
    let keys = rotation::adoption_keys(adoptable, now);
    let places = lemma_rearranged(adoptable, torrents, kept, keys);
    assert forall|p: int| 0 <= p < torrents.len() implies (#[trigger] places.contains(p)
        <==> !rotation::has_tag(torrents[p].tags@, "byrradar"@) && !rotation::has_tag(
        torrents[p].tags@,
        "keep"@,
    ) && rotation::is_completed(torrents[p])) by {
        assert(kept.contains(p) <==> wanted(torrents[p]));
    }
    assert(is_rearranged(rotation::adoption_pool(torrents, now), torrents, places));
    sorting::law_arranging_keeps_items(adoptable, keys, torrent);
    if adoptable.contains(torrent) {
        torrents.lemma_filter_contains_rev(wanted, torrent);
        let i = choose|i: int| 0 <= i < adoptable.len() && adoptable[i] == torrent;
        torrents.lemma_filter_pred(wanted, i);
    }
    if torrents.contains(torrent) && wanted(torrent) {
        let i = choose|i: int| 0 <= i < torrents.len() && torrents[i] == torrent;
        torrents.lemma_filter_contains(wanted, i);
    }
}

/// Who of two torrents is adopted first: who is older in hours, then who has fewer leechers, then
/// the slower upload, then the larger size.
pub proof fn law_adoption_order(torrents: Seq<QbTorrent>, now: int, i: int, j: int)
    requires
        torrents.len() <= usize::MAX,
        0 <= now <= i64::MAX,
        0 <= i < j < rotation::adoption_pool(torrents, now).len(),
    ensures
        ({
            let a = rotation::adoption_pool(torrents, now)[i];
            let b = rotation::adoption_pool(torrents, now)[j];
            let hours_a = rotation::age(a.added_on as int, now);
            let hours_b = rotation::age(b.added_on as int, now);
            let leechers = a.num_leechs == b.num_leechs || a.num_leechs <= 0 && b.num_leechs <= 0;
            &&& hours_a >= hours_b
            &&& hours_a == hours_b ==> a.num_leechs <= b.num_leechs || a.num_leechs <= 0
            &&& hours_a == hours_b && leechers ==> a.upspeed <= b.upspeed
            &&& hours_a == hours_b && leechers && a.upspeed == b.upspeed && a.total_size
                <= 0x8000_0000_0000_0000 && b.total_size <= 0x8000_0000_0000_0000
                ==> a.total_size >= b.total_size
        }),
{
    let wanted = |torrent: QbTorrent| rotation::is_adoptable(torrent);
    let adoptable = torrents.filter(wanted);
    torrents.lemma_filter_len(wanted);
    let keys = rotation::adoption_keys(adoptable, now);
    sorting::law_stable_order_exists(keys);
    let order = sorting::stable_order(keys);
    let ka = keys[order[i] as int];
    let kb = keys[order[j] as int];
    assert(sorting::comes_first(keys, order[i], order[j]));
    sorting::law_keys_compare_in_order(ka, kb);
    sorting::law_keys_compare_in_order(kb, ka);
}

/// The bytes of torrents add up, one by one.
pub proof fn law_bytes_add_up(torrents: Seq<QbTorrent>, torrent: QbTorrent)
    ensures
        rotation::total_bytes(Seq::empty()) == 0,
        rotation::total_bytes(torrents.push(torrent)) == rotation::total_bytes(torrents)
            + torrent.total_size,
{
    assert(torrents.push(torrent).drop_last() =~= torrents);
}

/// A number is kept as far as 64 bits reach.
pub proof fn law_held_in_64_bits(n: nat)
    ensures
        n <= 0xffff_ffff_ffff_ffff ==> rotation::held_u64(n) == n,
        n > 0xffff_ffff_ffff_ffff ==> rotation::held_u64(n) == 0xffff_ffff_ffff_ffff,
{
}

/// What is planned for removal is taken from the start of the pool, never more than the limit. It
/// frees the required bytes wherever that many torrents can, and not one torrent more is taken than
/// that needs.
pub proof fn law_removal_is_enough_and_no_more(pool: Seq<QbTorrent>, required: nat, most: nat)
    ensures
        ({
            let removal = rotation::planned_removal(pool, required, most);
            let n = removal.len();
            &&& n <= most
            &&& n <= pool.len()
            &&& removal == pool.take(n as int)
            &&& forall|k: int|
                0 <= k <= most && k <= pool.len() && rotation::total_bytes(
                    #[trigger] pool.take(k),
                ) >= required ==> rotation::total_bytes(removal) >= required && n <= k
            &&& rotation::total_bytes(removal) < required ==> n == pool.len() || n == most
        }),
{
    let open_to = if most <= pool.len() {
        pool.take(most as int)
    } else {
        pool
    };
    let removal = rotation::planned_removal(pool, required, most);
    rotation::law_needed_is_minimal(open_to, required);
    let n = rotation::needed(open_to, required);
    assert(removal =~= pool.take(n as int));
    assert(open_to.take(n as int) =~= pool.take(n as int));
    assert forall|k: int|
        0 <= k <= most && k <= pool.len() && rotation::total_bytes(#[trigger] pool.take(k))
            >= required implies rotation::total_bytes(removal) >= required && n <= k by {
        assert(open_to.take(k) =~= pool.take(k));
        if k < n {
            assert(rotation::total_bytes(open_to.take(k)) < required);
        }
        if n == open_to.len() {
            assert(k == n);
        }
    }
}

/// A query names its tokens between commas and line breaks; each counts in small letters and without
/// white space around it, and nothing counts where nothing is left.
pub proof fn law_query_tokens(a: Seq<char>, b: Seq<char>, c: char)
    requires
        c == ',' || c == '\n' || c == '\r',
    ensures
        rotation::query_tokens(a + seq![c] + b) == rotation::query_tokens(a)
            + rotation::query_tokens(b),
        (forall|i: int| 0 <= i < b.len() ==> #[trigger] b[i] != ',' && b[i] != '\n' && b[i] != '\r')
            ==> rotation::query_tokens(b) == (if text::trim(b).len() == 0 {
            Seq::empty()
        } else {
            seq![text::lower(text::trim(b))]
        }),
{
    let ends = seq![',', '\n', '\r'];
    assert(ends[0] == ',' && ends[1] == '\n' && ends[2] == '\r');
    assert(ends.contains(c));
    text_law::law_split(a, b, ends, c);
    let x = text::split(a, ends);
    let y = text::split(b, ends);
    let small = |part: Seq<char>| text::lower(text::trim(part));
    let named = |token: Seq<char>| token.len() > 0;
    assert((x + y).map_values(small) =~= x.map_values(small) + y.map_values(small));
    lemma_filter_parts(x.map_values(small), y.map_values(small), named);
    if forall|i: int| 0 <= i < b.len() ==> #[trigger] b[i] != ',' && b[i] != '\n' && b[i] != '\r' {
        assert forall|i: int| 0 <= i < b.len() implies !ends.contains(#[trigger] b[i]) by {}
        assert(y == seq![b]);
        let token = small(b);
        assert(y.map_values(small) =~= seq![token]);
        reveal(Seq::filter);
        assert(seq![token].drop_last() =~= Seq::<Seq<char>>::empty());
        assert(Seq::<Seq<char>>::empty().filter(named) =~= Seq::<Seq<char>>::empty());
        assert(seq![token].filter(named) =~= (if token.len() > 0 {
            seq![token]
        } else {
            Seq::empty()
        }));
    }
}

/// What is filtered of two parts is what is filtered of each.
pub proof fn lemma_filter_parts<T>(a: Seq<T>, b: Seq<T>, wanted: spec_fn(T) -> bool)
    ensures
        (a + b).filter(wanted) == a.filter(wanted) + b.filter(wanted),
    decreases b.len(),
{
    reveal(Seq::filter);
    if b.len() == 0 {
        assert(a + b =~= a);
        assert(a.filter(wanted) + b.filter(wanted) =~= a.filter(wanted));
    } else {
        lemma_filter_parts(a, b.drop_last(), wanted);
        assert((a + b).drop_last() =~= a + b.drop_last());
        assert((a + b).last() == b.last());
        assert((a + b).filter(wanted) =~= a.filter(wanted) + b.filter(wanted));
    }
}

/// A torrent answers to a token that its name or its hash holds, whatever the case of the name and
/// the hash; and to some tokens where it answers to one of them.
pub proof fn law_queries(torrent: QbTorrent, tokens: Seq<Seq<char>>, token: Seq<char>)
    ensures
        !rotation::is_queried(torrent, Seq::empty()),
        rotation::is_queried(torrent, tokens.push(token)) <==> rotation::is_queried(torrent, tokens)
            || text::contains(text::lower(torrent.name@), token) || text::contains(
            text::lower(torrent.hash@),
            token,
        ),
{
    let more = tokens.push(token);
    if rotation::is_queried(torrent, more) {
        let i = choose|i: int|
            0 <= i < more.len() && (text::contains(text::lower(torrent.name@), #[trigger] more[i])
                || text::contains(text::lower(torrent.hash@), more[i]));
        if i < tokens.len() {
            assert(tokens[i] == more[i]);
        }
    }
    if rotation::is_queried(torrent, tokens) {
        let i = choose|i: int|
            0 <= i < tokens.len() && (text::contains(
                text::lower(torrent.name@),
                #[trigger] tokens[i],
            ) || text::contains(text::lower(torrent.hash@), tokens[i]));
        assert(more[i] == tokens[i]);
    }
    assert(more[tokens.len() as int] == token);
}

/// Asked for kept torrents only these answer, asked for others only those, and all where nothing is
/// asked.
pub proof fn law_keep_states(torrent: QbTorrent)
    ensures
        rotation::has_keep_state(torrent, None),
        rotation::has_keep_state(torrent, Some(true)) <==> rotation::has_tag(
            torrent.tags@,
            "keep"@,
        ),
        rotation::has_keep_state(torrent, Some(false)) <==> !rotation::has_tag(
            torrent.tags@,
            "keep"@,
        ),
{
}

/// A size below eight PiB is shown to the nearest hundredth of a GiB.
pub proof fn law_sizes_in_hundredths(size: u64)
    requires
        size < 0x20_0000_0000_0000,
    ensures
        -0x4000_0000 <= 2 * (rotation::gib_hundredths(size) * 0x4000_0000 - 100 * size)
            <= 0x4000_0000,
{
    number_law::law_whole_numbers_are_exact(size as nat);
    lemma2_to64();
    lemma_pow2_adds(1074, 30);
    lemma_pow2_pos(1074);
    let one = pow2(1074);
    let a = (100 * size) as nat;
    assert(size as nat * one * 100 == a * one) by (nonlinear_arith)
        requires
            a == 100 * size as nat,
    ;
    lemma_mul_is_commutative(one as int, pow2(30) as int);
    binary64::lemma_half_even_factor(a, pow2(30), one);
    lemma_fundamental_div_mod(a as int, pow2(30) as int);
}

} // verus!
