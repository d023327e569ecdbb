//! Which of the torrents on offer are chosen, and in which order they are wanted.

use crate::binary64;
use crate::binary64::{Binary64, INFINITY_BITS};
use crate::decimal;
use crate::models::TorrentInfo;
use crate::number_law;
use crate::planner;
use crate::sorting;
use crate::text;
use vstd::arithmetic::div_mod::*;
use vstd::arithmetic::mul::*;
use vstd::arithmetic::power2::*;
use vstd::prelude::*;

verus! {

/// `chosen` are the items of `from` at these places, in the order of the places.
pub open spec fn stands_at<T>(chosen: Seq<T>, from: Seq<T>, places: Seq<int>) -> bool {
    &&& places.len() == chosen.len()
    &&& forall|i: int, j: int| 0 <= i < j < places.len() ==> places[i] < places[j]
    &&& forall|i: int|
        0 <= i < places.len() ==> 0 <= #[trigger] places[i] < from.len() && chosen[i]
            == from[places[i]]
}

/// What a filter keeps are the items at the places that it admits, all of them and in order.
pub proof fn lemma_filter_places<T>(from: Seq<T>, wanted: spec_fn(T) -> bool) -> (places: Seq<int>)
    ensures
        stands_at(from.filter(wanted), from, places),
        forall|p: int|
            0 <= p < from.len() ==> (#[trigger] places.contains(p) <==> wanted(from[p])),
    decreases from.len(),
{
    reveal(Seq::filter);
    if from.len() == 0 {
        Seq::empty()
    } else {
        let n = from.len() - 1;
        let rest = from.drop_last();
        let before = lemma_filter_places(rest, wanted);
        let places = if wanted(from.last()) {
            before.push(n)
        } else {
            before
        };
        assert forall|p: int| 0 <= p < from.len() implies (#[trigger] places.contains(p) <==> wanted(
            from[p],
        )) by {
            if p < n {
                assert(rest[p] == from[p]);
                assert(before.contains(p) <==> wanted(rest[p]));
                if before.contains(p) {
                    let k = choose|k: int| 0 <= k < before.len() && before[k] == p;
                    assert(places[k] == p);
                }
            } else if wanted(from.last()) {
                assert(places[before.len() as int] == n);
            } else if places.contains(n) {
                let k = choose|k: int| 0 <= k < before.len() && before[k] == n;
                assert(before[k] < rest.len());
            }
        }
        places
    }
}

/// Of twenty or more torrents those are chosen whose size is given in GiB and reaches twenty, and
/// that have twenty leechers or more to each seeder: exactly these, in the order of the list.
pub proof fn law_long_lists(torrents: Seq<TorrentInfo>)
    requires
        torrents.len() >= 20,
    ensures
        exists|places: Seq<int>| #[trigger]
            stands_at(planner::appropriate(torrents), torrents, places) && forall|p: int|
                0 <= p < torrents.len() ==> (#[trigger] places.contains(p) <==> {
                    let torrent = torrents[p];
                    &&& torrent.seeders > 0
                    &&& torrent.leechers >= 20 * torrent.seeders
                    &&& text::contains(torrent.size_text@, seq!['G', 'i', 'B'])
                    &&& !planner::gib_number(torrent.size_text@).below(20)
                }),
{
    let wanted = |torrent: TorrentInfo| planner::is_in_demand(torrent);
    let places = lemma_filter_places(torrents, wanted);
    assert(planner::appropriate(torrents) == torrents.filter(wanted));
    assert forall|p: int| 0 <= p < torrents.len() implies (#[trigger] places.contains(p) <==> {
        let torrent = torrents[p];
        &&& torrent.seeders > 0
        &&& torrent.leechers >= 20 * torrent.seeders
        &&& text::contains(torrent.size_text@, seq!['G', 'i', 'B'])
        &&& !planner::gib_number(torrent.size_text@).below(20)
    }) by {
        let torrent = torrents[p];
        if torrent.seeders > 0 && torrent.leechers >= 0 {
            planner::law_ratio_threshold(torrent.leechers as int, torrent.seeders as int);
        }
    }
    assert(stands_at(planner::appropriate(torrents), torrents, places));
}

/// Of a long list nothing is chosen that is not in demand, and nothing left out that is.
pub proof fn law_long_lists_hold_the_demanded(torrents: Seq<TorrentInfo>, torrent: TorrentInfo)
    requires
        torrents.len() >= 20,
    ensures
        planner::appropriate(torrents).contains(torrent) <==> torrents.contains(torrent)
            && torrent.seeders > 0 && torrent.leechers >= 20 * torrent.seeders && text::contains(
            torrent.size_text@,
            seq!['G', 'i', 'B'],
        ) && !planner::gib_number(torrent.size_text@).below(20),
{
    law_long_lists(torrents);
    let chosen = planner::appropriate(torrents);
    let places = choose|places: Seq<int>| #[trigger]
        stands_at(chosen, torrents, places) && forall|p: int|
            0 <= p < torrents.len() ==> (#[trigger] places.contains(p) <==> {
                let torrent = torrents[p];
                &&& torrent.seeders > 0
                &&& torrent.leechers >= 20 * torrent.seeders
                &&& text::contains(torrent.size_text@, seq!['G', 'i', 'B'])
                &&& !planner::gib_number(torrent.size_text@).below(20)
            });
    if chosen.contains(torrent) {
        let i = choose|i: int| 0 <= i < chosen.len() && chosen[i] == torrent;
        assert(torrents[places[i]] == torrent);
        assert(places.contains(places[i]));
    }
    if torrents.contains(torrent) && torrent.seeders > 0 && torrent.leechers >= 20
        * torrent.seeders && text::contains(torrent.size_text@, seq!['G', 'i', 'B'])
        && !planner::gib_number(torrent.size_text@).below(20) {
        let p = choose|p: int| 0 <= p < torrents.len() && torrents[p] == torrent;
        assert(places.contains(p));
        let i = choose|i: int| 0 <= i < places.len() && places[i] == p;
        assert(chosen[i] == torrent);
    }
}

/// Of fewer than twenty torrents all are chosen that somebody seeds and whose leechers are known,
/// in the order of the list.
pub proof fn law_short_lists(torrents: Seq<TorrentInfo>)
    requires
        torrents.len() < 20,
    ensures
        exists|places: Seq<int>| #[trigger]
            stands_at(planner::appropriate(torrents), torrents, places) && forall|p: int|
                0 <= p < torrents.len() ==> (#[trigger] places.contains(p)
                    <==> torrents[p].seeders > 0 && torrents[p].leechers >= 0),
{
    let wanted = |torrent: TorrentInfo| planner::has_peers(torrent);
    let places = lemma_filter_places(torrents, wanted);
    assert(planner::appropriate(torrents) == torrents.filter(wanted));
    assert(stands_at(planner::appropriate(torrents), torrents, places));
}

/// A size that does not begin with a number and goes on to its unit is below every threshold.
pub proof fn law_sizes_that_are_none(torrent: TorrentInfo)
    requires
        decimal::number(
            text::trim(text::replace(torrent.size_text@, seq!['G', 'i', 'B'], Seq::empty())),
        ) is None,
    ensures
        planner::gib_number(torrent.size_text@).below(20),
{
    assert(binary64::units_of(0) == 0);
    lemma_pow2_pos(1074);
}

/// A common factor of a fraction makes no difference.
pub proof fn law_common_factor(n: nat, d: nat, factor: nat)
    requires
        d > 0,
        factor > 0,
    ensures
        d * factor > 0,
        binary64::nearest_bits(n * factor, d * factor) == binary64::nearest_bits(n, d),
{
    let q = binary64::scale(n, d);
    binary64::lemma_scale(n, d);
    let one = pow2(1074);
    lemma_mul_strictly_positive(d as int, factor as int);
    assert(n * factor * one < d * factor * pow2(53 + q)) by (nonlinear_arith)
        requires
            n * one < d * pow2(53 + q),
            factor > 0,
    ;
    if q > 0 {
        assert(d * factor * pow2((52 + q) as nat) <= n * factor * one) by (nonlinear_arith)
            requires
                d * pow2((52 + q) as nat) <= n * one,
                factor > 0,
        ;
    }
    binary64::lemma_scale_unique(n * factor, d * factor, q);
    lemma_pow2_pos(q);
    lemma_mul_strictly_positive(d as int, pow2(q) as int);
    binary64::lemma_half_even_factor(n * one, d * pow2(q), factor);
    assert(n * factor * one == n * one * factor) by (nonlinear_arith);
    assert(d * factor * pow2(q) == d * pow2(q) * factor) by (nonlinear_arith);
}

/// Where nobody seeds the rank counts nobody, and fewer than no leechers count against a torrent as
/// they would count for it; equal ratios rank alike.
pub proof fn law_odd_ratios(leechers: int, seeders: int, more: int, others: int)
    ensures
        seeders <= 0 ==> planner::scaled_ratio(leechers, seeders) == 0,
        planner::scaled_ratio(-leechers, seeders) == -planner::scaled_ratio(leechers, seeders),
        leechers >= 0 && more >= 0 && seeders > 0 && others > 0 && leechers * others == more
            * seeders ==> planner::scaled_ratio(leechers, seeders) == planner::scaled_ratio(
            more,
            others,
        ),
{
    if leechers == 0 && seeders > 0 {
        number_law::law_whole_numbers_are_exact(0);
        lemma_mul_basics_1(seeders);
        law_even_ratios(0, 1);
        law_common_factor(0, 1, seeders as nat);
        assert(planner::scaled_ratio(0, seeders) == planner::scaled_ratio(0, 1));
    }
    if leechers >= 0 && more >= 0 && seeders > 0 && others > 0 && leechers * others == more
        * seeders {
        law_common_factor(leechers as nat, seeders as nat, others as nat);
        law_common_factor(more as nat, others as nat, seeders as nat);
        lemma_mul_is_commutative(seeders, others);
    }
}

/// Where there is a whole number of leechers to each seeder, the rank counts them in thousandths
/// exactly.
pub proof fn law_even_ratios(each: nat, seeders: int)
    requires
        0 < seeders <= i32::MAX,
        each * seeders <= i32::MAX,
    ensures
        planner::scaled_ratio(each * seeders, seeders) == 1000 * each,
{
    let d = seeders as nat;
    let one = pow2(1074);
    assert(each * seeders >= 0 && each <= each * seeders) by (nonlinear_arith)
        requires
            seeders >= 1,
            each >= 0,
    ;
    law_common_factor(each, 1, d);
    lemma_mul_basics_3(d as int);
    number_law::law_whole_numbers_are_exact(each);
    let bits = binary64::nearest_bits(each, 1);
    lemma_pow2_pos(1074);
    assert(each * one * 1000 == (1000 * each) * one) by (nonlinear_arith);
    law_common_factor((1000 * each) as nat, 1, one);
    lemma_mul_basics_3(one as int);
    number_law::law_whole_numbers_are_exact((1000 * each) as nat);
    let product = binary64::nearest_bits((1000 * each) as nat, 1);
    assert(planner::thousandfold(bits) == product);
    let u = (1000 * each) * one;
    lemma2_to64();
    assert(u * pow2(0) == u) by (nonlinear_arith)
        requires
            pow2(0) == 1,
    ;
    lemma_fundamental_div_mod_converse(u as int, one as int, (1000 * each) as int, 0);
    assert(Binary64 { bits: product as u64 }.truncated(0) == 1000 * each);
}

/// The rank counts leechers to a seeder in thousandths, and is off by less than two of them.
pub proof fn law_ratios_in_thousandths(leechers: int, seeders: int)
    requires
        0 <= leechers <= i32::MAX,
        0 < seeders <= i32::MAX,
    ensures
        planner::scaled_ratio(leechers, seeders) * seeders <= 1000 * leechers + seeders,
        1000 * leechers < (planner::scaled_ratio(leechers, seeders) + 2) * seeders,
        planner::scaled_ratio(leechers, seeders) >= 0,
{
    let l = leechers as nat;
    let s = seeders as nat;
    let one = pow2(1074);
    lemma2_to64();
    lemma2_to64_rest();
    lemma_pow2_pos(1074);
    let q = binary64::scale(l, s);
    let bits = binary64::nearest_bits(l, s);
    let u = binary64::units_of(bits);
    assert(l < s * pow2(31)) by (nonlinear_arith)
        requires
            l < pow2(31),
            s > 0,
    ;
    binary64::lemma_scale_bound(l, s, 31);
    binary64::lemma_nearest_value(l, s);
    assert(q * binary64::FRACTION_SPAN as nat <= 1052 * binary64::FRACTION_SPAN as nat);
    assert(bits < INFINITY_BITS);
    binary64::law_nearest_is_close(l, s);
    binary64::lemma_pow2_order(q, 1052);
    lemma_pow2_unfold(1052);
    let e1 = pow2(1051);
    assert(2 * (u * s - l * one) <= s * (2 * e1) && -(s * (2 * e1)) <= 2 * (u * s - l * one))
        by (nonlinear_arith)
        requires
            -(s * pow2(q)) <= 2 * (u * s - l * one) <= s * pow2(q),
            pow2(q) <= 2 * e1,
            s > 0,
    ;
    assert(u * s - l * one <= s * e1 && -(s * e1) <= u * s - l * one) by (nonlinear_arith)
        requires
            2 * (u * s - l * one) <= s * (2 * e1),
            -(s * (2 * e1)) <= 2 * (u * s - l * one),
    ;
    lemma_pow2_adds(1051, 10);
    lemma_pow2_adds(1051, 12);
    lemma_pow2_adds(1063, 11);
    binary64::lemma_pow2_order(1063, 1074);
    binary64::lemma_pow2_order(1051, 1063);
    assert(e1 <= one);
    assert(u < pow2(32) * one) by (nonlinear_arith)
        requires
            u * s - l * one <= s * e1,
            e1 <= one,
            l < pow2(31),
            pow2(31) + 1 < pow2(32),
            s >= 1,
            one > 0,
    ;
    let v_num = u * 1000;
    lemma_pow2_adds(32, 10);
    assert(v_num < one * pow2(42)) by (nonlinear_arith)
        requires
            v_num == u * 1000,
            u < pow2(32) * one,
            pow2(42) == pow2(32) * 1024,
            one > 0,
    ;
    binary64::lemma_scale_bound(v_num, one, 42);
    binary64::lemma_nearest_value(v_num, one);
    let q2 = binary64::scale(v_num, one);
    let product = binary64::nearest_bits(v_num, one);
    assert(q2 * binary64::FRACTION_SPAN as nat <= 1063 * binary64::FRACTION_SPAN as nat);
    assert(product < INFINITY_BITS);
    binary64::law_nearest_is_close(v_num, one);
    let v = binary64::units_of(product);
    binary64::lemma_pow2_order(q2, 1063);
    let e2 = pow2(1063);
    assert(v - v_num <= e2 && -e2 <= v - v_num) by (nonlinear_arith)
        requires
            -(one * pow2(q2)) <= 2 * (v * one - v_num * one) <= one * pow2(q2),
            pow2(q2) <= e2,
            one > 0,
    ;
    let w = v / one;
    lemma_fundamental_div_mod(v as int, one as int);
    assert(v * pow2(0) == v) by (nonlinear_arith)
        requires
            pow2(0) == 1,
    ;
    let rest = v % one;
    assert(v == one * w + rest && 0 <= rest < one);
    assert(w < pow2(43)) by (nonlinear_arith)
        requires
            v == one * w + rest,
            rest >= 0,
            v <= v_num + e2,
            v_num < one * pow2(42),
            e2 <= one,
            pow2(42) + 1 < pow2(43),
            one > 0,
    ;
    let x = Binary64 { bits: product as u64 };
    assert(x.magnitude() == product);
    assert(x.truncated(0) == w);
    assert(planner::scaled_ratio(leechers, seeders) == w);
    // Both roundings together are off by less than one unit of a thousandth.
    assert(1000 * e1 + e2 <= one);
    assert(w * s <= 1000 * l + s) by (nonlinear_arith)
        requires
            v == one * w + rest,
            rest >= 0,
            v <= u * 1000 + e2,
            u * s <= l * one + s * e1,
            1000 * e1 + e2 <= one,
            s > 0,
            one > 0,
    {
        assert(v * s <= (u * 1000 + e2) * s);
        assert((u * 1000 + e2) * s == 1000 * (u * s) + e2 * s);
        assert(1000 * (u * s) <= 1000 * (l * one) + 1000 * (s * e1));
        assert(1000 * (s * e1) + e2 * s == s * (1000 * e1 + e2));
        assert(s * (1000 * e1 + e2) <= s * one);
        assert(v * s <= (1000 * l + s) * one);
        assert(one * (w * s) <= v * s);
    }
    assert(1000 * l < (w + 2) * s) by (nonlinear_arith)
        requires
            v == one * w + rest,
            rest < one,
            v >= u * 1000 - e2,
            u * s >= l * one - s * e1,
            1000 * e1 + e2 <= one,
            s > 0,
            one > 0,
    {
        assert(v * s >= (u * 1000 - e2) * s);
        assert((u * 1000 - e2) * s == 1000 * (u * s) - e2 * s);
        assert(1000 * (u * s) >= 1000 * (l * one) - 1000 * (s * e1));
        assert(1000 * (s * e1) + e2 * s == s * (1000 * e1 + e2));
        assert(s * (1000 * e1 + e2) <= s * one);
        assert(v * s >= 1000 * l * one - s * one);
        assert(v < one * (w + 1));
        assert(v * s < one * (w + 1) * s);
        assert(one * (1000 * l) < one * ((w + 2) * s));
    }
}

/// The promotions, the most wanted first.
pub open spec fn promotions() -> Seq<Seq<char>> {
    seq!["免费&2x上传"@, "免费"@, "50%下载&2x上传"@, "50%下载"@, "30%下载"@]
}

/// Two promotions rank alike: they are the same, or neither is one that ranks.
pub open spec fn alike(a: Seq<char>, b: Seq<char>) -> bool {
    a == b || !promotions().contains(a) && !promotions().contains(b)
}

proof fn lemma_alike(a: Seq<char>, b: Seq<char>)
    requires
        alike(a, b),
    ensures
        planner::tag_rank(a) == planner::tag_rank(b),
{
    let all = promotions();
    assert(all[0] == "免费&2x上传"@ && all[1] == "免费"@ && all[2] == "50%下载&2x上传"@ && all[3]
        == "50%下载"@ && all[4] == "30%下载"@);
    assert(all.contains(all[0]) && all.contains(all[1]) && all.contains(all[2]) && all.contains(
        all[3],
    ) && all.contains(all[4]));
}

proof fn lemma_promotions(k: int)
    requires
        0 <= k < 5,
    ensures
        planner::tag_rank(promotions()[k]) == k,
{
    reveal_strlit("免费&2x上传");
    reveal_strlit("免费");
    reveal_strlit("50%下载&2x上传");
    reveal_strlit("50%下载");
    reveal_strlit("30%下载");
    assert("免费&2x上传"@.len() == 7);
    assert("免费"@.len() == 2);
    assert("50%下载&2x上传"@.len() == 10);
    assert("50%下载"@.len() == 5);
    assert("50%下载"@[0] == '5');
    assert("30%下载"@[0] == '3');
    let all = promotions();
    assert(all[0] == "免费&2x上传"@ && all[1] == "免费"@ && all[2] == "50%下载&2x上传"@ && all[3]
        == "50%下载"@ && all[4] == "30%下载"@);
}

/// The order in which torrents are wanted. No torrent of a better promotion stands behind one of a
/// worse, and none of a promotion that ranks behind one of any other. Of promotions that rank alike,
/// none stands behind another whose leechers to a seeder are fewer by more than three thousandths.
/// Where these are equal too, none stands behind a smaller one; and where the sizes are the same,
/// none behind one with fewer leechers.
pub proof fn law_ranking(torrents: Seq<TorrentInfo>, i: int, j: int)
    requires
        torrents.len() <= usize::MAX,
        0 <= i < j < torrents.len(),
    ensures
        ({
            let a = planner::by_priority(torrents)[i];
            let b = planner::by_priority(torrents)[j];
            let known = a.seeders > 0 && b.seeders > 0 && a.leechers >= 0 && b.leechers >= 0;
            let even = known && a.leechers * b.seeders == b.leechers * a.seeders || a.seeders <= 0
                && b.seeders <= 0;
            &&& forall|k: int|
                0 <= k < 5 && b.tag@ == #[trigger] promotions()[k] ==> exists|m: int|
                    0 <= m <= k && a.tag@ == #[trigger] promotions()[m]
            &&& alike(a.tag@, b.tag@) && known ==> 1000 * b.leechers * a.seeders <= 1000
                * a.leechers * b.seeders + 3 * a.seeders * b.seeders
            &&& alike(a.tag@, b.tag@) && even && a.size_bytes is Some && b.size_bytes is Some
                && a.size_bytes->0 <= 0x8000_0000_0000_0000 && b.size_bytes->0
                <= 0x8000_0000_0000_0000 ==> a.size_bytes->0 >= b.size_bytes->0
            &&& alike(a.tag@, b.tag@) && even && a.size_bytes is None && (b.size_bytes matches Some(
                size,
            ) ==> size <= 0x8000_0000_0000_0000) ==> b.size_bytes is None || b.size_bytes->0 == 0
            &&& alike(a.tag@, b.tag@) && even && a.size_bytes == b.size_bytes && a.leechers
                > i32::MIN && b.leechers > i32::MIN ==> a.leechers >= b.leechers
        }),
{
    planner::law_most_wanted_first(torrents, i, j);
    let a = planner::by_priority(torrents)[i];
    let b = planner::by_priority(torrents)[j];
    let ka = planner::priority(a);
    let kb = planner::priority(b);
    sorting::law_keys_compare_in_order(kb, ka);
    assert(planner::tag_rank(a.tag@) <= planner::tag_rank(b.tag@));
    assert forall|k: int| 0 <= k < 5 && b.tag@ == #[trigger] promotions()[k] implies exists|m: int|
        0 <= m <= k && a.tag@ == #[trigger] promotions()[m] by {
        lemma_promotions(k);
        let m = planner::tag_rank(a.tag@);
        assert(0 <= m <= k);
        assert(a.tag@ == promotions()[m]);
    }
    if alike(a.tag@, b.tag@) {
        lemma_alike(a.tag@, b.tag@);
    }
    law_odd_ratios(
        a.leechers as int,
        a.seeders as int,
        b.leechers as int,
        b.seeders as int,
    );
    law_odd_ratios(
        b.leechers as int,
        b.seeders as int,
        a.leechers as int,
        a.seeders as int,
    );
    if alike(a.tag@, b.tag@) && a.seeders > 0 && b.seeders > 0 && a.leechers >= 0 && b.leechers
        >= 0 {
        let ra = planner::scaled_ratio(a.leechers as int, a.seeders as int);
        let rb = planner::scaled_ratio(b.leechers as int, b.seeders as int);
        law_ratios_in_thousandths(a.leechers as int, a.seeders as int);
        law_ratios_in_thousandths(b.leechers as int, b.seeders as int);
        lemma_ratio_small(a.leechers as int, a.seeders as int);
        lemma_ratio_small(b.leechers as int, b.seeders as int);
        assert(rb <= ra);
        let la = a.leechers as int;
        let lb = b.leechers as int;
        let sa = a.seeders as int;
        let sb = b.seeders as int;
        assert(1000 * lb * sa <= 1000 * la * sb + 3 * sa * sb) by (nonlinear_arith)
            requires
                ra * sa <= 1000 * la + sa,
                1000 * lb < (rb + 2) * sb,
                rb <= ra,
                sa > 0,
                sb > 0,
        {
            assert(1000 * lb * sa <= (rb + 2) * sb * sa);
            assert((rb + 2) * sb * sa <= (ra + 2) * sb * sa);
            assert((ra + 2) * sb * sa == (ra * sa) * sb + 2 * sb * sa);
            assert((ra * sa) * sb <= (1000 * la + sa) * sb);
        }
    }
}

proof fn lemma_ratio_small(leechers: int, seeders: int)
    requires
        0 <= leechers <= i32::MAX,
        0 < seeders <= i32::MAX,
    ensures
        0 <= planner::scaled_ratio(leechers, seeders) <= 0x7fff_ffff_ffff_ffff,
{
    law_ratios_in_thousandths(leechers, seeders);
}

/// Torrents that are wanted alike keep the order of the list.
pub proof fn law_ranking_is_stable(torrents: Seq<TorrentInfo>, i: int, j: int)
    requires
        torrents.len() <= usize::MAX,
        0 <= i < j < torrents.len(),
    ensures
        ({
            let places = sorting::stable_order(planner::priorities(torrents));
            let a = planner::by_priority(torrents)[i];
            let b = planner::by_priority(torrents)[j];
            &&& places[i] < torrents.len() && places[j] < torrents.len() && places[i] != places[j]
            &&& a == torrents[places[i] as int] && b == torrents[places[j] as int]
            &&& a.tag@ == b.tag@ && a.leechers == b.leechers && a.seeders == b.seeders
                && a.size_bytes == b.size_bytes ==> places[i] < places[j]
        }),
{
    let keys = planner::priorities(torrents);
    sorting::law_stable_order_exists(keys);
    let order = sorting::stable_order(keys);
    assert(sorting::comes_first(keys, order[i], order[j]));
    sorting::law_keys_compare_in_order(keys[order[i] as int], keys[order[j] as int]);
}

} // verus!
