//! Which torrents are worth downloading, and in which order.

use crate::binary64;
use crate::binary64::{Binary64, INFINITY_BITS};
use crate::config;
use crate::config::FormView;
use crate::decimal;
use crate::models::{PlannerConfig, TorrentInfo};
use crate::natural::Natural;
use crate::sorting;
use crate::sorting::SortKey;
use crate::text;
use vstd::arithmetic::div_mod::*;
use vstd::arithmetic::power2::*;
use vstd::prelude::*;
use vstd::slice::*;
use vstd::utf8::*;

verus! {

const KIB: u64 = 1024;

const MIB: u64 = KIB * 1024;

const GIB: u64 = MIB * 1024;

/// The Latin capital for a small letter, any other character as it is.
pub open spec fn upper_char(c: char) -> char {
    if 'a' <= c && c <= 'z' {
        (c as u8 - 32) as char
    } else {
        c
    }
}

/// `str::to_uppercase`: a text in capitals, by the rules of Unicode.
pub uninterp spec fn uppercase(s: Seq<char>) -> Seq<char>;

/// `str::to_uppercase` depends on the text alone. It maps the letters `a` to `z` to their capitals
/// and leaves other ASCII characters as they are; what it makes of further characters is not
/// stated.
pub assume_specification[ str::to_uppercase ](s: &str) -> (r: String)
    ensures
        r@ == uppercase(s@),
        is_ascii_chars(s@) ==> r@ == s@.map_values(|c: char| upper_char(c)),
;

/// The budget that the text of the setting gives: a number of GiB above zero, in bytes.
pub open spec fn budget_bytes(setting: Option<Seq<char>>) -> Option<u64> {
    match setting {
        None => None,
        Some(s) => match decimal::number(s) {
            Some(number) => if number.above_zero() {
                Some(number.truncated(30) as u64)
            } else {
                None
            },
            None => None,
        },
    }
}

/// The limits for a download: five GiB stay free, and `budget` is the value of the variable
/// `DOWNLOAD_BUDGET_GB` of the process environment.
pub fn default_planner_config(budget: Option<&str>) -> (r: PlannerConfig)
    ensures
        r.min_free_space_bytes == 5 * 1024 * 1024 * 1024,
        r.download_budget_bytes == budget_bytes(
            match budget {
                Some(s) => Some(s@),
                None => None,
            },
        ),
{
    let limit: Option<u64> = match budget {
        None => None,
        Some(s) => match decimal::read_number(text::chars(s).as_slice()) {
            None => None,
            Some(number) => if number.is_above_zero() {
                Some(number.truncate(30))
            } else {
                None
            },
        },
    };
    PlannerConfig { min_free_space_bytes: 5 * GIB, download_budget_bytes: limit }
}

/// A budget that the configuration accepts is in force: where it is not blank and a number at all,
/// the planner gets it, in bytes.
pub proof fn law_accepted_budget_in_force(form: FormView)
    requires
        config::form_error(form) is None,
        !text::is_blank(form.download_budget_gb),
        !(decimal::number(text::trim(form.download_budget_gb))->0).is_nan(),
    ensures
        budget_bytes(Some(text::trim(form.download_budget_gb))) == Some(
            (decimal::number(text::trim(form.download_budget_gb))->0).truncated(30) as u64,
        ),
{
}

/// `s` ends in `suffix`.
pub open spec fn ends_with(s: Seq<char>, suffix: Seq<char>) -> bool {
    s.len() >= suffix.len() && s.skip(s.len() - suffix.len()) == suffix
}

/// The unit that a size in capitals ends in, as a power of two.
pub open spec fn unit_shift(s: Seq<char>) -> Option<nat> {
    if ends_with(s, seq!['T', 'I', 'B']) {
        Some(40)
    } else if ends_with(s, seq!['G', 'I', 'B']) {
        Some(30)
    } else if ends_with(s, seq!['M', 'I', 'B']) {
        Some(20)
    } else if ends_with(s, seq!['K', 'I', 'B']) {
        Some(10)
    } else {
        None
    }
}

/// The bytes of a size in capitals, without spaces.
pub open spec fn bytes_of_size(s: Seq<char>) -> Option<u64> {
    match unit_shift(s) {
        None => None,
        Some(shift) => match decimal::number(s.take(s.len() - 3)) {
            Some(number) => Some(number.truncated(shift) as u64),
            None => None,
        },
    }
}

/// Whether `s` ends in `suffix`.
fn has_suffix(s: &[char], suffix: &[char]) -> (r: bool)
    ensures
        r == ends_with(s@, suffix@),
{
    if s.len() < suffix.len() {
        return false;
    }
    text::same(slice_subrange(s, s.len() - suffix.len(), s.len()), suffix)
}

/// The bytes of a size in capitals, without spaces.
pub fn size_in_bytes(s: &[char]) -> (r: Option<u64>)
    ensures
        r == bytes_of_size(s@),
{
    let tib: [char; 3] = ['T', 'I', 'B'];
    let gib: [char; 3] = ['G', 'I', 'B'];
    let mib: [char; 3] = ['M', 'I', 'B'];
    let kib: [char; 3] = ['K', 'I', 'B'];
    assert(tib@ =~= seq!['T', 'I', 'B']);
    assert(gib@ =~= seq!['G', 'I', 'B']);
    assert(mib@ =~= seq!['M', 'I', 'B']);
    assert(kib@ =~= seq!['K', 'I', 'B']);
    let shift: u32 = if has_suffix(s, &tib) {
        40
    } else if has_suffix(s, &gib) {
        30
    } else if has_suffix(s, &mib) {
        20
    } else if has_suffix(s, &kib) {
        10
    } else {
        return None;
    };
    match decimal::read_number(slice_subrange(s, 0, s.len() - 3)) {
        None => None,
        Some(number) => Some(number.truncate(shift)),
    }
}

/// The bytes of a size as the list writes it.
pub open spec fn listed_size(size_text: Seq<char>) -> Option<u64> {
    bytes_of_size(uppercase(text::replace(size_text, seq![' '], Seq::empty())))
}

/// The bytes of a size such as `1.5 GiB`, without the fraction of a byte.
pub fn parse_size_to_bytes(size_text: &str) -> (r: Option<u64>)
    ensures
        r == listed_size(size_text@),
        is_ascii_chars(size_text@) ==> r == bytes_of_size(
            text::replace(size_text@, seq![' '], Seq::empty()).map_values(
                |c: char| upper_char(c),
            ),
        ),
{
    let space: [char; 1] = [' '];
    let nothing: [char; 0] = [];
    assert(space@ =~= seq![' ']);
    assert(nothing@ =~= Seq::<char>::empty());
    let dense = text::string(
        text::replaced(text::chars(size_text).as_slice(), &space, &nothing).as_slice(),
    );
    proof {
        if is_ascii_chars(size_text@) {
            lemma_dense_ascii(size_text@);
        }
    }
    let normalized = dense.as_str().to_uppercase();
    size_in_bytes(text::chars(normalized.as_str()).as_slice())
}

proof fn lemma_dense_ascii(s: Seq<char>)
    requires
        is_ascii_chars(s),
    ensures
        is_ascii_chars(text::replace(s, seq![' '], Seq::empty())),
    decreases s.len(),
{
    let dense = text::replace(s, seq![' '], Seq::empty());
    if s.len() > 0 {
        assert(is_ascii_chars(s.drop_first()));
        assert(is_ascii_chars(s.skip(1)));
        lemma_dense_ascii(s.drop_first());
        assert(s.skip(1) =~= s.drop_first());
        if text::occurs_at(s, seq![' '], 0) {
            assert(dense =~= text::replace(s.drop_first(), seq![' '], Seq::empty()));
        } else {
            let rest = text::replace(s.drop_first(), seq![' '], Seq::empty());
            assert(dense =~= seq![s[0]] + rest);
            assert forall|i: int| 0 <= i < dense.len() implies '\0' <= #[trigger] dense[i]
                <= '\u{7f}' by {
                if i > 0 {
                    assert(dense[i] == rest[i - 1]);
                }
            }
        }
    }
}

/// `leechers / seeders`, as double-precision division gives it, for numbers that are not negative.
pub open spec fn peer_ratio(leechers: int, seeders: int) -> Binary64 {
    Binary64 { bits: binary64::nearest_bits(leechers as nat, seeders as nat) as u64 }
}

/// Rounding does not blur the threshold: the ratio is below twenty where there are fewer than
/// twenty leechers to each seeder, and only there.
pub proof fn law_ratio_threshold(leechers: int, seeders: int)
    requires
        0 <= leechers <= i32::MAX,
        0 < seeders <= i32::MAX,
    ensures
        peer_ratio(leechers, seeders).below(20) <==> leechers < 20 * seeders,
{
    let l = leechers as nat;
    let s = seeders as nat;
    let q = binary64::scale(l, s);
    let one = pow2(1074);
    let bits = binary64::nearest_bits(l, s);
    let u = binary64::units_of(bits);
    let m = binary64::half_even(l * one, s * pow2(q));
    lemma2_to64();
    lemma2_to64_rest();
    assert(l < s * pow2(31)) by (nonlinear_arith)
        requires
            l < pow2(31),
            s > 0,
    ;
    binary64::lemma_scale_bound(l, s, 31);
    binary64::lemma_nearest_value(l, s);
    assert(q * binary64::FRACTION_SPAN as nat <= 1052 * binary64::FRACTION_SPAN as nat);
    assert(bits < INFINITY_BITS);
    assert(u == m * pow2(q));
    lemma_pow2_pos(q);
    lemma_pow2_pos(1074);
    if l < 20 * s {
        assert(l < s * pow2(5)) by (nonlinear_arith)
            requires
                l < 20 * s,
                pow2(5) == 32,
        ;
        binary64::lemma_scale_bound(l, s, 5);
        binary64::law_nearest_is_close(l, s);
        binary64::lemma_pow2_order(q, 1026);
        lemma_pow2_adds(31, 1026);
        lemma_pow2_strictly_increases(1057, 1074);
        assert(s * pow2(q) < one) by (nonlinear_arith)
            requires
                s < pow2(31),
                pow2(q) <= pow2(1026),
                pow2(1057) == pow2(31) * pow2(1026),
                pow2(1057) < one,
                s > 0,
        ;
        assert(u < 20 * one) by (nonlinear_arith)
            requires
                2 * (u * s - l * one) <= s * pow2(q),
                s * pow2(q) < one,
                l + 1 <= 20 * s,
                s > 0,
                one > 0,
        ;
    } else {
        let n = 20 * pow2((1074 - q) as nat);
        lemma_pow2_adds((1074 - q) as nat, q);
        let a = l * one;
        let b = s * pow2(q);
        assert(n * b <= a && b > 0) by (nonlinear_arith)
            requires
                n == 20 * pow2((1074 - q) as nat),
                one == pow2((1074 - q) as nat) * pow2(q),
                b == s * pow2(q),
                a == l * one,
                l >= 20 * s,
                pow2(q) > 0,
                s > 0,
        ;
        lemma_fundamental_div_mod(a as int, b as int);
        let quotient = a / b;
        let rest = a % b;
        assert(quotient >= n) by (nonlinear_arith)
            requires
                n * b <= a,
                a == b * quotient + rest,
                rest < b,
                b > 0,
        ;
        assert(u >= 20 * one) by (nonlinear_arith)
            requires
                u == m * pow2(q),
                m >= n,
                n == 20 * pow2((1074 - q) as nat),
                one == pow2((1074 - q) as nat) * pow2(q),
                pow2(q) > 0,
        ;
    }
}

/// Somebody seeds, and the number of leechers is known.
pub open spec fn has_peers(torrent: TorrentInfo) -> bool {
    torrent.seeders > 0 && torrent.leechers >= 0
}

/// The number of GiB that a size states; zero where it states none.
pub open spec fn gib_number(size_text: Seq<char>) -> Binary64 {
    match decimal::number(
        text::trim(text::replace(size_text, seq!['G', 'i', 'B'], Seq::empty())),
    ) {
        Some(number) => number,
        None => Binary64 { bits: 0 },
    }
}

/// Worth choosing from a long list: twenty leechers or more to each seeder, and twenty GiB or more.
pub open spec fn is_in_demand(torrent: TorrentInfo) -> bool {
    &&& text::contains(torrent.size_text@, seq!['G', 'i', 'B'])
    &&& has_peers(torrent)
    &&& !peer_ratio(torrent.leechers as int, torrent.seeders as int).below(20)
    &&& !gib_number(torrent.size_text@).below(20)
}

/// The torrents worth considering: of twenty or more the ones in demand, of fewer all that have
/// peers.
pub open spec fn appropriate(torrents: Seq<TorrentInfo>) -> Seq<TorrentInfo> {
    if torrents.len() >= 20 {
        torrents.filter(|torrent: TorrentInfo| is_in_demand(torrent))
    } else {
        torrents.filter(|torrent: TorrentInfo| has_peers(torrent))
    }
}

/// The quotient of two whole numbers.
fn quotient(num: u32, den: u32) -> (r: u64)
    requires
        den > 0,
    ensures
        r == binary64::nearest_bits(num as nat, den as nat),
        r <= INFINITY_BITS,
{
    binary64::nearest(&Natural::new(num), &Natural::new(den))
}

/// The number of GiB that a size states.
fn gib_of(size: &[char]) -> (r: Binary64)
    ensures
        r == gib_number(size@),
{
    let unit: [char; 3] = ['G', 'i', 'B'];
    let nothing: [char; 0] = [];
    assert(unit@ =~= seq!['G', 'i', 'B']);
    assert(nothing@ =~= Seq::<char>::empty());
    let bare = text::replaced(size, &unit, &nothing);
    match decimal::read_number(text::trimmed(bare.as_slice())) {
        Some(number) => number,
        None => Binary64 { bits: 0 },
    }
}

fn mentions_gib(size: &[char]) -> (r: bool)
    ensures
        r == text::contains(size@, seq!['G', 'i', 'B']),
{
    let unit: [char; 3] = ['G', 'i', 'B'];
    assert(unit@ =~= seq!['G', 'i', 'B']);
    text::position(size, &unit).is_some()
}

fn in_demand(torrent: &TorrentInfo) -> (r: bool)
    ensures
        r == is_in_demand(*torrent),
{
    let size = text::chars(torrent.size_text.as_str());
    if !mentions_gib(size.as_slice()) {
        return false;
    }
    if torrent.seeders <= 0 || torrent.leechers < 0 {
        return false;
    }
    let ratio = Binary64 { bits: quotient(torrent.leechers as u32, torrent.seeders as u32) };
    if ratio.is_below(20) {
        return false;
    }
    !gib_of(size.as_slice()).is_below(20)
}

/// The torrents worth considering, in the order of the list.
pub fn find_appropriate_torrents(torrents: &[TorrentInfo]) -> (r: Vec<TorrentInfo>)
    ensures
        r@ == appropriate(torrents@),
{
    let long: bool = torrents.len() >= 20;
    let mut out: Vec<TorrentInfo> = Vec::new();
    let mut i: usize = 0;
    let ghost wanted = |torrent: TorrentInfo|
        if long {
            is_in_demand(torrent)
        } else {
            has_peers(torrent)
        };
    proof {
        reveal(Seq::filter);
    }
    assert(out@ =~= torrents@.take(0).filter(wanted));
    while i < torrents.len()
        invariant
            i <= torrents@.len(),
            wanted == (|torrent: TorrentInfo|
                if long {
                    is_in_demand(torrent)
                } else {
                    has_peers(torrent)
                }),
            out@ == torrents@.take(i as int).filter(wanted),
        decreases torrents@.len() - i,
    {
        proof {
            reveal(Seq::filter);
            assert(torrents@.take(i + 1).drop_last() =~= torrents@.take(i as int));
        }
        let keep: bool = if long {
            in_demand(&torrents[i])
        } else {
            torrents[i].seeders > 0 && torrents[i].leechers >= 0
        };
        if keep {
            out.push(torrents[i].clone());
        }
        i = i + 1;
    }
    proof {
        assert(torrents@.take(torrents@.len() as int) =~= torrents@);
        if long {
            assert(wanted =~= (|torrent: TorrentInfo| is_in_demand(torrent)));
        } else {
            assert(wanted =~= (|torrent: TorrentInfo| has_peers(torrent)));
        }
    }
    out
}

/// The rank of a promotion: the less of a download is counted, the earlier.
pub open spec fn tag_rank(tag: Seq<char>) -> int {
    if tag == "免费&2x上传"@ {
        0
    } else if tag == "免费"@ {
        1
    } else if tag == "50%下载&2x上传"@ {
        2
    } else if tag == "50%下载"@ {
        3
    } else if tag == "30%下载"@ {
        4
    } else {
        5
    }
}

/// A thousand times a number that is not negative, as double-precision multiplication gives it.
pub open spec fn thousandfold(bits: nat) -> nat {
    if bits < INFINITY_BITS {
        binary64::nearest_bits(binary64::units_of(bits) * 1000, pow2(1074))
    } else {
        INFINITY_BITS as nat
    }
}

/// The thousandfold of `leechers / seeders` without its fraction, zero where nobody seeds.
pub open spec fn scaled_ratio(leechers: int, seeders: int) -> int {
    if seeders <= 0 {
        0
    } else {
        let magnitude = if leechers < 0 {
            -leechers
        } else {
            leechers
        };
        let product = thousandfold(
            binary64::nearest_bits(magnitude as nat, seeders as nat),
        );
        let whole = Binary64 { bits: product as u64 }.truncated(0);
        let held = if whole <= i64::MAX {
            whole as int
        } else {
            i64::MAX as int
        };
        if leechers < 0 {
            -held
        } else {
            held
        }
    }
}

/// The size, taken as a signed 64-bit number and negated, both by wrapping around.
pub open spec fn negated_size(size: u64) -> int {
    if size <= 0x8000_0000_0000_0000 {
        -size
    } else {
        0x1_0000_0000_0000_0000 - size
    }
}

/// What a torrent is ranked by: its promotion, then the most leechers to a seeder, then the
/// largest size, then the most leechers.
pub open spec fn priority(torrent: TorrentInfo) -> SortKey {
    SortKey {
        first: tag_rank(torrent.tag@) as i128,
        second: -scaled_ratio(torrent.leechers as int, torrent.seeders as int) as i128,
        third: negated_size(
            match torrent.size_bytes {
                Some(size) => size,
                None => 0,
            },
        ) as i128,
        fourth: (if torrent.leechers == i32::MIN {
            torrent.leechers as int
        } else {
            -torrent.leechers
        }) as i128,
        fifth: 0,
    }
}

/// What some torrents are ranked by.
pub open spec fn priorities(torrents: Seq<TorrentInfo>) -> Seq<SortKey> {
    torrents.map_values(|torrent: TorrentInfo| priority(torrent))
}

/// The torrents by their rank, equal ones in the order of the list.
pub open spec fn by_priority(torrents: Seq<TorrentInfo>) -> Seq<TorrentInfo> {
    sorting::arranged(torrents, sorting::stable_order(priorities(torrents)))
}

/// No torrent stands before one that is wanted more.
pub proof fn law_most_wanted_first(torrents: Seq<TorrentInfo>, i: int, j: int)
    requires
        torrents.len() <= usize::MAX,
        0 <= i < j < torrents.len(),
    ensures
        by_priority(torrents).len() == torrents.len(),
        !priority(by_priority(torrents)[j]).precedes(priority(by_priority(torrents)[i])),
{
    let keys = priorities(torrents);
    sorting::law_stable_order_exists(keys);
    let order = sorting::stable_order(keys);
    assert(sorting::comes_first(keys, order[i], order[j]));
}

fn rank_of_tag(tag: &str) -> (r: i128)
    ensures
        r == tag_rank(tag@),
{
    if text::same_text(tag, "免费&2x上传") {
        0
    } else if text::same_text(tag, "免费") {
        1
    } else if text::same_text(tag, "50%下载&2x上传") {
        2
    } else if text::same_text(tag, "50%下载") {
        3
    } else if text::same_text(tag, "30%下载") {
        4
    } else {
        5
    }
}

fn ratio_of(leechers: i32, seeders: i32) -> (r: i128)
    ensures
        r == scaled_ratio(leechers as int, seeders as int),
        -0x8000_0000_0000_0000 <= r <= 0x7fff_ffff_ffff_ffff,
{
    if seeders <= 0 {
        return 0;
    }
    let magnitude: u32 = if leechers < 0 {
        (-(leechers as i64)) as u32
    } else {
        leechers as u32
    };
    let ratio: u64 = quotient(magnitude, seeders as u32);
    let product: u64 = if ratio < INFINITY_BITS {
        let one = Natural::new(1);
        let unit = binary64::shifted(&one, 1074);
        proof {
            lemma_pow2_pos(1074);
        }
        binary64::nearest(&binary64::units(ratio).times_plus(1000, 0), &unit)
    } else {
        INFINITY_BITS
    };
    let whole: u64 = Binary64 { bits: product }.truncate(0);
    let held: i128 = if whole <= 0x7fff_ffff_ffff_ffff {
        whole as i128
    } else {
        0x7fff_ffff_ffff_ffff
    };
    if leechers < 0 {
        -held
    } else {
        held
    }
}

/// What a torrent is ranked by.
pub fn priority_key(torrent: &TorrentInfo) -> (r: SortKey)
    ensures
        r == priority(*torrent),
{
    let size: u64 = match torrent.size_bytes {
        Some(size) => size,
        None => 0,
    };
    SortKey {
        first: rank_of_tag(torrent.tag.as_str()),
        second: -ratio_of(torrent.leechers, torrent.seeders),
        third: if size <= 0x8000_0000_0000_0000 {
            -(size as i128)
        } else {
            0x1_0000_0000_0000_0000i128 - size as i128
        },
        fourth: if torrent.leechers == i32::MIN {
            torrent.leechers as i128
        } else {
            -(torrent.leechers as i128)
        },
        fifth: 0,
    }
}

/// The torrents by their rank.
pub fn sort_torrents_by_priority(torrents: &[TorrentInfo]) -> (r: Vec<TorrentInfo>)
    ensures
        r@ == by_priority(torrents@),
{
    let mut keys: Vec<SortKey> = Vec::new();
    let mut i: usize = 0;
    while i < torrents.len()
        invariant
            i <= torrents@.len(),
            keys@ == priorities(torrents@.take(i as int)),
        decreases torrents@.len() - i,
    {
        let key = priority_key(&torrents[i]);
        keys.push(key);
        assert(priorities(torrents@.take(i + 1)) =~= priorities(torrents@.take(i as int)).push(key));
        i = i + 1;
    }
    assert(torrents@.take(torrents@.len() as int) =~= torrents@);
    let order = sorting::sort_order(keys.as_slice());
    let mut sorted: Vec<TorrentInfo> = Vec::new();
    let mut k: usize = 0;
    while k < order.len()
        invariant
            k <= order@.len(),
            sorting::is_stable_order(keys@, order@),
            keys@.len() == torrents@.len(),
            sorted@ == sorting::arranged(torrents@, order@.take(k as int)),
        decreases order@.len() - k,
    {
        sorted.push(torrents[order[k]].clone());
        assert(sorting::arranged(torrents@, order@.take(k + 1)) =~= sorting::arranged(
            torrents@,
            order@.take(k as int),
        ).push(torrents@[order@[k as int] as int]));
        k = k + 1;
    }
    assert(order@.take(order@.len() as int) =~= order@);
    sorted
}

} // verus!
