//! What numbers that are read from text come to: budgets, sizes and ratios.

use crate::binary64;
use crate::binary64::{Binary64, INFINITY_BITS};
use crate::config;
use crate::config::ConfigError;
use crate::decimal;
use crate::planner;
use crate::rotation_law;
use crate::text;
use crate::text_law;
use vstd::arithmetic::div_mod::*;
use vstd::arithmetic::mul::*;
use vstd::arithmetic::power::*;
use vstd::arithmetic::power2::*;
use vstd::prelude::*;

verus! {

/// A whole number of fewer than fifty-four binary digits is kept exactly.
pub proof fn law_whole_numbers_are_exact(n: nat)
    requires
        n < 0x20_0000_0000_0000,
    ensures
        binary64::nearest_bits(n, 1) < INFINITY_BITS,
        binary64::units_of(binary64::nearest_bits(n, 1)) == n * pow2(1074),
{
    lemma2_to64_rest();
    lemma_mul_basics_3(pow2(53) as int);
    binary64::lemma_scale_bound(n, 1, 53);
    binary64::lemma_nearest_value(n, 1);
    let q = binary64::scale(n, 1);
    let a = n * pow2(1074);
    let b = 1 * pow2(q);
    lemma_pow2_pos(q);
    lemma_pow2_adds((1074 - q) as nat, q);
    let m = n * pow2((1074 - q) as nat);
    assert(a == m * b) by (nonlinear_arith)
        requires
            a == n * pow2(1074),
            b == 1 * pow2(q),
            m == n * pow2((1074 - q) as nat),
            pow2(1074) == pow2((1074 - q) as nat) * pow2(q),
    ;
    lemma_fundamental_div_mod_converse(a as int, b as int, m as int, 0);
    assert(binary64::half_even(a, b) == m);
    assert(q * binary64::FRACTION_SPAN as nat <= 1074 * binary64::FRACTION_SPAN as nat);
}

proof fn lemma_all_run(s: Seq<char>, rest: Seq<char>)
    requires
        decimal::all_digits(s),
        rest.len() > 0 ==> !decimal::is_digit(rest[0]),
    ensures
        decimal::digit_run(s + rest) == s.len(),
    decreases s.len(),
{
    let all = s + rest;
    if s.len() == 0 {
        assert(all =~= rest);
    } else {
        assert(all[0] == s[0]);
        assert(decimal::all_digits(s.drop_first())) by {
            assert forall|i: int| 0 <= i < s.drop_first().len() implies decimal::is_digit(
                #[trigger] s.drop_first()[i],
            ) by {
                assert(decimal::is_digit(s[i + 1]));
            }
        }
        assert(all.drop_first() =~= s.drop_first() + rest);
        lemma_all_run(s.drop_first(), rest);
    }
}

proof fn lemma_no_word(s: Seq<char>)
    requires
        s.len() > 0,
        decimal::is_digit(s[0]),
    ensures
        decimal::signed(s) == (false, s),
        !decimal::spells(s, seq!['i', 'n', 'f']),
        !decimal::spells(s, seq!['i', 'n', 'f', 'i', 'n', 'i', 't', 'y']),
        !decimal::spells(s, seq!['n', 'a', 'n']),
{
    let i3 = seq!['i', 'n', 'f'];
    let i8 = seq!['i', 'n', 'f', 'i', 'n', 'i', 't', 'y'];
    let n3 = seq!['n', 'a', 'n'];
    assert(i3[0] == 'i' && i8[0] == 'i' && n3[0] == 'n');
    assert(!decimal::is_letter(s[0], i3[0]));
    assert(!decimal::is_letter(s[0], i8[0]));
    assert(!decimal::is_letter(s[0], n3[0]));
}

/// Digits alone are read as the whole number that they write.
pub proof fn law_digits_are_read(s: Seq<char>)
    requires
        s.len() > 0,
        forall|i: int| 0 <= i < s.len() ==> '0' <= #[trigger] s[i] <= '9',
    ensures
        decimal::number(s) == Some(
            Binary64 { bits: binary64::nearest_bits(decimal::digits_value(s), 1) as u64 },
        ),
{
    let none = Seq::<char>::empty();
    assert(decimal::all_digits(s));
    lemma_no_word(s);
    assert(s + none =~= s);
    lemma_all_run(s, none);
    assert(s.skip(s.len() as int) =~= none);
    assert(none.skip(0) =~= none);
    assert(s.take(s.len() as int) + none.take(0) =~= s);
    lemma_pow0(10);
    lemma_mul_basics_3(decimal::digits_value(s) as int);
}

/// Digits around a point are read as the number nearest to the fraction that they write.
pub proof fn law_fractions_are_read(a: Seq<char>, b: Seq<char>)
    requires
        a.len() > 0,
        b.len() > 0,
        forall|i: int| 0 <= i < a.len() ==> '0' <= #[trigger] a[i] <= '9',
        forall|i: int| 0 <= i < b.len() ==> '0' <= #[trigger] b[i] <= '9',
    ensures
        decimal::number(a + seq!['.'] + b) == Some(
            Binary64 {
                bits: binary64::nearest_bits(
                    decimal::digits_value(a + b),
                    pow(10, b.len()) as nat,
                ) as u64,
            },
        ),
{
    let s = a + seq!['.'] + b;
    let none = Seq::<char>::empty();
    assert(decimal::all_digits(a));
    assert(decimal::all_digits(b));
    assert(s[0] == a[0]);
    lemma_no_word(s);
    let rest = seq!['.'] + b;
    assert(s =~= a + rest);
    lemma_all_run(a, rest);
    assert(s.skip(a.len() as int) =~= rest);
    assert(rest.skip(1) =~= b);
    assert(b + none =~= b);
    lemma_all_run(b, none);
    assert(b.skip(b.len() as int) =~= none);
    assert(s.take(a.len() as int) =~= a);
    assert(b.take(b.len() as int) =~= b);
}

proof fn lemma_truncated(n: nat, shift: nat)
    requires
        n < 0x20_0000_0000_0000,
    ensures
        ({
            let x = Binary64 { bits: binary64::nearest_bits(n, 1) as u64 };
            let whole = n * pow2(shift);
            &&& !x.is_nan()
            &&& !x.is_negative()
            &&& !x.is_infinite()
            &&& x.magnitude() == binary64::nearest_bits(n, 1)
            &&& x.truncated(shift) == if whole <= u64::MAX {
                whole
            } else {
                u64::MAX as nat
            }
        }),
{
    law_whole_numbers_are_exact(n);
    lemma_pow2_pos(1074);
    let u = n * pow2(1074) * pow2(shift);
    let whole = n * pow2(shift);
    assert(u == whole * pow2(1074)) by (nonlinear_arith)
        requires
            u == n * pow2(1074) * pow2(shift),
            whole == n * pow2(shift),
    ;
    lemma_fundamental_div_mod_converse(u as int, pow2(1074) as int, whole as int, 0);
}

/// A budget of whole GiB is that many bytes, as far as a 64-bit number reaches; a budget of nothing
/// is none, and the settings refuse it.
pub proof fn law_whole_budgets(s: Seq<char>)
    requires
        s.len() > 0,
        forall|i: int| 0 <= i < s.len() ==> '0' <= #[trigger] s[i] <= '9',
        decimal::digits_value(s) < 0x20_0000_0000_0000,
    ensures
        decimal::digits_value(s) == 0 ==> planner::budget_bytes(Some(s)) is None
            && config::budget_error(s) == Some(ConfigError::BudgetNotPositive),
        decimal::digits_value(s) > 0 ==> config::budget_error(s) is None,
        0 < decimal::digits_value(s) < 0x4_0000_0000 ==> planner::budget_bytes(Some(s)) == Some(
            (decimal::digits_value(s) * 0x4000_0000) as u64,
        ),
        decimal::digits_value(s) >= 0x4_0000_0000 ==> planner::budget_bytes(Some(s)) == Some(
            u64::MAX,
        ),
{
    let n = decimal::digits_value(s);
    law_digits_are_read(s);
    law_whole_numbers_are_exact(n);
    lemma_truncated(n, 30);
    lemma2_to64();
    assert(!text::is_white(s[0]) && !text::is_white(s.last()));
    text_law::law_trim_keeps(s);
    let bits = binary64::nearest_bits(n, 1);
    lemma_pow2_pos(1074);
    assert(binary64::units_of(0) == 0);
    if n == 0 {
        binary64::law_units_increase(0, bits);
        lemma_mul_basics_1(pow2(1074) as int);
        assert(bits == 0);
    } else {
        assert(n * pow2(1074) > 0) by (nonlinear_arith)
            requires
                n > 0,
                pow2(1074) > 0,
        ;
        assert(bits > 0);
    }
}

/// A whole number before a unit is that many of the unit, as far as a 64-bit number reaches.
pub proof fn law_whole_sizes(s: Seq<char>)
    requires
        s.len() > 0,
        forall|i: int| 0 <= i < s.len() ==> '0' <= #[trigger] s[i] <= '9',
        decimal::digits_value(s) < 0x80_0000,
    ensures
        planner::bytes_of_size(s + seq!['K', 'I', 'B']) == Some(
            (decimal::digits_value(s) * 0x400) as u64,
        ),
        planner::bytes_of_size(s + seq!['M', 'I', 'B']) == Some(
            (decimal::digits_value(s) * 0x10_0000) as u64,
        ),
        planner::bytes_of_size(s + seq!['G', 'I', 'B']) == Some(
            (decimal::digits_value(s) * 0x4000_0000) as u64,
        ),
        planner::bytes_of_size(s + seq!['T', 'I', 'B']) == Some(
            (decimal::digits_value(s) * 0x100_0000_0000) as u64,
        ),
{
    let n = decimal::digits_value(s);
    law_digits_are_read(s);
    lemma2_to64();
    lemma2_to64_rest();
    lemma_truncated(n, 10);
    lemma_truncated(n, 20);
    lemma_truncated(n, 30);
    lemma_truncated(n, 40);
    let k = seq!['K', 'I', 'B'];
    let m = seq!['M', 'I', 'B'];
    let g = seq!['G', 'I', 'B'];
    let t = seq!['T', 'I', 'B'];
    assert(k[0] == 'K' && m[0] == 'M' && g[0] == 'G' && t[0] == 'T');
    assert((s + k).take(s.len() as int) =~= s);
    assert((s + m).take(s.len() as int) =~= s);
    assert((s + g).take(s.len() as int) =~= s);
    assert((s + t).take(s.len() as int) =~= s);
    assert((s + k).skip(s.len() as int) =~= k);
    assert((s + m).skip(s.len() as int) =~= m);
    assert((s + g).skip(s.len() as int) =~= g);
    assert((s + t).skip(s.len() as int) =~= t);
}

/// A size that ends in none of the four units is none.
pub proof fn law_sizes_have_a_unit(s: Seq<char>)
    requires
        s.len() < 3 || s.last() != 'B' || s[s.len() - 2] != 'I' || !(s[s.len() - 3] == 'K'
            || s[s.len() - 3] == 'M' || s[s.len() - 3] == 'G' || s[s.len() - 3] == 'T'),
    ensures
        planner::bytes_of_size(s) is None,
{
    if s.len() >= 3 {
        let end = s.skip(s.len() - 3);
        assert(end[0] == s[s.len() - 3] && end[1] == s[s.len() - 2] && end[2] == s[s.len() - 1]);
        let k = seq!['K', 'I', 'B'];
        let m = seq!['M', 'I', 'B'];
        let g = seq!['G', 'I', 'B'];
        let t = seq!['T', 'I', 'B'];
        assert(k[0] == 'K' && m[0] == 'M' && g[0] == 'G' && t[0] == 'T');
        assert(k[1] == 'I' && m[1] == 'I' && g[1] == 'I' && t[1] == 'I');
        assert(k[2] == 'B' && m[2] == 'B' && g[2] == 'B' && t[2] == 'B');
    }
}

/// Capitals: every small Latin letter becomes the one thirty-two places before it, and nothing else
/// changes.
pub proof fn law_capitals(c: char)
    ensures
        'a' <= c <= 'z' ==> planner::upper_char(c) as int == c as int - 32,
        !('a' <= c <= 'z') ==> planner::upper_char(c) == c,
{
}

/// The size of a torrent is read without its spaces and in capitals; what stands before the unit is
/// a number of that unit, without the fraction of a byte.
pub proof fn law_sizes(size_text: Seq<char>, number: Seq<char>)
    ensures
        planner::listed_size(size_text) == planner::bytes_of_size(
            planner::uppercase(size_text.filter(|c: char| c != ' ')),
        ),
        ({
            let read = decimal::number(number);
            let k = planner::bytes_of_size(number + seq!['K', 'I', 'B']);
            let m = planner::bytes_of_size(number + seq!['M', 'I', 'B']);
            let g = planner::bytes_of_size(number + seq!['G', 'I', 'B']);
            let t = planner::bytes_of_size(number + seq!['T', 'I', 'B']);
            &&& read is None ==> k is None && m is None && g is None && t is None
            &&& read matches Some(x) ==> k == Some(x.truncated(10) as u64) && m == Some(
                x.truncated(20) as u64,
            ) && g == Some(x.truncated(30) as u64) && t == Some(x.truncated(40) as u64)
        }),
{
    lemma_without_spaces(size_text);
    let k = seq!['K', 'I', 'B'];
    let m = seq!['M', 'I', 'B'];
    let g = seq!['G', 'I', 'B'];
    let t = seq!['T', 'I', 'B'];
    let n = number.len() as int;
    assert(k[0] == 'K' && m[0] == 'M' && g[0] == 'G' && t[0] == 'T');
    assert((number + k).take(n) =~= number);
    assert((number + m).take(n) =~= number);
    assert((number + g).take(n) =~= number);
    assert((number + t).take(n) =~= number);
    assert((number + k).skip(n) =~= k);
    assert((number + m).skip(n) =~= m);
    assert((number + g).skip(n) =~= g);
    assert((number + t).skip(n) =~= t);
}

proof fn lemma_without_spaces(s: Seq<char>)
    ensures
        text::replace(s, seq![' '], Seq::empty()) == s.filter(|c: char| c != ' '),
    decreases s.len(),
{
    let other = |c: char| c != ' ';
    let space = seq![' '];
    let none = Seq::<char>::empty();
    assert(space[0] == ' ');
    if s.len() == 0 {
        reveal(Seq::filter);
        assert(s.filter(other) =~= s);
    } else {
        let rest = s.drop_first();
        lemma_without_spaces(rest);
        let one = seq![s[0]];
        assert(one + rest =~= s);
        rotation_law::lemma_filter_parts(one, rest, other);
        assert(s.subrange(0, 1) =~= one);
        assert(s.skip(1) =~= rest);
        reveal(Seq::filter);
        assert(one.drop_last() =~= none);
        assert(none.filter(other) =~= none);
        assert(one.last() == s[0]);
        if s[0] == ' ' {
            assert(one =~= space);
            assert(text::occurs_at(s, space, 0));
            assert(one.filter(other) =~= none);
            assert(none + rest.filter(other) =~= rest.filter(other));
        } else {
            assert(!text::occurs_at(s, space, 0)) by {
                assert(one[0] != space[0]);
            }
            assert(one.filter(other) =~= one);
        }
    }
}

/// A number is cut to a whole one: the largest that is not above it, held between zero and the
/// largest 64-bit number.
pub proof fn law_truncation(x: Binary64, shift: nat)
    ensures
        x.bits > 0x8000_0000_0000_0000 || 0x7ff0_0000_0000_0000 < x.bits < 0x8000_0000_0000_0000
            ==> x.truncated(shift) == 0,
        x.bits == 0x7ff0_0000_0000_0000 ==> x.truncated(shift) == 0xffff_ffff_ffff_ffff,
        x.bits < 0x7ff0_0000_0000_0000 ==> {
            let r = x.truncated(shift);
            let exact = binary64::units_of(x.bits as nat) * pow2(shift);
            &&& r <= 0xffff_ffff_ffff_ffff
            &&& r * pow2(1074) <= exact
            &&& r < 0xffff_ffff_ffff_ffff ==> exact < (r + 1) * pow2(1074)
        },
{
    lemma_pow2_pos(1074);
    if x.bits < 0x7ff0_0000_0000_0000 {
        let one = pow2(1074);
        let exact = binary64::units_of(x.bits as nat) * pow2(shift);
        assert(x.magnitude() == x.bits);
        lemma_fundamental_div_mod(exact as int, one as int);
        let whole = exact / one;
        let rest = exact % one;
        let r = x.truncated(shift);
        assert(r * one <= exact) by (nonlinear_arith)
            requires
                exact == one * whole + rest,
                rest >= 0,
                r <= whole,
                one > 0,
        ;
        if r < 0xffff_ffff_ffff_ffff {
            assert(r == whole);
            assert(exact < (r + 1) * one) by (nonlinear_arith)
                requires
                    exact == one * whole + rest,
                    rest < one,
                    r == whole,
            ;
        }
    }
}

/// Numbers are compared by their patterns, and what is none compares to nothing.
pub proof fn law_comparisons(x: Binary64, bound: nat)
    ensures
        x.above_zero() <==> 0 < x.bits <= 0x7ff0_0000_0000_0000,
        x.at_most_zero() <==> x.bits == 0 || 0x8000_0000_0000_0000 <= x.bits
            <= 0xfff0_0000_0000_0000,
        x.bits < 0x7ff0_0000_0000_0000 ==> (x.below(bound) <==> binary64::units_of(x.bits as nat)
            < bound * pow2(1074)),
        x.bits == 0x7ff0_0000_0000_0000 ==> !x.below(bound),
        0x7ff0_0000_0000_0000 < x.bits < 0x8000_0000_0000_0000 || x.bits > 0xfff0_0000_0000_0000
            ==> !x.below(bound),
        0x8000_0000_0000_0000 <= x.bits <= 0xfff0_0000_0000_0000 ==> x.below(bound),
{
}

/// A sign before digits and an exponent behind them.
pub proof fn law_signs_and_exponents(a: Seq<char>, e: Seq<char>)
    requires
        a.len() > 0,
        e.len() > 0,
        forall|i: int| 0 <= i < a.len() ==> '0' <= #[trigger] a[i] <= '9',
        forall|i: int| 0 <= i < e.len() ==> '0' <= #[trigger] e[i] <= '9',
    ensures
        decimal::number(seq!['+'] + a) == decimal::number(a),
        decimal::number(seq!['-'] + a) == Some(
            Binary64 {
                bits: (0x8000_0000_0000_0000 + binary64::nearest_bits(
                    decimal::digits_value(a),
                    1,
                )) as u64,
            },
        ),
        decimal::number(a + seq!['e'] + e) == Some(
            Binary64 {
                bits: binary64::nearest_bits(
                    decimal::digits_value(a) * pow(10, decimal::digits_value(e)) as nat,
                    1,
                ) as u64,
            },
        ),
        decimal::number(Seq::empty()) is None,
{
    let none = Seq::<char>::empty();
    law_digits_are_read(a);
    lemma_no_word(a);
    assert((seq!['+'] + a).skip(1) =~= a);
    assert((seq!['-'] + a).skip(1) =~= a);
    assert(a + none =~= a);
    assert(decimal::all_digits(a));
    lemma_all_run(a, none);
    assert(a.skip(a.len() as int) =~= none);
    assert(none.skip(0) =~= none);
    assert(a.take(a.len() as int) + none.take(0) =~= a);
    lemma_pow0(10);
    lemma_mul_basics_3(decimal::digits_value(a) as int);
    let s = a + seq!['e'] + e;
    let rest = seq!['e'] + e;
    assert(s[0] == a[0]);
    lemma_no_word(s);
    assert(s =~= a + rest);
    lemma_all_run(a, rest);
    assert(s.skip(a.len() as int) =~= rest);
    assert(rest[0] == 'e');
    assert(rest.skip(0) =~= rest);
    assert(rest.skip(1) =~= e);
    assert(decimal::all_digits(e));
    assert(decimal::signed(e) == (false, e));
    assert(s.take(a.len() as int) + rest.take(0) =~= a);
    assert(none.skip(0) =~= none);
    assert(decimal::digit_run(none) == 0);
    assert(!decimal::spells(none, seq!['i', 'n', 'f']));
}

/// The words for infinity and for what is no number, in whatever capitals.
pub proof fn law_words(s: Seq<char>)
    ensures
        s.len() == 3 && (s[0] == 'i' || s[0] == 'I') && (s[1] == 'n' || s[1] == 'N') && (s[2] == 'f'
            || s[2] == 'F') ==> decimal::number(s) == Some(
            Binary64 { bits: 0x7ff0_0000_0000_0000 },
        ),
        s.len() == 8 && (s[0] == 'i' || s[0] == 'I') && (s[1] == 'n' || s[1] == 'N') && (s[2] == 'f'
            || s[2] == 'F') && (s[3] == 'i' || s[3] == 'I') && (s[4] == 'n' || s[4] == 'N') && (s[5]
            == 'i' || s[5] == 'I') && (s[6] == 't' || s[6] == 'T') && (s[7] == 'y' || s[7] == 'Y')
            ==> decimal::number(s) == Some(Binary64 { bits: 0x7ff0_0000_0000_0000 }),
        s.len() == 3 && (s[0] == 'n' || s[0] == 'N') && (s[1] == 'a' || s[1] == 'A') && (s[2] == 'n'
            || s[2] == 'N') ==> decimal::number(s) == Some(
            Binary64 { bits: 0x7ff8_0000_0000_0000 },
        ),
{
    let i3 = seq!['i', 'n', 'f'];
    let i8 = seq!['i', 'n', 'f', 'i', 'n', 'i', 't', 'y'];
    let n3 = seq!['n', 'a', 'n'];
    assert(i3[0] == 'i' && i3[1] == 'n' && i3[2] == 'f');
    assert(i8[0] == 'i' && i8[1] == 'n' && i8[2] == 'f' && i8[3] == 'i' && i8[4] == 'n' && i8[5]
        == 'i' && i8[6] == 't' && i8[7] == 'y');
    assert(n3[0] == 'n' && n3[1] == 'a' && n3[2] == 'n');
    if s.len() == 3 && (s[0] == 'n' || s[0] == 'N') && (s[1] == 'a' || s[1] == 'A') && (s[2] == 'n'
        || s[2] == 'N') {
        assert(decimal::spells(s, n3));
        assert(!decimal::is_letter(s[0], i3[0]));
        assert(!decimal::spells(s, i3));
    }
}

/// An exponent below zero divides.
pub proof fn law_exponents_below_zero(a: Seq<char>, e: Seq<char>)
    requires
        a.len() > 0,
        e.len() > 0,
        forall|i: int| 0 <= i < a.len() ==> '0' <= #[trigger] a[i] <= '9',
        forall|i: int| 0 <= i < e.len() ==> '0' <= #[trigger] e[i] <= '9',
        decimal::digits_value(e) > 0,
    ensures
        decimal::number(a + seq!['e', '-'] + e) == Some(
            Binary64 {
                bits: binary64::nearest_bits(
                    decimal::digits_value(a),
                    pow(10, decimal::digits_value(e)) as nat,
                ) as u64,
            },
        ),
{
    let none = Seq::<char>::empty();
    let s = a + seq!['e', '-'] + e;
    let rest = seq!['e', '-'] + e;
    let power = seq!['-'] + e;
    assert(decimal::all_digits(a));
    assert(decimal::all_digits(e));
    assert(s[0] == a[0]);
    lemma_no_word(s);
    assert(s =~= a + rest);
    lemma_all_run(a, rest);
    assert(s.skip(a.len() as int) =~= rest);
    assert(rest[0] == 'e');
    assert(rest.skip(0) =~= rest);
    assert(rest.skip(1) =~= power);
    assert(power.skip(1) =~= e);
    assert(power[0] == '-');
    assert(decimal::signed(power) == (true, e));
    assert(s.take(a.len() as int) + rest.take(0) =~= a);
    assert(none.skip(0) =~= none);
}

proof fn lemma_no_exponent(c: char)
    requires
        c != 'e',
        c != 'E',
    ensures
        !decimal::is_letter(c, 'e'),
{
}

/// Digits before anything but more digits, a point or an exponent write no number.
pub proof fn law_digits_before_something_else(a: Seq<char>, tail: Seq<char>)
    requires
        a.len() > 0,
        forall|i: int| 0 <= i < a.len() ==> '0' <= #[trigger] a[i] <= '9',
        tail.len() > 0,
        !('0' <= tail[0] <= '9') && tail[0] != '.' && tail[0] != 'e' && tail[0] != 'E',
    ensures
        decimal::number(a + tail) is None,
{
    let s = a + tail;
    assert(decimal::all_digits(a));
    assert(s[0] == a[0]);
    lemma_no_word(s);
    lemma_all_run(a, tail);
    assert(s.skip(a.len() as int) =~= tail);
    assert(tail.skip(0) =~= tail);
    lemma_no_exponent(tail[0]);
    assert(decimal::exponent_part(tail) is None);
    assert(decimal::decimal_part(s) is None);
}

/// A budget is a number above zero, of GiB, and there is none for any other text.
pub proof fn law_budgets(s: Seq<char>)
    ensures
        planner::budget_bytes(None) is None,
        decimal::number(s) is None ==> planner::budget_bytes(Some(s)) is None,
        decimal::number(s) matches Some(x) ==> (0 < x.bits <= 0x7ff0_0000_0000_0000
            ==> planner::budget_bytes(Some(s)) == Some(x.truncated(30) as u64)) && (x.bits == 0
            || x.bits > 0x7ff0_0000_0000_0000 ==> planner::budget_bytes(Some(s)) is None),
{
}

proof fn lemma_bare_number(s: Seq<char>)
    requires
        s.len() > 0,
        forall|i: int|
            0 <= i < s.len() ==> '0' <= #[trigger] s[i] <= '9' || s[i] == '.',
    ensures
        text::contains(s + seq![' ', 'G', 'i', 'B'], seq!['G', 'i', 'B']),
        planner::gib_number(s + seq![' ', 'G', 'i', 'B']) == (match decimal::number(s) {
            Some(number) => number,
            None => Binary64 { bits: 0 },
        }),
{
    let size = s + seq![' ', 'G', 'i', 'B'];
    let unit = seq!['G', 'i', 'B'];
    let none = Seq::<char>::empty();
    let n = s.len() as int;
    assert(unit[0] == 'G');
    text_law::law_find(size, unit);
    text_law::law_replace(size, unit, none);
    assert(size.subrange(n + 1, n + 1 + unit.len()) =~= unit);
    assert(text::find(size, unit) is Some);
    let i = text::find(size, unit)->0;
    assert(i == n + 1) by {
        if i < n + 1 {
            assert(size.subrange(i, i + unit.len())[0] == size[i]);
        }
    }
    assert(text::occurs_at(size, unit, n + 1));
    assert(size.skip(i + unit.len()) =~= none);
    assert(text::replace(none, unit, none) =~= none);
    let left = s.push(' ');
    assert(size.take(i) + none + none =~= left);
    assert(text::trim(left) == s) by {
        assert(left.drop_last() =~= s);
        assert(left[0] == s[0]);
        assert(s.last() == s[n - 1]);
        assert(text::trim_end(s) == s);
        assert(text::trim_end(left) == text::trim_end(left.drop_last()));
    }
}

/// A size in whole GiB reaches twenty GiB where its number does.
pub proof fn law_whole_size_threshold(s: Seq<char>)
    requires
        s.len() > 0,
        forall|i: int| 0 <= i < s.len() ==> '0' <= #[trigger] s[i] <= '9',
        decimal::digits_value(s) < 0x20_0000_0000_0000,
    ensures
        text::contains(s + seq![' ', 'G', 'i', 'B'], seq!['G', 'i', 'B']),
        planner::gib_number(s + seq![' ', 'G', 'i', 'B']).below(20) <==> decimal::digits_value(s)
            < 20,
{
    let n = decimal::digits_value(s);
    lemma_bare_number(s);
    law_digits_are_read(s);
    law_whole_numbers_are_exact(n);
    lemma_truncated(n, 0);
    lemma_pow2_pos(1074);
    assert(n * pow2(1074) < 20 * pow2(1074) <==> n < 20) by (nonlinear_arith)
        requires
            pow2(1074) > 0,
    ;
}

/// A size in GiB with a point reaches twenty GiB where the fraction that it writes does.
pub proof fn law_fraction_size_threshold(a: Seq<char>, b: Seq<char>)
    requires
        a.len() > 0,
        0 < b.len() <= 9,
        forall|i: int| 0 <= i < a.len() ==> '0' <= #[trigger] a[i] <= '9',
        forall|i: int| 0 <= i < b.len() ==> '0' <= #[trigger] b[i] <= '9',
        decimal::digits_value(a + b) <= i32::MAX,
    ensures
        text::contains(a + seq!['.'] + b + seq![' ', 'G', 'i', 'B'], seq!['G', 'i', 'B']),
        planner::gib_number(a + seq!['.'] + b + seq![' ', 'G', 'i', 'B']).below(20)
            <==> decimal::digits_value(a + b) < 20 * pow(10, b.len()),
{
    let s = a + seq!['.'] + b;
    assert forall|i: int| 0 <= i < s.len() implies '0' <= #[trigger] s[i] <= '9' || s[i] == '.' by {
        if i < a.len() {
            assert(s[i] == a[i]);
        } else if i > a.len() {
            assert(s[i] == b[i - a.len() - 1]);
        }
    }
    lemma_bare_number(s);
    law_fractions_are_read(a, b);
    let d = pow(10, b.len());
    assert(0 < d <= 1000000000) by {
        lemma_pow_positive(10, b.len());
        lemma_pow_increases(10, b.len(), 9);
        assert(pow(10, 9) == 1000000000) by {
            reveal_with_fuel(pow, 10);
        }
    }
    planner::law_ratio_threshold(decimal::digits_value(a + b) as int, d);
}

} // verus!
