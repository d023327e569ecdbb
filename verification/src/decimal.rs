//! Numbers written in decimal, read as the nearest double-precision number.

use crate::binary64;
use crate::binary64::{Binary64, INFINITY_BITS, SIGN_BIT};
use crate::natural::Natural;
use vstd::arithmetic::div_mod::*;
use vstd::arithmetic::mul::*;
use vstd::arithmetic::power::*;
use vstd::arithmetic::power2::*;
use vstd::prelude::*;
use vstd::slice::*;

verus! {

/// The bit pattern that stands for "not a number".
pub const NAN_BITS: u64 = 0x7ff8_0000_0000_0000;

pub open spec fn is_digit(c: char) -> bool {
    '0' <= c && c <= '9'
}

pub open spec fn all_digits(s: Seq<char>) -> bool {
    forall|i: int| 0 <= i < s.len() ==> is_digit(#[trigger] s[i])
}

/// What a row of decimal digits amounts to.
pub open spec fn digits_value(s: Seq<char>) -> nat
    decreases s.len(),
{
    if s.len() == 0 {
        0
    } else {
        10 * digits_value(s.drop_last()) + (s.last() as nat - '0' as nat) as nat
    }
}

/// How many digits stand at the start.
pub open spec fn digit_run(s: Seq<char>) -> nat
    decreases s.len(),
{
    if s.len() > 0 && is_digit(s[0]) {
        1 + digit_run(s.drop_first())
    } else {
        0
    }
}

/// `c` is the small letter `letter` or its capital.
pub open spec fn is_letter(c: char, letter: char) -> bool {
    c == letter || c as nat + 32 == letter as nat
}

/// `s` spells `word`, in small letters or capitals.
pub open spec fn spells(s: Seq<char>, word: Seq<char>) -> bool {
    s.len() == word.len() && forall|i: int|
        0 <= i < s.len() ==> is_letter(#[trigger] s[i], word[i])
}

/// An optional sign and what follows it.
pub open spec fn signed(s: Seq<char>) -> (bool, Seq<char>) {
    if s.len() > 0 && (s[0] == '+' || s[0] == '-') {
        (s[0] == '-', s.skip(1))
    } else {
        (false, s)
    }
}

/// The exponent that `s` adds: none at all, or an `e`, an optional sign and digits.
pub open spec fn exponent_part(s: Seq<char>) -> Option<int> {
    if s.len() == 0 {
        Some(0)
    } else if is_letter(s[0], 'e') {
        let (negative, digits) = signed(s.skip(1));
        if digits.len() == 0 || !all_digits(digits) {
            None
        } else if negative {
            Some(-digits_value(digits))
        } else {
            Some(digits_value(digits) as int)
        }
    } else {
        None
    }
}

/// The digits of `s`, those before and after an optional point, and the power of ten that they
/// are multiplied with.
pub open spec fn decimal_part(s: Seq<char>) -> Option<(Seq<char>, int)> {
    let whole = digit_run(s) as int;
    let rest = s.skip(whole);
    let point = rest.len() > 0 && rest[0] == '.';
    let tail = if point {
        rest.skip(1)
    } else {
        rest
    };
    let fraction = if point {
        digit_run(tail) as int
    } else {
        0
    };
    if whole + fraction == 0 {
        None
    } else {
        match exponent_part(tail.skip(fraction)) {
            Some(exponent) => Some((s.take(whole) + tail.take(fraction), exponent - fraction)),
            None => None,
        }
    }
}

/// The pattern of the number nearest to `digits * 10^exponent`.
pub open spec fn decimal_bits(digits: nat, exponent: int) -> nat {
    if exponent >= 0 {
        binary64::nearest_bits(digits * pow(10, exponent as nat) as nat, 1)
    } else {
        binary64::nearest_bits(digits, pow(10, (-exponent) as nat) as nat)
    }
}

/// The number that `s` writes: an optional sign, then `inf`, `infinity`, `nan` (in small letters
/// or capitals) or a decimal number with an optional exponent. Nothing for any other text.
pub open spec fn number_bits(s: Seq<char>) -> Option<nat> {
    let (negative, body) = signed(s);
    let sign = if negative {
        SIGN_BIT as nat
    } else {
        0
    };
    if spells(body, seq!['i', 'n', 'f']) || spells(
        body,
        seq!['i', 'n', 'f', 'i', 'n', 'i', 't', 'y'],
    ) {
        Some(sign + INFINITY_BITS as nat)
    } else if spells(body, seq!['n', 'a', 'n']) {
        Some(sign + NAN_BITS as nat)
    } else {
        match decimal_part(body) {
            Some((digits, exponent)) => Some(sign + decimal_bits(digits_value(digits), exponent)),
            None => None,
        }
    }
}

/// The number that `s` writes, if it writes one.
pub open spec fn number(s: Seq<char>) -> Option<Binary64> {
    match number_bits(s) {
        Some(bits) => Some(Binary64 { bits: bits as u64 }),
        None => None,
    }
}

proof fn lemma_digit_run(s: Seq<char>, n: int)
    requires
        0 <= n <= s.len(),
        forall|i: int| 0 <= i < n ==> is_digit(#[trigger] s[i]),
        n == s.len() || !is_digit(s[n]),
    ensures
        digit_run(s) == n,
    decreases n,
{
    if n > 0 {
        let rest = s.drop_first();
        assert forall|i: int| 0 <= i < n - 1 implies is_digit(#[trigger] rest[i]) by {
            assert(rest[i] == s[i + 1]);
        }
        lemma_digit_run(rest, n - 1);
    }
}

proof fn lemma_digits_bound(s: Seq<char>)
    requires
        all_digits(s),
    ensures
        digits_value(s) < pow(10, s.len()),
    decreases s.len(),
{
    if s.len() == 0 {
        lemma_pow0(10);
    } else {
        assert(all_digits(s.drop_last()));
        lemma_digits_bound(s.drop_last());
        reveal(pow);
        assert(pow(10, s.len()) == 10 * pow(10, s.drop_last().len()));
    }
}

proof fn lemma_ten_above_two(k: nat)
    ensures
        pow2(9 * k) <= pow(10, 3 * k),
    decreases k,
{
    reveal(pow);
    if k == 0 {
        lemma2_to64();
    } else {
        lemma_ten_above_two((k - 1) as nat);
        let e = (3 * (k - 1)) as nat;
        assert(pow(10, e + 3) == 10 * pow(10, e + 2));
        assert(pow(10, e + 2) == 10 * pow(10, e + 1));
        assert(pow(10, e + 1) == 10 * pow(10, e));
        lemma_pow2_adds((9 * (k - 1)) as nat, 9);
        lemma2_to64();
    }
}

/// Beyond `10^400` lies only infinity.
proof fn lemma_huge(digits: nat, exponent: nat)
    requires
        digits > 0,
        exponent > 400,
    ensures
        decimal_bits(digits, exponent as int) == INFINITY_BITS,
{
    let num = (digits * pow(10, exponent)) as nat;
    lemma_ten_above_two(133);
    lemma_pow_increases(10, 399, exponent);
    lemma_pow_positive(10, exponent);
    assert(pow2(1197) <= num) by (nonlinear_arith)
        requires
            num == digits * pow(10, exponent),
            digits > 0,
            pow2(1197) <= pow(10, exponent),
    ;
    lemma_pow2_adds(1197, 1074);
    lemma_mul_inequality(pow2(1197) as int, num as int, pow2(1074) as int);
    binary64::lemma_scale(num, 1);
    let s = binary64::scale(num, 1);
    lemma_mul_basics_4(pow2(53 + s) as int);
    binary64::lemma_pow2_order(2271, 53 + s);
    lemma_pow2_pos(s);
}

/// Below `10^-400` lies only zero.
proof fn lemma_tiny(digits: nat, size: nat, exponent: int)
    requires
        digits < pow(10, size),
        exponent + size < -400,
    ensures
        decimal_bits(digits, exponent) == 0,
{
    let e = (-exponent) as nat;
    let den = pow(10, e) as nat;
    lemma_pow_positive(10, e);
    lemma_pow_positive(10, size);
    lemma_ten_above_two(133);
    lemma_pow_increases(10, 399, (e - size) as nat);
    lemma_pow_adds(10, size, (e - size) as nat);
    let p = pow(10, size) as nat;
    binary64::lemma_pow2_order(1075, 1197);
    lemma_pow2_unfold(1075);
    lemma_pow2_pos(1074);
    let whole = digits * pow2(1074);
    assert(2 * whole < den) by (nonlinear_arith)
        requires
            whole == digits * pow2(1074),
            digits < p,
            den == p * pow(10, (e - size) as nat),
            2 * pow2(1074) <= pow(10, (e - size) as nat),
            pow2(1074) > 0,
    ;
    lemma2_to64();
    lemma2_to64_rest();
    assert(whole < den * pow2(53)) by (nonlinear_arith)
        requires
            2 * whole < den,
            pow2(53) >= 1,
    ;
    assert(binary64::is_scale(digits, den, 0));
    binary64::lemma_scale_unique(digits, den, 0);
    lemma_mul_basics_3(den as int);
    lemma_basic_div(whole as int, den as int);
    lemma_small_mod(whole, den);
}

/// Zero is zero at any exponent.
proof fn lemma_nothing(exponent: int)
    ensures
        decimal_bits(0, exponent) == 0,
{
    let den = if exponent >= 0 {
        1
    } else {
        pow(10, (-exponent) as nat) as nat
    };
    lemma_pow_positive(10, (-exponent) as nat);
    lemma2_to64();
    lemma2_to64_rest();
    lemma_mul_basics_1(pow2(1074) as int);
    lemma_mul_strictly_positive(den as int, pow2(53) as int);
    assert(binary64::is_scale(0, den, 0));
    binary64::lemma_scale_unique(0, den, 0);
    lemma_mul_basics_3(den as int);
    lemma_basic_div(0, den as int);
    lemma_small_mod(0, den);
    if exponent >= 0 {
        lemma_mul_basics_1(pow(10, exponent as nat));
    }
}

/// How many digits stand at the start.
fn count_digits(s: &[char]) -> (r: usize)
    ensures
        r == digit_run(s@),
        r <= s@.len(),
        all_digits(s@.take(r as int)),
{
    let mut i: usize = 0;
    while i < s.len() && '0' <= s[i] && s[i] <= '9'
        invariant
            i <= s@.len(),
            forall|j: int| 0 <= j < i ==> is_digit(#[trigger] s@[j]),
        decreases s@.len() - i,
    {
        i = i + 1;
    }
    proof {
        lemma_digit_run(s@, i as int);
    }
    i
}

/// Whether `c` is `letter` or its capital.
fn is_letter_of(c: char, letter: char) -> (r: bool)
    ensures
        r == is_letter(c, letter),
{
    c == letter || c as u32 + 32 == letter as u32
}

/// Whether `s` spells `word`.
fn matches_word(s: &[char], word: &[char]) -> (r: bool)
    ensures
        r == spells(s@, word@),
{
    if s.len() != word.len() {
        return false;
    }
    let mut i: usize = 0;
    while i < s.len()
        invariant
            i <= s@.len(),
            s@.len() == word@.len(),
            forall|j: int| 0 <= j < i ==> is_letter(#[trigger] s@[j], word@[j]),
        decreases s@.len() - i,
    {
        if !is_letter_of(s[i], word[i]) {
            assert(!is_letter(s@[i as int], word@[i as int]));
            return false;
        }
        i = i + 1;
    }
    true
}

/// The digits of `s` behind those that `start` already holds.
fn append_digits(start: Natural, s: &[char], Ghost(before): Ghost<Seq<char>>) -> (r: Natural)
    requires
        all_digits(s@),
        start@ == digits_value(before),
    ensures
        r@ == digits_value(before + s@),
{
    let mut r = start;
    let mut i: usize = 0;
    assert(before + s@.take(0) =~= before);
    while i < s.len()
        invariant
            i <= s@.len(),
            all_digits(s@),
            r@ == digits_value(before + s@.take(i as int)),
        decreases s@.len() - i,
    {
        assert((before + s@.take(i + 1)).drop_last() =~= before + s@.take(i as int));
        assert(is_digit(s@[i as int]));
        r = r.times_plus(10, s[i] as u32 - '0' as u32);
        i = i + 1;
    }
    assert(s@.take(s@.len() as int) =~= s@);
    r
}

/// What the digits of `s` amount to, or some number beyond all measure.
fn capped_digits(s: &[char]) -> (r: i128)
    requires
        all_digits(s@),
    ensures
        0 <= r,
        r <= 10_000_000_000_000_000_000_000_000_000_009,
        r == digits_value(s@) || (r >= 1_000_000_000_000_000_000_000_000_000_000 && digits_value(s@)
            >= 1_000_000_000_000_000_000_000_000_000_000),
{
    let mut r: i128 = 0;
    let mut i: usize = 0;
    while i < s.len()
        invariant
            i <= s@.len(),
            all_digits(s@),
            0 <= r <= 10_000_000_000_000_000_000_000_000_000_009,
            r == digits_value(s@.take(i as int)) || (r
                >= 1_000_000_000_000_000_000_000_000_000_000 && digits_value(s@.take(i as int))
                >= 1_000_000_000_000_000_000_000_000_000_000),
        decreases s@.len() - i,
    {
        assert(s@.take(i + 1).drop_last() =~= s@.take(i as int));
        assert(is_digit(s@[i as int]));
        if r < 1_000_000_000_000_000_000_000_000_000_000 {
            r = r * 10 + (s[i] as u32 - '0' as u32) as i128;
        }
        i = i + 1;
    }
    assert(s@.take(s@.len() as int) =~= s@);
    r
}

/// `10^count`.
fn power_of_ten(count: u128) -> (r: Natural)
    ensures
        r@ == pow(10, count as nat),
{
    let mut r = Natural::new(1);
    let mut i: u128 = 0;
    proof {
        lemma_pow0(10);
    }
    while i < count
        invariant
            i <= count,
            r@ == pow(10, i as nat),
        decreases count - i,
    {
        proof {
            reveal(pow);
            assert(pow(10, (i + 1) as nat) == 10 * pow(10, i as nat));
        }
        r = r.times_plus(10, 0);
        i = i + 1;
    }
    r
}

/// `value * 10^count`.
fn times_power_of_ten(value: Natural, count: u128) -> (r: Natural)
    ensures
        r@ == value@ * pow(10, count as nat),
{
    let ghost start = value@;
    let mut r = value;
    let mut i: u128 = 0;
    proof {
        lemma_pow0(10);
        lemma_mul_basics_3(start as int);
    }
    while i < count
        invariant
            i <= count,
            r@ == start * pow(10, i as nat),
        decreases count - i,
    {
        proof {
            reveal(pow);
            assert(pow(10, (i + 1) as nat) == 10 * pow(10, i as nat));
            assert(start * pow(10, i as nat) * 10 == start * (10 * pow(10, i as nat)))
                by (nonlinear_arith);
        }
        r = r.times_plus(10, 0);
        i = i + 1;
    }
    r
}

/// The pattern of the number nearest to the digits of `whole` and `fraction` times
/// `10^exponent`.
fn decimal_magnitude(whole: &[char], fraction: &[char], exponent: i128) -> (r: u64)
    requires
        all_digits(whole@),
        all_digits(fraction@),
        -100_000_000_000_000_000_000_000_000_000_000 <= exponent,
        exponent <= 100_000_000_000_000_000_000_000_000_000_000,
    ensures
        r == decimal_bits(digits_value(whole@ + fraction@), exponent as int),
        r <= INFINITY_BITS,
{
    let start = append_digits(Natural::new(0), whole, Ghost(Seq::<char>::empty()));
    assert(Seq::<char>::empty() + whole@ =~= whole@);
    let digits = append_digits(start, fraction, Ghost(whole@));
    let size: i128 = whole.len() as i128 + fraction.len() as i128;
    proof {
        let all = whole@ + fraction@;
        assert(all_digits(all));
        lemma_digits_bound(all);
    }
    if digits.less_than(&Natural::new(1)) {
        proof {
            lemma_nothing(exponent as int);
        }
        return 0;
    }
    if exponent > 400 {
        proof {
            lemma_huge(digits@, exponent as nat);
        }
        return INFINITY_BITS;
    }
    if exponent + size < -400 {
        proof {
            lemma_tiny(digits@, size as nat, exponent as int);
        }
        return 0;
    }
    proof {
        lemma_pow_positive(10, (-exponent) as nat);
        lemma_pow_positive(10, exponent as nat);
    }
    if exponent >= 0 {
        binary64::nearest(&times_power_of_ten(digits, exponent as u128), &Natural::new(1))
    } else {
        binary64::nearest(&digits, &power_of_ten((-exponent) as u128))
    }
}

/// Exponents that are equally far out lead to the same number.
proof fn lemma_far_out(digits: nat, size: nat, a: int, b: int)
    requires
        digits < pow(10, size),
        a == b || (a > 400 && b > 400) || (a + size < -400 && b + size < -400),
    ensures
        decimal_bits(digits, a) == decimal_bits(digits, b),
{
    if a != b {
        if a > 400 {
            if digits == 0 {
                lemma_nothing(a);
                lemma_nothing(b);
            } else {
                lemma_huge(digits, a as nat);
                lemma_huge(digits, b as nat);
            }
        } else {
            lemma_tiny(digits, size, a);
            lemma_tiny(digits, size, b);
        }
    }
}

/// The exponent that `s` adds, or one beyond all measure in its place.
fn read_exponent(s: &[char]) -> (r: Option<i128>)
    ensures
        r is Some <==> exponent_part(s@) is Some,
        r matches Some(x) ==> {
            let exact = exponent_part(s@)->0;
            &&& -10_000_000_000_000_000_000_000_000_000_009 <= x
            &&& x <= 10_000_000_000_000_000_000_000_000_000_009
            &&& x == exact || (x >= 1_000_000_000_000_000_000_000_000_000_000 && exact
                >= 1_000_000_000_000_000_000_000_000_000_000) || (x
                <= -1_000_000_000_000_000_000_000_000_000_000 && exact
                <= -1_000_000_000_000_000_000_000_000_000_000)
        },
{
    if s.len() == 0 {
        return Some(0);
    }
    if !is_letter_of(s[0], 'e') {
        return None;
    }
    let tail = slice_subrange(s, 1, s.len());
    let negative: bool = tail.len() > 0 && tail[0] == '-';
    let digits = if tail.len() > 0 && (tail[0] == '+' || tail[0] == '-') {
        slice_subrange(tail, 1, tail.len())
    } else {
        tail
    };
    let count = count_digits(digits);
    if digits.len() == 0 || count != digits.len() {
        proof {
            if all_digits(digits@) {
                lemma_digit_run(digits@, digits@.len() as int);
            }
        }
        return None;
    }
    assert(digits@.take(digits@.len() as int) =~= digits@);
    let value: i128 = capped_digits(digits);
    if negative {
        Some(-value)
    } else {
        Some(value)
    }
}

/// The digits and the exponent of an unsigned decimal number.
fn read_decimal(s: &[char]) -> (r: Option<u64>)
    ensures
        r is Some <==> decimal_part(s@) is Some,
        r matches Some(bits) ==> bits == decimal_bits(
            digits_value((decimal_part(s@)->0).0),
            (decimal_part(s@)->0).1,
        ) && bits <= INFINITY_BITS,
{
    let whole: usize = count_digits(s);
    let rest = slice_subrange(s, whole, s.len());
    let point: bool = rest.len() > 0 && rest[0] == '.';
    let tail = if point {
        slice_subrange(rest, 1, rest.len())
    } else {
        rest
    };
    let fraction: usize = if point {
        count_digits(tail)
    } else {
        0
    };
    if whole == 0 && fraction == 0 {
        return None;
    }
    let shift: i128 = fraction as i128;
    match read_exponent(slice_subrange(tail, fraction, tail.len())) {
        None => None,
        Some(exponent) => {
            let before = slice_subrange(s, 0, whole);
            let after = slice_subrange(tail, 0, fraction);
            assert(all_digits(after@));
            proof {
                let all = before@ + after@;
                assert(all_digits(all));
                lemma_digits_bound(all);
                let exact = exponent_part(tail@.skip(fraction as int))->0;
                lemma_far_out(
                    digits_value(all),
                    all.len(),
                    exponent as int - fraction as int,
                    exact - fraction as int,
                );
            }
            Some(decimal_magnitude(before, after, exponent - shift))
        },
    }
}

/// Reads a number.
pub fn read_number(s: &[char]) -> (r: Option<Binary64>)
    ensures
        r == number(s@),
        r matches Some(number) ==> number.bits == number_bits(s@)->0,
{
    let negative: bool = s.len() > 0 && s[0] == '-';
    let body = if s.len() > 0 && (s[0] == '+' || s[0] == '-') {
        slice_subrange(s, 1, s.len())
    } else {
        s
    };
    let sign: u64 = if negative {
        SIGN_BIT
    } else {
        0
    };
    if matches_word(body, &['i', 'n', 'f']) || matches_word(
        body,
        &['i', 'n', 'f', 'i', 'n', 'i', 't', 'y'],
    ) {
        return Some(Binary64 { bits: sign + INFINITY_BITS });
    }
    if matches_word(body, &['n', 'a', 'n']) {
        return Some(Binary64 { bits: sign + NAN_BITS });
    }
    match read_decimal(body) {
        None => None,
        Some(magnitude) => Some(Binary64 { bits: sign + magnitude }),
    }
}

} // verus!
