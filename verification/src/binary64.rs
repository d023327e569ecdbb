//! IEEE 754 double-precision numbers as bit patterns: what they are worth, which of them is
//! nearest to a fraction, and how they compare and truncate.

use crate::natural::Natural;
use vstd::arithmetic::div_mod::*;
use vstd::arithmetic::mul::*;
use vstd::arithmetic::power2::*;
use vstd::prelude::*;

verus! {

/// The bit pattern of positive infinity; patterns above it (sign aside) are not numbers.
pub const INFINITY_BITS: u64 = 0x7ff0_0000_0000_0000;

/// The sign bit.
pub const SIGN_BIT: u64 = 0x8000_0000_0000_0000;

/// Two to the power of 52: how many patterns share an exponent.
pub const FRACTION_SPAN: u64 = 0x10_0000_0000_0000;

/// `a / b` to the nearest whole number, to the even one where two are equally near.
pub open spec fn half_even(a: nat, b: nat) -> nat {
    let quotient = a / b;
    let twice = 2 * (a % b);
    if twice < b {
        quotient
    } else if twice > b {
        quotient + 1
    } else if quotient % 2 == 0 {
        quotient
    } else {
        quotient + 1
    }
}

/// `q` is the exponent, counted from that of the smallest positive number, at which
/// `num / den` has at most 53 binary digits before the point, and at least 53 unless it is zero.
pub open spec fn is_scale(num: nat, den: nat, q: nat) -> bool {
    &&& num * pow2(1074) < den * pow2(53 + q)
    &&& q > 0 ==> den * pow2((52 + q) as nat) <= num * pow2(1074)
}

/// The exponent at which `num / den` is rounded.
pub open spec fn scale(num: nat, den: nat) -> nat {
    choose|q: nat| is_scale(num, den, q)
}

/// The bit pattern of the number nearest to `num / den`, of the even one where two are equally
/// near, of infinity where the fraction is too large.
pub open spec fn nearest_bits(num: nat, den: nat) -> nat {
    let q = scale(num, den);
    let bits = q * FRACTION_SPAN as nat + half_even(num * pow2(1074), den * pow2(q));
    if bits < INFINITY_BITS {
        bits
    } else {
        INFINITY_BITS as nat
    }
}

/// What the pattern of a finite number without its sign is worth, counted in the smallest
/// positive number, two to the power of minus 1074.
pub open spec fn units_of(magnitude: nat) -> nat {
    let exponent = magnitude / FRACTION_SPAN as nat;
    let fraction = magnitude % FRACTION_SPAN as nat;
    if exponent == 0 {
        fraction
    } else {
        (FRACTION_SPAN + fraction) as nat * pow2((exponent - 1) as nat)
    }
}

pub proof fn lemma_pow2_order(a: nat, b: nat)
    ensures
        a <= b ==> pow2(a) <= pow2(b),
        pow2(a) < pow2(b) ==> a < b,
{
    if a < b {
        lemma_pow2_strictly_increases(a, b);
    } else if b < a {
        lemma_pow2_strictly_increases(b, a);
    }
}

/// Some exponent always fits.
proof fn lemma_scale_exists(num: nat, den: nat, q: nat) -> (r: nat)
    requires
        num * pow2(1074) < den * pow2(53 + q),
    ensures
        is_scale(num, den, r),
    decreases q,
{
    if q > 0 && num * pow2(1074) < den * pow2((52 + q) as nat) {
        lemma_scale_exists(num, den, (q - 1) as nat)
    } else {
        q
    }
}

proof fn lemma_below_own_power(n: nat)
    ensures
        n < pow2(n),
    decreases n,
{
    if n == 0 {
        lemma2_to64();
    } else {
        lemma_below_own_power((n - 1) as nat);
        lemma_pow2_unfold(n);
    }
}

pub proof fn lemma_scale(num: nat, den: nat)
    requires
        den > 0,
    ensures
        is_scale(num, den, scale(num, den)),
{
    let whole = num * pow2(1074);
    lemma_below_own_power(whole);
    lemma_pow2_order(whole, 53 + whole);
    assert(pow2(53 + whole) <= den * pow2(53 + whole)) by (nonlinear_arith)
        requires
            den > 0,
    ;
    let q = lemma_scale_exists(num, den, whole);
}

/// No two exponents fit.
pub proof fn lemma_scale_unique(num: nat, den: nat, q: nat)
    requires
        den > 0,
        is_scale(num, den, q),
    ensures
        scale(num, den) == q,
{
    lemma_scale(num, den);
    let s = scale(num, den);
    if s < q {
        lemma_pow2_order(53 + s, (52 + q) as nat);
        lemma_mul_inequality(pow2(53 + s) as int, pow2((52 + q) as nat) as int, den as int);
        lemma_mul_is_commutative(den as int, pow2(53 + s) as int);
        lemma_mul_is_commutative(den as int, pow2((52 + q) as nat) as int);
    }
    if q < s {
        lemma_pow2_order(53 + q, (52 + s) as nat);
        lemma_mul_inequality(pow2(53 + q) as int, pow2((52 + s) as nat) as int, den as int);
        lemma_mul_is_commutative(den as int, pow2(53 + q) as int);
        lemma_mul_is_commutative(den as int, pow2((52 + s) as nat) as int);
    }
}

/// A common factor does not matter.
pub proof fn lemma_half_even_factor(a: nat, b: nat, c: nat)
    requires
        b > 0,
        c > 0,
    ensures
        half_even(a * c, b * c) == half_even(a, b),
        b * c > 0,
{
    lemma_mul_strictly_positive(b as int, c as int);
    lemma_fundamental_div_mod(a as int, b as int);
    let q = a / b;
    let r = a % b;
    assert(a * c == (b * c) * q + r * c && 0 <= r * c < b * c) by (nonlinear_arith)
        requires
            a == b * q + r,
            0 <= r < b,
            c > 0,
    ;
    lemma_mul_is_commutative((b * c) as int, q as int);
    lemma_fundamental_div_mod_converse((a * c) as int, (b * c) as int, q as int, (r * c) as int);
    assert(2 * (r * c) < b * c <==> 2 * r < b) by (nonlinear_arith)
        requires
            c > 0,
    ;
    assert(2 * (r * c) > b * c <==> 2 * r > b) by (nonlinear_arith)
        requires
            c > 0,
    ;
}

/// `value * 2^count`.
pub fn shifted(value: &Natural, count: u32) -> (r: Natural)
    ensures
        r@ == value@ * pow2(count as nat),
{
    let mut r = value.times_plus(1, 0);
    let mut i: u32 = 0;
    proof {
        lemma2_to64();
    }
    while i < count
        invariant
            i <= count,
            r@ == value@ * pow2(i as nat),
        decreases count - i,
    {
        proof {
            lemma_pow2_unfold((i + 1) as nat);
            assert(value@ * pow2(i as nat) * 2 == value@ * (2 * pow2(i as nat)))
                by (nonlinear_arith);
        }
        r = r.times_plus(2, 0);
        i = i + 1;
    }
    r
}

/// `a / b` to the nearest whole number, for a quotient of at most 53 binary digits.
pub fn divide_half_even(a: &Natural, b: &Natural) -> (r: u64)
    requires
        b@ > 0,
        a@ < b@ * pow2(53),
    ensures
        r == half_even(a@, b@),
        r <= 0x20_0000_0000_0000,
{
    let mut shifts: Vec<Natural> = Vec::new();
    let mut shift = b.times_plus(1, 0);
    let mut i: usize = 0;
    proof {
        lemma2_to64();
    }
    while i < 53
        invariant
            i <= 53,
            shifts@.len() == i,
            shift@ == b@ * pow2(i as nat),
            forall|j: int| 0 <= j < i ==> #[trigger] shifts@[j]@ == b@ * pow2(j as nat),
        decreases 53 - i,
    {
        proof {
            lemma_pow2_unfold((i + 1) as nat);
            assert(b@ * pow2(i as nat) * 2 == b@ * (2 * pow2(i as nat))) by (nonlinear_arith);
        }
        let next = shift.times_plus(2, 0);
        shifts.push(shift);
        shift = next;
        i = i + 1;
    }
    let mut rest = a.times_plus(1, 0);
    let mut quotient: u64 = 0;
    let mut weight: u64 = 0x20_0000_0000_0000;
    proof {
        lemma2_to64();
        lemma2_to64_rest();
    }
    while i > 0
        invariant
            i <= 53,
            shifts@.len() == 53,
            forall|j: int| 0 <= j < 53 ==> #[trigger] shifts@[j]@ == b@ * pow2(j as nat),
            weight == pow2(i as nat),
            weight <= 0x20_0000_0000_0000,
            quotient + weight <= 0x20_0000_0000_0000,
            a@ == quotient * b@ + rest@,
            rest@ < b@ * pow2(i as nat),
        decreases i,
    {
        proof {
            lemma_pow2_unfold(i as nat);
        }
        i = i - 1;
        weight = weight / 2;
        proof {
            assert(b@ * pow2((i + 1) as nat) == b@ * pow2(i as nat) + b@ * pow2(i as nat))
                by (nonlinear_arith)
                requires
                    pow2((i + 1) as nat) == 2 * pow2(i as nat),
            ;
            assert((quotient + weight) * b@ == quotient * b@ + b@ * weight) by (nonlinear_arith);
        }
        if let Some(less) = rest.minus(&shifts[i]) {
            rest = less;
            quotient = quotient + weight;
        }
    }
    proof {
        lemma_mul_basics_3(b@ as int);
        lemma_fundamental_div_mod_converse(a@ as int, b@ as int, quotient as int, rest@ as int);
    }
    let twice = rest.times_plus(2, 0);
    if twice.less_than(b) {
        quotient
    } else if b.less_than(&twice) {
        quotient + 1
    } else if quotient % 2 == 0 {
        quotient
    } else {
        quotient + 1
    }
}

/// The bit pattern of the number nearest to `num / den`.
pub fn nearest(num: &Natural, den: &Natural) -> (r: u64)
    requires
        den@ > 0,
    ensures
        r == nearest_bits(num@, den@),
        r <= INFINITY_BITS,
{
    let whole = shifted(num, 1074);
    let mut unit = den.times_plus(1, 0);
    let mut top = shifted(den, 53);
    let mut q: u64 = 0;
    proof {
        lemma2_to64();
        lemma_mul_basics_3(den@ as int);
        lemma_scale(num@, den@);
    }
    while q < 2047 && !whole.less_than(&top)
        invariant
            q <= 2047,
            whole@ == num@ * pow2(1074),
            unit@ == den@ * pow2(q as nat),
            top@ == den@ * pow2((53 + q) as nat),
            q > 0 ==> den@ * pow2((52 + q) as nat) <= whole@,
        decreases 2047 - q,
    {
        proof {
            lemma_pow2_unfold((q + 1) as nat);
            lemma_pow2_unfold((54 + q) as nat);
            assert(den@ * pow2(q as nat) * 2 == den@ * (2 * pow2(q as nat))) by (nonlinear_arith);
            assert(den@ * pow2((53 + q) as nat) * 2 == den@ * (2 * pow2((53 + q) as nat)))
                by (nonlinear_arith);
        }
        unit = unit.times_plus(2, 0);
        top = top.times_plus(2, 0);
        q = q + 1;
    }
    if q == 2047 {
        proof {
            let s = scale(num@, den@);
            if s < 2047 {
                lemma_pow2_order(53 + s, (52 + q) as nat);
                lemma_mul_inequality(
                    pow2(53 + s) as int,
                    pow2((52 + q) as nat) as int,
                    den@ as int,
                );
                lemma_mul_is_commutative(den@ as int, pow2(53 + s) as int);
                lemma_mul_is_commutative(den@ as int, pow2((52 + q) as nat) as int);
            }
            assert(s * FRACTION_SPAN >= INFINITY_BITS);
        }
        return INFINITY_BITS;
    }
    proof {
        lemma_scale_unique(num@, den@, q as nat);
        lemma_pow2_adds(q as nat, 53);
        assert(den@ * pow2((53 + q) as nat) == unit@ * pow2(53)) by (nonlinear_arith)
            requires
                unit@ == den@ * pow2(q as nat),
                pow2((q + 53) as nat) == pow2(q as nat) * pow2(53),
        ;
        lemma_pow2_pos(q as nat);
        lemma_mul_strictly_positive(den@ as int, pow2(q as nat) as int);
    }
    let significand: u64 = divide_half_even(&whole, &unit);
    let bits: u64 = q * FRACTION_SPAN + significand;
    if bits < INFINITY_BITS {
        bits
    } else {
        INFINITY_BITS
    }
}

/// A larger pattern, sign aside, is a larger number.
pub proof fn law_units_increase(a: nat, b: nat)
    ensures
        a < b ==> units_of(a) < units_of(b),
        a <= b ==> units_of(a) <= units_of(b),
{
    let span = FRACTION_SPAN as nat;
    let ea = a / span;
    let eb = b / span;
    let fa = a % span;
    let fb = b % span;
    lemma2_to64();
    if a < b && ea < eb {
        let top = pow2((eb - 1) as nat);
        lemma_pow2_pos((eb - 1) as nat);
        assert(span * top <= units_of(b)) by (nonlinear_arith)
            requires
                units_of(b) == (span + fb) * top,
                fb >= 0,
        ;
        if ea == 0 {
            assert(span <= span * top) by (nonlinear_arith)
                requires
                    top >= 1,
                    span > 0,
            ;
        } else {
            let low = pow2((ea - 1) as nat);
            lemma_pow2_pos((ea - 1) as nat);
            lemma_pow2_unfold(ea);
            lemma_pow2_order(ea, (eb - 1) as nat);
            assert(units_of(a) < span * (2 * low)) by (nonlinear_arith)
                requires
                    units_of(a) == (span + fa) * low,
                    fa < span,
                    low > 0,
            ;
            assert(span * (2 * low) <= span * top) by (nonlinear_arith)
                requires
                    2 * low <= top,
                    span > 0,
            ;
        }
    } else if a < b {
        assert(ea == eb);
        if ea > 0 {
            let low = pow2((ea - 1) as nat);
            lemma_pow2_pos((ea - 1) as nat);
            assert((span + fa) * low < (span + fb) * low) by (nonlinear_arith)
                requires
                    fa < fb,
                    low > 0,
            ;
        }
    }
}

/// What a pattern is worth that is put together from an exponent and a significand.
proof fn lemma_units_of_parts(q: nat, m: nat)
    requires
        m <= 2 * FRACTION_SPAN,
        q > 0 ==> m >= FRACTION_SPAN,
    ensures
        units_of(q * FRACTION_SPAN as nat + m) == m * pow2(q),
{
    let span = FRACTION_SPAN as nat;
    let bits = q * span + m;
    lemma2_to64();
    if m < span {
        assert(bits / span == 0 && bits % span == m);
        lemma_mul_basics_3(m as int);
    } else if m < 2 * span {
        lemma_fundamental_div_mod_converse(
            bits as int,
            span as int,
            (q + 1) as int,
            (m - span) as int,
        );
    } else {
        lemma_fundamental_div_mod_converse(bits as int, span as int, (q + 2) as int, 0);
        lemma_pow2_unfold(q + 1);
        assert(span * (2 * pow2(q)) == 2 * span * pow2(q)) by (nonlinear_arith);
    }
}

/// What the number nearest to a fraction is worth, where it is finite: the significand at the
/// exponent of the fraction, which has at most 53 binary digits.
pub proof fn lemma_nearest_value(num: nat, den: nat)
    requires
        den > 0,
    ensures
        ({
            let q = scale(num, den);
            let m = half_even(num * pow2(1074), den * pow2(q));
            &&& m <= 2 * FRACTION_SPAN
            &&& q > 0 ==> m >= FRACTION_SPAN
            &&& q * FRACTION_SPAN as nat + m < INFINITY_BITS ==> units_of(nearest_bits(num, den))
                == m * pow2(q)
        }),
{
    let q = scale(num, den);
    let a = num * pow2(1074);
    let b = den * pow2(q);
    let m = half_even(a, b);
    lemma_scale(num, den);
    lemma_pow2_pos(q);
    lemma_mul_strictly_positive(den as int, pow2(q) as int);
    lemma_pow2_adds(q, 53);
    lemma2_to64_rest();
    let quotient = a / b;
    lemma_fundamental_div_mod(a as int, b as int);
    let rest = a % b;
    assert(quotient < pow2(53)) by (nonlinear_arith)
        requires
            a == b * quotient + rest,
            rest >= 0,
            a < den * pow2(53 + q),
            b == den * pow2(q),
            pow2(q + 53) == pow2(q) * pow2(53),
            b > 0,
    ;
    if q > 0 {
        lemma_pow2_adds(q, 52);
        assert(quotient >= pow2(52)) by (nonlinear_arith)
            requires
                a == b * quotient + rest,
                rest < b,
                den * pow2((52 + q) as nat) <= a,
                b == den * pow2(q),
                pow2(q + 52) == pow2(q) * pow2(52),
                b > 0,
        ;
    }
    if q * FRACTION_SPAN as nat + m < INFINITY_BITS {
        lemma_units_of_parts(q, m);
    }
}

/// The number nearest to a fraction is off by at most half a unit of its last binary digit.
pub proof fn law_nearest_is_close(num: nat, den: nat)
    requires
        den > 0,
        nearest_bits(num, den) < INFINITY_BITS,
    ensures
        ({
            let off = units_of(nearest_bits(num, den)) * den - num * pow2(1074);
            let unit = den * pow2(scale(num, den));
            -unit <= 2 * off <= unit
        }),
{
    let q = scale(num, den);
    let a = num * pow2(1074);
    let b = den * pow2(q);
    let m = half_even(a, b);
    lemma_nearest_value(num, den);
    lemma_pow2_pos(q);
    lemma_mul_strictly_positive(den as int, pow2(q) as int);
    lemma_fundamental_div_mod(a as int, b as int);
    let u = units_of(nearest_bits(num, den));
    assert(u * den == m * b) by (nonlinear_arith)
        requires
            u == m * pow2(q),
            b == den * pow2(q),
    ;
    let quotient = a / b;
    let rest = a % b;
    if m == quotient {
        assert(m * b - a == -rest) by (nonlinear_arith)
            requires
                a == b * quotient + rest,
                m == quotient,
        ;
    } else {
        assert(m * b - a == b - rest) by (nonlinear_arith)
            requires
                a == b * quotient + rest,
                m == quotient + 1,
        ;
    }
}

/// A number below two to the power of `k` is rounded at an exponent of at most `k + 1021`.
pub proof fn lemma_scale_bound(num: nat, den: nat, k: nat)
    requires
        den > 0,
        num < den * pow2(k),
    ensures
        scale(num, den) <= k + 1021,
{
    let q = scale(num, den);
    lemma_scale(num, den);
    if q > k + 1021 {
        lemma_pow2_adds(k, 1074);
        lemma_pow2_order(k + 1074, (52 + q) as nat);
        lemma_pow2_pos(1074);
        assert(num * pow2(1074) < den * pow2((52 + q) as nat)) by (nonlinear_arith)
            requires
                num < den * pow2(k),
                pow2(k + 1074) == pow2(k) * pow2(1074),
                pow2(k + 1074) <= pow2((52 + q) as nat),
                pow2(1074) > 0,
                den > 0,
        ;
    }
}

/// What the pattern of a finite number without its sign is worth.
pub fn units(magnitude: u64) -> (r: Natural)
    requires
        magnitude < INFINITY_BITS,
    ensures
        r@ == units_of(magnitude as nat),
{
    let exponent: u64 = magnitude / FRACTION_SPAN;
    let fraction: u64 = magnitude % FRACTION_SPAN;
    if exponent == 0 {
        Natural::from_u64(fraction)
    } else {
        shifted(&Natural::from_u64(FRACTION_SPAN + fraction), (exponent - 1) as u32)
    }
}

/// A double-precision number, by its bit pattern.
#[derive(Debug, Clone, Copy, PartialEq, Eq)]
pub struct Binary64 {
    pub bits: u64,
}

impl Binary64 {
    /// The pattern without its sign.
    pub open spec fn magnitude(self) -> nat {
        (self.bits % SIGN_BIT) as nat
    }

    pub open spec fn is_negative(self) -> bool {
        self.bits >= SIGN_BIT
    }

    pub open spec fn is_nan(self) -> bool {
        self.magnitude() > INFINITY_BITS
    }

    pub open spec fn is_infinite(self) -> bool {
        self.magnitude() == INFINITY_BITS
    }

    /// `self <= 0`, which no comparison with a not-a-number satisfies.
    pub open spec fn at_most_zero(self) -> bool {
        !self.is_nan() && (self.is_negative() || self.magnitude() == 0)
    }

    /// `self > 0`.
    pub open spec fn above_zero(self) -> bool {
        !self.is_nan() && !self.is_negative() && self.magnitude() > 0
    }

    /// `self < bound` for a positive whole number `bound`.
    pub open spec fn below(self, bound: nat) -> bool {
        !self.is_nan() && (self.is_negative() || !self.is_infinite() && units_of(self.magnitude())
            < bound * pow2(1074))
    }

    /// `self * 2^shift` without its fraction, held between zero and the largest 64-bit number;
    /// zero for a not-a-number.
    pub open spec fn truncated(self, shift: nat) -> nat {
        if self.is_nan() || self.is_negative() {
            0
        } else if self.is_infinite() {
            u64::MAX as nat
        } else {
            let whole = units_of(self.magnitude()) * pow2(shift) / pow2(1074);
            if whole <= u64::MAX {
                whole
            } else {
                u64::MAX as nat
            }
        }
    }

    /// `self >= bound` for a positive finite number `bound`.
    pub open spec fn at_least(self, bound: Binary64) -> bool {
        !self.is_nan() && !self.is_negative() && (self.is_infinite() || units_of(bound.magnitude())
            <= units_of(self.magnitude()))
    }

    /// Whether `self >= bound`.
    pub fn is_at_least(&self, bound: &Binary64) -> (r: bool)
        requires
            bound.above_zero(),
            !bound.is_infinite(),
        ensures
            r == self.at_least(*bound),
    {
        proof {
            law_units_increase(self.magnitude(), bound.magnitude());
            law_units_increase(bound.magnitude(), self.magnitude());
        }
        self.bits <= INFINITY_BITS && bound.bits <= self.bits
    }

    /// Whether `self <= 0`.
    pub fn is_at_most_zero(&self) -> (r: bool)
        ensures
            r == self.at_most_zero(),
    {
        let magnitude: u64 = self.bits % SIGN_BIT;
        magnitude <= INFINITY_BITS && (self.bits >= SIGN_BIT || magnitude == 0)
    }

    /// Whether `self > 0`.
    pub fn is_above_zero(&self) -> (r: bool)
        ensures
            r == self.above_zero(),
    {
        let magnitude: u64 = self.bits % SIGN_BIT;
        magnitude <= INFINITY_BITS && self.bits < SIGN_BIT && magnitude > 0
    }

    /// Whether `self < bound`.
    pub fn is_below(&self, bound: u32) -> (r: bool)
        requires
            bound > 0,
        ensures
            r == self.below(bound as nat),
    {
        let magnitude: u64 = self.bits % SIGN_BIT;
        if magnitude > INFINITY_BITS {
            return false;
        }
        if self.bits >= SIGN_BIT {
            return true;
        }
        proof {
            let units = units_of(self.magnitude());
            lemma2_to64();
            lemma_mul_basics_3(units as int);
            lemma_pow2_pos(1074);
            lemma_fundamental_div_mod(units as int, pow2(1074) as int);
            let whole = units / pow2(1074);
            let rest = units % pow2(1074);
            assert(whole < bound <==> units < bound as nat * pow2(1074)) by (nonlinear_arith)
                requires
                    units == pow2(1074) * whole + rest,
                    0 <= rest < pow2(1074),
            ;
        }
        self.truncate(0) < bound as u64
    }

    /// `self * 2^shift` without its fraction.
    pub fn truncate(&self, shift: u32) -> (r: u64)
        requires
            shift <= 64,
        ensures
            r == self.truncated(shift as nat),
    {
        let magnitude: u64 = self.bits % SIGN_BIT;
        if magnitude > INFINITY_BITS || self.bits >= SIGN_BIT {
            return 0;
        }
        if magnitude == INFINITY_BITS {
            return u64::MAX;
        }
        let exponent: u64 = magnitude / FRACTION_SPAN;
        let fraction: u64 = magnitude % FRACTION_SPAN;
        let significand: u64 = if exponent == 0 {
            fraction
        } else {
            FRACTION_SPAN + fraction
        };
        let power: u64 = if exponent == 0 {
            0
        } else {
            exponent - 1
        };
        let total: u64 = power + shift as u64;
        proof {
            let s = significand as nat;
            let units = units_of(self.magnitude());
            lemma2_to64();
            lemma_mul_basics_3(s as int);
            assert(units == s * pow2(power as nat));
            lemma_pow2_adds(power as nat, shift as nat);
            lemma_mul_is_associative(s as int, pow2(power as nat) as int, pow2(shift as nat) as int);
            assert(units * pow2(shift as nat) == s * pow2(total as nat));
            lemma_pow2_pos(1074);
            if total >= 1074 {
                let up = (total - 1074) as nat;
                lemma_pow2_adds(up, 1074);
                lemma_mul_is_associative(s as int, pow2(up) as int, pow2(1074) as int);
                lemma_div_by_multiple((s * pow2(up)) as int, pow2(1074) as int);
            } else {
                let down = (1074 - total) as nat;
                lemma_pow2_adds(total as nat, down);
                lemma_pow2_pos(total as nat);
                lemma_pow2_pos(down);
                lemma_div_denominator(
                    (s * pow2(total as nat)) as int,
                    pow2(total as nat) as int,
                    pow2(down) as int,
                );
                lemma_div_by_multiple(s as int, pow2(total as nat) as int);
            }
        }
        if total >= 1074 {
            raised(significand, (total - 1074) as u32)
        } else {
            lowered(significand, (1074 - total) as u32)
        }
    }
}

/// `value * 2^count`, or the largest 64-bit number where that is too much.
fn raised(value: u64, count: u32) -> (r: u64)
    ensures
        r == (if value * pow2(count as nat) <= u64::MAX {
            value * pow2(count as nat)
        } else {
            u64::MAX as int
        }),
{
    let mut r: u64 = value;
    let mut i: u32 = 0;
    proof {
        lemma2_to64();
        lemma_mul_basics_3(value as int);
    }
    while i < count
        invariant
            i <= count,
            r == value * pow2(i as nat),
        decreases count - i,
    {
        if r > u64::MAX / 2 {
            proof {
                lemma_pow2_unfold((i + 1) as nat);
                lemma_pow2_order((i + 1) as nat, count as nat);
                assert(value * pow2(count as nat) >= 2 * r) by (nonlinear_arith)
                    requires
                        r == value * pow2(i as nat),
                        2 * pow2(i as nat) <= pow2(count as nat),
                        value >= 0,
                ;
            }
            return u64::MAX;
        }
        proof {
            lemma_pow2_unfold((i + 1) as nat);
            assert(value * pow2(i as nat) * 2 == value * (2 * pow2(i as nat))) by (nonlinear_arith);
        }
        r = r * 2;
        i = i + 1;
    }
    r
}

/// `value / 2^count` without its fraction.
fn lowered(value: u64, count: u32) -> (r: u64)
    ensures
        r == value as nat / pow2(count as nat),
{
    let mut r: u64 = value;
    let mut i: u32 = 0;
    proof {
        lemma2_to64();
        lemma_div_basics_2(value as int);
    }
    while i < count
        invariant
            i <= count,
            r == value as nat / pow2(i as nat),
        decreases count - i,
    {
        proof {
            lemma_pow2_unfold((i + 1) as nat);
            lemma_pow2_pos(i as nat);
            lemma_div_denominator(value as int, pow2(i as nat) as int, 2);
            lemma_mul_is_commutative(2, pow2(i as nat) as int);
        }
        r = r / 2;
        i = i + 1;
    }
    r
}

} // verus!
