//! Decimal fixed-point quantities.
//!
//! Every measured or commanded quantity in this crate (angles in degrees,
//! fluxes in counts, areas in pixels, wavelengths in nanometres) is a
//! [`Fixed`]: a signed count of billionths of its unit. Sums and differences
//! of such values are exact, and the only rounding that ever happens is the
//! one a function names in its contract.

use vstd::prelude::*;

verus! {

/// Decimal digits kept after the point.
pub const FRACTION_DIGITS: usize = 9;

/// Billionths in one whole unit.
pub const NANOS_PER_UNIT: i64 = 1_000_000_000;

/// A quantity counted in billionths of its unit.
#[derive(Clone, Copy, Debug, PartialEq, Eq, Structural)]
pub struct Fixed {
    pub nanos: i64,
}

impl View for Fixed {
    type V = int;

    open spec fn view(&self) -> int {
        self.nanos as int
    }
}

/// The quantity of `v` billionths. Meaningful where `v` is representable.
pub open spec fn fixed(v: int) -> Fixed {
    Fixed { nanos: v as i64 }
}

/// Whether `v` billionths can be stored in a [`Fixed`].
pub open spec fn representable(v: int) -> bool {
    i64::MIN <= v <= i64::MAX
}

/// Ten to the power `k`.
pub open spec fn pow10(k: nat) -> int
    decreases k,
{
    if k == 0 {
        1
    } else {
        10 * pow10((k - 1) as nat)
    }
}

/// The integer nearest to `num / den`; a value exactly half way between two
/// integers goes to the one farther from zero.
pub open spec fn round_div(num: int, den: int) -> int
    recommends
        den > 0,
{
    if num >= 0 {
        (2 * num + den) / (2 * den)
    } else {
        -((den - 2 * num) / (2 * den))
    }
}

/// `x` rounded to `digits` decimal digits after the point, in billionths.
/// With nine digits or more nothing is left to round.
pub open spec fn rounded_to_digits(x: int, digits: nat) -> int {
    if digits >= 9 {
        x
    } else {
        round_div(x, pow10((9 - digits) as nat)) * pow10((9 - digits) as nat)
    }
}

/// Every power of ten is at least one.
pub proof fn lemma_pow10_positive(k: nat)
    ensures
        pow10(k) >= 1,
    decreases k,
{
    if k > 0 {
        lemma_pow10_positive((k - 1) as nat);
    }
}

/// The larger exponent gives the larger power of ten, or the same.
pub proof fn lemma_pow10_monotonic(a: nat, b: nat)
    requires
        a <= b,
    ensures
        pow10(a) <= pow10(b),
    decreases b,
{
    if a < b {
        lemma_pow10_monotonic(a, (b - 1) as nat);
        lemma_pow10_positive((b - 1) as nat);
    }
}

/// The powers of ten up to ten to the eighteenth.
pub proof fn lemma_pow10_values()
    ensures
        pow10(0) == 1,
        pow10(1) == 10,
        pow10(2) == 100,
        pow10(3) == 1_000,
        pow10(4) == 10_000,
        pow10(5) == 100_000,
        pow10(6) == 1_000_000,
        pow10(7) == 10_000_000,
        pow10(8) == 100_000_000,
        pow10(9) == 1_000_000_000,
        pow10(10) == 10_000_000_000,
        pow10(11) == 100_000_000_000,
        pow10(12) == 1_000_000_000_000,
        pow10(13) == 10_000_000_000_000,
        pow10(14) == 100_000_000_000_000,
        pow10(15) == 1_000_000_000_000_000,
        pow10(16) == 10_000_000_000_000_000,
        pow10(17) == 100_000_000_000_000_000,
        pow10(18) == 1_000_000_000_000_000_000,
{
    reveal_with_fuel(pow10, 20);
}

/// `round_div` differs from the exact quotient by at most one half, and it
/// keeps the sign of the numerator.
pub proof fn lemma_round_div_is_nearest(num: int, den: int)
    requires
        den > 0,
    ensures
        -den <= 2 * (num - round_div(num, den) * den) <= den,
        num >= 0 ==> round_div(num, den) >= 0,
        num <= 0 ==> round_div(num, den) <= 0,
        round_div(-num, den) == -round_div(num, den),
{
    let m = if num >= 0 { num } else { -num };
    let q = (2 * m + den) / (2 * den);
    let r = (2 * m + den) % (2 * den);
    vstd::arithmetic::div_mod::lemma_fundamental_div_mod(2 * m + den, 2 * den);
    vstd::arithmetic::div_mod::lemma_mod_bound(2 * m + den, 2 * den);
    vstd::arithmetic::div_mod::lemma_div_pos_is_pos(2 * m + den, 2 * den);
    assert((2 * den) * q == 2 * (q * den)) by (nonlinear_arith);
    assert(2 * (m - q * den) == r - den);
    assert((-q) * den == -(q * den)) by (nonlinear_arith);
    vstd::arithmetic::div_mod::lemma_basic_div(den, 2 * den);
    if num > 0 {
        assert(round_div(num, den) == q);
        assert(round_div(-num, den) == -q);
    } else if num < 0 {
        assert(round_div(num, den) == -q);
        assert(round_div(-num, den) == q);
    } else {
        assert(q == 0);
    }
}

/// A multiple of the divisor is its own rounding.
pub proof fn lemma_round_div_of_multiple(q: int, den: int)
    requires
        den > 0,
    ensures
        round_div(q * den, den) == q,
{
    let m = if q >= 0 { q } else { -q };
    assert(m * den >= 0) by (nonlinear_arith)
        requires
            m >= 0,
            den > 0,
    ;
    assert(2 * (m * den) + den == m * (2 * den) + den) by (nonlinear_arith);
    vstd::arithmetic::div_mod::lemma_fundamental_div_mod_converse(
        2 * (m * den) + den,
        2 * den,
        m,
        den,
    );
    if q >= 0 {
        assert(q * den == m * den);
    } else {
        assert(q * den == -(m * den)) by (nonlinear_arith)
            requires
                m == -q,
        ;
        if m * den == 0 {
            assert(q * den == 0);
            assert(m == 0) by (nonlinear_arith)
                requires
                    m * den == 0,
                    den > 0,
                    m >= 0,
            ;
        }
    }
}

impl Fixed {
    /// The value of `nanos` billionths.
    pub fn from_nanos(nanos: i64) -> (r: Fixed)
        ensures
            r@ == nanos,
    {
        Fixed { nanos }
    }

    /// The value of `units` whole units, where it can be stored.
    pub fn from_units(units: i64) -> (r: Option<Fixed>)
        ensures
            representable(units * NANOS_PER_UNIT) <==> r is Some,
            r is Some ==> r->Some_0@ == units * NANOS_PER_UNIT,
    {
        match units.checked_mul(NANOS_PER_UNIT) {
            Some(nanos) => Some(Fixed { nanos }),
            None => None,
        }
    }

    /// The count of billionths.
    pub fn nanos(&self) -> (r: i64)
        ensures
            r == self@,
    {
        self.nanos
    }

    /// The exact sum, where it can be stored.
    pub fn checked_add(self, other: Fixed) -> (r: Option<Fixed>)
        ensures
            representable(self@ + other@) <==> r is Some,
            r is Some ==> r->Some_0@ == self@ + other@,
    {
        match self.nanos.checked_add(other.nanos) {
            Some(nanos) => Some(Fixed { nanos }),
            None => None,
        }
    }

    /// The exact difference, where it can be stored.
    pub fn checked_sub(self, other: Fixed) -> (r: Option<Fixed>)
        ensures
            representable(self@ - other@) <==> r is Some,
            r is Some ==> r->Some_0@ == self@ - other@,
    {
        match self.nanos.checked_sub(other.nanos) {
            Some(nanos) => Some(Fixed { nanos }),
            None => None,
        }
    }
}

/// Ten to the power `k` as a machine integer.
pub fn power_of_ten(k: usize) -> (r: i64)
    requires
        k <= 18,
    ensures
        r == pow10(k as nat),
        1 <= r <= 1_000_000_000_000_000_000,
{
    proof {
        lemma_pow10_values();
    }
    let mut r: i64 = 1;
    let mut i: usize = 0;
    while i < k
        invariant
            i <= k <= 18,
            r == pow10(i as nat),
            pow10(18) == 1_000_000_000_000_000_000,
        decreases k - i,
    {
        proof {
            lemma_pow10_monotonic((i + 1) as nat, 18);
            lemma_pow10_positive(i as nat);
        }
        r = r * 10;
        i = i + 1;
    }
    proof {
        lemma_pow10_monotonic(k as nat, 18);
        lemma_pow10_positive(k as nat);
    }
    r
}

/// Rounding looks at the remainder only: the quotient goes up by one exactly
/// when twice the remainder reaches the divisor.
pub proof fn lemma_round_div_by_remainder(n: int, d: int)
    requires
        n >= 0,
        d > 0,
    ensures
        round_div(n, d) == n / d + (if n % d >= d - n % d { 1int } else { 0int }),
{
    let q = n / d;
    let r = n % d;
    vstd::arithmetic::div_mod::lemma_fundamental_div_mod(n, d);
    vstd::arithmetic::div_mod::lemma_mod_bound(n, d);
    if r >= d - r {
        assert(2 * n + d == (2 * d) * (q + 1) + (2 * r - d)) by (nonlinear_arith)
            requires
                n == d * q + r,
        ;
        vstd::arithmetic::div_mod::lemma_fundamental_div_mod_converse(
            2 * n + d,
            2 * d,
            q + 1,
            2 * r - d,
        );
    } else {
        assert(2 * n + d == (2 * d) * q + (2 * r + d)) by (nonlinear_arith)
            requires
                n == d * q + r,
        ;
        vstd::arithmetic::div_mod::lemma_fundamental_div_mod_converse(
            2 * n + d,
            2 * d,
            q,
            2 * r + d,
        );
    }
}

/// A quotient that lies between two integers is rounded to an integer
/// between them.
pub proof fn lemma_round_div_between(num: int, den: int, lo: int, hi: int)
    requires
        den > 0,
        lo * den <= num <= hi * den,
    ensures
        lo <= round_div(num, den) <= hi,
{
    let q = round_div(num, den);
    lemma_round_div_is_nearest(num, den);
    assert(q <= hi) by (nonlinear_arith)
        requires
            2 * (num - q * den) >= -den,
            num <= hi * den,
            den > 0,
    ;
    assert(lo <= q) by (nonlinear_arith)
        requires
            2 * (num - q * den) <= den,
            lo * den <= num,
            den > 0,
    ;
}

/// Rounding a quotient is the same whatever common factor its two parts
/// carry.
pub proof fn lemma_round_div_scaled(num: int, den: int, k: int)
    requires
        den > 0,
        k > 0,
    ensures
        round_div(num * k, den * k) == round_div(num, den),
{
    let m = if num >= 0 { num } else { -num };
    vstd::arithmetic::div_mod::lemma_div_multiples_vanish_quotient(k, 2 * m + den, 2 * den);
    assert(k * (2 * m + den) == 2 * (m * k) + den * k) by (nonlinear_arith);
    assert(k * (2 * den) == 2 * (den * k)) by (nonlinear_arith);
    assert((-m) * k == -(m * k)) by (nonlinear_arith);
    assert(m * k >= 0) by (nonlinear_arith)
        requires
            m >= 0,
            k > 0,
    ;
    if num < 0 {
        assert(num * k < 0) by (nonlinear_arith)
            requires
                num < 0,
                k > 0,
        ;
    }
}

/// The larger of two numerators has the larger rounded quotient, or the
/// same.
pub proof fn lemma_round_div_ordered(a: int, b: int, den: int)
    requires
        a <= b,
        den > 0,
    ensures
        round_div(a, den) <= round_div(b, den),
{
    if a >= 0 {
        vstd::arithmetic::div_mod::lemma_div_is_ordered(2 * a + den, 2 * b + den, 2 * den);
    } else if b < 0 {
        vstd::arithmetic::div_mod::lemma_div_is_ordered(den - 2 * b, den - 2 * a, 2 * den);
    } else {
        lemma_round_div_is_nearest(a, den);
        lemma_round_div_is_nearest(b, den);
    }
}

/// `round_div` on machine integers.
pub fn round_quotient(num: i128, den: i128) -> (q: i128)
    requires
        den > 0,
        num > i128::MIN,
    ensures
        q == round_div(num as int, den as int),
{
    let d: u128 = den as u128;
    let n: u128 = if num >= 0 { num as u128 } else { (-num) as u128 };
    let whole: u128 = n / d;
    let rest: u128 = n % d;
    proof {
        lemma_round_div_by_remainder(n as int, den as int);
        lemma_round_div_is_nearest(num as int, den as int);
        vstd::arithmetic::div_mod::lemma_fundamental_div_mod(n as int, den as int);
        vstd::arithmetic::div_mod::lemma_mod_bound(n as int, den as int);
        if rest >= d - rest {
            assert(whole < n) by (nonlinear_arith)
                requires
                    n == d * whole + rest,
                    rest >= d - rest,
                    rest < d,
                    d >= 1,
                    whole >= 0,
            ;
        } else {
            assert(whole <= n) by (nonlinear_arith)
                requires
                    n == d * whole + rest,
                    rest >= 0,
                    d >= 1,
                    whole >= 0,
            ;
        }
    }
    let q: u128 = if rest >= d - rest { whole + 1 } else { whole };
    if num >= 0 {
        q as i128
    } else {
        -(q as i128)
    }
}

/// Point `i` of `count` evenly spaced values from `start` to `stop`, both
/// included, each rounded to a multiple of `unit`.
pub open spec fn spaced(start: int, stop: int, count: int, i: int, unit: int) -> int {
    round_div(start * (count - 1 - i) + stop * i, (count - 1) * unit) * unit
}

/// Every evenly spaced point lies between the two ends, where these are
/// multiples of the unit.
pub proof fn lemma_spaced_between(
    start: int,
    stop: int,
    count: int,
    i: int,
    unit: int,
    lo: int,
    hi: int,
)
    requires
        count >= 2,
        0 <= i < count,
        unit >= 1,
        lo * unit <= start <= hi * unit,
        lo * unit <= stop <= hi * unit,
    ensures
        lo * unit <= spaced(start, stop, count, i, unit) <= hi * unit,
{
    let den = count - 1;
    let num = start * (den - i) + stop * i;
    assert(lo * (den * unit) <= num) by (nonlinear_arith)
        requires
            num == start * (den - i) + stop * i,
            lo * unit <= start,
            lo * unit <= stop,
            0 <= i <= den,
    ;
    assert(num <= hi * (den * unit)) by (nonlinear_arith)
        requires
            num == start * (den - i) + stop * i,
            start <= hi * unit,
            stop <= hi * unit,
            0 <= i <= den,
    ;
    assert(den * unit > 0) by (nonlinear_arith)
        requires
            den >= 1,
            unit >= 1,
    ;
    lemma_round_div_between(num, den * unit, lo, hi);
    let q = round_div(num, den * unit);
    assert(lo * unit <= q * unit <= hi * unit) by (nonlinear_arith)
        requires
            lo <= q <= hi,
            unit >= 1,
    ;
}

/// The first point is the start and the last point is the stop, each
/// rounded to a multiple of the unit.
pub proof fn lemma_spaced_ends(start: int, stop: int, count: int, unit: int)
    requires
        count >= 2,
        unit >= 1,
    ensures
        spaced(start, stop, count, 0, unit) == round_div(start, unit) * unit,
        spaced(start, stop, count, count - 1, unit) == round_div(stop, unit) * unit,
{
    let den = count - 1;
    lemma_round_div_scaled(start, unit, den);
    lemma_round_div_scaled(stop, unit, den);
    assert(unit * den == den * unit) by (nonlinear_arith);
    assert(start * (den - 0) + stop * 0 == start * den) by (nonlinear_arith);
    assert(start * (den - den) + stop * den == stop * den) by (nonlinear_arith);
}

/// From a start to a stop that is no smaller, no point is smaller than the
/// point before it.
pub proof fn lemma_spaced_ascends(start: int, stop: int, count: int, i: int, unit: int)
    requires
        count >= 2,
        unit >= 1,
        start <= stop,
        0 <= i < count - 1,
    ensures
        spaced(start, stop, count, i, unit) <= spaced(start, stop, count, i + 1, unit),
{
    let den = count - 1;
    let here = start * (den - i) + stop * i;
    let next = start * (den - (i + 1)) + stop * (i + 1);
    assert(next == here + (stop - start)) by (nonlinear_arith)
        requires
            here == start * (den - i) + stop * i,
            next == start * (den - (i + 1)) + stop * (i + 1),
    ;
    assert(den * unit > 0) by (nonlinear_arith)
        requires
            den >= 1,
            unit >= 1,
    ;
    lemma_round_div_ordered(here, next, den * unit);
    assert(round_div(here, den * unit) * unit <= round_div(next, den * unit) * unit)
        by (nonlinear_arith)
        requires
            round_div(here, den * unit) <= round_div(next, den * unit),
            unit >= 1,
    ;
}

/// `spaced` on machine integers.
pub fn spaced_point(start: Fixed, stop: Fixed, count: usize, i: usize, unit: i64) -> (r: i128)
    requires
        count >= 2,
        i < count,
        1 <= unit <= 1_000_000_000_000_000_000,
    ensures
        r == spaced(start@, stop@, count as int, i as int, unit as int),
{
    let den: i128 = (count - 1) as i128;
    let first: i128 = den - (i as i128);
    let second: i128 = i as i128;
    proof {
        let a = start@;
        let b = stop@;
        assert(-0x8000_0000_0000_0000 * first <= a * first <= 0x8000_0000_0000_0000 * first)
            by (nonlinear_arith)
            requires
                -0x8000_0000_0000_0000 <= a <= 0x8000_0000_0000_0000,
                0 <= first,
        ;
        assert(-0x8000_0000_0000_0000 * second <= b * second <= 0x8000_0000_0000_0000 * second)
            by (nonlinear_arith)
            requires
                -0x8000_0000_0000_0000 <= b <= 0x8000_0000_0000_0000,
                0 <= second,
        ;
        assert(1 <= den * unit <= 0xffff_ffff_ffff_ffff * 1_000_000_000_000_000_000)
            by (nonlinear_arith)
            requires
                1 <= den <= 0xffff_ffff_ffff_ffff,
                1 <= unit <= 1_000_000_000_000_000_000,
        ;
    }
    let num: i128 = (start.nanos as i128) * first + (stop.nanos as i128) * second;
    let divisor: i128 = den * (unit as i128);
    let q: i128 = round_quotient(num, divisor);
    proof {
        lemma_round_div_is_nearest(num as int, divisor as int);
        let w = q * unit;
        assert(q * divisor == w * den) by (nonlinear_arith)
            requires
                divisor == den * unit,
                w == q * unit,
        ;
        assert(-0x8000_0000_0000_0000 - unit <= w <= 0x8000_0000_0000_0000 + unit)
            by (nonlinear_arith)
            requires
                -(den * unit) <= 2 * (num - w * den) <= den * unit,
                1 <= den,
                1 <= unit,
                -0x8000_0000_0000_0000 * den <= num <= 0x8000_0000_0000_0000 * den,
        ;
    }
    q * (unit as i128)
}

/// `x` rounded to `digits` decimal digits after the point. `None` where the
/// rounded value is too large to store.
pub fn round_to_digits(x: Fixed, digits: usize) -> (r: Option<Fixed>)
    ensures
        representable(rounded_to_digits(x@, digits as nat)) <==> r is Some,
        r is Some ==> r->Some_0@ == rounded_to_digits(x@, digits as nat),
{
    if digits >= FRACTION_DIGITS {
        return Some(x);
    }
    let step: i64 = power_of_ten(FRACTION_DIGITS - digits);
    let q: i128 = round_quotient(x.nanos as i128, step as i128);
    proof {
        lemma_round_div_is_nearest(x@, step as int);
        assert(-0x1_0000_0000_0000_0000 <= q <= 0x1_0000_0000_0000_0000) by (nonlinear_arith)
            requires
                -step <= 2 * (x@ - q * step) <= step,
                step >= 1,
                -0x8000_0000_0000_0000 <= x@ <= 0x8000_0000_0000_0000,
        ;
        assert(-0x1_0000_0000_0000_0000 * 1_000_000_000_000_000_000 <= q * step
            <= 0x1_0000_0000_0000_0000 * 1_000_000_000_000_000_000) by (nonlinear_arith)
            requires
                -0x1_0000_0000_0000_0000 <= q <= 0x1_0000_0000_0000_0000,
                1 <= step <= 1_000_000_000_000_000_000,
        ;
    }
    let v: i128 = q * (step as i128);
    if v < i64::MIN as i128 || v > i64::MAX as i128 {
        None
    } else {
        Some(Fixed { nanos: v as i64 })
    }
}

} // verus!
