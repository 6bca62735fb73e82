//! Decimal fixed-point numbers.
//!
//! Every number the library handles is an integer count of units of
//! 10^-18. Arithmetic on such counts is exact; the only places where
//! information can be lost are the reading of a decimal literal with more
//! than eighteen fractional digits (the excess digits are dropped) and
//! magnitudes beyond 10^18 (they saturate).

use vstd::prelude::*;

verus! {

/// Number of units in one: 10^18.
pub const SCALE: i128 = 1_000_000_000_000_000_000;

/// Largest magnitude a `Decimal` holds, in units: 10^36, the number 10^18.
pub const LIMIT: i128 = 1_000_000_000_000_000_000_000_000_000_000_000_000;

/// One full turn, 360 degrees, in units.
pub const TURN: i128 = 360_000_000_000_000_000_000;

/// Units in 1/64: a tick of a 64 Hz clock, in seconds.
pub const TICK: i128 = 15_625_000_000_000_000;

/// Ten to the power `n`.
pub open spec fn pow10(n: nat) -> nat
    decreases n,
{
    if n == 0 {
        1
    } else {
        10 * pow10((n - 1) as nat)
    }
}

/// `u` brought into the range from `-LIMIT` to `LIMIT`.
pub open spec fn clamped(u: int) -> int {
    if u > LIMIT {
        LIMIT as int
    } else if u < -LIMIT {
        -LIMIT as int
    } else {
        u
    }
}

/// The magnitude, in units, of the literal `mantissa * 10^exponent`:
/// digits below the eighteenth fractional place are dropped.
pub open spec fn magnitude_of(mantissa: nat, exponent: int) -> nat {
    if exponent >= -18 {
        mantissa * pow10((exponent + 18) as nat)
    } else {
        mantissa / pow10((-18 - exponent) as nat)
    }
}

/// The count of units that the literal `(+/-) mantissa * 10^exponent` reads as.
pub open spec fn reading(positive: bool, mantissa: nat, exponent: int) -> int {
    let m = clamped(magnitude_of(mantissa, exponent) as int);
    if positive {
        m
    } else {
        -m
    }
}

/// The number of low digits that a magnitude of `u` units has to lose
/// for the rest to fit into 64 bits.
pub open spec fn excess_digits(u: nat) -> nat
    decreases u,
{
    if u <= u64::MAX {
        0
    } else {
        1 + excess_digits(u / 10)
    }
}

/// Absolute value.
pub open spec fn magnitude(u: int) -> int {
    if u >= 0 {
        u
    } else {
        -u
    }
}

/// The integer part of `u` units, rounded toward zero.
pub open spec fn whole_part(u: int) -> int {
    if u >= 0 {
        u / (SCALE as int)
    } else {
        -((-u) / (SCALE as int))
    }
}

/// The whole number nearest to `u` units; of two that are equally near,
/// the one farther from zero.
pub open spec fn nearest_whole(u: int) -> int {
    if u >= 0 {
        (u + SCALE / 2) / (SCALE as int)
    } else {
        -((-u + SCALE / 2) / (SCALE as int))
    }
}

/// The fractional part of the magnitude of `u` units, in units: what
/// `whole_part` leaves off, without its sign.
pub open spec fn fraction_part(u: int) -> int {
    magnitude(u) % (SCALE as int)
}

/// An angle of `u` units folded into one turn: the one value in
/// `[0, TURN)` that differs from `u` by a whole number of turns.
pub open spec fn folded(u: int) -> int {
    u % (TURN as int)
}

/// A decimal fixed-point number: a count of units of 10^-18 between
/// `-LIMIT` and `LIMIT`. Its view is that count.
#[derive(Clone, Copy, Debug, PartialEq, Eq, Hash, Structural)]
pub struct Decimal {
    units: i128,
}

impl View for Decimal {
    type V = int;

    closed spec fn view(&self) -> int {
        self.units as int
    }
}

/// A power of ten is at least one.
pub proof fn lemma_pow10_positive(n: nat)
    ensures
        pow10(n) >= 1,
    decreases n,
{
    if n > 0 {
        lemma_pow10_positive((n - 1) as nat);
    }
}

/// Ten to the eighteenth is the scale, and the limit is its square.
pub proof fn lemma_pow10_18()
    ensures
        pow10(18) == SCALE,
        pow10(36) == LIMIT,
{
    reveal_with_fuel(pow10, 37);
}

/// Where none of the digits that `to_parts` leaves off is set, its
/// literal reads back as the number.
pub proof fn lemma_parts_read_back(u: int)
    requires
        -LIMIT <= u <= LIMIT,
        magnitude(u) % (pow10(excess_digits(magnitude(u) as nat)) as int) == 0,
    ensures
        reading(
            u >= 0,
            (magnitude(u) / (pow10(excess_digits(magnitude(u) as nat)) as int)) as nat,
            excess_digits(magnitude(u) as nat) - 18,
        ) == u,
{
    let k = excess_digits(magnitude(u) as nat);
    let p = pow10(k) as int;
    lemma_pow10_positive(k);
    vstd::arithmetic::div_mod::lemma_fundamental_div_mod(magnitude(u), p);
    vstd::arithmetic::div_mod::lemma_div_pos_is_pos(magnitude(u), p);
    let m = (magnitude(u) / p) as nat;
    assert(m * pow10(k) == p * (magnitude(u) / p)) by (nonlinear_arith)
        requires
            m == magnitude(u) / p,
            p == pow10(k),
    ;
    assert(magnitude_of(m, k - 18) == m * pow10(k));
}

/// The nearest whole number is the integer part where the fractional part
/// is below a half, and the next one away from zero where it is a half or
/// more; it is never farther than a half from the number.
pub proof fn lemma_nearest_whole(u: int)
    ensures
        magnitude(nearest_whole(u)) == magnitude(whole_part(u)) + (if 2 * fraction_part(u)
            < SCALE {
            0int
        } else {
            1int
        }),
        u >= 0 ==> nearest_whole(u) >= 0,
        u <= 0 ==> nearest_whole(u) <= 0,
        2 * magnitude(u - nearest_whole(u) * SCALE) <= SCALE,
{
    let m = magnitude(u);
    let s = SCALE as int;
    vstd::arithmetic::div_mod::lemma_fundamental_div_mod(m, s);
    vstd::arithmetic::div_mod::lemma_fundamental_div_mod(m + s / 2, s);
    let q = m / s;
    let f = m % s;
    if 2 * f < s {
        vstd::arithmetic::div_mod::lemma_fundamental_div_mod_converse(m + s / 2, s, q, f + s / 2);
    } else {
        vstd::arithmetic::div_mod::lemma_fundamental_div_mod_converse(
            m + s / 2,
            s,
            q + 1,
            f - s / 2,
        );
    }
}

/// Folding brings every angle into one turn.
pub proof fn lemma_folded_is_in_turn(u: int)
    ensures
        0 <= folded(u) < TURN,
{
}

/// Folding a folded angle changes nothing.
pub proof fn lemma_folded_is_idempotent(u: int)
    ensures
        folded(folded(u)) == folded(u),
{
    vstd::arithmetic::div_mod::lemma_mod_twice(u, TURN as int);
}

/// Angles that differ by whole turns fold into the same angle.
pub proof fn lemma_folded_ignores_turns(u: int, k: int)
    ensures
        folded(u + k * TURN) == folded(u),
{
    vstd::arithmetic::div_mod::lemma_mod_multiples_vanish(k, u, TURN as int);
    assert(TURN * k + u == u + k * TURN) by (nonlinear_arith);
}

/// The integer part and the fractional part make up the number: the
/// magnitude is the magnitude of the integer part in units, plus the
/// fractional part, which is less than one.
pub proof fn lemma_whole_and_fraction(u: int)
    ensures
        magnitude(u) == magnitude(whole_part(u)) * SCALE + fraction_part(u),
        0 <= fraction_part(u) < SCALE,
        u >= 0 ==> whole_part(u) >= 0,
        u <= 0 ==> whole_part(u) <= 0,
{
    vstd::arithmetic::div_mod::lemma_fundamental_div_mod(magnitude(u), SCALE as int);
}

impl Decimal {
    #[verifier::type_invariant]
    spec fn in_range(self) -> bool {
        -LIMIT <= self.units <= LIMIT
    }

    /// The decimal of `units` units, saturating at the limits.
    pub fn from_units(units: i128) -> (r: Decimal)
        ensures
            r@ == clamped(units as int),
    {
        if units > LIMIT {
            Decimal { units: LIMIT }
        } else if units < -LIMIT {
            Decimal { units: -LIMIT }
        } else {
            Decimal { units }
        }
    }

    /// The count of units.
    pub fn units(&self) -> (r: i128)
        ensures
            r == self@,
            -LIMIT <= r <= LIMIT,
    {
        proof {
            use_type_invariant(self);
        }
        self.units
    }

    /// The whole number `n`, saturating at the limits.
    pub fn from_integer(n: i128) -> (r: Decimal)
        ensures
            r@ == clamped(n * SCALE),
            -SCALE <= n <= SCALE ==> r@ == n * SCALE,
    {
        assert(-SCALE <= n <= SCALE ==> -LIMIT <= n * SCALE <= LIMIT) by (nonlinear_arith);
        assert(n > SCALE ==> n * SCALE > LIMIT) by (nonlinear_arith);
        assert(n < -SCALE ==> n * SCALE < -LIMIT) by (nonlinear_arith);
        if n > SCALE {
            Decimal { units: LIMIT }
        } else if n < -SCALE {
            Decimal { units: -LIMIT }
        } else {
            Decimal { units: n * SCALE }
        }
    }

    /// `ticks` sixty-fourths, exactly.
    pub fn from_ticks(ticks: u64) -> (r: Decimal)
        ensures
            r@ == ticks * TICK,
            r@ * 64 == ticks * SCALE,
    {
        Decimal { units: (ticks as i128) * TICK }
    }

    /// Whether the two decimals are the same number.
    pub fn same(&self, other: &Decimal) -> (r: bool)
        ensures
            r == (self@ == other@),
            r == (*self == *other),
    {
        self.units == other.units
    }

    /// Whether the number is below zero.
    pub fn is_negative(&self) -> (r: bool)
        ensures
            r == (self@ < 0),
    {
        self.units < 0
    }

    /// Reads the literal `(+/-) mantissa * 10^exponent`.
    pub fn from_parts(positive: bool, mantissa: u64, exponent: i16) -> (r: Decimal)
        ensures
            r@ == reading(positive, mantissa as nat, exponent as int),
    {
        let mut m: i128 = mantissa as i128;
        if exponent >= -18 {
            let ghost target: nat = mantissa as nat * pow10((exponent + 18) as nat);
            let mut left: i32 = exponent as i32 + 18;
            while left > 0 && m > 0 && m < LIMIT
                invariant
                    0 <= left,
                    0 <= m <= LIMIT,
                    clamped(m * pow10(left as nat)) == clamped(target as int),
                decreases left,
            {
                proof {
                    let rest = pow10((left - 1) as nat);
                    lemma_pow10_positive((left - 1) as nat);
                    assert(pow10(left as nat) == 10 * rest);
                    assert(m * (10 * rest) == (m * 10) * rest) by (nonlinear_arith);
                    if m > LIMIT / 10 {
                        assert((m * 10) * rest >= m * 10) by (nonlinear_arith)
                            requires
                                m > 0,
                                rest >= 1,
                        ;
                        assert(LIMIT * rest >= LIMIT) by (nonlinear_arith)
                            requires
                                rest >= 1,
                        ;
                    }
                }
                m = if m > LIMIT / 10 {
                    LIMIT
                } else {
                    m * 10
                };
                left = left - 1;
            }
            proof {
                lemma_pow10_positive(left as nat);
                let rest = pow10(left as nat);
                if left == 0 {
                    assert(m * rest == m) by (nonlinear_arith)
                        requires
                            rest == 1,
                    ;
                } else if m == 0 {
                    assert(m * rest == 0) by (nonlinear_arith)
                        requires
                            m == 0,
                    ;
                } else {
                    assert(m * rest >= m) by (nonlinear_arith)
                        requires
                            m > 0,
                            rest >= 1,
                    ;
                }
                assert(m == clamped(target as int));
            }
        } else {
            let ghost total: nat = (-18 - exponent) as nat;
            let mut left: i32 = -18 - exponent as i32;
            while left > 0 && m > 0
                invariant
                    0 <= left <= total,
                    0 <= m <= mantissa,
                    m as int / (pow10(left as nat) as int) == mantissa as int / (pow10(total) as int),
                decreases left,
            {
                proof {
                    let rest = pow10((left - 1) as nat);
                    lemma_pow10_positive((left - 1) as nat);
                    assert(pow10(left as nat) == 10 * rest);
                    vstd::arithmetic::div_mod::lemma_div_denominator(m as int, 10, rest as int);
                }
                m = m / 10;
                left = left - 1;
            }
            proof {
                lemma_pow10_positive(left as nat);
                lemma_pow10_positive(total);
                let d = pow10(left as nat) as int;
                if left != 0 {
                    vstd::arithmetic::div_mod::lemma_div_of0(d);
                    assert(m as int / d == 0);
                } else {
                    assert(d == 1);
                    assert(m as int / d == m) by (nonlinear_arith)
                        requires
                            d == 1,
                    ;
                }
                assert(m as int == mantissa as int / (pow10(total) as int));
                assert(magnitude_of(mantissa as nat, exponent as int) == mantissa as nat / pow10(
                    total,
                ));
                assert(m == magnitude_of(mantissa as nat, exponent as int));
            }
        }
        if positive {
            Decimal { units: m }
        } else {
            Decimal { units: -m }
        }
    }

    /// The number as a literal `(+/-) mantissa * 10^exponent`: the sign, the
    /// mantissa and the exponent. The mantissa is the magnitude in units
    /// without its `excess_digits`, and the exponent counts from the
    /// eighteenth fractional place.
    pub fn to_parts(&self) -> (r: (bool, u64, i16))
        ensures
            r.0 == (self@ >= 0),
            r.1 == magnitude(self@) / (pow10(excess_digits(magnitude(self@) as nat)) as int),
            r.2 == excess_digits(magnitude(self@) as nat) - 18,
            -18 <= r.2 <= 0,
    {
        proof {
            use_type_invariant(self);
        }
        let positive = self.units >= 0;
        let ghost start: nat = magnitude(self@) as nat;
        let mut m: u128 = if positive {
            self.units as u128
        } else {
            (-self.units) as u128
        };
        let mut dropped: i16 = 0;
        proof {
            assert(pow10(0) == 1);
            assert(start as int / 1 == start);
            assert(m as int * 1 == m);
        }
        while m > 0xffff_ffff_ffff_ffff
            invariant
                0 <= dropped <= 18,
                m as int * pow10(dropped as nat) <= LIMIT,
                m == start as int / (pow10(dropped as nat) as int),
                excess_digits(start) == dropped + excess_digits(m as nat),
            decreases m,
        {
            proof {
                let rest = pow10(dropped as nat);
                lemma_pow10_positive(dropped as nat);
                vstd::arithmetic::div_mod::lemma_div_denominator(start as int, rest as int, 10);
                assert(pow10((dropped + 1) as nat) == 10 * rest);
                assert(rest * 10 == 10 * rest) by (nonlinear_arith);
                if dropped == 18 {
                    lemma_pow10_18();
                    assert(m <= SCALE) by (nonlinear_arith)
                        requires
                            m as int * SCALE <= LIMIT,
                            LIMIT == SCALE * SCALE,
                            SCALE > 0,
                    ;
                    assert(false);
                }
                assert((m as int / 10) * (10 * rest) <= m as int * rest) by (nonlinear_arith)
                    requires
                        m >= 0,
                        rest >= 0,
                ;
            }
            m = m / 10;
            dropped = dropped + 1;
        }
        (positive, m as u64, dropped - 18)
    }

    /// The integer part, rounded toward zero.
    pub fn whole(&self) -> (r: i64)
        ensures
            r == whole_part(self@),
            -SCALE <= r <= SCALE,
    {
        proof {
            use_type_invariant(self);
        }
        if self.units >= 0 {
            (self.units / SCALE) as i64
        } else {
            -(((-self.units) / SCALE) as i64)
        }
    }

    /// The nearest whole number; of two that are equally near, the one
    /// farther from zero.
    pub fn nearest(&self) -> (r: i64)
        ensures
            r == nearest_whole(self@),
            -SCALE <= r <= SCALE,
    {
        proof {
            use_type_invariant(self);
        }
        if self.units >= 0 {
            ((self.units + SCALE / 2) / SCALE) as i64
        } else {
            -(((-self.units + SCALE / 2) / SCALE) as i64)
        }
    }

    /// The fractional part of the magnitude, in units.
    pub fn fraction(&self) -> (r: u64)
        ensures
            r == fraction_part(self@),
            r < SCALE,
    {
        proof {
            use_type_invariant(self);
        }
        if self.units >= 0 {
            (self.units % SCALE) as u64
        } else {
            ((-self.units) % SCALE) as u64
        }
    }

    /// The sum, saturating at the limits.
    pub fn plus(&self, other: &Decimal) -> (r: Decimal)
        ensures
            r@ == clamped(self@ + other@),
    {
        proof {
            use_type_invariant(self);
            use_type_invariant(other);
        }
        Decimal::from_units(self.units + other.units)
    }

    /// The difference, saturating at the limits.
    pub fn minus(&self, other: &Decimal) -> (r: Decimal)
        ensures
            r@ == clamped(self@ - other@),
    {
        proof {
            use_type_invariant(self);
            use_type_invariant(other);
        }
        Decimal::from_units(self.units - other.units)
    }

    /// A hundred times the number, saturating at the limits.
    pub fn hundredfold(&self) -> (r: Decimal)
        ensures
            r@ == clamped(100 * self@),
    {
        proof {
            use_type_invariant(self);
        }
        Decimal::from_units(self.units * 100)
    }

    /// The integer part of twice the number, rounded toward zero.
    pub fn whole_of_double(&self) -> (r: i64)
        ensures
            r == whole_part(2 * self@),
    {
        proof {
            use_type_invariant(self);
        }
        let twice: i128 = self.units * 2;
        if twice >= 0 {
            (twice / SCALE) as i64
        } else {
            -(((-twice) / SCALE) as i64)
        }
    }

    /// The angle folded into one turn.
    pub fn fold(&self) -> (r: Decimal)
        ensures
            r@ == folded(self@),
            0 <= r@ < TURN,
    {
        proof {
            use_type_invariant(self);
        }
        let m: i128 = self.units % TURN;
        if m < 0 {
            Decimal { units: m + TURN }
        } else {
            Decimal { units: m }
        }
    }
}

} // verus!
