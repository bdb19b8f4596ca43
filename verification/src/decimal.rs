//! Exact decimal numbers and the rounding of them to whole units.

use vstd::prelude::*;

verus! {

/// Ten to the power of `k`.
pub open spec fn pow10(k: nat) -> nat
    decreases k,
{
    if k == 0 {
        1
    } else {
        10 * pow10((k - 1) as nat)
    }
}

/// The multiple count of `d` nearest to the non-negative `n`; a tie goes up.
pub open spec fn nearest(n: int, d: int) -> int
    recommends
        n >= 0,
        d > 0,
{
    if 2 * (n % d) >= d {
        n / d + 1
    } else {
        n / d
    }
}

/// `n / d` rounded to the nearest integer, a tie away from zero.
pub open spec fn round_half_away(n: int, d: int) -> int
    recommends
        d > 0,
{
    if n >= 0 {
        nearest(n, d)
    } else {
        -nearest(-n, d)
    }
}

/// The number `mantissa / 10^scale` in units of `10^-precision`, rounded to a
/// whole number of them, a tie away from zero.
pub open spec fn rounded_units(mantissa: int, scale: nat, precision: nat) -> int {
    if scale <= precision {
        mantissa * pow10((precision - scale) as nat)
    } else {
        round_half_away(mantissa, pow10((scale - precision) as nat) as int)
    }
}

/// Powers of ten are positive and grow with the exponent.
pub proof fn lemma_pow10_grows(i: nat, j: nat)
    requires
        i <= j,
    ensures
        1 <= pow10(i) <= pow10(j),
    decreases j,
{
    if j == 0 {
    } else if i == j {
        lemma_pow10_grows((i - 1) as nat, (i - 1) as nat);
    } else {
        lemma_pow10_grows(i, (j - 1) as nat);
    }
}

/// The values of the powers of ten that the arithmetic below leans on.
proof fn lemma_pow10_values()
    ensures
        pow10(19) == 10000000000000000000,
        pow10(38) == 100000000000000000000000000000000000000,
        pow10(39) == 1000000000000000000000000000000000000000,
{
    assert(pow10(0) == 1);
    assert(pow10(1) == 10);
    assert(pow10(2) == 100);
    assert(pow10(3) == 1000);
    assert(pow10(4) == 10000);
    assert(pow10(5) == 100000);
    assert(pow10(6) == 1000000);
    assert(pow10(7) == 10000000);
    assert(pow10(8) == 100000000);
    assert(pow10(9) == 1000000000);
    assert(pow10(10) == 10000000000);
    assert(pow10(11) == 100000000000);
    assert(pow10(12) == 1000000000000);
    assert(pow10(13) == 10000000000000);
    assert(pow10(14) == 100000000000000);
    assert(pow10(15) == 1000000000000000);
    assert(pow10(16) == 10000000000000000);
    assert(pow10(17) == 100000000000000000);
    assert(pow10(18) == 1000000000000000000);
    assert(pow10(19) == 10000000000000000000);
    assert(pow10(20) == 100000000000000000000);
    assert(pow10(21) == 1000000000000000000000);
    assert(pow10(22) == 10000000000000000000000);
    assert(pow10(23) == 100000000000000000000000);
    assert(pow10(24) == 1000000000000000000000000);
    assert(pow10(25) == 10000000000000000000000000);
    assert(pow10(26) == 100000000000000000000000000);
    assert(pow10(27) == 1000000000000000000000000000);
    assert(pow10(28) == 10000000000000000000000000000);
    assert(pow10(29) == 100000000000000000000000000000);
    assert(pow10(30) == 1000000000000000000000000000000);
    assert(pow10(31) == 10000000000000000000000000000000);
    assert(pow10(32) == 100000000000000000000000000000000);
    assert(pow10(33) == 1000000000000000000000000000000000);
    assert(pow10(34) == 10000000000000000000000000000000000);
    assert(pow10(35) == 100000000000000000000000000000000000);
    assert(pow10(36) == 1000000000000000000000000000000000000);
    assert(pow10(37) == 10000000000000000000000000000000000000);
    assert(pow10(38) == 100000000000000000000000000000000000000);
    assert(pow10(39) == 1000000000000000000000000000000000000000);
}

/// A product with a power of ten is at least as far from zero as the product
/// with a smaller one.
proof fn lemma_scaled_grows(m: int, i: nat, j: nat)
    requires
        i <= j,
    ensures
        m >= 0 ==> m * pow10(i) <= m * pow10(j),
        m <= 0 ==> m * pow10(j) <= m * pow10(i),
{
    lemma_pow10_grows(i, j);
    let a = pow10(i) as int;
    let b = pow10(j) as int;
    assert(m >= 0 && a <= b ==> m * a <= m * b) by (nonlinear_arith);
    assert(m <= 0 && a <= b ==> m * b <= m * a) by (nonlinear_arith);
}

/// A non-negative number that is less than half the divisor rounds to zero.
proof fn lemma_nearest_small(n: int, d: int)
    requires
        0 <= n,
        2 * n < d,
    ensures
        nearest(n, d) == 0,
{
    assert(n / d == 0 && n % d == n) by (nonlinear_arith)
        requires
            0 <= n < d,
    ;
}

/// An exact decimal number: `mantissa / 10^scale`.
#[derive(Clone, Copy, Debug, PartialEq, Eq, Structural)]
pub struct Decimal {
    pub mantissa: i128,
    pub scale: u32,
}

impl Decimal {
    /// What `round_to` returns: the rounded number of units, if it fits.
    pub open spec fn rounded(&self, precision: u32) -> Option<i64> {
        let units = rounded_units(self.mantissa as int, self.scale as nat, precision as nat);
        if i64::MIN <= units <= i64::MAX {
            Some(units as i64)
        } else {
            None
        }
    }

    /// What `checked_mul` returns: the exact product, if it can be held.
    pub open spec fn product(&self, other: Decimal) -> Option<Decimal> {
        let mantissa = self.mantissa * other.mantissa;
        let scale = self.scale + other.scale;
        if i128::MIN <= mantissa <= i128::MAX && scale <= u32::MAX {
            Some(Decimal { mantissa: mantissa as i128, scale: scale as u32 })
        } else {
            None
        }
    }

    /// The whole number `units`.
    pub fn from_units(units: i64) -> (number: Decimal)
        ensures
            number == (Decimal { mantissa: units as i128, scale: 0 }),
    {
        Decimal { mantissa: units as i128, scale: 0 }
    }

    /// The exact product of two numbers, or `None` where its mantissa or its
    /// scale cannot be held.
    pub fn checked_mul(&self, other: &Decimal) -> (result: Option<Decimal>)
        ensures
            result == self.product(*other),
    {
        match (self.mantissa.checked_mul(other.mantissa), self.scale.checked_add(other.scale)) {
            (Some(mantissa), Some(scale)) => Some(Decimal { mantissa, scale }),
            _ => None,
        }
    }

    /// The number in units of `10^-precision`, rounded to the nearest whole
    /// unit with a tie going away from zero, or `None` where the units do not
    /// fit in an `i64`.
    pub fn round_to(&self, precision: u32) -> (result: Option<i64>)
        ensures
            result == self.rounded(precision),
    {
        if self.scale <= precision {
            self.scale_up(precision - self.scale)
        } else {
            self.scale_down(self.scale - precision)
        }
    }

    /// `mantissa * 10^k`, if it fits in an `i64`.
    fn scale_up(&self, k: u32) -> (result: Option<i64>)
        ensures
            ({
                let units = self.mantissa * pow10(k as nat);
                result == (if i64::MIN <= units <= i64::MAX {
                    Some(units as i64)
                } else {
                    None::<i64>
                })
            }),
    {
        let m: i128 = self.mantissa;
        if m == 0 {
            assert(0 * pow10(k as nat) == 0) by (nonlinear_arith);
            return Some(0);
        }
        if m < -9223372036854775808 || m > 9223372036854775807 {
            proof {
                lemma_scaled_grows(m as int, 0, k as nat);
                assert(m * pow10(0) == m) by (nonlinear_arith)
                    requires
                        pow10(0) == 1,
                ;
            }
            return None;
        }
        let mut value: i128 = m;
        let mut i: u32 = 0;
        assert(m * pow10(0) == m) by (nonlinear_arith)
            requires
                pow10(0) == 1,
        ;
        while i < k
            invariant
                i <= k,
                m == self.mantissa,
                value == m * pow10(i as nat),
                i64::MIN <= value <= i64::MAX,
            decreases k - i,
        {
            let next: i128 = value * 10;
            proof {
                let p = pow10(i as nat) as int;
                assert(m * (10 * p) == (m * p) * 10) by (nonlinear_arith);
                assert(pow10((i + 1) as nat) == 10 * pow10(i as nat));
            }
            if next < -9223372036854775808 || next > 9223372036854775807 {
                proof {
                    lemma_scaled_grows(m as int, (i + 1) as nat, k as nat);
                    lemma_pow10_grows(0, (i + 1) as nat);
                    let p = pow10((i + 1) as nat) as int;
                    assert(m > 0 && p >= 1 ==> m * p > 0) by (nonlinear_arith);
                    assert(m < 0 && p >= 1 ==> m * p < 0) by (nonlinear_arith);
                }
                return None;
            }
            value = next;
            i = i + 1;
        }
        Some(value as i64)
    }

    /// `mantissa / 10^k` rounded half away from zero, if it fits in an `i64`.
    fn scale_down(&self, k: u32) -> (result: Option<i64>)
        requires
            k >= 1,
        ensures
            ({
                let units = round_half_away(self.mantissa as int, pow10(k as nat) as int);
                result == (if i64::MIN <= units <= i64::MAX {
                    Some(units as i64)
                } else {
                    None::<i64>
                })
            }),
    {
        let m: i128 = self.mantissa;
        let n: u128 = if m >= 0 {
            m as u128
        } else if m == i128::MIN {
            170141183460469231731687303715884105728
        } else {
            (-m) as u128
        };
        assert(n == (if m >= 0 { m as int } else { -(m as int) }));
        if k >= 39 {
            proof {
                lemma_pow10_values();
                lemma_pow10_grows(39, k as nat);
                lemma_nearest_small(n as int, pow10(k as nat) as int);
            }
            return Some(0);
        }
        let mut d: u128 = 1;
        let mut i: u32 = 0;
        while i < k
            invariant
                i <= k <= 38,
                d == pow10(i as nat),
            decreases k - i,
        {
            proof {
                lemma_pow10_values();
                lemma_pow10_grows((i + 1) as nat, 38);
            }
            d = d * 10;
            i = i + 1;
        }
        proof {
            lemma_pow10_grows(0, k as nat);
        }
        let q: u128 = n / d;
        let r: u128 = n % d;
        let magnitude: u128 = if r >= d - r { q + 1 } else { q };
        assert(magnitude == nearest(n as int, d as int));
        if m >= 0 {
            if magnitude <= 9223372036854775807 {
                Some(magnitude as i64)
            } else {
                None
            }
        } else {
            if magnitude <= 9223372036854775808 {
                Some((-(magnitude as i128)) as i64)
            } else {
                None
            }
        }
    }
}

} // verus!
