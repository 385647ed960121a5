use vstd::prelude::*;

verus! {

use vstd::math::abs;

/// Number of fractional digits every `Decimal` carries.
pub const DEC_SCALE: u32 = 6;

/// `10 ^ DEC_SCALE`: one whole unit, counted in fractional units.
pub const DEC_ONE: i128 = 1_000_000;

/// Largest magnitude a `Decimal` can hold, in fractional units.
pub const DEC_BOUND: i128 = 1_000_000_000_000_000_000;

/// `10 ^ n` as a mathematical integer.
pub open spec fn pow10(n: nat) -> int
    decreases n,
{
    if n == 0 {
        1
    } else {
        10 * pow10((n - 1) as nat)
    }
}

pub proof fn lemma_pow10_positive(n: nat)
    ensures
        pow10(n) >= 1,
    decreases n,
{
    if n > 0 {
        lemma_pow10_positive((n - 1) as nat);
    }
}

pub proof fn lemma_pow10_increases(a: nat, b: nat)
    requires
        a <= b,
    ensures
        pow10(a) <= pow10(b),
    decreases b,
{
    if a < b {
        lemma_pow10_increases(a, (b - 1) as nat);
        lemma_pow10_positive((b - 1) as nat);
    }
}

pub proof fn lemma_pow10_adds(a: nat, b: nat)
    ensures
        pow10(a + b) == pow10(a) * pow10(b),
    decreases a,
{
    if a > 0 {
        lemma_pow10_adds((a - 1) as nat, b);
        assert(10 * ((pow10((a - 1) as nat)) * pow10(b)) == (10 * pow10((a - 1) as nat)) * pow10(
        b)) by (nonlinear_arith);
    }
}

/// Whether `x`, in fractional units, lies strictly beyond the
/// tolerance `0.5 * 10^-p` whole units.
pub open spec fn exceeds_tol(x: int, p: nat) -> bool {
    2 * (abs(x) as int) * pow10(p) > pow10(DEC_SCALE as nat)
}

/// Saturation of an integer into the representable range.
pub open spec fn dec_sat(x: int) -> int {
    if x > DEC_BOUND as int {
        DEC_BOUND as int
    } else if x < -(DEC_BOUND as int) {
        -(DEC_BOUND as int)
    } else {
        x
    }
}

/// The exact value of a product of two decimal values, truncated
/// toward zero at `DEC_SCALE` fractional digits, before saturation.
pub open spec fn dec_mul_raw(a: int, b: int) -> int {
    let p = ((abs(a) as int) * (abs(b) as int)) / (DEC_ONE as int);
    if (a < 0) <==> (b < 0) {
        p
    } else {
        -p
    }
}

/// The value a `Decimal` multiplication yields.
pub open spec fn dec_mul(a: int, b: int) -> int {
    dec_sat(dec_mul_raw(a, b))
}

/// A signed fixed-point decimal with `DEC_SCALE` fractional digits.
/// The value saturates at `DEC_BOUND` fractional units; within that
/// range every arithmetic operation below is exact, so equality is
/// numeric and zero has a single representation.
#[derive(Clone, Copy, Debug, PartialEq, Eq, Structural)]
pub struct Decimal {
    units: i128,
}

impl View for Decimal {
    type V = int;

    closed spec fn view(&self) -> int {
        self.units as int
    }
}

impl Decimal {
    #[verifier::type_invariant]
    pub closed spec fn inv(self) -> bool {
        -(DEC_BOUND as int) <= self.units as int <= DEC_BOUND as int
    }

    /// Whether this value lies strictly beyond the balance tolerance
    /// `0.5 * 10^-precision`.
    pub fn exceeds_tolerance(self, precision: u32) -> (r: bool)
        ensures
            r == exceeds_tol(self@, precision as nat),
    {
        proof {
            use_type_invariant(self);
        }
        let a: i128 = if self.units < 0 {
            -self.units
        } else {
            self.units
        };
        proof {
            assert(a as int == abs(self@) as int);
        }
        if a == 0 {
            proof {
                lemma_pow10_positive(DEC_SCALE as nat);
                assert(2 * (abs(self@) as int) * pow10(precision as nat) == 0)
                    by (nonlinear_arith)
                    requires
                        abs(self@) as int == 0,
                ;
            }
            false
        } else if precision >= DEC_SCALE {
            proof {
                lemma_pow10_increases(DEC_SCALE as nat, precision as nat);
                lemma_pow10_positive(DEC_SCALE as nat);
                assert(2 * (abs(self@) as int) * pow10(precision as nat) > pow10(DEC_SCALE as nat))
                    by (nonlinear_arith)
                    requires
                        abs(self@) as int >= 1,
                        pow10(precision as nat) >= pow10(DEC_SCALE as nat),
                        pow10(DEC_SCALE as nat) >= 1,
                ;
            }
            true
        } else {
            let threshold: i128 = pow10_small(DEC_SCALE - precision);
            let r = 2 * a > threshold;
            proof {
                lemma_pow10_adds(precision as nat, (DEC_SCALE - precision) as nat);
                lemma_pow10_positive(precision as nat);
                assert((threshold as int) * pow10(precision as nat) == pow10(DEC_SCALE as nat));
                assert((2 * (a as int) > threshold as int) == (2 * (a as int) * pow10(
                precision as nat) > (threshold as int) * pow10(precision as nat)))
                    by (nonlinear_arith)
                    requires
                        pow10(precision as nat) >= 1,
                ;
                assert(r == exceeds_tol(self@, precision as nat));
            }
            r
        }
    }

    /// The zero value.
    pub fn zero() -> (r: Decimal)
        ensures
            r@ == 0,
    {
        Decimal { units: 0 }
    }

    /// Builds a decimal out of raw fractional units (`10 ^ -DEC_SCALE` each).
    pub fn from_units(u: i64) -> (r: Decimal)
        ensures
            r@ == dec_sat(u as int),
    {
        Decimal { units: clamp_units(u as i128) }
    }

    /// Builds a decimal that holds the whole number `n`.
    pub fn from_int(n: i64) -> (r: Decimal)
        ensures
            r@ == dec_sat(n as int * (DEC_ONE as int)),
    {
        let wide: i128 = (n as i128) * (DEC_ONE as i128);
        Decimal { units: clamp_units(wide) }
    }

    /// Builds the decimal `mantissa * 10^-scale`.
    pub fn new(mantissa: i64, scale: u32) -> (r: Decimal)
        requires
            scale <= DEC_SCALE,
        ensures
            r@ == dec_sat(mantissa as int * pow10((DEC_SCALE - scale) as nat)),
    {
        let f: i128 = pow10_small(DEC_SCALE - scale);
        proof {
            lemma_pow10_increases(((DEC_SCALE - scale) as nat), 6nat);
            assert((mantissa as int) * (f as int) <= i64::MAX * 1_000_000 && (mantissa as int) * (
            f as int) >= i64::MIN * 1_000_000) by (nonlinear_arith)
                requires
                    1 <= f as int <= 1_000_000,
                    i64::MIN <= mantissa as int <= i64::MAX,
            ;
        }
        let wide: i128 = (mantissa as i128) * f;
        Decimal { units: clamp_units(wide) }
    }

    /// The raw fractional units this decimal holds.
    pub fn units(self) -> (r: i128)
        ensures
            r as int == self@,
    {
        self.units
    }

    /// Saturating addition.
    pub fn add(self, other: Decimal) -> (r: Decimal)
        ensures
            r@ == dec_sat(self@ + other@),
    {
        proof {
            use_type_invariant(self);
            use_type_invariant(other);
        }
        Decimal { units: clamp_units(self.units + other.units) }
    }

    /// Saturating subtraction.
    pub fn sub(self, other: Decimal) -> (r: Decimal)
        ensures
            r@ == dec_sat(self@ - other@),
    {
        proof {
            use_type_invariant(self);
            use_type_invariant(other);
        }
        Decimal { units: clamp_units(self.units - other.units) }
    }

    /// Exact negation: the representable range is symmetric.
    pub fn neg(self) -> (r: Decimal)
        ensures
            r@ == -self@,
    {
        proof {
            use_type_invariant(self);
        }
        Decimal { units: -self.units }
    }

    /// Exact absolute value.
    pub fn abs_value(self) -> (r: Decimal)
        ensures
            r@ == abs(self@),
    {
        proof {
            use_type_invariant(self);
        }
        if self.units < 0 {
            Decimal { units: -self.units }
        } else {
            Decimal { units: self.units }
        }
    }

    /// Multiplication, truncated toward zero at `DEC_SCALE` digits.
    pub fn mul(self, other: Decimal) -> (r: Decimal)
        ensures
            r@ == dec_mul(self@, other@),
    {
        proof {
            use_type_invariant(self);
            use_type_invariant(other);
        }
        let a: i128 = self.units;
        let b: i128 = other.units;
        let negative: bool = (a < 0) != (b < 0);
        let aa: i128 = if a < 0 {
            -a
        } else {
            a
        };
        let bb: i128 = if b < 0 {
            -b
        } else {
            b
        };
        proof {
            assert((aa as int) * (bb as int) <= (DEC_BOUND as int) * (DEC_BOUND as int))
                by (nonlinear_arith)
                requires
                    0 <= aa as int <= DEC_BOUND as int,
                    0 <= bb as int <= DEC_BOUND as int,
            ;
        }
        let wide: u128 = (aa as u128) * (bb as u128);
        let q: u128 = wide / (DEC_ONE as u128);
        proof {
            assert(q <= wide);
            assert(q as int == ((abs(self@) as int) * (abs(other@) as int)) / (DEC_ONE as int));
        }
        let qi: i128 = q as i128;
        let clamped: i128 = clamp_units(qi);
        if negative {
            Decimal { units: -clamped }
        } else {
            Decimal { units: clamped }
        }
    }

    /// Numeric comparison: strictly less.
    pub fn lt(self, other: Decimal) -> (r: bool)
        ensures
            r == (self@ < other@),
    {
        self.units < other.units
    }

    /// Numeric comparison: less or equal.
    pub fn le(self, other: Decimal) -> (r: bool)
        ensures
            r == (self@ <= other@),
    {
        self.units <= other.units
    }

    /// Whether this decimal is exactly zero.
    pub fn is_zero(self) -> (r: bool)
        ensures
            r == (self@ == 0),
    {
        self.units == 0
    }
}

/// Clamps raw units into the representable range.
fn clamp_units(x: i128) -> (r: i128)
    ensures
        r as int == dec_sat(x as int),
{
    if x > DEC_BOUND {
        DEC_BOUND
    } else if x < -DEC_BOUND {
        -DEC_BOUND
    } else {
        x
    }
}

/// `10 ^ e` for small exponents.
pub fn pow10_small(e: u32) -> (r: i128)
    requires
        e <= 6,
    ensures
        r as int == pow10(e as nat),
        1 <= r <= 1_000_000,
{
    let mut r: i128 = 1;
    let mut i: u32 = 0;
    while i < e
        invariant
            i <= e <= 6,
            r as int == pow10(i as nat),
            1 <= r as int <= pow10(i as nat),
        decreases e - i,
    {
        proof {
            lemma_pow10_increases((i + 1) as nat, 6nat);
            reveal_with_fuel(pow10, 7);
            assert(pow10(6nat) == 1_000_000);
        }
        r = r * 10;
        i = i + 1;
    }
    proof {
        lemma_pow10_increases(e as nat, 6nat);
        reveal_with_fuel(pow10, 7);
        assert(pow10(6nat) == 1_000_000);
    }
    r
}

} // verus!
