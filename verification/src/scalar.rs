//! Coordinates as IEEE 754 binary32 bit patterns.
//!
//! Positions, translations and contact normals are single-precision numbers.
//! The library never does arithmetic on them: it stores them, moves them
//! around and compares them. A [`Scalar`] therefore keeps the 32 bits of
//! such a number, and its view is the number those bits denote, so that
//! every comparison the library makes is stated over numbers and proved
//! over bits.

use vstd::prelude::*;
use vstd::arithmetic::power2::{pow2, lemma2_to64, lemma_pow2_adds, lemma_pow2_pos, lemma_pow2_strictly_increases};

verus! {

/// The sign bit of a binary32 pattern.
pub const SIGN_BIT: u32 = 0x8000_0000;

/// The weight of the implicit leading bit of a normal significand (2^23).
pub const HIDDEN_BIT: u32 = 0x0080_0000;

/// The pattern of positive infinity; every larger pattern without sign is a NaN.
pub const INFINITY_BITS: u32 = 0x7f80_0000;

/// The pattern of the machine epsilon, 2^-23.
pub const EPSILON_BITS: u32 = 0x3400_0000;

/// The number that a binary32 bit pattern denotes.
pub enum Number {
    /// Not a number.
    Nan,
    /// An infinity.
    Infinite { negative: bool },
    /// A finite number, counted in units of 2^-149, the least positive
    /// binary32 number. Both zeros are `units == 0`.
    Finite { units: int },
}

impl Number {
    /// The machine epsilon, 2^-23, which is 2^126 units.
    pub open spec fn epsilon() -> Number {
        Number::Finite { units: pow2(126) as int }
    }

    /// The number of opposite sign.
    pub open spec fn neg(self) -> Number {
        match self {
            Number::Nan => Number::Nan,
            Number::Infinite { negative } => Number::Infinite { negative: !negative },
            Number::Finite { units } => Number::Finite { units: -units },
        }
    }

    /// `self > other` as IEEE 754 orders numbers: false as soon as one side
    /// is not a number.
    pub open spec fn gt(self, other: Number) -> bool {
        match (self, other) {
            (Number::Nan, _) => false,
            (_, Number::Nan) => false,
            (Number::Infinite { negative: a }, Number::Infinite { negative: b }) => !a && b,
            (Number::Infinite { negative }, Number::Finite { .. }) => !negative,
            (Number::Finite { .. }, Number::Infinite { negative }) => negative,
            (Number::Finite { units: a }, Number::Finite { units: b }) => a > b,
        }
    }

    /// `self < other` as IEEE 754 orders numbers.
    pub open spec fn lt(self, other: Number) -> bool {
        other.gt(self)
    }
}

/// A binary32 number, held as its bit pattern.
///
/// Two scalars are `==` when their bits are the same, which is finer than
/// numeric equality: the two zeros differ, and a NaN equals itself.
#[derive(Clone, Copy, Debug, PartialEq, Eq, Structural)]
pub struct Scalar {
    pub bits: u32,
}

/// A point or a direction in the plane.
pub type Vector = (Scalar, Scalar);

impl Scalar {
    /// Whether the sign bit is set.
    pub open spec fn negative(self) -> bool {
        self.bits >= SIGN_BIT
    }

    /// The pattern without its sign bit.
    pub open spec fn modulus(self) -> int {
        self.bits as int % (SIGN_BIT as int)
    }

    /// The biased exponent field.
    pub open spec fn exponent(self) -> int {
        self.modulus() / (HIDDEN_BIT as int)
    }

    /// The fraction field.
    pub open spec fn fraction(self) -> int {
        self.modulus() % (HIDDEN_BIT as int)
    }

    /// The absolute value of a finite pattern, in units of 2^-149.
    pub open spec fn magnitude(self) -> int {
        if self.exponent() == 0 {
            self.fraction()
        } else {
            (HIDDEN_BIT as int + self.fraction()) * pow2((self.exponent() - 1) as nat)
        }
    }

    /// The scalar with the given bit pattern.
    pub fn from_bits(bits: u32) -> (r: Scalar)
        ensures
            r.bits == bits,
    {
        Scalar { bits }
    }

    /// The bit pattern.
    pub fn to_bits(self) -> (r: u32)
        ensures
            r == self.bits,
    {
        self.bits
    }

    /// The machine epsilon.
    pub fn epsilon() -> (r: Scalar)
        ensures
            r.bits == EPSILON_BITS,
            r@ == Number::epsilon(),
    {
        proof {
            lemma_epsilon();
        }
        Scalar { bits: EPSILON_BITS }
    }

    /// The scalar of opposite sign.
    pub fn neg(self) -> (r: Scalar)
        ensures
            r@ == self@.neg(),
            r.modulus() == self.modulus(),
            r.negative() != self.negative(),
    {
        if self.bits >= SIGN_BIT {
            Scalar { bits: self.bits - SIGN_BIT }
        } else {
            Scalar { bits: self.bits + SIGN_BIT }
        }
    }

    /// Whether `self > other`, as the hardware compares binary32 numbers.
    pub fn gt(self, other: Scalar) -> (r: bool)
        ensures
            r == self@.gt(other@),
    {
        let a: u32 = self.bits % SIGN_BIT;
        let b: u32 = other.bits % SIGN_BIT;
        if a > INFINITY_BITS || b > INFINITY_BITS {
            return false;
        }
        proof {
            lemma_magnitude_order(self, other);
            lemma_magnitude_order(other, self);
        }
        if self.bits >= SIGN_BIT {
            other.bits >= SIGN_BIT && a < b
        } else if other.bits >= SIGN_BIT {
            a > 0 || b > 0
        } else {
            a > b
        }
    }

    /// Whether `self < other`, as the hardware compares binary32 numbers.
    pub fn lt(self, other: Scalar) -> (r: bool)
        ensures
            r == self@.lt(other@),
    {
        other.gt(self)
    }
}

impl View for Scalar {
    type V = Number;

    open spec fn view(&self) -> Number {
        if self.modulus() > INFINITY_BITS {
            Number::Nan
        } else if self.modulus() == INFINITY_BITS {
            Number::Infinite { negative: self.negative() }
        } else {
            Number::Finite {
                units: if self.negative() {
                    -self.magnitude()
                } else {
                    self.magnitude()
                },
            }
        }
    }
}

/// A larger modulus gives a larger magnitude.
proof fn lemma_magnitude_increases(x: Scalar, y: Scalar)
    requires
        x.modulus() < y.modulus(),
    ensures
        0 <= x.magnitude() < y.magnitude(),
{
    let h = HIDDEN_BIT as int;
    let (ex, fx) = (x.exponent(), x.fraction());
    let (ey, fy) = (y.exponent(), y.fraction());
    assert(x.modulus() == ex * h + fx && y.modulus() == ey * h + fy);
    assert(0 <= ex <= ey <= 255);
    if ex == ey {
        if ex > 0 {
            let p = pow2((ex - 1) as nat) as int;
            lemma_pow2_pos((ex - 1) as nat);
            assert(0 <= (h + fx) * p < (h + fy) * p) by (nonlinear_arith)
                requires
                    0 <= fx < fy,
                    h > 0,
                    p > 0,
            ;
        }
    } else {
        let q = pow2((ey - 1) as nat) as int;
        let px = pow2(ex as nat) as int;
        lemma_pow2_pos(ex as nat);
        if ex < ey - 1 {
            lemma_pow2_strictly_increases(ex as nat, (ey - 1) as nat);
        }
        assert(h * px <= (h + fy) * q) by (nonlinear_arith)
            requires
                0 < px <= q,
                h > 0,
                fy >= 0,
        ;
        if ex == 0 {
            lemma2_to64();
            assert(h * px == h) by (nonlinear_arith)
                requires
                    px == 1,
            ;
        } else {
            let p = pow2((ex - 1) as nat) as int;
            lemma_pow2_pos((ex - 1) as nat);
            lemma_pow2_adds(1, (ex - 1) as nat);
            lemma2_to64();
            assert(0 <= (h + fx) * p < h * px) by (nonlinear_arith)
                requires
                    0 <= fx < h,
                    p > 0,
                    px == 2 * p,
            ;
        }
    }
}

/// The order of the moduli is the order of the magnitudes, and only the
/// modulus of the zeros has magnitude zero.
proof fn lemma_magnitude_order(x: Scalar, y: Scalar)
    ensures
        x.magnitude() >= 0,
        x.modulus() == 0 <==> x.magnitude() == 0,
        x.modulus() < y.modulus() <==> x.magnitude() < y.magnitude(),
{
    let zero = Scalar { bits: 0 };
    assert(zero.magnitude() == 0);
    if x.modulus() > 0 {
        lemma_magnitude_increases(zero, x);
    }
    if x.modulus() < y.modulus() {
        lemma_magnitude_increases(x, y);
    }
    if y.modulus() < x.modulus() {
        lemma_magnitude_increases(y, x);
    }
}

/// The epsilon pattern denotes 2^-23.
proof fn lemma_epsilon()
    ensures
        (Scalar { bits: EPSILON_BITS })@ == Number::epsilon(),
{
    let e = Scalar { bits: EPSILON_BITS };
    assert(e.exponent() == 104 && e.fraction() == 0);
    lemma2_to64();
    lemma_pow2_adds(23, 103);
    assert(HIDDEN_BIT as int == pow2(23));
}

} // verus!
