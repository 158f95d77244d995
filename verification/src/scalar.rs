//! Single-precision reals as their IEEE 754 binary32 encodings.
//!
//! The solver works in single precision. This crate never computes with such
//! numbers: it carries each one as the 32 bits of its encoding and compares
//! encodings as the numbers they stand for compare.
use vstd::arithmetic::power2::{lemma2_to64, lemma_pow2_strictly_increases, lemma_pow2_unfold, pow2};
use vstd::prelude::*;

verus! {

/// The encoding of positive infinity; encodings with a larger magnitude are
/// not numbers.
pub const INFINITY_BITS: u32 = 0x7f80_0000;

/// The sign bit of an encoding.
pub const SIGN_BIT: u32 = 0x8000_0000;

/// The hidden leading bit of a normal significand, as an integer.
pub const HIDDEN_BIT: u32 = 0x80_0000;

/// A single-precision real number, held as its binary32 encoding.
///
/// `==` on two scalars compares encodings: it tells `+0` from `-0` and
/// finds a not-a-number equal to itself. The numeric comparisons are
/// [`Scalar::lt`], [`Scalar::gt`] and [`Scalar::le`].
#[derive(Clone, Copy, Debug, PartialEq, Eq, Structural, Hash)]
pub struct Scalar {
    pub bits: u32,
}

impl Scalar {
    /// The encoding without its sign bit.
    pub open spec fn magnitude(self) -> int {
        if self.bits >= SIGN_BIT {
            self.bits - SIGN_BIT
        } else {
            self.bits as int
        }
    }

    /// Whether the sign bit is set.
    pub open spec fn negative(self) -> bool {
        self.bits >= SIGN_BIT
    }

    /// Whether the encoding stands for no number.
    pub open spec fn spec_is_nan(self) -> bool {
        self.magnitude() > INFINITY_BITS
    }

    /// An integer that orders the numbers as the reals order them: of two
    /// scalars that are numbers, the smaller has the smaller rank, and equal
    /// numbers (`+0` and `-0` among them) have equal ranks.
    pub open spec fn rank(self) -> int {
        if self.negative() {
            -self.magnitude()
        } else {
            self.magnitude()
        }
    }

    /// The exponent field of the encoding.
    pub open spec fn exponent_field(self) -> int {
        self.magnitude() / 0x80_0000
    }

    /// The fraction field of the encoding.
    pub open spec fn fraction_field(self) -> int {
        self.magnitude() % 0x80_0000
    }

    /// The number that the scalar stands for, counted in units of
    /// `2^-149`, the least positive number there is: the fraction for a
    /// subnormal, and for a normal number the fraction with its hidden bit,
    /// doubled once for each step of the exponent field above 1, with the
    /// sign of the encoding. An infinity counts as the number that follows
    /// the largest.
    pub open spec fn scaled_value(self) -> int {
        let size = if self.exponent_field() == 0 {
            self.fraction_field()
        } else {
            (0x80_0000 + self.fraction_field()) * pow2((self.exponent_field() - 1) as nat)
        };
        if self.negative() {
            -size
        } else {
            size
        }
    }

    /// `self < other` as IEEE 754 defines it: false when either is not a
    /// number.
    pub open spec fn spec_lt(self, other: Scalar) -> bool {
        !self.spec_is_nan() && !other.spec_is_nan() && self.rank() < other.rank()
    }

    /// `self <= other` as IEEE 754 defines it.
    pub open spec fn spec_le(self, other: Scalar) -> bool {
        !self.spec_is_nan() && !other.spec_is_nan() && self.rank() <= other.rank()
    }

    /// `self > other` as IEEE 754 defines it.
    pub open spec fn spec_gt(self, other: Scalar) -> bool {
        other.spec_lt(self)
    }

    /// The encoding of `m * 2^(e - 23)` for a significand `m` in
    /// `1 ..= 2^24 - 1`, found by doubling `m` until its leading bit is the
    /// hidden bit.
    pub open spec fn normalised(m: int, e: int) -> int
        decreases 0x100_0000 - m,
    {
        if m <= 0 || m >= 0x80_0000 {
            (127 + e) * 0x80_0000 + (m - 0x80_0000)
        } else {
            Self::normalised(2 * m, e - 1)
        }
    }

    /// The scalar that stands for the integer `n`, for `|n| < 2^24`.
    pub open spec fn of_int(n: int) -> Scalar {
        if n == 0 {
            Scalar { bits: 0 }
        } else if n > 0 {
            Scalar { bits: Self::normalised(n, 23) as u32 }
        } else {
            Scalar { bits: (SIGN_BIT + Self::normalised(-n, 23)) as u32 }
        }
    }

    /// The scalar with the given encoding.
    pub fn from_bits(bits: u32) -> (r: Scalar)
        ensures
            r.bits == bits,
    {
        Scalar { bits }
    }

    /// The encoding.
    pub fn to_bits(self) -> (r: u32)
        ensures
            r == self.bits,
    {
        self.bits
    }

    /// Whether the scalar is not a number.
    pub fn is_nan(self) -> (r: bool)
        ensures
            r == self.spec_is_nan(),
    {
        let m: u32 = if self.bits >= SIGN_BIT {
            self.bits - SIGN_BIT
        } else {
            self.bits
        };
        m > INFINITY_BITS
    }

    fn exec_rank(self) -> (r: i64)
        ensures
            r == self.rank(),
    {
        if self.bits >= SIGN_BIT {
            let m: u32 = self.bits - SIGN_BIT;
            let r: i64 = -(m as i64);
            r
        } else {
            self.bits as i64
        }
    }

    fn encode_magnitude(m: u32) -> (r: u32)
        requires
            1 <= m < 0x100_0000,
        ensures
            r == Self::normalised(m as int, 23),
            0 < r < INFINITY_BITS,
    {
        let mut sig: u32 = m;
        let mut biased: u32 = 150;
        proof {
            lemma2_to64();
        }
        while sig < HIDDEN_BIT
            invariant
                1 <= sig < 0x100_0000,
                127 <= biased <= 150,
                sig >= pow2((150 - biased) as nat),
                Self::normalised(sig as int, biased - 127) == Self::normalised(m as int, 23),
            decreases 0x100_0000 - sig,
        {
            proof {
                let k = (150 - biased) as nat;
                lemma2_to64();
                if k > 23 {
                    lemma_pow2_strictly_increases(23, k);
                }
                lemma_pow2_unfold(k + 1);
            }
            sig = sig * 2;
            biased = biased - 1;
        }
        biased * HIDDEN_BIT + (sig - HIDDEN_BIT)
    }

    /// The scalar that stands for `n`.
    pub fn from_i16(n: i16) -> (r: Scalar)
        ensures
            r == Self::of_int(n as int),
            !r.spec_is_nan(),
    {
        if n == 0 {
            Scalar { bits: 0 }
        } else if n > 0 {
            Scalar { bits: Self::encode_magnitude(n as u32) }
        } else {
            let m: i32 = -(n as i32);
            Scalar { bits: SIGN_BIT + Self::encode_magnitude(m as u32) }
        }
    }

    /// The scalar that stands for `n`.
    pub fn from_u16(n: u16) -> (r: Scalar)
        ensures
            r == Self::of_int(n as int),
            !r.spec_is_nan(),
    {
        if n == 0 {
            Scalar { bits: 0 }
        } else {
            Scalar { bits: Self::encode_magnitude(n as u32) }
        }
    }

    /// Numeric `<`.
    pub fn lt(self, other: Scalar) -> (r: bool)
        ensures
            r == self.spec_lt(other),
    {
        !self.is_nan() && !other.is_nan() && self.exec_rank() < other.exec_rank()
    }

    /// Numeric `<=`.
    pub fn le(self, other: Scalar) -> (r: bool)
        ensures
            r == self.spec_le(other),
    {
        !self.is_nan() && !other.is_nan() && self.exec_rank() <= other.exec_rank()
    }

    /// Numeric `>`.
    pub fn gt(self, other: Scalar) -> (r: bool)
        ensures
            r == self.spec_gt(other),
    {
        other.lt(self)
    }
}

/// Where `normalised` lands: a significand of at least `2^k` is doubled at
/// most `23 - k` times.
proof fn lemma_normalised_range(m: int, e: int, k: nat)
    requires
        1 <= m < 0x100_0000,
        k <= 23,
        m >= pow2(k),
    ensures
        (104 + e + k) * 0x80_0000 <= Scalar::normalised(m, e) < (128 + e) * 0x80_0000,
        m < 0x80_0000 ==> Scalar::normalised(m, e) < (127 + e) * 0x80_0000,
    decreases 0x100_0000 - m,
{
    lemma2_to64();
    if m < 0x80_0000 {
        if k >= 23 {
            if k > 23 {
                lemma_pow2_strictly_increases(23, k);
            }
        }
        lemma_pow2_unfold(k + 1);
        lemma_normalised_range(2 * m, e - 1, k + 1);
    }
}

/// `normalised` keeps the order of the significands.
proof fn lemma_normalised_increases(m1: int, m2: int, e: int)
    requires
        1 <= m1 < m2 < 0x100_0000,
    ensures
        Scalar::normalised(m1, e) < Scalar::normalised(m2, e),
    decreases 0x100_0000 - m1,
{
    if m1 < 0x80_0000 {
        if m2 < 0x80_0000 {
            lemma_normalised_increases(2 * m1, 2 * m2, e - 1);
        } else {
            lemma2_to64();
            lemma_normalised_range(m1, e, 0);
        }
    }
}

/// The number that `normalised` encodes.
proof fn lemma_normalised_value(m: int, e: int, k: nat)
    requires
        1 <= m < 0x100_0000,
        k <= 23,
        m >= pow2(k),
        23 - k <= e <= 23,
    ensures
        0 < Scalar::normalised(m, e) < INFINITY_BITS,
        (Scalar { bits: Scalar::normalised(m, e) as u32 }).scaled_value() == m * pow2((126 + e) as nat),
    decreases 0x100_0000 - m,
{
    lemma2_to64();
    lemma_normalised_range(m, e, k);
    if m < 0x80_0000 {
        if k >= 23 {
            if k > 23 {
                lemma_pow2_strictly_increases(23, k);
            }
        }
        lemma_pow2_unfold(k + 1);
        lemma_normalised_value(2 * m, e - 1, k + 1);
        lemma_pow2_unfold((126 + e) as nat);
        assert(2 * m * pow2((125 + e) as nat) == m * (2 * pow2((125 + e) as nat))) by (nonlinear_arith);
    } else {
        let bits = Scalar::normalised(m, e);
        assert(bits == (127 + e) * 0x80_0000 + (m - 0x80_0000));
        let s = Scalar { bits: bits as u32 };
        assert(s.magnitude() == bits);
        assert(s.exponent_field() == 127 + e && s.fraction_field() == m - 0x80_0000) by {
            assert(0 <= m - 0x80_0000 < 0x80_0000);
            vstd::arithmetic::div_mod::lemma_fundamental_div_mod_converse(
                bits,
                0x80_0000,
                127 + e,
                m - 0x80_0000,
            );
        }
    }
}

/// The scalar of an integer stands for that integer.
pub proof fn lemma_of_int_value(n: int)
    requires
        -0x100_0000 < n < 0x100_0000,
    ensures
        Scalar::of_int(n).scaled_value() == n * pow2(149),
{
    lemma2_to64();
    if n > 0 {
        lemma_normalised_value(n, 23, 0);
    } else if n < 0 {
        lemma_normalised_value(-n, 23, 0);
        let size = Scalar::normalised(-n, 23);
        let s = Scalar { bits: (SIGN_BIT + size) as u32 };
        let p = Scalar { bits: size as u32 };
        assert(s.magnitude() == p.magnitude());
        assert(s.scaled_value() == -p.scaled_value());
        assert(-((-n) * pow2(149)) == n * pow2(149)) by (nonlinear_arith);
    } else {
        assert(0 * pow2(149) == 0) by (nonlinear_arith);
    }
}

/// Among encodings without sign up to infinity, the larger encoding
/// stands for the larger number.
proof fn lemma_magnitudes_order_values(a: Scalar, b: Scalar)
    requires
        a.bits < b.bits <= INFINITY_BITS,
    ensures
        0 <= a.scaled_value() < b.scaled_value(),
{
    let ea = a.exponent_field();
    let eb = b.exponent_field();
    let fa = a.fraction_field();
    let fb = b.fraction_field();
    assert(0 <= ea <= eb <= 255 && 0 <= fa < 0x80_0000 && 0 <= fb < 0x80_0000);
    assert(a.bits == ea * 0x80_0000 + fa && b.bits == eb * 0x80_0000 + fb);
    if eb > 0 {
        vstd::arithmetic::power2::lemma_pow2_pos((eb - 1) as nat);
    }
    if ea > 0 {
        vstd::arithmetic::power2::lemma_pow2_pos((ea - 1) as nat);
    }
    if ea == eb {
        if ea > 0 {
            let p = pow2((ea - 1) as nat);
            assert((0x80_0000 + fa) * p < (0x80_0000 + fb) * p && 0 <= (0x80_0000 + fa) * p)
                by (nonlinear_arith)
                requires
                    0 < p,
                    0 <= fa < fb,
            ;
        }
    } else {
        let q = pow2((eb - 1) as nat);
        if ea == 0 {
            assert(0x80_0000 <= (0x80_0000 + fb) * q) by (nonlinear_arith)
                requires
                    0 < q,
                    0 <= fb,
            ;
        } else {
            let p = pow2((ea - 1) as nat);
            lemma_pow2_unfold(ea as nat);
            if ea < eb - 1 {
                lemma_pow2_strictly_increases(ea as nat, (eb - 1) as nat);
            }
            assert(0 <= (0x80_0000 + fa) * p < (0x80_0000 + fb) * q) by (nonlinear_arith)
                requires
                    0 < p,
                    2 * p <= q,
                    0 <= fa < 0x80_0000,
                    0 <= fb,
            ;
        }
    }
}

/// The rank orders the scalars that are numbers as the numbers that they
/// stand for are ordered, and two have one rank only if they stand for one
/// number.
pub proof fn lemma_rank_orders_values(a: Scalar, b: Scalar)
    requires
        !a.spec_is_nan(),
        !b.spec_is_nan(),
    ensures
        a.rank() < b.rank() <==> a.scaled_value() < b.scaled_value(),
        a.rank() == b.rank() <==> a.scaled_value() == b.scaled_value(),
        a.spec_lt(b) <==> a.scaled_value() < b.scaled_value(),
        a.spec_le(b) <==> a.scaled_value() <= b.scaled_value(),
{
    let x = Scalar { bits: a.magnitude() as u32 };
    let y = Scalar { bits: b.magnitude() as u32 };
    let zero = Scalar { bits: 0 };
    assert(zero.scaled_value() == 0);
    assert(x.magnitude() == a.magnitude() && y.magnitude() == b.magnitude());
    assert(a.scaled_value() == (if a.negative() {
        -x.scaled_value()
    } else {
        x.scaled_value()
    }));
    assert(b.scaled_value() == (if b.negative() {
        -y.scaled_value()
    } else {
        y.scaled_value()
    }));
    if x.bits > 0 {
        lemma_magnitudes_order_values(zero, x);
    }
    if y.bits > 0 {
        lemma_magnitudes_order_values(zero, y);
    }
    if x.bits < y.bits {
        lemma_magnitudes_order_values(x, y);
    } else if y.bits < x.bits {
        lemma_magnitudes_order_values(y, x);
    }
}

/// Every integer of magnitude below `2^24` has a scalar that is a number,
/// and zero, the positive and the negative integers keep their signs.
pub proof fn lemma_of_int_is_number(n: int)
    requires
        -0x100_0000 < n < 0x100_0000,
    ensures
        !Scalar::of_int(n).spec_is_nan(),
        n == 0 ==> Scalar::of_int(n).rank() == 0,
        n > 0 ==> Scalar::of_int(n).rank() == Scalar::normalised(n, 23) > 0,
        n < 0 ==> Scalar::of_int(n).rank() == -Scalar::normalised(-n, 23) < 0,
{
    lemma2_to64();
    if n > 0 {
        lemma_normalised_range(n, 23, 0);
    } else if n < 0 {
        lemma_normalised_range(-n, 23, 0);
    }
}

/// The scalars of two integers compare as the integers do.
pub proof fn lemma_of_int_order(a: int, b: int)
    requires
        -0x100_0000 < a < 0x100_0000,
        -0x100_0000 < b < 0x100_0000,
    ensures
        a < b <==> Scalar::of_int(a).spec_lt(Scalar::of_int(b)),
        a <= b <==> Scalar::of_int(a).spec_le(Scalar::of_int(b)),
{
    lemma_of_int_is_number(a);
    lemma_of_int_is_number(b);
    if 0 < a < b {
        lemma_normalised_increases(a, b, 23);
    } else if 0 < b < a {
        lemma_normalised_increases(b, a, 23);
    } else if a < b < 0 {
        lemma_normalised_increases(-b, -a, 23);
    } else if b < a < 0 {
        lemma_normalised_increases(-a, -b, 23);
    }
}

} // verus!
