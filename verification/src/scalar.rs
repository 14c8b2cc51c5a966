//! Single-precision numbers carried as bit patterns.
//!
//! The simulation state is made of IEEE 754 binary32 numbers. This module
//! holds such a number by its 32 bits and reads from the bits what the rest
//! of the library decides on: the sign, whether the number is a NaN, its
//! integer part, how its magnitude compares with a whole bound, and where
//! exactly it lies. Arithmetic on the numbers is left to the caller.

use vstd::prelude::*;
use vstd::arithmetic::power2::*;
use vstd::bits::*;

verus! {

/// An IEEE 754 binary32 number, held by its bit pattern.
///
/// Bit 31 is the sign, bits 23 to 30 the biased exponent and bits 0 to 22
/// the fraction. Two scalars are equal when their bits are.
#[derive(Clone, Copy, Debug, PartialEq, Eq, Structural)]
pub struct Scalar {
    pub bits: u32,
}

/// The bit pattern of positive zero.
pub const ZERO_BITS: u32 = 0;

/// The sign bit of a pattern.
pub const SIGN_MASK: u32 = 0x8000_0000;

/// The number of patterns below the exponent field: two to the 23rd power.
pub const FRACTION_SPAN: u32 = 0x80_0000;

/// The exponent field of infinities and NaNs.
pub const EXPONENT_SPECIAL: u32 = 255;

/// The scale at which one unit of the significand is worth one.
pub const UNIT_SCALE: u32 = 150;

/// Whole numbers of a magnitude below this bound are represented exactly.
pub const EXACT_SPAN: i32 = 0x100_0000;

impl Scalar {
    /// The sign bit: set on negative numbers, on negative zero and on some NaNs.
    pub open spec fn sign(self) -> bool {
        self.bits >= SIGN_MASK
    }

    /// The biased exponent, from 0 to 255.
    pub open spec fn exponent_field(self) -> nat {
        ((self.bits as nat) / (FRACTION_SPAN as nat)) % 256
    }

    /// The 23 fraction bits.
    pub open spec fn fraction(self) -> nat {
        (self.bits as nat) % (FRACTION_SPAN as nat)
    }

    pub open spec fn spec_is_nan(self) -> bool {
        self.exponent_field() == EXPONENT_SPECIAL && self.fraction() != 0
    }

    pub open spec fn spec_is_infinite(self) -> bool {
        self.exponent_field() == EXPONENT_SPECIAL && self.fraction() == 0
    }

    /// Neither a NaN nor an infinity.
    pub open spec fn spec_is_finite(self) -> bool {
        self.exponent_field() < EXPONENT_SPECIAL
    }

    /// The significand of a finite number, with the implicit leading bit
    /// of a normal number made explicit.
    pub open spec fn significand(self) -> nat {
        if self.exponent_field() == 0 {
            self.fraction()
        } else {
            FRACTION_SPAN as nat + self.fraction()
        }
    }

    /// The scale of a finite number: its magnitude is
    /// `significand() * 2^(scale() - 150)`.
    pub open spec fn scale(self) -> nat {
        if self.exponent_field() == 0 {
            1
        } else {
            self.exponent_field()
        }
    }

    /// The integer part of the magnitude of a finite number.
    pub open spec fn whole(self) -> nat {
        if self.scale() >= UNIT_SCALE {
            self.significand() * pow2((self.scale() - UNIT_SCALE) as nat)
        } else {
            self.significand() / pow2((UNIT_SCALE - self.scale()) as nat)
        }
    }

    /// The magnitude of the number is at least `bound`. No NaN is at least
    /// anything; an infinity is at least everything.
    pub open spec fn spec_magnitude_at_least(self, bound: nat) -> bool {
        if self.spec_is_nan() {
            false
        } else if self.spec_is_infinite() {
            true
        } else if self.scale() >= UNIT_SCALE {
            self.significand() * pow2((self.scale() - UNIT_SCALE) as nat) >= bound
        } else {
            self.significand() >= bound * pow2((UNIT_SCALE - self.scale()) as nat)
        }
    }

    /// The number is exactly the whole number `n`.
    pub open spec fn is_int(self, n: int) -> bool {
        &&& self.spec_is_finite()
        &&& n < 0 ==> self.sign()
        &&& n > 0 ==> !self.sign()
        &&& if self.scale() >= UNIT_SCALE {
            self.significand() * pow2((self.scale() - UNIT_SCALE) as nat) == vstd::math::abs(n)
        } else {
            self.significand() == vstd::math::abs(n) * pow2((UNIT_SCALE - self.scale()) as nat)
        }
    }

    /// The number rounded toward zero and held to the range of `i32`;
    /// zero for a NaN.
    pub open spec fn spec_truncate(self) -> int {
        if self.spec_is_nan() {
            0
        } else if self.sign() {
            if self.whole() >= 0x8000_0000 {
                i32::MIN as int
            } else {
                -(self.whole() as int)
            }
        } else {
            if self.whole() >= 0x7fff_ffff {
                i32::MAX as int
            } else {
                self.whole() as int
            }
        }
    }

    /// The number with its sign bit flipped.
    pub open spec fn spec_neg(self) -> Scalar {
        if self.bits >= SIGN_MASK {
            Scalar { bits: (self.bits - SIGN_MASK) as u32 }
        } else {
            Scalar { bits: (self.bits + SIGN_MASK) as u32 }
        }
    }

    pub fn from_bits(bits: u32) -> (r: Scalar)
        ensures
            r.bits == bits,
    {
        Scalar { bits }
    }

    pub fn to_bits(self) -> (r: u32)
        ensures
            r == self.bits,
    {
        self.bits
    }

    /// Positive zero.
    pub fn zero() -> (r: Scalar)
        ensures
            r.bits == ZERO_BITS,
            r.is_int(0),
    {
        let r = Scalar { bits: ZERO_BITS };
        proof {
            assert(r.exponent_field() == 0 && r.fraction() == 0);
            assert(0 * pow2(149) == 0) by (nonlinear_arith);
        }
        r
    }

    #[verifier::when_used_as_spec(spec_is_nan)]
    pub fn is_nan(self) -> (r: bool)
        ensures
            r == self.spec_is_nan(),
    {
        (self.bits / FRACTION_SPAN) % 256 == EXPONENT_SPECIAL && self.bits % FRACTION_SPAN != 0
    }

    #[verifier::when_used_as_spec(spec_is_infinite)]
    pub fn is_infinite(self) -> (r: bool)
        ensures
            r == self.spec_is_infinite(),
    {
        (self.bits / FRACTION_SPAN) % 256 == EXPONENT_SPECIAL && self.bits % FRACTION_SPAN == 0
    }

    #[verifier::when_used_as_spec(spec_is_finite)]
    pub fn is_finite(self) -> (r: bool)
        ensures
            r == self.spec_is_finite(),
    {
        (self.bits / FRACTION_SPAN) % 256 < EXPONENT_SPECIAL
    }

    /// Whether the sign bit is set.
    pub fn is_sign_negative(self) -> (r: bool)
        ensures
            r == self.sign(),
    {
        self.bits >= SIGN_MASK
    }

    /// Flips the sign bit, as negation does on every number, zero,
    /// infinity and NaN included.
    #[verifier::when_used_as_spec(spec_neg)]
    pub fn neg(self) -> (r: Scalar)
        ensures
            r == self.spec_neg(),
    {
        if self.bits >= SIGN_MASK {
            Scalar { bits: self.bits - SIGN_MASK }
        } else {
            Scalar { bits: self.bits + SIGN_MASK }
        }
    }

    /// Compares the magnitude of the number with a whole bound.
    #[verifier::when_used_as_spec(spec_magnitude_at_least_u64)]
    pub fn magnitude_at_least(self, bound: u64) -> (r: bool)
        ensures
            r == self.spec_magnitude_at_least(bound as nat),
    {
        let field: u32 = (self.bits / FRACTION_SPAN) % 256;
        let fraction: u32 = self.bits % FRACTION_SPAN;
        if field == EXPONENT_SPECIAL {
            return fraction == 0;
        }
        let significand: u64 = if field == 0 {
            fraction as u64
        } else {
            FRACTION_SPAN as u64 + fraction as u64
        };
        let scale: u32 = if field == 0 {
            1
        } else {
            field
        };
        if scale >= UNIT_SCALE {
            let shift: u32 = scale - UNIT_SCALE;
            if shift >= 41 {
                proof {
                    lemma_pow2_at_least(41, shift as nat);
                    lemma2_to64_rest();
                    lemma_product_at_least(
                        significand as nat,
                        pow2(shift as nat),
                        0x80_0000,
                        0x200_0000_0000,
                    );
                }
                true
            } else {
                proof {
                    lemma_pow2_at_least(shift as nat, 40);
                    lemma2_to64_rest();
                    lemma_product_below(
                        significand as nat,
                        pow2(shift as nat),
                        0x100_0000,
                        0x100_0000_0000,
                    );
                    lemma_u64_shl_is_mul(significand, shift as u64);
                }
                (significand << (shift as u64)) >= bound
            }
        } else {
            let shift: u32 = UNIT_SCALE - scale;
            if shift >= 24 {
                proof {
                    lemma_pow2_at_least(24, shift as nat);
                    lemma2_to64();
                    lemma_product_at_least_unless_zero(
                        bound as nat,
                        pow2(shift as nat),
                        0x100_0000,
                    );
                }
                bound == 0
            } else {
                proof {
                    lemma_u64_shr_is_div(significand, shift as u64);
                    lemma_pow2_pos(shift as nat);
                    lemma_quotient_at_least(
                        significand as nat,
                        pow2(shift as nat),
                        bound as nat,
                    );
                }
                (significand >> (shift as u64)) >= bound
            }
        }
    }

    pub open spec fn spec_magnitude_at_least_u64(self, bound: u64) -> bool {
        self.spec_magnitude_at_least(bound as nat)
    }

    /// Rounds toward zero and holds the result to the range of `i32`,
    /// as a cast of the number to `i32` does: a NaN gives zero, and a
    /// number out of range gives the nearest end of the range.
    #[verifier::when_used_as_spec(spec_truncate_i32)]
    pub fn truncate(self) -> (r: i32)
        ensures
            r == self.spec_truncate(),
    {
        let field: u32 = (self.bits / FRACTION_SPAN) % 256;
        let fraction: u32 = self.bits % FRACTION_SPAN;
        let negative: bool = self.bits >= SIGN_MASK;
        if field == EXPONENT_SPECIAL && fraction != 0 {
            return 0;
        }
        if field < 127 {
            proof {
                lemma_pow2_at_least(24, (UNIT_SCALE - self.scale()) as nat);
                lemma2_to64();
                lemma_quotient_zero(
                    self.significand(),
                    pow2((UNIT_SCALE - self.scale()) as nat),
                );
            }
            return 0;
        }
        if field >= 158 {
            proof {
                lemma_pow2_at_least(8, (self.scale() - UNIT_SCALE) as nat);
                lemma2_to64();
                lemma_product_at_least(
                    self.significand(),
                    pow2((self.scale() - UNIT_SCALE) as nat),
                    0x80_0000,
                    0x100,
                );
            }
            return if negative {
                i32::MIN
            } else {
                i32::MAX
            };
        }
        let significand: u64 = FRACTION_SPAN as u64 + fraction as u64;
        let whole: u64 = if field >= UNIT_SCALE {
            let shift: u32 = field - UNIT_SCALE;
            proof {
                lemma_pow2_at_least(shift as nat, 7);
                lemma2_to64();
                lemma_product_below(significand as nat, pow2(shift as nat), 0x100_0000, 0x80);
                lemma_u64_shl_is_mul(significand, shift as u64);
            }
            significand << (shift as u64)
        } else {
            let shift: u32 = UNIT_SCALE - field;
            proof {
                lemma_u64_shr_is_div(significand, shift as u64);
                lemma_pow2_pos(shift as nat);
                lemma_quotient_at_most(significand as nat, pow2(shift as nat));
            }
            significand >> (shift as u64)
        };
        assert(whole == self.whole());
        assert(whole < 0x8000_0000);
        if negative {
            -(whole as i64) as i32
        } else {
            whole as i32
        }
    }

    pub open spec fn spec_truncate_i32(self) -> i32 {
        self.spec_truncate() as i32
    }

    /// The scalar that is exactly the whole number `n`.
    pub fn from_int(n: i32) -> (r: Scalar)
        requires
            -EXACT_SPAN < n < EXACT_SPAN,
        ensures
            r.is_int(n as int),
            n == 0 ==> r.bits == ZERO_BITS,
    {
        if n == 0 {
            return Scalar::zero();
        }
        let magnitude: u32 = if n < 0 {
            (-n) as u32
        } else {
            n as u32
        };
        let mut significand: u32 = magnitude;
        let mut scale: u32 = UNIT_SCALE;
        proof {
            lemma2_to64();
            assert(magnitude * pow2(0) == magnitude) by (nonlinear_arith)
                requires
                    pow2(0) == 1,
            ;
        }
        while significand < FRACTION_SPAN
            invariant
                0 < magnitude < 0x100_0000,
                0 < significand < 0x100_0000,
                126 < scale <= UNIT_SCALE,
                significand == magnitude * pow2((UNIT_SCALE - scale) as nat),
                significand >= pow2((UNIT_SCALE - scale) as nat),
            decreases 0x100_0000 - significand,
        {
            proof {
                let k = (UNIT_SCALE - scale) as nat;
                lemma_pow2_unfold(k + 1);
                lemma_double_product(magnitude as nat, pow2(k));
                if k >= 23 {
                    lemma_pow2_at_least(23, k);
                    lemma2_to64();
                }
            }
            significand = significand * 2;
            scale = scale - 1;
        }
        let low: u32 = scale * FRACTION_SPAN + (significand - FRACTION_SPAN);
        let bits: u32 = if n < 0 {
            SIGN_MASK + low
        } else {
            low
        };
        let r = Scalar { bits };
        proof {
            assert(r.exponent_field() == scale);
            assert(r.fraction() == significand - FRACTION_SPAN);
            assert(r.significand() == significand);
            assert(vstd::math::abs(n as int) == magnitude);
            if scale == UNIT_SCALE {
                lemma2_to64();
                assert(significand * pow2(0) == significand) by (nonlinear_arith)
                    requires
                        pow2(0) == 1,
                ;
            }
        }
        r
    }
}

/// Powers of two grow with the exponent.
proof fn lemma_pow2_at_least(small: nat, large: nat)
    requires
        small <= large,
    ensures
        pow2(small) <= pow2(large),
{
    if small < large {
        lemma_pow2_strictly_increases(small, large);
    }
}

proof fn lemma_product_at_least(a: nat, b: nat, a_low: nat, b_low: nat)
    requires
        a >= a_low,
        b >= b_low,
    ensures
        a * b >= a_low * b_low,
{
    assert(a * b >= a_low * b_low) by (nonlinear_arith)
        requires
            a >= a_low,
            b >= b_low,
    ;
}

proof fn lemma_product_below(a: nat, b: nat, a_high: nat, b_high: nat)
    requires
        a < a_high,
        b <= b_high,
        0 < b_high,
    ensures
        a * b < a_high * b_high,
{
    assert(a * b < a_high * b_high) by (nonlinear_arith)
        requires
            0 <= a < a_high,
            0 <= b <= b_high,
            0 < b_high,
    ;
}

proof fn lemma_product_at_least_unless_zero(k: nat, d: nat, d_low: nat)
    requires
        d >= d_low,
    ensures
        k > 0 ==> k * d >= d_low,
        k == 0 ==> k * d == 0,
{
    assert(k > 0 ==> k * d >= d_low) by (nonlinear_arith)
        requires
            d >= d_low,
    ;
    assert(k == 0 ==> k * d == 0) by (nonlinear_arith);
}

/// A quotient reaches `k` exactly when the dividend reaches `k` times the divisor.
proof fn lemma_quotient_at_least(a: nat, d: nat, k: nat)
    requires
        d > 0,
    ensures
        (a / d >= k) <==> (a >= k * d),
{
    assert((a / d >= k) <==> (a >= k * d)) by (nonlinear_arith)
        requires
            d > 0,
    ;
}

proof fn lemma_quotient_zero(a: nat, d: nat)
    requires
        a < d,
    ensures
        a / d == 0,
{
    assert(a / d == 0) by (nonlinear_arith)
        requires
            0 <= a < d,
    ;
}

proof fn lemma_quotient_at_most(a: nat, d: nat)
    requires
        d > 0,
    ensures
        a / d <= a,
{
    assert(a / d <= a) by (nonlinear_arith)
        requires
            d > 0,
            a >= 0,
    ;
}

proof fn lemma_double_product(a: nat, b: nat)
    ensures
        (a * b) * 2 == a * (2 * b),
{
    assert((a * b) * 2 == a * (2 * b)) by (nonlinear_arith);
}

/// Among finite numbers, the magnitude reaches a whole bound exactly when
/// the integer part does.
pub proof fn lemma_magnitude_by_whole(s: Scalar, bound: nat)
    requires
        s.spec_is_finite(),
    ensures
        s.spec_magnitude_at_least(bound) <==> s.whole() >= bound,
{
    if s.scale() < UNIT_SCALE {
        let d = pow2((UNIT_SCALE - s.scale()) as nat);
        lemma_pow2_pos((UNIT_SCALE - s.scale()) as nat);
        lemma_quotient_at_least(s.significand(), d, bound);
    }
}

/// A scalar that is exactly a whole number has that number's magnitude.
pub proof fn lemma_whole_of_int(s: Scalar, n: int)
    requires
        s.is_int(n),
    ensures
        s.whole() == vstd::math::abs(n),
        forall|bound: nat| s.spec_magnitude_at_least(bound) <==> vstd::math::abs(n) >= bound,
{
    if s.scale() < UNIT_SCALE {
        let d = pow2((UNIT_SCALE - s.scale()) as nat);
        lemma_pow2_pos((UNIT_SCALE - s.scale()) as nat);
        let a = vstd::math::abs(n) as nat;
        assert((a * d) / d == a) by (nonlinear_arith)
            requires
                d > 0,
        ;
    }
    assert forall|bound: nat| s.spec_magnitude_at_least(bound) <==> vstd::math::abs(n)
        >= bound by {
        lemma_magnitude_by_whole(s, bound);
    }
}

/// Rounding a whole number in the range of `i32` toward zero gives it back.
pub proof fn lemma_truncate_of_int(s: Scalar, n: int)
    requires
        s.is_int(n),
        i32::MIN <= n <= i32::MAX,
    ensures
        s.spec_truncate() == n,
{
    lemma_whole_of_int(s, n);
}

/// Flipping the sign bit negates a whole number, and flipping it twice
/// gives the scalar back.
pub proof fn lemma_neg(s: Scalar, n: int)
    ensures
        s.spec_neg().spec_neg() == s,
        s.spec_neg().sign() == !s.sign(),
        s.spec_neg().exponent_field() == s.exponent_field(),
        s.spec_neg().fraction() == s.fraction(),
        s.is_int(n) && n != 0 ==> s.spec_neg().is_int(-n),
        s.is_int(0) ==> s.spec_neg().is_int(0),
{
    let m = s.spec_neg();
    assert(m.exponent_field() == s.exponent_field());
    assert(m.fraction() == s.fraction());
    if s.is_int(0) {
        lemma_whole_of_int(s, 0);
        if s.scale() >= UNIT_SCALE {
            assert(m.significand() * pow2((m.scale() - UNIT_SCALE) as nat) == 0);
        }
    }
}

/// The exponent of two that the reading of a near scalar counts in: a
/// near scalar times 2^150 is `whole * 2^86 + rest`.
pub const NEAR_SHIFT: u32 = 86;

/// Scalars of this scale and above are far: they are multiples of 2^33,
/// more than the half sum of any two sizes.
pub const FAR_SCALE: u32 = 183;

/// Two to the 86th power.
pub open spec fn near_unit() -> int {
    0x40_0000_0000_0000_0000_0000
}

/// Two to the 183rd power.
pub open spec fn far_unit() -> int {
    0x80_0000_0000_0000_0000_0000_0000_0000_0000_0000_0000_0000int
}

/// Two to the 149th power: half a unit of length, in units of 2^-150.
pub open spec fn half_unit() -> int {
    0x20_0000_0000_0000_0000_0000_0000_0000_0000_0000int
}

impl Scalar {
    /// The number times 2^150, which is whole. An infinity or a NaN is
    /// read by the rule of the finite numbers, and comes to lie beyond
    /// them all.
    pub open spec fn scaled(self) -> int {
        if self.sign() {
            -(self.significand() * pow2(self.scale()))
        } else {
            (self.significand() * pow2(self.scale())) as int
        }
    }

    /// The scalar is far from zero: a multiple of 2^33 of a magnitude of
    /// 2^56 and more.
    pub open spec fn far(self) -> bool {
        self.scale() >= FAR_SCALE
    }
}

/// Where a scalar lies, in integers that a machine word holds.
#[derive(Debug, Clone, Copy)]
pub struct Reading {
    /// Whether the scalar is far from zero.
    pub far: bool,
    /// Of a far scalar, its multiple of 2^183; of a near one, its multiple
    /// of 2^86, rounded down.
    pub whole: i128,
    /// Of a near scalar, what it has above `whole` multiples of 2^86.
    pub rest: u128,
}

impl Reading {
    /// The reading is that of the scalar `s`.
    pub open spec fn reads(self, s: Scalar) -> bool {
        &&& self.far == s.far()
        &&& self.far ==> s.scaled() == self.whole * far_unit() && self.rest == 0
        &&& !self.far ==> s.scaled() == self.whole * near_unit() + self.rest && self.rest
            < near_unit()
    }
}

/// The powers of two that the readings are made of.
pub proof fn lemma_units()
    ensures
        pow2(NEAR_SHIFT as nat) == near_unit(),
        pow2(FAR_SCALE as nat) == far_unit(),
        pow2(149) == half_unit(),
        pow2(63) == 0x8000_0000_0000_0000,
        pow2(72) == 0x100_0000_0000_0000_0000,
        pow2(96) == 0x1_0000_0000_0000_0000_0000_0000,
        pow2(100) == 0x10_0000_0000_0000_0000_0000_0000,
        pow2(182) == 0x40_0000_0000_0000_0000_0000_0000_0000_0000_0000_0000_0000int,
{
    lemma2_to64();
    lemma2_to64_rest();
    lemma_pow2_adds(64, 8);
    lemma_pow2_adds(64, 22);
    lemma_pow2_adds(64, 32);
    lemma_pow2_adds(64, 36);
    lemma_pow2_adds(64, 64);
    lemma_pow2_adds(128, 21);
    lemma_pow2_adds(128, 54);
    lemma_pow2_adds(128, 55);
}

/// A far scalar is a multiple of 2^33 that lies at 2^56 or beyond; a near
/// one lies below 2^56 by 2^32 at least.
pub proof fn lemma_placement(s: Scalar)
    ensures
        s.far() ==> s.scaled() % far_unit() == 0 && (s.scaled() >= 0x4000_0000_0000_0000_0000_0000_0000_0000_0000_0000_0000_0000_0000int || s.scaled()
            <= -0x4000_0000_0000_0000_0000_0000_0000_0000_0000_0000_0000_0000_0000int),
        !s.far() ==> -0x3fff_ffc0_0000_0000_0000_0000_0000_0000_0000_0000_0000_0000_0000int <= s.scaled() <= 0x3fff_ffc0_0000_0000_0000_0000_0000_0000_0000_0000_0000_0000_0000int,
{
    lemma_units();
    let sig = s.significand();
    let scale = s.scale();
    if s.far() {
        let up = (scale - FAR_SCALE) as nat;
        lemma_pow2_adds(up, FAR_SCALE as nat);
        lemma_pow2_pos(up);
        let k = sig * pow2(up);
        assert(sig * pow2(scale) == k * far_unit()) by (nonlinear_arith)
            requires
                pow2(scale) == pow2(up) * far_unit(),
                k == sig * pow2(up),
        ;
        assert(k >= 0x80_0000) by (nonlinear_arith)
            requires
                k == sig * pow2(up),
                sig >= 0x80_0000,
                pow2(up) >= 1,
        ;
        assert((k * far_unit()) % far_unit() == 0 && ((-k) * far_unit()) % far_unit() == 0)
            by (nonlinear_arith)
            requires
                far_unit() > 0,
        ;
    } else {
        lemma_pow2_at_least(scale, 182);
        lemma_product_at_most(sig, pow2(scale), 0xff_ffff, pow2(182));
    }
}

proof fn lemma_product_at_most(a: nat, b: nat, a_high: nat, b_high: nat)
    requires
        a <= a_high,
        b <= b_high,
    ensures
        a * b <= a_high * b_high,
{
    assert(a * b <= a_high * b_high) by (nonlinear_arith)
        requires
            0 <= a <= a_high,
            0 <= b <= b_high,
    ;
}

/// Two to the power `n`.
fn power_of_two(n: u32) -> (p: u128)
    requires
        n <= 100,
    ensures
        p == pow2(n as nat),
{
    let mut p: u128 = 1;
    let mut i: u32 = 0;
    proof {
        lemma2_to64();
    }
    while i < n
        invariant
            i <= n <= 100,
            p == pow2(i as nat),
        decreases n - i,
    {
        proof {
            lemma_pow2_unfold((i + 1) as nat);
            lemma_pow2_at_least((i + 1) as nat, 100);
            lemma_units();
        }
        p = p * 2;
        i = i + 1;
    }
    p
}

impl Scalar {
    /// Reads where the scalar lies.
    pub fn read(self) -> (reading: Reading)
        ensures
            reading.reads(self),
    {
        let field: u32 = (self.bits / FRACTION_SPAN) % 256;
        let fraction: u32 = self.bits % FRACTION_SPAN;
        let negative: bool = self.bits >= SIGN_MASK;
        let significand: u128 = if field == 0 {
            fraction as u128
        } else {
            FRACTION_SPAN as u128 + fraction as u128
        };
        let scale: u32 = if field == 0 {
            1
        } else {
            field
        };
        proof {
            lemma_units();
            lemma_placement(self);
        }
        if scale >= FAR_SCALE {
            let up: u32 = scale - FAR_SCALE;
            let unit = power_of_two(up);
            proof {
                lemma_pow2_at_least(up as nat, 72);
                lemma_product_below(significand as nat, unit as nat, 0x100_0000, pow2(72));
                lemma_pow2_adds(up as nat, FAR_SCALE as nat);
                assert(significand * pow2(scale as nat) == (significand * unit) * far_unit())
                    by (nonlinear_arith)
                    requires
                        pow2(scale as nat) == unit * far_unit(),
                ;
            }
            let multiple: u128 = significand * unit;
            let whole: i128 = if negative {
                -(multiple as i128)
            } else {
                multiple as i128
            };
            Reading { far: true, whole, rest: 0 }
        } else if scale > 100 {
            let up: u32 = scale - NEAR_SHIFT;
            let unit = power_of_two(up);
            proof {
                lemma_pow2_at_least(up as nat, 96);
                lemma_product_below(significand as nat, unit as nat, 0x100_0000, pow2(96));
                lemma_pow2_adds(up as nat, NEAR_SHIFT as nat);
                assert(significand * pow2(scale as nat) == (significand * unit) * near_unit())
                    by (nonlinear_arith)
                    requires
                        pow2(scale as nat) == unit * near_unit(),
                ;
            }
            let multiple: u128 = significand * unit;
            let whole: i128 = if negative {
                -(multiple as i128)
            } else {
                multiple as i128
            };
            Reading { far: false, whole, rest: 0 }
        } else {
            let unit = power_of_two(scale);
            proof {
                lemma_pow2_at_least(scale as nat, 100);
                lemma_product_below(significand as nat, unit as nat, 0x100_0000, pow2(100));
            }
            let magnitude: u128 = significand * unit;
            let above: u128 = magnitude / 0x40_0000_0000_0000_0000_0000;
            let below: u128 = magnitude % 0x40_0000_0000_0000_0000_0000;
            if !negative {
                Reading { far: false, whole: above as i128, rest: below }
            } else if below == 0 {
                Reading { far: false, whole: -(above as i128), rest: 0 }
            } else {
                Reading { far: false, whole: -(above as i128) - 1, rest: 0x40_0000_0000_0000_0000_0000 - below }
            }
        }
    }
}

/// A scalar that is exactly a whole number lies at that number.
pub proof fn lemma_scaled_of_int(s: Scalar, n: int)
    requires
        s.is_int(n),
    ensures
        s.scaled() == n * pow2(UNIT_SCALE as nat),
{
    let m = vstd::math::abs(n);
    let sig = s.significand();
    let scale = s.scale();
    if scale >= UNIT_SCALE {
        let up = (scale - UNIT_SCALE) as nat;
        lemma_pow2_adds(up, UNIT_SCALE as nat);
        assert(sig * pow2(scale) == m * pow2(UNIT_SCALE as nat)) by (nonlinear_arith)
            requires
                sig * pow2(up) == m,
                pow2(scale) == pow2(up) * pow2(UNIT_SCALE as nat),
        ;
    } else {
        let down = (UNIT_SCALE - scale) as nat;
        lemma_pow2_adds(down, scale);
        assert(sig * pow2(scale) == m * pow2(UNIT_SCALE as nat)) by (nonlinear_arith)
            requires
                sig == m * pow2(down),
                pow2(UNIT_SCALE as nat) == pow2(down) * pow2(scale),
        ;
    }
    assert(n < 0 ==> (-m) * pow2(UNIT_SCALE as nat) == -(m * pow2(UNIT_SCALE as nat)))
        by (nonlinear_arith);
    assert(n == 0 ==> m * pow2(UNIT_SCALE as nat) == 0) by (nonlinear_arith)
        requires
            n == 0 ==> m == 0,
    ;
}

} // verus!
