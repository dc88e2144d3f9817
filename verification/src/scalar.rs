use vstd::arithmetic::div_mod::{lemma_div_is_ordered, lemma_div_multiples_vanish_quotient};
use vstd::arithmetic::power2::{
    lemma2_to64, lemma_pow2_adds, lemma_pow2_pos, lemma_pow2_strictly_increases, pow2,
};
use vstd::prelude::*;

verus! {

/// The sign bit of a single-precision bit pattern.
pub const SIGN_BIT: u32 = 0x8000_0000;

/// The bit pattern of positive infinity; every larger magnitude is a NaN.
pub const INFINITY_BITS: u32 = 0x7f80_0000;

/// The bit pattern of the largest finite single-precision number.
pub const MAX_FINITE_BITS: u32 = 0x7f7f_ffff;

/// The bit pattern of the smallest finite single-precision number, the
/// negative of the largest.
pub const MIN_FINITE_BITS: u32 = 0xff7f_ffff;

/// The bit pattern of 1.
pub const ONE_BITS: u32 = 0x3f80_0000;

/// The bit pattern of the machine epsilon: the gap between 1 and the next
/// larger number, two to the power of -23.
pub const EPSILON_BITS: u32 = 0x3400_0000;

/// An IEEE-754 single-precision number, held by its bit pattern.
///
/// The library never does arithmetic on a `Scalar`: it stores it, hands it on
/// and orders it. The order of two numbers that are not NaN is the order of
/// their `rank`s, as `lemma_rank_orders_values` shows, and a NaN is neither
/// below nor above anything.
#[derive(Clone, Copy, Debug, PartialEq, Eq, Structural)]
pub struct Scalar {
    pub bits: u32,
}

impl Scalar {
    /// The bit pattern without its sign bit.
    pub open spec fn magnitude(self) -> int {
        if self.bits < SIGN_BIT {
            self.bits as int
        } else {
            self.bits - SIGN_BIT
        }
    }

    /// Whether the pattern encodes a NaN.
    pub open spec fn is_nan(self) -> bool {
        self.magnitude() > INFINITY_BITS
    }

    /// The sign-and-magnitude reading of the pattern as an integer. On numbers
    /// that are not NaN it grows exactly as the encoded number does, and both
    /// zeros have rank 0.
    pub open spec fn rank(self) -> int {
        if self.bits < SIGN_BIT {
            self.bits as int
        } else {
            SIGN_BIT - self.bits
        }
    }

    /// The number that the pattern encodes, times two to the power of 149:
    /// an integer for every pattern that is not a NaN. Positive infinity
    /// stands as two to the power of 277, which is above every finite number,
    /// and negative infinity as its negative.
    pub open spec fn scaled_value(self) -> int {
        let exponent = self.magnitude() / 0x80_0000;
        let fraction = self.magnitude() % 0x80_0000;
        let size = if exponent == 0 {
            fraction
        } else {
            (0x80_0000 + fraction) * pow2((exponent - 1) as nat)
        };
        if self.bits < SIGN_BIT {
            size
        } else {
            -size
        }
    }

    /// The whole part of the number, for a number that is neither negative
    /// nor a NaN: the number with what follows the point cut off.
    pub open spec fn whole_part(self) -> int {
        self.scaled_value() / (pow2(149) as int)
    }

    /// The number cut down to an unsigned integer of 32 bits: its whole part,
    /// with everything below zero taken as 0 and everything above the largest
    /// such integer as that. A NaN gives 0.
    pub open spec fn to_u32_spec(self) -> u32 {
        if self.is_nan() || self.bits >= SIGN_BIT {
            0
        } else if self.whole_part() >= u32::MAX {
            u32::MAX
        } else {
            self.whole_part() as u32
        }
    }

    /// The number cut down to a byte: its whole part, with everything below
    /// zero taken as 0 and everything above 255 as 255. A NaN gives 0.
    pub open spec fn to_byte_spec(self) -> u8 {
        if self.is_nan() || self.bits >= SIGN_BIT {
            0
        } else {
            let whole = self.whole_part();
            if whole >= 255 {
                255
            } else {
                whole as u8
            }
        }
    }

    /// `self < other` as IEEE-754 defines it.
    pub open spec fn lt_spec(self, other: Scalar) -> bool {
        !self.is_nan() && !other.is_nan() && self.rank() < other.rank()
    }

    /// `self <= other` as IEEE-754 defines it.
    pub open spec fn le_spec(self, other: Scalar) -> bool {
        !self.is_nan() && !other.is_nan() && self.rank() <= other.rank()
    }

    /// What `min` returns: `self` where it is strictly below `other`, else `other`.
    pub open spec fn min_spec(self, other: Scalar) -> Scalar {
        if self.lt_spec(other) {
            self
        } else {
            other
        }
    }

    /// What `max` returns: `self` where it is strictly above `other`, else `other`.
    pub open spec fn max_spec(self, other: Scalar) -> Scalar {
        if other.lt_spec(self) {
            self
        } else {
            other
        }
    }

    /// Whether `self` lies in the window from `t_min` to `t_max`: it is neither
    /// below `t_min` nor above `t_max`.
    pub open spec fn in_window_spec(self, t_min: Scalar, t_max: Scalar) -> bool {
        !(self.lt_spec(t_min) || t_max.lt_spec(self))
    }

    /// The larger of two numbers, and the other one where one of them is
    /// a NaN.
    pub open spec fn max_num_spec(self, other: Scalar) -> Scalar {
        if self.is_nan() {
            other
        } else if other.is_nan() {
            self
        } else if self.lt_spec(other) {
            other
        } else {
            self
        }
    }

    /// The smaller of two numbers, and the other one where one of them is
    /// a NaN.
    pub open spec fn min_num_spec(self, other: Scalar) -> Scalar {
        if self.is_nan() {
            other
        } else if other.is_nan() {
            self
        } else if other.lt_spec(self) {
            other
        } else {
            self
        }
    }

    /// The absolute value: the pattern without its sign.
    pub open spec fn abs_spec(self) -> Scalar {
        Scalar { bits: self.magnitude() as u32 }
    }

    /// The number with the given bit pattern.
    pub fn from_bits(bits: u32) -> (s: Scalar)
        ensures
            s.bits == bits,
    {
        Scalar { bits }
    }

    /// The bit pattern of the number.
    pub fn to_bits(self) -> (bits: u32)
        ensures
            bits == self.bits,
    {
        self.bits
    }

    /// Positive zero.
    pub fn zero() -> (s: Scalar)
        ensures
            s.bits == 0,
            s.rank() == 0,
            !s.is_nan(),
    {
        Scalar { bits: 0 }
    }

    /// One.
    pub fn one() -> (s: Scalar)
        ensures
            s.bits == ONE_BITS,
            !s.is_nan(),
    {
        Scalar { bits: ONE_BITS }
    }

    /// The machine epsilon.
    pub fn epsilon() -> (s: Scalar)
        ensures
            s.bits == EPSILON_BITS,
            !s.is_nan(),
    {
        Scalar { bits: EPSILON_BITS }
    }

    /// Positive infinity.
    pub fn infinity() -> (s: Scalar)
        ensures
            s.bits == INFINITY_BITS,
            !s.is_nan(),
    {
        Scalar { bits: INFINITY_BITS }
    }

    /// The smallest finite number.
    pub fn min_finite() -> (s: Scalar)
        ensures
            s.bits == MIN_FINITE_BITS,
            !s.is_nan(),
    {
        Scalar { bits: MIN_FINITE_BITS }
    }

    /// The largest finite number.
    pub fn max_finite() -> (s: Scalar)
        ensures
            s.bits == MAX_FINITE_BITS,
            !s.is_nan(),
    {
        Scalar { bits: MAX_FINITE_BITS }
    }

    /// Whether the pattern encodes a NaN.
    pub fn is_nan_value(self) -> (r: bool)
        ensures
            r == self.is_nan(),
    {
        if self.bits < SIGN_BIT {
            self.bits > INFINITY_BITS
        } else {
            self.bits - SIGN_BIT > INFINITY_BITS
        }
    }

    /// The rank as a machine integer.
    pub fn rank_value(self) -> (k: i64)
        ensures
            k == self.rank(),
    {
        if self.bits < SIGN_BIT {
            self.bits as i64
        } else {
            -((self.bits - SIGN_BIT) as i64)
        }
    }

    /// The absolute value.
    pub fn abs(self) -> (r: Scalar)
        ensures
            r == self.abs_spec(),
            r.is_nan() == self.is_nan(),
            !self.is_nan() ==> r.rank() >= 0 && (r.rank() == self.rank() || r.rank()
                == -self.rank()),
    {
        if self.bits < SIGN_BIT {
            self
        } else {
            Scalar { bits: self.bits - SIGN_BIT }
        }
    }

    /// The number cut down to an unsigned integer of 32 bits: its whole part,
    /// with everything below zero taken as 0 and everything above the largest
    /// such integer as that. A NaN gives 0.
    pub fn to_u32(self) -> (n: u32)
        ensures
            n == self.to_u32_spec(),
    {
        if self.bits >= SIGN_BIT || self.bits > INFINITY_BITS {
            return 0;
        }
        let exponent = self.bits / 0x80_0000;
        let significand = 0x80_0000 + self.bits % 0x80_0000;
        if exponent < 127 {
            proof {
                lemma_below_one(self);
            }
            0
        } else if exponent <= 150 {
            let divisor = power_of_two(150 - exponent);
            proof {
                lemma_whole_part(self);
                lemma_pow2_pos((150 - exponent) as nat);
            }
            significand / divisor
        } else if exponent < 159 {
            let factor = power_of_two(exponent - 150);
            proof {
                lemma_whole_number(self);
                lemma2_to64();
                if exponent - 150 < 8 {
                    lemma_pow2_strictly_increases((exponent - 150) as nat, 8);
                }
                assert(significand * factor <= 0xff_ffff * 0x100) by (nonlinear_arith)
                    requires
                        significand <= 0xff_ffff,
                        factor <= 0x100,
                ;
            }
            significand * factor
        } else {
            proof {
                lemma_beyond_u32(self);
            }
            u32::MAX
        }
    }

    /// The number cut down to a byte: its whole part, with everything below
    /// zero taken as 0 and everything above 255 as 255. A NaN gives 0.
    pub fn to_byte(self) -> (b: u8)
        ensures
            b == self.to_byte_spec(),
    {
        let whole = self.to_u32();
        proof {
            if self.bits < SIGN_BIT {
                lemma_whole_part_is_not_negative(self);
            }
        }
        if whole >= 255 {
            255
        } else {
            whole as u8
        }
    }

    /// Whether `self` is below `other`; a NaN is below nothing and nothing is below it.
    pub fn lt(self, other: Scalar) -> (r: bool)
        ensures
            r == self.lt_spec(other),
    {
        !self.is_nan_value() && !other.is_nan_value() && self.rank_value() < other.rank_value()
    }

    /// Whether `self` is at most `other`; with a NaN on either side it is not.
    pub fn le(self, other: Scalar) -> (r: bool)
        ensures
            r == self.le_spec(other),
    {
        !self.is_nan_value() && !other.is_nan_value() && self.rank_value() <= other.rank_value()
    }

    /// Whether `self` lies in the window from `t_min` to `t_max`, ends included.
    pub fn in_window(self, t_min: Scalar, t_max: Scalar) -> (r: bool)
        ensures
            r == self.in_window_spec(t_min, t_max),
            r && !self.is_nan() && !t_min.is_nan() && !t_max.is_nan() ==> t_min.le_spec(self)
                && self.le_spec(t_max),
    {
        !(self.lt(t_min) || t_max.lt(self))
    }

    /// The larger of the two, and the one that is a number where the other is not.
    pub fn max_num(self, other: Scalar) -> (r: Scalar)
        ensures
            r == self.max_num_spec(other),
    {
        if self.is_nan_value() {
            other
        } else if other.is_nan_value() {
            self
        } else if self.lt(other) {
            other
        } else {
            self
        }
    }

    /// The smaller of the two, and the one that is a number where the other is not.
    pub fn min_num(self, other: Scalar) -> (r: Scalar)
        ensures
            r == self.min_num_spec(other),
    {
        if self.is_nan_value() {
            other
        } else if other.is_nan_value() {
            self
        } else if other.lt(self) {
            other
        } else {
            self
        }
    }

    /// `self` where it is strictly below `other`, else `other`.
    pub fn min(self, other: Scalar) -> (r: Scalar)
        ensures
            r == self.min_spec(other),
    {
        if self.lt(other) {
            self
        } else {
            other
        }
    }

    /// `self` where it is strictly above `other`, else `other`.
    pub fn max(self, other: Scalar) -> (r: Scalar)
        ensures
            r == self.max_spec(other),
    {
        if other.lt(self) {
            self
        } else {
            other
        }
    }
}

/// A number whose exponent is below that of 1 is below 1: its whole part is 0.
pub proof fn lemma_below_one(a: Scalar)
    requires
        a.bits < SIGN_BIT,
        a.bits / 0x80_0000 < 127,
    ensures
        0 <= a.scaled_value() < pow2(149),
        a.scaled_value() / (pow2(149) as int) == 0,
{
    let e = a.bits as int / 0x80_0000;
    let f = a.bits as int % 0x80_0000;
    lemma2_to64();
    lemma_pow2_pos(149);
    if e == 0 {
        lemma_pow2_strictly_increases(23, 149);
    } else {
        let p = pow2((e - 1) as nat) as int;
        lemma_pow2_pos((e - 1) as nat);
        if e - 1 < 125 {
            lemma_pow2_strictly_increases((e - 1) as nat, 125);
        }
        lemma_pow2_adds(24, 125);
        assert(0 <= (0x80_0000 + f) * p < 0x100_0000 * pow2(125)) by (nonlinear_arith)
            requires
                0 <= f < 0x80_0000,
                0 < p <= pow2(125),
        ;
    }
    let v = a.scaled_value();
    let d = pow2(149) as int;
    assert(v / d == 0) by (nonlinear_arith)
        requires
            0 <= v < d,
    ;
}

/// A number that is not negative has a whole part that is not.
pub proof fn lemma_whole_part_is_not_negative(a: Scalar)
    requires
        a.bits < SIGN_BIT,
    ensures
        a.scaled_value() >= 0,
        a.whole_part() >= 0,
{
    let e = a.bits as int / 0x80_0000;
    let f = a.bits as int % 0x80_0000;
    lemma_pow2_pos(149);
    if e > 0 {
        let p = pow2((e - 1) as nat) as int;
        lemma_pow2_pos((e - 1) as nat);
        assert(0 <= (0x80_0000 + f) * p) by (nonlinear_arith)
            requires
                0 <= f,
                0 < p,
        ;
    }
    lemma_div_is_ordered(0, a.scaled_value(), pow2(149) as int);
}

/// A number whose exponent is 32 or more above that of 1 is beyond every
/// unsigned integer of 32 bits.
pub proof fn lemma_beyond_u32(a: Scalar)
    requires
        a.bits < SIGN_BIT,
        a.bits / 0x80_0000 >= 159,
    ensures
        a.whole_part() > u32::MAX,
{
    let e = a.bits as int / 0x80_0000;
    let f = a.bits as int % 0x80_0000;
    let p = pow2((e - 1) as nat) as int;
    let d = pow2(149) as int;
    lemma2_to64();
    lemma_pow2_pos(149);
    if 158 < e - 1 {
        lemma_pow2_strictly_increases(158, (e - 1) as nat);
    }
    lemma_pow2_adds(23, 158);
    lemma_pow2_adds(32, 149);
    assert(pow2(181) == 0x1_0000_0000 * d);
    assert((0x80_0000 + f) * p >= 0x80_0000 * pow2(158)) by (nonlinear_arith)
        requires
            0 <= f,
            p >= pow2(158),
    ;
    let v = a.scaled_value();
    assert(v >= 0x1_0000_0000 * d);
    lemma_div_is_ordered(0x1_0000_0000 * d, v, d);
    assert((0x1_0000_0000 * d) / d == 0x1_0000_0000) by (nonlinear_arith)
        requires
            d > 0,
    ;
}

/// The whole part of a number of at least 1 whose exponent leaves places
/// after the point: its significand, shifted down by as many places as are
/// left of the 23.
pub proof fn lemma_whole_part(a: Scalar)
    requires
        a.bits < SIGN_BIT,
        127 <= a.bits / 0x80_0000 <= 150,
    ensures
        a.whole_part() == (0x80_0000 + a.bits % 0x80_0000) / (pow2(
            (150 - a.bits / 0x80_0000) as nat,
        ) as int),
        a.whole_part() < 0x100_0000,
{
    let e = a.bits as int / 0x80_0000;
    let f = a.bits as int % 0x80_0000;
    let p = pow2((e - 1) as nat) as int;
    let q = pow2((150 - e) as nat) as int;
    lemma_pow2_pos((e - 1) as nat);
    lemma_pow2_pos((150 - e) as nat);
    lemma_pow2_adds((e - 1) as nat, (150 - e) as nat);
    assert(pow2(149) == p * q);
    lemma_div_multiples_vanish_quotient(p, 0x80_0000 + f, q);
    assert((0x80_0000 + f) * p == p * (0x80_0000 + f)) by (nonlinear_arith);
    assert((0x80_0000 + f) / q < 0x100_0000) by (nonlinear_arith)
        requires
            0 <= f < 0x80_0000,
            q >= 1,
    ;
}

/// A number whose exponent leaves no place after the point is whole: it is
/// its significand, shifted up by as many places as the exponent is beyond 23.
pub proof fn lemma_whole_number(a: Scalar)
    requires
        a.bits < SIGN_BIT,
        150 < a.bits / 0x80_0000 < 255,
    ensures
        a.whole_part() == (0x80_0000 + a.bits % 0x80_0000) * pow2(
            (a.bits / 0x80_0000 - 150) as nat,
        ),
{
    let e = a.bits as int / 0x80_0000;
    let f = a.bits as int % 0x80_0000;
    let p = pow2((e - 150) as nat) as int;
    let d = pow2(149) as int;
    lemma_pow2_pos(149);
    lemma_pow2_adds((e - 150) as nat, 149);
    assert(pow2((e - 1) as nat) == p * d);
    let whole = (0x80_0000 + f) * p;
    assert(a.scaled_value() == whole * d) by (nonlinear_arith)
        requires
            a.scaled_value() == (0x80_0000 + f) * (p * d),
            whole == (0x80_0000 + f) * p,
    ;
    assert((whole * d) / d == whole) by (nonlinear_arith)
        requires
            d > 0,
    ;
}

/// Two to the power of `k`.
pub fn power_of_two(k: u32) -> (p: u32)
    requires
        k < 32,
    ensures
        p == pow2(k as nat),
{
    let mut p: u32 = 1;
    let mut i: u32 = 0;
    proof {
        lemma2_to64();
    }
    while i < k
        invariant
            i <= k < 32,
            p == pow2(i as nat),
        decreases k - i,
    {
        proof {
            vstd::arithmetic::power2::lemma_pow2_unfold((i + 1) as nat);
            lemma2_to64();
            if i + 1 < 31 {
                lemma_pow2_strictly_increases((i + 1) as nat, 31);
            }
        }
        p = p * 2;
        i += 1;
    }
    p
}

/// The size of a number grows with its magnitude: of two patterns without
/// sign, the larger one encodes the larger number.
pub proof fn lemma_magnitude_orders_sizes(a: Scalar, b: Scalar)
    requires
        a.bits < SIGN_BIT,
        b.bits < SIGN_BIT,
        a.bits < b.bits,
    ensures
        0 <= a.scaled_value() < b.scaled_value(),
{
    let (ea, fa) = (a.bits as int / 0x80_0000, a.bits as int % 0x80_0000);
    let (eb, fb) = (b.bits as int / 0x80_0000, b.bits as int % 0x80_0000);
    assert(ea <= eb && (ea == eb ==> fa < fb));
    if ea > 0 {
        lemma_pow2_pos((ea - 1) as nat);
    }
    lemma_pow2_pos((eb - 1) as nat);
    if ea == eb {
        if ea > 0 {
            let p = pow2((ea - 1) as nat) as int;
            assert((0x80_0000 + fa) * p < (0x80_0000 + fb) * p) by (nonlinear_arith)
                requires
                    fa < fb,
                    p > 0,
            ;
            assert(0 <= (0x80_0000 + fa) * p) by (nonlinear_arith)
                requires
                    0 <= fa,
                    p > 0,
            ;
        }
    } else {
        let q = pow2((eb - 1) as nat) as int;
        assert(0x80_0000 * q <= (0x80_0000 + fb) * q) by (nonlinear_arith)
            requires
                0 <= fb,
                q > 0,
        ;
        if ea == 0 {
            assert(0x80_0000 * 1 <= 0x80_0000 * q) by (nonlinear_arith)
                requires
                    q >= 1,
            ;
        } else {
            let p = pow2((ea - 1) as nat) as int;
            lemma_pow2_strictly_increases((ea - 1) as nat, (eb - 1) as nat);
            assert((0x80_0000 + fa) * p < 0x80_0000 * (2 * p)) by (nonlinear_arith)
                requires
                    fa < 0x80_0000,
                    p > 0,
            ;
            // two to a power below another is at most half of it
            assert(2 * p <= q) by {
                vstd::arithmetic::power2::lemma_pow2_unfold(ea as nat);
                if ea < eb - 1 {
                    lemma_pow2_strictly_increases(ea as nat, (eb - 1) as nat);
                }
            }
            assert(0x80_0000 * (2 * p) <= 0x80_0000 * q) by (nonlinear_arith)
                requires
                    2 * p <= q,
            ;
            assert(0 <= (0x80_0000 + fa) * p) by (nonlinear_arith)
                requires
                    0 <= fa,
                    p > 0,
            ;
        }
    }
}

/// The order of ranks is the order of the numbers: of two patterns, one has
/// the lower rank exactly if it encodes the lower number, and the two have the
/// same rank exactly if they encode the same number. A NaN counts here as the
/// number that its pattern would encode if its exponent were an ordinary one.
pub proof fn lemma_rank_orders_values(a: Scalar, b: Scalar)
    ensures
        a.rank() < b.rank() <==> a.scaled_value() < b.scaled_value(),
        a.rank() == b.rank() <==> a.scaled_value() == b.scaled_value(),
{
    let ma = Scalar { bits: a.magnitude() as u32 };
    let mb = Scalar { bits: b.magnitude() as u32 };
    let zero = Scalar { bits: 0 };
    assert(zero.scaled_value() == 0);
    if ma.bits < mb.bits {
        lemma_magnitude_orders_sizes(ma, mb);
    } else if mb.bits < ma.bits {
        lemma_magnitude_orders_sizes(mb, ma);
    }
    if ma.bits > 0 {
        lemma_magnitude_orders_sizes(zero, ma);
    }
    if mb.bits > 0 {
        lemma_magnitude_orders_sizes(zero, mb);
    }
}

} // verus!
