//! 32-bit floats by their bits.

use vstd::prelude::*;

verus! {

/// The bits of `1.0`.
pub const ONE_BITS: u32 = 0x3f80_0000;

/// A 32-bit float, held as the bits of its IEEE 754 form.
#[derive(Clone, Copy, Debug)]
pub struct Float {
    /// Sign, exponent and fraction, from the top bit down.
    pub bits: u32,
}

impl View for Float {
    type V = Float;

    open spec fn view(&self) -> Float {
        *self
    }
}

/// The biased exponent.
pub open spec fn exponent(x: Float) -> nat {
    ((x.bits / 0x80_0000) % 256) as nat
}

/// The stored bits of the fraction.
pub open spec fn fraction(x: Float) -> nat {
    (x.bits % 0x80_0000) as nat
}

/// Whether the sign bit is set.
pub open spec fn negative(x: Float) -> bool {
    x.bits >= 0x8000_0000
}

/// The integer that, times a power of two, is the magnitude.
pub open spec fn significand(x: Float) -> nat {
    if exponent(x) == 0 {
        fraction(x)
    } else {
        fraction(x) + 0x80_0000
    }
}

/// The power of two that the significand is taken times.
pub open spec fn scale(x: Float) -> int {
    if exponent(x) == 0 {
        -149
    } else {
        exponent(x) - 150
    }
}

/// A number, neither an infinity nor a NaN.
pub open spec fn finite(x: Float) -> bool {
    exponent(x) != 255
}

/// Not a number.
pub open spec fn is_nan(x: Float) -> bool {
    exponent(x) == 255 && fraction(x) != 0
}

/// Zero of either sign.
pub open spec fn is_zero(x: Float) -> bool {
    exponent(x) == 0 && fraction(x) == 0
}

/// IEEE 754 equality: a NaN equals nothing, the two zeros equal each other.
pub open spec fn float_eq(x: Float, y: Float) -> bool {
    !is_nan(x) && !is_nan(y) && (x.bits == y.bits || (is_zero(x) && is_zero(y)))
}

/// The magnitude, with what stands after the point dropped.
pub open spec fn whole_part(x: Float) -> nat {
    if scale(x) >= 0 {
        significand(x) * vstd::arithmetic::power2::pow2(scale(x) as nat)
    } else {
        significand(x) / vstd::arithmetic::power2::pow2((-scale(x)) as nat)
    }
}

/// The float as an `i32`: rounded toward zero, held to the range, 0 for a NaN.
pub open spec fn as_i32(x: Float) -> i32 {
    if is_nan(x) {
        0
    } else if negative(x) {
        if whole_part(x) > 0x8000_0000 {
            i32::MIN
        } else {
            (-(whole_part(x) as int)) as i32
        }
    } else if whole_part(x) > 0x7fff_ffff {
        i32::MAX
    } else {
        whole_part(x) as i32
    }
}

/// The float as a `u32`: rounded toward zero, held to the range, 0 for a NaN.
pub open spec fn as_u32(x: Float) -> u32 {
    if is_nan(x) || negative(x) {
        0
    } else if whole_part(x) > 0xffff_ffff {
        u32::MAX
    } else {
        whole_part(x) as u32
    }
}

fn power_of_two(n: u32) -> (r: u64)
    requires
        n < 32,
    ensures
        r == vstd::arithmetic::power2::pow2(n as nat),
{
    let mut r: u64 = 1;
    let mut i: u32 = 0;
    assert(vstd::arithmetic::power2::pow2(0) == 1) by {
        vstd::arithmetic::power2::lemma2_to64();
    }
    while i < n
        invariant
            i <= n < 32,
            r == vstd::arithmetic::power2::pow2(i as nat),
        decreases n - i,
    {
        proof {
            vstd::arithmetic::power2::lemma2_to64();
            vstd::arithmetic::power2::lemma_pow2_unfold((i + 1) as nat);
            if i < 31 {
                vstd::arithmetic::power2::lemma_pow2_strictly_increases(i as nat, 31);
            }
        }
        r = r * 2;
        i += 1;
    }
    r
}

impl Float {
    /// `0.0`.
    pub fn zero() -> (r: Float)
        ensures
            r == (Float { bits: 0 }),
    {
        Float { bits: 0 }
    }

    fn fields(self) -> (r: (bool, u32, u32))
        ensures
            r.0 == negative(self),
            r.1 == exponent(self),
            r.2 == fraction(self),
    {
        (self.bits >= 0x8000_0000, (self.bits / 0x80_0000) % 256, self.bits % 0x80_0000)
    }

    /// Whether this is a number, neither an infinity nor a NaN.
    pub fn is_finite(self) -> (r: bool)
        ensures
            r == finite(self),
    {
        self.fields().1 != 255
    }

    /// Whether this is zero, of either sign.
    pub fn is_zero(self) -> (r: bool)
        ensures
            r == is_zero(self),
    {
        let f = self.fields();
        f.1 == 0 && f.2 == 0
    }

    /// IEEE 754 equality.
    pub fn same(self, other: Float) -> (r: bool)
        ensures
            r == float_eq(self, other),
    {
        let a = self.fields();
        let b = other.fields();
        if (a.1 == 255 && a.2 != 0) || (b.1 == 255 && b.2 != 0) {
            false
        } else {
            self.bits == other.bits || (a.1 == 0 && a.2 == 0 && b.1 == 0 && b.2 == 0)
        }
    }

    /// The magnitude with what stands after the point dropped, held to the
    /// range of a `u32` and one more.
    fn whole(self) -> (r: u64)
        ensures
            r <= 0x1_0000_0000,
            r == (if whole_part(self) > 0xffff_ffff {
                0x1_0000_0000
            } else {
                whole_part(self) as int
            }),
    {
        let f = self.fields();
        let e: u32 = f.1;
        proof {
            vstd::arithmetic::power2::lemma2_to64();
        }
        if e < 127 {
            proof {
                let k = (-scale(self)) as nat;
                if k > 24 {
                    vstd::arithmetic::power2::lemma_pow2_strictly_increases(24, k);
                }
                assert(significand(self) / vstd::arithmetic::power2::pow2(k) == 0) by (nonlinear_arith)
                    requires
                        significand(self) < 0x100_0000,
                        vstd::arithmetic::power2::pow2(k) >= 0x100_0000,
                ;
            }
            return 0;
        }
        let m: u64 = f.2 as u64 + 0x80_0000;
        if e < 150 {
            let d: u64 = power_of_two(150 - e);
            let r: u64 = m / d;
            assert(r <= m) by (nonlinear_arith)
                requires
                    d > 0,
                    r == m / d,
            ;
            r
        } else if e < 160 {
            let d: u64 = power_of_two(e - 150);
            proof {
                if e < 159 {
                    vstd::arithmetic::power2::lemma_pow2_strictly_increases((e - 150) as nat, 9);
                }
            }
            assert(m * d <= 0x100_0000 * 512) by (nonlinear_arith)
                requires
                    m <= 0x100_0000,
                    d <= 512,
            ;
            let r: u64 = m * d;
            if r > 0xffff_ffff {
                0x1_0000_0000
            } else {
                r
            }
        } else {
            proof {
                let k = scale(self) as nat;
                if k > 10 {
                    vstd::arithmetic::power2::lemma_pow2_strictly_increases(10, k);
                }
                assert(significand(self) * vstd::arithmetic::power2::pow2(k) >= 0x80_0000 * 1024) by (nonlinear_arith)
                    requires
                        significand(self) >= 0x80_0000,
                        vstd::arithmetic::power2::pow2(k) >= 1024,
                ;
            }
            0x1_0000_0000
        }
    }

    /// The float as an `i32`: rounded toward zero and held to the range.
    pub fn to_i32(self) -> (r: i32)
        ensures
            r == as_i32(self),
    {
        let f = self.fields();
        if f.1 == 255 && f.2 != 0 {
            return 0;
        }
        let w: u64 = self.whole();
        if f.0 {
            if w > 0x8000_0000 {
                i32::MIN
            } else {
                (-(w as i64)) as i32
            }
        } else if w > 0x7fff_ffff {
            i32::MAX
        } else {
            w as i32
        }
    }

    /// The float as a `u32`: rounded toward zero and held to the range.
    pub fn to_u32(self) -> (r: u32)
        ensures
            r == as_u32(self),
    {
        let f = self.fields();
        if (f.1 == 255 && f.2 != 0) || f.0 {
            return 0;
        }
        let w: u64 = self.whole();
        if w > 0xffff_ffff {
            u32::MAX
        } else {
            w as u32
        }
    }
}

impl PartialEq for Float {
    fn eq(&self, other: &Self) -> (r: bool) {
        self.same(*other)
    }
}

impl vstd::std_specs::cmp::PartialEqSpecImpl for Float {
    open spec fn obeys_eq_spec() -> bool {
        true
    }

    open spec fn eq_spec(&self, other: &Float) -> bool {
        float_eq(*self, *other)
    }
}

} // verus!
