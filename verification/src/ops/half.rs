//! Half-precision values.
use crate::scalar::Scalar;
use vstd::arithmetic::power2::pow2;
use vstd::prelude::*;

verus! {

/// Sign bit of a half-precision pattern.
pub open spec fn half_sign(bits: u16) -> int {
    bits as int / 0x8000
}

/// Exponent field of a half-precision pattern.
pub open spec fn half_exp(bits: u16) -> int {
    bits as int / 1024 % 32
}

/// Fraction field of a half-precision pattern.
pub open spec fn half_man(bits: u16) -> int {
    bits as int % 1024
}

/// Magnitude of a finite half-precision value, in units of `2^-149`.
pub open spec fn half_units(bits: u16) -> int {
    if half_exp(bits) == 0 {
        half_man(bits) * pow2(125)
    } else {
        (1024 + half_man(bits)) * pow2((half_exp(bits) + 124) as nat)
    }
}

/// Sign bit of a single-precision pattern.
pub open spec fn single_sign(bits: u32) -> int {
    bits as int / 0x8000_0000
}

/// Exponent field of a single-precision pattern.
pub open spec fn single_exp(bits: u32) -> int {
    bits as int / 0x80_0000 % 256
}

/// Fraction field of a single-precision pattern.
pub open spec fn single_man(bits: u32) -> int {
    bits as int % 0x80_0000
}

/// Magnitude of a finite single-precision value, in units of `2^-149`.
pub open spec fn single_units(bits: u32) -> int {
    if single_exp(bits) == 0 {
        single_man(bits)
    } else {
        (0x80_0000 + single_man(bits)) * pow2((single_exp(bits) - 1) as nat)
    }
}

/// `single` stands for the same value as the half-precision pattern `half`. Of a value
/// that is not a number only that is claimed: it stays one, with its payload in front.
pub open spec fn same_value(half: u16, single: u32) -> bool {
    &&& single_sign(single) == half_sign(half)
    &&& half_exp(half) < 31 ==> single_exp(single) < 255 && single_units(single) == half_units(half)
    &&& half_exp(half) == 31 ==> single_exp(single) == 255 && single_man(single) == half_man(half)
        * 8192
}

/// A finite value has one pattern: same sign and same magnitude, same bits.
pub proof fn lemma_pattern_unique(half: u16, a: u32, b: u32)
    requires
        same_value(half, a),
        same_value(half, b),
    ensures
        a == b,
{
    if half_exp(half) < 31 {
        let (ea, eb) = (single_exp(a), single_exp(b));
        if ea < eb {
            lemma_larger_exponent(a, b);
        } else if eb < ea {
            lemma_larger_exponent(b, a);
        } else if ea > 0 {
            vstd::arithmetic::power2::lemma_pow2_pos((ea - 1) as nat);
            assert(single_man(a) == single_man(b)) by (nonlinear_arith)
                requires
                    (0x80_0000 + single_man(a)) * pow2((ea - 1) as nat) == (0x80_0000 + single_man(
                        b,
                    )) * pow2((ea - 1) as nat),
                    pow2((ea - 1) as nat) > 0,
            ;
        }
    }
}

/// A larger exponent field means a larger magnitude.
proof fn lemma_larger_exponent(a: u32, b: u32)
    requires
        single_exp(a) < single_exp(b),
    ensures
        single_units(a) < single_units(b),
{
    let ea = single_exp(a);
    let eb = single_exp(b);
    let pb = pow2((eb - 1) as nat);
    vstd::arithmetic::power2::lemma_pow2_pos((eb - 1) as nat);
    if ea == 0 {
        assert(single_units(b) >= 0x80_0000) by (nonlinear_arith)
            requires
                single_units(b) == (0x80_0000 + single_man(b)) * pb,
                single_man(b) >= 0,
                pb >= 1,
        ;
    } else {
        let pa = pow2((ea - 1) as nat);
        vstd::arithmetic::power2::lemma_pow2_pos((ea - 1) as nat);
        vstd::arithmetic::power2::lemma_pow2_unfold(ea as nat);
        if ea < eb - 1 {
            vstd::arithmetic::power2::lemma_pow2_strictly_increases(ea as nat, (eb - 1) as nat);
        }
        assert(single_units(a) < single_units(b)) by (nonlinear_arith)
            requires
                single_units(a) == (0x80_0000 + single_man(a)) * pa,
                single_units(b) == (0x80_0000 + single_man(b)) * pb,
                0 <= single_man(a) < 0x80_0000,
                0 <= single_man(b),
                pa > 0,
                pb >= 2 * pa,
        ;
    }
}

/// The single-precision pattern of a half-precision value.
pub open spec fn single_pattern(bits: u16) -> u32 {
    choose|s: u32| same_value(bits, s)
}

/// The single-precision pattern with these fields.
fn compose(sign: u32, exp: u32, man: u32) -> (r: u32)
    requires
        sign <= 1,
        exp <= 255,
        man < 0x80_0000,
    ensures
        single_sign(r) == sign,
        single_exp(r) == exp,
        single_man(r) == man,
{
    sign * 0x8000_0000 + exp * 0x80_0000 + man
}

/// Converts a half-precision pattern to single precision, exactly.
pub fn f16_to_f32(bits: u16) -> (r: u32)
    ensures
        r == single_pattern(bits),
        same_value(bits, r),
{
    let sign: u32 = (bits / 0x8000) as u32;
    let exp: u32 = (bits / 1024 % 32) as u32;
    let man: u32 = (bits % 1024) as u32;
    let out: u32;
    if exp == 0 {
        if man == 0 {
            out = compose(sign, 0, 0);
            proof {
                assert(0 * pow2(125) == 0) by (nonlinear_arith);
            }
        } else {
            let mut m: u32 = man;
            let mut e: u32 = 113;
            proof {
                assert(pow2(0) == 1) by {
                    vstd::arithmetic::power2::lemma2_to64();
                }
            }
            let ghost mut shift: nat = 0;
            while m < 1024
                invariant
                    0 < m < 2048,
                    m == man * pow2(shift),
                    0 < man < 1024,
                    e == 113 - shift,
                    pow2(shift) <= m,
                    shift <= 11,
                decreases 2048 - m,
            {
                proof {
                    vstd::arithmetic::power2::lemma_pow2_unfold(shift + 1);
                    vstd::arithmetic::power2::lemma2_to64();
                    if shift >= 10 {
                        if shift == 11 {
                            assert(pow2(11) == 2048);
                        }
                        assert(pow2(10) == 1024);
                    }
                    assert(man * (2 * pow2(shift)) == 2 * (man * pow2(shift))) by (nonlinear_arith);
                }
                m = m * 2;
                e = e - 1;
                proof {
                    shift = shift + 1;
                }
            }
            out = compose(sign, e, (m - 1024) * 8192);
            proof {
                assert(0x80_0000 + (m - 1024) * 8192 == m * 8192);
                vstd::arithmetic::power2::lemma2_to64();
                vstd::arithmetic::power2::lemma_pow2_adds(shift, (112 - shift) as nat);
                vstd::arithmetic::power2::lemma_pow2_adds(13, 112);
                assert(
                    m * 8192 * pow2((112 - shift) as nat) == man * pow2(125)
                ) by (nonlinear_arith)
                    requires
                        m == man * pow2(shift),
                        pow2(shift) * pow2((112 - shift) as nat) == pow2(112),
                        pow2(13) * pow2(112) == pow2(125),
                        pow2(13) == 8192,
                ;
            }
        }
    } else if exp == 0x1f {
        out = compose(sign, 255, man * 8192);
    } else {
        out = compose(sign, exp + 112, man * 8192);
        proof {
            vstd::arithmetic::power2::lemma2_to64();
            vstd::arithmetic::power2::lemma_pow2_adds(13, (exp + 111) as nat);
            assert((0x80_0000 + man * 8192) * pow2((exp + 111) as nat) == (1024 + man) * pow2(
                (exp + 124) as nat,
            )) by (nonlinear_arith)
                requires
                    pow2(13) * pow2((exp + 111) as nat) == pow2((exp + 124) as nat),
                    pow2(13) == 8192,
            ;
        }
    }
    proof {
        assert(same_value(bits, out));
        lemma_pattern_unique(bits, out, single_pattern(bits));
    }
    out
}

/// A half-precision value in the arithmetic `S`.
pub open spec fn single_of_half<S: Scalar>(bits: u16) -> S {
    S::of_raw_spec(single_pattern(bits) as u64)
}

/// Computes [`single_of_half`].
pub fn half_to_single<S: Scalar>(bits: u16) -> (r: S)
    ensures
        r == single_of_half::<S>(bits),
{
    S::of_raw(f16_to_f32(bits) as u64)
}

/// Law: every half-precision value has exactly one single-precision pattern of the same
/// value; conversion loses nothing.
pub proof fn law_conversion_exact(bits: u16, s: u32)
    requires
        same_value(bits, s),
    ensures
        s == single_pattern(bits),
{
    lemma_pattern_unique(bits, s, single_pattern(bits));
}

} // verus!
