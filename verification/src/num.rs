//! Double-precision values carried by their bit pattern.
//!
//! A finite binary64 value is an integer multiple of 2^-1074, so the value times
//! 2^1074 is an integer; [`scaled`] is that integer, with the infinities placed
//! beyond every finite value. All orderings below are stated over it.

use crate::text::{dec_int, push_dec_i64};
use vstd::arithmetic::div_mod::*;
use vstd::arithmetic::mul::*;
use vstd::arithmetic::power2::*;
use vstd::bits::*;
use vstd::prelude::*;

verus! {

/// A double-precision value, held as its IEEE-754 binary64 bit pattern.
#[derive(Clone, Copy, Debug, PartialEq, Eq, Structural)]
pub struct Num {
    /// The bit pattern (`f64::to_bits`).
    pub bits: u64,
}

/// The sign bit of a binary64 pattern.
pub const SIGN_BIT: u64 = 0x8000_0000_0000_0000;

/// The magnitude bits of an infinity (all exponent bits set, no fraction).
pub const INF_BITS: u64 = 0x7FF0_0000_0000_0000;

/// 2^52, the weight of the implicit leading bit of a normal value.
pub open spec fn two52() -> int {
    0x10_0000_0000_0000
}

/// The 63 magnitude bits of a pattern (everything but the sign).
pub open spec fn mag_bits(b: u64) -> int {
    b as int % (SIGN_BIT as int)
}

/// Whether the sign bit is set.
pub open spec fn sign_set(b: u64) -> bool {
    b >= SIGN_BIT
}

/// Whether the pattern is a NaN.
pub open spec fn is_nan(b: u64) -> bool {
    mag_bits(b) > INF_BITS as int
}

/// Whether the pattern is an infinity.
pub open spec fn is_infinite(b: u64) -> bool {
    mag_bits(b) == INF_BITS as int
}

/// Whether the pattern is a finite value.
pub open spec fn is_finite(b: u64) -> bool {
    mag_bits(b) < INF_BITS as int
}

/// The magnitude, times 2^1074, of finite magnitude bits `m`: the fraction with
/// its implicit leading bit, scaled by the biased exponent.
pub open spec fn magnitude(m: int) -> int {
    let e = m / two52();
    let f = m % two52();
    if e == 0 {
        f
    } else {
        (f + two52()) * pow2((e - 1) as nat)
    }
}

/// A magnitude larger than any finite one, standing for infinity.
pub open spec fn infinite_magnitude() -> int {
    pow2(2100) as int
}

/// The value of a non-NaN pattern times 2^1074, with the infinities mapped to
/// plus or minus [`infinite_magnitude`].
pub open spec fn scaled(b: u64) -> int {
    let m = mag_bits(b);
    let v = if m == INF_BITS as int {
        infinite_magnitude()
    } else {
        magnitude(m)
    };
    if sign_set(b) {
        -v
    } else {
        v
    }
}

/// `a < b` as IEEE-754 orders doubles: false whenever either is NaN.
pub open spec fn lt(a: u64, b: u64) -> bool {
    !is_nan(a) && !is_nan(b) && scaled(a) < scaled(b)
}

/// `a <= b` as IEEE-754 orders doubles: false whenever either is NaN.
pub open spec fn le(a: u64, b: u64) -> bool {
    !is_nan(a) && !is_nan(b) && scaled(a) <= scaled(b)
}

/// A magnitude of exponent field `e` is below 2^52 * 2^e.
proof fn lemma_magnitude_below(m: int)
    requires
        0 <= m < INF_BITS as int,
    ensures
        magnitude(m) < two52() * pow2((m / two52()) as nat),
        0 <= magnitude(m),
        m / two52() >= 1 ==> two52() * pow2(((m / two52()) - 1) as nat) <= magnitude(m),
{
    let e = m / two52();
    let f = m % two52();
    lemma_pow2_pos(e as nat);
    if e == 0 {
        assert(pow2(0) == 1) by {
            lemma2_to64();
        }
    } else {
        let p = pow2((e - 1) as nat) as int;
        lemma_pow2_pos((e - 1) as nat);
        lemma_pow2_unfold(e as nat);
        assert((f + two52()) * p < (2 * two52()) * p) by {
            lemma_mul_strict_inequality(f + two52(), 2 * two52(), p);
        }
        assert((2 * two52()) * p == two52() * (2 * p)) by (nonlinear_arith);
        assert(two52() * p <= (f + two52()) * p) by {
            lemma_mul_inequality(two52(), f + two52(), p);
        }
    }
}

/// Finite magnitudes are ordered as their bits are.
proof fn lemma_magnitude_strictly_increases(m1: int, m2: int)
    requires
        0 <= m1 < m2 < INF_BITS as int,
    ensures
        magnitude(m1) < magnitude(m2),
{
    let e1 = m1 / two52();
    let e2 = m2 / two52();
    let f1 = m1 % two52();
    let f2 = m2 % two52();
    lemma_magnitude_below(m1);
    lemma_magnitude_below(m2);
    if e1 == e2 {
        if e1 != 0 {
            let p = pow2((e1 - 1) as nat) as int;
            lemma_pow2_pos((e1 - 1) as nat);
            lemma_mul_strict_inequality(f1 + two52(), f2 + two52(), p);
        }
    } else {
        assert(e1 < e2);
        // magnitude(m1) < 2^52 * 2^e1 <= 2^52 * 2^(e2 - 1) <= magnitude(m2)
        if e1 < e2 - 1 {
            lemma_pow2_strictly_increases(e1 as nat, (e2 - 1) as nat);
        }
        assert(pow2(e1 as nat) <= pow2((e2 - 1) as nat));
        lemma_mul_inequality(pow2(e1 as nat) as int, pow2((e2 - 1) as nat) as int, two52());
        assert(two52() * pow2(e1 as nat) <= two52() * pow2((e2 - 1) as nat)) by (nonlinear_arith)
            requires
                pow2(e1 as nat) * two52() <= pow2((e2 - 1) as nat) * two52(),
        ;
    }
}

/// Every finite magnitude is below the one standing for infinity.
proof fn lemma_magnitude_below_infinity(m: int)
    requires
        0 <= m < INF_BITS as int,
    ensures
        magnitude(m) < infinite_magnitude(),
{
    lemma_magnitude_below(m);
    let e = m / two52();
    assert(e <= 2046);
    assert(two52() == pow2(52)) by {
        lemma2_to64();
        lemma_pow2_adds(32, 20);
        lemma_pow2_adds(16, 4);
        lemma_pow2_adds(16, 16);
    }
    lemma_pow2_adds(52, e as nat);
    if 52 + e < 2100 {
        lemma_pow2_strictly_increases((52 + e) as nat, 2100);
    }
}

/// The extended magnitude of non-NaN magnitude bits.
pub open spec fn ext_magnitude(m: int) -> int {
    if m == INF_BITS as int {
        infinite_magnitude()
    } else {
        magnitude(m)
    }
}

proof fn lemma_ext_magnitude_strictly_increases(m1: int, m2: int)
    requires
        0 <= m1 < m2 <= INF_BITS as int,
    ensures
        ext_magnitude(m1) < ext_magnitude(m2),
        0 <= ext_magnitude(m1),
{
    lemma_magnitude_below(m1);
    if m2 == INF_BITS as int {
        lemma_magnitude_below_infinity(m1);
    } else {
        lemma_magnitude_strictly_increases(m1, m2);
    }
}

proof fn lemma_zero_magnitude()
    ensures
        ext_magnitude(0) == 0,
{
}

/// The position of a pattern in the order of doubles, with both zeros sharing
/// one position. Meaningful for every pattern that is not a NaN.
pub open spec fn order_position(b: u64) -> int {
    let m = mag_bits(b);
    if sign_set(b) && m > 0 {
        (SIGN_BIT as int) - 1 - m
    } else {
        (SIGN_BIT as int) + m
    }
}

/// For patterns that are not NaN, the order positions compare as the values do.
pub proof fn lemma_order_position(a: u64, b: u64)
    requires
        !is_nan(a),
        !is_nan(b),
    ensures
        order_position(a) < order_position(b) <==> scaled(a) < scaled(b),
        order_position(a) == order_position(b) <==> scaled(a) == scaled(b),
{
    let ma = mag_bits(a);
    let mb = mag_bits(b);
    lemma_zero_magnitude();
    if ma < mb {
        lemma_ext_magnitude_strictly_increases(ma, mb);
    } else if mb < ma {
        lemma_ext_magnitude_strictly_increases(mb, ma);
    }
    if ma > 0 {
        lemma_ext_magnitude_strictly_increases(0, ma);
    }
    if mb > 0 {
        lemma_ext_magnitude_strictly_increases(0, mb);
    }
}

/// The order position of a pattern, computed from its bits.
pub fn order_key(b: u64) -> (k: u64)
    ensures
        k as int == order_position(b),
{
    if b > SIGN_BIT {
        assert(!b == 0xFFFF_FFFF_FFFF_FFFFu64 - b) by (bit_vector);
        !b
    } else if b == SIGN_BIT {
        b
    } else {
        assert(b < 0x8000_0000_0000_0000u64 ==> b | 0x8000_0000_0000_0000u64 == b + 0x8000_0000_0000_0000u64) by (bit_vector);
        b | SIGN_BIT
    }
}

/// Whether a pattern is a NaN, from its bits.
pub fn nan(b: u64) -> (r: bool)
    ensures
        r == is_nan(b),
{
    let m = b & 0x7FFF_FFFF_FFFF_FFFF;
    assert(b & 0x7FFF_FFFF_FFFF_FFFFu64 == b % 0x8000_0000_0000_0000u64) by (bit_vector);
    m > INF_BITS
}

/// Whether a pattern is a finite value, from its bits.
pub fn finite(b: u64) -> (r: bool)
    ensures
        r == is_finite(b),
{
    let m = b & 0x7FFF_FFFF_FFFF_FFFF;
    assert(b & 0x7FFF_FFFF_FFFF_FFFFu64 == b % 0x8000_0000_0000_0000u64) by (bit_vector);
    m < INF_BITS
}

/// `a < b` for doubles given by their bits.
pub fn less(a: u64, b: u64) -> (r: bool)
    ensures
        r == lt(a, b),
{
    if nan(a) || nan(b) {
        false
    } else {
        proof {
            lemma_order_position(a, b);
        }
        order_key(a) < order_key(b)
    }
}

/// `a <= b` for doubles given by their bits.
pub fn less_eq(a: u64, b: u64) -> (r: bool)
    ensures
        r == le(a, b),
{
    if nan(a) || nan(b) {
        false
    } else {
        proof {
            lemma_order_position(a, b);
        }
        order_key(a) <= order_key(b)
    }
}

/// 2^1074: a finite double times this is an integer.
pub open spec fn unit() -> int {
    pow2(1074) as int
}

proof fn lemma_pow2_52_53()
    ensures
        pow2(52) == 0x10_0000_0000_0000,
        pow2(53) == 0x20_0000_0000_0000,
{
    lemma2_to64();
    lemma_pow2_adds(32, 20);
    lemma_pow2_adds(32, 21);
}

/// The whole number a double denotes, if it is finite and integral.
pub open spec fn whole_value(b: u64) -> Option<int> {
    if is_finite(b) && scaled(b) % unit() == 0 {
        Some(scaled(b) / unit())
    } else {
        None
    }
}

/// `x` clamped to the range of `i64`, as a cast from a double saturates.
pub open spec fn saturate_i64(x: int) -> int {
    if x > i64::MAX {
        i64::MAX as int
    } else if x < i64::MIN {
        i64::MIN as int
    } else {
        x
    }
}

/// Negating a multiple keeps it a multiple, and negates the quotient.
proof fn lemma_negated_division(mm: int, p: int)
    requires
        mm >= 0,
        p > 0,
    ensures
        ((-mm) % p == 0) == (mm % p == 0),
        mm % p == 0 ==> (-mm) / p == -(mm / p),
{
    lemma_fundamental_div_mod(mm, p);
    lemma_fundamental_div_mod(-mm, p);
    if mm % p == 0 {
        let k = mm / p;
        assert(-mm == p * (-k)) by (nonlinear_arith)
            requires
                mm == p * k + 0,
        ;
        lemma_div_multiples_vanish(-k, p);
        lemma_mod_multiples_basic(-k, p);
        assert((-k) * p == p * (-k)) by (nonlinear_arith);
    } else if (-mm) % p == 0 {
        let k = (-mm) / p;
        assert(mm == p * (-k)) by (nonlinear_arith)
            requires
                -mm == p * k + 0,
        ;
        lemma_mod_multiples_basic(-k, p);
        assert((-k) * p == p * (-k)) by (nonlinear_arith);
    }
}

/// The magnitude of a normal double's scaled value, `m * 2^(e-1)`, divided
/// by 2^1074: exactly when `e >= 1075`, with quotient `m * 2^(e-1075)`; and
/// otherwise exactly when `2^(1075-e)` divides `m`, with quotient `m / 2^(1075-e)`.
proof fn lemma_normal_whole(m: int, e: int)
    requires
        m > 0,
        1 <= e,
    ensures
        e >= 1075 ==> (m * pow2((e - 1) as nat)) % unit() == 0 && (m * pow2((e - 1) as nat))
            / unit() == m * pow2((e - 1075) as nat),
        e < 1075 ==> ((m * pow2((e - 1) as nat)) % unit() == 0) == (m % (pow2(
            (1075 - e) as nat,
        ) as int) == 0),
        e < 1075 && m % (pow2((1075 - e) as nat) as int) == 0 ==> (m * pow2((e - 1) as nat))
            / unit() == m / (pow2((1075 - e) as nat) as int),
{
    lemma_pow2_pos((e - 1) as nat);
    lemma_pow2_pos(1074);
    let pe = pow2((e - 1) as nat) as int;
    if e >= 1075 {
        let k = (e - 1075) as nat;
        lemma_pow2_pos(k);
        lemma_pow2_adds(1074, k);
        assert(1074 + k == (e - 1) as nat);
        let pk = pow2(k) as int;
        assert(m * pe == (m * pk) * unit()) by (nonlinear_arith)
            requires
                pe == unit() * pk,
        ;
        assert(m * pk >= 0) by (nonlinear_arith)
            requires
                m > 0,
                pk > 0,
        ;
        lemma_mod_multiples_basic(m * pk, unit());
        lemma_div_by_multiple(m * pk, unit());
    } else {
        let sh = (1075 - e) as nat;
        lemma_pow2_pos(sh);
        lemma_pow2_adds((e - 1) as nat, sh);
        assert((e - 1) as nat + sh == 1074);
        let q = pow2(sh) as int;
        assert(unit() == pe * q);
        assert(m * pe >= 0) by (nonlinear_arith)
            requires
                m > 0,
                pe > 0,
        ;
        lemma_mod_breakdown(m * pe, pe, q);
        assert(m * pe == pe * m) by (nonlinear_arith);
        lemma_div_multiples_vanish(m, pe);
        lemma_mod_multiples_basic(m, pe);
        // (m pe) % (pe q) == pe * (m % q)
        assert((m * pe) % unit() == pe * (m % q));
        assert((pe * (m % q) == 0) == (m % q == 0)) by (nonlinear_arith)
            requires
                pe > 0,
        ;
        lemma_div_denominator(m * pe, pe, q);
    }
}

/// The text `format!("{}", v as i64)` gives a double `v` given by its bits,
/// when `v` is finite and a whole number; `None` otherwise. The cast
/// saturates, so a whole number beyond the range of `i64` reads as its bound.
pub fn whole_text(b: u64) -> (r: Option<String>)
    ensures
        match whole_value(b) {
            Some(x) => r matches Some(t) && t@ == dec_int(saturate_i64(x)),
            None => r is None,
        },
{
    let e = (b >> 52u64) & 0x7FFu64;
    let f = b & 0xF_FFFF_FFFF_FFFFu64;
    let negative = b >= SIGN_BIT;
    proof {
        assert((b >> 52u64) & 0x7FFu64 == (b % 0x8000_0000_0000_0000u64) / 0x10_0000_0000_0000u64)
            by (bit_vector);
        assert(b & 0xF_FFFF_FFFF_FFFFu64 == (b % 0x8000_0000_0000_0000u64) % 0x10_0000_0000_0000u64)
            by (bit_vector);
        lemma2_to64();
        lemma_pow2_52_53();
        lemma_pow2_pos(1074);
    }
    let ghost m_bits = mag_bits(b);
    assert(e == m_bits / two52() && f == m_bits % two52());
    if e == 0x7FF {
        assert(!is_finite(b));
        return None;
    }
    assert(is_finite(b));
    let ghost mag = magnitude(m_bits);
    assert(scaled(b) == if negative { -mag } else { mag });
    let ghost w: int;
    let v: i64 = if e == 0 {
        assert(mag == f);
        proof {
            lemma_pow2_strictly_increases(52, 1074);
        }
        if f != 0 {
            proof {
                assert(f < pow2(52));
                assert(pow2(52) < pow2(1074));
                lemma_small_mod(f as nat, unit() as nat);
                lemma_negated_division(mag, unit());
            }
            assert(whole_value(b) is None);
            return None;
        }
        proof {
            w = 0;
            assert(scaled(b) == 0);
        }
        0
    } else {
        let m: u64 = f + 0x10_0000_0000_0000u64;
        assert(mag == m * pow2((e - 1) as nat));
        proof {
            lemma_normal_whole(m as int, e as int);
            lemma_negated_division(mag, unit());
        }
        if e >= 1075 {
            let k = e - 1075;
            if k <= 10 {
                proof {
                    lemma_pow2_strictly_increases(k as nat, 11);
                    assert(m * pow2(k as nat) < 0x20_0000_0000_0000 * 0x400) by (nonlinear_arith)
                        requires
                            m < 0x20_0000_0000_0000,
                            pow2(k as nat) <= 0x400,
                    ;
                    lemma_u64_shl_is_mul(m, k);
                }
                let mg = m << k;
                proof {
                    w = if negative { -(mg as int) } else { mg as int };
                }
                if negative {
                    -(mg as i64)
                } else {
                    mg as i64
                }
            } else {
                proof {
                    if k > 11 {
                        lemma_pow2_strictly_increases(11, k as nat);
                    }
                    assert(m * pow2(k as nat) >= 0x10_0000_0000_0000 * 0x800) by (nonlinear_arith)
                        requires
                            m >= 0x10_0000_0000_0000,
                            pow2(k as nat) >= 0x800,
                    ;
                    w = if negative { -(m * pow2(k as nat)) } else { m * pow2(k as nat) };
                }
                if negative {
                    i64::MIN
                } else {
                    i64::MAX
                }
            }
        } else {
            let sh = 1075 - e;
            if sh > 52 {
                proof {
                    if sh > 53 {
                        lemma_pow2_strictly_increases(53, sh as nat);
                    }
                    assert(m < pow2(53));
                    lemma_small_mod(m as nat, pow2(sh as nat));
                }
                assert(whole_value(b) is None);
                return None;
            }
            proof {
                lemma_pow2_pos(sh as nat);
                if sh < 52 {
                    lemma_pow2_strictly_increases(sh as nat, 52);
                }
                lemma_u64_shl_is_mul(1, sh);
            }
            let d = 1u64 << sh;
            assert(d == pow2(sh as nat));
            if m % d != 0 {
                assert(whole_value(b) is None);
                return None;
            }
            let q = m / d;
            assert(q <= m);
            proof {
                w = if negative { -(q as int) } else { q as int };
            }
            if negative {
                -(q as i64)
            } else {
                q as i64
            }
        }
    };
    assert(whole_value(b) == Some(w));
    assert(v as int == saturate_i64(w));
    let mut t = String::new();
    push_dec_i64(&mut t, v);
    assert(t@ =~= dec_int(saturate_i64(w)));
    Some(t)
}

} // verus!
