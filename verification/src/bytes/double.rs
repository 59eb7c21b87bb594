//! The bit pattern of a 64-bit IEEE-754 floating point number, and the
//! integers among the numbers that such patterns stand for.
//!
//! A pattern holds, from the top, one sign bit, eleven bits of biased
//! exponent and fifty-two bits of fraction. A finite pattern stands for
//! `significand * 2^(exponent - 1075)`, negated where the sign bit is set.

use vstd::arithmetic::div_mod::*;
use vstd::arithmetic::power2::*;
use vstd::bits::*;
use vstd::prelude::*;

verus! {

/// The pattern of negative zero: the sign bit alone.
pub const NEGATIVE_ZERO: u64 = 0x8000_0000_0000_0000;

/// Two to the power of 52: the weight of the bit that a normal number's
/// significand holds above its fraction.
pub const HIDDEN_BIT: u64 = 0x10_0000_0000_0000;

/// Whether the sign bit of `bits` is set.
pub open spec fn sign_bit(bits: u64) -> bool {
    bits >= 0x8000_0000_0000_0000
}

/// The eleven exponent bits of `bits`, as a number.
pub open spec fn biased_exponent(bits: u64) -> nat {
    ((bits / 0x10_0000_0000_0000) % 2048) as nat
}

/// The fifty-two fraction bits of `bits`, as a number.
pub open spec fn fraction(bits: u64) -> nat {
    (bits % 0x10_0000_0000_0000) as nat
}

/// Whether `bits` stands for a number: neither an infinity nor a NaN.
pub open spec fn is_finite(bits: u64) -> bool {
    biased_exponent(bits) != 2047
}

/// The significand of `bits`: the fraction, with the hidden bit above it
/// unless the number is zero or subnormal.
pub open spec fn significand(bits: u64) -> nat {
    if biased_exponent(bits) == 0 {
        fraction(bits)
    } else {
        0x10_0000_0000_0000 + fraction(bits)
    }
}

/// The exponent of `bits`, still biased: zero and the subnormal numbers share
/// the exponent of the smallest normal numbers.
pub open spec fn exponent(bits: u64) -> nat {
    if biased_exponent(bits) == 0 {
        1
    } else {
        biased_exponent(bits)
    }
}

/// The absolute value of `n`.
pub open spec fn magnitude(n: int) -> nat {
    if n < 0 {
        (-n) as nat
    } else {
        n as nat
    }
}

/// Whether `bits` stands for the integer `n`: that is, whether
/// `|n| * 2^1075 == significand * 2^exponent`, with the sign that the sign
/// bit gives. Both zeros stand for 0.
pub open spec fn has_integer_value(bits: u64, n: int) -> bool {
    &&& is_finite(bits)
    &&& sign_bit(bits) ==> n <= 0
    &&& !sign_bit(bits) ==> n >= 0
    &&& magnitude(n) * pow2(1075) == significand(bits) * pow2(exponent(bits))
}

/// The integer that `bits` stands for, if it stands for one.
pub open spec fn integer_value(bits: u64) -> Option<int> {
    let scaled = (significand(bits) * pow2(exponent(bits))) as int;
    if is_finite(bits) && scaled % (pow2(1075) as int) == 0 {
        let quotient = scaled / (pow2(1075) as int);
        Some(
            if sign_bit(bits) {
                -quotient
            } else {
                quotient
            },
        )
    } else {
        None
    }
}

/// The 32-bit signed integer that `bits` can be replaced by without loss:
/// the integer that `bits` stands for, where there is one, it fits in 32
/// bits, and `bits` is not negative zero, whose sign an integer cannot keep.
pub open spec fn compact_integer(bits: u64) -> Option<i32> {
    match integer_value(bits) {
        Some(n) => if bits != NEGATIVE_ZERO && i32::MIN <= n <= i32::MAX {
            Some(n as i32)
        } else {
            None
        },
        None => None,
    }
}

/// `integer_value` picks the one integer that `bits` stands for.
pub proof fn lemma_integer_value(bits: u64, n: int)
    ensures
        integer_value(bits) == Some(n) <==> has_integer_value(bits, n),
{
    let scaled = (significand(bits) * pow2(exponent(bits))) as int;
    let unit = pow2(1075) as int;
    lemma_pow2_pos(1075);
    lemma_pow2_pos(exponent(bits));
    assert(scaled >= 0) by (nonlinear_arith)
        requires
            scaled == significand(bits) * pow2(exponent(bits)),
    ;
    if has_integer_value(bits, n) {
        let m = magnitude(n) as int;
        assert(scaled == m * unit);
        lemma_mod_multiples_basic(m, unit);
        lemma_div_by_multiple(m, unit);
    }
    if integer_value(bits) == Some(n) {
        lemma_fundamental_div_mod(scaled, unit);
        let q = scaled / unit;
        assert(q >= 0) by (nonlinear_arith)
            requires
                scaled == unit * q,
                scaled >= 0,
                unit > 0,
        ;
        assert(q * unit == unit * q) by (nonlinear_arith);
    }
}

/// Bounds on the powers of two that the proofs below compare with
/// significands.
proof fn lemma_pow2_bounds(t: nat)
    ensures
        t <= 20 ==> pow2(t) <= 0x10_0000,
        21 <= t ==> pow2(t) >= 0x20_0000,
        t <= 52 ==> pow2(t) <= 0x10_0000_0000_0000,
        53 <= t ==> pow2(t) >= 0x20_0000_0000_0000,
        pow2(t) >= 1,
{
    lemma2_to64();
    lemma2_to64_rest();
    lemma_pow2_pos(t);
    if t < 20 {
        lemma_pow2_strictly_increases(t, 20);
    }
    if 21 < t {
        lemma_pow2_strictly_increases(21, t);
    }
    if t < 52 {
        lemma_pow2_strictly_increases(t, 52);
    }
    if 53 < t {
        lemma_pow2_strictly_increases(53, t);
    }
}

/// For a pattern whose exponent is at most 1075, the factor `2^exponent` can
/// be cancelled from the equation that `has_integer_value` states.
proof fn lemma_scaled_down(bits: u64, n: int, t: nat)
    requires
        t + exponent(bits) == 1075,
    ensures
        magnitude(n) * pow2(1075) == significand(bits) * pow2(exponent(bits)) <==> magnitude(n)
            * pow2(t) == significand(bits),
{
    let e = exponent(bits);
    lemma_pow2_adds(t, e);
    lemma_pow2_pos(e);
    let m = magnitude(n) as int;
    let s = significand(bits) as int;
    let pt = pow2(t) as int;
    let pe = pow2(e) as int;
    assert(m * (pt * pe) == (m * pt) * pe) by (nonlinear_arith);
    assert((m * pt) * pe == s * pe <==> m * pt == s) by (nonlinear_arith)
        requires
            pe > 0,
    ;
}

/// For a pattern whose exponent is above 1075, the factor `2^1075` can be
/// cancelled from the equation that `has_integer_value` states.
proof fn lemma_scaled_up(bits: u64, n: int)
    requires
        exponent(bits) > 1075,
        magnitude(n) * pow2(1075) == significand(bits) * pow2(exponent(bits)),
    ensures
        magnitude(n) >= significand(bits),
{
    let e = exponent(bits);
    let d = (e - 1075) as nat;
    lemma_pow2_adds(d, 1075);
    lemma_pow2_pos(1075);
    lemma_pow2_pos(d);
    let m = magnitude(n) as int;
    let s = significand(bits) as int;
    let pd = pow2(d) as int;
    let p = pow2(1075) as int;
    assert(s * (pd * p) == (s * pd) * p) by (nonlinear_arith);
    assert(m == s * pd) by (nonlinear_arith)
        requires
            m * p == (s * pd) * p,
            p > 0,
    ;
    assert(s * pd >= s) by (nonlinear_arith)
        requires
            pd >= 1,
            s >= 0,
    ;
}

/// A pattern is made of its three fields.
proof fn lemma_fields(bits: u64)
    ensures
        bits == (if sign_bit(bits) {
            0x8000_0000_0000_0000int
        } else {
            0int
        }) + biased_exponent(bits) * 0x10_0000_0000_0000 + fraction(bits),
        fraction(bits) < 0x10_0000_0000_0000,
        biased_exponent(bits) < 2048,
{
}

/// Two patterns with one 32-bit integer for both are the same pattern.
pub proof fn lemma_compact_integer_injective(a: u64, b: u64)
    requires
        compact_integer(a) is Some,
        compact_integer(a) == compact_integer(b),
    ensures
        a == b,
{
    let n = compact_integer(a).unwrap() as int;
    lemma_integer_value(a, n);
    lemma_integer_value(b, n);
    lemma_fields(a);
    lemma_fields(b);
    let m = magnitude(n) as int;
    let p = pow2(1075) as int;
    let sa = significand(a) as int;
    let sb = significand(b) as int;
    let ea = exponent(a);
    let eb = exponent(b);
    lemma_pow2_pos(1075);
    lemma_pow2_pos(ea);
    lemma_pow2_pos(eb);
    assert(m * p == sa * pow2(ea));
    assert(m * p == sb * pow2(eb));
    if n == 0 {
        assert(m * p == 0) by (nonlinear_arith)
            requires
                m == 0,
        ;
        assert(sa == 0) by (nonlinear_arith)
            requires
                sa * pow2(ea) == 0,
                pow2(ea) > 0,
        ;
        assert(sb == 0) by (nonlinear_arith)
            requires
                sb * pow2(eb) == 0,
                pow2(eb) > 0,
        ;
    } else {
        assert(sa > 0) by (nonlinear_arith)
            requires
                m * p == sa * pow2(ea),
                m > 0,
                p > 0,
                sa >= 0,
        ;
        assert(sb > 0) by (nonlinear_arith)
            requires
                m * p == sb * pow2(eb),
                m > 0,
                p > 0,
                sb >= 0,
        ;
        if ea < eb {
            lemma_same_value_same_exponent(sa, ea, sb, eb);
        } else if eb < ea {
            lemma_same_value_same_exponent(sb, eb, sa, ea);
        }
        assert(sa == sb) by (nonlinear_arith)
            requires
                sa * pow2(ea) == sb * pow2(ea),
                pow2(ea) > 0,
        ;
    }
}

/// A significand with its hidden bit set, scaled by the larger of two
/// exponents, exceeds every significand scaled by the smaller one.
proof fn lemma_same_value_same_exponent(sa: int, ea: nat, sb: int, eb: nat)
    requires
        ea < eb,
        0 <= sa < 0x20_0000_0000_0000,
        0x10_0000_0000_0000 <= sb,
    ensures
        sa * pow2(ea) != sb * pow2(eb),
{
    let d = (eb - ea) as nat;
    lemma_pow2_adds(d, ea);
    lemma_pow2_pos(ea);
    lemma_pow2_pos(d);
    lemma2_to64();
    if d > 1 {
        lemma_pow2_strictly_increases(1, d);
    }
    let pd = pow2(d) as int;
    let pe = pow2(ea) as int;
    assert(sb * (pd * pe) == (sb * pd) * pe) by (nonlinear_arith);
    assert(sb * pd > sa) by (nonlinear_arith)
        requires
            pd >= 2,
            sb >= 0x10_0000_0000_0000,
            sa < 0x20_0000_0000_0000,
    ;
    assert((sb * pd) * pe > sa * pe) by (nonlinear_arith)
        requires
            sb * pd > sa,
            pe > 0,
    ;
}

/// Tells whether the number with the pattern `bits` can be replaced by a
/// 32-bit signed integer without loss, and by which.
pub fn float_as_i32(bits: u64) -> (res: Option<i32>)
    ensures
        res == compact_integer(bits),
{
    let negative = bits >= NEGATIVE_ZERO;
    let biased: u64 = (bits / HIDDEN_BIT) % 2048;
    let frac: u64 = bits % HIDDEN_BIT;
    proof {
        lemma_fields(bits);
        lemma_pow2_pos(1075);
        lemma_pow2_bounds(1075);
        lemma2_to64();
    }
    if biased == 0 {
        if frac == 0 && !negative {
            proof {
                assert(0 * pow2(1075) == 0 * pow2(1)) by (nonlinear_arith);
                assert(has_integer_value(bits, 0));
                lemma_integer_value(bits, 0);
            }
            return Some(0);
        }
        proof {
            if let Some(n) = integer_value(bits) {
                lemma_integer_value(bits, n);
                let m = magnitude(n) as int;
                if frac != 0 {
                    assert(false) by (nonlinear_arith)
                        requires
                            m * pow2(1075) == frac * 2,
                            pow2(1075) >= 0x20_0000_0000_0000,
                            0 < frac < 0x10_0000_0000_0000,
                            m >= 0,
                    ;
                }
            }
        }
        return None;
    }
    if biased < 1023 || biased > 1054 {
        proof {
            if let Some(n) = integer_value(bits) {
                lemma_integer_value(bits, n);
                let m = magnitude(n) as int;
                let s = significand(bits) as int;
                if biased <= 1075 {
                    let t = (1075 - biased) as nat;
                    lemma_scaled_down(bits, n, t);
                    lemma_pow2_bounds(t);
                    let pt = pow2(t) as int;
                    if biased < 1023 {
                        assert(false) by (nonlinear_arith)
                            requires
                                m * pt == s,
                                pt >= 0x20_0000_0000_0000,
                                0 < s < 0x20_0000_0000_0000,
                                m >= 0,
                        ;
                    } else {
                        assert(m >= 0x1_0000_0000) by (nonlinear_arith)
                            requires
                                m * pt == s,
                                1 <= pt <= 0x10_0000,
                                s >= 0x10_0000_0000_0000,
                                m >= 0,
                        ;
                    }
                } else {
                    lemma_scaled_up(bits, n);
                }
            }
        }
        return None;
    }
    let t: u64 = 1075 - biased;
    proof {
        lemma_pow2_bounds(t as nat);
        lemma_u64_shl_is_mul(1, t);
    }
    let unit: u64 = 1u64 << t;
    let sig: u64 = HIDDEN_BIT + frac;
    if sig % unit != 0 {
        proof {
            if let Some(n) = integer_value(bits) {
                lemma_integer_value(bits, n);
                lemma_scaled_down(bits, n, t as nat);
                lemma_mod_multiples_basic(magnitude(n) as int, unit as int);
            }
        }
        return None;
    }
    let mag: u64 = sig / unit;
    proof {
        lemma_fundamental_div_mod(sig as int, unit as int);
        assert(mag * unit == sig) by (nonlinear_arith)
            requires
                sig == unit * mag + 0,
        ;
        assert(mag < 0x1_0000_0000) by (nonlinear_arith)
            requires
                mag * unit == sig,
                unit >= 0x20_0000,
                sig < 0x20_0000_0000_0000,
        ;
        let n: int = if negative {
            -(mag as int)
        } else {
            mag as int
        };
        assert(magnitude(n) == mag);
        lemma_scaled_down(bits, n, t as nat);
        assert(has_integer_value(bits, n));
        lemma_integer_value(bits, n);
    }
    if negative {
        if mag > 0x8000_0000 {
            None
        } else {
            Some((0 - (mag as i64)) as i32)
        }
    } else {
        if mag > 0x7FFF_FFFF {
            None
        } else {
            Some(mag as i32)
        }
    }
}

/// The pattern of the floating point number that equals `n`.
pub fn float_of_i32(n: i32) -> (bits: u64)
    ensures
        compact_integer(bits) == Some(n),
{
    if n == 0 {
        proof {
            lemma_pow2_pos(1075);
            assert(0 * pow2(1075) == 0 * pow2(1)) by (nonlinear_arith);
            assert(has_integer_value(0, 0));
            lemma_integer_value(0, 0);
        }
        return 0;
    }
    let mag: u64 = if n < 0 {
        (0 - (n as i64)) as u64
    } else {
        n as u64
    };
    let mut sig: u64 = mag;
    let mut t: u64 = 0;
    proof {
        lemma2_to64();
    }
    while sig < HIDDEN_BIT
        invariant
            1 <= mag <= 0x8000_0000,
            1 <= sig,
            sig == mag * pow2(t as nat),
            sig < 0x20_0000_0000_0000,
            t <= 52,
        decreases 0x20_0000_0000_0000 - sig,
    {
        proof {
            lemma_pow2_unfold((t + 1) as nat);
            lemma_pow2_bounds((t + 1) as nat);
            assert(mag * (2 * pow2(t as nat)) == 2 * (mag * pow2(t as nat))) by (nonlinear_arith);
            if t + 1 >= 53 {
                assert(false) by (nonlinear_arith)
                    requires
                        2 * sig == mag * pow2((t + 1) as nat),
                        pow2((t + 1) as nat) >= 0x20_0000_0000_0000,
                        mag >= 1,
                        sig < 0x10_0000_0000_0000,
                ;
            }
        }
        sig = sig * 2;
        t = t + 1;
    }
    proof {
        lemma_pow2_bounds(t as nat);
        if t < 21 {
            assert(false) by (nonlinear_arith)
                requires
                    sig == mag * pow2(t as nat),
                    pow2(t as nat) <= 0x10_0000,
                    mag <= 0x8000_0000,
                    sig >= 0x10_0000_0000_0000,
            ;
        }
    }
    let biased: u64 = 1075 - t;
    let frac: u64 = sig - HIDDEN_BIT;
    let bits: u64 = if n < 0 {
        NEGATIVE_ZERO + biased * HIDDEN_BIT + frac
    } else {
        biased * HIDDEN_BIT + frac
    };
    proof {
        assert(biased_exponent(bits) == biased);
        assert(fraction(bits) == frac);
        assert(sign_bit(bits) == (n < 0));
        assert(magnitude(n as int) == mag);
        lemma_scaled_down(bits, n as int, t as nat);
        assert(has_integer_value(bits, n as int));
        lemma_integer_value(bits, n as int);
    }
    bits
}

} // verus!
