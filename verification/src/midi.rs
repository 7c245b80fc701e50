//! MIDI value-domain helpers on wire-native integers.
//!
//! MIDI 1.0 carries 7-bit and 14-bit values; MIDI 2.0 carries 16-bit
//! and 32-bit values. The byte split / join for 14-bit pitch bend and
//! the MIDI 2.0 spec's min-center-max upconvert and truncating
//! downconvert live here.

use vstd::prelude::*;

verus! {

/// The (LSB, MSB) byte pair that carries a 14-bit pitch-bend code.
pub open spec fn pitch_bend_split(raw: nat) -> (nat, nat) {
    (raw % 128, (raw / 128) % 128)
}

/// The 14-bit pitch-bend code carried by a byte pair, with the high
/// (status) bit of each byte ignored.
pub open spec fn pitch_bend_join(lsb: nat, msb: nat) -> nat {
    (msb % 128) * 128 + lsb % 128
}

/// Split a 14-bit pitch-bend code into the (LSB, MSB) byte pair the
/// wire format carries. Each output byte has the high bit clear.
pub fn pitch_bend_to_bytes(raw: u16) -> (bytes: (u8, u8))
    requires
        raw <= 16383,
    ensures
        bytes.0 as nat == pitch_bend_split(raw as nat).0,
        bytes.1 as nat == pitch_bend_split(raw as nat).1,
        bytes.0 < 128,
        bytes.1 < 128,
        bytes.0 == raw % 128,
        bytes.1 == raw / 128,
        raw == bytes.1 * 128 + bytes.0,
{
    let lsb = (raw & 0x7F) as u8;
    let msb = ((raw >> 7) & 0x7F) as u8;
    assert(raw & 0x7F == raw % 128 && (raw >> 7) & 0x7F == (raw / 128) % 128) by (bit_vector);
    (lsb, msb)
}

/// Combine two MIDI bytes (LSB first) into a 14-bit pitch-bend code.
/// Each input byte's high bit is masked off before combining.
pub fn pitch_bend_from_bytes(lsb: u8, msb: u8) -> (raw: u16)
    ensures
        raw as nat == pitch_bend_join(lsb as nat, msb as nat),
        raw <= 16383,
        raw == (msb % 128) * 128 + lsb % 128,
        raw % 128 == lsb % 128,
        raw / 128 == msb % 128,
{
    let r = ((msb & 0x7F) as u16) << 7 | ((lsb & 0x7F) as u16);
    assert(((msb & 0x7F) as u16) << 7 | ((lsb & 0x7F) as u16) == (msb % 128) as u16 * 128 + (lsb % 128) as u16) by (bit_vector);
    r
}

/// MIDI 2.0 16-bit value → 7-bit MIDI 1.0 value, per the spec's
/// downconvert (keep the top 7 bits).
pub fn downconvert_16_to_7(v: u16) -> (r: u8)
    ensures
        r == v / 512,
{
    assert(v >> 9 == v / 512) by (bit_vector);
    (v >> 9) as u8
}

/// MIDI 2.0 32-bit value → 7-bit MIDI 1.0 value, per the spec's
/// downconvert (keep the top 7 bits).
pub fn downconvert_32_to_7(v: u32) -> (r: u8)
    ensures
        r == v / 0x200_0000,
{
    assert(v >> 25 == v / 0x200_0000) by (bit_vector);
    (v >> 25) as u8
}

/// MIDI 2.0 32-bit value → 14-bit MIDI 1.0 value, per the spec's
/// downconvert (keep the top 14 bits).
pub fn downconvert_32_to_14(v: u32) -> (r: u16)
    ensures
        r == v / 0x4_0000,
{
    assert(v >> 18 == v / 0x4_0000) by (bit_vector);
    (v >> 18) as u16
}


/// The MIDI 2.0 min-center-max upconvert of a `src_bits`-wide value
/// `v` to `dst_bits` wide. At or below the center code `2^(src_bits-1)`
/// the value is scaled by `2^(dst_bits - src_bits)`; above it the
/// vacated low bits take the fraction `(v - center) / (center - 1)`
/// of their range (rounded down, capped at all ones), so the maximum
/// input reaches the maximum output.
pub open spec fn upconvert_spec(v: nat, src_bits: nat, dst_bits: nat) -> nat {
    let scale = vstd::arithmetic::power2::pow2((dst_bits - src_bits) as nat);
    let center = vstd::arithmetic::power2::pow2((src_bits - 1) as nat);
    if v <= center {
        v * scale
    } else {
        let fill = (v - center) * scale / (center - 1);
        let capped = if fill < scale - 1 { fill } else { scale - 1 };
        (v * scale + capped) as nat
    }
}

/// The `s` low bits obtained by writing the `p`-bit pattern `r`
/// over and over, most significant bit first, and keeping the first
/// `s` bits.
spec fn replicated(r: nat, p: nat, s: nat) -> nat
    decreases s,
{
    if p == 0 {
        0
    } else if s >= p {
        r * vstd::arithmetic::power2::pow2((s - p) as nat) + replicated(r, p, (s - p) as nat)
    } else {
        r / vstd::arithmetic::power2::pow2((p - s) as nat)
    }
}

/// Repeating a `p`-bit pattern `r` fills `s` bits with the first `s`
/// binary digits of `r / (2^p - 1)`, except that the all-ones pattern
/// fills them with all ones.
proof fn lemma_replicated_closed(r: nat, p: nat, s: nat)
    requires
        p >= 1,
        r < vstd::arithmetic::power2::pow2(p),
    ensures
        r == vstd::arithmetic::power2::pow2(p) - 1 ==> replicated(r, p, s) == vstd::arithmetic::power2::pow2(s) - 1,
        r < vstd::arithmetic::power2::pow2(p) - 1 ==> replicated(r, p, s) == (r * vstd::arithmetic::power2::pow2(s)) as int / (vstd::arithmetic::power2::pow2(p) - 1),
    decreases s,
{
    let m: int = vstd::arithmetic::power2::pow2(p) - 1;
    vstd::arithmetic::power2::lemma_pow2_pos(p);
    vstd::arithmetic::power2::lemma_pow2_pos(s);
    if s >= p {
        let t = (s - p) as nat;
        lemma_replicated_closed(r, p, t);
        vstd::arithmetic::power2::lemma_pow2_adds(t, p);
        vstd::arithmetic::power2::lemma_pow2_pos(t);
        let pt: int = vstd::arithmetic::power2::pow2(t) as int;
        let pp: int = vstd::arithmetic::power2::pow2(p) as int;
        assert(vstd::arithmetic::power2::pow2(s) == pt * pp);
        if r == vstd::arithmetic::power2::pow2(p) - 1 {
            assert(r * pt + (pt - 1) == pt * pp - 1) by (nonlinear_arith)
                requires
                    r == pp - 1,
            ;
        } else {
            let a: int = r * pt;
            vstd::arithmetic::div_mod::lemma_fundamental_div_mod(a, m);
            let q = a / m;
            let rem = a % m;
            assert(0 <= rem < m);
            assert(r * (pt * pp) == (a + q) * m + rem) by (nonlinear_arith)
                requires
                    a == r * pt,
                    a == m * q + rem,
                    m == pp - 1,
            ;
            vstd::arithmetic::div_mod::lemma_fundamental_div_mod_converse(r * (pt * pp), m, a + q, rem);
        }
    } else {
        let k = (p - s) as nat;
        vstd::arithmetic::power2::lemma_pow2_adds(s, k);
        vstd::arithmetic::power2::lemma_pow2_pos(k);
        let ps: int = vstd::arithmetic::power2::pow2(s) as int;
        let pk: int = vstd::arithmetic::power2::pow2(k) as int;
        assert(vstd::arithmetic::power2::pow2(p) == ps * pk);
        if r == vstd::arithmetic::power2::pow2(p) - 1 {
            assert(r == (ps - 1) * pk + (pk - 1)) by (nonlinear_arith)
                requires
                    r == ps * pk - 1,
            ;
            vstd::arithmetic::div_mod::lemma_fundamental_div_mod_converse(r as int, pk, ps - 1, pk - 1);
        } else {
            vstd::arithmetic::div_mod::lemma_fundamental_div_mod(r as int, pk);
            let a: int = r as int / pk;
            let b: int = r as int % pk;
            assert(0 <= b < pk);
            assert(a >= 0);
            vstd::arithmetic::div_mod::lemma_multiply_divide_lt(r as int, pk, ps);
            assert(a < ps) by (nonlinear_arith)
                requires
                    r < pk * ps,
                    r == pk * a + b,
                    0 <= b,
                    pk > 0,
            ;
            // a + b * 2^s is the pattern rotated by s bits; it is all
            // ones only when r is.
            if a <= ps - 2 {
                vstd::arithmetic::mul::lemma_mul_inequality(b, pk - 1, ps);
                assert(a + b * ps < m) by (nonlinear_arith)
                    requires
                        a <= ps - 2,
                        b * ps <= (pk - 1) * ps,
                        m == ps * pk - 1,
                ;
            } else {
                assert(b <= pk - 2) by (nonlinear_arith)
                    requires
                        a == ps - 1,
                        r == pk * a + b,
                        r < ps * pk - 1,
                ;
                vstd::arithmetic::mul::lemma_mul_inequality(b, pk - 2, ps);
                assert(a + b * ps < m) by (nonlinear_arith)
                    requires
                        a == ps - 1,
                        b * ps <= (pk - 2) * ps,
                        m == ps * pk - 1,
                        ps >= 1,
                ;
            }
            assert(r * ps == a * m + (a + b * ps)) by (nonlinear_arith)
                requires
                    r == pk * a + b,
                    m == ps * pk - 1,
            ;
            vstd::arithmetic::div_mod::lemma_fundamental_div_mod_converse(r * ps, m, a, a + b * ps);
        }
    }
}


/// `1 << k` is `2^k` as a `u32`.
proof fn lemma_one_shl(k: u32)
    requires
        k < 32,
    ensures
        (1u32 << k) as nat == vstd::arithmetic::power2::pow2(k as nat),
{
    vstd::bits::lemma_u32_pow2_no_overflow(k as nat);
    vstd::bits::lemma_u32_shl_is_mul(1, k);
}

/// OR-ing a value below `2^k` into a multiple of `2^k` adds it.
proof fn lemma_or_is_add(a: u32, b: u32, k: u32)
    requires
        k < 32,
        a as nat % vstd::arithmetic::power2::pow2(k as nat) == 0,
        (b as nat) < vstd::arithmetic::power2::pow2(k as nat),
    ensures
        (a | b) as nat == a + b,
{
    lemma_one_shl(k);
    vstd::bits::lemma_u32_pow2_no_overflow(k as nat);
    vstd::bits::lemma_u32_low_bits_mask_is_mod(a, k as nat);
    let mask: u32 = ((1u32 << k) - 1) as u32;
    assert(vstd::bits::low_bits_mask(k as nat) as u32 == mask);
    assert(a & mask == 0);
    assert(b < (1u32 << k));
    assert(a & (((1u32 << k) - 1) as u32) == 0 && b < (1u32 << k) && k < 32 ==> (a | b) as int == a + b) by (bit_vector);
}

/// MIDI 2.0 spec's "min-center-max scale and bit-replicate"
/// upconvert. Below or at center: pure left-shift (preserves the
/// "center → center" invariant). Above center: replicates the
/// `src_bits - 1` low bits of the source as many times as fits in
/// the trailing zero region, so max input maps to max output.
fn upconvert(src_val: u32, src_bits: u32, dst_bits: u32) -> (r: u32)
    requires
        2 <= src_bits < dst_bits <= 32,
        (src_val as nat) < vstd::arithmetic::power2::pow2(src_bits as nat),
    ensures
        r as nat == upconvert_spec(src_val as nat, src_bits as nat, dst_bits as nat),
{
    let ghost v: nat = src_val as nat;
    let ghost n: nat = src_bits as nat;
    let ghost d: nat = dst_bits as nat;
    let scale_bits = dst_bits - src_bits;
    let ghost s: nat = scale_bits as nat;
    let ghost p: nat = (n - 1) as nat;
    proof {
        vstd::arithmetic::power2::lemma_pow2_adds(n, s);
        vstd::arithmetic::power2::lemma_pow2_adds(p, 1);
        vstd::arithmetic::power2::lemma2_to64();
        vstd::arithmetic::power2::lemma_pow2_pos(s);
        vstd::arithmetic::power2::lemma_pow2_pos(p);
        if d < 32 {
            vstd::arithmetic::power2::lemma_pow2_strictly_increases(d, 32);
        }
        assert(n + s == d);
        vstd::arithmetic::mul::lemma_mul_strict_inequality(
            v as int,
            vstd::arithmetic::power2::pow2(n) as int,
            vstd::arithmetic::power2::pow2(s) as int,
        );
        vstd::bits::lemma_u32_shl_is_mul(src_val, scale_bits);
    }
    let mut bit_shifted = src_val << scale_bits;
    proof {
        lemma_one_shl((src_bits - 1) as u32);
    }
    let center = 1u32 << (src_bits - 1);
    if src_val <= center {
        return bit_shifted;
    }
    let repeat_bits = src_bits - 1;
    let repeat_mask = (1u32 << repeat_bits) - 1;
    let repeat_value = src_val & repeat_mask;
    let ghost rv: nat = (v - vstd::arithmetic::power2::pow2(p)) as nat;
    proof {
        vstd::bits::lemma_u32_low_bits_mask_is_mod(src_val, p);
        vstd::bits::lemma_u32_pow2_no_overflow(p);
        assert(vstd::bits::low_bits_mask(p) as u32 == repeat_mask);
        vstd::arithmetic::div_mod::lemma_fundamental_div_mod_converse(
            v as int,
            vstd::arithmetic::power2::pow2(p) as int,
            1,
            rv as int,
        );
        assert(repeat_value as nat == rv);
    }
    let mut remaining = scale_bits;
    proof {
        assert(replicated(rv, p, 0) == 0) by {
            vstd::arithmetic::div_mod::lemma_fundamental_div_mod_converse(
                rv as int,
                vstd::arithmetic::power2::pow2(p) as int,
                0,
                rv as int,
            );
        }
        vstd::arithmetic::div_mod::lemma_mod_multiples_basic(
            v as int,
            vstd::arithmetic::power2::pow2(s) as int,
        );
    }
    while remaining > 0
        invariant_except_break
            remaining <= scale_bits,
            scale_bits as nat == s,
            repeat_bits as nat == p,
            1 <= p <= 30,
            s <= 30,
            replicated(rv, p, 0) == 0,
            repeat_value as nat == rv,
            rv < vstd::arithmetic::power2::pow2(p),
            vstd::arithmetic::power2::pow2(s) <= 0x4000_0000,
            bit_shifted as nat + replicated(rv, p, remaining as nat) == v * vstd::arithmetic::power2::pow2(s) + replicated(rv, p, s),
            bit_shifted as nat % vstd::arithmetic::power2::pow2(remaining as nat) == 0,
        ensures
            bit_shifted as nat == v * vstd::arithmetic::power2::pow2(s) + replicated(rv, p, s),
        decreases remaining,
    {
        let ghost old_rem: nat = remaining as nat;
        let ghost old_bits: nat = bit_shifted as nat;
        proof {
            vstd::arithmetic::power2::lemma_pow2_pos(old_rem);
            if old_rem < s {
                vstd::arithmetic::power2::lemma_pow2_strictly_increases(old_rem, s);
            }
        }
        if remaining >= repeat_bits {
            remaining -= repeat_bits;
            let ghost new_rem: nat = remaining as nat;
            proof {
                vstd::arithmetic::power2::lemma_pow2_adds(new_rem, p);
                vstd::arithmetic::power2::lemma_pow2_pos(new_rem);
                vstd::arithmetic::mul::lemma_mul_strict_inequality(
                    rv as int,
                    vstd::arithmetic::power2::pow2(p) as int,
                    vstd::arithmetic::power2::pow2(new_rem) as int,
                );
                vstd::bits::lemma_u32_shl_is_mul(repeat_value, remaining);
            }
            let piece = repeat_value << remaining;
            proof {
                lemma_or_is_add(bit_shifted, piece, old_rem as u32);
                let pr = vstd::arithmetic::power2::pow2(new_rem) as int;
                let pp = vstd::arithmetic::power2::pow2(p) as int;
                vstd::arithmetic::div_mod::lemma_fundamental_div_mod(old_bits as int, pr * pp);
                let q = old_bits as int / (pr * pp);
                assert(old_bits + piece == (q * pp + rv) * pr) by (nonlinear_arith)
                    requires
                        old_bits == (pr * pp) * q + 0,
                        piece == rv * pr,
                ;
                vstd::arithmetic::div_mod::lemma_mod_multiples_basic(q * pp + rv, pr);
            }
            bit_shifted |= piece;
        } else {
            let ghost k: nat = (p - old_rem) as nat;
            proof {
                vstd::bits::lemma_u32_shr_is_div(repeat_value, (repeat_bits - remaining) as u32);
                vstd::arithmetic::power2::lemma_pow2_adds(k, old_rem);
                vstd::arithmetic::power2::lemma_pow2_pos(k);
                vstd::arithmetic::div_mod::lemma_multiply_divide_lt(
                    rv as int,
                    vstd::arithmetic::power2::pow2(k) as int,
                    vstd::arithmetic::power2::pow2(old_rem) as int,
                );
            }
            let tail = repeat_value >> (repeat_bits - remaining);
            proof {
                lemma_or_is_add(bit_shifted, tail, old_rem as u32);
            }
            bit_shifted |= tail;
            break;
        }
    }
    proof {
        lemma_replicated_closed(rv, p, s);
        let ps = vstd::arithmetic::power2::pow2(s) as int;
        let m = vstd::arithmetic::power2::pow2(p) - 1;
        if rv == m {
            assert((rv * ps) / m == ps) by {
                assert(rv * ps == ps * m) by (nonlinear_arith)
                    requires
                        rv == m,
                ;
                vstd::arithmetic::div_mod::lemma_fundamental_div_mod_converse(rv * ps, m, ps, 0);
            }
        } else {
            vstd::arithmetic::mul::lemma_mul_strict_inequality(rv as int, m, ps);
            vstd::arithmetic::div_mod::lemma_multiply_divide_lt(rv * ps, m, ps);
        }
    }
    bit_shifted
}


/// The upconverted value is the source shifted into the high bits,
/// with the fill confined to the vacated low bits.
proof fn lemma_upconvert_shape(v: nat, src_bits: nat, dst_bits: nat)
    requires
        2 <= src_bits < dst_bits,
        v < vstd::arithmetic::power2::pow2(src_bits),
    ensures
        v * vstd::arithmetic::power2::pow2((dst_bits - src_bits) as nat) <= upconvert_spec(v, src_bits, dst_bits),
        upconvert_spec(v, src_bits, dst_bits) < (v + 1) * vstd::arithmetic::power2::pow2((dst_bits - src_bits) as nat),
        upconvert_spec(v, src_bits, dst_bits) / vstd::arithmetic::power2::pow2((dst_bits - src_bits) as nat) == v,
        upconvert_spec(v, src_bits, dst_bits) < vstd::arithmetic::power2::pow2(dst_bits),
{
    let s = (dst_bits - src_bits) as nat;
    let p = (src_bits - 1) as nat;
    let sc = vstd::arithmetic::power2::pow2(s) as int;
    let center = vstd::arithmetic::power2::pow2(p) as int;
    vstd::arithmetic::power2::lemma_pow2_pos(s);
    vstd::arithmetic::power2::lemma_pow2_adds(src_bits, s);
    vstd::arithmetic::power2::lemma_pow2_adds(p, 1);
    vstd::arithmetic::power2::lemma2_to64();
    assert(center >= 2) by {
        if p > 1 {
            vstd::arithmetic::power2::lemma_pow2_strictly_increases(1, p);
        }
    }
    let up = upconvert_spec(v, src_bits, dst_bits) as int;
    let low: int = up - v * sc;
    if v > center {
        let fill = (v - center) * sc / (center - 1);
        assert((v - center) * sc >= 0) by (nonlinear_arith)
            requires
                v > center,
                sc > 0,
        ;
        assert(fill >= 0);
    }
    assert(0 <= low < sc);
    assert((v + 1) * sc == v * sc + sc) by (nonlinear_arith);
    vstd::arithmetic::div_mod::lemma_fundamental_div_mod_converse(up, sc, v as int, low);
    assert(up < vstd::arithmetic::power2::pow2(dst_bits)) by (nonlinear_arith)
        requires
            up == v * sc + low,
            low < sc,
            v + 1 <= vstd::arithmetic::power2::pow2(src_bits),
            vstd::arithmetic::power2::pow2(dst_bits) == vstd::arithmetic::power2::pow2(src_bits) * sc,
    ;
}

/// What the upconvert produces, independently of how it is computed:
/// at or below the center code it is the source scaled by
/// `S = 2^(dst_bits - src_bits)`; above it the source still fills the
/// high bits and the low part `low < S` is the largest value with
/// `low / S <= (v - center) / (center - 1)`, capped at all ones.
pub proof fn upconvert_fills_low_bits_with_the_fraction(v: nat, src_bits: nat, dst_bits: nat)
    requires
        2 <= src_bits < dst_bits,
        v < vstd::arithmetic::power2::pow2(src_bits),
    ensures
        ({
            let sc = vstd::arithmetic::power2::pow2((dst_bits - src_bits) as nat) as int;
            let c = vstd::arithmetic::power2::pow2((src_bits - 1) as nat) as int;
            let up = upconvert_spec(v, src_bits, dst_bits) as int;
            let low = up - v * sc;
            &&& v <= c ==> up == v * sc
            &&& v > c ==> {
                &&& 0 <= low < sc
                &&& low * (c - 1) <= (v - c) * sc
                &&& (low == sc - 1 || (v - c) * sc < (low + 1) * (c - 1))
            }
        }),
{
    let sc = vstd::arithmetic::power2::pow2((dst_bits - src_bits) as nat) as int;
    let c = vstd::arithmetic::power2::pow2((src_bits - 1) as nat) as int;
    let p = (src_bits - 1) as nat;
    vstd::arithmetic::power2::lemma_pow2_pos((dst_bits - src_bits) as nat);
    vstd::arithmetic::power2::lemma2_to64();
    assert(c >= 2) by {
        if p > 1 {
            vstd::arithmetic::power2::lemma_pow2_strictly_increases(1, p);
        }
    }
    if v > c {
        let num = (v - c) * sc;
        assert(num >= 0) by (nonlinear_arith)
            requires
                num == (v - c) * sc,
                v > c,
                sc > 0,
        ;
        let fill = num / (c - 1);
        vstd::arithmetic::div_mod::lemma_fundamental_div_mod(num, c - 1);
        let r = num % (c - 1);
        assert(0 <= r < c - 1);
        assert(fill >= 0);
        let low: int = if fill < sc - 1 { fill } else { sc - 1 };
        assert(upconvert_spec(v, src_bits, dst_bits) as int == v * sc + low);
        assert(fill * (c - 1) <= num) by (nonlinear_arith)
            requires
                num == (c - 1) * fill + r,
                r >= 0,
        ;
        vstd::arithmetic::mul::lemma_mul_inequality(low, fill, c - 1);
        assert(num < (fill + 1) * (c - 1)) by (nonlinear_arith)
            requires
                num == (c - 1) * fill + r,
                r < c - 1,
        ;
    }
}

/// Min, center and max survive the upconvert: `0 → 0`, the center
/// code `2^(src_bits-1)` → `2^(dst_bits-1)`, and the all-ones code →
/// all ones.
pub proof fn upconvert_preserves_min_center_max(src_bits: nat, dst_bits: nat)
    requires
        2 <= src_bits < dst_bits,
    ensures
        upconvert_spec(0, src_bits, dst_bits) == 0,
        upconvert_spec(vstd::arithmetic::power2::pow2((src_bits - 1) as nat), src_bits, dst_bits)
            == vstd::arithmetic::power2::pow2((dst_bits - 1) as nat),
        upconvert_spec((vstd::arithmetic::power2::pow2(src_bits) - 1) as nat, src_bits, dst_bits)
            == vstd::arithmetic::power2::pow2(dst_bits) - 1,
{
    let s = (dst_bits - src_bits) as nat;
    let p = (src_bits - 1) as nat;
    let sc = vstd::arithmetic::power2::pow2(s) as int;
    let center = vstd::arithmetic::power2::pow2(p) as int;
    vstd::arithmetic::power2::lemma_pow2_pos(s);
    vstd::arithmetic::power2::lemma_pow2_pos(p);
    vstd::arithmetic::power2::lemma_pow2_adds(p, s);
    vstd::arithmetic::power2::lemma_pow2_adds(p, 1);
    vstd::arithmetic::power2::lemma_pow2_adds(src_bits, s);
    vstd::arithmetic::power2::lemma2_to64();
    assert(p + s == (dst_bits - 1) as nat);
    assert(center >= 2) by {
        if p > 1 {
            vstd::arithmetic::power2::lemma_pow2_strictly_increases(1, p);
        }
    }
    let mx = 2 * center - 1;
    assert(mx > center);
    // (max - center) = center - 1, so the fill ratio is exactly one.
    assert((mx - center) * sc == sc * (center - 1)) by (nonlinear_arith)
        requires
            mx == 2 * center - 1,
    ;
    vstd::arithmetic::div_mod::lemma_fundamental_div_mod_converse((mx - center) * sc, center - 1, sc, 0);
    assert(mx * sc + (sc - 1) == 2 * center * sc - 1) by (nonlinear_arith)
        requires
            mx == 2 * center - 1,
    ;
}

/// The upconvert is strictly increasing: it keeps the order of any
/// two source codes.
pub proof fn upconvert_is_strictly_increasing(v1: nat, v2: nat, src_bits: nat, dst_bits: nat)
    requires
        2 <= src_bits < dst_bits,
        v1 < v2 < vstd::arithmetic::power2::pow2(src_bits),
    ensures
        upconvert_spec(v1, src_bits, dst_bits) < upconvert_spec(v2, src_bits, dst_bits),
{
    let sc = vstd::arithmetic::power2::pow2((dst_bits - src_bits) as nat);
    lemma_upconvert_shape(v1, src_bits, dst_bits);
    lemma_upconvert_shape(v2, src_bits, dst_bits);
    vstd::arithmetic::mul::lemma_mul_inequality((v1 + 1) as int, v2 as int, sc as int);
}

/// `downconvert_16_to_7` undoes `upconvert_7_to_16` on every 7-bit code.
pub proof fn downconvert_16_to_7_undoes_upconvert(v: nat)
    requires
        v <= 127,
    ensures
        upconvert_spec(v, 7, 16) / 512 == v,
        upconvert_spec(v, 7, 16) <= 0xFFFF,
{
    vstd::arithmetic::power2::lemma2_to64();
    lemma_upconvert_shape(v, 7, 16);
}

/// `downconvert_32_to_7` undoes `upconvert_7_to_32` on every 7-bit code.
pub proof fn downconvert_32_to_7_undoes_upconvert(v: nat)
    requires
        v <= 127,
    ensures
        upconvert_spec(v, 7, 32) / 0x200_0000 == v,
        upconvert_spec(v, 7, 32) <= 0xFFFF_FFFF,
{
    vstd::arithmetic::power2::lemma2_to64();
    lemma_upconvert_shape(v, 7, 32);
}

/// `downconvert_32_to_14` undoes `upconvert_14_to_32` on every 14-bit
/// code.
pub proof fn downconvert_32_to_14_undoes_upconvert(v: nat)
    requires
        v <= 16383,
    ensures
        upconvert_spec(v, 14, 32) / 0x4_0000 == v,
        upconvert_spec(v, 14, 32) <= 0xFFFF_FFFF,
{
    vstd::arithmetic::power2::lemma2_to64();
    lemma_upconvert_shape(v, 14, 32);
}

/// 7-bit MIDI 1.0 value (`0..=127`) → MIDI 2.0 16-bit value.
///
/// Min/center/max preserved: `0 → 0`, `64 → 0x8000`, `127 →
/// 0xFFFF`. Inverse of [`downconvert_16_to_7`].
pub fn upconvert_7_to_16(v: u8) -> (r: u16)
    requires
        v <= 127,
    ensures
        r as nat == upconvert_spec(v as nat, 7, 16),
{
    proof {
        vstd::arithmetic::power2::lemma2_to64();
        downconvert_16_to_7_undoes_upconvert(v as nat);
    }
    upconvert(v as u32, 7, 16) as u16
}

/// 7-bit MIDI 1.0 value → MIDI 2.0 32-bit value. Min/center/max
/// preserved.
pub fn upconvert_7_to_32(v: u8) -> (r: u32)
    requires
        v <= 127,
    ensures
        r as nat == upconvert_spec(v as nat, 7, 32),
{
    proof {
        vstd::arithmetic::power2::lemma2_to64();
    }
    upconvert(v as u32, 7, 32)
}

/// 14-bit MIDI 1.0 value (`0..=16383`) → MIDI 2.0 32-bit value.
/// Min/center/max preserved: `0 → 0`, `8192 → 0x8000_0000`,
/// `16383 → 0xFFFF_FFFF`.
pub fn upconvert_14_to_32(v: u16) -> (r: u32)
    requires
        v <= 16383,
    ensures
        r as nat == upconvert_spec(v as nat, 14, 32),
{
    proof {
        vstd::arithmetic::power2::lemma2_to64();
    }
    upconvert(v as u32, 14, 32)
}


/// The split is the pair of base-128 digits of the code: the LSB is
/// the low digit, the MSB the high digit, and `msb * 128 + lsb`
/// rebuilds the code.
pub proof fn pitch_bend_split_is_base_128_digits(raw: nat)
    requires
        raw <= 16383,
    ensures
        pitch_bend_split(raw).0 == raw % 128,
        pitch_bend_split(raw).1 == raw / 128,
        raw == pitch_bend_split(raw).1 * 128 + pitch_bend_split(raw).0,
{
}

/// The join reads its bytes as base-128 digits, high bit dropped: the
/// low digit of the code is the LSB's low seven bits and the high
/// digit is the MSB's.
pub proof fn pitch_bend_join_is_base_128_digits(lsb: nat, msb: nat)
    ensures
        pitch_bend_join(lsb, msb) % 128 == lsb % 128,
        pitch_bend_join(lsb, msb) / 128 == msb % 128,
{
    let j = pitch_bend_join(lsb, msb) as int;
    vstd::arithmetic::div_mod::lemma_fundamental_div_mod_converse(j, 128, (msb % 128) as int, (lsb % 128) as int);
}

/// Joining the bytes that `pitch_bend_to_bytes` produces gives back
/// every 14-bit pitch-bend code.
pub proof fn pitch_bend_bytes_round_trip(raw: nat)
    requires
        raw <= 16383,
    ensures
        pitch_bend_split(raw).0 < 128,
        pitch_bend_split(raw).1 < 128,
        pitch_bend_join(pitch_bend_split(raw).0, pitch_bend_split(raw).1) == raw,
{
}

/// Joining ignores the high (status) bit of each byte, always yields a
/// 14-bit code, and splitting that code gives back the masked bytes.
pub proof fn pitch_bend_join_masks_status_bits(lsb: nat, msb: nat)
    ensures
        pitch_bend_join(lsb, msb) <= 16383,
        pitch_bend_join(lsb, msb) == pitch_bend_join(lsb % 128, msb % 128),
        pitch_bend_split(pitch_bend_join(lsb, msb)) == (lsb % 128, msb % 128),
{
    let j = pitch_bend_join(lsb, msb) as int;
    vstd::arithmetic::div_mod::lemma_fundamental_div_mod_converse(j, 128, (msb % 128) as int, (lsb % 128) as int);
}

} // verus!
