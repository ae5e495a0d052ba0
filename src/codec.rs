use crate::model::{
    field_len, field_value, lemma_mask_is_mod, lemma_split_at_field, low_mask, with_field,
};
use vstd::arithmetic::div_mod::lemma_basic_div;
use vstd::arithmetic::power2::{lemma2_to64, lemma_pow2_adds, lemma_pow2_pos, pow2};
use vstd::bits::lemma_u128_shr_is_div;
use vstd::prelude::*;

verus! {

/// Every `u128` lies below `2^128`.
pub proof fn lemma_u128_below_pow2(x: u128)
    ensures
        (x as nat) < pow2(128),
{
    lemma2_to64();
    lemma_pow2_adds(64, 64);
}

/// The mask of the low `len` bits, `1 <= len <= 128`.
fn mask_of_len(len: usize) -> (m: u128)
    requires
        1 <= len <= 128,
    ensures
        m == low_mask(len as nat),
{
    u128::MAX >> ((128 - len) as u128)
}

/// Clearing bits that all lie below bit `k` keeps the bits from `k` up.
proof fn lemma_clear_keeps_high(x: u128, m: u128, k: u128)
    by (bit_vector)
    requires
        k < 128,
        m >> k == 0,
    ensures
        (x & !m) >> k == x >> k,
{
}

/// Setting bits that all lie below bit `k` keeps the bits from `k` up.
proof fn lemma_or_with_low(x: u128, y: u128, k: u128)
    by (bit_vector)
    requires
        k < 128,
        y >> k == 0,
    ensures
        (x | y) >> k == x >> k,
{
}

/// A value of `ln` bits moved up by `sh` lies below bit `sh + ln`.
proof fn lemma_masked_stays_low(q: u128, sh: u128, ln: u128)
    by (bit_vector)
    requires
        1 <= ln,
        sh + ln < 128,
        q == q & (u128::MAX >> (128 - ln) as u128),
    ensures
        (q << sh) >> ((sh + ln) as u128) == 0,
{
}

/// The write keeps the bits above the field.
proof fn lemma_insert_above(s: u128, p: u128, sh: u128, ln: u128)
    requires
        1 <= ln,
        sh + ln < 128,
    ensures
        ((s & !((u128::MAX >> (128 - ln) as u128) << sh)) | ((p & (u128::MAX >> (128 - ln) as u128))
            << sh)) >> ((sh + ln) as u128) == s >> ((sh + ln) as u128),
{
    let m = u128::MAX >> (128 - ln) as u128;
    let q = p & m;
    let k = (sh + ln) as u128;
    assert(m == m & m && q == q & m) by (bit_vector)
        requires
            q == p & m,
    ;
    lemma_masked_stays_low(m, sh, ln);
    lemma_masked_stays_low(q, sh, ln);
    lemma_clear_keeps_high(s, m << sh, k);
    lemma_or_with_low(s & !(m << sh), q << sh, k);
}

/// A right shift distributes over `|`.
proof fn lemma_shr_or(a: u128, b: u128, k: u128)
    by (bit_vector)
    requires
        k < 128,
    ensures
        (a | b) >> k == (a >> k) | (b >> k),
{
}

/// A value of `ln` bits moved up by `sh` and back down is unchanged.
proof fn lemma_shl_shr_low(q: u128, sh: u128, ln: u128)
    by (bit_vector)
    requires
        1 <= ln,
        sh + ln <= 128,
        q == q & (u128::MAX >> (128 - ln) as u128),
    ensures
        (q << sh) >> sh == q,
{
}

/// Once the field is cleared, it reads zero.
proof fn lemma_cleared_is_zero(s: u128, m: u128, sh: u128)
    by (bit_vector)
    requires
        sh < 128,
        (m << sh) >> sh == m,
    ensures
        ((s & !(m << sh)) >> sh) & m == 0,
{
}

/// Setting the bits of `q` inside mask `m`, where `x` has none, reads `q`.
proof fn lemma_or_masked(x: u128, q: u128, m: u128)
    by (bit_vector)
    requires
        x & m == 0,
        q & m == q,
    ensures
        (x | q) & m == q,
{
}

/// The write leaves the low `ln` bits of `p` in the field.
proof fn lemma_insert_field(s: u128, p: u128, sh: u128, ln: u128)
    requires
        1 <= ln,
        sh + ln <= 128,
    ensures
        (((s & !((u128::MAX >> (128 - ln) as u128) << sh)) | ((p & (u128::MAX >> (128 - ln) as u128))
            << sh)) >> sh) & (u128::MAX >> (128 - ln) as u128) == p & (u128::MAX >> (128
            - ln) as u128),
{
    let m = u128::MAX >> (128 - ln) as u128;
    let q = p & m;
    assert(m == m & m && q == q & m) by (bit_vector)
        requires
            q == p & m,
    ;
    lemma_shl_shr_low(m, sh, ln);
    lemma_shl_shr_low(q, sh, ln);
    lemma_cleared_is_zero(s, m, sh);
    lemma_shr_or(s & !(m << sh), q << sh, sh);
    lemma_or_masked((s & !(m << sh)) >> sh, q, m);
}

/// A left shift by `sh` leaves the low `sh` bits zero.
proof fn lemma_shl_clears_low(x: u128, sh: u128)
    by (bit_vector)
    requires
        1 <= sh < 128,
    ensures
        (x << sh) & (u128::MAX >> (128 - sh) as u128) == 0,
{
}

/// Clearing and setting bits outside mask `l` keeps the bits inside it.
proof fn lemma_low_untouched(s: u128, m: u128, b: u128, l: u128)
    by (bit_vector)
    requires
        m & l == 0,
        b & l == 0,
    ensures
        ((s & !m) | b) & l == s & l,
{
}

/// The write keeps the bits below the field.
proof fn lemma_insert_below(s: u128, p: u128, sh: u128, ln: u128)
    requires
        1 <= ln,
        1 <= sh,
        sh + ln <= 128,
    ensures
        ((s & !((u128::MAX >> (128 - ln) as u128) << sh)) | ((p & (u128::MAX >> (128 - ln) as u128))
            << sh)) & (u128::MAX >> (128 - sh) as u128) == s & (u128::MAX >> (128 - sh) as u128),
{
    let m = u128::MAX >> (128 - ln) as u128;
    lemma_shl_clears_low(m, sh);
    lemma_shl_clears_low(p & m, sh);
    lemma_low_untouched(s, m << sh, (p & m) << sh, u128::MAX >> (128 - sh) as u128);
}

/// Reads the bits `lsb..=msb` of `s`, moved down to bit 0.
pub fn extract_raw(s: u128, msb: usize, lsb: usize) -> (r: u128)
    requires
        lsb <= msb < 128,
    ensures
        r as nat == field_value(s as nat, msb as nat, lsb as nat),
{
    let shifted = s >> (lsb as u128);
    let r = shifted & mask_of_len(msb - lsb + 1);
    proof {
        lemma_u128_shr_is_div(s, lsb as u128);
        lemma_mask_is_mod(shifted, field_len(msb as nat, lsb as nat));
    }
    r
}

/// Writes the low `msb - lsb + 1` bits of `p` into the bits `lsb..=msb` of
/// `s`; every other bit of `s` is kept.
pub fn inject_raw(s: u128, msb: usize, lsb: usize, p: u128) -> (r: u128)
    requires
        lsb <= msb < 128,
    ensures
        r as nat == with_field(
            s as nat,
            msb as nat,
            lsb as nat,
            p as nat % pow2(field_len(msb as nat, lsb as nat)),
        ),
{
    let len = msb - lsb + 1;
    let mask = mask_of_len(len);
    let sh = lsb as u128;
    let r = (s & !(mask << sh)) | ((p & mask) << sh);
    proof {
        let ln = len as u128;
        let top = (lsb + len) as u128;
        if msb + 1 < 128 {
            lemma_insert_above(s, p, sh, ln);
        }
        lemma_insert_field(s, p, sh, ln);
        if lsb > 0 {
            lemma_insert_below(s, p, sh, ln);
        }
        let n = len as nat;
        let l = lsb as nat;
        // the field
        lemma_u128_shr_is_div(r, sh);
        lemma_mask_is_mod(r >> sh, n);
        lemma_mask_is_mod(p, n);
        // the bits below lsb
        if lsb > 0 {
            lemma_mask_is_mod(r, l);
            lemma_mask_is_mod(s, l);
        } else {
            lemma2_to64();
        }
        // the bits above msb
        if msb + 1 < 128 {
            lemma_u128_shr_is_div(r, top);
            lemma_u128_shr_is_div(s, top);
        } else {
            lemma_u128_below_pow2(r);
            lemma_u128_below_pow2(s);
            lemma_basic_div(r as int, pow2(128) as int);
            lemma_basic_div(s as int, pow2(128) as int);
        }
        lemma_split_at_field(r as nat, msb as nat, l);
        lemma_pow2_pos(n);
    }
    r
}

} // verus!
