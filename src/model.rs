use vstd::arithmetic::div_mod::*;
use vstd::arithmetic::power2::*;
use vstd::prelude::*;

verus! {

/// Number of bits in the inclusive range `lsb..=msb`.
pub open spec fn field_len(msb: nat, lsb: nat) -> nat {
    (msb + 1 - lsb) as nat
}

/// The bits `lsb..=msb` of `s`, read as an unsigned number.
pub open spec fn field_value(s: nat, msb: nat, lsb: nat) -> nat {
    (s / pow2(lsb)) % pow2(field_len(msb, lsb))
}

/// `s` with the bits `lsb..=msb` replaced by `v`: the bits above `msb` and
/// below `lsb` are those of `s`.
pub open spec fn with_field(s: nat, msb: nat, lsb: nat, v: nat) -> nat {
    (s / pow2(msb + 1)) * pow2(msb + 1) + v * pow2(lsb) + s % pow2(lsb)
}

/// The low `n` bits of the integer `v` in two's complement, read as an
/// unsigned number.
pub open spec fn pattern_of(v: int, n: nat) -> nat {
    (v % (pow2(n) as int)) as nat
}

/// The integer that the `n`-bit pattern `p` stands for: `p` itself for an
/// unsigned type; for a signed one, `p` read in two's complement.
pub open spec fn from_pattern(p: nat, n: nat, signed: bool) -> int {
    if signed && p >= pow2((n - 1) as nat) {
        p - pow2(n)
    } else {
        p as int
    }
}

/// Whether `v` is a value of an `n`-bit integer type.
pub open spec fn in_type_range(v: int, n: nat, signed: bool) -> bool {
    if signed {
        -pow2((n - 1) as nat) <= v < pow2((n - 1) as nat)
    } else {
        0 <= v < pow2(n)
    }
}

/// Whether a value `v` of a type `value_width` bits wide can be written into
/// a field of `len` bits without losing information: the field is at least
/// as wide as the type, or `v` is a nonnegative number below `2^len`; a
/// negative value in a narrower field does not fit. This is exactly when
/// reading the low `len` bits of `v` back into its own type gives `v` again
/// (`lemma_fits_field_iff_round_trip`).
pub open spec fn fits_field(v: int, len: nat, value_width: nat) -> bool {
    len >= value_width || (0 <= v < pow2(len))
}

/// Bit `i` of `s`.
pub open spec fn bit_of(s: nat, i: nat) -> bool {
    (s / pow2(i)) % 2 == 1
}

/// All ones in the low `n` bits of a `u128`, zero above (`n <= 128`).
pub open spec fn low_mask(n: nat) -> u128 {
    if n == 0 {
        0
    } else {
        u128::MAX >> ((128 - n) as u128)
    }
}

/// An `&` splits into its lowest bit and the bits above.
proof fn lemma_and_split_low_bit(x: u128, m: u128)
    by (bit_vector)
    ensures
        x & m == ((x / 2) & (m / 2)) * 2 + ((x % 2) & (m % 2)),
{
}

/// Dropping the lowest bit of an `n`-bit mask gives the `n - 1`-bit mask.
proof fn lemma_low_mask_step(n: nat)
    requires
        1 <= n <= 128,
    ensures
        low_mask(n) % 2 == 1,
        low_mask(n) / 2 == low_mask((n - 1) as nat),
{
    if n == 1 {
        assert(u128::MAX >> 127u128 == 1) by (bit_vector);
    } else {
        let k = (128 - n) as u128;
        assert((u128::MAX >> k) % 2 == 1 && (u128::MAX >> k) / 2 == u128::MAX >> ((k + 1) as u128))
            by (bit_vector)
            requires
                k <= 126,
        ;
    }
}

/// Masking with the low `n` bits is taking the remainder by `2^n`.
pub proof fn lemma_mask_is_mod(x: u128, n: nat)
    requires
        n <= 128,
    ensures
        (x & low_mask(n)) as nat == x as nat % pow2(n),
    decreases n,
{
    if n == 0 {
        assert(x & 0 == 0) by (bit_vector);
        lemma2_to64();
    } else {
        let m = low_mask(n);
        let h = (n - 1) as nat;
        lemma_low_mask_step(n);
        lemma_and_split_low_bit(x, m);
        lemma_mask_is_mod(x / 2, h);
        assert((x % 2) & 1 == x % 2) by (bit_vector);
        lemma_pow2_pos(h);
        lemma_pow2_unfold(n);
        lemma_mod_breakdown(x as int, 2, pow2(h) as int);
    }
}

/// The powers of two at the widths of the integer types.
pub proof fn lemma_pow2_type_widths()
    ensures
        pow2(0) == 1,
        pow2(1) == 2,
        pow2(7) == 0x80,
        pow2(8) == 0x100,
        pow2(15) == 0x8000,
        pow2(16) == 0x1_0000,
        pow2(31) == 0x8000_0000,
        pow2(32) == 0x1_0000_0000,
        pow2(63) == 0x8000_0000_0000_0000,
        pow2(64) == 0x1_0000_0000_0000_0000,
        pow2(127) == 0x8000_0000_0000_0000_0000_0000_0000_0000,
        pow2(128) == 0x1_0000_0000_0000_0000_0000_0000_0000_0000,
{
    lemma2_to64();
    lemma2_to64_rest();
    lemma_pow2_adds(63, 64);
    lemma_pow2_adds(64, 64);
}

/// The 128-bit pattern of an integer in range of a 128-bit type.
pub proof fn lemma_pattern_128(v: int)
    requires
        -pow2(127) <= v < pow2(128),
    ensures
        pattern_of(v, 128) == if v >= 0 {
            v
        } else {
            v + pow2(128)
        },
{
    lemma_pow2_type_widths();
    let m = pow2(128) as int;
    if v >= 0 {
        lemma_fundamental_div_mod_converse(v, m, 0, v);
    } else {
        lemma_fundamental_div_mod_converse(v, m, -1, v + m);
    }
}

/// Every number splits into the bits above `msb`, the field `lsb..=msb` and
/// the bits below `lsb`.
pub proof fn lemma_split_at_field(s: nat, msb: nat, lsb: nat)
    requires
        lsb <= msb,
    ensures
        s == with_field(s, msb, lsb, field_value(s, msb, lsb)),
{
    let len = field_len(msb, lsb);
    let lo = pow2(lsb) as int;
    let mid = pow2(len) as int;
    let hi = pow2(msb + 1) as int;
    lemma_pow2_pos(lsb);
    lemma_pow2_pos(len);
    lemma_pow2_adds(lsb, len);
    assert(lo * mid == hi);
    lemma_pow2_pos(msb + 1);
    lemma_fundamental_div_mod(s as int, hi);
    lemma_mod_breakdown(s as int, lo, mid);
    let q = s as int / hi;
    let f = (s as int / lo) % mid;
    let low = s as int % lo;
    assert(s == q * hi + f * lo + low) by (nonlinear_arith)
        requires
            s == hi * q + (s as int) % hi,
            (s as int) % hi == lo * f + low,
    ;
}

/// What `with_field` keeps and what it sets.
pub proof fn lemma_with_field_parts(s: nat, msb: nat, lsb: nat, v: nat)
    requires
        lsb <= msb,
        v < pow2(field_len(msb, lsb)),
    ensures
        with_field(s, msb, lsb, v) / pow2(msb + 1) == s / pow2(msb + 1),
        with_field(s, msb, lsb, v) % pow2(lsb) == s % pow2(lsb),
        field_value(with_field(s, msb, lsb, v), msb, lsb) == v,
{
    let len = field_len(msb, lsb);
    let lo = pow2(lsb) as int;
    let mid = pow2(len) as int;
    let hi = pow2(msb + 1) as int;
    let q = (s / pow2(msb + 1)) as int;
    let low = (s % pow2(lsb)) as int;
    let r = with_field(s, msb, lsb, v) as int;
    lemma_pow2_pos(lsb);
    lemma_pow2_pos(len);
    lemma_pow2_adds(lsb, len);
    assert(lo * mid == hi);
    assert(0 <= low < lo);
    // the part below msb + 1 fits under 2^(msb + 1)
    assert(v * lo + low < hi) by (nonlinear_arith)
        requires
            0 <= v < mid,
            0 <= low < lo,
            lo * mid == hi,
    ;
    assert(0 <= v * lo + low) by (nonlinear_arith)
        requires
            0 <= v,
            0 <= low,
            0 < lo,
    ;
    assert(r == hi * q + (v * lo + low)) by (nonlinear_arith)
        requires
            r == q * hi + v * lo + low,
    ;
    lemma_fundamental_div_mod_converse(r, hi, q, v * lo + low);
    // r = (q * 2^len + v) * 2^lsb + low
    let t = q * mid + v;
    assert(r == lo * t + low) by (nonlinear_arith)
        requires
            r == hi * q + (v * lo + low),
            lo * mid == hi,
            t == q * mid + v,
    ;
    lemma_fundamental_div_mod_converse(r, lo, t, low);
    assert(t == mid * q + v) by (nonlinear_arith)
        requires
            t == q * mid + v,
    ;
    lemma_fundamental_div_mod_converse(t, mid, q, v as int);
}

/// A field written into a number below `2^w` leaves it below `2^w`.
pub proof fn lemma_with_field_below(s: nat, msb: nat, lsb: nat, v: nat, w: nat)
    requires
        lsb <= msb < w,
        s < pow2(w),
        v < pow2(field_len(msb, lsb)),
    ensures
        with_field(s, msb, lsb, v) < pow2(w),
{
    let hi = pow2(msb + 1) as int;
    let top = pow2((w - msb - 1) as nat) as int;
    let r = with_field(s, msb, lsb, v) as int;
    let q = s as int / hi;
    lemma_with_field_parts(s, msb, lsb, v);
    lemma_pow2_pos(msb + 1);
    lemma_pow2_adds(msb + 1, (w - msb - 1) as nat);
    assert(hi * top == pow2(w));
    lemma_fundamental_div_mod(r, hi);
    lemma_fundamental_div_mod(s as int, hi);
    assert(r < (q + 1) * hi) by (nonlinear_arith)
        requires
            r == hi * q + r % hi,
            r % hi < hi,
    ;
    assert(q < top) by (nonlinear_arith)
        requires
            s == hi * q + (s as int) % hi,
            0 <= (s as int) % hi,
            s < hi * top,
            hi > 0,
    ;
    assert((q + 1) * hi <= top * hi) by (nonlinear_arith)
        requires
            q + 1 <= top,
            hi > 0,
    ;
}

/// Narrowing a pattern keeps its low bits.
pub proof fn lemma_pattern_narrow(v: int, n: nat, m: nat)
    requires
        n <= m,
    ensures
        pattern_of(pattern_of(v, m) as int, n) == pattern_of(v, n),
{
    lemma_pow2_pos(n);
    lemma_pow2_pos((m - n) as nat);
    lemma_pow2_adds(n, (m - n) as nat);
    lemma_mod_mod(v, pow2(n) as int, pow2((m - n) as nat) as int);
}

/// A pattern of fewer bits than a type holds is read back as itself.
pub proof fn lemma_from_short_pattern(p: nat, len: nat, n: nat, signed: bool)
    requires
        1 <= len,
        len < n,
        p < pow2(len),
    ensures
        from_pattern(p, n, signed) == p,
{
    if len < (n - 1) as nat {
        lemma_pow2_strictly_increases(len, (n - 1) as nat);
    }
}

/// Numbers that agree below bit `k` agree on every bit below `k`.
pub proof fn lemma_low_bits_agree(x: nat, y: nat, k: nat, i: nat)
    requires
        i < k,
        x % pow2(k) == y % pow2(k),
    ensures
        bit_of(x, i) == bit_of(y, i),
{
    let a = pow2(i) as int;
    let b = pow2(i + 1) as int;
    lemma_pow2_pos(i);
    lemma_pow2_pos((k - i - 1) as nat);
    lemma_pow2_adds(i + 1, (k - i - 1) as nat);
    lemma_pow2_unfold(i + 1);
    lemma_mod_mod(x as int, b, pow2((k - i - 1) as nat) as int);
    lemma_mod_mod(y as int, b, pow2((k - i - 1) as nat) as int);
    lemma_mod_mod(x as int, a, 2);
    lemma_mod_mod(y as int, a, 2);
    lemma_mod_breakdown(x as int, a, 2);
    lemma_mod_breakdown(y as int, a, 2);
    assert((x as int / a) % 2 == (y as int / a) % 2) by (nonlinear_arith)
        requires
            a * ((x as int / a) % 2) + (x as int) % a == a * ((y as int / a) % 2) + (y as int) % a,
            (x as int) % a == (y as int) % a,
            a > 0,
    ;
}

/// Numbers that agree from bit `k` up agree on every bit from `k` up.
pub proof fn lemma_high_bits_agree(x: nat, y: nat, k: nat, i: nat)
    requires
        k <= i,
        x / pow2(k) == y / pow2(k),
    ensures
        bit_of(x, i) == bit_of(y, i),
{
    lemma_pow2_pos(k);
    lemma_pow2_pos((i - k) as nat);
    lemma_pow2_adds(k, (i - k) as nat);
    lemma_div_denominator(x as int, pow2(k) as int, pow2((i - k) as nat) as int);
    lemma_div_denominator(y as int, pow2(k) as int, pow2((i - k) as nat) as int);
}

/// Reading back the low `len` bits of a value that fits them gives the value.
pub proof fn lemma_pattern_round_trip(v: int, len: nat, n: nat, signed: bool)
    requires
        1 <= len <= n,
        in_type_range(v, n, signed),
        fits_field(v, len, n),
    ensures
        from_pattern(pattern_of(v, len), n, signed) == v,
{
    let m = pow2(len) as int;
    lemma_pow2_pos(len);
    if 0 <= v < m {
        lemma_fundamental_div_mod_converse(v, m, 0, v);
        if len < n {
            lemma_from_short_pattern(v as nat, len, n, signed);
        } else if signed {
            assert(v < pow2((n - 1) as nat));
        }
    } else {
        // the field is as wide as the type
        assert(len == n);
        if v < 0 {
            assert(signed);
            lemma_pow2_unfold(n);
            lemma_fundamental_div_mod_converse(v, m, -1, v + m);
        } else {
            assert(signed ==> v < pow2((n - 1) as nat));
            if signed {
                lemma_pow2_unfold(n);
            }
        }
    }
}

/// `fits_field` is the round trip of a write: the low `len` bits of `v`,
/// narrowed or zero-extended to the width of `v`'s type and read in that
/// type, give `v` back exactly when `v` fits the field.
pub proof fn lemma_fits_field_iff_round_trip(v: int, len: nat, n: nat, signed: bool)
    requires
        1 <= len,
        1 <= n,
        in_type_range(v, n, signed),
    ensures
        fits_field(v, len, n) <==> from_pattern(pattern_of(pattern_of(v, len) as int, n), n, signed)
            == v,
{
    let q = pattern_of(v, len);
    lemma_pow2_pos(len);
    lemma_pow2_pos(n);
    if len >= n {
        lemma_pattern_narrow(v, n, len);
        lemma_pattern_round_trip(v, n, n, signed);
    } else {
        lemma_pow2_strictly_increases(len, n);
        lemma_small_mod(q, pow2(n));
        lemma_from_short_pattern(q, len, n, signed);
        if fits_field(v, len, n) {
            lemma_pattern_round_trip(v, len, n, signed);
        }
    }
}

} // verus!
