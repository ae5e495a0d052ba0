use crate::model::{
    bit_of, field_len, field_value, fits_field, lemma_high_bits_agree, lemma_low_bits_agree,
    lemma_pattern_round_trip, lemma_with_field_parts, pattern_of,
};
use crate::range::{read_value, written_value};
use crate::storage::{BitStorage, BitValue};
use vstd::arithmetic::div_mod::lemma_fundamental_div_mod_converse;
use vstd::arithmetic::power2::{lemma_pow2_adds, lemma_pow2_pos, lemma_pow2_strictly_increases, pow2};
use vstd::prelude::*;

verus! {

/// Reading any range `lsb..=msb` of a storage whose bits are all set gives
/// `2^(msb - lsb + 1) - 1`: as the field's bits, and as the value read into
/// any unsigned type, or into a signed type wider than the range.
pub proof fn all_ones_range<S: BitStorage, V: BitValue>(s: S, msb: nat, lsb: nat)
    requires
        lsb <= msb < S::storage_width(),
        field_len(msb, lsb) <= V::value_width(),
        s.raw_value() == pow2(S::storage_width()) - 1,
    ensures
        field_value(s.raw_value(), msb, lsb) == pow2(field_len(msb, lsb)) - 1,
        !V::is_signed() || field_len(msb, lsb) < V::value_width() ==> read_value::<S, V>(
            &s,
            msb,
            lsb,
        ) == pow2(field_len(msb, lsb)) - 1,
{
    let w = S::storage_width();
    let len = field_len(msb, lsb);
    let lo = pow2(lsb) as int;
    let mid = pow2(len) as int;
    let up = pow2((w - lsb) as nat) as int;
    let rest = pow2((w - lsb - len) as nat) as int;
    lemma_pow2_pos(lsb);
    lemma_pow2_pos(len);
    lemma_pow2_pos((w - lsb) as nat);
    lemma_pow2_pos((w - lsb - len) as nat);
    lemma_pow2_adds(lsb, (w - lsb) as nat);
    lemma_pow2_adds(len, (w - lsb - len) as nat);
    // 2^w - 1 == 2^lsb * (2^(w - lsb) - 1) + (2^lsb - 1)
    assert(pow2(w) - 1 == lo * (up - 1) + (lo - 1)) by (nonlinear_arith)
        requires
            pow2(w) == lo * up,
    ;
    lemma_fundamental_div_mod_converse(pow2(w) - 1, lo, up - 1, lo - 1);
    // 2^(w - lsb) - 1 == 2^len * (2^(w - lsb - len) - 1) + (2^len - 1)
    assert(up - 1 == mid * (rest - 1) + (mid - 1)) by (nonlinear_arith)
        requires
            up == mid * rest,
    ;
    lemma_fundamental_div_mod_converse(up - 1, mid, rest - 1, mid - 1);
    if len < V::value_width() {
        if len < (V::value_width() - 1) as nat {
            lemma_pow2_strictly_increases(len, (V::value_width() - 1) as nat);
        }
    }
}

/// Writing a value that fits a range and reading the range back into the
/// value's type gives the value; on a storage that was zero, every bit
/// outside the range is still zero.
pub proof fn write_then_read<S: BitStorage, V: BitValue>(
    s: S,
    written: S,
    msb: nat,
    lsb: nat,
    v: V,
)
    requires
        lsb <= msb < S::storage_width(),
        field_len(msb, lsb) <= V::value_width(),
        fits_field(v.as_int(), field_len(msb, lsb), V::value_width()),
        written.raw_value() == written_value(&s, msb, lsb, v.as_int()),
    ensures
        read_value::<S, V>(&written, msb, lsb) == v.as_int(),
        s.raw_value() == 0 ==> forall|i: nat|
            (i < lsb || msb < i) ==> !#[trigger] bit_of(written.raw_value(), i),
{
    let len = field_len(msb, lsb);
    let p = pattern_of(v.as_int(), len);
    v.lemma_value_range();
    lemma_pow2_pos(len);
    lemma_with_field_parts(s.raw_value(), msb, lsb, p);
    lemma_pattern_round_trip(v.as_int(), len, V::value_width(), V::is_signed());
    if s.raw_value() == 0 {
        assert forall|i: nat| (i < lsb || msb < i) implies !#[trigger] bit_of(
            written.raw_value(),
            i,
        ) by {
            write_keeps_other_bits(s, msb, lsb, v, i);
            lemma_pow2_pos(i);
        }
    }
}

/// Writing the same value into the same range twice leaves the same bits as
/// writing it once.
pub proof fn write_twice<S: BitStorage, V: BitValue>(
    s: S,
    once: S,
    msb: nat,
    lsb: nat,
    v: V,
)
    requires
        lsb <= msb < S::storage_width(),
        once.raw_value() == written_value(&s, msb, lsb, v.as_int()),
    ensures
        written_value(&once, msb, lsb, v.as_int()) == once.raw_value(),
{
    let p = pattern_of(v.as_int(), field_len(msb, lsb));
    lemma_pow2_pos(field_len(msb, lsb));
    lemma_with_field_parts(s.raw_value(), msb, lsb, p);
}

/// A write into `lsb..=msb` changes no bit outside that range.
pub proof fn write_keeps_other_bits<S: BitStorage, V: BitValue>(
    s: S,
    msb: nat,
    lsb: nat,
    v: V,
    i: nat,
)
    requires
        lsb <= msb < S::storage_width(),
        i < lsb || msb < i,
    ensures
        bit_of(written_value(&s, msb, lsb, v.as_int()), i) == bit_of(s.raw_value(), i),
{
    let p = pattern_of(v.as_int(), field_len(msb, lsb));
    let r = written_value(&s, msb, lsb, v.as_int());
    lemma_pow2_pos(field_len(msb, lsb));
    lemma_with_field_parts(s.raw_value(), msb, lsb, p);
    if i < lsb {
        lemma_low_bits_agree(r, s.raw_value(), lsb, i);
    } else {
        lemma_high_bits_agree(r, s.raw_value(), msb + 1, i);
    }
}

} // verus!
