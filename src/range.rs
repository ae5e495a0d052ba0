use crate::codec::{extract_raw, inject_raw};
use crate::model::{
    bit_of, field_len, field_value, fits_field, from_pattern, lemma_pattern_128,
    lemma_pattern_narrow, lemma_pow2_type_widths, lemma_with_field_below, pattern_of, with_field,
};
use crate::storage::{BitStorage, BitValue};
use vstd::arithmetic::div_mod::{lemma_basic_div, lemma_div_non_zero};
use vstd::arithmetic::power2::{lemma_pow2_pos, lemma_pow2_strictly_increases, pow2};
use vstd::bits::lemma_u128_shr_is_div;
use vstd::prelude::*;

verus! {

/// Why a bit range operation was refused.
#[derive(Clone, Copy, Debug, PartialEq, Eq, Structural)]
pub enum BitError {
    /// A bit position at or beyond the storage width.
    OutOfBounds,
    /// `lsb > msb`.
    InvalidRange,
    /// The range holds more bits than the target type.
    RangeTooWide,
    /// The value does not fit, bit for bit, in the range.
    ValueTruncated,
}

/// The error a read of `lsb..=msb` from a `storage_width`-bit storage into a
/// `value_width`-bit type meets, if any; bounds are checked first, then the
/// order of the two positions, then the width.
pub open spec fn read_error(storage_width: nat, value_width: nat, msb: nat, lsb: nat) -> Option<
    BitError,
> {
    if lsb >= storage_width || msb >= storage_width {
        Some(BitError::OutOfBounds)
    } else if lsb > msb {
        Some(BitError::InvalidRange)
    } else if field_len(msb, lsb) > value_width {
        Some(BitError::RangeTooWide)
    } else {
        None
    }
}

/// The error a write of `v`, of a `value_width`-bit type, into `lsb..=msb` of
/// a `storage_width`-bit storage meets, if any.
pub open spec fn write_error(
    storage_width: nat,
    value_width: nat,
    msb: nat,
    lsb: nat,
    v: int,
) -> Option<BitError> {
    if lsb >= storage_width || msb >= storage_width {
        Some(BitError::OutOfBounds)
    } else if lsb > msb {
        Some(BitError::InvalidRange)
    } else if !fits_field(v, field_len(msb, lsb), value_width) {
        Some(BitError::ValueTruncated)
    } else {
        None
    }
}

/// The value that a read of `lsb..=msb` gives: the field's bits zero-extended
/// to the target type's width and read in that type. A signed target is not
/// sign-extended from the field: only a field as wide as the type can come
/// out negative.
pub open spec fn read_value<S: BitStorage, V: BitValue>(s: &S, msb: nat, lsb: nat) -> int {
    from_pattern(field_value(s.raw_value(), msb, lsb), V::value_width(), V::is_signed())
}

/// The raw bits that a write of `v` into `lsb..=msb` leaves in storage `s`.
pub open spec fn written_value<S: BitStorage>(s: &S, msb: nat, lsb: nat, v: int) -> nat {
    with_field(s.raw_value(), msb, lsb, pattern_of(v, field_len(msb, lsb)))
}

/// Checks a read of `lsb..=msb` from a `storage_width`-bit storage into a
/// `value_width`-bit type.
pub fn check_read(storage_width: usize, value_width: usize, msb: usize, lsb: usize) -> (r: Result<
    (),
    BitError,
>)
    ensures
        r == match read_error(storage_width as nat, value_width as nat, msb as nat, lsb as nat) {
            Some(e) => Err(e),
            None => Ok(()),
        },
{
    if lsb >= storage_width || msb >= storage_width {
        Err(BitError::OutOfBounds)
    } else if lsb > msb {
        Err(BitError::InvalidRange)
    } else if msb - lsb >= value_width {
        Err(BitError::RangeTooWide)
    } else {
        Ok(())
    }
}

/// Checks a write of `value` into `lsb..=msb` of a `storage_width`-bit
/// storage.
pub fn check_write<V: BitValue>(storage_width: usize, msb: usize, lsb: usize, value: V) -> (r: Result<
    (),
    BitError,
>)
    ensures
        r == match write_error(
            storage_width as nat,
            V::value_width(),
            msb as nat,
            lsb as nat,
            value.as_int(),
        ) {
            Some(e) => Err(e),
            None => Ok(()),
        },
{
    if lsb >= storage_width || msb >= storage_width {
        return Err(BitError::OutOfBounds);
    }
    if lsb > msb {
        return Err(BitError::InvalidRange);
    }
    let len = msb - lsb + 1;
    if len >= V::value_bit_width() {
        return Ok(());
    }
    let p = value.to_bits();
    let fits = (p >> (len as u128)) == 0;
    proof {
        let v = value.as_int();
        value.lemma_value_range();
        lemma_pow2_type_widths();
        if V::value_width() < 128 {
            lemma_pow2_strictly_increases(V::value_width(), 128);
            lemma_pow2_strictly_increases((V::value_width() - 1) as nat, 127);
        }
        lemma_pattern_128(v);
        lemma_u128_shr_is_div(p, len as u128);
        lemma_pow2_pos(len as nat);
        lemma_pow2_strictly_increases(len as nat, 128);
        if len < 127 {
            lemma_pow2_strictly_increases(len as nat, 127);
        }
        if (V::value_width() - 1) as nat > len {
            lemma_pow2_strictly_increases(len as nat, (V::value_width() - 1) as nat);
        }
        let d = pow2(len as nat) as int;
        if (p as int) < d {
            lemma_basic_div(p as int, d);
        } else {
            lemma_div_non_zero(p as int, d);
        }
        assert(fits <==> (p as nat) < pow2(len as nat));
    }
    if fits {
        Ok(())
    } else {
        Err(BitError::ValueTruncated)
    }
}

/// Reads a range of bits as a value of type `V`.
pub trait BitRange<V: BitValue>: BitStorage {
    /// The bits `lsb..=msb` as a `V`: zero-extended, then read in `V`.
    fn bits(&self, msb: usize, lsb: usize) -> (r: V)
        requires
            lsb <= msb < Self::storage_width(),
            field_len(msb as nat, lsb as nat) <= V::value_width(),
        ensures
            r.as_int() == read_value::<Self, V>(self, msb as nat, lsb as nat),
    ;

    /// The bits `lsb..=msb` as a `V`, or why they cannot be read.
    fn try_bits(&self, msb: usize, lsb: usize) -> (r: Result<V, BitError>)
        ensures
            match read_error(Self::storage_width(), V::value_width(), msb as nat, lsb as nat) {
                Some(e) => r == Err::<V, BitError>(e),
                None => r is Ok && r->Ok_0.as_int() == read_value::<Self, V>(
                    self,
                    msb as nat,
                    lsb as nat,
                ),
            },
    ;
}

/// Writes a range of bits from a value of type `V`.
pub trait BitRangeMut<V: BitValue>: BitRange<V> {
    /// Replaces the bits `lsb..=msb` with the low bits of `value`; every other
    /// bit is kept.
    fn set_bits(&mut self, msb: usize, lsb: usize, value: V) -> (r: &mut Self)
        requires
            lsb <= msb < Self::storage_width(),
            fits_field(value.as_int(), field_len(msb as nat, lsb as nat), V::value_width()),
        ensures
            r.raw_value() == written_value(old(self), msb as nat, lsb as nat, value.as_int()),
            *final(self) == *final(r),
    ;

    /// Like `set_bits`, or leaves the storage as it is and says why the write
    /// was refused.
    fn try_set_bits(&mut self, msb: usize, lsb: usize, value: V) -> (r: Result<(), BitError>)
        ensures
            match write_error(
                Self::storage_width(),
                V::value_width(),
                msb as nat,
                lsb as nat,
                value.as_int(),
            ) {
                Some(e) => r == Err::<(), BitError>(e) && *final(self) == *old(self),
                None => r is Ok && final(self).raw_value() == written_value(
                    old(self),
                    msb as nat,
                    lsb as nat,
                    value.as_int(),
                ),
            },
    ;
}

impl<S: BitStorage, V: BitValue> BitRange<V> for S {
    fn bits(&self, msb: usize, lsb: usize) -> (r: V) {
        proof {
            self.lemma_storage_range();
        }
        let field = extract_raw(self.to_raw(), msb, lsb);
        proof {
            let len = field_len(msb as nat, lsb as nat);
            lemma_pow2_pos(len);
            if len < V::value_width() {
                lemma_pow2_strictly_increases(len, V::value_width());
            }
        }
        V::from_bits(field)
    }

    fn try_bits(&self, msb: usize, lsb: usize) -> (r: Result<V, BitError>) {
        match check_read(S::storage_bit_width(), V::value_bit_width(), msb, lsb) {
            Ok(()) => Ok(self.bits(msb, lsb)),
            Err(e) => Err(e),
        }
    }
}

impl<S: BitStorage, V: BitValue> BitRangeMut<V> for S {
    fn set_bits(&mut self, msb: usize, lsb: usize, value: V) -> (r: &mut Self) {
        proof {
            self.lemma_storage_range();
        }
        let len = msb - lsb + 1;
        let raw = self.to_raw();
        let new = inject_raw(raw, msb, lsb, value.to_bits());
        proof {
            let n = len as nat;
            self.lemma_storage_range();
            lemma_pattern_narrow(value.as_int(), n, 128);
            lemma_pow2_pos(n);
            lemma_with_field_below(
                raw as nat,
                msb as nat,
                lsb as nat,
                pattern_of(value.as_int(), n),
                S::storage_width(),
            );
        }
        *self = S::from_raw(new);
        self
    }

    fn try_set_bits(&mut self, msb: usize, lsb: usize, value: V) -> (r: Result<(), BitError>) {
        match check_write(S::storage_bit_width(), msb, lsb, value) {
            Ok(()) => {
                self.set_bits(msb, lsb, value);
                Ok(())
            },
            Err(e) => Err(e),
        }
    }
}

/// Reads a single bit.
pub trait Bit: BitStorage {
    /// Whether bit `bit` is set.
    fn bit(&self, bit: usize) -> (r: bool)
        requires
            bit < Self::storage_width(),
        ensures
            r == bit_of(self.raw_value(), bit as nat),
    ;
}

/// Writes a single bit.
pub trait BitMut: Bit {
    /// Sets bit `bit` when `value` holds and clears it otherwise; every other
    /// bit is kept.
    fn set_bit(&mut self, bit: usize, value: bool) -> (r: &mut Self)
        requires
            bit < Self::storage_width(),
        ensures
            r.raw_value() == with_field(
                old(self).raw_value(),
                bit as nat,
                bit as nat,
                if value {
                    1
                } else {
                    0
                },
            ),
            *final(self) == *final(r),
    ;
}

impl<T: BitRange<u8>> Bit for T {
    fn bit(&self, bit: usize) -> (r: bool) {
        proof {
            lemma_pow2_type_widths();
        }
        let v: u8 = self.bits(bit, bit);
        v != 0
    }
}

impl<T: BitRangeMut<u8>> BitMut for T {
    fn set_bit(&mut self, bit: usize, value: bool) -> (r: &mut Self) {
        proof {
            lemma_pow2_type_widths();
        }
        let v: u8 = if value {
            1
        } else {
            0
        };
        assert(pattern_of(v as int, 1) == v);
        self.set_bits(bit, bit, v)
    }
}

} // verus!
