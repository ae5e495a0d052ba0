use crate::model::{from_pattern, in_type_range, lemma_pattern_128, lemma_pow2_type_widths, pattern_of};
use vstd::arithmetic::power2::pow2;
use vstd::prelude::*;

verus! {

/// An unsigned integer that holds the bits of a record: bit 0 is the least
/// significant one.
pub trait BitStorage: Sized {
    /// Number of bits in the storage.
    spec fn storage_width() -> nat;

    /// The storage's bits read as an unsigned number.
    spec fn raw_value(&self) -> nat;

    proof fn lemma_storage_range(&self)
        ensures
            1 <= Self::storage_width() <= 128,
            self.raw_value() < pow2(Self::storage_width()),
    ;

    /// Number of bits in the storage.
    fn storage_bit_width() -> (w: usize)
        ensures
            w as nat == Self::storage_width(),
            1 <= w <= 128,
    ;

    /// The storage's bits, widened to 128 bits.
    fn to_raw(&self) -> (r: u128)
        ensures
            r as nat == self.raw_value(),
    ;

    /// The storage that holds the bits of `r`.
    fn from_raw(r: u128) -> (s: Self)
        requires
            r < pow2(Self::storage_width()),
        ensures
            s.raw_value() == r as nat,
    ;
}

/// An integer type that a field is read as or written from.
pub trait BitValue: Sized + Copy {
    /// Number of bits of the type.
    spec fn value_width() -> nat;

    /// Whether the type is signed (two's complement).
    spec fn is_signed() -> bool;

    /// The integer that `self` is.
    spec fn as_int(self) -> int;

    proof fn lemma_value_range(self)
        ensures
            8 <= Self::value_width() <= 128,
            in_type_range(self.as_int(), Self::value_width(), Self::is_signed()),
    ;

    /// Number of bits of the type.
    fn value_bit_width() -> (w: usize)
        ensures
            w as nat == Self::value_width(),
            8 <= w <= 128,
    ;

    /// The low 128 bits of `self` in two's complement: a signed value is
    /// sign-extended.
    fn to_bits(self) -> (r: u128)
        ensures
            r as nat == pattern_of(self.as_int(), 128),
    ;

    /// The value whose bits are `p`, zero-extended to the type's width.
    fn from_bits(p: u128) -> (v: Self)
        requires
            p < pow2(Self::value_width()),
        ensures
            v.as_int() == from_pattern(p as nat, Self::value_width(), Self::is_signed()),
    ;
}

impl BitStorage for u8 {
    open spec fn storage_width() -> nat {
        8
    }

    open spec fn raw_value(&self) -> nat {
        *self as nat
    }

    proof fn lemma_storage_range(&self) {
        lemma_pow2_type_widths();
    }

    fn storage_bit_width() -> (w: usize) {
        8
    }

    fn to_raw(&self) -> (r: u128) {
        *self as u128
    }

    fn from_raw(r: u128) -> (s: Self) {
        proof {
            lemma_pow2_type_widths();
        }
        r as u8
    }
}

impl BitStorage for u16 {
    open spec fn storage_width() -> nat {
        16
    }

    open spec fn raw_value(&self) -> nat {
        *self as nat
    }

    proof fn lemma_storage_range(&self) {
        lemma_pow2_type_widths();
    }

    fn storage_bit_width() -> (w: usize) {
        16
    }

    fn to_raw(&self) -> (r: u128) {
        *self as u128
    }

    fn from_raw(r: u128) -> (s: Self) {
        proof {
            lemma_pow2_type_widths();
        }
        r as u16
    }
}

impl BitStorage for u32 {
    open spec fn storage_width() -> nat {
        32
    }

    open spec fn raw_value(&self) -> nat {
        *self as nat
    }

    proof fn lemma_storage_range(&self) {
        lemma_pow2_type_widths();
    }

    fn storage_bit_width() -> (w: usize) {
        32
    }

    fn to_raw(&self) -> (r: u128) {
        *self as u128
    }

    fn from_raw(r: u128) -> (s: Self) {
        proof {
            lemma_pow2_type_widths();
        }
        r as u32
    }
}

impl BitStorage for u64 {
    open spec fn storage_width() -> nat {
        64
    }

    open spec fn raw_value(&self) -> nat {
        *self as nat
    }

    proof fn lemma_storage_range(&self) {
        lemma_pow2_type_widths();
    }

    fn storage_bit_width() -> (w: usize) {
        64
    }

    fn to_raw(&self) -> (r: u128) {
        *self as u128
    }

    fn from_raw(r: u128) -> (s: Self) {
        proof {
            lemma_pow2_type_widths();
        }
        r as u64
    }
}

impl BitStorage for u128 {
    open spec fn storage_width() -> nat {
        128
    }

    open spec fn raw_value(&self) -> nat {
        *self as nat
    }

    proof fn lemma_storage_range(&self) {
        lemma_pow2_type_widths();
    }

    fn storage_bit_width() -> (w: usize) {
        128
    }

    fn to_raw(&self) -> (r: u128) {
        *self as u128
    }

    fn from_raw(r: u128) -> (s: Self) {
        proof {
            lemma_pow2_type_widths();
        }
        r as u128
    }
}

impl BitValue for u8 {
    open spec fn value_width() -> nat {
        8
    }

    open spec fn is_signed() -> bool {
        false
    }

    open spec fn as_int(self) -> int {
        self as int
    }

    proof fn lemma_value_range(self) {
        lemma_pow2_type_widths();
    }

    fn value_bit_width() -> (w: usize) {
        8
    }

    fn to_bits(self) -> (r: u128) {
        proof {
            lemma_pow2_type_widths();
            lemma_pattern_128(self as int);
        }
        self as u128
    }

    fn from_bits(p: u128) -> (v: Self) {
        proof {
            lemma_pow2_type_widths();
        }
        p as u8
    }
}

impl BitValue for u16 {
    open spec fn value_width() -> nat {
        16
    }

    open spec fn is_signed() -> bool {
        false
    }

    open spec fn as_int(self) -> int {
        self as int
    }

    proof fn lemma_value_range(self) {
        lemma_pow2_type_widths();
    }

    fn value_bit_width() -> (w: usize) {
        16
    }

    fn to_bits(self) -> (r: u128) {
        proof {
            lemma_pow2_type_widths();
            lemma_pattern_128(self as int);
        }
        self as u128
    }

    fn from_bits(p: u128) -> (v: Self) {
        proof {
            lemma_pow2_type_widths();
        }
        p as u16
    }
}

impl BitValue for u32 {
    open spec fn value_width() -> nat {
        32
    }

    open spec fn is_signed() -> bool {
        false
    }

    open spec fn as_int(self) -> int {
        self as int
    }

    proof fn lemma_value_range(self) {
        lemma_pow2_type_widths();
    }

    fn value_bit_width() -> (w: usize) {
        32
    }

    fn to_bits(self) -> (r: u128) {
        proof {
            lemma_pow2_type_widths();
            lemma_pattern_128(self as int);
        }
        self as u128
    }

    fn from_bits(p: u128) -> (v: Self) {
        proof {
            lemma_pow2_type_widths();
        }
        p as u32
    }
}

impl BitValue for u64 {
    open spec fn value_width() -> nat {
        64
    }

    open spec fn is_signed() -> bool {
        false
    }

    open spec fn as_int(self) -> int {
        self as int
    }

    proof fn lemma_value_range(self) {
        lemma_pow2_type_widths();
    }

    fn value_bit_width() -> (w: usize) {
        64
    }

    fn to_bits(self) -> (r: u128) {
        proof {
            lemma_pow2_type_widths();
            lemma_pattern_128(self as int);
        }
        self as u128
    }

    fn from_bits(p: u128) -> (v: Self) {
        proof {
            lemma_pow2_type_widths();
        }
        p as u64
    }
}

impl BitValue for u128 {
    open spec fn value_width() -> nat {
        128
    }

    open spec fn is_signed() -> bool {
        false
    }

    open spec fn as_int(self) -> int {
        self as int
    }

    proof fn lemma_value_range(self) {
        lemma_pow2_type_widths();
    }

    fn value_bit_width() -> (w: usize) {
        128
    }

    fn to_bits(self) -> (r: u128) {
        proof {
            lemma_pow2_type_widths();
            lemma_pattern_128(self as int);
        }
        self as u128
    }

    fn from_bits(p: u128) -> (v: Self) {
        proof {
            lemma_pow2_type_widths();
        }
        p as u128
    }
}

impl BitValue for i8 {
    open spec fn value_width() -> nat {
        8
    }

    open spec fn is_signed() -> bool {
        true
    }

    open spec fn as_int(self) -> int {
        self as int
    }

    proof fn lemma_value_range(self) {
        lemma_pow2_type_widths();
    }

    fn value_bit_width() -> (w: usize) {
        8
    }

    fn to_bits(self) -> (r: u128) {
        let r = self as u128;
        proof {
            let x = self;
            assert(r as int == if x >= 0 {
                x as int
            } else {
                x as int + 0x1_0000_0000_0000_0000_0000_0000_0000_0000int
            }) by (bit_vector)
                requires
                    r == x as u128,
            ;
            lemma_pow2_type_widths();
            lemma_pattern_128(self as int);
        }
        r
    }

    fn from_bits(p: u128) -> (v: Self) {
        proof {
            lemma_pow2_type_widths();
        }
        let v = p as u8 as i8;
        proof {
            assert(p < 0x100int ==> v as int == if p < 0x80 {
                p as int
            } else {
                p as int - 0x100int
            }) by (bit_vector)
                requires
                    v == p as u8 as i8,
            ;
        }
        v
    }
}

impl BitValue for i16 {
    open spec fn value_width() -> nat {
        16
    }

    open spec fn is_signed() -> bool {
        true
    }

    open spec fn as_int(self) -> int {
        self as int
    }

    proof fn lemma_value_range(self) {
        lemma_pow2_type_widths();
    }

    fn value_bit_width() -> (w: usize) {
        16
    }

    fn to_bits(self) -> (r: u128) {
        let r = self as u128;
        proof {
            let x = self;
            assert(r as int == if x >= 0 {
                x as int
            } else {
                x as int + 0x1_0000_0000_0000_0000_0000_0000_0000_0000int
            }) by (bit_vector)
                requires
                    r == x as u128,
            ;
            lemma_pow2_type_widths();
            lemma_pattern_128(self as int);
        }
        r
    }

    fn from_bits(p: u128) -> (v: Self) {
        proof {
            lemma_pow2_type_widths();
        }
        let v = p as u16 as i16;
        proof {
            assert(p < 0x10000int ==> v as int == if p < 0x8000 {
                p as int
            } else {
                p as int - 0x10000int
            }) by (bit_vector)
                requires
                    v == p as u16 as i16,
            ;
        }
        v
    }
}

impl BitValue for i32 {
    open spec fn value_width() -> nat {
        32
    }

    open spec fn is_signed() -> bool {
        true
    }

    open spec fn as_int(self) -> int {
        self as int
    }

    proof fn lemma_value_range(self) {
        lemma_pow2_type_widths();
    }

    fn value_bit_width() -> (w: usize) {
        32
    }

    fn to_bits(self) -> (r: u128) {
        let r = self as u128;
        proof {
            let x = self;
            assert(r as int == if x >= 0 {
                x as int
            } else {
                x as int + 0x1_0000_0000_0000_0000_0000_0000_0000_0000int
            }) by (bit_vector)
                requires
                    r == x as u128,
            ;
            lemma_pow2_type_widths();
            lemma_pattern_128(self as int);
        }
        r
    }

    fn from_bits(p: u128) -> (v: Self) {
        proof {
            lemma_pow2_type_widths();
        }
        let v = p as u32 as i32;
        proof {
            assert(p < 0x100000000int ==> v as int == if p < 0x80000000 {
                p as int
            } else {
                p as int - 0x100000000int
            }) by (bit_vector)
                requires
                    v == p as u32 as i32,
            ;
        }
        v
    }
}

impl BitValue for i64 {
    open spec fn value_width() -> nat {
        64
    }

    open spec fn is_signed() -> bool {
        true
    }

    open spec fn as_int(self) -> int {
        self as int
    }

    proof fn lemma_value_range(self) {
        lemma_pow2_type_widths();
    }

    fn value_bit_width() -> (w: usize) {
        64
    }

    fn to_bits(self) -> (r: u128) {
        let r = self as u128;
        proof {
            let x = self;
            assert(r as int == if x >= 0 {
                x as int
            } else {
                x as int + 0x1_0000_0000_0000_0000_0000_0000_0000_0000int
            }) by (bit_vector)
                requires
                    r == x as u128,
            ;
            lemma_pow2_type_widths();
            lemma_pattern_128(self as int);
        }
        r
    }

    fn from_bits(p: u128) -> (v: Self) {
        proof {
            lemma_pow2_type_widths();
        }
        let v = p as u64 as i64;
        proof {
            assert(p < 0x10000000000000000int ==> v as int == if p < 0x8000000000000000 {
                p as int
            } else {
                p as int - 0x10000000000000000int
            }) by (bit_vector)
                requires
                    v == p as u64 as i64,
            ;
        }
        v
    }
}

impl BitValue for i128 {
    open spec fn value_width() -> nat {
        128
    }

    open spec fn is_signed() -> bool {
        true
    }

    open spec fn as_int(self) -> int {
        self as int
    }

    proof fn lemma_value_range(self) {
        lemma_pow2_type_widths();
    }

    fn value_bit_width() -> (w: usize) {
        128
    }

    fn to_bits(self) -> (r: u128) {
        let r = self as u128;
        proof {
            let x = self;
            assert(r as int == if x >= 0 {
                x as int
            } else {
                x as int + 0x1_0000_0000_0000_0000_0000_0000_0000_0000int
            }) by (bit_vector)
                requires
                    r == x as u128,
            ;
            lemma_pow2_type_widths();
            lemma_pattern_128(self as int);
        }
        r
    }

    fn from_bits(p: u128) -> (v: Self) {
        proof {
            lemma_pow2_type_widths();
        }
        let v = p as i128;
        proof {
            assert(p < 0x100000000000000000000000000000000int ==> v as int == if p < 0x80000000000000000000000000000000 {
                p as int
            } else {
                p as int - 0x100000000000000000000000000000000int
            }) by (bit_vector)
                requires
                    v == p as i128,
            ;
        }
        v
    }
}

} // verus!
