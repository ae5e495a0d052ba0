use const_bitfield::{check_read, check_write, Bit, BitError, BitMut, BitRange, BitRangeMut};

fn ones(len: usize) -> u128 {
    if len == 128 {
        u128::MAX
    } else {
        (1u128 << len) - 1
    }
}

#[test]
fn all_ones_ranges_of_every_width() {
    for msb in 0..8 {
        for lsb in 0..=msb {
            let r: u8 = u8::MAX.bits(msb, lsb);
            assert_eq!(r as u128, ones(msb - lsb + 1));
        }
    }
    for msb in 0..16 {
        for lsb in 0..=msb {
            let r: u16 = u16::MAX.bits(msb, lsb);
            assert_eq!(r as u128, ones(msb - lsb + 1));
        }
    }
    for msb in 0..32 {
        for lsb in 0..=msb {
            let r: u32 = u32::MAX.bits(msb, lsb);
            assert_eq!(r as u128, ones(msb - lsb + 1));
        }
    }
    for msb in 0..64 {
        for lsb in 0..=msb {
            let r: u64 = u64::MAX.bits(msb, lsb);
            assert_eq!(r as u128, ones(msb - lsb + 1));
        }
    }
    for msb in 0..128 {
        for lsb in 0..=msb {
            let r: u128 = u128::MAX.bits(msb, lsb);
            assert_eq!(r, ones(msb - lsb + 1));
        }
    }
}

#[test]
fn write_then_read_on_zero_storage() {
    for msb in 0..32 {
        for lsb in 0..=msb {
            let len = msb - lsb + 1;
            let value: u32 = if len == 32 { 0xA5A5_A5A5 } else { 0xA5A5_A5A5 & ((1u32 << len) - 1) };
            let mut s: u32 = 0;
            s.set_bits(msb, lsb, value);
            let back: u32 = s.bits(msb, lsb);
            assert_eq!(back, value);
            for i in 0..32 {
                if i < lsb || i > msb {
                    assert!(!s.bit(i));
                }
            }
        }
    }
}

#[test]
fn writing_twice_is_writing_once() {
    let mut once: u64 = 0x0123_4567_89AB_CDEF;
    once.set_bits(40, 12, 0x1234_5678u32);
    let mut twice = once;
    twice.set_bits(40, 12, 0x1234_5678u32);
    assert_eq!(once, twice);
    assert_eq!(once, 0x0123_4523_4567_8DEF);
}

#[test]
fn write_keeps_bits_outside_the_range() {
    let before: u16 = 0b1010_1100_0011_0101;
    let mut after = before;
    after.set_bits(9, 4, 0b010101u8);
    for i in 0..16 {
        if i < 4 || i > 9 {
            assert_eq!(after.bit(i), before.bit(i));
        }
    }
    assert_eq!(after, 0b1010_1101_0101_0101);
}

#[test]
fn truncated_write_is_refused() {
    let mut s: u8 = 0;
    assert_eq!(s.try_set_bits(3, 0, 0b10000u8), Err(BitError::ValueTruncated));
    assert_eq!(s, 0);
    assert_eq!(s.try_set_bits(3, 0, 0b1111u8), Ok(()));
    assert_eq!(s, 0b1111);
}

#[test]
fn wider_value_than_storage_is_refused() {
    let mut s: u8 = 0;
    assert_eq!(s.try_set_bits(7, 0, u16::MAX), Err(BitError::ValueTruncated));
    assert_eq!(s.try_set_bits(7, 0, 0xFFu16), Ok(()));
    assert_eq!(s, 0xFF);
}

#[test]
fn bounds_are_checked() {
    let s: u8 = 0xFF;
    let r: Result<u8, BitError> = s.try_bits(8, 8);
    assert_eq!(r, Err(BitError::OutOfBounds));
    let r: Result<u8, BitError> = s.try_bits(8, 0);
    assert_eq!(r, Err(BitError::OutOfBounds));
    let r: Result<u8, BitError> = s.try_bits(0, 7);
    assert_eq!(r, Err(BitError::InvalidRange));
    let mut t: u8 = 0;
    assert_eq!(t.try_set_bits(8, 8, 0u8), Err(BitError::OutOfBounds));
    assert_eq!(t.try_set_bits(0, 7, 0u8), Err(BitError::InvalidRange));
}

#[test]
fn too_wide_read_is_refused() {
    let s: u16 = 0xFFFF;
    let r: Result<u8, BitError> = s.try_bits(15, 0);
    assert_eq!(r, Err(BitError::RangeTooWide));
    let r: Result<u8, BitError> = s.try_bits(15, 8);
    assert_eq!(r, Ok(0xFF));
    let r: Result<u16, BitError> = s.try_bits(15, 0);
    assert_eq!(r, Ok(0xFFFF));
}

#[test]
fn field_of_a_64_bit_storage() {
    let mut s: u64 = 0;
    s.set_bits(55, 24, 0x3333_3333u32);
    let f: u32 = s.bits(55, 24);
    assert_eq!(f, 0x3333_3333);
    let low: u32 = s.bits(23, 0);
    assert_eq!(low, 0);
    let high: u8 = s.bits(63, 56);
    assert_eq!(high, 0);
}

#[test]
fn signed_reads_zero_extend() {
    let s: u8 = 0xFF;
    let full: i8 = s.bits(7, 0);
    assert_eq!(full, -1);
    let part: i8 = s.bits(3, 0);
    assert_eq!(part, 15);
    let s: u128 = u128::MAX;
    let full: i128 = s.bits(127, 0);
    assert_eq!(full, -1);
    let wide: i64 = s.bits(62, 0);
    assert_eq!(wide, i64::MAX);
    let r: i32 = u8::MAX.bits(7, 0);
    assert_eq!(r, 255);
}

#[test]
fn signed_writes() {
    let mut s: u16 = 0;
    s.set_bits(7, 0, -1i8);
    assert_eq!(s, 0x00FF);
    let back: i8 = s.bits(7, 0);
    assert_eq!(back, -1);
    let mut t: u16 = 0;
    t.set_bits(11, 0, -1i8);
    assert_eq!(t, 0x0FFF);
    let mut u: u16 = 0;
    assert_eq!(u.try_set_bits(3, 0, -1i8), Err(BitError::ValueTruncated));
    assert_eq!(u.try_set_bits(3, 0, 7i8), Ok(()));
    assert_eq!(u, 7);
}

#[test]
fn single_bits() {
    let mut s: u32 = 0;
    s.set_bit(31, true).set_bit(0, true).set_bit(5, true);
    assert_eq!(s, 0x8000_0021);
    assert!(s.bit(31));
    assert!(s.bit(5));
    assert!(!s.bit(4));
    s.set_bit(5, false);
    assert_eq!(s, 0x8000_0001);
}

#[test]
fn chained_range_writes() {
    let mut s: u16 = 0;
    s.set_bits(3, 0, 0xAu8).set_bits(7, 4, 0xBu8).set_bits(15, 8, 0xCDu8);
    assert_eq!(s, 0xCDBA);
}

#[test]
fn checks_on_plain_numbers() {
    assert_eq!(check_read(32, 8, 31, 24), Ok(()));
    assert_eq!(check_read(32, 8, 31, 23), Err(BitError::RangeTooWide));
    assert_eq!(check_read(32, 8, 32, 0), Err(BitError::OutOfBounds));
    assert_eq!(check_read(32, 8, 3, 4), Err(BitError::InvalidRange));
    assert_eq!(check_write(16, 15, 0, -1i16), Ok(()));
    assert_eq!(check_write(16, 14, 0, -1i16), Err(BitError::ValueTruncated));
    assert_eq!(check_write(16, 14, 0, 0x7FFFi16), Ok(()));
    assert_eq!(check_write(16, 16, 0, 0u8), Err(BitError::OutOfBounds));
}

#[test]
fn every_single_bit_of_every_width() {
    for bit in 0..8 {
        let v: u8 = 1 << bit;
        let r: u8 = v.bits(bit, bit);
        assert_eq!(r, 1);
    }
    for bit in 0..128 {
        let mut v: u128 = 0;
        v.set_bits(bit, bit, 1u8);
        assert_eq!(v, 1u128 << bit);
        if bit > 0 {
            let below: u128 = v.bits(bit - 1, 0);
            assert_eq!(below, 0);
        }
        if bit < 127 {
            let above: u128 = v.bits(127, bit + 1);
            assert_eq!(above, 0);
        }
    }
}
