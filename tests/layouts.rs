use const_bitfield::{compile_layout, Field, FieldBits, FieldSpec, LayoutError};

#[derive(Copy, Clone, Debug, PartialEq, Eq)]
enum YesNo {
    No,
    Yes,
}

impl From<bool> for YesNo {
    fn from(value: bool) -> Self {
        if value {
            YesNo::Yes
        } else {
            YesNo::No
        }
    }
}

impl From<YesNo> for bool {
    fn from(value: YesNo) -> Self {
        value == YesNo::Yes
    }
}

fn spec(name: &str, bits: FieldBits, getter: bool, setter: bool) -> FieldSpec {
    FieldSpec {
        name: name.to_string(),
        bits,
        getter: if getter { Some(name.to_string()) } else { None },
        setter: if setter { Some(format!("set_{}", name)) } else { None },
    }
}

#[test]
fn one_bit_field_with_an_enumeration() {
    let field = Field::single(1);
    let mut s: u8 = 0;
    assert_eq!(field.is_set_as::<u8, YesNo>(&s), YesNo::No);
    field.assign_from::<u8, YesNo>(&mut s, YesNo::Yes);
    assert_eq!(s, 0b10);
    assert_eq!(field.is_set_as::<u8, YesNo>(&s), YesNo::Yes);
    field.assign_from::<u8, YesNo>(&mut s, YesNo::No);
    assert_eq!(s, 0);
    assert_eq!(field.is_set_as::<u8, YesNo>(&s), YesNo::No);
}

#[test]
fn compiles_a_valid_layout() {
    let specs = vec![
        spec("hello", FieldBits::Range { msb: 6, lsb: 0 }, true, true),
        spec("world", FieldBits::Single { bit: 7 }, true, false),
        spec("goodbye", FieldBits::Range { msb: 31, lsb: 16 }, false, true),
        spec("low_byte", FieldBits::Range { msb: 7, lsb: 0 }, true, false),
    ];
    let fields = compile_layout::<u32>(&specs).expect("the layout is valid");
    assert_eq!(fields.len(), 4);
    assert_eq!(fields[0], Field { msb: 6, lsb: 0, readable: true, writable: true });
    assert_eq!(fields[1], Field { msb: 7, lsb: 7, readable: true, writable: false });
    assert_eq!(fields[2], Field { msb: 31, lsb: 16, readable: false, writable: true });
    assert_eq!(fields[3], Field { msb: 7, lsb: 0, readable: true, writable: false });

    let mut s: u32 = 0;
    fields[0].set(&mut s, 0b0110110u8);
    fields[2].set(&mut s, 0xF00Fu16);
    assert_eq!(s, 0xF00F_0036);
    let hello: u8 = fields[0].get(&s);
    assert_eq!(hello, 0b0110110);
    assert!(!fields[1].is_set(&s));
    let low: u8 = fields[3].get(&s);
    assert_eq!(low, 0x36);
}

#[test]
fn refuses_a_field_without_accessors() {
    let specs = vec![
        spec("a", FieldBits::Range { msb: 3, lsb: 0 }, true, true),
        spec("b", FieldBits::Range { msb: 7, lsb: 4 }, false, false),
    ];
    assert_eq!(compile_layout::<u8>(&specs), Err(LayoutError::NoAccessor(1)));
}

#[test]
fn refuses_a_field_out_of_bounds() {
    let specs = vec![spec("a", FieldBits::Range { msb: 8, lsb: 0 }, true, true)];
    assert_eq!(compile_layout::<u8>(&specs), Err(LayoutError::OutOfBounds(0)));
    let specs = vec![spec("a", FieldBits::Single { bit: 16 }, true, true)];
    assert_eq!(compile_layout::<u16>(&specs), Err(LayoutError::OutOfBounds(0)));
    assert!(compile_layout::<u32>(&specs).is_ok());
}

#[test]
fn refuses_an_inverted_range() {
    let specs = vec![
        spec("a", FieldBits::Single { bit: 2 }, true, true),
        spec("b", FieldBits::Range { msb: 0, lsb: 7 }, true, true),
        spec("c", FieldBits::Range { msb: 9, lsb: 0 }, true, true),
    ];
    assert_eq!(compile_layout::<u8>(&specs), Err(LayoutError::InvalidRange(1)));
}

#[test]
fn converted_range_field_write_can_be_refused() {
    let field = Field::range(1, 0);
    let mut s: u16 = 0xF000;
    assert_eq!(field.set_from::<u16, u8, u8>(&mut s, 3), Ok(()));
    assert_eq!(s, 0xF003);
    assert_eq!(
        field.set_from::<u16, u8, u8>(&mut s, 4),
        Err(const_bitfield::BitError::ValueTruncated)
    );
    assert_eq!(s, 0xF003);
    let back: u32 = field.get_as::<u16, u8, u32>(&s);
    assert_eq!(back, 3);
}
