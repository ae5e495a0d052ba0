use crate::model::{bit_of, field_len, fits_field, with_field};
use crate::range::{
    read_value, write_error, written_value, Bit, BitError, BitMut, BitRange, BitRangeMut,
};
use crate::storage::{BitStorage, BitValue};
use vstd::prelude::*;

verus! {

/// Where a field lies in its storage.
#[derive(Clone, Copy, Debug, PartialEq, Eq, Structural)]
pub enum FieldBits {
    /// The bits `lsb..=msb`.
    Range { msb: usize, lsb: usize },
    /// A single bit.
    Single { bit: usize },
}

/// One field of a layout, as a front end describes it: its name, its bits,
/// and the names of its accessors (`None` where one is left out).
#[derive(Debug)]
pub struct FieldSpec {
    pub name: String,
    pub bits: FieldBits,
    pub getter: Option<String>,
    pub setter: Option<String>,
}

/// Why a layout was refused; each variant holds the index of the field.
#[derive(Clone, Copy, Debug, PartialEq, Eq, Structural)]
pub enum LayoutError {
    /// The field has neither a getter nor a setter.
    NoAccessor(usize),
    /// The field reaches past the storage.
    OutOfBounds(usize),
    /// The field has `lsb > msb`.
    InvalidRange(usize),
}

/// A compiled field: its bits `lsb..=msb` and which accessors it has.
#[derive(Clone, Copy, Debug, PartialEq, Eq, Structural)]
pub struct Field {
    pub msb: usize,
    pub lsb: usize,
    pub readable: bool,
    pub writable: bool,
}

/// The highest bit of a field.
pub open spec fn spec_msb(bits: FieldBits) -> usize {
    match bits {
        FieldBits::Range { msb, lsb: _ } => msb,
        FieldBits::Single { bit } => bit,
    }
}

/// The lowest bit of a field.
pub open spec fn spec_lsb(bits: FieldBits) -> usize {
    match bits {
        FieldBits::Range { msb: _, lsb } => lsb,
        FieldBits::Single { bit } => bit,
    }
}

/// What is wrong with field `index`, `f`, of a layout over a
/// `width`-bit storage, if anything.
pub open spec fn field_error(width: nat, f: FieldSpec, index: usize) -> Option<LayoutError> {
    if f.getter is None && f.setter is None {
        Some(LayoutError::NoAccessor(index))
    } else if spec_msb(f.bits) >= width || spec_lsb(f.bits) >= width {
        Some(LayoutError::OutOfBounds(index))
    } else if spec_lsb(f.bits) > spec_msb(f.bits) {
        Some(LayoutError::InvalidRange(index))
    } else {
        None
    }
}

/// The field that a valid field spec compiles to.
pub open spec fn compiled(f: FieldSpec) -> Field {
    Field {
        msb: spec_msb(f.bits),
        lsb: spec_lsb(f.bits),
        readable: f.getter is Some,
        writable: f.setter is Some,
    }
}

/// Checks one field spec.
fn check_field(width: usize, f: &FieldSpec, index: usize) -> (r: Result<Field, LayoutError>)
    ensures
        match field_error(width as nat, *f, index) {
            Some(e) => r == Err::<Field, LayoutError>(e),
            None => r == Ok::<Field, LayoutError>(compiled(*f)),
        },
{
    let readable = f.getter.is_some();
    let writable = f.setter.is_some();
    if !readable && !writable {
        return Err(LayoutError::NoAccessor(index));
    }
    let (msb, lsb) = match f.bits {
        FieldBits::Range { msb, lsb } => (msb, lsb),
        FieldBits::Single { bit } => (bit, bit),
    };
    if msb >= width || lsb >= width {
        Err(LayoutError::OutOfBounds(index))
    } else if lsb > msb {
        Err(LayoutError::InvalidRange(index))
    } else {
        Ok(Field { msb, lsb, readable, writable })
    }
}

/// Compiles the fields of a layout over storage `S`, in order, or reports
/// the first field that is wrong. Fields may overlap.
pub fn compile_layout<S: BitStorage>(specs: &Vec<FieldSpec>) -> (r: Result<Vec<Field>, LayoutError>)
    ensures
        match r {
            Ok(fields) => {
                &&& forall|i: int|
                    0 <= i < specs@.len() ==> field_error(
                        S::storage_width(),
                        #[trigger] specs@[i],
                        i as usize,
                    ) is None
                &&& fields@.len() == specs@.len()
                &&& forall|i: int| 0 <= i < specs@.len() ==> #[trigger] fields@[i] == compiled(specs@[i])
            },
            Err(e) => exists|k: int|
                0 <= k < specs@.len() && (forall|i: int|
                    0 <= i < k ==> field_error(S::storage_width(), #[trigger] specs@[i], i as usize)
                        is None) && field_error(S::storage_width(), specs@[k], k as usize) == Some(
                    e,
                ),
        },
{
    let width = S::storage_bit_width();
    let mut fields: Vec<Field> = Vec::new();
    let mut i: usize = 0;
    while i < specs.len()
        invariant
            width as nat == S::storage_width(),
            i <= specs@.len(),
            fields@.len() == i,
            forall|j: int|
                0 <= j < i ==> field_error(S::storage_width(), #[trigger] specs@[j], j as usize)
                    is None,
            forall|j: int| 0 <= j < i ==> #[trigger] fields@[j] == compiled(specs@[j]),
        decreases specs@.len() - i,
    {
        match check_field(width, &specs[i], i) {
            Ok(f) => fields.push(f),
            Err(e) => return Err(e),
        }
        i = i + 1;
    }
    Ok(fields)
}

impl Field {
    /// A field over the bits `lsb..=msb` with a getter and a setter.
    pub fn range(msb: usize, lsb: usize) -> (f: Field)
        ensures
            f == (Field { msb, lsb, readable: true, writable: true }),
    {
        Field { msb, lsb, readable: true, writable: true }
    }

    /// A field over the single bit `bit` with a getter and a setter.
    pub fn single(bit: usize) -> (f: Field)
        ensures
            f == (Field { msb: bit, lsb: bit, readable: true, writable: true }),
    {
        Field { msb: bit, lsb: bit, readable: true, writable: true }
    }

    /// Whether the field lies inside a `width`-bit storage.
    pub open spec fn lies_in(self, width: nat) -> bool {
        self.lsb <= self.msb < width
    }

    /// Reads the field as a `V`.
    pub fn get<S: BitRange<V>, V: BitValue>(&self, record: &S) -> (r: V)
        requires
            self.readable,
            self.lies_in(S::storage_width()),
            field_len(self.msb as nat, self.lsb as nat) <= V::value_width(),
        ensures
            r.as_int() == read_value::<S, V>(record, self.msb as nat, self.lsb as nat),
    {
        record.bits(self.msb, self.lsb)
    }

    /// Reads the field as a `V` and converts it with `D::from`.
    pub fn get_as<S: BitRange<V>, V: BitValue, D: From<V>>(&self, record: &S) -> (d: D)
        requires
            self.readable,
            self.lies_in(S::storage_width()),
            field_len(self.msb as nat, self.lsb as nat) <= V::value_width(),
        ensures
            exists|v: V|
                v.as_int() == read_value::<S, V>(record, self.msb as nat, self.lsb as nat)
                    && call_ensures(D::from, (v,), d),
    {
        let v: V = record.bits(self.msb, self.lsb);
        D::from(v)
    }

    /// Writes `value` into the field; every other bit is kept.
    pub fn set<'a, S: BitRangeMut<V>, V: BitValue>(&self, record: &'a mut S, value: V) -> (r: &'a mut S)
        requires
            self.writable,
            self.lies_in(S::storage_width()),
            fits_field(
                value.as_int(),
                field_len(self.msb as nat, self.lsb as nat),
                V::value_width(),
            ),
        ensures
            r.raw_value() == written_value(
                old(record),
                self.msb as nat,
                self.lsb as nat,
                value.as_int(),
            ),
            *final(record) == *final(r),
    {
        record.set_bits(self.msb, self.lsb, value)
    }

    /// Converts `value` with `V::from` and writes the result into the field,
    /// or leaves the record as it is when the converted value does not fit.
    pub fn set_from<S: BitRangeMut<V>, V: BitValue + From<D>, D>(&self, record: &mut S, value: D) -> (r:
        Result<(), BitError>)
        requires
            self.writable,
            self.lies_in(S::storage_width()),
        ensures
            exists|v: V|
                call_ensures(V::from, (value,), v) && match write_error(
                    S::storage_width(),
                    V::value_width(),
                    self.msb as nat,
                    self.lsb as nat,
                    v.as_int(),
                ) {
                    Some(e) => r == Err::<(), BitError>(e) && *final(record) == *old(record),
                    None => r is Ok && final(record).raw_value() == written_value(
                        old(record),
                        self.msb as nat,
                        self.lsb as nat,
                        v.as_int(),
                    ),
                },
    {
        let v = V::from(value);
        record.try_set_bits(self.msb, self.lsb, v)
    }

    /// Reads a one-bit field.
    pub fn is_set<S: Bit>(&self, record: &S) -> (r: bool)
        requires
            self.readable,
            self.lies_in(S::storage_width()),
            self.msb == self.lsb,
        ensures
            r == bit_of(record.raw_value(), self.lsb as nat),
    {
        record.bit(self.lsb)
    }

    /// Reads a one-bit field and converts it with `D::from`.
    pub fn is_set_as<S: Bit, D: From<bool>>(&self, record: &S) -> (d: D)
        requires
            self.readable,
            self.lies_in(S::storage_width()),
            self.msb == self.lsb,
        ensures
            call_ensures(D::from, (bit_of(record.raw_value(), self.lsb as nat),), d),
    {
        D::from(record.bit(self.lsb))
    }

    /// Sets a one-bit field when `value` holds and clears it otherwise.
    pub fn assign<'a, S: BitMut>(&self, record: &'a mut S, value: bool) -> (r: &'a mut S)
        requires
            self.writable,
            self.lies_in(S::storage_width()),
            self.msb == self.lsb,
        ensures
            r.raw_value() == with_field(
                old(record).raw_value(),
                self.lsb as nat,
                self.lsb as nat,
                if value {
                    1
                } else {
                    0
                },
            ),
            *final(record) == *final(r),
    {
        record.set_bit(self.lsb, value)
    }

    /// Converts `value` with `bool::from` and writes it into a one-bit field.
    pub fn assign_from<'a, S: BitMut, D>(&self, record: &'a mut S, value: D) -> (r: &'a mut S) where
        bool: From<D>,
        requires
            self.writable,
            self.lies_in(S::storage_width()),
            self.msb == self.lsb,
        ensures
            exists|b: bool|
                call_ensures(bool::from, (value,), b) && r.raw_value() == with_field(
                    old(record).raw_value(),
                    self.lsb as nat,
                    self.lsb as nat,
                    if b {
                        1
                    } else {
                        0
                    },
                ),
            *final(record) == *final(r),
    {
        let b = bool::from(value);
        record.set_bit(self.lsb, b)
    }
}

} // verus!
