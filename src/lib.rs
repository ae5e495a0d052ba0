//! Typed, bounds-checked access to ranges of bits inside an unsigned integer
//! of 8, 16, 32, 64 or 128 bits, and layouts of named fields compiled into
//! getters and setters over such an integer.
//!
//! A range is written `msb, lsb`, both bits included, bit 0 being the least
//! significant. A read into a signed type zero-extends the range's bits to
//! the type's width and does not sign-extend them. A write stores the low
//! bits of the value and is refused when they do not hold the whole value.
pub mod codec;
pub mod laws;
pub mod layout;
pub mod model;
pub mod range;
pub mod storage;

pub use layout::{compile_layout, Field, FieldBits, FieldSpec, LayoutError};
pub use range::{check_read, check_write, Bit, BitError, BitMut, BitRange, BitRangeMut};
pub use storage::{BitStorage, BitValue};
