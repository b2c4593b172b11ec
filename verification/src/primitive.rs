//! The names that the integer and Boolean types go by.

use vstd::prelude::*;

verus! {

/// A value that is true or false.
pub type Bool = bool;

/// A signed integer of the machine's word size.
pub type Int = isize;

/// An 8-bit signed integer.
pub type Int8 = i8;

/// A 16-bit signed integer.
pub type Int16 = i16;

/// A 32-bit signed integer.
pub type Int32 = i32;

/// A 64-bit signed integer.
pub type Int64 = i64;

/// An unsigned integer of the machine's word size.
pub type UInt = usize;

/// An 8-bit unsigned integer.
pub type UInt8 = u8;

/// A 16-bit unsigned integer.
pub type UInt16 = u16;

/// A 32-bit unsigned integer.
pub type UInt32 = u32;

/// A 64-bit unsigned integer.
pub type UInt64 = u64;

} // verus!
