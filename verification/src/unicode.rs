//! Unicode scalar values.

use vstd::prelude::*;

verus! {

/// A Unicode scalar value.
#[derive(Copy, Clone, Debug, Ord, PartialOrd, Eq, PartialEq, Hash)]
pub struct UnicodeScalar(char);

impl UnicodeScalar {
    /// The scalar's code point.
    pub closed spec fn code(self) -> char {
        self.0
    }

    /// Creates an instance from a `char`.
    pub fn from_char(ch: char) -> (scalar: Self)
        ensures
            scalar.code() == ch,
    {
        Self(ch)
    }

    /// Converts `self` into a `char`.
    pub fn into_char(self) -> (ch: char)
        ensures
            ch == self.code(),
    {
        self.0
    }

    /// A numeric representation of the Unicode scalar.
    pub fn value(self) -> (v: u32)
        ensures
            v == self.code() as u32,
    {
        self.0 as u32
    }

    /// Whether the scalar is an ASCII character, that is, below 128.
    pub fn is_ascii(&self) -> (b: bool)
        ensures
            b == ((self.code() as u32) < 128),
    {
        (self.0 as u32) < 128
    }
}

} // verus!
