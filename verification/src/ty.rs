//! Metatypes as values.

use vstd::prelude::*;

verus! {

/// The metatype for any type: the address of a type's metadata.
#[derive(Debug)]
pub struct AnyType {
    address: usize,
}

impl View for AnyType {
    type V = usize;

    closed spec fn view(&self) -> usize {
        self.address
    }
}

impl AnyType {
    #[verifier::type_invariant]
    spec fn non_null(self) -> bool {
        self.address != 0
    }

    /// Creates a metatype from the address of a type's metadata.
    pub fn from_ptr(ptr: usize) -> (ty: Self)
        requires
            ptr != 0,
        ensures
            ty@ == ptr,
    {
        AnyType { address: ptr }
    }

    /// Returns the address of the type's metadata, which is never null.
    pub fn as_ptr(&self) -> (ptr: usize)
        ensures
            ptr == self@,
            ptr != 0,
    {
        proof {
            use_type_invariant(self);
        }
        self.address
    }

    /// Converts the metatype of a class into the metatype that it is.
    pub fn from(class: AnyClass) -> (ty: Self)
        ensures
            ty@ == class@,
    {
        class.0
    }
}

/// The protocol to which all class types implicitly conform: the metatype
/// of a class.
#[derive(Debug)]
pub struct AnyClass(AnyType);

impl View for AnyClass {
    type V = usize;

    closed spec fn view(&self) -> usize {
        self.0@
    }
}

impl AnyClass {
    /// Takes a metatype for that of a class.  That the type is a class is
    /// the caller's knowledge.
    pub fn new(ty: AnyType) -> (class: Self)
        ensures
            class@ == ty@,
    {
        AnyClass(ty)
    }

    /// Returns the metatype that the class is.
    pub fn as_ref(&self) -> (ty: &AnyType)
        ensures
            ty@ == self@,
    {
        &self.0
    }
}

} // verus!
