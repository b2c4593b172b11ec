//! Class instances as values.

use vstd::prelude::*;
use crate::heap::Heap;
use crate::obj::Owned;
use crate::ty::AnyType;

verus! {

/// The protocol to which all classes implicitly conform: an owned reference
/// to an instance of any class.
#[derive(Debug)]
pub struct AnyObject(Owned);

impl View for AnyObject {
    type V = usize;

    closed spec fn view(&self) -> usize {
        self.0@
    }
}

impl AnyObject {
    /// Creates an instance from some memory address, which must be that of
    /// an object of which the caller holds a strong reference.
    pub fn from_ptr(ptr: usize) -> (object: Self)
        requires
            ptr != 0,
        ensures
            object@ == ptr,
    {
        AnyObject(Owned::from_ptr(ptr))
    }

    /// Wraps an owned reference.
    pub fn from(owned: Owned) -> (object: Self)
        ensures
            object@ == owned@,
    {
        AnyObject(owned)
    }

    /// Unwraps the owned reference.
    pub fn into_owned(self) -> (owned: Owned)
        ensures
            owned@ == self@,
    {
        self.0
    }

    /// Returns the owned reference.
    pub fn as_ref(&self) -> (owned: &Owned)
        ensures
            owned@ == self@,
    {
        &self.0
    }

    /// Makes a second reference to the same instance, which retains it.
    pub fn clone(&self, heap: &mut Heap) -> (object: Self)
        requires
            old(heap).wf(),
            old(heap)@.live(self@),
            old(heap)@.at(self@).counts.strong < usize::MAX,
        ensures
            final(heap).wf(),
            final(heap)@ == old(heap)@.retain(self@, 1),
            object@ == self@,
    {
        AnyObject(self.0.clone(heap))
    }
}

/// A class type: a type whose values are references to class instances
/// and can be taken for references to instances of any class.
pub trait Object: Sized {
    /// Returns a shared reference to `self` as an `AnyObject`.
    fn as_any_object(&self) -> &AnyObject;

    /// Converts `self` into an `AnyObject` without incrementing the
    /// reference count.
    fn into_any_object(self) -> AnyObject;
}

impl Object for AnyObject {
    fn as_any_object(&self) -> (object: &AnyObject)
        ensures
            object@ == self@,
    {
        self
    }

    fn into_any_object(self) -> (object: AnyObject)
        ensures
            object@ == self@,
    {
        self
    }
}

/// A unique identifier for a class instance or metatype.
#[derive(Clone, Copy, Debug, PartialEq, Eq, PartialOrd, Ord, Hash)]
pub struct ObjectIdentifier(usize);

impl View for ObjectIdentifier {
    type V = usize;

    closed spec fn view(&self) -> usize {
        self.0
    }
}

impl ObjectIdentifier {
    #[verifier::type_invariant]
    spec fn non_null(self) -> bool {
        self.0 != 0
    }

    /// Creates an instance that uniquely identifies the given class
    /// instance: two identifiers are the same exactly if the instances
    /// are.
    pub fn init_object(object: &AnyObject) -> (id: Self)
        ensures
            id@ == object@,
    {
        ObjectIdentifier(object.as_ref().as_non_null())
    }

    /// Creates an instance that uniquely identifies the given metatype.
    pub fn init_type(ty: &AnyType) -> (id: Self)
        ensures
            id@ == ty@,
    {
        ObjectIdentifier(ty.as_ptr())
    }

    /// Returns the address that identifies the instance or metatype.
    pub fn as_ptr(&self) -> (ptr: usize)
        ensures
            ptr == self@,
            ptr != 0,
    {
        proof {
            use_type_invariant(self);
        }
        self.0
    }
}

} // verus!
