//! Kinds of metadata records.

use vstd::prelude::*;

verus! {

/// Set in the kinds that are not types.
pub const NON_TYPE_FLAG: u32 = 0x400;

/// Set in the kinds that are not heap objects.
pub const NON_HEAP_FLAG: u32 = 0x200;

/// Set in the kinds that are private to the runtime.
pub const RUNTIME_PRIVATE_FLAG: u32 = 100;

/// The largest possible non-isa-pointer metadata kind value.
pub const LAST_ENUMERATED: u32 = 0x7FF;

/// A class type.
pub const CLASS: u32 = 0;

/// A struct type.
pub const STRUCT: u32 = 0 | NON_HEAP_FLAG;

/// An enum type.
pub const ENUM: u32 = 1 | NON_HEAP_FLAG;

/// An optional type.
pub const OPTIONAL: u32 = 2 | NON_HEAP_FLAG;

/// A foreign class, such as a Core Foundation class.
pub const FOREIGN_CLASS: u32 = 3 | NON_HEAP_FLAG;

/// A type whose value is not exposed in the metadata system.
pub const OPAQUE: u32 = 0 | RUNTIME_PRIVATE_FLAG | NON_HEAP_FLAG;

/// A tuple.
pub const TUPLE: u32 = 1 | RUNTIME_PRIVATE_FLAG | NON_HEAP_FLAG;

/// A monomorphic function.
pub const FUNCTION: u32 = 2 | RUNTIME_PRIVATE_FLAG | NON_HEAP_FLAG;

/// An existential type.
pub const EXISTENTIAL: u32 = 3 | RUNTIME_PRIVATE_FLAG | NON_HEAP_FLAG;

/// A metatype.
pub const METATYPE: u32 = 4 | RUNTIME_PRIVATE_FLAG | NON_HEAP_FLAG;

/// An ObjC class wrapper.
pub const OBJC_CLASS_WRAPPER: u32 = 5 | RUNTIME_PRIVATE_FLAG | NON_HEAP_FLAG;

/// An existential metatype.
pub const EXISTENTIAL_METATYPE: u32 = 6 | RUNTIME_PRIVATE_FLAG | NON_HEAP_FLAG;

/// A heap-allocated local variable using statically-generated metadata.
pub const HEAP_LOCAL_VARIABLE: u32 = 0 | NON_TYPE_FLAG;

/// A heap-allocated local variable using runtime-instantiated metadata.
pub const HEAP_GENERIC_LOCAL_VARIABLE: u32 = 0 | NON_TYPE_FLAG | RUNTIME_PRIVATE_FLAG;

/// A native error object.
pub const ERROR_OBJECT: u32 = 1 | NON_TYPE_FLAG | RUNTIME_PRIVATE_FLAG;

/// Kinds of metadata records. Some of these are types, some aren't.
#[derive(Clone, Copy, Debug, PartialEq, Eq, Hash, Structural)]
pub struct MetadataKind(pub u32);

impl MetadataKind {
    /// Returns whether `self` is type metadata.
    pub fn is_type(&self) -> (b: bool)
        ensures
            b == (self.0 & NON_TYPE_FLAG == 0),
    {
        self.0 & NON_TYPE_FLAG == 0
    }

    /// Returns whether `self` represents the native metadata kind for a
    /// nominal type: a class, a struct, an enum or an optional.
    pub fn is_nominal_type(&self) -> (b: bool)
        ensures
            b == (self.0 == CLASS || self.0 == STRUCT || self.0 == ENUM || self.0 == OPTIONAL),
    {
        self.is_class() || self.is_struct() || self.is_enum() || self.is_optional()
    }

    /// Returns whether `self` is runtime-private.
    ///
    /// External tools should not rely on the stability of these values or
    /// the precise binary layout of their associated data structures.
    pub fn is_runtime_private(&self) -> (b: bool)
        ensures
            b == (self.0 & RUNTIME_PRIVATE_FLAG != 0),
    {
        self.0 & RUNTIME_PRIVATE_FLAG != 0
    }

    /// Returns whether `self` should be treated as an isa pointer.
    pub fn is_isa_ptr(&self) -> (b: bool)
        ensures
            b == (self.0 > LAST_ENUMERATED),
    {
        self.0 > LAST_ENUMERATED
    }

    /// Returns `self` as an isa pointer, or null if it isn't one.
    pub fn to_isa_ptr(self) -> (ptr: usize)
        ensures
            ptr == (if self.0 > LAST_ENUMERATED {
                self.0 as usize
            } else {
                0usize
            }),
    {
        if self.is_isa_ptr() {
            self.0 as usize
        } else {
            0
        }
    }

    /// Returns `true` if `self` is a class type.
    pub fn is_class(&self) -> (b: bool)
        ensures
            b == (self.0 == CLASS),
    {
        self.0 == CLASS
    }

    /// Returns `true` if `self` is a struct type.
    pub fn is_struct(&self) -> (b: bool)
        ensures
            b == (self.0 == STRUCT),
    {
        self.0 == STRUCT
    }

    /// Returns `true` if `self` is an enum type.
    pub fn is_enum(&self) -> (b: bool)
        ensures
            b == (self.0 == ENUM),
    {
        self.0 == ENUM
    }

    /// Returns `true` if `self` is an optional type.
    pub fn is_optional(&self) -> (b: bool)
        ensures
            b == (self.0 == OPTIONAL),
    {
        self.0 == OPTIONAL
    }

    /// Returns `true` if `self` is a foreign class, such as a Core Foundation
    /// class.
    pub fn is_foreign_class(&self) -> (b: bool)
        ensures
            b == (self.0 == FOREIGN_CLASS),
    {
        self.0 == FOREIGN_CLASS
    }

    /// Returns `true` if `self` is a type whose value is not exposed in the
    /// metadata system.
    pub fn is_opaque(&self) -> (b: bool)
        ensures
            b == (self.0 == OPAQUE),
    {
        self.0 == OPAQUE
    }

    /// Returns `true` if `self` is a tuple.
    pub fn is_tuple(&self) -> (b: bool)
        ensures
            b == (self.0 == TUPLE),
    {
        self.0 == TUPLE
    }

    /// Returns `true` if `self` is a monomorphic function.
    pub fn is_function(&self) -> (b: bool)
        ensures
            b == (self.0 == FUNCTION),
    {
        self.0 == FUNCTION
    }

    /// Returns `true` if `self` is an existential type.
    pub fn is_existential(&self) -> (b: bool)
        ensures
            b == (self.0 == EXISTENTIAL),
    {
        self.0 == EXISTENTIAL
    }

    /// Returns `true` if `self` is a metatype.
    pub fn is_metatype(&self) -> (b: bool)
        ensures
            b == (self.0 == METATYPE),
    {
        self.0 == METATYPE
    }

    /// Returns `true` if `self` is an ObjC class wrapper.
    pub fn is_objc_class_wrapper(&self) -> (b: bool)
        ensures
            b == (self.0 == OBJC_CLASS_WRAPPER),
    {
        self.0 == OBJC_CLASS_WRAPPER
    }

    /// Returns `true` if `self` is an existential metatype.
    pub fn is_existential_metatype(&self) -> (b: bool)
        ensures
            b == (self.0 == EXISTENTIAL_METATYPE),
    {
        self.0 == EXISTENTIAL_METATYPE
    }

    /// Returns `true` if `self` is a heap-allocated local variable using
    /// statically-generated metadata.
    pub fn is_heap_local_variable(&self) -> (b: bool)
        ensures
            b == (self.0 == HEAP_LOCAL_VARIABLE),
    {
        self.0 == HEAP_LOCAL_VARIABLE
    }

    /// Returns `true` if `self` is a heap-allocated local variable using
    /// runtime-instantiated metadata.
    pub fn is_heap_generic_local_variable(&self) -> (b: bool)
        ensures
            b == (self.0 == HEAP_GENERIC_LOCAL_VARIABLE),
    {
        self.0 == HEAP_GENERIC_LOCAL_VARIABLE
    }

    /// Returns `true` if `self` is a native error object.
    pub fn is_error_object(&self) -> (b: bool)
        ensures
            b == (self.0 == ERROR_OBJECT),
    {
        self.0 == ERROR_OBJECT
    }
}

/// The nominal kinds are types, and none of them is private to the runtime
/// or an isa pointer.
pub proof fn lemma_nominal_kinds_are_types(kind: MetadataKind)
    requires
        kind.0 == CLASS || kind.0 == STRUCT || kind.0 == ENUM || kind.0 == OPTIONAL,
    ensures
        kind.0 & NON_TYPE_FLAG == 0,
        kind.0 & RUNTIME_PRIVATE_FLAG == 0,
        kind.0 <= LAST_ENUMERATED,
{
    let k = kind.0;
    assert(k == 0 || k == (0 | 0x200) || k == (1 | 0x200) || k == (2 | 0x200) ==> k & 0x400 == 0
        && k & 100 == 0 && k <= 0x7FF) by (bit_vector);
}

} // verus!
