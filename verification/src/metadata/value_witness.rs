//! Functions for value type semantics.
//!
//! A value witness table says how the values of one type are copied, moved
//! and destroyed by code that knows nothing else of the type, and records
//! the layout of the type.  A buffer is an `Option`: `None` is memory that
//! holds no value of the type, `Some` is a valid value.

use vstd::prelude::*;
use crate::heap::{value_view, Heap, OpaqueValue};
use crate::model::{count, lemma_retain_all_covered, ValueModel};

verus! {

/// The bits of the flags that hold the alignment mask.
pub const ALIGNMENT_MASK: u32 = 0x0000_00FF;

/// Set in the flags if the type is not plain data.
pub const IS_NON_POD: u32 = 0x0001_0000;

/// Set in the flags if a value does not fit a fixed-size buffer.
pub const IS_NON_INLINE: u32 = 0x0002_0000;

/// Set in the flags if the type has enum witnesses.
pub const HAS_ENUM_WITNESSES: u32 = 0x0020_0000;

/// The size of a strong reference in a value: one word of eight bytes.
pub const REFERENCE_SIZE: usize = 8;

/// How the values of a type behave when they are copied and destroyed.
#[derive(Clone, Copy, Debug, PartialEq, Eq, Structural)]
pub enum ValueSemantics {
    /// Plain data: a copy is the same bytes, and destroying does nothing.
    Trivial,
    /// A strong reference: a copy retains the object, and destroying
    /// releases it.
    Reference,
    /// Plain data and strong references together: a copy retains every
    /// object that is referred to, and destroying releases every one.
    Aggregate,
}

/// A table of the operations that implement value semantics of a type,
/// with the size, alignment, stride and other fundamental properties of
/// the type.
#[derive(Clone, Copy, Debug, PartialEq, Eq, Structural)]
pub struct ValueWitnessTable {
    /// How values are copied and destroyed.
    pub semantics: ValueSemantics,
    /// The required storage size of a single object of this type.
    pub size: usize,
    /// The required size per element of an array of this type.  It is at
    /// least one, even for zero-sized types.
    pub stride: usize,
    /// The alignment mask in the low bits, and the flag bits above it.
    pub flags: u32,
    /// The number of extra inhabitants in the type.
    pub extra_inhabitant_count: u32,
}

impl ValueWitnessTable {
    /// The stride is at least one and at least the size, and the flags say
    /// that the type is plain data exactly if it is.
    pub open spec fn wf(self) -> bool {
        &&& self.stride >= 1
        &&& self.stride >= self.size
        &&& self.semantics == ValueSemantics::Trivial <==> self.flags & IS_NON_POD == 0
    }

    /// Whether `value` is a value of the type of this table: it fills the
    /// table's size, a reference taking a word, and it is plain data
    /// without a reference, or one reference without data, or data and
    /// references together.
    pub open spec fn conforms(self, value: ValueModel) -> bool {
        &&& value.bytes.len() + REFERENCE_SIZE * value.references.len() == self.size
        &&& match self.semantics {
            ValueSemantics::Trivial => value.references.len() == 0,
            ValueSemantics::Reference => value.references.len() == 1 && value.bytes.len() == 0,
            ValueSemantics::Aggregate => true,
        }
    }

    /// Whether `value` is a value of the type of this table.
    pub fn accepts(&self, value: &OpaqueValue) -> (b: bool)
        ensures
            b == self.conforms(value@),
    {
        let references = value.references.len();
        let bytes = value.bytes.len();
        let fits = references <= usize::MAX / REFERENCE_SIZE && bytes <= usize::MAX
            - REFERENCE_SIZE * references && bytes + REFERENCE_SIZE * references == self.size;
        fits && match self.semantics {
            ValueSemantics::Trivial => references == 0,
            ValueSemantics::Reference => references == 1 && bytes == 0,
            ValueSemantics::Aggregate => true,
        }
    }

    /// Creates the table of a type, or `None` if the layout facts
    /// contradict each other.
    pub fn new(
        semantics: ValueSemantics,
        size: usize,
        stride: usize,
        flags: u32,
        extra_inhabitant_count: u32,
    ) -> (table: Option<Self>)
        ensures
            table is Some <==> (ValueWitnessTable {
                semantics,
                size,
                stride,
                flags,
                extra_inhabitant_count,
            }).wf(),
            table matches Some(made) ==> made == (ValueWitnessTable {
                semantics,
                size,
                stride,
                flags,
                extra_inhabitant_count,
            }),
    {
        let plain = match semantics {
            ValueSemantics::Trivial => true,
            _ => false,
        };
        if stride >= 1 && stride >= size && plain == (flags & IS_NON_POD == 0) {
            Some(ValueWitnessTable { semantics, size, stride, flags, extra_inhabitant_count })
        } else {
            None
        }
    }

    /// The alignment of the first byte of a value, as a mask of the low
    /// bits that must not be set in its address.
    pub fn alignment_mask(&self) -> (mask: u32)
        ensures
            mask == self.flags & ALIGNMENT_MASK,
            mask <= 0xFF,
    {
        let flags = self.flags;
        assert(flags & 0xFF <= 0xFF) by (bit_vector);
        flags & ALIGNMENT_MASK
    }

    /// Whether the type is plain data.
    pub fn is_pod(&self) -> (pod: bool)
        ensures
            pod == (self.flags & IS_NON_POD == 0),
            self.wf() ==> pod == (self.semantics == ValueSemantics::Trivial),
    {
        self.flags & IS_NON_POD == 0
    }

    /// Whether a value fits a fixed-size buffer.
    pub fn is_inline(&self) -> (inline: bool)
        ensures
            inline == (self.flags & IS_NON_INLINE == 0),
    {
        self.flags & IS_NON_INLINE == 0
    }

    /// Whether the type has enum witnesses.
    pub fn has_enum_witnesses(&self) -> (has: bool)
        ensures
            has == (self.flags & HAS_ENUM_WITNESSES != 0),
    {
        self.flags & HAS_ENUM_WITNESSES != 0
    }

    /// Given an invalid buffer `dest`, initializes it as a copy of the
    /// value in the `src` buffer.  Both are valid afterwards.
    pub fn initialize_buffer_with_copy_of_buffer(
        &self,
        heap: &mut Heap,
        dest: &mut Option<OpaqueValue>,
        src: &Option<OpaqueValue>,
    )
        requires
            old(heap).wf(),
            *old(dest) is None,
            src matches Some(value) && self.conforms(value@) && old(heap)@.holds(value@),
            forall|a: usize|
                #![trigger old(heap)@.at(a)]
                old(heap)@.has(a) ==> old(heap)@.at(a).counts.strong + count(
                    value_view(*src)->0.references,
                    a,
                ) <= usize::MAX,
        ensures
            final(heap).wf(),
            final(heap)@ == old(heap)@.retain_all(value_view(*src)->0.references),
            value_view(*final(dest)) == value_view(*src),
            final(heap)@.owns(value_view(*final(dest))->0),
    {
        self.initialize_with_copy(heap, dest, src)
    }

    /// Given a valid value, destroys it, leaving the buffer invalid.
    pub fn destroy(&self, heap: &mut Heap, object: &mut Option<OpaqueValue>)
        requires
            old(heap).wf(),
            *old(object) matches Some(value) && self.conforms(value@) && old(heap)@.owns(value@),
        ensures
            final(heap).wf(),
            final(heap)@ == old(heap)@.release_all(value_view(*old(object))->0.references),
            *final(object) is None,
    {
        match object.take() {
            Some(value) => heap.destroy_value(value),
            None => {},
        }
    }

    /// Given an invalid buffer `dest`, initializes it as a copy of the
    /// `src` value.  Both are valid afterwards.
    pub fn initialize_with_copy(
        &self,
        heap: &mut Heap,
        dest: &mut Option<OpaqueValue>,
        src: &Option<OpaqueValue>,
    )
        requires
            old(heap).wf(),
            *old(dest) is None,
            src matches Some(value) && self.conforms(value@) && old(heap)@.holds(value@),
            forall|a: usize|
                #![trigger old(heap)@.at(a)]
                old(heap)@.has(a) ==> old(heap)@.at(a).counts.strong + count(
                    value_view(*src)->0.references,
                    a,
                ) <= usize::MAX,
        ensures
            final(heap).wf(),
            final(heap)@ == old(heap)@.retain_all(value_view(*src)->0.references),
            value_view(*final(dest)) == value_view(*src),
            final(heap)@.owns(value_view(*final(dest))->0),
    {
        match src {
            Some(value) => {
                *dest = Some(heap.copy_value(value));
            },
            None => {},
        }
    }

    /// Given a valid value in `dest`, changes it to be a copy of the `src`
    /// value.  The value that was in `dest` is destroyed; both buffers are
    /// valid afterwards.
    pub fn assign_with_copy(
        &self,
        heap: &mut Heap,
        dest: &mut Option<OpaqueValue>,
        src: &Option<OpaqueValue>,
    )
        requires
            old(heap).wf(),
            *old(dest) matches Some(held) && self.conforms(held@) && old(heap)@.owns(held@),
            src matches Some(value) && self.conforms(value@) && old(heap)@.holds(value@),
            forall|a: usize|
                #![trigger old(heap)@.at(a)]
                old(heap)@.has(a) ==> old(heap)@.at(a).counts.strong + count(
                    value_view(*src)->0.references,
                    a,
                ) <= usize::MAX,
        ensures
            final(heap).wf(),
            final(heap)@ == old(heap)@.retain_all(value_view(*src)->0.references).release_all(
                value_view(*old(dest))->0.references,
            ),
            value_view(*final(dest)) == value_view(*src),
    {
        match src {
            Some(value) => {
                let ghost before = heap@;
                let copy = heap.copy_value(value);
                proof {
                    lemma_retain_all_covered(
                        before,
                        value@.references,
                        value_view(*old(dest))->0.references,
                    );
                }
                match dest.take() {
                    Some(held) => heap.destroy_value(held),
                    None => {},
                }
                *dest = Some(copy);
            },
            None => {},
        }
    }

    /// Given an invalid buffer `dest`, initializes it by taking the value
    /// of `src`, which becomes invalid.
    pub fn initialize_with_take(
        &self,
        dest: &mut Option<OpaqueValue>,
        src: &mut Option<OpaqueValue>,
    )
        requires
            *old(dest) is None,
            *old(src) matches Some(value) && self.conforms(value@),
        ensures
            *final(dest) == *old(src),
            *final(src) is None,
    {
        *dest = src.take();
    }

    /// Given a valid value in `dest`, replaces it by the value of `src`,
    /// which becomes invalid.  The value that was in `dest` is destroyed.
    pub fn assign_with_take(
        &self,
        heap: &mut Heap,
        dest: &mut Option<OpaqueValue>,
        src: &mut Option<OpaqueValue>,
    )
        requires
            old(heap).wf(),
            *old(dest) matches Some(held) && self.conforms(held@) && old(heap)@.owns(held@),
            *old(src) matches Some(value) && self.conforms(value@),
        ensures
            final(heap).wf(),
            final(heap)@ == old(heap)@.release_all(value_view(*old(dest))->0.references),
            *final(dest) == *old(src),
            *final(src) is None,
    {
        match dest.take() {
            Some(held) => heap.destroy_value(held),
            None => {},
        }
        *dest = src.take();
    }

    /// Given a single-payload enum whose payload is of this table's type,
    /// returns the case that it holds: zero for the case with the payload,
    /// and the number of an empty case else.
    pub fn get_enum_tag_single_payload(&self, value: &EnumBuffer, empty_cases: u32) -> (tag: u32)
        requires
            value.single_payload(*self, empty_cases),
        ensures
            tag == value->tag,
            tag <= empty_cases,
            tag == 0 <==> value->payload is Some,
    {
        match value {
            EnumBuffer::Case { tag, .. } => *tag,
            EnumBuffer::Payload(_) => 0,
        }
    }

    /// Given memory for a single-payload enum whose payload is of this
    /// table's type, stores the case.  The memory holds the payload if the
    /// case is the one with the payload, and nothing else.
    pub fn store_enum_tag_single_payload(
        &self,
        value: &mut EnumBuffer,
        which_case: u32,
        empty_cases: u32,
    )
        requires
            which_case <= empty_cases,
            *old(value) matches EnumBuffer::Payload(payload) && (which_case == 0 <==> payload
                is Some) && (payload matches Some(inner) ==> self.conforms(inner@)),
        ensures
            final(value).single_payload(*self, empty_cases),
            *final(value) == (EnumBuffer::Case { tag: which_case, payload: old(value)->0 }),
    {
        let payload = match value {
            EnumBuffer::Payload(payload) => payload.take(),
            EnumBuffer::Case { payload, .. } => payload.take(),
        };
        *value = EnumBuffer::Case { tag: which_case, payload };
    }
}

/// Memory for a value of an enum type: either the enum value, a case with
/// its payload, or the bare payload that is left when the case has been
/// projected away or is not stored yet.
#[derive(Debug)]
pub enum EnumBuffer {
    /// An enum value.
    Case {
        /// Which case is inhabited.
        tag: u32,
        /// The payload of the case, if it has one.
        payload: Option<OpaqueValue>,
    },
    /// A payload without its case.
    Payload(Option<OpaqueValue>),
}

impl EnumBuffer {
    /// Whether `self` is a value of the enum with one payload case, of the
    /// type of `table`, and `empty_cases` cases without a payload.
    pub open spec fn single_payload(self, table: ValueWitnessTable, empty_cases: u32) -> bool {
        &&& self matches EnumBuffer::Case { tag, payload }
        &&& tag <= empty_cases
        &&& tag == 0 <==> payload is Some
        &&& payload matches Some(inner) ==> table.conforms(inner@)
    }
}

/// A value-witness table with enum entry points.
#[derive(Clone, Copy, Debug, PartialEq, Eq, Structural)]
pub struct EnumValueWitnessTable {
    /// The base value witness table.
    pub base: ValueWitnessTable,
    /// The number of cases of the enum.
    pub num_elements: u32,
}

impl EnumValueWitnessTable {
    /// Whether `value` is a value of the enum of this table.
    pub open spec fn inhabited(self, value: EnumBuffer) -> bool {
        value matches EnumBuffer::Case { tag, .. } && tag < self.num_elements
    }

    /// Given a valid value of this enum type, extracts the tag value
    /// indicating which case of the enum is inhabited.
    pub fn get_enum_tag(&self, obj: &EnumBuffer) -> (tag: u32)
        requires
            self.inhabited(*obj),
        ensures
            tag == obj->tag,
            tag < self.num_elements,
    {
        match obj {
            EnumBuffer::Case { tag, .. } => *tag,
            EnumBuffer::Payload(_) => 0,
        }
    }

    /// Given a valid value of this enum type, destructively extracts the
    /// associated payload.
    pub fn destructive_project_enum_data(&self, obj: &mut EnumBuffer)
        requires
            self.inhabited(*old(obj)),
        ensures
            *final(obj) == EnumBuffer::Payload(old(obj)->payload),
    {
        let payload = match obj {
            EnumBuffer::Payload(payload) => payload.take(),
            EnumBuffer::Case { payload, .. } => payload.take(),
        };
        *obj = EnumBuffer::Payload(payload);
    }

    /// Given an enum case tag and a valid value of the case's payload type,
    /// destructively inserts the tag into the payload.
    pub fn destructive_inject_enum_data(&self, obj: &mut EnumBuffer, tag: u32)
        requires
            *old(obj) is Payload,
            tag < self.num_elements,
        ensures
            *final(obj) == (EnumBuffer::Case { tag, payload: old(obj)->0 }),
            self.inhabited(*final(obj)),
    {
        let payload = match obj {
            EnumBuffer::Payload(payload) => payload.take(),
            EnumBuffer::Case { payload, .. } => payload.take(),
        };
        *obj = EnumBuffer::Case { tag, payload };
    }
}

} // verus!
