//! Objects and the handles that refer to them.

use vstd::prelude::*;
use vstd::utf8::{encode_utf8_decode_utf8, encode_utf8_valid_utf8};
use crate::heap::{get_type_name, BoxPair, Heap, HeapObject, OpaqueValue, HEADER_SIZE};
use crate::metadata::kind::MetadataKind;
use crate::metadata::value_witness::{
    EnumValueWitnessTable, ValueWitnessTable, HAS_ENUM_WITNESSES,
};
use crate::model::count;
use crate::string::str_from_utf8;
use crate::model::{ObjectModel, Phase, ValueModel};

verus! {

/// An object that may be owned or unowned: the header, and what the arena
/// keeps beside it.
#[derive(Debug)]
pub struct Object {
    /// The header.
    pub header: HeapObject,
    /// The address under which the arena holds the object.
    pub address: usize,
    /// The object's phase.
    pub phase: Phase,
    /// The payload, where it is initialised and not yet destroyed.
    pub payload: Option<OpaqueValue>,
    /// How often a release has torn the payload down.
    pub teardowns: usize,
    /// The size that the object was allocated with.
    pub size: usize,
    /// The alignment mask that the object was allocated with.
    pub align_mask: usize,
}

impl View for Object {
    type V = ObjectModel;

    open spec fn view(&self) -> ObjectModel {
        ObjectModel {
            metadata: self.header.metadata,
            counts: self.header.ref_counts,
            phase: self.phase,
            payload: match self.payload {
                Some(value) => Some(value@),
                None => None::<ValueModel>,
            },
            teardowns: self.teardowns as nat,
            size: self.size,
            align_mask: self.align_mask,
        }
    }
}

impl Object {
    /// Returns the address of `self`.
    pub fn as_ptr(&self) -> (address: usize)
        ensures
            address == self.address,
    {
        self.address
    }

    /// Returns the strong retain count of `self`.
    pub fn strong_retain_count(&self) -> (count: usize)
        ensures
            count == self@.counts.strong,
    {
        self.header.ref_counts.strong
    }

    /// Returns the unowned retain count of `self`.
    pub fn unowned_retain_count(&self) -> (count: usize)
        ensures
            count == self@.counts.unowned,
    {
        self.header.ref_counts.unowned
    }

    /// Returns the weak retain count of `self`.
    pub fn weak_retain_count(&self) -> (count: usize)
        ensures
            count == self@.counts.weak,
    {
        self.header.ref_counts.weak
    }
}

/// An owned object: a handle that holds one strong reference.
///
/// The handle is made from an address whose strong reference the caller
/// already holds.  Cloning retains, dropping releases, and both need the
/// arena, so they are methods that take it.
#[derive(Debug)]
pub struct Owned {
    address: usize,
}

impl View for Owned {
    type V = usize;

    closed spec fn view(&self) -> usize {
        self.address
    }
}

impl Owned {
    #[verifier::type_invariant]
    spec fn non_null(self) -> bool {
        self.address != 0
    }

    /// Creates a new instance from `ptr`, the address of an object of which
    /// the caller holds a strong reference.
    pub fn from_ptr(ptr: usize) -> (owned: Self)
        requires
            ptr != 0,
        ensures
            owned@ == ptr,
    {
        Owned { address: ptr }
    }

    /// Returns the address of the object.
    pub fn as_ptr(&self) -> (ptr: usize)
        ensures
            ptr == self@,
    {
        self.address
    }

    /// Returns the address of the object, which is never zero.
    pub fn as_non_null(&self) -> (ptr: usize)
        ensures
            ptr == self@,
            ptr != 0,
    {
        proof {
            use_type_invariant(self);
        }
        self.address
    }

    /// Returns a shared reference to the underlying object.
    pub fn as_obj<'a>(&self, heap: &'a Heap) -> (object: &'a Object)
        requires
            heap.wf(),
            heap@.allocated(self@),
        ensures
            object@ == heap@.at(self@),
            object.address == self@,
    {
        heap.object(self.address)
    }

    /// Returns the strong retain count of `self`.
    pub fn retain_count(&self, heap: &Heap) -> (count: usize)
        requires
            heap@.allocated(self@),
        ensures
            count == heap@.at(self@).counts.strong,
    {
        heap.retain_count(self.address)
    }

    /// Increments the strong retain count of `self`.
    pub fn retain(&self, heap: &mut Heap)
        requires
            old(heap).wf(),
            old(heap)@.live(self@),
            old(heap)@.at(self@).counts.strong < usize::MAX,
        ensures
            final(heap).wf(),
            final(heap)@ == old(heap)@.retain(self@, 1),
    {
        heap.retain(self.address);
    }

    /// Increments the strong retain count of `self` by `n`.
    pub fn retain_n(&self, heap: &mut Heap, n: u32)
        requires
            old(heap).wf(),
            old(heap)@.live(self@),
            old(heap)@.at(self@).counts.strong + n <= usize::MAX,
        ensures
            final(heap).wf(),
            final(heap)@ == old(heap)@.retain(self@, n as int),
    {
        heap.retain_n(self.address, n);
    }

    /// Increments the strong retain count of `self`, for a caller that
    /// knows that nobody else is using the object.
    pub fn nonatomic_retain(&self, heap: &mut Heap)
        requires
            old(heap).wf(),
            old(heap)@.live(self@),
            old(heap)@.at(self@).counts.strong < usize::MAX,
        ensures
            final(heap).wf(),
            final(heap)@ == old(heap)@.retain(self@, 1),
    {
        heap.nonatomic_retain(self.address);
    }

    /// Increments the strong retain count of `self` by `n`, for a caller
    /// that knows that nobody else is using the object.
    pub fn nonatomic_retain_n(&self, heap: &mut Heap, n: u32)
        requires
            old(heap).wf(),
            old(heap)@.live(self@),
            old(heap)@.at(self@).counts.strong + n <= usize::MAX,
        ensures
            final(heap).wf(),
            final(heap)@ == old(heap)@.retain(self@, n as int),
    {
        heap.nonatomic_retain_n(self.address, n);
    }

    /// Makes a second handle for the same object, which retains it.
    pub fn clone(&self, heap: &mut Heap) -> (owned: Self)
        requires
            old(heap).wf(),
            old(heap)@.live(self@),
            old(heap)@.at(self@).counts.strong < usize::MAX,
        ensures
            final(heap).wf(),
            final(heap)@ == old(heap)@.retain(self@, 1),
            final(heap)@.held(self@) == old(heap)@.held(self@),
            owned@ == self@,
    {
        proof {
            use_type_invariant(self);
        }
        heap.retain(self.address);
        Owned { address: self.address }
    }

    /// Clones `self`, for a caller that knows that nobody else is using the
    /// object.
    pub fn nonatomic_clone(&self, heap: &mut Heap) -> (owned: Self)
        requires
            old(heap).wf(),
            old(heap)@.live(self@),
            old(heap)@.at(self@).counts.strong < usize::MAX,
        ensures
            final(heap).wf(),
            final(heap)@ == old(heap)@.retain(self@, 1),
            final(heap)@.held(self@) == old(heap)@.held(self@),
            owned@ == self@,
    {
        proof {
            use_type_invariant(self);
        }
        heap.nonatomic_retain(self.address);
        Owned { address: self.address }
    }

    /// Decrements the strong retain count of `self`.  The handle stays; it
    /// is for the caller to see that it is not used for a reference that is
    /// gone.
    pub fn release(&self, heap: &mut Heap)
        requires
            old(heap).wf(),
            old(heap)@.releasable(self@),
        ensures
            final(heap).wf(),
            final(heap)@ == old(heap)@.release(self@),
    {
        heap.release(self.address);
    }

    /// Gives the handle up, which releases its strong reference.
    pub fn drop(self, heap: &mut Heap)
        requires
            old(heap).wf(),
            old(heap)@.releasable(self@),
        ensures
            final(heap).wf(),
            final(heap)@ == old(heap)@.release(self@),
    {
        heap.release(self.address);
    }

    /// Raises the deallocating flag.  The strong count of `self` must be
    /// one, and that one reference the caller's.
    pub fn set_deallocating(&self, heap: &mut Heap)
        requires
            old(heap).wf(),
            old(heap)@.releasable(self@),
            old(heap)@.at(self@).counts.strong == 1,
        ensures
            final(heap).wf(),
            final(heap)@ == old(heap)@.set_deallocating(self@),
    {
        heap.set_deallocating(self.address);
    }
}

/// An unowned object: a handle that holds one unowned reference.  It keeps
/// the header of the object, not the payload.
#[derive(Debug)]
pub struct Unowned {
    address: usize,
}

impl View for Unowned {
    type V = usize;

    closed spec fn view(&self) -> usize {
        self.address
    }
}

impl Unowned {
    #[verifier::type_invariant]
    spec fn non_null(self) -> bool {
        self.address != 0
    }

    /// Creates a new instance from `ptr`, the address of an object of which
    /// the caller holds an unowned reference.
    pub fn from_ptr(ptr: usize) -> (unowned: Self)
        requires
            ptr != 0,
        ensures
            unowned@ == ptr,
    {
        Unowned { address: ptr }
    }

    /// Returns the address of the object.
    pub fn as_ptr(&self) -> (ptr: usize)
        ensures
            ptr == self@,
            ptr != 0,
    {
        proof {
            use_type_invariant(self);
        }
        self.address
    }

    /// Returns a shared reference to the underlying object, whose payload
    /// may be destroyed.
    pub fn as_obj<'a>(&self, heap: &'a Heap) -> (object: &'a Object)
        requires
            heap.wf(),
            heap@.allocated(self@),
        ensures
            object@ == heap@.at(self@),
            object.address == self@,
    {
        heap.object(self.address)
    }

    /// Returns the unowned retain count of `self`.
    pub fn retain_count(&self, heap: &Heap) -> (count: usize)
        requires
            heap@.allocated(self@),
        ensures
            count == heap@.at(self@).counts.unowned,
    {
        heap.unowned_retain_count(self.address)
    }

    /// Increments the unowned retain count of `self`.
    pub fn retain(&self, heap: &mut Heap)
        requires
            old(heap).wf(),
            old(heap)@.allocated(self@),
            old(heap)@.at(self@).counts.unowned < usize::MAX,
        ensures
            final(heap).wf(),
            final(heap)@ == old(heap)@.unowned_retain(self@, 1),
    {
        heap.unowned_retain(self.address);
    }

    /// Increments the unowned retain count of `self` by `n`.
    pub fn retain_n(&self, heap: &mut Heap, n: u32)
        requires
            old(heap).wf(),
            old(heap)@.allocated(self@),
            old(heap)@.at(self@).counts.unowned + n <= usize::MAX,
        ensures
            final(heap).wf(),
            final(heap)@ == old(heap)@.unowned_retain(self@, n as int),
    {
        heap.unowned_retain_n(self.address, n);
    }

    /// Increments the unowned retain count of `self`, for a caller that
    /// knows that nobody else is using the object.
    pub fn nonatomic_retain(&self, heap: &mut Heap)
        requires
            old(heap).wf(),
            old(heap)@.allocated(self@),
            old(heap)@.at(self@).counts.unowned < usize::MAX,
        ensures
            final(heap).wf(),
            final(heap)@ == old(heap)@.unowned_retain(self@, 1),
    {
        heap.nonatomic_unowned_retain(self.address);
    }

    /// Increments the unowned retain count of `self` by `n`, for a caller
    /// that knows that nobody else is using the object.
    pub fn nonatomic_retain_n(&self, heap: &mut Heap, n: u32)
        requires
            old(heap).wf(),
            old(heap)@.allocated(self@),
            old(heap)@.at(self@).counts.unowned + n <= usize::MAX,
        ensures
            final(heap).wf(),
            final(heap)@ == old(heap)@.unowned_retain(self@, n as int),
    {
        heap.nonatomic_unowned_retain_n(self.address, n);
    }

    /// Makes a second handle for the same object, which retains it unowned.
    pub fn clone(&self, heap: &mut Heap) -> (unowned: Self)
        requires
            old(heap).wf(),
            old(heap)@.allocated(self@),
            old(heap)@.at(self@).counts.unowned < usize::MAX,
        ensures
            final(heap).wf(),
            final(heap)@ == old(heap)@.unowned_retain(self@, 1),
            unowned@ == self@,
    {
        proof {
            use_type_invariant(self);
        }
        heap.unowned_retain(self.address);
        Unowned { address: self.address }
    }

    /// Clones `self`, for a caller that knows that nobody else is using the
    /// object.
    pub fn nonatomic_clone(&self, heap: &mut Heap) -> (unowned: Self)
        requires
            old(heap).wf(),
            old(heap)@.allocated(self@),
            old(heap)@.at(self@).counts.unowned < usize::MAX,
        ensures
            final(heap).wf(),
            final(heap)@ == old(heap)@.unowned_retain(self@, 1),
            unowned@ == self@,
    {
        proof {
            use_type_invariant(self);
        }
        heap.nonatomic_unowned_retain(self.address);
        Unowned { address: self.address }
    }

    /// Decrements the unowned retain count of `self`.
    pub fn release(&self, heap: &mut Heap)
        requires
            old(heap).wf(),
            old(heap)@.allocated(self@),
            old(heap)@.at(self@).counts.unowned > 1,
        ensures
            final(heap).wf(),
            final(heap)@ == old(heap)@.unowned_release(self@, 1),
    {
        heap.unowned_release(self.address);
    }

    /// Gives the handle up, which releases its unowned reference.
    pub fn drop(self, heap: &mut Heap)
        requires
            old(heap).wf(),
            old(heap)@.allocated(self@),
            old(heap)@.at(self@).counts.unowned > 1,
        ensures
            final(heap).wf(),
            final(heap)@ == old(heap)@.unowned_release(self@, 1),
    {
        heap.unowned_release(self.address);
    }
}

/// A weak object: a handle that owns one weak reference slot.
///
/// A weak handle cannot be cloned: a second handle would need a slot of its
/// own, bound anew, and the type offers no way to copy one.
#[derive(Debug)]
pub struct Weak {
    slot: usize,
}

impl View for Weak {
    type V = usize;

    closed spec fn view(&self) -> usize {
        self.slot
    }
}

impl Weak {
    #[verifier::type_invariant]
    spec fn non_null(self) -> bool {
        self.slot != 0
    }

    /// Creates a new instance from `ptr`, the address of a weak reference
    /// slot that the caller owns.
    pub fn from_ptr(ptr: usize) -> (weak: Self)
        requires
            ptr != 0,
        ensures
            weak@ == ptr,
    {
        Weak { slot: ptr }
    }

    /// Returns the address of the slot.
    pub fn as_ptr(&self) -> (ptr: usize)
        ensures
            ptr == self@,
            ptr != 0,
    {
        proof {
            use_type_invariant(self);
        }
        self.slot
    }

    /// Loads the underlying object from `self`, or returns `None` if its
    /// last strong reference is gone.  The handle that is returned holds a
    /// strong reference of its own.
    pub fn load(&self, heap: &mut Heap) -> (loaded: Option<Owned>)
        requires
            old(heap).wf(),
            old(heap)@.has_slot(self@),
            old(heap)@.loaded(self@) != 0 ==> old(heap)@.at(
                old(heap)@.target(self@),
            ).counts.strong < usize::MAX,
        ensures
            final(heap).wf(),
            final(heap)@ == old(heap)@.weak_load_strong(self@),
            loaded is Some <==> old(heap)@.loaded(self@) != 0,
            loaded matches Some(owned) ==> owned@ == old(heap)@.loaded(self@),
            loaded matches Some(owned) ==> final(heap)@.releasable(owned@),
    {
        let object = heap.weak_load_strong(self.slot);
        if object == 0 {
            None
        } else {
            Some(Owned { address: object })
        }
    }

    /// Consumes `self`, returning the underlying object or `None` if its
    /// last strong reference is gone.  The slot is destroyed.
    pub fn take(self, heap: &mut Heap) -> (loaded: Option<Owned>)
        requires
            old(heap).wf(),
            old(heap)@.has_slot(self@),
            old(heap)@.loaded(self@) != 0 ==> old(heap)@.at(
                old(heap)@.target(self@),
            ).counts.strong < usize::MAX,
        ensures
            final(heap).wf(),
            final(heap)@ == old(heap)@.weak_take_strong(self@),
            loaded is Some <==> old(heap)@.loaded(self@) != 0,
            loaded matches Some(owned) ==> owned@ == old(heap)@.loaded(self@),
            loaded matches Some(owned) ==> final(heap)@.releasable(owned@),
    {
        let object = heap.weak_take_strong(self.slot);
        if object == 0 {
            None
        } else {
            Some(Owned { address: object })
        }
    }

    /// Gives the handle up, which destroys its slot.
    pub fn drop(self, heap: &mut Heap)
        requires
            old(heap).wf(),
            old(heap)@.has_slot(self@),
        ensures
            final(heap).wf(),
            final(heap)@ == old(heap)@.weak_destroy(self@),
    {
        heap.weak_destroy(self.slot);
    }
}

/// The metadata of some type: where it lies, what kind of record it is,
/// what the type is called, and how its values are handled.  The enum
/// witnesses stand beside the value witnesses, for the types that have
/// them.
#[derive(Debug)]
pub struct MetaType {
    address: usize,
    kind: MetadataKind,
    name: String,
    qualified_name: String,
    value_witnesses: ValueWitnessTable,
    enum_witnesses: Option<EnumValueWitnessTable>,
}

impl View for MetaType {
    type V = usize;

    closed spec fn view(&self) -> usize {
        self.address
    }
}

impl MetaType {
    #[verifier::type_invariant]
    spec fn inv(self) -> bool {
        self.address != 0 && Self::witnesses_agree(self.value_witnesses, self.enum_witnesses)
    }

    /// Whether the enum witnesses belong to the value witnesses: a type has
    /// enum witnesses exactly if its flags say so, and their base is the
    /// type's value witness table.
    pub open spec fn witnesses_agree(
        value_witnesses: ValueWitnessTable,
        enum_witnesses: Option<EnumValueWitnessTable>,
    ) -> bool {
        &&& enum_witnesses is Some <==> value_witnesses.flags & HAS_ENUM_WITNESSES != 0
        &&& enum_witnesses matches Some(table) ==> table.base == value_witnesses
    }

    /// The name of the type, with the module in front if `qualified` is
    /// set.
    pub closed spec fn spec_name(self, qualified: bool) -> Seq<char> {
        if qualified {
            self.qualified_name@
        } else {
            self.name@
        }
    }

    /// The kind of the record.
    pub closed spec fn spec_kind(self) -> MetadataKind {
        self.kind
    }

    /// The value witnesses of the type.
    pub closed spec fn spec_value_witnesses(self) -> ValueWitnessTable {
        self.value_witnesses
    }

    /// The enum witnesses of the type, if it has them.
    pub closed spec fn spec_enum_witnesses(self) -> Option<EnumValueWitnessTable> {
        self.enum_witnesses
    }

    /// Creates the metadata of a type, or nothing if the address is null
    /// or the enum witnesses do not belong to the value witnesses.
    pub fn new(
        address: usize,
        kind: MetadataKind,
        name: String,
        qualified_name: String,
        value_witnesses: ValueWitnessTable,
        enum_witnesses: Option<EnumValueWitnessTable>,
    ) -> (made: Option<Self>)
        ensures
            made is Some <==> address != 0 && Self::witnesses_agree(
                value_witnesses,
                enum_witnesses,
            ),
            made matches Some(ty) ==> {
                &&& ty@ == address
                &&& ty.spec_kind() == kind
                &&& ty.spec_name(false) == name@
                &&& ty.spec_name(true) == qualified_name@
                &&& ty.spec_value_witnesses() == value_witnesses
                &&& ty.spec_enum_witnesses() == enum_witnesses
            },
    {
        let agree = match &enum_witnesses {
            Some(table) => value_witnesses.has_enum_witnesses() && same_table(
                &table.base,
                &value_witnesses,
            ),
            None => !value_witnesses.has_enum_witnesses(),
        };
        if address != 0 && agree {
            Some(
                MetaType { address, kind, name, qualified_name, value_witnesses, enum_witnesses },
            )
        } else {
            None
        }
    }

    /// Returns the enum witnesses of the type, if it has them.
    pub fn enum_witnesses(&self) -> (table: Option<EnumValueWitnessTable>)
        ensures
            table == self.spec_enum_witnesses(),
            table is Some <==> self.spec_value_witnesses().flags & HAS_ENUM_WITNESSES != 0,
            table matches Some(witnesses) ==> witnesses.base == self.spec_value_witnesses(),
    {
        proof {
            use_type_invariant(self);
        }
        self.enum_witnesses
    }

    /// Allocates a box that can hold a value of this type: an object with
    /// a strong count of one whose payload is not initialised yet.
    pub fn alloc_box(&self, heap: &mut Heap) -> (pair: BoxPair)
        requires
            old(heap).wf(),
            HEADER_SIZE + self.spec_value_witnesses().size <= usize::MAX,
        ensures
            final(heap).wf(),
            final(heap)@ == old(heap)@.allocate(
                self@,
                (HEADER_SIZE + self.spec_value_witnesses().size) as usize,
                (self.spec_value_witnesses().flags & 0xFF) as usize,
            ),
            pair.object == old(heap)@.objects.len() + 1,
            pair.buffer == pair.object,
            final(heap)@.releasable(pair.object),
    {
        proof {
            use_type_invariant(self);
        }
        let mask = self.value_witnesses.alignment_mask();
        heap.alloc_box(self.address, self.value_witnesses.size, mask as usize)
    }

    /// Makes the reference to a box of this type that `buffer` holds the
    /// only one, as [`Heap::make_box_unique`] does.
    pub fn make_box_unique(&self, heap: &mut Heap, buffer: &mut usize, align_mask: usize) -> (pair:
        BoxPair)
        requires
            old(heap).wf(),
            old(heap)@.releasable(*old(buffer)),
            HEADER_SIZE + self.spec_value_witnesses().size <= usize::MAX,
            forall|a: usize|
                #![trigger old(heap)@.at(a)]
                old(heap)@.has(a) ==> old(heap)@.at(a).counts.strong + count(
                    old(heap)@.at(*old(buffer)).references(),
                    a,
                ) <= usize::MAX,
        ensures
            final(heap).wf(),
            final(heap)@ == old(heap)@.make_box_unique(
                *old(buffer),
                self@,
                (HEADER_SIZE + self.spec_value_witnesses().size) as usize,
                align_mask,
            ),
            pair.object == *final(buffer),
            pair.buffer == pair.object,
            final(heap)@.releasable(*final(buffer)),
            final(heap)@.at(*final(buffer)).counts.strong == 1,
    {
        proof {
            use_type_invariant(self);
        }
        heap.make_box_unique(buffer, self.address, self.value_witnesses.size, align_mask)
    }

    /// Returns the address of the metadata, which is never null.
    pub fn as_ptr(&self) -> (ptr: usize)
        ensures
            ptr == self@,
            ptr != 0,
    {
        proof {
            use_type_invariant(self);
        }
        self.address
    }

    /// Returns the kind of the record.
    pub fn kind(&self) -> (kind: MetadataKind)
        ensures
            kind == self.spec_kind(),
    {
        self.kind
    }

    /// Returns the value witnesses of the type.
    pub fn value_witnesses(&self) -> (table: ValueWitnessTable)
        ensures
            table == self.spec_value_witnesses(),
    {
        self.value_witnesses
    }

    /// The name as it is stored.
    pub(crate) fn name_str(&self, qualified: bool) -> (name: &str)
        ensures
            name@ == self.spec_name(qualified),
    {
        if qualified {
            self.qualified_name.as_str()
        } else {
            self.name.as_str()
        }
    }

    /// Returns the name of the underlying type, with the module in front
    /// if `qualified` is set.
    pub fn name(&self, qualified: bool) -> (name: &str)
        ensures
            name@ == self.spec_name(qualified),
    {
        let pair = get_type_name(self, qualified);
        proof {
            encode_utf8_valid_utf8(self.spec_name(qualified));
            assert(pair.data@.subrange(0, pair.length as int) == pair.data@);
        }
        match str_from_utf8(pair.into_bytes()) {
            Some(name) => {
                proof {
                    encode_utf8_decode_utf8(name@);
                    encode_utf8_decode_utf8(self.spec_name(qualified));
                }
                name
            },
            None => self.name_str(qualified),
        }
    }
}

/// Whether two value witness tables are the same.
fn same_table(first: &ValueWitnessTable, second: &ValueWitnessTable) -> (same: bool)
    ensures
        same == (*first == *second),
{
    first.semantics == second.semantics && first.size == second.size && first.stride
        == second.stride && first.flags == second.flags && first.extra_inhabitant_count
        == second.extra_inhabitant_count
}

} // verus!
