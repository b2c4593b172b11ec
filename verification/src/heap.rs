//! The arena of managed objects.
//!
//! The arena owns every object and every weak reference slot.  An object is
//! named by its address, a number that is never zero and never used twice;
//! zero is the absent object, on which every retain and release does
//! nothing.  What each operation does is stated over the arena's view, a
//! [`HeapModel`].
//!
//! The arena is changed through `&mut`, so no two callers can touch a count
//! at once.  The operations that a shared heap would have to make atomic
//! and their non-atomic variants are therefore the same functions of the
//! heap here.

use vstd::prelude::*;
use vstd::slice::slice_subrange;
use vstd::utf8::encode_utf8;
use crate::model::{
    count, held_in, lemma_allocate_wf, lemma_copy_box, lemma_count_positive, lemma_count_push,
    lemma_count_take, lemma_covered_one, lemma_dealloc_wf,
    lemma_make_box_unique, lemma_payload_live, lemma_release_step,
    lemma_retain_all_none, lemma_retain_all_push, lemma_retain_all_wf, lemma_retain_wf,
    lemma_set_deallocating_wf, lemma_store_payload_wf, lemma_take_payload_wf,
    lemma_target_allocated, lemma_total_strong_update, lemma_unowned_release_wf,
    lemma_unowned_retain_wf, lemma_weak_assign_wf, lemma_weak_destroy_wf, lemma_weak_init_wf,
    lemma_with_counts_wf, total_strong, HeapModel, ObjectModel, Phase, ValueModel,
};
use crate::obj::{MetaType, Object};
use crate::refcount::InlineRefCounts;

verus! {

/// The heap-object header: two words in front of every managed allocation.
#[derive(Clone, Copy, Debug, PartialEq, Eq, Structural)]
pub struct HeapObject {
    /// The address of the object's type descriptor, fixed at allocation.
    pub metadata: usize,
    /// The object's reference counts for ownership.
    pub ref_counts: InlineRefCounts,
}

/// A value of a type that the arena knows only by its value witnesses:
/// plain data, and the strong references that the value holds.
#[derive(Debug, PartialEq, Eq)]
pub struct OpaqueValue {
    /// The plain data.
    pub bytes: Vec<u8>,
    /// The addresses of the objects that the value holds a strong
    /// reference to.  Zero among them refers to nothing.
    pub references: Vec<usize>,
}

impl View for OpaqueValue {
    type V = ValueModel;

    open spec fn view(&self) -> ValueModel {
        ValueModel { bytes: self.bytes@, references: self.references@ }
    }
}

impl OpaqueValue {
    /// Creates a value of plain data and strong references.
    pub fn new(bytes: Vec<u8>, references: Vec<usize>) -> (value: Self)
        ensures
            value@ == (ValueModel { bytes: bytes@, references: references@ }),
    {
        OpaqueValue { bytes, references }
    }

    /// Creates a value of plain data.
    pub fn from_bytes(bytes: Vec<u8>) -> (value: Self)
        ensures
            value@ == (ValueModel { bytes: bytes@, references: Seq::empty() }),
    {
        OpaqueValue { bytes, references: Vec::new() }
    }

    /// Creates a value that is one strong reference to `object`.
    pub fn from_reference(object: usize) -> (value: Self)
        ensures
            value@ == (ValueModel { bytes: Seq::empty(), references: seq![object] }),
    {
        let mut references = Vec::new();
        references.push(object);
        assert(references@ =~= seq![object]);
        OpaqueValue { bytes: Vec::new(), references }
    }
}

/// The view of a value buffer: `None` where the buffer holds no value.
pub open spec fn value_view(buffer: Option<OpaqueValue>) -> Option<ValueModel> {
    match buffer {
        Some(value) => Some(value@),
        None => None,
    }
}

/// The size of the header: two words of eight bytes.
pub const HEADER_SIZE: usize = 16;

/// An unowned reference in memory.
#[derive(Clone, Copy, Debug, PartialEq, Eq, Structural)]
pub struct UnownedReference {
    /// The address of the underlying object.
    pub value: usize,
}

/// A boxed object: the address of the box and the address under which its
/// payload is found.  The arena names a payload by the address of the
/// object that carries it.
#[derive(Clone, Copy, Debug, PartialEq, Eq, Structural)]
pub struct BoxPair {
    /// The box.
    pub object: usize,
    /// The payload of the box.
    pub buffer: usize,
}

/// The name of a type: a borrowed span of bytes.
#[derive(Clone, Copy, Debug)]
pub struct TypeNamePair<'a> {
    /// The bytes at the start of the name.
    pub data: &'a [u8],
    /// The size of the name in bytes.
    pub length: usize,
}

impl<'a> TypeNamePair<'a> {
    /// Returns `self` as a slice of bytes: the first `length` of them.
    pub fn into_bytes(self) -> (bytes: &'a [u8])
        requires
            self.length <= self.data@.len(),
        ensures
            bytes@ == self.data@.subrange(0, self.length as int),
    {
        slice_subrange(self.data, 0, self.length)
    }
}

/// Returns the name of the type that `ty` describes, with the module in
/// front if `qualified` is set, as a span of UTF-8 bytes that is borrowed
/// from `ty`.
pub fn get_type_name(ty: &MetaType, qualified: bool) -> (name: TypeNamePair<'_>)
    ensures
        name.length == name.data@.len(),
        name.data@ == encode_utf8(ty.spec_name(qualified)),
{
    let data = ty.name_str(qualified).as_bytes();
    TypeNamePair { data, length: data.len() }
}

/// A weak reference in memory: the address it is bound to, or zero.
#[derive(Clone, Copy, Debug, PartialEq, Eq, Structural)]
pub struct WeakReference {
    /// The address of the object that the slot is bound to.
    pub value: usize,
}

/// The arena.
pub struct Heap {
    objects: Vec<Object>,
    slots: Vec<Option<WeakReference>>,
}

impl View for Heap {
    type V = HeapModel;

    closed spec fn view(&self) -> HeapModel {
        HeapModel {
            objects: Seq::new(self.objects@.len(), |i: int| self.objects@[i]@),
            slots: Seq::new(
                self.slots@.len(),
                |i: int|
                    match self.slots@[i] {
                        Some(slot) => Some(slot.value),
                        None => None::<usize>,
                    },
            ),
        }
    }
}

impl Heap {
    /// Every object knows the address under which the arena holds it.
    pub closed spec fn well_represented(&self) -> bool {
        forall|i: int|
            0 <= i < self.objects@.len() ==> (#[trigger] self.objects@[i]).address == i + 1
    }

    /// The invariant of the arena: that of its view, and that of its
    /// representation.
    pub open spec fn wf(&self) -> bool {
        self@.wf() && self.well_represented()
    }

    /// Creates an arena with nothing in it.
    pub fn new() -> (heap: Self)
        ensures
            heap@ == HeapModel::empty(),
            heap.wf(),
    {
        let heap = Heap { objects: Vec::new(), slots: Vec::new() };
        assert(heap@.objects =~= HeapModel::empty().objects);
        assert(heap@.slots =~= HeapModel::empty().slots);
        assert(heap@.targets() =~= Seq::<usize>::empty());
        heap
    }

    /// Allocates a new heap object for the type whose descriptor lies at
    /// `metadata`, with a strong count of one and no payload yet, and
    /// returns its address.
    pub fn alloc_object(&mut self, metadata: usize, size: usize, align_mask: usize) -> (object:
        usize)
        requires
            old(self).wf(),
            metadata != 0,
        ensures
            final(self).wf(),
            final(self)@ == old(self)@.allocate(metadata, size, align_mask),
            object == old(self)@.objects.len() + 1,
            final(self)@.live(object),
            final(self)@.releasable(object),
            final(self)@.held(object) == 0,
            final(self)@.bound(object) == 0,
    {
        self.objects.push(
            Object {
                header: HeapObject { metadata, ref_counts: InlineRefCounts::new() },
                address: 0,
                phase: Phase::Live,
                payload: None,
                teardowns: 0,
                size,
                align_mask,
            },
        );
        let address = self.objects.len();
        self.objects[address - 1].address = address;
        proof {
            lemma_allocate_wf(old(self)@, address, metadata, size, align_mask);
            let _ = old(self)@.allocate(metadata, size, align_mask).at(address);
        }
        assert(self@.objects =~= old(self)@.allocate(metadata, size, align_mask).objects);
        assert(self@.slots =~= old(self)@.slots);
        address
    }

    /// Whether `object` is the address of an object of this arena.
    pub fn contains(&self, object: usize) -> (b: bool)
        ensures
            b == self@.has(object),
    {
        1 <= object && object <= self.objects.len()
    }

    /// Whether `object` is the address of an object whose header can still
    /// be read.
    pub fn is_allocated(&self, object: usize) -> (b: bool)
        ensures
            b == self@.allocated(object),
    {
        self.contains(object) && match self.objects[object - 1].phase {
            Phase::Freed => false,
            _ => true,
        }
    }

    /// Whether `object` is the address of an object with a strong
    /// reference.
    pub fn is_live(&self, object: usize) -> (b: bool)
        ensures
            b == self@.live(object),
    {
        self.contains(object) && match self.objects[object - 1].phase {
            Phase::Live => true,
            _ => false,
        }
    }

    /// Returns the phase of `object`.
    pub fn phase(&self, object: usize) -> (phase: Phase)
        requires
            self@.has(object),
        ensures
            phase == self@.at(object).phase,
    {
        self.objects[object - 1].phase
    }

    /// Returns how often a release has torn down the payload of `object`.
    pub fn teardown_count(&self, object: usize) -> (count: usize)
        requires
            self@.has(object),
        ensures
            count == self@.at(object).teardowns,
    {
        self.objects[object - 1].teardowns
    }

    /// Returns how many strong references to `object` the payloads in the
    /// arena hold.
    pub fn held_count(&self, object: usize) -> (count: usize)
        requires
            self.wf(),
            self@.has(object),
        ensures
            count == self@.held(object),
    {
        let mut total: usize = 0;
        let mut i: usize = 0;
        proof {
            let _ = self@.at(object);
        }
        while i < self.objects.len()
            invariant
                i <= self.objects@.len(),
                self@.objects.len() == self.objects@.len(),
                self@.held(object) <= usize::MAX,
                total == held_in(self@.objects.take(i as int), object),
            decreases self.objects@.len() - i,
        {
            let ghost references = self@.objects[i as int].references();
            proof {
                let next = self@.objects.take(i + 1);
                assert(next.drop_last() =~= self@.objects.take(i as int));
                assert(next.last() == self@.objects[i as int]);
                lemma_held_prefix(self@.objects, i + 1, object);
            }
            match &self.objects[i].payload {
                Some(value) => {
                    let mut j: usize = 0;
                    let start = total;
                    while j < value.references.len()
                        invariant
                            j <= value.references@.len(),
                            value.references@ == references,
                            start + count(references, object) <= usize::MAX,
                            total == start + count(references.take(j as int), object),
                        decreases value.references@.len() - j,
                    {
                        proof {
                            let next = references.take(j + 1);
                            assert(next.drop_last() =~= references.take(j as int));
                            assert(next.last() == references[j as int]);
                            lemma_count_take(references, j + 1, object);
                        }
                        if value.references[j] == object {
                            total += 1;
                        }
                        j += 1;
                    }
                    assert(references.take(j as int) =~= references);
                },
                None => {
                    assert(count(references, object) == 0);
                },
            }
            i += 1;
        }
        assert(self@.objects.take(i as int) =~= self@.objects);
        total
    }

    /// Whether a caller can hold a strong reference to `object`: whether
    /// the strong count is above the number of references that the
    /// payloads hold.
    pub fn is_releasable(&self, object: usize) -> (b: bool)
        requires
            self.wf(),
        ensures
            b == self@.releasable(object),
    {
        self.contains(object) && self.objects[object - 1].header.ref_counts.strong
            > self.held_count(object)
    }

    /// Whether `slot` is the address of a weak reference slot that has not
    /// been destroyed.
    pub fn has_slot(&self, slot: usize) -> (b: bool)
        ensures
            b == self@.has_slot(slot),
    {
        1 <= slot && slot <= self.slots.len() && self.slots[slot - 1].is_some()
    }

    /// Returns the address that `slot` is bound to, which is zero if it is
    /// bound to nothing.
    pub fn slot_target(&self, slot: usize) -> (target: usize)
        requires
            self@.has_slot(slot),
        ensures
            target == self@.target(slot),
    {
        match self.slots[slot - 1] {
            Some(reference) => reference.value,
            None => 0,
        }
    }

    /// Returns the object at `object`, whose header can still be read.
    pub fn object(&self, object: usize) -> (found: &Object)
        requires
            self.wf(),
            self@.allocated(object),
        ensures
            found@ == self@.at(object),
            found.address == object,
    {
        &self.objects[object - 1]
    }

    /// Returns the strong retain count of `object`.
    pub fn retain_count(&self, object: usize) -> (count: usize)
        requires
            self@.allocated(object),
        ensures
            count == self@.at(object).counts.strong,
    {
        self.objects[object - 1].header.ref_counts.strong
    }

    /// Returns the unowned retain count of `object`.
    pub fn unowned_retain_count(&self, object: usize) -> (count: usize)
        requires
            self@.allocated(object),
        ensures
            count == self@.at(object).counts.unowned,
    {
        self.objects[object - 1].header.ref_counts.unowned
    }

    /// Returns the weak retain count of `object`.
    pub fn weak_retain_count(&self, object: usize) -> (count: usize)
        requires
            self@.allocated(object),
        ensures
            count == self@.at(object).counts.weak,
    {
        self.objects[object - 1].header.ref_counts.weak
    }

    /// Increments the strong retain count of `object` by `n` and returns
    /// `object`.  Nothing happens to the absent object.
    pub fn retain_n(&mut self, object: usize, n: u32) -> (same: usize)
        requires
            old(self).wf(),
            object != 0 ==> old(self)@.live(object) && old(self)@.at(object).counts.strong + n
                <= usize::MAX,
        ensures
            final(self).wf(),
            final(self)@ == old(self)@.retain(object, n as int),
            same == object,
            forall|b: usize| #[trigger] final(self)@.held(b) == old(self)@.held(b),
    {
        if object != 0 {
            let ghost before = self@;
            self.objects[object - 1].header.ref_counts.retain(n);
            proof {
                let o = before.at(object).with_counts(before.at(object).counts.retained(n as int));
                assert(self@.objects =~= before.with_object(object, o).objects);
                assert(self@.slots =~= before.slots);
                lemma_with_counts_wf(before, object, o);
            }
        }
        object
    }

    /// Increments the strong retain count of `object` and returns `object`.
    pub fn retain(&mut self, object: usize) -> (same: usize)
        requires
            old(self).wf(),
            object != 0 ==> old(self)@.live(object) && old(self)@.at(object).counts.strong
                < usize::MAX,
        ensures
            final(self).wf(),
            final(self)@ == old(self)@.retain(object, 1),
            same == object,
            forall|b: usize| #[trigger] final(self)@.held(b) == old(self)@.held(b),
    {
        self.retain_n(object, 1)
    }

    /// Releases every strong reference in `pending`, the last of them
    /// first, and the references that the payloads of the objects held
    /// that are torn down on the way.
    pub fn release_all(&mut self, pending: Vec<usize>)
        requires
            old(self).wf(),
            old(self)@.covered(pending@),
        ensures
            final(self).wf(),
            final(self)@ == old(self)@.release_all(pending@),
    {
        let mut pending = pending;
        let ghost start = pending@;
        while pending.len() > 0
            invariant
                self.wf(),
                self@.covered(pending@),
                self@.release_all(pending@) == old(self)@.release_all(start),
            decreases total_strong(self@.objects), pending@.len(),
        {
            let ghost before = self@;
            let ghost work = pending@;
            let current = match pending.pop() {
                Some(current) => current,
                None => 0,
            };
            proof {
                assert(pending@ =~= work.drop_last());
                assert(current == work.last());
                assert(work[work.len() - 1] <= before.objects.len());
                lemma_release_step(before, work);
            }
            if current != 0 {
                let index = current - 1;
                proof {
                    let _ = before.at(current);
                    lemma_count_positive(work, work.len() - 1, current);
                    lemma_total_strong_update(
                        before.objects,
                        index as int,
                        before.at(current).torn_down(),
                    );
                    lemma_total_strong_update(
                        before.objects,
                        index as int,
                        before.at(current).with_counts(before.at(current).counts.released(1)),
                    );
                }
                let last = self.objects[index].header.ref_counts.release(1);
                if last {
                    let value = self.objects[index].payload.take();
                    self.objects[index].teardowns = self.objects[index].teardowns + 1;
                    let free = self.objects[index].header.ref_counts.can_be_freed();
                    self.objects[index].phase = if free {
                        Phase::Freed
                    } else {
                        Phase::Deinited
                    };
                    match value {
                        Some(value) => {
                            let mut references = value.references;
                            pending.append(&mut references);
                        },
                        None => {
                            assert(pending@ =~= work.drop_last() + before.at(
                                current,
                            ).references());
                        },
                    }
                    proof {
                        let o = before.at(current).torn_down();
                        assert(self@.objects =~= before.with_object(current, o).objects);
                        assert(self@.slots =~= before.slots);
                    }
                } else {
                    proof {
                        let o = before.at(current).with_counts(
                            before.at(current).counts.released(1),
                        );
                        assert(self@.objects =~= before.with_object(current, o).objects);
                        assert(self@.slots =~= before.slots);
                    }
                }
            }
        }
    }

    /// Decrements the strong retain count of `object`.  If that was the last
    /// strong reference, the payload is destroyed, the strong references
    /// that it held are released in turn, and the memory is given back
    /// unless an unowned reference or a weak reference slot still looks at
    /// the header.  Nothing happens to the absent object.
    pub fn release(&mut self, object: usize)
        requires
            old(self).wf(),
            object != 0 ==> old(self)@.releasable(object),
        ensures
            final(self).wf(),
            final(self)@ == old(self)@.release(object),
    {
        let mut pending = Vec::new();
        pending.push(object);
        proof {
            assert(pending@ =~= seq![object]);
            lemma_covered_one(self@, object);
        }
        self.release_all(pending);
    }

    /// Decrements the strong retain count of `object` by `n`, with the
    /// teardown that [`Heap::release`] runs if those were the last strong
    /// references.
    pub fn release_n(&mut self, object: usize, n: u32)
        requires
            old(self).wf(),
            object != 0 && n != 0 ==> old(self)@.has(object) && old(self)@.at(
                object,
            ).counts.strong >= old(self)@.held(object) + n,
        ensures
            final(self).wf(),
            final(self)@ == old(self)@.release_n(object, n as int),
    {
        if object != 0 && n != 0 {
            let ghost before = self@;
            proof {
                let _ = before.at(object);
            }
            if n > 1 {
                self.objects[object - 1].header.ref_counts.release(n - 1);
            }
            proof {
                let o = before.at(object).with_counts(
                    before.at(object).counts.released(n - 1),
                );
                assert(self@.objects =~= before.with_object(object, o).objects);
                assert(self@.slots =~= before.slots);
                lemma_with_counts_wf(before, object, o);
            }
            self.release(object);
        }
    }

    /// Increments the strong retain count of `object`, for a caller that
    /// knows that nobody else is using the object.
    pub fn nonatomic_retain(&mut self, object: usize) -> (same: usize)
        requires
            old(self).wf(),
            object != 0 ==> old(self)@.live(object) && old(self)@.at(object).counts.strong
                < usize::MAX,
        ensures
            final(self).wf(),
            final(self)@ == old(self)@.retain(object, 1),
            same == object,
            forall|b: usize| #[trigger] final(self)@.held(b) == old(self)@.held(b),
    {
        self.retain_n(object, 1)
    }

    /// Increments the strong retain count of `object` by `n`, for a caller
    /// that knows that nobody else is using the object.
    pub fn nonatomic_retain_n(&mut self, object: usize, n: u32) -> (same: usize)
        requires
            old(self).wf(),
            object != 0 ==> old(self)@.live(object) && old(self)@.at(object).counts.strong + n
                <= usize::MAX,
        ensures
            final(self).wf(),
            final(self)@ == old(self)@.retain(object, n as int),
            same == object,
            forall|b: usize| #[trigger] final(self)@.held(b) == old(self)@.held(b),
    {
        self.retain_n(object, n)
    }

    /// Decrements the strong retain count of `object`, for a caller that
    /// knows that nobody else is using the object.
    pub fn nonatomic_release(&mut self, object: usize)
        requires
            old(self).wf(),
            object != 0 ==> old(self)@.releasable(object),
        ensures
            final(self).wf(),
            final(self)@ == old(self)@.release(object),
    {
        self.release(object)
    }

    /// Decrements the strong retain count of `object` by `n`, for a caller
    /// that knows that nobody else is using the object.
    pub fn nonatomic_release_n(&mut self, object: usize, n: u32)
        requires
            old(self).wf(),
            object != 0 && n != 0 ==> old(self)@.has(object) && old(self)@.at(
                object,
            ).counts.strong >= old(self)@.held(object) + n,
        ensures
            final(self).wf(),
            final(self)@ == old(self)@.release_n(object, n as int),
    {
        self.release_n(object, n)
    }

    /// Raises the deallocating flag of an object whose one strong reference
    /// the caller holds.  The caller then destroys the payload and hands
    /// the memory back with [`Heap::dealloc_object`].
    pub fn set_deallocating(&mut self, object: usize)
        requires
            old(self).wf(),
            old(self)@.releasable(object),
            old(self)@.at(object).counts.strong == 1,
        ensures
            final(self).wf(),
            final(self)@ == old(self)@.set_deallocating(object),
    {
        let ghost before = self@;
        proof {
            let _ = before.at(object);
            lemma_set_deallocating_wf(before, object);
        }
        self.objects[object - 1].header.ref_counts.release(1);
        self.objects[object - 1].phase = Phase::Deiniting;
        assert(self@.objects =~= before.set_deallocating(object).objects);
        assert(self@.slots =~= before.slots);
    }

    /// Hands back the memory of an object whose deallocating flag is up and
    /// whose payload is destroyed.  `size` and `align_mask` are those of
    /// the allocation.
    pub fn dealloc_object(&mut self, object: usize, size: usize, align_mask: usize)
        requires
            old(self).wf(),
            old(self)@.has(object),
            old(self)@.at(object).phase == Phase::Deiniting,
            old(self)@.at(object).payload is None,
            old(self)@.at(object).size == size,
            old(self)@.at(object).align_mask == align_mask,
        ensures
            final(self).wf(),
            final(self)@ == old(self)@.dealloc(object),
    {
        let ghost before = self@;
        proof {
            let _ = before.at(object);
            lemma_dealloc_wf(before, object);
        }
        let free = self.objects[object - 1].header.ref_counts.can_be_freed();
        self.objects[object - 1].phase = if free {
            Phase::Freed
        } else {
            Phase::Deinited
        };
        assert(self@.objects =~= before.dealloc(object).objects);
        assert(self@.slots =~= before.slots);
    }

    /// Hands back the memory of an object with one strong reference, the
    /// caller's, whose payload was never initialised.
    pub fn dealloc_uninitialized_object(&mut self, object: usize, size: usize, align_mask: usize)
        requires
            old(self).wf(),
            old(self)@.releasable(object),
            old(self)@.at(object).counts.strong == 1,
            old(self)@.at(object).payload is None,
            old(self)@.at(object).size == size,
            old(self)@.at(object).align_mask == align_mask,
        ensures
            final(self).wf(),
            final(self)@ == old(self)@.set_deallocating(object).dealloc(object),
    {
        self.set_deallocating(object);
        self.dealloc_object(object, size, align_mask);
    }

    /// Increments the unowned retain count of `object` by `n` and returns
    /// `object`.  Nothing happens to the absent object.
    pub fn unowned_retain_n(&mut self, object: usize, n: u32) -> (same: usize)
        requires
            old(self).wf(),
            object != 0 ==> old(self)@.allocated(object) && old(self)@.at(
                object,
            ).counts.unowned + n <= usize::MAX,
        ensures
            final(self).wf(),
            final(self)@ == old(self)@.unowned_retain(object, n as int),
            same == object,
    {
        if object != 0 {
            let ghost before = self@;
            proof {
                let _ = before.at(object);
                lemma_unowned_retain_wf(before, object, n as int);
            }
            self.objects[object - 1].header.ref_counts.unowned_retain(n);
            assert(self@.objects =~= before.unowned_retain(object, n as int).objects);
            assert(self@.slots =~= before.slots);
        }
        object
    }

    /// Increments the unowned retain count of `object` and returns `object`.
    pub fn unowned_retain(&mut self, object: usize) -> (same: usize)
        requires
            old(self).wf(),
            object != 0 ==> old(self)@.allocated(object) && old(self)@.at(
                object,
            ).counts.unowned < usize::MAX,
        ensures
            final(self).wf(),
            final(self)@ == old(self)@.unowned_retain(object, 1),
            same == object,
    {
        self.unowned_retain_n(object, 1)
    }

    /// Increments the unowned retain count of `object`, for a caller that
    /// knows that nobody else is using the object.
    pub fn nonatomic_unowned_retain(&mut self, object: usize) -> (same: usize)
        requires
            old(self).wf(),
            object != 0 ==> old(self)@.allocated(object) && old(self)@.at(
                object,
            ).counts.unowned < usize::MAX,
        ensures
            final(self).wf(),
            final(self)@ == old(self)@.unowned_retain(object, 1),
            same == object,
    {
        self.unowned_retain_n(object, 1)
    }

    /// Increments the unowned retain count of `object` by `n`, for a caller
    /// that knows that nobody else is using the object.
    pub fn nonatomic_unowned_retain_n(&mut self, object: usize, n: u32) -> (same: usize)
        requires
            old(self).wf(),
            object != 0 ==> old(self)@.allocated(object) && old(self)@.at(
                object,
            ).counts.unowned + n <= usize::MAX,
        ensures
            final(self).wf(),
            final(self)@ == old(self)@.unowned_retain(object, n as int),
            same == object,
    {
        self.unowned_retain_n(object, n)
    }

    /// Decrements the unowned retain count of `object` by `n`.  If the
    /// object was only kept for its header and nothing looks at it any
    /// more, its memory is given back.  Nothing happens to the absent
    /// object.
    pub fn unowned_release_n(&mut self, object: usize, n: u32)
        requires
            old(self).wf(),
            object != 0 ==> old(self)@.allocated(object) && n < old(self)@.at(
                object,
            ).counts.unowned,
        ensures
            final(self).wf(),
            final(self)@ == old(self)@.unowned_release(object, n as int),
    {
        if object != 0 {
            let ghost before = self@;
            proof {
                let _ = before.at(object);
                lemma_unowned_release_wf(before, object, n as int);
            }
            self.objects[object - 1].header.ref_counts.unowned_release(n);
            self.settle(object);
            assert(self@.objects =~= before.unowned_release(object, n as int).objects);
            assert(self@.slots =~= before.slots);
        }
    }

    /// Decrements the unowned retain count of `object`.
    pub fn unowned_release(&mut self, object: usize)
        requires
            old(self).wf(),
            object != 0 ==> old(self)@.allocated(object) && 1 < old(self)@.at(
                object,
            ).counts.unowned,
        ensures
            final(self).wf(),
            final(self)@ == old(self)@.unowned_release(object, 1),
    {
        self.unowned_release_n(object, 1)
    }

    /// Decrements the unowned retain count of `object`, for a caller that
    /// knows that nobody else is using the object.
    pub fn nonatomic_unowned_release(&mut self, object: usize)
        requires
            old(self).wf(),
            object != 0 ==> old(self)@.allocated(object) && 1 < old(self)@.at(
                object,
            ).counts.unowned,
        ensures
            final(self).wf(),
            final(self)@ == old(self)@.unowned_release(object, 1),
    {
        self.unowned_release_n(object, 1)
    }

    /// Decrements the unowned retain count of `object` by `n`, for a caller
    /// that knows that nobody else is using the object.
    pub fn nonatomic_unowned_release_n(&mut self, object: usize, n: u32)
        requires
            old(self).wf(),
            object != 0 ==> old(self)@.allocated(object) && n < old(self)@.at(
                object,
            ).counts.unowned,
        ensures
            final(self).wf(),
            final(self)@ == old(self)@.unowned_release(object, n as int),
    {
        self.unowned_release_n(object, n)
    }

    /// Gives the memory of `object` back if it was only kept for its header
    /// and nothing looks at it any more.
    fn settle(&mut self, object: usize)
        requires
            1 <= object <= old(self).objects@.len(),
        ensures
            final(self).objects@.len() == old(self).objects@.len(),
            final(self).slots@ == old(self).slots@,
            forall|i: int|
                0 <= i < old(self).objects@.len() && i != object - 1 ==> final(self).objects@[i]
                    == old(self).objects@[i],
            final(self).objects@[object - 1]@ == old(self).objects@[object - 1]@.settled(),
            final(self).objects@[object - 1].address == old(self).objects@[object - 1].address,
    {
        let index = object - 1;
        let free = match self.objects[index].phase {
            Phase::Deinited => self.objects[index].header.ref_counts.is_at_baseline(),
            _ => false,
        };
        if free {
            self.objects[index].phase = Phase::Freed;
        }
    }

    /// Takes one unit of the weak count of `target`, the slots aside.
    fn unbind(&mut self, target: usize)
        requires
            old(self).well_represented(),
            target != 0 ==> old(self)@.has(target) && old(self)@.at(target).counts.wf()
                && old(self)@.at(target).counts.weak > 1,
        ensures
            final(self).well_represented(),
            final(self)@ == old(self)@.unbind(target),
    {
        if target != 0 {
            let ghost before = self@;
            self.objects[target - 1].header.ref_counts.weak_release();
            self.settle(target);
            assert(self@.objects =~= before.unbind(target).objects);
            assert(self@.slots =~= before.slots);
        }
    }

    /// Adds one unit to the weak count of `target`, the slots aside.
    fn bind(&mut self, target: usize)
        requires
            old(self).well_represented(),
            target != 0 ==> old(self)@.has(target) && old(self)@.at(target).counts.wf()
                && old(self)@.at(target).counts.weak < usize::MAX,
        ensures
            final(self).well_represented(),
            final(self)@ == old(self)@.bind(target),
    {
        if target != 0 {
            let ghost before = self@;
            self.objects[target - 1].header.ref_counts.weak_retain();
            assert(self@.objects =~= before.bind(target).objects);
            assert(self@.slots =~= before.slots);
        }
    }

    /// Initializes a weak reference slot that is bound to `value`, which
    /// may be the absent object, and returns the slot's address.
    pub fn weak_init(&mut self, value: usize) -> (slot: usize)
        requires
            old(self).wf(),
            value != 0 ==> old(self)@.allocated(value) && old(self)@.at(value).counts.weak
                < usize::MAX,
        ensures
            final(self).wf(),
            final(self)@ == old(self)@.weak_init(value),
            slot == old(self)@.slots.len() + 1,
            final(self)@.has_slot(slot),
            final(self)@.target(slot) == value,
    {
        proof {
            if value != 0 {
                let _ = self@.at(value);
            }
        }
        self.bind(value);
        self.slots.push(Some(WeakReference { value }));
        let slot = self.slots.len();
        proof {
            assert(self@.slots =~= old(self)@.weak_init(value).slots);
            assert(self@.objects =~= old(self)@.weak_init(value).objects);
            lemma_weak_init_wf(old(self)@, value);
        }
        slot
    }

    /// Binds the slot `slot` to `value` in place of what it was bound to.
    pub fn weak_assign(&mut self, slot: usize, value: usize) -> (same: usize)
        requires
            old(self).wf(),
            old(self)@.has_slot(slot),
            value != 0 ==> old(self)@.allocated(value) && old(self)@.at(value).counts.weak
                < usize::MAX,
        ensures
            final(self).wf(),
            final(self)@ == old(self)@.weak_assign(slot, value),
            same == slot,
    {
        let ghost before = self@;
        let target = match self.slots[slot - 1] {
            Some(reference) => reference.value,
            None => 0,
        };
        proof {
            if value != 0 {
                let _ = before.at(value);
            }
            if target != 0 {
                lemma_target_allocated(before, slot);
                let _ = before.at(target);
            }
            lemma_weak_assign_wf(before, slot, value);
        }
        self.bind(value);
        self.unbind(target);
        self.slots[slot - 1] = Some(WeakReference { value });
        assert(self@.slots =~= before.weak_assign(slot, value).slots);
        assert(self@.objects =~= before.weak_assign(slot, value).objects);
        slot
    }

    /// Unbinds the slot `slot` and gives up its storage.
    pub fn weak_destroy(&mut self, slot: usize)
        requires
            old(self).wf(),
            old(self)@.has_slot(slot),
        ensures
            final(self).wf(),
            final(self)@ == old(self)@.weak_destroy(slot),
    {
        let ghost before = self@;
        let target = match self.slots[slot - 1] {
            Some(reference) => reference.value,
            None => 0,
        };
        proof {
            if target != 0 {
                lemma_target_allocated(before, slot);
                let _ = before.at(target);
            }
            lemma_weak_destroy_wf(before, slot);
        }
        self.unbind(target);
        self.slots[slot - 1] = None;
        assert(self@.slots =~= before.weak_destroy(slot).slots);
        assert(self@.objects =~= before.weak_destroy(slot).objects);
    }

    /// Loads the object that the slot `slot` is bound to.  If the slot is
    /// bound to nothing, or to an object whose last strong reference is
    /// gone, the absent object is returned; else the object is retained
    /// and returned.
    pub fn weak_load_strong(&mut self, slot: usize) -> (object: usize)
        requires
            old(self).wf(),
            old(self)@.has_slot(slot),
            old(self)@.loaded(slot) != 0 ==> old(self)@.at(old(self)@.target(slot)).counts.strong
                < usize::MAX,
        ensures
            final(self).wf(),
            object == old(self)@.loaded(slot),
            final(self)@ == old(self)@.weak_load_strong(slot),
            object != 0 ==> final(self)@.releasable(object),
    {
        let target = match self.slots[slot - 1] {
            Some(reference) => reference.value,
            None => 0,
        };
        proof {
            if target != 0 {
                lemma_target_allocated(self@, slot);
            }
        }
        let alive = target != 0 && match self.objects[target - 1].phase {
            Phase::Live => true,
            _ => false,
        };
        if alive {
            proof {
                let _ = self@.at(target);
            }
            let object = self.retain(target);
            proof {
                let _ = self@.at(target);
            }
            object
        } else {
            0
        }
    }

    /// Loads the object that the slot `slot` is bound to, as
    /// [`Heap::weak_load_strong`] does, and destroys the slot.
    pub fn weak_take_strong(&mut self, slot: usize) -> (object: usize)
        requires
            old(self).wf(),
            old(self)@.has_slot(slot),
            old(self)@.loaded(slot) != 0 ==> old(self)@.at(old(self)@.target(slot)).counts.strong
                < usize::MAX,
        ensures
            final(self).wf(),
            object == old(self)@.loaded(slot),
            final(self)@ == old(self)@.weak_take_strong(slot),
            object != 0 ==> final(self)@.releasable(object),
    {
        let object = self.weak_load_strong(slot);
        let ghost loaded = self@;
        proof {
            lemma_retain_wf(old(self)@, object, 1);
        }
        self.weak_destroy(slot);
        proof {
            if object != 0 {
                lemma_weak_destroy_wf(loaded, slot);
                let _ = loaded.at(object);
                let _ = self@.at(object);
            }
        }
        object
    }

    /// Allocates a box for a value of `size` bytes: an object with a strong
    /// count of one whose payload is not initialised yet.
    pub fn alloc_box(&mut self, metadata: usize, size: usize, align_mask: usize) -> (pair:
        BoxPair)
        requires
            old(self).wf(),
            metadata != 0,
            HEADER_SIZE + size <= usize::MAX,
        ensures
            final(self).wf(),
            final(self)@ == old(self)@.allocate(
                metadata,
                (HEADER_SIZE + size) as usize,
                align_mask,
            ),
            pair.object == old(self)@.objects.len() + 1,
            pair.buffer == pair.object,
            final(self)@.live(pair.object),
            final(self)@.releasable(pair.object),
            final(self)@.held(pair.object) == 0,
            final(self)@.bound(pair.object) == 0,
    {
        let object = self.alloc_object(metadata, HEADER_SIZE + size, align_mask);
        BoxPair { object, buffer: object }
    }

    /// Hands back the memory of a box with one strong reference, the
    /// caller's, whose payload is not initialised.
    pub fn dealloc_box(&mut self, object: usize)
        requires
            old(self).wf(),
            old(self)@.releasable(object),
            old(self)@.at(object).counts.strong == 1,
            old(self)@.at(object).payload is None,
        ensures
            final(self).wf(),
            final(self)@ == old(self)@.set_deallocating(object).dealloc(object),
    {
        let size = self.objects[object - 1].size;
        let align_mask = self.objects[object - 1].align_mask;
        self.dealloc_uninitialized_object(object, size, align_mask);
    }

    /// Projects the payload out of the box `object`.
    pub fn project_box(&self, object: usize) -> (buffer: &Option<OpaqueValue>)
        requires
            self@.allocated(object),
        ensures
            value_view(*buffer) == self@.payload(object),
    {
        &self.objects[object - 1].payload
    }

    /// Moves `value`, which the caller holds, into the payload of `object`,
    /// which holds none.
    pub fn initialize_box(&mut self, object: usize, value: OpaqueValue)
        requires
            old(self).wf(),
            old(self)@.has(object),
            old(self)@.at(object).payload is None,
            old(self)@.at(object).phase == Phase::Live || old(self)@.at(object).phase
                == Phase::Deiniting,
            old(self)@.owns(value@),
        ensures
            final(self).wf(),
            final(self)@ == old(self)@.store_payload(object, value@),
    {
        let ghost before = self@;
        proof {
            let _ = before.at(object);
            lemma_store_payload_wf(before, object, value@);
        }
        self.objects[object - 1].payload = Some(value);
        assert(self@.objects =~= before.store_payload(object, value@).objects);
        assert(self@.slots =~= before.slots);
    }

    /// Moves the payload out of `object` and leaves none.  The caller then
    /// holds the value.
    pub fn take_box(&mut self, object: usize) -> (value: Option<OpaqueValue>)
        requires
            old(self).wf(),
            old(self)@.allocated(object),
        ensures
            final(self).wf(),
            final(self)@ == old(self)@.take_payload(object),
            value_view(value) == old(self)@.payload(object),
            value matches Some(taken) ==> final(self)@.owns(taken@),
    {
        let ghost before = self@;
        proof {
            let _ = before.at(object);
            lemma_take_payload_wf(before, object);
        }
        let value = self.objects[object - 1].payload.take();
        assert(self@.objects =~= before.take_payload(object).objects);
        assert(self@.slots =~= before.slots);
        value
    }

    /// Retains the object of every reference in `references`.
    fn retain_each(&mut self, references: &Vec<usize>)
        requires
            old(self).wf(),
            old(self)@.all_live(references@),
            forall|a: usize|
                #![trigger old(self)@.at(a)]
                old(self)@.has(a) ==> old(self)@.at(a).counts.strong + count(references@, a)
                    <= usize::MAX,
        ensures
            final(self).wf(),
            final(self)@ == old(self)@.retain_all(references@),
            final(self)@.covered(references@),
    {
        let ghost before = self@;
        proof {
            lemma_retain_all_none(before);
            assert(references@.take(0) =~= Seq::<usize>::empty());
            assert forall|j: int| 0 <= j < references@.len() implies #[trigger] references@[j]
                <= before.objects.len() by {
                assert(references@[j] == 0 || before.live(references@[j]));
            }
        }
        let mut k: usize = 0;
        while k < references.len()
            invariant
                k <= references@.len(),
                before.wf(),
                before.all_live(references@),
                forall|j: int|
                    0 <= j < references@.len() ==> #[trigger] references@[j]
                        <= before.objects.len(),
                forall|a: usize|
                    #![trigger before.at(a)]
                    before.has(a) ==> before.at(a).counts.strong + count(references@, a)
                        <= usize::MAX,
                self.wf(),
                self@ == before.retain_all(references@.take(k as int)),
            decreases references@.len() - k,
        {
            let r = references[k];
            proof {
                let done = references@.take(k as int);
                assert(references@.take(k + 1) =~= done.push(r));
                lemma_count_push(done, r, r);
                lemma_count_take(references@, k + 1, r);
                assert(references@[k as int] == 0 || before.live(references@[k as int]));
                if r != 0 {
                    let _ = before.at(r);
                    let _ = self@.at(r);
                }
                lemma_retain_all_push(before, done, r);
            }
            self.retain(r);
            k += 1;
        }
        proof {
            assert(references@.take(k as int) =~= references@);
            lemma_retain_all_wf(before, references@);
        }
    }

    /// Copies `value`: the bytes as they are, the references by retaining
    /// the objects they point at.  The caller then holds the copy too.
    pub fn copy_value(&mut self, value: &OpaqueValue) -> (copy: OpaqueValue)
        requires
            old(self).wf(),
            old(self)@.holds(value@),
            forall|a: usize|
                #![trigger old(self)@.at(a)]
                old(self)@.has(a) ==> old(self)@.at(a).counts.strong + count(
                    value@.references,
                    a,
                ) <= usize::MAX,
        ensures
            final(self).wf(),
            final(self)@ == old(self)@.retain_all(value@.references),
            copy@ == value@,
            final(self)@.owns(copy@),
    {
        let copy = duplicate(value);
        self.retain_each(&copy.references);
        copy
    }

    /// Destroys `value`, which the caller holds: the bytes are forgotten,
    /// the references are released.
    pub fn destroy_value(&mut self, value: OpaqueValue)
        requires
            old(self).wf(),
            old(self)@.owns(value@),
        ensures
            final(self).wf(),
            final(self)@ == old(self)@.release_all(value@.references),
    {
        self.release_all(value.references);
    }

    /// Makes the reference to a box that `buffer` holds the only one.  If
    /// the box has one strong reference, it is returned as it is.  Else a
    /// new box is allocated, the payload is copied into it, the address in
    /// `buffer` is replaced by that of the new box, and the strong
    /// reference to the old box is released.
    pub fn make_box_unique(
        &mut self,
        buffer: &mut usize,
        metadata: usize,
        size: usize,
        align_mask: usize,
    ) -> (pair: BoxPair)
        requires
            old(self).wf(),
            old(self)@.releasable(*old(buffer)),
            metadata != 0,
            HEADER_SIZE + size <= usize::MAX,
            forall|a: usize|
                #![trigger old(self)@.at(a)]
                old(self)@.has(a) ==> old(self)@.at(a).counts.strong + count(
                    old(self)@.at(*old(buffer)).references(),
                    a,
                ) <= usize::MAX,
        ensures
            final(self).wf(),
            final(self)@ == old(self)@.make_box_unique(
                *old(buffer),
                metadata,
                (HEADER_SIZE + size) as usize,
                align_mask,
            ),
            pair.object == *final(buffer),
            pair.buffer == pair.object,
            final(self)@.releasable(*final(buffer)),
            final(self)@.at(*final(buffer)).counts.strong == 1,
            old(self)@.at(*old(buffer)).counts.strong == 1 ==> *final(buffer) == *old(buffer),
            old(self)@.at(*old(buffer)).counts.strong != 1 ==> *final(buffer) == old(
                self,
            )@.objects.len() + 1 && *final(buffer) != *old(buffer) && final(self)@.payload(
                *final(buffer),
            ) == old(self)@.payload(*old(buffer)),
    {
        let object = *buffer;
        let ghost before = self@;
        proof {
            let _ = before.at(object);
        }
        if self.objects[object - 1].header.ref_counts.strong == 1 {
            return BoxPair { object, buffer: object };
        }
        let pair = self.alloc_box(metadata, size, align_mask);
        let ghost allocated = self@;
        let ghost references = before.at(object).references();
        proof {
            let _ = allocated.at(object);
            lemma_copy_box(before, object, metadata, (HEADER_SIZE + size) as usize, align_mask);
            lemma_make_box_unique(
                before,
                object,
                metadata,
                (HEADER_SIZE + size) as usize,
                align_mask,
            );
            lemma_payload_live(before, object);
        }
        let copy = match &self.objects[object - 1].payload {
            Some(value) => Some(duplicate(value)),
            None => None,
        };
        match &copy {
            Some(value) => {
                proof {
                    assert(value@.references == references);
                    assert forall|j: int| 0 <= j < references.len() implies #[trigger] references[j]
                        == 0 || allocated.live(references[j]) by {
                        assert(references[j] == 0 || before.live(references[j]));
                        if references[j] != 0 {
                            let _ = before.at(references[j]);
                            let _ = allocated.at(references[j]);
                        }
                    }
                    assert forall|a: usize| #![trigger allocated.at(a)] allocated.has(
                        a,
                    ) implies allocated.at(a).counts.strong + count(references, a)
                        <= usize::MAX by {
                        if before.has(a) {
                            let _ = before.at(a);
                        } else {
                            assert forall|j: int| 0 <= j < references.len() implies references[j]
                                != a by {}
                            crate::model::lemma_count_absent(references, a);
                        }
                    }
                }
                self.retain_each(&value.references);
            },
            None => {
                proof {
                    lemma_retain_all_none(allocated);
                }
            },
        }
        let ghost copied = self@;
        self.objects[pair.object - 1].payload = copy;
        proof {
            let stored = before.copy_box(
                object,
                metadata,
                (HEADER_SIZE + size) as usize,
                align_mask,
            );
            assert(self@.objects =~= stored.objects);
            assert(self@.slots =~= stored.slots);
            assert(self@ == stored);
        }
        self.release(object);
        *buffer = pair.object;
        pair
    }
}

/// What is held by the first objects is held by all of them.
proof fn lemma_held_prefix(objects: Seq<ObjectModel>, k: int, a: usize)
    requires
        0 <= k <= objects.len(),
    ensures
        held_in(objects.take(k), a) <= held_in(objects, a),
    decreases objects.len() - k,
{
    if k < objects.len() {
        lemma_held_prefix(objects, k + 1, a);
        assert(objects.take(k + 1).drop_last() =~= objects.take(k));
    } else {
        assert(objects.take(k) =~= objects);
    }
}

/// Copies a value without a look at the heap.  The copies of its
/// references are not counted yet.
fn duplicate(value: &OpaqueValue) -> (copy: OpaqueValue)
    ensures
        copy@ == value@,
{
    let mut bytes: Vec<u8> = Vec::new();
    let mut i: usize = 0;
    while i < value.bytes.len()
        invariant
            i <= value.bytes@.len(),
            bytes@ == value.bytes@.subrange(0, i as int),
        decreases value.bytes@.len() - i,
    {
        bytes.push(value.bytes[i]);
        i += 1;
    }
    assert(value.bytes@.subrange(0, value.bytes@.len() as int) == value.bytes@);
    let mut references: Vec<usize> = Vec::new();
    let mut j: usize = 0;
    while j < value.references.len()
        invariant
            j <= value.references@.len(),
            references@ == value.references@.subrange(0, j as int),
        decreases value.references@.len() - j,
    {
        references.push(value.references[j]);
        j += 1;
    }
    assert(value.references@.subrange(0, value.references@.len() as int) == value.references@);
    OpaqueValue { bytes, references }
}

} // verus!
