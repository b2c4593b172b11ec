//! The heap as a mathematical value.
//!
//! Every operation of the arena is stated here first, as a function from one
//! [`HeapModel`] to the next, together with the invariant that ties the
//! counts to the references that are stored in the heap itself.

use vstd::prelude::*;
use crate::refcount::{InlineRefCounts, WEAK_BASELINE};

verus! {

/// Where an object stands between allocation and the return of its memory.
#[derive(Clone, Copy, Debug, PartialEq, Eq, Structural)]
pub enum Phase {
    /// At least one strong reference exists.
    Live,
    /// The last strong reference is gone and the owner is tearing the
    /// object down by hand.
    Deiniting,
    /// The payload is destroyed; the header stays because an unowned
    /// reference or a weak reference slot still looks at it.
    Deinited,
    /// The memory is back with the allocator.
    Freed,
}

/// What a value buffer holds: plain data, and the strong references that
/// the value holds.  An address of zero among them refers to nothing.
pub struct ValueModel {
    /// The plain data, copied bit by bit and destroyed by forgetting it.
    pub bytes: Seq<u8>,
    /// The addresses of the objects that the value holds a strong
    /// reference to.
    pub references: Seq<usize>,
}

/// One object of the heap.
pub struct ObjectModel {
    /// The address of the object's type descriptor.
    pub metadata: usize,
    /// The reference counts.
    pub counts: InlineRefCounts,
    /// The object's phase.
    pub phase: Phase,
    /// The payload, where it is initialised and not yet destroyed.
    pub payload: Option<ValueModel>,
    /// How often a release has torn the payload down.
    pub teardowns: nat,
    /// The size that the object was allocated with.
    pub size: usize,
    /// The alignment mask that the object was allocated with.
    pub align_mask: usize,
}

impl ObjectModel {
    /// An object as its allocation leaves it.
    pub open spec fn fresh(metadata: usize, size: usize, align_mask: usize) -> Self {
        ObjectModel {
            metadata,
            counts: InlineRefCounts::fresh(),
            phase: Phase::Live,
            payload: None,
            teardowns: 0,
            size,
            align_mask,
        }
    }

    /// The addresses that the payload holds a strong reference to.
    pub open spec fn references(self) -> Seq<usize> {
        match self.payload {
            Some(value) => value.references,
            None => Seq::empty(),
        }
    }

    /// The object has a type descriptor, and the counts, the phase and the
    /// payload agree.
    pub open spec fn wf(self) -> bool {
        &&& self.metadata != 0
        &&& self.counts.wf()
        &&& self.phase == Phase::Live <==> !self.counts.deallocating
        &&& self.phase == Phase::Live ==> self.teardowns == 0
        &&& self.teardowns <= 1
        &&& self.phase == Phase::Deinited ==> self.payload is None && !self.counts.at_baseline()
        &&& self.phase == Phase::Freed ==> self.payload is None && self.counts.at_baseline()
    }

    /// The same object with other counts.
    pub open spec fn with_counts(self, counts: InlineRefCounts) -> Self {
        ObjectModel { counts, ..self }
    }

    /// The same object with another payload.
    pub open spec fn with_payload(self, payload: Option<ValueModel>) -> Self {
        ObjectModel { payload, ..self }
    }

    /// A deinited object whose last unowned reference and weak reference
    /// slot are gone gives its memory back; any other object stays as it is.
    pub open spec fn settled(self) -> Self {
        if self.phase == Phase::Deinited && self.counts.at_baseline() {
            ObjectModel { phase: Phase::Freed, ..self }
        } else {
            self
        }
    }

    /// The object after its last strong reference was released: the payload
    /// is destroyed, and the memory is given back unless something still
    /// looks at the header.
    pub open spec fn torn_down(self) -> Self {
        ObjectModel {
            counts: self.counts.released(1),
            phase: Phase::Deinited,
            payload: None,
            teardowns: self.teardowns + 1,
            ..self
        }.settled()
    }
}

/// How often `a` occurs in `s`.
pub open spec fn count(s: Seq<usize>, a: usize) -> nat
    decreases s.len(),
{
    if s.len() == 0 {
        0
    } else {
        count(s.drop_last(), a) + if s.last() == a {
            1nat
        } else {
            0nat
        }
    }
}

/// Replacing one element changes the count of a value by what left and what
/// came.
pub proof fn lemma_count_update(s: Seq<usize>, i: int, v: usize, a: usize)
    requires
        0 <= i < s.len(),
    ensures
        count(s.update(i, v), a) + (if s[i] == a { 1nat } else { 0nat })
            == count(s, a) + (if v == a { 1nat } else { 0nat }),
    decreases s.len(),
{
    let t = s.update(i, v);
    if i == s.len() - 1 {
        assert(t.drop_last() =~= s.drop_last());
    } else {
        assert(t.drop_last() =~= s.drop_last().update(i, v));
        lemma_count_update(s.drop_last(), i, v, a);
    }
}

/// Appending one element changes the count of a value by one if it is that
/// value.
pub proof fn lemma_count_push(s: Seq<usize>, v: usize, a: usize)
    ensures
        count(s.push(v), a) == count(s, a) + (if v == a { 1nat } else { 0nat }),
{
    assert(s.push(v).drop_last() =~= s);
}

/// A value that occurs is counted.
pub proof fn lemma_count_positive(s: Seq<usize>, i: int, a: usize)
    requires
        0 <= i < s.len(),
        s[i] == a,
    ensures
        count(s, a) >= 1,
    decreases s.len(),
{
    if i < s.len() - 1 {
        lemma_count_positive(s.drop_last(), i, a);
    }
}

/// A value that does not occur is not counted.
pub proof fn lemma_count_absent(s: Seq<usize>, a: usize)
    requires
        forall|i: int| 0 <= i < s.len() ==> s[i] != a,
    ensures
        count(s, a) == 0,
    decreases s.len(),
{
    if s.len() > 0 {
        lemma_count_absent(s.drop_last(), a);
    }
}

/// A value that is counted occurs.
pub proof fn lemma_count_occurs(s: Seq<usize>, a: usize) -> (i: int)
    requires
        count(s, a) > 0,
    ensures
        0 <= i < s.len(),
        s[i] == a,
    decreases s.len(),
{
    if s.last() == a {
        s.len() - 1
    } else {
        lemma_count_occurs(s.drop_last(), a)
    }
}

/// The count in two sequences, one behind the other, is the sum of the
/// counts.
pub proof fn lemma_count_add(s: Seq<usize>, t: Seq<usize>, a: usize)
    ensures
        count(s + t, a) == count(s, a) + count(t, a),
    decreases t.len(),
{
    if t.len() == 0 {
        assert(s + t =~= s);
    } else {
        assert((s + t).drop_last() =~= s + t.drop_last());
        lemma_count_add(s, t.drop_last(), a);
    }
}

/// The start of a sequence holds no more of a value than the whole.
pub proof fn lemma_count_take(s: Seq<usize>, k: int, a: usize)
    requires
        0 <= k <= s.len(),
    ensures
        count(s.take(k), a) <= count(s, a),
{
    assert(s =~= s.take(k) + s.skip(k));
    lemma_count_add(s.take(k), s.skip(k), a);
}

/// The sum of the strong counts.
pub open spec fn total_strong(objects: Seq<ObjectModel>) -> nat
    decreases objects.len(),
{
    if objects.len() == 0 {
        0
    } else {
        total_strong(objects.drop_last()) + objects.last().counts.strong as nat
    }
}

/// Replacing one object changes the sum by the difference of the strong
/// counts.
pub proof fn lemma_total_strong_update(objects: Seq<ObjectModel>, i: int, o: ObjectModel)
    requires
        0 <= i < objects.len(),
    ensures
        total_strong(objects.update(i, o)) + objects[i].counts.strong == total_strong(objects)
            + o.counts.strong,
    decreases objects.len(),
{
    let t = objects.update(i, o);
    if i == objects.len() - 1 {
        assert(t.drop_last() =~= objects.drop_last());
    } else {
        assert(t.drop_last() =~= objects.drop_last().update(i, o));
        lemma_total_strong_update(objects.drop_last(), i, o);
    }
}

/// How many strong references to `a` the payloads of `objects` hold.
pub open spec fn held_in(objects: Seq<ObjectModel>, a: usize) -> nat
    decreases objects.len(),
{
    if objects.len() == 0 {
        0
    } else {
        held_in(objects.drop_last(), a) + count(objects.last().references(), a)
    }
}

/// Replacing one object changes the references that are held by what its
/// old payload held and what its new payload holds.
pub proof fn lemma_held_update(objects: Seq<ObjectModel>, i: int, o: ObjectModel, a: usize)
    requires
        0 <= i < objects.len(),
    ensures
        held_in(objects.update(i, o), a) + count(objects[i].references(), a) == held_in(
            objects,
            a,
        ) + count(o.references(), a),
    decreases objects.len(),
{
    let t = objects.update(i, o);
    if i == objects.len() - 1 {
        assert(t.drop_last() =~= objects.drop_last());
    } else {
        assert(t.drop_last() =~= objects.drop_last().update(i, o));
        lemma_held_update(objects.drop_last(), i, o, a);
    }
}

/// One more object adds the references that its payload holds.
pub proof fn lemma_held_push(objects: Seq<ObjectModel>, o: ObjectModel, a: usize)
    ensures
        held_in(objects.push(o), a) == held_in(objects, a) + count(o.references(), a),
{
    assert(objects.push(o).drop_last() =~= objects);
}

/// What one payload holds is among what all payloads hold.
pub proof fn lemma_held_covers(objects: Seq<ObjectModel>, i: int, a: usize)
    requires
        0 <= i < objects.len(),
    ensures
        held_in(objects, a) >= count(objects[i].references(), a),
    decreases objects.len(),
{
    if i < objects.len() - 1 {
        lemma_held_covers(objects.drop_last(), i, a);
    }
}

/// What no payload refers to is not held.
pub proof fn lemma_held_absent(objects: Seq<ObjectModel>, a: usize)
    requires
        forall|i: int, j: int|
            0 <= i < objects.len() && 0 <= j < objects[i].references().len()
                ==> #[trigger] objects[i].references()[j] != a,
    ensures
        held_in(objects, a) == 0,
    decreases objects.len(),
{
    if objects.len() > 0 {
        let last = objects.last();
        assert forall|j: int| 0 <= j < last.references().len() implies last.references()[j]
            != a by {
            assert(objects[objects.len() - 1].references()[j] != a);
        }
        lemma_count_absent(last.references(), a);
        assert forall|i: int, j: int|
            0 <= i < objects.drop_last().len() && 0 <= j < objects.drop_last()[i].references().len()
                implies #[trigger] objects.drop_last()[i].references()[j] != a by {
            assert(objects[i].references()[j] != a);
        }
        lemma_held_absent(objects.drop_last(), a);
    }
}

/// Objects with the same payload references hold the same.
pub proof fn lemma_held_same(first: Seq<ObjectModel>, second: Seq<ObjectModel>, a: usize)
    requires
        first.len() == second.len(),
        forall|i: int| 0 <= i < first.len() ==> first[i].references() == second[i].references(),
    ensures
        held_in(first, a) == held_in(second, a),
    decreases first.len(),
{
    if first.len() > 0 {
        lemma_held_same(first.drop_last(), second.drop_last(), a);
    }
}

/// The heap: its objects, found by address, and its weak reference slots.
///
/// The object at address `a` is `objects[a - 1]`; no object has address
/// zero.  A slot is `None` once it is destroyed, and else holds the address
/// it is bound to, which may be zero.
pub struct HeapModel {
    /// The objects, in the order of their allocation.
    pub objects: Seq<ObjectModel>,
    /// The weak reference slots, in the order of their initialisation.
    pub slots: Seq<Option<usize>>,
}

impl HeapModel {
    /// The heap with nothing in it.
    pub open spec fn empty() -> Self {
        HeapModel { objects: Seq::empty(), slots: Seq::empty() }
    }

    /// Whether `a` is the address of an object.
    pub open spec fn has(self, a: usize) -> bool {
        1 <= a <= self.objects.len()
    }

    /// The object at address `a`.
    pub open spec fn at(self, a: usize) -> ObjectModel {
        self.objects[a - 1]
    }

    /// The heap with the object at `a` replaced.
    pub open spec fn with_object(self, a: usize, o: ObjectModel) -> Self {
        HeapModel { objects: self.objects.update(a - 1, o), ..self }
    }

    /// Whether `a` is the address of an object whose header can be read.
    pub open spec fn allocated(self, a: usize) -> bool {
        self.has(a) && self.at(a).phase != Phase::Freed
    }

    /// Whether `a` is the address of an object with a strong reference.
    pub open spec fn live(self, a: usize) -> bool {
        self.has(a) && self.at(a).phase == Phase::Live
    }

    /// How many strong references to `a` the payloads in the heap hold.
    pub open spec fn held(self, a: usize) -> nat {
        held_in(self.objects, a)
    }

    /// For each slot, the address that it is bound to, or zero.
    pub open spec fn targets(self) -> Seq<usize> {
        Seq::new(
            self.slots.len(),
            |i: int|
                match self.slots[i] {
                    Some(target) => target,
                    None => 0,
                },
        )
    }

    /// How many slots are bound to `a`.
    pub open spec fn bound(self, a: usize) -> nat {
        count(self.targets(), a)
    }

    /// Whether a strong reference to `a` exists that no payload in the heap
    /// accounts for: one that a caller can hold.
    pub open spec fn releasable(self, a: usize) -> bool {
        self.has(a) && self.at(a).counts.strong > self.held(a)
    }

    /// Whether the strong references in `pending` are all ones that no
    /// payload in the heap accounts for, each as often as it occurs: ones
    /// that a caller can hold together.  Zero among them refers to nothing.
    pub open spec fn covered(self, pending: Seq<usize>) -> bool {
        &&& forall|a: usize|
            #![trigger self.at(a)]
            self.has(a) ==> self.at(a).counts.strong >= self.held(a) + count(pending, a)
        &&& forall|j: int| 0 <= j < pending.len() ==> #[trigger] pending[j] <= self.objects.len()
    }

    /// Whether every reference in `references` points at nothing or at an
    /// object with a strong reference.
    pub open spec fn all_live(self, references: Seq<usize>) -> bool {
        forall|j: int|
            0 <= j < references.len() ==> #[trigger] references[j] == 0 || self.live(
                references[j],
            )
    }

    /// Whether `value` can be read by a caller: every reference in it
    /// points at nothing or at a live object.
    pub open spec fn holds(self, value: ValueModel) -> bool {
        self.all_live(value.references)
    }

    /// Whether `value` is held by a caller: its references are ones that no
    /// payload in the heap accounts for.
    pub open spec fn owns(self, value: ValueModel) -> bool {
        self.covered(value.references)
    }

    /// Whether `s` is the address of a slot that has not been destroyed.
    pub open spec fn has_slot(self, s: usize) -> bool {
        1 <= s <= self.slots.len() && self.slots[s - 1] is Some
    }

    /// The address that slot `s` is bound to.
    pub open spec fn target(self, s: usize) -> usize {
        self.slots[s - 1]->0
    }

    /// The invariant of the heap.  Every object is consistent in itself.
    /// Every strong reference that a payload holds and every bound slot
    /// points into the heap and is counted: the strong count covers the
    /// payload references, and the weak count is the number of bound slots
    /// above its baseline.  Every object and every slot has an address.
    pub open spec fn wf(self) -> bool {
        &&& forall|a: usize|
            #![trigger self.at(a)]
            self.has(a) ==> {
                &&& self.at(a).wf()
                &&& self.at(a).counts.strong >= self.held(a)
                &&& self.at(a).counts.weak == WEAK_BASELINE + self.bound(a)
            }
        &&& forall|i: int, j: int|
            0 <= i < self.objects.len() && 0 <= j < self.objects[i].references().len()
                ==> #[trigger] self.objects[i].references()[j] <= self.objects.len()
        &&& forall|i: int|
            0 <= i < self.slots.len() ==> #[trigger] self.targets()[i] <= self.objects.len()
        &&& self.objects.len() <= usize::MAX
        &&& self.slots.len() <= usize::MAX
    }

    /// The heap after an allocation.  The new object's address is the number
    /// of objects after it.
    pub open spec fn allocate(self, metadata: usize, size: usize, align_mask: usize) -> Self {
        HeapModel {
            objects: self.objects.push(ObjectModel::fresh(metadata, size, align_mask)),
            ..self
        }
    }

    /// The heap after `n` strong retains of `a`.  Nothing happens at
    /// address zero.
    pub open spec fn retain(self, a: usize, n: int) -> Self {
        if a == 0 {
            self
        } else {
            self.with_object(a, self.at(a).with_counts(self.at(a).counts.retained(n)))
        }
    }

    /// The heap after one strong retain for every reference in
    /// `references`.
    pub open spec fn retain_all(self, references: Seq<usize>) -> Self {
        HeapModel {
            objects: Seq::new(
                self.objects.len(),
                |i: int|
                    self.objects[i].with_counts(
                        self.objects[i].counts.retained(count(references, (i + 1) as usize) as int),
                    ),
            ),
            ..self
        }
    }

    /// The heap after one strong release for every reference in `pending`,
    /// the last of them first.  Nothing happens at address zero.  The
    /// release of the last strong reference to an object tears it down,
    /// and with it go the strong references that its payload held: they are
    /// released in turn.
    pub open spec fn release_all(self, pending: Seq<usize>) -> Self
        decreases total_strong(self.objects), pending.len(),
    {
        if pending.len() == 0 {
            self
        } else if !self.has(pending.last()) || self.at(pending.last()).counts.strong == 0 {
            self.release_all(pending.drop_last())
        } else if self.at(pending.last()).counts.strong > 1 {
            proof {
                lemma_total_strong_update(
                    self.objects,
                    pending.last() - 1,
                    self.at(pending.last()).with_counts(
                        self.at(pending.last()).counts.released(1),
                    ),
                );
            }
            self.with_object(
                pending.last(),
                self.at(pending.last()).with_counts(self.at(pending.last()).counts.released(1)),
            ).release_all(pending.drop_last())
        } else {
            proof {
                lemma_total_strong_update(
                    self.objects,
                    pending.last() - 1,
                    self.at(pending.last()).torn_down(),
                );
            }
            self.with_object(pending.last(), self.at(pending.last()).torn_down()).release_all(
                pending.drop_last() + self.at(pending.last()).references(),
            )
        }
    }

    /// The heap after one strong release of `a`.
    pub open spec fn release(self, a: usize) -> Self {
        self.release_all(seq![a])
    }

    /// The heap after `n` strong releases of `a`.
    pub open spec fn release_n(self, a: usize, n: int) -> Self {
        if a == 0 || n == 0 {
            self
        } else {
            self.with_object(
                a,
                self.at(a).with_counts(self.at(a).counts.released(n - 1)),
            ).release(a)
        }
    }

    /// The heap after the one owner of `a` has declared that it gives the
    /// object up and tears it down by hand: the strong count is zero, the
    /// flag is up, and the payload is still there.
    pub open spec fn set_deallocating(self, a: usize) -> Self {
        self.with_object(
            a,
            ObjectModel {
                counts: self.at(a).counts.released(1),
                phase: Phase::Deiniting,
                ..self.at(a)
            },
        )
    }

    /// The heap after the memory of `a`, torn down by hand, was handed
    /// back.  The header stays while an unowned reference or a weak
    /// reference slot looks at it.
    pub open spec fn dealloc(self, a: usize) -> Self {
        self.with_object(a, ObjectModel { phase: Phase::Deinited, ..self.at(a) }.settled())
    }

    /// The heap after `n` unowned retains of `a`.  Nothing happens at
    /// address zero.
    pub open spec fn unowned_retain(self, a: usize, n: int) -> Self {
        if a == 0 {
            self
        } else {
            self.with_object(a, self.at(a).with_counts(self.at(a).counts.unowned_retained(n)))
        }
    }

    /// The heap after `n` unowned releases of `a`.  Nothing happens at
    /// address zero.  If the object was only kept for its header and this
    /// was the last look at it, its memory is given back.
    pub open spec fn unowned_release(self, a: usize, n: int) -> Self {
        if a == 0 {
            self
        } else {
            self.with_object(
                a,
                self.at(a).with_counts(self.at(a).counts.unowned_released(n)).settled(),
            )
        }
    }

    /// The heap after one more slot was bound to `a`, the slots aside.
    pub open spec fn bind(self, a: usize) -> Self {
        if a == 0 {
            self
        } else {
            self.with_object(a, self.at(a).with_counts(self.at(a).counts.weak_retained()))
        }
    }

    /// The heap after one slot was unbound from `a`, the slots aside.  If
    /// the object was only kept for its header and this was the last look at
    /// it, its memory is given back.
    pub open spec fn unbind(self, a: usize) -> Self {
        if a == 0 {
            self
        } else {
            self.with_object(a, self.at(a).with_counts(self.at(a).counts.weak_released()).settled())
        }
    }

    /// The heap with slot number `i` replaced.
    pub open spec fn with_slot(self, i: int, slot: Option<usize>) -> Self {
        HeapModel { slots: self.slots.update(i, slot), ..self }
    }

    /// The heap after a new slot was bound to `value`.  The new slot's
    /// address is the number of slots after it.
    pub open spec fn weak_init(self, value: usize) -> Self {
        HeapModel { slots: self.slots.push(Some(value)), ..self.bind(value) }
    }

    /// The heap after slot `s` was bound to `value` in place of what it was
    /// bound to.
    pub open spec fn weak_assign(self, s: usize, value: usize) -> Self {
        self.bind(value).unbind(self.target(s)).with_slot(s - 1, Some(value))
    }

    /// The heap after slot `s` was unbound and its storage given up.
    pub open spec fn weak_destroy(self, s: usize) -> Self {
        self.unbind(self.target(s)).with_slot(s - 1, None)
    }

    /// What a load from slot `s` returns: the object that the slot is bound
    /// to if it still has a strong reference, and else zero.
    pub open spec fn loaded(self, s: usize) -> usize {
        if self.live(self.target(s)) {
            self.target(s)
        } else {
            0
        }
    }

    /// The heap after a load from slot `s`: the object that is returned has
    /// one strong reference more.
    pub open spec fn weak_load_strong(self, s: usize) -> Self {
        self.retain(self.loaded(s), 1)
    }

    /// The heap after a take from slot `s`: a load, and the end of the slot.
    pub open spec fn weak_take_strong(self, s: usize) -> Self {
        self.weak_load_strong(s).weak_destroy(s)
    }

    /// The payload of the object at `a`.
    pub open spec fn payload(self, a: usize) -> Option<ValueModel> {
        self.at(a).payload
    }

    /// The heap after `value` was moved into the empty payload of `a`.
    pub open spec fn store_payload(self, a: usize, value: ValueModel) -> Self {
        self.with_object(a, self.at(a).with_payload(Some(value)))
    }

    /// The heap after the payload of `a` was moved out.
    pub open spec fn take_payload(self, a: usize) -> Self {
        self.with_object(a, self.at(a).with_payload(None))
    }

    /// The heap after the box `b` was copied: a new box is allocated and the
    /// payload of `b` is copied into it, which retains what the payload
    /// refers to.
    pub open spec fn copy_box(
        self,
        b: usize,
        metadata: usize,
        size: usize,
        align_mask: usize,
    ) -> Self {
        let n = (self.objects.len() + 1) as usize;
        let copied = self.allocate(metadata, size, align_mask).retain_all(
            self.at(b).references(),
        );
        copied.with_object(n, copied.at(n).with_payload(self.at(b).payload))
    }

    /// The heap after the reference to the box `b` that a caller holds was
    /// made the only one.  A box with one strong reference stays as it is.
    /// Else the box is copied and the caller's strong reference to `b` is
    /// released.
    pub open spec fn make_box_unique(
        self,
        b: usize,
        metadata: usize,
        size: usize,
        align_mask: usize,
    ) -> Self {
        if self.at(b).counts.strong == 1 {
            self
        } else {
            self.copy_box(b, metadata, size, align_mask).release(b)
        }
    }
}

/// What the replacement of one object does to the references and to the
/// bound slots: the slots do not change, and what is held changes by what
/// the old payload held and what the new payload holds.
pub proof fn lemma_with_object(h: HeapModel, a: usize, o: ObjectModel)
    requires
        h.has(a),
    ensures
        h.with_object(a, o).targets() == h.targets(),
        h.with_object(a, o).objects.len() == h.objects.len(),
        h.with_object(a, o).slots == h.slots,
        forall|b: usize| #[trigger] h.with_object(a, o).bound(b) == h.bound(b),
        forall|b: usize|
            #[trigger] h.with_object(a, o).held(b) + count(h.at(a).references(), b) == h.held(b)
                + count(o.references(), b),
{
    let g = h.with_object(a, o);
    assert(g.targets() =~= h.targets());
    assert forall|b: usize|
        #[trigger] g.held(b) + count(h.at(a).references(), b) == h.held(b) + count(
            o.references(),
            b,
        ) by {
        lemma_held_update(h.objects, a - 1, o, b);
    }
}

/// The replacement of one object keeps the invariant if the new object is
/// consistent, keeps its weak count, refers into the heap, and every strong
/// count still covers the payload references after the change.
pub proof fn lemma_with_object_wf(h: HeapModel, a: usize, o: ObjectModel)
    requires
        h.wf(),
        h.has(a),
        o.wf(),
        o.counts.weak == h.at(a).counts.weak,
        forall|j: int|
            0 <= j < o.references().len() ==> #[trigger] o.references()[j] <= h.objects.len(),
        forall|b: usize|
            #![trigger h.at(b)]
            h.has(b) ==> (if b == a {
                o.counts.strong
            } else {
                h.at(b).counts.strong
            }) + count(h.at(a).references(), b) >= h.held(b) + count(o.references(), b),
    ensures
        h.with_object(a, o).wf(),
{
    let g = h.with_object(a, o);
    lemma_with_object(h, a, o);
    assert forall|b: usize| #![trigger g.at(b)] g.has(b) implies {
        &&& g.at(b).wf()
        &&& g.at(b).counts.strong >= g.held(b)
        &&& g.at(b).counts.weak == WEAK_BASELINE + g.bound(b)
    } by {
        assert(h.has(b));
        let _ = h.at(b);
        assert(g.bound(b) == h.bound(b));
        assert(g.held(b) + count(h.at(a).references(), b) == h.held(b) + count(
            o.references(),
            b,
        ));
    }
    assert forall|i: int, j: int|
        0 <= i < g.objects.len() && 0 <= j < g.objects[i].references().len() implies (
        #[trigger] g.objects[i].references()[j]) <= g.objects.len() by {
        if i != a - 1 {
            assert(h.objects[i].references()[j] <= h.objects.len());
        }
    }
}

/// A change of the counts of one object that leaves its weak count alone
/// and its strong count above the payload references keeps the invariant.
pub proof fn lemma_with_counts_wf(h: HeapModel, a: usize, o: ObjectModel)
    requires
        h.wf(),
        h.has(a),
        o.wf(),
        o.counts.weak == h.at(a).counts.weak,
        o.payload == h.at(a).payload,
        o.counts.strong >= h.held(a),
    ensures
        h.with_object(a, o).wf(),
        forall|b: usize| #[trigger] h.with_object(a, o).held(b) == h.held(b),
        forall|b: usize| #[trigger] h.with_object(a, o).bound(b) == h.bound(b),
{
    lemma_with_object(h, a, o);
    assert forall|j: int| 0 <= j < o.references().len() implies #[trigger] o.references()[j]
        <= h.objects.len() by {
        assert(h.objects[a - 1].references()[j] <= h.objects.len());
    }
    lemma_with_object_wf(h, a, o);
}

/// One release of a reference that is not the last one to its object is a
/// change of the count, and no more.
pub proof fn lemma_release_plain(h: HeapModel, a: usize)
    requires
        h.has(a),
        h.at(a).counts.strong > 1,
    ensures
        h.release(a) == h.with_object(a, h.at(a).with_counts(h.at(a).counts.released(1))),
{
    let pending = seq![a];
    assert(pending.last() == a);
    assert(pending.drop_last() =~= Seq::<usize>::empty());
    let g = h.with_object(a, h.at(a).with_counts(h.at(a).counts.released(1)));
    assert(g.release_all(Seq::<usize>::empty()) == g);
    assert(h.release_all(pending) == g.release_all(pending.drop_last()));
}

/// A release at an address without an object, such as zero, does nothing.
pub proof fn lemma_release_nothing(h: HeapModel, a: usize)
    requires
        !h.has(a),
    ensures
        h.release(a) == h,
{
    let pending = seq![a];
    assert(pending.last() == a);
    assert(pending.drop_last() =~= Seq::<usize>::empty());
    assert(h.release_all(Seq::<usize>::empty()) == h);
    assert(h.release_all(pending) == h.release_all(pending.drop_last()));
}

/// The release of the last reference to an object tears it down and goes
/// on with what its payload held.
pub proof fn lemma_release_last(h: HeapModel, a: usize)
    requires
        h.has(a),
        h.at(a).counts.strong == 1,
    ensures
        h.release(a) == h.with_object(a, h.at(a).torn_down()).release_all(h.at(a).references()),
{
    let pending = seq![a];
    assert(pending.last() == a);
    assert(pending.drop_last() =~= Seq::<usize>::empty());
    assert(pending.drop_last() + h.at(a).references() =~= h.at(a).references());
}

/// A caller that holds one strong reference holds the sequence of it.
pub proof fn lemma_covered_one(h: HeapModel, a: usize)
    requires
        h.wf(),
        a != 0 ==> h.releasable(a),
    ensures
        h.covered(seq![a]),
{
    let pending = seq![a];
    assert forall|b: usize| #![trigger h.at(b)] h.has(b) implies h.at(b).counts.strong
        >= h.held(b) + count(pending, b) by {
        assert(pending.drop_last() =~= Seq::<usize>::empty());
        assert(pending.last() == a);
        assert(count(pending.drop_last(), b) == 0);
        assert(count(pending, b) == if a == b { 1nat } else { 0nat });
    }
}

/// One step of a teardown keeps the invariant and leaves the caller
/// holding what is still to release.
pub proof fn lemma_release_step(h: HeapModel, pending: Seq<usize>)
    requires
        h.wf(),
        h.covered(pending),
        pending.len() > 0,
    ensures
        ({
            let x = pending.last();
            let rest = pending.drop_last();
            if !h.has(x) {
                h.covered(rest)
            } else if h.at(x).counts.strong > 1 {
                let g = h.with_object(x, h.at(x).with_counts(h.at(x).counts.released(1)));
                g.wf() && g.covered(rest)
            } else {
                let g = h.with_object(x, h.at(x).torn_down());
                h.at(x).counts.strong == 1 && g.wf() && g.covered(rest + h.at(x).references())
            }
        }),
{
    let x = pending.last();
    let rest = pending.drop_last();
    assert(pending =~= rest.push(x));
    assert forall|b: usize| count(pending, b) == count(rest, b) + (if x == b {
        1nat
    } else {
        0nat
    }) by {
        lemma_count_push(rest, x, b);
    }
    if !h.has(x) {
        assert forall|b: usize| #![trigger h.at(b)] h.has(b) implies h.at(b).counts.strong
            >= h.held(b) + count(rest, b) by {}
    } else {
        let _ = h.at(x);
        assert(count(pending, x) == count(rest, x) + 1);
        if h.at(x).counts.strong > 1 {
            let o = h.at(x).with_counts(h.at(x).counts.released(1));
            let g = h.with_object(x, o);
            lemma_with_counts_wf(h, x, o);
            assert forall|b: usize| #![trigger g.at(b)] g.has(b) implies g.at(b).counts.strong
                >= g.held(b) + count(rest, b) by {
                let _ = h.at(b);
            }
        } else {
            let o = h.at(x).torn_down();
            let g = h.with_object(x, o);
            let refs = h.at(x).references();
            lemma_held_covers(h.objects, x - 1, x);
            lemma_with_object(h, x, o);
            assert(o.references() =~= Seq::<usize>::empty());
            lemma_with_object_wf(h, x, o);
            assert forall|b: usize| #![trigger g.at(b)] g.has(b) implies g.at(b).counts.strong
                >= g.held(b) + count(rest + refs, b) by {
                let _ = h.at(b);
                lemma_count_add(rest, refs, b);
                assert(g.held(b) + count(refs, b) == h.held(b) + count(o.references(), b));
            }
            assert forall|j: int| 0 <= j < (rest + refs).len() implies #[trigger] (rest
                + refs)[j] <= g.objects.len() by {
                if j < rest.len() {
                    assert(pending[j] <= h.objects.len());
                } else {
                    assert(h.objects[x - 1].references()[j - rest.len()] <= h.objects.len());
                }
            }
        }
    }
}

/// The release of strong references that a caller holds keeps the
/// invariant, however far the teardown runs.
pub proof fn lemma_release_all_wf(h: HeapModel, pending: Seq<usize>)
    requires
        h.wf(),
        h.covered(pending),
    ensures
        h.release_all(pending).wf(),
        h.release_all(pending).objects.len() == h.objects.len(),
        h.release_all(pending).slots == h.slots,
    decreases total_strong(h.objects), pending.len(),
{
    if pending.len() > 0 {
        let x = pending.last();
        let rest = pending.drop_last();
        lemma_release_step(h, pending);
        if !h.has(x) {
            lemma_release_all_wf(h, rest);
        } else if h.at(x).counts.strong > 1 {
            let o = h.at(x).with_counts(h.at(x).counts.released(1));
            lemma_total_strong_update(h.objects, x - 1, o);
            lemma_release_all_wf(h.with_object(x, o), rest);
        } else {
            let o = h.at(x).torn_down();
            lemma_total_strong_update(h.objects, x - 1, o);
            lemma_release_all_wf(h.with_object(x, o), rest + h.at(x).references());
        }
    }
}

/// The release of a strong reference that a caller holds keeps the
/// invariant, however far the teardown runs.
pub proof fn lemma_release_wf(h: HeapModel, a: usize)
    requires
        h.wf(),
        a == 0 || h.releasable(a),
    ensures
        h.release(a).wf(),
        h.release(a).objects.len() == h.objects.len(),
        h.release(a).slots == h.slots,
{
    lemma_covered_one(h, a);
    lemma_release_all_wf(h, seq![a]);
}

/// An allocation keeps the invariant, and nothing refers to the new object
/// yet.
pub proof fn lemma_allocate_wf(
    h: HeapModel,
    n: usize,
    metadata: usize,
    size: usize,
    align_mask: usize,
)
    requires
        h.wf(),
        n == h.objects.len() + 1,
        metadata != 0,
    ensures
        h.allocate(metadata, size, align_mask).wf(),
        h.held(n) == 0,
        h.bound(n) == 0,
        forall|b: usize| #[trigger] h.allocate(metadata, size, align_mask).held(b) == h.held(b),
        forall|b: usize| #[trigger] h.allocate(metadata, size, align_mask).bound(b) == h.bound(b),
{
    let g = h.allocate(metadata, size, align_mask);
    let fresh = ObjectModel::fresh(metadata, size, align_mask);
    assert(g.targets() =~= h.targets());
    assert(fresh.references() =~= Seq::<usize>::empty());
    assert forall|i: int, j: int|
        0 <= i < h.objects.len() && 0 <= j < h.objects[i].references().len()
            implies #[trigger] h.objects[i].references()[j] != n by {
        assert(h.objects[i].references()[j] <= h.objects.len());
    }
    lemma_held_absent(h.objects, n);
    lemma_count_absent(h.targets(), n);
    assert forall|b: usize| #[trigger] g.held(b) == h.held(b) by {
        lemma_held_push(h.objects, fresh, b);
    }
    assert forall|b: usize| #![trigger g.at(b)] g.has(b) implies {
        &&& g.at(b).wf()
        &&& g.at(b).counts.strong >= g.held(b)
        &&& g.at(b).counts.weak == WEAK_BASELINE + g.bound(b)
    } by {
        assert(g.held(b) == h.held(b));
        if h.has(b) {
            let _ = h.at(b);
        }
    }
    assert forall|i: int, j: int|
        0 <= i < g.objects.len() && 0 <= j < g.objects[i].references().len() implies (
        #[trigger] g.objects[i].references()[j]) <= g.objects.len() by {
        if i < h.objects.len() {
            assert(h.objects[i].references()[j] <= h.objects.len());
        }
    }
    assert forall|i: int| 0 <= i < g.slots.len() implies #[trigger] g.targets()[i]
        <= g.objects.len() by {
        assert(g.targets()[i] == h.targets()[i]);
    }
}

/// What the replacement of one slot does to the bound slots: the payload
/// references do not change, and only the old and the new target are
/// counted differently.
pub proof fn lemma_with_slot(h: HeapModel, i: int, slot: Option<usize>)
    requires
        0 <= i < h.slots.len(),
    ensures
        h.with_slot(i, slot).objects == h.objects,
        forall|b: usize| #[trigger] h.with_slot(i, slot).held(b) == h.held(b),
        forall|b: usize|
            #[trigger] h.with_slot(i, slot).bound(b) + (if h.targets()[i] == b {
                1nat
            } else {
                0nat
            }) == h.bound(b) + (if slot == Some(b) {
                1nat
            } else if slot is None && b == 0 {
                1nat
            } else {
                0nat
            }),
{
    let g = h.with_slot(i, slot);
    let t: usize = match slot {
        Some(target) => target,
        None => 0,
    };
    assert(g.targets() =~= h.targets().update(i, t));
    assert forall|b: usize|
        #[trigger] g.bound(b) + (if h.targets()[i] == b {
            1nat
        } else {
            0nat
        }) == h.bound(b) + (if slot == Some(b) {
            1nat
        } else if slot is None && b == 0 {
            1nat
        } else {
            0nat
        }) by {
        lemma_count_update(h.targets(), i, t, b);
    }
}

/// The hand-over of an object to its one owner for teardown keeps the
/// invariant.
pub proof fn lemma_set_deallocating_wf(h: HeapModel, a: usize)
    requires
        h.wf(),
        h.releasable(a),
        h.at(a).counts.strong == 1,
    ensures
        h.set_deallocating(a).wf(),
{
    let o = ObjectModel {
        counts: h.at(a).counts.released(1),
        phase: Phase::Deiniting,
        ..h.at(a)
    };
    lemma_with_counts_wf(h, a, o);
}

/// The return of the memory of an object that was torn down by hand keeps
/// the invariant.
pub proof fn lemma_dealloc_wf(h: HeapModel, a: usize)
    requires
        h.wf(),
        h.has(a),
        h.at(a).phase == Phase::Deiniting,
        h.at(a).payload is None,
    ensures
        h.dealloc(a).wf(),
{
    lemma_with_counts_wf(h, a, ObjectModel { phase: Phase::Deinited, ..h.at(a) }.settled());
}

/// Unowned retains keep the invariant.
pub proof fn lemma_unowned_retain_wf(h: HeapModel, a: usize, n: int)
    requires
        h.wf(),
        a != 0 ==> h.allocated(a) && 0 <= n && h.at(a).counts.unowned + n <= usize::MAX,
    ensures
        h.unowned_retain(a, n).wf(),
{
    if a != 0 {
        lemma_with_counts_wf(h, a, h.at(a).with_counts(h.at(a).counts.unowned_retained(n)));
    }
}

/// Unowned releases that leave the strong references their unit keep the
/// invariant.
pub proof fn lemma_unowned_release_wf(h: HeapModel, a: usize, n: int)
    requires
        h.wf(),
        a != 0 ==> h.allocated(a) && 0 <= n < h.at(a).counts.unowned,
    ensures
        h.unowned_release(a, n).wf(),
{
    if a != 0 {
        lemma_with_counts_wf(
            h,
            a,
            h.at(a).with_counts(h.at(a).counts.unowned_released(n)).settled(),
        );
    }
}

/// A change of the weak counts together with a change of the slots keeps
/// the invariant if the two agree.
proof fn lemma_rebind_wf(h: HeapModel, g: HeapModel)
    requires
        h.wf(),
        g.objects.len() == h.objects.len(),
        h.slots.len() <= g.slots.len() <= usize::MAX,
        forall|b: usize|
            #![trigger g.at(b)]
            h.has(b) ==> {
                &&& g.at(b).wf()
                &&& g.at(b).payload == h.at(b).payload
                &&& g.at(b).counts.strong == h.at(b).counts.strong
                &&& g.at(b).counts.weak == WEAK_BASELINE + g.bound(b)
            },
        forall|i: int| 0 <= i < g.slots.len() ==> #[trigger] g.targets()[i] <= g.objects.len(),
    ensures
        g.wf(),
        forall|b: usize| #[trigger] g.held(b) == h.held(b),
{
    assert forall|i: int| 0 <= i < h.objects.len() implies h.objects[i].references()
        == g.objects[i].references() by {
        let b = (i + 1) as usize;
        let _ = g.at(b);
        let _ = h.at(b);
    }
    assert forall|b: usize| #[trigger] g.held(b) == h.held(b) by {
        lemma_held_same(h.objects, g.objects, b);
    }
    assert forall|b: usize| #![trigger g.at(b)] g.has(b) implies {
        &&& g.at(b).wf()
        &&& g.at(b).counts.strong >= g.held(b)
        &&& g.at(b).counts.weak == WEAK_BASELINE + g.bound(b)
    } by {
        let _ = h.at(b);
        assert(g.held(b) == h.held(b));
    }
    assert forall|i: int, j: int|
        0 <= i < g.objects.len() && 0 <= j < g.objects[i].references().len() implies (
        #[trigger] g.objects[i].references()[j]) <= g.objects.len() by {
        assert(h.objects[i].references()[j] <= h.objects.len());
    }
}

/// The binding of a new slot keeps the invariant.
pub proof fn lemma_weak_init_wf(h: HeapModel, value: usize)
    requires
        h.wf(),
        h.slots.len() < usize::MAX,
        value != 0 ==> h.allocated(value) && h.at(value).counts.weak < usize::MAX,
    ensures
        h.weak_init(value).wf(),
        forall|b: usize| #[trigger] h.weak_init(value).held(b) == h.held(b),
{
    let g = h.weak_init(value);
    assert(g.targets() =~= h.targets().push(value));
    if value != 0 {
        lemma_with_object(h, value, h.at(value).with_counts(h.at(value).counts.weak_retained()));
    }
    assert forall|b: usize| #![trigger g.at(b)] h.has(b) implies {
        &&& g.at(b).wf()
        &&& g.at(b).payload == h.at(b).payload
        &&& g.at(b).counts.strong == h.at(b).counts.strong
        &&& g.at(b).counts.weak == WEAK_BASELINE + g.bound(b)
    } by {
        let _ = h.at(b);
        lemma_count_push(h.targets(), value, b);
    }
    assert forall|i: int| 0 <= i < g.slots.len() implies #[trigger] g.targets()[i]
        <= g.objects.len() by {
        if i < h.slots.len() {
            assert(g.targets()[i] == h.targets()[i]);
        }
    }
    lemma_rebind_wf(h, g);
}

/// A slot that is bound to an object is counted in its weak count, so the
/// object's header is still there.
pub proof fn lemma_target_allocated(h: HeapModel, s: usize)
    requires
        h.wf(),
        h.has_slot(s),
        h.target(s) != 0,
    ensures
        h.allocated(h.target(s)),
        h.at(h.target(s)).counts.weak > WEAK_BASELINE,
        h.bound(h.target(s)) >= 1,
{
    let t = h.target(s);
    assert(h.targets()[s - 1] == t);
    lemma_count_positive(h.targets(), s - 1, t);
    let _ = h.at(t);
}

/// The end of a slot keeps the invariant, and leaves the strong counts and
/// the payloads as they are.
pub proof fn lemma_weak_destroy_wf(h: HeapModel, s: usize)
    requires
        h.wf(),
        h.has_slot(s),
    ensures
        h.weak_destroy(s).wf(),
        h.weak_destroy(s).objects.len() == h.objects.len(),
        forall|b: usize|
            h.has(b) ==> (#[trigger] h.weak_destroy(s).at(b)).counts.strong == h.at(
                b,
            ).counts.strong && h.weak_destroy(s).at(b).payload == h.at(b).payload,
        forall|b: usize| #[trigger] h.weak_destroy(s).held(b) == h.held(b),
{
    let t = h.target(s);
    let m = h.unbind(t);
    let g = h.weak_destroy(s);
    assert(h.targets()[s - 1] == t);
    if t != 0 {
        lemma_target_allocated(h, s);
        lemma_with_object(h, t, h.at(t).with_counts(h.at(t).counts.weak_released()).settled());
    }
    lemma_with_slot(m, s - 1, None);
    assert(m.targets() =~= h.targets());
    assert forall|b: usize| #![trigger g.at(b)] h.has(b) implies {
        &&& g.at(b).wf()
        &&& g.at(b).payload == h.at(b).payload
        &&& g.at(b).counts.strong == h.at(b).counts.strong
        &&& g.at(b).counts.weak == WEAK_BASELINE + g.bound(b)
    } by {
        let _ = h.at(b);
        assert(g.bound(b) + (if m.targets()[s - 1] == b {
            1nat
        } else {
            0nat
        }) == m.bound(b));
    }
    assert forall|i: int| 0 <= i < g.slots.len() implies #[trigger] g.targets()[i]
        <= g.objects.len() by {
        if i != s - 1 {
            assert(g.targets()[i] == h.targets()[i]);
        }
    }
    lemma_rebind_wf(h, g);
}

/// The binding of a slot to another object keeps the invariant.
pub proof fn lemma_weak_assign_wf(h: HeapModel, s: usize, value: usize)
    requires
        h.wf(),
        h.has_slot(s),
        value != 0 ==> h.allocated(value) && h.at(value).counts.weak < usize::MAX,
    ensures
        h.weak_assign(s, value).wf(),
        forall|b: usize| #[trigger] h.weak_assign(s, value).held(b) == h.held(b),
{
    let t = h.target(s);
    let m1 = h.bind(value);
    let m2 = m1.unbind(t);
    let g = h.weak_assign(s, value);
    assert(h.targets()[s - 1] == t);
    if value != 0 {
        lemma_with_object(h, value, h.at(value).with_counts(h.at(value).counts.weak_retained()));
    }
    if t != 0 {
        lemma_target_allocated(h, s);
        lemma_with_object(
            m1,
            t,
            m1.at(t).with_counts(m1.at(t).counts.weak_released()).settled(),
        );
    }
    lemma_with_slot(m2, s - 1, Some(value));
    assert(m2.targets() =~= h.targets());
    assert forall|b: usize| #![trigger g.at(b)] h.has(b) implies {
        &&& g.at(b).wf()
        &&& g.at(b).payload == h.at(b).payload
        &&& g.at(b).counts.strong == h.at(b).counts.strong
        &&& g.at(b).counts.weak == WEAK_BASELINE + g.bound(b)
    } by {
        let _ = h.at(b);
        let _ = m1.at(b);
        assert(g.bound(b) + (if m2.targets()[s - 1] == b {
            1nat
        } else {
            0nat
        }) == m2.bound(b) + (if value == b {
            1nat
        } else {
            0nat
        }));
    }
    assert forall|i: int| 0 <= i < g.slots.len() implies #[trigger] g.targets()[i]
        <= g.objects.len() by {
        if i != s - 1 {
            assert(g.targets()[i] == h.targets()[i]);
        }
    }
    lemma_rebind_wf(h, g);
}

/// Strong retains of a live object keep the invariant.
pub proof fn lemma_retain_wf(h: HeapModel, a: usize, n: int)
    requires
        h.wf(),
        a != 0 ==> h.live(a) && 0 <= n && h.at(a).counts.strong + n <= usize::MAX,
    ensures
        h.retain(a, n).wf(),
        h.retain(a, n).objects.len() == h.objects.len(),
        h.retain(a, n).slots == h.slots,
        forall|b: usize| #[trigger] h.retain(a, n).held(b) == h.held(b),
{
    if a != 0 {
        lemma_with_counts_wf(h, a, h.at(a).with_counts(h.at(a).counts.retained(n)));
    }
}

/// One retain for each of some references to live objects keeps the
/// invariant, and leaves the caller holding those references.
pub proof fn lemma_retain_all_wf(h: HeapModel, references: Seq<usize>)
    requires
        h.wf(),
        h.all_live(references),
        forall|j: int| 0 <= j < references.len() ==> #[trigger] references[j] <= h.objects.len(),
        forall|a: usize|
            #![trigger h.at(a)]
            h.has(a) ==> h.at(a).counts.strong + count(references, a) <= usize::MAX,
    ensures
        h.retain_all(references).wf(),
        h.retain_all(references).covered(references),
        h.retain_all(references).objects.len() == h.objects.len(),
        h.retain_all(references).slots == h.slots,
        forall|b: usize| #[trigger] h.retain_all(references).held(b) == h.held(b),
        forall|b: usize| #[trigger] h.retain_all(references).bound(b) == h.bound(b),
        forall|b: usize|
            h.has(b) ==> #[trigger] h.retain_all(references).at(b) == h.at(b).with_counts(
                h.at(b).counts.retained(count(references, b) as int),
            ),
{
    let g = h.retain_all(references);
    assert(g.targets() =~= h.targets());
    assert forall|b: usize| #[trigger] g.held(b) == h.held(b) by {
        lemma_held_same(h.objects, g.objects, b);
    }
    assert forall|b: usize| #![trigger g.at(b)] g.has(b) implies {
        &&& g.at(b).wf()
        &&& g.at(b).counts.strong >= g.held(b) + count(references, b)
        &&& g.at(b).counts.weak == WEAK_BASELINE + g.bound(b)
    } by {
        let _ = h.at(b);
        assert(g.held(b) == h.held(b));
        if count(references, b) > 0 {
            let j = lemma_count_occurs(references, b);
            assert(references[j] == 0 || h.live(references[j]));
        }
    }
    assert forall|i: int, j: int|
        0 <= i < g.objects.len() && 0 <= j < g.objects[i].references().len() implies (
        #[trigger] g.objects[i].references()[j]) <= g.objects.len() by {
        assert(h.objects[i].references()[j] <= h.objects.len());
    }
}

/// Retains leave a caller holding what it held.
pub proof fn lemma_retain_all_covered(h: HeapModel, references: Seq<usize>, pending: Seq<usize>)
    requires
        h.wf(),
        h.all_live(references),
        h.covered(pending),
        forall|a: usize|
            #![trigger h.at(a)]
            h.has(a) ==> h.at(a).counts.strong + count(references, a) <= usize::MAX,
    ensures
        h.retain_all(references).covered(pending),
{
    let g = h.retain_all(references);
    assert forall|j: int| 0 <= j < references.len() implies #[trigger] references[j]
        <= h.objects.len() by {
        assert(references[j] == 0 || h.live(references[j]));
    }
    lemma_retain_all_wf(h, references);
    assert forall|a: usize| #![trigger g.at(a)] g.has(a) implies g.at(a).counts.strong
        >= g.held(a) + count(pending, a) by {
        let _ = h.at(a);
    }
    assert forall|j: int| 0 <= j < pending.len() implies #[trigger] pending[j]
        <= g.objects.len() by {
        assert(pending[j] <= h.objects.len());
    }
}

/// One retain more: a retain after the retains for some references is the
/// retains for those references and the one.
pub proof fn lemma_retain_all_push(h: HeapModel, references: Seq<usize>, r: usize)
    requires
        r <= h.objects.len() <= usize::MAX,
        r != 0 ==> h.at(r).counts.strong + count(references, r) < usize::MAX,
    ensures
        h.retain_all(references).retain(r, 1) == h.retain_all(references.push(r)),
{
    let g = h.retain_all(references).retain(r, 1);
    let k = h.retain_all(references.push(r));
    assert forall|i: int| 0 <= i < h.objects.len() implies g.objects[i] == k.objects[i] by {
        lemma_count_push(references, r, (i + 1) as usize);
    }
    assert(g.objects =~= k.objects);
}

/// No retain at all leaves the heap as it is.
pub proof fn lemma_retain_all_none(h: HeapModel)
    ensures
        h.retain_all(Seq::empty()) == h,
{
    assert(h.retain_all(Seq::empty()).objects =~= h.objects);
}

/// Moving a value that a caller holds into an empty payload keeps the
/// invariant.
pub proof fn lemma_store_payload_wf(h: HeapModel, a: usize, value: ValueModel)
    requires
        h.wf(),
        h.has(a),
        h.at(a).payload is None,
        h.at(a).phase == Phase::Live || h.at(a).phase == Phase::Deiniting,
        h.owns(value),
    ensures
        h.store_payload(a, value).wf(),
        forall|b: usize|
            #[trigger] h.store_payload(a, value).held(b) == h.held(b) + count(
                value.references,
                b,
            ),
{
    let o = h.at(a).with_payload(Some(value));
    assert(h.at(a).references() =~= Seq::<usize>::empty());
    lemma_with_object(h, a, o);
    assert forall|b: usize| #![trigger h.at(b)] h.has(b) implies (if b == a {
        o.counts.strong
    } else {
        h.at(b).counts.strong
    }) + count(h.at(a).references(), b) >= h.held(b) + count(o.references(), b) by {}
    lemma_with_object_wf(h, a, o);
}

/// Moving a payload out keeps the invariant and leaves the caller with the
/// value.
pub proof fn lemma_take_payload_wf(h: HeapModel, a: usize)
    requires
        h.wf(),
        h.has(a),
    ensures
        h.take_payload(a).wf(),
        h.at(a).payload matches Some(value) ==> h.take_payload(a).owns(value),
        forall|b: usize|
            #[trigger] h.take_payload(a).held(b) + count(h.at(a).references(), b) == h.held(b),
{
    let o = h.at(a).with_payload(None);
    let g = h.take_payload(a);
    let refs = h.at(a).references();
    assert(o.references() =~= Seq::<usize>::empty());
    lemma_with_object(h, a, o);
    assert forall|b: usize| #![trigger h.at(b)] h.has(b) implies (if b == a {
        o.counts.strong
    } else {
        h.at(b).counts.strong
    }) + count(h.at(a).references(), b) >= h.held(b) + count(o.references(), b) by {}
    lemma_with_object_wf(h, a, o);
    assert forall|b: usize| #![trigger g.at(b)] g.has(b) implies g.at(b).counts.strong
        >= g.held(b) + count(refs, b) by {
        let _ = h.at(b);
    }
    assert forall|j: int| 0 <= j < refs.len() implies #[trigger] refs[j] <= g.objects.len() by {
        assert(h.objects[a - 1].references()[j] <= h.objects.len());
    }
}

/// What a payload refers to is live.
pub proof fn lemma_payload_live(h: HeapModel, a: usize)
    requires
        h.wf(),
        h.has(a),
    ensures
        h.all_live(h.at(a).references()),
        forall|j: int|
            0 <= j < h.at(a).references().len() ==> #[trigger] h.at(a).references()[j]
                <= h.objects.len(),
{
    let refs = h.at(a).references();
    assert forall|j: int| 0 <= j < refs.len() implies #[trigger] refs[j] == 0 || h.live(
        refs[j],
    ) by {
        let r = refs[j];
        assert(h.objects[a - 1].references()[j] <= h.objects.len());
        if r != 0 {
            lemma_count_positive(refs, j, r);
            lemma_held_covers(h.objects, a - 1, r);
            let _ = h.at(r);
        }
    }
    assert forall|j: int| 0 <= j < refs.len() implies #[trigger] refs[j] <= h.objects.len() by {
        assert(h.objects[a - 1].references()[j] <= h.objects.len());
    }
}

/// The copy of a box keeps the invariant.  The caller holds the new box,
/// which has one strong reference and the payload of the old one, and
/// still holds the old box.
pub proof fn lemma_copy_box(
    h: HeapModel,
    b: usize,
    metadata: usize,
    size: usize,
    align_mask: usize,
)
    requires
        h.wf(),
        h.releasable(b),
        h.objects.len() < usize::MAX,
        metadata != 0,
        forall|a: usize|
            #![trigger h.at(a)]
            h.has(a) ==> h.at(a).counts.strong + count(h.at(b).references(), a) <= usize::MAX,
    ensures
        ({
            let n = (h.objects.len() + 1) as usize;
            let g = h.copy_box(b, metadata, size, align_mask);
            &&& g.wf()
            &&& n != b
            &&& g.has(n)
            &&& g.objects.len() == h.objects.len() + 1
            &&& g.slots == h.slots
            &&& g.at(n) == ObjectModel::fresh(metadata, size, align_mask).with_payload(
                h.at(b).payload,
            )
            &&& g.releasable(n)
            &&& g.releasable(b)
            &&& forall|c: usize|
                h.has(c) ==> #[trigger] g.at(c) == h.at(c).with_counts(
                    h.at(c).counts.retained(count(h.at(b).references(), c) as int),
                )
        }),
{
    let n = (h.objects.len() + 1) as usize;
    let refs = h.at(b).references();
    let h1 = h.allocate(metadata, size, align_mask);
    lemma_allocate_wf(h, n, metadata, size, align_mask);
    lemma_payload_live(h, b);
    assert forall|a: usize| #![trigger h1.at(a)] h1.has(a) implies h1.at(a).counts.strong
        + count(refs, a) <= usize::MAX by {
        if h.has(a) {
            let _ = h.at(a);
        } else {
            assert forall|j: int| 0 <= j < refs.len() implies refs[j] != a by {}
            lemma_count_absent(refs, a);
        }
    }
    assert(h1.all_live(refs)) by {
        assert forall|j: int| 0 <= j < refs.len() implies #[trigger] refs[j] == 0 || h1.live(
            refs[j],
        ) by {
            if refs[j] != 0 {
                let _ = h.at(refs[j]);
                let _ = h1.at(refs[j]);
            }
        }
    }
    let h2 = h1.retain_all(refs);
    lemma_retain_all_wf(h1, refs);
    let _ = h1.at(n);
    let _ = h2.at(n);
    assert forall|j: int| 0 <= j < refs.len() implies refs[j] != n by {}
    lemma_count_absent(refs, n);
    let o = h2.at(n).with_payload(h.at(b).payload);
    assert(h2.at(n).references() =~= Seq::<usize>::empty());
    assert(o.references() =~= refs);
    lemma_with_object(h2, n, o);
    assert forall|c: usize| #![trigger h2.at(c)] h2.has(c) implies (if c == n {
        o.counts.strong
    } else {
        h2.at(c).counts.strong
    }) + count(h2.at(n).references(), c) >= h2.held(c) + count(o.references(), c) by {}
    lemma_with_object_wf(h2, n, o);
    let g = h.copy_box(b, metadata, size, align_mask);
    let _ = h1.at(b);
    let _ = h2.at(b);
    let _ = g.at(b);
    let _ = g.at(n);
    assert(g.held(n) == 0) by {
        assert(h1.held(n) == h.held(n));
        assert(h2.held(n) == h1.held(n));
    }
    assert forall|c: usize| h.has(c) implies #[trigger] g.at(c) == h.at(c).with_counts(
        h.at(c).counts.retained(count(refs, c) as int),
    ) by {
        let _ = h1.at(c);
        let _ = h2.at(c);
    }
}

/// Making a box unique keeps the invariant.  Where the box was shared, the
/// caller gets a new box with one strong reference and the payload of the
/// old one, and the old box is left with its payload and without the
/// caller's reference.
pub proof fn lemma_make_box_unique(
    h: HeapModel,
    b: usize,
    metadata: usize,
    size: usize,
    align_mask: usize,
)
    requires
        h.wf(),
        h.releasable(b),
        h.objects.len() < usize::MAX,
        metadata != 0,
        forall|a: usize|
            #![trigger h.at(a)]
            h.has(a) ==> h.at(a).counts.strong + count(h.at(b).references(), a) <= usize::MAX,
    ensures
        h.make_box_unique(b, metadata, size, align_mask).wf(),
        h.at(b).counts.strong == 1 ==> h.make_box_unique(b, metadata, size, align_mask) == h,
        h.at(b).counts.strong != 1 ==> ({
            let n = (h.objects.len() + 1) as usize;
            let g = h.make_box_unique(b, metadata, size, align_mask);
            &&& n != b
            &&& g.has(n)
            &&& g.releasable(n)
            &&& g.at(n).counts.strong == 1
            &&& g.at(n).payload == h.at(b).payload
            &&& g.at(b).payload == h.at(b).payload
            &&& g.at(b).phase == Phase::Live
            &&& g.at(b).counts.strong == h.at(b).counts.strong - 1 + count(
                h.at(b).references(),
                b,
            )
        }),
{
    if h.at(b).counts.strong != 1 {
        let n = (h.objects.len() + 1) as usize;
        let c = h.copy_box(b, metadata, size, align_mask);
        lemma_copy_box(h, b, metadata, size, align_mask);
        let _ = h.at(b);
        let _ = c.at(b);
        lemma_release_plain(c, b);
        lemma_with_counts_wf(c, b, c.at(b).with_counts(c.at(b).counts.released(1)));
        let g = c.release(b);
        let _ = g.at(n);
        let _ = g.at(b);
    }
}

} // verus!
