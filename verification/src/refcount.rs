//! The reference counts of one heap object.
//!
//! An object carries three counters and a flag.  The strong count keeps the
//! payload alive.  The unowned count keeps the header's memory; all strong
//! references together hold one unit of it.  The weak count keeps whatever a
//! weak reference slot looks at; all unowned references together hold one
//! unit of it.  The flag is raised once, when the strong count leaves one
//! for zero, and never lowered.

use vstd::prelude::*;

verus! {

/// The unowned count of an object that no unowned reference points at.
pub const UNOWNED_BASELINE: usize = 1;

/// The weak count of an object that no weak reference slot is bound to.
pub const WEAK_BASELINE: usize = 1;

/// Stores the reference counts for a heap object.
#[derive(Clone, Copy, Debug, PartialEq, Eq, Structural)]
pub struct InlineRefCounts {
    /// How many strong references exist.
    pub strong: usize,
    /// How many unowned references exist, and one more.
    pub unowned: usize,
    /// How many weak reference slots are bound, and one more.
    pub weak: usize,
    /// Whether the last strong reference has been given up.
    pub deallocating: bool,
}

impl InlineRefCounts {
    /// The counts of an object as its allocation leaves it: one strong
    /// reference, nothing else.
    pub open spec fn fresh() -> Self {
        InlineRefCounts {
            strong: 1,
            unowned: UNOWNED_BASELINE,
            weak: WEAK_BASELINE,
            deallocating: false,
        }
    }

    /// The flag is up exactly when no strong reference is left, and neither
    /// of the other counts is below its baseline.
    pub open spec fn wf(self) -> bool {
        &&& self.deallocating <==> self.strong == 0
        &&& self.unowned >= UNOWNED_BASELINE
        &&& self.weak >= WEAK_BASELINE
    }

    /// No unowned reference and no weak reference slot is left.
    pub open spec fn at_baseline(self) -> bool {
        self.unowned == UNOWNED_BASELINE && self.weak == WEAK_BASELINE
    }

    /// The counts after `n` strong retains.
    pub open spec fn retained(self, n: int) -> Self {
        InlineRefCounts { strong: (self.strong + n) as usize, ..self }
    }

    /// The counts after `n` strong releases.  The flag goes up if they were
    /// the last ones.
    pub open spec fn released(self, n: int) -> Self {
        InlineRefCounts {
            strong: (self.strong - n) as usize,
            deallocating: self.deallocating || self.strong == n,
            ..self
        }
    }

    /// The counts after `n` unowned retains.
    pub open spec fn unowned_retained(self, n: int) -> Self {
        InlineRefCounts { unowned: (self.unowned + n) as usize, ..self }
    }

    /// The counts after `n` unowned releases.
    pub open spec fn unowned_released(self, n: int) -> Self {
        InlineRefCounts { unowned: (self.unowned - n) as usize, ..self }
    }

    /// The counts after one more weak reference slot was bound.
    pub open spec fn weak_retained(self) -> Self {
        InlineRefCounts { weak: (self.weak + 1) as usize, ..self }
    }

    /// The counts after one weak reference slot was unbound.
    pub open spec fn weak_released(self) -> Self {
        InlineRefCounts { weak: (self.weak - 1) as usize, ..self }
    }

    /// Creates the counts of a newly allocated object.
    pub fn new() -> (counts: Self)
        ensures
            counts == Self::fresh(),
            counts.wf(),
    {
        InlineRefCounts {
            strong: 1,
            unowned: UNOWNED_BASELINE,
            weak: WEAK_BASELINE,
            deallocating: false,
        }
    }

    /// Adds `n` to the strong count.
    pub fn retain(&mut self, n: u32)
        requires
            old(self).wf(),
            !old(self).deallocating,
            old(self).strong + n <= usize::MAX,
        ensures
            *final(self) == old(self).retained(n as int),
            final(self).wf(),
    {
        self.strong = self.strong + n as usize;
    }

    /// Takes `n` from the strong count, raises the flag if that leaves none,
    /// and says whether it did.
    pub fn release(&mut self, n: u32) -> (last: bool)
        requires
            old(self).wf(),
            1 <= n <= old(self).strong,
        ensures
            *final(self) == old(self).released(n as int),
            final(self).wf(),
            last == (old(self).strong == n),
    {
        self.strong = self.strong - n as usize;
        if self.strong == 0 {
            self.deallocating = true;
        }
        self.deallocating
    }

    /// Adds `n` to the unowned count.
    pub fn unowned_retain(&mut self, n: u32)
        requires
            old(self).wf(),
            old(self).unowned + n <= usize::MAX,
        ensures
            *final(self) == old(self).unowned_retained(n as int),
            final(self).wf(),
    {
        self.unowned = self.unowned + n as usize;
    }

    /// Takes `n` from the unowned count.  The unit that the strong
    /// references hold is not the caller's to release.
    pub fn unowned_release(&mut self, n: u32)
        requires
            old(self).wf(),
            old(self).unowned - n >= UNOWNED_BASELINE,
        ensures
            *final(self) == old(self).unowned_released(n as int),
            final(self).wf(),
    {
        self.unowned = self.unowned - n as usize;
    }

    /// Adds one to the weak count.
    pub fn weak_retain(&mut self)
        requires
            old(self).wf(),
            old(self).weak < usize::MAX,
        ensures
            *final(self) == old(self).weak_retained(),
            final(self).wf(),
    {
        self.weak = self.weak + 1;
    }

    /// Takes one from the weak count.  The unit that the unowned references
    /// hold is not the caller's to release.
    pub fn weak_release(&mut self)
        requires
            old(self).wf(),
            old(self).weak > WEAK_BASELINE,
        ensures
            *final(self) == old(self).weak_released(),
            final(self).wf(),
    {
        self.weak = self.weak - 1;
    }

    /// Whether no unowned reference and no weak reference slot is left.
    pub fn is_at_baseline(&self) -> (baseline: bool)
        ensures
            baseline == self.at_baseline(),
    {
        self.unowned == UNOWNED_BASELINE && self.weak == WEAK_BASELINE
    }

    /// Whether the header's memory can go back to the allocator: the payload
    /// is being or has been torn down and nothing else refers to the object.
    pub fn can_be_freed(&self) -> (free: bool)
        ensures
            free == (self.deallocating && self.at_baseline()),
    {
        self.deallocating && self.unowned == UNOWNED_BASELINE && self.weak == WEAK_BASELINE
    }
}

} // verus!
