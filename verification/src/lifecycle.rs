//! What holds of an object over whole runs of operations.

use vstd::prelude::*;
use crate::model::{
    count, lemma_allocate_wf, lemma_count_positive, lemma_count_push, lemma_release_last,
    lemma_release_plain, lemma_release_wf, lemma_retain_wf, lemma_target_allocated,
    lemma_total_strong_update, lemma_weak_destroy_wf, lemma_with_counts_wf, lemma_with_object,
    lemma_with_slot, total_strong, HeapModel, Phase,
};
use crate::refcount::{UNOWNED_BASELINE, WEAK_BASELINE};

verus! {

/// One operation of a strong handle.
#[derive(Clone, Copy, Debug, PartialEq, Eq, Structural)]
pub enum Step {
    /// The strong count goes up by one.
    Retain,
    /// The strong count goes down by one.
    Release,
}

/// The number of retains in `steps` less the number of releases.
pub open spec fn net(steps: Seq<Step>) -> int
    decreases steps.len(),
{
    if steps.len() == 0 {
        0
    } else {
        net(steps.drop_last()) + match steps.last() {
            Step::Retain => 1int,
            Step::Release => -1int,
        }
    }
}

/// The heap after `steps` were performed on `a`, one after the other.
pub open spec fn run(h: HeapModel, a: usize, steps: Seq<Step>) -> HeapModel
    decreases steps.len(),
{
    if steps.len() == 0 {
        h
    } else {
        match steps.last() {
            Step::Retain => run(h, a, steps.drop_last()).retain(a, 1),
            Step::Release => run(h, a, steps.drop_last()).release(a),
        }
    }
}

/// Whether every step of `steps` finds a strong reference to act on, if the
/// first one finds `start` of them, and no retain overflows.
pub open spec fn permitted(start: int, steps: Seq<Step>) -> bool {
    forall|k: int| 0 <= k < steps.len() ==> 1 <= start + #[trigger] net(steps.take(k)) < usize::MAX
}

/// Releases do not touch an object without a strong reference.
pub proof fn lemma_release_all_frame(h: HeapModel, pending: Seq<usize>, b: usize)
    requires
        h.has(b),
        h.at(b).counts.strong == 0,
    ensures
        h.release_all(pending).at(b) == h.at(b),
        h.release_all(pending).objects.len() == h.objects.len(),
        h.release_all(pending).slots == h.slots,
    decreases total_strong(h.objects), pending.len(),
{
    if pending.len() > 0 {
        let x = pending.last();
        let rest = pending.drop_last();
        if !h.has(x) || h.at(x).counts.strong == 0 {
            lemma_release_all_frame(h, rest, b);
        } else if h.at(x).counts.strong > 1 {
            let o = h.at(x).with_counts(h.at(x).counts.released(1));
            lemma_total_strong_update(h.objects, x - 1, o);
            lemma_release_all_frame(h.with_object(x, o), rest, b);
        } else {
            let o = h.at(x).torn_down();
            lemma_total_strong_update(h.objects, x - 1, o);
            lemma_release_all_frame(h.with_object(x, o), rest + h.at(x).references(), b);
        }
    }
}

/// Releases, however far their teardown runs, leave every object its type
/// descriptor and the size and alignment of its allocation.
pub proof fn lemma_release_keeps_descriptor(h: HeapModel, pending: Seq<usize>, b: usize)
    requires
        h.has(b),
    ensures
        h.release_all(pending).has(b),
        h.release_all(pending).at(b).metadata == h.at(b).metadata,
        h.release_all(pending).at(b).size == h.at(b).size,
        h.release_all(pending).at(b).align_mask == h.at(b).align_mask,
    decreases total_strong(h.objects), pending.len(),
{
    if pending.len() > 0 {
        let x = pending.last();
        let rest = pending.drop_last();
        if !h.has(x) || h.at(x).counts.strong == 0 {
            lemma_release_keeps_descriptor(h, rest, b);
        } else if h.at(x).counts.strong > 1 {
            let o = h.at(x).with_counts(h.at(x).counts.released(1));
            lemma_total_strong_update(h.objects, x - 1, o);
            lemma_release_keeps_descriptor(h.with_object(x, o), rest, b);
        } else {
            let o = h.at(x).torn_down();
            lemma_total_strong_update(h.objects, x - 1, o);
            lemma_release_keeps_descriptor(
                h.with_object(x, o),
                rest + h.at(x).references(),
                b,
            );
        }
    }
}

/// What the release of the last strong reference leaves of the object: no
/// strong reference, the flag up, no payload, one teardown more, and the
/// header if and only if something still looks at it.
pub proof fn lemma_last_release(h: HeapModel, a: usize)
    requires
        h.wf(),
        h.releasable(a),
        h.at(a).counts.strong == 1,
    ensures
        h.release(a).wf(),
        h.release(a).has(a),
        h.release(a).at(a) == h.at(a).torn_down(),
        h.release(a).at(a).counts.strong == 0,
        h.release(a).at(a).counts.deallocating,
        h.release(a).at(a).payload is None,
        h.release(a).at(a).teardowns == 1,
        h.release(a).allocated(a) <==> !h.at(a).counts.at_baseline(),
        h.release(a).slots == h.slots,
{
    let _ = h.at(a);
    lemma_release_wf(h, a);
    lemma_release_last(h, a);
    lemma_release_all_frame(h.with_object(a, h.at(a).torn_down()), h.at(a).references(), a);
}

/// The strong count of an object that only the caller refers to follows
/// the caller's retains and releases: after any permitted run it is the
/// count at the start plus the retains less the releases.  The payload is
/// torn down when the count reaches zero, and at no other time: the number
/// of teardowns is one if the count is zero and none if it is not.
pub proof fn lemma_count_follows_steps(h: HeapModel, a: usize, steps: Seq<Step>)
    requires
        h.wf(),
        h.live(a),
        h.held(a) == 0,
        permitted(h.at(a).counts.strong as int, steps),
    ensures
        run(h, a, steps).wf(),
        run(h, a, steps).has(a),
        run(h, a, steps).slots == h.slots,
        run(h, a, steps).at(a).counts.strong == h.at(a).counts.strong + net(steps),
        run(h, a, steps).at(a).teardowns == (if h.at(a).counts.strong + net(steps) == 0 {
            1nat
        } else {
            0nat
        }),
        h.at(a).counts.strong + net(steps) >= 1 ==> run(h, a, steps) == h.with_object(
            a,
            h.at(a).with_counts(h.at(a).counts.retained(net(steps))),
        ),
        h.at(a).counts.strong + net(steps) == 0 ==> (run(h, a, steps).allocated(a) <==> !h.at(
            a,
        ).counts.at_baseline()),
        h.at(a).counts.strong + net(steps) == 0 ==> run(h, a, steps).at(a).payload is None,
    decreases steps.len(),
{
    let _ = h.at(a);
    let start = h.at(a).counts.strong as int;
    if steps.len() == 0 {
        assert(h.objects.update(a - 1, h.at(a)) =~= h.objects);
    } else {
        let before = steps.drop_last();
        assert forall|k: int| 0 <= k < before.len() implies 1 <= start + #[trigger] net(
            before.take(k),
        ) < usize::MAX by {
            assert(before.take(k) =~= steps.take(k));
        }
        lemma_count_follows_steps(h, a, before);
        assert(steps.take(steps.len() - 1) =~= before);
        assert(1 <= start + net(steps.take(steps.len() - 1)) < usize::MAX);
        let g = run(h, a, before);
        let o = h.at(a).with_counts(h.at(a).counts.retained(net(before)));
        lemma_with_counts_wf(h, a, o);
        let _ = g.at(a);
        assert(g.held(a) == 0);
        match steps.last() {
            Step::Retain => {
                lemma_retain_wf(g, a, 1);
                assert(g.retain(a, 1).objects =~= h.with_object(
                    a,
                    h.at(a).with_counts(h.at(a).counts.retained(net(steps))),
                ).objects);
            },
            Step::Release => {
                lemma_release_wf(g, a);
                if g.at(a).counts.strong == 1 {
                    lemma_last_release(g, a);
                } else {
                    lemma_release_plain(g, a);
                    assert(g.release(a).objects =~= h.with_object(
                        a,
                        h.at(a).with_counts(h.at(a).counts.retained(net(steps))),
                    ).objects);
                }
            },
        }
    }
}

/// On a freshly allocated object, the strong count after any permitted run
/// of retains and releases is one plus the retains less the releases, and
/// the payload has been torn down once if that is zero and never if it is
/// not.
pub proof fn lemma_fresh_object_count(
    h: HeapModel,
    metadata: usize,
    size: usize,
    align_mask: usize,
    steps: Seq<Step>,
)
    requires
        h.wf(),
        h.objects.len() < usize::MAX,
        metadata != 0,
        permitted(1, steps),
    ensures
        ({
            let a = (h.objects.len() + 1) as usize;
            let g = run(h.allocate(metadata, size, align_mask), a, steps);
            &&& g.wf()
            &&& g.has(a)
            &&& g.at(a).counts.strong == 1 + net(steps)
            &&& g.at(a).teardowns == (if 1 + net(steps) == 0 { 1nat } else { 0nat })
            &&& 1 + net(steps) == 0 ==> !g.allocated(a)
        }),
{
    let a = (h.objects.len() + 1) as usize;
    let fresh = h.allocate(metadata, size, align_mask);
    lemma_allocate_wf(h, a, metadata, size, align_mask);
    let _ = fresh.at(a);
    lemma_count_follows_steps(fresh, a, steps);
}

/// `k` retains and then `k + 1` releases.
pub open spec fn clones_then_drops(k: nat) -> Seq<Step> {
    Seq::new(
        2 * k + 1,
        |i: int|
            if i < k {
                Step::Retain
            } else {
                Step::Release
            },
    )
}

/// The net count of the first `j` steps of `k` clones and `k + 1` drops.
pub proof fn lemma_net_clones_then_drops(k: nat, j: int)
    requires
        0 <= j <= 2 * k + 1,
    ensures
        net(clones_then_drops(k).take(j)) == (if j <= k { j } else { 2 * k - j }),
    decreases j,
{
    let steps = clones_then_drops(k).take(j);
    if j > 0 {
        lemma_net_clones_then_drops(k, j - 1);
        assert(steps.drop_last() =~= clones_then_drops(k).take(j - 1));
    }
}

/// If the one strong handle of an object is cloned `k` times and all
/// `k + 1` handles are dropped, the payload is torn down exactly once, and
/// nothing of the object can be reached any more unless an unowned
/// reference or a weak reference slot still looks at its header.
pub proof fn lemma_clones_then_drops(h: HeapModel, a: usize, k: nat)
    requires
        h.wf(),
        h.live(a),
        h.held(a) == 0,
        h.at(a).counts.strong == 1,
        k + 1 < usize::MAX,
    ensures
        run(h, a, clones_then_drops(k)).wf(),
        run(h, a, clones_then_drops(k)).at(a).teardowns == 1,
        run(h, a, clones_then_drops(k)).at(a).counts.strong == 0,
        run(h, a, clones_then_drops(k)).at(a).payload is None,
        run(h, a, clones_then_drops(k)).allocated(a) <==> !h.at(a).counts.at_baseline(),
{
    let steps = clones_then_drops(k);
    assert forall|j: int| 0 <= j < steps.len() implies 1 <= 1 + #[trigger] net(steps.take(j))
        < usize::MAX by {
        lemma_net_clones_then_drops(k, j);
    }
    lemma_net_clones_then_drops(k, steps.len() as int);
    assert(steps.take(steps.len() as int) =~= steps);
    lemma_count_follows_steps(h, a, steps);
    let g = run(h, a, steps);
    let _ = g.at(a);
}

/// After the last strong reference to the object that a slot is bound to
/// was released, a load from the slot returns the absent object.
pub proof fn lemma_load_after_last_release(h: HeapModel, s: usize)
    requires
        h.wf(),
        h.has_slot(s),
        h.target(s) != 0,
        h.releasable(h.target(s)),
        h.at(h.target(s)).counts.strong == 1,
    ensures
        h.release(h.target(s)).has_slot(s),
        h.release(h.target(s)).loaded(s) == 0,
        h.release(h.target(s)).weak_load_strong(s) == h.release(h.target(s)),
{
    lemma_target_allocated(h, s);
    lemma_last_release(h, h.target(s));
}

/// While the object that a slot is bound to has a strong reference, a load
/// from the slot returns the object with one strong reference more, and
/// the release of that reference leaves the heap as it was before the
/// load.
pub proof fn lemma_load_while_live(h: HeapModel, s: usize)
    requires
        h.wf(),
        h.has_slot(s),
        h.live(h.target(s)),
        h.at(h.target(s)).counts.strong < usize::MAX,
    ensures
        h.loaded(s) == h.target(s),
        h.weak_load_strong(s).wf(),
        h.weak_load_strong(s).releasable(h.target(s)),
        h.weak_load_strong(s).at(h.target(s)).counts.strong == h.at(h.target(s)).counts.strong
            + 1,
        h.weak_load_strong(s).release(h.target(s)) == h,
{
    let t = h.target(s);
    let _ = h.at(t);
    lemma_retain_wf(h, t, 1);
    let g = h.weak_load_strong(s);
    let _ = g.at(t);
    lemma_release_plain(g, t);
    assert(g.release(t).objects =~= h.objects);
}

/// A take from a slot is a load from it followed by its destruction.
/// Either way the slot is gone afterwards, and the object that it was bound
/// to has one unit less in its weak count.
pub proof fn lemma_take_is_load_then_destroy(h: HeapModel, s: usize)
    requires
        h.wf(),
        h.has_slot(s),
        h.loaded(s) != 0 ==> h.at(h.target(s)).counts.strong < usize::MAX,
    ensures
        h.weak_take_strong(s) == h.weak_load_strong(s).weak_destroy(s),
        h.weak_take_strong(s).wf(),
        !h.weak_take_strong(s).has_slot(s),
        h.target(s) != 0 ==> h.weak_take_strong(s).at(h.target(s)).counts.weak == h.at(
            h.target(s),
        ).counts.weak - 1,
        h.target(s) != 0 ==> h.weak_take_strong(s).bound(h.target(s)) == h.bound(h.target(s))
            - 1,
        h.target(s) != 0 ==> h.weak_destroy(s).at(h.target(s)).counts.weak == h.at(
            h.target(s),
        ).counts.weak - 1,
        !h.weak_destroy(s).has_slot(s),
{
    let t = h.target(s);
    let l = h.weak_load_strong(s);
    if h.loaded(s) != 0 {
        let _ = h.at(t);
    }
    lemma_retain_wf(h, h.loaded(s), 1);
    lemma_weak_destroy_wf(l, s);
    lemma_weak_destroy_wf(h, s);
    if t != 0 {
        lemma_target_allocated(h, s);
        lemma_target_allocated(l, s);
        let _ = l.at(t);
        let _ = h.weak_take_strong(s).at(t);
        let _ = h.weak_destroy(s).at(t);
        assert(h.targets()[s - 1] == t);
        assert(l.targets() =~= h.targets());
        let m = l.unbind(t);
        lemma_with_object(l, t, l.at(t).with_counts(l.at(t).counts.weak_released()).settled());
        lemma_with_slot(m, s - 1, None);
        assert(m.targets() =~= l.targets());
    }
}

/// An unowned reference outlives the payload: after the last strong
/// reference to an object with an unowned reference was released, the
/// payload is destroyed and the header is still there, with the unowned
/// count as it was.
pub proof fn lemma_unowned_outlives_payload(h: HeapModel, a: usize)
    requires
        h.wf(),
        h.releasable(a),
        h.at(a).counts.strong == 1,
        h.at(a).counts.unowned > UNOWNED_BASELINE,
    ensures
        h.release(a).wf(),
        h.release(a).allocated(a),
        h.release(a).at(a).phase == Phase::Deinited,
        h.release(a).at(a).payload is None,
        h.release(a).at(a).counts.unowned == h.at(a).counts.unowned,
        h.release(a).at(a).counts.unowned == UNOWNED_BASELINE + 1 && h.at(a).counts.weak
            == WEAK_BASELINE ==> !h.release(a).unowned_release(a, 1).allocated(a),
{
    lemma_last_release(h, a);
}

/// The steps that a schedule of turns comes to.  `schedule[i]` is the
/// thread that has turn `i`.  Every thread retains and releases in turn,
/// the retain first, and every turn is one step that no other turn
/// divides.
pub open spec fn steps_of(schedule: Seq<usize>) -> Seq<Step> {
    Seq::new(
        schedule.len(),
        |i: int|
            if count(schedule.take(i), schedule[i]) % 2 == 0 {
                Step::Retain
            } else {
                Step::Release
            },
    )
}

/// How many of the threads below `n` have retained and not yet released
/// after `schedule`.
pub open spec fn in_flight(schedule: Seq<usize>, n: nat) -> nat
    decreases n,
{
    if n == 0 {
        0
    } else {
        in_flight(schedule, (n - 1) as nat) + count(schedule, (n - 1) as usize) % 2
    }
}

/// Whether `schedule` holds turns of the threads below `n` only, and
/// `2 * m` turns of each of them: `m` retains and `m` releases.
pub open spec fn well_scheduled(schedule: Seq<usize>, n: usize, m: nat) -> bool {
    &&& forall|i: int| 0 <= i < schedule.len() ==> schedule[i] < n
    &&& forall|t: usize| t < n ==> #[trigger] count(schedule, t) == 2 * m
}

/// No more threads are in flight than there are.
pub proof fn lemma_in_flight_bound(schedule: Seq<usize>, n: nat)
    ensures
        in_flight(schedule, n) <= n,
    decreases n,
{
    if n > 0 {
        lemma_in_flight_bound(schedule, (n - 1) as nat);
    }
}

/// No thread is in flight if each has had an even number of turns.
pub proof fn lemma_in_flight_none(schedule: Seq<usize>, n: nat)
    requires
        n <= usize::MAX,
        forall|t: usize| t < n ==> #[trigger] count(schedule, t) % 2 == 0,
    ensures
        in_flight(schedule, n) == 0,
    decreases n,
{
    if n > 0 {
        lemma_in_flight_none(schedule, (n - 1) as nat);
        assert(count(schedule, (n - 1) as usize) % 2 == 0);
    }
}

/// One more turn of thread `t` puts it in flight if it was not, and takes
/// it out if it was.
pub proof fn lemma_in_flight_turn(schedule: Seq<usize>, t: usize, n: nat)
    requires
        n <= usize::MAX,
    ensures
        in_flight(schedule.push(t), n) == in_flight(schedule, n) + (if t >= n {
            0int
        } else if count(schedule, t) % 2 == 0 {
            1int
        } else {
            -1int
        }),
    decreases n,
{
    if n > 0 {
        lemma_in_flight_turn(schedule, t, (n - 1) as nat);
        lemma_count_push(schedule, t, (n - 1) as usize);
    }
}

/// The retains less the releases of the first `k` turns are the threads in
/// flight after them.
pub proof fn lemma_net_is_in_flight(schedule: Seq<usize>, n: usize, k: int)
    requires
        0 <= k <= schedule.len(),
        forall|i: int| 0 <= i < schedule.len() ==> schedule[i] < n,
    ensures
        net(steps_of(schedule).take(k)) == in_flight(schedule.take(k), n as nat),
        0 <= net(steps_of(schedule).take(k)) <= n,
    decreases k,
{
    let steps = steps_of(schedule).take(k);
    if k == 0 {
        assert forall|t: usize| t < n implies #[trigger] count(schedule.take(0), t) % 2 == 0 by {
            assert(schedule.take(0).len() == 0);
        }
        lemma_in_flight_none(schedule.take(0), n as nat);
    } else {
        lemma_net_is_in_flight(schedule, n, k - 1);
        assert(steps.drop_last() =~= steps_of(schedule).take(k - 1));
        assert(steps.last() == steps_of(schedule)[k - 1]);
        assert(schedule.take(k) =~= schedule.take(k - 1).push(schedule[k - 1]));
        lemma_in_flight_turn(schedule.take(k - 1), schedule[k - 1], n as nat);
    }
    lemma_in_flight_bound(schedule.take(k), n as nat);
}

/// If `n` threads each retain and release an object `m` times, every turn
/// being one undivided step, then in whatever order the turns come, the
/// strong count is never below what it was at the start and never more
/// than `n` above it, which is at most `n * m`, and at the end the heap is
/// as it was at the start.
pub proof fn lemma_interleaved_threads(
    h: HeapModel,
    a: usize,
    schedule: Seq<usize>,
    n: usize,
    m: nat,
)
    requires
        h.wf(),
        h.live(a),
        h.held(a) == 0,
        h.at(a).counts.strong + n < usize::MAX,
        well_scheduled(schedule, n, m),
    ensures
        forall|k: int|
            #![trigger steps_of(schedule).take(k)]
            0 <= k <= schedule.len() ==> {
                let g = run(h, a, steps_of(schedule).take(k));
                &&& g.wf()
                &&& g.live(a)
                &&& h.at(a).counts.strong <= g.at(a).counts.strong <= h.at(a).counts.strong + n
                &&& g.at(a).counts.strong <= h.at(a).counts.strong + n * m
                &&& g.at(a).teardowns == 0
            },
        run(h, a, steps_of(schedule)) == h,
{
    let steps = steps_of(schedule);
    let start = h.at(a).counts.strong as int;
    let _ = h.at(a);
    assert forall|k: int| #![trigger steps.take(k)] 0 <= k <= schedule.len() implies {
        let g = run(h, a, steps.take(k));
        &&& g.wf()
        &&& g.live(a)
        &&& start <= g.at(a).counts.strong <= start + n
        &&& g.at(a).counts.strong <= start + n * m
        &&& g.at(a).teardowns == 0
    } by {
        let prefix = steps.take(k);
        assert forall|j: int| 0 <= j < prefix.len() implies 1 <= start + #[trigger] net(
            prefix.take(j),
        ) < usize::MAX by {
            assert(prefix.take(j) =~= steps.take(j));
            lemma_net_is_in_flight(schedule, n, j);
        }
        lemma_net_is_in_flight(schedule, n, k);
        lemma_count_follows_steps(h, a, prefix);
        let g = run(h, a, prefix);
        let _ = g.at(a);
        if m == 0 {
            if schedule.len() > 0 {
                lemma_count_positive(schedule, 0, schedule[0]);
                assert(count(schedule, schedule[0]) == 2 * m);
            }
        } else {
            assert(n <= n * m) by (nonlinear_arith)
                requires
                    m >= 1,
            ;
        }
    }
    assert(steps.take(schedule.len() as int) =~= steps);
    assert(schedule.take(schedule.len() as int) =~= schedule);
    lemma_net_is_in_flight(schedule, n, schedule.len() as int);
    assert forall|t: usize| t < n implies #[trigger] count(schedule, t) % 2 == 0 by {
        assert(count(schedule, t) == 2 * m);
    }
    lemma_in_flight_none(schedule, n as nat);
    assert forall|j: int| 0 <= j < steps.len() implies 1 <= start + #[trigger] net(
        steps.take(j),
    ) < usize::MAX by {
        lemma_net_is_in_flight(schedule, n, j);
    }
    lemma_count_follows_steps(h, a, steps);
    let g = run(h, a, steps);
    assert(net(steps) == 0);
    assert(g.objects =~= h.objects);
}

} // verus!
