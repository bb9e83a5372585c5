//! Laws of the working-set clock, proved of the model.

use crate::model::{
    distinct, frames_after_eviction, hand_after_eviction, passed_from, passed_over, resident,
    resident_pages, run, simulate, step, victim_slot, ClockState, Frame,
};
use crate::ring::{lemma_ring_slot, ring_slot};
use vstd::prelude::*;

verus! {

/// A scan that has passed `k` frames stops within the lap, at the first
/// evictable frame from there on.
pub proof fn lemma_passed_from(frames: Seq<Frame>, hand: nat, now: nat, tau: nat, k: nat)
    requires
        hand < frames.len(),
        k <= frames.len(),
    ensures
        k <= passed_from(frames, hand, now, tau, k) <= frames.len(),
        passed_from(frames, hand, now, tau, k) < frames.len() ==> frames[ring_slot(
            hand,
            passed_from(frames, hand, now, tau, k),
            frames.len(),
        ) as int].evictable(now, tau),
        forall|j: nat|
            k <= j < passed_from(frames, hand, now, tau, k) ==> !(#[trigger] frames[ring_slot(
                hand,
                j,
                frames.len(),
            ) as int]).evictable(now, tau),
    decreases frames.len() - k,
{
    if k < frames.len() && !frames[ring_slot(hand, k, frames.len()) as int].evictable(now, tau) {
        lemma_passed_from(frames, hand, now, tau, k + 1);
    }
}

/// An eviction scan over a full, non-empty ring removes exactly one record,
/// the one in the victim's slot. Every other record keeps its place in the
/// order, its page number and its time stamp.
pub proof fn lemma_eviction(frames: Seq<Frame>, hand: nat, now: nat, tau: nat)
    requires
        hand < frames.len(),
    ensures
        victim_slot(frames, hand, now, tau) < frames.len(),
        frames_after_eviction(frames, hand, now, tau).len() == frames.len() - 1,
        hand_after_eviction(frames, hand, now, tau) == 0 || hand_after_eviction(
            frames,
            hand,
            now,
            tau,
        ) < frames.len() - 1,
        forall|i: int|
            #![trigger frames_after_eviction(frames, hand, now, tau)[i]]
            0 <= i < frames.len() - 1 ==> {
                let kept = frames_after_eviction(frames, hand, now, tau)[i];
                let before = frames[if i < victim_slot(frames, hand, now, tau) {
                    i
                } else {
                    i + 1
                }];
                &&& kept.number == before.number
                &&& kept.last_used == before.last_used
                &&& kept.reference ==> before.reference
            },
{
    let n = frames.len();
    lemma_passed_from(frames, hand, now, tau, 0);
    let k = passed_over(frames, hand, now, tau);
    if k < n {
        lemma_ring_slot(hand, k, n);
    }
}

/// A reference leaves a reachable state reachable.
pub proof fn lemma_step_wf(s: ClockState, frame_size: nat, tau: nat, page: i32)
    requires
        s.wf(frame_size),
    ensures
        step(s, frame_size, tau, page).wf(frame_size),
{
    let now = s.time + 1;
    let t = step(s, frame_size, tau, page);
    if resident(s.frames, page) {
    } else if frame_size == 0 {
    } else if s.frames.len() < frame_size {
        assert(distinct(t.frames)) by {
            assert forall|i: int, j: int| 0 <= i < j < t.frames.len() implies (
            #[trigger] t.frames[i]).number != (#[trigger] t.frames[j]).number by {
                if j == s.frames.len() {
                    assert(s.frames[i].number != page);
                }
            }
        }
    } else {
        lemma_eviction(s.frames, s.hand, now as nat, tau);
        let kept = frames_after_eviction(s.frames, s.hand, now as nat, tau);
        let victim = victim_slot(s.frames, s.hand, now as nat, tau) as int;
        assert forall|i: int| 0 <= i < kept.len() implies (#[trigger] kept[i]).number != page
            && kept[i].last_used <= now by {
            let b = if i < victim {
                i
            } else {
                i + 1
            };
            assert(s.frames[b].number != page);
        }
        assert forall|i: int, j: int| 0 <= i < j < kept.len() implies (#[trigger] kept[i]).number
            != (#[trigger] kept[j]).number by {
            let bi = if i < victim {
                i
            } else {
                i + 1
            };
            let bj = if j < victim {
                j
            } else {
                j + 1
            };
            assert(s.frames[bi].number != s.frames[bj].number);
        }
        assert(distinct(t.frames)) by {
            assert forall|i: int, j: int| 0 <= i < j < t.frames.len() implies (
            #[trigger] t.frames[i]).number != (#[trigger] t.frames[j]).number by {
                if j == kept.len() {
                    assert(kept[i].number != page);
                } else {
                    assert(kept[i].number != kept[j].number);
                }
            }
        }
    }
}

/// A run leaves a reachable state reachable.
pub proof fn lemma_run_wf(s: ClockState, frame_size: nat, tau: nat, refs: Seq<i32>)
    requires
        s.wf(frame_size),
    ensures
        run(s, frame_size, tau, refs).wf(frame_size),
    decreases refs.len(),
{
    if refs.len() > 0 {
        lemma_run_wf(s, frame_size, tau, refs.drop_last());
        lemma_step_wf(run(s, frame_size, tau, refs.drop_last()), frame_size, tau, refs.last());
    }
}

/// Frames that hold distinct pages hold as many pages as there are frames.
pub proof fn lemma_resident_pages(frames: Seq<Frame>)
    requires
        distinct(frames),
    ensures
        resident_pages(frames).finite(),
        resident_pages(frames).len() == frames.len(),
    decreases frames.len(),
{
    if frames.len() == 0 {
        assert(resident_pages(frames) =~= Set::<i32>::empty());
    } else {
        let rest = frames.drop_last();
        let last = frames.last().number;
        assert(distinct(rest)) by {
            assert forall|i: int, j: int| 0 <= i < j < rest.len() implies (#[trigger] rest[i]).number
                != (#[trigger] rest[j]).number by {
                assert(frames[i].number != frames[j].number);
            }
        }
        lemma_resident_pages(rest);
        assert(!resident_pages(rest).contains(last)) by {
            if resident(rest, last) {
                let i = choose|i: int| 0 <= i < rest.len() && (#[trigger] rest[i]).number == last;
                assert(frames[i].number != frames[frames.len() - 1].number);
            }
        }
        assert(resident_pages(frames) =~= resident_pages(rest).insert(last)) by {
            assert forall|page: i32| resident(frames, page) implies resident(rest, page) || page
                == last by {
                let i = choose|i: int|
                    0 <= i < frames.len() && (#[trigger] frames[i]).number == page;
                if i < rest.len() {
                    assert(rest[i].number == page);
                }
            }
            assert forall|page: i32| resident(rest, page) implies resident(frames, page) by {
                let i = choose|i: int| 0 <= i < rest.len() && (#[trigger] rest[i]).number == page;
                assert(frames[i].number == page);
            }
            assert(frames[frames.len() - 1].number == last);
        }
    }
}

/// The same trace gives the same fault count: the count depends on nothing but
/// the references, the number of frames and the threshold.
pub proof fn simulate_is_deterministic(a: Seq<i32>, b: Seq<i32>, frame_size: nat, tau: nat)
    requires
        a.len() == b.len(),
        forall|i: int| 0 <= i < a.len() ==> a[i] == b[i],
    ensures
        simulate(a, frame_size, tau) == simulate(b, frame_size, tau),
{
    assert(a =~= b);
}

/// After every prefix of a trace the state is well formed: no more pages are
/// resident than there are frames, no page is resident twice, the hand points
/// at a frame, and no time stamp lies in the future.
pub proof fn capacity_invariant(refs: Seq<i32>, frame_size: nat, tau: nat, k: int)
    requires
        0 <= k <= refs.len(),
    ensures
        run(ClockState::initial(), frame_size, tau, refs.take(k)).wf(frame_size),
        run(ClockState::initial(), frame_size, tau, refs.take(k)).frames.len() <= frame_size,
        resident_pages(run(ClockState::initial(), frame_size, tau, refs.take(k)).frames).finite(),
        resident_pages(run(ClockState::initial(), frame_size, tau, refs.take(k)).frames).len()
            <= frame_size,
{
    lemma_run_wf(ClockState::initial(), frame_size, tau, refs.take(k));
    lemma_resident_pages(run(ClockState::initial(), frame_size, tau, refs.take(k)).frames);
}

/// One reference adds one to the fault count where the page is not resident,
/// and nothing where it is. It always adds one to the logical clock.
pub proof fn step_counts(s: ClockState, frame_size: nat, tau: nat, page: i32)
    ensures
        step(s, frame_size, tau, page).time == s.time + 1,
        step(s, frame_size, tau, page).faults == s.faults + if s.faults_on(page) {
            1nat
        } else {
            0nat
        },
{
}

/// The fault count never falls as a trace is processed, and each reference
/// adds at most one to it.
pub proof fn monotone_counting(refs: Seq<i32>, frame_size: nat, tau: nat, j: int, k: int)
    requires
        0 <= j <= k <= refs.len(),
    ensures
        simulate(refs.take(j), frame_size, tau) <= simulate(refs.take(k), frame_size, tau),
        simulate(refs.take(k), frame_size, tau) <= simulate(refs.take(j), frame_size, tau) + (k
            - j),
    decreases k - j,
{
    if j < k {
        monotone_counting(refs, frame_size, tau, j, k - 1);
        assert(refs.take(k).drop_last() =~= refs.take(k - 1));
        step_counts(
            run(ClockState::initial(), frame_size, tau, refs.take(k - 1)),
            frame_size,
            tau,
            refs[k - 1],
        );
    }
}

/// With at least one frame, a page is resident right after it was referenced.
pub proof fn lemma_referenced_page_is_resident(s: ClockState, frame_size: nat, tau: nat, page: i32)
    requires
        frame_size >= 1,
    ensures
        resident(step(s, frame_size, tau, page).frames, page),
{
    let t = step(s, frame_size, tau, page);
    if resident(s.frames, page) {
        let i = choose|i: int| 0 <= i < s.frames.len() && (#[trigger] s.frames[i]).number == page;
        assert(t.frames[i].number == page);
    } else {
        assert(t.frames[t.frames.len() - 1].number == page);
    }
}

/// With at least one frame, a second reference to the same page right after
/// the first is no fault.
pub proof fn no_fault_on_repeat(s: ClockState, frame_size: nat, tau: nat, page: i32)
    requires
        frame_size >= 1,
    ensures
        !step(s, frame_size, tau, page).faults_on(page),
        step(step(s, frame_size, tau, page), frame_size, tau, page).faults == step(
            s,
            frame_size,
            tau,
            page,
        ).faults,
{
    lemma_referenced_page_is_resident(s, frame_size, tau, page);
}

/// With at least one frame, a reference that repeats the one before it in a
/// trace leaves the fault count as it was.
pub proof fn no_fault_on_repeat_in_trace(refs: Seq<i32>, frame_size: nat, tau: nat, k: int)
    requires
        frame_size >= 1,
        0 < k < refs.len(),
        refs[k] == refs[k - 1],
    ensures
        simulate(refs.take(k + 1), frame_size, tau) == simulate(refs.take(k), frame_size, tau),
{
    assert(refs.take(k + 1).drop_last() =~= refs.take(k));
    assert(refs.take(k).drop_last() =~= refs.take(k - 1));
    no_fault_on_repeat(
        run(ClockState::initial(), frame_size, tau, refs.take(k - 1)),
        frame_size,
        tau,
        refs[k],
    );
}

/// The empty trace causes no fault.
pub proof fn simulate_empty(frame_size: nat, tau: nat)
    ensures
        simulate(Seq::<i32>::empty(), frame_size, tau) == 0,
{
}

/// With a single frame that holds a page, a reference to any other page is a
/// fault that evicts the resident page and leaves the new one alone in the
/// frame.
pub proof fn single_frame(s: ClockState, tau: nat, page: i32)
    requires
        s.wf(1),
        s.frames.len() == 1,
        s.frames[0].number != page,
    ensures
        s.faults_on(page),
        step(s, 1, tau, page).faults == s.faults + 1,
        step(s, 1, tau, page).frames == seq![Frame::fresh(page, s.time + 1)],
        step(s, 1, tau, page).hand == 0,
        !resident(step(s, 1, tau, page).frames, s.frames[0].number),
{
    let now = s.time + 1;
    let t = step(s, 1, tau, page);
    lemma_eviction(s.frames, s.hand, now as nat, tau);
    assert(t.frames =~= seq![Frame::fresh(page, now as nat)]);
}

/// While frames are free, a trace of pairwise different pages fills them in
/// order, and each of its references is a fault.
pub proof fn lemma_cold_start(refs: Seq<i32>, frame_size: nat, tau: nat)
    requires
        refs.no_duplicates(),
        refs.len() <= frame_size,
    ensures
        run(ClockState::initial(), frame_size, tau, refs).frames.len() == refs.len(),
        forall|i: int|
            0 <= i < refs.len() ==> (#[trigger] run(
                ClockState::initial(),
                frame_size,
                tau,
                refs,
            ).frames[i]).number == refs[i],
        run(ClockState::initial(), frame_size, tau, refs).faults == refs.len(),
    decreases refs.len(),
{
    if refs.len() > 0 {
        let rest = refs.drop_last();
        lemma_cold_start(rest, frame_size, tau);
        let s = run(ClockState::initial(), frame_size, tau, rest);
        assert(!resident(s.frames, refs.last())) by {
            if resident(s.frames, refs.last()) {
                let i = choose|i: int|
                    0 <= i < s.frames.len() && (#[trigger] s.frames[i]).number == refs.last();
                assert(refs[i] == refs[refs.len() - 1]);
            }
        }
    }
}

/// As many pairwise different references as there are frames, or fewer, are
/// all faults: nothing has to be evicted for them.
pub proof fn cold_start_saturation(refs: Seq<i32>, frame_size: nat, tau: nat)
    requires
        refs.no_duplicates(),
        refs.len() <= frame_size,
    ensures
        simulate(refs, frame_size, tau) == refs.len(),
{
    lemma_cold_start(refs, frame_size, tau);
}

/// Three different pages referenced into three empty frames are three faults,
/// whatever the threshold.
pub proof fn cold_start_of_three(a: i32, b: i32, c: i32, tau: nat)
    requires
        a != b,
        b != c,
        a != c,
    ensures
        simulate(seq![a, b, c], 3, tau) == 3,
{
    cold_start_saturation(seq![a, b, c], 3, tau);
}

} // verus!
