//! Mathematical model of the working-set clock policy.
//!
//! The model works on unbounded naturals and sequences. Every contract of the
//! executable simulator is stated over the functions defined here.

use crate::ring::{ring_distance, ring_slot};
use vstd::prelude::*;

verus! {

/// One resident page, as the policy sees it.
pub struct Frame {
    /// Page number; the key by which residency is tested.
    pub number: i32,
    /// Reference bit: set on every access, cleared when the hand passes.
    pub reference: bool,
    /// Logical time of the most recent access.
    pub last_used: nat,
}

impl Frame {
    /// The record of a page that was accessed at time `now`.
    pub open spec fn fresh(number: i32, now: nat) -> Frame {
        Frame { number, reference: true, last_used: now }
    }

    /// The same record after the hand has passed it.
    pub open spec fn cleared(self) -> Frame {
        Frame { reference: false, ..self }
    }

    /// A frame may be evicted when it is unreferenced and its last access lies
    /// more than `tau` ticks back.
    pub open spec fn evictable(self, now: nat, tau: nat) -> bool {
        !self.reference && now - self.last_used > tau
    }
}

/// The whole state of one simulation run.
pub struct ClockState {
    /// Resident pages in insertion order, oldest first.
    pub frames: Seq<Frame>,
    /// Slot at which the next eviction scan starts.
    pub hand: nat,
    /// Number of references processed so far.
    pub time: nat,
    /// Number of those references that were page faults.
    pub faults: nat,
}

/// `page` is held by one of the frames.
pub open spec fn resident(frames: Seq<Frame>, page: i32) -> bool {
    exists|i: int| 0 <= i < frames.len() && (#[trigger] frames[i]).number == page
}

/// No page is held by two frames.
pub open spec fn distinct(frames: Seq<Frame>) -> bool {
    forall|i: int, j: int|
        0 <= i < j < frames.len() ==> (#[trigger] frames[i]).number != (#[trigger] frames[j]).number
}

/// The set of resident page numbers.
pub open spec fn resident_pages(frames: Seq<Frame>) -> Set<i32> {
    Set::new(|page: i32| resident(frames, page))
}

/// The frames after a hit on `page`: its record is marked referenced and
/// stamped with `now`; every other record is left alone.
pub open spec fn touch(frames: Seq<Frame>, page: i32, now: nat) -> Seq<Frame> {
    Seq::new(
        frames.len(),
        |i: int|
            if frames[i].number == page {
                Frame::fresh(page, now)
            } else {
                frames[i]
            },
    )
}

/// The number of frames that a scan passes over when it has already passed
/// `k` of them without finding a victim.
pub open spec fn passed_from(frames: Seq<Frame>, hand: nat, now: nat, tau: nat, k: nat) -> nat
    decreases frames.len() - k,
{
    if k >= frames.len() {
        frames.len()
    } else if frames[ring_slot(hand, k, frames.len()) as int].evictable(now, tau) {
        k
    } else {
        passed_from(frames, hand, now, tau, k + 1)
    }
}

/// The number of frames that an eviction scan starting at `hand` passes over:
/// the ring distance from the hand to the first evictable frame, or the full
/// lap `frames.len()` where no frame is evictable.
pub open spec fn passed_over(frames: Seq<Frame>, hand: nat, now: nat, tau: nat) -> nat {
    passed_from(frames, hand, now, tau, 0)
}

/// The frames after the hand has passed over `k` of them, starting at `hand`:
/// each of those has lost its reference bit.
pub open spec fn sweep(frames: Seq<Frame>, hand: nat, k: nat) -> Seq<Frame> {
    Seq::new(
        frames.len(),
        |i: int|
            if ring_distance(hand, i, frames.len()) < k {
                frames[i].cleared()
            } else {
                frames[i]
            },
    )
}

/// The slot whose page an eviction scan removes: the first evictable frame in
/// ring order from the hand, or the oldest frame after a full lap without one.
pub open spec fn victim_slot(frames: Seq<Frame>, hand: nat, now: nat, tau: nat) -> nat {
    let k = passed_over(frames, hand, now, tau);
    if k < frames.len() {
        ring_slot(hand, k, frames.len())
    } else {
        0
    }
}

/// The frames that an eviction scan leaves behind.
pub open spec fn frames_after_eviction(frames: Seq<Frame>, hand: nat, now: nat, tau: nat) -> Seq<
    Frame,
> {
    sweep(frames, hand, passed_over(frames, hand, now, tau)).remove(
        victim_slot(frames, hand, now, tau) as int,
    )
}

/// Where the hand rests after an eviction scan: on the record that followed
/// the victim, which now has the victim's slot, or on slot 0 where the victim
/// was the last record or the scan fell back to the oldest one.
pub open spec fn hand_after_eviction(frames: Seq<Frame>, hand: nat, now: nat, tau: nat) -> nat {
    let k = passed_over(frames, hand, now, tau);
    let victim = victim_slot(frames, hand, now, tau);
    if k < frames.len() && victim + 1 < frames.len() {
        victim
    } else {
        0
    }
}

impl ClockState {
    /// The state before the first reference.
    pub open spec fn initial() -> ClockState {
        ClockState { frames: Seq::empty(), hand: 0, time: 0, faults: 0 }
    }

    /// The invariant of every state that a run can reach with `frame_size`
    /// frames.
    pub open spec fn wf(self, frame_size: nat) -> bool {
        &&& self.frames.len() <= frame_size
        &&& distinct(self.frames)
        &&& forall|i: int| 0 <= i < self.frames.len() ==> (#[trigger] self.frames[i]).last_used <= self.time
        &&& self.hand == 0 || self.hand < self.frames.len()
        &&& self.faults <= self.time
    }

    /// A reference to `page` in this state is a page fault.
    pub open spec fn faults_on(self, page: i32) -> bool {
        !resident(self.frames, page)
    }
}

/// The state after one reference to `page`.
///
/// A resident page is touched. Any other reference is a fault: with no frames
/// at all nothing can be kept; with a free frame the page is appended; with
/// all frames taken one page is evicted first.
pub open spec fn step(s: ClockState, frame_size: nat, tau: nat, page: i32) -> ClockState {
    let now = s.time + 1;
    if resident(s.frames, page) {
        ClockState { frames: touch(s.frames, page, now), hand: s.hand, time: now, faults: s.faults }
    } else if frame_size == 0 {
        ClockState { frames: s.frames, hand: s.hand, time: now, faults: s.faults + 1 }
    } else if s.frames.len() < frame_size {
        ClockState {
            frames: s.frames.push(Frame::fresh(page, now)),
            hand: s.hand,
            time: now,
            faults: s.faults + 1,
        }
    } else {
        ClockState {
            frames: frames_after_eviction(s.frames, s.hand, now, tau).push(Frame::fresh(page, now)),
            hand: hand_after_eviction(s.frames, s.hand, now, tau),
            time: now,
            faults: s.faults + 1,
        }
    }
}

/// The state after the references `refs`, processed in order from state `s`.
pub open spec fn run(s: ClockState, frame_size: nat, tau: nat, refs: Seq<i32>) -> ClockState
    decreases refs.len(),
{
    if refs.len() == 0 {
        s
    } else {
        step(run(s, frame_size, tau, refs.drop_last()), frame_size, tau, refs.last())
    }
}

/// The number of page faults that the trace `refs` causes with `frame_size`
/// frames and the age threshold `tau`.
pub open spec fn simulate(refs: Seq<i32>, frame_size: nat, tau: nat) -> nat {
    run(ClockState::initial(), frame_size, tau, refs).faults
}

} // verus!
