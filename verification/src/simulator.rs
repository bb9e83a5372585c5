//! The executable simulator.

use crate::laws::lemma_step_wf;
use crate::model::{
    frames_after_eviction, hand_after_eviction, passed_from, passed_over, resident, run, simulate,
    step, sweep, touch, victim_slot, ClockState, Frame,
};
use crate::ring::{lemma_ring_inverse, lemma_ring_slot, ring_distance, ring_slot};
use vstd::prelude::*;

verus! {

/// One resident page.
#[derive(Clone, Copy, Debug, PartialEq, Eq, Structural)]
pub struct Page {
    /// Page number.
    pub number: i32,
    /// Reference bit.
    pub reference: bool,
    /// Value of the logical clock at the most recent access.
    pub last_used: usize,
}

impl View for Page {
    type V = Frame;

    open spec fn view(&self) -> Frame {
        Frame { number: self.number, reference: self.reference, last_used: self.last_used as nat }
    }
}

/// The model of a vector of pages.
pub open spec fn frames_of(pages: Seq<Page>) -> Seq<Frame> {
    Seq::new(pages.len(), |i: int| pages[i]@)
}

/// A working-set clock over a fixed number of frames.
///
/// A simulator made with no frames at all keeps nothing resident: every
/// reference it sees is a page fault.
pub struct WsClock {
    frames: Vec<Page>,
    clock_hand: usize,
    time: usize,
    page_faults: usize,
    frame_size: usize,
    tau: usize,
}

impl View for WsClock {
    type V = ClockState;

    closed spec fn view(&self) -> ClockState {
        ClockState {
            frames: frames_of(self.frames@),
            hand: self.clock_hand as nat,
            time: self.time as nat,
            faults: self.page_faults as nat,
        }
    }
}

impl WsClock {
    /// The number of frames.
    pub closed spec fn spec_frame_size(&self) -> nat {
        self.frame_size as nat
    }

    /// The age threshold, in ticks of the logical clock.
    pub closed spec fn spec_tau(&self) -> nat {
        self.tau as nat
    }

    /// The state is one that a run can reach with this number of frames.
    pub open spec fn wf(&self) -> bool {
        self@.wf(self.spec_frame_size())
    }

    /// A simulator with `frame_size` empty frames and the age threshold `tau`.
    pub fn new(frame_size: usize, tau: usize) -> (clock: WsClock)
        ensures
            clock.wf(),
            clock@ == ClockState::initial(),
            clock.spec_frame_size() == frame_size,
            clock.spec_tau() == tau,
    {
        let clock = WsClock {
            frames: Vec::new(),
            clock_hand: 0,
            time: 0,
            page_faults: 0,
            frame_size,
            tau,
        };
        assert(frames_of(clock.frames@) =~= Seq::empty());
        clock
    }

    /// Processes one reference to `page` and says whether it was a page
    /// fault.
    ///
    /// A resident page is marked referenced and stamped with the new time. A
    /// page that is not resident is a fault: when all frames are taken one page
    /// is evicted, then the new page is appended behind the others. With no
    /// frames at all the fault is counted and nothing is kept.
    pub fn access(&mut self, page: i32) -> (fault: bool)
        requires
            old(self).wf(),
            old(self)@.time < usize::MAX,
        ensures
            final(self).wf(),
            final(self)@ == step(old(self)@, old(self).spec_frame_size(), old(self).spec_tau(), page),
            final(self).spec_frame_size() == old(self).spec_frame_size(),
            final(self).spec_tau() == old(self).spec_tau(),
            fault == old(self)@.faults_on(page),
    {
        proof {
            lemma_step_wf(self@, self.spec_frame_size(), self.spec_tau(), page);
        }
        let ghost before = self@;
        let ghost pages = self.frames@;
        self.time += 1;
        match self.find(page) {
            Some(i) => {
                self.frames[i].reference = true;
                self.frames[i].last_used = self.time;
                proof {
                    assert(before.frames[i as int].number == page);
                    assert(frames_of(self.frames@) =~= touch(before.frames, page, self.time as nat))
                        by {
                        assert forall|j: int| 0 <= j < pages.len() implies #[trigger] frames_of(
                            self.frames@,
                        )[j] == touch(before.frames, page, self.time as nat)[j] by {
                            if j != i {
                                assert(before.frames[j].number != before.frames[i as int].number);
                            }
                        }
                    }
                }
                return false;
            },
            None => {},
        }
        self.page_faults += 1;
        if self.frame_size == 0 {
            return true;
        }
        if self.frames.len() == self.frame_size {
            proof {
                assert forall|i: int| 0 <= i < self.frames.len() implies (
                #[trigger] self.frames[i]).last_used <= self.time by {
                    assert(before.frames[i].last_used <= before.time);
                }
            }
            self.evict();
        }
        let ghost kept = frames_of(self.frames@);
        self.frames.push(Page { number: page, reference: true, last_used: self.time });
        proof {
            assert(frames_of(self.frames@) =~= kept.push(Frame::fresh(page, self.time as nat)));
        }
        true
    }

    /// The number of page faults so far.
    pub fn page_faults(&self) -> (faults: usize)
        ensures
            faults == self@.faults,
    {
        self.page_faults
    }

    /// The number of references processed so far.
    pub fn time(&self) -> (time: usize)
        ensures
            time == self@.time,
    {
        self.time
    }

    /// The slot at which the next eviction scan starts.
    pub fn clock_hand(&self) -> (hand: usize)
        ensures
            hand == self@.hand,
    {
        self.clock_hand
    }

    /// The number of frames, taken or free.
    pub fn frame_size(&self) -> (frame_size: usize)
        ensures
            frame_size == self.spec_frame_size(),
    {
        self.frame_size
    }

    /// The age threshold.
    pub fn tau(&self) -> (tau: usize)
        ensures
            tau == self.spec_tau(),
    {
        self.tau
    }

    /// The resident pages in insertion order, oldest first.
    pub fn frames(&self) -> (pages: &Vec<Page>)
        ensures
            frames_of(pages@) == self@.frames,
    {
        &self.frames
    }

    /// Whether `page` is resident.
    pub fn is_resident(&self, page: i32) -> (held: bool)
        ensures
            held == resident(self@.frames, page),
    {
        match self.find(page) {
            Some(i) => {
                assert(frames_of(self.frames@)[i as int].number == page);
                true
            },
            None => false,
        }
    }

    /// The slot that holds `page`, if any does.
    fn find(&self, page: i32) -> (slot: Option<usize>)
        ensures
            match slot {
                Some(i) => i < self.frames.len() && self.frames[i as int].number == page,
                None => !resident(frames_of(self.frames@), page),
            },
    {
        let n = self.frames.len();
        let mut i: usize = 0;
        while i < n
            invariant
                n == self.frames.len(),
                i <= n,
                forall|j: int| 0 <= j < i ==> self.frames[j].number != page,
            decreases n - i,
        {
            if self.frames[i].number == page {
                return Some(i);
            }
            i += 1;
        }
        assert forall|j: int| 0 <= j < frames_of(self.frames@).len() implies (
        #[trigger] frames_of(self.frames@)[j]).number != page by {
            assert(self.frames[j].number == frames_of(self.frames@)[j].number);
        }
        None
    }

    /// Frees one frame: the hand moves round the ring, starting where it
    /// rests, clears the reference bit of each page it passes, and evicts the
    /// first page that is unreferenced and older than the threshold. After a
    /// full lap without such a page the oldest page is evicted.
    fn evict(&mut self)
        requires
            old(self).frames.len() >= 1,
            old(self).clock_hand < old(self).frames.len(),
            forall|i: int|
                0 <= i < old(self).frames.len() ==> (#[trigger] old(self).frames[i]).last_used
                    <= old(self).time,
        ensures
            frames_of(final(self).frames@) == frames_after_eviction(
                frames_of(old(self).frames@),
                old(self).clock_hand as nat,
                old(self).time as nat,
                old(self).tau as nat,
            ),
            final(self).clock_hand == hand_after_eviction(
                frames_of(old(self).frames@),
                old(self).clock_hand as nat,
                old(self).time as nat,
                old(self).tau as nat,
            ),
            final(self).time == old(self).time,
            final(self).page_faults == old(self).page_faults,
            final(self).frame_size == old(self).frame_size,
            final(self).tau == old(self).tau,
    {
        let ghost start = frames_of(self.frames@);
        let ghost hand = self.clock_hand as nat;
        let ghost now = self.time as nat;
        let ghost tau = self.tau as nat;
        let n = self.frames.len();
        let mut scanned: usize = 0;
        proof {
            lemma_ring_slot(hand, 0, n as nat);
            assert(frames_of(self.frames@) =~= sweep(start, hand, 0)) by {
                assert forall|i: int| 0 <= i < n implies !(ring_distance(hand, i, n as nat) < 0) by {
                    lemma_ring_inverse(hand, 0, i, n as nat);
                }
            }
        }
        loop
            invariant_except_break
                scanned < n,
                self.frames.len() == n,
                self.clock_hand == ring_slot(hand, scanned as nat, n as nat),
                frames_of(self.frames@) == sweep(start, hand, scanned as nat),
                passed_from(start, hand, now, tau, scanned as nat) == passed_over(
                    start,
                    hand,
                    now,
                    tau,
                ),
            invariant
                start.len() == n,
                hand < n,
                now == self.time,
                tau == self.tau,
                self.time == old(self).time,
                self.page_faults == old(self).page_faults,
                self.frame_size == old(self).frame_size,
                self.tau == old(self).tau,
                forall|i: int| 0 <= i < n ==> (#[trigger] start[i]).last_used <= now,
            ensures
                frames_of(self.frames@) == frames_after_eviction(start, hand, now, tau),
                self.clock_hand == hand_after_eviction(start, hand, now, tau),
            decreases n - scanned,
        {
            let slot = self.clock_hand;
            proof {
                lemma_ring_inverse(hand, scanned as nat, slot as int, n as nat);
                assert(frames_of(self.frames@)[slot as int] == start[slot as int]);
                assert(self.frames[slot as int]@ == start[slot as int]);
            }
            if !self.frames[slot].reference {
                if self.time - self.frames[slot].last_used > self.tau {
                    let ghost swept = frames_of(self.frames@);
                    self.frames.remove(slot);
                    if self.clock_hand >= self.frames.len() {
                        self.clock_hand = 0;
                    }
                    proof {
                        assert(start[slot as int].evictable(now, tau));
                        assert(passed_over(start, hand, now, tau) == scanned);
                        assert(victim_slot(start, hand, now, tau) == slot);
                        assert(frames_of(self.frames@) =~= swept.remove(slot as int));
                    }
                    break ;
                }
            } else {
                self.frames[slot].reference = false;
            }
            proof {
                assert(!start[slot as int].evictable(now, tau));
                assert(passed_from(start, hand, now, tau, (scanned + 1) as nat) == passed_over(
                    start,
                    hand,
                    now,
                    tau,
                ));
                assert(frames_of(self.frames@) =~= sweep(start, hand, (scanned + 1) as nat)) by {
                    assert forall|i: int| 0 <= i < n implies #[trigger] frames_of(self.frames@)[i]
                        == sweep(start, hand, (scanned + 1) as nat)[i] by {
                        lemma_ring_inverse(hand, scanned as nat, i, n as nat);
                        assert(sweep(start, hand, scanned as nat)[i] == if ring_distance(
                            hand,
                            i,
                            n as nat,
                        ) < scanned {
                            start[i].cleared()
                        } else {
                            start[i]
                        });
                    }
                }
                lemma_ring_slot(hand, scanned as nat, n as nat);
                lemma_ring_slot(hand, (scanned + 1) as nat, n as nat);
                lemma_ring_slot(slot as nat, 1, n as nat);
            }
            self.clock_hand = (self.clock_hand + 1) % self.frames.len();
            scanned += 1;
            if scanned == self.frames.len() {
                let ghost swept = frames_of(self.frames@);
                self.frames.remove(0);
                self.clock_hand = 0;
                proof {
                    assert(passed_over(start, hand, now, tau) == n);
                    assert(victim_slot(start, hand, now, tau) == 0);
                    assert(frames_of(self.frames@) =~= swept.remove(0));
                }
                break ;
            }
        }
    }
}

/// Counts the page faults that the trace `pages` causes under the working-set
/// clock policy with `frame_size` frames and the age threshold `tau`.
///
/// With `frame_size == 0` nothing can be kept resident, and every reference
/// is a fault.
pub fn wsclock_page_replacement(pages: Vec<i32>, frame_size: usize, tau: usize) -> (faults: usize)
    ensures
        faults == simulate(pages@, frame_size as nat, tau as nat),
{
    let mut clock = WsClock::new(frame_size, tau);
    let n = pages.len();
    let mut i: usize = 0;
    while i < n
        invariant
            n == pages.len(),
            i <= n,
            clock.wf(),
            clock.spec_frame_size() == frame_size,
            clock.spec_tau() == tau,
            clock@.time == i,
            clock@ == run(ClockState::initial(), frame_size as nat, tau as nat, pages@.take(i as int)),
        decreases n - i,
    {
        proof {
            assert(pages@.take(i + 1).drop_last() =~= pages@.take(i as int));
        }
        clock.access(pages[i]);
        i += 1;
    }
    proof {
        assert(pages@.take(n as int) =~= pages@);
    }
    clock.page_faults()
}

} // verus!
