use wsclock::simulator::{Page, WsClock};

fn page(number: i32, reference: bool, last_used: usize) -> Page {
    Page { number, reference, last_used }
}

fn feed(clock: &mut WsClock, pages: &[i32]) {
    for &p in pages {
        clock.access(p);
    }
}

#[test]
fn new_clock_is_empty() {
    let clock = WsClock::new(3, 4);
    assert!(clock.frames().is_empty());
    assert_eq!(clock.clock_hand(), 0);
    assert_eq!(clock.time(), 0);
    assert_eq!(clock.page_faults(), 0);
    assert_eq!(clock.frame_size(), 3);
    assert_eq!(clock.tau(), 4);
    assert!(!clock.is_resident(0));
}

#[test]
fn first_reference_is_a_fault_and_is_appended() {
    let mut clock = WsClock::new(2, 1);
    assert!(clock.access(7));
    assert_eq!(clock.frames(), &vec![page(7, true, 1)]);
    assert_eq!(clock.page_faults(), 1);
    assert_eq!(clock.time(), 1);
    assert!(clock.is_resident(7));
    assert!(!clock.is_resident(8));
}

#[test]
fn hit_sets_bit_and_stamp_and_counts_nothing() {
    let mut clock = WsClock::new(3, 2);
    feed(&mut clock, &[1, 2, 3]);
    assert!(!clock.access(2));
    assert_eq!(
        clock.frames(),
        &vec![page(1, true, 1), page(2, true, 4), page(3, true, 3)]
    );
    assert_eq!(clock.page_faults(), 3);
    assert_eq!(clock.time(), 4);
    assert_eq!(clock.clock_hand(), 0);
}

#[test]
fn repeated_reference_is_no_fault() {
    let mut clock = WsClock::new(1, 0);
    assert!(clock.access(5));
    assert!(!clock.access(5));
    assert!(!clock.access(5));
    assert_eq!(clock.page_faults(), 1);
    assert_eq!(clock.frames(), &vec![page(5, true, 3)]);
}

#[test]
fn full_lap_evicts_oldest_and_clears_every_bit() {
    let mut clock = WsClock::new(3, 2);
    feed(&mut clock, &[1, 2, 3, 2]);
    assert!(clock.access(4));
    assert_eq!(
        clock.frames(),
        &vec![page(2, false, 4), page(3, false, 3), page(4, true, 5)]
    );
    assert_eq!(clock.clock_hand(), 0);
    assert_eq!(clock.page_faults(), 4);
    assert!(!clock.is_resident(1));
}

#[test]
fn young_page_is_passed_over_and_hand_rests_on_next_record() {
    let mut clock = WsClock::new(3, 2);
    feed(&mut clock, &[1, 2, 3, 2, 4]);
    assert!(clock.access(1));
    assert_eq!(
        clock.frames(),
        &vec![page(2, false, 4), page(4, true, 5), page(1, true, 6)]
    );
    assert_eq!(clock.clock_hand(), 1);
    assert_eq!(clock.frames()[clock.clock_hand()].number, 4);
    assert_eq!(clock.page_faults(), 5);
}

#[test]
fn scan_wraps_round_the_ring() {
    let mut clock = WsClock::new(3, 2);
    feed(&mut clock, &[1, 2, 3, 2, 4, 1]);
    assert_eq!(clock.clock_hand(), 1);
    assert!(clock.access(3));
    assert_eq!(
        clock.frames(),
        &vec![page(4, false, 5), page(1, false, 6), page(3, true, 7)]
    );
    assert_eq!(clock.clock_hand(), 0);
    assert_eq!(clock.page_faults(), 6);
}

#[test]
fn full_lap_from_a_hand_in_the_middle_resets_the_hand() {
    let mut clock = WsClock::new(3, 2);
    feed(&mut clock, &[1, 2, 3, 4, 2, 1]);
    assert_eq!(
        clock.frames(),
        &vec![page(2, false, 5), page(4, true, 4), page(1, true, 6)]
    );
    assert_eq!(clock.clock_hand(), 1);
    assert!(clock.access(3));
    assert_eq!(
        clock.frames(),
        &vec![page(4, false, 4), page(1, false, 6), page(3, true, 7)]
    );
    assert_eq!(clock.clock_hand(), 0);
    assert_eq!(clock.page_faults(), 6);
}

#[test]
fn zero_threshold_evicts_first_unreferenced_page() {
    let mut clock = WsClock::new(3, 0);
    feed(&mut clock, &[1, 2, 3, 4, 2]);
    assert_eq!(
        clock.frames(),
        &vec![page(2, true, 5), page(3, false, 3), page(4, true, 4)]
    );
    assert!(clock.access(5));
    assert_eq!(
        clock.frames(),
        &vec![page(2, false, 5), page(4, true, 4), page(5, true, 6)]
    );
    assert_eq!(clock.clock_hand(), 1);
}

#[test]
fn single_frame_evicts_on_every_other_page() {
    let mut clock = WsClock::new(1, 100);
    assert!(clock.access(1));
    assert!(clock.access(2));
    assert_eq!(clock.frames(), &vec![page(2, true, 2)]);
    assert!(!clock.is_resident(1));
    assert!(clock.access(1));
    assert_eq!(clock.frames(), &vec![page(1, true, 3)]);
    assert!(!clock.is_resident(2));
    assert_eq!(clock.clock_hand(), 0);
    assert_eq!(clock.page_faults(), 3);
}

#[test]
fn no_frames_keeps_nothing() {
    let mut clock = WsClock::new(0, 4);
    assert!(clock.access(1));
    assert!(clock.access(1));
    assert!(clock.frames().is_empty());
    assert!(!clock.is_resident(1));
    assert_eq!(clock.page_faults(), 2);
    assert_eq!(clock.time(), 2);
}

#[test]
fn capacity_and_uniqueness_hold_after_every_reference() {
    let trace = [7, 0, 1, 2, 0, 3, 0, 4, 2, 3, 0, 3, 2, 7, 7, 1, 5, 6, 0, 2];
    for frame_size in 1..5usize {
        for tau in 0..6usize {
            let mut clock = WsClock::new(frame_size, tau);
            let mut faults = 0;
            for (k, &p) in trace.iter().enumerate() {
                if clock.access(p) {
                    faults += 1;
                }
                let frames = clock.frames();
                assert!(frames.len() <= frame_size);
                for i in 0..frames.len() {
                    assert!(frames[i].last_used <= clock.time());
                    for j in 0..i {
                        assert_ne!(frames[i].number, frames[j].number);
                    }
                }
                assert!(clock.clock_hand() < frames.len());
                assert!(clock.is_resident(p));
                assert_eq!(clock.time(), k + 1);
                assert_eq!(clock.page_faults(), faults);
            }
        }
    }
}

#[test]
fn stepwise_count_agrees_with_whole_trace() {
    let trace = vec![7, 0, 1, 2, 0, 3, 0, 4, 2, 3, 0, 3, 2];
    let mut clock = WsClock::new(3, 4);
    feed(&mut clock, &trace);
    assert_eq!(clock.page_faults(), 10);
    assert_eq!(
        clock.page_faults(),
        wsclock::simulator::wsclock_page_replacement(trace, 3, 4)
    );
    assert_eq!(
        clock.frames(),
        &vec![page(2, true, 13), page(3, true, 12), page(0, true, 11)]
    );
}
