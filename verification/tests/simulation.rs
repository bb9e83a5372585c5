use wsclock::simulator::wsclock_page_replacement;

const TRACE: [i32; 13] = [7, 0, 1, 2, 0, 3, 0, 4, 2, 3, 0, 3, 2];

#[test]
fn worked_example_has_ten_faults() {
    assert_eq!(wsclock_page_replacement(TRACE.to_vec(), 3, 4), 10);
}

#[test]
fn worked_example_with_other_thresholds() {
    assert_eq!(wsclock_page_replacement(TRACE.to_vec(), 3, 0), 8);
    assert_eq!(wsclock_page_replacement(TRACE.to_vec(), 3, 2), 8);
    assert_eq!(wsclock_page_replacement(TRACE.to_vec(), 3, 3), 10);
    assert_eq!(wsclock_page_replacement(TRACE.to_vec(), 3, 10), 10);
}

#[test]
fn worked_example_with_other_frame_counts() {
    assert_eq!(wsclock_page_replacement(TRACE.to_vec(), 1, 4), 13);
    assert_eq!(wsclock_page_replacement(TRACE.to_vec(), 4, 4), 6);
    assert_eq!(wsclock_page_replacement(TRACE.to_vec(), 4, 5), 7);
}

#[test]
fn same_inputs_give_same_count() {
    let first = wsclock_page_replacement(TRACE.to_vec(), 3, 4);
    let second = wsclock_page_replacement(TRACE.to_vec(), 3, 4);
    assert_eq!(first, second);
}

#[test]
fn empty_trace_has_no_fault() {
    assert_eq!(wsclock_page_replacement(Vec::new(), 1, 0), 0);
    assert_eq!(wsclock_page_replacement(Vec::new(), 3, 4), 0);
    assert_eq!(wsclock_page_replacement(Vec::new(), 0, 0), 0);
}

#[test]
fn no_frames_makes_every_reference_a_fault() {
    assert_eq!(wsclock_page_replacement(vec![1, 1, 1], 0, 4), 3);
    assert_eq!(wsclock_page_replacement(TRACE.to_vec(), 0, 4), 13);
}

#[test]
fn three_different_pages_fill_three_frames() {
    for tau in [0usize, 1, 4, 100, usize::MAX] {
        assert_eq!(wsclock_page_replacement(vec![1, 2, 3], 3, tau), 3);
        assert_eq!(wsclock_page_replacement(vec![-5, 0, i32::MAX], 3, tau), 3);
    }
}

#[test]
fn repeated_page_faults_once() {
    assert_eq!(wsclock_page_replacement(vec![4, 4, 4, 4], 1, 0), 1);
    assert_eq!(wsclock_page_replacement(vec![4, 4, 9, 9, 4, 4], 1, 0), 3);
}

#[test]
fn single_frame_faults_on_every_change() {
    assert_eq!(wsclock_page_replacement(vec![1, 2, 1, 2, 2, 3], 1, 0), 5);
    assert_eq!(wsclock_page_replacement(vec![1, 2, 1, 2, 2, 3], 1, 100), 5);
}

#[test]
fn count_grows_by_at_most_one_per_reference() {
    let mut before = 0;
    for k in 1..=TRACE.len() {
        let now = wsclock_page_replacement(TRACE[..k].to_vec(), 3, 4);
        assert!(now == before || now == before + 1);
        before = now;
    }
}

#[test]
fn negative_page_numbers_are_pages_like_any_other() {
    assert_eq!(wsclock_page_replacement(vec![-1, -2, -1, i32::MIN, -2], 2, 1), 3);
}
