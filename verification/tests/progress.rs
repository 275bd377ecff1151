use untitled_th::progress::{CounterProgress, Progress, ProgressTracker};

fn counts(p: &CounterProgress) -> (u16, u16, u16) {
    (p.num_loading(), p.num_finished(), p.error_nums())
}

#[test]
fn a_fresh_progress_counts_nothing() {
    assert_eq!(counts(&CounterProgress::default()), (0, 0, 0));
}

#[test]
fn a_tracker_counts_as_loading_until_it_ends() {
    let mut p = CounterProgress::default();
    let mut t = p.create_tracker();
    assert!(!t.is_loaded());
    assert_eq!(counts(&p), (1, 0, 0));
    t.end_loading(&mut p);
    assert!(t.is_loaded());
    assert_eq!(counts(&p), (0, 1, 0));
}

#[test]
fn ending_twice_counts_once() {
    let mut p = CounterProgress::default();
    let mut t = p.create_tracker();
    let _other = p.create_tracker();
    t.end_loading(&mut p);
    t.end_loading(&mut p);
    assert_eq!(counts(&p), (1, 1, 0));
    t.discard(&mut p);
    assert_eq!(counts(&p), (1, 1, 0));
}

#[test]
fn an_error_ends_the_load() {
    let mut p = CounterProgress::default();
    let mut t = p.create_tracker();
    t.new_error_num(&mut p);
    assert!(t.is_loaded());
    assert_eq!(counts(&p), (0, 1, 1));
}

#[test]
fn an_error_after_the_end_counts_the_error_only() {
    let mut p = CounterProgress::default();
    let mut t = p.create_tracker();
    t.end_loading(&mut p);
    t.new_error_num(&mut p);
    assert_eq!(counts(&p), (0, 1, 1));
}

#[test]
fn a_second_error_of_one_tracker_is_counted_too() {
    let mut p = CounterProgress::default();
    let mut t = p.create_tracker();
    t.new_error_num(&mut p);
    t.new_error_num(&mut p);
    assert_eq!(counts(&p), (0, 1, 2));
}

#[test]
fn a_discarded_tracker_counts_as_finished() {
    let mut p = CounterProgress::default();
    let t = p.create_tracker();
    t.discard(&mut p);
    assert_eq!(counts(&p), (0, 1, 0));
}

#[test]
fn loads_are_conserved_over_a_mix_of_fates() {
    let mut p = CounterProgress::default();
    let mut trackers = Vec::new();
    for _ in 0..10 {
        trackers.push(p.create_tracker());
    }
    assert_eq!(counts(&p), (10, 0, 0));
    let mut left = Vec::new();
    for (i, mut t) in trackers.into_iter().enumerate() {
        match i % 4 {
            0 => {
                t.end_loading(&mut p);
                left.push(t);
            }
            1 => {
                t.new_error_num(&mut p);
                left.push(t);
            }
            2 => t.discard(&mut p),
            _ => left.push(t),
        }
        assert_eq!(p.num_loading() + p.num_finished(), 10);
        assert!(p.error_nums() <= p.num_finished());
    }
    assert_eq!(counts(&p), (2, 8, 3));
    for t in left {
        t.discard(&mut p);
    }
    assert_eq!(counts(&p), (0, 10, 3));
}

#[test]
fn the_counters_wrap_around() {
    let mut p = CounterProgress::default();
    for _ in 0..65536u32 {
        let _ = p.create_tracker();
    }
    assert_eq!(p.num_loading(), 0);
    let mut t = p.create_tracker();
    assert_eq!(p.num_loading(), 1);
    t.end_loading(&mut p);
    let mut u = p.create_tracker();
    u.end_loading(&mut p);
    u.end_loading(&mut p);
    assert_eq!(counts(&p), (0, 2, 0));
    let mut v = CounterProgress::default();
    let mut stray = p.create_tracker();
    stray.end_loading(&mut v);
    assert_eq!(counts(&v), (u16::MAX, 1, 0));
}

#[test]
fn the_unit_progress_counts_nothing() {
    let mut p = ();
    let mut t = p.create_tracker();
    ProgressTracker::<()>::end_loading(&mut t, &mut p);
    ProgressTracker::<()>::new_error_num(&mut t, &mut p);
    assert_eq!((p.num_loading(), p.num_finished(), p.error_nums()), (0, 0, 0));
    let mut counted = CounterProgress::default();
    ProgressTracker::<CounterProgress>::new_error_num(&mut (), &mut counted);
    assert_eq!(counts(&counted), (0, 0, 0));
}
