use npe2_census::sched::Scheduler;

#[test]
fn never_more_than_limit_in_flight() {
    let mut s = Scheduler::new(5, 2);
    assert!(s.can_start());
    let t0 = s.start();
    assert_eq!(t0, 0);
    assert!(s.can_start());
    let t1 = s.start();
    assert_eq!(t1, 1);
    assert_eq!(s.in_flight(), 2);
    // The cap is reached: nothing may start until a completion arrives.
    assert!(!s.can_start());
    s.finish();
    assert_eq!(s.in_flight(), 1);
    assert!(s.can_start());
    let t2 = s.start();
    assert_eq!(t2, 2);
    assert!(!s.can_start());
}

#[test]
fn runs_to_exhaustion_in_any_completion_order() {
    let mut s = Scheduler::new(3, 2);
    s.start();
    s.start();
    // Completions may arrive in any order; the scheduler only counts them.
    s.finish();
    s.start();
    assert!(!s.has_pending());
    assert!(!s.can_start());
    s.finish();
    s.finish();
    assert!(s.is_done());
    assert_eq!(s.in_flight(), 0);
}

#[test]
fn wide_limit_lets_everything_fly() {
    let mut s = Scheduler::new(3, 10);
    while s.can_start() {
        s.start();
    }
    assert_eq!(s.in_flight(), 3);
    assert!(!s.has_pending());
    s.finish();
    s.finish();
    s.finish();
    assert!(s.is_done());
}
