use wisp::selftest::{Check, Checker, Next, SETTLE};

fn settle(checker: &mut Checker) {
    for _ in 1..SETTLE {
        assert!(!checker.tick());
    }
    assert!(checker.tick());
}

#[test]
fn a_step_is_taken_once_the_window_has_settled() {
    let mut checker = Checker::new();
    for _ in 1..SETTLE {
        assert!(!checker.tick(), "too soon");
    }
    assert!(checker.tick());
    assert!(!checker.tick(), "and the count starts again");
}

#[test]
fn every_check_passing_is_a_pass() {
    let mut checker = Checker::new();
    settle(&mut checker);
    assert_eq!(checker.check(), Check::Probes);
    assert_eq!(checker.step(true, true), Next::WarpToSolid);
    settle(&mut checker);
    assert_eq!(checker.check(), Check::ReachesSolid);
    assert_eq!(checker.step(true, true), Next::WarpToClear);
    settle(&mut checker);
    assert_eq!(checker.check(), Check::PassesClear);
    assert_eq!(checker.step(true, true), Next::PressAtClear);
    settle(&mut checker);
    assert_eq!(checker.check(), Check::Held);
    assert_eq!(checker.step(true, true), Next::ReleaseAtClear);
    settle(&mut checker);
    assert_eq!(checker.check(), Check::LetGo);
    assert_eq!(checker.step(true, true), Next::Done(true));
}

#[test]
fn one_failed_check_fails_the_run() {
    let mut checker = Checker::new();
    assert_eq!(checker.step(true, true), Next::WarpToSolid);
    assert_eq!(checker.step(false, true), Next::WarpToClear);
    assert_eq!(checker.step(true, true), Next::PressAtClear);
    assert_eq!(checker.step(true, true), Next::ReleaseAtClear);
    assert_eq!(checker.step(true, true), Next::Done(false));
}

#[test]
fn a_frame_that_is_all_one_thing_fails_at_once() {
    let mut checker = Checker::new();
    assert_eq!(checker.step(false, true), Next::Done(false));
}

#[test]
fn without_permission_to_press_the_checks_stop_after_the_clicks() {
    let mut checker = Checker::new();
    checker.step(true, false);
    checker.step(true, false);
    assert_eq!(checker.step(true, false), Next::Done(true));
    let mut failing = Checker::new();
    failing.step(true, false);
    failing.step(true, false);
    assert_eq!(failing.step(false, false), Next::Done(false));
}
