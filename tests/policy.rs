use statusfeed::{Action, Controller, Failure, Framing, Health, FAILURE_LIMIT};

const GOOD: &[u8] = b"[{\"full_text\":\"ok\",\"color\":\"green\"}]\0\0";
const BAD: &[u8] = b"garbage";

#[test]
fn starts_healthy() {
    let c = Controller::new();
    assert_eq!(0, c.failure_count());
    assert_eq!(Health::Healthy, c.health());
    assert!(c.failures().is_empty());
}

#[test]
fn nine_failures_then_success_recovers() {
    let mut c = Controller::new();
    for i in 0..9 {
        assert!(matches!(c.handle(Framing::LastBracket, BAD), Action::Keep));
        assert_eq!(i + 1, c.failure_count());
        assert_eq!(Health::Degrading, c.health());
    }
    match c.handle(Framing::LastBracket, GOOD) {
        Action::Show(line) => assert_eq!("ok ", line),
        _ => panic!("expected a line to show"),
    }
    assert_eq!(0, c.failure_count());
    assert!(c.failures().is_empty());
    assert_eq!(Health::Healthy, c.health());
}

#[test]
fn ten_failures_abort_once() {
    assert_eq!(10, FAILURE_LIMIT);
    let mut c = Controller::new();
    for _ in 0..9 {
        assert!(matches!(c.handle(Framing::LastBracket, BAD), Action::Keep));
    }
    match c.handle(Framing::LastBracket, b"[1]") {
        Action::Abort(log) => {
            assert_eq!(10, log.len());
            assert_eq!(Failure::FrameNotFound, log[0]);
            assert_eq!(Failure::InvalidJson, log[9]);
        }
        _ => panic!("expected an abort"),
    }
    assert_eq!(Health::Aborted, c.health());
    assert!(matches!(c.handle(Framing::LastBracket, BAD), Action::Halted));
    assert!(matches!(c.handle(Framing::LastBracket, GOOD), Action::Halted));
}

#[test]
fn success_resets_the_log() {
    let mut c = Controller::new();
    c.record_failure(Failure::InvalidJson);
    c.record_failure(Failure::MissingField);
    assert_eq!(vec![Failure::InvalidJson, Failure::MissingField], *c.failures());
    c.record_success();
    assert_eq!(0, c.failure_count());
    for _ in 0..9 {
        assert!(c.record_failure(Failure::FrameNotFound).is_none());
    }
    assert_eq!(9, c.failures().len());
    assert_eq!(Some(10), c.record_failure(Failure::FrameNotFound).map(|l| l.len()));
    assert!(c.record_failure(Failure::FrameNotFound).is_none());
    assert_eq!(0, c.failure_count());
}

#[test]
fn trim_framing_in_the_loop() {
    let mut c = Controller::new();
    match c.handle(Framing::Trim, b",[{\"full_text\":\"t\",\"color\":\"c\"}],\0") {
        Action::Show(line) => assert_eq!("t ", line),
        _ => panic!("expected a line to show"),
    }
    assert!(matches!(c.handle(Framing::Trim, &[0u8; 8]), Action::Keep));
    assert_eq!(vec![Failure::FrameNotFound], *c.failures());
}
