use futures_concurrency::readiness::Readiness;

#[test]
fn readiness_starts_all_ready() {
    let rd = Readiness::new(3);
    assert_eq!(rd.len(), 3);
    assert!(rd.any_ready());
    assert!(rd.is_ready(0) && rd.is_ready(1) && rd.is_ready(2));
}

#[test]
fn readiness_set_and_clear_report_old_state() {
    let mut rd = Readiness::new(2);
    assert!(rd.clear_ready(0));
    assert!(!rd.clear_ready(0));
    assert!(rd.clear_ready(1));
    assert!(!rd.any_ready());
    assert!(!rd.set_ready(1));
    assert!(rd.set_ready(1));
    assert!(rd.any_ready());
    assert!(!rd.is_ready(0));
}

#[test]
fn readiness_empty_has_none_ready() {
    let rd = Readiness::new(0);
    assert_eq!(rd.len(), 0);
    assert!(!rd.any_ready());
}
