use alliance_monitor::schedule::{is_due, ADM_UPDATE_TIME_SECONDS, ALLIANCE_QUEUE_BATCH};

#[test]
fn never_run_is_due() {
    assert!(is_due(None, ADM_UPDATE_TIME_SECONDS));
}

#[test]
fn due_once_interval_elapsed() {
    assert!(!is_due(Some(3599), 3600));
    assert!(is_due(Some(3600), 3600));
    assert!(is_due(Some(9000), 3600));
    assert_eq!(ALLIANCE_QUEUE_BATCH, 20);
}
