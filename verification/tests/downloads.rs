use flowmux::downloads::{DownloadCollection, DownloadLifecycle, DownloadPhase};

#[test]
fn cancelled_finish_never_becomes_complete() {
    let mut lifecycle = DownloadLifecycle::default();
    assert!(lifecycle.request_cancel());
    assert!(lifecycle.finish());
    assert_eq!(lifecycle.phase(), &DownloadPhase::Cancelled);
}

#[test]
fn cancelled_failure_is_reported_as_cancelled() {
    let mut lifecycle = DownloadLifecycle::default();
    lifecycle.request_cancel();
    assert!(lifecycle.fail("network stopped".into()));
    assert_eq!(lifecycle.phase(), &DownloadPhase::Cancelled);
}

#[test]
fn failure_cannot_be_overwritten_by_finished() {
    let mut lifecycle = DownloadLifecycle::default();
    assert!(lifecycle.fail("connection reset".into()));
    assert!(!lifecycle.finish());
    assert_eq!(lifecycle.phase(), &DownloadPhase::Failed("connection reset".into()));
}

#[test]
fn normal_finish_is_complete() {
    let mut lifecycle = DownloadLifecycle::default();
    assert!(lifecycle.finish());
    assert_eq!(lifecycle.phase(), &DownloadPhase::Complete);
}

#[test]
fn overlapping_downloads_decrement_active_count_once() {
    let mut collection = DownloadCollection::default();
    let first = collection.insert();
    let second = collection.insert();
    assert_eq!(collection.active_count(), 2);
    assert!(collection.finish(first));
    assert_eq!(collection.active_count(), 1);
    assert!(!collection.finish(first));
    assert_eq!(collection.active_count(), 1);
    assert!(collection.fail(second, "offline".into()));
    assert_eq!(collection.active_count(), 0);
}

#[test]
fn clear_terminal_keeps_active_entries() {
    let mut collection = DownloadCollection::default();
    let active = collection.insert();
    let finished = collection.insert();
    collection.finish(finished);
    assert_eq!(collection.clear_terminal(), vec![finished]);
    assert_eq!(collection.len(), 1);
    assert!(!collection.remove_terminal(active));
    assert_eq!(collection.active_count(), 1);
}

#[test]
fn cancel_only_applies_to_running_downloads() {
    let mut lifecycle = DownloadLifecycle::default();
    assert!(lifecycle.request_cancel());
    assert!(!lifecycle.request_cancel());
    assert_eq!(lifecycle.phase(), &DownloadPhase::Cancelling);
    assert!(!lifecycle.phase().is_terminal());
    assert!(lifecycle.finish());
    assert!(!lifecycle.request_cancel());
    assert!(!lifecycle.fail("late".into()));
    assert_eq!(lifecycle.phase(), &DownloadPhase::Cancelled);
    assert!(lifecycle.phase().is_terminal());
}

#[test]
fn ids_are_sequential_and_unknown_ids_are_refused() {
    let mut collection = DownloadCollection::default();
    assert_eq!(collection.insert(), 0);
    assert_eq!(collection.insert(), 1);
    assert_eq!(collection.insert(), 2);
    assert!(!collection.finish(7));
    assert!(!collection.fail(7, "x".into()));
    assert!(!collection.request_cancel(7));
    assert!(!collection.remove_terminal(7));
    assert!(collection.request_cancel(1));
    assert!(!collection.request_cancel(1));
    assert_eq!(collection.active_count(), 3);
    assert!(collection.finish(1));
    assert_eq!(collection.active_count(), 2);
    assert!(collection.remove_terminal(1));
    assert_eq!(collection.len(), 2);
    assert!(!collection.remove_terminal(1));
}

#[test]
fn clear_terminal_returns_ids_in_ascending_order() {
    let mut collection = DownloadCollection::default();
    let ids: Vec<u64> = (0..6).map(|_| collection.insert()).collect();
    collection.finish(ids[4]);
    collection.fail(ids[1], "e".into());
    collection.finish(ids[3]);
    collection.request_cancel(ids[5]);
    assert_eq!(collection.clear_terminal(), vec![1, 3, 4]);
    assert_eq!(collection.len(), 3);
    assert_eq!(collection.active_count(), 3);
    assert!(collection.clear_terminal().is_empty());
}
