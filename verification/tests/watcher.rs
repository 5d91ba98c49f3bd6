use velocitext::watcher::{
    flush_pending, queue_event, ChangeKind, FileEvent, PathSet, WatchSignal, WatchState,
    WatchStep, WatcherError, DEBOUNCE_MS, POLL_MS,
};

fn event(kind: ChangeKind, paths: &[&str]) -> FileEvent {
    FileEvent { kind, paths: paths.iter().map(|p| p.to_string()).collect() }
}

fn change(kind: ChangeKind, paths: &[&str]) -> WatchSignal {
    WatchSignal::Change(event(kind, paths))
}

fn waits(step: &WatchStep) -> bool {
    matches!(step, WatchStep::Wait)
}

#[test]
fn watcher_errors_carry_their_description() {
    assert_eq!(WatcherError::new("Watch failed: x").message(), "Watch failed: x");
}

#[test]
fn windows_are_as_documented() {
    assert_eq!(DEBOUNCE_MS, 300);
    assert_eq!(POLL_MS, 100);
}

#[test]
fn path_set_keeps_each_path_once_in_order() {
    let mut s = PathSet::new();
    assert!(s.is_empty());
    s.insert("b".to_string());
    s.insert("a".to_string());
    s.insert("b".to_string());
    assert_eq!(s.len(), 2);
    assert!(s.contains(&"a".to_string()));
    assert!(!s.contains(&"c".to_string()));
    s.remove(&"c".to_string());
    s.remove(&"b".to_string());
    assert_eq!(s.len(), 1);
    s.insert("b".to_string());
    assert_eq!(s.drain(), vec!["a", "b"]);
    assert!(s.is_empty());
}

#[test]
fn create_and_modify_queue_an_upsert() {
    let mut up = PathSet::new();
    let mut del = PathSet::new();
    del.insert("/n/a.md".to_string());
    queue_event(event(ChangeKind::Create, &["/n/a.md", "/n/b.md"]), &mut up, &mut del);
    queue_event(event(ChangeKind::Modify, &["/n/b.md"]), &mut up, &mut del);
    assert!(del.is_empty());
    assert_eq!(up.drain(), vec!["/n/a.md", "/n/b.md"]);
}

#[test]
fn remove_queues_a_delete() {
    let mut up = PathSet::new();
    let mut del = PathSet::new();
    up.insert("/n/a.md".to_string());
    up.insert("/n/c.md".to_string());
    queue_event(event(ChangeKind::Remove, &["/n/a.md", "/n/b.md"]), &mut up, &mut del);
    assert_eq!(up.drain(), vec!["/n/c.md"]);
    assert_eq!(del.drain(), vec!["/n/a.md", "/n/b.md"]);
}

#[test]
fn other_kinds_change_nothing() {
    let mut up = PathSet::new();
    let mut del = PathSet::new();
    up.insert("/n/a.md".to_string());
    del.insert("/n/b.md".to_string());
    queue_event(event(ChangeKind::Other, &["/n/a.md", "/n/b.md", "/n/c.md"]), &mut up, &mut del);
    assert_eq!(up.drain(), vec!["/n/a.md"]);
    assert_eq!(del.drain(), vec!["/n/b.md"]);
}

#[test]
fn flush_hands_out_both_sets_and_empties_them() {
    let mut up = PathSet::new();
    let mut del = PathSet::new();
    up.insert("u1".to_string());
    up.insert("u2".to_string());
    del.insert("d1".to_string());
    let plan = flush_pending(&mut up, &mut del);
    assert_eq!(plan.upserts, vec!["u1", "u2"]);
    assert_eq!(plan.deletes, vec!["d1"]);
    assert!(up.is_empty() && del.is_empty());
    let plan = flush_pending(&mut up, &mut del);
    assert!(plan.upserts.is_empty() && plan.deletes.is_empty());
}

#[test]
fn burst_on_one_path_nets_out_to_one_delete() {
    let mut state = WatchState::new();
    assert!(waits(&state.step(change(ChangeKind::Create, &["/n/a.md"]), 1000)));
    assert!(waits(&state.step(change(ChangeKind::Modify, &["/n/a.md"]), 1010)));
    assert!(waits(&state.step(WatchSignal::Timeout, 1110)));
    assert!(waits(&state.step(change(ChangeKind::Remove, &["/n/a.md"]), 1120)));
    assert!(waits(&state.step(WatchSignal::Timeout, 1220)));
    assert!(waits(&state.step(WatchSignal::Timeout, 1419)));
    match state.step(WatchSignal::Timeout, 1420) {
        WatchStep::Flush(plan) => {
            assert_eq!(plan.deletes, vec!["/n/a.md"]);
            assert!(plan.upserts.is_empty());
        }
        _ => panic!("a flush was expected"),
    }
    assert!(state.pending_upsert.is_empty());
    assert!(state.pending_delete.is_empty());
    assert_eq!(state.last_event, None);
    assert!(waits(&state.step(WatchSignal::Timeout, 5000)));
}

#[test]
fn each_change_restarts_the_quiet_period() {
    let mut state = WatchState::new();
    assert!(waits(&state.step(change(ChangeKind::Create, &["a"]), 0)));
    assert!(waits(&state.step(change(ChangeKind::Create, &["b"]), 250)));
    assert!(waits(&state.step(WatchSignal::Timeout, 350)));
    assert_eq!(state.last_event, Some(250));
    match state.step(WatchSignal::Timeout, 550) {
        WatchStep::Flush(plan) => assert_eq!(plan.upserts, vec!["a", "b"]),
        _ => panic!("a flush was expected"),
    }
}

#[test]
fn idle_watcher_never_flushes() {
    let mut state = WatchState::new();
    assert!(waits(&state.step(WatchSignal::Timeout, 0)));
    assert!(waits(&state.step(WatchSignal::Timeout, u64::MAX)));
    assert!(waits(&state.step(WatchSignal::Fault, 10)));
    assert_eq!(state.last_event, None);
}

#[test]
fn faults_leave_pending_changes_alone() {
    let mut state = WatchState::new();
    assert!(waits(&state.step(change(ChangeKind::Create, &["a"]), 100)));
    assert!(waits(&state.step(WatchSignal::Fault, 10_000)));
    assert_eq!(state.last_event, Some(100));
    assert_eq!(state.pending_upsert.len(), 1);
}

#[test]
fn clock_that_went_back_counts_as_no_time() {
    let mut state = WatchState::new();
    assert!(waits(&state.step(change(ChangeKind::Create, &["a"]), 1000)));
    assert!(waits(&state.step(WatchSignal::Timeout, 10)));
    assert_eq!(state.pending_upsert.len(), 1);
}

#[test]
fn disconnect_flushes_what_is_left() {
    let mut state = WatchState::new();
    assert!(waits(&state.step(change(ChangeKind::Create, &["a"]), 100)));
    assert!(waits(&state.step(change(ChangeKind::Remove, &["b"]), 110)));
    match state.step(WatchSignal::Disconnected, 120) {
        WatchStep::Stop(plan) => {
            assert_eq!(plan.upserts, vec!["a"]);
            assert_eq!(plan.deletes, vec!["b"]);
        }
        _ => panic!("a stop was expected"),
    }
    match WatchState::new().step(WatchSignal::Disconnected, 0) {
        WatchStep::Stop(plan) => assert!(plan.upserts.is_empty() && plan.deletes.is_empty()),
        _ => panic!("a stop was expected"),
    }
}
