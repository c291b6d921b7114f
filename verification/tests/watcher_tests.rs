use remotelink::file_watcher::{
    FileSnapshot, FileWatcher, WatchError, WatchEvent, WatcherStep, STABILITY_WAIT_MS,
};

fn snapshot(size: u64, secs: i64) -> FileSnapshot {
    FileSnapshot { size, modified_secs: secs, modified_nanos: 0 }
}

#[test]
fn test_snapshots_match_on_size_and_time() {
    let a = FileSnapshot { size: 9, modified_secs: 100, modified_nanos: 5 };
    assert!(a.matches(&a));
    assert!(a.matches(&FileSnapshot { size: 9, modified_secs: 100, modified_nanos: 5 }));
    assert!(!a.matches(&FileSnapshot { size: 13, modified_secs: 100, modified_nanos: 5 }));
    assert!(!a.matches(&FileSnapshot { size: 9, modified_secs: 101, modified_nanos: 5 }));
    assert!(!a.matches(&FileSnapshot { size: 9, modified_secs: 100, modified_nanos: 6 }));
}

#[test]
fn test_nothing_without_a_modification() {
    let mut watcher = FileWatcher::new("app".to_string());
    assert_eq!(watcher.path(), "app");
    assert_eq!(watcher.check_for_stable_change(&[]), Ok(WatcherStep::NoChange));
    assert_eq!(
        watcher.check_for_stable_change(&[WatchEvent::StillChanging, WatchEvent::Faulty]),
        Ok(WatcherStep::NoChange)
    );
    // Without a check under way a snapshot says nothing.
    assert_eq!(watcher.is_file_stable(Some(snapshot(1, 1))), WatcherStep::NoChange);
}

#[test]
fn test_disconnected_service_ends_watching() {
    let mut watcher = FileWatcher::new("app".to_string());
    assert_eq!(
        watcher.check_for_stable_change(&[WatchEvent::Modified, WatchEvent::Disconnected]),
        Err(WatchError::Disconnected)
    );
    assert_eq!(
        watcher.check_for_stable_change(&[WatchEvent::Disconnected]),
        Err(WatchError::Disconnected)
    );
}

#[test]
fn test_stability_gating() {
    let mut watcher = FileWatcher::new("app".to_string());
    let events = [WatchEvent::StillChanging, WatchEvent::Modified];
    // "part1" has been written; "part2" follows 150 ms later.
    assert_eq!(watcher.check_for_stable_change(&events), Ok(WatcherStep::Probe));
    assert_eq!(
        watcher.is_file_stable(Some(snapshot(5, 1))),
        WatcherStep::WaitThenProbe(STABILITY_WAIT_MS)
    );
    // 200 ms later the file has grown: not at rest.
    assert_eq!(watcher.is_file_stable(Some(snapshot(10, 2))), WatcherStep::NoChange);
    // The writer is done. The next modification starts a new check.
    assert_eq!(watcher.check_for_stable_change(&[WatchEvent::Modified]), Ok(WatcherStep::Probe));
    assert_eq!(watcher.is_file_stable(Some(snapshot(10, 2))), WatcherStep::WaitThenProbe(200));
    assert_eq!(watcher.is_file_stable(Some(snapshot(10, 2))), WatcherStep::WaitThenProbe(200));
    assert_eq!(watcher.is_file_stable(Some(snapshot(10, 2))), WatcherStep::ChangedAndStable);
}

#[test]
fn test_change_in_the_third_snapshot() {
    let mut watcher = FileWatcher::new("app".to_string());
    assert_eq!(watcher.check_for_stable_change(&[WatchEvent::Modified]), Ok(WatcherStep::Probe));
    assert_eq!(watcher.is_file_stable(Some(snapshot(10, 2))), WatcherStep::WaitThenProbe(200));
    assert_eq!(watcher.is_file_stable(Some(snapshot(10, 2))), WatcherStep::WaitThenProbe(200));
    assert_eq!(watcher.is_file_stable(Some(snapshot(10, 3))), WatcherStep::NoChange);
    // The check is over.
    assert_eq!(watcher.is_file_stable(Some(snapshot(10, 3))), WatcherStep::NoChange);
}

#[test]
fn test_missing_file_is_not_stable() {
    for missing_at in 0..3 {
        let mut watcher = FileWatcher::new("app".to_string());
        assert_eq!(
            watcher.check_for_stable_change(&[WatchEvent::Modified]),
            Ok(WatcherStep::Probe)
        );
        for _ in 0..missing_at {
            assert_eq!(
                watcher.is_file_stable(Some(snapshot(10, 2))),
                WatcherStep::WaitThenProbe(200)
            );
        }
        assert_eq!(watcher.is_file_stable(None), WatcherStep::NoChange);
        assert_eq!(watcher.is_file_stable(Some(snapshot(10, 2))), WatcherStep::NoChange);
    }
}

#[test]
fn test_same_version_is_reported_once() {
    let mut watcher = FileWatcher::new("app".to_string());
    let run = |watcher: &mut FileWatcher, s: FileSnapshot| {
        assert_eq!(
            watcher.check_for_stable_change(&[WatchEvent::Modified]),
            Ok(WatcherStep::Probe)
        );
        assert_eq!(watcher.is_file_stable(Some(s)), WatcherStep::WaitThenProbe(200));
        assert_eq!(watcher.is_file_stable(Some(s)), WatcherStep::WaitThenProbe(200));
        watcher.is_file_stable(Some(s))
    };
    assert_eq!(run(&mut watcher, snapshot(10, 2)), WatcherStep::ChangedAndStable);
    // The file was touched, not changed.
    assert_eq!(run(&mut watcher, snapshot(10, 2)), WatcherStep::NoChange);
    assert_eq!(run(&mut watcher, snapshot(10, 3)), WatcherStep::ChangedAndStable);
    assert_eq!(run(&mut watcher, snapshot(10, 2)), WatcherStep::ChangedAndStable);
}
