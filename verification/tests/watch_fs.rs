use spacegraph::path_policy::PathPolicy;
use spacegraph::watch_fs::{
    classify, classify_tag, failure_at_watch_limit, failure_denied, fs_batch,
    is_notify_permission_denied, is_notify_watch_limit, is_permission_denied, is_watch_limit_error,
    next_batch_id, watch_failure_denied, watch_failure_limited, Action, Coalescer, EventTag,
    FsChange, IoFailure, WalkStep, WatchFailure, WatchStats, WatchWalk, COALESCE_WINDOW_MS,
    FIRST_BATCH_ID,
};
use spacegraph::wire::{Delta, FileKind, Msg, Node, NodeId};
use notify::event::{AccessKind, CreateKind, ModifyKind, RemoveKind};
use notify::EventKind;
use std::io;

#[test]
fn permission_denied_is_detected() {
    let err = io::Error::from(io::ErrorKind::PermissionDenied);
    assert!(is_permission_denied(&err));
}

#[test]
fn non_permission_error_is_not_detected() {
    let err = io::Error::from(io::ErrorKind::NotFound);
    assert!(!is_permission_denied(&err));
}

#[test]
fn watch_limit_error_is_detected() {
    let err = io::Error::from_raw_os_error(libc::ENOSPC);
    assert!(is_watch_limit_error(&err));
}

#[test]
fn non_watch_limit_error_is_not_detected() {
    let err = io::Error::from(io::ErrorKind::NotFound);
    assert!(!is_watch_limit_error(&err));
}

#[test]
fn notify_errors_are_told_apart() {
    let denied = notify::Error::io(io::Error::from(io::ErrorKind::PermissionDenied));
    assert!(is_notify_permission_denied(&denied));
    assert!(!is_notify_watch_limit(&denied));
    let full = notify::Error::io(io::Error::from_raw_os_error(libc::ENOSPC));
    assert!(is_notify_watch_limit(&full));
    assert!(!is_notify_permission_denied(&full));
    let limit = notify::Error::new(notify::ErrorKind::MaxFilesWatch);
    assert!(is_notify_watch_limit(&limit));
    assert!(!is_notify_permission_denied(&limit));
    let generic = notify::Error::generic("Inotify WATCH LIMIT hit");
    assert!(is_notify_watch_limit(&generic));
    let other = notify::Error::path_not_found();
    assert!(!is_notify_watch_limit(&other));
    assert!(!is_notify_permission_denied(&other));
}

#[test]
fn failures_by_plain_values() {
    let denied = IoFailure { permission_denied: true, os_code: Some(13) };
    assert!(failure_denied(&denied));
    assert!(!failure_at_watch_limit(&denied));
    let full = IoFailure { permission_denied: false, os_code: Some(libc::ENOSPC) };
    assert!(failure_at_watch_limit(&full));
    assert!(!failure_at_watch_limit(&IoFailure { permission_denied: false, os_code: None }));
    assert!(watch_failure_denied(&WatchFailure::Io(denied)));
    assert!(!watch_failure_denied(&WatchFailure::Other { message: "permission denied".into() }));
    assert!(watch_failure_limited(&WatchFailure::Other { message: "Watch Limit reached".into() }));
    assert!(!watch_failure_limited(&WatchFailure::Other { message: "watchlimit".into() }));
}

#[test]
fn classify_maps_create_modify_remove_any() {
    assert_eq!(classify(&EventKind::Create(CreateKind::File)), Some(Action::Upsert));
    assert_eq!(classify(&EventKind::Modify(ModifyKind::Any)), Some(Action::Upsert));
    assert_eq!(classify(&EventKind::Remove(RemoveKind::Folder)), Some(Action::Remove));
    assert_eq!(classify(&EventKind::Any), Some(Action::Upsert));
    assert_eq!(classify(&EventKind::Access(AccessKind::Read)), None);
    assert_eq!(classify(&EventKind::Other), None);
}

#[test]
fn classify_ignores_other_kinds() {
    assert_eq!(classify_tag(EventTag::Access), None);
    assert_eq!(classify_tag(EventTag::Other), None);
    assert_eq!(classify_tag(EventTag::Create), Some(Action::Upsert));
    assert_eq!(classify_tag(EventTag::Modify), Some(Action::Upsert));
    assert_eq!(classify_tag(EventTag::Any), Some(Action::Upsert));
    assert_eq!(classify_tag(EventTag::Remove), Some(Action::Remove));
}

#[test]
fn coalescing_keeps_the_last_action_of_each_path() {
    assert_eq!(COALESCE_WINDOW_MS, 250);
    let mut c = Coalescer::new();
    assert!(c.is_empty());
    c.absorb("/a".to_string(), Action::Upsert);
    c.absorb("/a".to_string(), Action::Upsert);
    c.absorb("/a".to_string(), Action::Remove);
    c.absorb("/b".to_string(), Action::Upsert);
    assert!(!c.is_empty());
    let mut pending = c.take();
    pending.sort_by(|x, y| x.0.cmp(&y.0));
    assert_eq!(pending, vec![("/a".to_string(), Action::Remove), ("/b".to_string(), Action::Upsert)]);
    assert!(c.is_empty());
    assert!(c.take().is_empty());

    let changes: Vec<FsChange> = pending
        .into_iter()
        .map(|(path, action)| FsChange { path, action, inode: 7 })
        .collect();
    let msgs = fs_batch("host", FIRST_BATCH_ID, &changes);
    assert_eq!(
        msgs,
        vec![
            Msg::Event { delta: Delta::BatchBegin { id: 50_000 } },
            Msg::Event { delta: Delta::RemoveNode { id: NodeId("host:file:/a".to_string()) } },
            Msg::Event {
                delta: Delta::UpsertNode {
                    id: NodeId("host:file:/b".to_string()),
                    node: Node::File { path: "/b".to_string(), inode: 7, kind: FileKind::Unknown },
                },
            },
            Msg::Event { delta: Delta::BatchEnd { id: 50_000 } },
        ]
    );
}

#[test]
fn a_later_upsert_revives_a_removed_path() {
    let mut c = Coalescer::new();
    c.absorb("/a".to_string(), Action::Remove);
    c.absorb("/a".to_string(), Action::Remove);
    assert_eq!(c.take(), vec![("/a".to_string(), Action::Remove)]);
    c.absorb("/a".to_string(), Action::Remove);
    c.absorb("/a".to_string(), Action::Upsert);
    assert_eq!(c.take(), vec![("/a".to_string(), Action::Upsert)]);
}

#[test]
fn empty_batch_is_begin_and_end() {
    let msgs = fs_batch("n", 3, &Vec::new());
    assert_eq!(
        msgs,
        vec![
            Msg::Event { delta: Delta::BatchBegin { id: 3 } },
            Msg::Event { delta: Delta::BatchEnd { id: 3 } },
        ]
    );
}

#[test]
fn batch_ids_wrap() {
    assert_eq!(next_batch_id(50_000), 50_001);
    assert_eq!(next_batch_id(u64::MAX), 0);
    assert_eq!(next_batch_id(0), 1);
}

#[test]
fn walk_counts_and_skips() {
    let policy = PathPolicy::new(vec!["/etc".to_string()], vec!["/etc/secret".to_string()]);
    let mut walk = WatchWalk::new("/etc".to_string());
    assert_eq!(walk.next_path(&policy), Some("/etc".to_string()));
    assert_eq!(walk.watch_result(&None), WalkStep::List);
    walk.found_dir(&policy, "/etc/ssh".to_string());
    walk.found_dir(&policy, "/etc/secret".to_string());
    walk.found_dir(&policy, "/etc/ssl".to_string());
    assert_eq!(walk.stack, vec!["/etc/ssh".to_string(), "/etc/ssl".to_string()]);

    assert_eq!(walk.next_path(&policy), Some("/etc/ssl".to_string()));
    let denied = WatchFailure::Io(IoFailure { permission_denied: true, os_code: Some(13) });
    assert_eq!(walk.watch_result(&Some(denied)), WalkStep::Skip);

    assert_eq!(walk.next_path(&policy), Some("/etc/ssh".to_string()));
    let full = WatchFailure::Io(IoFailure { permission_denied: false, os_code: Some(libc::ENOSPC) });
    assert_eq!(walk.watch_result(&Some(full)), WalkStep::Skip);
    assert_eq!(walk.next_path(&policy), None);
    assert_eq!(
        walk.stats,
        WatchStats { watched: 1, skipped_permission: 1, skipped_watch_limit: 1 }
    );

    let other = WatchFailure::Other { message: "No path was found.".to_string() };
    assert_eq!(walk.watch_result(&Some(other)), WalkStep::Fail);
    assert_eq!(
        walk.read_failure(&IoFailure { permission_denied: true, os_code: None }),
        WalkStep::Skip
    );
    assert_eq!(
        walk.read_failure(&IoFailure { permission_denied: false, os_code: Some(2) }),
        WalkStep::Fail
    );
    assert_eq!(
        walk.stats,
        WatchStats { watched: 1, skipped_permission: 2, skipped_watch_limit: 1 }
    );
}

#[test]
fn walk_reads_errors_of_the_watcher_and_the_system() {
    let mut walk = WatchWalk::new("/r".to_string());
    let denied = notify::Error::io(io::Error::from(io::ErrorKind::PermissionDenied));
    assert_eq!(walk.watch_failed(&denied), WalkStep::Skip);
    let full = notify::Error::new(notify::ErrorKind::MaxFilesWatch);
    assert_eq!(walk.watch_failed(&full), WalkStep::Skip);
    assert_eq!(walk.watch_failed(&notify::Error::path_not_found()), WalkStep::Fail);
    assert_eq!(walk.read_failed(&io::Error::from(io::ErrorKind::PermissionDenied)), WalkStep::Skip);
    assert_eq!(walk.read_failed(&io::Error::from(io::ErrorKind::NotFound)), WalkStep::Fail);
    assert_eq!(
        walk.stats,
        WatchStats { watched: 0, skipped_permission: 2, skipped_watch_limit: 1 }
    );
}

#[test]
fn walk_passes_over_unwatched_paths_on_the_stack() {
    let policy = PathPolicy::new(vec!["/etc".to_string()], vec![]);
    let mut walk = WatchWalk::new("/var".to_string());
    assert_eq!(walk.next_path(&policy), None);
    assert!(walk.stack.is_empty());
    walk.stack = vec!["/etc/a".to_string(), "/var/b".to_string(), "/home".to_string()];
    assert_eq!(walk.next_path(&policy), Some("/etc/a".to_string()));
    assert!(walk.stack.is_empty());
}
