//! Whole runs of the engine over the modelled world.

use filesync::policy::SyncMode;
use filesync::state::{Message, SyncState};
use filesync::time::Timestamp;
use filesync::world::ModelWorld;

fn ts(secs: i64, nanos: u32) -> Timestamp {
    Timestamp::new(secs, nanos)
}

fn s(text: &str) -> String {
    String::from(text)
}

fn world() -> ModelWorld {
    ModelWorld::new(ts(1000, 0))
}

#[test]
fn upload_new_pair_mutate() {
    // Local "X" at T1, remote absent: Mutate uploads and reports Synchronized.
    let mut w = world();
    w.set_local_file(s("/tmp/a.txt"), b"X".to_vec(), ts(100, 0));
    let pairs = vec![(s("/tmp/a.txt"), s("/remote/a.txt"))];

    let msgs = filesync::engine::run(&mut w, SyncMode::Mutate, &pairs);

    assert_eq!(w.read_remote(&s("/remote/a.txt")), Some(b"X".to_vec()));
    assert!(
        matches!(&msgs[0], Message::UpdatePairSyncState(l, SyncState::Synchronized) if l == "/tmp/a.txt")
    );
    assert!(matches!(msgs.last(), Some(Message::StopSynchronize)));
    assert_eq!(msgs.len(), 2);
}

#[test]
fn report_only_new_pair() {
    // The same initial state under ReportOnly: LocalHasChanges, nothing written.
    let mut w = world();
    w.set_local_file(s("/tmp/a.txt"), b"X".to_vec(), ts(100, 0));
    let pairs = vec![(s("/tmp/a.txt"), s("/remote/a.txt"))];

    let msgs = filesync::engine::run(&mut w, SyncMode::ReportOnly, &pairs);

    assert_eq!(w.read_remote(&s("/remote/a.txt")), None);
    assert!(
        matches!(&msgs[0], Message::UpdatePairSyncState(l, SyncState::UnsynchronizedServer) if l == "/tmp/a.txt")
    );
    assert!(matches!(msgs.last(), Some(Message::StopSynchronizeCheck)));
    assert_eq!(msgs.len(), 2);
}

#[test]
fn download_when_remote_newer() {
    // Both exist, no history, remote's live time is newer: Mutate downloads.
    let mut w = world();
    w.set_local_file(s("/tmp/b.txt"), b"old".to_vec(), ts(100, 0));
    w.set_remote_file(s("/remote/b.txt"), b"new".to_vec(), ts(500, 0));
    let pairs = vec![(s("/tmp/b.txt"), s("/remote/b.txt"))];

    let msgs = filesync::engine::run(&mut w, SyncMode::Mutate, &pairs);

    assert_eq!(w.read_local(&s("/tmp/b.txt")), Some(b"new".to_vec()));
    assert_eq!(w.read_remote(&s("/remote/b.txt")), Some(b"new".to_vec()));
    assert!(matches!(&msgs[0], Message::UpdatePairSyncState(_, SyncState::Synchronized)));
}

#[test]
fn in_sync_when_times_equal() {
    // Both sides exist with identical reference timestamps: Synchronized in
    // both modes, and nothing is transferred.
    for mode in [SyncMode::ReportOnly, SyncMode::Mutate] {
        let mut w = world();
        w.set_local_file(s("/tmp/c.txt"), b"same".to_vec(), ts(300, 7));
        w.set_remote_file(s("/remote/c.txt"), b"same!".to_vec(), ts(300, 7));
        let pairs = vec![(s("/tmp/c.txt"), s("/remote/c.txt"))];

        let msgs = filesync::engine::run(&mut w, mode, &pairs);

        assert!(matches!(&msgs[0], Message::UpdatePairSyncState(_, SyncState::Synchronized)));
        assert_eq!(w.read_local(&s("/tmp/c.txt")), Some(b"same".to_vec()));
        assert_eq!(w.read_remote(&s("/remote/c.txt")), Some(b"same!".to_vec()));
    }
}

#[test]
fn partial_failure_keeps_other_pairs() {
    // Three pairs; the second one's transfer fails. The first and third still
    // get correct outcomes and the stop signal fires exactly once.
    let mut w = world();
    w.set_local_file(s("/tmp/p1"), b"1".to_vec(), ts(10, 0));
    w.set_local_file(s("/tmp/p2"), b"2".to_vec(), ts(20, 0));
    w.set_local_file(s("/tmp/p3"), b"3".to_vec(), ts(30, 0));
    w.add_fail_remote(s("/r/p2"));
    let pairs = vec![
        (s("/tmp/p1"), s("/r/p1")),
        (s("/tmp/p2"), s("/r/p2")),
        (s("/tmp/p3"), s("/r/p3")),
    ];

    let msgs = filesync::engine::run(&mut w, SyncMode::Mutate, &pairs);

    assert_eq!(w.read_remote(&s("/r/p1")), Some(b"1".to_vec()));
    assert_eq!(w.read_remote(&s("/r/p2")), None);
    assert_eq!(w.read_remote(&s("/r/p3")), Some(b"3".to_vec()));

    let mut outcomes = Vec::new();
    let mut stops = 0;
    for m in &msgs {
        match m {
            Message::UpdatePairSyncState(l, st) => outcomes.push((l.clone(), *st)),
            Message::StopSynchronize | Message::StopSynchronizeCheck => stops += 1,
            _ => {}
        }
    }
    assert_eq!(
        outcomes,
        vec![
            (s("/tmp/p1"), SyncState::Synchronized),
            (s("/tmp/p2"), SyncState::CantSynchronize),
            (s("/tmp/p3"), SyncState::Synchronized),
        ]
    );
    assert_eq!(stops, 1);
    assert!(matches!(msgs.last(), Some(Message::StopSynchronize)));
}

#[test]
fn mutate_twice_is_idempotent() {
    // After a clean Mutate run, a second one finds every pair Synchronized
    // and transfers nothing.
    let mut w = world();
    w.set_local_file(s("/tmp/a"), b"alpha".to_vec(), ts(11, 0));
    w.set_local_file(s("/tmp/b"), b"beta".to_vec(), ts(22, 0));
    w.set_remote_file(s("/r/b"), b"stale".to_vec(), ts(2, 0));
    let pairs = vec![(s("/tmp/a"), s("/r/a")), (s("/tmp/b"), s("/r/b"))];

    let first = filesync::engine::run(&mut w, SyncMode::Mutate, &pairs);
    assert!(first
        .iter()
        .all(|m| !matches!(m, Message::ShowError(_))));
    // The first run resolved both pairs: /r/a was created, /r/b overwritten.
    assert_eq!(w.read_remote(&s("/r/a")), Some(b"alpha".to_vec()));
    assert_eq!(w.read_remote(&s("/r/b")), Some(b"beta".to_vec()));

    let local_a = w.read_local(&s("/tmp/a"));
    let local_b = w.read_local(&s("/tmp/b"));
    let remote_a = w.read_remote(&s("/r/a"));
    let remote_b = w.read_remote(&s("/r/b"));

    let second = filesync::engine::run(&mut w, SyncMode::Mutate, &pairs);

    let outcomes: Vec<SyncState> = second
        .iter()
        .filter_map(|m| match m {
            Message::UpdatePairSyncState(_, st) => Some(*st),
            _ => None,
        })
        .collect();
    assert_eq!(outcomes, vec![SyncState::Synchronized, SyncState::Synchronized]);
    assert_eq!(w.read_local(&s("/tmp/a")), local_a);
    assert_eq!(w.read_local(&s("/tmp/b")), local_b);
    assert_eq!(w.read_remote(&s("/r/a")), remote_a);
    assert_eq!(w.read_remote(&s("/r/b")), remote_b);
}

#[test]
fn report_only_never_mutates() {
    // A ReportOnly run over pairs of every classification changes nothing.
    let mut w = world();
    w.set_local_file(s("/tmp/only_local"), b"l".to_vec(), ts(5, 0));
    w.set_remote_file(s("/r/only_remote"), b"r".to_vec(), ts(6, 0));
    w.set_local_file(s("/tmp/newer"), b"n2".to_vec(), ts(50, 0));
    w.set_remote_file(s("/r/newer"), b"n1".to_vec(), ts(40, 0));
    let pairs = vec![
        (s("/tmp/only_local"), s("/r/only_local")),
        (s("/tmp/only_remote"), s("/r/only_remote")),
        (s("/tmp/newer"), s("/r/newer")),
        (s("/tmp/ghost"), s("/r/ghost")),
    ];

    let msgs = filesync::engine::run(&mut w, SyncMode::ReportOnly, &pairs);

    assert_eq!(w.read_remote(&s("/r/only_local")), None);
    assert_eq!(w.read_local(&s("/tmp/only_remote")), None);
    assert_eq!(w.read_local(&s("/tmp/newer")), Some(b"n2".to_vec()));
    assert_eq!(w.read_remote(&s("/r/newer")), Some(b"n1".to_vec()));
    assert_eq!(w.read_remote(&s(".syncmetadata")), None);
    assert!(matches!(msgs.last(), Some(Message::StopSynchronizeCheck)));
}

#[test]
fn remote_only_without_parent_dir() {
    // Remote exists, local absent, parent directory missing: both modes say
    // Unsynchronizable and no local file appears.
    for mode in [SyncMode::Mutate, SyncMode::ReportOnly] {
        let mut w = world();
        w.set_remote_file(s("/r/d.txt"), b"data".to_vec(), ts(9, 0));
        let pairs = vec![(s("/missing/d.txt"), s("/r/d.txt"))];

        let msgs = filesync::engine::run(&mut w, mode, &pairs);

        assert!(matches!(&msgs[0], Message::UpdatePairSyncState(_, SyncState::CantSynchronize)));
        assert!(matches!(&msgs[1], Message::ShowError(_)));
        assert_eq!(w.read_local(&s("/missing/d.txt")), None);
    }
}

#[test]
fn remote_only_with_parent_dir_downloads() {
    let mut w = world();
    w.add_local_dir(s("/data"));
    w.set_remote_file(s("/r/e.txt"), b"efile".to_vec(), ts(9, 0));
    let pairs = vec![(s("/data/e.txt"), s("/r/e.txt"))];

    let msgs = filesync::engine::run(&mut w, SyncMode::Mutate, &pairs);

    assert!(matches!(&msgs[0], Message::UpdatePairSyncState(_, SyncState::Synchronized)));
    assert_eq!(w.read_local(&s("/data/e.txt")), Some(b"efile".to_vec()));
}

#[test]
fn recorded_time_beats_live_remote_time() {
    // A run records the local time; afterwards the remote object's live
    // time may say anything — the recorded value decides.
    let mut w = world();
    w.set_local_file(s("/tmp/f"), b"f".to_vec(), ts(100, 0));
    let pairs = vec![(s("/tmp/f"), s("/r/f"))];

    filesync::engine::run(&mut w, SyncMode::Mutate, &pairs);

    // Make the remote object look much newer than the local file.
    w.set_remote_file(s("/r/f"), b"f".to_vec(), ts(9999, 0));

    let msgs = filesync::engine::run(&mut w, SyncMode::ReportOnly, &pairs);
    assert!(matches!(&msgs[0], Message::UpdatePairSyncState(_, SyncState::Synchronized)));

    // Without the recorded history, the same comparison would go the other
    // way: wipe the metadata blob and check again.
    let mut w2 = world();
    w2.set_local_file(s("/tmp/f"), b"f".to_vec(), ts(100, 0));
    w2.set_remote_file(s("/r/f"), b"f".to_vec(), ts(9999, 0));
    let msgs2 = filesync::engine::run(&mut w2, SyncMode::ReportOnly, &pairs);
    assert!(matches!(&msgs2[0], Message::UpdatePairSyncState(_, SyncState::UnsynchronizedDevice)));
}

#[test]
fn unreachable_remote_aborts_run() {
    let mut w = world();
    w.reachable = false;
    w.set_local_file(s("/tmp/a"), b"a".to_vec(), ts(1, 0));
    let pairs = vec![(s("/tmp/a"), s("/r/a"))];

    let msgs = filesync::engine::run(&mut w, SyncMode::Mutate, &pairs);

    assert_eq!(msgs.len(), 2);
    assert!(matches!(&msgs[0], Message::ShowError(t) if t == "Can't open connection"));
    assert!(matches!(&msgs[1], Message::StopSynchronize));
    assert_eq!(w.read_remote(&s("/r/a")), None);
}

#[test]
fn metadata_upload_failure_is_reported() {
    let mut w = world();
    w.set_local_file(s("/tmp/g"), b"g".to_vec(), ts(3, 0));
    w.add_fail_remote(s(".syncmetadata"));
    let pairs = vec![(s("/tmp/g"), s("/r/g"))];

    let msgs = filesync::engine::run(&mut w, SyncMode::Mutate, &pairs);

    assert!(matches!(&msgs[0], Message::UpdatePairSyncState(_, SyncState::Synchronized)));
    assert!(
        matches!(&msgs[1], Message::ShowError(t) if t == "Can't upload synchronization metadata")
    );
    assert!(matches!(&msgs[2], Message::StopSynchronize));
    assert_eq!(w.read_remote(&s("/r/g")), Some(b"g".to_vec()));
}

#[test]
fn upload_creates_directory_chain() {
    let mut w = world();
    w.set_local_file(s("/tmp/deep"), b"d".to_vec(), ts(8, 0));
    let pairs = vec![(s("/tmp/deep"), s("/a/b/c/deep.txt"))];

    filesync::engine::run(&mut w, SyncMode::Mutate, &pairs);

    assert_eq!(w.read_remote(&s("/a/b/c/deep.txt")), Some(b"d".to_vec()));
    // A second upload over the now-existing chain also succeeds.
    w.set_local_file(s("/tmp/deep"), b"d2".to_vec(), ts(80, 0));
    let msgs = filesync::engine::run(&mut w, SyncMode::Mutate, &pairs);
    assert!(matches!(&msgs[0], Message::UpdatePairSyncState(_, SyncState::Synchronized)));
    assert_eq!(w.read_remote(&s("/a/b/c/deep.txt")), Some(b"d2".to_vec()));
}

#[test]
fn failed_directory_creation_fails_upload() {
    let mut w = world();
    w.set_local_file(s("/tmp/h"), b"h".to_vec(), ts(4, 0));
    w.add_fail_remote(s("/blocked/"));
    let pairs = vec![(s("/tmp/h"), s("/blocked/h.txt"))];

    let msgs = filesync::engine::run(&mut w, SyncMode::Mutate, &pairs);

    assert!(matches!(&msgs[0], Message::UpdatePairSyncState(_, SyncState::CantSynchronize)));
    assert_eq!(w.read_remote(&s("/blocked/h.txt")), None);
}
