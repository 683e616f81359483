//! The comparator, the policy table, path handling and the small types.

use filesync::classify::{classify, Classification, PairObs};
use filesync::engine::metadata_path;
use filesync::paths::{dir_chain, parent_of};
use filesync::policy::{immediate_outcome, transfer_for, transfer_outcome, SyncMode, Transfer};
use filesync::state::SyncState;
use filesync::strmap::{KvMap, StrSet};
use filesync::time::Timestamp;

fn ts(secs: i64, nanos: u32) -> Timestamp {
    Timestamp::new(secs, nanos)
}

fn obs(
    local: Option<Timestamp>,
    remote_exists: bool,
    remote: Option<Timestamp>,
    parent: bool,
) -> PairObs {
    PairObs {
        local_modified: local,
        remote_exists,
        remote_modified: remote,
        local_parent_exists: parent,
    }
}

#[test]
fn classify_against_recorded_time() {
    let o = obs(Some(ts(10, 0)), true, None, true);
    assert_eq!(classify(&o, Some(ts(5, 0))), Some(Classification::LocalNewer));
    assert_eq!(classify(&o, Some(ts(15, 0))), Some(Classification::RemoteNewer));
    assert_eq!(classify(&o, Some(ts(10, 0))), Some(Classification::InSync));
}

#[test]
fn classify_falls_back_to_live_remote_time() {
    let newer_remote = obs(Some(ts(10, 0)), true, Some(ts(20, 0)), true);
    assert_eq!(classify(&newer_remote, None), Some(Classification::RemoteNewer));
    let older_remote = obs(Some(ts(10, 0)), true, Some(ts(1, 0)), true);
    assert_eq!(classify(&older_remote, None), Some(Classification::LocalNewer));
    let equal = obs(Some(ts(10, 4)), true, Some(ts(10, 4)), true);
    assert_eq!(classify(&equal, None), Some(Classification::InSync));
}

#[test]
fn classify_recorded_time_wins_over_live() {
    // The recorded value decides even when the live remote time disagrees.
    let o = obs(Some(ts(10, 0)), true, Some(ts(99, 0)), true);
    assert_eq!(classify(&o, Some(ts(10, 0))), Some(Classification::InSync));
}

#[test]
fn classify_existence_cases() {
    assert_eq!(
        classify(&obs(Some(ts(1, 0)), false, None, true), None),
        Some(Classification::LocalOnly)
    );
    assert_eq!(classify(&obs(None, true, None, true), None), Some(Classification::RemoteOnly));
    assert_eq!(classify(&obs(None, false, None, true), None), Some(Classification::Neither));
}

#[test]
fn classify_needs_some_reference() {
    // Both sides exist, no history, and the listing gave no live time.
    assert_eq!(classify(&obs(Some(ts(1, 0)), true, None, true), None), None);
}

#[test]
fn nanoseconds_break_timestamp_ties() {
    let a = ts(10, 1);
    let b = ts(10, 2);
    assert!(a.is_before(&b));
    assert!(!b.is_before(&a));
    assert!(!a.is_same(&b));
    assert!(a.is_same(&ts(10, 1)));
    assert!(ts(-2, 999_999_999).is_before(&ts(-1, 0)));
}

#[test]
fn policy_table_mutate() {
    assert_eq!(transfer_for(SyncMode::Mutate, Classification::LocalNewer, true), Some(Transfer::Upload));
    assert_eq!(transfer_for(SyncMode::Mutate, Classification::LocalOnly, false), Some(Transfer::Upload));
    assert_eq!(transfer_for(SyncMode::Mutate, Classification::RemoteNewer, true), Some(Transfer::Download));
    assert_eq!(transfer_for(SyncMode::Mutate, Classification::RemoteOnly, true), Some(Transfer::Download));
    assert_eq!(transfer_for(SyncMode::Mutate, Classification::RemoteOnly, false), None);
    assert_eq!(transfer_for(SyncMode::Mutate, Classification::InSync, true), None);
    assert_eq!(transfer_for(SyncMode::Mutate, Classification::Neither, true), None);
    assert_eq!(
        immediate_outcome(SyncMode::Mutate, Classification::InSync, true),
        SyncState::Synchronized
    );
    assert_eq!(
        immediate_outcome(SyncMode::Mutate, Classification::RemoteOnly, false),
        SyncState::CantSynchronize
    );
    assert_eq!(
        immediate_outcome(SyncMode::Mutate, Classification::Neither, true),
        SyncState::CantSynchronize
    );
}

#[test]
fn policy_table_report_only() {
    for c in [Classification::LocalNewer, Classification::RemoteNewer, Classification::InSync, Classification::LocalOnly, Classification::RemoteOnly, Classification::Neither] {
        assert_eq!(transfer_for(SyncMode::ReportOnly, c, true), None);
    }
    assert_eq!(
        immediate_outcome(SyncMode::ReportOnly, Classification::LocalNewer, true),
        SyncState::UnsynchronizedServer
    );
    assert_eq!(
        immediate_outcome(SyncMode::ReportOnly, Classification::LocalOnly, true),
        SyncState::UnsynchronizedServer
    );
    assert_eq!(
        immediate_outcome(SyncMode::ReportOnly, Classification::RemoteNewer, true),
        SyncState::UnsynchronizedDevice
    );
    assert_eq!(
        immediate_outcome(SyncMode::ReportOnly, Classification::RemoteOnly, true),
        SyncState::UnsynchronizedDevice
    );
    assert_eq!(
        immediate_outcome(SyncMode::ReportOnly, Classification::RemoteOnly, false),
        SyncState::CantSynchronize
    );
    assert_eq!(
        immediate_outcome(SyncMode::ReportOnly, Classification::InSync, true),
        SyncState::Synchronized
    );
    assert_eq!(
        immediate_outcome(SyncMode::ReportOnly, Classification::Neither, true),
        SyncState::CantSynchronize
    );
}

#[test]
fn transfer_outcomes() {
    assert_eq!(transfer_outcome(true), SyncState::Synchronized);
    assert_eq!(transfer_outcome(false), SyncState::CantSynchronize);
}

#[test]
fn directory_chains() {
    assert_eq!(dir_chain("/a/b/c.txt"), vec!["/a/", "/a/b/"]);
    assert_eq!(dir_chain("a/b/c.txt"), vec!["/a/", "/a/b/"]);
    assert_eq!(dir_chain("//a//b.txt"), vec!["/a/"]);
    assert_eq!(dir_chain("/x.txt"), Vec::<String>::new());
    assert_eq!(dir_chain(".syncmetadata"), Vec::<String>::new());
    assert_eq!(dir_chain(""), Vec::<String>::new());
}

#[test]
fn parents_of_paths() {
    assert_eq!(parent_of("/tmp/a.txt"), "/tmp");
    assert_eq!(parent_of("/a.txt"), "/");
    assert_eq!(parent_of("a.txt"), "");
    assert_eq!(parent_of("a/b/c"), "a/b");
    assert_eq!(parent_of(""), "");
}

#[test]
fn metadata_path_is_fixed() {
    assert_eq!(metadata_path(), ".syncmetadata");
}

#[test]
fn kv_map_inserts_and_overwrites() {
    let mut m: KvMap<Timestamp> = KvMap::new();
    assert_eq!(m.len(), 0);
    m.insert(String::from("k1"), ts(1, 0));
    m.insert(String::from("k2"), ts(2, 0));
    assert_eq!(m.len(), 2);
    assert_eq!(m.get(&String::from("k1")), Some(&ts(1, 0)));
    m.insert(String::from("k1"), ts(9, 0));
    assert_eq!(m.len(), 2);
    assert_eq!(m.get(&String::from("k1")), Some(&ts(9, 0)));
    assert_eq!(m.get(&String::from("k3")), None);
}

#[test]
fn str_set_membership() {
    let mut set = StrSet::new();
    assert!(!set.contains(&String::from("/a")));
    set.insert(String::from("/a"));
    set.insert(String::from("/b"));
    assert!(set.contains(&String::from("/a")));
    assert!(set.contains(&String::from("/b")));
    assert!(!set.contains(&String::from("/c")));
}
