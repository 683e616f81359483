//! The comparator: what one pair needs, judged from a three-way comparison.
//!
//! A pair is classified from the local file's modification time, the remote
//! object's existence, and a reference time. The reference is the recorded
//! last-known-synchronized time when the metadata store holds one for the
//! remote path — the live remote time then does not matter, which keeps mere
//! clock skew from looking like a change — and the remote object's live
//! modification time otherwise. The two reference points are deliberately
//! different; collapsing them would change how a store behaves after its
//! first run.

use vstd::prelude::*;
use crate::time::Timestamp;

verus! {

/// What one pair needs.
#[derive(Debug, Clone, Copy, PartialEq, Eq, Structural)]
pub enum Classification {
    /// Both sides exist and the local file is newer than the reference.
    LocalNewer,
    /// Both sides exist and the local file is older than the reference.
    RemoteNewer,
    /// Both sides exist and the times agree.
    InSync,
    /// Only the local file exists.
    LocalOnly,
    /// Only the remote object exists.
    RemoteOnly,
    /// Neither side exists.
    Neither,
}

/// What a run observed about one pair before deciding.
#[derive(Debug, Clone, Copy)]
pub struct PairObs {
    /// The local file's modification time; absent when the file does not
    /// exist.
    pub local_modified: Option<Timestamp>,
    /// Whether the remote object exists.
    pub remote_exists: bool,
    /// The remote object's live modification time; absent when the listing
    /// that would give it failed or found no file entry.
    pub remote_modified: Option<Timestamp>,
    /// Whether the local file's parent directory exists.
    pub local_parent_exists: bool,
}

/// The decision table of the comparator. `None` stands for "cannot judge":
/// both sides exist, no time is recorded, and the live remote time is not
/// available either.
pub open spec fn classify_spec(obs: PairObs, recorded: Option<Timestamp>) -> Option<
    Classification,
> {
    match obs.local_modified {
        Some(lt) => {
            if obs.remote_exists {
                let reference = if recorded is Some {
                    recorded
                } else {
                    obs.remote_modified
                };
                match reference {
                    None => None,
                    Some(rt) => Some(
                        if rt.spec_lt(lt) {
                            Classification::LocalNewer
                        } else if lt.spec_lt(rt) {
                            Classification::RemoteNewer
                        } else {
                            Classification::InSync
                        },
                    ),
                }
            } else {
                Some(Classification::LocalOnly)
            }
        },
        None => if obs.remote_exists {
            Some(Classification::RemoteOnly)
        } else {
            Some(Classification::Neither)
        },
    }
}

/// Classify one pair. Pure; the observations were gathered beforehand.
pub fn classify(obs: &PairObs, recorded: Option<Timestamp>) -> (r: Option<Classification>)
    ensures
        r == classify_spec(*obs, recorded),
{
    match obs.local_modified {
        Some(lt) => {
            if obs.remote_exists {
                let reference = match recorded {
                    Some(t) => Some(t),
                    None => obs.remote_modified,
                };
                match reference {
                    None => None,
                    Some(rt) => Some(
                        if rt.is_before(&lt) {
                            Classification::LocalNewer
                        } else if lt.is_before(&rt) {
                            Classification::RemoteNewer
                        } else {
                            Classification::InSync
                        },
                    ),
                }
            } else {
                Some(Classification::LocalOnly)
            }
        },
        None => if obs.remote_exists {
            Some(Classification::RemoteOnly)
        } else {
            Some(Classification::Neither)
        },
    }
}

} // verus!

