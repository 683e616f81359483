//! The per-pair policy: classification and mode decide the action and the
//! outcome.
//!
//! Both run modes share the comparator; they differ only here. `Mutate`
//! turns a divergence into a transfer and reports `Synchronized` when the
//! transfer succeeds; `ReportOnly` never transfers and reports the
//! divergence itself.

use vstd::prelude::*;
use crate::classify::Classification;
use crate::state::SyncState;

verus! {

/// The two run modes: perform transfers, or only report.
#[derive(Debug, Clone, Copy, PartialEq, Eq, Structural)]
pub enum SyncMode {
    Mutate,
    ReportOnly,
}

/// A transfer the engine may perform for one pair.
#[derive(Debug, Clone, Copy, PartialEq, Eq, Structural)]
pub enum Transfer {
    /// Copy the local file over the remote object, creating remote parent
    /// directories as needed.
    Upload,
    /// Copy the remote object over the local file.
    Download,
}

/// The transfer a pair calls for, if any: only `Mutate` transfers, and a
/// `RemoteOnly` pair only when the local parent directory exists.
pub open spec fn transfer_spec(mode: SyncMode, c: Classification, parent_ok: bool) -> Option<
    Transfer,
> {
    if mode is ReportOnly {
        None
    } else {
        match c {
            Classification::LocalNewer => Some(Transfer::Upload),
            Classification::LocalOnly => Some(Transfer::Upload),
            Classification::RemoteNewer => Some(Transfer::Download),
            Classification::RemoteOnly => if parent_ok {
                Some(Transfer::Download)
            } else {
                None
            },
            Classification::InSync => None,
            Classification::Neither => None,
        }
    }
}

/// The outcome of a pair for which no transfer is performed.
pub open spec fn immediate_outcome_spec(
    mode: SyncMode,
    c: Classification,
    parent_ok: bool,
) -> SyncState {
    match c {
        Classification::InSync => SyncState::Synchronized,
        Classification::Neither => SyncState::CantSynchronize,
        Classification::RemoteOnly => if parent_ok {
            SyncState::UnsynchronizedDevice
        } else {
            SyncState::CantSynchronize
        },
        Classification::LocalNewer => SyncState::UnsynchronizedServer,
        Classification::LocalOnly => SyncState::UnsynchronizedServer,
        Classification::RemoteNewer => SyncState::UnsynchronizedDevice,
    }
}

/// The outcome of a pair whose transfer ran: a success resolves the
/// divergence, a failure leaves the pair unsynchronizable.
pub open spec fn transfer_outcome_spec(ok: bool) -> SyncState {
    if ok {
        SyncState::Synchronized
    } else {
        SyncState::CantSynchronize
    }
}

pub fn transfer_for(mode: SyncMode, c: Classification, parent_ok: bool) -> (r: Option<Transfer>)
    ensures
        r == transfer_spec(mode, c, parent_ok),
{
    match mode {
        SyncMode::ReportOnly => None,
        SyncMode::Mutate => match c {
            Classification::LocalNewer => Some(Transfer::Upload),
            Classification::LocalOnly => Some(Transfer::Upload),
            Classification::RemoteNewer => Some(Transfer::Download),
            Classification::RemoteOnly => if parent_ok {
                Some(Transfer::Download)
            } else {
                None
            },
            Classification::InSync => None,
            Classification::Neither => None,
        },
    }
}

pub fn immediate_outcome(mode: SyncMode, c: Classification, parent_ok: bool) -> (r: SyncState)
    ensures
        r == immediate_outcome_spec(mode, c, parent_ok),
{
    match c {
        Classification::InSync => SyncState::Synchronized,
        Classification::Neither => SyncState::CantSynchronize,
        Classification::RemoteOnly => if parent_ok {
            SyncState::UnsynchronizedDevice
        } else {
            SyncState::CantSynchronize
        },
        Classification::LocalNewer => SyncState::UnsynchronizedServer,
        Classification::LocalOnly => SyncState::UnsynchronizedServer,
        Classification::RemoteNewer => SyncState::UnsynchronizedDevice,
    }
}

pub fn transfer_outcome(ok: bool) -> (r: SyncState)
    ensures
        r == transfer_outcome_spec(ok),
{
    if ok {
        SyncState::Synchronized
    } else {
        SyncState::CantSynchronize
    }
}

} // verus!
