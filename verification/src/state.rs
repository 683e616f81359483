//! The event vocabulary shared with the front end.
//!
//! The engine reports progress by emitting `Message` values; a front end
//! consumes them and keeps a per-pair `SyncState`. `EditingState` belongs to
//! the front end's pair-editing workflow and is carried here so that both
//! sides speak the same language.

use vstd::prelude::*;

verus! {

/// What the front end is currently doing to the pair list.
#[derive(Debug)]
pub enum EditingState {
    Create,
    Edit { key: String, value: String },
    Delete { key: String, value: String },
}

/// The synchronization status of one pair, as last reported.
///
/// `UnsynchronizedServer` means the local file is newer, so the server side
/// is out of date (an upload would resolve it); `UnsynchronizedDevice` is
/// the converse (a download would resolve it).
#[derive(Debug, Clone, Copy, PartialEq, Eq, Structural)]
pub enum SyncState {
    Synchronized,
    UnsynchronizedServer,
    UnsynchronizedDevice,
    CantSynchronize,
}

/// Events exchanged with the front end. The engine emits
/// `UpdatePairSyncState`, `ShowError`, `StopSynchronize` and
/// `StopSynchronizeCheck`; the rest are the front end's own input events.
#[derive(Debug, Clone)]
pub enum Message {
    SystemPathInputChanged(String),
    ServerPathInputChanged(String),
    HostInputChanged(String),
    LoginInputChanged(String),
    PasswordInputChanged(String),
    CreatePair,
    EditPair(String),
    DeletePair(String),
    AcceptEditing,
    DeclineEditing,
    CloseError,
    SynchronizeCheck,
    StopSynchronizeCheck,
    Synchronize,
    StopSynchronize,
    UpdatePairSyncState(String, SyncState),
    OpenAuth,
    CloseAuth,
    ShowError(String),
}

} // verus!
