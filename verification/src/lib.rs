//! Synchronization engine for pairs of local and remote file paths.
//!
//! The library decides, for each (local path, remote path) pair, whether to
//! upload, download, do nothing, or declare the pair unsynchronizable, and it
//! keeps a small metadata store of last-known-synchronized timestamps so that
//! a later run can tell "both sides changed" apart from mere clock skew.
//!
//! The decision logic, the metadata store and its on-the-wire encoding, and
//! the whole orchestrated run over a modelled transport are verified here.
//! An unverified front end drives the same decision functions against a live
//! WebDAV session.

pub mod classify;
pub mod codec;
pub mod engine;
pub mod laws;
pub mod paths;
pub mod policy;
pub mod state;
pub mod strmap;
pub mod time;
pub mod world;
