//! An executable model of everything outside the engine: the local file
//! system and the remote endpoint.
//!
//! The orchestrator is verified against this model. Each operation carries
//! the contract the engine relies on — what a stat returns, when a transfer
//! succeeds and what it changes, how directory creation answers — and a
//! failure oracle (`fail_remote`) stands for the transfers the transport
//! would fail. An unverified front end performs the same operations against
//! a live session; the model is also how the tests drive whole runs.

use vstd::prelude::*;
use vstd::slice::slice_to_vec;
use crate::paths::{dir_chain_spec, parent_str};
use crate::strmap::{KvMap, StrSet};
use crate::time::Timestamp;

verus! {

/// One file: its content and its modification time.
pub struct FileRec {
    pub content: Vec<u8>,
    pub mtime: Timestamp,
}

impl View for FileRec {
    type V = (Seq<u8>, Timestamp);

    open spec fn view(&self) -> (Seq<u8>, Timestamp) {
        (self.content@, self.mtime)
    }
}

/// The state of the world as contracts see it.
#[verifier::ext_equal]
pub ghost struct WorldView {
    pub local_files: Map<Seq<char>, (Seq<u8>, Timestamp)>,
    pub local_dirs: Set<Seq<char>>,
    pub remote_files: Map<Seq<char>, (Seq<u8>, Timestamp)>,
    pub remote_dirs: Set<Seq<char>>,
    pub reachable: bool,
    pub fail_remote: Set<Seq<char>>,
    pub clock: Timestamp,
}

/// The modelled world: local files and directories, remote objects and
/// collections, reachability, and the set of remote paths whose operations
/// fail.
pub struct ModelWorld {
    pub local_files: KvMap<FileRec>,
    pub local_dirs: StrSet,
    pub remote_files: KvMap<FileRec>,
    pub remote_dirs: StrSet,
    pub reachable: bool,
    pub fail_remote: StrSet,
    pub clock: Timestamp,
}

/// A download can run when the transport does not fail the remote path, the
/// remote object exists, and the local side can take the file: the file is
/// already there to overwrite, or its parent directory exists.
pub open spec fn can_get(w: WorldView, l: Seq<char>, r: Seq<char>) -> bool {
    &&& !w.fail_remote.contains(r)
    &&& w.remote_files.contains_key(r)
    &&& (w.local_files.contains_key(l) || w.local_dirs.contains(parent_str(l)))
}

/// A download writes the remote content to the local path; the new local
/// modification time is the current time.
pub open spec fn after_get(w: WorldView, l: Seq<char>, r: Seq<char>) -> WorldView {
    WorldView { local_files: w.local_files.insert(l, (w.remote_files[r].0, w.clock)), ..w }
}

/// An object write can run when the transport does not fail the remote
/// path, the local source exists, and the remote parent collection does:
/// the last element of the directory chain, if the path has one.
pub open spec fn can_put(w: WorldView, l: Seq<char>, r: Seq<char>) -> bool {
    &&& !w.fail_remote.contains(r)
    &&& w.local_files.contains_key(l)
    &&& (dir_chain_spec(r).len() == 0 || w.remote_dirs.contains(dir_chain_spec(r).last()))
}

/// A write puts the local content at the remote path, stamped with the
/// current time.
pub open spec fn after_put(w: WorldView, l: Seq<char>, r: Seq<char>) -> WorldView {
    WorldView { remote_files: w.remote_files.insert(r, (w.local_files[l].0, w.clock)), ..w }
}

/// What creating one remote directory answers: failure injected by the
/// oracle, "already exists" for a present collection, else "created".
pub open spec fn mkcol_status_spec(w: WorldView, d: Seq<char>) -> u16 {
    if w.fail_remote.contains(d) {
        500
    } else if w.remote_dirs.contains(d) {
        405
    } else {
        201
    }
}

/// The effect of one directory creation.
pub open spec fn after_mkcol(w: WorldView, d: Seq<char>) -> WorldView {
    if mkcol_status_spec(w, d) == 201 {
        WorldView { remote_dirs: w.remote_dirs.insert(d), ..w }
    } else {
        w
    }
}

/// A directory-creation answer that lets an upload go on: created, or a
/// conflict saying the collection is already there.
pub open spec fn mkcol_ok(status: u16) -> bool {
    status == 201 || status == 405
}

/// Whether creating the whole chain, parent to child, goes through.
pub open spec fn mkcol_chain_ok(w: WorldView, chain: Seq<Seq<char>>) -> bool
    decreases chain.len(),
{
    if chain.len() == 0 {
        true
    } else {
        mkcol_ok(mkcol_status_spec(w, chain.first())) && mkcol_chain_ok(
            after_mkcol(w, chain.first()),
            chain.drop_first(),
        )
    }
}

/// The world after creating the chain, stopping at the first failure; the
/// directories already created stay.
pub open spec fn after_mkcol_chain(w: WorldView, chain: Seq<Seq<char>>) -> WorldView
    decreases chain.len(),
{
    if chain.len() == 0 {
        w
    } else if mkcol_ok(mkcol_status_spec(w, chain.first())) {
        after_mkcol_chain(after_mkcol(w, chain.first()), chain.drop_first())
    } else {
        w
    }
}

/// A whole upload goes through when every directory of the chain can be
/// created or already exists, and the object write after that can run.
pub open spec fn upload_ok(w: WorldView, l: Seq<char>, r: Seq<char>) -> bool {
    mkcol_chain_ok(w, dir_chain_spec(r)) && can_put(after_mkcol_chain(w, dir_chain_spec(r)), l, r)
}

/// The world after a whole upload: the directories created stay even when
/// the write after them fails.
pub open spec fn after_upload(w: WorldView, l: Seq<char>, r: Seq<char>) -> WorldView {
    let w1 = after_mkcol_chain(w, dir_chain_spec(r));
    if mkcol_chain_ok(w, dir_chain_spec(r)) && can_put(w1, l, r) {
        after_put(w1, l, r)
    } else {
        w1
    }
}

/// All recorded times of a file table stay in range when one in-range
/// entry is added.
pub proof fn lemma_times_wf_insert(
    m0: Map<Seq<char>, (Seq<u8>, Timestamp)>,
    k: Seq<char>,
    v: (Seq<u8>, Timestamp),
)
    requires
        forall|p: Seq<char>| m0.contains_key(p) ==> (#[trigger] m0[p]).1.wf(),
        v.1.wf(),
    ensures
        forall|p: Seq<char>|
            m0.insert(k, v).contains_key(p) ==> (#[trigger] m0.insert(k, v)[p]).1.wf(),
{
    assert forall|p: Seq<char>|
        m0.insert(k, v).contains_key(p) implies (#[trigger] m0.insert(k, v)[p]).1.wf() by {
        if p != k {
            assert((m0[p]).1.wf());
        }
    }
}

/// All recorded times of a file table stay in range when the table does not
/// change.
pub proof fn lemma_times_wf_same(
    m0: Map<Seq<char>, (Seq<u8>, Timestamp)>,
    m1: Map<Seq<char>, (Seq<u8>, Timestamp)>,
)
    requires
        forall|p: Seq<char>| m0.contains_key(p) ==> (#[trigger] m0[p]).1.wf(),
        m1 == m0,
    ensures
        forall|p: Seq<char>| m1.contains_key(p) ==> (#[trigger] m1[p]).1.wf(),
{
    assert forall|p: Seq<char>| m1.contains_key(p) implies (#[trigger] m1[p]).1.wf() by {
        assert((m0[p]).1.wf());
    }
}

/// Whether a directory-creation answer lets an upload go on.
pub fn mkcol_status_accepted(status: u16) -> (r: bool)
    ensures
        r == mkcol_ok(status),
{
    status == 201 || status == 405
}

impl ModelWorld {
    pub open spec fn view(&self) -> WorldView {
        WorldView {
            local_files: self.local_files@,
            local_dirs: self.local_dirs@,
            remote_files: self.remote_files@,
            remote_dirs: self.remote_dirs@,
            reachable: self.reachable,
            fail_remote: self.fail_remote@,
            clock: self.clock,
        }
    }

    /// The tables are well formed and every time in the world is in range.
    pub open spec fn wf(&self) -> bool {
        &&& self.local_files.wf()
        &&& self.remote_files.wf()
        &&& self.clock.wf()
        &&& forall|p: Seq<char>|
            self@.local_files.contains_key(p) ==> (#[trigger] self@.local_files[p]).1.wf()
        &&& forall|p: Seq<char>|
            self@.remote_files.contains_key(p) ==> (#[trigger] self@.remote_files[p]).1.wf()
    }

    /// An empty, reachable world.
    pub fn new(clock: Timestamp) -> (r: ModelWorld)
        requires
            clock.wf(),
        ensures
            r.wf(),
            r@.local_files =~= Map::<Seq<char>, (Seq<u8>, Timestamp)>::empty(),
            r@.local_dirs =~= Set::<Seq<char>>::empty(),
            r@.remote_files =~= Map::<Seq<char>, (Seq<u8>, Timestamp)>::empty(),
            r@.remote_dirs =~= Set::<Seq<char>>::empty(),
            r@.fail_remote =~= Set::<Seq<char>>::empty(),
            r@.reachable,
            r@.clock == clock,
    {
        ModelWorld {
            local_files: KvMap::new(),
            local_dirs: StrSet::new(),
            remote_files: KvMap::new(),
            remote_dirs: StrSet::new(),
            reachable: true,
            fail_remote: StrSet::new(),
            clock,
        }
    }

    /// Put a file on the local side, as the host would between runs.
    pub fn set_local_file(&mut self, path: String, content: Vec<u8>, mtime: Timestamp)
        requires
            old(self).wf(),
            mtime.wf(),
        ensures
            final(self).wf(),
            final(self)@ =~= (WorldView {
                local_files: old(self)@.local_files.insert(path@, (content@, mtime)),
                ..old(self)@
            }),
    {
        let ghost cv = content@;
        self.local_files.insert(path, FileRec { content, mtime });
        proof {
            lemma_times_wf_insert(old(self)@.local_files, path@, (cv, mtime));
            lemma_times_wf_same(old(self)@.remote_files, self@.remote_files);
        }
    }

    /// Put an object on the remote side, as another host would.
    pub fn set_remote_file(&mut self, path: String, content: Vec<u8>, mtime: Timestamp)
        requires
            old(self).wf(),
            mtime.wf(),
        ensures
            final(self).wf(),
            final(self)@ =~= (WorldView {
                remote_files: old(self)@.remote_files.insert(path@, (content@, mtime)),
                ..old(self)@
            }),
    {
        let ghost cv = content@;
        self.remote_files.insert(path, FileRec { content, mtime });
        proof {
            lemma_times_wf_insert(old(self)@.remote_files, path@, (cv, mtime));
            lemma_times_wf_same(old(self)@.local_files, self@.local_files);
        }
    }

    /// Make a local directory exist.
    pub fn add_local_dir(&mut self, path: String)
        requires
            old(self).wf(),
        ensures
            final(self).wf(),
            final(self)@ =~= (WorldView {
                local_dirs: old(self)@.local_dirs.insert(path@),
                ..old(self)@
            }),
    {
        self.local_dirs.insert(path);
        proof {
            lemma_times_wf_same(old(self)@.local_files, self@.local_files);
            lemma_times_wf_same(old(self)@.remote_files, self@.remote_files);
        }
    }

    /// Mark a remote path as one whose transfers fail.
    pub fn add_fail_remote(&mut self, path: String)
        requires
            old(self).wf(),
        ensures
            final(self).wf(),
            final(self)@ =~= (WorldView {
                fail_remote: old(self)@.fail_remote.insert(path@),
                ..old(self)@
            }),
    {
        self.fail_remote.insert(path);
        proof {
            lemma_times_wf_same(old(self)@.local_files, self@.local_files);
            lemma_times_wf_same(old(self)@.remote_files, self@.remote_files);
        }
    }

    /// The reachability probe: one listing of the remote root.
    pub fn probe(&self) -> (r: bool)
        ensures
            r == self@.reachable,
    {
        self.reachable
    }

    /// A local stat: the file's modification time, if the file exists.
    pub fn stat_local(&self, path: &String) -> (r: Option<Timestamp>)
        requires
            self.wf(),
        ensures
            r == (if self@.local_files.contains_key(path@) {
                Some(self@.local_files[path@].1)
            } else {
                None::<Timestamp>
            }),
    {
        match self.local_files.get(path) {
            Some(rec) => Some(rec.mtime),
            None => None,
        }
    }

    /// The content of a local file, if it exists.
    pub fn read_local(&self, path: &String) -> (r: Option<Vec<u8>>)
        requires
            self.wf(),
        ensures
            match r {
                Some(c) => self@.local_files.contains_key(path@) && c@
                    == self@.local_files[path@].0,
                None => !self@.local_files.contains_key(path@),
            },
    {
        match self.local_files.get(path) {
            Some(rec) => Some(slice_to_vec(rec.content.as_slice())),
            None => None,
        }
    }

    /// The content of a remote object, if it exists.
    pub fn read_remote(&self, path: &String) -> (r: Option<Vec<u8>>)
        requires
            self.wf(),
        ensures
            match r {
                Some(c) => self@.remote_files.contains_key(path@) && c@
                    == self@.remote_files[path@].0,
                None => !self@.remote_files.contains_key(path@),
            },
    {
        match self.remote_files.get(path) {
            Some(rec) => Some(slice_to_vec(rec.content.as_slice())),
            None => None,
        }
    }

    /// A zero-depth listing used as an existence check.
    pub fn remote_exists(&self, path: &String) -> (r: bool)
        requires
            self.wf(),
        ensures
            r == self@.remote_files.contains_key(path@),
    {
        self.remote_files.get(path).is_some()
    }

    /// The remote object's live modification time: the listing that gives it
    /// fails on an oracle path or when no file entry comes back.
    pub fn remote_mtime(&self, path: &String) -> (r: Option<Timestamp>)
        requires
            self.wf(),
        ensures
            r == (if !self@.fail_remote.contains(path@) && self@.remote_files.contains_key(path@) {
                Some(self@.remote_files[path@].1)
            } else {
                None::<Timestamp>
            }),
    {
        if self.fail_remote.contains(path) {
            return None;
        }
        match self.remote_files.get(path) {
            Some(rec) => Some(rec.mtime),
            None => None,
        }
    }

    /// Whether a local parent directory exists.
    pub fn local_parent_exists(&self, path: &String) -> (r: bool)
        requires
            self.wf(),
        ensures
            r == self@.local_dirs.contains(parent_str(path@)),
    {
        let parent = crate::paths::parent_of(path.as_str());
        self.local_dirs.contains(&parent)
    }

    /// Fetch the remote object at `remote` and write it over the local file
    /// at `local`.
    pub fn get(&mut self, local: &String, remote: &String) -> (ok: bool)
        requires
            old(self).wf(),
        ensures
            final(self).wf(),
            ok == can_get(old(self)@, local@, remote@),
            final(self)@ =~= (if can_get(old(self)@, local@, remote@) {
                after_get(old(self)@, local@, remote@)
            } else {
                old(self)@
            }),
    {
        if self.fail_remote.contains(remote) {
            return false;
        }
        let content = match self.read_remote(remote) {
            Some(c) => c,
            None => {
                return false;
            },
        };
        let writable = self.local_files.get(local).is_some() || {
            let parent = crate::paths::parent_of(local.as_str());
            self.local_dirs.contains(&parent)
        };
        if !writable {
            return false;
        }
        let ghost cv = content@;
        let mtime = self.clock;
        self.local_files.insert(local.clone(), FileRec { content, mtime });
        proof {
            lemma_times_wf_insert(old(self)@.local_files, local@, (cv, mtime));
            lemma_times_wf_same(old(self)@.remote_files, self@.remote_files);
        }
        true
    }

    /// Write the local file at `local` to the remote path `remote`. The
    /// parent collection must already exist; `mkcol` creates it.
    pub fn put(&mut self, local: &String, remote: &String) -> (ok: bool)
        requires
            old(self).wf(),
        ensures
            final(self).wf(),
            ok == can_put(old(self)@, local@, remote@),
            final(self)@ =~= (if can_put(old(self)@, local@, remote@) {
                after_put(old(self)@, local@, remote@)
            } else {
                old(self)@
            }),
    {
        if self.fail_remote.contains(remote) {
            return false;
        }
        let content = match self.read_local(local) {
            Some(c) => c,
            None => {
                return false;
            },
        };
        let chain = crate::paths::dir_chain(remote.as_str());
        if chain.len() > 0 {
            let last = &chain[chain.len() - 1];
            proof {
                assert(chain.deep_view()[chain@.len() - 1] == dir_chain_spec(remote@).last());
            }
            if !self.remote_dirs.contains(last) {
                return false;
            }
        }
        let ghost cv = content@;
        let mtime = self.clock;
        self.remote_files.insert(remote.clone(), FileRec { content, mtime });
        proof {
            lemma_times_wf_insert(old(self)@.remote_files, remote@, (cv, mtime));
            lemma_times_wf_same(old(self)@.local_files, self@.local_files);
        }
        true
    }

    /// Write bytes straight to a remote path at the root, as the metadata
    /// blob is written: no parent collection is involved.
    pub fn put_raw(&mut self, path: &String, content: Vec<u8>) -> (ok: bool)
        requires
            old(self).wf(),
        ensures
            final(self).wf(),
            ok == !old(self)@.fail_remote.contains(path@),
            final(self)@ =~= (if old(self)@.fail_remote.contains(path@) {
                old(self)@
            } else {
                WorldView {
                    remote_files: old(self)@.remote_files.insert(
                        path@,
                        (content@, old(self)@.clock),
                    ),
                    ..old(self)@
                }
            }),
    {
        if self.fail_remote.contains(path) {
            return false;
        }
        let ghost cv = content@;
        let mtime = self.clock;
        self.remote_files.insert(path.clone(), FileRec { content, mtime });
        proof {
            lemma_times_wf_insert(old(self)@.remote_files, path@, (cv, mtime));
            lemma_times_wf_same(old(self)@.local_files, self@.local_files);
        }
        true
    }

    /// Create one remote collection: `201` created, `405` already there,
    /// `500` the transport failed.
    pub fn mkcol(&mut self, dir: &String) -> (status: u16)
        requires
            old(self).wf(),
        ensures
            final(self).wf(),
            status == mkcol_status_spec(old(self)@, dir@),
            final(self)@ =~= after_mkcol(old(self)@, dir@),
    {
        if self.fail_remote.contains(dir) {
            500
        } else if self.remote_dirs.contains(dir) {
            405
        } else {
            self.remote_dirs.insert(dir.clone());
            proof {
                lemma_times_wf_same(old(self)@.local_files, self@.local_files);
                lemma_times_wf_same(old(self)@.remote_files, self@.remote_files);
            }
            201
        }
    }
}

} // verus!
