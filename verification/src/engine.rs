//! The orchestrator: one whole run over the modelled world.
//!
//! A run probes the remote side, loads the metadata store (absence or a bad
//! blob is no error — it means "no history"), drives every pair through the
//! comparator and the per-pair policy, and, in `Mutate` mode, refreshes the
//! store from the current local times of the pairs that ended synchronized
//! and writes it back. One status event is emitted per pair, in pair order,
//! a diagnostic follows where something failed, and exactly one stop event
//! ends the stream. A failure at one pair never stops the run; only an
//! unreachable remote side does, before any pair is touched.

use vstd::prelude::*;
use crate::classify::{classify, classify_spec, PairObs};
use crate::codec::{
    decode_blob, encode_blob, encode_store, entries_time_wf, decode_store, MetaStore,
};
use crate::paths::{dir_chain, dir_chain_spec, parent_str};
use crate::policy::{
    immediate_outcome, immediate_outcome_spec, transfer_for, transfer_outcome,
    transfer_outcome_spec, transfer_spec, SyncMode, Transfer,
};
use crate::state::{Message, SyncState};
use crate::strmap::{distinct_keys, map_of, KvMap};
use crate::time::Timestamp;
use crate::world::{
    after_get, after_mkcol, after_mkcol_chain, after_upload, can_get, mkcol_chain_ok, mkcol_ok,
    mkcol_status_spec, upload_ok, ModelWorld, WorldView,
};

verus! {

// ---------------------------------------------------------------------------
// The fixed remote location of the metadata blob, and the diagnostic texts.
// ---------------------------------------------------------------------------

/// The well-known remote path of the metadata blob.
pub open spec fn meta_path() -> Seq<char> {
    ".syncmetadata"@
}

/// The well-known remote path of the metadata blob.
pub fn metadata_path() -> (r: String)
    ensures
        r@ == meta_path(),
{
    String::from_str(".syncmetadata")
}

pub open spec fn msg_conn() -> Seq<char> {
    "Can't open connection"@
}

pub open spec fn msg_no_remote_info(r: Seq<char>) -> Seq<char> {
    "Remote file "@ + r + " not found"@
}

pub open spec fn msg_no_dirs(l: Seq<char>) -> Seq<char> {
    "Not all dirs in path exist "@ + l
}

pub open spec fn msg_both_missing(l: Seq<char>, r: Seq<char>) -> Seq<char> {
    "Both file don't exist "@ + l + " <=> "@ + r
}

pub open spec fn msg_download_fail(r: Seq<char>) -> Seq<char> {
    "Download "@ + r + " request unsuccess"@
}

pub open spec fn msg_upload_fail(r: Seq<char>) -> Seq<char> {
    "Upload "@ + r + " request unsuccess"@
}

pub open spec fn msg_meta_fail() -> Seq<char> {
    "Can't upload synchronization metadata"@
}

// ---------------------------------------------------------------------------
// The events of a run, at specification level.
// ---------------------------------------------------------------------------

/// The shape of one emitted event: a per-pair status, a diagnostic, or one
/// of the two stop signals.
pub ghost enum MsgV {
    Update(Seq<char>, SyncState),
    Error(Seq<char>),
    Stop,
    StopCheck,
}

/// The stop signal of each mode.
pub open spec fn stop_msg(mode: SyncMode) -> MsgV {
    if mode is Mutate {
        MsgV::Stop
    } else {
        MsgV::StopCheck
    }
}

/// Whether an emitted `Message` is the event the specification names.
pub open spec fn msg_matches(m: Message, v: MsgV) -> bool {
    match v {
        MsgV::Update(l, s) => m matches Message::UpdatePairSyncState(a, b) && a@ == l && b == s,
        MsgV::Error(t) => m matches Message::ShowError(x) && x@ == t,
        MsgV::Stop => m matches Message::StopSynchronize,
        MsgV::StopCheck => m matches Message::StopSynchronizeCheck,
    }
}

/// The emitted events match the specified ones, one for one and in order.
pub open spec fn msgs_match(ms: Seq<Message>, vs: Seq<MsgV>) -> bool {
    &&& ms.len() == vs.len()
    &&& forall|i: int| 0 <= i < vs.len() ==> msg_matches(#[trigger] ms[i], vs[i])
}

proof fn lemma_msgs_match_push(ms: Seq<Message>, vs: Seq<MsgV>, m: Message, v: MsgV)
    requires
        msgs_match(ms, vs),
        msg_matches(m, v),
    ensures
        msgs_match(ms.push(m), vs.push(v)),
{
    assert(forall|i: int| 0 <= i < vs.len() ==> #[trigger] ms.push(m)[i] == ms[i]);
    assert(forall|i: int| 0 <= i < vs.len() ==> #[trigger] vs.push(v)[i] == vs[i]);
}

// ---------------------------------------------------------------------------
// One pair, at specification level.
// ---------------------------------------------------------------------------

/// What processing one pair does: the world after it, the outcome reported,
/// and the diagnostic, if one is due.
pub ghost struct PairStep {
    pub w: WorldView,
    pub outcome: SyncState,
    pub diag: Option<Seq<char>>,
}

/// What the run observes about a pair. The live remote time is fetched only
/// when it will be consulted: both sides exist and no time is recorded.
pub open spec fn pair_obs_spec(
    w: WorldView,
    meta: Map<Seq<char>, Timestamp>,
    l: Seq<char>,
    r: Seq<char>,
) -> PairObs {
    PairObs {
        local_modified: if w.local_files.contains_key(l) {
            Some(w.local_files[l].1)
        } else {
            None
        },
        remote_exists: w.remote_files.contains_key(r),
        remote_modified: if w.local_files.contains_key(l) && w.remote_files.contains_key(r)
            && !meta.contains_key(r) && !w.fail_remote.contains(r) {
            Some(w.remote_files[r].1)
        } else {
            None
        },
        local_parent_exists: w.local_dirs.contains(parent_str(l)),
    }
}

/// The recorded time for a remote path, if the store holds one.
pub open spec fn recorded_spec(meta: Map<Seq<char>, Timestamp>, r: Seq<char>) -> Option<
    Timestamp,
> {
    if meta.contains_key(r) {
        Some(meta[r])
    } else {
        None
    }
}

/// Everything that happens to one pair: classification, policy, transfer,
/// outcome and diagnostic.
pub open spec fn pair_spec(
    w: WorldView,
    meta: Map<Seq<char>, Timestamp>,
    mode: SyncMode,
    l: Seq<char>,
    r: Seq<char>,
) -> PairStep {
    let obs = pair_obs_spec(w, meta, l, r);
    match classify_spec(obs, recorded_spec(meta, r)) {
        None => PairStep {
            w,
            outcome: SyncState::CantSynchronize,
            diag: Some(msg_no_remote_info(r)),
        },
        Some(c) => match transfer_spec(mode, c, obs.local_parent_exists) {
            None => PairStep {
                w,
                outcome: immediate_outcome_spec(mode, c, obs.local_parent_exists),
                diag: if c is Neither {
                    Some(msg_both_missing(l, r))
                } else if c is RemoteOnly && !obs.local_parent_exists {
                    Some(msg_no_dirs(l))
                } else {
                    None
                },
            },
            Some(Transfer::Upload) => PairStep {
                w: after_upload(w, l, r),
                outcome: transfer_outcome_spec(upload_ok(w, l, r)),
                diag: if upload_ok(w, l, r) {
                    None
                } else {
                    Some(msg_upload_fail(r))
                },
            },
            Some(Transfer::Download) => PairStep {
                w: if can_get(w, l, r) {
                    after_get(w, l, r)
                } else {
                    w
                },
                outcome: transfer_outcome_spec(can_get(w, l, r)),
                diag: if can_get(w, l, r) {
                    None
                } else {
                    Some(msg_download_fail(r))
                },
            },
        },
    }
}

/// The events one pair contributes: its status, then its diagnostic if any.
pub open spec fn pair_msgs(l: Seq<char>, outcome: SyncState, diag: Option<Seq<char>>) -> Seq<
    MsgV,
> {
    match diag {
        Some(t) => seq![MsgV::Update(l, outcome), MsgV::Error(t)],
        None => seq![MsgV::Update(l, outcome)],
    }
}

// ---------------------------------------------------------------------------
// The whole run, at specification level.
// ---------------------------------------------------------------------------

/// The state a run accumulates while walking the pair list.
pub ghost struct FoldState {
    pub w: WorldView,
    pub msgs: Seq<MsgV>,
    pub outcomes: Seq<SyncState>,
}

/// The pairs as contracts see them: (local, remote) path contents.
pub open spec fn pairs_view(ps: Seq<(String, String)>) -> Seq<(Seq<char>, Seq<char>)> {
    ps.map_values(|p: (String, String)| (p.0@, p.1@))
}

/// Process the pairs in order, accumulating world, events and outcomes.
pub open spec fn pairs_fold(
    st: FoldState,
    meta: Map<Seq<char>, Timestamp>,
    mode: SyncMode,
    prs: Seq<(Seq<char>, Seq<char>)>,
) -> FoldState
    decreases prs.len(),
{
    if prs.len() == 0 {
        st
    } else {
        let step = pair_spec(st.w, meta, mode, prs.first().0, prs.first().1);
        pairs_fold(
            FoldState {
                w: step.w,
                msgs: st.msgs + pair_msgs(prs.first().0, step.outcome, step.diag),
                outcomes: st.outcomes.push(step.outcome),
            },
            meta,
            mode,
            prs.drop_first(),
        )
    }
}

/// The history a run starts from: the decoded blob at the well-known remote
/// path, or no history when it is absent, unfetchable, or rejected.
pub open spec fn load_meta_spec(w: WorldView) -> Map<Seq<char>, Timestamp> {
    if w.fail_remote.contains(meta_path()) || !w.remote_files.contains_key(meta_path()) {
        Map::empty()
    } else {
        match decode_blob(w.remote_files[meta_path()].0) {
            Some(es) => if distinct_keys(es) {
                map_of(es)
            } else {
                Map::empty()
            },
            None => Map::empty(),
        }
    }
}

/// The store a `Mutate` run writes back: the loaded history, refreshed with
/// the current local modification time of every pair that ended
/// synchronized.
pub open spec fn refresh_map_spec(
    m: Map<Seq<char>, Timestamp>,
    w: WorldView,
    prs: Seq<(Seq<char>, Seq<char>)>,
    outs: Seq<SyncState>,
) -> Map<Seq<char>, Timestamp>
    recommends
        prs.len() == outs.len(),
    decreases prs.len(),
{
    if prs.len() == 0 {
        m
    } else {
        let m1 = if outs.first() == SyncState::Synchronized && w.local_files.contains_key(
            prs.first().0,
        ) {
            m.insert(prs.first().1, w.local_files[prs.first().0].1)
        } else {
            m
        };
        refresh_map_spec(m1, w, prs.drop_first(), outs.drop_first())
    }
}

/// A blob that carries exactly the given store: it decodes, path for path
/// and time for time, to that map.
pub open spec fn blob_for(b: Seq<u8>, m: Map<Seq<char>, Timestamp>) -> bool {
    exists|es: Seq<(Seq<char>, Timestamp)>|
        decode_blob(b) == Some(es) && #[trigger] distinct_keys(es) && map_of(es) =~= m
}

/// The world after the refreshed store is written back.
pub open spec fn put_meta_world(w: WorldView, b: Seq<u8>) -> WorldView {
    WorldView { remote_files: w.remote_files.insert(meta_path(), (b, w.clock)), ..w }
}

/// Everything a run promises: given the starting world, the mode and the
/// pairs, the final world and the emitted events.
pub open spec fn run_post(
    w0: WorldView,
    mode: SyncMode,
    prs: Seq<(Seq<char>, Seq<char>)>,
    w1: WorldView,
    msgs: Seq<Message>,
) -> bool {
    if !w0.reachable {
        &&& w1 == w0
        &&& msgs_match(msgs, seq![MsgV::Error(msg_conn()), stop_msg(mode)])
    } else {
        let meta = load_meta_spec(w0);
        let st = pairs_fold(
            FoldState { w: w0, msgs: Seq::empty(), outcomes: Seq::empty() },
            meta,
            mode,
            prs,
        );
        if mode is ReportOnly {
            &&& w1 == st.w
            &&& msgs_match(msgs, st.msgs + seq![MsgV::StopCheck])
        } else {
            let m2 = refresh_map_spec(meta, st.w, prs, st.outcomes);
            if st.w.fail_remote.contains(meta_path()) {
                &&& w1 == st.w
                &&& msgs_match(msgs, st.msgs + seq![MsgV::Error(msg_meta_fail()), MsgV::Stop])
            } else {
                &&& exists|b: Seq<u8>| w1 == put_meta_world(st.w, b) && #[trigger] blob_for(b, m2)
                &&& msgs_match(msgs, st.msgs + seq![MsgV::Stop])
            }
        }
    }
}

// ---------------------------------------------------------------------------
// Executable pieces.
// ---------------------------------------------------------------------------

fn err_conn() -> (r: String)
    ensures
        r@ == msg_conn(),
{
    String::from_str("Can't open connection")
}

fn err_no_remote_info(remote: &String) -> (r: String)
    ensures
        r@ == msg_no_remote_info(remote@),
{
    let mut s = String::from_str("Remote file ");
    s.append(remote.as_str());
    s.append(" not found");
    s
}

fn err_no_dirs(local: &String) -> (r: String)
    ensures
        r@ == msg_no_dirs(local@),
{
    let mut s = String::from_str("Not all dirs in path exist ");
    s.append(local.as_str());
    s
}

fn err_both_missing(local: &String, remote: &String) -> (r: String)
    ensures
        r@ == msg_both_missing(local@, remote@),
{
    let mut s = String::from_str("Both file don't exist ");
    s.append(local.as_str());
    s.append(" <=> ");
    s.append(remote.as_str());
    s
}

fn err_download_fail(remote: &String) -> (r: String)
    ensures
        r@ == msg_download_fail(remote@),
{
    let mut s = String::from_str("Download ");
    s.append(remote.as_str());
    s.append(" request unsuccess");
    s
}

fn err_upload_fail(remote: &String) -> (r: String)
    ensures
        r@ == msg_upload_fail(remote@),
{
    let mut s = String::from_str("Upload ");
    s.append(remote.as_str());
    s.append(" request unsuccess");
    s
}

fn err_meta_fail() -> (r: String)
    ensures
        r@ == msg_meta_fail(),
{
    String::from_str("Can't upload synchronization metadata")
}

fn stop_message(mode: SyncMode) -> (r: Message)
    ensures
        msg_matches(r, stop_msg(mode)),
{
    match mode {
        SyncMode::Mutate => Message::StopSynchronize,
        SyncMode::ReportOnly => Message::StopSynchronizeCheck,
    }
}

/// Upload one file: create the directory chain parent to child, tolerating
/// "already exists", then write the object. A failed directory leaves the
/// ones already created.
fn upload_model(w: &mut ModelWorld, local: &String, remote: &String) -> (ok: bool)
    requires
        old(w).wf(),
    ensures
        final(w).wf(),
        ok == upload_ok(old(w)@, local@, remote@),
        final(w)@ == after_upload(old(w)@, local@, remote@),
{
    let chain = dir_chain(remote.as_str());
    let ghost chv = dir_chain_spec(remote@);
    proof {
        assert(chv.skip(0) =~= chv);
    }
    let n = chain.len();
    let mut i: usize = 0;
    while i < n
        invariant
            i <= n,
            n == chv.len(),
            chain.deep_view() == chv,
            chv == dir_chain_spec(remote@),
            w.wf(),
            mkcol_chain_ok(old(w)@, chv) == mkcol_chain_ok(w@, chv.skip(i as int)),
            after_mkcol_chain(old(w)@, chv) == after_mkcol_chain(w@, chv.skip(i as int)),
        decreases n - i,
    {
        let ghost wpre = w@;
        proof {
            assert(chv.skip(i as int).first() == chv[i as int]);
            assert(chv.skip(i as int).drop_first() =~= chv.skip(i as int + 1));
            assert(chain.deep_view()[i as int] == chain@[i as int]@);
        }
        let st = w.mkcol(&chain[i]);
        if !(st == 201 || st == 405) {
            proof {
                assert(!mkcol_ok(mkcol_status_spec(wpre, chv[i as int])));
                assert(!mkcol_chain_ok(wpre, chv.skip(i as int)));
                assert(after_mkcol_chain(wpre, chv.skip(i as int)) == wpre);
                assert(w@ == wpre);
            }
            return false;
        }
        proof {
            assert(mkcol_ok(mkcol_status_spec(wpre, chv[i as int])));
            assert(w@ == after_mkcol(wpre, chv[i as int]));
        }
        i += 1;
    }
    proof {
        assert(chv.skip(n as int) =~= Seq::<Seq<char>>::empty());
        assert(mkcol_chain_ok(old(w)@, chv));
        assert(after_mkcol_chain(old(w)@, chv) == w@);
    }
    w.put(local, remote)
}

/// Process one pair: observe, classify, decide, transfer if the mode and
/// classification call for one, and report.
fn sync_pair(
    w: &mut ModelWorld,
    meta: &MetaStore,
    mode: SyncMode,
    local: &String,
    remote: &String,
) -> (res: (SyncState, Option<String>))
    requires
        old(w).wf(),
        meta.wf(),
    ensures
        final(w).wf(),
        ({
            let step = pair_spec(old(w)@, meta@, mode, local@, remote@);
            &&& final(w)@ == step.w
            &&& res.0 == step.outcome
            &&& (match (res.1, step.diag) {
                (Some(s), Some(t)) => s@ == t,
                (None, None) => true,
                _ => false,
            })
        }),
{
    let local_modified = w.stat_local(local);
    let remote_exists = w.remote_exists(remote);
    let recorded: Option<Timestamp> = match meta.get(remote) {
        Some(t) => Some(*t),
        None => None,
    };
    let remote_modified: Option<Timestamp> = if local_modified.is_some() && remote_exists
        && recorded.is_none() {
        w.remote_mtime(remote)
    } else {
        None
    };
    let local_parent_exists = w.local_parent_exists(local);
    let obs = PairObs { local_modified, remote_exists, remote_modified, local_parent_exists };
    proof {
        assert(obs == pair_obs_spec(w@, meta@, local@, remote@));
        assert(recorded == recorded_spec(meta@, remote@));
    }
    match classify(&obs, recorded) {
        None => (SyncState::CantSynchronize, Some(err_no_remote_info(remote))),
        Some(c) => match transfer_for(mode, c, local_parent_exists) {
            None => {
                let outcome = immediate_outcome(mode, c, local_parent_exists);
                let diag: Option<String> = match c {
                    crate::classify::Classification::Neither => Some(
                        err_both_missing(local, remote),
                    ),
                    crate::classify::Classification::RemoteOnly => if !local_parent_exists {
                        Some(err_no_dirs(local))
                    } else {
                        None
                    },
                    _ => None,
                };
                (outcome, diag)
            },
            Some(Transfer::Upload) => {
                let ok = upload_model(w, local, remote);
                let diag: Option<String> = if ok {
                    None
                } else {
                    Some(err_upload_fail(remote))
                };
                (transfer_outcome(ok), diag)
            },
            Some(Transfer::Download) => {
                let ok = w.get(local, remote);
                let diag: Option<String> = if ok {
                    None
                } else {
                    Some(err_download_fail(remote))
                };
                (transfer_outcome(ok), diag)
            },
        },
    }
}

/// Every time in a table stays in range when each entry either is a given
/// in-range one or was already in an in-range table.
proof fn lemma_entries_time_wf_step(
    s0: Seq<(Seq<char>, Timestamp)>,
    s1: Seq<(Seq<char>, Timestamp)>,
    e: (Seq<char>, Timestamp),
)
    requires
        entries_time_wf(s0),
        e.1.wf(),
        forall|i: int| 0 <= i < s1.len() ==> (#[trigger] s1[i] == e || s0.contains(s1[i])),
    ensures
        entries_time_wf(s1),
{
    assert forall|i: int| 0 <= i < s1.len() implies (#[trigger] s1[i]).1.wf() by {
        if s1[i] != e {
            let j = choose|j: int| 0 <= j < s0.len() && s0[j] == s1[i];
            assert(s0[j].1.wf());
        }
    }
}

/// In `ReportOnly` mode the walk over the pairs leaves the world as it was.
pub proof fn lemma_fold_report_only(
    st: FoldState,
    meta: Map<Seq<char>, Timestamp>,
    prs: Seq<(Seq<char>, Seq<char>)>,
)
    ensures
        pairs_fold(st, meta, SyncMode::ReportOnly, prs).w == st.w,
    decreases prs.len(),
{
    if prs.len() > 0 {
        let step = pair_spec(st.w, meta, SyncMode::ReportOnly, prs.first().0, prs.first().1);
        assert(step.w == st.w);
        lemma_fold_report_only(
            FoldState {
                w: step.w,
                msgs: st.msgs + pair_msgs(prs.first().0, step.outcome, step.diag),
                outcomes: st.outcomes.push(step.outcome),
            },
            meta,
            prs.drop_first(),
        );
    }
}

/// One whole run: probe, load history, process every pair in order, and in
/// `Mutate` mode refresh and write back the store. Returns the emitted
/// events in order.
pub fn run(w: &mut ModelWorld, mode: SyncMode, pairs: &Vec<(String, String)>) -> (msgs: Vec<
    Message,
>)
    requires
        old(w).wf(),
    ensures
        final(w).wf(),
        run_post(old(w)@, mode, pairs_view(pairs@), final(w)@, msgs@),
        mode is ReportOnly ==> final(w)@ == old(w)@,
{
    let ghost prs = pairs_view(pairs@);
    let mut msgs: Vec<Message> = Vec::new();
    if !w.probe() {
        msgs.push(Message::ShowError(err_conn()));
        msgs.push(stop_message(mode));
        proof {
            let vs = seq![MsgV::Error(msg_conn()), stop_msg(mode)];
            assert(msgs@.len() == 2);
            assert(msg_matches(msgs@[0], vs[0]));
            assert(msg_matches(msgs@[1], vs[1]));
        }
        return msgs;
    }
    let meta = load_meta(w);
    let ghost meta_map = meta@;
    let ghost st0 = FoldState { w: w@, msgs: Seq::empty(), outcomes: Seq::empty() };
    let ghost mut msv: Seq<MsgV> = Seq::empty();
    let mut outcomes: Vec<SyncState> = Vec::new();
    let n = pairs.len();
    let mut i: usize = 0;
    proof {
        assert(prs.skip(0) =~= prs);
    }
    while i < n
        invariant
            i <= n,
            n == prs.len(),
            prs == pairs_view(pairs@),
            w.wf(),
            meta.wf(),
            meta@ == meta_map,
            entries_time_wf(meta.seq_view()),
            outcomes@.len() == i,
            msgs_match(msgs@, msv),
            pairs_fold(st0, meta_map, mode, prs) == pairs_fold(
                FoldState { w: w@, msgs: msv, outcomes: outcomes@ },
                meta_map,
                mode,
                prs.skip(i as int),
            ),
        decreases n - i,
    {
        let ghost cur = FoldState { w: w@, msgs: msv, outcomes: outcomes@ };
        proof {
            assert(prs[i as int] == (pairs@[i as int].0@, pairs@[i as int].1@));
            assert(prs.skip(i as int).first() == prs[i as int]);
            assert(prs.skip(i as int).drop_first() =~= prs.skip(i as int + 1));
        }
        let pair = &pairs[i];
        let (outcome, diag) = sync_pair(w, &meta, mode, &pair.0, &pair.1);
        let ghost step = pair_spec(cur.w, meta_map, mode, prs[i as int].0, prs[i as int].1);
        let ghost ms0 = msgs@;
        msgs.push(Message::UpdatePairSyncState(pair.0.clone(), outcome));
        proof {
            lemma_msgs_match_push(ms0, msv, msgs@.last(), MsgV::Update(prs[i as int].0, outcome));
            msv = msv.push(MsgV::Update(prs[i as int].0, outcome));
            assert(msgs_match(msgs@, msv));
        }
        match diag {
            Some(d) => {
                let ghost t = step.diag->Some_0;
                let ghost ms1 = msgs@;
                msgs.push(Message::ShowError(d));
                proof {
                    lemma_msgs_match_push(ms1, msv, msgs@.last(), MsgV::Error(t));
                    msv = msv.push(MsgV::Error(t));
                }
            },
            None => {},
        }
        outcomes.push(outcome);
        proof {
            assert(msv =~= cur.msgs + pair_msgs(prs[i as int].0, step.outcome, step.diag));
            assert(outcomes@ =~= cur.outcomes.push(step.outcome));
            assert(pairs_fold(cur, meta_map, mode, prs.skip(i as int)) == pairs_fold(
                FoldState { w: w@, msgs: msv, outcomes: outcomes@ },
                meta_map,
                mode,
                prs.skip(i as int + 1),
            ));
        }
        i += 1;
    }
    let ghost st = pairs_fold(st0, meta_map, mode, prs);
    proof {
        assert(prs.skip(n as int) =~= Seq::<(Seq<char>, Seq<char>)>::empty());
        assert(st == FoldState { w: w@, msgs: msv, outcomes: outcomes@ });
    }
    match mode {
        SyncMode::ReportOnly => {
            let ghost ms0 = msgs@;
            msgs.push(Message::StopSynchronizeCheck);
            proof {
                lemma_msgs_match_push(ms0, msv, msgs@.last(), MsgV::StopCheck);
                assert(msv.push(MsgV::StopCheck) =~= st.msgs + seq![MsgV::StopCheck]);
                lemma_fold_report_only(st0, meta_map, prs);
                assert(run_post(old(w)@, mode, pairs_view(pairs@), w@, msgs@));
            }
            msgs
        },
        SyncMode::Mutate => {
            let ghost wv = w@;
            let mut store = meta;
            let mut j: usize = 0;
            proof {
                assert(prs.skip(0) =~= prs);
                assert(outcomes@.skip(0) =~= outcomes@);
            }
            while j < n
                invariant
                    j <= n,
                    n == prs.len(),
                    prs == pairs_view(pairs@),
                    outcomes@.len() == n,
                    w.wf(),
                    w@ == wv,
                    store.wf(),
                    entries_time_wf(store.seq_view()),
                    refresh_map_spec(meta_map, wv, prs, outcomes@) == refresh_map_spec(
                        store@,
                        wv,
                        prs.skip(j as int),
                        outcomes@.skip(j as int),
                    ),
                decreases n - j,
            {
                proof {
                    assert(prs[j as int] == (pairs@[j as int].0@, pairs@[j as int].1@));
                    assert(prs.skip(j as int).first() == prs[j as int]);
                    assert(prs.skip(j as int).drop_first() =~= prs.skip(j as int + 1));
                    assert(outcomes@.skip(j as int).first() == outcomes@[j as int]);
                    assert(outcomes@.skip(j as int).drop_first() =~= outcomes@.skip(j as int + 1));
                }
                let pair = &pairs[j];
                if outcomes[j] == SyncState::Synchronized {
                    match w.stat_local(&pair.0) {
                        Some(t) => {
                            let ghost s0 = store.seq_view();
                            store.insert(pair.1.clone(), t);
                            proof {
                                lemma_entries_time_wf_step(
                                    s0,
                                    store.seq_view(),
                                    (prs[j as int].1, t),
                                );
                            }
                        },
                        None => {},
                    }
                }
                j += 1;
            }
            proof {
                assert(prs.skip(n as int) =~= Seq::<(Seq<char>, Seq<char>)>::empty());
                assert(store@ =~= refresh_map_spec(meta_map, wv, prs, outcomes@));
            }
            let blob = encode_store(&store);
            let mp = metadata_path();
            let ok = w.put_raw(&mp, blob);
            let ghost m2 = refresh_map_spec(meta_map, wv, prs, outcomes@);
            proof {
                crate::codec::lemma_decode_encode(store.seq_view());
                assert(blob_for(encode_blob(store.seq_view()), m2));
            }
            if !ok {
                let ghost ms0 = msgs@;
                msgs.push(Message::ShowError(err_meta_fail()));
                proof {
                    lemma_msgs_match_push(ms0, msv, msgs@.last(), MsgV::Error(msg_meta_fail()));
                    msv = msv.push(MsgV::Error(msg_meta_fail()));
                }
            }
            let ghost ms1 = msgs@;
            msgs.push(Message::StopSynchronize);
            proof {
                lemma_msgs_match_push(ms1, msv, msgs@.last(), MsgV::Stop);
                msv = msv.push(MsgV::Stop);
                if ok {
                    assert(msv =~= st.msgs + seq![MsgV::Stop]);
                    assert(w@ == put_meta_world(st.w, encode_blob(store.seq_view())));
                } else {
                    assert(msv =~= st.msgs + seq![MsgV::Error(msg_meta_fail()), MsgV::Stop]);
                }
                let stx = pairs_fold(
                    FoldState { w: old(w)@, msgs: Seq::empty(), outcomes: Seq::empty() },
                    meta_map,
                    mode,
                    prs,
                );
                assert(stx == st);
                let m2x = refresh_map_spec(meta_map, stx.w, prs, stx.outcomes);
                assert(m2x == m2);
                if ok {
                    assert(blob_for(encode_blob(store.seq_view()), m2x));
                    assert(exists|b: Seq<u8>|
                        w@ == put_meta_world(stx.w, b) && #[trigger] blob_for(b, m2x));
                    assert(msgs_match(msgs@, stx.msgs + seq![MsgV::Stop]));
                } else {
                    assert(msgs_match(
                        msgs@,
                        stx.msgs + seq![MsgV::Error(msg_meta_fail()), MsgV::Stop],
                    ));
                }
                assert(run_post(old(w)@, mode, pairs_view(pairs@), w@, msgs@));
            }
            msgs
        },
    }
}

/// Load the history store: fetch the blob and parse it, with every failure
/// meaning "no history".
fn load_meta(w: &ModelWorld) -> (store: MetaStore)
    requires
        w.wf(),
    ensures
        store.wf(),
        entries_time_wf(store.seq_view()),
        store@ =~= load_meta_spec(w@),
{
    let mp = metadata_path();
    if w.fail_remote.contains(&mp) {
        return KvMap::new();
    }
    match w.read_remote(&mp) {
        None => KvMap::new(),
        Some(bytes) => match decode_store(&bytes) {
            Some(store) => store,
            None => KvMap::new(),
        },
    }
}

} // verus!
