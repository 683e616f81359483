//! The laws of the engine: what holds of classification, of transfers, and
//! of whole runs, stated once and proved from the contracts of the other
//! modules.

use vstd::prelude::*;
use crate::classify::{classify_spec, Classification};
use crate::codec::decode_blob;
use crate::engine::{
    load_meta_spec, meta_path, msgs_match, pair_obs_spec, pair_spec, pairs_fold, put_meta_world,
    recorded_spec, refresh_map_spec, blob_for, run_post, FoldState, MsgV,
};
use crate::paths::parent_str;
use crate::policy::SyncMode;
use crate::state::{Message, SyncState};
use crate::strmap::{distinct_keys, map_of};
use crate::time::Timestamp;
use crate::world::{after_mkcol, after_mkcol_chain, upload_ok, WorldView};

verus! {

// ---------------------------------------------------------------------------
// Frame facts: what one pair, and a whole walk over the pairs, can touch.
// ---------------------------------------------------------------------------

/// Creating directories changes nothing but the set of remote directories.
pub proof fn lemma_mkcol_chain_frame(w: WorldView, chain: Seq<Seq<char>>)
    ensures
        after_mkcol_chain(w, chain).local_files == w.local_files,
        after_mkcol_chain(w, chain).remote_files == w.remote_files,
        after_mkcol_chain(w, chain).local_dirs == w.local_dirs,
        after_mkcol_chain(w, chain).fail_remote == w.fail_remote,
        after_mkcol_chain(w, chain).reachable == w.reachable,
        after_mkcol_chain(w, chain).clock == w.clock,
    decreases chain.len(),
{
    if chain.len() > 0 {
        lemma_mkcol_chain_frame(after_mkcol(w, chain.first()), chain.drop_first());
    }
}

/// One pair never unmakes a file, never touches local directories, the
/// failure oracle, reachability or the clock, and a pair that ends
/// `Synchronized` under `Mutate` leaves both of its sides existing.
pub proof fn lemma_pair_step_basic(
    w: WorldView,
    meta: Map<Seq<char>, Timestamp>,
    mode: SyncMode,
    l: Seq<char>,
    r: Seq<char>,
)
    ensures
        ({
            let step = pair_spec(w, meta, mode, l, r);
            &&& step.w.local_dirs == w.local_dirs
            &&& step.w.fail_remote == w.fail_remote
            &&& step.w.reachable == w.reachable
            &&& step.w.clock == w.clock
            &&& forall|p: Seq<char>|
                w.local_files.contains_key(p) ==> step.w.local_files.contains_key(p)
            &&& forall|p: Seq<char>|
                w.remote_files.contains_key(p) ==> step.w.remote_files.contains_key(p)
            &&& (mode is Mutate && step.outcome == SyncState::Synchronized
                ==> step.w.local_files.contains_key(l) && step.w.remote_files.contains_key(r))
        }),
{
    lemma_mkcol_chain_frame(w, crate::paths::dir_chain_spec(r));
}

/// What a walk over the pairs keeps: the failure oracle, the directories,
/// the clock; files only appear, never vanish; outcomes already recorded
/// stay; and a pair that ended `Synchronized` under `Mutate` has both sides
/// existing in the final world.
pub proof fn lemma_fold_basic(
    st: FoldState,
    meta: Map<Seq<char>, Timestamp>,
    mode: SyncMode,
    prs: Seq<(Seq<char>, Seq<char>)>,
)
    ensures
        ({
            let res = pairs_fold(st, meta, mode, prs);
            &&& res.w.local_dirs == st.w.local_dirs
            &&& res.w.fail_remote == st.w.fail_remote
            &&& res.w.reachable == st.w.reachable
            &&& res.w.clock == st.w.clock
            &&& forall|p: Seq<char>|
                st.w.local_files.contains_key(p) ==> res.w.local_files.contains_key(p)
            &&& forall|p: Seq<char>|
                st.w.remote_files.contains_key(p) ==> res.w.remote_files.contains_key(p)
            &&& res.outcomes.len() == st.outcomes.len() + prs.len()
            &&& forall|i: int| 0 <= i < st.outcomes.len() ==> res.outcomes[i] == st.outcomes[i]
            &&& (mode is Mutate ==> forall|i: int|
                0 <= i < prs.len() && res.outcomes[st.outcomes.len() + i]
                    == SyncState::Synchronized ==> res.w.local_files.contains_key(
                    (#[trigger] prs[i]).0,
                ) && res.w.remote_files.contains_key(prs[i].1))
        }),
    decreases prs.len(),
{
    if prs.len() > 0 {
        let l = prs.first().0;
        let r = prs.first().1;
        let step = pair_spec(st.w, meta, mode, l, r);
        lemma_pair_step_basic(st.w, meta, mode, l, r);
        let st1 = FoldState {
            w: step.w,
            msgs: st.msgs + crate::engine::pair_msgs(l, step.outcome, step.diag),
            outcomes: st.outcomes.push(step.outcome),
        };
        lemma_fold_basic(st1, meta, mode, prs.drop_first());
        let res = pairs_fold(st, meta, mode, prs);
        assert(res == pairs_fold(st1, meta, mode, prs.drop_first()));
        assert forall|i: int|
            mode is Mutate && 0 <= i < prs.len() && res.outcomes[st.outcomes.len() + i]
                == SyncState::Synchronized implies res.w.local_files.contains_key(
            (#[trigger] prs[i]).0,
        ) && res.w.remote_files.contains_key(prs[i].1) by {
            if i == 0 {
                assert(res.outcomes[st.outcomes.len() as int] == st1.outcomes[st.outcomes.len() as int]);
            } else {
                assert(prs.drop_first()[i - 1] == prs[i]);
            }
        }
    }
}

// ---------------------------------------------------------------------------
// Classification laws.
// ---------------------------------------------------------------------------

/// A pair whose local time equals its reference time — the recorded one
/// when there is history, the live remote one otherwise — is `InSync`, and
/// both modes report it `Synchronized` without touching anything.
pub proof fn lemma_equal_reference_in_sync(
    w: WorldView,
    meta: Map<Seq<char>, Timestamp>,
    mode: SyncMode,
    l: Seq<char>,
    r: Seq<char>,
)
    requires
        w.local_files.contains_key(l),
        w.remote_files.contains_key(r),
        meta.contains_key(r) ==> meta[r] == w.local_files[l].1,
        !meta.contains_key(r) ==> !w.fail_remote.contains(r) && w.remote_files[r].1
            == w.local_files[l].1,
    ensures
        classify_spec(pair_obs_spec(w, meta, l, r), recorded_spec(meta, r)) == Some(
            Classification::InSync,
        ),
        pair_spec(w, meta, mode, l, r).outcome == SyncState::Synchronized,
        pair_spec(w, meta, mode, l, r).w == w,
        pair_spec(w, meta, mode, l, r).diag is None,
{
}

/// When the store holds a time for the remote path, classification goes by
/// it alone: the remote object's live time plays no part.
pub proof fn lemma_recorded_takes_precedence(
    w: WorldView,
    meta: Map<Seq<char>, Timestamp>,
    l: Seq<char>,
    r: Seq<char>,
)
    requires
        meta.contains_key(r),
        w.local_files.contains_key(l),
        w.remote_files.contains_key(r),
    ensures
        ({
            let lt = w.local_files[l].1;
            let t = meta[r];
            classify_spec(pair_obs_spec(w, meta, l, r), recorded_spec(meta, r)) == Some(
                if t.spec_lt(lt) {
                    Classification::LocalNewer
                } else if lt.spec_lt(t) {
                    Classification::RemoteNewer
                } else {
                    Classification::InSync
                },
            )
        }),
{
}

// ---------------------------------------------------------------------------
// Transfer laws.
// ---------------------------------------------------------------------------

/// A pair classified `LocalNewer` under `Mutate`, whose upload goes
/// through, ends `Synchronized` with the remote object holding exactly the
/// local file's content.
pub proof fn lemma_local_newer_uploads(
    w: WorldView,
    meta: Map<Seq<char>, Timestamp>,
    l: Seq<char>,
    r: Seq<char>,
)
    requires
        classify_spec(pair_obs_spec(w, meta, l, r), recorded_spec(meta, r)) == Some(
            Classification::LocalNewer,
        ),
        upload_ok(w, l, r),
    ensures
        ({
            let step = pair_spec(w, meta, SyncMode::Mutate, l, r);
            &&& step.outcome == SyncState::Synchronized
            &&& step.w.local_files == w.local_files
            &&& step.w.remote_files.contains_key(r)
            &&& step.w.remote_files[r].0 == step.w.local_files[l].0
        }),
{
    lemma_mkcol_chain_frame(w, crate::paths::dir_chain_spec(r));
}

/// A pair classified `RemoteNewer` under `Mutate`, whose download goes
/// through, ends `Synchronized` with the local file holding exactly the
/// remote object's content.
pub proof fn lemma_remote_newer_downloads(
    w: WorldView,
    meta: Map<Seq<char>, Timestamp>,
    l: Seq<char>,
    r: Seq<char>,
)
    requires
        classify_spec(pair_obs_spec(w, meta, l, r), recorded_spec(meta, r)) == Some(
            Classification::RemoteNewer,
        ),
        !w.fail_remote.contains(r),
    ensures
        ({
            let step = pair_spec(w, meta, SyncMode::Mutate, l, r);
            &&& step.outcome == SyncState::Synchronized
            &&& step.w.remote_files == w.remote_files
            &&& step.w.local_files.contains_key(l)
            &&& step.w.local_files[l].0 == step.w.remote_files[r].0
        }),
{
}

// ---------------------------------------------------------------------------
// Metadata laws.
// ---------------------------------------------------------------------------

/// A key no pair owns is exactly as the loaded history had it: the
/// refresh step neither adds nor changes it.
pub proof fn lemma_refresh_untouched(
    m: Map<Seq<char>, Timestamp>,
    w: WorldView,
    prs: Seq<(Seq<char>, Seq<char>)>,
    outs: Seq<SyncState>,
    k: Seq<char>,
)
    requires
        outs.len() == prs.len(),
        forall|i: int| 0 <= i < prs.len() ==> (#[trigger] prs[i]).1 != k,
    ensures
        refresh_map_spec(m, w, prs, outs).contains_key(k) <==> m.contains_key(k),
        m.contains_key(k) ==> refresh_map_spec(m, w, prs, outs)[k] == m[k],
    decreases prs.len(),
{
    if prs.len() > 0 {
        let l = prs.first().0;
        let r = prs.first().1;
        let m1 = if outs.first() == SyncState::Synchronized && w.local_files.contains_key(l) {
            m.insert(r, w.local_files[l].1)
        } else {
            m
        };
        assert(forall|j: int|
            0 <= j < prs.drop_first().len() ==> (#[trigger] prs.drop_first()[j]) == prs[j + 1]);
        lemma_refresh_untouched(m1, w, prs.drop_first(), outs.drop_first(), k);
    }
}

/// The refreshed store holds, for every pair that ended `Synchronized`,
/// exactly the current local time of that pair.
pub proof fn lemma_refresh_values(
    m: Map<Seq<char>, Timestamp>,
    w: WorldView,
    prs: Seq<(Seq<char>, Seq<char>)>,
    outs: Seq<SyncState>,
)
    requires
        outs.len() == prs.len(),
        forall|i: int, j: int| 0 <= i < j < prs.len() ==> prs[i].1 != prs[j].1,
    ensures
        ({
            let m2 = refresh_map_spec(m, w, prs, outs);
            forall|i: int|
                0 <= i < prs.len() && outs[i] == SyncState::Synchronized
                    && w.local_files.contains_key((#[trigger] prs[i]).0) ==> m2.contains_key(
                    prs[i].1,
                ) && m2[prs[i].1] == w.local_files[prs[i].0].1
        }),
    decreases prs.len(),
{
    if prs.len() > 0 {
        let l = prs.first().0;
        let r = prs.first().1;
        let m1 = if outs.first() == SyncState::Synchronized && w.local_files.contains_key(l) {
            m.insert(r, w.local_files[l].1)
        } else {
            m
        };
        lemma_refresh_values(m1, w, prs.drop_first(), outs.drop_first());
        let m2 = refresh_map_spec(m, w, prs, outs);
        assert(m2 == refresh_map_spec(m1, w, prs.drop_first(), outs.drop_first()));
        assert(forall|j: int|
            0 <= j < prs.drop_first().len() ==> (#[trigger] prs.drop_first()[j]) == prs[j + 1]);
        assert(forall|j: int|
            0 <= j < outs.drop_first().len() ==> (#[trigger] outs.drop_first()[j]) == outs[j + 1]);
        assert forall|i: int|
            0 <= i < prs.len() && outs[i] == SyncState::Synchronized && w.local_files.contains_key(
                (#[trigger] prs[i]).0,
            ) implies m2.contains_key(prs[i].1) && m2[prs[i].1] == w.local_files[prs[i].0].1 by {
            if i == 0 {
                assert(forall|j: int|
                    0 <= j < prs.drop_first().len() ==> (#[trigger] prs.drop_first()[j]).1 != r);
                lemma_refresh_untouched(m1, w, prs.drop_first(), outs.drop_first(), r);
                assert(m1.contains_key(r) && m1[r] == w.local_files[l].1);
            } else {
                assert(prs.drop_first()[i - 1] == prs[i]);
                assert(outs.drop_first()[i - 1] == outs[i]);
            }
        }
    }
}

/// Reading back the blob a run just wrote yields exactly the store the run
/// recorded: the write and the following run's read round-trip.
pub proof fn lemma_meta_round_trip(w: WorldView, b: Seq<u8>, m: Map<Seq<char>, Timestamp>)
    requires
        blob_for(b, m),
        !w.fail_remote.contains(meta_path()),
    ensures
        load_meta_spec(put_meta_world(w, b)) =~= m,
{
    let es = choose|es: Seq<(Seq<char>, Timestamp)>|
        decode_blob(b) == Some(es) && #[trigger] distinct_keys(es) && map_of(es) =~= m;
    let w2 = put_meta_world(w, b);
    assert(w2.remote_files[meta_path()].0 == b);
}

// ---------------------------------------------------------------------------
// Idempotence.
// ---------------------------------------------------------------------------

/// The pair phase of a `Mutate` run starting from `w0`.
pub open spec fn mutate_pair_phase(w0: WorldView, prs: Seq<(Seq<char>, Seq<char>)>) -> FoldState {
    pairs_fold(
        FoldState { w: w0, msgs: Seq::empty(), outcomes: Seq::empty() },
        load_meta_spec(w0),
        SyncMode::Mutate,
        prs,
    )
}

/// The store that `Mutate` run writes back.
pub open spec fn mutate_store(w0: WorldView, prs: Seq<(Seq<char>, Seq<char>)>) -> Map<
    Seq<char>,
    Timestamp,
> {
    refresh_map_spec(
        load_meta_spec(w0),
        mutate_pair_phase(w0, prs).w,
        prs,
        mutate_pair_phase(w0, prs).outcomes,
    )
}

/// A walk over pairs that all stand recorded at exactly their current local
/// time touches nothing and reports every pair `Synchronized`.
pub proof fn lemma_fold_all_in_sync(
    st: FoldState,
    meta: Map<Seq<char>, Timestamp>,
    mode: SyncMode,
    prs: Seq<(Seq<char>, Seq<char>)>,
)
    requires
        forall|i: int|
            0 <= i < prs.len() ==> {
                let l = (#[trigger] prs[i]).0;
                let r = prs[i].1;
                &&& st.w.local_files.contains_key(l)
                &&& st.w.remote_files.contains_key(r)
                &&& meta.contains_key(r)
                &&& meta[r] == st.w.local_files[l].1
            },
    ensures
        ({
            let res = pairs_fold(st, meta, mode, prs);
            &&& res.w == st.w
            &&& res.outcomes.len() == st.outcomes.len() + prs.len()
            &&& forall|i: int|
                0 <= i < prs.len() ==> #[trigger] res.outcomes[st.outcomes.len() + i]
                    == SyncState::Synchronized
        }),
    decreases prs.len(),
{
    if prs.len() > 0 {
        let l = prs.first().0;
        let r = prs.first().1;
        lemma_equal_reference_in_sync(st.w, meta, mode, l, r);
        let step = pair_spec(st.w, meta, mode, l, r);
        let st1 = FoldState {
            w: step.w,
            msgs: st.msgs + crate::engine::pair_msgs(l, step.outcome, step.diag),
            outcomes: st.outcomes.push(step.outcome),
        };
        assert(forall|i: int|
            0 <= i < prs.drop_first().len() ==> (#[trigger] prs.drop_first()[i]) == prs[i + 1]);
        lemma_fold_all_in_sync(st1, meta, mode, prs.drop_first());
        lemma_fold_basic(st1, meta, mode, prs.drop_first());
        let res = pairs_fold(st, meta, mode, prs);
        assert(res == pairs_fold(st1, meta, mode, prs.drop_first()));
        assert forall|i: int|
            0 <= i < prs.len() implies #[trigger] res.outcomes[st.outcomes.len() + i]
            == SyncState::Synchronized by {
            if i > 0 {
                assert(res.outcomes[st1.outcomes.len() + (i - 1)] == SyncState::Synchronized);
            } else {
                assert(res.outcomes[st.outcomes.len() as int] == st1.outcomes[st.outcomes.len() as int]);
            }
        }
    }
}

/// Idempotence: after a `Mutate` run in which every pair ended
/// `Synchronized` and whose refreshed store was written back, a second
/// `Mutate` run with no intervening changes classifies every pair `InSync`,
/// reports it `Synchronized`, and transfers nothing.
pub proof fn lemma_mutate_idempotent(
    w0: WorldView,
    prs: Seq<(Seq<char>, Seq<char>)>,
    b: Seq<u8>,
)
    requires
        !w0.fail_remote.contains(meta_path()),
        forall|i: int, j: int| 0 <= i < j < prs.len() ==> prs[i].1 != prs[j].1,
        forall|i: int|
            0 <= i < prs.len() ==> mutate_pair_phase(w0, prs).outcomes[i]
                == SyncState::Synchronized,
        blob_for(b, mutate_store(w0, prs)),
    ensures
        ({
            let w2 = put_meta_world(mutate_pair_phase(w0, prs).w, b);
            let st2 = pairs_fold(
                FoldState { w: w2, msgs: Seq::empty(), outcomes: Seq::empty() },
                load_meta_spec(w2),
                SyncMode::Mutate,
                prs,
            );
            &&& st2.w == w2
            &&& st2.outcomes.len() == prs.len()
            &&& forall|i: int| 0 <= i < prs.len() ==> st2.outcomes[i] == SyncState::Synchronized
        }),
{
    let meta0 = load_meta_spec(w0);
    let st0 = FoldState { w: w0, msgs: Seq::empty(), outcomes: Seq::empty() };
    let st1 = mutate_pair_phase(w0, prs);
    let m2 = mutate_store(w0, prs);
    let w2 = put_meta_world(st1.w, b);

    lemma_fold_basic(st0, meta0, SyncMode::Mutate, prs);
    assert(!st1.w.fail_remote.contains(meta_path()));
    lemma_meta_round_trip(st1.w, b, m2);
    let meta2 = load_meta_spec(w2);
    lemma_refresh_values(meta0, st1.w, prs, st1.outcomes);

    assert forall|i: int| 0 <= i < prs.len() implies {
        let l = (#[trigger] prs[i]).0;
        let r = prs[i].1;
        &&& w2.local_files.contains_key(l)
        &&& w2.remote_files.contains_key(r)
        &&& meta2.contains_key(r)
        &&& meta2[r] == w2.local_files[l].1
    } by {
        assert(st1.w.local_files.contains_key(prs[i].0));
        assert(st1.w.remote_files.contains_key(prs[i].1));
        assert(m2.contains_key(prs[i].1) && m2[prs[i].1] == st1.w.local_files[prs[i].0].1);
    }
    let stw2 = FoldState { w: w2, msgs: Seq::empty(), outcomes: Seq::empty() };
    lemma_fold_all_in_sync(stw2, meta2, SyncMode::Mutate, prs);
    let st2 = pairs_fold(stw2, meta2, SyncMode::Mutate, prs);
    assert(st2.w == w2);
    assert(st2.outcomes.len() == prs.len());
    assert forall|i: int|
        0 <= i < prs.len() implies #[trigger] st2.outcomes[i] == SyncState::Synchronized by {
        assert(st2.outcomes[stw2.outcomes.len() + i] == SyncState::Synchronized);
    }
}

// ---------------------------------------------------------------------------
// The run-termination signal.
// ---------------------------------------------------------------------------

/// Whether an event is one of the two stop signals.
pub open spec fn is_stop_message(m: Message) -> bool {
    m is StopSynchronize || m is StopSynchronizeCheck
}

proof fn lemma_fold_msgs_no_stop(
    st: FoldState,
    meta: Map<Seq<char>, Timestamp>,
    mode: SyncMode,
    prs: Seq<(Seq<char>, Seq<char>)>,
)
    requires
        forall|i: int|
            0 <= i < st.msgs.len() ==> !((#[trigger] st.msgs[i]) is Stop || st.msgs[i] is StopCheck),
    ensures
        ({
            let res = pairs_fold(st, meta, mode, prs);
            &&& res.msgs.len() >= st.msgs.len()
            &&& forall|i: int|
                0 <= i < res.msgs.len() ==> !((#[trigger] res.msgs[i]) is Stop || res.msgs[i]
                    is StopCheck)
        }),
    decreases prs.len(),
{
    if prs.len() > 0 {
        let l = prs.first().0;
        let r = prs.first().1;
        let step = pair_spec(st.w, meta, mode, l, r);
        let pm = crate::engine::pair_msgs(l, step.outcome, step.diag);
        let st1 = FoldState {
            w: step.w,
            msgs: st.msgs + pm,
            outcomes: st.outcomes.push(step.outcome),
        };
        assert(forall|i: int|
            0 <= i < st1.msgs.len() ==> !((#[trigger] st1.msgs[i]) is Stop || st1.msgs[i]
                is StopCheck));
        lemma_fold_msgs_no_stop(st1, meta, mode, prs.drop_first());
    }
}

/// Whatever happens to the pairs, the run-termination signal fires exactly
/// once, as the last event of the run.
pub proof fn lemma_stop_fires_once(
    w0: WorldView,
    mode: SyncMode,
    prs: Seq<(Seq<char>, Seq<char>)>,
    w1: WorldView,
    msgs: Seq<Message>,
)
    requires
        run_post(w0, mode, prs, w1, msgs),
    ensures
        msgs.len() > 0,
        is_stop_message(msgs.last()),
        forall|i: int| 0 <= i < msgs.len() - 1 ==> !is_stop_message(#[trigger] msgs[i]),
{
    if !w0.reachable {
        assert(msgs.len() == 2);
        assert(!is_stop_message(msgs[0]));
    } else {
        let meta = load_meta_spec(w0);
        let st0 = FoldState { w: w0, msgs: Seq::empty(), outcomes: Seq::empty() };
        let st = pairs_fold(st0, meta, mode, prs);
        lemma_fold_msgs_no_stop(st0, meta, mode, prs);
        if mode is ReportOnly {
            let vs = st.msgs + seq![MsgV::StopCheck];
            assert(msgs_match(msgs, vs));
            assert(is_stop_message(msgs.last()));
            assert(forall|i: int|
                0 <= i < msgs.len() - 1 ==> !is_stop_message(#[trigger] msgs[i]));
        } else if st.w.fail_remote.contains(meta_path()) {
            let vs = st.msgs + seq![MsgV::Error(crate::engine::msg_meta_fail()), MsgV::Stop];
            assert(msgs_match(msgs, vs));
            assert(is_stop_message(msgs.last()));
            assert(forall|i: int|
                0 <= i < msgs.len() - 1 ==> !is_stop_message(#[trigger] msgs[i]));
        } else {
            let vs = st.msgs + seq![MsgV::Stop];
            assert(msgs_match(msgs, vs));
            assert(is_stop_message(msgs.last()));
            assert(forall|i: int|
                0 <= i < msgs.len() - 1 ==> !is_stop_message(#[trigger] msgs[i]));
        }
    }
}

/// The per-pair status events of an event stream, in order.
pub open spec fn updates(vs: Seq<MsgV>) -> Seq<(Seq<char>, SyncState)>
    decreases vs.len(),
{
    if vs.len() == 0 {
        Seq::empty()
    } else {
        updates(vs.drop_last()) + (match vs.last() {
            MsgV::Update(l, s) => seq![(l, s)],
            _ => Seq::empty(),
        })
    }
}

proof fn lemma_updates_concat(a: Seq<MsgV>, b: Seq<MsgV>)
    ensures
        updates(a + b) =~= updates(a) + updates(b),
    decreases b.len(),
{
    if b.len() == 0 {
        assert(a + b =~= a);
    } else {
        assert((a + b).drop_last() =~= a + b.drop_last());
        assert((a + b).last() == b.last());
        lemma_updates_concat(a, b.drop_last());
    }
}

/// Every pair gets exactly one status event, the events come in the order
/// the pairs were supplied, and each carries that pair's outcome.
pub proof fn lemma_one_status_per_pair(
    st: FoldState,
    meta: Map<Seq<char>, Timestamp>,
    mode: SyncMode,
    prs: Seq<(Seq<char>, Seq<char>)>,
)
    ensures
        ({
            let res = pairs_fold(st, meta, mode, prs);
            updates(res.msgs) =~= updates(st.msgs) + Seq::new(
                prs.len(),
                |i: int| (prs[i].0, res.outcomes[st.outcomes.len() + i]),
            )
        }),
    decreases prs.len(),
{
    let res = pairs_fold(st, meta, mode, prs);
    if prs.len() == 0 {
        assert(updates(st.msgs) + Seq::new(0, |i: int| (prs[i].0, res.outcomes[st.outcomes.len()
            + i])) =~= updates(st.msgs));
    } else {
        let l = prs.first().0;
        let step = pair_spec(st.w, meta, mode, l, prs.first().1);
        let pm = crate::engine::pair_msgs(l, step.outcome, step.diag);
        let st1 = FoldState {
            w: step.w,
            msgs: st.msgs + pm,
            outcomes: st.outcomes.push(step.outcome),
        };
        lemma_updates_concat(st.msgs, pm);
        let one = seq![MsgV::Update(l, step.outcome)];
        assert(updates(Seq::<MsgV>::empty()) =~= Seq::<(Seq<char>, SyncState)>::empty());
        assert(one.drop_last() =~= Seq::<MsgV>::empty());
        assert(one.last() == MsgV::Update(l, step.outcome));
        assert(updates(one) =~= seq![(l, step.outcome)]);
        match step.diag {
            Some(t) => {
                assert(pm.drop_last() =~= one);
                assert(pm.last() == MsgV::Error(t));
                assert(updates(pm) =~= seq![(l, step.outcome)]);
            },
            None => {
                assert(pm =~= one);
                assert(updates(pm) =~= seq![(l, step.outcome)]);
            },
        }
        lemma_one_status_per_pair(st1, meta, mode, prs.drop_first());
        lemma_fold_basic(st1, meta, mode, prs.drop_first());
        assert(res == pairs_fold(st1, meta, mode, prs.drop_first()));
        let tail = Seq::new(
            prs.drop_first().len(),
            |i: int| (prs.drop_first()[i].0, res.outcomes[st1.outcomes.len() + i]),
        );
        assert(updates(res.msgs) =~= updates(st1.msgs) + tail);
        assert(updates(st1.msgs) =~= updates(st.msgs) + seq![(l, step.outcome)]);
        let whole = Seq::new(
            prs.len(),
            |i: int| (prs[i].0, res.outcomes[st.outcomes.len() + i]),
        );
        assert(res.outcomes[st.outcomes.len() as int] == st1.outcomes[st.outcomes.len() as int]);
        assert(seq![(l, step.outcome)] + tail =~= whole) by {
            assert(forall|i: int|
                0 <= i < prs.drop_first().len() ==> (#[trigger] prs.drop_first()[i]) == prs[i
                    + 1]);
        }
        assert(updates(res.msgs) =~= updates(st.msgs) + whole);
    }
}

/// A `RemoteOnly` pair whose local parent directory does not exist is
/// `Unsynchronizable` under both modes, and nothing is created on either
/// side.
pub proof fn lemma_remote_only_no_parent(
    w: WorldView,
    meta: Map<Seq<char>, Timestamp>,
    mode: SyncMode,
    l: Seq<char>,
    r: Seq<char>,
)
    requires
        !w.local_files.contains_key(l),
        w.remote_files.contains_key(r),
        !w.local_dirs.contains(parent_str(l)),
    ensures
        pair_spec(w, meta, mode, l, r).outcome == SyncState::CantSynchronize,
        pair_spec(w, meta, mode, l, r).w == w,
{
}

} // verus!
