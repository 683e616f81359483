//! The on-the-wire form of the metadata store.
//!
//! The store is shipped to and from its well-known remote location as one
//! self-contained binary blob. The format is the library's own: an entry
//! count, then per entry the path's byte length, the path in UTF-8, the
//! seconds of the recorded time (shifted into an unsigned word), and the
//! nanoseconds. A run must read back exactly what it wrote, and that round
//! trip is proved here; a blob that does not parse, ends in trailing bytes,
//! carries an out-of-range nanosecond field, or repeats a path is rejected
//! whole (the caller then treats it as "no history").

use vstd::prelude::*;
use vstd::bytes::*;
use vstd::slice::{slice_subrange, slice_to_vec};
use vstd::utf8::*;
use crate::strmap::{KvMap, distinct_keys};
use crate::time::{Timestamp, NANOS_PER_SEC};

verus! {

/// The metadata store: remote path -> time the path was last confirmed
/// synchronized.
pub type MetaStore = KvMap<Timestamp>;

/// Offset that shifts a signed seconds value into an unsigned word.
pub const SECS_SHIFT: u64 = 0x8000_0000_0000_0000;

/// The unsigned word that stands for a seconds value in the blob.
pub open spec fn secs_word(secs: i64) -> u64 {
    (secs + SECS_SHIFT) as u64
}

/// Every recorded time has its nanosecond field in range.
pub open spec fn entries_time_wf(s: Seq<(Seq<char>, Timestamp)>) -> bool {
    forall|i: int| 0 <= i < s.len() ==> (#[trigger] s[i]).1.wf()
}

/// The sizes that one serialized table can hold: the count and each path
/// length must fit the 8-byte fields. Tables built at run time always
/// satisfy this.
pub open spec fn entries_len_wf(s: Seq<(Seq<char>, Timestamp)>) -> bool {
    &&& s.len() < 0x1_0000_0000_0000_0000
    &&& forall|i: int|
        0 <= i < s.len() ==> encode_utf8((#[trigger] s[i]).0).len() < 0x1_0000_0000_0000_0000
}

/// One serialized entry: path length, path bytes, seconds word, nanoseconds.
pub open spec fn encode_entry(e: (Seq<char>, Timestamp)) -> Seq<u8> {
    spec_u64_to_le_bytes(encode_utf8(e.0).len() as u64) + encode_utf8(e.0) + spec_u64_to_le_bytes(
        secs_word(e.1.secs),
    ) + spec_u32_to_le_bytes(e.1.nanos)
}

/// The entries serialized one after the other, in table order.
pub open spec fn encode_entries(s: Seq<(Seq<char>, Timestamp)>) -> Seq<u8>
    decreases s.len(),
{
    if s.len() == 0 {
        Seq::empty()
    } else {
        encode_entry(s.first()) + encode_entries(s.drop_first())
    }
}

/// The whole blob: entry count, then the entries.
pub open spec fn encode_blob(s: Seq<(Seq<char>, Timestamp)>) -> Seq<u8> {
    spec_u64_to_le_bytes(s.len() as u64) + encode_entries(s)
}

/// Parse exactly `n` entries from `bytes`, rejecting trailing bytes, bad
/// UTF-8 and out-of-range nanoseconds.
pub open spec fn decode_entries(bytes: Seq<u8>, n: nat) -> Option<
    Seq<(Seq<char>, Timestamp)>,
>
    decreases n,
{
    if n == 0 {
        if bytes.len() == 0 {
            Some(Seq::empty())
        } else {
            None
        }
    } else if bytes.len() < 8 {
        None
    } else {
        let plen = spec_u64_from_le_bytes(bytes.take(8)) as int;
        if bytes.len() < 20 + plen {
            None
        } else {
            let pbytes = bytes.subrange(8, 8 + plen);
            if !valid_utf8(pbytes) {
                None
            } else {
                let path = decode_utf8(pbytes);
                let secs = (spec_u64_from_le_bytes(
                    bytes.subrange(8 + plen, 16 + plen),
                ) - SECS_SHIFT) as i64;
                let nanos = spec_u32_from_le_bytes(bytes.subrange(16 + plen, 20 + plen));
                if nanos >= NANOS_PER_SEC {
                    None
                } else {
                    match decode_entries(bytes.skip(20 + plen), (n - 1) as nat) {
                        None => None,
                        Some(rest) => Some(
                            seq![(path, Timestamp { secs, nanos })] + rest,
                        ),
                    }
                }
            }
        }
    }
}

/// Parse a whole blob.
pub open spec fn decode_blob(bytes: Seq<u8>) -> Option<Seq<(Seq<char>, Timestamp)>> {
    if bytes.len() < 8 {
        None
    } else {
        decode_entries(bytes.skip(8), spec_u64_from_le_bytes(bytes.take(8)) as nat)
    }
}

/// Decoding undoes encoding: any well-formed table read back from its own
/// blob is recovered exactly, entry for entry and in order.
pub proof fn lemma_decode_encode(s: Seq<(Seq<char>, Timestamp)>)
    requires
        entries_time_wf(s),
        entries_len_wf(s),
    ensures
        decode_blob(encode_blob(s)) == Some(s),
{
    lemma_auto_spec_u64_to_from_le_bytes();
    let blob = encode_blob(s);
    assert(blob.take(8) =~= spec_u64_to_le_bytes(s.len() as u64));
    assert(blob.skip(8) =~= encode_entries(s));
    lemma_decode_encode_entries(s);
}

proof fn lemma_decode_encode_entries(s: Seq<(Seq<char>, Timestamp)>)
    requires
        entries_time_wf(s),
        entries_len_wf(s),
    ensures
        decode_entries(encode_entries(s), s.len()) == Some(s),
    decreases s.len(),
{
    lemma_auto_spec_u64_to_from_le_bytes();
    lemma_auto_spec_u32_to_from_le_bytes();
    if s.len() == 0 {
    } else {
        broadcast use encode_utf8_valid_utf8, encode_utf8_decode_utf8;

        let e = s.first();
        let pb = encode_utf8(e.0);
        let plen = pb.len() as int;
        let head = encode_entry(e);
        let bytes = encode_entries(s);
        assert(bytes =~= head + encode_entries(s.drop_first()));
        assert(bytes.len() >= head.len());
        assert(head.len() == 20 + plen);
        assert(bytes.take(8) =~= spec_u64_to_le_bytes(pb.len() as u64));
        assert(spec_u64_from_le_bytes(bytes.take(8)) == plen);
        assert(bytes.subrange(8, 8 + plen) =~= pb);
        assert(bytes.subrange(8 + plen, 16 + plen) =~= spec_u64_to_le_bytes(secs_word(e.1.secs)));
        assert(bytes.subrange(16 + plen, 20 + plen) =~= spec_u32_to_le_bytes(e.1.nanos));
        assert((secs_word(e.1.secs) - SECS_SHIFT) as i64 == e.1.secs);
        assert(bytes.skip(20 + plen) =~= encode_entries(s.drop_first()));
        lemma_decode_encode_entries(s.drop_first());
        assert(decode_entries(bytes, s.len()) == Some(seq![(e.0, e.1)] + s.drop_first()));
        assert(seq![(e.0, e.1)] + s.drop_first() =~= s);
    }
}

/// Relies on `String::from_utf8`: it accepts exactly the byte strings that
/// are valid UTF-8, and returns the characters they encode.
#[verifier::external_body]
fn string_from_utf8(bytes: Vec<u8>) -> (r: Option<String>)
    ensures
        match r {
            Some(s) => valid_utf8(bytes@) && s@ == decode_utf8(bytes@),
            None => !valid_utf8(bytes@),
        },
{
    String::from_utf8(bytes).ok()
}

/// Serialize a table into one blob.
pub fn encode_store(store: &MetaStore) -> (r: Vec<u8>)
    requires
        store.wf(),
        entries_time_wf(store.seq_view()),
    ensures
        r@ == encode_blob(store.seq_view()),
        entries_len_wf(store.seq_view()),
{
    let ghost s = store.seq_view();
    let n = store.len();
    let mut out: Vec<u8> = u64_to_le_bytes(n as u64);
    proof {
        assert(s.skip(0) =~= s);
    }
    let mut i: usize = 0;
    while i < n
        invariant
            n == s.len(),
            i <= n,
            store.wf(),
            s == store.seq_view(),
            entries_time_wf(s),
            out@ + encode_entries(s.skip(i as int)) == encode_blob(s),
            forall|j: int| 0 <= j < i ==> encode_utf8((#[trigger] s[j]).0).len() <= usize::MAX,
        decreases n - i,
    {
        let (path, ts) = store.entry_at(i);
        let mut pbytes = path.as_str().as_bytes_vec();
        let ghost out0 = out@;
        let plen = pbytes.len();
        let mut lenb = u64_to_le_bytes(plen as u64);
        let mut secb = u64_to_le_bytes(secs_to_word(ts.secs));
        let mut nanb = u32_to_le_bytes(ts.nanos);
        out.append(&mut lenb);
        out.append(&mut pbytes);
        out.append(&mut secb);
        out.append(&mut nanb);
        proof {
            let e = s[i as int];
            assert(encode_utf8(e.0).len() == plen);
            assert(out@ =~= out0 + encode_entry(e));
            assert(s.skip(i as int).first() == e);
            assert(s.skip(i as int).drop_first() =~= s.skip(i as int + 1));
            assert(encode_entries(s.skip(i as int)) == encode_entry(e) + encode_entries(
                s.skip(i as int + 1),
            ));
            assert(out@ + encode_entries(s.skip(i as int + 1)) =~= out0 + encode_entries(
                s.skip(i as int),
            ));
        }
        i += 1;
    }
    proof {
        assert(s.skip(n as int) =~= Seq::<(Seq<char>, Timestamp)>::empty());
        assert(out@ =~= encode_blob(s));
    }
    out
}

/// A partial parse glued back together: the entries already taken, then the
/// rest, unless the rest fails.
pub open spec fn glue(
    acc: Seq<(Seq<char>, Timestamp)>,
    rest: Option<Seq<(Seq<char>, Timestamp)>>,
) -> Option<Seq<(Seq<char>, Timestamp)>> {
    match rest {
        None => None,
        Some(r) => Some(acc + r),
    }
}

/// Parse a blob back into a table.
///
/// Exactly the blobs that `decode_blob` accepts and whose entries carry
/// pairwise distinct paths come back as a table; everything else is
/// rejected.
pub fn decode_store(bytes: &Vec<u8>) -> (r: Option<MetaStore>)
    ensures
        match r {
            Some(m) => {
                &&& m.wf()
                &&& entries_time_wf(m.seq_view())
                &&& decode_blob(bytes@) == Some(m.seq_view())
            },
            None => decode_blob(bytes@) is None || !distinct_keys(decode_blob(bytes@)->Some_0),
        },
{
    let len = bytes.len();
    if len < 8 {
        return None;
    }
    let slice = bytes.as_slice();
    let n64 = u64_from_le_bytes(slice_subrange(slice, 0, 8));
    proof {
        assert(bytes@.take(8) =~= bytes@.subrange(0, 8));
    }
    let mut pos: usize = 8;
    let mut store: MetaStore = KvMap::new();
    let mut k: u64 = 0;
    proof {
        assert(glue(store.seq_view(), decode_entries(bytes@.skip(8), n64 as nat)) == decode_blob(
            bytes@,
        ));
    }
    while k < n64
        invariant
            8 <= pos <= len,
            len == bytes@.len(),
            k <= n64,
            slice@ == bytes@,
            store.wf(),
            entries_time_wf(store.seq_view()),
            decode_blob(bytes@) == glue(
                store.seq_view(),
                decode_entries(bytes@.skip(pos as int), (n64 - k) as nat),
            ),
        decreases n64 - k,
    {
        let ghost tail = bytes@.skip(pos as int);
        let ghost c = (n64 - k) as nat;
        let rem = len - pos;
        if rem < 8 {
            return None;
        }
        let plen64 = u64_from_le_bytes(slice_subrange(slice, pos, pos + 8));
        proof {
            assert(tail.take(8) =~= bytes@.subrange(pos as int, pos as int + 8));
        }
        if rem < 20 || ((rem - 20) as u64) < plen64 {
            proof {
                assert(tail.len() < 20 + plen64);
            }
            return None;
        }
        let plen = plen64 as usize;
        let ghost pb = tail.subrange(8, 8 + plen64 as int);
        let pvec = slice_to_vec(slice_subrange(slice, pos + 8, pos + 8 + plen));
        proof {
            assert(pvec@ =~= pb);
        }
        let path = match string_from_utf8(pvec) {
            None => {
                return None;
            },
            Some(p) => p,
        };
        let secw = u64_from_le_bytes(slice_subrange(slice, pos + 8 + plen, pos + 16 + plen));
        let secs = word_to_secs(secw);
        let nanos = u32_from_le_bytes(slice_subrange(slice, pos + 16 + plen, pos + 20 + plen));
        proof {
            assert(tail.subrange(8 + plen64 as int, 16 + plen64 as int) =~= bytes@.subrange(
                pos as int + 8 + plen64 as int,
                pos as int + 16 + plen64 as int,
            ));
            assert(tail.subrange(16 + plen64 as int, 20 + plen64 as int) =~= bytes@.subrange(
                pos as int + 16 + plen64 as int,
                pos as int + 20 + plen64 as int,
            ));
        }
        if nanos >= NANOS_PER_SEC {
            return None;
        }
        let ghost e = (path@, Timestamp { secs, nanos });
        let ghost sv = store.seq_view();
        let ghost rest1 = decode_entries(bytes@.skip(pos as int + 20 + plen64 as int), (c - 1) as nat);
        proof {
            assert(tail.skip(20 + plen64 as int) =~= bytes@.skip(pos as int + 20 + plen64 as int));
            assert((secw - SECS_SHIFT) as i64 == secs);
            assert(decode_entries(tail, c) == glue(seq![e], rest1));
        }
        let dup = store.get(&path).is_some();
        if dup {
            proof {
                crate::strmap::lemma_map_of_dom(sv, path@);
                let i = choose|i: int| 0 <= i < sv.len() && sv[i].0 == path@;
                if rest1 is Some {
                    let full = sv + (seq![e] + rest1->Some_0);
                    assert(full[i].0 == path@);
                    assert(full[sv.len() as int].0 == path@);
                    assert(!distinct_keys(full));
                }
            }
            return None;
        }
        proof {
            crate::strmap::lemma_map_of_dom(sv, path@);
        }
        store.insert(path, Timestamp::new(secs, nanos));
        proof {
            assert(store.seq_view() =~= sv.push(e));
            if rest1 is Some {
                assert(sv + (seq![e] + rest1->Some_0) =~= sv.push(e) + rest1->Some_0);
            }
            assert(glue(sv, decode_entries(tail, c)) == glue(store.seq_view(), rest1));
            assert(forall|i: int|
                0 <= i < store.seq_view().len() ==> (#[trigger] store.seq_view()[i]).1.wf());
        }
        pos = pos + 20 + plen;
        k = k + 1;
    }
    if pos != len {
        proof {
            assert(bytes@.skip(pos as int).len() > 0);
        }
        return None;
    }
    proof {
        assert(bytes@.skip(pos as int).len() == 0);
        assert(store.seq_view() + Seq::<(Seq<char>, Timestamp)>::empty() =~= store.seq_view());
    }
    Some(store)
}

/// Shift seconds into the unsigned word stored in the blob.
fn secs_to_word(secs: i64) -> (r: u64)
    ensures
        r == secs_word(secs),
{
    (((secs as i128) + (SECS_SHIFT as i128)) as u64)
}

/// Undo `secs_to_word`.
fn word_to_secs(w: u64) -> (r: i64)
    ensures
        r as int == w - SECS_SHIFT,
{
    (((w as i128) - (SECS_SHIFT as i128)) as i64)
}

} // verus!
