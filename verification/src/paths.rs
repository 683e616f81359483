//! Remote path handling: the chain of parent directories an upload must
//! create.
//!
//! Before a remote object is written, every directory on the way to it has
//! to exist. The chain for `/a/b/c.txt` is `/a/`, `/a/b/`: each non-empty
//! `/`-separated component of the path's parent, cumulatively from the root
//! downward, each ending in `/`. Repeated separators collapse, a path
//! without a parent has an empty chain, and the chain is rooted at `/`
//! whether or not the path itself starts there.

use vstd::prelude::*;
use vstd::string::*;

verus! {

/// The non-empty `/`-separated components of `s`, after `cur`, an already
/// read part of the first one.
pub open spec fn split_ne(s: Seq<char>, cur: Seq<char>) -> Seq<Seq<char>>
    decreases s.len(),
{
    if s.len() == 0 {
        if cur.len() > 0 {
            seq![cur]
        } else {
            Seq::empty()
        }
    } else if s.first() == '/' {
        (if cur.len() > 0 {
            seq![cur]
        } else {
            Seq::empty()
        }) + split_ne(s.drop_first(), Seq::empty())
    } else {
        split_ne(s.drop_first(), cur.push(s.first()))
    }
}

/// The non-empty `/`-separated components of `s`.
pub open spec fn components(s: Seq<char>) -> Seq<Seq<char>> {
    split_ne(s, Seq::empty())
}

/// Length of the part of `s` before its last separator: the parent region.
/// A path without a separator has an empty parent region.
pub open spec fn parent_len(s: Seq<char>) -> int
    decreases s.len(),
{
    if s.len() == 0 {
        0
    } else if s.last() == '/' {
        s.len() - 1
    } else {
        parent_len(s.drop_last())
    }
}

/// The cumulative directory paths for the given components, each extending
/// `prefix` and ending in `/`.
pub open spec fn chain_from(parts: Seq<Seq<char>>, prefix: Seq<char>) -> Seq<Seq<char>>
    decreases parts.len(),
{
    if parts.len() == 0 {
        Seq::empty()
    } else {
        let p = prefix + parts.first() + seq!['/'];
        seq![p] + chain_from(parts.drop_first(), p)
    }
}

/// The directories to create, root downward, before writing the object at
/// `s`.
pub open spec fn dir_chain_spec(s: Seq<char>) -> Seq<Seq<char>> {
    chain_from(components(s.take(parent_len(s))), seq!['/'])
}

/// Length of the parent region of a path: everything before its last
/// separator.
fn parent_region_len(path: &str) -> (plen: usize)
    ensures
        plen as int == parent_len(path@),
        plen <= path@.len(),
{
    let ghost s = path@;
    let n = path.unicode_len();
    proof {
        assert(s.take(n as int) =~= s);
    }
    let mut i: usize = n;
    while i > 0
        invariant
            s == path@,
            i <= n,
            n == s.len(),
            parent_len(s) == parent_len(s.take(i as int)),
        decreases i,
    {
        proof {
            assert(s.take(i as int).last() == s[i as int - 1]);
            assert(s.take(i as int).drop_last() =~= s.take(i as int - 1));
        }
        if path.get_char(i - 1) == '/' {
            return i - 1;
        }
        i -= 1;
    }
    proof {
        assert(s.take(0).len() == 0);
    }
    0
}

/// The parent directory of a path, as a string: the part before the last
/// separator, `/` itself for an entry directly under the root, and empty
/// for a path with no separator at all.
pub open spec fn parent_str(s: Seq<char>) -> Seq<char> {
    if parent_len(s) > 0 {
        s.take(parent_len(s))
    } else if s.len() > 0 && s.first() == '/' {
        seq!['/']
    } else {
        Seq::empty()
    }
}

/// Compute the parent directory of a path.
pub fn parent_of(path: &str) -> (r: String)
    ensures
        r@ == parent_str(path@),
{
    let plen = parent_region_len(path);
    if plen > 0 {
        let r = path.substring_char(0, plen).to_owned();
        proof {
            assert(r@ =~= path@.take(plen as int));
        }
        r
    } else if path.unicode_len() > 0 && path.get_char(0) == '/' {
        let r = String::from_str("/");
        proof {
            reveal_strlit("/");
            assert(r@ =~= seq!['/']);
        }
        r
    } else {
        let r = String::new();
        proof {
            assert(r@ =~= Seq::<char>::empty());
        }
        r
    }
}

/// Compute the directory chain of a remote path.
pub fn dir_chain(path: &str) -> (r: Vec<String>)
    ensures
        r.deep_view() == dir_chain_spec(path@),
{
    let ghost s = path@;
    let n = path.unicode_len();
    let plen = parent_region_len(path);
    let ghost region = s.take(plen as int);

    // Collect the non-empty components of the parent region.
    let mut segs: Vec<String> = Vec::new();
    let mut seg_start: usize = 0;
    let mut j: usize = 0;
    proof {
        assert(region.skip(0) =~= region);
        assert(region.subrange(0, 0) =~= Seq::<char>::empty());
    }
    while j < plen
        invariant
            s == path@,
            seg_start <= j <= plen,
            plen as int == parent_len(s),
            region == s.take(plen as int),
            n == s.len(),
            plen <= n,
            components(region) == segs.deep_view() + split_ne(
                region.skip(j as int),
                region.subrange(seg_start as int, j as int),
            ),
        decreases plen - j,
    {
        let ghost cur = region.subrange(seg_start as int, j as int);
        proof {
            assert(region.skip(j as int).first() == region[j as int]);
            assert(region.skip(j as int).drop_first() =~= region.skip(j as int + 1));
        }
        if path.get_char(j) == '/' {
            if j > seg_start {
                let seg = path.substring_char(seg_start, j).to_owned();
                let ghost segs0 = segs.deep_view();
                segs.push(seg);
                proof {
                    assert(cur =~= s.subrange(seg_start as int, j as int));
                    assert(seg@ =~= cur);
                    assert(segs.deep_view() =~= segs0.push(cur));
                    assert(segs0.push(cur) + split_ne(region.skip(j as int + 1), Seq::empty())
                        =~= segs0 + (seq![cur] + split_ne(region.skip(j as int + 1), Seq::empty())));
                }
            }
            seg_start = j + 1;
            proof {
                assert(region.subrange(seg_start as int, j as int + 1) =~= Seq::<char>::empty());
            }
        } else {
            proof {
                assert(region.subrange(seg_start as int, j as int + 1) =~= cur.push(
                    region[j as int],
                ));
            }
        }
        j += 1;
    }
    if plen > seg_start {
        let seg = path.substring_char(seg_start, plen).to_owned();
        let ghost segs0 = segs.deep_view();
        let ghost cur = region.subrange(seg_start as int, plen as int);
        segs.push(seg);
        proof {
            assert(region.skip(plen as int).len() == 0);
            assert(cur =~= s.subrange(seg_start as int, plen as int));
            assert(seg@ =~= cur);
            assert(segs.deep_view() =~= segs0.push(cur));
            assert(segs0.push(cur) =~= segs0 + seq![cur]);
        }
    } else {
        proof {
            assert(region.skip(plen as int).len() == 0);
            assert(region.subrange(seg_start as int, plen as int).len() == 0);
            assert(segs.deep_view() + Seq::<Seq<char>>::empty() =~= segs.deep_view());
        }
    }
    proof {
        assert(components(region) == segs.deep_view());
    }

    // Build the cumulative chain.
    let ghost parts = segs.deep_view();
    let mut out: Vec<String> = Vec::new();
    let mut prefix = String::from_str("/");
    proof {
        reveal_strlit("/");
        assert(prefix@ =~= seq!['/']);
        assert(parts.skip(0) =~= parts);
    }
    let m = segs.len();
    let mut k: usize = 0;
    while k < m
        invariant
            s == path@,
            k <= m,
            m == parts.len(),
            parts == segs.deep_view(),
            dir_chain_spec(s) == out.deep_view() + chain_from(parts.skip(k as int), prefix@),
        decreases m - k,
    {
        proof {
            reveal_strlit("/");
            assert(parts.skip(k as int).first() == parts[k as int]);
            assert(parts.skip(k as int).drop_first() =~= parts.skip(k as int + 1));
        }
        let mut p = prefix.clone();
        p.append(segs[k].as_str());
        p.append("/");
        let ghost out0 = out.deep_view();
        let ghost pview = prefix@ + parts[k as int] + seq!['/'];
        out.push(p.clone());
        prefix = p;
        proof {
            assert(prefix@ =~= pview);
            assert(out.deep_view() =~= out0.push(pview));
            assert(out0.push(pview) + chain_from(parts.skip(k as int + 1), pview) =~= out0 + (seq![
                pview,
            ] + chain_from(parts.skip(k as int + 1), pview)));
        }
        k += 1;
    }
    proof {
        assert(chain_from(parts.skip(m as int), prefix@) =~= Seq::<Seq<char>>::empty());
        assert(out.deep_view() =~= dir_chain_spec(s));
    }
    out
}

} // verus!
