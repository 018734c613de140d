//! Resolving a peer-supplied relative path to a safe absolute path.
//!
//! A relative path is accepted only when it is valid UTF-8, non-empty, not
//! absolute, and its `..` and `.` segments never take the resolved form out
//! of the base directory; the accepted path is joined under the base with a
//! single separator.

use vstd::prelude::*;
use vstd::utf8::valid_utf8;
use crate::bytescan::first_at;
use crate::bytescan::lemma_first_at;
use crate::bytescan::lemma_first_at_append;
use crate::bytescan::append_bytes;
use crate::codec::bytes_are_valid_utf8;
use crate::errors::Error;

verus! {

/// The path separator: the byte of `/`.
pub const SLASH: u8 = 47;

/// The byte of `.`, forming the `.` and `..` segments.
pub const DOT: u8 = 46;

/// The segments of `s`, split on every separator byte. A path with no
/// separator is one segment; each separator ends one segment, so adjacent
/// or trailing separators yield empty segments.
pub open spec fn split_slash(s: Seq<u8>) -> Seq<Seq<u8>>
    decreases s.len(),
    via split_slash_decreases
{
    let p = first_at(s, SLASH);
    if p == s.len() {
        seq![s]
    } else {
        seq![s.subrange(0, p)] + split_slash(s.subrange(p + 1, s.len() as int))
    }
}

#[via_fn]
proof fn split_slash_decreases(s: Seq<u8>) {
    lemma_first_at(s, SLASH);
}

/// A separator-free sequence is a single segment.
pub proof fn lemma_split_slash_single(s: Seq<u8>)
    requires
        !s.contains(SLASH),
    ensures
        split_slash(s) == seq![s],
{
    lemma_first_at(s, SLASH);
    if first_at(s, SLASH) < s.len() {
        assert(s.contains(SLASH));
    }
}

/// Splitting peels off a separator-free head at the first separator.
pub proof fn lemma_split_slash_step(head: Seq<u8>, tail: Seq<u8>)
    requires
        !head.contains(SLASH),
    ensures
        split_slash(head + seq![SLASH] + tail) == seq![head] + split_slash(tail),
{
    let s = head + seq![SLASH] + tail;
    assert(s =~= head + (seq![SLASH] + tail));
    lemma_first_at_append(head, SLASH, seq![SLASH] + tail);
    let p = first_at(s, SLASH);
    assert(p == head.len());
    assert(s.subrange(0, p) =~= head);
    assert(s.subrange(p + 1, s.len() as int) =~= tail);
    assert(split_slash(s) =~= seq![head] + split_slash(tail));
}

/// How one segment moves the resolved form relative to the base
/// directory: `..` ascends one level, `.` and an empty segment stay in
/// place, any other segment descends one level.
pub open spec fn seg_delta(seg: Seq<u8>) -> int {
    if seg == seq![DOT, DOT] {
        -1
    } else if seg.len() == 0 || seg == seq![DOT] {
        0
    } else {
        1
    }
}

/// Depth of the resolved form below the base directory after the first
/// `i` segments.
pub open spec fn prefix_depth(segs: Seq<Seq<u8>>, i: int) -> int
    decreases i,
{
    if i <= 0 {
        0
    } else {
        prefix_depth(segs, i - 1) + seg_delta(segs[i - 1])
    }
}

/// The traversal guard: the path is non-empty and not absolute, its
/// resolved form never climbs above the base directory at any prefix, and
/// it ends strictly below the base, so it names something inside it.
pub open spec fn traversal_guard_ok(rel: Seq<u8>) -> bool {
    let segs = split_slash(rel);
    &&& rel.len() > 0
    &&& rel[0] != SLASH
    &&& forall|i: int| 0 <= i <= segs.len() ==> prefix_depth(segs, i) >= 0
    &&& prefix_depth(segs, segs.len() as int) >= 1
}

/// A relative path the resolver accepts: valid UTF-8 text that stays
/// inside the base directory.
pub open spec fn resolvable(rel: Seq<u8>) -> bool {
    valid_utf8(rel) && traversal_guard_ok(rel)
}

/// The absolute path a request resolves to: the base directory, one
/// separator, the relative path as given.
pub open spec fn joined(base: Seq<u8>, rel: Seq<u8>) -> Seq<u8> {
    base + seq![SLASH] + rel
}

/// Split `s` into its segments.
pub fn split_segments(s: &[u8]) -> (segs: Vec<Vec<u8>>)
    ensures
        segs@.len() == split_slash(s@).len(),
        forall|i: int| 0 <= i < segs@.len() ==> #[trigger] segs@[i]@ == split_slash(s@)[i],
{
    let ghost whole: Seq<Seq<u8>> = split_slash(s@);
    let ghost mut done: Seq<Seq<u8>> = Seq::empty();
    let mut segs: Vec<Vec<u8>> = Vec::new();
    let n = s.len();
    proof {
        assert(s@.subrange(0, n as int) =~= s@);
        assert(done + split_slash(s@) =~= split_slash(s@));
    }
    let mut start: usize = 0;
    let mut i: usize = 0;
    while i < n
        invariant
            start <= i <= n,
            n == s@.len(),
            whole == split_slash(s@),
            !s@.subrange(start as int, i as int).contains(SLASH),
            whole == done + split_slash(s@.subrange(start as int, n as int)),
            done.len() == segs@.len(),
            forall|j: int| 0 <= j < done.len() ==> #[trigger] segs@[j]@ == done[j],
        decreases n - i,
    {
        if s[i] == SLASH {
            let seg = vstd::slice::slice_to_vec(vstd::slice::slice_subrange(s, start, i));
            segs.push(seg);
            proof {
                let head = s@.subrange(start as int, i as int);
                let tail = s@.subrange(i as int + 1, n as int);
                assert(s@.subrange(start as int, n as int) =~= head + seq![SLASH] + tail);
                lemma_split_slash_step(head, tail);
                done = done.push(head);
                assert(whole =~= done + split_slash(tail));
                assert(s@.subrange(i as int + 1, i as int + 1) =~= Seq::<u8>::empty());
            }
            start = i + 1;
        } else {
            proof {
                let ext = s@.subrange(start as int, i as int + 1);
                assert(ext =~= s@.subrange(start as int, i as int).push(s@[i as int]));
                if ext.contains(SLASH) {
                    let k = choose|k: int| 0 <= k < ext.len() && ext[k] == SLASH;
                    if k < ext.len() - 1 {
                        assert(s@.subrange(start as int, i as int)[k] == SLASH);
                        assert(s@.subrange(start as int, i as int).contains(SLASH));
                    }
                }
            }
        }
        i = i + 1;
    }
    let seg = vstd::slice::slice_to_vec(vstd::slice::slice_subrange(s, start, n));
    segs.push(seg);
    proof {
        let last = s@.subrange(start as int, n as int);
        lemma_split_slash_single(last);
        done = done.push(last);
        assert(whole =~= done);
    }
    segs
}

/// Compute the depth change of one segment.
pub fn segment_delta(seg: &[u8]) -> (d: i8)
    ensures
        d as int == seg_delta(seg@),
{
    if seg.len() == 2 && seg[0] == DOT && seg[1] == DOT {
        proof {
            assert(seg@ =~= seq![DOT, DOT]);
        }
        -1
    } else if seg.len() == 0 {
        proof {
            assert(seg@ != seq![DOT, DOT]);
        }
        0
    } else if seg.len() == 1 && seg[0] == DOT {
        proof {
            assert(seg@ =~= seq![DOT]);
            assert(seg@ != seq![DOT, DOT]);
        }
        0
    } else {
        proof {
            if seg@ == seq![DOT, DOT] {
                assert(seg@.len() == 2 && seg@[0] == DOT && seg@[1] == DOT);
            }
            if seg@ == seq![DOT] {
                assert(seg@.len() == 1 && seg@[0] == DOT);
            }
        }
        1
    }
}

/// Check the traversal guard on a relative path.
pub fn check_traversal_guard(rel: &[u8]) -> (ok: bool)
    ensures
        ok == traversal_guard_ok(rel@),
{
    let ghost segs_spec: Seq<Seq<u8>> = split_slash(rel@);
    if rel.len() == 0 {
        return false;
    }
    if rel[0] == SLASH {
        return false;
    }
    let segs = split_segments(rel);
    let n = segs.len();
    let mut depth: usize = 0;
    let mut i: usize = 0;
    while i < n
        invariant
            i <= n,
            n == segs@.len(),
            n == segs_spec.len(),
            segs_spec == split_slash(rel@),
            forall|j: int| 0 <= j < n ==> #[trigger] segs@[j]@ == segs_spec[j],
            depth as int == prefix_depth(segs_spec, i as int),
            depth <= i,
            forall|j: int| 0 <= j <= i ==> prefix_depth(segs_spec, j) >= 0,
        decreases n - i,
    {
        let d = segment_delta(segs[i].as_slice());
        proof {
            assert(prefix_depth(segs_spec, i as int + 1) == prefix_depth(segs_spec, i as int)
                + seg_delta(segs_spec[i as int]));
        }
        if d < 0 {
            if depth == 0 {
                proof {
                    assert(prefix_depth(segs_spec, i as int + 1) == -1);
                }
                return false;
            }
            depth = depth - 1;
        } else if d > 0 {
            depth = depth + 1;
        }
        i = i + 1;
    }
    depth >= 1
}

/// Resolve a peer-supplied relative path against the base directory.
///
/// Returns the absolute path to write, or `InvalidPath` when the path is
/// not valid UTF-8 or fails the traversal guard — exactly when it is not
/// resolvable. No other error is possible and nothing touches the disk
/// here; creating the parent directories is the caller's step.
pub fn resolve(base_dir: &[u8], relative_path: &[u8]) -> (r: Result<Vec<u8>, Error>)
    ensures
        match r {
            Ok(p) => resolvable(relative_path@) && p@ == joined(base_dir@, relative_path@),
            Err(e) => e == Error::InvalidPath && !resolvable(relative_path@),
        },
{
    if !bytes_are_valid_utf8(relative_path) {
        return Err(Error::InvalidPath);
    }
    if !check_traversal_guard(relative_path) {
        return Err(Error::InvalidPath);
    }
    let mut p: Vec<u8> = Vec::new();
    append_bytes(&mut p, base_dir);
    p.push(SLASH);
    append_bytes(&mut p, relative_path);
    proof {
        assert(p@ =~= base_dir@ + seq![SLASH] + relative_path@);
    }
    Ok(p)
}

} // verus!
