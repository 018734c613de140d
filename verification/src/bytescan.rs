//! Byte-sequence scanning shared by the wire codec and the path resolver.

use vstd::prelude::*;

verus! {

/// Index of the first occurrence of `x` in `s`, or `s.len()` when `s` does
/// not contain `x`.
pub open spec fn first_at(s: Seq<u8>, x: u8) -> int
    decreases s.len(),
{
    if s.len() == 0 {
        0
    } else if s[0] == x {
        0
    } else {
        1 + first_at(s.drop_first(), x)
    }
}

/// `first_at` is in bounds, points at `x` when `x` occurs, and nothing
/// before it is `x`.
pub proof fn lemma_first_at(s: Seq<u8>, x: u8)
    ensures
        0 <= first_at(s, x) <= s.len(),
        first_at(s, x) < s.len() ==> s[first_at(s, x)] == x,
        forall|k: int| 0 <= k < first_at(s, x) ==> s[k] != x,
        first_at(s, x) == s.len() ==> !s.contains(x),
    decreases s.len(),
{
    if s.len() == 0 {
    } else if s[0] == x {
    } else {
        lemma_first_at(s.drop_first(), x);
        let f = first_at(s, x);
        assert forall|k: int| 0 <= k < f implies s[k] != x by {
            if k > 0 {
                assert(s.drop_first()[k - 1] == s[k]);
            }
        }
        if f < s.len() {
            assert(s.drop_first()[f - 1] == s[f]);
        }
    }
    if first_at(s, x) == s.len() && s.contains(x) {
        let i = choose|i: int| 0 <= i < s.len() && s[i] == x;
        assert(s[i] != x);
    }
}

/// Appending after the first occurrence does not move it: in `head + tail`
/// where `head` is free of `x` and `tail` starts with `x`, the first
/// occurrence of `x` is exactly at `head.len()`.
pub proof fn lemma_first_at_append(head: Seq<u8>, x: u8, tail: Seq<u8>)
    requires
        !head.contains(x),
        tail.len() > 0,
        tail[0] == x,
    ensures
        first_at(head + tail, x) == head.len(),
    decreases head.len(),
{
    let s = head + tail;
    if head.len() == 0 {
        assert(s =~= tail);
    } else {
        if head[0] == x {
            assert(head.contains(x));
        }
        assert(s[0] == head[0]);
        if head.drop_first().contains(x) {
            let i = choose|i: int| 0 <= i < head.drop_first().len() && head.drop_first()[i] == x;
            assert(head[i + 1] == x);
            assert(head.contains(x));
        }
        lemma_first_at_append(head.drop_first(), x, tail);
        assert(s.drop_first() =~= head.drop_first() + tail);
    }
}

/// Find the first occurrence of `x` in `s`, returning `s.len()` when `s`
/// does not contain it.
pub fn find_byte(s: &[u8], x: u8) -> (p: usize)
    ensures
        p as int == first_at(s@, x),
{
    let n = s.len();
    let mut i: usize = 0;
    while i < n
        invariant
            i <= n,
            n == s@.len(),
            forall|k: int| 0 <= k < i ==> s@[k] != x,
        decreases n - i,
    {
        if s[i] == x {
            proof {
                lemma_first_at(s@, x);
            }
            return i;
        }
        i = i + 1;
    }
    proof {
        lemma_first_at(s@, x);
    }
    n
}

/// Append all of `src` to `dst`.
pub fn append_bytes(dst: &mut Vec<u8>, src: &[u8])
    ensures
        final(dst)@ == old(dst)@ + src@,
{
    let n = src.len();
    let mut i: usize = 0;
    while i < n
        invariant
            i <= n,
            n == src@.len(),
            dst@ == old(dst)@ + src@.subrange(0, i as int),
        decreases n - i,
    {
        dst.push(src[i]);
        proof {
            assert(old(dst)@ + src@.subrange(0, i + 1) =~= (old(dst)@ + src@.subrange(
                0,
                i as int,
            )).push(src@[i as int]));
        }
        i = i + 1;
    }
    proof {
        assert(src@.subrange(0, n as int) =~= src@);
    }
}

} // verus!
