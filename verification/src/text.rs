//! Byte-level helpers shared by the protocol modules: whitespace-tolerant
//! keyword matching for heartbeat frames and exact byte-sequence equality.

use vstd::prelude::*;

verus! {

/// The ASCII whitespace bytes that are tolerated at the edges of a frame.
pub open spec fn is_ascii_ws(b: u8) -> bool {
    b == 32 || b == 9 || b == 10 || b == 13 || b == 11 || b == 12
}

/// A frame carries the keyword `kw` when its bytes, after any leading
/// ASCII whitespace, begin with `kw`.
pub open spec fn frame_has_keyword(s: Seq<u8>, kw: Seq<u8>) -> bool {
    exists|w: int|
        0 <= w && w + kw.len() <= s.len() && (forall|j: int| 0 <= j < w ==> is_ascii_ws(s[j]))
            && #[trigger] s.subrange(w, w + kw.len() as int) == kw
}

/// If `i` is the first non-whitespace position of `s` (or its length), any
/// keyword whose first byte is not whitespace can only start at `i`.
proof fn lemma_keyword_witness_is_first(s: Seq<u8>, kw: Seq<u8>, i: int)
    requires
        kw.len() >= 1,
        !is_ascii_ws(kw[0]),
        0 <= i <= s.len(),
        forall|j: int| 0 <= j < i ==> is_ascii_ws(s[j]),
        i == s.len() || !is_ascii_ws(s[i]),
    ensures
        frame_has_keyword(s, kw) ==> i + kw.len() <= s.len() && s.subrange(
            i,
            i + kw.len() as int,
        ) == kw,
{
    if frame_has_keyword(s, kw) {
        let w = choose|w: int|
            0 <= w && w + kw.len() <= s.len() && (forall|j: int|
                0 <= j < w ==> is_ascii_ws(s[j])) && #[trigger] s.subrange(w, w + kw.len() as int)
                == kw;
        assert(s.subrange(w, w + kw.len() as int)[0] == s[w]);
        assert(!is_ascii_ws(s[w]));
        assert(w >= i);
        assert(w < s.len());
        assert(w <= i) by {
            if w > i {
                assert(is_ascii_ws(s[i]));
            }
        }
        assert(w == i);
    }
}

/// Whether `b` is one of the whitespace bytes stripped at a frame's edges.
pub fn ascii_ws(b: u8) -> (r: bool)
    ensures
        r == is_ascii_ws(b),
{
    b == 32 || b == 9 || b == 10 || b == 13 || b == 11 || b == 12
}

/// Whether the frame `s` begins, after leading ASCII whitespace, with the
/// keyword `kw`.
pub fn frame_begins_with(s: &[u8], kw: &[u8]) -> (r: bool)
    requires
        kw@.len() >= 1,
        !is_ascii_ws(kw@[0]),
    ensures
        r == frame_has_keyword(s@, kw@),
{
    let mut i: usize = 0;
    while i < s.len() && ascii_ws(s[i])
        invariant
            0 <= i <= s@.len(),
            forall|j: int| 0 <= j < i ==> is_ascii_ws(s@[j]),
        decreases s@.len() - i,
    {
        i = i + 1;
    }
    proof {
        lemma_keyword_witness_is_first(s@, kw@, i as int);
    }
    if s.len() - i < kw.len() {
        return false;
    }
    let mut j: usize = 0;
    while j < kw.len()
        invariant
            0 <= j <= kw@.len(),
            0 <= i,
            i + kw@.len() <= s@.len(),
            s@.len() <= usize::MAX,
            forall|k: int| 0 <= k < i ==> is_ascii_ws(s@[k]),
            frame_has_keyword(s@, kw@) ==> s@.subrange(i as int, i + kw@.len() as int) == kw@,
            forall|k: int| 0 <= k < j ==> s@[i + k] == kw@[k],
        decreases kw@.len() - j,
    {
        if s[i + j] != kw[j] {
            proof {
                assert(s@.subrange(i as int, i + kw@.len() as int)[j as int] == s@[i + j]);
            }
            return false;
        }
        j = j + 1;
    }
    proof {
        assert(s@.subrange(i as int, i + kw@.len() as int) =~= kw@);
    }
    true
}

/// Whether two byte strings hold the same bytes.
pub fn bytes_eq(a: &[u8], b: &[u8]) -> (r: bool)
    ensures
        r == (a@ == b@),
{
    if a.len() != b.len() {
        proof {
            assert(a@ != b@);
        }
        return false;
    }
    let mut i: usize = 0;
    while i < a.len()
        invariant
            0 <= i <= a@.len(),
            a@.len() == b@.len(),
            forall|j: int| 0 <= j < i ==> a@[j] == b@[j],
        decreases a@.len() - i,
    {
        if a[i] != b[i] {
            return false;
        }
        i = i + 1;
    }
    proof {
        assert(a@ =~= b@);
    }
    true
}

} // verus!
