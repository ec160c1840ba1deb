//! Scalar pattern scanning backend: the byte-by-byte reference
//! matcher every other tier is measured against.

use vstd::prelude::*;

use crate::pattern::Pattern;
use crate::ScanResult;

verus! {

/// Index actually probed when the scalar matcher wants target
/// position `k` in a region of `size` bytes: a position past the end
/// is clamped to the last in-bounds byte instead of being read out of
/// bounds, so tail-overflowing comparisons succeed only
/// coincidentally.
pub open spec fn clamped(size: int, k: int) -> int {
    if k < size {
        k
    } else {
        size - 1
    }
}

/// The scalar matcher accepts candidate offset `i` when every
/// mask-constrained pattern position agrees with the (clamped) target
/// byte; wildcard positions constrain nothing.
pub open spec fn scalar_match_at(
    data: Seq<u8>,
    mask: Seq<u8>,
    t: Seq<u8>,
    size: int,
    i: int,
) -> bool {
    forall|j: int|
        0 <= j < data.len() && mask[j] != 0u8 ==> t[clamped(size, i + j)] == #[trigger] data[j]
}

/// First offset at or after `i`, before `size`, that the scalar
/// matcher accepts.
pub open spec fn scalar_first(data: Seq<u8>, mask: Seq<u8>, t: Seq<u8>, size: int, i: int) -> Option<
    int,
>
    decreases size - i,
{
    if i < 0 || i >= size {
        None
    } else if scalar_match_at(data, mask, t, size, i) {
        Some(i)
    } else {
        scalar_first(data, mask, t, size, i + 1)
    }
}

/// `scalar_first` yields exactly the least accepted offset in
/// `[i, size)`, or nothing when no offset there is accepted.
pub proof fn lemma_scalar_first_spec(data: Seq<u8>, mask: Seq<u8>, t: Seq<u8>, size: int, i: int)
    requires
        0 <= i,
    ensures
        match scalar_first(data, mask, t, size, i) {
            Some(a) => i <= a < size && scalar_match_at(data, mask, t, size, a) && forall|k: int|
                i <= k < a ==> !scalar_match_at(data, mask, t, size, k),
            None => forall|k: int| i <= k < size ==> !scalar_match_at(data, mask, t, size, k),
        },
    decreases size - i,
{
    if i >= size {
    } else if scalar_match_at(data, mask, t, size, i) {
    } else {
        lemma_scalar_first_spec(data, mask, t, size, i + 1);
    }
}

/// Wildcard semantics: a pattern position with mask zero matches
/// every possible target byte value. Stated as independence — whether
/// the matcher accepts offset `i` depends only on target bytes probed
/// at mask-constrained positions, so two regions that differ
/// arbitrarily at wildcard positions are accepted alike.
pub proof fn lemma_wildcard_matches_any(
    data: Seq<u8>,
    mask: Seq<u8>,
    t1: Seq<u8>,
    t2: Seq<u8>,
    size: int,
    i: int,
)
    requires
        forall|j: int|
            0 <= j < data.len() && #[trigger] mask[j] != 0u8 ==> t1[clamped(size, i + j)]
                == t2[clamped(size, i + j)],
    ensures
        scalar_match_at(data, mask, t1, size, i) == scalar_match_at(data, mask, t2, size, i),
{
}

/// The first `u` bytes of `d` occur verbatim at offset `k` of `t`.
pub open spec fn substring_at(t: Seq<u8>, d: Seq<u8>, u: int, k: int) -> bool {
    forall|j: int| 0 <= j < u ==> t[k + j] == #[trigger] d[j]
}

/// A full-mask (literal) pattern is matched by the scalar matcher at
/// exactly the first offset where its unpadded bytes occur as a
/// contiguous substring of the target region.
pub proof fn lemma_literal_first_occurrence(
    d: Seq<u8>,
    m: Seq<u8>,
    u: int,
    t: Seq<u8>,
    size: int,
    i0: int,
)
    requires
        crate::pattern::pat_wf(d, m, u),
        forall|j: int| 0 <= j < u ==> #[trigger] m[j] == 0xffu8,
        1 <= size <= t.len(),
        0 <= i0,
        i0 + u <= size,
        substring_at(t, d, u, i0),
        forall|k: int| 0 <= k < i0 ==> !#[trigger] substring_at(t, d, u, k),
    ensures
        scalar_first(d, m, t, size, 0) == Some(i0),
{
    assert forall|j: int| 0 <= j < d.len() && #[trigger] m[j] != 0u8 implies t[clamped(size, i0 + j)]
        == d[j] by {
        assert(j < u);
        assert(clamped(size, i0 + j) == i0 + j);
    }
    assert(scalar_match_at(d, m, t, size, i0));
    assert forall|k: int| 0 <= k < i0 implies !scalar_match_at(d, m, t, size, k) by {
        assert(!substring_at(t, d, u, k));
        assert(exists|j: int| 0 <= j < u && t[k + j] != #[trigger] d[j]);
        let j = choose|j: int| 0 <= j < u && t[k + j] != #[trigger] d[j];
        assert(m[j] == 0xffu8);
        assert(k + j < i0 + u <= size);
        assert(clamped(size, k + j) == k + j);
        assert(!(t[clamped(size, k + j)] == d[j]));
    }
    lemma_scalar_first_spec(d, m, t, size, 0);
    match scalar_first(d, m, t, size, 0) {
        Some(a) => {
            if a < i0 {
                assert(!scalar_match_at(d, m, t, size, a));
            } else if a > i0 {
                assert(!scalar_match_at(d, m, t, size, i0));
            }
        },
        None => {
            assert(i0 < size);
            assert(!scalar_match_at(d, m, t, size, i0));
        },
    }
}

/// A pattern compiled from the literal byte string `b` is matched by
/// the scalar reference at exactly the first offset where `b` occurs
/// as a contiguous substring of the target region.
pub proof fn lemma_compiled_literal_first_occurrence(
    p: Pattern,
    b: Seq<u8>,
    t: Seq<u8>,
    size: int,
    i0: int,
)
    requires
        p.wf(),
        crate::pattern::compiled_literal(p, b),
        1 <= size <= t.len(),
        0 <= i0,
        i0 + b.len() <= size,
        substring_at(t, b, b.len() as int, i0),
        forall|k: int| 0 <= k < i0 ==> !#[trigger] substring_at(t, b, b.len() as int, k),
    ensures
        scalar_first(p.spec_data(), p.spec_mask(), t, size, 0) == Some(i0),
{
    let d = p.spec_data();
    let m = p.spec_mask();
    let u = p.spec_unpadded();
    assert(u == b.len());
    assert forall|j: int| 0 <= j < u implies #[trigger] m[j] == 0xffu8 by {
        assert(m[j] == Seq::new(b.len(), |i: int| 0xffu8)[j]);
    }
    assert forall|j: int| 0 <= j < u implies #[trigger] d[j] == b[j] by {
        assert(d[j] == (b + crate::pattern::zeros(crate::pattern::pad32(b.len() as int)
            - b.len()))[j]);
    }
    assert(substring_at(t, d, u, i0));
    assert forall|k: int| 0 <= k < i0 implies !#[trigger] substring_at(t, d, u, k) by {
        if substring_at(t, d, u, k) {
            assert forall|j: int| 0 <= j < u implies t[k + j] == #[trigger] b[j] by {
                assert(t[k + j] == d[j]);
            }
            assert(substring_at(t, b, b.len() as int, k));
        }
    }
    lemma_literal_first_occurrence(d, m, u, t, size, i0);
}

/// Find the first occurrence of a pattern in the target region using
/// scalar comparisons: for each candidate offset, every constrained
/// pattern position is compared against the clamped target byte.
pub fn find(pattern: &Pattern, binary: &[u8], binary_size: usize) -> (r: ScanResult)
    requires
        pattern.wf(),
        binary_size <= binary@.len(),
    ensures
        r.spec_offset() == scalar_first(
            pattern.spec_data(),
            pattern.spec_mask(),
            binary@,
            binary_size as int,
            0,
        ),
{
    let ghost d = pattern.spec_data();
    let ghost m = pattern.spec_mask();
    let ghost t = binary@;
    let ghost size = binary_size as int;
    let plen = pattern.len();
    let mut i: usize = 0;
    while i < binary_size
        invariant
            pattern.wf(),
            binary_size <= binary@.len(),
            d == pattern.spec_data(),
            m == pattern.spec_mask(),
            t == binary@,
            size == binary_size as int,
            plen == d.len(),
            i <= binary_size,
            scalar_first(d, m, t, size, 0) == scalar_first(d, m, t, size, i as int),
        decreases binary_size - i,
    {
        let mut found = true;
        let mut j: usize = 0;
        while j < plen && found
            invariant
                pattern.wf(),
                binary_size <= binary@.len(),
                d == pattern.spec_data(),
                m == pattern.spec_mask(),
                t == binary@,
                size == binary_size as int,
                plen == d.len(),
                i < binary_size,
                j <= plen,
                found ==> forall|jj: int|
                    0 <= jj < j && m[jj] != 0u8 ==> t[clamped(size, i + jj)] == #[trigger] d[jj],
                !found ==> !scalar_match_at(d, m, t, size, i as int),
            decreases plen - j,
        {
            if pattern.mask_at(j) != 0 {
                let idx = if binary_size - i <= j {
                    binary_size - 1
                } else {
                    i + j
                };
                proof {
                    assert(idx as int == clamped(size, i as int + j as int));
                }
                if binary[idx] != pattern.data_at(j) {
                    proof {
                        assert(t[clamped(size, i as int + j as int)] != d[j as int]);
                    }
                    found = false;
                }
            }
            j = j + 1;
        }
        if found {
            proof {
                assert(scalar_match_at(d, m, t, size, i as int));
                assert(scalar_first(d, m, t, size, i as int) == Some(i as int));
            }
            return ScanResult::found(i);
        }
        proof {
            assert(scalar_first(d, m, t, size, i as int) == scalar_first(d, m, t, size, i + 1));
        }
        i = i + 1;
    }
    proof {
        assert(scalar_first(d, m, t, size, i as int) == None::<int>);
    }
    ScanResult::not_found()
}

} // verus!
