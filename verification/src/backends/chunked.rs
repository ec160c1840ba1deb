//! The chunked windowed matching algorithm shared by the vectorized
//! tiers, parameterized by the vector width `w` (16 or 32 bytes).
//!
//! Each step loads a `w`-byte window of the pattern at offset `ps`
//! and a `w`-byte window of the target at the cursor `chunk`, blends
//! target bytes to zero wherever the mask is zero, and compares all
//! lanes against the pattern bytes. A fully matching window either
//! completes the match or continues with the next pattern window; any
//! mismatch abandons the in-progress match and restarts one byte
//! further.

use vstd::prelude::*;

use crate::pattern::{pat_wf, Pattern};
use crate::ScanResult;

verus! {

/// One blended lane of a window for the candidate match starting at
/// target offset `i`: pattern position `j` passes when the pattern
/// byte equals the target byte at `i + j`, blended to zero where the
/// mask byte is zero. A wildcard lane therefore passes exactly when
/// its pattern byte is zero, which well-formed patterns guarantee.
pub open spec fn lane_at(data: Seq<u8>, mask: Seq<u8>, t: Seq<u8>, i: int, j: int) -> bool {
    data[j] == if mask[j] == 0u8 {
        0u8
    } else {
        t[i + j]
    }
}

/// All lanes `lo <= j < hi` of the candidate match starting at target
/// offset `i` pass.
pub open spec fn window_match_at(
    data: Seq<u8>,
    mask: Seq<u8>,
    t: Seq<u8>,
    i: int,
    lo: int,
    hi: int,
) -> bool {
    forall|j: int| lo <= j <= hi - 1 ==> #[trigger] lane_at(data, mask, t, i, j)
}

/// Result of running the chunked algorithm from cursor `c` with `ps`
/// pattern bytes already confirmed (the candidate match starts at
/// `c - ps`). A full window either completes the match at `c - ps`
/// (once `ps + w` covers the unpadded size `u`) or advances both the
/// cursor and the pattern offset by `w`; a failed window restarts at
/// `c + 1` with nothing confirmed.
pub open spec fn chunked_from(
    d: Seq<u8>,
    m: Seq<u8>,
    u: int,
    t: Seq<u8>,
    size: int,
    w: int,
    c: int,
    ps: int,
) -> Option<int>
    decreases size - c,
{
    if c < 0 || c >= size || w <= 0 {
        None
    } else if window_match_at(d, m, t, c - ps, ps, ps + w) {
        if ps + w < u {
            if c + w >= size {
                None
            } else {
                chunked_from(d, m, u, t, size, w, c + w, ps + w)
            }
        } else {
            Some(c - ps)
        }
    } else {
        chunked_from(d, m, u, t, size, w, c + 1, 0)
    }
}

/// Soundness of the chunked algorithm: whatever offset it reports is
/// a real match of the whole unpadded pattern against in-bounds
/// target bytes (the trailing slack included). `ps` pattern bytes are
/// assumed already confirmed for the candidate starting at `c - ps`.
pub proof fn lemma_chunked_sound(
    d: Seq<u8>,
    m: Seq<u8>,
    u: int,
    t: Seq<u8>,
    size: int,
    w: int,
    c: int,
    ps: int,
    a: int,
)
    requires
        pat_wf(d, m, u),
        1 <= w,
        0 <= ps <= c,
        size + w - 1 <= t.len(),
        window_match_at(d, m, t, c - ps, 0, ps),
        chunked_from(d, m, u, t, size, w, c, ps) == Some(a),
    ensures
        c - ps <= a < size,
        forall|j: int| 0 <= j < u && #[trigger] m[j] != 0u8 ==> a + j < t.len() && t[a + j] == d[j],
    decreases size - c,
{
    if c >= size || w <= 0 {
        // nothing is reported from here
    } else if window_match_at(d, m, t, c - ps, ps, ps + w) {
        if ps + w < u {
            if c + w >= size {
            } else {
                // the history for the next window covers the old
                // history plus the window just confirmed
                assert forall|j: int| 0 <= j <= ps + w - 1 implies #[trigger] lane_at(
                    d,
                    m,
                    t,
                    c - ps,
                    j,
                ) by {
                    assert(lane_at(d, m, t, c - ps, j));
                }
                lemma_chunked_sound(d, m, u, t, size, w, c + w, ps + w, a);
            }
        } else {
            assert(a == c - ps);
            assert forall|j: int| 0 <= j < u && #[trigger] m[j] != 0u8 implies a + j < t.len()
                && t[a + j] == d[j] by {
                assert(lane_at(d, m, t, a, j));
                assert(a + j < c + w <= size + w - 1);
            }
        }
    } else {
        lemma_chunked_sound(d, m, u, t, size, w, c + 1, 0, a);
    }
}

/// Closed form for patterns that fit in a single window (`u <= w`):
/// the chunked algorithm reports exactly the least offset at or after
/// `c` whose full window matches, and not-found exactly when no such
/// offset exists before `size`.
pub proof fn lemma_chunked_single(
    d: Seq<u8>,
    m: Seq<u8>,
    u: int,
    t: Seq<u8>,
    size: int,
    w: int,
    c: int,
)
    requires
        pat_wf(d, m, u),
        1 <= u <= w,
        0 <= c,
    ensures
        match chunked_from(d, m, u, t, size, w, c, 0) {
            Some(a) => c <= a < size && window_match_at(d, m, t, a, 0, w) && forall|k: int|
                c <= k < a ==> !window_match_at(d, m, t, k, 0, w),
            None => forall|k: int| c <= k < size ==> !window_match_at(d, m, t, k, 0, w),
        },
    decreases size - c,
{
    if c >= size {
    } else if window_match_at(d, m, t, c, 0, w) {
    } else {
        lemma_chunked_single(d, m, u, t, size, w, c + 1);
    }
}

/// Check one `w`-byte window: pattern positions `[ps, ps + w)` of the
/// candidate match starting at `chunk - ps`, with the wildcard blend.
fn window_matches(pattern: &Pattern, binary: &[u8], chunk: usize, ps: usize, w: usize) -> (b: bool)
    requires
        pattern.wf(),
        1 <= w,
        ps + w <= pattern.spec_data().len(),
        ps <= chunk,
        chunk + w <= binary@.len(),
    ensures
        b == window_match_at(
            pattern.spec_data(),
            pattern.spec_mask(),
            binary@,
            chunk - ps,
            ps as int,
            ps + w,
        ),
{
    let ghost d = pattern.spec_data();
    let ghost m = pattern.spec_mask();
    let ghost t = binary@;
    let ghost i = chunk - ps;
    let plen = pattern.len();
    let blen = binary.len();
    let mut l: usize = 0;
    let mut ok = true;
    while l < w && ok
        invariant
            pattern.wf(),
            d == pattern.spec_data(),
            m == pattern.spec_mask(),
            t == binary@,
            i == chunk - ps,
            1 <= w,
            plen == d.len(),
            blen == t.len(),
            ps + w <= plen,
            ps <= chunk,
            chunk + w <= blen,
            l <= w,
            ok ==> forall|j: int| ps <= j <= ps + l - 1 ==> #[trigger] lane_at(d, m, t, i, j),
            !ok ==> exists|j: int| ps <= j <= ps + w - 1 && !(#[trigger] lane_at(d, m, t, i, j)),
        decreases w - l,
    {
        let mb = pattern.mask_at(ps + l);
        let db = pattern.data_at(ps + l);
        let tb = binary[chunk + l];
        let blended = if mb == 0 {
            0
        } else {
            tb
        };
        proof {
            assert(t[i + (ps + l)] == tb);
        }
        if db != blended {
            proof {
                assert(!lane_at(d, m, t, i, (ps + l) as int));
            }
            ok = false;
        } else {
            proof {
                assert(lane_at(d, m, t, i, (ps + l) as int));
            }
        }
        l = l + 1;
    }
    proof {
        if ok {
            assert(window_match_at(d, m, t, i, ps as int, ps + w));
        } else {
            assert(!window_match_at(d, m, t, i, ps as int, ps + w));
        }
    }
    ok
}

/// Run the chunked windowed matching algorithm at vector width `w`
/// over `binary_size` candidate offsets of the target region. The
/// region must extend `w - 1` bytes of readable trailing slack past
/// `binary_size` so every window load stays in bounds.
pub fn find_chunked(pattern: &Pattern, binary: &[u8], binary_size: usize, w: usize) -> (r:
    ScanResult)
    requires
        pattern.wf(),
        1 <= pattern.spec_unpadded(),
        w == 16 || w == 32,
        binary_size <= binary@.len(),
        binary_size == 0 || binary_size + w - 1 <= binary@.len(),
    ensures
        r.spec_offset() == chunked_from(
            pattern.spec_data(),
            pattern.spec_mask(),
            pattern.spec_unpadded(),
            binary@,
            binary_size as int,
            w as int,
            0,
            0,
        ),
{
    let ghost d = pattern.spec_data();
    let ghost m = pattern.spec_mask();
    let ghost u = pattern.spec_unpadded();
    let ghost t = binary@;
    let ghost size = binary_size as int;
    let plen = pattern.len();
    let blen = binary.len();
    let unpadded = pattern.unpadded_size();
    proof {
        crate::pattern::lemma_pad32_props(u);
    }
    let mut chunk: usize = 0;
    let mut ps: usize = 0;
    while chunk < binary_size
        invariant
            pattern.wf(),
            d == pattern.spec_data(),
            m == pattern.spec_mask(),
            u == pattern.spec_unpadded(),
            t == binary@,
            size == binary_size as int,
            plen == d.len(),
            blen == t.len(),
            unpadded == u,
            1 <= u,
            w == 16 || w == 32,
            binary_size <= binary@.len(),
            binary_size == 0 || binary_size + w - 1 <= binary@.len(),
            ps <= chunk,
            ps + w <= plen,
            ps % w == 0,
            plen % w == 0,
            chunked_from(d, m, u, t, size, w as int, 0, 0) == chunked_from(
                d,
                m,
                u,
                t,
                size,
                w as int,
                chunk as int,
                ps as int,
            ),
        decreases size + w - chunk,
    {
        let wm = window_matches(pattern, binary, chunk, ps, w);
        if wm {
            if ps + w < unpadded {
                proof {
                    let a = ps + w;
                    assert(a % w as int == 0) by {
                        vstd::arithmetic::div_mod::lemma_mod_adds(ps as int, w as int, w as int);
                        vstd::arithmetic::div_mod::lemma_mod_self_0(w as int);
                    };
                    assert(a < plen);
                    assert(a + w <= plen) by {
                        vstd::arithmetic::div_mod::lemma_fundamental_div_mod(a, w as int);
                        vstd::arithmetic::div_mod::lemma_fundamental_div_mod(
                            plen as int,
                            w as int,
                        );
                        let qa = a / w as int;
                        let qp = plen as int / w as int;
                        assert(a == qa * (w as int));
                        assert(plen as int == qp * (w as int));
                        assert(qa < qp) by (nonlinear_arith)
                            requires
                                a == qa * (w as int),
                                plen as int == qp * (w as int),
                                a < plen,
                                w as int >= 1,
                        ;
                        assert((qa + 1) * (w as int) <= qp * (w as int)) by (nonlinear_arith)
                            requires
                                qa < qp,
                                w as int >= 1,
                        ;
                        assert((qa + 1) * (w as int) == a + w) by (nonlinear_arith)
                            requires
                                a == qa * (w as int),
                        ;
                    };
                    if chunk + w >= binary_size {
                        assert(chunked_from(d, m, u, t, size, w as int, chunk as int, ps as int)
                            == None::<int>);
                        assert(chunked_from(
                            d,
                            m,
                            u,
                            t,
                            size,
                            w as int,
                            chunk as int + w,
                            ps as int + w,
                        ) == None::<int>);
                    } else {
                        assert(chunked_from(d, m, u, t, size, w as int, chunk as int, ps as int)
                            == chunked_from(
                            d,
                            m,
                            u,
                            t,
                            size,
                            w as int,
                            chunk as int + w,
                            ps as int + w,
                        ));
                    }
                }
                ps = ps + w;
                chunk = chunk + w;
            } else {
                let addr = chunk - ps;
                proof {
                    assert(chunked_from(d, m, u, t, size, w as int, chunk as int, ps as int)
                        == Some(chunk - ps));
                }
                return ScanResult::found(addr);
            }
        } else {
            proof {
                assert(chunked_from(d, m, u, t, size, w as int, chunk as int, ps as int)
                    == chunked_from(d, m, u, t, size, w as int, chunk as int + 1, 0));
                vstd::arithmetic::div_mod::lemma_mod_self_0(w as int);
            }
            ps = 0;
            chunk = chunk + 1;
        }
    }
    proof {
        assert(chunked_from(d, m, u, t, size, w as int, chunk as int, ps as int) == None::<int>);
    }
    ScanResult::not_found()
}

} // verus!
