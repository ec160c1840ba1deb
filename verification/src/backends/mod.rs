//! Pattern scanning backends, the dispatcher that selects among them,
//! and the cross-backend equivalence statements that tie the
//! vectorized tiers to the scalar reference.

use vstd::prelude::*;

pub mod avx2;
pub mod chunked;
pub mod scalar;
pub mod sse42;

use crate::pattern::{lemma_pad32_props, pat_wf, Pattern};
use crate::{CpuFeatures, ScanMode, ScanResult};
use chunked::{chunked_from, lane_at, lemma_chunked_single, lemma_chunked_sound, window_match_at};
use scalar::{clamped, lemma_scalar_first_spec, scalar_first, scalar_match_at};

verus! {

/// The tier the dispatcher runs for a preferred mode and the detected
/// capabilities. An unspecified preference auto-selects the best
/// supported tier; an explicit preference for an unsupported tier
/// falls straight to Scalar and is never upgraded to the next-best
/// supported tier.
pub open spec fn spec_select_mode(preferred: Option<ScanMode>, features: CpuFeatures) -> ScanMode {
    if (preferred matches Some(ScanMode::Avx2) || preferred is None) && features.avx2 {
        ScanMode::Avx2
    } else if (preferred matches Some(ScanMode::Sse42) && features.sse42) || (preferred is None
        && !features.avx2 && features.sse42) {
        ScanMode::Sse42
    } else {
        ScanMode::Scalar
    }
}

/// Select the scan mode to execute. See [`spec_select_mode`] for the
/// policy, including the deliberate asymmetry: a preferred tier the
/// CPU lacks yields Scalar, not the next-best supported tier.
pub fn select_mode(preferred: Option<ScanMode>, features: CpuFeatures) -> (mode: ScanMode)
    ensures
        mode == spec_select_mode(preferred, features),
{
    let pref_avx2 = matches!(preferred, Some(ScanMode::Avx2));
    let pref_sse42 = matches!(preferred, Some(ScanMode::Sse42));
    let unspecified = matches!(preferred, None);
    if (pref_avx2 || unspecified) && features.avx2 {
        ScanMode::Avx2
    } else if (pref_sse42 && features.sse42) || (unspecified && !features.avx2
        && features.sse42) {
        ScanMode::Sse42
    } else {
        ScanMode::Scalar
    }
}

/// What a `find` through the dispatcher returns: the result of the
/// selected backend on the given pattern and target region.
pub open spec fn spec_find_result(
    p: Pattern,
    preferred: Option<ScanMode>,
    features: CpuFeatures,
    t: Seq<u8>,
    size: int,
) -> Option<int> {
    match spec_select_mode(preferred, features) {
        ScanMode::Scalar => scalar_first(p.spec_data(), p.spec_mask(), t, size, 0),
        ScanMode::Sse42 => chunked_from(
            p.spec_data(),
            p.spec_mask(),
            p.spec_unpadded(),
            t,
            size,
            16,
            0,
            0,
        ),
        ScanMode::Avx2 => chunked_from(
            p.spec_data(),
            p.spec_mask(),
            p.spec_unpadded(),
            t,
            size,
            32,
            0,
            0,
        ),
    }
}

/// Find the first occurrence of a pattern in the target region with
/// the backend the dispatcher selects. When a vectorized tier is
/// selected, the pattern must be non-empty and the region must extend
/// the tier's trailing slack (15 or 31 readable bytes) past
/// `binary_size`.
pub fn find(
    pattern: &Pattern,
    preferred_scan_mode: Option<ScanMode>,
    features: CpuFeatures,
    binary: &[u8],
    binary_size: usize,
) -> (r: ScanResult)
    requires
        pattern.wf(),
        binary_size <= binary@.len(),
        spec_select_mode(preferred_scan_mode, features) matches ScanMode::Sse42 ==> 1
            <= pattern.spec_unpadded() && (binary_size == 0 || binary_size + 15 <= binary@.len()),
        spec_select_mode(preferred_scan_mode, features) matches ScanMode::Avx2 ==> 1
            <= pattern.spec_unpadded() && (binary_size == 0 || binary_size + 31 <= binary@.len()),
    ensures
        r.spec_offset() == spec_find_result(
            *pattern,
            preferred_scan_mode,
            features,
            binary@,
            binary_size as int,
        ),
{
    let mode = select_mode(preferred_scan_mode, features);
    match mode {
        ScanMode::Scalar => scalar::find(pattern, binary, binary_size),
        ScanMode::Sse42 => sse42::find(pattern, binary, binary_size),
        ScanMode::Avx2 => avx2::find(pattern, binary, binary_size),
    }
}

/// The trailing slack past the nominal region end repeats the last
/// in-bounds byte. Under this shape of slack, reading a slack byte
/// and the scalar matcher's clamped read of the last byte agree, so
/// backend results can be compared exactly.
pub open spec fn slack_repeats_last(t: Seq<u8>, size: int) -> bool {
    forall|k: int| size <= k < t.len() ==> #[trigger] t[k] == t[size - 1]
}

/// For a pattern that fits one `w`-byte window, a full window match
/// at offset `i` is exactly a scalar (clamped) match at `i`, provided
/// the slack repeats the last in-bounds byte.
pub proof fn lemma_window_eq_scalar(
    d: Seq<u8>,
    m: Seq<u8>,
    u: int,
    t: Seq<u8>,
    size: int,
    w: int,
    i: int,
)
    requires
        pat_wf(d, m, u),
        1 <= u <= w <= d.len(),
        0 <= i < size,
        size + w - 1 <= t.len(),
        slack_repeats_last(t, size),
    ensures
        window_match_at(d, m, t, i, 0, w) <==> scalar_match_at(d, m, t, size, i),
{
    if window_match_at(d, m, t, i, 0, w) {
        assert forall|j: int| 0 <= j < d.len() && #[trigger] m[j] != 0u8 implies t[clamped(
            size,
            i + j,
        )] == d[j] by {
            assert(j < u);
            assert(lane_at(d, m, t, i, j));
            if i + j >= size {
                assert(t[i + j] == t[size - 1]);
            }
        }
    }
    if scalar_match_at(d, m, t, size, i) {
        assert forall|j: int| 0 <= j <= w - 1 implies #[trigger] lane_at(d, m, t, i, j) by {
            if m[j] == 0u8 {
                assert(d[j] == 0u8);
            } else {
                assert(t[clamped(size, i + j)] == d[j]);
                if i + j >= size {
                    assert(t[i + j] == t[size - 1]);
                }
            }
        }
    }
}

/// A chunked tier at width `w` and the scalar reference return the
/// same result on every input, for patterns that fit one window,
/// provided the region carries slack repeating its last byte.
pub proof fn lemma_scalar_chunked_agree(
    d: Seq<u8>,
    m: Seq<u8>,
    u: int,
    t: Seq<u8>,
    size: int,
    w: int,
)
    requires
        pat_wf(d, m, u),
        1 <= u <= w <= d.len(),
        0 <= size,
        size == 0 || size + w - 1 <= t.len(),
        size == 0 || slack_repeats_last(t, size),
    ensures
        chunked_from(d, m, u, t, size, w, 0, 0) == scalar_first(d, m, t, size, 0),
{
    if size == 0 {
        assert(chunked_from(d, m, u, t, size, w, 0, 0) == None::<int>);
        assert(scalar_first(d, m, t, size, 0) == None::<int>);
    } else {
        lemma_chunked_single(d, m, u, t, size, w, 0);
        lemma_scalar_first_spec(d, m, t, size, 0);
        assert forall|i: int| 0 <= i < size implies (window_match_at(d, m, t, i, 0, w)
            <==> #[trigger] scalar_match_at(d, m, t, size, i)) by {
            lemma_window_eq_scalar(d, m, u, t, size, w, i);
        }
        match chunked_from(d, m, u, t, size, w, 0, 0) {
            Some(a) => {
                match scalar_first(d, m, t, size, 0) {
                    Some(b) => {
                        assert(scalar_match_at(d, m, t, size, a));
                        assert(window_match_at(d, m, t, b, 0, w));
                        assert(a <= b);
                        assert(b <= a);
                    },
                    None => {
                        assert(scalar_match_at(d, m, t, size, a));
                        assert(false);
                    },
                }
            },
            None => {
                match scalar_first(d, m, t, size, 0) {
                    Some(b) => {
                        assert(window_match_at(d, m, t, b, 0, w));
                        assert(false);
                    },
                    None => {},
                }
            },
        }
    }
}

/// Cross-backend equivalence: for a fixed well-formed pattern fitting
/// one 16-byte window and a fixed target region whose slack repeats
/// its last byte, the Scalar, 16-byte and 32-byte tiers return the
/// identical first-match offset, or all report not-found.
pub proof fn lemma_cross_backend_equivalence(d: Seq<u8>, m: Seq<u8>, u: int, t: Seq<u8>, size: int)
    requires
        pat_wf(d, m, u),
        1 <= u <= 16,
        0 <= size,
        size == 0 || size + 31 <= t.len(),
        size == 0 || slack_repeats_last(t, size),
    ensures
        chunked_from(d, m, u, t, size, 16, 0, 0) == scalar_first(d, m, t, size, 0),
        chunked_from(d, m, u, t, size, 32, 0, 0) == scalar_first(d, m, t, size, 0),
{
    lemma_pad32_props(u);
    lemma_scalar_chunked_agree(d, m, u, t, size, 16);
    lemma_scalar_chunked_agree(d, m, u, t, size, 32);
}

/// The 32-byte tier alone stays equivalent to the scalar reference up
/// to 32 unpadded pattern bytes, where the 16-byte tier already needs
/// two windows.
pub proof fn lemma_avx2_matches_scalar(d: Seq<u8>, m: Seq<u8>, u: int, t: Seq<u8>, size: int)
    requires
        pat_wf(d, m, u),
        1 <= u <= 32,
        0 <= size,
        size == 0 || size + 31 <= t.len(),
        size == 0 || slack_repeats_last(t, size),
    ensures
        chunked_from(d, m, u, t, size, 32, 0, 0) == scalar_first(d, m, t, size, 0),
{
    lemma_pad32_props(u);
    lemma_scalar_chunked_agree(d, m, u, t, size, 32);
}

/// Half of the equivalence that survives for patterns longer than one
/// window: an offset reported by a chunked tier is a real match, and
/// the scalar reference then reports a match at the same or an
/// earlier offset. (A tier may miss a match that overlaps a failed
/// multi-window attempt, so not-found from a tier promises nothing
/// about the scalar result.)
pub proof fn lemma_chunked_found_scalar_found(
    d: Seq<u8>,
    m: Seq<u8>,
    u: int,
    t: Seq<u8>,
    size: int,
    w: int,
    a: int,
)
    requires
        pat_wf(d, m, u),
        1 <= w,
        0 <= size,
        size + w - 1 <= t.len(),
        size >= 1 ==> slack_repeats_last(t, size),
        chunked_from(d, m, u, t, size, w, 0, 0) == Some(a),
    ensures
        0 <= a < size,
        scalar_match_at(d, m, t, size, a),
        scalar_first(d, m, t, size, 0) matches Some(b) && b <= a,
{
    lemma_chunked_sound(d, m, u, t, size, w, 0, 0, a);
    assert forall|j: int| 0 <= j < d.len() && #[trigger] m[j] != 0u8 implies t[clamped(size, a + j)]
        == d[j] by {
        assert(j < u);
        assert(t[a + j] == d[j]);
        if a + j >= size {
            assert(t[a + j] == t[size - 1]);
        }
    }
    lemma_scalar_first_spec(d, m, t, size, 0);
    match scalar_first(d, m, t, size, 0) {
        Some(b) => {
            if b > a {
                assert(!scalar_match_at(d, m, t, size, a));
            }
        },
        None => {
            assert(!scalar_match_at(d, m, t, size, a));
        },
    }
}

/// A target region filled with a byte value absent from every
/// constrained pattern byte is never matched: the scalar matcher and
/// every chunked tier report not-found.
pub proof fn lemma_absent_byte_not_found(
    d: Seq<u8>,
    m: Seq<u8>,
    u: int,
    t: Seq<u8>,
    size: int,
    w: int,
    b: u8,
)
    requires
        pat_wf(d, m, u),
        1 <= w,
        0 <= size,
        size + w - 1 <= t.len(),
        forall|k: int| 0 <= k < t.len() ==> #[trigger] t[k] == b,
        exists|j: int| 0 <= j < u && #[trigger] m[j] != 0u8,
        forall|j: int| 0 <= j < u && #[trigger] m[j] != 0u8 ==> d[j] != b,
    ensures
        scalar_first(d, m, t, size, 0) == None::<int>,
        chunked_from(d, m, u, t, size, w, 0, 0) == None::<int>,
{
    let j0 = choose|j: int| 0 <= j < u && #[trigger] m[j] != 0u8;
    lemma_scalar_first_spec(d, m, t, size, 0);
    match scalar_first(d, m, t, size, 0) {
        Some(i) => {
            assert(t[clamped(size, i + j0)] == d[j0]);
            assert(false);
        },
        None => {},
    }
    match chunked_from(d, m, u, t, size, w, 0, 0) {
        Some(a) => {
            lemma_chunked_sound(d, m, u, t, size, w, 0, 0, a);
            assert(t[a + j0] == d[j0]);
            assert(false);
        },
        None => {},
    }
}

} // verus!
