//! 32-byte-chunk pattern scanning backend (AVX2 vector width).

use vstd::prelude::*;

use super::chunked;
use crate::pattern::Pattern;
use crate::ScanResult;

verus! {

/// Find the first occurrence of a pattern in the target region using
/// 32-byte windows. The region must extend 31 bytes of readable
/// trailing slack past `binary_size`.
pub fn find(pattern: &Pattern, binary: &[u8], binary_size: usize) -> (r: ScanResult)
    requires
        pattern.wf(),
        1 <= pattern.spec_unpadded(),
        binary_size <= binary@.len(),
        binary_size == 0 || binary_size + 31 <= binary@.len(),
    ensures
        r.spec_offset() == chunked::chunked_from(
            pattern.spec_data(),
            pattern.spec_mask(),
            pattern.spec_unpadded(),
            binary@,
            binary_size as int,
            32,
            0,
            0,
        ),
{
    chunked::find_chunked(pattern, binary, binary_size, 32)
}

} // verus!
