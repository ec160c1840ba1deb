//! A memory pattern scanner for wildcard-capable byte signatures
//! ("IDA-style patterns"), with a scalar reference matcher and two
//! vector-width matchers selected by a CPU-capability dispatcher.

use vstd::prelude::*;

pub mod backends;
pub mod pattern;

use crate::pattern::{compiled_literal, compiled_text, Pattern};
use vstd::string::StringSliceAdditionalSpecFns;

verus! {

/// Single result IDA-style pattern scanner: binds one compiled
/// pattern and exposes a single `find` operation that forwards to the
/// backend the dispatcher selects.
pub struct Scanner(Pattern);

impl Scanner {
    /// The pattern this scanner binds.
    pub closed spec fn spec_pattern(&self) -> Pattern {
        self.0
    }

    pub open spec fn wf(&self) -> bool {
        self.spec_pattern().wf()
    }

    /// Create a new [`Scanner`] instance from a textual signature
    /// such as `"48 89 5c 24 ?? 48 89 6c"`.
    pub fn new(pattern: &str) -> (s: Scanner)
        requires
            pattern@.len() + 32 <= usize::MAX,
        ensures
            s.wf(),
            compiled_text(s.spec_pattern(), pattern@),
    {
        Scanner(Pattern::new(pattern))
    }

    /// Create a new [`Scanner`] instance matching a string literal
    /// byte for byte.
    pub fn new_from_str(pattern: &str) -> (s: Scanner)
        requires
            pattern.spec_bytes().len() + 32 <= usize::MAX,
        ensures
            s.wf(),
            compiled_literal(s.spec_pattern(), pattern.spec_bytes()),
    {
        Scanner(Pattern::new_string(pattern))
    }

    /// Logical signature length of the bound pattern.
    pub fn unpadded_size(&self) -> (n: usize)
        ensures
            n == self.spec_pattern().spec_unpadded(),
    {
        self.0.unpadded_size()
    }

    /// Find the first occurrence of the pattern in the target region
    /// `binary[..binary_size]`, with the backend selected from the
    /// preferred scan mode and the CPU capabilities. When a vectorized
    /// tier is selected the pattern must be non-empty and the slice
    /// must extend the tier's trailing slack (15 or 31 bytes) past
    /// `binary_size`.
    pub fn find(
        &self,
        preferred_scan_mode: Option<ScanMode>,
        features: CpuFeatures,
        binary: &[u8],
        binary_size: usize,
    ) -> (r: ScanResult)
        requires
            self.wf(),
            binary_size <= binary@.len(),
            backends::spec_select_mode(preferred_scan_mode, features) matches ScanMode::Sse42 ==> 1
                <= self.spec_pattern().spec_unpadded() && (binary_size == 0 || binary_size + 15
                <= binary@.len()),
            backends::spec_select_mode(preferred_scan_mode, features) matches ScanMode::Avx2 ==> 1
                <= self.spec_pattern().spec_unpadded() && (binary_size == 0 || binary_size + 31
                <= binary@.len()),
        ensures
            r.spec_offset() == backends::spec_find_result(
                self.spec_pattern(),
                preferred_scan_mode,
                features,
                binary@,
                binary_size as int,
            ),
    {
        backends::find(&self.0, preferred_scan_mode, features, binary, binary_size)
    }
}

/// Scan mode: the matching backend a caller may prefer.
#[derive(Debug, Copy, Clone, PartialEq, Eq, Hash)]
pub enum ScanMode {
    /// Scalar scan mode
    Scalar,
    /// Scan mode that works on 16-byte chunks (SSE4.2 width)
    Sse42,
    /// Scan mode that works on 32-byte chunks (AVX2 width)
    Avx2,
}

impl From<Pattern> for Scanner {
    fn from(value: Pattern) -> (s: Scanner) {
        Scanner(value)
    }
}

impl vstd::std_specs::convert::FromSpecImpl<Pattern> for Scanner {
    open spec fn obeys_from_spec() -> bool {
        true
    }

    closed spec fn from_spec(value: Pattern) -> Scanner {
        Scanner(value)
    }
}

/// What [`From`] builds: the scanner that binds exactly the given
/// pattern.
pub proof fn lemma_scanner_from(value: Pattern)
    ensures
        <Scanner as vstd::std_specs::convert::FromSpec<Pattern>>::from_spec(
            value,
        ).spec_pattern() == value,
{
}

/// Runtime CPU capability flags the backend dispatcher consults.
/// Detection is the caller's business (it is a property of the
/// running machine, not of the matching logic); the selection policy
/// over these flags is part of the library and fully specified.
#[derive(Debug, Copy, Clone, PartialEq, Eq, Hash)]
pub struct CpuFeatures {
    /// The running CPU can execute the 16-byte-chunk tier.
    pub sse42: bool,
    /// The running CPU can execute the 32-byte-chunk tier.
    pub avx2: bool,
}

/// Scan result: the offset of the first match inside the scanned
/// region, or an invalid marker when no match was found.
#[derive(Debug, Copy, Clone, PartialEq, Eq, Hash)]
pub struct ScanResult {
    addr: Option<usize>,
}

impl ScanResult {
    /// The offset this result carries: `Some(o)` for a match at
    /// offset `o`, `None` for not-found.
    pub closed spec fn spec_addr(&self) -> Option<usize> {
        self.addr
    }

    /// The carried offset as a mathematical option, for stating what
    /// the matchers return.
    pub closed spec fn spec_offset(&self) -> Option<int> {
        match self.addr {
            Some(v) => Some(v as int),
            None => None,
        }
    }

    /// Build a result marking a match at `offset`.
    pub(crate) fn found(offset: usize) -> (r: ScanResult)
        ensures
            r.spec_addr() == Some(offset),
            r.spec_offset() == Some(offset as int),
    {
        ScanResult { addr: Some(offset) }
    }

    /// Build a not-found result.
    pub(crate) fn not_found() -> (r: ScanResult)
        ensures
            r.spec_addr() == None::<usize>,
            r.spec_offset() == None::<int>,
    {
        ScanResult { addr: None }
    }

    /// Check if the result marks a match.
    pub fn is_valid(&self) -> (b: bool)
        ensures
            b == self.spec_addr().is_some(),
            b == self.spec_offset().is_some(),
    {
        self.addr.is_some()
    }

    /// Get the match offset of this scan result.
    pub fn get_addr(&self) -> (a: Option<usize>)
        ensures
            a == self.spec_addr(),
            match a {
                Some(v) => self.spec_offset() == Some(v as int),
                None => self.spec_offset() == None::<int>,
            },
    {
        self.addr
    }
}

} // verus!
