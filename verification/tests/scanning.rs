use lightningscanner::backends::select_mode;
use lightningscanner::{CpuFeatures, ScanMode, Scanner};

const ALL_FEATURES: CpuFeatures = CpuFeatures { sse42: true, avx2: true };
const NO_FEATURES: CpuFeatures = CpuFeatures { sse42: false, avx2: false };

/// The region extended by `slack` copies of its last byte, the slack
/// shape under which all backends agree exactly.
fn with_slack(region: &[u8], slack: usize) -> Vec<u8> {
    let mut buf = region.to_vec();
    let last = *region.last().unwrap();
    buf.resize(region.len() + slack, last);
    buf
}

/// Run all three backends over the same nominal region and check they
/// agree, returning the common result.
fn find_all_tiers(scanner: &Scanner, region: &[u8]) -> Option<usize> {
    let scalar = scanner.find(Some(ScanMode::Scalar), ALL_FEATURES, region, region.len());
    let buf16 = with_slack(region, 15);
    let sse = scanner.find(Some(ScanMode::Sse42), ALL_FEATURES, &buf16, region.len());
    let buf32 = with_slack(region, 31);
    let avx = scanner.find(Some(ScanMode::Avx2), ALL_FEATURES, &buf32, region.len());
    assert_eq!(scalar.get_addr(), sse.get_addr());
    assert_eq!(scalar.get_addr(), avx.get_addr());
    assert_eq!(scalar.is_valid(), scalar.get_addr().is_some());
    scalar.get_addr()
}

#[test]
fn scenario_wildcard_pattern_all_tiers() {
    let binary = [0xab, 0xec, 0x48, 0x89, 0x5c, 0x24, 0xee, 0x48, 0x89, 0x6c];
    let scanner = Scanner::new("48 89 5c 24 ?? 48 89 6c");
    assert_eq!(find_all_tiers(&scanner, &binary), Some(2));
}

#[test]
fn wildcard_matches_every_byte_value() {
    let scanner = Scanner::new("aa ?? bb");
    for x in 0..=255u8 {
        let binary = [0xaa, x, 0xbb, 0x00];
        assert_eq!(find_all_tiers(&scanner, &binary), Some(0));
    }
}

#[test]
fn boundary_overhanging_pattern_not_found() {
    // The pattern needs bytes past the end of a two-byte region; the
    // scalar clamp re-reads 0xbb where 0xcc is required, so the result
    // is not-found, and the tiers agree given slack repeating the last
    // byte.
    let scanner = Scanner::new("aa bb cc dd");
    let binary = [0xaa, 0xbb];
    assert_eq!(find_all_tiers(&scanner, &binary), None);
}

#[test]
fn boundary_clamp_can_match_coincidentally() {
    // The documented trade-off of the clamp policy: a tail-overflowing
    // comparison succeeds when the re-read last byte happens to agree.
    let scanner = Scanner::new("aa bb bb bb");
    let binary = [0xaa, 0xbb];
    let r = scanner.find(Some(ScanMode::Scalar), NO_FEATURES, &binary, binary.len());
    assert_eq!(r.get_addr(), Some(0));
}

#[test]
fn negative_absent_byte_not_found() {
    let scanner = Scanner::new("11 22 ?? 33");
    let binary = [0x44u8; 40];
    assert_eq!(find_all_tiers(&scanner, &binary), None);
}

#[test]
fn literal_pattern_first_occurrence() {
    let scanner = Scanner::new_from_str("abc");
    let binary = b"xxabcyabc";
    assert_eq!(find_all_tiers(&scanner, binary), Some(2));
}

#[test]
fn long_pattern_multi_chunk_all_tiers() {
    // 36 constrained bytes force the 16-byte tier through three
    // windows and the 32-byte tier through two.
    let pattern = "01 02 03 04 05 06 07 08 09 0a 0b 0c 0d 0e 0f 10 11 12 13 14 15 16 17 18 19 1a 1b 1c 1d 1e 1f 20 21 22 23 24";
    let mut binary = vec![0xffu8; 100];
    for j in 0..36 {
        binary[40 + j] = (j + 1) as u8;
    }
    let scanner = Scanner::new(pattern);
    assert_eq!(find_all_tiers(&scanner, &binary), Some(40));
}

#[test]
fn multi_chunk_restart_can_miss_overlapping_match() {
    // A pattern longer than one window: when a partial multi-window
    // match fails, the cursor restarts one byte past its current
    // position, not past the abandoned candidate's start, so a match
    // overlapping the failed attempt can be missed. 17 pattern bytes
    // fit one 32-byte window but need two 16-byte windows: the
    // 32-byte tier agrees with the scalar reference, while the
    // 16-byte tier misses the match at offset 1 after its first
    // window matched at offset 0.
    let pattern = "01 01 01 01 01 01 01 01 01 01 01 01 01 01 01 01 02";
    let mut binary = vec![0x01u8; 18];
    binary[17] = 0x02;
    let scanner = Scanner::new(pattern);

    let scalar = scanner.find(Some(ScanMode::Scalar), ALL_FEATURES, &binary, binary.len());
    assert_eq!(scalar.get_addr(), Some(1));

    let buf32 = with_slack(&binary, 31);
    let avx = scanner.find(Some(ScanMode::Avx2), ALL_FEATURES, &buf32, binary.len());
    assert_eq!(avx.get_addr(), Some(1));

    let buf16 = with_slack(&binary, 15);
    let sse = scanner.find(Some(ScanMode::Sse42), ALL_FEATURES, &buf16, binary.len());
    assert_eq!(sse.get_addr(), None);
}

#[test]
fn empty_pattern_matches_at_offset_zero() {
    let scanner = Scanner::new("");
    let binary = [0x10, 0x20];
    let r = scanner.find(Some(ScanMode::Scalar), NO_FEATURES, &binary, binary.len());
    assert_eq!(r.get_addr(), Some(0));
}

#[test]
fn empty_region_not_found_on_all_tiers() {
    let scanner = Scanner::new("aa");
    let empty: [u8; 0] = [];
    for mode in [ScanMode::Scalar, ScanMode::Sse42, ScanMode::Avx2] {
        let r = scanner.find(Some(mode), ALL_FEATURES, &empty, 0);
        assert!(!r.is_valid());
        assert_eq!(r.get_addr(), None);
    }
}

#[test]
fn not_found_result_is_invalid() {
    let scanner = Scanner::new("de ad be ef");
    let binary = [0x00u8; 16];
    let r = scanner.find(Some(ScanMode::Scalar), NO_FEATURES, &binary, binary.len());
    assert!(!r.is_valid());
    assert_eq!(r.get_addr(), None);
}

#[test]
fn dispatcher_unsupported_preference_falls_to_scalar() {
    // The deliberate asymmetry: an explicit request for the 32-byte
    // tier on a CPU that only supports the 16-byte tier yields Scalar,
    // not the next-best supported tier.
    let partial = CpuFeatures { sse42: true, avx2: false };
    assert_eq!(select_mode(Some(ScanMode::Avx2), partial), ScanMode::Scalar);
}

#[test]
fn dispatcher_selection_policy() {
    let partial = CpuFeatures { sse42: true, avx2: false };
    assert_eq!(select_mode(None, ALL_FEATURES), ScanMode::Avx2);
    assert_eq!(select_mode(None, partial), ScanMode::Sse42);
    assert_eq!(select_mode(None, NO_FEATURES), ScanMode::Scalar);
    assert_eq!(select_mode(Some(ScanMode::Avx2), ALL_FEATURES), ScanMode::Avx2);
    assert_eq!(select_mode(Some(ScanMode::Sse42), ALL_FEATURES), ScanMode::Sse42);
    assert_eq!(select_mode(Some(ScanMode::Sse42), NO_FEATURES), ScanMode::Scalar);
    assert_eq!(select_mode(Some(ScanMode::Scalar), ALL_FEATURES), ScanMode::Scalar);
}

#[test]
fn dispatcher_runs_selected_backend_through_find() {
    // An unspecified preference on a fully capable CPU runs the
    // 32-byte tier, so the slack requirement applies and the result
    // still agrees with the scalar reference.
    let binary = [0xab, 0xec, 0x48, 0x89, 0x5c, 0x24, 0xee, 0x48, 0x89, 0x6c];
    let scanner = Scanner::new("48 89 5c 24 ?? 48 89 6c");
    let buf = with_slack(&binary, 31);
    let r = scanner.find(None, ALL_FEATURES, &buf, binary.len());
    assert_eq!(r.get_addr(), Some(2));
}
