use lightningscanner::{CpuFeatures, ScanMode, Scanner};

const PATTERN: &str = "40 57 48 83 EC ? 48 C7 44 24 ? ? ? ? ? 48 89 5C 24 ? 48 89 6C 24 ? 48 89 74 24 ? 49 8B E9 48 8B F2";

const DATA_SET: [u8; 72] = [
    0x40, 0x57, 0x48, 0x83, 0xEC, 0x30, 0x48, 0xC7, 0x44, 0x24, 0x28, 0xFE, 0xFF, 0xFF, 0xFF, 0x48,
    0x89, 0x5C, 0x24, 0x40, 0x48, 0x89, 0x6C, 0x24, 0x48, 0x48, 0x89, 0x74, 0x24, 0x50, 0x49, 0x8B,
    0xE9, 0x49, 0x8B, 0xF0, 0x40, 0x57, 0x48, 0x83, 0xEC, 0x30, 0x48, 0xC7, 0x44, 0x24, 0x28, 0xFE,
    0xFF, 0xFF, 0xFF, 0x48, 0x89, 0x5C, 0x24, 0x40, 0x48, 0x89, 0x6C, 0x24, 0x48, 0x48, 0x89, 0x74,
    0x24, 0x50, 0x49, 0x8B, 0xE9, 0x48, 0x8B, 0xF2,
];

const ALL_FEATURES: CpuFeatures = CpuFeatures { sse42: true, avx2: true };

/// The data set extended by `slack` readable bytes past its nominal
/// end, as the vectorized tiers require.
fn data_with_slack(slack: usize) -> Vec<u8> {
    let mut buf = DATA_SET.to_vec();
    buf.resize(DATA_SET.len() + slack, 0);
    buf
}

#[test]
fn avx2() {
    let scanner = Scanner::new(PATTERN);
    let buf = data_with_slack(31);
    let result = scanner.find(Some(ScanMode::Avx2), ALL_FEATURES, &buf, DATA_SET.len());

    let ptr = result.get_addr();

    assert_eq!(ptr, Some(0x24));
}

#[test]
fn sse42() {
    let scanner = Scanner::new(PATTERN);
    let buf = data_with_slack(15);
    let result = scanner.find(Some(ScanMode::Sse42), ALL_FEATURES, &buf, DATA_SET.len());

    let ptr = result.get_addr();

    assert_eq!(ptr, Some(0x24));
}

#[test]
fn scalar() {
    let scanner = Scanner::new(PATTERN);
    let result = scanner.find(Some(ScanMode::Scalar), ALL_FEATURES, &DATA_SET, DATA_SET.len());

    let ptr = result.get_addr();

    assert_eq!(ptr, Some(0x24));
}
