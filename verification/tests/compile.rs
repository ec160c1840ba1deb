use lightningscanner::pattern::Pattern;
use lightningscanner::Scanner;

#[test]
fn from_impls_compile_and_bind() {
    let p = Pattern::from("48 89");
    assert_eq!(p.unpadded_size(), 2);
    assert_eq!(p.data_at(0), 0x48);
    assert_eq!(p.data_at(1), 0x89);

    let scanner = Scanner::from(Pattern::from("48 89 ?"));
    assert_eq!(scanner.unpadded_size(), 3);
}

#[test]
fn compiled_sizes_and_padding() {
    // 8 tokens, padded to one 32-byte window.
    let p = Pattern::new("48 89 5c 24 ?? 48 89 6c");
    assert_eq!(p.unpadded_size(), 8);
    assert_eq!(p.len(), 32);
    // Padding is fully unconstrained.
    for i in 8..32 {
        assert_eq!(p.data_at(i), 0x00);
        assert_eq!(p.mask_at(i), 0x00);
    }
    // 36 tokens, padded to two 32-byte windows.
    let p = Pattern::new(
        "40 57 48 83 EC ? 48 C7 44 24 ? ? ? ? ? 48 89 5C 24 ? 48 89 6C 24 ? 48 89 74 24 ? 49 8B E9 48 8B F2",
    );
    assert_eq!(p.unpadded_size(), 36);
    assert_eq!(p.len(), 64);
}

#[test]
fn compiled_bytes_and_masks() {
    let p = Pattern::new("48 89 5c 24 ?? 48 89 6c");
    let expected_data = [0x48, 0x89, 0x5c, 0x24, 0x00, 0x48, 0x89, 0x6c];
    let expected_mask = [0xff, 0xff, 0xff, 0xff, 0x00, 0xff, 0xff, 0xff];
    for i in 0..8 {
        assert_eq!(p.data_at(i), expected_data[i]);
        assert_eq!(p.mask_at(i), expected_mask[i]);
    }
}

#[test]
fn single_question_mark_wildcard() {
    // `?` and `??` each emit exactly one wildcard byte.
    let p = Pattern::new("aa ? bb ?? cc");
    assert_eq!(p.unpadded_size(), 5);
    assert_eq!(p.data_at(1), 0x00);
    assert_eq!(p.mask_at(1), 0x00);
    assert_eq!(p.data_at(3), 0x00);
    assert_eq!(p.mask_at(3), 0x00);
    assert_eq!(p.data_at(4), 0xcc);
}

#[test]
fn malformed_tokens_degrade_silently() {
    // Characters outside the hex alphabet decode to nibble 0 without
    // an error: the token still emits one fully constrained byte.
    let p = Pattern::new("zz");
    assert_eq!(p.unpadded_size(), 1);
    assert_eq!(p.data_at(0), 0x00);
    assert_eq!(p.mask_at(0), 0xff);

    let p = Pattern::new("4g");
    assert_eq!(p.data_at(0), 0x40);

    // A token cut short by the end of the text reads '\0' (nibble 0)
    // for its second character.
    let p = Pattern::new("4");
    assert_eq!(p.unpadded_size(), 1);
    assert_eq!(p.data_at(0), 0x40);

    // A `?` followed by a non-'?' character leaves that character to
    // start the next token.
    let p = Pattern::new("?x");
    assert_eq!(p.unpadded_size(), 2);
    assert_eq!(p.mask_at(0), 0x00);
    assert_eq!(p.data_at(1), 0x00);
    assert_eq!(p.mask_at(1), 0xff);
}

#[test]
fn literal_pattern_uses_utf8_bytes() {
    let p = Pattern::new_string("é");
    assert_eq!(p.unpadded_size(), 2);
    assert_eq!(p.data_at(0), 0xc3);
    assert_eq!(p.data_at(1), 0xa9);
    assert_eq!(p.mask_at(0), 0xff);
    assert_eq!(p.mask_at(1), 0xff);
}

#[test]
fn empty_and_spaces_compile_to_empty_pattern() {
    let p = Pattern::new("");
    assert_eq!(p.unpadded_size(), 0);
    assert_eq!(p.len(), 0);
    let p = Pattern::new("   ");
    assert_eq!(p.unpadded_size(), 0);
    assert_eq!(p.len(), 0);
}

#[test]
fn literal_pattern_full_mask() {
    let p = Pattern::new_string("LocalPlayer");
    assert_eq!(p.unpadded_size(), 11);
    assert_eq!(p.len(), 32);
    let expected = b"LocalPlayer";
    for i in 0..11 {
        assert_eq!(p.data_at(i), expected[i]);
        assert_eq!(p.mask_at(i), 0xff);
    }
    for i in 11..32 {
        assert_eq!(p.data_at(i), 0x00);
        assert_eq!(p.mask_at(i), 0x00);
    }
}
