use autoxrandr::edid::{display_code, display_code_of, edid_property_index};
use autoxrandr::rotation::Rotation;
use autoxrandr::text::{name_precedes, push_decimal, push_signed_decimal};

fn block_with(tail: [u8; 8], len: usize) -> Vec<u8> {
    let mut block = vec![0u8, 0xff, 0xff, 0xff, 0xff, 0xff, 0xff, 0];
    block.extend_from_slice(&tail);
    block.resize(len, 0);
    block
}

#[test]
fn identity_code_packs_the_three_numbers() {
    let block = block_with([0x34, 0x12, 0x78, 0x56, 0xef, 0xcd, 0xab, 0x89], 128);
    assert_eq!(display_code(&block), 0x89ab_cdef_5678_1234);
}

#[test]
fn identity_code_reads_little_endian() {
    let block = block_with([1, 0, 0, 0, 0, 0, 0, 0], 128);
    assert_eq!(display_code(&block), 1);
    let block = block_with([0, 1, 0, 0, 0, 0, 0, 0], 128);
    assert_eq!(display_code(&block), 256);
    let block = block_with([0, 0, 1, 0, 0, 0, 0, 0], 128);
    assert_eq!(display_code(&block), 1 << 16);
    let block = block_with([0, 0, 0, 1, 0, 0, 0, 0], 128);
    assert_eq!(display_code(&block), 1 << 24);
    let block = block_with([0, 0, 0, 0, 1, 0, 0, 0], 128);
    assert_eq!(display_code(&block), 1 << 32);
    let block = block_with([0, 0, 0, 0, 0, 0, 0, 1], 128);
    assert_eq!(display_code(&block), 1 << 56);
}

#[test]
fn identity_code_of_all_ones() {
    let block = block_with([0xff; 8], 16);
    assert_eq!(display_code(&block), u64::MAX);
}

#[test]
fn identity_code_ignores_header_and_rest() {
    let mut a = block_with([9, 8, 7, 6, 5, 4, 3, 2], 128);
    let b = a.clone();
    a[0] = 42;
    a[7] = 42;
    a[16] = 42;
    a[127] = 42;
    assert_eq!(display_code(&a), display_code(&b));
}

#[test]
fn short_block_is_unreadable() {
    assert_eq!(display_code(&[]), 0);
    let block = block_with([0xff; 8], 16);
    assert_eq!(display_code(&block[..15]), 0);
    assert_ne!(display_code(&block[..16]), 0);
}

#[test]
fn absent_block_gives_zero() {
    assert_eq!(display_code_of(&None), 0);
    let block = block_with([0x34, 0x12, 0, 0, 0, 0, 0, 0], 128);
    assert_eq!(display_code_of(&Some(block)), 0x1234);
}

#[test]
fn edid_property_is_found_by_name() {
    let names = vec![b"Backlight".to_vec(), b"EDID".to_vec(), b"scaling mode".to_vec(), b"EDID".to_vec()];
    assert_eq!(edid_property_index(&names), Some(1));
}

#[test]
fn edid_property_may_be_missing() {
    let names = vec![b"Backlight".to_vec(), b"EDI".to_vec(), b"EDID2".to_vec(), b"edid".to_vec()];
    assert_eq!(edid_property_index(&names), None);
    assert_eq!(edid_property_index(&Vec::new()), None);
}

#[test]
fn rotation_mapping() {
    assert_eq!(Rotation::from_raw(0), Rotation::Normal);
    assert_eq!(Rotation::from_raw(1), Rotation::Normal);
    assert_eq!(Rotation::from_raw(2), Rotation::Left);
    assert_eq!(Rotation::from_raw(4), Rotation::Inverted);
    assert_eq!(Rotation::from_raw(8), Rotation::Right);
}

#[test]
fn unrecognised_rotation_is_normal() {
    for raw in [3u16, 5, 6, 7, 9, 16, 17, 32, 255, 256, u16::MAX] {
        assert_eq!(Rotation::from_raw(raw), Rotation::Normal);
    }
}

#[test]
fn rotation_words() {
    assert_eq!(Rotation::Normal.as_str(), "normal");
    assert_eq!(Rotation::Left.as_str(), "left");
    assert_eq!(Rotation::Inverted.as_str(), "inverted");
    assert_eq!(Rotation::Right.as_str(), "right");
}

#[test]
fn rotation_raw_round_trip() {
    for rotation in [Rotation::Normal, Rotation::Left, Rotation::Inverted, Rotation::Right] {
        assert_eq!(Rotation::from_raw(rotation.raw()), rotation);
    }
    assert_eq!(Rotation::Normal.raw(), 1);
    assert_eq!(Rotation::Left.raw(), 2);
    assert_eq!(Rotation::Inverted.raw(), 4);
    assert_eq!(Rotation::Right.raw(), 8);
}

#[test]
fn decimal_notation() {
    for (n, text) in [
        (0u64, "0"),
        (7, "7"),
        (10, "10"),
        (12345, "12345"),
        (1_000_000, "1000000"),
        (u64::MAX, "18446744073709551615"),
    ] {
        let mut out = String::from("n=");
        push_decimal(&mut out, n);
        assert_eq!(out, format!("n={text}"));
    }
}

#[test]
fn signed_decimal_notation() {
    for (n, text) in [(0i16, "0"), (5, "5"), (-5, "-5"), (i16::MAX, "32767"), (i16::MIN, "-32768")] {
        let mut out = String::new();
        push_signed_decimal(&mut out, n);
        assert_eq!(out, text);
    }
}

#[test]
fn names_are_ordered_as_in_a_dictionary() {
    assert!(name_precedes("DP-1", "DP-2"));
    assert!(!name_precedes("DP-2", "DP-1"));
    assert!(!name_precedes("DP-1", "DP-1"));
    assert!(name_precedes("DP-1", "DP-1-1"));
    assert!(!name_precedes("DP-1-1", "DP-1"));
    assert!(name_precedes("", "a"));
    assert!(!name_precedes("", ""));
    assert!(name_precedes("DP-1", "eDP-1"));
    assert!(name_precedes("HDMI-10", "HDMI-2"));
    assert!(name_precedes("z", "é"));
}

#[test]
fn name_order_agrees_with_string_order() {
    let names = ["", "DP-1", "DP-1-1", "DP-2", "HDMI-1", "HDMI-10", "eDP-1", "VGA-1", "é", "日本"];
    for a in names {
        for b in names {
            assert_eq!(name_precedes(a, b), a < b);
        }
    }
}
