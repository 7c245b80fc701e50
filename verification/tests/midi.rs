use truce::midi::{
    downconvert_16_to_7, downconvert_32_to_14, downconvert_32_to_7, pitch_bend_from_bytes,
    pitch_bend_to_bytes, upconvert_14_to_32, upconvert_7_to_16, upconvert_7_to_32,
};

#[test]
fn pitch_bend_byte_split_round_trip() {
    for raw in 0u16..=16383 {
        let (lsb, msb) = pitch_bend_to_bytes(raw);
        assert!(lsb < 128 && msb < 128);
        assert_eq!(pitch_bend_from_bytes(lsb, msb), raw);
    }
}

#[test]
fn pitch_bend_from_bytes_masks_high_bit() {
    // Status-flag bits in either byte must not corrupt the result.
    assert_eq!(pitch_bend_from_bytes(0xFF, 0xFF), 16383);
    assert_eq!(pitch_bend_from_bytes(0x80, 0x80), 0);
}

#[test]
fn upconvert_7_to_16_endpoints() {
    // The spec algorithm preserves: 0 → 0, 64 → 0x8000 (center
    // → center), 127 → 0xFFFF (max → max).
    assert_eq!(upconvert_7_to_16(0), 0);
    assert_eq!(upconvert_7_to_16(64), 0x8000);
    assert_eq!(upconvert_7_to_16(127), 0xFFFF);
}

#[test]
fn upconvert_14_to_32_endpoints() {
    assert_eq!(upconvert_14_to_32(0), 0);
    assert_eq!(upconvert_14_to_32(8192), 0x8000_0000);
    assert_eq!(upconvert_14_to_32(16383), 0xFFFF_FFFF);
}

#[test]
fn downconvert_round_trips_endpoints() {
    for v in [0u8, 64, 127] {
        assert_eq!(downconvert_16_to_7(upconvert_7_to_16(v)), v);
        assert_eq!(downconvert_32_to_7(upconvert_7_to_32(v)), v);
    }
    for v in [0u16, 8192, 16383] {
        assert_eq!(downconvert_32_to_14(upconvert_14_to_32(v)), v);
    }
}

#[test]
fn pitch_bend_split_of_center_and_ends() {
    assert_eq!(pitch_bend_to_bytes(0), (0, 0));
    assert_eq!(pitch_bend_to_bytes(8192), (0, 64));
    assert_eq!(pitch_bend_to_bytes(16383), (127, 127));
    assert_eq!(pitch_bend_to_bytes(0x1234), (0x34, 0x24));
}

#[test]
fn pitch_bend_join_of_split_bytes() {
    assert_eq!(pitch_bend_from_bytes(0x34, 0x24), 0x1234);
    assert_eq!(pitch_bend_from_bytes(0x7F, 0x00), 127);
    assert_eq!(pitch_bend_from_bytes(0x00, 0x01), 128);
    // Only the high bit is dropped, the low seven survive.
    assert_eq!(pitch_bend_from_bytes(0xB4, 0xA4), 0x1234);
}

#[test]
fn pitch_bend_bytes_round_trip_from_byte_side() {
    for lsb in 0u8..=255 {
        for msb in [0u8, 1, 64, 127, 128, 200, 255] {
            let raw = pitch_bend_from_bytes(lsb, msb);
            assert!(raw <= 16383);
            assert_eq!(pitch_bend_to_bytes(raw), (lsb & 0x7F, msb & 0x7F));
        }
    }
}

#[test]
fn upconvert_7_to_32_endpoints() {
    assert_eq!(upconvert_7_to_32(0), 0);
    assert_eq!(upconvert_7_to_32(64), 0x8000_0000);
    assert_eq!(upconvert_7_to_32(127), 0xFFFF_FFFF);
}

#[test]
fn upconvert_scales_below_center_and_replicates_above() {
    // Below center: pure shift.
    assert_eq!(upconvert_7_to_16(1), 1 << 9);
    assert_eq!(upconvert_7_to_16(63), 63 << 9);
    // Above center: the 6-bit pattern 36 = 0b100100 fills the 9 low
    // bits as 100100_100.
    assert_eq!(upconvert_7_to_16(100), (100 << 9) | 0b100100_100);
    assert_eq!(upconvert_7_to_16(100), 51492);
    assert_eq!(upconvert_7_to_16(65), (65 << 9) | 0b000001_000);
    assert_eq!(upconvert_14_to_32(8193), (8193 << 18) | (1 << 5));
}

#[test]
fn downconvert_keeps_top_bits() {
    assert_eq!(downconvert_16_to_7(0xFFFF), 127);
    assert_eq!(downconvert_16_to_7(0x8000), 64);
    assert_eq!(downconvert_16_to_7(0x01FF), 0);
    assert_eq!(downconvert_32_to_7(0xFFFF_FFFF), 127);
    assert_eq!(downconvert_32_to_7(0x01FF_FFFF), 0);
    assert_eq!(downconvert_32_to_14(0xFFFF_FFFF), 16383);
    assert_eq!(downconvert_32_to_14(0x8000_0000), 8192);
}

#[test]
fn downconvert_undoes_upconvert_for_every_code() {
    for v in 0u8..=127 {
        assert_eq!(downconvert_16_to_7(upconvert_7_to_16(v)), v);
        assert_eq!(downconvert_32_to_7(upconvert_7_to_32(v)), v);
    }
    for v in 0u16..=16383 {
        assert_eq!(downconvert_32_to_14(upconvert_14_to_32(v)), v);
    }
}

#[test]
fn upconvert_keeps_code_order() {
    for v in 0u8..127 {
        assert!(upconvert_7_to_16(v) < upconvert_7_to_16(v + 1));
        assert!(upconvert_7_to_32(v) < upconvert_7_to_32(v + 1));
    }
    for v in 0u16..16383 {
        assert!(upconvert_14_to_32(v) < upconvert_14_to_32(v + 1));
    }
}
