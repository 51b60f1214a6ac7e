use linux_themer::xcursor::{xcursor_decode, xcursor_to_png};

/// A synthetic Xcursor file: 16-byte header, one table entry, one image
/// chunk of 10 x 16 ARGB pixels (the first one transparent).
fn make_xcursor() -> Vec<u8> {
    let mut b = Vec::new();
    b.extend_from_slice(&0x72756358u32.to_le_bytes());
    b.extend_from_slice(&16u32.to_le_bytes());
    b.extend_from_slice(&0x0001_0000u32.to_le_bytes());
    b.extend_from_slice(&1u32.to_le_bytes());
    b.extend_from_slice(&0xfffd_0002u32.to_le_bytes());
    b.extend_from_slice(&16u32.to_le_bytes());
    b.extend_from_slice(&28u32.to_le_bytes());
    b.extend_from_slice(&36u32.to_le_bytes());
    b.extend_from_slice(&0xfffd_0002u32.to_le_bytes());
    b.extend_from_slice(&16u32.to_le_bytes());
    b.extend_from_slice(&1u32.to_le_bytes());
    b.extend_from_slice(&10u32.to_le_bytes());
    b.extend_from_slice(&16u32.to_le_bytes());
    b.extend_from_slice(&3u32.to_le_bytes());
    b.extend_from_slice(&1u32.to_le_bytes());
    b.extend_from_slice(&40u32.to_le_bytes());
    for i in 0..10 * 16 {
        let a = if i == 0 { 0 } else { 0xff };
        b.extend_from_slice(&(a << 24 | 0x10_20_30u32).to_le_bytes());
    }
    b
}

#[test]
fn xcursor_decode_roundtrip() {
    let img = xcursor_decode(&make_xcursor()).expect("should decode the synthetic Xcursor file");
    assert_eq!((img.width, img.height), (10, 16));
    assert_eq!(img.rgba.len(), 10 * 16 * 4);
    assert_eq!(&img.rgba[0..8], &[0x10, 0x20, 0x30, 0x00, 0x10, 0x20, 0x30, 0xff]);

    let png = xcursor_to_png(&make_xcursor()).expect("should render the synthetic Xcursor file");
    assert_eq!(&png[0..8], &[0x89, b'P', b'N', b'G', 0x0d, 0x0a, 0x1a, 0x0a]);
    let again = xcursor_to_png(&make_xcursor()).unwrap();
    assert_eq!(png, again, "the same file renders to the same PNG");
}

#[test]
fn xcursor_rejects_garbage() {
    assert!(xcursor_to_png(&b"this is not an Xcursor file at all".to_vec()).is_none());
    assert!(xcursor_decode(&Vec::new()).is_none());
}

#[test]
fn xcursor_prefers_size_closest_to_32() {
    // two image chunks: nominal 48 (2x1) then nominal 24 (1x1); 24 and 48 are
    // both 8 and 16 away from 32, so 24 (score -8) beats 48 (score -16)
    let mut b = Vec::new();
    for v in [0x72756358u32, 16, 1, 2] {
        b.extend_from_slice(&v.to_le_bytes());
    }
    for v in [0xfffd_0002u32, 48, 40, 0xfffd_0002u32, 24, 40 + 36 + 8] {
        b.extend_from_slice(&v.to_le_bytes());
    }
    for (w, h, px) in [(2u32, 1u32, vec![0xff00_0001u32, 0xff00_0002]), (1, 1, vec![0x8011_2233])] {
        for v in [36u32, 0xfffd_0002, 0, 1, w, h, 0, 0, 0] {
            b.extend_from_slice(&v.to_le_bytes());
        }
        for p in px {
            b.extend_from_slice(&p.to_le_bytes());
        }
    }
    let img = xcursor_decode(&b).unwrap();
    assert_eq!((img.width, img.height), (1, 1));
    assert_eq!(img.rgba, vec![0x11, 0x22, 0x33, 0x80]);
}

#[test]
fn xcursor_rejects_truncated_pixels() {
    let mut b = make_xcursor();
    b.truncate(b.len() - 4);
    assert!(xcursor_decode(&b).is_none());
}

#[test]
fn xcursor_range_check() {
    assert!(linux_themer::xcursor::decode_in_range(&make_xcursor()));
    assert!(linux_themer::xcursor::decode_in_range(&b"not a cursor".to_vec()));
    // a candidate chunk whose nominal size is 2^31: its distance to 32 does
    // not fit in an i32
    let mut b = make_xcursor();
    b[20..24].copy_from_slice(&0x8000_0000u32.to_le_bytes());
    assert!(!linux_themer::xcursor::decode_in_range(&b));
}

#[test]
fn xcursor_prefers_32_over_a_small_size() {
    // nominal 8 (2x1) then nominal 32 (1x1): 32 is the closest to 32
    let mut b = Vec::new();
    for v in [0x72756358u32, 16, 1, 2] {
        b.extend_from_slice(&v.to_le_bytes());
    }
    for v in [0xfffd_0002u32, 8, 40, 0xfffd_0002u32, 32, 40 + 36 + 8] {
        b.extend_from_slice(&v.to_le_bytes());
    }
    for (w, h, px) in [(2u32, 1u32, vec![0xff00_0001u32, 0xff00_0002]), (1, 1, vec![0x8011_2233])] {
        for v in [36u32, 0xfffd_0002, 0, 1, w, h, 0, 0, 0] {
            b.extend_from_slice(&v.to_le_bytes());
        }
        for p in px {
            b.extend_from_slice(&p.to_le_bytes());
        }
    }
    let img = xcursor_decode(&b).unwrap();
    assert_eq!((img.width, img.height), (1, 1));
    assert_eq!(img.rgba, vec![0x11, 0x22, 0x33, 0x80]);
}
