use micro_gui::rgba::{bw_to_rgba32, rgb24_to_rgba32};

#[test]
fn test_bw_to_rgba32() {
    let pixels = [0b1000_0001, 0b0100_0010];
    let expected = [
        0x00, 0x00, 0x00, 0x00, 0xFF, 0xFF, 0xFF, 0xFF, 0xFF, 0xFF, 0xFF, 0xFF, 0xFF, 0xFF, 0xFF,
        0xFF, 0xFF, 0xFF, 0xFF, 0xFF, 0xFF, 0xFF, 0xFF, 0xFF, 0xFF, 0xFF, 0xFF, 0xFF, 0x00, 0x00,
        0x00, 0x00, 0xFF, 0xFF, 0xFF, 0xFF, 0x00, 0x00, 0x00, 0x00, 0xFF, 0xFF, 0xFF, 0xFF, 0xFF,
        0xFF, 0xFF, 0xFF, 0xFF, 0xFF, 0xFF, 0xFF, 0xFF, 0xFF, 0xFF, 0xFF, 0x00, 0x00, 0x00, 0x00,
        0xFF, 0xFF, 0xFF, 0xFF,
    ]
    .to_vec();

    let mapped = bw_to_rgba32(8, 2, &pixels);

    assert_eq!(expected.len(), mapped.len());
    assert_eq!(expected, mapped);
}

#[test]
fn test_rgb24_to_rgba32() {
    let pixels = [
        0x11, 0x22, 0x33, 0x44, 0x55, 0x66, 0x77, 0x88, 0x99, 0xaa, 0xbb, 0xcc,
    ];
    let expected = [
        0xff, 0x33, 0x22, 0x11, 0xff, 0x66, 0x55, 0x44, 0xff, 0x99, 0x88, 0x77, 0xff, 0xcc, 0xbb,
        0xaa,
    ]
    .to_vec();

    let mapped = rgb24_to_rgba32(2, 2, &pixels);

    assert_eq!(expected.len(), mapped.len());
    assert_eq!(expected, mapped);
}

#[test]
fn bw_rows_use_their_own_bytes() {
    let pixels = [0x00, 0x00, 0xFF, 0x01];
    let mapped = bw_to_rgba32(16, 2, &pixels);
    assert_eq!(mapped.len(), 16 * 2 * 4);
    assert!(mapped[..64].iter().all(|b| *b == 0xFF));
    assert!(mapped[64..96].iter().all(|b| *b == 0x00));
    assert!(mapped[96..124].iter().all(|b| *b == 0xFF));
    assert!(mapped[124..].iter().all(|b| *b == 0x00));
    assert!(bw_to_rgba32(0, 5, &[]).is_empty());
}
