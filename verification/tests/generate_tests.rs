use qrpix::generate::{ecc_from_u8, generate_qr_bitmap, synthesize, EccLevel};

fn assert_bitmap_ok(text: &str, size: u32, margin: u32, ecc: u8) -> qrpix::types::QrBitmap {
    match synthesize(text, size, margin, ecc) {
        Ok(b) => b,
        Err(_) => panic!("synthesis failed for {text}"),
    }
}

#[test]
fn ecc_ordinal_mapping() {
    assert_eq!(ecc_from_u8(0), EccLevel::Low);
    assert_eq!(ecc_from_u8(1), EccLevel::Medium);
    assert_eq!(ecc_from_u8(2), EccLevel::Quartile);
    assert_eq!(ecc_from_u8(3), EccLevel::High);
    assert_eq!(ecc_from_u8(4), EccLevel::Quartile);
    assert_eq!(ecc_from_u8(255), EccLevel::Quartile);
}

#[test]
fn size_floor_holds() {
    for level in 0u8..4 {
        let b = assert_bitmap_ok("floor", 10, 4, level);
        assert_eq!(b.width, b.height);
        assert!(b.width >= 128);
    }
}

#[test]
fn synthesize_gives_exact_clamped_size() {
    let b = assert_bitmap_ok("exact", 200, 4, 2);
    assert_eq!(b.width, 200);
    assert_eq!(b.height, 200);
    let b = assert_bitmap_ok("exact", 50, 0, 2);
    assert_eq!(b.width, 128);
}

#[test]
fn size_monotonicity_observed() {
    let mut last = 0u32;
    for size in [1u32, 64, 128, 129, 200, 256, 300, 512, 1024] {
        let b = assert_bitmap_ok("monotone", size, 4, 2);
        assert!(b.width >= last, "width shrank at size {size}");
        last = b.width;
    }
    let mut last_core = 0u32;
    for size in [1u32, 64, 128, 129, 200, 256, 300, 512, 1024] {
        let b = generate_qr_bitmap("monotone", size, 4, 2).expect("generation failed");
        assert!(b.width >= last_core, "core width shrank at size {size}");
        last_core = b.width;
    }
}

#[test]
fn pixel_binarity() {
    let b = assert_bitmap_ok("binary pixels", 256, 4, 2);
    assert_eq!(b.pixels.len(), (b.width * b.height) as usize);
    for &p in &b.pixels {
        assert!(p == 0 || p == 255, "non-binary pixel value {p}");
    }
    let core = generate_qr_bitmap("binary pixels", 256, 0, 1).expect("generation failed");
    for &p in &core.pixels {
        assert!(p == 0 || p == 255, "non-binary pixel value {p}");
    }
}

#[test]
fn margin_floor_leaves_light_border() {
    // The clamped margin keeps at least 4 scaled modules of whitespace on
    // every edge, so the first rows and columns are fully light.
    let b = generate_qr_bitmap("border", 256, 0, 2).expect("generation failed");
    let w = b.width as usize;
    for x in 0..w {
        assert_eq!(b.pixels[x], 255);
        assert_eq!(b.pixels[(w - 1) * w + x], 255);
    }
    for y in 0..w {
        assert_eq!(b.pixels[y * w], 255);
        assert_eq!(b.pixels[y * w + w - 1], 255);
    }
}

#[test]
fn size_and_margin_are_clamped() {
    // The requested size is capped, so the allocation stays bounded.
    let b = assert_bitmap_ok("caps", u32::MAX, 4, 2);
    assert_eq!(b.width, 8192);
    // An enormous margin is capped too; the symbol still fits the canvas.
    let b = generate_qr_bitmap("caps", 128, u32::MAX, 2).expect("generation failed");
    assert_eq!(b.width, b.height);
    assert!(b.width <= 8192);
    let m = qrpix::generate::generate_qr_bitmap("caps", 128, 256, 2).expect("generation failed");
    assert_eq!(b.width, m.width);
    assert_eq!(b.pixels, m.pixels);
}

#[test]
fn oversized_payload_is_rejected() {
    let long = "x".repeat(8000);
    match synthesize(&long, 256, 4, 3) {
        Ok(_) => panic!("expected the encoder to reject an oversized payload"),
        Err(qrpix::error::GenerateError::Qr(_)) => {},
        Err(_) => panic!("wrong error variant for an oversized payload"),
    }
}
