use qrpix::decode::{decode, decode_from_bytes, decode_from_rgba, to_grayscale};
use qrpix::error::DecodeError;
use qrpix::types::DecodeInput;

fn gray_to_rgba(width: u32, height: u32, gray: &[u8]) -> Vec<u8> {
    assert_eq!(gray.len(), (width * height) as usize);
    let mut rgba = Vec::with_capacity(gray.len() * 4);
    for &g in gray {
        rgba.push(g);
        rgba.push(g);
        rgba.push(g);
        rgba.push(255);
    }
    rgba
}

fn round_trip_levels(levels: [u8; 2]) {
    for level in levels {
        for text in ["HELLO", "verus qr", "1234567890"] {
            for size in [128u32, 256, 512] {
                for margin in [0u32, 4] {
                    let png = qrpix::qr_png_bytes(text, size, margin, level)
                        .expect("generation failed");
                    let got = decode_from_bytes(&png).expect("decode failed");
                    assert_eq!(got.text, text, "level {level} size {size} margin {margin}");
                }
            }
        }
    }
}

#[test]
fn round_trip_png_low_levels() {
    round_trip_levels([0, 1]);
}

#[test]
fn round_trip_png_high_levels() {
    round_trip_levels([2, 3]);
}

#[test]
fn round_trip_rgba_path() {
    let b = qrpix::generate::synthesize("raster path", 256, 4, 2).expect("generation failed");
    let rgba = gray_to_rgba(b.width, b.height, &b.pixels);
    let got = decode(DecodeInput::Rgba { width: b.width, height: b.height, data: &rgba })
        .expect("decode failed");
    assert_eq!(got.text, "raster path");
}

#[test]
fn invalid_buffer_rejected() {
    for bad_len in [0usize, 399, 401] {
        let rgba = vec![128u8; bad_len];
        match to_grayscale(10, 10, &rgba) {
            Err(DecodeError::InvalidImageBuffer) => {},
            _ => panic!("length {bad_len} must be rejected as an invalid buffer"),
        }
        match decode_from_rgba(10, 10, &rgba) {
            Err(DecodeError::InvalidImageBuffer) => {},
            _ => panic!("length {bad_len} must be rejected as an invalid buffer"),
        }
    }
}

#[test]
fn grayscale_uses_exact_luma_weights() {
    let rgba = [10u8, 20, 30, 77, 255, 255, 255, 0, 0, 0, 0, 255, 200, 100, 50, 1];
    let g = to_grayscale(4, 1, &rgba).expect("conversion failed");
    // floor((r*299 + g*587 + b*114) / 1000), alpha ignored
    assert_eq!(g.samples, vec![18, 255, 0, 124]);
    assert_eq!(g.width, 4);
    assert_eq!(g.height, 1);
}

#[test]
fn decode_on_noise_is_not_found() {
    // Deterministic pseudo-random noise, no QR symbol anywhere.
    let mut state = 0x2545F491u32;
    let mut gray = Vec::with_capacity(120 * 120);
    for _ in 0..120 * 120 {
        state = state.wrapping_mul(1664525).wrapping_add(1013904223);
        gray.push((state >> 24) as u8);
    }
    let rgba = gray_to_rgba(120, 120, &gray);
    match decode_from_rgba(120, 120, &rgba) {
        Err(DecodeError::NotFound) => {},
        Ok(r) => panic!("noise decoded to a spurious result: {}", r.text),
        Err(e) => panic!("noise must give NotFound, got {e:?}"),
    }
}

#[test]
fn degenerate_raster_is_not_found() {
    // A raster with no pixels holds no grid; zero dimensions with a
    // matching (empty) buffer must not reach the locator.
    let empty: [u8; 0] = [];
    for (w, h) in [(0u32, 1u32), (0, 7), (5, 0), (0, 0)] {
        match decode_from_rgba(w, h, &empty) {
            Err(DecodeError::NotFound) => {},
            other => panic!("{w}x{h} empty raster must give NotFound, got {other:?}"),
        }
        match decode(DecodeInput::Rgba { width: w, height: h, data: &empty }) {
            Err(DecodeError::NotFound) => {},
            other => panic!("{w}x{h} empty raster must give NotFound, got {other:?}"),
        }
    }
}

#[test]
fn garbage_bytes_are_invalid_image() {
    let garbage = [0u8, 1, 2, 3, 4, 5, 6, 7];
    match decode(DecodeInput::ImageBytes(&garbage)) {
        Err(DecodeError::InvalidImage) => {},
        _ => panic!("garbage container bytes must give InvalidImage"),
    }
}
