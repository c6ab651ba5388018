use qrpix::generate::synthesize;
use qrpix::render::{render_jpg, render_png, render_svg, render_webp};

#[test]
fn svg_deterministic_and_well_formed() {
    let b = synthesize("svg output", 128, 4, 2).expect("generation failed");
    let first = render_svg(&b);
    let second = render_svg(&b);
    assert_eq!(first, second);
    assert!(first.starts_with("<svg xmlns=\"http://www.w3.org/2000/svg\" width=\"128\" height=\"128\" viewBox=\"0 0 128 128\" shape-rendering=\"crispEdges\">"));
    assert!(first.contains("<rect width=\"100%\" height=\"100%\" fill=\"white\"/>"));
    assert!(first.ends_with("</svg>"));
    let dark = b.pixels.iter().filter(|&&p| p == 0).count();
    let rects = first.matches("fill=\"black\"").count();
    assert_eq!(rects, dark);
}

#[test]
fn svg_rect_coordinates_match_pixels() {
    let b = synthesize("tiny", 1, 0, 0).expect("generation failed");
    let svg = render_svg(&b);
    let w = b.width as usize;
    // The first dark pixel in row-major order must be the first rectangle.
    let first_dark = b.pixels.iter().position(|&p| p == 0).expect("no dark pixel");
    let expect = format!(
        "<rect x=\"{}\" y=\"{}\" width=\"1\" height=\"1\" fill=\"black\"/>",
        first_dark % w,
        first_dark / w
    );
    let background = "<rect width=\"100%\" height=\"100%\" fill=\"white\"/>";
    let after_bg = svg.find(background).expect("no background") + background.len();
    assert!(svg[after_bg..].starts_with(&expect));
}

#[test]
fn svg_header_uses_width_and_height() {
    let b = qrpix::types::QrBitmap { width: 2, height: 1, pixels: vec![0, 255] };
    let svg = render_svg(&b);
    assert!(svg.starts_with("<svg xmlns=\"http://www.w3.org/2000/svg\" width=\"2\" height=\"1\" viewBox=\"0 0 2 1\" shape-rendering=\"crispEdges\">"));
    assert!(svg.contains("<rect x=\"0\" y=\"0\" width=\"1\" height=\"1\" fill=\"black\"/>"));
    assert_eq!(svg.matches("fill=\"black\"").count(), 1);
}

#[test]
fn png_decodes_back_to_the_same_raster() {
    let b = synthesize("png faithful", 160, 4, 1).expect("generation failed");
    let png = render_png(&b).expect("png encoding failed");
    assert_ne!(png.as_slice(), b.pixels.as_slice());
    let img = image::load_from_memory(&png).expect("png did not parse");
    assert_eq!(img.width(), b.width);
    assert_eq!(img.height(), b.height);
    assert_eq!(img.to_luma8().into_raw(), b.pixels);
}

#[test]
fn png_and_webp_are_content_equivalent() {
    let b = synthesize("format equivalence", 192, 4, 2).expect("generation failed");
    let png = render_png(&b).expect("png encoding failed");
    let webp = render_webp(&b).expect("webp encoding failed");
    assert_ne!(png, webp);
    let from_png = image::load_from_memory(&png).expect("png did not parse").to_luma8();
    let from_webp = image::load_from_memory(&webp).expect("webp did not parse").to_luma8();
    // Re-binarize both rasters and compare the module pattern.
    let bin_png: Vec<u8> = from_png.into_raw().iter().map(|&p| if p < 128 { 0 } else { 255 }).collect();
    let bin_webp: Vec<u8> = from_webp.into_raw().iter().map(|&p| if p < 128 { 0 } else { 255 }).collect();
    assert_eq!(bin_png, bin_webp);
    assert_eq!(bin_png, b.pixels);
}

#[test]
fn jpg_renders_nonempty_output() {
    let b = synthesize("jpeg output", 128, 4, 2).expect("generation failed");
    let jpg = render_jpg(&b).expect("jpeg encoding failed");
    assert!(!jpg.is_empty());
    let img = image::load_from_memory(&jpg).expect("jpeg did not parse");
    assert_eq!(img.width(), b.width);
    assert_eq!(img.height(), b.height);
}

#[test]
fn data_url_wraps_the_png_bytes() {
    let png = qrpix::qr_png_bytes("data url", 128, 4, 2).expect("generation failed");
    let url = qrpix::qr_png_data_url("data url", 128, 4, 2).expect("generation failed");
    let prefix = "data:image/png;base64,";
    assert!(url.starts_with(prefix));
    let decoded = base64::Engine::decode(
        &base64::engine::general_purpose::STANDARD,
        &url[prefix.len()..],
    )
    .expect("base64 did not parse");
    assert_eq!(decoded, png);
}

#[test]
fn generate_entry_points_agree() {
    let a = qrpix::generate("entry", 256, 4, 2).expect("generation failed");
    let b = qrpix::generate_png("entry", 256, 4, 2).expect("generation failed");
    assert_eq!(a, b);
    let svg = qrpix::generate_svg("entry", 256, 4, 2).expect("generation failed");
    let core = qrpix::generate::generate_qr_bitmap("entry", 256, 4, 2).expect("generation failed");
    assert!(svg.contains(&format!("width=\"{}\"", core.width)));
}
