use vstd::prelude::*;
use vstd::string::StringExecFns;
use vstd::arithmetic::div_mod::lemma_fundamental_div_mod_converse;
use crate::digits::{append_dec, dec_seq};
use crate::error::GenerateError;
use crate::types::QrBitmap;

verus! {

/// The PNG container bytes of an 8-bit grayscale raster (no palette, no
/// alpha, no interlacing): a pure function of the dimensions and pixels.
pub uninterp spec fn png_bytes_of(width: nat, height: nat, pixels: Seq<u8>) -> Seq<u8>;

/// The baseline-JPEG container bytes of an 8-bit grayscale raster at the
/// encoder's default quality: a pure function of the dimensions and
/// pixels.
pub uninterp spec fn jpeg_bytes_of(width: nat, height: nat, pixels: Seq<u8>) -> Seq<u8>;

/// The lossless-WEBP container bytes of an 8-bit grayscale raster: a
/// pure function of the dimensions and pixels.
pub uninterp spec fn webp_bytes_of(width: nat, height: nat, pixels: Seq<u8>) -> Seq<u8>;

/// Relies on png::Encoder with 8-bit grayscale color: deterministic
/// serialization of a raster into PNG bytes. Writing into a Vec, the
/// encoder fails exactly on a zero width or height; a mismatched buffer
/// is excluded by the precondition.
#[verifier::external_body]
fn png_encode(width: u32, height: u32, pixels: &Vec<u8>) -> (r: Result<Vec<u8>, String>)
    requires
        pixels@.len() == width as int * height as int,
    ensures
        r matches Ok(v) ==> v@ == png_bytes_of(width as nat, height as nat, pixels@) && 0 < width
            && 0 < height,
        r is Err ==> width == 0 || height == 0,
{
    let mut out = Vec::new();
    {
        let mut enc = png::Encoder::new(&mut out, width, height);
        enc.set_color(png::ColorType::Grayscale);
        enc.set_depth(png::BitDepth::Eight);
        let mut writer = match enc.write_header() {
            Ok(w) => w,
            Err(e) => return Err(e.to_string()),
        };
        if let Err(e) = writer.write_image_data(pixels.as_slice()) {
            return Err(e.to_string());
        }
    }
    Ok(out)
}

/// Renders the bitmap as an 8-bit single-channel grayscale PNG.
/// Encoding succeeds exactly for nonzero dimensions.
pub fn render_png(bitmap: &QrBitmap) -> (r: Result<Vec<u8>, GenerateError>)
    requires
        bitmap.wf(),
    ensures
        r is Ok <==> 0 < bitmap.width && 0 < bitmap.height,
        match r {
            Ok(v) => v@ == png_bytes_of(bitmap.width as nat, bitmap.height as nat, bitmap.pixels@),
            Err(e) => e is Png,
        },
{
    match png_encode(bitmap.width, bitmap.height, &bitmap.pixels) {
        Ok(v) => Ok(v),
        Err(e) => Err(GenerateError::Png(e)),
    }
}

/// Relies on image::codecs::jpeg::JpegEncoder (default quality) and
/// image::GrayImage::from_raw: deterministic serialization of a grayscale
/// raster into baseline-JPEG bytes. from_raw returns None when the buffer
/// holds fewer than width*height samples, and encode_image fails exactly
/// when a dimension is zero or above 65535; writing into a Vec cannot
/// fail otherwise.
#[verifier::external_body]
fn jpeg_encode(width: u32, height: u32, pixels: &Vec<u8>) -> (r: Result<Vec<u8>, String>)
    ensures
        r matches Ok(v) ==> v@ == jpeg_bytes_of(width as nat, height as nat, pixels@)
            && pixels@.len() >= width as int * height as int && 1 <= width <= 65535 && 1 <= height
            <= 65535,
        r is Err ==> pixels@.len() < width as int * height as int || width == 0 || width > 65535
            || height == 0 || height > 65535,
{
    let img = match image::GrayImage::from_raw(width, height, pixels.clone()) {
        Some(i) => i,
        None => return Err(String::from("invalid image buffer")),
    };
    let mut out = Vec::new();
    let mut enc = image::codecs::jpeg::JpegEncoder::new(&mut out);
    if let Err(e) = enc.encode_image(&img) {
        return Err(e.to_string());
    }
    Ok(out)
}

/// Renders the bitmap as a baseline JPEG (lossy; offered for
/// completeness, unsuitable where scanability must be preserved).
/// Encoding succeeds exactly for dimensions between 1 and 65535.
pub fn render_jpg(bitmap: &QrBitmap) -> (r: Result<Vec<u8>, GenerateError>)
    requires
        bitmap.wf(),
    ensures
        r is Ok <==> 1 <= bitmap.width <= 65535 && 1 <= bitmap.height <= 65535,
        match r {
            Ok(v) => v@ == jpeg_bytes_of(bitmap.width as nat, bitmap.height as nat, bitmap.pixels@),
            Err(e) => e is Image,
        },
{
    match jpeg_encode(bitmap.width, bitmap.height, &bitmap.pixels) {
        Ok(v) => Ok(v),
        Err(e) => Err(GenerateError::Image(e)),
    }
}

/// Relies on image::codecs::webp::WebPEncoder::new_lossless with L8
/// color: deterministic serialization of a grayscale raster into lossless
/// WEBP bytes. encode panics on a buffer that does not match the
/// dimensions (excluded by the precondition) and fails exactly when a
/// dimension is zero or above 16384; writing into a Vec cannot fail
/// otherwise.
#[verifier::external_body]
fn webp_encode(width: u32, height: u32, pixels: &Vec<u8>) -> (r: Result<Vec<u8>, String>)
    requires
        pixels@.len() == width as int * height as int,
    ensures
        r matches Ok(v) ==> v@ == webp_bytes_of(width as nat, height as nat, pixels@) && 1 <= width
            <= 16384 && 1 <= height <= 16384,
        r is Err ==> width == 0 || width > 16384 || height == 0 || height > 16384,
{
    let mut out = Vec::new();
    let enc = image::codecs::webp::WebPEncoder::new_lossless(&mut out);
    match enc.encode(pixels.as_slice(), width, height, image::ExtendedColorType::L8) {
        Ok(()) => Ok(out),
        Err(e) => Err(e.to_string()),
    }
}

/// Renders the bitmap as a lossless WEBP image. Encoding succeeds
/// exactly for dimensions between 1 and 16384.
pub fn render_webp(bitmap: &QrBitmap) -> (r: Result<Vec<u8>, GenerateError>)
    requires
        bitmap.wf(),
    ensures
        r is Ok <==> 1 <= bitmap.width <= 16384 && 1 <= bitmap.height <= 16384,
        match r {
            Ok(v) => v@ == webp_bytes_of(bitmap.width as nat, bitmap.height as nat, bitmap.pixels@),
            Err(e) => e is Image,
        },
{
    match webp_encode(bitmap.width, bitmap.height, &bitmap.pixels) {
        Ok(v) => Ok(v),
        Err(e) => Err(GenerateError::Image(e)),
    }
}

/// The markup of one unit-square dark pixel at integer coordinates.
pub open spec fn svg_rect(x: int, y: int) -> Seq<char> {
    "<rect x=\""@ + dec_seq(x as nat) + "\" y=\""@ + dec_seq(y as nat)
        + "\" width=\"1\" height=\"1\" fill=\"black\"/>"@
}

/// The markup of the dark pixels among the first k pixels of a row-major
/// buffer of row length w, in buffer order.
pub open spec fn svg_rects_upto(pixels: Seq<u8>, w: int, k: nat) -> Seq<char>
    decreases k,
{
    if k == 0 {
        Seq::empty()
    } else {
        svg_rects_upto(pixels, w, (k - 1) as nat) + (if pixels[k - 1] == 0 {
            svg_rect((k - 1) % w, (k - 1) / w)
        } else {
            Seq::empty()
        })
    }
}

/// The document header: root element carrying the bitmap's width and
/// height, a matching viewBox, edge-crisp rendering, and a white
/// full-canvas background.
pub open spec fn svg_header(width: int, height: int) -> Seq<char> {
    "<svg xmlns=\"http://www.w3.org/2000/svg\" width=\""@ + dec_seq(width as nat) + "\" height=\""@
        + dec_seq(height as nat) + "\" viewBox=\"0 0 "@ + dec_seq(width as nat) + " "@ + dec_seq(
        height as nat,
    ) + "\" shape-rendering=\"crispEdges\">"@ + "<rect width=\"100%\" height=\"100%\" fill=\"white\"/>"@
}

/// The complete vector document for a bitmap: header, one rectangle per
/// dark pixel in row-major order, closing tag.
pub open spec fn svg_of(width: int, height: int, pixels: Seq<u8>) -> Seq<char> {
    svg_header(width, height) + svg_rects_upto(pixels, width, (width * height) as nat) + "</svg>"@
}

/// Rendering is deterministic: equal bitmap contents give the identical
/// markup, character for character.
pub proof fn lemma_svg_deterministic(w1: int, h1: int, p1: Seq<u8>, w2: int, h2: int, p2: Seq<u8>)
    requires
        w1 == w2,
        h1 == h2,
        p1 == p2,
    ensures
        svg_of(w1, h1, p1) == svg_of(w2, h2, p2),
{
}

/// Renders the bitmap as an SVG document with a white background and one
/// unit-square black rectangle per dark pixel.
pub fn render_svg(bitmap: &QrBitmap) -> (r: String)
    requires
        bitmap.wf(),
    ensures
        r@ == svg_of(bitmap.width as int, bitmap.height as int, bitmap.pixels@),
{
    let w: usize = bitmap.width as usize;
    let h: usize = bitmap.height as usize;
    let plen: usize = bitmap.pixels.len();
    let ghost gw: int = bitmap.width as int;
    let ghost gh: int = bitmap.height as int;
    let mut out = String::new();
    out.append("<svg xmlns=\"http://www.w3.org/2000/svg\" width=\"");
    append_dec(&mut out, bitmap.width);
    out.append("\" height=\"");
    append_dec(&mut out, bitmap.height);
    out.append("\" viewBox=\"0 0 ");
    append_dec(&mut out, bitmap.width);
    out.append(" ");
    append_dec(&mut out, bitmap.height);
    out.append("\" shape-rendering=\"crispEdges\">");
    out.append("<rect width=\"100%\" height=\"100%\" fill=\"white\"/>");
    proof {
        assert(out@ =~= svg_header(gw, gh));
    }
    let mut y: usize = 0;
    while y < h
        invariant
            y <= h,
            w == gw,
            h == gh,
            gw == bitmap.width as int,
            gh == bitmap.height as int,
            plen as int == gw * gh,
            bitmap.pixels@.len() == gw * gh,
            bitmap.wf(),
            out@ == svg_header(gw, gh) + svg_rects_upto(bitmap.pixels@, gw, (y as int * gw) as nat),
        decreases h - y,
    {
        proof {
            assert(y * w + w <= h * w) by (nonlinear_arith)
                requires
                    0 <= y < h,
            ;
            vstd::arithmetic::mul::lemma_mul_is_commutative(gh, gw);
        }
        let mut x: usize = 0;
        while x < w
            invariant
                y < h,
                x <= w,
                w == gw,
                h == gh,
                gw == bitmap.width as int,
                gh == bitmap.height as int,
                plen as int == gw * gh,
                bitmap.pixels@.len() == gw * gh,
                bitmap.wf(),
                y as int * gw + gw <= gw * gh,
                out@ == svg_header(gw, gh) + svg_rects_upto(
                    bitmap.pixels@,
                    gw,
                    (y as int * gw + x as int) as nat,
                ),
            decreases w - x,
        {
            let idx: usize = y * w + x;
            let ghost pre = out@;
            let ghost k: int = y as int * gw + x as int;
            let v = bitmap.pixels[idx];
            if v == 0 {
                out.append("<rect x=\"");
                append_dec(&mut out, x as u32);
                out.append("\" y=\"");
                append_dec(&mut out, y as u32);
                out.append("\" width=\"1\" height=\"1\" fill=\"black\"/>");
            }
            proof {
                lemma_fundamental_div_mod_converse(idx as int, gw, y as int, x as int);
                assert(k == idx as int);
                let rects = svg_rects_upto(bitmap.pixels@, gw, k as nat);
                assert(svg_rects_upto(bitmap.pixels@, gw, (k + 1) as nat) == rects + (
                if bitmap.pixels@[k] == 0 {
                    svg_rect(k % gw, k / gw)
                } else {
                    Seq::empty()
                }));
                if bitmap.pixels@[k] == 0 {
                    assert((x as u32) as nat == x as nat);
                    assert((y as u32) as nat == y as nat);
                    assert(out@ =~= ((((pre + "<rect x=\""@) + dec_seq(x as nat)) + "\" y=\""@)
                        + dec_seq(y as nat)) + "\" width=\"1\" height=\"1\" fill=\"black\"/>"@);
                    assert(out@ =~= pre + svg_rect(x as int, y as int));
                    assert(svg_rect(k % gw, k / gw) == svg_rect(x as int, y as int));
                    assert(out@ =~= svg_header(gw, gh) + (rects + svg_rect(k % gw, k / gw)));
                } else {
                    assert(rects + Seq::<char>::empty() =~= rects);
                }
                assert(out@ =~= svg_header(gw, gh) + svg_rects_upto(
                    bitmap.pixels@,
                    gw,
                    (y as int * gw + x as int + 1) as nat,
                ));
            }
            x += 1;
        }
        proof {
            assert((y as int + 1) * gw == y as int * gw + gw) by (nonlinear_arith)
                requires
                    true,
            ;
        }
        y += 1;
    }
    out.append("</svg>");
    proof {
        vstd::arithmetic::mul::lemma_mul_is_commutative(gh, gw);
        assert(out@ =~= svg_of(gw, gh, bitmap.pixels@));
    }
    out
}

} // verus!
