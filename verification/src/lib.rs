pub mod decode;
pub mod digits;
pub mod error;
pub mod generate;
pub mod render;
pub mod types;

use vstd::prelude::*;
use vstd::string::StringExecFns;
use crate::error::GenerateError;
use crate::generate::{
    generate_qr_bitmap, qr_symbol_of, spec_ecc_from_u8, spec_generate, spec_synthesize, synthesize,
};
use crate::render::{png_bytes_of, render_png, render_svg, svg_of};

verus! {

/// The base64 text of a byte string under the standard padded alphabet:
/// a pure function of the bytes.
pub uninterp spec fn base64_of(bytes: Seq<u8>) -> Seq<char>;

/// Relies on base64's STANDARD engine: deterministic encoding under the
/// standard padded alphabet, four output characters for every started
/// three-byte group.
#[verifier::external_body]
fn base64_encode(bytes: &Vec<u8>) -> (r: String)
    ensures
        r@ == base64_of(bytes@),
        r@.len() == 4 * ((bytes@.len() + 2) / 3),
{
    base64::Engine::encode(&base64::engine::general_purpose::STANDARD, bytes.as_slice())
}

/// Generates a QR symbol for the payload and renders it as a grayscale
/// PNG of exactly the clamped requested size (the raster is centered on
/// a light canvas when the scaled symbol comes out smaller).
pub fn qr_png_bytes(text: &str, size: u32, margin: u32, ecc: u8) -> (r: Result<
    Vec<u8>,
    GenerateError,
>)
    ensures
        match r {
            Ok(v) => spec_synthesize(text@, size, margin, ecc) matches Some((side, px)) && v@
                == png_bytes_of(side as nat, side as nat, px),
            Err(e) => {
                &&& spec_synthesize(text@, size, margin, ecc) is None
                &&& e matches GenerateError::Qr(msg) && qr_symbol_of(
                    text@,
                    spec_ecc_from_u8(ecc).ord(),
                ) == Err::<(nat, Seq<bool>), Seq<char>>(msg@)
            },
        },
{
    let b = match synthesize(text, size, margin, ecc) {
        Ok(b) => b,
        Err(e) => {
            return Err(e);
        },
    };
    render_png(&b)
}

/// Generates a QR symbol and renders it as a PNG data URL, ready to be
/// used as an image source.
pub fn qr_png_data_url(text: &str, size: u32, margin: u32, ecc: u8) -> (r: Result<
    String,
    GenerateError,
>)
    ensures
        match r {
            Ok(s) => spec_synthesize(text@, size, margin, ecc) matches Some((side, px)) && s@
                == "data:image/png;base64,"@ + base64_of(
                png_bytes_of(side as nat, side as nat, px),
            ),
            Err(e) => {
                &&& spec_synthesize(text@, size, margin, ecc) is None
                &&& e matches GenerateError::Qr(msg) && qr_symbol_of(
                    text@,
                    spec_ecc_from_u8(ecc).ord(),
                ) == Err::<(nat, Seq<bool>), Seq<char>>(msg@)
            },
        },
{
    let png = match qr_png_bytes(text, size, margin, ecc) {
        Ok(v) => v,
        Err(e) => {
            return Err(e);
        },
    };
    let b64 = base64_encode(&png);
    let mut s = String::from_str("data:image/png;base64,");
    s.append(b64.as_str());
    Ok(s)
}

/// Generates a QR symbol and renders it as a grayscale PNG of the core
/// floor-divided raster size (no centering; the default output format).
pub fn generate(text: &str, size: u32, margin: u32, ecc: u8) -> (r: Result<Vec<u8>, GenerateError>)
    ensures
        match r {
            Ok(v) => spec_generate(text@, size, margin, ecc) matches Some((side, px)) && v@
                == png_bytes_of(side as nat, side as nat, px),
            Err(e) => {
                &&& spec_generate(text@, size, margin, ecc) is None
                &&& e matches GenerateError::Qr(msg) && qr_symbol_of(
                    text@,
                    spec_ecc_from_u8(ecc).ord(),
                ) == Err::<(nat, Seq<bool>), Seq<char>>(msg@)
            },
        },
{
    let b = match generate_qr_bitmap(text, size, margin, ecc) {
        Ok(b) => b,
        Err(e) => {
            return Err(e);
        },
    };
    render_png(&b)
}

/// Generates a QR symbol and renders it as a grayscale PNG (an alias of
/// the default entry point).
pub fn generate_png(text: &str, size: u32, margin: u32, ecc: u8) -> (r: Result<
    Vec<u8>,
    GenerateError,
>)
    ensures
        match r {
            Ok(v) => spec_generate(text@, size, margin, ecc) matches Some((side, px)) && v@
                == png_bytes_of(side as nat, side as nat, px),
            Err(e) => {
                &&& spec_generate(text@, size, margin, ecc) is None
                &&& e matches GenerateError::Qr(msg) && qr_symbol_of(
                    text@,
                    spec_ecc_from_u8(ecc).ord(),
                ) == Err::<(nat, Seq<bool>), Seq<char>>(msg@)
            },
        },
{
    generate(text, size, margin, ecc)
}

/// Generates a QR symbol and renders it as SVG markup over the core
/// floor-divided raster.
pub fn generate_svg(text: &str, size: u32, margin: u32, ecc: u8) -> (r: Result<
    String,
    GenerateError,
>)
    ensures
        match r {
            Ok(s) => spec_generate(text@, size, margin, ecc) matches Some((side, px)) && s@
                == svg_of(side, side, px),
            Err(e) => {
                &&& spec_generate(text@, size, margin, ecc) is None
                &&& e matches GenerateError::Qr(msg) && qr_symbol_of(
                    text@,
                    spec_ecc_from_u8(ecc).ord(),
                ) == Err::<(nat, Seq<bool>), Seq<char>>(msg@)
            },
        },
{
    let b = match generate_qr_bitmap(text, size, margin, ecc) {
        Ok(b) => b,
        Err(e) => {
            return Err(e);
        },
    };
    Ok(render_svg(&b))
}

} // verus!
