use vstd::prelude::*;
use crate::error::DecodeError;
use crate::types::{DecodeInput, GrayscaleRaster};

verus! {

/// A successfully decoded payload.
#[derive(Debug)]
pub struct QrResult {
    pub text: String,
}

/// The BT.601-style integer luma of an RGB triple, rounding toward zero;
/// alpha is ignored.
pub open spec fn luma_of(r: u8, g: u8, b: u8) -> u8 {
    ((r as int * 299 + g as int * 587 + b as int * 114) / 1000) as u8
}

/// The grayscale raster derived from an RGBA buffer: one luma byte per
/// four-byte pixel group.
pub open spec fn gray_of(rgba: Seq<u8>) -> Seq<u8> {
    Seq::new((rgba.len() / 4) as nat, |i: int| luma_of(rgba[4 * i], rgba[4 * i + 1], rgba[4 * i + 2]))
}

/// Converts an RGBA raster to a single-channel grayscale raster with the
/// standard integer luma weights; rejects a buffer whose length does not
/// match the dimensions.
pub fn to_grayscale(width: u32, height: u32, rgba: &[u8]) -> (r: Result<
    GrayscaleRaster,
    DecodeError,
>)
    ensures
        match r {
            Ok(g) => {
                &&& rgba@.len() == width as int * height as int * 4
                &&& g.wf()
                &&& g.width == width
                &&& g.height == height
                &&& g.samples@ == gray_of(rgba@)
                &&& forall|i: int|
                    0 <= i < g.samples@.len() ==> g.samples@[i] == luma_of(
                        rgba@[4 * i],
                        rgba@[4 * i + 1],
                        rgba@[4 * i + 2],
                    )
            },
            Err(e) => {
                &&& e == DecodeError::InvalidImageBuffer
                &&& rgba@.len() != width as int * height as int * 4
            },
        },
{
    proof {
        assert(width as int * height as int <= u64::MAX as int) by (nonlinear_arith)
            requires
                width as int <= 0xffffffff,
                height as int <= 0xffffffff,
        ;
    }
    let wh: u64 = (width as u64) * (height as u64);
    let expected: u128 = (wh as u128) * 4;
    let len = rgba.len();
    if (len as u128) != expected {
        return Err(DecodeError::InvalidImageBuffer);
    }
    proof {
        vstd::arithmetic::div_mod::lemma_fundamental_div_mod_converse(
            len as int,
            4,
            width as int * height as int,
            0,
        );
    }
    let n: usize = len / 4;
    proof {
        assert(n as int == width as int * height as int);
    }
    let mut samples: Vec<u8> = Vec::new();
    let mut i: usize = 0;
    while i < n
        invariant
            i <= n,
            4 * n <= len,
            4 * n == rgba@.len(),
            samples@.len() == i as int,
            forall|j: int|
                0 <= j < i as int ==> samples@[j] == luma_of(
                    rgba@[4 * j],
                    rgba@[4 * j + 1],
                    rgba@[4 * j + 2],
                ),
        decreases n - i,
    {
        let r = rgba[4 * i] as u32;
        let g = rgba[4 * i + 1] as u32;
        let b = rgba[4 * i + 2] as u32;
        let y: u32 = (r * 299 + g * 587 + b * 114) / 1000;
        samples.push(y as u8);
        i += 1;
    }
    proof {
        assert(samples@ =~= gray_of(rgba@));
    }
    Ok(GrayscaleRaster { width, height, samples })
}

/// The candidate payloads that the grid locator recovers from a
/// grayscale raster: one entry per located grid, in the locator's order,
/// holding the decoded text or None where that candidate failed to
/// decode. Detection and decoding are a pure function of the dimensions
/// and the luminance samples.
pub uninterp spec fn candidates_of(width: int, height: int, gray: Seq<u8>) -> Seq<Option<String>>;

/// Relies on rqrr: PreparedImage::prepare_from_greyscale samples every
/// coordinate below the given bounds from the luminance buffer,
/// detect_grids locates the candidate QR grids of the raster, and
/// Grid::decode extracts a payload from one candidate. The whole chain
/// is deterministic in the raster. Both dimensions must be positive:
/// the capstone scan reads the first pixel of every row unchecked, so a
/// zero-width raster with rows would be indexed out of bounds.
#[verifier::external_body]
fn detect_decode_candidates(width: u32, height: u32, gray: &Vec<u8>) -> (r: Vec<Option<String>>)
    requires
        0 < width,
        0 < height,
        gray@.len() == width as int * height as int,
    ensures
        r@ == candidates_of(width as int, height as int, gray@),
{
    let w = width as usize;
    let mut img = rqrr::PreparedImage::prepare_from_greyscale(
        w,
        height as usize,
        |x, y| gray[y * w + x],
    );
    img.detect_grids().into_iter().map(|g| g.decode().ok().map(|p| p.1)).collect()
}

/// The first decoded payload in candidate order, if any candidate
/// decoded at all.
pub open spec fn first_hit(s: Seq<Option<String>>) -> Option<String>
    decreases s.len(),
{
    if s.len() == 0 {
        None
    } else if s[0] is Some {
        s[0]
    } else {
        first_hit(s.drop_first())
    }
}

proof fn lemma_first_hit_skip(s: Seq<Option<String>>, i: int)
    requires
        0 <= i <= s.len(),
        forall|j: int| 0 <= j < i ==> s[j] is None,
    ensures
        first_hit(s) == first_hit(s.skip(i)),
    decreases i,
{
    if i > 0 {
        assert(s.skip(0) =~= s);
        assert(s[0] is None);
        assert(s.drop_first() =~= s.skip(1));
        lemma_first_hit_skip(s.skip(1), i - 1);
        assert(s.skip(1).skip(i - 1) =~= s.skip(i));
    } else {
        assert(s.skip(0) =~= s);
    }
}

/// Scans the candidate payloads in order and takes the first success:
/// later candidates are never examined.
pub fn first_decoded(candidates: Vec<Option<String>>) -> (r: Option<String>)
    ensures
        r == first_hit(candidates@),
{
    let mut work = candidates;
    let mut i: usize = 0;
    while i < work.len()
        invariant
            i <= work@.len(),
            work@ == candidates@,
            forall|j: int| 0 <= j < i as int ==> work@[j] is None,
        decreases work@.len() - i,
    {
        if work[i].is_some() {
            proof {
                lemma_first_hit_skip(candidates@, i as int);
                assert(candidates@.skip(i as int)[0] == candidates@[i as int]);
            }
            let v = work.remove(i);
            return v;
        }
        i += 1;
    }
    proof {
        lemma_first_hit_skip(candidates@, candidates@.len() as int);
        assert(candidates@.skip(candidates@.len() as int) =~= Seq::<Option<String>>::empty());
    }
    None
}

/// Decodes the first readable QR symbol out of a raw RGBA raster: the
/// raster is normalized to grayscale, the locator lists candidate grids,
/// and the first candidate that decodes wins.
pub fn decode_from_rgba(width: u32, height: u32, rgba: &[u8]) -> (r: Result<QrResult, DecodeError>)
    ensures
        (r matches Err(e) && e == DecodeError::InvalidImageBuffer) <==> rgba@.len() != width as int
            * height as int * 4,
        r matches Err(e) ==> e == DecodeError::InvalidImageBuffer || e == DecodeError::NotFound,
        rgba@.len() == width as int * height as int * 4 && (width == 0 || height == 0) ==> r
            == Err::<QrResult, DecodeError>(DecodeError::NotFound),
        rgba@.len() == width as int * height as int * 4 && 0 < width && 0 < height ==> (
        match first_hit(candidates_of(width as int, height as int, gray_of(rgba@))) {
            Some(t) => r matches Ok(q) && q.text == t,
            None => r == Err::<QrResult, DecodeError>(DecodeError::NotFound),
        }),
{
    let g = match to_grayscale(width, height, rgba) {
        Ok(g) => g,
        Err(e) => {
            return Err(e);
        },
    };
    if width == 0 || height == 0 {
        // A raster with no pixels holds no grid.
        return Err(DecodeError::NotFound);
    }
    let candidates = detect_decode_candidates(width, height, &g.samples);
    match first_decoded(candidates) {
        Some(text) => Ok(QrResult { text }),
        None => Err(DecodeError::NotFound),
    }
}

/// The RGBA raster that the generic image decoder recovers from
/// container bytes (format auto-detected): width, height and one
/// four-byte group per pixel, or None when the bytes do not parse as a
/// supported image. Decoding is a pure function of the bytes.
pub uninterp spec fn rgba_of(bytes: Seq<u8>) -> Option<(nat, nat, Seq<u8>)>;

/// Relies on image::load_from_memory (container format auto-detected)
/// and DynamicImage::to_rgba8, whose raw buffer holds exactly
/// width * height * 4 bytes.
#[verifier::external_body]
fn load_rgba(bytes: &[u8]) -> (r: Option<(u32, u32, Vec<u8>)>)
    ensures
        match r {
            Some((w, h, data)) => {
                &&& rgba_of(bytes@) == Some((w as nat, h as nat, data@))
                &&& data@.len() == w as int * h as int * 4
            },
            None => rgba_of(bytes@) is None,
        },
{
    match image::load_from_memory(bytes) {
        Ok(img) => {
            let rgba = img.to_rgba8();
            Some((rgba.width(), rgba.height(), rgba.into_raw()))
        },
        Err(_) => None,
    }
}

/// Decodes the first readable QR symbol out of opaque encoded image
/// bytes: the generic image decoder produces an RGBA raster, then the
/// raster path takes over.
pub fn decode_from_bytes(bytes: &[u8]) -> (r: Result<QrResult, DecodeError>)
    ensures
        (r matches Err(e) && e == DecodeError::InvalidImage) <==> rgba_of(bytes@) is None,
        r matches Err(e) ==> e == DecodeError::InvalidImage || e == DecodeError::NotFound,
        rgba_of(bytes@) matches Some((w, h, data)) ==> (if w == 0 || h == 0 {
            r == Err::<QrResult, DecodeError>(DecodeError::NotFound)
        } else {
            match first_hit(candidates_of(w as int, h as int, gray_of(data))) {
                Some(t) => r matches Ok(q) && q.text == t,
                None => r == Err::<QrResult, DecodeError>(DecodeError::NotFound),
            }
        }),
{
    match load_rgba(bytes) {
        Some((w, h, data)) => decode_from_rgba(w, h, data.as_slice()),
        None => Err(DecodeError::InvalidImage),
    }
}

/// Decodes the first readable QR symbol in the input, which is either a
/// raw RGBA raster or opaque container-format bytes.
pub fn decode(input: DecodeInput) -> (r: Result<QrResult, DecodeError>)
    ensures
        match input {
            DecodeInput::Rgba { width, height, data } => {
                &&& ((r matches Err(e) && e == DecodeError::InvalidImageBuffer) <==> data@.len()
                    != width as int * height as int * 4)
                &&& (r matches Err(e) ==> e == DecodeError::InvalidImageBuffer || e
                    == DecodeError::NotFound)
                &&& (data@.len() == width as int * height as int * 4 && (width == 0 || height
                    == 0) ==> r == Err::<QrResult, DecodeError>(DecodeError::NotFound))
                &&& (data@.len() == width as int * height as int * 4 && 0 < width && 0 < height
                    ==> (match first_hit(
                    candidates_of(width as int, height as int, gray_of(data@)),
                ) {
                    Some(t) => r matches Ok(q) && q.text == t,
                    None => r == Err::<QrResult, DecodeError>(DecodeError::NotFound),
                }))
            },
            DecodeInput::ImageBytes(bytes) => {
                &&& ((r matches Err(e) && e == DecodeError::InvalidImage) <==> rgba_of(bytes@)
                    is None)
                &&& (r matches Err(e) ==> e == DecodeError::InvalidImage || e
                    == DecodeError::NotFound)
                &&& (rgba_of(bytes@) matches Some((w, h, data)) ==> (if w == 0 || h == 0 {
                    r == Err::<QrResult, DecodeError>(DecodeError::NotFound)
                } else {
                    match first_hit(candidates_of(w as int, h as int, gray_of(data))) {
                        Some(t) => r matches Ok(q) && q.text == t,
                        None => r == Err::<QrResult, DecodeError>(DecodeError::NotFound),
                    }
                }))
            },
        },
{
    match input {
        DecodeInput::Rgba { width, height, data } => decode_from_rgba(width, height, data),
        DecodeInput::ImageBytes(bytes) => decode_from_bytes(bytes),
    }
}

} // verus!
