use vstd::prelude::*;
use vstd::arithmetic::div_mod::{
    lemma_fundamental_div_mod, lemma_fundamental_div_mod_converse, lemma_div_pos_is_pos,
    lemma_mod_division_less_than_divisor, lemma_div_is_ordered,
};
use crate::error::GenerateError;
use crate::types::QrBitmap;

verus! {

/// Requested pixel sizes below this floor are silently raised to it.
pub const MIN_SIZE: u32 = 128;

/// Requested pixel sizes above this cap are silently lowered to it, so
/// that the pixel buffer allocation stays bounded.
pub const MAX_SIZE: u32 = 8192;

/// Margins below this floor (in modules) are silently raised to it.
pub const MIN_MARGIN: u32 = 4;

/// Margins above this cap (in modules) are silently lowered to it, so
/// that the pixel buffer allocation stays bounded.
pub const MAX_MARGIN: u32 = 256;

/// One of four discrete error-correction strengths, ordered from lowest
/// recoverability (highest density) to highest recoverability.
#[derive(Clone, Copy, Debug, PartialEq, Eq, Structural)]
pub enum EccLevel {
    Low,
    Medium,
    Quartile,
    High,
}

impl EccLevel {
    /// The ordinal encoding of this level.
    pub open spec fn ord(self) -> int {
        match self {
            EccLevel::Low => 0,
            EccLevel::Medium => 1,
            EccLevel::Quartile => 2,
            EccLevel::High => 3,
        }
    }
}

/// The error-correction level selected by an ordinal byte: 0 is lowest,
/// 1 low-medium, 3 highest, and 2 or any unrecognized value the
/// medium-high default.
pub open spec fn spec_ecc_from_u8(ecc: u8) -> EccLevel {
    if ecc == 0 {
        EccLevel::Low
    } else if ecc == 1 {
        EccLevel::Medium
    } else if ecc == 3 {
        EccLevel::High
    } else {
        EccLevel::Quartile
    }
}

/// Maps an ordinal byte to an error-correction level.
pub fn ecc_from_u8(ecc: u8) -> (r: EccLevel)
    ensures
        r == spec_ecc_from_u8(ecc),
{
    match ecc {
        0 => EccLevel::Low,
        1 => EccLevel::Medium,
        3 => EccLevel::High,
        _ => EccLevel::Quartile,
    }
}

/// The square module matrix that the QR symbol encoder produces for a
/// payload at a given error-correction ordinal: on success, the side
/// length in modules and the dark flags in row-major order; on failure,
/// the encoder's message. The encoding is a pure function of the payload
/// and the level.
pub uninterp spec fn qr_symbol_of(text: Seq<char>, ecc: int) -> Result<(nat, Seq<bool>), Seq<char>>;

/// Relies on qrcode::QrCode::with_error_correction_level, which
/// deterministically encodes a payload into a square module matrix of a
/// normal QR version (1 to 40, hence 21 to 177 modules per side), and on
/// QrCode::to_colors, which lists the width*width module colors in
/// row-major order.
#[verifier::external_body]
fn qr_encode(text: &str, ecc: EccLevel) -> (r: Result<(usize, Vec<bool>), String>)
    ensures
        match r {
            Ok((m, mat)) => {
                &&& qr_symbol_of(text@, ecc.ord()) == Ok::<(nat, Seq<bool>), Seq<char>>(
                    (m as nat, mat@),
                )
                &&& 21 <= m <= 177
                &&& mat@.len() == m as int * m as int
            },
            Err(e) => qr_symbol_of(text@, ecc.ord()) == Err::<(nat, Seq<bool>), Seq<char>>(e@),
        },
{
    let level = match ecc {
        EccLevel::Low => qrcode::EcLevel::L,
        EccLevel::Medium => qrcode::EcLevel::M,
        EccLevel::Quartile => qrcode::EcLevel::Q,
        EccLevel::High => qrcode::EcLevel::H,
    };
    match qrcode::QrCode::with_error_correction_level(text.as_bytes(), level) {
        Ok(c) => {
            let m = c.width();
            Ok((m, c.to_colors().into_iter().map(|x| matches!(x, qrcode::Color::Dark)).collect()))
        },
        Err(e) => Err(e.to_string()),
    }
}

/// The requested pixel size after the floor and the allocation cap.
pub open spec fn clamped_size(size: u32) -> int {
    if size < MIN_SIZE {
        MIN_SIZE as int
    } else if size > MAX_SIZE {
        MAX_SIZE as int
    } else {
        size as int
    }
}

/// The requested margin after the floor and the allocation cap.
pub open spec fn clamped_margin(margin: u32) -> int {
    if margin < MIN_MARGIN {
        MIN_MARGIN as int
    } else if margin > MAX_MARGIN {
        MAX_MARGIN as int
    } else {
        margin as int
    }
}

/// Whether pixel (px, py) lies inside the scaled block of a dark module,
/// for a matrix of side `m` offset by `margin` modules of whitespace.
pub open spec fn module_at(mat: Seq<bool>, m: int, margin: int, scale: int, px: int, py: int) -> bool {
    let mx = px / scale - margin;
    let my = py / scale - margin;
    &&& 0 <= mx < m
    &&& 0 <= my < m
    &&& mat[my * m + mx]
}

/// The value of pixel (px, py) of the rasterized matrix: 0 over a dark
/// module, 255 everywhere else.
pub open spec fn raster_pixel(mat: Seq<bool>, m: int, margin: int, scale: int, px: int, py: int) -> u8 {
    if module_at(mat, m, margin, scale, px, py) {
        0u8
    } else {
        255u8
    }
}

/// The full row-major pixel buffer of the rasterized matrix.
pub open spec fn raster_pixels(mat: Seq<bool>, m: int, margin: int, scale: int) -> Seq<u8> {
    let side = (m + 2 * margin) * scale;
    Seq::new((side * side) as nat, |i: int| raster_pixel(mat, m, margin, scale, i % side, i / side))
}

/// The bitmap the core synthesizer produces: the side length and the
/// pixels, or None when the symbol encoder rejects the payload.
pub open spec fn spec_generate(text: Seq<char>, size: u32, margin: u32, ecc: u8) -> Option<(int, Seq<u8>)> {
    match qr_symbol_of(text, spec_ecc_from_u8(ecc).ord()) {
        Ok((m, mat)) => {
            let mm = m as int;
            let mg = clamped_margin(margin);
            let total = mm + 2 * mg;
            let q = clamped_size(size) / total;
            let scale = if q < 1 {
                1int
            } else {
                q
            };
            Some((total * scale, raster_pixels(mat, mm, mg, scale)))
        },
        Err(_) => None,
    }
}

/// The pixels of a light canvas of side `out_side` with the `in_side`
/// square raster `inner` copied into its centered region.
pub open spec fn centered_pixels(inner: Seq<u8>, in_side: int, out_side: int) -> Seq<u8> {
    let off = (out_side - in_side) / 2;
    Seq::new(
        (out_side * out_side) as nat,
        |i: int|
            {
                let x = i % out_side;
                let y = i / out_side;
                if off <= x < off + in_side && off <= y < off + in_side {
                    inner[(y - off) * in_side + (x - off)]
                } else {
                    255u8
                }
            },
    )
}

/// The bitmap of the exact-size synthesis variant: the core raster,
/// centered on a light canvas of the clamped requested size whenever it
/// came out smaller.
pub open spec fn spec_synthesize(text: Seq<char>, size: u32, margin: u32, ecc: u8) -> Option<(int, Seq<u8>)> {
    match spec_generate(text, size, margin, ecc) {
        Some((side, px)) => {
            let target = clamped_size(size);
            if side >= target {
                Some((side, px))
            } else {
                Some((target, centered_pixels(px, side, target)))
            }
        },
        None => None,
    }
}

/// The value of a pixel while rasterization is underway: modules strictly
/// before cell (x, y) in row-major order have been painted, all other
/// pixels are still light.
spec fn partial_pixel(mat: Seq<bool>, m: int, margin: int, scale: int, y: int, x: int, px: int, py: int) -> u8 {
    let mx = px / scale - margin;
    let my = py / scale - margin;
    if 0 <= mx < m && 0 <= my < m && (my < y || (my == y && mx < x)) && mat[my * m + mx] {
        0u8
    } else {
        255u8
    }
}

/// Whether pixel index i lies in the block of columns
/// [start_x, start_x + scale) and rows [start_y, start_y + rows).
spec fn in_block(side: int, start_x: int, start_y: int, scale: int, rows: int, i: int) -> bool {
    let px = i % side;
    let py = i / side;
    &&& start_x <= px < start_x + scale
    &&& start_y <= py < start_y + rows
}

/// A pixel coordinate inside the scaled block of cell `a` divides back
/// down to `a`, and conversely.
proof fn lemma_block_coord(a: int, scale: int, p: int)
    requires
        scale > 0,
        a >= 0,
    ensures
        a * scale <= p < a * scale + scale ==> p / scale == a,
        p >= 0 && p / scale == a ==> a * scale <= p < a * scale + scale,
{
    if a * scale <= p < a * scale + scale {
        lemma_fundamental_div_mod_converse(p, scale, a, p - a * scale);
    }
    if p >= 0 && p / scale == a {
        lemma_fundamental_div_mod(p, scale);
        lemma_mod_division_less_than_divisor(p, scale);
        vstd::arithmetic::mul::lemma_mul_is_commutative(scale, a);
    }
}

/// Splitting a row-major index into its row and column.
proof fn lemma_index_decompose(side: int, row: int, col: int)
    requires
        side > 0,
        0 <= col < side,
        0 <= row,
    ensures
        (row * side + col) / side == row,
        (row * side + col) % side == col,
{
    lemma_fundamental_div_mod_converse(row * side + col, side, row, col);
}

/// Sets `len` bytes starting at `start` to 0 (a contiguous-range write).
fn fill_row(pixels: &mut Vec<u8>, start: usize, len: usize)
    requires
        start + len <= old(pixels)@.len(),
    ensures
        final(pixels)@.len() == old(pixels)@.len(),
        forall|j: int|
            0 <= j < old(pixels)@.len() ==> final(pixels)@[j] == (if start <= j < start + len {
                0u8
            } else {
                old(pixels)@[j]
            }),
{
    let total_len = pixels.len();
    let mut t: usize = 0;
    while t < len
        invariant
            t <= len,
            start + len <= total_len,
            start + len <= pixels@.len(),
            pixels@.len() == old(pixels)@.len(),
            forall|j: int|
                0 <= j < pixels@.len() ==> pixels@[j] == (if start <= j < start + t {
                    0u8
                } else {
                    old(pixels)@[j]
                }),
        decreases len - t,
    {
        let idx = start + t;
        pixels[idx] = 0;
        t += 1;
    }
}

/// Synthesizes the canonical monochrome bitmap for a payload: the module
/// matrix from the symbol encoder, scaled by the floor division of the
/// clamped requested size, with a clamped whitespace margin. The result
/// side may be smaller than the requested size; `synthesize` pads it.
pub fn generate_qr_bitmap(text: &str, size: u32, margin: u32, ecc: u8) -> (r: Result<
    QrBitmap,
    GenerateError,
>)
    ensures
        match r {
            Ok(b) => {
                &&& b.wf()
                &&& b.width == b.height
                &&& 0 < b.width <= MAX_SIZE
                &&& spec_generate(text@, size, margin, ecc) == Some((b.width as int, b.pixels@))
            },
            Err(e) => {
                &&& spec_generate(text@, size, margin, ecc) is None
                &&& e matches GenerateError::Qr(msg) && qr_symbol_of(
                    text@,
                    spec_ecc_from_u8(ecc).ord(),
                ) == Err::<(nat, Seq<bool>), Seq<char>>(msg@)
            },
        },
{
    let level = ecc_from_u8(ecc);
    let (m, mat) = match qr_encode(text, level) {
        Ok(p) => p,
        Err(msg) => {
            return Err(GenerateError::Qr(msg));
        },
    };
    let size_c: u32 = if size < MIN_SIZE {
        MIN_SIZE
    } else if size > MAX_SIZE {
        MAX_SIZE
    } else {
        size
    };
    let margin_c: u32 = if margin < MIN_MARGIN {
        MIN_MARGIN
    } else if margin > MAX_MARGIN {
        MAX_MARGIN
    } else {
        margin
    };
    let m32: u32 = m as u32;
    let total: u32 = m32 + 2 * margin_c;
    let q: u32 = size_c / total;
    let scale: u32 = if q < 1 {
        1
    } else {
        q
    };
    proof {
        if q >= 1 {
            lemma_fundamental_div_mod(size_c as int, total as int);
            lemma_mod_division_less_than_divisor(size_c as int, total as int);
        }
        assert(total as int * scale as int <= MAX_SIZE as int);
    }
    let side: u32 = total * scale;
    let side_us: usize = side as usize;
    let ghost gm: int = m as int;
    let ghost gmg: int = margin_c as int;
    let ghost gsc: int = scale as int;
    let ghost gside: int = side as int;
    proof {
        assert(side_us * side_us <= 8192 * 8192) by (nonlinear_arith)
            requires
                side_us <= 8192,
        ;
    }
    let n: usize = side_us * side_us;
    let mut pixels: Vec<u8> = vec![255u8; n];
    let mgu: usize = margin_c as usize;
    let scu: usize = scale as usize;
    let mut y: usize = 0;
    while y < m
        invariant
            y <= m,
            21 <= m <= 177,
            1 <= gsc,
            4 <= gmg <= 256,
            gm == m as int,
            gside == (gm + 2 * gmg) * gsc,
            gside <= MAX_SIZE as int,
            mat@.len() == gm * gm,
            pixels@.len() == gside * gside,
            scu as int == gsc,
            mgu as int == gmg,
            side_us as int == gside,
            forall|i: int|
                0 <= i < gside * gside ==> pixels@[i] == partial_pixel(
                    mat@,
                    gm,
                    gmg,
                    gsc,
                    y as int,
                    0,
                    i % gside,
                    i / gside,
                ),
        decreases m - y,
    {
        let mut x: usize = 0;
        while x < m
            invariant
                y < m,
                x <= m,
                21 <= m <= 177,
                1 <= gsc,
                4 <= gmg <= 256,
                gm == m as int,
                gside == (gm + 2 * gmg) * gsc,
                gside <= MAX_SIZE as int,
                mat@.len() == gm * gm,
                pixels@.len() == gside * gside,
                scu as int == gsc,
                mgu as int == gmg,
                side_us as int == gside,
                forall|i: int|
                    0 <= i < gside * gside ==> pixels@[i] == partial_pixel(
                        mat@,
                        gm,
                        gmg,
                        gsc,
                        y as int,
                        x as int,
                        i % gside,
                        i / gside,
                    ),
            decreases m - x,
        {
            proof {
                assert(y * m + x < m * m && m * m <= 31329) by (nonlinear_arith)
                    requires
                        0 <= x < m,
                        0 <= y < m,
                        m <= 177,
                ;
            }
            let dark = mat[y * m + x];
            if dark {
                proof {
                    assert((x + mgu) * scu + scu <= side_us && (y + mgu) * scu + scu <= side_us)
                        by (nonlinear_arith)
                        requires
                            side_us == (m + 2 * mgu) * scu,
                            0 <= x < m,
                            0 <= y < m,
                            mgu >= 1,
                            scu >= 1,
                    ;
                }
                let start_x: usize = (x + mgu) * scu;
                let start_y: usize = (y + mgu) * scu;
                let mut dy: usize = 0;
                while dy < scu
                    invariant
                        dy <= scu,
                        y < m,
                        x < m,
                        21 <= m <= 177,
                        1 <= gsc,
                        4 <= gmg <= 256,
                        gm == m as int,
                        gside == (gm + 2 * gmg) * gsc,
                        gside <= MAX_SIZE as int,
                        mat@.len() == gm * gm,
                        mat@[y as int * gm + x as int],
                        pixels@.len() == gside * gside,
                        scu as int == gsc,
                        mgu as int == gmg,
                        side_us as int == gside,
                        start_x as int == (x as int + gmg) * gsc,
                        start_y as int == (y as int + gmg) * gsc,
                        start_x + scu <= side_us,
                        start_y + scu <= side_us,
                        forall|i: int|
                            0 <= i < gside * gside ==> pixels@[i] == (if in_block(
                                gside,
                                start_x as int,
                                start_y as int,
                                gsc,
                                dy as int,
                                i,
                            ) {
                                0u8
                            } else {
                                partial_pixel(
                                    mat@,
                                    gm,
                                    gmg,
                                    gsc,
                                    y as int,
                                    x as int,
                                    i % gside,
                                    i / gside,
                                )
                            }),
                    decreases scu - dy,
                {
                    let row: usize = start_y + dy;
                    proof {
                        assert(row * side_us + start_x + scu <= side_us * side_us && side_us
                            * side_us <= 67108864) by (nonlinear_arith)
                            requires
                                0 <= row < side_us,
                                start_x + scu <= side_us,
                                side_us <= 8192,
                        ;
                    }
                    let row_start: usize = row * side_us + start_x;
                    fill_row(&mut pixels, row_start, scu);
                    proof {
                        assert forall|i: int| 0 <= i < gside * gside implies pixels@[i] == (
                        if in_block(
                            gside,
                            start_x as int,
                            start_y as int,
                            gsc,
                            dy as int + 1,
                            i,
                        ) {
                            0u8
                        } else {
                            partial_pixel(
                                mat@,
                                gm,
                                gmg,
                                gsc,
                                y as int,
                                x as int,
                                i % gside,
                                i / gside,
                            )
                        }) by {
                            lemma_fundamental_div_mod(i, gside);
                            lemma_div_pos_is_pos(i, gside);
                            lemma_mod_division_less_than_divisor(i, gside);
                            let px = i % gside;
                            let py = i / gside;
                            if row_start as int <= i < row_start as int + gsc {
                                lemma_index_decompose(gside, row as int, i - row as int * gside);
                            } else {
                                if in_block(
                                    gside,
                                    start_x as int,
                                    start_y as int,
                                    gsc,
                                    dy as int + 1,
                                    i,
                                ) && !in_block(
                                    gside,
                                    start_x as int,
                                    start_y as int,
                                    gsc,
                                    dy as int,
                                    i,
                                ) {
                                    assert(py == row as int);
                                    vstd::arithmetic::mul::lemma_mul_is_commutative(gside, py);
                                    assert(i == py * gside + px);
                                    assert(false);
                                }
                            }
                        }
                    }
                    dy = dy + 1;
                }
                proof {
                    assert forall|i: int| 0 <= i < gside * gside implies pixels@[i]
                        == partial_pixel(
                        mat@,
                        gm,
                        gmg,
                        gsc,
                        y as int,
                        x as int + 1,
                        i % gside,
                        i / gside,
                    ) by {
                        lemma_div_pos_is_pos(i, gside);
                        lemma_mod_division_less_than_divisor(i, gside);
                        let px = i % gside;
                        let py = i / gside;
                        lemma_block_coord(x as int + gmg, gsc, px);
                        lemma_block_coord(y as int + gmg, gsc, py);
                        if px / gsc - gmg == x as int && py / gsc - gmg == y as int {
                            assert((py / gsc - gmg) * gm + (px / gsc - gmg) == y as int * gm
                                + x as int);
                        }
                    }
                }
            } else {
                proof {
                    assert forall|i: int| 0 <= i < gside * gside implies pixels@[i]
                        == partial_pixel(
                        mat@,
                        gm,
                        gmg,
                        gsc,
                        y as int,
                        x as int + 1,
                        i % gside,
                        i / gside,
                    ) by {
                        let px = i % gside;
                        let py = i / gside;
                        if px / gsc - gmg == x as int && py / gsc - gmg == y as int {
                            assert((py / gsc - gmg) * gm + (px / gsc - gmg) == y as int * gm
                                + x as int);
                        }
                    }
                }
            }
            x = x + 1;
        }
        proof {
            assert forall|i: int| 0 <= i < gside * gside implies pixels@[i] == partial_pixel(
                mat@,
                gm,
                gmg,
                gsc,
                y as int + 1,
                0,
                i % gside,
                i / gside,
            ) by {}
        }
        y = y + 1;
    }
    proof {
        assert forall|i: int| 0 <= i < gside * gside implies pixels@[i] == raster_pixel(
            mat@,
            gm,
            gmg,
            gsc,
            i % gside,
            i / gside,
        ) by {}
        assert(pixels@ =~= raster_pixels(mat@, gm, gmg, gsc));
        assert(side >= 29) by (nonlinear_arith)
            requires
                side == total * scale,
                total >= 29,
                scale >= 1,
        ;
    }
    Ok(QrBitmap { width: side, height: side, pixels })
}

/// The value of a pixel while centering is underway: the first `rows`
/// rows of the inner raster have been copied, all other pixels are light.
spec fn centered_partial(inner: Seq<u8>, in_side: int, out_side: int, rows: int, i: int) -> u8 {
    let off = (out_side - in_side) / 2;
    let x = i % out_side;
    let y = i / out_side;
    if off <= x < off + in_side && off <= y < off + in_side && y - off < rows {
        inner[(y - off) * in_side + (x - off)]
    } else {
        255u8
    }
}

/// Copies a square bitmap onto the center of a light canvas of side
/// `target` (the exact-size post-processing step over the core raster).
pub fn center_bitmap(b: &QrBitmap, target: u32) -> (r: QrBitmap)
    requires
        b.wf(),
        b.width == b.height,
        b.width <= target,
        target <= MAX_SIZE,
    ensures
        r.wf(),
        r.width == target,
        r.height == target,
        r.pixels@ == centered_pixels(b.pixels@, b.width as int, target as int),
{
    let ins: usize = b.width as usize;
    let outs: usize = target as usize;
    let off: usize = (outs - ins) / 2;
    let ghost gin: int = ins as int;
    let ghost gout: int = outs as int;
    let ghost goff: int = off as int;
    proof {
        lemma_fundamental_div_mod((outs - ins) as int, 2);
        lemma_mod_division_less_than_divisor((outs - ins) as int, 2);
        assert(goff + gin <= gout);
        assert(outs * outs <= 67108864) by (nonlinear_arith)
            requires
                outs <= 8192,
        ;
    }
    let n: usize = outs * outs;
    let mut out: Vec<u8> = vec![255u8; n];
    let mut y: usize = 0;
    while y < ins
        invariant
            y <= ins,
            gin == ins as int,
            gout == outs as int,
            goff == off as int,
            goff == (gout - gin) / 2,
            goff + gin <= gout,
            gout <= 8192,
            b.pixels@.len() == gin * gin,
            out@.len() == gout * gout,
            forall|i: int|
                0 <= i < gout * gout ==> out@[i] == centered_partial(
                    b.pixels@,
                    gin,
                    gout,
                    y as int,
                    i,
                ),
        decreases ins - y,
    {
        let mut dx: usize = 0;
        while dx < ins
            invariant
                y < ins,
                dx <= ins,
                gin == ins as int,
                gout == outs as int,
                goff == off as int,
                goff == (gout - gin) / 2,
                goff + gin <= gout,
                gout <= 8192,
                b.pixels@.len() == gin * gin,
                out@.len() == gout * gout,
                forall|i: int|
                    0 <= i < gout * gout ==> out@[i] == (if i / gout == y as int + goff && goff
                        <= i % gout < goff + dx {
                        b.pixels@[y as int * gin + (i % gout - goff)]
                    } else {
                        centered_partial(b.pixels@, gin, gout, y as int, i)
                    }),
            decreases ins - dx,
        {
            proof {
                assert(y * ins + dx < ins * ins && ins * ins <= 67108864) by (nonlinear_arith)
                    requires
                        0 <= y < ins,
                        0 <= dx < ins,
                        ins <= 8192,
                ;
                assert((y + off) * outs + (off + dx) < outs * outs && outs * outs <= 67108864)
                    by (nonlinear_arith)
                    requires
                        0 <= y + off < outs,
                        0 <= off + dx < outs,
                        outs <= 8192,
                ;
            }
            let v = b.pixels[y * ins + dx];
            let idx: usize = (y + off) * outs + (off + dx);
            out[idx] = v;
            proof {
                lemma_index_decompose(gout, y as int + goff, goff + dx);
                assert forall|i: int| 0 <= i < gout * gout implies out@[i] == (if i / gout
                    == y as int + goff && goff <= i % gout < goff + dx + 1 {
                    b.pixels@[y as int * gin + (i % gout - goff)]
                } else {
                    centered_partial(b.pixels@, gin, gout, y as int, i)
                }) by {
                    if i != idx as int && i / gout == y as int + goff && goff + dx == i % gout {
                        lemma_fundamental_div_mod(i, gout);
                        vstd::arithmetic::mul::lemma_mul_is_commutative(gout, i / gout);
                        assert(i == idx as int);
                    }
                }
            }
            dx += 1;
        }
        proof {
            assert forall|i: int| 0 <= i < gout * gout implies out@[i] == centered_partial(
                b.pixels@,
                gin,
                gout,
                y as int + 1,
                i,
            ) by {
                lemma_div_pos_is_pos(i, gout);
                lemma_mod_division_less_than_divisor(i, gout);
            }
        }
        y += 1;
    }
    proof {
        assert forall|i: int| 0 <= i < gout * gout implies out@[i] == centered_pixels(
            b.pixels@,
            gin,
            gout,
        )[i] by {
            lemma_div_pos_is_pos(i, gout);
            lemma_mod_division_less_than_divisor(i, gout);
            let x = i % gout;
            let yy = i / gout;
            if goff <= x < goff + gin && goff <= yy < goff + gin {
                assert((yy - goff) * gin + (x - goff) < gin * gin) by (nonlinear_arith)
                    requires
                        0 <= yy - goff < gin,
                        0 <= x - goff < gin,
                ;
            }
        }
        assert(out@ =~= centered_pixels(b.pixels@, gin, gout));
        assert forall|i: int| 0 <= i < out@.len() implies out@[i] == 0u8 || out@[i] == 255u8 by {
            lemma_div_pos_is_pos(i, gout);
            lemma_mod_division_less_than_divisor(i, gout);
            let x = i % gout;
            let yy = i / gout;
            if goff <= x < goff + gin && goff <= yy < goff + gin {
                assert((yy - goff) * gin + (x - goff) < gin * gin) by (nonlinear_arith)
                    requires
                        0 <= yy - goff < gin,
                        0 <= x - goff < gin,
                ;
            }
        }
    }
    QrBitmap { width: target, height: target, pixels: out }
}

/// Synthesizes a bitmap of exactly the clamped requested size: the core
/// raster, centered on a light canvas whenever it came out smaller. The
/// result side never goes below the size floor.
pub fn synthesize(text: &str, size: u32, margin: u32, ecc: u8) -> (r: Result<
    QrBitmap,
    GenerateError,
>)
    ensures
        match r {
            Ok(b) => {
                &&& b.wf()
                &&& b.width == b.height
                &&& MIN_SIZE <= b.width <= MAX_SIZE
                &&& spec_synthesize(text@, size, margin, ecc) == Some((b.width as int, b.pixels@))
            },
            Err(e) => {
                &&& spec_synthesize(text@, size, margin, ecc) is None
                &&& e matches GenerateError::Qr(msg) && qr_symbol_of(
                    text@,
                    spec_ecc_from_u8(ecc).ord(),
                ) == Err::<(nat, Seq<bool>), Seq<char>>(msg@)
            },
        },
{
    let b = match generate_qr_bitmap(text, size, margin, ecc) {
        Ok(b) => b,
        Err(e) => {
            return Err(e);
        },
    };
    let size_c: u32 = if size < MIN_SIZE {
        MIN_SIZE
    } else if size > MAX_SIZE {
        MAX_SIZE
    } else {
        size
    };
    if b.width >= size_c {
        Ok(b)
    } else {
        Ok(center_bitmap(&b, size_c))
    }
}

/// Scale monotonicity: for a fixed payload, margin and error-correction
/// level, a larger requested size never shrinks the synthesized bitmap,
/// neither for the core raster nor for the exact-size variant, and it
/// never changes whether synthesis succeeds.
pub proof fn lemma_size_monotonic(text: Seq<char>, s1: u32, s2: u32, margin: u32, ecc: u8)
    requires
        s1 <= s2,
    ensures
        match (spec_generate(text, s1, margin, ecc), spec_generate(text, s2, margin, ecc)) {
            (Some((d1, _)), Some((d2, _))) => d1 <= d2,
            (None, None) => true,
            _ => false,
        },
        match (spec_synthesize(text, s1, margin, ecc), spec_synthesize(text, s2, margin, ecc)) {
            (Some((d1, _)), Some((d2, _))) => d1 <= d2,
            (None, None) => true,
            _ => false,
        },
{
    match qr_symbol_of(text, spec_ecc_from_u8(ecc).ord()) {
        Ok((m, _mat)) => {
            let total = m as int + 2 * clamped_margin(margin);
            let c1 = clamped_size(s1);
            let c2 = clamped_size(s2);
            lemma_div_is_ordered(c1, c2, total);
            let q1 = c1 / total;
            let q2 = c2 / total;
            let sc1: int = if q1 < 1 {
                1
            } else {
                q1
            };
            let sc2: int = if q2 < 1 {
                1
            } else {
                q2
            };
            lemma_div_pos_is_pos(c1, total);
            lemma_div_pos_is_pos(c2, total);
            assert(total * sc1 <= total * sc2) by (nonlinear_arith)
                requires
                    0 <= sc1 <= sc2,
                    total >= 0,
            ;
        },
        Err(_) => {},
    }
}

} // verus!
