//! Grayscale rasterisation of a QR code and its PNG encoding.

use vstd::prelude::*;

use crate::qr::QRCode;

#[allow(unused_imports)]
use vstd::arithmetic::div_mod::{lemma_div_denominator, lemma_fundamental_div_mod_converse};

verus! {

#[verifier::external_type_specification]
#[verifier::external_body]
pub struct ExEncodingError(png::EncodingError);

/// Gray level of the pixel at `row`, `col` when each module is drawn as a
/// `scale` x `scale` square behind a quiet zone of `margin` modules:
/// black (0) inside a dark module, white (255) everywhere else.
pub open spec fn pixel_value(qr: QRCode, margin: nat, scale: nat, row: int, col: int) -> u8 {
    let my = row / (scale as int);
    let mx = col / (scale as int);
    if margin <= my < margin + qr.size && margin <= mx < margin + qr.size && qr.is_dark(
        mx - margin,
        my - margin,
    ) {
        0
    } else {
        0xFF
    }
}

/// The first `n` pixels, row by row, of a `side` x `side` image.
pub open spec fn raster_prefix(qr: QRCode, margin: nat, scale: nat, side: nat, n: nat) -> Seq<u8> {
    Seq::new(n, |i: int| pixel_value(qr, margin, scale, i / (side as int), i % (side as int)))
}

/// The whole `side` x `side` grayscale image, row by row.
pub open spec fn raster(qr: QRCode, margin: nat, scale: nat, side: nat) -> Seq<u8> {
    raster_prefix(qr, margin, scale, side, side * side)
}

/// Side, in pixels, of the image of `qr` with the given margin and scale.
pub open spec fn image_side(qr: QRCode, margin: nat, scale: nat) -> nat {
    ((qr.size + 2 * margin) * scale) as nat
}

/// Draws `qr` as one byte per pixel, row by row: each module becomes a
/// `scale` x `scale` square, dark modules black (0), the rest and the
/// `margin`-module quiet zone white (255).
pub fn grayscale_pixels(qr: &QRCode, margin: usize, scale: usize, side: usize) -> (pixels: Vec<u8>)
    requires
        qr.wf(),
        scale > 0,
        side == image_side(*qr, margin as nat, scale as nat),
        side * side <= usize::MAX,
    ensures
        pixels@ == raster(*qr, margin as nat, scale as nat, side as nat),
{
    let size = qr.size;
    let total = qr.data.len();
    proof {
        assert(size + 2 * margin <= side) by (nonlinear_arith)
            requires
                side == (size + 2 * margin) * scale,
                scale > 0,
        ;
    }
    let mut pixels: Vec<u8> = Vec::new();
    let mut r: usize = 0;
    while r < side
        invariant
            qr.wf(),
            size == qr.size,
            total == size * size,
            scale > 0,
            side == image_side(*qr, margin as nat, scale as nat),
            size + 2 * margin <= side,
            side * side <= usize::MAX,
            r <= side,
            pixels@ == raster_prefix(*qr, margin as nat, scale as nat, side as nat, (r * side) as nat),
        decreases side - r,
    {
        let my = r / scale;
        let mut c: usize = 0;
        while c < side
            invariant
                qr.wf(),
                size == qr.size,
                total == size * size,
                scale > 0,
                side == image_side(*qr, margin as nat, scale as nat),
                size + 2 * margin <= side,
                side * side <= usize::MAX,
                r < side,
                c <= side,
                my == r / scale,
                pixels@ == raster_prefix(
                    *qr,
                    margin as nat,
                    scale as nat,
                    side as nat,
                    (r * side + c) as nat,
                ),
            decreases side - c,
        {
            proof {
                assert(r * side + c < side * side) by (nonlinear_arith)
                    requires
                        r < side,
                        c < side,
                ;
            }
            let mx = c / scale;
            let dark = if margin <= my && my < margin + size && margin <= mx && mx < margin + size {
                proof {
                    assert((my - margin) * size + (mx - margin) < size * size) by (nonlinear_arith)
                        requires
                            my - margin < size,
                            mx - margin < size,
                            margin <= my,
                            margin <= mx,
                    ;
                }
                qr.data[(my - margin) * size + (mx - margin)]
            } else {
                false
            };
            let value: u8 = if dark {
                0
            } else {
                0xFF
            };
            proof {
                let n = (r * side + c) as int;
                lemma_fundamental_div_mod_converse(n, side as int, r as int, c as int);
                assert(value == pixel_value(*qr, margin as nat, scale as nat, r as int, c as int));
            }
            pixels.push(value);
            c = c + 1;
            assert(pixels@ =~= raster_prefix(
                *qr,
                margin as nat,
                scale as nat,
                side as nat,
                (r * side + c) as nat,
            ));
        }
        proof {
            assert(r * side + side == (r + 1) * side) by (nonlinear_arith);
        }
        r = r + 1;
    }
    pixels
}

/// The bytes of the PNG file that the `png` crate writes for a `side` x
/// `side` image, 8-bit grayscale, default compression and filtering, whose
/// pixels, row by row, are `pixels`.
pub uninterp spec fn png_grayscale8(side: u32, pixels: Seq<u8>) -> Seq<u8>;

/// The encoding step that failed, with the `png` crate's error.
#[derive(Debug)]
pub enum PngWriteError {
    /// Writing the signature and header chunks failed.
    Header(png::EncodingError),
    /// Writing the image data failed.
    ImageData(png::EncodingError),
}

/// Encodes `pixels` as a `side` x `side` 8-bit grayscale PNG with the `png`
/// crate: `Encoder::new` over an in-memory buffer, `set_color(Grayscale)`,
/// `set_depth(Eight)`, `write_header`, `write_image_data`, and the trailer
/// that the writer adds when dropped.
/// Claimed: the bytes are those the crate writes for these arguments
/// ([`png_grayscale8`]); a zero side fails at the header (`write_header`
/// refuses a zero width); any other side succeeds, since the buffer holds
/// `side * side` pixels and an in-memory writer never fails.
/// The `requires` keeps the crate's row-length arithmetic (`side + 1`
/// bytes per row, times `side` rows) within `usize`.
#[verifier::external_body]
pub(crate) fn encode_grayscale_png(side: u32, pixels: &[u8]) -> (res: Result<Vec<u8>, PngWriteError>)
    requires
        pixels@.len() == side * side,
        (side + 1) * side <= usize::MAX,
    ensures
        res is Ok <==> side > 0,
        res matches Ok(bytes) ==> bytes@ == png_grayscale8(side, pixels@),
        res matches Err(e) ==> e is Header,
{
    let mut buf = Vec::new();
    {
        let mut encoder = png::Encoder::new(&mut buf, side, side);
        encoder.set_color(png::ColorType::Grayscale);
        encoder.set_depth(png::BitDepth::Eight);
        let mut writer = encoder.write_header().map_err(PngWriteError::Header)?;
        writer.write_image_data(pixels).map_err(PngWriteError::ImageData)?;
    }
    Ok(buf)
}

/// Each module becomes a `scale` x `scale` square of the image, black when
/// the module is dark and white when it is light, placed `margin` modules in
/// from the top-left corner; every pixel outside the symbol is white.
pub proof fn lemma_raster_draws_modules(
    qr: QRCode,
    margin: nat,
    scale: nat,
    row: nat,
    col: nat,
)
    requires
        qr.wf(),
        scale > 0,
        row < image_side(qr, margin, scale),
        col < image_side(qr, margin, scale),
    ensures
        ({
            let side = image_side(qr, margin, scale);
            let y = row / scale - margin;
            let x = col / scale - margin;
            let pixel = raster(qr, margin, scale, side)[(row * side + col) as int];
            &&& 0 <= y < qr.size && 0 <= x < qr.size ==> pixel == if qr.is_dark(x, y) {
                0u8
            } else {
                0xFFu8
            }
            &&& !(0 <= y < qr.size && 0 <= x < qr.size) ==> pixel == 0xFF
        }),
{
    let side = image_side(qr, margin, scale);
    assert(row * side + col < side * side) by (nonlinear_arith)
        requires
            row < side,
            col < side,
    ;
    lemma_fundamental_div_mod_converse(
        (row * side + col) as int,
        side as int,
        row as int,
        col as int,
    );
}

/// The module at column `x`, row `y` covers the pixels
/// `(margin + y) * scale + dy`, `(margin + x) * scale + dx` for `dx`, `dy`
/// below `scale`: all black if the module is dark, all white otherwise.
pub proof fn lemma_module_square(
    qr: QRCode,
    margin: nat,
    scale: nat,
    x: nat,
    y: nat,
    dx: nat,
    dy: nat,
)
    requires
        qr.wf(),
        scale > 0,
        x < qr.size,
        y < qr.size,
        dx < scale,
        dy < scale,
    ensures
        ({
            let side = image_side(qr, margin, scale);
            let row = (margin + y) * scale + dy;
            let col = (margin + x) * scale + dx;
            &&& row < side
            &&& col < side
            &&& raster(qr, margin, scale, side)[(row * side + col) as int] == if qr.is_dark(
                x as int,
                y as int,
            ) {
                0u8
            } else {
                0xFFu8
            }
        }),
{
    let side = image_side(qr, margin, scale);
    let row = (margin + y) * scale + dy;
    let col = (margin + x) * scale + dx;
    assert(row < side && col < side) by (nonlinear_arith)
        requires
            side == (qr.size + 2 * margin) * scale,
            row == (margin + y) * scale + dy,
            col == (margin + x) * scale + dx,
            x < qr.size,
            y < qr.size,
            dx < scale,
            dy < scale,
    ;
    lemma_fundamental_div_mod_converse(row as int, scale as int, (margin + y) as int, dy as int);
    lemma_fundamental_div_mod_converse(col as int, scale as int, (margin + x) as int, dx as int);
    lemma_raster_draws_modules(qr, margin, scale, row, col);
}

/// Scaling up by `k` turns each pixel into a `k` x `k` block: the image at
/// scale `k * scale` is `k` times as wide, and its pixel at `row`, `col` is
/// the pixel at `row / k`, `col / k` of the image at scale `scale`.
pub proof fn lemma_raster_scale(
    qr: QRCode,
    margin: nat,
    scale: nat,
    k: nat,
    row: nat,
    col: nat,
)
    requires
        qr.wf(),
        scale > 0,
        k > 0,
        row < k * image_side(qr, margin, scale),
        col < k * image_side(qr, margin, scale),
    ensures
        ({
            let n = image_side(qr, margin, scale);
            &&& image_side(qr, margin, k * scale) == k * n
            &&& raster(qr, margin, k * scale, k * n)[(row * (k * n) + col) as int] == raster(
                qr,
                margin,
                scale,
                n,
            )[((row / k) * n + col / k) as int]
        }),
{
    let n = image_side(qr, margin, scale);
    let kn = k * n;
    assert(image_side(qr, margin, k * scale) == kn) by (nonlinear_arith)
        requires
            n == (qr.size + 2 * margin) * scale,
            kn == k * n,
            image_side(qr, margin, k * scale) == (qr.size + 2 * margin) * (k * scale),
    ;
    assert(k * scale > 0) by (nonlinear_arith)
        requires
            k > 0,
            scale > 0,
    ;
    assert(row * kn + col < kn * kn) by (nonlinear_arith)
        requires
            row < kn,
            col < kn,
    ;
    lemma_fundamental_div_mod_converse((row * kn + col) as int, kn as int, row as int, col as int);
    let r = row / k;
    let c = col / k;
    assert(r < n && c < n) by (nonlinear_arith)
        requires
            row < k * n,
            col < k * n,
            k > 0,
            r == row / k,
            c == col / k,
    ;
    assert(r * n + c < n * n) by (nonlinear_arith)
        requires
            r < n,
            c < n,
    ;
    lemma_fundamental_div_mod_converse((r * n + c) as int, n as int, r as int, c as int);
    lemma_div_denominator(row as int, k as int, scale as int);
    lemma_div_denominator(col as int, k as int, scale as int);
}

} // verus!
