//! Rounded-corner post-processing of downloaded cover art.
//!
//! Freshly fetched bytes are decoded to an RGBA pixel buffer, the alpha of
//! every pixel outside the four quarter-circles is cleared, and the buffer
//! is re-encoded as PNG before it is cached. The corner test itself is pure
//! integer geometry and is verified byte-for-byte; only the decode and
//! encode steps of the outside image codec are trusted. The mask is
//! idempotent, so re-masking already-masked bytes never corrupts them.

use vstd::arithmetic::div_mod::lemma_fundamental_div_mod_converse;
use vstd::prelude::*;

verus! {

/// Why post-processing failed. The pipeline absorbs both cases: the
/// variant simply never appears.
#[derive(Debug, Clone, Copy, PartialEq, Eq, Structural)]
pub enum ImageError {
    /// The downloaded bytes are not a decodable image.
    DecodeFailed,
    /// The processed pixels could not be re-encoded.
    EncodeFailed,
}

/// The RGBA8 decoding of a byte string, when the bytes are a valid image:
/// the pixel buffer (4 bytes per pixel, row-major) with its width and
/// height. A function of the bytes alone; stating which bytes decode to
/// what would restate the image codec.
pub uninterp spec fn rgba_decode_of(bytes: Seq<u8>) -> Option<(Seq<u8>, u32, u32)>;

/// The PNG encoding of an RGBA8 pixel buffer with the given dimensions.
/// A function of the buffer and dimensions alone.
pub uninterp spec fn png_encode_of(buf: Seq<u8>, w: u32, h: u32) -> Seq<u8>;

/// Relies on image's `load_from_memory` (format guessed from the bytes)
/// and `DynamicImage::to_rgba8`: a successful decode is determined by the
/// bytes alone, and the RGBA8 buffer holds exactly `width * height` pixels
/// of 4 bytes each.
#[verifier::external_body]
fn decode_rgba(data: &Vec<u8>) -> (r: Option<(Vec<u8>, u32, u32)>)
    ensures
        r is Some <==> rgba_decode_of(data@) is Some,
        r matches Some(d) ==> (rgba_decode_of(data@) == Some((d.0@, d.1, d.2)) && d.0@.len() == 4
            * (d.1 as int) * (d.2 as int)),
{
    match image::load_from_memory(data) {
        Ok(img) => {
            let rgba = img.to_rgba8();
            let w = rgba.width();
            let h = rgba.height();
            Some((rgba.into_raw(), w, h))
        },
        Err(_) => None,
    }
}

/// Relies on image's `PngEncoder::write_image` for RGBA8 data: the output
/// bytes are determined by the buffer and dimensions alone, and encoding
/// into memory succeeds whenever both dimensions are positive — zero width
/// and zero height are the png encoder's only failures for a well-sized
/// RGBA8 buffer written to a `Vec`. The encoder panics on a buffer whose
/// length does not match the dimensions, so that is required away.
#[verifier::external_body]
fn encode_png(buf: &Vec<u8>, w: u32, h: u32) -> (r: Option<Vec<u8>>)
    requires
        buf@.len() == 4 * (w as int) * (h as int),
    ensures
        r matches Some(v) ==> v@ == png_encode_of(buf@, w, h),
        w > 0 && h > 0 ==> r is Some,
{
    let mut out: Vec<u8> = Vec::new();
    let enc = image::codecs::png::PngEncoder::new(&mut out);
    match image::ImageEncoder::write_image(enc, buf, w, h, image::ExtendedColorType::Rgba8) {
        Ok(()) => Some(out),
        Err(_) => None,
    }
}

/// `a * a`, named so corner distances read as geometry.
pub open spec fn sq(a: int) -> int {
    a * a
}

/// The radius actually used: the requested one, clamped so the four
/// quarter-circles fit the image.
pub open spec fn spec_eff_radius(radius: u32, w: u32, h: u32) -> u32 {
    let a: u32 = if radius < w / 2 {
        radius
    } else {
        w / 2
    };
    if a < h / 2 {
        a
    } else {
        h / 2
    }
}

/// Whether the pixel at `(x, y)` lies in one of the four corner regions
/// but outside its quarter-circle of radius `r` — the pixels whose alpha
/// the mask clears.
pub open spec fn in_corner(x: int, y: int, w: int, h: int, r: int) -> bool {
    ||| (x < r && y < r && sq(x - r) + sq(y - r) > sq(r))
    ||| (y < r && x >= w - r && sq(x - (w - r)) + sq(y - r) > sq(r))
    ||| (x < r && y >= h - r && sq(x - r) + sq(y - (h - r)) > sq(r))
    ||| (x >= w - r && y >= h - r && sq(x - (w - r)) + sq(y - (h - r)) > sq(r))
}

/// The masked pixel buffer: alpha bytes of corner pixels become zero,
/// every other byte is untouched.
pub open spec fn spec_masked(buf: Seq<u8>, w: u32, h: u32, radius: u32) -> Seq<u8> {
    let r = spec_eff_radius(radius, w, h) as int;
    Seq::new(
        buf.len(),
        |i: int|
            {
                let p = i / 4;
                if i % 4 == 3 && in_corner(p % (w as int), p / (w as int), w as int, h as int, r) {
                    0u8
                } else {
                    buf[i]
                }
            },
    )
}

/// `a * a` on values small enough never to overflow.
fn sq_exec(a: i128) -> (res: i128)
    requires
        -0x2_0000_0000 <= a <= 0x2_0000_0000,
    ensures
        res == sq(a as int),
        0 <= res <= 0x4_0000_0000_0000_0000,
{
    proof {
        assert(0 <= a * a <= 0x4_0000_0000_0000_0000) by (nonlinear_arith)
            requires
                -0x2_0000_0000 <= a <= 0x2_0000_0000,
        {}
    }
    a * a
}

/// Whether `(x, y)` is a corner pixel for effective radius `r`.
fn pixel_in_corner(x: u32, y: u32, w: u32, h: u32, r: u32) -> (res: bool)
    ensures
        res == in_corner(x as int, y as int, w as int, h as int, r as int),
{
    let xi = x as i128;
    let yi = y as i128;
    let wi = w as i128;
    let hi = h as i128;
    let ri = r as i128;
    let rr = sq_exec(ri);
    if x < r && y < r && sq_exec(xi - ri) + sq_exec(yi - ri) > rr {
        true
    } else if y < r && xi >= wi - ri && sq_exec(xi - (wi - ri)) + sq_exec(yi - ri) > rr {
        true
    } else if x < r && yi >= hi - ri && sq_exec(xi - ri) + sq_exec(yi - (hi - ri)) > rr {
        true
    } else if xi >= wi - ri && yi >= hi - ri && sq_exec(xi - (wi - ri)) + sq_exec(yi - (hi - ri))
        > rr {
        true
    } else {
        false
    }
}

/// Clears the alpha of every corner pixel of a row-major RGBA8 buffer,
/// leaving all other bytes exactly as they were.
pub fn mask_rounded_corners(buf: &mut Vec<u8>, w: u32, h: u32, radius: u32)
    requires
        old(buf)@.len() == 4 * (w as int) * (h as int),
    ensures
        final(buf)@ == spec_masked(old(buf)@, w, h, radius),
{
    let mut r: u32 = radius;
    if w / 2 < r {
        r = w / 2;
    }
    if h / 2 < r {
        r = h / 2;
    }
    assert(r == spec_eff_radius(radius, w, h));
    let ghost o = buf@;
    let ghost masked = spec_masked(o, w, h, radius);
    proof {
        assert(masked.len() == o.len());
    }
    let total: usize = buf.len();
    let mut idx: usize = 0;
    let mut y: u32 = 0;
    while y < h
        invariant
            y <= h,
            total == o.len(),
            idx == 4 * ((y as int) * (w as int)),
            buf@.len() == o.len(),
            o.len() == 4 * (w as int) * (h as int),
            r == spec_eff_radius(radius, w, h),
            masked == spec_masked(o, w, h, radius),
            forall|i: int|
                0 <= i < o.len() ==> buf@[i] == (if i < 4 * ((y as int) * (w as int)) {
                    masked[i]
                } else {
                    o[i]
                }),
        decreases h - y,
    {
        let mut x: u32 = 0;
        while x < w
            invariant
                x <= w,
                y < h,
                total == o.len(),
                idx == 4 * ((y as int) * (w as int) + (x as int)),
                buf@.len() == o.len(),
                o.len() == 4 * (w as int) * (h as int),
                r == spec_eff_radius(radius, w, h),
                masked == spec_masked(o, w, h, radius),
                forall|i: int|
                    0 <= i < o.len() ==> buf@[i] == (if i < 4 * ((y as int) * (w as int)
                        + (x as int)) {
                        masked[i]
                    } else {
                        o[i]
                    }),
            decreases w - x,
        {
            let ghost pre = buf@;
            let ghost p = (y as int) * (w as int) + (x as int);
            proof {
                assert(0 <= p && 4 * p + 3 < o.len()) by (nonlinear_arith)
                    requires
                        x < w,
                        y < h,
                        p == (y as int) * (w as int) + (x as int),
                        o.len() == 4 * (w as int) * (h as int),
                {}
            }
            if pixel_in_corner(x, y, w, h, r) {
                buf[idx + 3] = 0;
                proof {
                    lemma_fundamental_div_mod_converse(4 * p + 3, 4, p, 3);
                    lemma_fundamental_div_mod_converse(p, w as int, y as int, x as int);
                    assert(masked[4 * p + 3] == 0u8);
                }
            }
            proof {
                assert forall|i: int| 0 <= i < o.len() implies buf@[i] == (if i < 4 * (p + 1) {
                    masked[i]
                } else {
                    o[i]
                }) by {
                    if i < 4 * p {
                        assert(buf@[i] == pre[i]);
                    } else if i < 4 * (p + 1) {
                        let c = i - 4 * p;
                        lemma_fundamental_div_mod_converse(i, 4, p, c);
                        lemma_fundamental_div_mod_converse(p, w as int, y as int, x as int);
                        if c == 3 {
                            if !in_corner(x as int, y as int, w as int, h as int, r as int) {
                                assert(buf@[i] == pre[i] && pre[i] == o[i]);
                                assert(masked[i] == o[i]);
                            }
                        } else {
                            assert(buf@[i] == pre[i] && pre[i] == o[i]);
                            assert(masked[i] == o[i]);
                        }
                    } else {
                        assert(buf@[i] == pre[i] && pre[i] == o[i]);
                    }
                }
            }
            idx += 4;
            x += 1;
        }
        proof {
            assert((y as int) * (w as int) + (w as int) == (y as int + 1) * (w as int))
                by (nonlinear_arith);
        }
        y += 1;
    }
    proof {
        assert(4 * ((h as int) * (w as int)) == 4 * (w as int) * (h as int)) by (nonlinear_arith);
        assert forall|i: int| 0 <= i < o.len() implies buf@[i] == masked[i] by {
            assert(i < 4 * ((h as int) * (w as int)));
        }
        assert(buf@ =~= masked);
    }
}

/// Decodes `data`, clears the corner alphas at the requested radius, and
/// re-encodes as PNG. Success is owed whenever the bytes decode to an
/// image with positive dimensions: decode failure is the only error for
/// such input, and an encode failure can arise only from a zero-sized
/// decoded image. Either failure makes the pipeline store nothing.
pub fn apply_rounded_corners(data: Vec<u8>, corner_radius: u32) -> (r: Result<Vec<u8>, ImageError>)
    ensures
        (rgba_decode_of(data@) is None) <==> r == Err::<Vec<u8>, ImageError>(
            ImageError::DecodeFailed,
        ),
        (rgba_decode_of(data@) matches Some(d) && d.1 > 0 && d.2 > 0) ==> r is Ok,
        r matches Ok(out) ==> (rgba_decode_of(data@) matches Some(d) && out@ == png_encode_of(
            spec_masked(d.0, d.1, d.2, corner_radius),
            d.1,
            d.2,
        )),
{
    match decode_rgba(&data) {
        None => Err(ImageError::DecodeFailed),
        Some((mut buf, w, h)) => {
            mask_rounded_corners(&mut buf, w, h, corner_radius);
            match encode_png(&buf, w, h) {
                Some(out) => Ok(out),
                None => Err(ImageError::EncodeFailed),
            }
        },
    }
}

/// Masking is idempotent: masking an already-masked buffer changes
/// nothing, so re-processing cached bytes can never corrupt them.
pub proof fn lemma_mask_idempotent(buf: Seq<u8>, w: u32, h: u32, radius: u32)
    ensures
        spec_masked(spec_masked(buf, w, h, radius), w, h, radius) == spec_masked(
            buf,
            w,
            h,
            radius,
        ),
{
    let m1 = spec_masked(buf, w, h, radius);
    let m2 = spec_masked(m1, w, h, radius);
    assert(m2 =~= m1);
}

} // verus!
