//! Decoding of encoded image bytes (PNG, JPEG, ...) into pixel grids, and
//! the byte-level entry point that decodes two images and diffs them.
use vstd::prelude::*;
use crate::palette::Pixel;
use crate::grid::PixelGrid;
use crate::compare::ColorEntry;
use crate::compare::CompareError;
use crate::compare::compare;
use crate::compare::view_report;
use crate::compare::report_spec;

verus! {

/// What the external decoder yields for a byte buffer: `None` when the bytes
/// do not decode as an image, otherwise the dimensions and the raw row-major
/// RGBA buffer (4 bytes per pixel). The decoder's result depends on the bytes
/// alone.
pub uninterp spec fn decoded_rgba(bytes: Seq<u8>) -> Option<(usize, usize, Seq<u8>)>;

/// The pixels of a raw RGBA buffer, four consecutive bytes each.
pub open spec fn pixels_of(raw: Seq<u8>) -> Seq<Pixel> {
    Seq::new(
        raw.len() / 4,
        |k: int|
            Pixel { r: raw[4 * k], g: raw[4 * k + 1], b: raw[4 * k + 2], a: raw[4 * k + 3] },
    )
}

/// Relies on `image::load_from_memory` (the format is auto-detected) together
/// with `DynamicImage::to_rgba8`, `ImageBuffer::dimensions` and
/// `ImageBuffer::into_raw`: a successful decode yields the image's dimensions
/// and its raw RGBA buffer, 4 bytes per pixel, rows in order y = 0..height,
/// within a row x = 0..width; decoding is deterministic in the bytes. On
/// failure the decoder's message is returned.
#[verifier::external_body]
fn decode_bytes(bytes: &[u8]) -> (r: Result<(usize, usize, Vec<u8>), String>)
    ensures
        r matches Ok(t) ==> decoded_rgba(bytes@) == Some((t.0, t.1, t.2@)) && t.2@.len() == 4 * (
        t.0 as int) * (t.1 as int),
        r matches Err(_) ==> decoded_rgba(bytes@) is None,
{
    match image::load_from_memory(bytes) {
        Ok(img) => {
            let rgba = img.to_rgba8();
            let (w, h) = rgba.dimensions();
            Ok((w as usize, h as usize, rgba.into_raw()))
        },
        Err(e) => Err(format!("Failed to load image: {}", e)),
    }
}

/// Decodes one encoded image into a well-formed pixel grid; the decoding
/// itself is the external decoder's work, the regrouping of the raw RGBA
/// bytes into pixels is verified.
pub fn load_image(bytes: &[u8]) -> (r: Result<PixelGrid, CompareError>)
    ensures
        match r {
            Ok(g) => decoded_rgba(bytes@) matches Some(d) && g.wf() && g.width == d.0 && g.height
                == d.1 && g.pixels@ == pixels_of(d.2),
            Err(e) => (e matches CompareError::DecodeError(_)) && decoded_rgba(bytes@) is None,
        },
{
    let (w, h, raw) = match decode_bytes(bytes) {
        Ok(t) => t,
        Err(m) => {
            return Err(CompareError::DecodeError(m));
        },
    };
    let total = raw.len() / 4;
    proof {
        assert(total == (w as int) * (h as int) && 4 * (total as int) == raw@.len() as int)
            by (nonlinear_arith)
            requires
                raw@.len() == 4 * (w as int) * (h as int),
                total == raw@.len() as int / 4,
        ;
    }
    let mut pixels: Vec<Pixel> = Vec::new();
    let mut i: usize = 0;
    while i < total
        invariant
            i <= total,
            4 * (total as int) == raw@.len(),
            raw@.len() <= usize::MAX,
            pixels@.len() == i as int,
            forall|k: int|
                0 <= k < i ==> #[trigger] pixels@[k] == (Pixel {
                    r: raw@[4 * k],
                    g: raw@[4 * k + 1],
                    b: raw@[4 * k + 2],
                    a: raw@[4 * k + 3],
                }),
        decreases total - i,
    {
        let px = Pixel { r: raw[4 * i], g: raw[4 * i + 1], b: raw[4 * i + 2], a: raw[4 * i + 3] };
        pixels.push(px);
        i = i + 1;
    }
    proof {
        assert(pixels@ =~= pixels_of(raw@));
    }
    Ok(PixelGrid { width: w, height: h, pixels })
}

/// Compares two encoded images: decodes both, then diffs the grids with
/// [`compare`]. A decode failure surfaces as `DecodeError`, unequal
/// dimensions as `DimensionMismatch`; on success the report is the one that
/// [`report_spec`] pins down for the two decoded grids.
pub fn compare_images(template_bytes: &[u8], actual_bytes: &[u8], include_pixels: bool) -> (r:
    Result<Vec<ColorEntry>, CompareError>)
    ensures
        match r {
            Ok(rep) => decoded_rgba(template_bytes@) matches Some(td) && decoded_rgba(
                actual_bytes@,
            ) matches Some(ad) && td.0 == ad.0 && td.1 == ad.1 && view_report(rep@) == report_spec(
                pixels_of(td.2),
                pixels_of(ad.2),
                td.0 as int,
                include_pixels,
            ),
            Err(CompareError::DecodeError(_)) => decoded_rgba(template_bytes@) is None
                || decoded_rgba(actual_bytes@) is None,
            Err(
                CompareError::DimensionMismatch {
                    template_width,
                    template_height,
                    actual_width,
                    actual_height,
                },
            ) => decoded_rgba(template_bytes@) matches Some(td) && decoded_rgba(actual_bytes@)
                matches Some(ad) && (td.0 != ad.0 || td.1 != ad.1) && template_width == td.0
                && template_height == td.1 && actual_width == ad.0 && actual_height == ad.1,
        },
{
    let tg = match load_image(template_bytes) {
        Ok(g) => g,
        Err(e) => {
            return Err(e);
        },
    };
    let ag = match load_image(actual_bytes) {
        Ok(g) => g,
        Err(e) => {
            return Err(e);
        },
    };
    compare(&tg, &ag, include_pixels)
}

} // verus!
