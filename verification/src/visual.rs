//! Visual regression: decode PNG screenshots to RGBA, compare them pixel by
//! pixel against a baseline within a per-channel tolerance, skip masked
//! regions, and mark the differing pixels for a diff image.
use vstd::prelude::*;

use base64::Engine;
use crate::text::{decimal, starts_with};
use vstd::arithmetic::div_mod::{lemma_fundamental_div_mod, lemma_fundamental_div_mod_converse};

verus! {

// ---------------------------------------------------------------------------
// Masks and presets
// ---------------------------------------------------------------------------

/// A rectangular region to exclude from pixel comparison.
#[derive(Debug, Clone)]
pub struct MaskRegion {
    /// X coordinate of the top-left corner.
    pub x: u32,
    /// Y coordinate of the top-left corner.
    pub y: u32,
    /// Width of the region.
    pub width: u32,
    /// Height of the region.
    pub height: u32,
}

impl MaskRegion {
    /// The region's right and bottom edges lie in the `u32` plane.
    pub open spec fn fits(self) -> bool {
        self.x + self.width <= u32::MAX && self.y + self.height <= u32::MAX
    }

    /// Pixel `(px, py)` lies in the region.
    pub open spec fn covers(self, px: int, py: int) -> bool {
        self.x <= px < self.x + self.width && self.y <= py < self.y + self.height
    }

    /// Create a new mask region.
    pub fn new(x: u32, y: u32, width: u32, height: u32) -> (r: MaskRegion)
        ensures
            r.x == x,
            r.y == y,
            r.width == width,
            r.height == height,
    {
        MaskRegion { x, y, width, height }
    }

    /// Whether pixel `(px, py)` lies in the region.
    pub fn contains(&self, px: u32, py: u32) -> (r: bool)
        requires
            self.fits(),
        ensures
            r == self.covers(px as int, py as int),
    {
        px >= self.x && px < self.x + self.width && py >= self.y && py < self.y + self.height
    }
}

/// Named threshold presets for common use cases.
#[derive(Debug, Clone, Copy, PartialEq, Eq, Structural)]
pub enum ThresholdPreset {
    /// Pixel-perfect: tolerance 0, threshold 0%.
    Strict,
    /// Default: tolerance 2, threshold 0.1%.
    Standard,
    /// Tolerant of anti-aliasing and subpixel rendering: tolerance 5, threshold 0.5%.
    AntiAlias,
    /// Lenient for cross-platform use: tolerance 10, threshold 2.0%.
    Relaxed,
}

/// The per-channel tolerance of a preset.
pub open spec fn tolerance_of(p: ThresholdPreset) -> u8 {
    match p {
        ThresholdPreset::Strict => 0,
        ThresholdPreset::Standard => 2,
        ThresholdPreset::AntiAlias => 5,
        ThresholdPreset::Relaxed => 10,
    }
}

impl ThresholdPreset {
    /// The per-channel tolerance of the preset.
    pub fn channel_tolerance(self) -> (r: u8)
        ensures
            r == tolerance_of(self),
    {
        match self {
            ThresholdPreset::Strict => 0,
            ThresholdPreset::Standard => 2,
            ThresholdPreset::AntiAlias => 5,
            ThresholdPreset::Relaxed => 10,
        }
    }
}

// ---------------------------------------------------------------------------
// Errors and images
// ---------------------------------------------------------------------------

/// Why a visual comparison failed.
#[derive(Debug)]
pub enum TestError {
    /// The difference exceeds the threshold.
    VisualRegression(String),
    /// Decoding, size or I/O failure.
    Other(String),
}

/// A decoded image: width, height and 8-bit RGBA samples.
#[derive(Debug)]
pub struct DecodedImage {
    /// Width in pixels.
    pub width: u32,
    /// Height in pixels.
    pub height: u32,
    /// RGBA samples, four per pixel, row by row.
    pub rgba: Vec<u8>,
}

// ---------------------------------------------------------------------------
// Pixel comparison
// ---------------------------------------------------------------------------

/// The absolute difference of two samples.
pub open spec fn sample_gap(a: u8, b: u8) -> int {
    if a >= b {
        a - b
    } else {
        b - a
    }
}

/// How many pixels are compared: those of the image whose four samples lie
/// inside both buffers.
pub open spec fn compared_pixels(width: u32, height: u32, cur_len: nat, base_len: nat) -> int {
    let n = width * height;
    let a = cur_len as int / 4;
    let b = base_len as int / 4;
    if n <= a && n <= b {
        n
    } else if a <= b {
        a
    } else {
        b
    }
}

/// Pixel `i` of an image `width` wide lies in one of `masks`.
pub open spec fn masked_at(masks: Seq<MaskRegion>, width: u32, i: int) -> bool {
    exists|m: int| 0 <= m < masks.len() && (#[trigger] masks[m]).covers(i % width as int, i / width as int)
}

/// Pixel `i` is unmasked and some channel differs by more than `tolerance`.
pub open spec fn differs_at(cur: Seq<u8>, base: Seq<u8>, tolerance: u8, masks: Seq<MaskRegion>, width: u32, i: int) -> bool {
    &&& !masked_at(masks, width, i)
    &&& (sample_gap(cur[4 * i], base[4 * i]) > tolerance
        || sample_gap(cur[4 * i + 1], base[4 * i + 1]) > tolerance
        || sample_gap(cur[4 * i + 2], base[4 * i + 2]) > tolerance
        || sample_gap(cur[4 * i + 3], base[4 * i + 3]) > tolerance)
}

/// The differing pixels among the first `k`, in increasing order.
pub open spec fn diff_upto(cur: Seq<u8>, base: Seq<u8>, tolerance: u8, masks: Seq<MaskRegion>, width: u32, k: int) -> Seq<usize>
    decreases k,
{
    if k <= 0 {
        seq![]
    } else {
        let before = diff_upto(cur, base, tolerance, masks, width, k - 1);
        if differs_at(cur, base, tolerance, masks, width, k - 1) {
            before.push((k - 1) as usize)
        } else {
            before
        }
    }
}

/// How many of the first `k` pixels are masked.
pub open spec fn masked_upto(masks: Seq<MaskRegion>, width: u32, k: int) -> nat
    decreases k,
{
    if k <= 0 {
        0
    } else {
        masked_upto(masks, width, k - 1) + if masked_at(masks, width, k - 1) {
            1nat
        } else {
            0nat
        }
    }
}

proof fn lemma_masked_upto_bound(masks: Seq<MaskRegion>, width: u32, k: int)
    requires
        k >= 0,
    ensures
        masked_upto(masks, width, k) <= k,
    decreases k,
{
    if k > 0 {
        lemma_masked_upto_bound(masks, width, k - 1);
    }
}

/// An image compared with itself has no differing pixel, whatever the
/// tolerance and the masks.
pub proof fn identical_images_have_no_diff(px: Seq<u8>, tolerance: u8, masks: Seq<MaskRegion>, width: u32, k: int)
    ensures
        diff_upto(px, px, tolerance, masks, width, k).len() == 0,
    decreases k,
{
    if k > 0 {
        identical_images_have_no_diff(px, tolerance, masks, width, k - 1);
        assert(!differs_at(px, px, tolerance, masks, width, k - 1));
    }
}

/// Every compared pixel is masked, differs, or matches: the differing and
/// masked pixels together never exceed the pixels compared.
pub proof fn diff_and_masked_within_compared(cur: Seq<u8>, base: Seq<u8>, tolerance: u8, masks: Seq<MaskRegion>, width: u32, k: int)
    requires
        k >= 0,
    ensures
        diff_upto(cur, base, tolerance, masks, width, k).len() + masked_upto(masks, width, k) <= k,
    decreases k,
{
    if k > 0 {
        diff_and_masked_within_compared(cur, base, tolerance, masks, width, k - 1);
    }
}

/// Pixels are laid out row by row: the pixel in column `col` of row `row` of
/// an image `width` wide is masked exactly when some mask region covers the
/// point `(col, row)`.
pub proof fn masking_follows_the_pixel_grid(masks: Seq<MaskRegion>, width: u32, row: int, col: int)
    requires
        width > 0,
        row >= 0,
        0 <= col < width,
    ensures
        masked_at(masks, width, row * width + col) <==> exists|m: int|
            0 <= m < masks.len() && (#[trigger] masks[m]).covers(col, row),
{
    let i = row * width + col;
    lemma_fundamental_div_mod_converse(i, width as int, row, col);
    assert(i % width as int == col && i / width as int == row);
}

/// A mask region spanning the whole top row of an image `width` wide masks
/// exactly the first `width` pixels: of the first `k` pixels, `min(k, width)`
/// are masked.
pub proof fn top_row_mask_covers_first_row(width: u32, k: int)
    requires
        width > 0,
        k >= 0,
    ensures
        ({
            let masks = seq![MaskRegion { x: 0, y: 0, width: width, height: 1 }];
            &&& forall|i: int| 0 <= i ==> (masked_at(masks, width, i) <==> i < width)
            &&& masked_upto(masks, width, k) == if k < width { k } else { width as int }
        }),
    decreases k,
{
    let masks = seq![MaskRegion { x: 0, y: 0, width: width, height: 1 }];
    assert forall|i: int| 0 <= i implies (masked_at(masks, width, i) <==> i < width) by {
        let w = width as int;
        if i < w {
            lemma_fundamental_div_mod_converse(i, w, 0, i);
            assert(masks[0].covers(i % w, i / w));
        } else {
            lemma_fundamental_div_mod(i, w);
            assert(i / w >= 1) by (nonlinear_arith)
                requires
                    i >= w,
                    w > 0,
                    i == w * (i / w) + i % w,
                    i % w < w,
            ;
            assert forall|m: int| 0 <= m < masks.len() implies !(#[trigger] masks[m]).covers(i % w, i / w) by {
                assert(m == 0);
            }
        }
    }
    if k > 0 {
        top_row_mask_covers_first_row(width, k - 1);
    }
}

fn gap(a: u8, b: u8) -> (r: u8)
    ensures
        r == sample_gap(a, b),
{
    if a >= b {
        a - b
    } else {
        b - a
    }
}

fn any_mask_covers(masks: &[MaskRegion], px: u32, py: u32) -> (r: bool)
    requires
        forall|m: int| 0 <= m < masks@.len() ==> (#[trigger] masks@[m]).fits(),
    ensures
        r == exists|m: int| 0 <= m < masks@.len() && (#[trigger] masks@[m]).covers(px as int, py as int),
{
    let mut j: usize = 0;
    while j < masks.len()
        invariant
            j <= masks@.len(),
            forall|m: int| 0 <= m < masks@.len() ==> (#[trigger] masks@[m]).fits(),
            forall|m: int| 0 <= m < j ==> !(#[trigger] masks@[m]).covers(px as int, py as int),
        decreases masks.len() - j,
    {
        if masks[j].contains(px, py) {
            return true;
        }
        j = j + 1;
    }
    false
}

/// Compares `current` with `baseline` pixel by pixel: the indices of the
/// pixels where some channel differs by more than `tolerance` (masked pixels
/// skipped), and the number of masked pixels. Pixels whose samples run past
/// either buffer end the comparison.
pub fn compute_diff(current: &DecodedImage, baseline: &DecodedImage, tolerance: u8, masks: &[MaskRegion]) -> (r: (Vec<usize>, usize))
    requires
        current.width * current.height <= u32::MAX,
        forall|m: int| 0 <= m < masks@.len() ==> (#[trigger] masks@[m]).fits(),
    ensures
        ({
            let n = compared_pixels(current.width, current.height, current.rgba@.len(), baseline.rgba@.len());
            &&& r.0@ == diff_upto(current.rgba@, baseline.rgba@, tolerance, masks@, current.width, n)
            &&& r.1 == masked_upto(masks@, current.width, n)
        }),
{
    let mut diff_positions: Vec<usize> = Vec::new();
    let mut masked_count: usize = 0;
    let pixel_count = (current.width * current.height) as usize;
    let cur = &current.rgba;
    let base = &baseline.rgba;
    let ghost n = compared_pixels(current.width, current.height, cur@.len(), base@.len());
    let mut i: usize = 0;
    while i < pixel_count
        invariant_except_break
            i <= pixel_count,
            i <= cur@.len() / 4,
            i <= base@.len() / 4,
        invariant
            n == compared_pixels(current.width, current.height, cur@.len(), base@.len()),
            pixel_count == current.width * current.height,
            current.width * current.height <= u32::MAX,
            forall|m: int| 0 <= m < masks@.len() ==> (#[trigger] masks@[m]).fits(),
            diff_positions@ == diff_upto(cur@, base@, tolerance, masks@, current.width, i as int),
            masked_count == masked_upto(masks@, current.width, i as int),
            masked_count <= i,
        ensures
            i == n,
            diff_positions@ == diff_upto(cur@, base@, tolerance, masks@, current.width, i as int),
            masked_count == masked_upto(masks@, current.width, i as int),
        decreases pixel_count - i,
    {
        if i >= cur.len() / 4 || i >= base.len() / 4 {
            break;
        }
        let offset = i * 4;
        if masks.len() > 0 {
            let px = (i as u32) % current.width;
            let py = (i as u32) / current.width;
            if any_mask_covers(masks, px, py) {
                assert(masked_at(masks@, current.width, i as int));
                masked_count = masked_count + 1;
                i = i + 1;
                continue;
            }
        }
        assert(!masked_at(masks@, current.width, i as int));
        let dr = gap(cur[offset], base[offset]);
        let dg = gap(cur[offset + 1], base[offset + 1]);
        let db = gap(cur[offset + 2], base[offset + 2]);
        let da = gap(cur[offset + 3], base[offset + 3]);
        if dr > tolerance || dg > tolerance || db > tolerance || da > tolerance {
            diff_positions.push(i);
        }
        i = i + 1;
    }
    (diff_positions, masked_count)
}


/// What a comparison of two decoded images found.
#[derive(Debug)]
pub struct DiffSummary {
    /// Indices of the pixels that differ beyond the tolerance, in order.
    pub diff_positions: Vec<usize>,
    /// How many pixels differ beyond the tolerance.
    pub diff_pixel_count: usize,
    /// Pixels compared: all pixels of the image less the masked ones.
    pub total_pixels: usize,
    /// Pixels skipped by mask regions.
    pub masked_pixels: usize,
}

/// The message for images of different sizes.
pub open spec fn size_mismatch_text(cw: u32, ch: u32, bw: u32, bh: u32) -> Seq<char> {
    "screenshot size "@ + decimal(cw as nat) + "x"@ + decimal(ch as nat) + " doesn't match baseline "@
        + decimal(bw as nat) + "x"@ + decimal(bh as nat)
}

/// Compares two decoded images of the same size: the differing pixels, how
/// many there are, how many pixels were compared (all less the masked ones)
/// and how many were masked. Images of different sizes are an error.
pub fn compare_decoded(current: &DecodedImage, baseline: &DecodedImage, tolerance: u8, masks: &[MaskRegion]) -> (r: Result<DiffSummary, TestError>)
    requires
        current.width == baseline.width && current.height == baseline.height ==> current.width
            * current.height <= u32::MAX,
        forall|m: int| 0 <= m < masks@.len() ==> (#[trigger] masks@[m]).fits(),
    ensures
        current.width != baseline.width || current.height != baseline.height ==> (r matches Err(
            TestError::Other(m),
        ) && m@ == size_mismatch_text(current.width, current.height, baseline.width, baseline.height)),
        current.width == baseline.width && current.height == baseline.height ==> (r matches Ok(s) && {
            let n = compared_pixels(current.width, current.height, current.rgba@.len(), baseline.rgba@.len());
            &&& s.diff_positions@ == diff_upto(current.rgba@, baseline.rgba@, tolerance, masks@, current.width, n)
            &&& s.diff_pixel_count == s.diff_positions@.len()
            &&& s.masked_pixels == masked_upto(masks@, current.width, n)
            &&& s.total_pixels == current.width * current.height - s.masked_pixels
        }),
{
    if current.width != baseline.width || current.height != baseline.height {
        let mut m = String::new();
        m.append("screenshot size ");
        m.append(crate::text::decimal_string(current.width as u64).as_str());
        m.append("x");
        m.append(crate::text::decimal_string(current.height as u64).as_str());
        m.append(" doesn't match baseline ");
        m.append(crate::text::decimal_string(baseline.width as u64).as_str());
        m.append("x");
        m.append(crate::text::decimal_string(baseline.height as u64).as_str());
        return Err(TestError::Other(m));
    }
    let (diff, masked) = compute_diff(current, baseline, tolerance, masks);
    proof {
        let n = compared_pixels(current.width, current.height, current.rgba@.len(), baseline.rgba@.len());
        lemma_masked_upto_bound(masks@, current.width, n);
    }
    let total = (current.width * current.height) as usize - masked;
    let count = diff.len();
    Ok(DiffSummary { diff_positions: diff, diff_pixel_count: count, total_pixels: total, masked_pixels: masked })
}

// ---------------------------------------------------------------------------
// Diff image
// ---------------------------------------------------------------------------

/// Pixel `p` is among the first `t` listed positions.
pub open spec fn listed(positions: Seq<usize>, t: int, p: int) -> bool {
    exists|j: int| 0 <= j < t && positions[j] == p
}

/// Sample `k` of the diff image: the source sample, except that every listed
/// pixel lying wholly inside the buffer is painted opaque red.
pub open spec fn marked_sample(src: Seq<u8>, positions: Seq<usize>, t: int, k: int) -> u8 {
    let p = k / 4;
    if listed(positions, t, p) && p < src.len() / 4 {
        if k % 4 == 1 || k % 4 == 2 {
            0u8
        } else {
            255u8
        }
    } else {
        src[k]
    }
}

/// The samples of the diff image: a copy of `source` with the pixels at
/// `positions` painted opaque red (positions past the buffer are ignored).
pub fn mark_diff_pixels(source: &[u8], positions: &[usize]) -> (r: Vec<u8>)
    ensures
        r@.len() == source@.len(),
        forall|k: int| 0 <= k < source@.len() ==> r@[k] == #[trigger] marked_sample(source@, positions@, positions@.len() as int, k),
{
    let mut out: Vec<u8> = Vec::new();
    let mut k: usize = 0;
    while k < source.len()
        invariant
            k <= source@.len(),
            out@ == source@.take(k as int),
        decreases source.len() - k,
    {
        out.push(source[k]);
        k = k + 1;
        assert(out@ =~= source@.take(k as int));
    }
    assert(out@ =~= source@);
    let pixels = source.len() / 4;
    let mut t: usize = 0;
    while t < positions.len()
        invariant
            t <= positions@.len(),
            pixels == source@.len() / 4,
            out@.len() == source@.len(),
            forall|k: int| 0 <= k < source@.len() ==> out@[k] == #[trigger] marked_sample(source@, positions@, t as int, k),
        decreases positions.len() - t,
    {
        let pos = positions[t];
        let ghost before = out@;
        if pos < pixels {
            assert(4 * pos + 3 < source.len());
            let offset = pos * 4;
            out.set(offset, 255);
            out.set(offset + 1, 0);
            out.set(offset + 2, 0);
            out.set(offset + 3, 255);
        }
        assert forall|k: int| 0 <= k < source@.len() implies out@[k] == #[trigger] marked_sample(source@, positions@, t + 1, k) by {
            let p = k / 4;
            assert(listed(positions@, t + 1, p) == (listed(positions@, t as int, p) || p == pos as int)) by {
                if listed(positions@, t + 1, p) && p != pos as int {
                    let j = choose|j: int| 0 <= j < t + 1 && positions@[j] == p;
                    assert(listed(positions@, t as int, p));
                }
                if p == pos as int {
                    assert(positions@[t as int] == p);
                }
            }
            assert(before[k] == marked_sample(source@, positions@, t as int, k));
            if p == pos as int && pos < pixels {
                assert(k == 4 * pos + k % 4);
                assert(p < source@.len() / 4);
            } else {
                assert(k < 4 * pos || k >= 4 * pos + 4 || pos >= pixels);
                assert(out@[k] == before[k]);
            }
        }
        t = t + 1;
    }
    out
}


// ---------------------------------------------------------------------------
// Decoding
// ---------------------------------------------------------------------------

/// The colour type of a decoded PNG frame.
#[derive(Debug, Clone, Copy, PartialEq, Eq, Structural)]
pub enum PngColor {
    /// One grey sample per pixel.
    Grayscale,
    /// Red, green and blue samples.
    Rgb,
    /// One palette index per pixel.
    Indexed,
    /// A grey sample and an alpha sample.
    GrayscaleAlpha,
    /// Red, green, blue and alpha samples.
    Rgba,
}

/// The name of a colour type, as its `Debug` form prints it.
pub open spec fn color_name(c: PngColor) -> Seq<char> {
    match c {
        PngColor::Grayscale => "Grayscale"@,
        PngColor::Rgb => "Rgb"@,
        PngColor::Indexed => "Indexed"@,
        PngColor::GrayscaleAlpha => "GrayscaleAlpha"@,
        PngColor::Rgba => "Rgba"@,
    }
}

fn color_text(c: PngColor) -> (r: &'static str)
    ensures
        r@ == color_name(c),
{
    match c {
        PngColor::Grayscale => {
            proof { reveal_strlit("Grayscale"); }
            "Grayscale"
        },
        PngColor::Rgb => {
            proof { reveal_strlit("Rgb"); }
            "Rgb"
        },
        PngColor::Indexed => {
            proof { reveal_strlit("Indexed"); }
            "Indexed"
        },
        PngColor::GrayscaleAlpha => {
            proof { reveal_strlit("GrayscaleAlpha"); }
            "GrayscaleAlpha"
        },
        PngColor::Rgba => {
            proof { reveal_strlit("Rgba"); }
            "Rgba"
        },
    }
}

/// The first frame of a PNG file as the decoder hands it out.
pub struct PngFrame {
    /// Width in pixels.
    pub width: u32,
    /// Height in pixels.
    pub height: u32,
    /// The PNG colour-type code of the samples (0, 2, 3, 4 or 6).
    pub color_code: u8,
    /// The frame's samples, as many bytes as the decoder reports.
    pub samples: Vec<u8>,
}

/// Where decoding a PNG file failed, with the decoder's message.
pub enum PngFailure {
    /// Reading the header and metadata.
    Header(String),
    /// Decoding the image data.
    Frame(String),
}

/// The first frame that the `png` decoder (default transformations) reads
/// from `data`: width, height, colour-type code and samples; `None` when it
/// rejects the file.
pub uninterp spec fn png_frame_of(data: Seq<u8>) -> Option<(u32, u32, u8, Seq<u8>)>;

/// The colour type that a PNG colour-type code names.
pub open spec fn color_of_code(code: u8) -> PngColor {
    if code == 0 {
        PngColor::Grayscale
    } else if code == 2 {
        PngColor::Rgb
    } else if code == 3 {
        PngColor::Indexed
    } else if code == 4 {
        PngColor::GrayscaleAlpha
    } else {
        PngColor::Rgba
    }
}

/// Decodes the first frame of a PNG file with `png::Decoder::new`,
/// `Decoder::read_info`, `Reader::output_buffer_size` and `Reader::next_frame`,
/// keeping the first `OutputInfo::buffer_size` bytes; the colour type is
/// handed out as its code (`png::ColorType` declares the codes 0, 2, 3, 4
/// and 6). The contract claims the result is `png_frame_of(data)`, failure
/// exactly when that is `None`, and a code among those five; the decoder's
/// message in a failure is left unstated.
#[verifier::external_body]
fn read_png_frame(data: &[u8]) -> (r: Result<PngFrame, PngFailure>)
    ensures
        match r {
            Ok(f) => png_frame_of(data@) == Some((f.width, f.height, f.color_code, f.samples@)) && (
            f.color_code == 0 || f.color_code == 2 || f.color_code == 3 || f.color_code == 4
                || f.color_code == 6),
            Err(_) => png_frame_of(data@) is None,
        },
{
    let mut reader = match png::Decoder::new(std::io::Cursor::new(data)).read_info() {
        Ok(r) => r,
        Err(e) => return Err(PngFailure::Header(e.to_string())),
    };
    let mut buf = vec![0; reader.output_buffer_size()];
    let info = match reader.next_frame(&mut buf) {
        Ok(i) => i,
        Err(e) => return Err(PngFailure::Frame(e.to_string())),
    };
    buf.truncate(info.buffer_size());
    Ok(PngFrame { width: info.width, height: info.height, color_code: info.color_type as u8, samples: buf })
}

fn color_from_code(code: u8) -> (r: PngColor)
    ensures
        r == color_of_code(code),
{
    if code == 0 {
        PngColor::Grayscale
    } else if code == 2 {
        PngColor::Rgb
    } else if code == 3 {
        PngColor::Indexed
    } else if code == 4 {
        PngColor::GrayscaleAlpha
    } else {
        PngColor::Rgba
    }
}

/// RGB samples widened to RGBA with opaque alpha (a trailing partial pixel
/// is dropped).
pub open spec fn rgb_to_rgba(s: Seq<u8>) -> Seq<u8> {
    Seq::new((s.len() / 3 * 4) as nat, |k: int| if k % 4 == 3 { 255u8 } else { s[(k / 4) * 3 + k % 4] })
}

/// Grey samples widened to RGBA: the grey in each colour channel, opaque alpha.
pub open spec fn gray_to_rgba(s: Seq<u8>) -> Seq<u8> {
    Seq::new((s.len() * 4) as nat, |k: int| if k % 4 == 3 { 255u8 } else { s[k / 4] })
}

/// The RGBA samples of a frame, for the colour types that are converted.
pub open spec fn frame_rgba(c: PngColor, s: Seq<u8>) -> Option<Seq<u8>> {
    match c {
        PngColor::Rgba => Some(s),
        PngColor::Rgb => Some(rgb_to_rgba(s)),
        PngColor::Grayscale => Some(gray_to_rgba(s)),
        _ => None,
    }
}

/// RGB samples widened to RGBA with opaque alpha.
pub fn expand_rgb(rgb: &[u8]) -> (r: Vec<u8>)
    ensures
        r@ == rgb_to_rgba(rgb@),
{
    let n = rgb.len() / 3;
    let mut out: Vec<u8> = Vec::new();
    let mut i: usize = 0;
    while i < n
        invariant
            i <= n,
            n == rgb@.len() / 3,
            out@.len() == 4 * i,
            forall|k: int| 0 <= k < 4 * i ==> out@[k] == #[trigger] rgb_to_rgba(rgb@)[k],
        decreases n - i,
    {
        assert(i * 3 + 2 < rgb.len());
        let at = i * 3;
        out.push(rgb[at]);
        out.push(rgb[at + 1]);
        out.push(rgb[at + 2]);
        out.push(255);
        proof {
            assert forall|k: int| 0 <= k < 4 * (i + 1) implies out@[k] == #[trigger] rgb_to_rgba(rgb@)[k] by {
                if k >= 4 * i {
                    assert(k / 4 == i);
                    assert(k % 4 == k - 4 * i);
                }
            }
        }
        i = i + 1;
    }
    assert(out@ =~= rgb_to_rgba(rgb@));
    out
}

/// Grey samples widened to RGBA with opaque alpha.
pub fn expand_gray(gray: &[u8]) -> (r: Vec<u8>)
    ensures
        r@ == gray_to_rgba(gray@),
{
    let mut out: Vec<u8> = Vec::new();
    let mut i: usize = 0;
    while i < gray.len()
        invariant
            i <= gray@.len(),
            out@.len() == 4 * i,
            forall|k: int| 0 <= k < 4 * i ==> out@[k] == #[trigger] gray_to_rgba(gray@)[k],
        decreases gray.len() - i,
    {
        let g = gray[i];
        out.push(g);
        out.push(g);
        out.push(g);
        out.push(255);
        proof {
            assert forall|k: int| 0 <= k < 4 * (i + 1) implies out@[k] == #[trigger] gray_to_rgba(gray@)[k] by {
                if k >= 4 * i {
                    assert(k / 4 == i);
                    assert(k % 4 == k - 4 * i);
                }
            }
        }
        i = i + 1;
    }
    assert(out@ =~= gray_to_rgba(gray@));
    out
}

/// The 8-bit RGBA image of a decoded frame: RGBA samples as they are, RGB
/// and greyscale samples widened; other colour types are refused.
pub fn image_from_frame(frame: PngFrame) -> (r: Result<DecodedImage, TestError>)
    ensures
        match frame_rgba(color_of_code(frame.color_code), frame.samples@) {
            Some(px) => r matches Ok(img) && img.width == frame.width && img.height == frame.height && img.rgba@
                == px,
            None => r matches Err(TestError::Other(m)) && m@ == "unsupported PNG color type: "@ + color_name(
                color_of_code(frame.color_code),
            ),
        },
{
    let rgba = match color_from_code(frame.color_code) {
        PngColor::Rgba => frame.samples,
        PngColor::Rgb => expand_rgb(frame.samples.as_slice()),
        PngColor::Grayscale => expand_gray(frame.samples.as_slice()),
        other => {
            let mut m = String::new();
            m.append("unsupported PNG color type: ");
            m.append(color_text(other));
            return Err(TestError::Other(m));
        },
    };
    Ok(DecodedImage { width: frame.width, height: frame.height, rgba })
}

/// Decodes a PNG file to 8-bit RGBA: RGBA frames as they are, RGB and
/// greyscale frames widened; other colour types are refused.
pub fn decode_png(data: &[u8]) -> (r: Result<DecodedImage, TestError>)
    ensures
        match png_frame_of(data@) {
            None => r matches Err(TestError::Other(m)) && (starts_with(m@, "PNG decode error: "@)
                || starts_with(m@, "PNG frame error: "@)),
            Some(f) => match frame_rgba(color_of_code(f.2), f.3) {
                Some(px) => r matches Ok(img) && img.width == f.0 && img.height == f.1 && img.rgba@ == px,
                None => r matches Err(TestError::Other(m)) && m@ == "unsupported PNG color type: "@
                    + color_name(color_of_code(f.2)),
            },
        },
{
    match read_png_frame(data) {
        Ok(f) => image_from_frame(f),
        Err(PngFailure::Header(e)) => {
            let mut m = String::new();
            m.append("PNG decode error: ");
            m.append(e.as_str());
            proof {
                crate::text::lemma_starts_with_concat("PNG decode error: "@, e@);
            }
            Err(TestError::Other(m))
        },
        Err(PngFailure::Frame(e)) => {
            let mut m = String::new();
            m.append("PNG frame error: ");
            m.append(e.as_str());
            proof {
                crate::text::lemma_starts_with_concat("PNG frame error: "@, e@);
            }
            Err(TestError::Other(m))
        },
    }
}

/// What `base64`'s standard engine decodes `text` to; `None` when it
/// rejects the text.
pub uninterp spec fn base64_decoded(text: Seq<char>) -> Option<Seq<u8>>;

/// Decodes `text` with `base64::engine::general_purpose::STANDARD`
/// (`Engine::decode`). The contract claims the bytes are
/// `base64_decoded(text)`, and failure exactly when that is `None`; the
/// decoder's message in a failure is left unstated.
#[verifier::external_body]
fn decode_base64(text: &str) -> (r: Result<Vec<u8>, String>)
    ensures
        match r {
            Ok(b) => base64_decoded(text@) == Some(b@),
            Err(_) => base64_decoded(text@) is None,
        },
{
    match base64::engine::general_purpose::STANDARD.decode(text) {
        Ok(b) => Ok(b),
        Err(e) => Err(e.to_string()),
    }
}

/// The PNG bytes of a base64-encoded screenshot.
pub fn screenshot_bytes(screenshot_base64: &str) -> (r: Result<Vec<u8>, TestError>)
    ensures
        match base64_decoded(screenshot_base64@) {
            Some(b) => r matches Ok(v) && v@ == b,
            None => r matches Err(TestError::Other(m)) && starts_with(
                m@,
                "failed to decode base64 screenshot: "@,
            ),
        },
{
    match decode_base64(screenshot_base64) {
        Ok(b) => Ok(b),
        Err(e) => {
            let mut m = String::new();
            m.append("failed to decode base64 screenshot: ");
            m.append(e.as_str());
            proof {
                crate::text::lemma_starts_with_concat("failed to decode base64 screenshot: "@, e@);
            }
            Err(TestError::Other(m))
        },
    }
}

} // verus!
