//! Pixel conversions for captured window frames: BGRA to straight RGBA with
//! cropping and un-premultiplication, blank-frame detection, and the
//! per-platform channel shuffles.
use vstd::prelude::*;
use crate::text::{chars_of, owned, string_of};

verus! {

// ---------------------------------------------------------------------------
// Specifications
// ---------------------------------------------------------------------------

/// A premultiplied colour channel `v` of a pixel with alpha `a` (`0 < a`),
/// divided back out with round-to-nearest and clamped to 255.
pub open spec fn unpremultiply(v: u8, a: u8) -> u8 {
    let q = (v as int * 255 + a as int / 2) / a as int;
    if q > 255 {
        255u8
    } else {
        q as u8
    }
}

/// Channel `k` (0 = R, 1 = G, 2 = B, 3 = A) of the straight RGBA pixel for the
/// premultiplied BGRA pixel `(b, g, r, a)`: partially transparent pixels are
/// un-premultiplied, opaque and fully transparent ones pass through.
pub open spec fn straight_channel(b: u8, g: u8, r: u8, a: u8, k: int) -> u8 {
    let partial = 0 < a && a < 255;
    if k == 0 {
        if partial { unpremultiply(r, a) } else { r }
    } else if k == 1 {
        if partial { unpremultiply(g, a) } else { g }
    } else if k == 2 {
        if partial { unpremultiply(b, a) } else { b }
    } else {
        a
    }
}

/// The straight RGBA bytes for the premultiplied BGRA pixels of `seg`, taken
/// four bytes at a time (a trailing partial pixel is dropped).
pub open spec fn bgra_to_straight_rgba(seg: Seq<u8>) -> Seq<u8> {
    Seq::new(
        (seg.len() / 4 * 4) as nat,
        |i: int|
            straight_channel(
                seg[i / 4 * 4],
                seg[i / 4 * 4 + 1],
                seg[i / 4 * 4 + 2],
                seg[i / 4 * 4 + 3],
                i % 4,
            ),
    )
}

/// Where the cropped part of frame row `row` begins in the mapped buffer.
pub open spec fn row_start(row_pitch: int, x: int, row: int) -> int {
    row * row_pitch + 4 * x
}

/// The converted crop: rows `y .. y + h` of the frame, each `w` pixels wide
/// starting at column `x`, concatenated top to bottom.
pub open spec fn cropped_rows(
    data: Seq<u8>,
    row_pitch: int,
    x: int,
    y: int,
    w: int,
    h: nat,
) -> Seq<u8>
    decreases h,
{
    if h == 0 {
        seq![]
    } else {
        let row = y + h - 1;
        let start = row_start(row_pitch, x, row);
        cropped_rows(data, row_pitch, x, y, w, (h - 1) as nat) + bgra_to_straight_rgba(
            data.subrange(start, start + 4 * w),
        )
    }
}

/// Why converting a frame can fail.
#[derive(Debug, Clone, Copy, PartialEq, Eq)]
pub enum FrameError {
    /// The crop region has zero width or height.
    ZeroArea,
    /// The crop origin lies outside the frame.
    OriginOutsideFrame,
    /// A byte offset or the output size does not fit in `usize`.
    BufferOverflow,
    /// The mapped buffer is shorter than the row pitch implies.
    BufferTooSmall,
}

/// The crop width after clamping to the frame.
pub open spec fn clamp_extent(extent: u32, origin: u32, frame: u32) -> int {
    if extent as int <= frame - origin {
        extent as int
    } else {
        frame - origin
    }
}

/// The first failure met while walking rows `row .. end` of the crop: a row
/// whose start offset does not fit in `usize`, or one that runs past `len`.
pub open spec fn rows_failure(
    len: int,
    row_pitch: int,
    x: int,
    w: int,
    row: int,
    end: int,
) -> Option<FrameError>
    decreases end - row,
{
    if row >= end {
        None
    } else if row_start(row_pitch, x, row) > usize::MAX {
        Some(FrameError::BufferOverflow)
    } else if row_start(row_pitch, x, row) + 4 * w > len {
        Some(FrameError::BufferTooSmall)
    } else {
        rows_failure(len, row_pitch, x, w, row + 1, end)
    }
}

/// The outcome of converting a frame: the error, if any, in the order the
/// checks are made.
pub open spec fn frame_failure(
    len: int,
    row_pitch: int,
    frame_w: u32,
    frame_h: u32,
    crop: (u32, u32, u32, u32),
) -> Option<FrameError> {
    let (x, y, w, h) = crop;
    if w == 0 || h == 0 {
        Some(FrameError::ZeroArea)
    } else if x >= frame_w || y >= frame_h {
        Some(FrameError::OriginOutsideFrame)
    } else {
        let cw = clamp_extent(w, x, frame_w);
        let ch = clamp_extent(h, y, frame_h);
        if cw * 4 * ch > usize::MAX {
            Some(FrameError::BufferOverflow)
        } else {
            rows_failure(len, row_pitch, x as int, cw, y as int, y + ch)
        }
    }
}

// ---------------------------------------------------------------------------
// Lemmas
// ---------------------------------------------------------------------------

proof fn lemma_rgba_take_step(seg: Seq<u8>, j: int)
    requires
        0 <= j,
        4 * j + 4 <= seg.len(),
    ensures
        bgra_to_straight_rgba(seg.take(4 * j + 4)) == bgra_to_straight_rgba(seg.take(4 * j))
            + seq![
            straight_channel(seg[4 * j], seg[4 * j + 1], seg[4 * j + 2], seg[4 * j + 3], 0),
            straight_channel(seg[4 * j], seg[4 * j + 1], seg[4 * j + 2], seg[4 * j + 3], 1),
            straight_channel(seg[4 * j], seg[4 * j + 1], seg[4 * j + 2], seg[4 * j + 3], 2),
            straight_channel(seg[4 * j], seg[4 * j + 1], seg[4 * j + 2], seg[4 * j + 3], 3),
        ],
{
    let l = bgra_to_straight_rgba(seg.take(4 * j + 4));
    let r = bgra_to_straight_rgba(seg.take(4 * j)) + seq![
        straight_channel(seg[4 * j], seg[4 * j + 1], seg[4 * j + 2], seg[4 * j + 3], 0),
        straight_channel(seg[4 * j], seg[4 * j + 1], seg[4 * j + 2], seg[4 * j + 3], 1),
        straight_channel(seg[4 * j], seg[4 * j + 1], seg[4 * j + 2], seg[4 * j + 3], 2),
        straight_channel(seg[4 * j], seg[4 * j + 1], seg[4 * j + 2], seg[4 * j + 3], 3),
    ];
    assert(l.len() == r.len());
    assert forall|i: int| 0 <= i < l.len() implies l[i] == r[i] by {
        if i < 4 * j {
            assert(i / 4 * 4 + 3 < 4 * j);
        } else {
            assert(i / 4 == j);
        }
    }
    assert(l =~= r);
}

proof fn lemma_row_start_monotone(row_pitch: int, x: int, r1: int, r2: int)
    requires
        0 <= row_pitch,
        r1 <= r2,
    ensures
        row_start(row_pitch, x, r1) <= row_start(row_pitch, x, r2),
{
    assert(r1 * row_pitch <= r2 * row_pitch) by (nonlinear_arith)
        requires
            0 <= row_pitch,
            r1 <= r2,
    ;
}

/// When the last row fits in the buffer every row does, so no row fails.
proof fn lemma_rows_fit(len: int, row_pitch: int, x: int, w: int, row: int, end: int)
    requires
        0 <= row_pitch,
        0 <= w,
        0 <= x,
        len <= usize::MAX,
        row < end ==> row_start(row_pitch, x, end - 1) + 4 * w <= len,
    ensures
        rows_failure(len, row_pitch, x, w, row, end) is None,
    decreases end - row,
{
    if row < end {
        lemma_row_start_monotone(row_pitch, x, row, end - 1);
        lemma_rows_fit(len, row_pitch, x, w, row + 1, end);
    }
}

/// When the last row runs past the buffer some row fails.
proof fn lemma_rows_fail(len: int, row_pitch: int, x: int, w: int, row: int, end: int)
    requires
        row < end,
        row_start(row_pitch, x, end - 1) + 4 * w > len,
    ensures
        rows_failure(len, row_pitch, x, w, row, end) is Some,
    decreases end - row,
{
    if row + 1 < end {
        lemma_rows_fail(len, row_pitch, x, w, row + 1, end);
    }
}

// ---------------------------------------------------------------------------
// Conversion
// ---------------------------------------------------------------------------

fn unpremultiply_exec(v: u8, a: u8) -> (r: u8)
    requires
        0 < a,
    ensures
        r == unpremultiply(v, a),
{
    let a16 = a as u16;
    let q = ((v as u16) * 255 + a16 / 2) / a16;
    if q > 255 {
        255
    } else {
        q as u8
    }
}

/// Appends the straight RGBA pixel for the premultiplied BGRA pixel at `src[at..at + 4]`.
fn push_straight_pixel(out: &mut Vec<u8>, src: &[u8], at: usize)
    requires
        at + 4 <= src.len(),
    ensures
        final(out)@ == old(out)@ + seq![
            straight_channel(src@[at as int], src@[at + 1], src@[at + 2], src@[at + 3], 0),
            straight_channel(src@[at as int], src@[at + 1], src@[at + 2], src@[at + 3], 1),
            straight_channel(src@[at as int], src@[at + 1], src@[at + 2], src@[at + 3], 2),
            straight_channel(src@[at as int], src@[at + 1], src@[at + 2], src@[at + 3], 3),
        ],
{
    let b = src[at];
    let g = src[at + 1];
    let r = src[at + 2];
    let a = src[at + 3];
    if a > 0 && a < 255 {
        out.push(unpremultiply_exec(r, a));
        out.push(unpremultiply_exec(g, a));
        out.push(unpremultiply_exec(b, a));
    } else {
        out.push(r);
        out.push(g);
        out.push(b);
    }
    out.push(a);
}

/// Convert a mapped BGRA frame (row stride `row_pitch`, which may exceed
/// `frame_w * 4`) into straight RGBA, cropped to `(x, y, w, h)`. The crop is
/// clamped to the frame bounds. DWM-composited surfaces carry premultiplied
/// alpha; PNG requires straight alpha, so partially-transparent pixels are
/// un-premultiplied.
pub fn convert_bgra_frame(
    data: &[u8],
    row_pitch: usize,
    frame_w: u32,
    frame_h: u32,
    crop: (u32, u32, u32, u32),
) -> (r: Result<(Vec<u8>, u32, u32), FrameError>)
    ensures
        match r {
            Ok((rgba, w, h)) => {
                &&& frame_failure(data@.len() as int, row_pitch as int, frame_w, frame_h, crop)
                    is None
                &&& w == clamp_extent(crop.2, crop.0, frame_w)
                &&& h == clamp_extent(crop.3, crop.1, frame_h)
                &&& rgba@ == cropped_rows(
                    data@,
                    row_pitch as int,
                    crop.0 as int,
                    crop.1 as int,
                    w as int,
                    h as nat,
                )
            },
            Err(e) => frame_failure(data@.len() as int, row_pitch as int, frame_w, frame_h, crop)
                == Some(e),
        },
        r is Ok <==> {
            let (x, y, w, h) = crop;
            &&& w > 0 && h > 0 && x < frame_w && y < frame_h
            &&& clamp_extent(w, x, frame_w) * 4 * clamp_extent(h, y, frame_h) <= usize::MAX
            &&& row_start(row_pitch as int, x as int, y + clamp_extent(h, y, frame_h) - 1) + 4
                * clamp_extent(w, x, frame_w) <= data@.len()
        },
{
    let (x, y, w, h) = crop;
    if w == 0 || h == 0 {
        return Err(FrameError::ZeroArea);
    }
    if x >= frame_w || y >= frame_h {
        return Err(FrameError::OriginOutsideFrame);
    }
    let w = if w <= frame_w - x { w } else { frame_w - x };
    let h = if h <= frame_h - y { h } else { frame_h - y };
    let dlen = data.len();
    let ghost len = data@.len() as int;
    assert(len == dlen);
    let ghost pitch = row_pitch as int;
    let row_bytes = (w as usize).checked_mul(4);
    let out_len = match row_bytes {
        Some(rb) => rb.checked_mul(h as usize),
        None => None,
    };
    if row_bytes.is_none() || out_len.is_none() {
        assert(w * 4 * h > usize::MAX) by (nonlinear_arith)
            requires
                w * 4 > usize::MAX || (w * 4) * h > usize::MAX,
                h >= 1,
        ;
        return Err(FrameError::BufferOverflow);
    }
    let wb: usize = match row_bytes {
        Some(rb) => rb,
        None => 0,
    };
    assert(wb == w * 4);
    assert(w * 4 * h <= usize::MAX) by (nonlinear_arith)
        requires
            out_len == Some(((w * 4) * h) as usize),
            (w * 4) * h <= usize::MAX || out_len is None,
    ;
    let mut out: Vec<u8> = Vec::new();
    let mut row = y;
    let end_row = y + h;
    while row < end_row
        invariant
            y <= row <= end_row == y + h,
            w > 0,
            h > 0,
            len == data@.len(),
            len <= usize::MAX,
            pitch == row_pitch,
            wb == w * 4,
            w * 4 * h <= usize::MAX,
            crop.0 == x && crop.1 == y && crop.2 > 0 && crop.3 > 0,
            x < frame_w && y < frame_h,
            w == clamp_extent(crop.2, crop.0, frame_w),
            h == clamp_extent(crop.3, crop.1, frame_h),
            rows_failure(len, pitch, x as int, w as int, y as int, end_row as int)
                == rows_failure(len, pitch, x as int, w as int, row as int, end_row as int),
            out@ == cropped_rows(data@, pitch, x as int, y as int, w as int, (row - y) as nat),
            row > y ==> row_start(pitch, x as int, row - 1) + 4 * w <= len,
        decreases end_row - row,
    {
        let start = match ((row as usize).checked_mul(row_pitch), (x as usize).checked_mul(4)) {
            (Some(off), Some(xb)) => off.checked_add(xb),
            _ => None,
        };
        let start = match start {
            Some(s) => s,
            None => {
                proof {
                    assert(row * pitch >= 0) by (nonlinear_arith)
                        requires
                            row >= 0,
                            pitch >= 0,
                    ;
                    assert(row_start(pitch, x as int, row as int) > usize::MAX);
                    if row_start(pitch, x as int, end_row - 1) + 4 * w <= len {
                        lemma_row_start_monotone(pitch, x as int, row as int, end_row - 1);
                    }
                }
                return Err(FrameError::BufferOverflow);
            },
        };
        if start > data.len() || wb > data.len() - start {
            proof {
                if row_start(pitch, x as int, end_row - 1) + 4 * w <= len {
                    lemma_row_start_monotone(pitch, x as int, row as int, end_row - 1);
                }
            }
            return Err(FrameError::BufferTooSmall);
        }
        let ghost seg = data@.subrange(start as int, start + 4 * w);
        let ghost before = out@;
        let mut j: u32 = 0;
        while j < w
            invariant
                j <= w,
                data@.len() <= usize::MAX,
                start + 4 * w <= data@.len(),
                seg == data@.subrange(start as int, start + 4 * w),
                out@ == before + bgra_to_straight_rgba(seg.take(4 * j)),
            decreases w - j,
        {
            let at = start + (j as usize) * 4;
            proof {
                lemma_rgba_take_step(seg, j as int);
            }
            push_straight_pixel(&mut out, data, at);
            j = j + 1;
            assert(out@ =~= before + bgra_to_straight_rgba(seg.take(4 * j)));
        }
        assert(seg.take(4 * w) =~= seg);
        row = row + 1;
        assert(out@ =~= cropped_rows(data@, pitch, x as int, y as int, w as int, (row - y) as nat));
    }
    proof {
        lemma_rows_fit(len, pitch, x as int, w as int, y as int, end_row as int);
    }
    Ok((out, w, h))
}

// ---------------------------------------------------------------------------
// Blank-frame detection
// ---------------------------------------------------------------------------

/// Pixel `i` of `px` has the same RGB as pixel `j` (alpha is ignored).
pub open spec fn same_rgb(px: Seq<u8>, i: int, j: int) -> bool {
    px[4 * i] == px[4 * j] && px[4 * i + 1] == px[4 * j + 1] && px[4 * i + 2] == px[4 * j + 2]
}

/// Every whole pixel of `px` has the RGB of the first one.
pub open spec fn uniform_rgb(px: Seq<u8>) -> bool {
    forall|i: int| 0 <= i < px.len() / 4 ==> #[trigger] same_rgb(px, i, 0)
}

/// The description `blank_frame_reason` gives of a frame.
pub open spec fn blank_reason(px: Seq<u8>) -> Option<Seq<char>> {
    if px.len() < 4 || !uniform_rgb(px) {
        None
    } else if px[0] == 0xFF && px[1] == 0xFF && px[2] == 0xFF {
        Some("blank white"@)
    } else if px[0] == 0 && px[1] == 0 && px[2] == 0 {
        Some("blank (empty)"@)
    } else {
        None
    }
}

/// Detects the silent-blank capture failure: capture of a transparent or
/// GPU-composited window can come back as a uniform white or empty frame with
/// no error. Returns a description for such a frame so the caller can fail
/// loudly instead of handing back a blank image. Only RGB is compared — the
/// alpha byte of a 32-bpp `BI_RGB` capture is undefined.
pub fn blank_frame_reason(pixels: &[u8]) -> (r: Option<&'static str>)
    ensures
        match r {
            Some(s) => blank_reason(pixels@) == Some(s@),
            None => blank_reason(pixels@) is None,
        },
{
    if pixels.len() < 4 {
        return None;
    }
    let total = pixels.len();
    let n = total / 4;
    let mut i: usize = 0;
    while i < n
        invariant
            total == pixels@.len(),
            n == pixels@.len() / 4,
            i <= n,
            forall|k: int| 0 <= k < i ==> #[trigger] same_rgb(pixels@, k, 0),
        decreases n - i,
    {
        if pixels[4 * i] != pixels[0] || pixels[4 * i + 1] != pixels[1] || pixels[4 * i + 2]
            != pixels[2] {
            assert(!same_rgb(pixels@, i as int, 0));
            return None;
        }
        i = i + 1;
    }
    if pixels[0] == 0xFF && pixels[1] == 0xFF && pixels[2] == 0xFF {
        Some("blank white")
    } else if pixels[0] == 0 && pixels[1] == 0 && pixels[2] == 0 {
        Some("blank (empty)")
    } else {
        None
    }
}

// ---------------------------------------------------------------------------
// Channel shuffles
// ---------------------------------------------------------------------------

/// `px` with the first and third byte of every whole 4-byte pixel swapped
/// (BGRA to RGBA); a trailing partial pixel is left as it was.
pub open spec fn swapped_red_blue(px: Seq<u8>) -> Seq<u8> {
    Seq::new(
        px.len(),
        |i: int|
            if i >= px.len() / 4 * 4 {
                px[i]
            } else if i % 4 == 0 {
                px[i + 2]
            } else if i % 4 == 2 {
                px[i - 2]
            } else {
                px[i]
            },
    )
}

/// Swapping red and blue twice gives the pixels back.
pub proof fn swap_is_an_involution(px: Seq<u8>)
    ensures
        swapped_red_blue(swapped_red_blue(px)) == px,
{
    let once = swapped_red_blue(px);
    assert forall|i: int| 0 <= i < px.len() implies #[trigger] swapped_red_blue(once)[i] == px[i] by {
        if i < px.len() / 4 * 4 {
            if i % 4 == 0 {
                assert(once[i + 2] == px[i]);
            } else if i % 4 == 2 {
                assert(once[i - 2] == px[i]);
            }
        }
    }
    assert(swapped_red_blue(once) =~= px);
}

/// The alpha byte of whole pixel `p`.
pub open spec fn alpha_at(px: Seq<u8>, p: int) -> u8 {
    px[4 * p + 3]
}

/// Opaque pixels pass through un-premultiplying unchanged.
pub proof fn opaque_pixels_pass_through(px: Seq<u8>)
    requires
        forall|p: int| 0 <= p < px.len() / 4 ==> #[trigger] alpha_at(px, p) == 255,
    ensures
        unpremultiplied(px) == px,
{
    assert forall|i: int| 0 <= i < px.len() implies #[trigger] unpremultiplied(px)[i] == px[i] by {
        if i < px.len() / 4 * 4 && i % 4 != 3 {
            let p = i / 4;
            assert(i / 4 * 4 == 4 * p);
            assert(alpha_at(px, p) == 255);
        }
    }
    assert(unpremultiplied(px) =~= px);
}

/// Swaps BGRA pixels to RGBA in place.
pub fn swap_red_blue(pixels: &mut Vec<u8>)
    ensures
        final(pixels)@ == swapped_red_blue(old(pixels)@),
{
    let ghost orig = pixels@;
    let total = pixels.len();
    let n = total / 4;
    let mut i: usize = 0;
    while i < n
        invariant
            total == orig.len(),
            n == orig.len() / 4,
            i <= n,
            pixels@.len() == orig.len(),
            forall|k: int| 0 <= k < 4 * i ==> pixels@[k] == swapped_red_blue(orig)[k],
            forall|k: int| 4 * i <= k < orig.len() ==> pixels@[k] == orig[k],
        decreases n - i,
    {
        let b = pixels[4 * i];
        let r = pixels[4 * i + 2];
        pixels.set(4 * i, r);
        pixels.set(4 * i + 2, b);
        i = i + 1;
    }
    assert(pixels@ =~= swapped_red_blue(orig));
}

/// Channel `k` of the RGBA pixel for an X11 Z-pixmap pixel `(b, g, r, x)` at
/// the given depth: at depth 32 the fourth byte is alpha, otherwise opaque.
pub open spec fn x11_channel(px: Seq<u8>, p: int, k: int, depth: u8) -> u8 {
    if k == 0 {
        px[4 * p + 2]
    } else if k == 1 {
        px[4 * p + 1]
    } else if k == 2 {
        px[4 * p]
    } else if depth == 32 {
        px[4 * p + 3]
    } else {
        255u8
    }
}

/// The RGBA image for X11 Z-pixmap data of depth 24 or 32.
pub open spec fn x11_rgba(px: Seq<u8>, depth: u8) -> Seq<u8> {
    Seq::new((px.len() / 4 * 4) as nat, |i: int| x11_channel(px, i / 4, i % 4, depth))
}

/// Converts X11 Z-pixmap data (BGRx at depth 24, BGRA at depth 32) into RGBA;
/// any other depth is refused with `Err(depth)`.
pub fn x11_pixels_to_rgba(data: &[u8], depth: u8) -> (r: Result<Vec<u8>, u8>)
    ensures
        match r {
            Ok(v) => (depth == 24 || depth == 32) && v@ == x11_rgba(data@, depth),
            Err(d) => d == depth && depth != 24 && depth != 32,
        },
{
    if depth != 32 && depth != 24 {
        return Err(depth);
    }
    let total = data.len();
    let n = total / 4;
    let mut out: Vec<u8> = Vec::new();
    let mut i: usize = 0;
    while i < n
        invariant
            total == data@.len(),
            n == data@.len() / 4,
            i <= n,
            out@.len() == 4 * i,
            forall|k: int| 0 <= k < 4 * i ==> out@[k] == #[trigger] x11_channel(data@, k / 4, k % 4, depth),
        decreases n - i,
    {
        out.push(data[4 * i + 2]);
        out.push(data[4 * i + 1]);
        out.push(data[4 * i]);
        out.push(if depth == 32 { data[4 * i + 3] } else { 255 });
        proof {
            assert forall|k: int| 4 * i <= k < 4 * i + 4 implies out@[k] == x11_channel(data@, k / 4, k % 4, depth) by {
                assert(k / 4 == i);
            }
        }
        i = i + 1;
    }
    assert(out@ =~= x11_rgba(data@, depth));
    Ok(out)
}

/// `px` with every whole partially transparent RGBA pixel un-premultiplied.
pub open spec fn unpremultiplied(px: Seq<u8>) -> Seq<u8> {
    Seq::new(
        px.len(),
        |i: int|
            {
                let base = i / 4 * 4;
                if i >= px.len() / 4 * 4 || i % 4 == 3 {
                    px[i]
                } else if 0 < px[base + 3] && px[base + 3] < 255 {
                    unpremultiply(px[i], px[base + 3])
                } else {
                    px[i]
                }
            },
    )
}

/// Un-premultiplies RGBA pixels in place: CoreGraphics delivers premultiplied
/// alpha and PNG requires straight alpha.
pub fn unpremultiply_in_place(pixels: &mut Vec<u8>)
    ensures
        final(pixels)@ == unpremultiplied(old(pixels)@),
{
    let ghost orig = pixels@;
    let total = pixels.len();
    let n = total / 4;
    let mut i: usize = 0;
    while i < n
        invariant
            total == orig.len(),
            n == orig.len() / 4,
            i <= n,
            pixels@.len() == orig.len(),
            forall|k: int| 0 <= k < 4 * i ==> pixels@[k] == unpremultiplied(orig)[k],
            forall|k: int| 4 * i <= k < orig.len() ==> pixels@[k] == orig[k],
        decreases n - i,
    {
        let a = pixels[4 * i + 3];
        if a > 0 && a < 255 {
            let r = unpremultiply_exec(pixels[4 * i], a);
            let g = unpremultiply_exec(pixels[4 * i + 1], a);
            let b = unpremultiply_exec(pixels[4 * i + 2], a);
            pixels.set(4 * i, r);
            pixels.set(4 * i + 1, g);
            pixels.set(4 * i + 2, b);
        }
        proof {
            assert forall|k: int| 4 * i <= k < 4 * i + 4 implies pixels@[k] == unpremultiplied(orig)[k] by {
                assert(k / 4 * 4 == 4 * i);
            }
        }
        i = i + 1;
    }
    assert(pixels@ =~= unpremultiplied(orig));
}


// ---------------------------------------------------------------------------
// Client area
// ---------------------------------------------------------------------------

/// A signed offset or extent as an unsigned one: negative values become 0.
pub open spec fn clamp_negative(v: int) -> int {
    if v < 0 {
        0
    } else {
        v
    }
}

/// The client area of a window inside a capture of the whole window: the
/// client origin's offset from the window's top-left corner and the client
/// width and height, each 0 when negative; `None` when the area is empty.
pub fn client_area_crop(
    window_left: i32,
    window_top: i32,
    origin_x: i32,
    origin_y: i32,
    client_right: i32,
    client_bottom: i32,
) -> (r: Option<(u32, u32, u32, u32)>)
    requires
        i32::MIN <= origin_x - window_left <= i32::MAX,
        i32::MIN <= origin_y - window_top <= i32::MAX,
    ensures
        clamp_negative(client_right as int) == 0 || clamp_negative(client_bottom as int) == 0 ==> r is None,
        clamp_negative(client_right as int) > 0 && clamp_negative(client_bottom as int) > 0 ==> r == Some(
            (
                clamp_negative(origin_x - window_left) as u32,
                clamp_negative(origin_y - window_top) as u32,
                client_right as u32,
                client_bottom as u32,
            ),
        ),
{
    let dx = origin_x - window_left;
    let dy = origin_y - window_top;
    let x: u32 = if dx < 0 { 0 } else { dx as u32 };
    let y: u32 = if dy < 0 { 0 } else { dy as u32 };
    let w: u32 = if client_right < 0 { 0 } else { client_right as u32 };
    let h: u32 = if client_bottom < 0 { 0 } else { client_bottom as u32 };
    if w == 0 || h == 0 {
        None
    } else {
        Some((x, y, w, h))
    }
}
// ---------------------------------------------------------------------------
// Choosing between the Windows capture engines
// ---------------------------------------------------------------------------

/// Why a Windows.Graphics.Capture attempt is passed over for the GDI path:
/// `None` keeps the captured frame, which is not blank; otherwise the capture
/// error, or a note that the frame came back uniformly blank.
pub fn wgc_fallback_reason(wgc: &Result<Vec<u8>, String>) -> (r: Option<String>)
    ensures
        match wgc {
            Ok(rgba) => match r {
                None => blank_reason(rgba@) is None,
                Some(m) => blank_reason(rgba@) is Some && m@
                    == "WGC returned a uniform blank frame"@,
            },
            Err(e) => r matches Some(m) && m@ == e@,
        },
{
    match wgc {
        Ok(rgba) => match blank_frame_reason(rgba.as_slice()) {
            None => None,
            Some(_) => Some(owned("WGC returned a uniform blank frame")),
        },
        Err(e) => Some(owned(e.as_str())),
    }
}

/// The error of a Windows capture where both engines failed: the GDI error,
/// followed by why Windows.Graphics.Capture was passed over.
pub fn both_engines_failed(gdi_error: &str, wgc_failure: &str) -> (r: String)
    ensures
        r@ == gdi_error@ + " (Windows.Graphics.Capture was tried first: "@ + wgc_failure@ + ")"@,
{
    let mut cs = chars_of(gdi_error);
    let mut middle = chars_of(" (Windows.Graphics.Capture was tried first: ");
    cs.append(&mut middle);
    let mut reason = chars_of(wgc_failure);
    cs.append(&mut reason);
    let mut close = chars_of(")");
    cs.append(&mut close);
    string_of(cs.as_slice())
}
} // verus!
