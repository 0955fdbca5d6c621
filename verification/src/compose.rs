//! The wallpaper composition engine: cover-resize geometry, canvas sizing,
//! and assembly of the composed image.
//!
//! Each source image is scaled by the larger of the two axis ratios so that
//! it fully covers its target monitor (no letterboxing), then center-cropped
//! to exactly the monitor's size. The canvas is the bounding box of all
//! monitor rectangles in the shared virtual screen space — not the sum of
//! their widths — so gaps and stacked layouts are respected.

use vstd::prelude::*;
use vstd::arithmetic::div_mod::{lemma_div_is_ordered, lemma_div_multiples_vanish_fancy};
use crate::frame::{
    crop_frame, decode_frame, decoded_dims_of, decodes, encode_jpeg, image_error_text,
    new_canvas, overlay_frame, resize_frame, Frame,
};
use crate::monitors::{Monitor, MonitorModel};

verus! {

/// A source image (as encoded bytes) paired with the monitor it is to
/// cover. The path is kept for error reports.
pub struct SourceImage {
    pub path: String,
    pub bytes: Vec<u8>,
    pub monitor: Monitor,
}

/// Why composition failed.
#[derive(Debug)]
pub enum ComposeError {
    /// A source's bytes could not be decoded, or described an empty image.
    ImageDecode { path: String, detail: String },
    /// Covering the monitor would scale a source past the pixel-coordinate
    /// range the raster library can address.
    ImageTooLarge { path: String },
    /// The composed canvas could not be encoded.
    EncodeFailed { detail: String },
}

impl ComposeError {
    /// A human-readable description of the failure.
    pub fn message(&self) -> (r: String)
        ensures
            self matches ComposeError::ImageDecode { path, detail } ==> r@ == "failed to decode "@
                + path@ + ": "@ + detail@,
            self matches ComposeError::ImageTooLarge { path } ==> r@ == "image too large to scale: "@
                + path@,
            self matches ComposeError::EncodeFailed { detail } ==> r@
                == "failed to encode wallpaper: "@ + detail@,
    {
        match self {
            ComposeError::ImageDecode { path, detail } => {
                let mut s = String::from_str("failed to decode ");
                s.append(path.as_str());
                s.append(": ");
                s.append(detail.as_str());
                s
            },
            ComposeError::ImageTooLarge { path } => {
                let mut s = String::from_str("image too large to scale: ");
                s.append(path.as_str());
                s
            },
            ComposeError::EncodeFailed { detail } => {
                let mut s = String::from_str("failed to encode wallpaper: ");
                s.append(detail.as_str());
                s
            },
        }
    }
}

/// Ceiling division for positive divisors.
pub open spec fn ceil_div(a: int, b: int) -> int {
    (a + b - 1) / b
}

/// The scaled width under cover-resize: the width axis wins when its ratio
/// `target_w / src_w` is at least the height axis's.
pub open spec fn cover_scaled_w(src_w: int, src_h: int, target_w: int, target_h: int) -> int {
    if target_w * src_h >= target_h * src_w {
        target_w
    } else {
        ceil_div(src_w * target_h, src_h)
    }
}

/// The scaled height under cover-resize.
pub open spec fn cover_scaled_h(src_w: int, src_h: int, target_w: int, target_h: int) -> int {
    if target_w * src_h >= target_h * src_w {
        ceil_div(src_h * target_w, src_w)
    } else {
        target_h
    }
}

/// `ceil_div(a, b) >= c` whenever `a >= c * b`.
proof fn lemma_ceil_div_at_least(a: int, b: int, c: int)
    requires
        b > 0,
        c >= 0,
        a >= c * b,
    ensures
        ceil_div(a, b) >= c,
{
    lemma_div_multiples_vanish_fancy(c, b - 1, b);
    assert(b * c + (b - 1) == c * b + b - 1) by (nonlinear_arith);
    lemma_div_is_ordered(c * b + b - 1, a + b - 1, b);
}

/// Law: cover-resize never leaves the target box uncovered — both scaled
/// dimensions are at least the target's, for every positive source size and
/// aspect ratio, so the subsequent center-crop yields exactly the target
/// size with no letterbox pixels.
pub proof fn lemma_cover_fills_target(src_w: int, src_h: int, target_w: int, target_h: int)
    requires
        src_w > 0,
        src_h > 0,
        target_w > 0,
        target_h > 0,
    ensures
        cover_scaled_w(src_w, src_h, target_w, target_h) >= target_w,
        cover_scaled_h(src_w, src_h, target_w, target_h) >= target_h,
{
    if target_w * src_h >= target_h * src_w {
        lemma_ceil_div_at_least(src_h * target_w, src_w, target_h);
        assert(src_h * target_w >= target_h * src_w) by (nonlinear_arith)
            requires
                target_w * src_h >= target_h * src_w,
        ;
    } else {
        lemma_ceil_div_at_least(src_w * target_h, src_h, target_w);
        assert(src_w * target_h >= target_w * src_h) by (nonlinear_arith)
            requires
                target_w * src_h <= target_h * src_w,
        ;
    }
}

/// The scaling and cropping that covers one monitor with one source image.
pub struct CoverPlan {
    pub scaled_w: u32,
    pub scaled_h: u32,
    pub crop_x: u32,
    pub crop_y: u32,
}

/// Plan the cover-resize of a `src_w × src_h` image onto a
/// `target_w × target_h` box: the scale factor is the larger of the two
/// axis ratios (so the image fully covers the box), and the crop offsets
/// center the box in the scaled image. Fails only when the scaled image
/// would not fit the pixel-coordinate range.
pub fn cover_plan(src_w: u32, src_h: u32, target_w: u32, target_h: u32) -> (r: Option<CoverPlan>)
    requires
        src_w > 0,
        src_h > 0,
        target_w > 0,
        target_h > 0,
    ensures
        match r {
            Some(p) => {
                &&& p.scaled_w == cover_scaled_w(
                    src_w as int,
                    src_h as int,
                    target_w as int,
                    target_h as int,
                )
                &&& p.scaled_h == cover_scaled_h(
                    src_w as int,
                    src_h as int,
                    target_w as int,
                    target_h as int,
                )
                &&& p.scaled_w >= target_w
                &&& p.scaled_h >= target_h
                &&& p.crop_x == (p.scaled_w - target_w) as int / 2
                &&& p.crop_y == (p.scaled_h - target_h) as int / 2
                &&& p.crop_x + target_w <= p.scaled_w
                &&& p.crop_y + target_h <= p.scaled_h
            },
            None => cover_scaled_w(src_w as int, src_h as int, target_w as int, target_h as int)
                > u32::MAX || cover_scaled_h(
                src_w as int,
                src_h as int,
                target_w as int,
                target_h as int,
            ) > u32::MAX,
        },
{
    let sw = src_w as u64;
    let sh = src_h as u64;
    let tw = target_w as u64;
    let th = target_h as u64;
    proof {
        lemma_cover_fills_target(src_w as int, src_h as int, target_w as int, target_h as int);
        assert((tw as int) * (sh as int) <= (u32::MAX as int) * (u32::MAX as int)
            && (th as int) * (sw as int) <= (u32::MAX as int) * (u32::MAX as int)
            && (sh as int) * (tw as int) <= (u32::MAX as int) * (u32::MAX as int)
            && (sw as int) * (th as int) <= (u32::MAX as int) * (u32::MAX as int))
            by (nonlinear_arith)
            requires
                0 <= tw <= u32::MAX as int,
                0 <= th <= u32::MAX as int,
                0 <= sw <= u32::MAX as int,
                0 <= sh <= u32::MAX as int,
        ;
    }
    let (scaled_w, scaled_h): (u64, u64) = if tw * sh >= th * sw {
        let num = sh * tw;
        (tw, (num + (sw - 1)) / sw)
    } else {
        let num = sw * th;
        ((num + (sh - 1)) / sh, th)
    };
    if scaled_w > u32::MAX as u64 || scaled_h > u32::MAX as u64 {
        return None;
    }
    let scaled_w = scaled_w as u32;
    let scaled_h = scaled_h as u32;
    let crop_x = (scaled_w - target_w) / 2;
    let crop_y = (scaled_h - target_h) / 2;
    Some(CoverPlan { scaled_w, scaled_h, crop_x, crop_y })
}

/// Cover-resize and center-crop one frame to exactly `target_w × target_h`.
/// Fails only when the scaled image would not fit the pixel-coordinate
/// range.
pub fn cover_crop(f: &Frame, target_w: u32, target_h: u32) -> (r: Option<Frame>)
    requires
        f.w() > 0,
        f.h() > 0,
        target_w > 0,
        target_h > 0,
    ensures
        match r {
            Some(t) => t.w() == target_w && t.h() == target_h && cover_scaled_w(
                f.w() as int,
                f.h() as int,
                target_w as int,
                target_h as int,
            ) <= u32::MAX && cover_scaled_h(
                f.w() as int,
                f.h() as int,
                target_w as int,
                target_h as int,
            ) <= u32::MAX,
            None => cover_scaled_w(
                f.w() as int,
                f.h() as int,
                target_w as int,
                target_h as int,
            ) > u32::MAX || cover_scaled_h(
                f.w() as int,
                f.h() as int,
                target_w as int,
                target_h as int,
            ) > u32::MAX,
        },
{
    let plan = cover_plan(f.width(), f.height(), target_w, target_h)?;
    let resized = resize_frame(f, plan.scaled_w, plan.scaled_h);
    Some(crop_frame(&resized, plan.crop_x, plan.crop_y, target_w, target_h))
}

/// The monitors of a sequence of source images.
pub open spec fn monitors_of_sources(s: Seq<SourceImage>) -> Seq<MonitorModel> {
    s.map_values(|t: SourceImage| t.monitor@)
}

/// The canvas width: the bounding box's right edge, the maximum of
/// `x + width` over all monitors (zero when there are none).
pub open spec fn canvas_width_of(ms: Seq<MonitorModel>) -> int
    decreases ms.len(),
{
    if ms.len() == 0 {
        0
    } else {
        let rest = canvas_width_of(ms.drop_last());
        let edge = ms.last().x + ms.last().width;
        if edge > rest {
            edge
        } else {
            rest
        }
    }
}

/// The canvas height: the bounding box's bottom edge.
pub open spec fn canvas_height_of(ms: Seq<MonitorModel>) -> int
    decreases ms.len(),
{
    if ms.len() == 0 {
        0
    } else {
        let rest = canvas_height_of(ms.drop_last());
        let edge = ms.last().y + ms.last().height;
        if edge > rest {
            edge
        } else {
            rest
        }
    }
}

/// Law: the canvas is the bounding box of the monitor rectangles — it
/// reaches exactly to the rightmost and bottommost monitor edges: every
/// monitor fits, and some monitor touches each of the two far edges.
pub proof fn lemma_canvas_is_bounding_box(ms: Seq<MonitorModel>)
    requires
        ms.len() > 0,
    ensures
        forall|i: int|
            0 <= i < ms.len() ==> (#[trigger] ms[i]).x + ms[i].width <= canvas_width_of(ms)
                && ms[i].y + ms[i].height <= canvas_height_of(ms),
        exists|i: int|
            0 <= i < ms.len() && (#[trigger] ms[i]).x + ms[i].width == canvas_width_of(ms),
        exists|i: int|
            0 <= i < ms.len() && (#[trigger] ms[i]).y + ms[i].height == canvas_height_of(ms),
    decreases ms.len(),
{
    let n = ms.len() as int;
    if n == 1 {
        assert(ms.drop_last().len() == 0);
        assert(canvas_width_of(ms.drop_last()) == 0);
        assert(canvas_height_of(ms.drop_last()) == 0);
        assert(ms[0].x + ms[0].width == canvas_width_of(ms));
        assert(ms[0].y + ms[0].height == canvas_height_of(ms));
    } else {
        lemma_canvas_is_bounding_box(ms.drop_last());
        assert(forall|i: int| 0 <= i < n - 1 ==> ms.drop_last()[i] == ms[i]);
        if canvas_width_of(ms) == ms.last().x + ms.last().width {
            assert(ms[n - 1].x + ms[n - 1].width == canvas_width_of(ms));
        } else {
            let w = choose|i: int|
                0 <= i < ms.drop_last().len() && (#[trigger] ms.drop_last()[i]).x
                    + ms.drop_last()[i].width == canvas_width_of(ms.drop_last());
            assert(ms[w].x + ms[w].width == canvas_width_of(ms));
        }
        if canvas_height_of(ms) == ms.last().y + ms.last().height {
            assert(ms[n - 1].y + ms[n - 1].height == canvas_height_of(ms));
        } else {
            let h = choose|i: int|
                0 <= i < ms.drop_last().len() && (#[trigger] ms.drop_last()[i]).y
                    + ms.drop_last()[i].height == canvas_height_of(ms.drop_last());
            assert(ms[h].y + ms[h].height == canvas_height_of(ms));
        }
    }
}

proof fn lemma_canvas_bounded(ms: Seq<MonitorModel>, bound: int)
    requires
        forall|i: int|
            0 <= i < ms.len() ==> (#[trigger] ms[i]).x + ms[i].width <= bound && ms[i].y
                + ms[i].height <= bound,
        bound >= 0,
    ensures
        canvas_width_of(ms) <= bound,
        canvas_height_of(ms) <= bound,
    decreases ms.len(),
{
    if ms.len() > 0 {
        assert(forall|i: int| 0 <= i < ms.len() - 1 ==> ms.drop_last()[i] == ms[i]);
        lemma_canvas_bounded(ms.drop_last(), bound);
    }
}

/// The bounding box of the monitors of a list of sources, as computed by
/// one left-to-right pass.
fn canvas_size(sources: &Vec<SourceImage>) -> (r: (u64, u64))
    requires
        forall|i: int|
            0 <= i < sources@.len() ==> ((#[trigger] sources@[i]).monitor@.x as int)
                + sources@[i].monitor@.width <= u32::MAX && (sources@[i].monitor@.y as int)
                + sources@[i].monitor@.height <= u32::MAX,
    ensures
        r.0 == canvas_width_of(monitors_of_sources(sources@)),
        r.1 == canvas_height_of(monitors_of_sources(sources@)),
        r.0 <= u32::MAX,
        r.1 <= u32::MAX,
{
    let ghost ms = monitors_of_sources(sources@);
    let mut w: u64 = 0;
    let mut h: u64 = 0;
    let mut i: usize = 0;
    while i < sources.len()
        invariant
            i <= sources@.len(),
            ms == monitors_of_sources(sources@),
            forall|k: int|
                0 <= k < sources@.len() ==> ((#[trigger] sources@[k]).monitor@.x as int)
                    + sources@[k].monitor@.width <= u32::MAX && (sources@[k].monitor@.y as int)
                    + sources@[k].monitor@.height <= u32::MAX,
            w == canvas_width_of(ms.subrange(0, i as int)),
            h == canvas_height_of(ms.subrange(0, i as int)),
            w <= u32::MAX,
            h <= u32::MAX,
        decreases sources@.len() - i,
    {
        let m = &sources[i].monitor;
        let edge_w = m.x as u64 + m.width as u64;
        let edge_h = m.y as u64 + m.height as u64;
        if edge_w > w {
            w = edge_w;
        }
        if edge_h > h {
            h = edge_h;
        }
        proof {
            let pre = ms.subrange(0, i as int);
            let pre2 = ms.subrange(0, i as int + 1);
            assert(pre2.drop_last() =~= pre);
            assert(pre2.last() == ms[i as int]);
        }
        i = i + 1;
    }
    proof {
        assert(ms.subrange(0, ms.len() as int) =~= ms);
    }
    (w, h)
}

/// Whether one source poses no obstacle to composition: its bytes decode
/// to a non-empty image whose cover-scaled size for its monitor fits the
/// pixel-coordinate range.
pub open spec fn source_ok(s: SourceImage) -> bool {
    &&& decodes(s.bytes@)
    &&& decoded_dims_of(s.bytes@).0 > 0
    &&& decoded_dims_of(s.bytes@).1 > 0
    &&& cover_scaled_w(
        decoded_dims_of(s.bytes@).0 as int,
        decoded_dims_of(s.bytes@).1 as int,
        s.monitor@.width as int,
        s.monitor@.height as int,
    ) <= u32::MAX
    &&& cover_scaled_h(
        decoded_dims_of(s.bytes@).0 as int,
        decoded_dims_of(s.bytes@).1 as int,
        s.monitor@.width as int,
        s.monitor@.height as int,
    ) <= u32::MAX
}

/// The first source that blocks composition, from position `i` on; `-1`
/// when none does.
pub open spec fn first_bad_source(sources: Seq<SourceImage>, i: int) -> int
    decreases sources.len() - i,
{
    if i < 0 || i >= sources.len() {
        -1
    } else if !source_ok(sources[i]) {
        i
    } else {
        first_bad_source(sources, i + 1)
    }
}

/// Compose the sources onto one canvas sized to the bounding box of their
/// monitors: each source is decoded, cover-resized and center-cropped to
/// exactly its monitor's size, and overlaid at the monitor's offset.
/// It succeeds exactly when every source decodes to a non-empty image that
/// scales within the pixel-coordinate range; otherwise the error names the
/// first blocking source's path. The preconditions narrow the data model's
/// non-negative monitor sizes to positive ones (and bound the offsets, a
/// machine limit); the caller rejects zero-size monitors before composing.
pub fn compose_canvas(sources: &Vec<SourceImage>) -> (r: Result<Frame, ComposeError>)
    requires
        forall|i: int|
            0 <= i < sources@.len() ==> ((#[trigger] sources@[i]).monitor@.x as int)
                + sources@[i].monitor@.width <= u32::MAX && (sources@[i].monitor@.y as int)
                + sources@[i].monitor@.height <= u32::MAX,
        forall|i: int|
            0 <= i < sources@.len() ==> (#[trigger] sources@[i]).monitor@.width > 0
                && sources@[i].monitor@.height > 0,
    ensures
        r is Ok <==> (forall|i: int|
            0 <= i < sources@.len() ==> source_ok(#[trigger] sources@[i])),
        r matches Ok(c) ==> c.w() == canvas_width_of(monitors_of_sources(sources@))
            && c.h() == canvas_height_of(monitors_of_sources(sources@)) && c.eight_bit(),
        r matches Err(e) ==> ({
            let j = first_bad_source(sources@, 0);
            &&& 0 <= j < sources@.len()
            &&& !source_ok(sources@[j])
            &&& match e {
                ComposeError::ImageDecode { path, detail } => path@ == sources@[j].path@ && (
                !decodes(sources@[j].bytes@) || decoded_dims_of(sources@[j].bytes@).0 == 0
                    || decoded_dims_of(sources@[j].bytes@).1 == 0),
                ComposeError::ImageTooLarge { path } => path@ == sources@[j].path@,
                ComposeError::EncodeFailed { .. } => false,
            }
        }),
{
    let (w, h) = canvas_size(sources);
    let mut canvas = new_canvas(w as u32, h as u32);
    let mut i: usize = 0;
    while i < sources.len()
        invariant
            i <= sources@.len(),
            forall|k: int|
                0 <= k < sources@.len() ==> (#[trigger] sources@[k]).monitor@.width > 0
                    && sources@[k].monitor@.height > 0,
            forall|k: int| 0 <= k < i ==> source_ok(#[trigger] sources@[k]),
            canvas.w() == canvas_width_of(monitors_of_sources(sources@)),
            canvas.h() == canvas_height_of(monitors_of_sources(sources@)),
            canvas.eight_bit(),
        decreases sources@.len() - i,
    {
        let src = &sources[i];
        let frame = match decode_frame(&src.bytes) {
            Ok(f) => f,
            Err(e) => {
                proof {
                    lemma_first_bad_at(sources@, i as int);
                }
                return Err(
                    ComposeError::ImageDecode {
                        path: src.path.clone(),
                        detail: image_error_text(&e),
                    },
                );
            },
        };
        if frame.width() == 0 || frame.height() == 0 {
            proof {
                lemma_first_bad_at(sources@, i as int);
            }
            return Err(
                ComposeError::ImageDecode {
                    path: src.path.clone(),
                    detail: String::from_str("image has no pixels"),
                },
            );
        }
        let tile = match cover_crop(&frame, src.monitor.width, src.monitor.height) {
            Some(t) => t,
            None => {
                proof {
                    lemma_first_bad_at(sources@, i as int);
                }
                return Err(ComposeError::ImageTooLarge { path: src.path.clone() });
            },
        };
        overlay_frame(&mut canvas, &tile, src.monitor.x, src.monitor.y);
        i = i + 1;
    }
    Ok(canvas)
}

/// With everything before `at` fine and `at` blocking, `at` is the first
/// blocking source.
proof fn lemma_first_bad_at(sources: Seq<SourceImage>, at: int)
    requires
        0 <= at < sources.len(),
        !source_ok(sources[at]),
        forall|k: int| 0 <= k < at ==> source_ok(#[trigger] sources[k]),
    ensures
        first_bad_source(sources, 0) == at,
{
    lemma_first_bad_from(sources, 0, at);
}

proof fn lemma_first_bad_from(sources: Seq<SourceImage>, i: int, at: int)
    requires
        0 <= i <= at < sources.len(),
        !source_ok(sources[at]),
        forall|k: int| 0 <= k < at ==> source_ok(#[trigger] sources[k]),
    ensures
        first_bad_source(sources, i) == at,
    decreases at - i,
{
    if i < at {
        lemma_first_bad_from(sources, i + 1, at);
    }
}

/// Encode the composed canvas with the lossy, high-quality setting used
/// for the wallpaper file. This succeeds exactly when both canvas
/// dimensions lie within the format's range, one to 65535.
pub fn encode_composed(canvas: &Frame) -> (r: Result<Vec<u8>, ComposeError>)
    ensures
        r is Ok <==> (1 <= canvas.w() && canvas.w() <= 65535 && 1 <= canvas.h() && canvas.h()
            <= 65535),
        r is Err ==> r matches Err(ComposeError::EncodeFailed { .. }),
{
    match encode_jpeg(canvas, 95) {
        Ok(bytes) => Ok(bytes),
        Err(e) => Err(ComposeError::EncodeFailed { detail: image_error_text(&e) }),
    }
}

} // verus!
