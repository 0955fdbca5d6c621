//! The scan-and-decode pipeline's logic: which directory entries count as
//! images, how a thumbnail is sized, how one file's bytes become a
//! thumbnail, and the polling side of the pipeline.
//!
//! Listing the directory, reading files, and fanning the per-file work out
//! to background workers is the caller's business; every decision those
//! workers make is taken here. `poll` never blocks and never does I/O — it
//! only drains results the workers already sent.

use vstd::prelude::*;
use vstd::arithmetic::div_mod::{lemma_div_is_ordered, lemma_div_multiples_vanish_fancy};
use vstd::math::max as spec_max;
use crate::channel::{recv_now, ChannelEvent};
use crate::frame::{decode_frame, decoded_dims_of, decodes, encode_png, thumbnail_frame, Frame};
use crate::monitors::{chars_of, token_eq};

verus! {

/// The fixed bound on a thumbnail's edge length.
pub const MAX_THUMB_EDGE: u32 = 512;

/// The last position of `c` in `s`, or `-1`.
pub open spec fn last_index_of(s: Seq<char>, c: char) -> int
    decreases s.len(),
{
    if s.len() == 0 {
        -1
    } else if s.last() == c {
        s.len() - 1
    } else {
        last_index_of(s.drop_last(), c)
    }
}

/// The ASCII-lowercase of a character.
pub open spec fn lower_ascii(c: char) -> char {
    if 'A' <= c && c <= 'Z' {
        ((c as u8) + 32) as char
    } else {
        c
    }
}

/// The extension of a path: what follows the last `.` of the last path
/// component, provided that dot is not the component's first character.
pub open spec fn ext_of(path: Seq<char>) -> Option<Seq<char>> {
    let slash = last_index_of(path, '/');
    let base = path.subrange(slash + 1, path.len() as int);
    let dot = last_index_of(base, '.');
    if dot <= 0 {
        None
    } else {
        Some(base.subrange(dot + 1, base.len() as int))
    }
}

/// The fixed image-extension set, compared case-insensitively.
pub open spec fn is_image_ext(e: Seq<char>) -> bool {
    let le = e.map_values(|c: char| lower_ascii(c));
    le == "jpg"@ || le == "jpeg"@ || le == "png"@
}

/// Whether a path names an image file, by its extension alone.
pub open spec fn is_image_name(path: Seq<char>) -> bool {
    match ext_of(path) {
        Some(e) => is_image_ext(e),
        None => false,
    }
}

proof fn lemma_last_index_bounds(s: Seq<char>, c: char)
    ensures
        -1 <= last_index_of(s, c) < s.len(),
    decreases s.len(),
{
    if s.len() > 0 && s.last() != c {
        lemma_last_index_bounds(s.drop_last(), c);
    }
}

/// Find the last occurrence of `c`.
fn last_index_vec(s: &Vec<char>, c: char) -> (r: Option<usize>)
    ensures
        match r {
            Some(j) => last_index_of(s@, c) == j as int,
            None => last_index_of(s@, c) == -1,
        },
{
    proof {
        assert(s@.subrange(0, s@.len() as int) =~= s@);
    }
    let mut k: usize = s.len();
    while k > 0
        invariant
            k <= s@.len(),
            last_index_of(s@, c) == last_index_of(s@.subrange(0, k as int), c),
        decreases k,
    {
        let ghost pre = s@.subrange(0, k as int);
        proof {
            assert(pre.drop_last() =~= s@.subrange(0, k as int - 1));
            assert(pre.last() == s@[k as int - 1]);
        }
        if s[k - 1] == c {
            return Some(k - 1);
        }
        k = k - 1;
    }
    proof {
        assert(s@.subrange(0, 0).len() == 0);
    }
    None
}

/// Copy out `s[from..to]`.
fn subvec(s: &Vec<char>, from: usize, to: usize) -> (r: Vec<char>)
    requires
        from <= to <= s@.len(),
    ensures
        r@ == s@.subrange(from as int, to as int),
{
    let mut r: Vec<char> = Vec::new();
    let mut i: usize = from;
    while i < to
        invariant
            from <= i <= to <= s@.len(),
            r@ == s@.subrange(from as int, i as int),
        decreases to - i,
    {
        r.push(s[i]);
        proof {
            assert(r@ =~= s@.subrange(from as int, i as int + 1));
        }
        i = i + 1;
    }
    r
}

fn lower_ascii_exec(c: char) -> (r: char)
    ensures
        r == lower_ascii(c),
{
    if 'A' <= c && c <= 'Z' {
        ((c as u8) + 32) as char
    } else {
        c
    }
}

/// Decide whether a directory entry's path names an image file: its
/// extension, lowercased, must be one of the fixed image extensions.
pub fn is_image_file_name(name: &str) -> (r: bool)
    ensures
        r == is_image_name(name@),
{
    let cs = chars_of(name);
    proof {
        lemma_last_index_bounds(cs@, '/');
    }
    let start: usize = match last_index_vec(&cs, '/') {
        Some(j) => j + 1,
        None => 0,
    };
    let base = subvec(&cs, start, cs.len());
    proof {
        lemma_last_index_bounds(base@, '.');
    }
    let dot = match last_index_vec(&base, '.') {
        Some(d) => d,
        None => {
            return false;
        },
    };
    if dot == 0 {
        return false;
    }
    let ext = subvec(&base, dot + 1, base.len());
    let mut le: Vec<char> = Vec::new();
    let mut i: usize = 0;
    while i < ext.len()
        invariant
            i <= ext@.len(),
            le@ == ext@.subrange(0, i as int).map_values(|c: char| lower_ascii(c)),
        decreases ext@.len() - i,
    {
        le.push(lower_ascii_exec(ext[i]));
        proof {
            assert(le@ =~= ext@.subrange(0, i as int + 1).map_values(
                |c: char| lower_ascii(c),
            ));
        }
        i = i + 1;
    }
    proof {
        assert(ext@.subrange(0, ext@.len() as int) =~= ext@);
        assert(le@ == ext@.map_values(|c: char| lower_ascii(c)));
    }
    token_eq(&le, "jpg") || token_eq(&le, "jpeg") || token_eq(&le, "png")
}

/// Round-to-nearest division, half away from zero, for positive divisors.
pub open spec fn round_div(a: int, b: int) -> int {
    (2 * a + b) / (2 * b)
}

/// The width of a thumbnail of a `w × h` image bounded to `max`: the image
/// is scaled, aspect ratio preserved, so that its longer edge becomes
/// exactly `max`; the shorter edge rounds to nearest, never below one.
pub open spec fn thumb_w(w: int, h: int, max: int) -> int {
    if w >= h {
        max
    } else {
        spec_max(1, round_div(w * max, h))
    }
}

/// The height of a thumbnail of a `w × h` image bounded to `max`.
pub open spec fn thumb_h(w: int, h: int, max: int) -> int {
    if w >= h {
        spec_max(1, round_div(h * max, w))
    } else {
        max
    }
}

/// `round_div(s * max, l) <= max` when the numerator's factor `s` is at
/// most the divisor `l`.
proof fn lemma_round_div_bounded(s: int, l: int, max: int)
    requires
        0 < s <= l,
        0 < max,
    ensures
        0 <= round_div(s * max, l) <= max,
{
    assert(2 * (s * max) + l <= (2 * l) * max + l && 0 <= 2 * (s * max)) by (nonlinear_arith)
        requires
            0 < s <= l,
            0 < max,
    ;
    lemma_div_multiples_vanish_fancy(max, l, 2 * l);
    lemma_div_is_ordered(2 * (s * max) + l, (2 * l) * max + l, 2 * l);
    lemma_div_is_ordered(0, 2 * (s * max) + l, 2 * l);
}

/// Law: a thumbnail always fits within the `max × max` box and keeps both
/// edges at least one pixel, for every positive source size.
pub proof fn lemma_thumb_fits(w: int, h: int, max: int)
    requires
        w > 0,
        h > 0,
        max > 0,
    ensures
        1 <= thumb_w(w, h, max) <= max,
        1 <= thumb_h(w, h, max) <= max,
{
    if w >= h {
        lemma_round_div_bounded(h, w, max);
    } else {
        lemma_round_div_bounded(w, h, max);
    }
}

/// The dimensions of a thumbnail of a `w × h` image bounded to `max` on
/// either edge, preserving aspect ratio.
pub fn thumb_dims(w: u32, h: u32, max: u32) -> (r: (u32, u32))
    requires
        w > 0,
        h > 0,
        max > 0,
    ensures
        r.0 == thumb_w(w as int, h as int, max as int),
        r.1 == thumb_h(w as int, h as int, max as int),
        1 <= r.0 <= max,
        1 <= r.1 <= max,
{
    proof {
        lemma_thumb_fits(w as int, h as int, max as int);
        assert((2 * (h as int)) * (max as int) == 2 * ((h as int) * (max as int)) && (2 * (
        w as int)) * (max as int) == 2 * ((w as int) * (max as int)) && (2 * (h as int)) * (
        max as int) <= 0x2_0000_0000_0000_0000 && (2 * (w as int)) * (max as int)
            <= 0x2_0000_0000_0000_0000) by (nonlinear_arith)
            requires
                0 < w <= u32::MAX as int,
                0 < h <= u32::MAX as int,
                0 < max <= u32::MAX as int,
        ;
    }
    if w >= h {
        let num: u128 = 2u128 * (h as u128) * (max as u128) + (w as u128);
        let q: u128 = num / (2u128 * (w as u128));
        assert(q == round_div((h as int) * (max as int), w as int));
        let down = if q == 0 {
            1u128
        } else {
            q
        };
        (max, down as u32)
    } else {
        let num: u128 = 2u128 * (w as u128) * (max as u128) + (h as u128);
        let q: u128 = num / (2u128 * (h as u128));
        assert(q == round_div((w as int) * (max as int), h as int));
        let down = if q == 0 {
            1u128
        } else {
            q
        };
        (down as u32, max)
    }
}

/// One decoded file, ready for the gallery: the thumbnail, the source's
/// full-resolution dimensions, and the source's identity.
pub struct Thumbnail {
    pub frame: Frame,
    pub original_w: u32,
    pub original_h: u32,
}

/// Decode one file's bytes and produce its gallery thumbnail, bounded to
/// [`MAX_THUMB_EDGE`] on either edge with the aspect ratio preserved.
/// This succeeds exactly when the bytes decode to a non-empty image; a
/// file that does not is skipped silently, never a terminal error.
pub fn thumbnail_from_bytes(bytes: &Vec<u8>) -> (r: Option<Thumbnail>)
    ensures
        r is Some <==> decodes(bytes@) && decoded_dims_of(bytes@).0 > 0 && decoded_dims_of(
            bytes@,
        ).1 > 0,
        r matches Some(t) ==> (t.original_w, t.original_h) == decoded_dims_of(bytes@)
            && t.original_w > 0 && t.original_h > 0 && t.frame.w() == thumb_w(
            t.original_w as int,
            t.original_h as int,
            MAX_THUMB_EDGE as int,
        ) && t.frame.h() == thumb_h(
            t.original_w as int,
            t.original_h as int,
            MAX_THUMB_EDGE as int,
        ) && 1 <= t.frame.w() <= MAX_THUMB_EDGE && 1 <= t.frame.h() <= MAX_THUMB_EDGE,
{
    let frame = match decode_frame(bytes) {
        Ok(f) => f,
        Err(_) => {
            return None;
        },
    };
    let w = frame.width();
    let h = frame.height();
    if w == 0 || h == 0 {
        return None;
    }
    let (tw, th) = thumb_dims(w, h, MAX_THUMB_EDGE);
    let thumb = thumbnail_frame(&frame, tw, th);
    Some(Thumbnail { frame: thumb, original_w: w, original_h: h })
}

/// Decode a cached thumbnail's bytes. This succeeds exactly when the
/// bytes decode; an entry that does not is treated like a missing entry,
/// and the thumbnail is regenerated.
pub fn decode_cached(bytes: &Vec<u8>) -> (r: Option<Frame>)
    ensures
        r is Some <==> decodes(bytes@),
        r matches Some(f) ==> (f.w(), f.h()) == decoded_dims_of(bytes@),
{
    match decode_frame(bytes) {
        Ok(f) => Some(f),
        Err(_) => None,
    }
}

/// Encode a thumbnail for its cache slot: for a thumbnail with 8-bit
/// channels and at least one pixel on each edge this always succeeds.
/// The cache is an optimization, so an encoding failure yields nothing
/// rather than an error.
pub fn encode_thumbnail(frame: &Frame) -> (r: Option<Vec<u8>>)
    ensures
        r is Some ==> frame.w() >= 1 && frame.h() >= 1,
        r is None ==> frame.w() == 0 || frame.h() == 0 || !frame.eight_bit(),
{
    match encode_png(frame) {
        Ok(bytes) => Some(bytes),
        Err(_) => None,
    }
}

/// One completed file, as the pipeline reports it: the source's path (its
/// stable identity), its modification time, the thumbnail, and the
/// original dimensions.
pub struct ScanItem {
    pub name: String,
    pub modified: u64,
    pub original_w: u32,
    pub original_h: u32,
    pub frame: Frame,
}

/// One observation of the pipeline.
pub enum Poll {
    /// A file finished decoding.
    Image(ScanItem),
    /// The scan failed as a whole (the directory could not be listed).
    Error(String),
    /// Nothing has arrived yet; the scan may still be running.
    Pending,
    /// All senders are gone: every file has been attempted (or the scan
    /// was torn down) and nothing more will arrive.
    Done,
}

/// The pipeline's transition for one observed channel event: a decoded
/// file becomes exactly that image event, a scan failure that error event;
/// nothing queued is `Pending`; every sender gone is `Done`.
pub fn event_to_poll(ev: ChannelEvent<Result<ScanItem, String>>) -> (r: Poll)
    ensures
        match ev {
            ChannelEvent::Received(m) => match m {
                Ok(item) => r == Poll::Image(item),
                Err(e) => r == Poll::Error(e),
            },
            ChannelEvent::Nothing => r is Pending,
            ChannelEvent::Closed => r is Done,
        },
{
    match ev {
        ChannelEvent::Received(Ok(item)) => Poll::Image(item),
        ChannelEvent::Received(Err(e)) => Poll::Error(e),
        ChannelEvent::Nothing => Poll::Pending,
        ChannelEvent::Closed => Poll::Done,
    }
}

/// The polling end of a running scan. Background workers push one
/// `Ok(item)` per decoded file, or one `Err(message)` if the directory
/// could not be listed, and drop their senders when the scan ends.
pub struct ImageLoader {
    rx: std::sync::mpsc::Receiver<Result<ScanItem, String>>,
}

impl ImageLoader {
    /// Adopt the receiving end of a scan's channel.
    pub fn from_receiver(rx: std::sync::mpsc::Receiver<Result<ScanItem, String>>) -> Self {
        ImageLoader { rx }
    }

    /// Drain one already-produced result, without blocking and without any
    /// I/O: one observation of the channel, mapped by [`event_to_poll`],
    /// whose contract fixes the event for whatever was received. Which of
    /// the three channel outcomes comes back depends on timing, which no
    /// contract here models; after the workers are gone — including when
    /// the scan was cancelled mid-way — the standard library documents the
    /// receive as returning the disconnected outcome, so every poll
    /// settles to `Done`, and none panics or hangs.
    pub fn poll(&self) -> Poll {
        event_to_poll(recv_now(&self.rx))
    }
}

} // verus!
