//! Frames from xdg-desktop-portal ScreenCast and PipeWire.
//!
//! The portal selects the monitors and PipeWire delivers raw frames. The portal
//! may return a restore token, which is saved and offered on the next session so
//! that the share picker is skipped.

use vstd::prelude::*;
use vstd::arithmetic::div_mod::*;
use vstd::arithmetic::mul::*;
use vstd::slice::*;
use vstd::string::*;

use crate::bytes::put_all;
use crate::capture::{FrameView, RawFrame};
use crate::input::saturated;
use crate::message::{display_views, DisplayInfo, DisplayView};
use crate::paths::{join, state_dir, within, Env};
use crate::settings::opt_text;
use crate::text::{trim, trimmed};
use crate::yuv::{
    copy_i420, even, evened, front_frame, front_frame_by_bytes, i420, i420_has_its_size, i420_len,
    nv12_frame, nv12_frame_by_bytes, nv12_to_i420, opt_bytes, packed_frame, packed_frame_by_bytes,
    packed_to_i420, product, yuy2_frame, yuy2_frame_by_bytes, yuy2_to_i420, PixelOrder,
};

verus! {

// ---------------------------------------------------------------------------
// The restore token
// ---------------------------------------------------------------------------

/// The token in the text of the token file: none where the text is blank.
pub fn read_token(text: &str) -> (r: Option<String>)
    ensures
        opt_text(r) == (if trimmed(text@).len() == 0 {
            None
        } else {
            Some(trimmed(text@))
        }),
{
    let token = trim(text);
    if token.unicode_len() == 0 {
        None
    } else {
        Some(token.to_owned())
    }
}

/// Whether a portal that refused is asked once more, with the picker and without the
/// saved token, which is deleted: only where it was offered one.
pub fn ask_again(saved: bool) -> (r: bool)
    ensures
        r == saved,
{
    saved
}

/// Where the token is.
pub fn default_token_path(env: &Env) -> (r: Option<String>)
    ensures
        opt_text(r) == within(env.state_dir_spec(), "screencast-restore-token"@),
{
    match state_dir(env) {
        Some(dir) => Some(join(dir.as_str(), "screencast-restore-token")),
        None => None,
    }
}

// ---------------------------------------------------------------------------
// Displays
// ---------------------------------------------------------------------------

/// A stream that the portal offers.
#[derive(Debug, PartialEq, Eq)]
pub struct StreamInfo {
    pub size: Option<(i32, i32)>,
    pub position: Option<(i32, i32)>,
    pub id: Option<String>,
    pub node_id: u32,
}

/// Which display a stream is.
#[derive(Clone, Copy, Debug, PartialEq, Eq, Structural)]
pub struct StreamTarget {
    pub display_id: u32,
    pub node_id: u32,
}

/// A side of a stream: even, and at least two pixels.
pub open spec fn stream_side(v: i32) -> u32 {
    if v < 2 {
        2
    } else {
        evened(v as int) as u32
    }
}

fn side(v: i32) -> (r: u32)
    ensures
        r == stream_side(v),
{
    if v < 2 {
        2
    } else {
        even(v as u32)
    }
}

/// The display of a stream, and where the next one starts that has no position:
/// to the right of this one.
pub open spec fn stream_display(s: StreamInfo, index: int, next_x: i32) -> (DisplayView, i32) {
    let (w, h) = match s.size {
        Some(size) => size,
        None => (1280i32, 720i32),
    };
    let (x, y) = match s.position {
        Some(p) => p,
        None => (next_x, 0i32),
    };
    let display = DisplayView {
        id: index as u32,
        x,
        y,
        width: stream_side(w),
        height: stream_side(h),
        scale_percent: 100,
        name: match s.id {
            Some(id) if id@.len() > 0 => id@,
            _ => "monitor"@,
        },
    };
    (display, saturated(x + stream_side(w)))
}

/// The displays of some streams, and where the next one would start.
pub open spec fn stream_displays(streams: Seq<StreamInfo>) -> (Seq<DisplayView>, i32)
    decreases streams.len(),
{
    if streams.len() == 0 {
        (seq![], 0)
    } else {
        let (before, next_x) = stream_displays(streams.drop_last());
        let (display, after) = stream_display(streams.last(), streams.len() - 1, next_x);
        (before.push(display), after)
    }
}

/// The displays of some streams, each with the stream that it is.
pub fn displays_from_streams(streams: &Vec<StreamInfo>) -> (r: (Vec<DisplayInfo>, Vec<StreamTarget>))
    requires
        streams@.len() <= u32::MAX,
    ensures
        display_views(r.0@) == stream_displays(streams@).0,
        r.1@ == Seq::new(
            streams@.len(),
            |i: int| StreamTarget { display_id: i as u32, node_id: streams@[i].node_id },
        ),
{
    let mut displays: Vec<DisplayInfo> = Vec::new();
    let mut targets: Vec<StreamTarget> = Vec::new();
    let mut next_x: i32 = 0;
    assert(display_views(displays@) =~= stream_displays(streams@.take(0)).0);
    for i in 0..streams.len()
        invariant
            streams@.len() <= u32::MAX,
            display_views(displays@) == stream_displays(streams@.take(i as int)).0,
            next_x == stream_displays(streams@.take(i as int)).1,
            targets@ == Seq::new(
                i as nat,
                |i: int| StreamTarget { display_id: i as u32, node_id: streams@[i].node_id },
            ),
    {
        assert(streams@.take(i + 1).drop_last() =~= streams@.take(i as int));
        let stream = &streams[i];
        let (lw, lh) = match stream.size {
            Some(size) => size,
            None => (1280i32, 720i32),
        };
        let (x, y) = match stream.position {
            Some(p) => p,
            None => (next_x, 0i32),
        };
        let name = match &stream.id {
            Some(id) => if id.as_str().unicode_len() > 0 {
                id.clone()
            } else {
                "monitor".to_owned()
            },
            None => "monitor".to_owned(),
        };
        let width: u32 = side(lw);
        let display = DisplayInfo {
            id: i as u32,
            x,
            y,
            width,
            height: side(lh),
            scale_percent: 100,
            name,
        };
        let ghost before = displays@;
        displays.push(display);
        assert(display_views(displays@) =~= display_views(before).push(display@));
        targets.push(StreamTarget { display_id: i as u32, node_id: stream.node_id });
        let end: i64 = x as i64 + width as i64;
        next_x = if end > i32::MAX as i64 {
            i32::MAX
        } else {
            end as i32
        };
    }
    assert(streams@.take(streams@.len() as int) =~= streams@);
    (displays, targets)
}

// ---------------------------------------------------------------------------
// Frames
// ---------------------------------------------------------------------------

/// The pixel formats that a stream may have.
#[derive(Clone, Copy, Debug, PartialEq, Eq, Structural)]
pub enum VideoFormat {
    Bgrx,
    Rgbx,
    Bgra,
    Rgba,
    Bgr,
    Rgb,
    Yuy2,
    I420,
    Nv12,
    Other,
}

/// A part of a buffer: the memory, where it is mapped, and which of it holds the
/// data.
#[derive(Debug, Clone, PartialEq, Eq)]
pub struct Chunk {
    pub data: Option<Vec<u8>>,
    pub offset: u32,
    pub size: u32,
    pub stride: i32,
}

/// The data of a part, and how far apart its rows are.
pub struct OwnedPlane {
    pub bytes: Vec<u8>,
    pub stride: usize,
}

pub open spec fn stride_spec(stride: i32, fallback: usize) -> usize {
    if stride > 0 {
        stride as usize
    } else {
        fallback
    }
}

fn positive_stride(stride: i32, fallback: usize) -> (r: usize)
    ensures
        r == stride_spec(stride, fallback),
{
    if stride > 0 {
        stride as usize
    } else {
        fallback
    }
}

/// The data in a part: the range that it names, or all of the memory where that
/// range is empty or outside of it.
pub open spec fn chunk_bytes(c: Chunk) -> Option<Seq<u8>> {
    match c.data {
        Some(raw) => {
            let all = raw@;
            let data = if c.size > 0 && c.offset + c.size <= all.len() {
                all.subrange(c.offset as int, c.offset + c.size)
            } else {
                all
            };
            if data.len() == 0 {
                None
            } else {
                Some(data)
            }
        },
        None => None,
    }
}

/// A plane from a part of a buffer.
pub fn owned_plane(chunk: &Chunk, fallback_stride: usize) -> (r: Option<OwnedPlane>)
    ensures
        match chunk_bytes(*chunk) {
            Some(data) => r matches Some(p) && p.bytes@ == data && p.stride == stride_spec(
                chunk.stride,
                fallback_stride,
            ),
            None => r is None,
        },
{
    match &chunk.data {
        Some(raw) => {
            let end: u64 = chunk.offset as u64 + chunk.size as u64;
            let bytes = if chunk.size > 0 && end <= raw.len() as u64 {
                slice_to_vec(slice_subrange(raw.as_slice(), chunk.offset as usize, end as usize))
            } else {
                slice_to_vec(raw.as_slice())
            };
            if bytes.len() == 0 {
                None
            } else {
                let stride: usize = positive_stride(chunk.stride, fallback_stride);
                Some(OwnedPlane { bytes, stride })
            }
        },
        None => None,
    }
}

/// The first `rows` rows of a plane that are there, without what is between them.
pub open spec fn plane_rows(src: Seq<u8>, stride: int, width: int, rows: nat) -> Seq<u8>
    decreases rows,
{
    if rows == 0 {
        seq![]
    } else {
        let before = plane_rows(src, stride, width, (rows - 1) as nat);
        let start = (rows - 1) * stride;
        if start + width <= src.len() {
            before + src.subrange(start, start + width)
        } else {
            before
        }
    }
}

/// Adds the rows of a plane.
pub fn copy_plane(out: &mut Vec<u8>, src: &[u8], stride: usize, width: usize, height: usize)
    ensures
        final(out)@ == old(out)@ + plane_rows(src@, stride as int, width as int, height as nat),
{
    let len: usize = src.len();
    let mut start: u128 = 0;
    assert(out@ =~= old(out)@ + plane_rows(src@, stride as int, width as int, 0));
    proof {
        lemma_mul_basics(stride as int);
    }
    for row in 0..height
        invariant
            len == src@.len(),
            start == row * stride,
            out@ == old(out)@ + plane_rows(src@, stride as int, width as int, row as nat),
    {
        proof {
            assert((row + 1) * stride == row * stride + stride) by (nonlinear_arith);
            assert((row + 1) * stride <= 0xffff_ffff_ffff_ffff * 0xffff_ffff_ffff_ffff)
                by (nonlinear_arith)
                requires
                    row + 1 <= 0xffff_ffff_ffff_ffff,
                    stride <= 0xffff_ffff_ffff_ffff,
            ;
        }
        if start <= len as u128 && width as u128 <= len as u128 - start {
            let from: usize = start as usize;
            put_all(out, slice_subrange(src, from, from + width));
        }
        assert(out@ =~= old(out)@ + plane_rows(
            src@,
            stride as int,
            width as int,
            (row + 1) as nat,
        ));
        start = start + stride as u128;
    }
}

/// The frame of three planes, where no row of them is missing.
pub open spec fn planar_frame(
    width: u32,
    height: u32,
    y: Seq<u8>,
    y_stride: int,
    u: Seq<u8>,
    u_stride: int,
    v: Seq<u8>,
    v_stride: int,
) -> Option<Seq<u8>> {
    let w = width as int;
    let h = height as int;
    let all = plane_rows(y, y_stride, w, h as nat) + plane_rows(u, u_stride, w / 2, (h / 2) as nat)
        + plane_rows(v, v_stride, w / 2, (h / 2) as nat);
    if all.len() == i420_len(w, h) {
        Some(all)
    } else {
        None
    }
}

/// The planes of a buffer as the frame that they are.
pub open spec fn planar_spec(width: u32, height: u32, parts: Seq<Chunk>) -> Option<Seq<u8>> {
    match (chunk_bytes(parts[0]), chunk_bytes(parts[1]), chunk_bytes(parts[2])) {
        (Some(y), Some(u), Some(v)) => planar_frame(
            width,
            height,
            y,
            stride_spec(parts[0].stride, width as usize) as int,
            u,
            stride_spec(parts[1].stride, (width / 2) as usize) as int,
            v,
            stride_spec(parts[2].stride, (width / 2) as usize) as int,
        ),
        _ => None,
    }
}

/// An I420 frame from the three parts of a buffer.
pub fn planar_i420(width: u32, height: u32, parts: &Vec<Chunk>) -> (r: Option<Vec<u8>>)
    requires
        parts@.len() >= 3,
    ensures
        opt_bytes(r) == planar_spec(width, height, parts@),
{
    let cw: usize = (width / 2) as usize;
    let ch: usize = (height / 2) as usize;
    let y = match owned_plane(&parts[0], width as usize) {
        Some(p) => p,
        None => {
            return None;
        },
    };
    let u = match owned_plane(&parts[1], cw) {
        Some(p) => p,
        None => {
            return None;
        },
    };
    let v = match owned_plane(&parts[2], cw) {
        Some(p) => p,
        None => {
            return None;
        },
    };
    let mut out: Vec<u8> = Vec::new();
    copy_plane(&mut out, y.bytes.as_slice(), y.stride, width as usize, height as usize);
    copy_plane(&mut out, u.bytes.as_slice(), u.stride, cw, ch);
    copy_plane(&mut out, v.bytes.as_slice(), v.stride, cw, ch);
    let need: u128 = product(width as u128, height as u128) + 2 * product(
        (width / 2) as u128,
        (height / 2) as u128,
    );
    if out.len() as u128 == need {
        Some(out)
    } else {
        None
    }
}

/// How far apart the rows of a format are when they are packed.
pub open spec fn packed_stride(format: VideoFormat, width: u32) -> int {
    match format {
        VideoFormat::Rgb | VideoFormat::Bgr => width * 3,
        VideoFormat::Yuy2 => width * 2,
        VideoFormat::I420 | VideoFormat::Nv12 => width as int,
        _ => width * 4,
    }
}

pub fn default_stride(format: VideoFormat, width: u32) -> (r: usize)
    requires
        width * 4 <= usize::MAX,
    ensures
        r == packed_stride(format, width),
{
    let w: usize = width as usize;
    match format {
        VideoFormat::Rgb | VideoFormat::Bgr => w * 3,
        VideoFormat::Yuy2 => w * 2,
        VideoFormat::I420 | VideoFormat::Nv12 => w,
        _ => w * 4,
    }
}

/// The frame of a buffer with one part.
pub open spec fn converted(
    format: VideoFormat,
    bytes: Seq<u8>,
    stride: int,
    width: u32,
    height: u32,
) -> Option<Seq<u8>> {
    match format {
        VideoFormat::Bgrx => packed_frame(bytes, stride, width, height, PixelOrder::Bgrx),
        VideoFormat::Rgbx => packed_frame(bytes, stride, width, height, PixelOrder::Rgbx),
        VideoFormat::Bgra => packed_frame(bytes, stride, width, height, PixelOrder::Bgra),
        VideoFormat::Rgba => packed_frame(bytes, stride, width, height, PixelOrder::Rgba),
        VideoFormat::Bgr => packed_frame(bytes, stride, width, height, PixelOrder::Bgr),
        VideoFormat::Rgb => packed_frame(bytes, stride, width, height, PixelOrder::Rgb),
        VideoFormat::Yuy2 => yuy2_frame(bytes, stride, width, height),
        VideoFormat::I420 => front_frame(bytes, width, height),
        VideoFormat::Nv12 => nv12_frame(bytes, stride, stride, width, height),
        VideoFormat::Other => None,
    }
}

pub fn convert_packed(
    format: VideoFormat,
    bytes: &[u8],
    stride: usize,
    width: u32,
    height: u32,
) -> (r: Option<Vec<u8>>)
    ensures
        opt_bytes(r) == converted(format, bytes@, stride as int, width, height),
{
    match format {
        VideoFormat::Bgrx => packed_to_i420(bytes, stride, width, height, PixelOrder::Bgrx),
        VideoFormat::Rgbx => packed_to_i420(bytes, stride, width, height, PixelOrder::Rgbx),
        VideoFormat::Bgra => packed_to_i420(bytes, stride, width, height, PixelOrder::Bgra),
        VideoFormat::Rgba => packed_to_i420(bytes, stride, width, height, PixelOrder::Rgba),
        VideoFormat::Bgr => packed_to_i420(bytes, stride, width, height, PixelOrder::Bgr),
        VideoFormat::Rgb => packed_to_i420(bytes, stride, width, height, PixelOrder::Rgb),
        VideoFormat::Yuy2 => yuy2_to_i420(bytes, stride, width, height),
        VideoFormat::I420 => copy_i420(bytes, width, height),
        VideoFormat::Nv12 => nv12_to_i420(bytes, stride, stride, width, height),
        VideoFormat::Other => None,
    }
}

/// The frame of a luma part and a part of `U V` pairs.
pub open spec fn two_part_spec(width: u32, height: u32, parts: Seq<Chunk>) -> Option<Seq<u8>> {
    match (chunk_bytes(parts[0]), chunk_bytes(parts[1])) {
        (Some(y), Some(uv)) => nv12_frame(
            y + uv,
            stride_spec(parts[0].stride, width as usize) as int,
            stride_spec(parts[1].stride, width as usize) as int,
            width,
            height,
        ),
        _ => None,
    }
}

fn two_part_i420(width: u32, height: u32, parts: &Vec<Chunk>) -> (r: Option<Vec<u8>>)
    requires
        parts@.len() >= 2,
    ensures
        opt_bytes(r) == two_part_spec(width, height, parts@),
{
    let y = match owned_plane(&parts[0], width as usize) {
        Some(p) => p,
        None => {
            return None;
        },
    };
    let uv = match owned_plane(&parts[1], width as usize) {
        Some(p) => p,
        None => {
            return None;
        },
    };
    let mut packed: Vec<u8> = Vec::new();
    put_all(&mut packed, y.bytes.as_slice());
    put_all(&mut packed, uv.bytes.as_slice());
    assert(packed@ =~= y.bytes@ + uv.bytes@);
    nv12_to_i420(packed.as_slice(), y.stride, uv.stride, width, height)
}

/// The picture in a buffer of a stream, where there is one.
pub open spec fn buffer_frame(format: VideoFormat, w: u32, h: u32, parts: Seq<Chunk>) -> Option<
    Seq<u8>,
> {
    if w < 2 || h < 2 || parts.len() == 0 {
        None
    } else if format == VideoFormat::I420 && parts.len() >= 3 {
        planar_spec(w, h, parts)
    } else if format == VideoFormat::Nv12 && parts.len() >= 2 {
        two_part_spec(w, h, parts)
    } else {
        match chunk_bytes(parts[0]) {
            Some(data) => converted(
                format,
                data,
                stride_spec(parts[0].stride, packed_stride(format, w) as usize) as int,
                w,
                h,
            ),
            None => None,
        }
    }
}

/// The frame of a display from a buffer of its stream. The sides of the frame are
/// even.
pub fn frame_from_buffer(
    display_id: u32,
    format: VideoFormat,
    size: (u32, u32),
    parts: &Vec<Chunk>,
) -> (r: Option<RawFrame>)
    requires
        size.0 * 4 <= usize::MAX,
    ensures
        ({
            let w = evened(size.0 as int) as u32;
            let h = evened(size.1 as int) as u32;
            match buffer_frame(format, w, h, parts@) {
                Some(i420) => r matches Some(f) && f@ == (FrameView {
                    display_id,
                    width: w,
                    height: h,
                    i420,
                }),
                None => r is None,
            }
        }),
{
    let width: u32 = even(size.0);
    let height: u32 = even(size.1);
    if width < 2 || height < 2 || parts.len() == 0 {
        return None;
    }
    let picture = if format == VideoFormat::I420 && parts.len() >= 3 {
        planar_i420(width, height, parts)
    } else if format == VideoFormat::Nv12 && parts.len() >= 2 {
        two_part_i420(width, height, parts)
    } else {
        match owned_plane(&parts[0], default_stride(format, width)) {
            Some(p) => convert_packed(format, p.bytes.as_slice(), p.stride, width, height),
            None => None,
        }
    };
    match picture {
        Some(i420) => Some(RawFrame { display_id, width, height, i420 }),
        None => None,
    }
}

/// A frame of a stream has the size of an I420 frame with its sides, which is
/// what an encoder takes.
pub proof fn frames_have_their_size(format: VideoFormat, w: u32, h: u32, parts: Seq<Chunk>)
    requires
        w % 2 == 0,
        h % 2 == 0,
    ensures
        buffer_frame(format, w, h, parts) matches Some(f) ==> f.len() == i420_len(
            w as int,
            h as int,
        ),
{
    assert forall|at: spec_fn(int, int) -> (u8, u8, u8)| (#[trigger] i420(w as int, h as int, at)).len()
        == i420_len(w as int, h as int) by {
        i420_has_its_size(w as int, h as int, at);
    }
}

/// Whether a side is the largest even number up to another one, or 2 where that is less.
pub open spec fn is_even_side(side: u32, of: i32) -> bool {
    side % 2 == 0 && side >= 2 && if of < 3 {
        side == 2
    } else {
        of - 1 <= side <= of
    }
}

/// Each stream becomes the display of its place in the list: as wide and high as the
/// stream, where the stream is, and otherwise at the top, right of the display before it.
pub proof fn streams_become_their_displays(streams: Seq<StreamInfo>, i: int)
    requires
        0 <= i < streams.len() <= u32::MAX,
    ensures
        ({
            let all = stream_displays(streams).0;
            let d = all[i];
            &&& all.len() == streams.len()
            &&& d.id == i && d.scale_percent == 100
            &&& streams[i].size matches Some(size) ==> is_even_side(d.width, size.0)
                && is_even_side(d.height, size.1)
            &&& streams[i].size is None ==> d.width == 1280 && d.height == 720
            &&& streams[i].position matches Some(at) ==> d.x == at.0 && d.y == at.1
            &&& streams[i].position is None ==> d.y == 0 && if i == 0 {
                d.x == 0
            } else if all[i - 1].x + all[i - 1].width <= 0x7fff_ffff {
                d.x == all[i - 1].x + all[i - 1].width
            } else {
                d.x == 0x7fff_ffff
            }
            &&& d.name == match streams[i].id {
                Some(id) if id@.len() > 0 => id@,
                _ => "monitor"@,
            }
        }),
    decreases streams.len(),
{
    let before = streams.drop_last();
    if i < before.len() {
        streams_become_their_displays(before, i);
        assert(stream_displays(streams).0[i] == stream_displays(before).0[i]);
        if i > 0 {
            assert(stream_displays(streams).0[i - 1] == stream_displays(before).0[i - 1]);
        }
        assert(before[i] == streams[i]);
        assert(stream_displays(streams).0.len() == stream_displays(before).0.len() + 1);
    } else {
        if before.len() > 0 {
            streams_become_their_displays(before, i - 1);
            let earlier = before.drop_last();
            assert(stream_displays(before).1 == stream_display(
                before.last(),
                before.len() - 1,
                stream_displays(earlier).1,
            ).1);
        } else {
            assert(stream_displays(before).0.len() == 0 && stream_displays(before).1 == 0);
        }
    }
}

/// The data of a part are the bytes that its range names. A range that is empty or ends
/// outside of the memory stands for all of it, and memory that is missing or empty for
/// nothing.
pub proof fn parts_are_their_ranges(c: Chunk, k: int)
    ensures
        c.data is None ==> chunk_bytes(c) is None,
        c.data matches Some(raw) ==> {
            &&& raw@.len() == 0 ==> chunk_bytes(c) is None
            &&& c.size > 0 && c.offset + c.size <= raw@.len() ==> (chunk_bytes(c) matches Some(d)
                && d.len() == c.size && (0 <= k < c.size ==> d[k] == raw@[c.offset + k]))
            &&& raw@.len() > 0 && (c.size == 0 || c.offset + c.size > raw@.len()) ==> chunk_bytes(c)
                == Some(raw@)
        },
{
}

/// A stride that is no length, which is 0 or less, gives way to the other one.
pub proof fn strides_are_lengths(stride: i32, fallback: usize)
    ensures
        stride > 0 ==> stride_spec(stride, fallback) == stride,
        stride <= 0 ==> stride_spec(stride, fallback) == fallback,
{
}

/// The rows of a plane that has them all: each is as many bytes as it is wide, from where
/// it starts.
pub proof fn planes_by_bytes(src: Seq<u8>, stride: int, width: int, rows: nat, row: int, col: int)
    requires
        0 <= stride,
        0 <= row < rows,
        0 <= col < width,
        (rows - 1) * stride + width <= src.len(),
    ensures
        plane_rows(src, stride, width, rows).len() == rows * width,
        plane_rows(src, stride, width, rows)[row * width + col] == src[row * stride + col],
    decreases rows,
{
    let fewer = (rows - 1) as nat;
    assert(fewer * width + width == rows * width) by (nonlinear_arith)
        requires
            fewer == rows - 1,
    ;
    assert(0 <= fewer * stride) by (nonlinear_arith)
        requires
            0 <= stride,
            0 <= fewer,
    ;
    if rows == 1 {
        assert(plane_rows(src, stride, width, 0).len() == 0);
        assert(0 * width == 0 && 0 * stride == 0);
        assert(1 * width == width);
    } else {
        assert((fewer - 1) * stride + stride == fewer * stride) by (nonlinear_arith);
        planes_by_bytes(
            src,
            stride,
            width,
            fewer,
            if row < fewer {
                row
            } else {
                0
            },
            col,
        );
    }
    if row < fewer {
        assert(row * width + col < fewer * width && row * width >= 0) by (nonlinear_arith)
            requires
                0 <= row <= fewer - 1,
                0 <= col < width,
        ;
    }
}

/// The frame of three planes, byte for byte: the rows of the first, then those of the
/// second and those of the third, which have half as many of half the width.
pub proof fn planar_frame_by_bytes(
    width: u32,
    height: u32,
    y: Seq<u8>,
    y_stride: int,
    u: Seq<u8>,
    u_stride: int,
    v: Seq<u8>,
    v_stride: int,
    row: int,
    col: int,
)
    requires
        width % 2 == 0,
        height % 2 == 0,
        0 <= row < height,
        0 <= col < width,
        0 <= y_stride,
        0 <= u_stride,
        0 <= v_stride,
        (height - 1) * y_stride + width <= y.len(),
        (height as int / 2 - 1) * u_stride + width as int / 2 <= u.len(),
        (height as int / 2 - 1) * v_stride + width as int / 2 <= v.len(),
    ensures
        ({
            let w = width as int;
            let h = height as int;
            let c = w * h + (row / 2) * (w / 2) + col / 2;
            &&& planar_frame(width, height, y, y_stride, u, u_stride, v, v_stride) matches Some(f)
            &&& f.len() == w * h + 2 * ((w / 2) * (h / 2))
            &&& f[row * w + col] == y[row * y_stride + col]
            &&& f[c] == u[(row / 2) * u_stride + col / 2]
            &&& f[c + (w / 2) * (h / 2)] == v[(row / 2) * v_stride + col / 2]
        }),
{
    let w = width as int;
    let h = height as int;
    let cw = w / 2;
    let ch = h / 2;
    planes_by_bytes(y, y_stride, w, h as nat, row, col);
    planes_by_bytes(u, u_stride, cw, ch as nat, row / 2, col / 2);
    planes_by_bytes(v, v_stride, cw, ch as nat, row / 2, col / 2);
    let a = plane_rows(y, y_stride, w, h as nat);
    let b = plane_rows(u, u_stride, cw, ch as nat);
    let c = plane_rows(v, v_stride, cw, ch as nat);
    assert(h * w == w * h && ch * cw == cw * ch) by (nonlinear_arith);
    assert(0 <= row * w && row * w + col < h * w) by (nonlinear_arith)
        requires
            0 <= row <= h - 1,
            0 <= col < w,
    ;
    let r2 = row / 2;
    let c2 = col / 2;
    assert(0 <= r2 * cw && r2 * cw + c2 < ch * cw) by (nonlinear_arith)
        requires
            0 <= r2 <= ch - 1,
            0 <= c2 < cw,
    ;
}

/// Whether the first byte of a pixel of a stream is its blue, and the third its red.
pub open spec fn stream_is_blue_first(format: VideoFormat) -> bool {
    format is Bgr || format is Bgra || format is Bgrx
}

/// How far apart the pixels of a stream are, where it has whole pixels.
pub open spec fn stream_step(format: VideoFormat) -> int {
    if format is Rgb || format is Bgr {
        3
    } else {
        4
    }
}

/// Whether a stream has whole pixels, of red, green and blue.
pub open spec fn has_pixels(format: VideoFormat) -> bool {
    format is Rgb || format is Rgba || format is Rgbx || format is Bgr || format is Bgra
        || format is Bgrx
}

/// The frame of a stream of whole pixels, byte for byte, where its buffer holds nothing but
/// the rows of one part. The rows are a stride apart, or directly behind one another where
/// the part has none.
pub proof fn stream_pixels_by_bytes(
    format: VideoFormat,
    width: u32,
    height: u32,
    parts: Seq<Chunk>,
    row: int,
    col: int,
)
    requires
        has_pixels(format),
        width % 2 == 0,
        height % 2 == 0,
        width * 4 <= usize::MAX,
        0 <= row < height,
        0 <= col < width,
        parts.len() > 0,
    ensures
        chunk_bytes(parts[0]) is None ==> buffer_frame(format, width, height, parts) is None,
        chunk_bytes(parts[0]) matches Some(src) ==> {
            let w = width as int;
            let h = height as int;
            let step = stream_step(format);
            let stride = if parts[0].stride > 0 {
                parts[0].stride as int
            } else {
                w * step
            };
            let c = w * h + (row / 2) * (w / 2) + col / 2;
            let p = row * stride + col * step;
            let q = row / 2 * 2 * stride + col / 2 * 2 * step;
            let r = buffer_frame(format, width, height, parts);
            &&& r is Some <==> w * step <= stride && stride * h <= src.len()
            &&& r matches Some(f) ==> if stream_is_blue_first(format) {
                &&& f[row * w + col] == (66 * src[p + 2] + 129 * src[p + 1] + 25 * src[p] + 128)
                    / 256 + 16
                &&& f[c] == (112 * src[q] - 74 * src[q + 1] - 38 * src[q + 2] + 128) / 256 + 128
                &&& f[c + (w / 2) * (h / 2)] == (112 * src[q + 2] - 94 * src[q + 1] - 18 * src[q]
                    + 128) / 256 + 128
            } else {
                &&& f[row * w + col] == (66 * src[p] + 129 * src[p + 1] + 25 * src[p + 2] + 128)
                    / 256 + 16
                &&& f[c] == (112 * src[q + 2] - 74 * src[q + 1] - 38 * src[q] + 128) / 256 + 128
                &&& f[c + (w / 2) * (h / 2)] == (112 * src[q] - 94 * src[q + 1] - 18 * src[q + 2]
                    + 128) / 256 + 128
            }
        },
{
    let order = match format {
        VideoFormat::Rgb => PixelOrder::Rgb,
        VideoFormat::Rgba => PixelOrder::Rgba,
        VideoFormat::Rgbx => PixelOrder::Rgbx,
        VideoFormat::Bgr => PixelOrder::Bgr,
        VideoFormat::Bgra => PixelOrder::Bgra,
        _ => PixelOrder::Bgrx,
    };
    assert(width as int / 2 * 2 == width);
    assert(height as int / 2 * 2 == height);
    if let Some(src) = chunk_bytes(parts[0]) {
        let stride = stride_spec(parts[0].stride, packed_stride(format, width) as usize) as int;
        packed_frame_by_bytes(src, stride, width, height, order, row, col);
        assert(buffer_frame(format, width, height, parts) == packed_frame(
            src,
            stride,
            width,
            height,
            order,
        ));
    }
}

/// The frame of a stream of pairs of pixels, or of planes in one part or in two, byte for
/// byte.
pub proof fn stream_planes_by_bytes(
    width: u32,
    height: u32,
    parts: Seq<Chunk>,
    row: int,
    col: int,
)
    requires
        width % 2 == 0,
        height % 2 == 0,
        width * 4 <= usize::MAX,
        0 <= row < height,
        0 <= col < width,
        parts.len() > 0,
    ensures
        chunk_bytes(parts[0]) matches Some(src) ==> {
            let w = width as int;
            let h = height as int;
            let c = w * h + (row / 2) * (w / 2) + col / 2;
            let d = c + (w / 2) * (h / 2);
            let need = w * h + 2 * ((w / 2) * (h / 2));
            let stride = if parts[0].stride > 0 {
                parts[0].stride as int
            } else {
                w
            };
            &&& buffer_frame(VideoFormat::Yuy2, width, height, parts) matches Some(f) ==> {
                let gap = if parts[0].stride > 0 {
                    parts[0].stride as int
                } else {
                    2 * w
                };
                &&& f[row * w + col] == src[row * gap + 2 * col]
                &&& f[c] == src[row / 2 * 2 * gap + 4 * (col / 2) + 1]
                &&& f[d] == src[row / 2 * 2 * gap + 4 * (col / 2) + 3]
            }
            &&& parts.len() < 3 ==> buffer_frame(VideoFormat::I420, width, height, parts) == if need
                <= src.len() {
                Some(src.take(need))
            } else {
                None
            }
            &&& parts.len() < 2 ==> (buffer_frame(VideoFormat::Nv12, width, height, parts) matches Some(
                f,
            ) ==> {
                let q = stride * h + (row / 2) * stride + col / 2 * 2;
                &&& f[row * w + col] == src[row * stride + col]
                &&& f[c] == src[q]
                &&& f[d] == src[q + 1]
            })
            &&& buffer_frame(VideoFormat::Other, width, height, parts) is None
        },
{
    assert(width as int / 2 * 2 == width);
    assert(height as int / 2 * 2 == height);
    if let Some(src) = chunk_bytes(parts[0]) {
        let yuy2 = stride_spec(
            parts[0].stride,
            packed_stride(VideoFormat::Yuy2, width) as usize,
        ) as int;
        let nv12 = stride_spec(
            parts[0].stride,
            packed_stride(VideoFormat::Nv12, width) as usize,
        ) as int;
        yuy2_frame_by_bytes(src, yuy2, width, height, row, col / 2);
        nv12_frame_by_bytes(src, nv12, nv12, width, height, row, col);
        front_frame_by_bytes(src, width, height);
    }
}

/// The frame of a stream with a luma part and a part of pairs, byte for byte, where the
/// luma part holds its rows and nothing behind them.
pub proof fn two_parts_by_bytes(width: u32, height: u32, parts: Seq<Chunk>, row: int, col: int)
    requires
        width % 2 == 0,
        height % 2 == 0,
        0 <= row < height,
        0 <= col < width,
        parts.len() >= 2,
    ensures
        chunk_bytes(parts[0]) is None || chunk_bytes(parts[1]) is None ==> buffer_frame(
            VideoFormat::Nv12,
            width,
            height,
            parts,
        ) is None,
        chunk_bytes(parts[0]) matches Some(y) ==> (chunk_bytes(parts[1]) matches Some(uv) ==> {
            let w = width as int;
            let h = height as int;
            let c = w * h + (row / 2) * (w / 2) + col / 2;
            let gap = if parts[0].stride > 0 {
                parts[0].stride as int
            } else {
                w
            };
            let uv_gap = if parts[1].stride > 0 {
                parts[1].stride as int
            } else {
                w
            };
            y.len() == gap * h ==> (buffer_frame(VideoFormat::Nv12, width, height, parts) matches Some(
                f,
            ) ==> {
                &&& f[row * w + col] == y[row * gap + col]
                &&& f[c] == uv[(row / 2) * uv_gap + col / 2 * 2]
                &&& f[c + (w / 2) * (h / 2)] == uv[(row / 2) * uv_gap + col / 2 * 2 + 1]
            })
        }),
{
    assert(width as int / 2 * 2 == width);
    assert(height as int / 2 * 2 == height);
    if chunk_bytes(parts[0]) is Some && chunk_bytes(parts[1]) is Some {
        let y = chunk_bytes(parts[0])->0;
        let uv = chunk_bytes(parts[1])->0;
        let w = width as int;
        let h = height as int;
        let gap = stride_spec(parts[0].stride, width as usize) as int;
        let uv_gap = stride_spec(parts[1].stride, width as usize) as int;
        nv12_frame_by_bytes(y + uv, gap, uv_gap, width, height, row, col);
        if y.len() == gap * h && nv12_frame(y + uv, gap, uv_gap, width, height) is Some {
            assert(0 <= row * gap && row * gap + col < gap * h) by (nonlinear_arith)
                requires
                    0 <= row <= h - 1,
                    0 <= col < w,
                    w <= gap,
            ;
            let r = row / 2;
            let e = col / 2 * 2;
            assert(0 <= r * uv_gap && r * uv_gap + e + 1 < uv_gap * (h / 2)) by (nonlinear_arith)
                requires
                    0 <= r <= h / 2 - 1,
                    0 <= e,
                    e + 1 < w,
                    w <= uv_gap,
            ;
        }
    }
}

/// The frame of a stream of three parts is that of its planes, the first of them the luma,
/// each with the stride of its part, or as far apart as its rows are long.
pub proof fn three_parts_are_planes(width: u32, height: u32, parts: Seq<Chunk>)
    requires
        width >= 2,
        height >= 2,
        parts.len() >= 3,
    ensures
        chunk_bytes(parts[0]) is None || chunk_bytes(parts[1]) is None || chunk_bytes(
            parts[2],
        ) is None ==> buffer_frame(VideoFormat::I420, width, height, parts) is None,
        chunk_bytes(parts[0]) is Some && chunk_bytes(parts[1]) is Some && chunk_bytes(
            parts[2],
        ) is Some ==> {
            let gap = |k: int, row: int|
                if parts[k].stride > 0 {
                    parts[k].stride as int
                } else {
                    row
                };
            buffer_frame(VideoFormat::I420, width, height, parts) == planar_frame(
                width,
                height,
                chunk_bytes(parts[0])->0,
                gap(0, width as int),
                chunk_bytes(parts[1])->0,
                gap(1, width as int / 2),
                chunk_bytes(parts[2])->0,
                gap(2, width as int / 2),
            )
        },
{
}

/// Rows that are packed are as far apart as they are long: three or four bytes for each
/// pixel, two for each where two pixels share their colour, and one in a plane.
pub proof fn packed_rows_are_as_long(format: VideoFormat, width: u32)
    ensures
        has_pixels(format) ==> packed_stride(format, width) == width * stream_step(format),
        packed_stride(VideoFormat::Yuy2, width) == 2 * width,
        packed_stride(VideoFormat::I420, width) == width,
        packed_stride(VideoFormat::Nv12, width) == width,
{
}

} // verus!
