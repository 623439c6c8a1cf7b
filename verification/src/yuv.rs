//! Pixel formats to I420, in limited-range BT.601.
//!
//! An I420 frame is the luma of every pixel, then one `u` and then one `v`
//! sample for every block of two by two pixels, taken from its top left pixel.
//! Frames have even sides: an odd last row or column is dropped.

use vstd::prelude::*;
use vstd::arithmetic::div_mod::*;
use vstd::arithmetic::mul::*;
use vstd::slice::*;

verus! {

/// The order of the channels of a packed pixel.
#[derive(Debug, Clone, Copy, PartialEq, Eq, Structural)]
pub enum PixelOrder {
    Rgb,
    Bgr,
    Rgba,
    Bgra,
    Rgbx,
    Bgrx,
}

/// The bytes of one packed pixel.
pub open spec fn pixel_bytes(order: PixelOrder) -> nat {
    match order {
        PixelOrder::Rgb | PixelOrder::Bgr => 3,
        _ => 4,
    }
}

/// Red, green and blue of the pixel at `at`.
pub open spec fn rgb_at(src: Seq<u8>, at: int, order: PixelOrder) -> (u8, u8, u8) {
    match order {
        PixelOrder::Rgb | PixelOrder::Rgba | PixelOrder::Rgbx => (src[at], src[at + 1], src[at + 2]),
        PixelOrder::Bgr | PixelOrder::Bgra | PixelOrder::Bgrx => (src[at + 2], src[at + 1], src[at]),
    }
}

pub open spec fn clamp_byte(v: int) -> u8 {
    if v < 0 {
        0
    } else if v > 255 {
        255
    } else {
        v as u8
    }
}

/// The luma of a colour.
pub open spec fn luma(r: u8, g: u8, b: u8) -> u8 {
    clamp_byte((66 * r + 129 * g + 25 * b + 128) / 256 + 16)
}

/// The blue difference of a colour.
pub open spec fn blue_diff(r: u8, g: u8, b: u8) -> u8 {
    clamp_byte((-38 * r - 74 * g + 112 * b + 128) / 256 + 128)
}

/// The red difference of a colour.
pub open spec fn red_diff(r: u8, g: u8, b: u8) -> u8 {
    clamp_byte((112 * r - 94 * g - 18 * b + 128) / 256 + 128)
}

pub open spec fn yuv_of(rgb: (u8, u8, u8)) -> (u8, u8, u8) {
    (luma(rgb.0, rgb.1, rgb.2), blue_diff(rgb.0, rgb.1, rgb.2), red_diff(rgb.0, rgb.1, rgb.2))
}

pub open spec fn evened(v: int) -> int {
    v - v % 2
}

/// The bytes of an I420 frame.
pub open spec fn i420_len(w: int, h: int) -> int {
    w * h + 2 * ((w / 2) * (h / 2))
}

/// One byte for every place of a grid, row after row.
pub open spec fn plane(cols: int, rows: int, f: spec_fn(int, int) -> u8) -> Seq<u8> {
    Seq::new((cols * rows) as nat, |i: int| f(i / cols, i % cols))
}

/// The I420 frame of a picture whose samples `at` gives by row and column.
pub open spec fn i420(w: int, h: int, at: spec_fn(int, int) -> (u8, u8, u8)) -> Seq<u8> {
    plane(w, h, |row: int, col: int| at(row, col).0) + plane(
        w / 2,
        h / 2,
        |row: int, col: int| at(2 * row, 2 * col).1,
    ) + plane(w / 2, h / 2, |row: int, col: int| at(2 * row, 2 * col).2)
}

/// A sample of packed pixels.
pub open spec fn packed_at(src: Seq<u8>, stride: int, order: PixelOrder) -> spec_fn(int, int) -> (
    u8,
    u8,
    u8,
) {
    |row: int, col: int| yuv_of(rgb_at(src, row * stride + col * pixel_bytes(order), order))
}

/// A sample of `Y0 U Y1 V` pairs.
pub open spec fn yuy2_at(src: Seq<u8>, stride: int) -> spec_fn(int, int) -> (u8, u8, u8) {
    |row: int, col: int|
        {
            let o = row * stride + (col / 2) * 4;
            (src[o + 2 * (col % 2)], src[o + 1], src[o + 3])
        }
}

/// A sample of a luma plane of `h` rows with a plane of `U V` pairs behind it.
pub open spec fn nv12_at(src: Seq<u8>, y_stride: int, uv_stride: int, h: int) -> spec_fn(
    int,
    int,
) -> (u8, u8, u8) {
    |row: int, col: int|
        {
            let o = y_stride * h + (row / 2) * uv_stride + (col / 2) * 2;
            (src[row * y_stride + col], src[o], src[o + 1])
        }
}

/// How many bytes an I420 frame takes.
pub fn i420_size(width: u32, height: u32) -> (r: usize)
    requires
        i420_len(width as int, height as int) <= usize::MAX,
    ensures
        r == i420_len(width as int, height as int),
{
    let w: u128 = width as u128;
    let h: u128 = height as u128;
    (product(w, h) + 2 * product(w / 2, h / 2)) as usize
}

/// Two sides multiplied.
pub(crate) fn product(a: u128, b: u128) -> (r: u128)
    requires
        a <= 0xffff_ffff_ffff_ffff,
        b <= 0xffff_ffff,
    ensures
        r == a * b,
        r <= 0xffff_ffff_0000_0000_0000_0000,
{
    proof {
        assert(a * b <= 0xffff_ffff_ffff_ffff * 0xffff_ffff) by (nonlinear_arith)
            requires
                a <= 0xffff_ffff_ffff_ffff,
                b <= 0xffff_ffff,
        ;
        assert(0 <= a * b) by (nonlinear_arith)
            requires
                0 <= a,
                0 <= b,
        ;
    }
    a * b
}

/// The side without its odd last pixel.
pub fn even(value: u32) -> (r: u32)
    ensures
        r == evened(value as int),
{
    value - value % 2
}

impl PixelOrder {
    pub fn bytes_per_pixel(self) -> (r: usize)
        ensures
            r == pixel_bytes(self),
    {
        match self {
            PixelOrder::Rgb | PixelOrder::Bgr => 3,
            PixelOrder::Rgba | PixelOrder::Bgra | PixelOrder::Rgbx | PixelOrder::Bgrx => 4,
        }
    }

    fn rgb(self, px: &[u8], at: usize) -> (r: (u8, u8, u8))
        requires
            at + 3 <= px@.len(),
        ensures
            r == rgb_at(px@, at as int, self),
    {
        assert(at + 3 <= px.len());
        match self {
            PixelOrder::Rgb | PixelOrder::Rgba | PixelOrder::Rgbx => (px[at], px[at + 1], px[at + 2]),
            PixelOrder::Bgr | PixelOrder::Bgra | PixelOrder::Bgrx => (px[at + 2], px[at + 1], px[at]),
        }
    }
}

pub fn rgb_to_yuv(r: u8, g: u8, b: u8) -> (out: (u8, u8, u8))
    ensures
        out == yuv_of((r, g, b)),
{
    let r: u32 = r as u32;
    let g: u32 = g as u32;
    let b: u32 = b as u32;
    let y: u32 = (66 * r + 129 * g + 25 * b + 128) / 256 + 16;
    let u: u32 = (112 * b + 32896 - 38 * r - 74 * g) / 256;
    let v: u32 = (112 * r + 32896 - 94 * g - 18 * b) / 256;
    (y as u8, u as u8, v as u8)
}

/// Luma is in `16..=235`, and the differences in `16..=240`, for every colour.
pub proof fn limited_range(r: u8, g: u8, b: u8)
    ensures
        16 <= luma(r, g, b) <= 235,
        16 <= blue_diff(r, g, b) <= 240,
        16 <= red_diff(r, g, b) <= 240,
{
}

/// A picture in one of the formats.
enum Source<'a> {
    Packed { src: &'a [u8], stride: usize, order: PixelOrder },
    Yuy2 { src: &'a [u8], stride: usize },
    Nv12 { src: &'a [u8], y_stride: usize, uv_stride: usize, h: usize },
}

impl<'a> Source<'a> {
    spec fn samples(self) -> spec_fn(int, int) -> (u8, u8, u8) {
        match self {
            Source::Packed { src, stride, order } => packed_at(src@, stride as int, order),
            Source::Yuy2 { src, stride } => yuy2_at(src@, stride as int),
            Source::Nv12 { src, y_stride, uv_stride, h } => nv12_at(
                src@,
                y_stride as int,
                uv_stride as int,
                h as int,
            ),
        }
    }

    /// Every sample of a picture of this size is there.
    spec fn holds(self, w: int, h: int) -> bool {
        &&& w > 0 && h > 0 && w % 2 == 0 && h % 2 == 0
        &&& match self {
            Source::Packed { src, stride, order } => {
                &&& w * pixel_bytes(order) <= stride
                &&& stride * h <= src@.len()
            },
            Source::Yuy2 { src, stride } => w * 2 <= stride && stride * h <= src@.len(),
            Source::Nv12 { src, y_stride, uv_stride, h: rows } => {
                &&& rows == h
                &&& w <= y_stride
                &&& w <= uv_stride
                &&& y_stride * h + uv_stride * (h / 2) <= src@.len()
            },
        }
    }

    fn sample(&self, row: usize, col: usize, w: usize, h: usize) -> (r: (u8, u8, u8))
        requires
            self.holds(w as int, h as int),
            row < h,
            col < w,
        ensures
            r == self.samples()(row as int, col as int),
    {
        match self {
            Source::Packed { src, stride, order } => {
                let bpp: usize = order.bytes_per_pixel();
                proof {
                    in_row(row as int, col as int, w as int, h as int, *stride as int, bpp as int);
                    assert(src@.len() == src.len());
                }
                let at: usize = row * *stride + col * bpp;
                let (r, g, b) = order.rgb(src, at);
                rgb_to_yuv(r, g, b)
            },
            Source::Yuy2 { src, stride } => {
                proof {
                    in_row(
                        row as int,
                        col as int / 2,
                        w as int / 2,
                        h as int,
                        *stride as int,
                        4,
                    );
                    assert(src@.len() == src.len());
                }
                let o: usize = row * *stride + (col / 2) * 4;
                (src[o + 2 * (col % 2)], src[o + 1], src[o + 3])
            },
            Source::Nv12 { src, y_stride, uv_stride, h: rows } => {
                proof {
                    in_row(row as int, col as int, w as int, h as int, *y_stride as int, 1);
                    in_row(
                        row as int / 2,
                        col as int / 2,
                        w as int / 2,
                        h as int / 2,
                        *uv_stride as int,
                        2,
                    );
                    assert(src@.len() == src.len());
                    lemma_mul_nonnegative(*uv_stride as int, h as int / 2);
                    lemma_mul_nonnegative(*y_stride as int, h as int);
                }
                let o: usize = *y_stride * *rows + (row / 2) * *uv_stride + (col / 2) * 2;
                (src[row * *y_stride + col], src[o], src[o + 1])
            },
        }
    }
}

/// The bytes of a pixel are in its row, and the row is in the plane.
proof fn in_row(row: int, col: int, w: int, h: int, stride: int, bpp: int)
    requires
        0 <= row < h,
        0 <= col < w,
        w * bpp <= stride,
        0 < bpp,
    ensures
        0 <= row * stride,
        0 <= col * bpp,
        row * stride + col * bpp + bpp <= stride * h,
{
    assert(col * bpp + bpp <= w * bpp) by (nonlinear_arith)
        requires
            col + 1 <= w,
            0 < bpp,
    ;
    assert(0 <= col * bpp) by (nonlinear_arith)
        requires
            0 <= col,
            0 < bpp,
    ;
    assert(row * stride + stride <= stride * h) by (nonlinear_arith)
        requires
            row + 1 <= h,
            0 <= stride,
    ;
    assert(0 <= row * stride) by (nonlinear_arith)
        requires
            0 <= row,
            0 <= stride,
    ;
}

/// Row and column of the sample at `row * w + col`.
pub proof fn place(row: int, col: int, w: int)
    requires
        0 <= row,
        0 <= col < w,
    ensures
        (row * w + col) / w == row,
        (row * w + col) % w == col,
{
    lemma_fundamental_div_mod_converse(row * w + col, w, row, col);
}

/// The position of a sample is inside its plane.
pub proof fn place_in(row: int, col: int, w: int, h: int)
    requires
        0 <= row < h,
        0 <= col < w,
    ensures
        0 <= row * w + col < w * h,
        0 <= row * w,
        row * w + w <= w * h,
        row * w + w == (row + 1) * w,
{
    assert(row * w + w <= w * h) by (nonlinear_arith)
        requires
            row + 1 <= h,
            0 <= w,
    ;
    assert(0 <= row * w) by (nonlinear_arith)
        requires
            0 <= row,
            0 <= w,
    ;
    assert(row * w + w == (row + 1) * w) by (nonlinear_arith);
}

/// A channel of the samples.
#[derive(Clone, Copy, PartialEq, Eq, Structural)]
enum Channel {
    Luma,
    BlueDiff,
    RedDiff,
}

/// A channel as a plane of one byte for each pixel, or for each block.
spec fn channel_plane(at: spec_fn(int, int) -> (u8, u8, u8), channel: Channel) -> spec_fn(
    int,
    int,
) -> u8 {
    match channel {
        Channel::Luma => |row: int, col: int| at(row, col).0,
        Channel::BlueDiff => |row: int, col: int| at(2 * row, 2 * col).1,
        Channel::RedDiff => |row: int, col: int| at(2 * row, 2 * col).2,
    }
}

/// Adds the plane of a channel.
fn push_plane(dst: &mut Vec<u8>, source: &Source, w: usize, h: usize, channel: Channel)
    requires
        source.holds(w as int, h as int),
    ensures
        final(dst)@ == old(dst)@ + (if channel is Luma {
            plane(w as int, h as int, channel_plane(source.samples(), channel))
        } else {
            plane(w as int / 2, h as int / 2, channel_plane(source.samples(), channel))
        }),
{
    let cols: usize = if channel == Channel::Luma {
        w
    } else {
        w / 2
    };
    let rows: usize = if channel == Channel::Luma {
        h
    } else {
        h / 2
    };
    let ghost f = channel_plane(source.samples(), channel);
    let ghost whole = plane(cols as int, rows as int, f);
    let ghost before = dst@;
    proof {
        lemma_mul_nonnegative(cols as int, rows as int);
        lemma_mul_basics(cols as int);
        assert(before + whole.take(0) =~= before);
    }
    for row in 0..rows
        invariant
            source.holds(w as int, h as int),
            f == channel_plane(source.samples(), channel),
            whole == plane(cols as int, rows as int, f),
            cols == if channel is Luma {
                w
            } else {
                w / 2
            },
            rows == if channel is Luma {
                h
            } else {
                h / 2
            },
            0 <= row * cols <= cols * rows,
            dst@ == before + whole.take(row * cols),
    {
        proof {
            place_in(row as int, 0, cols as int, rows as int);
        }
        for col in 0..cols
            invariant
                source.holds(w as int, h as int),
                f == channel_plane(source.samples(), channel),
                whole == plane(cols as int, rows as int, f),
                cols == if channel is Luma {
                    w
                } else {
                    w / 2
                },
                rows == if channel is Luma {
                    h
                } else {
                    h / 2
                },
                row < rows,
                0 <= row * cols,
                row * cols + cols <= cols * rows,
                dst@ == before + whole.take(row * cols + col),
        {
            let ghost k = row * cols + col;
            proof {
                place(row as int, col as int, cols as int);
            }
            let (y, u, v) = if channel == Channel::Luma {
                source.sample(row, col, w, h)
            } else {
                source.sample(2 * row, 2 * col, w, h)
            };
            let b: u8 = match channel {
                Channel::Luma => y,
                Channel::BlueDiff => u,
                Channel::RedDiff => v,
            };
            dst.push(b);
            assert(whole[k] == b);
            assert(whole.take(k + 1) =~= whole.take(k).push(b));
            assert(dst@ =~= before + whole.take(k + 1));
        }
        proof {
            place_in(row as int, 0, cols as int, rows as int);
        }
    }
    assert(rows * cols == cols * rows) by (nonlinear_arith);
    assert(whole.take(rows * cols) =~= whole);
}

/// The three planes of a picture.
fn planes(source: &Source, w: usize, h: usize) -> (r: Vec<u8>)
    requires
        source.holds(w as int, h as int),
    ensures
        r@ == i420(w as int, h as int, source.samples()),
{
    let mut dst: Vec<u8> = Vec::new();
    push_plane(&mut dst, source, w, h, Channel::Luma);
    push_plane(&mut dst, source, w, h, Channel::BlueDiff);
    push_plane(&mut dst, source, w, h, Channel::RedDiff);
    assert(dst@ =~= i420(w as int, h as int, source.samples()));
    dst
}

/// Whether `rows` rows of `row` bytes, each `stride` bytes behind the one before
/// it, are in `len` bytes. A picture without pixels is in none.
pub open spec fn rows_fit(len: nat, stride: int, row: int, rows: int) -> bool {
    row > 0 && rows > 0 && row <= stride && stride * rows <= len
}

/// The bytes of a frame that may be missing.
pub open spec fn opt_bytes(r: Option<Vec<u8>>) -> Option<Seq<u8>> {
    match r {
        Some(v) => Some(v@),
        None => None,
    }
}

/// The frame of packed pixels. There is none where a side is under two pixels, a
/// row is longer than the stride, or rows are missing.
pub open spec fn packed_frame(
    src: Seq<u8>,
    stride: int,
    width: u32,
    height: u32,
    order: PixelOrder,
) -> Option<Seq<u8>> {
    let w = evened(width as int);
    let h = evened(height as int);
    if rows_fit(src.len(), stride, w * pixel_bytes(order), h) {
        Some(i420(w, h, packed_at(src, stride, order)))
    } else {
        None
    }
}

/// The frame of `Y0 U Y1 V` pairs, under the same conditions.
pub open spec fn yuy2_frame(src: Seq<u8>, stride: int, width: u32, height: u32) -> Option<Seq<u8>> {
    let w = evened(width as int);
    let h = evened(height as int);
    if rows_fit(src.len(), stride, w * 2, h) {
        Some(i420(w, h, yuy2_at(src, stride)))
    } else {
        None
    }
}

/// Whether a luma plane and a plane of `U V` pairs behind it are in `len` bytes.
pub open spec fn nv12_fits(len: nat, y_stride: int, uv_stride: int, w: int, h: int) -> bool {
    &&& w > 0 && h > 0
    &&& w <= y_stride
    &&& w <= uv_stride
    &&& y_stride * h + uv_stride * (h / 2) <= len
}

/// The frame of a luma plane and a plane of `U V` pairs.
pub open spec fn nv12_frame(
    src: Seq<u8>,
    y_stride: int,
    uv_stride: int,
    width: u32,
    height: u32,
) -> Option<Seq<u8>> {
    let w = evened(width as int);
    let h = evened(height as int);
    if nv12_fits(src.len(), y_stride, uv_stride, w, h) {
        Some(i420(w, h, nv12_at(src, y_stride, uv_stride, h)))
    } else {
        None
    }
}

/// The I420 frame at the front of some bytes, where all of it is there.
pub open spec fn front_frame(src: Seq<u8>, width: u32, height: u32) -> Option<Seq<u8>> {
    let w = evened(width as int);
    let h = evened(height as int);
    if w > 0 && h > 0 && i420_len(w, h) <= src.len() {
        Some(src.take(i420_len(w, h)))
    } else {
        None
    }
}

/// Packed pixels to I420.
pub fn packed_to_i420(
    src: &[u8],
    stride: usize,
    width: u32,
    height: u32,
    order: PixelOrder,
) -> (r: Option<Vec<u8>>)
    ensures
        opt_bytes(r) == packed_frame(src@, stride as int, width, height, order),
{
    let w: u32 = even(width);
    let h: u32 = even(height);
    if w == 0 || h == 0 {
        return None;
    }
    let bpp: usize = order.bytes_per_pixel();
    if (stride as u64) < w as u64 * bpp as u64 {
        return None;
    }
    if product(stride as u128, h as u128) > src.len() as u128 {
        return None;
    }
    proof {
        fits_usize(w as int, stride as int, h as int, src.len() as int, bpp as int);
    }
    Some(planes(&Source::Packed { src, stride, order }, w as usize, h as usize))
}

/// The sides of a picture that is in memory are machine integers.
proof fn fits_usize(w: int, stride: int, h: int, len: int, bpp: int)
    requires
        0 < w,
        0 < h,
        0 < bpp,
        w * bpp <= stride,
        stride * h <= len,
    ensures
        w <= len,
        h <= len,
{
    assert(w <= w * bpp) by (nonlinear_arith)
        requires
            0 < w,
            0 < bpp,
    ;
    assert(h <= stride * h && stride <= stride * h) by (nonlinear_arith)
        requires
            0 < stride,
            0 < h,
    ;
}

/// Packed `Y0 U Y1 V` pairs to I420.
pub fn yuy2_to_i420(src: &[u8], stride: usize, width: u32, height: u32) -> (r: Option<Vec<u8>>)
    ensures
        opt_bytes(r) == yuy2_frame(src@, stride as int, width, height),
{
    let w: u32 = even(width);
    let h: u32 = even(height);
    if w == 0 || h == 0 || (stride as u64) < w as u64 * 2 {
        return None;
    }
    if product(stride as u128, h as u128) > src.len() as u128 {
        return None;
    }
    proof {
        fits_usize(w as int, stride as int, h as int, src.len() as int, 2);
    }
    Some(planes(&Source::Yuy2 { src, stride }, w as usize, h as usize))
}

/// A luma plane and a plane of `U V` pairs to I420.
pub fn nv12_to_i420(
    src: &[u8],
    y_stride: usize,
    uv_stride: usize,
    width: u32,
    height: u32,
) -> (r: Option<Vec<u8>>)
    ensures
        opt_bytes(r) == nv12_frame(src@, y_stride as int, uv_stride as int, width, height),
{
    let w: u32 = even(width);
    let h: u32 = even(height);
    if w == 0 || h == 0 || (y_stride as u64) < w as u64 || (uv_stride as u64) < w as u64 {
        return None;
    }
    let y_bytes: u128 = product(y_stride as u128, h as u128);
    let uv_bytes: u128 = product(uv_stride as u128, (h / 2) as u128);
    if y_bytes + uv_bytes > src.len() as u128 {
        return None;
    }
    proof {
        fits_usize(w as int, y_stride as int, h as int, src.len() as int, 1);
    }
    let source = Source::Nv12 { src, y_stride, uv_stride, h: h as usize };
    Some(planes(&source, w as usize, h as usize))
}

/// The I420 frame at the front of some bytes.
pub fn copy_i420(src: &[u8], width: u32, height: u32) -> (r: Option<Vec<u8>>)
    ensures
        opt_bytes(r) == front_frame(src@, width, height),
{
    let w: u32 = even(width);
    let h: u32 = even(height);
    if w == 0 || h == 0 {
        return None;
    }
    let need: u128 = product(w as u128, h as u128) + 2 * product((w / 2) as u128, (h / 2) as u128);
    if need > src.len() as u128 {
        return None;
    }
    let frame = slice_to_vec(slice_subrange(src, 0, need as usize));
    assert(frame@ =~= src@.take(i420_len(w as int, h as int)));
    Some(frame)
}

/// An I420 frame has the size that its sides give.
pub proof fn i420_has_its_size(w: int, h: int, at: spec_fn(int, int) -> (u8, u8, u8))
    requires
        0 <= w,
        0 <= h,
    ensures
        i420(w, h, at).len() == i420_len(w, h),
{
    lemma_mul_nonnegative(w, h);
    lemma_mul_nonnegative(w / 2, h / 2);
}

// ---------------------------------------------------------------------------
// What a frame is
// ---------------------------------------------------------------------------

/// Where the samples of a picture are in its frame.
pub proof fn samples_of_frame(w: int, h: int, at: spec_fn(int, int) -> (u8, u8, u8), row: int, col: int)
    requires
        0 <= row < h,
        0 <= col < w,
        w % 2 == 0,
        h % 2 == 0,
    ensures
        ({
            let f = i420(w, h, at);
            let c = (row / 2) * (w / 2) + col / 2;
            &&& f.len() == w * h + 2 * ((w / 2) * (h / 2))
            &&& 0 <= row * w + col < w * h
            &&& 0 <= c < (w / 2) * (h / 2)
            &&& f[row * w + col] == at(row, col).0
            &&& f[w * h + c] == at(2 * (row / 2), 2 * (col / 2)).1
            &&& f[w * h + (w / 2) * (h / 2) + c] == at(2 * (row / 2), 2 * (col / 2)).2
        }),
{
    let r = row / 2;
    let k = col / 2;
    let c = r * (w / 2) + k;
    i420_has_its_size(w, h, at);
    place(row, col, w);
    place_in(row, col, w, h);
    place(r, k, w / 2);
    place_in(r, k, w / 2, h / 2);
    let ys = plane(w, h, |row: int, col: int| at(row, col).0);
    let us = plane(w / 2, h / 2, |row: int, col: int| at(2 * row, 2 * col).1);
    let vs = plane(w / 2, h / 2, |row: int, col: int| at(2 * row, 2 * col).2);
    assert(ys.len() == w * h);
    assert(us.len() == (w / 2) * (h / 2));
    assert(vs.len() == (w / 2) * (h / 2));
    assert(i420(w, h, at) == ys + us + vs);
    assert((ys + us + vs)[row * w + col] == ys[row * w + col]);
    assert((ys + us + vs)[w * h + c] == us[c]);
    assert((ys + us + vs)[w * h + (w / 2) * (h / 2) + c] == vs[c]);
}

/// A colour in limited-range BT.601: each sample is the weighted sum of red, green and
/// blue over 256, rounded, with its offset.
pub proof fn colour_is_bt601(r: u8, g: u8, b: u8)
    ensures
        yuv_of((r, g, b)).0 == (66 * r + 129 * g + 25 * b + 128) / 256 + 16,
        yuv_of((r, g, b)).1 == (112 * b - 74 * g - 38 * r + 128) / 256 + 128,
        yuv_of((r, g, b)).2 == (112 * r - 94 * g - 18 * b + 128) / 256 + 128,
{
}

/// A grey has no colour, and a lighter one has no less luma.
pub proof fn greys_have_no_colour(a: u8, b: u8)
    requires
        a <= b,
    ensures
        yuv_of((a, a, a)).1 == 128 && yuv_of((a, a, a)).2 == 128,
        yuv_of((a, a, a)).0 <= yuv_of((b, b, b)).0,
{
}

/// More red moves only the red difference up, and more blue only the blue one; luma
/// never falls with more of a colour, and green moves both differences down.
pub proof fn colours_move_their_samples(r: u8, g: u8, b: u8, more: u8)
    ensures
        more >= r ==> {
            &&& yuv_of((more, g, b)).0 >= yuv_of((r, g, b)).0
            &&& yuv_of((more, g, b)).1 <= yuv_of((r, g, b)).1
            &&& yuv_of((more, g, b)).2 >= yuv_of((r, g, b)).2
        },
        more >= g ==> {
            &&& yuv_of((r, more, b)).0 >= yuv_of((r, g, b)).0
            &&& yuv_of((r, more, b)).1 <= yuv_of((r, g, b)).1
            &&& yuv_of((r, more, b)).2 <= yuv_of((r, g, b)).2
        },
        more >= b ==> {
            &&& yuv_of((r, g, more)).0 >= yuv_of((r, g, b)).0
            &&& yuv_of((r, g, more)).1 >= yuv_of((r, g, b)).1
            &&& yuv_of((r, g, more)).2 <= yuv_of((r, g, b)).2
        },
{
}

/// Whether the first of a pixel's bytes is blue and the third red, and not the other
/// way round.
pub open spec fn blue_first(order: PixelOrder) -> bool {
    order is Bgr || order is Bgra || order is Bgrx
}

/// How many bytes lie from one pixel to the next: three colours, and a fourth byte
/// where the order has one.
pub open spec fn pixel_step(order: PixelOrder) -> int {
    if order is Rgb || order is Bgr {
        3
    } else {
        4
    }
}

/// The frame of packed pixels, byte for byte: the luma of each pixel, row after row,
/// and behind all of them the blue and then the red difference of the top left pixel
/// of each block of two by two, from the red, green and blue of the pixel.
pub proof fn packed_frame_by_bytes(
    src: Seq<u8>,
    stride: int,
    width: u32,
    height: u32,
    order: PixelOrder,
    row: int,
    col: int,
)
    requires
        0 <= row < height as int / 2 * 2,
        0 <= col < width as int / 2 * 2,
    ensures
        ({
            let w = width as int / 2 * 2;
            let h = height as int / 2 * 2;
            packed_frame(src, stride, width, height, order) is Some <==> w * pixel_step(order)
                <= stride && stride * h <= src.len()
        }),
        packed_frame(src, stride, width, height, order) matches Some(f) ==> {
            let w = width as int / 2 * 2;
            let h = height as int / 2 * 2;
            let c = w * h + (row / 2) * (w / 2) + col / 2;
            let p = row * stride + col * pixel_step(order);
            let q = row / 2 * 2 * stride + col / 2 * 2 * pixel_step(order);
            &&& f.len() == w * h + 2 * ((w / 2) * (h / 2))
            &&& if blue_first(order) {
                &&& f[row * w + col] == (66 * src[p + 2] + 129 * src[p + 1] + 25 * src[p] + 128)
                    / 256 + 16
                &&& f[c] == (112 * src[q] - 74 * src[q + 1] - 38 * src[q + 2] + 128) / 256 + 128
                &&& f[c + (w / 2) * (h / 2)] == (112 * src[q + 2] - 94 * src[q + 1] - 18 * src[q]
                    + 128) / 256 + 128
            } else {
                &&& f[row * w + col] == (66 * src[p] + 129 * src[p + 1] + 25 * src[p + 2] + 128)
                    / 256 + 16
                &&& f[c] == (112 * src[q + 2] - 74 * src[q + 1] - 38 * src[q] + 128) / 256 + 128
                &&& f[c + (w / 2) * (h / 2)] == (112 * src[q] - 94 * src[q + 1] - 18 * src[q + 2]
                    + 128) / 256 + 128
            }
        },
{
    let w = width as int / 2 * 2;
    let h = height as int / 2 * 2;
    let bpp = pixel_step(order);
    assert(evened(width as int) == w && evened(height as int) == h);
    assert(pixel_bytes(order) == bpp);
    assert(w * bpp > 0) by (nonlinear_arith)
        requires
            w > 0,
            bpp > 0,
    ;
    if packed_frame(src, stride, width, height, order) is Some {
        let at = packed_at(src, stride, order);
        samples_of_frame(w, h, at, row, col);
        let p = row * stride + col * bpp;
        let q = row / 2 * 2 * stride + col / 2 * 2 * bpp;
        assert(at(row, col) == yuv_of(rgb_at(src, p, order)));
        assert(2 * (row / 2) == row / 2 * 2 && 2 * (col / 2) == col / 2 * 2);
        assert(at(2 * (row / 2), 2 * (col / 2)) == yuv_of(rgb_at(src, q, order)));
        let (r, g, b) = rgb_at(src, p, order);
        let (r2, g2, b2) = rgb_at(src, q, order);
        colour_is_bt601(r, g, b);
        colour_is_bt601(r2, g2, b2);
    }
}

/// There is no frame of packed pixels where a side is under two pixels.
pub proof fn small_pictures_have_no_frame(
    src: Seq<u8>,
    stride: int,
    uv_stride: int,
    width: u32,
    height: u32,
    order: PixelOrder,
)
    requires
        width < 2 || height < 2,
    ensures
        packed_frame(src, stride, width, height, order) is None,
        yuy2_frame(src, stride, width, height) is None,
        nv12_frame(src, stride, uv_stride, width, height) is None,
        front_frame(src, width, height) is None,
{
    lemma_mul_basics(pixel_bytes(order) as int);
    assert(0int * pixel_bytes(order) == 0);
}

/// The order with the same bytes that has red and blue the other way round.
pub open spec fn reversed(order: PixelOrder) -> PixelOrder {
    match order {
        PixelOrder::Rgb => PixelOrder::Bgr,
        PixelOrder::Bgr => PixelOrder::Rgb,
        PixelOrder::Rgba => PixelOrder::Bgra,
        PixelOrder::Bgra => PixelOrder::Rgba,
        PixelOrder::Rgbx => PixelOrder::Bgrx,
        PixelOrder::Bgrx => PixelOrder::Rgbx,
    }
}

/// Bytes 0 and 2 of a pixel the other way round give the same colour in the order that
/// has red and blue the other way round.
pub proof fn reversed_pixels_have_the_same_colour(s: Seq<u8>, t: Seq<u8>, at: int, order: PixelOrder)
    requires
        0 <= at,
        at + 2 < s.len(),
        at + 2 < t.len(),
        s[at] == t[at + 2],
        s[at + 1] == t[at + 1],
        s[at + 2] == t[at],
    ensures
        rgb_at(s, at, order) == rgb_at(t, at, reversed(order)),
        pixel_bytes(order) == pixel_bytes(reversed(order)),
{
}

proof fn same_samples_same_frame(
    w: int,
    h: int,
    a: spec_fn(int, int) -> (u8, u8, u8),
    b: spec_fn(int, int) -> (u8, u8, u8),
)
    requires
        0 < w,
        0 < h,
        w % 2 == 0,
        h % 2 == 0,
        forall|row: int, col: int|
            0 <= row < h && 0 <= col < w ==> #[trigger] a(row, col) == b(row, col),
    ensures
        i420(w, h, a) == i420(w, h, b),
{
    i420_has_its_size(w, h, a);
    i420_has_its_size(w, h, b);
    same_plane(w, h, |row: int, col: int| a(row, col).0, |row: int, col: int| b(row, col).0);
    same_plane(
        w / 2,
        h / 2,
        |row: int, col: int| a(2 * row, 2 * col).1,
        |row: int, col: int| b(2 * row, 2 * col).1,
    );
    same_plane(
        w / 2,
        h / 2,
        |row: int, col: int| a(2 * row, 2 * col).2,
        |row: int, col: int| b(2 * row, 2 * col).2,
    );
}

proof fn same_plane(w: int, h: int, f: spec_fn(int, int) -> u8, g: spec_fn(int, int) -> u8)
    requires
        0 < w,
        0 < h,
        forall|row: int, col: int|
            0 <= row < h && 0 <= col < w ==> #[trigger] f(row, col) == g(row, col),
    ensures
        plane(w, h, f) == plane(w, h, g),
{
    assert forall|i: int| 0 <= i < w * h implies plane(w, h, f)[i] == plane(w, h, g)[i] by {
        lemma_mul_is_commutative(w, h);
        lemma_multiply_divide_lt(i, w, h);
        lemma_mod_bound(i, w);
        lemma_div_pos_is_pos(i, w);
        assert(f(i / w, i % w) == g(i / w, i % w));
    }
    assert(plane(w, h, f) =~= plane(w, h, g));
}

/// Whether bytes 0 and 2 of a pixel are the other way round.
pub open spec fn turned_at(
    s: Seq<u8>,
    t: Seq<u8>,
    stride: int,
    step: int,
    row: int,
    col: int,
) -> bool {
    let p = row * stride + col * step;
    s[p] == t[p + 2] && s[p + 1] == t[p + 1] && s[p + 2] == t[p]
}

/// A buffer in an order that has blue first gives the frame that the buffer with bytes 0
/// and 2 of each pixel the other way round gives in the order that has red first, and
/// the other way round.
pub proof fn reversed_buffers_have_the_same_frame(
    s: Seq<u8>,
    t: Seq<u8>,
    stride: int,
    width: u32,
    height: u32,
    order: PixelOrder,
)
    requires
        s.len() == t.len(),
        forall|row: int, col: int|
            0 <= row < height as int / 2 * 2 && 0 <= col < width as int / 2 * 2
                ==> #[trigger] turned_at(s, t, stride, pixel_step(order), row, col),
    ensures
        packed_frame(s, stride, width, height, order) == packed_frame(
            t,
            stride,
            width,
            height,
            reversed(order),
        ),
{
    let w = width as int / 2 * 2;
    let h = height as int / 2 * 2;
    assert(evened(width as int) == w && evened(height as int) == h);
    assert(pixel_bytes(order) == pixel_step(order));
    assert(pixel_bytes(order) == pixel_bytes(reversed(order)));
    if packed_frame(s, stride, width, height, order) is Some {
        let a = packed_at(s, stride, order);
        let b = packed_at(t, stride, reversed(order));
        assert(w > 0) by {
            if w <= 0 {
                assert(w == 0);
                assert(w * pixel_bytes(order) == 0);
            }
        }
        assert forall|row: int, col: int| 0 <= row < h && 0 <= col < w implies #[trigger] a(row, col)
            == b(row, col) by {
            assert(turned_at(s, t, stride, pixel_step(order), row, col));
        }
        same_samples_same_frame(w, h, a, b);
    }
}

/// The frame of `Y0 U Y1 V` pairs, byte for byte: the luma of each pixel as it is, and
/// the differences of the pairs of every other row.
pub proof fn yuy2_frame_by_bytes(
    src: Seq<u8>,
    stride: int,
    width: u32,
    height: u32,
    row: int,
    pair: int,
)
    requires
        0 <= row < height as int / 2 * 2,
        0 <= pair < width as int / 2,
    ensures
        ({
            let w = width as int / 2 * 2;
            let h = height as int / 2 * 2;
            yuy2_frame(src, stride, width, height) is Some <==> w * 2 <= stride && stride * h
                <= src.len()
        }),
        yuy2_frame(src, stride, width, height) matches Some(f) ==> {
            let w = width as int / 2 * 2;
            let h = height as int / 2 * 2;
            let c = w * h + (row / 2) * (w / 2) + pair;
            let p = row * stride + 4 * pair;
            let q = row / 2 * 2 * stride + 4 * pair;
            &&& f.len() == w * h + 2 * ((w / 2) * (h / 2))
            &&& f[row * w + 2 * pair] == src[p]
            &&& f[row * w + 2 * pair + 1] == src[p + 2]
            &&& f[c] == src[q + 1]
            &&& f[c + (w / 2) * (h / 2)] == src[q + 3]
        },
{
    let w = width as int / 2 * 2;
    let h = height as int / 2 * 2;
    assert(evened(width as int) == w && evened(height as int) == h);
    if yuy2_frame(src, stride, width, height) is Some {
        let at = yuy2_at(src, stride);
        samples_of_frame(w, h, at, row, 2 * pair);
        samples_of_frame(w, h, at, row, 2 * pair + 1);
        assert((2 * pair) / 2 == pair && (2 * pair + 1) / 2 == pair);
        assert((2 * pair) % 2 == 0 && (2 * pair + 1) % 2 == 1);
        assert(2 * (row / 2) == row / 2 * 2);
        assert(at(row, 2 * pair).0 == src[row * stride + pair * 4]);
        assert(at(row, 2 * pair + 1).0 == src[row * stride + pair * 4 + 2]);
    }
}

/// The frame of a luma plane and a plane of `U V` pairs, byte for byte.
pub proof fn nv12_frame_by_bytes(
    src: Seq<u8>,
    y_stride: int,
    uv_stride: int,
    width: u32,
    height: u32,
    row: int,
    col: int,
)
    requires
        0 <= row < height as int / 2 * 2,
        0 <= col < width as int / 2 * 2,
    ensures
        ({
            let w = width as int / 2 * 2;
            let h = height as int / 2 * 2;
            nv12_frame(src, y_stride, uv_stride, width, height) is Some <==> w <= y_stride && w
                <= uv_stride && y_stride * h + uv_stride * (h / 2) <= src.len()
        }),
        nv12_frame(src, y_stride, uv_stride, width, height) matches Some(f) ==> {
            let w = width as int / 2 * 2;
            let h = height as int / 2 * 2;
            let c = w * h + (row / 2) * (w / 2) + col / 2;
            let q = y_stride * h + (row / 2) * uv_stride + col / 2 * 2;
            &&& f.len() == w * h + 2 * ((w / 2) * (h / 2))
            &&& f[row * w + col] == src[row * y_stride + col]
            &&& f[c] == src[q]
            &&& f[c + (w / 2) * (h / 2)] == src[q + 1]
        },
{
    let w = width as int / 2 * 2;
    let h = height as int / 2 * 2;
    assert(evened(width as int) == w && evened(height as int) == h);
    if nv12_frame(src, y_stride, uv_stride, width, height) is Some {
        let at = nv12_at(src, y_stride, uv_stride, h);
        samples_of_frame(w, h, at, row, col);
        assert((2 * (row / 2)) / 2 == row / 2 && (2 * (col / 2)) / 2 == col / 2);
    }
}

/// A frame that is one already is taken from the front as it is, without an odd last
/// row or column in its size.
pub proof fn front_frame_by_bytes(src: Seq<u8>, width: u32, height: u32)
    requires
        width >= 2,
        height >= 2,
    ensures
        ({
            let w = width as int / 2 * 2;
            let h = height as int / 2 * 2;
            let need = w * h + 2 * ((w / 2) * (h / 2));
            front_frame(src, width, height) == if need <= src.len() {
                Some(src.take(need))
            } else {
                None
            }
        }),
{
    assert(evened(width as int) == width as int / 2 * 2);
    assert(evened(height as int) == height as int / 2 * 2);
}

/// A side is made even by dropping at most one pixel.
pub proof fn evened_drops_at_most_one(v: int)
    ensures
        evened(v) % 2 == 0,
        v - 1 <= evened(v) <= v,
{
}

/// A frame of even sides has one and a half bytes for each pixel.
pub proof fn frame_has_three_bytes_for_two_pixels(w: int, h: int)
    requires
        0 <= w,
        0 <= h,
        w % 2 == 0,
        h % 2 == 0,
    ensures
        2 * i420_len(w, h) == 3 * (w * h),
{
    let a = w / 2;
    let b = h / 2;
    assert((2 * a) * (2 * b) == 4 * (a * b)) by (nonlinear_arith);
    assert(w == 2 * a && h == 2 * b);
}

} // verus!
