//! Two-monitor test pattern used when Hyprland is not available.
//!
//! Each display is a moving luma bar on a distinct chroma field, with the
//! monitor name, frame index, and the last pointer position drawn into the
//! Y plane. The client decodes that, so a moving bar and a cursor that follows
//! the mouse prove the session without a portal.

use vstd::prelude::*;
use vstd::arithmetic::div_mod::*;
use vstd::arithmetic::mul::*;
use vstd::string::*;

use crate::capture::{frame_views, FrameView, RawFrame};
use crate::input::Cursor;
use crate::message::{display_views, DisplayInfo, DisplayView};
use crate::text::{chars_of, decimal, push_decimal};
use crate::yuv::{i420, i420_len, plane, samples_of_frame};

verus! {

pub const DEMO_WIDTH: u32 = 960;

pub const DEMO_HEIGHT: u32 = 540;

/// The glyphs of the digits, the letters, `-`, the space, and the box that stands
/// for every other character. A glyph is seven rows of five pixels, of which the
/// highest bit is the left one.
pub const GLYPHS: [[u8; 7]; 39] = [
    [0b01110, 0b10001, 0b10011, 0b10101, 0b11001, 0b10001, 0b01110],
    [0b00100, 0b01100, 0b00100, 0b00100, 0b00100, 0b00100, 0b01110],
    [0b01110, 0b10001, 0b00001, 0b00010, 0b00100, 0b01000, 0b11111],
    [0b11110, 0b00001, 0b00001, 0b01110, 0b00001, 0b00001, 0b11110],
    [0b00010, 0b00110, 0b01010, 0b10010, 0b11111, 0b00010, 0b00010],
    [0b11111, 0b10000, 0b11110, 0b00001, 0b00001, 0b10001, 0b01110],
    [0b00110, 0b01000, 0b10000, 0b11110, 0b10001, 0b10001, 0b01110],
    [0b11111, 0b00001, 0b00010, 0b00100, 0b01000, 0b01000, 0b01000],
    [0b01110, 0b10001, 0b10001, 0b01110, 0b10001, 0b10001, 0b01110],
    [0b01110, 0b10001, 0b10001, 0b01111, 0b00001, 0b00010, 0b01100],
    [0b01110, 0b10001, 0b10001, 0b11111, 0b10001, 0b10001, 0b10001],
    [0b11110, 0b10001, 0b10001, 0b11110, 0b10001, 0b10001, 0b11110],
    [0b01110, 0b10001, 0b10000, 0b10000, 0b10000, 0b10001, 0b01110],
    [0b11110, 0b10001, 0b10001, 0b10001, 0b10001, 0b10001, 0b11110],
    [0b11111, 0b10000, 0b10000, 0b11110, 0b10000, 0b10000, 0b11111],
    [0b11111, 0b10000, 0b10000, 0b11110, 0b10000, 0b10000, 0b10000],
    [0b01110, 0b10001, 0b10000, 0b10111, 0b10001, 0b10001, 0b01111],
    [0b10001, 0b10001, 0b10001, 0b11111, 0b10001, 0b10001, 0b10001],
    [0b01110, 0b00100, 0b00100, 0b00100, 0b00100, 0b00100, 0b01110],
    [0b00111, 0b00010, 0b00010, 0b00010, 0b10010, 0b10010, 0b01100],
    [0b10001, 0b10010, 0b10100, 0b11000, 0b10100, 0b10010, 0b10001],
    [0b10000, 0b10000, 0b10000, 0b10000, 0b10000, 0b10000, 0b11111],
    [0b10001, 0b11011, 0b10101, 0b10101, 0b10001, 0b10001, 0b10001],
    [0b10001, 0b11001, 0b10101, 0b10011, 0b10001, 0b10001, 0b10001],
    [0b01110, 0b10001, 0b10001, 0b10001, 0b10001, 0b10001, 0b01110],
    [0b11110, 0b10001, 0b10001, 0b11110, 0b10000, 0b10000, 0b10000],
    [0b01110, 0b10001, 0b10001, 0b10001, 0b10101, 0b10010, 0b01101],
    [0b11110, 0b10001, 0b10001, 0b11110, 0b10100, 0b10010, 0b10001],
    [0b01111, 0b10000, 0b10000, 0b01110, 0b00001, 0b00001, 0b11110],
    [0b11111, 0b00100, 0b00100, 0b00100, 0b00100, 0b00100, 0b00100],
    [0b10001, 0b10001, 0b10001, 0b10001, 0b10001, 0b10001, 0b01110],
    [0b10001, 0b10001, 0b10001, 0b10001, 0b10001, 0b01010, 0b00100],
    [0b10001, 0b10001, 0b10001, 0b10101, 0b10101, 0b10101, 0b01010],
    [0b10001, 0b10001, 0b01010, 0b00100, 0b01010, 0b10001, 0b10001],
    [0b10001, 0b10001, 0b01010, 0b00100, 0b00100, 0b00100, 0b00100],
    [0b11111, 0b00001, 0b00010, 0b00100, 0b01000, 0b10000, 0b11111],
    [0b00000, 0b00000, 0b00000, 0b11111, 0b00000, 0b00000, 0b00000],
    [0b00000, 0b00000, 0b00000, 0b00000, 0b00000, 0b00000, 0b00000],
    [0b11111, 0b10001, 0b10001, 0b10001, 0b10001, 0b10001, 0b11111],
];

/// Where the text starts, across and down.
pub const TEXT_ORIGIN: usize = 24;

/// How large a pixel of a glyph is drawn.
pub const TEXT_SCALE: usize = 3;

/// How far apart two characters start.
pub const TEXT_STEP: usize = 18;

/// Half of the bar's width.
pub const BAR_REACH: u64 = 18;

/// How far the bar moves with each frame.
pub const BAR_STEP: u64 = 14;

/// The length of an arm of the cross.
pub const CROSS_ARM: u64 = 14;

/// Which glyph a character has. Small letters have those of the capitals.
pub open spec fn glyph_index(c: char) -> int {
    if '0' <= c <= '9' {
        c as int - '0' as int
    } else if 'A' <= c <= 'Z' {
        10 + (c as int - 'A' as int)
    } else if 'a' <= c <= 'z' {
        10 + (c as int - 'a' as int)
    } else if c == '-' {
        36
    } else if c == ' ' {
        37
    } else {
        38
    }
}

/// The rows of a character's glyph.
pub open spec fn glyph_of(c: char) -> Seq<u8> {
    GLYPHS[glyph_index(c)]@
}

/// Whether a glyph row has its pixel set at a column from the left.
pub open spec fn bit_set(bits: u8, col: int) -> bool {
    if col == 0 {
        (bits / 16) % 2 == 1
    } else if col == 1 {
        (bits / 8) % 2 == 1
    } else if col == 2 {
        (bits / 4) % 2 == 1
    } else if col == 3 {
        (bits / 2) % 2 == 1
    } else {
        bits % 2 == 1
    }
}

/// Whether the text covers a pixel of the picture.
pub open spec fn in_text(text: Seq<char>, row: int, col: int) -> bool {
    let down = (row - TEXT_ORIGIN) / (TEXT_SCALE as int);
    let k = (col - TEXT_ORIGIN) / (TEXT_STEP as int);
    let across = ((col - TEXT_ORIGIN) % (TEXT_STEP as int)) / (TEXT_SCALE as int);
    &&& TEXT_ORIGIN <= row
    &&& TEXT_ORIGIN <= col
    &&& down < 7
    &&& k < text.len()
    &&& across < 5
    &&& bit_set(glyph_of(text[k])[down], across)
}

/// Whether the cross at a pointer position covers a pixel.
pub open spec fn in_cross(cursor: Option<(u32, u32)>, row: int, col: int) -> bool {
    match cursor {
        Some((x, y)) => {
            ||| row == y && -CROSS_ARM <= col - x <= CROSS_ARM
            ||| col == x && -CROSS_ARM <= row - y <= CROSS_ARM
        },
        None => false,
    }
}

/// Where the middle of the bar is in a frame.
pub open spec fn bar_at(frame: u64, w: int) -> int {
    let moved = if frame * BAR_STEP <= u64::MAX {
        frame * BAR_STEP
    } else {
        u64::MAX as int
    };
    moved % w
}

/// The luma of a pixel without text and cross.
pub open spec fn backdrop(frame: u64, w: int, col: int) -> u8 {
    if -BAR_REACH < col - bar_at(frame, w) < BAR_REACH {
        230
    } else {
        (36 + (col * 90) / w) as u8
    }
}

/// The luma of a pixel: the cross over the text over the bar over a gradient.
pub open spec fn luma_at(
    frame: u64,
    w: int,
    text: Seq<char>,
    cursor: Option<(u32, u32)>,
    row: int,
    col: int,
) -> u8 {
    if in_cross(cursor, row, col) {
        16
    } else if in_text(text, row, col) {
        240
    } else {
        backdrop(frame, w, col)
    }
}

/// The chroma field of a display.
pub open spec fn chroma(index: int) -> (u8, u8) {
    if index % 2 == 0 {
        (96, 150)
    } else {
        (120, 200)
    }
}

/// What is written on a frame.
pub open spec fn caption(label: Seq<char>, frame: u64) -> Seq<char> {
    label + " "@ + decimal(frame as nat)
}

/// The test pattern, as samples by row and column.
pub open spec fn pattern(
    index: int,
    frame: u64,
    w: int,
    label: Seq<char>,
    cursor: Option<(u32, u32)>,
) -> spec_fn(int, int) -> (u8, u8, u8) {
    |row: int, col: int|
        (
            luma_at(frame, w, caption(label, frame), cursor, row, col),
            chroma(index).0,
            chroma(index).1,
        )
}

/// The rows of a character's glyph.
pub fn glyph(c: char) -> (r: [u8; 7])
    ensures
        r@ == glyph_of(c),
{
    let u: u32 = c as u32;
    let i: usize = if '0' <= c && c <= '9' {
        (u - 48) as usize
    } else if 'A' <= c && c <= 'Z' {
        (10 + (u - 65)) as usize
    } else if 'a' <= c && c <= 'z' {
        (10 + (u - 97)) as usize
    } else if c == '-' {
        36
    } else if c == ' ' {
        37
    } else {
        38
    };
    GLYPHS[i]
}

fn bit(bits: u8, col: usize) -> (r: bool)
    ensures
        r == bit_set(bits, col as int),
{
    if col == 0 {
        (bits / 16) % 2 == 1
    } else if col == 1 {
        (bits / 8) % 2 == 1
    } else if col == 2 {
        (bits / 4) % 2 == 1
    } else if col == 3 {
        (bits / 2) % 2 == 1
    } else {
        bits % 2 == 1
    }
}

/// Whether the text covers a pixel.
fn draws_text(text: &Vec<char>, row: usize, col: usize) -> (r: bool)
    ensures
        r == in_text(text@, row as int, col as int),
{
    if row < TEXT_ORIGIN || col < TEXT_ORIGIN {
        return false;
    }
    let down: usize = (row - TEXT_ORIGIN) / TEXT_SCALE;
    let k: usize = (col - TEXT_ORIGIN) / TEXT_STEP;
    let across: usize = ((col - TEXT_ORIGIN) % TEXT_STEP) / TEXT_SCALE;
    if down >= 7 || k >= text.len() || across >= 5 {
        return false;
    }
    let rows = glyph(text[k]);
    bit(rows[down], across)
}

/// Whether the cross covers a pixel.
fn draws_cross(cursor: Option<(u32, u32)>, row: usize, col: usize) -> (r: bool)
    ensures
        r == in_cross(cursor, row as int, col as int),
{
    match cursor {
        Some((x, y)) => {
            let row: u64 = row as u64;
            let col: u64 = col as u64;
            let x: u64 = x as u64;
            let y: u64 = y as u64;
            (row == y && distance(col, x) <= CROSS_ARM) || (col == x && distance(row, y)
                <= CROSS_ARM)
        },
        None => false,
    }
}

fn distance(a: u64, b: u64) -> (r: u64)
    ensures
        r == if a >= b {
            a - b
        } else {
            b - a
        },
{
    if a >= b {
        a - b
    } else {
        b - a
    }
}

/// The middle of the bar.
fn bar(frame: u64, w: u32) -> (r: u64)
    requires
        w > 0,
    ensures
        r == bar_at(frame, w as int),
{
    let moved: u64 = if frame <= u64::MAX / BAR_STEP {
        frame * BAR_STEP
    } else {
        u64::MAX
    };
    moved % w as u64
}

/// The test pattern of a display.
pub fn render_i420(
    index: usize,
    frame: u64,
    width: u32,
    height: u32,
    label: &str,
    cursor: Option<(u32, u32)>,
) -> (r: Vec<u8>)
    requires
        i420_len(width as int, height as int) <= usize::MAX,
    ensures
        r@ == i420(
            width as int,
            height as int,
            pattern(index as int, frame, width as int, label@, cursor),
        ),
{
    let ghost w = width as int;
    let ghost h = height as int;
    let ghost at = pattern(index as int, frame, w, label@, cursor);
    let mut caption_text = label.to_owned();
    caption_text.append(" ");
    push_decimal(&mut caption_text, frame);
    let text = chars_of(caption_text.as_str());
    assert(text@ =~= caption(label@, frame));
    let mut out: Vec<u8> = Vec::new();
    let ghost lumas = plane(w, h, |row: int, col: int| at(row, col).0);
    proof {
        lemma_mul_nonnegative(w, h);
        lemma_mul_nonnegative(w / 2, h / 2);
        lemma_mul_basics(w);
        assert(out@ =~= lumas.take(0));
    }
    if width > 0 {
        let middle: u64 = bar(frame, width);
        for row in 0..height as usize
            invariant
                w == width as int,
                h == height as int,
                width > 0,
                middle == bar_at(frame, w),
                text@ == caption(label@, frame),
                at == pattern(index as int, frame, w, label@, cursor),
                lumas == plane(w, h, |row: int, col: int| at(row, col).0),
                0 <= row * w <= w * h,
                out@ == lumas.take(row * w),
        {
            proof {
                crate::yuv::place_in(row as int, 0, w, h);
            }
            for col in 0..width as usize
                invariant
                    w == width as int,
                    h == height as int,
                    width > 0,
                    middle == bar_at(frame, w),
                    text@ == caption(label@, frame),
                    at == pattern(index as int, frame, w, label@, cursor),
                    lumas == plane(w, h, |row: int, col: int| at(row, col).0),
                    row < h,
                    0 <= row * w,
                    row * w + w <= w * h,
                    out@ == lumas.take(row * w + col),
            {
                let luma: u8 = if draws_cross(cursor, row, col) {
                    16
                } else if draws_text(&text, row, col) {
                    240
                } else if distance(col as u64, middle) < BAR_REACH {
                    230
                } else {
                    let across: u64 = col as u64;
                    proof {
                        gradient_is_small(col as int, w);
                    }
                    (36 + (across * 90) / width as u64) as u8
                };
                out.push(luma);
                proof {
                    let k = row * w + col;
                    crate::yuv::place(row as int, col as int, w);
                    assert(lumas[k] == luma);
                    assert(lumas.take(k + 1) =~= lumas.take(k).push(luma));
                }
            }
            proof {
                crate::yuv::place_in(row as int, 0, w, h);
            }
        }
    } else {
        proof {
            assert(w * h == 0) by (nonlinear_arith)
                requires
                    w == 0,
            ;
        }
    }
    proof {
        assert(h * w == w * h) by (nonlinear_arith);
        assert(lumas.take(w * h) =~= lumas);
        if width == 0 {
            assert(lumas =~= Seq::<u8>::empty());
        }
        assert(out@ =~= lumas);
    }
    let blocks: u64 = area(width / 2, height / 2);
    let (u, v) = if index % 2 == 0 {
        (96u8, 150u8)
    } else {
        (120u8, 200u8)
    };
    push_field(&mut out, u, blocks);
    push_field(&mut out, v, blocks);
    proof {
        let us = plane(w / 2, h / 2, |row: int, col: int| at(2 * row, 2 * col).1);
        let vs = plane(w / 2, h / 2, |row: int, col: int| at(2 * row, 2 * col).2);
        assert(us =~= Seq::new(blocks as nat, |i: int| u));
        assert(vs =~= Seq::new(blocks as nat, |i: int| v));
        assert(out@ =~= lumas + us + vs);
    }
    out
}

proof fn gradient_is_small(col: int, w: int)
    requires
        0 <= col < w,
    ensures
        0 <= (col * 90) / w < 90,
{
    lemma_div_pos_is_pos(col * 90, w);
    lemma_multiply_divide_lt(col * 90, w, 90);
}

/// The blocks of a picture.
fn area(a: u32, b: u32) -> (r: u64)
    ensures
        r == a * b,
{
    proof {
        assert(a * b <= 0xffff_ffff * 0xffff_ffff) by (nonlinear_arith)
            requires
                a <= 0xffff_ffff,
                b <= 0xffff_ffff,
        ;
    }
    a as u64 * b as u64
}

/// Adds `n` bytes of one value.
fn push_field(out: &mut Vec<u8>, value: u8, n: u64)
    ensures
        final(out)@ == old(out)@ + Seq::new(n as nat, |i: int| value),
{
    assert(out@ =~= old(out)@ + Seq::new(0, |i: int| value));
    for i in 0..n
        invariant
            out@ == old(out)@ + Seq::new(i as nat, |j: int| value),
    {
        out.push(value);
        assert(out@ =~= old(out)@ + Seq::new((i + 1) as nat, |j: int| value));
    }
}

/// The two displays of the demo.
pub open spec fn demo_views() -> Seq<DisplayView> {
    seq![
        DisplayView {
            id: 0,
            x: 0,
            y: 0,
            width: DEMO_WIDTH,
            height: DEMO_HEIGHT,
            scale_percent: 100,
            name: "eDP-1"@,
        },
        DisplayView {
            id: 1,
            x: 960,
            y: 0,
            width: DEMO_WIDTH,
            height: DEMO_HEIGHT,
            scale_percent: 150,
            name: "HDMI-A-1"@,
        },
    ]
}

/// The two displays of the demo.
pub fn demo_displays() -> (r: Vec<DisplayInfo>)
    ensures
        display_views(r@) == demo_views(),
{
    let mut out: Vec<DisplayInfo> = Vec::new();
    out.push(
        DisplayInfo {
            id: 0,
            x: 0,
            y: 0,
            width: DEMO_WIDTH,
            height: DEMO_HEIGHT,
            scale_percent: 100,
            name: "eDP-1".to_owned(),
        },
    );
    out.push(
        DisplayInfo {
            id: 1,
            x: DEMO_WIDTH as i32,
            y: 0,
            width: DEMO_WIDTH,
            height: DEMO_HEIGHT,
            scale_percent: 150,
            name: "HDMI-A-1".to_owned(),
        },
    );
    assert(display_views(out@) =~= demo_views());
    out
}

/// The pointer position to draw on a display: only a visible pointer on it.
pub open spec fn pointer_on(cursor: Cursor, display_id: u32) -> Option<(u32, u32)> {
    if cursor.visible && cursor.display_id == display_id {
        Some((cursor.x, cursor.y))
    } else {
        None
    }
}

/// The frame of one display.
pub open spec fn pattern_frame(d: DisplayView, index: int, frame: u64, cursor: Cursor) -> FrameView {
    FrameView {
        display_id: d.id,
        width: d.width,
        height: d.height,
        i420: i420(
            d.width as int,
            d.height as int,
            pattern(index, frame, d.width as int, d.name, pointer_on(cursor, d.id)),
        ),
    }
}

/// A desktop of test patterns.
pub struct SyntheticDesktop {
    pub displays: Vec<DisplayInfo>,
    /// How many times the desktop was rendered.
    pub frame: u64,
}

impl SyntheticDesktop {
    /// The frames of all displays are in reach of the machine.
    pub open spec fn wf(&self) -> bool {
        forall|i: int|
            0 <= i < self.displays@.len() ==> i420_len(
                (#[trigger] self.displays@[i]).width as int,
                self.displays@[i].height as int,
            ) <= usize::MAX
    }

    pub fn new() -> (r: SyntheticDesktop)
        ensures
            r.wf(),
            display_views(r.displays@) == demo_views(),
            r.frame == 0,
    {
        let displays = demo_displays();
        proof {
            assert forall|i: int| 0 <= i < displays@.len() implies i420_len(
                (#[trigger] displays@[i]).width as int,
                displays@[i].height as int,
            ) <= usize::MAX by {
                assert(display_views(displays@).len() == displays@.len());
                assert(i == 0 || i == 1);
                assert(demo_views()[i] == displays@[i]@);
                assert(demo_views()[i].width == 960 && demo_views()[i].height == 540);
                assert(i420_len(960, 540) == 777600) by (nonlinear_arith);
            }
        }
        SyntheticDesktop { displays, frame: 0 }
    }

    /// The next frame of every display.
    pub fn render(&mut self, cursor: Cursor) -> (r: Vec<RawFrame>)
        requires
            old(self).wf(),
        ensures
            final(self).wf(),
            final(self).displays == old(self).displays,
            final(self).frame == (if old(self).frame == u64::MAX {
                0
            } else {
                old(self).frame + 1
            }),
            frame_views(r@) == Seq::new(
                old(self).displays@.len(),
                |i: int|
                    pattern_frame(old(self).displays@[i]@, i, old(self).frame, cursor),
            ),
    {
        let ghost all = Seq::new(
            self.displays@.len(),
            |i: int| pattern_frame(self.displays@[i]@, i, self.frame, cursor),
        );
        let mut frames: Vec<RawFrame> = Vec::new();
        assert(frame_views(frames@) =~= all.take(0));
        for i in 0..self.displays.len()
            invariant
                *self == *old(self),
                self.wf(),
                all == Seq::new(
                    self.displays@.len(),
                    |i: int| pattern_frame(self.displays@[i]@, i, self.frame, cursor),
                ),
                frame_views(frames@) == all.take(i as int),
        {
            let display = &self.displays[i];
            let pointer = if cursor.visible && cursor.display_id == display.id {
                Some((cursor.x, cursor.y))
            } else {
                None
            };
            let i420 = render_i420(
                i,
                self.frame,
                display.width,
                display.height,
                display.name.as_str(),
                pointer,
            );
            let ghost before = frames@;
            let raw = RawFrame {
                display_id: display.id,
                width: display.width,
                height: display.height,
                i420,
            };
            frames.push(raw);
            assert(frame_views(frames@) =~= frame_views(before).push(raw@));
            assert(all.take(i + 1) =~= all.take(i as int).push(all[i as int]));
        }
        assert(all.take(all.len() as int) =~= all);
        self.frame = if self.frame == u64::MAX {
            0
        } else {
            self.frame + 1
        };
        frames
    }
}

/// A number that no two glyphs share.
spec fn glyph_key(g: Seq<u8>) -> int {
    2 * g[0] + g[2] + 2 * g[3] + 2 * g[4] + g[5] + g[6]
}

/// Which glyph has a key.
spec fn glyph_with(key: int) -> int {
    if key == 170 {
        0
    } else if key == 46 {
        1
    } else if key == 80 {
        2
    } else if key == 122 {
        3
    } else if key == 116 {
        4
    } else if key == 127 {
        5
    } else if key == 153 {
        6
    } else if key == 104 {
        7
    } else if key == 138 {
        8
    } else if key == 91 {
        9
    } else if key == 175 {
        10
    } else if key == 218 {
        11
    } else if key == 139 {
        12
    } else if key == 192 {
        13
    } else if key == 217 {
        14
    } else if key == 202 {
        15
    } else if key == 156 {
        16
    } else if key == 181 {
        17
    } else if key == 66 {
        18
    } else if key == 86 {
        19
    } else if key == 177 {
        20
    } else if key == 159 {
        21
    } else if key == 165 {
        22
    } else if key == 161 {
        23
    } else if key == 144 {
        24
    } else if key == 201 {
        25
    } else if key == 152 {
        26
    } else if key == 212 {
        27
    } else if key == 107 {
        28
    } else if key == 90 {
        29
    } else if key == 150 {
        30
    } else if key == 133 {
        31
    } else if key == 166 {
        32
    } else if key == 106 {
        33
    } else if key == 68 {
        34
    } else if key == 135 {
        35
    } else if key == 62 {
        36
    } else if key == 0 {
        37
    } else if key == 195 {
        38
    } else {
        -1
    }
}

proof fn glyph_has_key(i: int)
    requires
        0 <= i < 39,
    ensures
        glyph_with(glyph_key(GLYPHS[i]@)) == i,
        forall|row: int| 0 <= row < 7 ==> #[trigger] GLYPHS[i]@[row] < 32,
{
    if i == 0 {
        assert(glyph_key(GLYPHS[0]@) == 170);
    } else if i == 1 {
        assert(glyph_key(GLYPHS[1]@) == 46);
    } else if i == 2 {
        assert(glyph_key(GLYPHS[2]@) == 80);
    } else if i == 3 {
        assert(glyph_key(GLYPHS[3]@) == 122);
    } else if i == 4 {
        assert(glyph_key(GLYPHS[4]@) == 116);
    } else if i == 5 {
        assert(glyph_key(GLYPHS[5]@) == 127);
    } else if i == 6 {
        assert(glyph_key(GLYPHS[6]@) == 153);
    } else if i == 7 {
        assert(glyph_key(GLYPHS[7]@) == 104);
    } else if i == 8 {
        assert(glyph_key(GLYPHS[8]@) == 138);
    } else if i == 9 {
        assert(glyph_key(GLYPHS[9]@) == 91);
    } else if i == 10 {
        assert(glyph_key(GLYPHS[10]@) == 175);
    } else if i == 11 {
        assert(glyph_key(GLYPHS[11]@) == 218);
    } else if i == 12 {
        assert(glyph_key(GLYPHS[12]@) == 139);
    } else if i == 13 {
        assert(glyph_key(GLYPHS[13]@) == 192);
    } else if i == 14 {
        assert(glyph_key(GLYPHS[14]@) == 217);
    } else if i == 15 {
        assert(glyph_key(GLYPHS[15]@) == 202);
    } else if i == 16 {
        assert(glyph_key(GLYPHS[16]@) == 156);
    } else if i == 17 {
        assert(glyph_key(GLYPHS[17]@) == 181);
    } else if i == 18 {
        assert(glyph_key(GLYPHS[18]@) == 66);
    } else if i == 19 {
        assert(glyph_key(GLYPHS[19]@) == 86);
    } else if i == 20 {
        assert(glyph_key(GLYPHS[20]@) == 177);
    } else if i == 21 {
        assert(glyph_key(GLYPHS[21]@) == 159);
    } else if i == 22 {
        assert(glyph_key(GLYPHS[22]@) == 165);
    } else if i == 23 {
        assert(glyph_key(GLYPHS[23]@) == 161);
    } else if i == 24 {
        assert(glyph_key(GLYPHS[24]@) == 144);
    } else if i == 25 {
        assert(glyph_key(GLYPHS[25]@) == 201);
    } else if i == 26 {
        assert(glyph_key(GLYPHS[26]@) == 152);
    } else if i == 27 {
        assert(glyph_key(GLYPHS[27]@) == 212);
    } else if i == 28 {
        assert(glyph_key(GLYPHS[28]@) == 107);
    } else if i == 29 {
        assert(glyph_key(GLYPHS[29]@) == 90);
    } else if i == 30 {
        assert(glyph_key(GLYPHS[30]@) == 150);
    } else if i == 31 {
        assert(glyph_key(GLYPHS[31]@) == 133);
    } else if i == 32 {
        assert(glyph_key(GLYPHS[32]@) == 166);
    } else if i == 33 {
        assert(glyph_key(GLYPHS[33]@) == 106);
    } else if i == 34 {
        assert(glyph_key(GLYPHS[34]@) == 68);
    } else if i == 35 {
        assert(glyph_key(GLYPHS[35]@) == 135);
    } else if i == 36 {
        assert(glyph_key(GLYPHS[36]@) == 62);
    } else if i == 37 {
        assert(glyph_key(GLYPHS[37]@) == 0);
    } else {
        assert(glyph_key(GLYPHS[38]@) == 195);
    }
}

/// A character with a glyph of its own.
pub open spec fn is_drawn(c: char) -> bool {
    ('0' <= c <= '9') || ('A' <= c <= 'Z') || c == '-' || c == ' '
}

/// A small letter as a capital, and every other character as it is.
pub open spec fn capital(c: char) -> char {
    if 'a' <= c <= 'z' {
        (c as u32 - 32) as char
    } else {
        c
    }
}

/// A glyph is five pixels wide, and blank for the space alone. Small letters have
/// the glyphs of the capitals. A character that then has none of its own is drawn
/// as a box.
pub proof fn glyph_is_sound(c: char)
    ensures
        glyph_of(c).len() == 7,
        forall|row: int| 0 <= row < 7 ==> #[trigger] glyph_of(c)[row] < 32,
        glyph_of(c) == glyph_of(capital(c)),
        glyph_of(c) == seq![0u8, 0, 0, 0, 0, 0, 0] <==> c == ' ',
        !is_drawn(capital(c)) ==> glyph_of(c) == seq![31u8, 17, 17, 17, 17, 17, 31],
{
    let i = glyph_index(c);
    glyph_has_key(i);
    assert(GLYPHS[37]@ =~= seq![0u8, 0, 0, 0, 0, 0, 0]);
    assert(GLYPHS[38]@ =~= seq![31u8, 17, 17, 17, 17, 17, 31]);
    glyph_has_key(37);
}

/// No two characters with glyphs of their own look alike.
pub proof fn glyphs_differ(c: char, d: char)
    requires
        is_drawn(c),
        is_drawn(d),
        c != d,
    ensures
        glyph_of(c) != glyph_of(d),
{
    glyph_has_key(glyph_index(c));
    glyph_has_key(glyph_index(d));
}

/// The bar moves: two successive frames of a display differ.
pub proof fn successive_frames_differ(index: int, frame: u64, w: int, h: int, label: Seq<char>)
    requires
        w >= 48,
        h > 0,
        frame * BAR_STEP + BAR_STEP <= u64::MAX,
    ensures
        i420(w, h, pattern(index, frame, w, label, None)) != i420(
            w,
            h,
            pattern(index, (frame + 1) as u64, w, label, None),
        ),
{
    let b0 = bar_at(frame, w);
    let b1 = bar_at((frame + 1) as u64, w);
    let moved = frame * BAR_STEP;
    assert((moved + 14) % w == if moved % w + 14 < w {
        moved % w + 14
    } else {
        moved % w + 14 - w
    }) by {
        lemma_fundamental_div_mod(moved, w);
        let q = moved / w;
        if moved % w + 14 < w {
            assert(moved + 14 == w * q + (moved % w + 14));
            lemma_mul_is_commutative(w, q);
            lemma_fundamental_div_mod_converse(moved + 14, w, q, moved % w + 14);
        } else {
            lemma_mul_is_distributive_add(w, q, 1);
            assert(moved + 14 == w * (q + 1) + (moved % w + 14 - w));
            lemma_mul_is_commutative(w, q + 1);
            lemma_fundamental_div_mod_converse(moved + 14, w, q + 1, moved % w + 14 - w);
        }
    }
    lemma_mod_bound(moved, w);
    let col = if b1 < b0 {
        b1
    } else if b1 + 17 < w {
        b1 + 17
    } else {
        b0 - 17
    };
    assert(0 <= col < w);
    gradient_is_small(col, w);
    let a = pattern(index, frame, w, label, None);
    let b = pattern(index, (frame + 1) as u64, w, label, None);
    let fa = |row: int, c: int| a(row, c).0;
    let fb = |row: int, c: int| b(row, c).0;
    crate::yuv::place_in(0, col, w, h);
    lemma_mul_basics(w);
    lemma_mul_nonnegative(w / 2, h / 2);
    crate::yuv::place(0, col, w);
    assert(plane(w, h, fa)[col] == fa(0, col));
    assert(plane(w, h, fb)[col] == fb(0, col));
    assert(i420(w, h, a)[col] == fa(0, col));
    assert(i420(w, h, b)[col] == fb(0, col));
    assert(fa(0, col) != fb(0, col));
}

/// The frame of a display, byte for byte. Its luma is dark where the cross of the pointer
/// is, two lines of 14 pixels to every side that meet in it; nearly white where the
/// caption is; bright within 17 pixels of the middle of the bar, which goes on by 14
/// pixels with each frame and starts anew at the left; and otherwise the lighter the
/// farther right. The colour is one for all of the display.
pub proof fn pattern_by_bytes(
    d: DisplayView,
    index: int,
    frame: u64,
    cursor: Cursor,
    row: int,
    col: int,
)
    requires
        d.width % 2 == 0,
        d.height % 2 == 0,
        0 <= row < d.height,
        0 <= col < d.width,
        frame * 14 <= u64::MAX,
    ensures
        ({
            let f = pattern_frame(d, index, frame, cursor);
            let w = d.width as int;
            let h = d.height as int;
            let luma = f.i420[row * w + col];
            let c = w * h + (row / 2) * (w / 2) + col / 2;
            let bar = (frame * 14) % w;
            let crossed = cursor.visible && cursor.display_id == d.id && ((row == cursor.y
                && cursor.x - 14 <= col <= cursor.x + 14) || (col == cursor.x && cursor.y - 14
                <= row <= cursor.y + 14));
            let written = in_text(d.name + " "@ + decimal(frame as nat), row, col);
            &&& f.display_id == d.id && f.width == d.width && f.height == d.height
            &&& f.i420.len() == w * h + 2 * ((w / 2) * (h / 2))
            &&& crossed ==> luma == 16
            &&& !crossed && written ==> luma == 240
            &&& !crossed && !written && bar - 18 < col < bar + 18 ==> luma == 230
            &&& !crossed && !written && !(bar - 18 < col < bar + 18) ==> luma == 36 + (col * 90) / w
            &&& index % 2 == 0 ==> f.i420[c] == 96 && f.i420[c + (w / 2) * (h / 2)] == 150
            &&& index % 2 != 0 ==> f.i420[c] == 120 && f.i420[c + (w / 2) * (h / 2)] == 200
        }),
{
    let w = d.width as int;
    let h = d.height as int;
    let at = pattern(index, frame, w, d.name, pointer_on(cursor, d.id));
    samples_of_frame(w, h, at, row, col);
    gradient_is_small(col, w);
}

/// Whether a text covers a pixel: it starts 24 pixels from the left and the top. Each of
/// its characters is 15 pixels wide and 21 high and starts 18 pixels right of the one
/// before it, so that each place of its glyph is three by three pixels.
pub proof fn text_by_pixels(text: Seq<char>, k: int, down: int, across: int, dy: int, dx: int)
    requires
        0 <= k < text.len(),
        0 <= down < 7,
        0 <= across < 5,
        0 <= dy < 3,
        0 <= dx < 3,
    ensures
        in_text(text, 24 + 3 * down + dy, 24 + 18 * k + 3 * across + dx) <==> glyph_of(
            text[k],
        )[down] / weight(across) % 2 == 1,
        forall|row: int| #![trigger in_text(text, row, 24)] row < 24 || row >= 45 ==> !in_text(
            text,
            row,
            24 + 18 * k + 3 * across + dx,
        ),
        forall|row: int|
            #![trigger in_text(text, row, 0)]
            !in_text(text, row, 24 + 18 * k + 15 + dx) && !in_text(
                text,
                row,
                24 + 18 * text.len() + dx,
            ) && !in_text(text, row, 23 - dx),
{
}

/// What the pixel of a glyph is worth in the number of its row: the left one most.
pub open spec fn weight(across: int) -> u8 {
    if across == 0 {
        16
    } else if across == 1 {
        8
    } else if across == 2 {
        4
    } else if across == 3 {
        2
    } else {
        1
    }
}

/// The demo has two monitors of 960 by 540 pixels side by side, the second one scaled by
/// half as much again.
pub proof fn demo_monitors_are_side_by_side()
    ensures
        ({
            let d = demo_views();
            &&& d.len() == 2
            &&& d[0].id == 0 && d[1].id == 1
            &&& d[0].x == 0 && d[0].y == 0 && d[1].y == 0 && d[1].x == d[0].width
            &&& d[0].width == 960 && d[0].height == 540 && d[1].width == 960 && d[1].height == 540
            &&& d[0].scale_percent == 100 && d[1].scale_percent == 150
            &&& d[0].name == "eDP-1"@ && d[1].name == "HDMI-A-1"@
        }),
{
}

/// The rows of each glyph, as numbers of which the highest bit is the left pixel.
pub proof fn glyphs_by_rows(c: char)
    ensures
        c == '0' ==> glyph_of(c) == seq![14u8, 17, 19, 21, 25, 17, 14],
        c == '1' ==> glyph_of(c) == seq![4u8, 12, 4, 4, 4, 4, 14],
        c == '2' ==> glyph_of(c) == seq![14u8, 17, 1, 2, 4, 8, 31],
        c == '3' ==> glyph_of(c) == seq![30u8, 1, 1, 14, 1, 1, 30],
        c == '4' ==> glyph_of(c) == seq![2u8, 6, 10, 18, 31, 2, 2],
        c == '5' ==> glyph_of(c) == seq![31u8, 16, 30, 1, 1, 17, 14],
        c == '6' ==> glyph_of(c) == seq![6u8, 8, 16, 30, 17, 17, 14],
        c == '7' ==> glyph_of(c) == seq![31u8, 1, 2, 4, 8, 8, 8],
        c == '8' ==> glyph_of(c) == seq![14u8, 17, 17, 14, 17, 17, 14],
        c == '9' ==> glyph_of(c) == seq![14u8, 17, 17, 15, 1, 2, 12],
        c == 'A' ==> glyph_of(c) == seq![14u8, 17, 17, 31, 17, 17, 17],
        c == 'B' ==> glyph_of(c) == seq![30u8, 17, 17, 30, 17, 17, 30],
        c == 'C' ==> glyph_of(c) == seq![14u8, 17, 16, 16, 16, 17, 14],
        c == 'D' ==> glyph_of(c) == seq![30u8, 17, 17, 17, 17, 17, 30],
        c == 'E' ==> glyph_of(c) == seq![31u8, 16, 16, 30, 16, 16, 31],
        c == 'F' ==> glyph_of(c) == seq![31u8, 16, 16, 30, 16, 16, 16],
        c == 'G' ==> glyph_of(c) == seq![14u8, 17, 16, 23, 17, 17, 15],
        c == 'H' ==> glyph_of(c) == seq![17u8, 17, 17, 31, 17, 17, 17],
        c == 'I' ==> glyph_of(c) == seq![14u8, 4, 4, 4, 4, 4, 14],
        c == 'J' ==> glyph_of(c) == seq![7u8, 2, 2, 2, 18, 18, 12],
        c == 'K' ==> glyph_of(c) == seq![17u8, 18, 20, 24, 20, 18, 17],
        c == 'L' ==> glyph_of(c) == seq![16u8, 16, 16, 16, 16, 16, 31],
        c == 'M' ==> glyph_of(c) == seq![17u8, 27, 21, 21, 17, 17, 17],
        c == 'N' ==> glyph_of(c) == seq![17u8, 25, 21, 19, 17, 17, 17],
        c == 'O' ==> glyph_of(c) == seq![14u8, 17, 17, 17, 17, 17, 14],
        c == 'P' ==> glyph_of(c) == seq![30u8, 17, 17, 30, 16, 16, 16],
        c == 'Q' ==> glyph_of(c) == seq![14u8, 17, 17, 17, 21, 18, 13],
        c == 'R' ==> glyph_of(c) == seq![30u8, 17, 17, 30, 20, 18, 17],
        c == 'S' ==> glyph_of(c) == seq![15u8, 16, 16, 14, 1, 1, 30],
        c == 'T' ==> glyph_of(c) == seq![31u8, 4, 4, 4, 4, 4, 4],
        c == 'U' ==> glyph_of(c) == seq![17u8, 17, 17, 17, 17, 17, 14],
        c == 'V' ==> glyph_of(c) == seq![17u8, 17, 17, 17, 17, 10, 4],
        c == 'W' ==> glyph_of(c) == seq![17u8, 17, 17, 21, 21, 21, 10],
        c == 'X' ==> glyph_of(c) == seq![17u8, 17, 10, 4, 10, 17, 17],
        c == 'Y' ==> glyph_of(c) == seq![17u8, 17, 10, 4, 4, 4, 4],
        c == 'Z' ==> glyph_of(c) == seq![31u8, 1, 2, 4, 8, 16, 31],
        c == '-' ==> glyph_of(c) == seq![0u8, 0, 0, 31, 0, 0, 0],
        c == ' ' ==> glyph_of(c) == seq![0u8, 0, 0, 0, 0, 0, 0],
{
    assert(GLYPHS[0]@ =~= seq![14u8, 17, 19, 21, 25, 17, 14]);
    assert(GLYPHS[1]@ =~= seq![4u8, 12, 4, 4, 4, 4, 14]);
    assert(GLYPHS[2]@ =~= seq![14u8, 17, 1, 2, 4, 8, 31]);
    assert(GLYPHS[3]@ =~= seq![30u8, 1, 1, 14, 1, 1, 30]);
    assert(GLYPHS[4]@ =~= seq![2u8, 6, 10, 18, 31, 2, 2]);
    assert(GLYPHS[5]@ =~= seq![31u8, 16, 30, 1, 1, 17, 14]);
    assert(GLYPHS[6]@ =~= seq![6u8, 8, 16, 30, 17, 17, 14]);
    assert(GLYPHS[7]@ =~= seq![31u8, 1, 2, 4, 8, 8, 8]);
    assert(GLYPHS[8]@ =~= seq![14u8, 17, 17, 14, 17, 17, 14]);
    assert(GLYPHS[9]@ =~= seq![14u8, 17, 17, 15, 1, 2, 12]);
    assert(GLYPHS[10]@ =~= seq![14u8, 17, 17, 31, 17, 17, 17]);
    assert(GLYPHS[11]@ =~= seq![30u8, 17, 17, 30, 17, 17, 30]);
    assert(GLYPHS[12]@ =~= seq![14u8, 17, 16, 16, 16, 17, 14]);
    assert(GLYPHS[13]@ =~= seq![30u8, 17, 17, 17, 17, 17, 30]);
    assert(GLYPHS[14]@ =~= seq![31u8, 16, 16, 30, 16, 16, 31]);
    assert(GLYPHS[15]@ =~= seq![31u8, 16, 16, 30, 16, 16, 16]);
    assert(GLYPHS[16]@ =~= seq![14u8, 17, 16, 23, 17, 17, 15]);
    assert(GLYPHS[17]@ =~= seq![17u8, 17, 17, 31, 17, 17, 17]);
    assert(GLYPHS[18]@ =~= seq![14u8, 4, 4, 4, 4, 4, 14]);
    assert(GLYPHS[19]@ =~= seq![7u8, 2, 2, 2, 18, 18, 12]);
    assert(GLYPHS[20]@ =~= seq![17u8, 18, 20, 24, 20, 18, 17]);
    assert(GLYPHS[21]@ =~= seq![16u8, 16, 16, 16, 16, 16, 31]);
    assert(GLYPHS[22]@ =~= seq![17u8, 27, 21, 21, 17, 17, 17]);
    assert(GLYPHS[23]@ =~= seq![17u8, 25, 21, 19, 17, 17, 17]);
    assert(GLYPHS[24]@ =~= seq![14u8, 17, 17, 17, 17, 17, 14]);
    assert(GLYPHS[25]@ =~= seq![30u8, 17, 17, 30, 16, 16, 16]);
    assert(GLYPHS[26]@ =~= seq![14u8, 17, 17, 17, 21, 18, 13]);
    assert(GLYPHS[27]@ =~= seq![30u8, 17, 17, 30, 20, 18, 17]);
    assert(GLYPHS[28]@ =~= seq![15u8, 16, 16, 14, 1, 1, 30]);
    assert(GLYPHS[29]@ =~= seq![31u8, 4, 4, 4, 4, 4, 4]);
    assert(GLYPHS[30]@ =~= seq![17u8, 17, 17, 17, 17, 17, 14]);
    assert(GLYPHS[31]@ =~= seq![17u8, 17, 17, 17, 17, 10, 4]);
    assert(GLYPHS[32]@ =~= seq![17u8, 17, 17, 21, 21, 21, 10]);
    assert(GLYPHS[33]@ =~= seq![17u8, 17, 10, 4, 10, 17, 17]);
    assert(GLYPHS[34]@ =~= seq![17u8, 17, 10, 4, 4, 4, 4]);
    assert(GLYPHS[35]@ =~= seq![31u8, 1, 2, 4, 8, 16, 31]);
    assert(GLYPHS[36]@ =~= seq![0u8, 0, 0, 31, 0, 0, 0]);
    assert(GLYPHS[37]@ =~= seq![0u8, 0, 0, 0, 0, 0, 0]);
}

} // verus!
