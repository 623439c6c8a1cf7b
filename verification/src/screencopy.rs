//! wlr-screencopy capture of every monitor.
//!
//! The compositor's events about its outputs and their frames are taken up here,
//! and the layout for the client and the frames are made from them. The output
//! list is read once per session; a monitor plugged in mid-session appears on the
//! next.

use vstd::prelude::*;
use vstd::arithmetic::div_mod::*;
use vstd::arithmetic::mul::*;
use vstd::string::*;

use crate::capture::{FrameView, RawFrame};
use crate::input::Region;
use crate::layout::{origins, pixel_origins};
use crate::message::{display_views, DisplayInfo, DisplayView};
use crate::text::{decimal, push_decimal};
use crate::yuv::{even, evened, packed_frame, packed_to_i420, PixelOrder};

verus! {

/// The pixel formats of shared-memory buffers that can be converted, and all
/// others.
#[derive(Clone, Copy, Debug, PartialEq, Eq, Structural)]
pub enum ShmFormat {
    Xrgb8888,
    Argb8888,
    Xbgr8888,
    Abgr8888,
    Other,
}

/// A buffer that the compositor can copy an output into.
#[derive(Clone, Copy, Debug, PartialEq, Eq, Structural)]
pub struct BufferSpec {
    pub format: ShmFormat,
    pub width: u32,
    pub height: u32,
    pub stride: u32,
}

/// What became of the frame that was asked for.
#[derive(Clone, Copy, Debug, PartialEq, Eq, Structural)]
pub enum Pending {
    Idle,
    Waiting,
    Ready,
    Failed,
}

/// What is known of an output.
#[derive(Debug, PartialEq, Eq)]
pub struct Output {
    pub name: Option<String>,
    pub geometry: (i32, i32),
    pub mode: Option<(i32, i32)>,
    pub scale: i32,
    pub logical_position: Option<(i32, i32)>,
    pub logical_size: Option<(i32, i32)>,
    /// The buffer that the compositor asks for.
    pub spec: Option<BufferSpec>,
    /// The buffer that there is.
    pub buffer: Option<BufferSpec>,
    pub y_invert: bool,
    pub pending: Pending,
}

/// The channel order of a format: its name has the highest byte first, and the
/// pixels are little-endian.
pub open spec fn order_of_format(format: ShmFormat) -> Option<PixelOrder> {
    match format {
        ShmFormat::Xrgb8888 => Some(PixelOrder::Bgrx),
        ShmFormat::Argb8888 => Some(PixelOrder::Bgra),
        ShmFormat::Xbgr8888 => Some(PixelOrder::Rgbx),
        ShmFormat::Abgr8888 => Some(PixelOrder::Rgba),
        ShmFormat::Other => None,
    }
}

pub fn pixel_order(format: ShmFormat) -> (r: Option<PixelOrder>)
    ensures
        r == order_of_format(format),
{
    match format {
        ShmFormat::Xrgb8888 => Some(PixelOrder::Bgrx),
        ShmFormat::Argb8888 => Some(PixelOrder::Bgra),
        ShmFormat::Xbgr8888 => Some(PixelOrder::Rgbx),
        ShmFormat::Abgr8888 => Some(PixelOrder::Rgba),
        ShmFormat::Other => None,
    }
}

// ---------------------------------------------------------------------------
// Events
// ---------------------------------------------------------------------------

/// An event about an output.
#[derive(Debug, PartialEq, Eq)]
pub enum OutputEvent {
    Geometry { x: i32, y: i32 },
    /// A mode, and whether it is the current one.
    Mode { width: i32, height: i32, current: bool },
    Scale { factor: i32 },
    Name { name: String },
    LogicalPosition { x: i32, y: i32 },
    LogicalSize { width: i32, height: i32 },
    /// The name that the desktop extension gives, which counts for more.
    DesktopName { name: String },
}

/// An event about a frame that was asked for.
#[derive(Clone, Copy, Debug, PartialEq, Eq, Structural)]
pub enum FrameEvent {
    /// A buffer that would do, on this version of the protocol.
    Buffer { spec: BufferSpec, version: u32 },
    BufferDone,
    Flags { y_invert: bool },
    Ready,
    Failed,
}

/// What to do for a frame after an event.
#[derive(Clone, Copy, Debug, PartialEq, Eq, Structural)]
pub enum Attach {
    Nothing,
    /// Copy into the buffer that there is.
    Copy,
    /// Destroy the buffer that there is, if any, and create this one.
    Create(BufferSpec),
}

/// An output after its frame is to be attached, and what to do.
pub open spec fn attached(o: Output) -> (Output, Attach) {
    match o.spec {
        None => (Output { pending: Pending::Failed, ..o }, Attach::Nothing),
        Some(spec) => if o.buffer == Some(spec) {
            (o, Attach::Copy)
        } else {
            (Output { buffer: None, ..o }, Attach::Create(spec))
        },
    }
}

/// An output after an event about its frame, and what to do.
pub open spec fn after_frame_event(o: Output, event: FrameEvent) -> (Output, Attach) {
    match event {
        FrameEvent::Buffer { spec, version } => {
            let next = if order_of_format(spec.format) is Some {
                Output { spec: Some(spec), ..o }
            } else {
                o
            };
            if version < 3 {
                attached(next)
            } else {
                (next, Attach::Nothing)
            }
        },
        FrameEvent::BufferDone => attached(o),
        FrameEvent::Flags { y_invert } => (Output { y_invert, ..o }, Attach::Nothing),
        FrameEvent::Ready => (Output { pending: Pending::Ready, ..o }, Attach::Nothing),
        FrameEvent::Failed => (Output { pending: Pending::Failed, ..o }, Attach::Nothing),
    }
}

impl Output {
    /// An output of which nothing is known.
    pub fn new() -> (r: Output)
        ensures
            r == (Output {
                name: None,
                geometry: (0, 0),
                mode: None,
                scale: 1,
                logical_position: None,
                logical_size: None,
                spec: None,
                buffer: None,
                y_invert: false,
                pending: Pending::Idle,
            }),
    {
        Output {
            name: None,
            geometry: (0, 0),
            mode: None,
            scale: 1,
            logical_position: None,
            logical_size: None,
            spec: None,
            buffer: None,
            y_invert: false,
            pending: Pending::Idle,
        }
    }

    /// Takes up an event about the output.
    pub fn on_event(&mut self, event: OutputEvent)
        ensures
            *final(self) == after_output_event(*old(self), event),
            match event {
                OutputEvent::Geometry { x, y } => *final(self) == (Output {
                    geometry: (x, y),
                    ..*old(self)
                }),
                OutputEvent::Mode { width, height, current } => *final(self) == (if current {
                    Output { mode: Some((width, height)), ..*old(self) }
                } else {
                    *old(self)
                }),
                OutputEvent::Scale { factor } => *final(self) == (Output {
                    scale: factor,
                    ..*old(self)
                }),
                OutputEvent::Name { name } => *final(self) == (if old(self).name is Some {
                    *old(self)
                } else {
                    Output { name: Some(name), ..*old(self) }
                }),
                OutputEvent::LogicalPosition { x, y } => *final(self) == (Output {
                    logical_position: Some((x, y)),
                    ..*old(self)
                }),
                OutputEvent::LogicalSize { width, height } => *final(self) == (Output {
                    logical_size: Some((width, height)),
                    ..*old(self)
                }),
                OutputEvent::DesktopName { name } => *final(self) == (Output {
                    name: Some(name),
                    ..*old(self)
                }),
            },
    {
        match event {
            OutputEvent::Geometry { x, y } => {
                self.geometry = (x, y);
            },
            OutputEvent::Mode { width, height, current } => {
                if current {
                    self.mode = Some((width, height));
                }
            },
            OutputEvent::Scale { factor } => {
                self.scale = factor;
            },
            OutputEvent::Name { name } => {
                if self.name.is_none() {
                    self.name = Some(name);
                }
            },
            OutputEvent::LogicalPosition { x, y } => {
                self.logical_position = Some((x, y));
            },
            OutputEvent::LogicalSize { width, height } => {
                self.logical_size = Some((width, height));
            },
            OutputEvent::DesktopName { name } => {
                self.name = Some(name);
            },
        }
    }

    /// The frame of the output needs a buffer now.
    pub fn attach(&mut self) -> (r: Attach)
        ensures
            (*final(self), r) == attached(*old(self)),
    {
        match self.spec {
            None => {
                self.pending = Pending::Failed;
                Attach::Nothing
            },
            Some(spec) => {
                let fits = match self.buffer {
                    Some(have) => have == spec,
                    None => false,
                };
                if fits {
                    Attach::Copy
                } else {
                    self.buffer = None;
                    Attach::Create(spec)
                }
            },
        }
    }

    /// Takes up an event about the frame of the output.
    pub fn on_frame(&mut self, event: FrameEvent) -> (r: Attach)
        ensures
            (*final(self), r) == after_frame_event(*old(self), event),
    {
        match event {
            FrameEvent::Buffer { spec, version } => {
                if pixel_order(spec.format).is_some() {
                    self.spec = Some(spec);
                }
                if version < 3 {
                    self.attach()
                } else {
                    Attach::Nothing
                }
            },
            FrameEvent::BufferDone => self.attach(),
            FrameEvent::Flags { y_invert } => {
                self.y_invert = y_invert;
                Attach::Nothing
            },
            FrameEvent::Ready => {
                self.pending = Pending::Ready;
                Attach::Nothing
            },
            FrameEvent::Failed => {
                self.pending = Pending::Failed;
                Attach::Nothing
            },
        }
    }

    /// The buffer that was to be created is there, or could not be.
    pub fn on_buffer(&mut self, created: Option<BufferSpec>)
        ensures
            *final(self) == (match created {
                Some(spec) => Output { buffer: Some(spec), ..*old(self) },
                None => Output { pending: Pending::Failed, ..*old(self) },
            }),
    {
        match created {
            Some(spec) => {
                self.buffer = Some(spec);
            },
            None => {
                self.pending = Pending::Failed;
            },
        }
    }
}

/// A frame is asked of every output.
pub fn begin_round(outputs: &mut Vec<Output>)
    ensures
        final(outputs)@ == old(outputs)@.map_values(
            |o: Output| Output { pending: Pending::Waiting, ..o },
        ),
{
    let n: usize = outputs.len();
    for i in 0..n
        invariant
            n == outputs@.len(),
            n == old(outputs)@.len(),
            forall|j: int|
                0 <= j < i ==> #[trigger] outputs@[j] == (Output {
                    pending: Pending::Waiting,
                    ..old(outputs)@[j]
                }),
            forall|j: int| i <= j < n ==> #[trigger] outputs@[j] == old(outputs)@[j],
    {
        outputs[i].pending = Pending::Waiting;
    }
    assert(outputs@ =~= old(outputs)@.map_values(
        |o: Output| Output { pending: Pending::Waiting, ..o },
    ));
}

/// Whether the frame of an output is still to come.
pub fn round_is_open(outputs: &Vec<Output>) -> (r: bool)
    ensures
        r == exists|i: int| 0 <= i < outputs@.len() && (#[trigger] outputs@[i]).pending
            == Pending::Waiting,
{
    for i in 0..outputs.len()
        invariant
            forall|j: int| 0 <= j < i ==> (#[trigger] outputs@[j]).pending != Pending::Waiting,
    {
        if outputs[i].pending == Pending::Waiting {
            return true;
        }
    }
    false
}

pub open spec fn given_up(o: Output) -> Output {
    if o.pending == Pending::Waiting {
        Output { pending: Pending::Failed, ..o }
    } else {
        o
    }
}

/// A sleeping output may never answer: what has not come by now has failed.
pub fn end_round(outputs: &mut Vec<Output>)
    ensures
        final(outputs)@ == old(outputs)@.map_values(|o: Output| given_up(o)),
{
    let n: usize = outputs.len();
    for i in 0..n
        invariant
            n == outputs@.len(),
            n == old(outputs)@.len(),
            forall|j: int| 0 <= j < i ==> #[trigger] outputs@[j] == given_up(old(outputs)@[j]),
            forall|j: int| i <= j < n ==> #[trigger] outputs@[j] == old(outputs)@[j],
    {
        if outputs[i].pending == Pending::Waiting {
            outputs[i].pending = Pending::Failed;
        }
    }
    assert(outputs@ =~= old(outputs)@.map_values(|o: Output| given_up(o)));
}

/// Whether any output offers a buffer that can be converted.
pub fn offers_buffer(outputs: &Vec<Output>) -> (r: bool)
    ensures
        r == exists|i: int| 0 <= i < outputs@.len() && (#[trigger] outputs@[i]).spec is Some,
{
    for i in 0..outputs.len()
        invariant
            forall|j: int| 0 <= j < i ==> (#[trigger] outputs@[j]).spec is None,
    {
        if outputs[i].spec.is_some() {
            return true;
        }
    }
    false
}

// ---------------------------------------------------------------------------
// Layout
// ---------------------------------------------------------------------------

/// A side on the desktop, of at least one point.
pub open spec fn logical_side(side: i32, scale: i32) -> u32 {
    let s = if scale < 1 {
        1int
    } else {
        scale as int
    };
    if side < s {
        1
    } else {
        (side as int / s) as u32
    }
}

pub open spec fn at_least_one(side: i32) -> u32 {
    if side < 1 {
        1
    } else {
        side as u32
    }
}

/// Where an output is on the desktop, and how large: as the desktop extension
/// says, or else from its geometry, mode and scale.
pub open spec fn rect_of(o: Output) -> (i32, i32, u32, u32) {
    let (x, y) = match o.logical_position {
        Some(p) => p,
        None => o.geometry,
    };
    match o.logical_size {
        Some((w, h)) => (x, y, at_least_one(w), at_least_one(h)),
        None => {
            let (w, h) = match o.mode {
                Some(m) => m,
                None => (1920i32, 1080i32),
            };
            (x, y, logical_side(w, o.scale), logical_side(h, o.scale))
        },
    }
}

fn side(len: i32, scale: i32) -> (r: u32)
    ensures
        r == logical_side(len, scale),
{
    let s: i32 = if scale < 1 {
        1
    } else {
        scale
    };
    if len < s {
        1
    } else {
        (len as u32) / (s as u32)
    }
}

fn one_or_more(len: i32) -> (r: u32)
    ensures
        r == at_least_one(len),
{
    if len < 1 {
        1
    } else {
        len as u32
    }
}

impl Output {
    pub fn logical_rect(&self) -> (r: (i32, i32, u32, u32))
        ensures
            r == rect_of(*self),
    {
        let (x, y) = match self.logical_position {
            Some(p) => p,
            None => self.geometry,
        };
        match self.logical_size {
            Some((w, h)) => (x, y, one_or_more(w), one_or_more(h)),
            None => {
                let (w, h) = match self.mode {
                    Some(m) => m,
                    None => (1920i32, 1080i32),
                };
                (x, y, side(w, self.scale), side(h, self.scale))
            },
        }
    }
}

/// The region of an output, where it has a picture.
pub open spec fn region_for(o: Output, index: int) -> Option<Region> {
    match o.spec {
        Some(spec) if evened(spec.width as int) >= 2 && evened(spec.height as int) >= 2 => {
            let (x, y, w, h) = rect_of(o);
            Some(
                Region {
                    id: index as u32,
                    x,
                    y,
                    width: w,
                    height: h,
                    pixel_width: evened(spec.width as int) as u32,
                    pixel_height: evened(spec.height as int) as u32,
                },
            )
        },
        _ => None,
    }
}

/// The name of an output.
pub open spec fn name_for(o: Output, index: int) -> Seq<char> {
    match o.name {
        Some(name) => name@,
        None => "monitor-"@ + decimal(index as nat),
    }
}

/// The regions of the outputs that have a picture, in order, with their names.
pub open spec fn named_regions(outputs: Seq<Output>) -> (Seq<Region>, Seq<Seq<char>>)
    decreases outputs.len(),
{
    if outputs.len() == 0 {
        (seq![], seq![])
    } else {
        let (regions, names) = named_regions(outputs.drop_last());
        let index = outputs.len() - 1;
        match region_for(outputs.last(), index) {
            Some(region) => (regions.push(region), names.push(name_for(outputs.last(), index))),
            None => (regions, names),
        }
    }
}

/// The scale of a side in per cent, to the nearest whole number.
pub open spec fn percent(pixels: u32, logical: u32) -> u16 {
    let l = if logical == 0 {
        1int
    } else {
        logical as int
    };
    let v = (200 * pixels + l) / (2 * l);
    if v < 1 {
        1
    } else if v > u16::MAX {
        u16::MAX
    } else {
        v as u16
    }
}

fn percent_of(pixels: u32, logical: u32) -> (r: u16)
    ensures
        r == percent(pixels, logical),
{
    let l: u64 = if logical == 0 {
        1
    } else {
        logical as u64
    };
    let v: u64 = (200 * pixels as u64 + l) / (2 * l);
    if v < 1 {
        1
    } else if v > u16::MAX as u64 {
        u16::MAX
    } else {
        v as u16
    }
}

/// The display of a region.
pub open spec fn display_for(region: Region, origin: (i32, i32), name: Seq<char>) -> DisplayView {
    DisplayView {
        id: region.id,
        x: origin.0,
        y: origin.1,
        width: region.pixel_width,
        height: region.pixel_height,
        scale_percent: percent(region.pixel_width, region.width),
        name,
    }
}

/// Pixel layout for the client plus the logical rects the pointer uses.
pub fn layout(outputs: &Vec<Output>) -> (r: (Vec<DisplayInfo>, Vec<Region>))
    requires
        outputs@.len() <= u32::MAX,
    ensures
        r.1@ == named_regions(outputs@).0,
        display_views(r.0@) == Seq::new(
            r.1@.len(),
            |i: int|
                display_for(
                    r.1@[i],
                    origins(named_regions(outputs@).0)[i],
                    named_regions(outputs@).1[i],
                ),
        ),
{
    let mut regions: Vec<Region> = Vec::new();
    let mut names: Vec<String> = Vec::new();
    let ghost chars = |s: String| s@;
    assert(names@.map_values(chars) =~= named_regions(outputs@.take(0)).1);
    for i in 0..outputs.len()
        invariant
            outputs@.len() <= u32::MAX,
            chars == (|s: String| s@),
            regions@ == named_regions(outputs@.take(i as int)).0,
            names@.map_values(chars) == named_regions(outputs@.take(i as int)).1,
            names@.len() == regions@.len(),
    {
        assert(outputs@.take(i + 1).drop_last() =~= outputs@.take(i as int));
        let output = &outputs[i];
        if let Some(spec) = output.spec {
            let width: u32 = even(spec.width);
            let height: u32 = even(spec.height);
            if width >= 2 && height >= 2 {
                let (x, y, lw, lh) = output.logical_rect();
                regions.push(
                    Region {
                        id: i as u32,
                        x,
                        y,
                        width: lw,
                        height: lh,
                        pixel_width: width,
                        pixel_height: height,
                    },
                );
                let name = match &output.name {
                    Some(name) => name.clone(),
                    None => {
                        let mut text = "monitor-".to_owned();
                        push_decimal(&mut text, i as u64);
                        text
                    },
                };
                let ghost before = names@;
                names.push(name);
                assert(names@.map_values(chars) =~= before.map_values(chars).push(name@));
            }
        }
    }
    assert(outputs@.take(outputs@.len() as int) =~= outputs@);
    let places = pixel_origins(regions.as_slice());
    let mut displays: Vec<DisplayInfo> = Vec::new();
    let ghost all = Seq::new(
        regions@.len(),
        |i: int|
            display_for(
                regions@[i],
                origins(named_regions(outputs@).0)[i],
                named_regions(outputs@).1[i],
            ),
    );
    assert(display_views(displays@) =~= all.take(0));
    for i in 0..regions.len()
        invariant
            chars == (|s: String| s@),
            regions@ == named_regions(outputs@).0,
            names@.map_values(chars) == named_regions(outputs@).1,
            names@.len() == regions@.len(),
            places@ == origins(regions@),
            all == Seq::new(
                regions@.len(),
                |i: int|
                    display_for(
                        regions@[i],
                        origins(named_regions(outputs@).0)[i],
                        named_regions(outputs@).1[i],
                    ),
            ),
            display_views(displays@) == all.take(i as int),
    {
        let region = regions[i];
        let (x, y) = places[i];
        let display = DisplayInfo {
            id: region.id,
            x,
            y,
            width: region.pixel_width,
            height: region.pixel_height,
            scale_percent: percent_of(region.pixel_width, region.width),
            name: names[i].clone(),
        };
        let ghost before = displays@;
        displays.push(display);
        assert(names@.map_values(chars)[i as int] == names@[i as int]@);
        assert(display_views(displays@) =~= display_views(before).push(display@));
        assert(all.take(i + 1) =~= all.take(i as int).push(all[i as int]));
    }
    assert(all.take(all.len() as int) =~= all);
    (displays, regions)
}

// ---------------------------------------------------------------------------
// Frames
// ---------------------------------------------------------------------------

/// Bytes with their first `height` rows in reverse order.
pub open spec fn flipped(s: Seq<u8>, stride: int, height: int) -> Seq<u8> {
    Seq::new(
        s.len(),
        |i: int|
            if 0 < stride && i < stride * height {
                s[(height - 1 - i / stride) * stride + i % stride]
            } else {
                s[i]
            },
    )
}

/// Turns the rows of a picture upside down.
pub fn flip_rows(bytes: &mut Vec<u8>, stride: usize, height: usize)
    requires
        stride * height <= old(bytes)@.len(),
    ensures
        final(bytes)@ == flipped(old(bytes)@, stride as int, height as int),
{
    let ghost s = bytes@;
    let ghost whole = flipped(s, stride as int, height as int);
    let mut out: Vec<u8> = Vec::new();
    let len: usize = bytes.len();
    proof {
        lemma_mul_basics(stride as int);
        lemma_mul_nonnegative(stride as int, height as int);
    }
    if stride > 0 {
        for row in 0..height
            invariant
                bytes@ == s,
                len == s.len(),
                stride > 0,
                stride * height <= s.len(),
                whole == flipped(s, stride as int, height as int),
                0 <= row * stride <= stride * height,
                out@ == whole.take(row * stride),
        {
            proof {
                crate::yuv::place_in(row as int, 0, stride as int, height as int);
                crate::yuv::place_in(height - 1 - row, 0, stride as int, height as int);
            }
            let from: usize = (height - 1 - row) * stride;
            for col in 0..stride
                invariant
                    bytes@ == s,
                    stride > 0,
                    stride * height <= s.len(),
                    whole == flipped(s, stride as int, height as int),
                    row < height,
                    0 <= row * stride,
                    row * stride + stride <= stride * height,
                    from == (height - 1 - row) * stride,
                    from + stride <= stride * height,
                    out@ == whole.take(row * stride + col),
            {
                proof {
                    crate::yuv::place(row as int, col as int, stride as int);
                    let k = row * stride + col;
                    assert(whole[k] == s[from + col]);
                    assert(whole.take(k + 1) =~= whole.take(k).push(whole[k]));
                    assert(bytes@.len() == bytes.len());
                }
                out.push(bytes[from + col]);
            }
        }
        proof {
            lemma_mul_is_commutative(stride as int, height as int);
        }
    } else {
        assert(stride * height == 0) by (nonlinear_arith)
            requires
                stride == 0,
        ;
    }
    assert(out@ =~= whole.take(stride * height));
    let mut i: usize = out.len();
    while i < len
        invariant
            bytes@ == s,
            len == s.len(),
            whole == flipped(s, stride as int, height as int),
            stride * height <= i <= len,
            out@ == whole.take(i as int),
        decreases len - i,
    {
        out.push(bytes[i]);
        assert(whole.take(i + 1) =~= whole.take(i as int).push(whole[i as int]));
        i += 1;
    }
    assert(whole.take(len as int) =~= whole);
    *bytes = out;
}

/// Turning a picture over twice gives it back.
pub proof fn flipping_twice(s: Seq<u8>, stride: int, height: int)
    requires
        0 <= stride,
        0 <= height,
        stride * height <= s.len(),
    ensures
        flipped(flipped(s, stride, height), stride, height) == s,
{
    let once = flipped(s, stride, height);
    assert forall|i: int| 0 <= i < s.len() implies flipped(once, stride, height)[i] == s[i] by {
        if 0 < stride && i < stride * height {
            let row = i / stride;
            let col = i % stride;
            lemma_fundamental_div_mod(i, stride);
            lemma_mul_is_commutative(stride, row);
            lemma_mod_bound(i, stride);
            lemma_div_pos_is_pos(i, stride);
            lemma_mul_is_commutative(stride, height);
            lemma_multiply_divide_lt(i, stride, height);
            let back = height - 1 - row;
            crate::yuv::place(back, col, stride);
            crate::yuv::place_in(back, col, stride, height);
            assert(once[back * stride + col] == s[(height - 1 - back) * stride + col]);
        }
    }
    assert(flipped(once, stride, height) =~= s);
}

/// The buffer that a frame of this size is read from, where there is one.
pub open spec fn frame_source(o: Output, width: u32, height: u32) -> Option<BufferSpec> {
    match o.buffer {
        Some(spec) if o.pending == Pending::Ready && evened(spec.width as int) == width && evened(
            spec.height as int,
        ) == height => Some(spec),
        _ => None,
    }
}

/// The picture of an output, from the bytes of its buffer.
pub open spec fn frame_spec(o: Output, width: u32, height: u32, bytes: Seq<u8>) -> Option<Seq<u8>> {
    match frame_source(o, width, height) {
        Some(spec) => match order_of_format(spec.format) {
            Some(order) => {
                let pixels = if o.y_invert {
                    flipped(bytes, spec.stride as int, spec.height as int)
                } else {
                    bytes
                };
                packed_frame(pixels, spec.stride as int, width, height, order)
            },
            None => None,
        },
        None => None,
    }
}

impl Output {
    /// The buffer to read for a frame of this size.
    pub fn source(&self, width: u32, height: u32) -> (r: Option<BufferSpec>)
        ensures
            r == frame_source(*self, width, height),
    {
        if self.pending != Pending::Ready {
            return None;
        }
        match self.buffer {
            Some(spec) => if even(spec.width) == width && even(spec.height) == height {
                Some(spec)
            } else {
                None
            },
            None => None,
        }
    }

    /// The frame of the output that has this index, from the bytes of its buffer.
    pub fn frame(&self, index: u32, width: u32, height: u32, bytes: Vec<u8>) -> (r: Option<RawFrame>)
        requires
            frame_source(*self, width, height) matches Some(spec) ==> bytes@.len() == spec.stride
                * spec.height,
        ensures
            match frame_spec(*self, width, height, bytes@) {
                Some(i420) => r matches Some(f) && f@ == (FrameView {
                    display_id: index,
                    width,
                    height,
                    i420,
                }),
                None => r is None,
            },
    {
        let spec = match self.source(width, height) {
            Some(spec) => spec,
            None => {
                return None;
            },
        };
        let order = match pixel_order(spec.format) {
            Some(order) => order,
            None => {
                return None;
            },
        };
        let mut pixels = bytes;
        if self.y_invert {
            flip_rows(&mut pixels, spec.stride as usize, spec.height as usize);
        }
        match packed_to_i420(pixels.as_slice(), spec.stride as usize, width, height, order) {
            Some(i420) => Some(RawFrame { display_id: index, width, height, i420 }),
            None => None,
        }
    }
}

// ---------------------------------------------------------------------------
// What the layout is
// ---------------------------------------------------------------------------

/// An output after an event about it.
pub open spec fn after_output_event(o: Output, event: OutputEvent) -> Output {
    match event {
        OutputEvent::Geometry { x, y } => Output { geometry: (x, y), ..o },
        OutputEvent::Mode { width, height, current } => if current {
            Output { mode: Some((width, height)), ..o }
        } else {
            o
        },
        OutputEvent::Scale { factor } => Output { scale: factor, ..o },
        OutputEvent::Name { name } => if o.name is Some {
            o
        } else {
            Output { name: Some(name), ..o }
        },
        OutputEvent::LogicalPosition { x, y } => Output { logical_position: Some((x, y)), ..o },
        OutputEvent::LogicalSize { width, height } => Output {
            logical_size: Some((width, height)),
            ..o
        },
        OutputEvent::DesktopName { name } => Output { name: Some(name), ..o },
    }
}

/// Whether the buffer that is asked of an output is large enough for a picture.
pub open spec fn has_picture(o: Output) -> bool {
    o.spec matches Some(spec) && spec.width >= 2 && spec.height >= 2
}

/// An output is where the desktop extension says, whatever else is known of it: across
/// at the first number and down at the second, both on the desktop and in its region.
pub proof fn output_is_at_its_position(o: Output, index: int)
    ensures
        o.logical_position matches Some(p) ==> rect_of(o).0 == p.0 && rect_of(o).1 == p.1,
        o.logical_position is None ==> rect_of(o).0 == o.geometry.0 && rect_of(o).1
            == o.geometry.1,
        region_for(o, index) matches Some(r) ==> r.x == rect_of(o).0 && r.y == rect_of(o).1,
        region_for(o, index) matches Some(r) ==> match o.logical_position {
            Some(p) => r.x == p.0 && r.y == p.1,
            None => r.x == o.geometry.0 && r.y == o.geometry.1,
        },
{
}

/// An output has the size that the desktop extension says: wide first, high second, and
/// at least one point.
pub proof fn output_has_its_size(o: Output, index: int)
    ensures
        o.logical_size matches Some(s) ==> {
            &&& s.0 >= 1 ==> rect_of(o).2 == s.0
            &&& s.0 < 1 ==> rect_of(o).2 == 1
            &&& s.1 >= 1 ==> rect_of(o).3 == s.1
            &&& s.1 < 1 ==> rect_of(o).3 == 1
        },
        region_for(o, index) matches Some(r) ==> r.width == rect_of(o).2 && r.height
            == rect_of(o).3,
{
}

/// Without the desktop extension the size is that of the mode over the scale, without
/// a rest. A scale under 1 counts as 1, and an unknown mode as 1920 by 1080.
pub proof fn output_has_its_mode_over_its_scale(o: Output)
    requires
        o.logical_size is None,
    ensures
        ({
            let scale = if o.scale > 1 {
                o.scale as int
            } else {
                1
            };
            let mode = match o.mode {
                Some(m) => m,
                None => (1920, 1080),
            };
            &&& mode.0 >= scale ==> rect_of(o).2 * scale <= mode.0 < rect_of(o).2 * scale + scale
            &&& mode.0 < scale ==> rect_of(o).2 == 1
            &&& mode.1 >= scale ==> rect_of(o).3 * scale <= mode.1 < rect_of(o).3 * scale + scale
            &&& mode.1 < scale ==> rect_of(o).3 == 1
        }),
{
    let scale = if o.scale > 1 {
        o.scale as int
    } else {
        1
    };
    let mode = match o.mode {
        Some(m) => m,
        None => (1920i32, 1080i32),
    };
    if mode.0 >= scale {
        lemma_fundamental_div_mod(mode.0 as int, scale);
        lemma_mul_is_commutative(mode.0 as int / scale, scale);
        lemma_mod_bound(mode.0 as int, scale);
        lemma_div_pos_is_pos(mode.0 as int, scale);
        lemma_div_nonincreasing(mode.0 as int, scale);
    }
    if mode.1 >= scale {
        lemma_fundamental_div_mod(mode.1 as int, scale);
        lemma_mul_is_commutative(mode.1 as int / scale, scale);
        lemma_mod_bound(mode.1 as int, scale);
        lemma_div_pos_is_pos(mode.1 as int, scale);
        lemma_div_nonincreasing(mode.1 as int, scale);
    }
}

/// What the compositor says last of an output counts, and what it says of one thing
/// leaves the others alone.
pub proof fn events_are_taken_up(o: Output, event: OutputEvent, index: int)
    ensures
        ({
            let a = after_output_event(o, event);
            &&& event matches OutputEvent::LogicalPosition { x, y } ==> {
                &&& rect_of(a).0 == x && rect_of(a).1 == y
                &&& region_for(a, index) matches Some(r) ==> r.x == x && r.y == y
            }
            &&& event matches OutputEvent::LogicalSize { width, height } ==> {
                &&& width >= 1 ==> rect_of(a).2 == width
                &&& height >= 1 ==> rect_of(a).3 == height
            }
            &&& event matches OutputEvent::Geometry { x, y } ==> a.geometry.0 == x && a.geometry.1
                == y
            &&& event matches OutputEvent::Mode { width, height, current } ==> if current {
                a.mode == Some((width, height))
            } else {
                a.mode == o.mode
            }
            &&& event matches OutputEvent::Scale { factor } ==> a.scale == factor
            &&& event matches OutputEvent::DesktopName { name } ==> a.name == Some(name)
            &&& event matches OutputEvent::Name { name } ==> if o.name is None {
                a.name == Some(name)
            } else {
                a.name == o.name
            }
            &&& !(event is LogicalPosition) ==> a.logical_position == o.logical_position
            &&& !(event is LogicalSize) ==> a.logical_size == o.logical_size
            &&& !(event is Geometry) ==> a.geometry == o.geometry
            &&& !(event is Mode) ==> a.mode == o.mode
            &&& !(event is Scale) ==> a.scale == o.scale
            &&& !(event is Name) && !(event is DesktopName) ==> a.name == o.name
            &&& a.spec == o.spec && a.buffer == o.buffer && a.y_invert == o.y_invert && a.pending
                == o.pending
        }),
{
}

/// Every output with a picture has a region with its index, its size in pixels without
/// an odd last one, and its name, or one made of the index; the others have none. The
/// regions are in the order of the outputs.
pub proof fn every_output_has_its_region(outputs: Seq<Output>)
    requires
        outputs.len() <= u32::MAX,
    ensures
        ({
            let (regions, names) = named_regions(outputs);
            &&& regions.len() == names.len()
            &&& forall|k: int| #![trigger regions[k]]
                0 <= k < regions.len() ==> {
                    let r = regions[k];
                    &&& r.id < outputs.len()
                    &&& has_picture(outputs[r.id as int])
                    &&& r.pixel_width == outputs[r.id as int].spec->0.width / 2 * 2
                    &&& r.pixel_height == outputs[r.id as int].spec->0.height / 2 * 2
                    &&& (r.x, r.y, r.width, r.height) == rect_of(outputs[r.id as int])
                    &&& match outputs[r.id as int].name {
                        Some(name) => names[k] == name@,
                        None => names[k] == "monitor-"@ + decimal(r.id as nat),
                    }
                }
            &&& forall|j: int, k: int|
                0 <= j < k < regions.len() ==> (#[trigger] regions[j]).id < (
                #[trigger] regions[k]).id
            &&& forall|i: int|
                0 <= i < outputs.len() && has_picture(#[trigger] outputs[i]) ==> exists|k: int|
                    0 <= k < regions.len() && (#[trigger] regions[k]).id == i
        }),
    decreases outputs.len(),
{
    if outputs.len() > 0 {
        let before = outputs.drop_last();
        every_output_has_its_region(before);
        let (regions, names) = named_regions(before);
        let (all, words) = named_regions(outputs);
        let n = outputs.len() - 1;
        let o = outputs.last();
        assert forall|k: int| 0 <= k < regions.len() implies all[k] == regions[k] && words[k]
            == names[k] && outputs[(#[trigger] regions[k]).id as int] == before[regions[k].id as int] by {
        }
        assert(region_for(o, n) is Some == has_picture(o));
        assert forall|i: int| 0 <= i < outputs.len() && has_picture(
            #[trigger] outputs[i],
        ) implies exists|k: int| 0 <= k < all.len() && (#[trigger] all[k]).id == i by {
            if i < n {
                assert(before[i] == outputs[i]);
                let k = choose|k: int| 0 <= k < regions.len() && (#[trigger] regions[k]).id == i;
                assert(all[k].id == i);
            } else {
                assert(all[all.len() - 1].id == i);
            }
        }
    }
}

/// A display is shown with the pixels of its region, at the place and under the name
/// that it was given.
pub proof fn display_is_its_region(region: Region, x: i32, y: i32, name: Seq<char>)
    ensures
        ({
            let d = display_for(region, (x, y), name);
            &&& d.id == region.id
            &&& d.x == x && d.y == y
            &&& d.width == region.pixel_width && d.height == region.pixel_height
            &&& d.name == name
        }),
{
}

/// The scale in per cent is the whole number nearest to a hundred pixels for each
/// point, as far as it is from 1 to 65535.
pub proof fn percent_is_nearest(pixels: u32, logical: u32)
    requires
        logical > 0,
    ensures
        ({
            let v = percent(pixels, logical);
            &&& 1 < v < 65535 ==> -(logical as int) <= 200 * pixels - 2 * (v * logical) <= logical
            &&& v >= 1
            &&& v == 1 ==> 200 * pixels < 3 * logical
            &&& v == 65535 ==> 200 * pixels >= 131069 * logical
        }),
{
    let l = logical as int;
    let n = 200 * pixels + l;
    let q = n / (2 * l);
    lemma_fundamental_div_mod(n, 2 * l);
    lemma_mod_bound(n, 2 * l);
    assert((2 * l) * q == 2 * (q * l)) by (nonlinear_arith);
    if q >= 65535 {
        assert(q * l >= 65535 * l) by (nonlinear_arith)
            requires
                q >= 65535,
                l > 0,
        ;
    }
    if q < 1 {
        assert(q * l <= 0) by (nonlinear_arith)
            requires
                q <= 0,
                l > 0,
        ;
    }
    if q == 1 {
        assert(q * l == l) by (nonlinear_arith)
            requires
                q == 1,
        ;
    }
}

// ---------------------------------------------------------------------------
// What a frame is
// ---------------------------------------------------------------------------

/// Whether blue is in the lowest byte of a format's pixels, as its name says, which
/// has the lowest byte last.
pub open spec fn ends_in_blue(format: ShmFormat) -> bool {
    format is Xrgb8888 || format is Argb8888
}

/// A row that was turned over comes from as far above the bottom as it is below the
/// top, with its bytes in order; what is behind the rows stays.
pub proof fn rows_are_turned_over(s: Seq<u8>, stride: int, height: int, row: int, col: int)
    requires
        0 <= row < height,
        0 <= col < stride,
        stride * height <= s.len(),
    ensures
        flipped(s, stride, height).len() == s.len(),
        flipped(s, stride, height)[row * stride + col] == s[(height - 1 - row) * stride + col],
        forall|i: int|
            stride * height <= i < s.len() ==> #[trigger] flipped(s, stride, height)[i] == s[i],
{
    crate::yuv::place(row, col, stride);
    crate::yuv::place_in(row, col, stride, height);
}

/// The picture of an output, byte for byte: only a buffer that is ready and has the
/// size is read, and only in a format that is known; a buffer that is upside down is
/// read from the bottom.
#[verifier::spinoff_prover]
#[verifier::rlimit(50)]
pub proof fn frame_by_bytes(
    o: Output,
    width: u32,
    height: u32,
    bytes: Seq<u8>,
    row: int,
    col: int,
)
    requires
        0 <= row < height as int / 2 * 2,
        0 <= col < width as int / 2 * 2,
        o.buffer matches Some(spec) ==> spec.stride * spec.height <= bytes.len(),
    ensures
        frame_spec(o, width, height, bytes) matches Some(f) ==> {
            &&& o.pending is Ready
            &&& o.buffer matches Some(spec)
            &&& width == spec.width / 2 * 2 && height == spec.height / 2 * 2
            &&& !(spec.format is Other)
            &&& ({
                let w = width as int;
                let h = height as int;
                let line = if o.y_invert {
                    spec.height - 1 - row
                } else {
                    row
                };
                let p = line * spec.stride + 4 * col;
                &&& f.len() == w * h + 2 * ((w / 2) * (h / 2))
                &&& f[row * w + col] == if ends_in_blue(spec.format) {
                    (66 * bytes[p + 2] + 129 * bytes[p + 1] + 25 * bytes[p] + 128) / 256 + 16
                } else {
                    (66 * bytes[p] + 129 * bytes[p + 1] + 25 * bytes[p + 2] + 128) / 256 + 16
                }
            })
        },
        o.pending is Ready && (o.buffer matches Some(spec) && width == spec.width / 2 * 2 && height
            == spec.height / 2 * 2 && width * 4 <= spec.stride && !(spec.format is Other))
            ==> frame_spec(o, width, height, bytes) is Some,
{
    if let Some(spec) = o.buffer {
        let stride = spec.stride as int;
        let pixels = if o.y_invert {
            flipped(bytes, stride, spec.height as int)
        } else {
            bytes
        };
        assert(pixels.len() == bytes.len());
        if let Some(order) = order_of_format(spec.format) {
            crate::yuv::packed_frame_by_bytes(pixels, stride, width, height, order, row, col);
            if height <= spec.height {
                assert(stride * height <= stride * spec.height) by (nonlinear_arith)
                    requires
                        height <= spec.height,
                        0 <= stride,
                ;
                if width * 4 <= stride && o.y_invert {
                    rows_are_turned_over(bytes, stride, spec.height as int, row, 4 * col);
                    rows_are_turned_over(bytes, stride, spec.height as int, row, 4 * col + 1);
                    rows_are_turned_over(bytes, stride, spec.height as int, row, 4 * col + 2);
                }
            }
        }
    }
}

/// A buffer is copied into only where it is the one that was asked for, and is made
/// where it is not. A format that is not known is never asked for, and a frame without
/// a buffer fails.
pub proof fn only_the_asked_buffer_is_used(o: Output, event: FrameEvent)
    requires
        o.spec matches Some(spec) ==> !(spec.format is Other),
    ensures
        ({
            let (a, todo) = after_frame_event(o, event);
            &&& a.spec matches Some(spec) ==> !(spec.format is Other)
            &&& todo is Copy ==> a.spec is Some && a.buffer == a.spec
            &&& todo matches Attach::Create(spec) ==> a.spec == Some(spec) && a.buffer is None
                && o.buffer != Some(spec)
            &&& todo is Nothing ==> a.buffer == o.buffer
            &&& event matches FrameEvent::Buffer { spec, .. } ==> if spec.format is Other {
                a.spec == o.spec
            } else {
                a.spec == Some(spec)
            }
            &&& event is BufferDone ==> (todo is Nothing <==> o.spec is None)
            &&& event matches FrameEvent::Buffer { version, .. } ==> (todo is Nothing <==> (version
                >= 3 || a.spec is None))
            &&& event is BufferDone ==> a.pending == if o.spec is None {
                Pending::Failed
            } else {
                o.pending
            }
            &&& event matches FrameEvent::Buffer { version, .. } ==> a.pending == if version < 3
                && a.spec is None {
                Pending::Failed
            } else {
                o.pending
            }
            &&& event is Flags ==> a.pending == o.pending
            &&& !(event is Buffer) ==> a.spec == o.spec
            &&& a.name == o.name && a.geometry == o.geometry && a.mode == o.mode && a.scale
                == o.scale && a.logical_position == o.logical_position && a.logical_size
                == o.logical_size
            &&& event is Ready ==> a.pending is Ready
            &&& event is Failed ==> a.pending is Failed
            &&& !(event is Ready) && a.pending != o.pending ==> a.pending is Failed
            &&& event matches FrameEvent::Flags { y_invert } ==> a.y_invert == y_invert
            &&& !(event is Flags) ==> a.y_invert == o.y_invert
        }),
{
}

/// When a round is over no output is waited for, and what had come is kept.
pub proof fn nothing_waits_after_a_round(o: Output)
    ensures
        !(given_up(o).pending is Waiting),
        o.pending is Waiting ==> given_up(o).pending is Failed,
        !(o.pending is Waiting) ==> given_up(o) == o,
        given_up(o).spec == o.spec && given_up(o).buffer == o.buffer,
{
}

} // verus!
