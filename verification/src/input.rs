//! Pointer and keyboard injection.
//!
//! Demo mode draws the cursor into the test pattern and does not touch the
//! local seat unless uinput is asked for. A live capture injects through
//! `/dev/uinput`, whose pointer is absolute over all displays. Here is what goes
//! to that device.

use std::collections::HashMap;

use vstd::prelude::*;
use vstd::arithmetic::div_mod::*;
use vstd::arithmetic::mul::*;
use vstd::string::*;

use crate::keys::{button_code, pointer_button, BTN_LEFT, BTN_MIDDLE, BTN_RIGHT};
use crate::message::{signed, to_signed, DisplayInfo, InputEvent};
use crate::text::same_text;

verus! {

/// The first key code that the device does not have.
pub const KEY_LIMIT: u16 = 248;

pub const EV_SYN: u16 = 0;

pub const EV_KEY: u16 = 1;

pub const EV_REL: u16 = 2;

pub const EV_ABS: u16 = 3;

pub const SYN_REPORT: u16 = 0;

pub const REL_HWHEEL: u16 = 6;

pub const REL_WHEEL: u16 = 8;

pub const ABS_X: u16 = 0;

pub const ABS_Y: u16 = 1;

/// The last pointer position of the client.
#[derive(Clone, Copy, Debug, PartialEq, Eq, Structural)]
pub struct Cursor {
    pub display_id: u32,
    pub x: u32,
    pub y: u32,
    pub visible: bool,
}

impl Default for Cursor {
    fn default() -> (r: Cursor)
        ensures
            r == (Cursor { display_id: 0, x: 0, y: 0, visible: false }),
    {
        Cursor { display_id: 0, x: 0, y: 0, visible: false }
    }
}

/// Where a display is on the desktop, and how many pixels its video has. The two
/// sizes differ on a scaled display.
#[derive(Clone, Copy, Debug, PartialEq, Eq, Structural)]
pub struct Region {
    pub id: u32,
    pub x: i32,
    pub y: i32,
    pub width: u32,
    pub height: u32,
    pub pixel_width: u32,
    pub pixel_height: u32,
}

/// The region of a display without a scale.
pub open spec fn unscaled_region(d: DisplayInfo) -> Region {
    Region {
        id: d.id,
        x: d.x,
        y: d.y,
        width: d.width,
        height: d.height,
        pixel_width: d.width,
        pixel_height: d.height,
    }
}

impl Region {
    /// The region of a display without a scale.
    pub fn unscaled(display: &DisplayInfo) -> (r: Region)
        ensures
            r == unscaled_region(*display),
    {
        Region {
            id: display.id,
            x: display.x,
            y: display.y,
            width: display.width,
            height: display.height,
            pixel_width: display.width,
            pixel_height: display.height,
        }
    }
}

/// The regions of displays without a scale.
pub fn unscaled_regions(displays: &Vec<DisplayInfo>) -> (r: Vec<Region>)
    ensures
        r@ == displays@.map_values(|d: DisplayInfo| unscaled_region(d)),
{
    let ghost all = displays@.map_values(|d: DisplayInfo| unscaled_region(d));
    let mut out: Vec<Region> = Vec::new();
    for i in 0..displays.len()
        invariant
            all == displays@.map_values(|d: DisplayInfo| unscaled_region(d)),
            out@ == all.take(i as int),
    {
        out.push(Region::unscaled(&displays[i]));
        assert(all.take(i + 1) =~= all.take(i as int).push(all[i as int]));
    }
    assert(all.take(all.len() as int) =~= all);
    out
}

// ---------------------------------------------------------------------------
// The desktop
// ---------------------------------------------------------------------------

/// The nearest number that is an `i32`.
pub open spec fn saturated(v: int) -> i32 {
    if v < i32::MIN {
        i32::MIN
    } else if v > i32::MAX {
        i32::MAX
    } else {
        v as i32
    }
}

pub(crate) fn saturate(v: i64) -> (r: i32)
    ensures
        r == saturated(v as int),
{
    if v < i32::MIN as i64 {
        i32::MIN
    } else if v > i32::MAX as i64 {
        i32::MAX
    } else {
        v as i32
    }
}

/// The last coordinate of a side that starts at `start`.
pub open spec fn last_coordinate(start: i32, len: u32) -> i32 {
    saturated(saturated(start + signed(len as nat)) - 1)
}

fn last_of(start: i32, len: u32) -> (r: i32)
    ensures
        r == last_coordinate(start, len),
{
    let end: i32 = saturate(start as i64 + to_signed(len) as i64);
    saturate(end as i64 - 1)
}

/// The coordinates that the desktop covers, first and last.
#[derive(Clone, Copy, Debug, PartialEq, Eq, Structural)]
pub struct Bounds {
    pub min_x: i32,
    pub min_y: i32,
    pub max_x: i32,
    pub max_y: i32,
}

/// The least of some numbers, or 0.
pub open spec fn least(s: Seq<i32>) -> i32
    decreases s.len(),
{
    if s.len() == 0 {
        0
    } else if s.len() == 1 || s.last() <= least(s.drop_last()) {
        s.last()
    } else {
        least(s.drop_last())
    }
}

/// The greatest of some numbers, or 0.
pub open spec fn greatest(s: Seq<i32>) -> i32
    decreases s.len(),
{
    if s.len() == 0 {
        0
    } else if s.len() == 1 || s.last() >= greatest(s.drop_last()) {
        s.last()
    } else {
        greatest(s.drop_last())
    }
}

pub open spec fn at_least(v: i32, low: i32) -> i32 {
    if v < low {
        low
    } else {
        v
    }
}

/// The bounds of some regions.
pub open spec fn bounds_of(regions: Seq<Region>) -> Bounds {
    let min_x = least(regions.map_values(|r: Region| r.x));
    let min_y = least(regions.map_values(|r: Region| r.y));
    Bounds {
        min_x,
        min_y,
        max_x: at_least(
            greatest(regions.map_values(|r: Region| last_coordinate(r.x, r.width))),
            min_x,
        ),
        max_y: at_least(
            greatest(regions.map_values(|r: Region| last_coordinate(r.y, r.height))),
            min_y,
        ),
    }
}

impl Bounds {
    /// Whether both sides of the desktop are machine integers.
    pub open spec fn fits_spec(self) -> bool {
        self.max_x - self.min_x <= i32::MAX && self.max_y - self.min_y <= i32::MAX
    }

    pub fn fits(&self) -> (r: bool)
        ensures
            r == self.fits_spec(),
    {
        self.max_x as i64 - self.min_x as i64 <= i32::MAX as i64 && self.max_y as i64
            - self.min_y as i64 <= i32::MAX as i64
    }

    /// The bounds of some regions.
    pub fn of(regions: &Vec<Region>) -> (r: Bounds)
        ensures
            r == bounds_of(regions@),
    {
        let ghost xs = regions@.map_values(|r: Region| r.x);
        let ghost ys = regions@.map_values(|r: Region| r.y);
        let ghost ends = regions@.map_values(|r: Region| last_coordinate(r.x, r.width));
        let ghost feet = regions@.map_values(|r: Region| last_coordinate(r.y, r.height));
        let mut min_x: i32 = 0;
        let mut min_y: i32 = 0;
        let mut max_x: i32 = 0;
        let mut max_y: i32 = 0;
        for i in 0..regions.len()
            invariant
                xs == regions@.map_values(|r: Region| r.x),
                ys == regions@.map_values(|r: Region| r.y),
                ends == regions@.map_values(|r: Region| last_coordinate(r.x, r.width)),
                feet == regions@.map_values(|r: Region| last_coordinate(r.y, r.height)),
                min_x == least(xs.take(i as int)),
                min_y == least(ys.take(i as int)),
                max_x == greatest(ends.take(i as int)),
                max_y == greatest(feet.take(i as int)),
        {
            proof {
                assert(xs.take(i + 1).drop_last() =~= xs.take(i as int));
                assert(ys.take(i + 1).drop_last() =~= ys.take(i as int));
                assert(ends.take(i + 1).drop_last() =~= ends.take(i as int));
                assert(feet.take(i + 1).drop_last() =~= feet.take(i as int));
            }
            let region = regions[i];
            let end: i32 = last_of(region.x, region.width);
            let foot: i32 = last_of(region.y, region.height);
            if i == 0 || region.x <= min_x {
                min_x = region.x;
            }
            if i == 0 || region.y <= min_y {
                min_y = region.y;
            }
            if i == 0 || end >= max_x {
                max_x = end;
            }
            if i == 0 || foot >= max_y {
                max_y = foot;
            }
        }
        proof {
            assert(xs.take(xs.len() as int) =~= xs);
            assert(ys.take(ys.len() as int) =~= ys);
            assert(ends.take(ends.len() as int) =~= ends);
            assert(feet.take(feet.len() as int) =~= feet);
        }
        Bounds {
            min_x,
            min_y,
            max_x: if max_x < min_x {
                min_x
            } else {
                max_x
            },
            max_y: if max_y < min_y {
                min_y
            } else {
                max_y
            },
        }
    }
}

// ---------------------------------------------------------------------------
// Events
// ---------------------------------------------------------------------------

/// An event of the device.
#[derive(Clone, Copy, Debug, PartialEq, Eq, Structural)]
pub struct DeviceEvent {
    pub kind: u16,
    pub code: u16,
    pub value: i32,
}

/// The region of a display: the last one with its id.
pub open spec fn region_of(regions: Seq<Region>, id: u32) -> Option<Region>
    decreases regions.len(),
{
    if regions.len() == 0 {
        None
    } else if regions.last().id == id {
        Some(regions.last())
    } else {
        region_of(regions.drop_last(), id)
    }
}

/// A video pixel of a side as a distance on the desktop.
pub open spec fn on_desktop(pixel: u32, len: u32, pixel_len: u32) -> u32 {
    if len == pixel_len {
        pixel
    } else {
        let v = (pixel * len) / (if pixel_len == 0 {
            1int
        } else {
            pixel_len as int
        });
        if v > u32::MAX {
            u32::MAX
        } else {
            v as u32
        }
    }
}

/// A coordinate on the desktop as one of the device, which starts at 0.
pub open spec fn device_coordinate(origin: i32, distance: u32, min: i32, max: i32) -> int {
    let v = saturated(origin + signed(distance as nat));
    if v < min {
        0
    } else if v > max {
        max - min
    } else {
        v - min
    }
}

/// Where on the device a pointer position of a display is. A display that is not
/// known is taken to start where the desktop does.
pub open spec fn device_point(regions: Seq<Region>, id: u32, x: u32, y: u32) -> (int, int) {
    let b = bounds_of(regions);
    match region_of(regions, id) {
        Some(r) => (
            device_coordinate(r.x, on_desktop(x, r.width, r.pixel_width), b.min_x, b.max_x),
            device_coordinate(r.y, on_desktop(y, r.height, r.pixel_height), b.min_y, b.max_y),
        ),
        None => (
            device_coordinate(b.min_x, x, b.min_x, b.max_x),
            device_coordinate(b.min_y, y, b.min_y, b.max_y),
        ),
    }
}

pub open spec fn pressed_value(pressed: bool) -> i32 {
    if pressed {
        1
    } else {
        0
    }
}

/// The events of an input event, before the report that ends them.
pub open spec fn device_events(regions: Seq<Region>, event: InputEvent) -> Seq<DeviceEvent> {
    match event {
        InputEvent::MouseMove { display_id, x, y } => {
            let p = device_point(regions, display_id, x, y);
            seq![
                DeviceEvent { kind: EV_ABS, code: ABS_X, value: p.0 as i32 },
                DeviceEvent { kind: EV_ABS, code: ABS_Y, value: p.1 as i32 },
            ]
        },
        InputEvent::MouseButton { button, pressed, .. } => match button_code(button) {
            Some(code) => seq![
                DeviceEvent { kind: EV_KEY, code, value: pressed_value(pressed) },
            ],
            None => seq![],
        },
        InputEvent::MouseWheel { dx, dy, .. } => {
            (if dy != 0 {
                seq![DeviceEvent { kind: EV_REL, code: REL_WHEEL, value: dy }]
            } else {
                seq![]
            }) + (if dx != 0 {
                seq![DeviceEvent { kind: EV_REL, code: REL_HWHEEL, value: dx }]
            } else {
                seq![]
            })
        },
        InputEvent::Key { code, pressed } => seq![
            DeviceEvent { kind: EV_KEY, code, value: pressed_value(pressed) },
        ],
    }
}

/// What is written to the device for an input event: nothing, or its events and a
/// report.
pub open spec fn device_batch(regions: Seq<Region>, event: InputEvent) -> Seq<DeviceEvent> {
    let events = device_events(regions, event);
    if events.len() == 0 {
        events
    } else {
        events.push(DeviceEvent { kind: EV_SYN, code: SYN_REPORT, value: 0 })
    }
}

/// A pointer position is on the device.
pub proof fn device_point_is_in_bounds(regions: Seq<Region>, id: u32, x: u32, y: u32)
    ensures
        0 <= device_point(regions, id, x, y).0 <= bounds_of(regions).max_x - bounds_of(
            regions,
        ).min_x,
        0 <= device_point(regions, id, x, y).1 <= bounds_of(regions).max_y - bounds_of(
            regions,
        ).min_y,
{
}

/// A pixel of a display without a scale is as far on the desktop as in the video.
pub proof fn unscaled_pixels_are_exact(pixel: u32, len: u32)
    ensures
        on_desktop(pixel, len, len) == pixel,
{
}

/// A pixel inside the video is inside the display, whatever its scale.
pub proof fn pixel_stays_in_display(pixel: u32, len: u32, pixel_len: u32)
    requires
        pixel < pixel_len,
        0 < len,
    ensures
        on_desktop(pixel, len, pixel_len) < len,
{
    if len != pixel_len {
        assert(pixel * len < len * pixel_len) by (nonlinear_arith)
            requires
                pixel < pixel_len,
                0 < len,
        ;
        lemma_mul_is_commutative(len as int, pixel_len as int);
        lemma_multiply_divide_lt(pixel * len, pixel_len as int, len as int);
    }
}

/// The codes of the keys and buttons that the device has: every key below
/// [`KEY_LIMIT`], and three buttons.
pub open spec fn key_codes() -> Seq<u16> {
    Seq::new((KEY_LIMIT - 1) as nat, |i: int| (i + 1) as u16) + seq![
        BTN_LEFT,
        BTN_RIGHT,
        BTN_MIDDLE,
    ]
}

/// The codes of the keys and buttons that the device has.
pub fn device_keys() -> (r: Vec<u16>)
    ensures
        r@ == key_codes(),
{
    let mut out: Vec<u16> = Vec::new();
    for code in 1..KEY_LIMIT
        invariant
            out@ == key_codes().take(code - 1),
    {
        out.push(code);
        assert(out@ =~= key_codes().take(code as int));
    }
    out.push(BTN_LEFT);
    out.push(BTN_RIGHT);
    out.push(BTN_MIDDLE);
    assert(out@ =~= key_codes());
    out
}

/// The pointer map of a desktop.
pub struct PointerMap {
    pub regions: Vec<Region>,
    /// The regions by their displays.
    pub by_id: HashMap<u32, Region>,
    pub bounds: Bounds,
}

fn scaled(pixel: u32, len: u32, pixel_len: u32) -> (r: u32)
    ensures
        r == on_desktop(pixel, len, pixel_len),
{
    if len == pixel_len {
        return pixel;
    }
    let d: u64 = if pixel_len == 0 {
        1
    } else {
        pixel_len as u64
    };
    proof {
        assert(pixel * len <= 0xffff_ffff * 0xffff_ffff) by (nonlinear_arith)
            requires
                pixel <= 0xffff_ffff,
                len <= 0xffff_ffff,
        ;
    }
    let v: u64 = pixel as u64 * len as u64 / d;
    if v > u32::MAX as u64 {
        u32::MAX
    } else {
        v as u32
    }
}

fn coordinate(origin: i32, distance: u32, min: i32, max: i32) -> (r: i32)
    requires
        min <= max,
        max - min <= i32::MAX,
    ensures
        r == device_coordinate(origin, distance, min, max),
{
    let v: i32 = saturate(origin as i64 + to_signed(distance) as i64);
    if v < min {
        0
    } else if v > max {
        max - min
    } else {
        v - min
    }
}

/// Whether a map gives the region of each display.
pub open spec fn finds(by_id: Map<u32, Region>, regions: Seq<Region>) -> bool {
    forall|id: u32| #[trigger]
        region_of(regions, id) == if by_id.contains_key(id) {
            Some(by_id[id])
        } else {
            None
        }
}

impl PointerMap {
    /// Each region is found by its display. The bounds are those of the regions, and
    /// they are machine integers.
    pub open spec fn wf(&self) -> bool {
        &&& finds(self.by_id@, self.regions@)
        &&& self.bounds == bounds_of(self.regions@)
        &&& self.bounds.fits_spec()
    }

    /// The map of some regions, whose bounds must fit.
    pub fn new(regions: Vec<Region>) -> (r: PointerMap)
        requires
            bounds_of(regions@).fits_spec(),
        ensures
            r.wf(),
            r.regions == regions,
    {
        broadcast use vstd::std_specs::hash::group_hash_axioms;

        let bounds = Bounds::of(&regions);
        let mut by_id: HashMap<u32, Region> = HashMap::new();
        for i in 0..regions.len()
            invariant
                finds(by_id@, regions@.take(i as int)),
        {
            let ghost before = by_id@;
            by_id.insert(regions[i].id, regions[i]);
            let ghost some = regions@.take(i + 1);
            assert(some.drop_last() =~= regions@.take(i as int));
            assert forall|id: u32| #[trigger] region_of(some, id) == if by_id@.contains_key(id) {
                Some(by_id@[id])
            } else {
                None
            } by {
                assert(region_of(some.drop_last(), id) == if before.contains_key(id) {
                    Some(before[id])
                } else {
                    None
                });
            }
        }
        assert(regions@.take(regions@.len() as int) =~= regions@);
        PointerMap { regions, by_id, bounds }
    }

    /// The greatest coordinate of the device on each axis. The least one is 0.
    pub fn axes(&self) -> (r: (i32, i32))
        requires
            self.wf(),
        ensures
            r.0 == self.bounds.max_x - self.bounds.min_x,
            r.1 == self.bounds.max_y - self.bounds.min_y,
    {
        (self.bounds.max_x - self.bounds.min_x, self.bounds.max_y - self.bounds.min_y)
    }

    /// What to write to the device for an input event. Nothing is written for an
    /// event without an effect.
    pub fn apply(&self, event: &InputEvent) -> (r: Vec<DeviceEvent>)
        requires
            self.wf(),
        ensures
            r@ == device_batch(self.regions@, *event),
    {
        broadcast use vstd::std_specs::hash::group_hash_axioms;

        let mut batch: Vec<DeviceEvent> = Vec::new();
        match event {
            InputEvent::MouseMove { display_id, x, y } => {
                let b = self.bounds;
                let (gx, gy) = match self.by_id.get(display_id) {
                    Some(region) => (
                        coordinate(
                            region.x,
                            scaled(*x, region.width, region.pixel_width),
                            b.min_x,
                            b.max_x,
                        ),
                        coordinate(
                            region.y,
                            scaled(*y, region.height, region.pixel_height),
                            b.min_y,
                            b.max_y,
                        ),
                    ),
                    None => (
                        coordinate(b.min_x, *x, b.min_x, b.max_x),
                        coordinate(b.min_y, *y, b.min_y, b.max_y),
                    ),
                };
                batch.push(DeviceEvent { kind: EV_ABS, code: ABS_X, value: gx });
                batch.push(DeviceEvent { kind: EV_ABS, code: ABS_Y, value: gy });
            },
            InputEvent::MouseButton { button, pressed, .. } => {
                if let Some(code) = pointer_button(*button) {
                    let value: i32 = if *pressed {
                        1
                    } else {
                        0
                    };
                    batch.push(DeviceEvent { kind: EV_KEY, code, value });
                }
            },
            InputEvent::MouseWheel { dx, dy, .. } => {
                if *dy != 0 {
                    batch.push(DeviceEvent { kind: EV_REL, code: REL_WHEEL, value: *dy });
                }
                if *dx != 0 {
                    batch.push(DeviceEvent { kind: EV_REL, code: REL_HWHEEL, value: *dx });
                }
            },
            InputEvent::Key { code, pressed } => {
                let value: i32 = if *pressed {
                    1
                } else {
                    0
                };
                batch.push(DeviceEvent { kind: EV_KEY, code: *code, value });
            },
        }
        assert(batch@ =~= device_events(self.regions@, *event));
        if batch.len() > 0 {
            batch.push(DeviceEvent { kind: EV_SYN, code: SYN_REPORT, value: 0 });
        }
        batch
    }
}

// ---------------------------------------------------------------------------
// Which injector
// ---------------------------------------------------------------------------

/// How input is injected.
#[derive(Clone, Copy, Debug, PartialEq, Eq, Structural)]
pub enum InputMode {
    Auto,
    Portal,
    Uinput,
    /// Input is ignored.
    Off,
}

/// The mode of a word.
pub open spec fn input_mode(text: Seq<char>) -> Option<InputMode> {
    if text == "auto"@ {
        Some(InputMode::Auto)
    } else if text == "portal"@ {
        Some(InputMode::Portal)
    } else if text == "uinput"@ {
        Some(InputMode::Uinput)
    } else if text == "none"@ {
        Some(InputMode::Off)
    } else {
        None
    }
}

impl InputMode {
    /// The mode of a word, or what to say to another one.
    pub fn parse(text: &str) -> (r: Result<InputMode, String>)
        ensures
            match input_mode(text@) {
                Some(mode) => r == Ok::<InputMode, String>(mode),
                None => r matches Err(e) && e@ == "unknown input mode "@ + text@
                    + " (auto, portal, uinput, none)"@,
            },
    {
        if same_text(text, "auto") {
            Ok(InputMode::Auto)
        } else if same_text(text, "portal") {
            Ok(InputMode::Portal)
        } else if same_text(text, "uinput") {
            Ok(InputMode::Uinput)
        } else if same_text(text, "none") {
            Ok(InputMode::Off)
        } else {
            let mut out = "unknown input mode ".to_owned();
            out.append(text);
            out.append(" (auto, portal, uinput, none)");
            Err(out)
        }
    }

    /// Whether input goes to a uinput device.
    pub open spec fn needs_device(self, demo: bool) -> bool {
        match self {
            InputMode::Off => false,
            InputMode::Uinput => true,
            InputMode::Auto | InputMode::Portal => !demo,
        }
    }

    /// Whether input goes to a uinput device. The demo draws the pointer into its
    /// pattern instead, unless uinput is asked for.
    pub fn wants_uinput(self, demo: bool) -> (r: bool)
        ensures
            r == match self {
                InputMode::Off => false,
                InputMode::Uinput => true,
                InputMode::Auto | InputMode::Portal => !demo,
            },
            r == self.needs_device(demo),
    {
        match self {
            InputMode::Off => false,
            InputMode::Uinput => true,
            InputMode::Auto | InputMode::Portal => !demo,
        }
    }
}

// ---------------------------------------------------------------------------
// What the device is told
// ---------------------------------------------------------------------------

/// The report that ends what is written.
pub open spec fn ends_with_report(batch: Seq<DeviceEvent>) -> bool {
    batch.len() > 0 && batch.last().kind == 0 && batch.last().code == 0 && batch.last().value == 0
}

/// A key goes down where it was pressed and up where it was released, under its own
/// code and at once, and nothing else is written.
pub proof fn keys_go_down_and_up(regions: Seq<Region>, code: u16, pressed: bool)
    ensures
        ({
            let batch = device_batch(regions, InputEvent::Key { code, pressed });
            &&& batch.len() == 2
            &&& batch[0].kind == 1 && batch[0].code == code
            &&& pressed ==> batch[0].value == 1
            &&& !pressed ==> batch[0].value == 0
            &&& ends_with_report(batch)
        }),
{
}

/// A pointer button goes down where it was pressed and up where it was released: the
/// left one is number 0, the right one 1 and the middle one 2. Nothing is written for
/// a number without a button.
pub proof fn buttons_go_down_and_up(
    regions: Seq<Region>,
    display_id: u32,
    button: u8,
    pressed: bool,
)
    ensures
        ({
            let batch = device_batch(regions, InputEvent::MouseButton { display_id, button, pressed });
            &&& button > 2 ==> batch.len() == 0
            &&& button <= 2 ==> {
                &&& batch.len() == 2
                &&& batch[0].kind == 1 && batch[0].code == 0x110 + button
                &&& pressed ==> batch[0].value == 1
                &&& !pressed ==> batch[0].value == 0
                &&& ends_with_report(batch)
            }
        }),
{
}

/// The press and the release of a key, or of a button that there is, are never written
/// alike, and neither are two keys.
pub proof fn press_and_release_differ(
    regions: Seq<Region>,
    a: u16,
    b: u16,
    down: bool,
    up: bool,
    display_id: u32,
    button: u8,
)
    ensures
        device_batch(regions, InputEvent::Key { code: a, pressed: down }) == device_batch(
            regions,
            InputEvent::Key { code: b, pressed: up },
        ) ==> a == b && down == up,
        button <= 2 && down != up ==> device_batch(
            regions,
            InputEvent::MouseButton { display_id, button, pressed: down },
        ) != device_batch(regions, InputEvent::MouseButton { display_id, button, pressed: up }),
{
    keys_go_down_and_up(regions, a, down);
    keys_go_down_and_up(regions, b, up);
    buttons_go_down_and_up(regions, display_id, button, down);
    buttons_go_down_and_up(regions, display_id, button, up);
}

/// The wheel turns by as many detents as it was turned, down and across, each on its own
/// axis. Nothing is written where it was not turned.
pub proof fn wheel_turns_as_it_was_turned(regions: Seq<Region>, display_id: u32, dx: i32, dy: i32)
    ensures
        ({
            let batch = device_batch(regions, InputEvent::MouseWheel { display_id, dx, dy });
            &&& dx == 0 && dy == 0 ==> batch.len() == 0
            &&& dx != 0 || dy != 0 ==> ends_with_report(batch)
            &&& forall|i: int|
                0 <= i < batch.len() - 1 ==> {
                    &&& (#[trigger] batch[i]).kind == 2
                    &&& batch[i].code == 8 && batch[i].value == dy || batch[i].code == 6
                        && batch[i].value == dx
                }
            &&& dy != 0 ==> batch.len() > 1 && batch[0].code == 8
            &&& dx != 0 ==> batch.len() > 1 && batch[batch.len() - 2].code == 6
            &&& batch.len() == (if dx != 0 || dy != 0 {
                1int
            } else {
                0
            }) + (if dx != 0 {
                1int
            } else {
                0
            }) + (if dy != 0 {
                1int
            } else {
                0
            })
        }),
{
}

/// A move is written as one place: across on the first axis, down on the second.
pub proof fn moves_are_absolute(regions: Seq<Region>, display_id: u32, x: u32, y: u32)
    requires
        bounds_of(regions).fits_spec(),
    ensures
        ({
            let batch = device_batch(regions, InputEvent::MouseMove { display_id, x, y });
            &&& batch.len() == 3
            &&& batch[0].kind == 3 && batch[0].code == 0
            &&& batch[1].kind == 3 && batch[1].code == 1
            &&& batch[0].value == device_point(regions, display_id, x, y).0
            &&& batch[1].value == device_point(regions, display_id, x, y).1
            &&& ends_with_report(batch)
        }),
{
    device_point_is_in_bounds(regions, display_id, x, y);
}

/// The least of some numbers is one of them, and none is less.
pub proof fn least_of(s: Seq<i32>)
    requires
        s.len() > 0,
    ensures
        forall|i: int| 0 <= i < s.len() ==> least(s) <= #[trigger] s[i],
        exists|i: int| 0 <= i < s.len() && least(s) == #[trigger] s[i],
    decreases s.len(),
{
    let front = s.drop_last();
    if s.len() > 1 {
        least_of(front);
        let k = choose|i: int| 0 <= i < front.len() && least(front) == #[trigger] front[i];
        assert(s[k] == front[k]);
        assert forall|i: int| 0 <= i < s.len() implies least(s) <= #[trigger] s[i] by {
            if i < front.len() {
                assert(front[i] == s[i]);
            }
        }
        if least(s) != s.last() {
            assert(s[k] == least(s));
        }
    }
    assert(s[s.len() - 1] == s.last());
}

/// The greatest of some numbers is one of them, and none is greater.
pub proof fn greatest_of(s: Seq<i32>)
    requires
        s.len() > 0,
    ensures
        forall|i: int| 0 <= i < s.len() ==> greatest(s) >= #[trigger] s[i],
        exists|i: int| 0 <= i < s.len() && greatest(s) == #[trigger] s[i],
    decreases s.len(),
{
    let front = s.drop_last();
    if s.len() > 1 {
        greatest_of(front);
        let k = choose|i: int| 0 <= i < front.len() && greatest(front) == #[trigger] front[i];
        assert(s[k] == front[k]);
        assert forall|i: int| 0 <= i < s.len() implies greatest(s) >= #[trigger] s[i] by {
            if i < front.len() {
                assert(front[i] == s[i]);
            }
        }
        if greatest(s) != s.last() {
            assert(s[k] == greatest(s));
        }
    }
    assert(s[s.len() - 1] == s.last());
}

/// Whether a region has a side on the desktop, and ends where an `i32` can say it.
pub open spec fn is_plain(r: Region) -> bool {
    &&& r.width > 0 && r.height > 0
    &&& r.x + r.width <= 0x7fff_ffff && r.y + r.height <= 0x7fff_ffff
    &&& r.width <= 0x7fff_ffff && r.height <= 0x7fff_ffff
}

/// The bounds are as tight as can be: every region is inside, and some region touches
/// each of the four sides.
pub proof fn bounds_are_tight(regions: Seq<Region>)
    requires
        regions.len() > 0,
        forall|i: int| 0 <= i < regions.len() ==> is_plain(#[trigger] regions[i]),
    ensures
        ({
            let b = bounds_of(regions);
            &&& forall|i: int| #![trigger regions[i]]
                0 <= i < regions.len() ==> {
                    &&& b.min_x <= regions[i].x
                    &&& b.min_y <= regions[i].y
                    &&& regions[i].x + regions[i].width - 1 <= b.max_x
                    &&& regions[i].y + regions[i].height - 1 <= b.max_y
                }
            &&& exists|i: int| 0 <= i < regions.len() && (#[trigger] regions[i]).x == b.min_x
            &&& exists|i: int| 0 <= i < regions.len() && (#[trigger] regions[i]).y == b.min_y
            &&& exists|i: int|
                0 <= i < regions.len() && (#[trigger] regions[i]).x + regions[i].width - 1
                    == b.max_x
            &&& exists|i: int|
                0 <= i < regions.len() && (#[trigger] regions[i]).y + regions[i].height - 1
                    == b.max_y
        }),
{
    let xs = regions.map_values(|r: Region| r.x);
    let ys = regions.map_values(|r: Region| r.y);
    let ends = regions.map_values(|r: Region| last_coordinate(r.x, r.width));
    let feet = regions.map_values(|r: Region| last_coordinate(r.y, r.height));
    least_of(xs);
    least_of(ys);
    greatest_of(ends);
    greatest_of(feet);
    assert forall|i: int| 0 <= i < regions.len() implies xs[i] == (#[trigger] regions[i]).x && ys[i]
        == regions[i].y && ends[i] == regions[i].x + regions[i].width - 1 && feet[i]
        == regions[i].y + regions[i].height - 1 by {
        assert(is_plain(regions[i]));
    }
    let b = bounds_of(regions);
    let i = choose|i: int| 0 <= i < xs.len() && least(xs) == #[trigger] xs[i];
    assert(regions[i].x == b.min_x);
    let j = choose|i: int| 0 <= i < ys.len() && least(ys) == #[trigger] ys[i];
    assert(regions[j].y == b.min_y);
    let k = choose|i: int| 0 <= i < ends.len() && greatest(ends) == #[trigger] ends[i];
    assert(regions[k].x + regions[k].width - 1 == greatest(ends));
    assert(xs[k] >= least(xs));
    assert(regions[k].x + regions[k].width - 1 == b.max_x);
    let m = choose|i: int| 0 <= i < feet.len() && greatest(feet) == #[trigger] feet[i];
    assert(ys[m] >= least(ys));
    assert(regions[m].y + regions[m].height - 1 == b.max_y);
}

/// The region of a display is the last one that has its id.
pub proof fn region_is_the_last_of_its_display(regions: Seq<Region>, i: int)
    requires
        0 <= i < regions.len(),
        forall|j: int| i < j < regions.len() ==> (#[trigger] regions[j]).id != regions[i].id,
    ensures
        region_of(regions, regions[i].id) == Some(regions[i]),
    decreases regions.len(),
{
    if i < regions.len() - 1 {
        let front = regions.drop_last();
        assert(regions[regions.len() - 1].id != regions[i].id);
        assert forall|j: int| i < j < front.len() implies (#[trigger] front[j]).id != front[i].id by {
            assert(front[j] == regions[j]);
        }
        region_is_the_last_of_its_display(front, i);
    }
}

/// A video pixel of a side goes to the point of the desktop that it shows: the point
/// times the pixels of the side is at most the pixel times the points, and the next
/// point would be beyond it.
pub proof fn pixel_goes_to_its_point(pixel: u32, len: u32, pixel_len: u32)
    requires
        pixel < pixel_len,
        0 < len,
    ensures
        ({
            let point = on_desktop(pixel, len, pixel_len);
            &&& point < len
            &&& point * pixel_len <= pixel * len < point * pixel_len + pixel_len
        }),
{
    pixel_stays_in_display(pixel, len, pixel_len);
    let n = pixel * len;
    let d = pixel_len as int;
    if len == pixel_len {
        assert(n < pixel * pixel_len + pixel_len);
    } else {
        lemma_fundamental_div_mod(n, d);
        lemma_mod_bound(n, d);
        lemma_mul_is_commutative(d, n / d);
        lemma_mul_nonnegative(pixel as int, len as int);
        lemma_div_pos_is_pos(n, d);
        assert(n / d < len) by {
            assert(n < len * pixel_len) by (nonlinear_arith)
                requires
                    n == pixel * len,
                    pixel < pixel_len,
                    0 < len,
            ;
            lemma_mul_is_commutative(len as int, d);
            lemma_multiply_divide_lt(n, d, len as int);
        }
    }
}

/// The pointer lands on the point of the desktop that it points at, across and down: as
/// far from the left and the top of the desktop as the display is, and the point in it.
pub proof fn pointer_lands_where_it_points(regions: Seq<Region>, i: int, x: u32, y: u32)
    requires
        0 <= i < regions.len(),
        forall|j: int| 0 <= j < regions.len() ==> is_plain(#[trigger] regions[j]),
        forall|j: int| i < j < regions.len() ==> (#[trigger] regions[j]).id != regions[i].id,
        x < regions[i].pixel_width,
        y < regions[i].pixel_height,
    ensures
        ({
            let r = regions[i];
            let b = bounds_of(regions);
            let (gx, gy) = device_point(regions, r.id, x, y);
            let px = gx - (r.x - b.min_x);
            let py = gy - (r.y - b.min_y);
            &&& 0 <= px < r.width
            &&& 0 <= py < r.height
            &&& px * r.pixel_width <= x * r.width < px * r.pixel_width + r.pixel_width
            &&& py * r.pixel_height <= y * r.height < py * r.pixel_height + r.pixel_height
        }),
{
    let r = regions[i];
    region_is_the_last_of_its_display(regions, i);
    bounds_are_tight(regions);
    assert(is_plain(r));
    pixel_goes_to_its_point(x, r.width, r.pixel_width);
    pixel_goes_to_its_point(y, r.height, r.pixel_height);
}

/// The device has the keys 1 to 247 and three pointer buttons, and no others.
pub proof fn device_has_the_keys(code: u16)
    ensures
        key_codes().contains(code) <==> 1 <= code <= 247 || 0x110 <= code <= 0x112,
{
    let keys = Seq::new((KEY_LIMIT - 1) as nat, |i: int| (i + 1) as u16);
    let all = key_codes();
    if 1 <= code <= 247 {
        assert(all[code - 1] == code);
    }
    assert(all[247] == 0x110 && all[248] == 0x111 && all[249] == 0x112);
    assert forall|i: int| 0 <= i < all.len() implies 1 <= #[trigger] all[i] <= 247 || 0x110 <= all[i]
        <= 0x112 by {
        if i < 247 {
            assert(all[i] == keys[i]);
        } else {
            assert(i == 247 || i == 248 || i == 249);
        }
    }
}

/// A display without a scale has as many points as pixels, where it is.
pub proof fn unscaled_region_is_its_display(d: DisplayInfo)
    ensures
        ({
            let r = unscaled_region(d);
            &&& r.id == d.id && r.x == d.x && r.y == d.y
            &&& r.width == d.width && r.pixel_width == d.width
            &&& r.height == d.height && r.pixel_height == d.height
        }),
{
}

/// There is a mode for each of four words, and for no other.
pub proof fn input_modes_have_words(text: Seq<char>)
    ensures
        input_mode(text) == Some(InputMode::Auto) <==> text == seq!['a', 'u', 't', 'o'],
        input_mode(text) == Some(InputMode::Portal) <==> text == seq![
            'p',
            'o',
            'r',
            't',
            'a',
            'l',
        ],
        input_mode(text) == Some(InputMode::Uinput) <==> text == seq![
            'u',
            'i',
            'n',
            'p',
            'u',
            't',
        ],
        input_mode(text) == Some(InputMode::Off) <==> text == seq!['n', 'o', 'n', 'e'],
{
    reveal_strlit("auto");
    reveal_strlit("portal");
    reveal_strlit("uinput");
    reveal_strlit("none");
    assert("auto"@ =~= seq!['a', 'u', 't', 'o']);
    assert("portal"@ =~= seq!['p', 'o', 'r', 't', 'a', 'l']);
    assert("uinput"@ =~= seq!['u', 'i', 'n', 'p', 'u', 't']);
    assert("none"@ =~= seq!['n', 'o', 'n', 'e']);
}

/// A number is held at the ends of what an `i32` can be, and left alone between them.
pub proof fn saturated_is_the_nearest(v: int)
    ensures
        -0x8000_0000 <= v <= 0x7fff_ffff ==> saturated(v) == v,
        v < -0x8000_0000 ==> saturated(v) == -0x8000_0000,
        v > 0x7fff_ffff ==> saturated(v) == 0x7fff_ffff,
{
}

/// A position on a display that is not known counts from the corner of the desktop, and
/// goes no farther than the desktop does.
pub proof fn unknown_displays_start_at_the_corner(regions: Seq<Region>, id: u32, x: u32, y: u32)
    requires
        forall|j: int| 0 <= j < regions.len() ==> (#[trigger] regions[j]).id != id,
        x <= 0x7fff_ffff,
        y <= 0x7fff_ffff,
        bounds_of(regions).min_x <= bounds_of(regions).max_x,
        bounds_of(regions).min_y <= bounds_of(regions).max_y,
    ensures
        ({
            let b = bounds_of(regions);
            let (gx, gy) = device_point(regions, id, x, y);
            &&& x <= b.max_x - b.min_x ==> gx == x
            &&& x > b.max_x - b.min_x ==> gx == b.max_x - b.min_x
            &&& y <= b.max_y - b.min_y ==> gy == y
            &&& y > b.max_y - b.min_y ==> gy == b.max_y - b.min_y
        }),
{
    unknown_display_has_no_region(regions, id);
}

proof fn unknown_display_has_no_region(regions: Seq<Region>, id: u32)
    requires
        forall|j: int| 0 <= j < regions.len() ==> (#[trigger] regions[j]).id != id,
    ensures
        region_of(regions, id) is None,
    decreases regions.len(),
{
    if regions.len() > 0 {
        let front = regions.drop_last();
        assert forall|j: int| 0 <= j < front.len() implies (#[trigger] front[j]).id != id by {
            assert(front[j] == regions[j]);
        }
        unknown_display_has_no_region(front, id);
        assert(regions[regions.len() - 1].id != id);
    }
}

/// A pixel beyond the video goes on in the same proportion as one inside of it.
pub proof fn pixels_beyond_go_on_in_proportion(pixel: u32, len: u32, pixel_len: u32)
    requires
        pixel_len > 0,
        pixel * len < 0x1_0000_0000 * pixel_len,
    ensures
        ({
            let point = on_desktop(pixel, len, pixel_len);
            point * pixel_len <= pixel * len < point * pixel_len + pixel_len
        }),
{
    let n = pixel * len;
    let d = pixel_len as int;
    if len == pixel_len {
        assert(n == pixel * pixel_len);
    } else {
        lemma_fundamental_div_mod(n, d);
        lemma_mod_bound(n, d);
        lemma_mul_is_commutative(d, n / d);
        lemma_mul_nonnegative(pixel as int, len as int);
        lemma_div_pos_is_pos(n, d);
        assert(n / d <= u32::MAX) by {
            lemma_multiply_divide_lt(n, d, 0x1_0000_0000);
        }
    }
}

/// A position beyond the desktop is held at its edge.
pub proof fn pointer_is_held_at_the_edge(regions: Seq<Region>, i: int, x: u32, y: u32)
    requires
        0 <= i < regions.len(),
        forall|j: int| 0 <= j < regions.len() ==> is_plain(#[trigger] regions[j]),
        forall|j: int| i < j < regions.len() ==> (#[trigger] regions[j]).id != regions[i].id,
        regions[i].width == regions[i].pixel_width,
        regions[i].height == regions[i].pixel_height,
        x <= 0x7fff_ffff,
        y <= 0x7fff_ffff,
    ensures
        ({
            let r = regions[i];
            let b = bounds_of(regions);
            let (gx, gy) = device_point(regions, r.id, x, y);
            &&& r.x + x <= b.max_x ==> gx == r.x + x - b.min_x
            &&& r.x + x > b.max_x ==> gx == b.max_x - b.min_x
            &&& r.y + y <= b.max_y ==> gy == r.y + y - b.min_y
            &&& r.y + y > b.max_y ==> gy == b.max_y - b.min_y
        }),
{
    region_is_the_last_of_its_display(regions, i);
    bounds_are_tight(regions);
    assert(is_plain(regions[i]));
}

/// A device is asked for always or never where the mode says so, and otherwise for every
/// desktop that is not the demo.
pub proof fn modes_ask_for_a_device(mode: InputMode, demo: bool)
    ensures
        mode is Uinput ==> mode.needs_device(demo),
        mode is Off ==> !mode.needs_device(demo),
        mode is Auto || mode is Portal ==> (mode.needs_device(demo) <==> !demo),
{
}

} // verus!
