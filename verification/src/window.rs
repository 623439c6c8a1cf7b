//! What the client's window decides: the desk on which it lays the displays out, the
//! input that it sends, and what it shows.

use vstd::prelude::*;
use vstd::string::*;

use crate::address::{endpoint, parse_host, Endpoint};
use crate::auth::{is_pin, pin_error, validate_pin};
use crate::client::{UiEvent, UiEventView};
use crate::input::{greatest, greatest_of, least, least_of, saturate, saturated};
use crate::keys::{KEY_LEFTALT, KEY_LEFTCTRL, KEY_LEFTSHIFT};
use crate::message::{display_views, signed, to_signed, DisplayInfo, DisplayView, InputEvent};
use crate::report::{file_status, file_status_spec};
use crate::text::trimmed;

verus! {

/// The part of the plane that the displays cover.
#[derive(Clone, Copy, Debug, PartialEq, Eq, Structural)]
pub struct Desk {
    pub x: i32,
    pub y: i32,
    pub width: u32,
    pub height: u32,
}

/// The end of a side that starts at `start`.
pub open spec fn end_of(start: i32, len: u32) -> i32 {
    saturated(start + signed(len as nat))
}

/// How long a side is from its start to its end: at least 1.
pub open spec fn side(from: i32, to: i32) -> u32 {
    if to - from < 1 {
        1
    } else {
        (to - from) as u32
    }
}

/// The desk of some displays, with the space that they cover together.
pub open spec fn desk_of(displays: Seq<DisplayInfo>) -> Desk {
    let x = least(displays.map_values(|d: DisplayInfo| d.x));
    let y = least(displays.map_values(|d: DisplayInfo| d.y));
    Desk {
        x,
        y,
        width: side(x, greatest(displays.map_values(|d: DisplayInfo| end_of(d.x, d.width)))),
        height: side(y, greatest(displays.map_values(|d: DisplayInfo| end_of(d.y, d.height)))),
    }
}

fn side_of(from: i32, to: i32) -> (r: u32)
    ensures
        r == side(from, to),
{
    let len: i64 = to as i64 - from as i64;
    if len < 1 {
        1
    } else {
        len as u32
    }
}

/// The desk of some displays.
pub fn desk(displays: &Vec<DisplayInfo>) -> (r: Desk)
    ensures
        r == desk_of(displays@),
{
    let ghost xs = displays@.map_values(|d: DisplayInfo| d.x);
    let ghost ys = displays@.map_values(|d: DisplayInfo| d.y);
    let ghost ends = displays@.map_values(|d: DisplayInfo| end_of(d.x, d.width));
    let ghost feet = displays@.map_values(|d: DisplayInfo| end_of(d.y, d.height));
    let mut min_x: i32 = 0;
    let mut min_y: i32 = 0;
    let mut max_x: i32 = 0;
    let mut max_y: i32 = 0;
    for i in 0..displays.len()
        invariant
            xs == displays@.map_values(|d: DisplayInfo| d.x),
            ys == displays@.map_values(|d: DisplayInfo| d.y),
            ends == displays@.map_values(|d: DisplayInfo| end_of(d.x, d.width)),
            feet == displays@.map_values(|d: DisplayInfo| end_of(d.y, d.height)),
            min_x == least(xs.take(i as int)),
            min_y == least(ys.take(i as int)),
            max_x == greatest(ends.take(i as int)),
            max_y == greatest(feet.take(i as int)),
    {
        proof {
            assert(xs.take(i + 1).drop_last() =~= xs.take(i as int));
            assert(ys.take(i + 1).drop_last() =~= ys.take(i as int));
            assert(ends.take(i + 1).drop_last() =~= ends.take(i as int));
            assert(feet.take(i + 1).drop_last() =~= feet.take(i as int));
        }
        let x: i32 = displays[i].x;
        let y: i32 = displays[i].y;
        let end: i32 = saturate(x as i64 + to_signed(displays[i].width) as i64);
        let foot: i32 = saturate(y as i64 + to_signed(displays[i].height) as i64);
        if i == 0 || x <= min_x {
            min_x = x;
        }
        if i == 0 || y <= min_y {
            min_y = y;
        }
        if i == 0 || end >= max_x {
            max_x = end;
        }
        if i == 0 || foot >= max_y {
            max_y = foot;
        }
    }
    proof {
        assert(xs.take(xs.len() as int) =~= xs);
        assert(ys.take(ys.len() as int) =~= ys);
        assert(ends.take(ends.len() as int) =~= ends);
        assert(feet.take(feet.len() as int) =~= feet);
    }
    Desk { x: min_x, y: min_y, width: side_of(min_x, max_x), height: side_of(min_y, max_y) }
}

proof fn least_is_least(s: Seq<i32>, i: int)
    requires
        0 <= i < s.len(),
    ensures
        least(s) <= s[i],
    decreases s.len(),
{
    if i < s.len() - 1 {
        least_is_least(s.drop_last(), i);
    }
}

proof fn greatest_is_greatest(s: Seq<i32>, i: int)
    requires
        0 <= i < s.len(),
    ensures
        s[i] <= greatest(s),
    decreases s.len(),
{
    if i < s.len() - 1 {
        greatest_is_greatest(s.drop_last(), i);
    }
}

/// Every display is on the desk, as far as its end is a machine integer.
pub proof fn desk_holds_its_displays(displays: Seq<DisplayInfo>, i: int)
    requires
        0 <= i < displays.len(),
    ensures
        ({
            let desk = desk_of(displays);
            let d = displays[i];
            &&& desk.x <= d.x && desk.y <= d.y
            &&& end_of(d.x, d.width) <= desk.x + desk.width
            &&& end_of(d.y, d.height) <= desk.y + desk.height
        }),
{
    least_is_least(displays.map_values(|d: DisplayInfo| d.x), i);
    least_is_least(displays.map_values(|d: DisplayInfo| d.y), i);
    greatest_is_greatest(displays.map_values(|d: DisplayInfo| end_of(d.x, d.width)), i);
    greatest_is_greatest(displays.map_values(|d: DisplayInfo| end_of(d.y, d.height)), i);
}

/// The modifiers that are held.
#[derive(Clone, Copy, Debug, PartialEq, Eq, Structural)]
pub struct Modifiers {
    pub shift: bool,
    pub ctrl: bool,
    pub alt: bool,
}

/// The event of a key that is held or not, if that changed.
pub open spec fn changed(code: u16, before: bool, now: bool) -> Seq<InputEvent> {
    if before != now {
        seq![InputEvent::Key { code, pressed: now }]
    } else {
        seq![]
    }
}

/// The key events between two states of the modifiers.
pub open spec fn modifier_events(before: Modifiers, now: Modifiers) -> Seq<InputEvent> {
    changed(KEY_LEFTSHIFT, before.shift, now.shift) + changed(KEY_LEFTCTRL, before.ctrl, now.ctrl)
        + changed(KEY_LEFTALT, before.alt, now.alt)
}

fn push_change(out: &mut Vec<InputEvent>, code: u16, before: bool, now: bool)
    ensures
        final(out)@ == old(out)@ + changed(code, before, now),
{
    if before != now {
        out.push(InputEvent::Key { code, pressed: now });
    }
    assert(out@ =~= old(out)@ + changed(code, before, now));
}

// ---------------------------------------------------------------------------
// Input
// ---------------------------------------------------------------------------

/// A pixel of a display under the pointer.
#[derive(Clone, Copy, Debug, PartialEq, Eq, Structural)]
pub struct Point {
    pub display_id: u32,
    pub x: u32,
    pub y: u32,
}

/// What happened in the window.
#[derive(Clone, Copy, Debug, PartialEq, Eq, Structural)]
pub enum WindowEvent {
    /// A key. One that has no code is not sent.
    Key { code: Option<u16>, pressed: bool, repeat: bool },
    /// A pointer button, and the pixel that it is over, if any. Buttons without a
    /// number are not sent.
    Button { at: Option<Point>, button: Option<u8>, pressed: bool },
    /// The wheel, in detents, over a display, if it is over one.
    Wheel { display_id: Option<u32>, dx: i32, dy: i32 },
}

pub open spec fn move_to(p: Point) -> InputEvent {
    InputEvent::MouseMove { display_id: p.display_id, x: p.x, y: p.y }
}

/// The input events of something that happened in the window.
pub open spec fn events_of(event: WindowEvent) -> Seq<InputEvent> {
    match event {
        WindowEvent::Key { code, pressed, repeat } => match code {
            Some(code) if !repeat => seq![InputEvent::Key { code, pressed }],
            _ => seq![],
        },
        WindowEvent::Button { at, button, pressed } => match (at, button) {
            (Some(p), Some(button)) => seq![
                move_to(p),
                InputEvent::MouseButton { display_id: p.display_id, button, pressed },
            ],
            _ => seq![],
        },
        WindowEvent::Wheel { display_id, dx, dy } => match display_id {
            Some(display_id) if dx != 0 || dy != 0 => seq![
                InputEvent::MouseWheel { display_id, dx, dy },
            ],
            _ => seq![],
        },
    }
}

/// The input events of all that happened, in order.
pub open spec fn all_events(events: Seq<WindowEvent>) -> Seq<InputEvent>
    decreases events.len(),
{
    if events.len() == 0 {
        seq![]
    } else {
        all_events(events.drop_last()) + events_of(events.last())
    }
}

/// Whether a display was pressed, which takes the focus from the text field.
pub open spec fn presses_display(event: WindowEvent) -> bool {
    event matches WindowEvent::Button { at, pressed, .. } && at is Some && pressed
}

pub open spec fn any_press(events: Seq<WindowEvent>) -> bool {
    exists|i: int| 0 <= i < events.len() && presses_display(#[trigger] events[i])
}

/// What is sent to the host for one frame of the window: where the pointer is, then
/// the modifiers, then all that happened.
pub open spec fn frame_events(
    pointer: Option<Point>,
    before: Modifiers,
    now: Modifiers,
    events: Seq<WindowEvent>,
) -> Seq<InputEvent> {
    (match pointer {
        Some(p) => seq![move_to(p)],
        None => seq![],
    }) + modifier_events(before, now) + all_events(events)
}

fn push_events(out: &mut Vec<InputEvent>, event: &WindowEvent)
    ensures
        final(out)@ == old(out)@ + events_of(*event),
{
    match event {
        WindowEvent::Key { code, pressed, repeat } => {
            if let Some(code) = code {
                if !*repeat {
                    out.push(InputEvent::Key { code: *code, pressed: *pressed });
                }
            }
        },
        WindowEvent::Button { at, button, pressed } => {
            if let Some(p) = at {
                if let Some(button) = button {
                    out.push(InputEvent::MouseMove { display_id: p.display_id, x: p.x, y: p.y });
                    out.push(
                        InputEvent::MouseButton {
                            display_id: p.display_id,
                            button: *button,
                            pressed: *pressed,
                        },
                    );
                }
            }
        },
        WindowEvent::Wheel { display_id, dx, dy } => {
            if let Some(display_id) = display_id {
                if *dx != 0 || *dy != 0 {
                    out.push(
                        InputEvent::MouseWheel { display_id: *display_id, dx: *dx, dy: *dy },
                    );
                }
            }
        },
    }
    assert(out@ =~= old(out)@ + events_of(*event));
}

/// What is sent to the host for one frame of the window, and whether the text field
/// loses the focus. Nothing is sent while the user is typing into it, and the
/// modifiers are then left as they were.
pub fn apply_input(
    typing: bool,
    pointer: Option<Point>,
    mods: &mut Modifiers,
    now: Modifiers,
    events: &Vec<WindowEvent>,
) -> (r: (Vec<InputEvent>, bool))
    ensures
        if typing {
            r.0@.len() == 0 && !r.1 && *final(mods) == *old(mods)
        } else {
            &&& r.0@ == frame_events(pointer, *old(mods), now, events@)
            &&& r.1 == any_press(events@)
            &&& *final(mods) == now
        },
{
    let mut out: Vec<InputEvent> = Vec::new();
    if typing {
        return (out, false);
    }
    if let Some(p) = pointer {
        out.push(InputEvent::MouseMove { display_id: p.display_id, x: p.x, y: p.y });
    }
    push_change(&mut out, KEY_LEFTSHIFT, mods.shift, now.shift);
    push_change(&mut out, KEY_LEFTCTRL, mods.ctrl, now.ctrl);
    push_change(&mut out, KEY_LEFTALT, mods.alt, now.alt);
    let ghost head = frame_events(pointer, *old(mods), now, seq![]);
    assert(out@ =~= head);
    *mods = now;
    let mut pressed: bool = false;
    assert(head + all_events(events@.take(0)) =~= head);
    for i in 0..events.len()
        invariant
            out@ == head + all_events(events@.take(i as int)),
            pressed == any_press(events@.take(i as int)),
            *mods == now,
    {
        let ghost before = events@.take(i as int);
        let ghost after = events@.take(i + 1);
        assert(after.drop_last() =~= before);
        push_events(&mut out, &events[i]);
        assert(out@ =~= head + all_events(after));
        let ghost was = pressed;
        if let WindowEvent::Button { at, pressed: down, .. } = &events[i] {
            if at.is_some() && *down {
                pressed = true;
            }
        }
        proof {
            if was {
                let j = choose|j: int| 0 <= j < before.len() && presses_display(#[trigger] before[j]);
                assert(presses_display(after[j]));
            }
            if presses_display(events@[i as int]) {
                assert(presses_display(after[i as int]));
            }
            if any_press(after) {
                let j = choose|j: int| 0 <= j < after.len() && presses_display(#[trigger] after[j]);
                if j < i {
                    assert(presses_display(before[j]));
                }
            }
        }
    }
    assert(events@.take(events@.len() as int) =~= events@);
    assert(out@ =~= frame_events(pointer, *old(mods), now, events@));
    (out, pressed)
}

// ---------------------------------------------------------------------------
// What the window shows
// ---------------------------------------------------------------------------

/// The texts and the displays that the window shows.
pub struct Panel {
    pub status: String,
    pub displays: Vec<DisplayInfo>,
    pub file_status: String,
    pub frame_count: u32,
}

/// A [`Panel`] over sequences.
#[verifier::ext_equal]
pub struct PanelView {
    pub status: Seq<char>,
    pub displays: Seq<DisplayView>,
    pub file_status: Seq<char>,
    pub frame_count: u32,
}

impl View for Panel {
    type V = PanelView;

    open spec fn view(&self) -> PanelView {
        PanelView {
            status: self.status@,
            displays: display_views(self.displays@),
            file_status: self.file_status@,
            frame_count: self.frame_count,
        }
    }
}

/// What the window shows after an event.
pub open spec fn shown(p: PanelView, event: UiEventView) -> PanelView {
    match event {
        UiEventView::Status(text) => PanelView { status: text, ..p },
        UiEventView::Displays(displays) => PanelView { displays, ..p },
        UiEventView::File(progress) => PanelView { file_status: file_status_spec(progress), ..p },
        UiEventView::Closed(text) => PanelView { status: text, ..p },
    }
}

impl Default for Panel {
    fn default() -> (r: Panel)
        ensures
            r@ == (PanelView {
                status: "Starting"@,
                displays: seq![],
                file_status: "No file transfer yet"@,
                frame_count: 0,
            }),
    {
        let r = Panel {
            status: "Starting".to_owned(),
            displays: Vec::new(),
            file_status: "No file transfer yet".to_owned(),
            frame_count: 0,
        };
        assert(r@.displays =~= Seq::<DisplayView>::empty());
        r
    }
}

impl Panel {
    /// A frame came.
    pub fn on_frame(&mut self)
        ensures
            final(self)@ == (PanelView {
                frame_count: if old(self)@.frame_count < u32::MAX {
                    (old(self)@.frame_count + 1) as u32
                } else {
                    u32::MAX
                },
                ..old(self)@
            }),
    {
        if self.frame_count < u32::MAX {
            self.frame_count = self.frame_count + 1;
        }
    }

    /// Takes an event of the session.
    pub fn on_event(&mut self, event: UiEvent)
        ensures
            final(self)@ == shown(old(self)@, event@),
    {
        match event {
            UiEvent::Status(text) => self.status = text,
            UiEvent::Displays(displays) => self.displays = displays,
            UiEvent::File(progress) => self.file_status = file_status(&progress),
            UiEvent::Closed(text) => self.status = text,
        }
    }
}

/// What is typed into the form that connects: where the host is, and the PIN.
pub fn check_form<'a>(host: &str, bare_ip: bool, pin: &'a str) -> (r: Result<
    (Endpoint, &'a str),
    String,
>)
    ensures
        match endpoint(host@, bare_ip) {
            Ok(e) => if is_pin(trimmed(pin@)) {
                r matches Ok((v, p)) && v@ == e && p@ == trimmed(pin@)
            } else {
                r matches Err(v) && v@ == pin_error(trimmed(pin@))
            },
            Err(e) => r matches Err(v) && v@ == e,
        },
{
    let endpoint = parse_host(host, bare_ip)?;
    let pin = validate_pin(pin)?;
    Ok((endpoint, pin))
}

// ---------------------------------------------------------------------------
// What the host is told
// ---------------------------------------------------------------------------

/// Whether an event is of a key.
pub open spec fn is_key_event(e: InputEvent, code: u16) -> bool {
    e matches InputEvent::Key { code: c, .. } && c == code
}

/// Whether the change of one modifier is told among some events: exactly once where it
/// changed, with how it is now, and not at all where it did not.
pub open spec fn tells_change(events: Seq<InputEvent>, code: u16, before: bool, now: bool) -> bool {
    &&& before != now ==> exists|i: int|
        0 <= i < events.len() && #[trigger] events[i] == (InputEvent::Key { code, pressed: now })
    &&& forall|i: int|
        0 <= i < events.len() && is_key_event(#[trigger] events[i], code) ==> before != now
            && events[i] == (InputEvent::Key { code, pressed: now })
    &&& forall|i: int, j: int|
        0 <= i < j < events.len() ==> !(is_key_event(#[trigger] events[i], code) && is_key_event(
            #[trigger] events[j],
            code,
        ))
}

/// What is told of the modifiers: each change of shift under 42, of control under 29
/// and of alt under 56, once, and no other key and nothing else.
pub proof fn modifiers_are_told_under_their_own_keys(before: Modifiers, now: Modifiers)
    ensures
        ({
            let told = modifier_events(before, now);
            &&& tells_change(told, 42, before.shift, now.shift)
            &&& tells_change(told, 29, before.ctrl, now.ctrl)
            &&& tells_change(told, 56, before.alt, now.alt)
            &&& forall|i: int|
                0 <= i < told.len() ==> is_key_event(#[trigger] told[i], 42) || is_key_event(
                    told[i],
                    29,
                ) || is_key_event(told[i], 56)
        }),
{
    let told = modifier_events(before, now);
    let a = changed(KEY_LEFTSHIFT, before.shift, now.shift);
    let b = changed(KEY_LEFTCTRL, before.ctrl, now.ctrl);
    let c = changed(KEY_LEFTALT, before.alt, now.alt);
    assert(told == a + b + c);
    if before.shift != now.shift {
        assert(told[0] == InputEvent::Key { code: 42, pressed: now.shift });
    }
    if before.ctrl != now.ctrl {
        assert(told[a.len() as int] == InputEvent::Key { code: 29, pressed: now.ctrl });
    }
    if before.alt != now.alt {
        assert(told[(a + b).len() as int] == InputEvent::Key { code: 56, pressed: now.alt });
    }
    assert forall|i: int| 0 <= i < told.len() implies {
        ||| i < a.len() && #[trigger] told[i] == a[0]
        ||| a.len() <= i < a.len() + b.len() && told[i] == b[0]
        ||| a.len() + b.len() <= i && told[i] == c[0]
    } by {}
}

/// What is sent for one frame of the window is, in this order: one move where the
/// pointer is over a display, the changes of the modifiers, and what happened.
pub proof fn frame_is_pointer_then_modifiers_then_events(
    pointer: Option<Point>,
    before: Modifiers,
    now: Modifiers,
    events: Seq<WindowEvent>,
)
    ensures
        ({
            let sent = frame_events(pointer, before, now, events);
            let n: int = if pointer is Some {
                1
            } else {
                0
            };
            let tail = all_events(events);
            let told = sent.subrange(n, sent.len() - tail.len());
            &&& sent.len() >= n + tail.len()
            &&& pointer matches Some(p) ==> sent[0] == (InputEvent::MouseMove {
                display_id: p.display_id,
                x: p.x,
                y: p.y,
            })
            &&& tells_change(told, 42, before.shift, now.shift)
            &&& tells_change(told, 29, before.ctrl, now.ctrl)
            &&& tells_change(told, 56, before.alt, now.alt)
            &&& told.len() == (if before.shift != now.shift {
                1int
            } else {
                0
            }) + (if before.ctrl != now.ctrl {
                1int
            } else {
                0
            }) + (if before.alt != now.alt {
                1int
            } else {
                0
            })
            &&& sent.skip(sent.len() - tail.len()) == tail
        }),
{
    let sent = frame_events(pointer, before, now, events);
    let tail = all_events(events);
    let n: int = if pointer is Some {
        1
    } else {
        0
    };
    modifiers_are_told_under_their_own_keys(before, now);
    assert(sent.subrange(n, sent.len() - tail.len()) =~= modifier_events(before, now));
    assert(sent.skip(sent.len() - tail.len()) =~= tail);
}

/// A key that has a code is told as it is, pressed or released, unless it repeats.
pub proof fn window_keys_are_told(code: Option<u16>, pressed: bool, repeat: bool)
    ensures
        ({
            let told = events_of(WindowEvent::Key { code, pressed, repeat });
            if code is Some && !repeat {
                told == seq![InputEvent::Key { code: code->0, pressed }]
            } else {
                told.len() == 0
            }
        }),
{
}

/// A button over a display is told with where it is: first the pointer goes there, then
/// the button goes down or up on that display. Elsewhere nothing is told.
pub proof fn window_buttons_are_told(at: Option<Point>, button: Option<u8>, pressed: bool)
    ensures
        ({
            let told = events_of(WindowEvent::Button { at, button, pressed });
            if at is Some && button is Some {
                &&& told.len() == 2
                &&& told[0] == (InputEvent::MouseMove {
                    display_id: at->0.display_id,
                    x: at->0.x,
                    y: at->0.y,
                })
                &&& told[1] == (InputEvent::MouseButton {
                    display_id: at->0.display_id,
                    button: button->0,
                    pressed,
                })
            } else {
                told.len() == 0
            }
        }),
{
}

/// The wheel over a display is told with both of its turns. Where it did not turn, or
/// elsewhere, nothing is told.
pub proof fn window_wheel_is_told(display_id: Option<u32>, dx: i32, dy: i32)
    ensures
        ({
            let told = events_of(WindowEvent::Wheel { display_id, dx, dy });
            if display_id is Some && (dx != 0 || dy != 0) {
                told == seq![InputEvent::MouseWheel { display_id: display_id->0, dx, dy }]
            } else {
                told.len() == 0
            }
        }),
{
}

/// What happened is told in the order in which it happened, and each thing by itself.
pub proof fn events_are_told_in_order(a: Seq<WindowEvent>, b: Seq<WindowEvent>, e: WindowEvent)
    ensures
        all_events(a + b) == all_events(a) + all_events(b),
        all_events(seq![e]) == events_of(e),
        all_events(seq![]).len() == 0,
    decreases b.len(),
{
    let one = seq![e];
    assert(one.drop_last() =~= Seq::<WindowEvent>::empty());
    assert(all_events(one.drop_last()).len() == 0);
    assert(one.last() == e);
    assert(all_events(one) =~= events_of(e));
    if b.len() == 0 {
        assert(a + b =~= a);
        assert(all_events(a) + all_events(b) =~= all_events(a));
    } else {
        assert((a + b).drop_last() =~= a + b.drop_last());
        events_are_told_in_order(a, b.drop_last(), e);
        assert(all_events(a) + (all_events(b.drop_last()) + events_of(b.last())) =~= all_events(a)
            + all_events(b.drop_last()) + events_of(b.last()));
    }
}

/// The text field loses the focus exactly when a button goes down over a display.
pub proof fn focus_is_lost_on_a_press(events: Seq<WindowEvent>)
    ensures
        any_press(events) <==> exists|i: int|
            0 <= i < events.len() && (#[trigger] events[i] matches WindowEvent::Button {
                at: Some(_),
                pressed: true,
                ..
            }),
{
    if any_press(events) {
        let i = choose|i: int| 0 <= i < events.len() && presses_display(#[trigger] events[i]);
        assert(events[i] matches WindowEvent::Button { at: Some(_), pressed: true, .. });
    }
    if exists|i: int|
        0 <= i < events.len() && (#[trigger] events[i] matches WindowEvent::Button {
            at: Some(_),
            pressed: true,
            ..
        }) {
        let i = choose|i: int|
            0 <= i < events.len() && (#[trigger] events[i] matches WindowEvent::Button {
                at: Some(_),
                pressed: true,
                ..
            });
        assert(presses_display(events[i]));
    }
}

/// The desk is no larger than the displays: each of its sides is touched by one, where
/// their ends are machine integers.
pub proof fn desk_is_tight(displays: Seq<DisplayInfo>)
    requires
        displays.len() > 0,
        forall|i: int| #![trigger displays[i]]
            0 <= i < displays.len() ==> {
                &&& 0 < displays[i].width <= 0x7fff_ffff && 0 < displays[i].height <= 0x7fff_ffff
                &&& displays[i].x + displays[i].width <= 0x7fff_ffff
                &&& displays[i].y + displays[i].height <= 0x7fff_ffff
            },
    ensures
        ({
            let desk = desk_of(displays);
            &&& forall|i: int| #![trigger displays[i]]
                0 <= i < displays.len() ==> {
                    &&& desk.x <= displays[i].x && desk.y <= displays[i].y
                    &&& displays[i].x + displays[i].width <= desk.x + desk.width
                    &&& displays[i].y + displays[i].height <= desk.y + desk.height
                }
            &&& exists|i: int| 0 <= i < displays.len() && (#[trigger] displays[i]).x == desk.x
            &&& exists|i: int| 0 <= i < displays.len() && (#[trigger] displays[i]).y == desk.y
            &&& exists|i: int|
                0 <= i < displays.len() && (#[trigger] displays[i]).x + displays[i].width == desk.x
                    + desk.width
            &&& exists|i: int|
                0 <= i < displays.len() && (#[trigger] displays[i]).y + displays[i].height == desk.y
                    + desk.height
        }),
{
    let desk = desk_of(displays);
    let xs = displays.map_values(|d: DisplayInfo| d.x);
    let ys = displays.map_values(|d: DisplayInfo| d.y);
    let ends = displays.map_values(|d: DisplayInfo| end_of(d.x, d.width));
    let feet = displays.map_values(|d: DisplayInfo| end_of(d.y, d.height));
    assert forall|i: int| 0 <= i < displays.len() implies {
        &&& xs[i] == (#[trigger] displays[i]).x
        &&& ys[i] == displays[i].y
        &&& ends[i] == displays[i].x + displays[i].width
        &&& feet[i] == displays[i].y + displays[i].height
    } by {}
    least_of(xs);
    least_of(ys);
    greatest_of(ends);
    greatest_of(feet);
    let i = choose|i: int| 0 <= i < xs.len() && least(xs) == #[trigger] xs[i];
    assert(displays[i].x == desk.x);
    let j = choose|i: int| 0 <= i < ys.len() && least(ys) == #[trigger] ys[i];
    assert(displays[j].y == desk.y);
    let k = choose|i: int| 0 <= i < ends.len() && greatest(ends) == #[trigger] ends[i];
    assert(xs[k] >= least(xs));
    assert(displays[k].x + displays[k].width == desk.x + desk.width);
    let m = choose|i: int| 0 <= i < feet.len() && greatest(feet) == #[trigger] feet[i];
    assert(ys[m] >= least(ys));
    assert(displays[m].y + displays[m].height == desk.y + desk.height);
    assert forall|i: int| #![trigger displays[i]] 0 <= i < displays.len() implies {
        &&& desk.x <= displays[i].x && desk.y <= displays[i].y
        &&& displays[i].x + displays[i].width <= desk.x + desk.width
        &&& displays[i].y + displays[i].height <= desk.y + desk.height
    } by {
        assert(xs[i] == displays[i].x && ys[i] == displays[i].y);
        assert(ends[i] <= greatest(ends) && feet[i] <= greatest(feet));
    }
}

/// The window shows the last status, the last displays and the last file, and an event
/// of one of them leaves the others and the count of frames alone.
pub proof fn window_shows_the_last_of_each(p: PanelView, event: UiEventView)
    ensures
        ({
            let q = shown(p, event);
            &&& event matches UiEventView::Status(text) ==> q.status == text
            &&& event matches UiEventView::Closed(text) ==> q.status == text
            &&& event matches UiEventView::Displays(displays) ==> q.displays == displays
            &&& event matches UiEventView::File(f) ==> q.file_status == file_status_spec(f)
            &&& !(event is Status) && !(event is Closed) ==> q.status == p.status
            &&& !(event is Displays) ==> q.displays == p.displays
            &&& !(event is File) ==> q.file_status == p.file_status
            &&& q.frame_count == p.frame_count
        }),
{
}

} // verus!
