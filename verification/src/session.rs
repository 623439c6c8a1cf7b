//! A session on the host.

use vstd::arithmetic::div_mod::*;
use vstd::arithmetic::mul::*;
use vstd::prelude::*;
use vstd::string::*;

use crate::capture::RawFrame;
use crate::encode::EncodedFrame;
use crate::input::Cursor;
use crate::message::{
    display_views, DisplayInfo, DisplayView, InputEvent, Message, MessageView, VERSION,
};
use crate::text::{decimal, push_decimal};

verus! {

// ---------------------------------------------------------------------------
// Greeting
// ---------------------------------------------------------------------------

/// What is wrong with the first message of a client, or its name.
pub open spec fn hello(msg: MessageView) -> Result<Seq<char>, Seq<char>> {
    match msg {
        MessageView::Hello { version, name } => if version == VERSION {
            Ok(name)
        } else {
            Err("client protocol version "@ + decimal(version as nat) + ", host is 1"@)
        },
        _ => Err("expected hello"@),
    }
}

/// The name of a client that greets with the same version.
pub fn check_hello(msg: &Message) -> (r: Result<&str, String>)
    ensures
        match hello(msg@) {
            Ok(name) => r matches Ok(n) && n@ == name,
            Err(text) => r matches Err(e) && e@ == text,
        },
{
    match msg {
        Message::Hello { version, name } => {
            if *version == VERSION {
                Ok(name.as_str())
            } else {
                let mut out = "client protocol version ".to_owned();
                push_decimal(&mut out, *version as u64);
                out.append(", host is 1");
                Err(out)
            }
        },
        _ => Err("expected hello".to_owned()),
    }
}

/// What is wrong with the host's answer to the greeting.
pub open spec fn hello_ack(msg: MessageView) -> Result<(), Seq<char>> {
    match msg {
        MessageView::HelloAck { version } => if version == VERSION {
            Ok(())
        } else {
            Err("host protocol version "@ + decimal(version as nat) + ", client is 1"@)
        },
        _ => Err("expected hello ack"@),
    }
}

/// Whether the host answers with the same version.
pub fn check_hello_ack(msg: &Message) -> (r: Result<(), String>)
    ensures
        match hello_ack(msg@) {
            Ok(_) => r is Ok,
            Err(text) => r matches Err(e) && e@ == text,
        },
{
    match msg {
        Message::HelloAck { version } => {
            if *version == VERSION {
                Ok(())
            } else {
                let mut out = "host protocol version ".to_owned();
                push_decimal(&mut out, *version as u64);
                out.append(", client is 1");
                Err(out)
            }
        },
        _ => Err("expected hello ack".to_owned()),
    }
}

// ---------------------------------------------------------------------------
// Pictures
// ---------------------------------------------------------------------------

/// A host needs a frame rate.
pub fn check_fps(fps: u32) -> (r: Result<(), String>)
    ensures
        match r {
            Ok(_) => fps > 0,
            Err(e) => fps == 0 && e@ == "fps must be at least 1"@,
        },
{
    if fps == 0 {
        Err("fps must be at least 1".to_owned())
    } else {
        Ok(())
    }
}

/// The milliseconds from one frame to the next.
pub open spec fn interval_ms(fps: u32) -> u64 {
    1000u64 / (if fps == 0 {
        1u64
    } else {
        fps as u64
    })
}

pub fn frame_interval(fps: u32) -> (r: u64)
    ensures
        r == interval_ms(fps),
{
    let rate: u64 = if fps == 0 {
        1
    } else {
        fps as u64
    };
    1000 / rate
}

/// A time stamp moved on, which wraps at the end.
pub open spec fn stamped(pts: u64, by: u64) -> u64 {
    if pts + by <= u64::MAX {
        (pts + by) as u64
    } else {
        (pts + by - 0x1_0000_0000_0000_0000) as u64
    }
}

/// A time stamp moved on, which wraps at the end.
pub fn advance_pts(pts: u64, by: u64) -> (r: u64)
    ensures
        r == stamped(pts, by),
{
    if by <= u64::MAX - pts {
        pts + by
    } else {
        by - (u64::MAX - pts) - 1
    }
}

/// Where a display is in a list: the first one with its id, or -1.
pub open spec fn first_display(displays: Seq<DisplayView>, id: u32) -> int
    decreases displays.len(),
{
    if displays.len() == 0 {
        -1
    } else {
        let before = first_display(displays.drop_last(), id);
        if before >= 0 {
            before
        } else if displays.last().id == id {
            displays.len() - 1
        } else {
            -1
        }
    }
}

/// The displays after one of them sent a frame: it has the size of the frame.
pub open spec fn resized(displays: Seq<DisplayView>, id: u32, width: u32, height: u32) -> Seq<
    DisplayView,
> {
    let k = first_display(displays, id);
    if 0 <= k < displays.len() {
        displays.update(k, DisplayView { width, height, ..displays[k] })
    } else {
        displays
    }
}

proof fn first_display_is(displays: Seq<DisplayView>, id: u32, k: int)
    requires
        0 <= k < displays.len(),
        displays[k].id == id,
        forall|j: int| 0 <= j < k ==> (#[trigger] displays[j]).id != id,
    ensures
        first_display(displays, id) == k,
    decreases displays.len(),
{
    let before = displays.drop_last();
    if k < displays.len() - 1 {
        assert(before[k] == displays[k]);
        assert forall|j: int| 0 <= j < k implies (#[trigger] before[j]).id != id by {
            assert(before[j] == displays[j]);
        }
        first_display_is(before, id, k);
    } else {
        no_display(before, id);
    }
}

proof fn no_display(displays: Seq<DisplayView>, id: u32)
    requires
        forall|j: int| 0 <= j < displays.len() ==> (#[trigger] displays[j]).id != id,
    ensures
        first_display(displays, id) == -1,
    decreases displays.len(),
{
    if displays.len() > 0 {
        let before = displays.drop_last();
        assert forall|j: int| 0 <= j < before.len() implies (#[trigger] before[j]).id != id by {
            assert(before[j] == displays[j]);
        }
        no_display(before, id);
        assert(displays[displays.len() - 1].id != id);
    }
}

/// Gives a display the size of its frame. The result says whether that changed
/// anything: then its encoder is to be replaced, and the client is to be told.
pub fn resize_display(displays: &mut Vec<DisplayInfo>, frame: &RawFrame) -> (changed: bool)
    ensures
        display_views(final(displays)@) == resized(
            display_views(old(displays)@),
            frame.display_id,
            frame.width,
            frame.height,
        ),
        changed == (display_views(final(displays)@) != display_views(old(displays)@)),
{
    let n: usize = displays.len();
    let ghost before = display_views(displays@);
    for i in 0..n
        invariant
            n == displays@.len(),
            displays@ == old(displays)@,
            before == display_views(displays@),
            forall|j: int| 0 <= j < i ==> (#[trigger] before[j]).id != frame.display_id,
    {
        assert(before[i as int] == displays@[i as int]@);
        if displays[i].id == frame.display_id {
            proof {
                first_display_is(before, frame.display_id, i as int);
            }
            if displays[i].width != frame.width || displays[i].height != frame.height {
                displays[i].width = frame.width;
                displays[i].height = frame.height;
                proof {
                    let after = display_views(displays@);
                    assert(after =~= resized(before, frame.display_id, frame.width, frame.height));
                    assert(after[i as int] != before[i as int]);
                }
                return true;
            }
            assert(resized(before, frame.display_id, frame.width, frame.height) =~= before);
            return false;
        }
    }
    proof {
        no_display(before, frame.display_id);
    }
    false
}

/// The message of an encoded frame.
pub open spec fn video_of(display_id: u32, pts: u64, frame: EncodedFrame) -> MessageView {
    MessageView::Video {
        display_id,
        pts_ms: if pts <= u32::MAX {
            pts as u32
        } else {
            u32::MAX
        },
        keyframe: frame.keyframe,
        data: frame.data@,
    }
}

/// The message of an encoded frame.
pub fn video_message(display_id: u32, pts: u64, frame: EncodedFrame) -> (r: Message)
    ensures
        r@ == (MessageView::Video {
            display_id,
            pts_ms: if pts <= u32::MAX {
                pts as u32
            } else {
                u32::MAX
            },
            keyframe: frame.keyframe,
            data: frame.data@,
        }),
        r@ == video_of(display_id, pts, frame),
{
    let pts_ms: u32 = if pts <= u32::MAX as u64 {
        pts as u32
    } else {
        u32::MAX
    };
    Message::Video { display_id, pts_ms, keyframe: frame.keyframe, data: frame.data }
}

// ---------------------------------------------------------------------------
// Messages
// ---------------------------------------------------------------------------

/// What the host does with a message of the client, apart from its files.
#[derive(Debug, Clone, Copy, PartialEq, Eq, Structural)]
pub enum Reaction {
    /// Answer with a pong.
    Pong { nonce: u64 },
    /// Inject the event. The pointer is where the cursor says, if it moved.
    Inject { event: InputEvent, cursor: Option<Cursor> },
    /// It may be for a file transfer.
    Pass,
}

pub open spec fn reaction_to(msg: MessageView) -> Reaction {
    match msg {
        MessageView::Ping { nonce } => Reaction::Pong { nonce },
        MessageView::Input(event) => Reaction::Inject {
            event,
            cursor: match event {
                InputEvent::MouseMove { display_id, x, y } => Some(
                    Cursor { display_id, x, y, visible: true },
                ),
                _ => None,
            },
        },
        _ => Reaction::Pass,
    }
}

/// What to do with a message of the client.
pub fn react(msg: &Message) -> (r: Reaction)
    ensures
        r == reaction_to(msg@),
{
    match msg {
        Message::Ping { nonce } => Reaction::Pong { nonce: *nonce },
        Message::Input(event) => {
            let cursor = match event {
                InputEvent::MouseMove { display_id, x, y } => Some(
                    Cursor { display_id: *display_id, x: *x, y: *y, visible: true },
                ),
                _ => None,
            };
            Reaction::Inject { event: *event, cursor }
        },
        _ => Reaction::Pass,
    }
}

/// The id of a transfer: the highest bit says which side offers it.
pub open spec fn transfer_id(count: u32, host: bool) -> u32 {
    let low = count % 0x8000_0000;
    if host {
        (low + 0x8000_0000) as u32
    } else {
        low
    }
}

/// The id of the next transfer, for how many there were.
pub fn next_id(count: u32, host: bool) -> (r: u32)
    ensures
        r == transfer_id(count, host),
{
    let low: u32 = count % 0x8000_0000;
    if host {
        low + 0x8000_0000
    } else {
        low
    }
}

/// The transfers of the two sides never have one id.
pub proof fn ids_do_not_meet(a: u32, b: u32)
    ensures
        transfer_id(a, true) != transfer_id(b, false),
{
}

/// As many intervals as there are frames in a second fit into it, and one more
/// millisecond each would not.
pub proof fn frames_fill_a_second(fps: u32)
    requires
        fps > 0,
    ensures
        fps * interval_ms(fps) <= 1000 < fps * (interval_ms(fps) + 1),
{
    lemma_fundamental_div_mod(1000, fps as int);
    lemma_mul_is_distributive_add(fps as int, interval_ms(fps) as int, 1);
}

/// A time stamp goes on by as much as was asked for, but for whole turns of its 64 bits.
pub proof fn stamps_go_on(pts: u64, by: u64)
    ensures
        stamped(pts, by) == (pts + by) % 0x1_0000_0000_0000_0000,
        pts + by <= u64::MAX ==> stamped(pts, by) - pts == by,
{
}

/// A frame gives its size to the first display with its id, and to no other; nothing else
/// of a display changes.
pub proof fn frames_size_their_display(
    displays: Seq<DisplayView>,
    id: u32,
    width: u32,
    height: u32,
    k: int,
    other: int,
)
    requires
        0 <= k < displays.len(),
        displays[k].id == id,
        forall|j: int| 0 <= j < k ==> (#[trigger] displays[j]).id != id,
        0 <= other < displays.len(),
        other != k,
    ensures
        ({
            let after = resized(displays, id, width, height);
            &&& after.len() == displays.len()
            &&& after[other] == displays[other]
            &&& after[k].width == width && after[k].height == height
            &&& after[k].id == id && after[k].x == displays[k].x && after[k].y == displays[k].y
            &&& after[k].scale_percent == displays[k].scale_percent && after[k].name
                == displays[k].name
        }),
{
    first_display_is(displays, id, k);
}

/// A frame of a display that is not in the list changes nothing.
pub proof fn unknown_frames_size_nothing(displays: Seq<DisplayView>, id: u32, w: u32, h: u32)
    requires
        forall|j: int| 0 <= j < displays.len() ==> (#[trigger] displays[j]).id != id,
    ensures
        resized(displays, id, w, h) == displays,
{
    no_display(displays, id);
}

/// A ping is answered with its own number; each event is injected as it came, and the
/// cursor is where a move says; nothing else is answered here.
pub proof fn reactions_follow_the_message(
    nonce: u64,
    event: InputEvent,
    display_id: u32,
    x: u32,
    y: u32,
    msg: MessageView,
)
    ensures
        reaction_to(MessageView::Ping { nonce }) == (Reaction::Pong { nonce }),
        reaction_to(MessageView::Input(event)) matches Reaction::Inject { event: e, cursor } && e
            == event && (cursor is Some <==> event is MouseMove),
        reaction_to(MessageView::Input(InputEvent::MouseMove { display_id, x, y })) matches Reaction::Inject {
            cursor: Some(c),
            ..
        } && c.display_id == display_id && c.x == x && c.y == y && c.visible,
        !(msg is Ping) && !(msg is Input) ==> reaction_to(msg) is Pass,
{
}

/// The ids of the two sides are the two halves of all numbers, and the transfers of one
/// side have ids one after another.
pub proof fn ids_count_up(count: u32)
    ensures
        transfer_id(count, false) < 0x8000_0000,
        transfer_id(count, true) == transfer_id(count, false) + 0x8000_0000,
        count < 0x8000_0000 ==> transfer_id(count, false) == count,
        count < 0x7fff_ffff ==> transfer_id((count + 1) as u32, true) == transfer_id(count, true)
            + 1,
{
}

/// Both sides speak version 1, and refuse another one and every other message.
pub proof fn greetings_are_of_version_one(version: u16, name: Seq<char>, msg: MessageView)
    ensures
        hello(MessageView::Hello { version: 1, name }) == Ok::<_, Seq<char>>(name),
        hello_ack(MessageView::HelloAck { version: 1 }) is Ok,
        version != 1 ==> hello(MessageView::Hello { version, name }) == Err::<Seq<char>, _>(
            "client protocol version "@ + decimal(version as nat) + ", host is 1"@,
        ),
        version != 1 ==> hello_ack(MessageView::HelloAck { version }) == Err::<(), _>(
            "host protocol version "@ + decimal(version as nat) + ", client is 1"@,
        ),
        !(msg is Hello) ==> hello(msg) is Err,
        !(msg is HelloAck) ==> hello_ack(msg) is Err,
{
}

/// A frame is sent as it was encoded, for its display, with its time, as far as 32 bits can
/// hold it.
pub proof fn frames_are_sent_as_encoded(display_id: u32, pts: u64, frame: EncodedFrame)
    ensures
        video_of(display_id, pts, frame) matches MessageView::Video {
            display_id: id,
            pts_ms,
            keyframe,
            data,
        } && id == display_id && keyframe == frame.keyframe && data == frame.data@ && pts_ms <= pts
            && (pts_ms == pts || pts_ms == 0xffff_ffff),
{
}

} // verus!
