//! Captured frames, and how a session captures the desktop.

use vstd::prelude::*;
use vstd::string::*;

use crate::text::same_text;

verus! {

/// One picture of a display, in I420.
#[derive(Debug, Clone, PartialEq, Eq)]
pub struct RawFrame {
    pub display_id: u32,
    pub width: u32,
    pub height: u32,
    pub i420: Vec<u8>,
}

/// A [`RawFrame`] over a sequence.
#[verifier::ext_equal]
pub struct FrameView {
    pub display_id: u32,
    pub width: u32,
    pub height: u32,
    pub i420: Seq<u8>,
}

impl View for RawFrame {
    type V = FrameView;

    open spec fn view(&self) -> FrameView {
        FrameView {
            display_id: self.display_id,
            width: self.width,
            height: self.height,
            i420: self.i420@,
        }
    }
}

pub open spec fn frame_views(s: Seq<RawFrame>) -> Seq<FrameView> {
    s.map_values(|f: RawFrame| f@)
}

/// One slot per monitor. A new capture replaces the previous one, so the
/// encoder never spends time on a picture the client will only see late.
pub struct FrameInbox {
    slots: Vec<RawFrame>,
    closed: bool,
}

/// What [`FrameInbox::recv`] finds.
#[derive(Debug)]
pub enum Received {
    Frame(RawFrame),
    /// There is no frame now, and there may be one later.
    Waiting,
    /// There is no frame, and none will come.
    Closed,
}

/// Where the frame of a display is.
pub open spec fn slot_of(slots: Seq<RawFrame>, display_id: u32) -> int
    decreases slots.len(),
{
    if slots.len() == 0 {
        -1
    } else if slots.last().display_id == display_id {
        slots.len() - 1
    } else {
        slot_of(slots.drop_last(), display_id)
    }
}

/// The slots after a frame was published.
pub open spec fn published(slots: Seq<RawFrame>, frame: RawFrame) -> Seq<RawFrame> {
    let k = slot_of(slots, frame.display_id);
    if 0 <= k < slots.len() {
        slots.update(k, frame)
    } else {
        slots.push(frame)
    }
}

/// The frame that is taken from some slots, and those that are left.
pub open spec fn taken_from(slots: Seq<RawFrame>) -> (Option<RawFrame>, Seq<RawFrame>) {
    if slots.len() == 0 {
        (None, slots)
    } else {
        (Some(slots.last()), slots.drop_last())
    }
}

/// No display has two slots.
pub open spec fn one_each(slots: Seq<RawFrame>) -> bool {
    forall|i: int, j: int|
        0 <= i < j < slots.len() ==> #[trigger] slots[i].display_id
            != #[trigger] slots[j].display_id
}

proof fn slot_is(slots: Seq<RawFrame>, id: u32)
    ensures
        -1 <= slot_of(slots, id) < slots.len(),
        slot_of(slots, id) >= 0 ==> slots[slot_of(slots, id)].display_id == id,
        slot_of(slots, id) < 0 ==> forall|i: int|
            0 <= i < slots.len() ==> (#[trigger] slots[i]).display_id != id,
    decreases slots.len(),
{
    if slots.len() > 0 && slots.last().display_id != id {
        slot_is(slots.drop_last(), id);
        if slot_of(slots, id) < 0 {
            assert forall|i: int| 0 <= i < slots.len() implies (#[trigger] slots[i]).display_id
                != id by {
                if i < slots.len() - 1 {
                    assert(slots.drop_last()[i].display_id != id);
                }
            }
        }
    }
}

/// Publishing keeps one slot for each display, holds the new frame, and leaves
/// the frames of all other displays.
pub proof fn publish_replaces_one(slots: Seq<RawFrame>, frame: RawFrame)
    requires
        one_each(slots),
    ensures
        one_each(published(slots, frame)),
        published(slots, frame).contains(frame),
        forall|f: RawFrame|
            f.display_id != frame.display_id ==> (slots.contains(f) <==> published(
                slots,
                frame,
            ).contains(f)),
{
    let k = slot_of(slots, frame.display_id);
    slot_is(slots, frame.display_id);
    let after = published(slots, frame);
    if k >= 0 {
        assert(after[k] == frame);
    } else {
        assert(after[slots.len() as int] == frame);
    }
    assert forall|f: RawFrame| f.display_id != frame.display_id implies (slots.contains(f)
        <==> after.contains(f)) by {
        if slots.contains(f) {
            let i = choose|i: int| 0 <= i < slots.len() && slots[i] == f;
            assert(after[i] == f);
        }
        if after.contains(f) {
            let i = choose|i: int| 0 <= i < after.len() && after[i] == f;
            assert(slots[i] == f);
        }
    }
}

impl FrameInbox {
    pub closed spec fn slots(&self) -> Seq<RawFrame> {
        self.slots@
    }

    pub closed spec fn is_closed(&self) -> bool {
        self.closed
    }

    pub open spec fn wf(&self) -> bool {
        one_each(self.slots())
    }

    pub fn new() -> (r: FrameInbox)
        ensures
            r.wf(),
            r.slots().len() == 0,
            !r.is_closed(),
    {
        FrameInbox { slots: Vec::new(), closed: false }
    }

    /// Says that no more frames will come.
    pub fn close(&mut self)
        ensures
            final(self).slots() == old(self).slots(),
            final(self).is_closed(),
    {
        self.closed = true;
    }

    /// Puts a frame into the slot of its display.
    pub fn publish(&mut self, frame: RawFrame)
        requires
            old(self).wf(),
        ensures
            final(self).wf(),
            final(self).slots() == published(old(self).slots(), frame),
            final(self).is_closed() == old(self).is_closed(),
    {
        proof {
            publish_replaces_one(self.slots@, frame);
        }
        let n: usize = self.slots.len();
        let mut i: usize = n;
        assert(self.slots@.take(n as int) =~= self.slots@);
        while i > 0
            invariant
                n == self.slots@.len(),
                i <= n,
                self.slots() == old(self).slots(),
                self.is_closed() == old(self).is_closed(),
                slot_of(self.slots@, frame.display_id) == slot_of(
                    self.slots@.take(i as int),
                    frame.display_id,
                ),
                one_each(published(old(self).slots(), frame)),
            decreases i,
        {
            assert(self.slots@.take(i as int).drop_last() =~= self.slots@.take(i - 1));
            i -= 1;
            if self.slots[i].display_id == frame.display_id {
                self.slots.set(i, frame);
                return ;
            }
        }
        self.slots.push(frame);
    }

    /// Takes a frame, if there is one.
    pub fn recv(&mut self) -> (r: Received)
        requires
            old(self).wf(),
        ensures
            final(self).wf(),
            final(self).is_closed() == old(self).is_closed(),
            match r {
                Received::Frame(f) => {
                    &&& old(self).slots().len() > 0
                    &&& f == old(self).slots().last()
                    &&& final(self).slots() == old(self).slots().drop_last()
                },
                Received::Waiting => {
                    &&& old(self).slots().len() == 0 && !old(self).is_closed()
                    &&& final(self).slots() == old(self).slots()
                },
                Received::Closed => {
                    &&& old(self).slots().len() == 0 && old(self).is_closed()
                    &&& final(self).slots() == old(self).slots()
                },
            },
            final(self).slots() == taken_from(old(self).slots()).1,
            match r {
                Received::Frame(f) => taken_from(old(self).slots()).0 == Some(f),
                _ => taken_from(old(self).slots()).0 is None,
            },
    {
        match self.slots.pop() {
            Some(frame) => {
                assert(one_each(self.slots@)) by {
                    assert forall|i: int, j: int|
                        0 <= i < j < self.slots@.len() implies #[trigger] self.slots@[i].display_id
                        != #[trigger] self.slots@[j].display_id by {
                        assert(old(self).slots()[i] == self.slots@[i]);
                        assert(old(self).slots()[j] == self.slots@[j]);
                    }
                }
                Received::Frame(frame)
            },
            None => if self.closed {
                Received::Closed
            } else {
                Received::Waiting
            },
        }
    }
}

/// How a live (non-demo) session captures the desktop.
#[derive(Clone, Copy, Debug, PartialEq, Eq, Structural)]
pub enum CaptureMode {
    /// Every monitor through wlr-screencopy, else the portal.
    Auto,
    /// Every monitor through wlr-screencopy. No picker.
    Screencopy,
    /// The xdg-desktop-portal share picker.
    Portal,
}

/// A way to capture the desktop.
#[derive(Clone, Copy, Debug, PartialEq, Eq, Structural)]
pub enum CaptureSource {
    Screencopy,
    Portal,
}

/// The mode of a word.
pub open spec fn capture_mode(text: Seq<char>) -> Option<CaptureMode> {
    if text == "auto"@ {
        Some(CaptureMode::Auto)
    } else if text == "screencopy"@ {
        Some(CaptureMode::Screencopy)
    } else if text == "portal"@ {
        Some(CaptureMode::Portal)
    } else {
        None
    }
}

impl CaptureMode {
    /// What is opened, one after another, until one of them works.
    pub open spec fn tried(self) -> Seq<CaptureSource> {
        match self {
            CaptureMode::Auto => seq![CaptureSource::Screencopy, CaptureSource::Portal],
            CaptureMode::Screencopy => seq![CaptureSource::Screencopy],
            CaptureMode::Portal => seq![CaptureSource::Portal],
        }
    }

    /// The mode of a word, or what to say to another one.
    pub fn parse(text: &str) -> (r: Result<CaptureMode, String>)
        ensures
            match capture_mode(text@) {
                Some(mode) => r == Ok::<CaptureMode, String>(mode),
                None => r matches Err(e) && e@ == "unknown capture mode "@ + text@
                    + " (auto, screencopy, portal)"@,
            },
    {
        if same_text(text, "auto") {
            Ok(CaptureMode::Auto)
        } else if same_text(text, "screencopy") {
            Ok(CaptureMode::Screencopy)
        } else if same_text(text, "portal") {
            Ok(CaptureMode::Portal)
        } else {
            let mut out = "unknown capture mode ".to_owned();
            out.append(text);
            out.append(" (auto, screencopy, portal)");
            Err(out)
        }
    }

    /// What to open first.
    pub fn first(self) -> (r: CaptureSource)
        ensures
            r == (if self == CaptureMode::Portal {
                CaptureSource::Portal
            } else {
                CaptureSource::Screencopy
            }),
            r == self.tried()[0],
    {
        if self == CaptureMode::Portal {
            CaptureSource::Portal
        } else {
            CaptureSource::Screencopy
        }
    }

    /// What to open when that failed, where there is anything.
    pub fn fallback(self) -> (r: Option<CaptureSource>)
        ensures
            r == (if self == CaptureMode::Auto {
                Some(CaptureSource::Portal)
            } else {
                None
            }),
            r is None <==> self.tried().len() == 1,
            r matches Some(source) ==> self.tried() == seq![self.tried()[0], source],
    {
        if self == CaptureMode::Auto {
            Some(CaptureSource::Portal)
        } else {
            None
        }
    }
}

/// A frame takes the place of the one of its display, and one of a display without a
/// frame comes last, which is the next to be taken.
pub proof fn newest_frame_of_each_display(slots: Seq<RawFrame>, frame: RawFrame, k: int)
    requires
        one_each(slots),
        0 <= k < slots.len(),
    ensures
        slots[k].display_id == frame.display_id ==> published(slots, frame) == slots.update(
            k,
            frame,
        ),
        slots[k].display_id != frame.display_id ==> published(slots, frame)[k] == slots[k],
        (forall|i: int| 0 <= i < slots.len() ==> (#[trigger] slots[i]).display_id
            != frame.display_id) ==> published(slots, frame) == slots.push(frame),
{
    slot_is(slots, frame.display_id);
}

/// There is a mode for each of three words, and for no other.
pub proof fn capture_modes_have_words(text: Seq<char>)
    ensures
        capture_mode(text) == Some(CaptureMode::Auto) <==> text == seq!['a', 'u', 't', 'o'],
        capture_mode(text) == Some(CaptureMode::Portal) <==> text == seq![
            'p',
            'o',
            'r',
            't',
            'a',
            'l',
        ],
        capture_mode(text) == Some(CaptureMode::Screencopy) <==> text == seq![
            's',
            'c',
            'r',
            'e',
            'e',
            'n',
            'c',
            'o',
            'p',
            'y',
        ],
{
    reveal_strlit("auto");
    reveal_strlit("screencopy");
    reveal_strlit("portal");
    assert("auto"@ =~= seq!['a', 'u', 't', 'o']);
    assert("portal"@ =~= seq!['p', 'o', 'r', 't', 'a', 'l']);
    assert("screencopy"@ =~= seq!['s', 'c', 'r', 'e', 'e', 'n', 'c', 'o', 'p', 'y']);
}

/// The picker is shown where it was asked for, and where nothing else works unless it was
/// ruled out; then nothing but it was tried before.
pub proof fn picker_comes_last(mode: CaptureMode)
    ensures
        1 <= mode.tried().len() <= 2,
        mode.tried().contains(CaptureSource::Portal) <==> !(mode is Screencopy),
        mode.tried().contains(CaptureSource::Screencopy) <==> !(mode is Portal),
        mode.tried().contains(CaptureSource::Portal) ==> mode.tried().last()
            == CaptureSource::Portal,
{
    match mode {
        CaptureMode::Auto => {
            assert(mode.tried()[0] == CaptureSource::Screencopy);
            assert(mode.tried()[1] == CaptureSource::Portal);
        },
        CaptureMode::Screencopy => {
            assert(mode.tried()[0] == CaptureSource::Screencopy);
        },
        CaptureMode::Portal => {
            assert(mode.tried()[0] == CaptureSource::Portal);
        },
    }
}

/// Each frame is taken once: what is taken and what is left are what was there, and there
/// is something to take as long as anything is there.
pub proof fn frames_are_taken_once(slots: Seq<RawFrame>, frame: RawFrame)
    requires
        one_each(slots),
    ensures
        slots.len() > 0 ==> (taken_from(slots).0 matches Some(f) && slots
            == taken_from(slots).1.push(f)),
        slots.len() == 0 ==> taken_from(slots).0 is None && taken_from(slots).1.len() == 0,
        (forall|i: int| 0 <= i < slots.len() ==> (#[trigger] slots[i]).display_id
            != frame.display_id) ==> taken_from(published(slots, frame)) == (Some(frame), slots),
{
    slot_is(slots, frame.display_id);
    if slots.len() > 0 {
        assert(slots =~= slots.drop_last().push(slots.last()));
    }
    assert(slots.push(frame).drop_last() =~= slots);
}

} // verus!
