//! A session on the client.

use std::collections::{HashMap, HashSet};

use vstd::prelude::*;
use vstd::slice::*;
use vstd::string::*;

use crate::address::Endpoint;
use crate::decode::{
    history, latest_of, nal_parts, opt_frame, DecoderBank, NoDecoder, RgbaFrame,
};
use crate::file::{
    message_views, one, polled, FileTransferError, SenderView, TransferErrorView,
};
use crate::hash::HASH_LIMIT;
use crate::message::{
    display_views, DisplayInfo, DisplayView, InputEvent, Message, MessageView,
};
use crate::report::{ReportView, SessionReport};
use crate::settings::opt_text;
use crate::transfers::{
    sender_progress, taken, DiskOrder, DiskOrderView, Progress, ProgressView, Transfers,
    TransfersView,
};

verus! {

broadcast use vstd::std_specs::hash::group_hash_axioms;

/// How a client reaches a host, and what it is to do there.
#[derive(Debug, Clone, PartialEq, Eq)]
pub struct SessionConfig {
    pub addr: Endpoint,
    pub pin: String,
    pub download_dir: String,
    pub send_file: Option<String>,
    /// End the session after so many decoded frames and all files.
    pub stop_after_frames: Option<u32>,
}

/// A picture for the window.
#[derive(Debug, Clone, PartialEq, Eq)]
pub struct VideoFrame {
    pub display_id: u32,
    pub width: u32,
    pub height: u32,
    pub rgba: Vec<u8>,
}

/// What the window is told.
#[derive(Debug, Clone, PartialEq, Eq)]
pub enum UiEvent {
    Status(String),
    Displays(Vec<DisplayInfo>),
    File(Progress),
    Closed(String),
}

/// A [`UiEvent`] over sequences.
#[verifier::ext_equal]
pub enum UiEventView {
    Status(Seq<char>),
    Displays(Seq<DisplayView>),
    File(ProgressView),
    Closed(Seq<char>),
}

impl View for UiEvent {
    type V = UiEventView;

    open spec fn view(&self) -> UiEventView {
        match self {
            UiEvent::Status(text) => UiEventView::Status(text@),
            UiEvent::Displays(displays) => UiEventView::Displays(display_views(displays@)),
            UiEvent::File(progress) => UiEventView::File(progress@),
            UiEvent::Closed(text) => UiEventView::Closed(text@),
        }
    }
}

// ---------------------------------------------------------------------------
// Commands
// ---------------------------------------------------------------------------

/// What the window asks for.
#[derive(Debug, Clone, PartialEq, Eq)]
pub enum ClientCommand {
    Input(InputEvent),
    SendFile(String),
    Disconnect,
}

/// What is done on a command.
#[derive(Debug, Clone, PartialEq, Eq)]
pub enum Order {
    /// End the session, for this reason.
    Stop(String),
    Write(Message),
    /// Offer the file at this path.
    Offer(String),
}

/// An [`Order`] over sequences.
#[verifier::ext_equal]
pub enum OrderView {
    Stop(Seq<char>),
    Write(MessageView),
    Offer(Seq<char>),
}

impl View for Order {
    type V = OrderView;

    open spec fn view(&self) -> OrderView {
        match self {
            Order::Stop(text) => OrderView::Stop(text@),
            Order::Write(msg) => OrderView::Write(msg@),
            Order::Offer(path) => OrderView::Offer(path@),
        }
    }
}

pub open spec fn order_of(command: Option<ClientCommand>) -> OrderView {
    match command {
        None => OrderView::Stop("client closed"@),
        Some(ClientCommand::Disconnect) => OrderView::Stop("disconnected"@),
        Some(ClientCommand::Input(event)) => OrderView::Write(MessageView::Input(event)),
        Some(ClientCommand::SendFile(path)) => OrderView::Offer(path@),
    }
}

/// What to do on a command. Without one, the window is gone.
pub fn take_command(command: Option<ClientCommand>) -> (r: Order)
    ensures
        r@ == order_of(command),
{
    match command {
        None => Order::Stop("client closed".to_owned()),
        Some(ClientCommand::Disconnect) => Order::Stop("disconnected".to_owned()),
        Some(ClientCommand::Input(event)) => Order::Write(Message::Input(event)),
        Some(ClientCommand::SendFile(path)) => Order::Offer(path),
    }
}

// ---------------------------------------------------------------------------
// Motion
// ---------------------------------------------------------------------------

/// The FNV-1a hash of some bytes.
pub open spec fn fnv(s: Seq<u8>) -> u64
    decreases s.len(),
{
    if s.len() == 0 {
        0xcbf29ce484222325
    } else {
        (fnv(s.drop_last()) ^ (s.last() as u64)).wrapping_mul(0x100000001b3)
    }
}

/// Every `step`th byte, from the first one on.
pub open spec fn every(s: Seq<u8>, step: nat) -> Seq<u8> {
    Seq::new(((s.len() + step - 1) / (step as int)) as nat, |i: int| s[i * step])
}

/// How far the bytes of a sample are apart: about 48 of them are taken.
pub open spec fn stride_of(len: nat) -> nat {
    if len / 48 < 4 {
        4
    } else {
        len / 48
    }
}

/// A hash of a picture by which it is seen to change.
pub open spec fn sample(rgba: Seq<u8>) -> u64 {
    if rgba.len() == 0 {
        0
    } else {
        fnv(every(rgba, stride_of(rgba.len())))
    }
}

/// A hash of a picture by which it is seen to change.
pub fn sample_rgba(rgba: &[u8]) -> (r: u64)
    ensures
        r == sample(rgba@),
{
    let n: usize = rgba.len();
    if n == 0 {
        return 0;
    }
    let mut step: usize = n / 48;
    if step < 4 {
        step = 4;
    }
    let ghost picked = every(rgba@, step as nat);
    let mut hash: u64 = 0xcbf29ce484222325;
    let mut index: usize = 0;
    let mut done: bool = false;
    let ghost mut k: int = 0;
    assert(picked.take(0) =~= Seq::<u8>::empty());
    proof {
        assert(1 <= picked.len()) by (nonlinear_arith)
            requires
                picked.len() == (n + step - 1) / (step as int),
                n >= 1,
                step >= 4,
        ;
        assert(0 * step == 0) by (nonlinear_arith);
    }
    while !done
        invariant
            n == rgba@.len(),
            n > 0,
            step >= 4,
            step == stride_of(n as nat),
            picked == every(rgba@, step as nat),
            0 <= k <= picked.len(),
            hash == fnv(picked.take(k)),
            !done ==> index < n && index == k * step && k < picked.len(),
            done ==> k == picked.len(),
        decreases picked.len() - k + (if done {
            0int
        } else {
            1
        }),
    {
        hash = (hash ^ (rgba[index] as u64)).wrapping_mul(0x100000001b3);
        proof {
            assert(picked.take(k + 1).drop_last() =~= picked.take(k));
            assert((k + 1) * step == k * step + step) by (nonlinear_arith);
            // The next index is in the picture exactly when the sample has more.
            assert((k + 1) * step < n <==> k + 1 < picked.len()) by (nonlinear_arith)
                requires
                    picked.len() == (n + step - 1) / (step as int),
                    step >= 4,
            ;
            k = k + 1;
        }
        if step < n - index {
            index += step;
        } else {
            done = true;
        }
    }
    assert(picked.take(k) =~= picked);
    hash
}

/// A list of ids in ascending order, none of them twice.
pub open spec fn ascending(s: Seq<u32>) -> bool {
    forall|i: int, j: int| 0 <= i < j < s.len() ==> s[i] < s[j]
}

/// Adds an id to an ascending list, if it is not in it.
fn insert_id(ids: &mut Vec<u32>, id: u32)
    requires
        ascending(old(ids)@),
    ensures
        ascending(final(ids)@),
        final(ids)@.to_set() == old(ids)@.to_set().insert(id),
{
    let n: usize = ids.len();
    let mut i: usize = 0;
    while i < n && ids[i] < id
        invariant
            i <= n,
            n == ids@.len(),
            ids@ == old(ids)@,
            forall|j: int| 0 <= j < i ==> ids@[j] < id,
        decreases n - i,
    {
        i += 1;
    }
    if i < n && ids[i] == id {
        assert(ids@.contains(id));
        assert(ids@.to_set() =~= old(ids)@.to_set().insert(id));
        return ;
    }
    let ghost before = ids@;
    ids.insert(i, id);
    proof {
        let after = ids@;
        assert(after =~= before.take(i as int).push(id) + before.skip(i as int));
        assert forall|x: u32| after.contains(x) <==> before.contains(x) || x == id by {
            if before.contains(x) {
                let j = choose|j: int| 0 <= j < before.len() && before[j] == x;
                if j < i {
                    assert(after[j] == x);
                } else {
                    assert(after[j + 1] == x);
                }
            }
            assert(after[i as int] == id);
            if after.contains(x) && x != id {
                let j = choose|j: int| 0 <= j < after.len() && after[j] == x;
                if j < i {
                    assert(before[j] == x);
                } else {
                    assert(before[j - 1] == x);
                }
            }
        }
        assert(after.to_set() =~= before.to_set().insert(id));
    }
}

// ---------------------------------------------------------------------------
// The session
// ---------------------------------------------------------------------------

/// What a client knows of its session.
#[verifier::ext_equal]
pub struct LiveView {
    pub displays: Seq<DisplayView>,
    pub frames_decoded: u32,
    pub motion: Set<u32>,
    pub samples: Map<u32, u64>,
    pub transfers: TransfersView,
    pub sent_ok: bool,
    pub saw_offer: bool,
    pub received_path: Option<Seq<char>>,
}

/// What a client knows of its session.
pub struct Live {
    displays: Vec<DisplayInfo>,
    frames_decoded: u32,
    motion: HashSet<u32>,
    last_sample: HashMap<u32, u64>,
    transfers: Transfers,
    sent_ok: bool,
    saw_offer: bool,
    received_path: Option<String>,
}

impl View for Live {
    type V = LiveView;

    closed spec fn view(&self) -> LiveView {
        LiveView {
            displays: display_views(self.displays@),
            frames_decoded: self.frames_decoded,
            motion: self.motion@,
            samples: self.last_sample@,
            transfers: self.transfers@,
            sent_ok: self.sent_ok,
            saw_offer: self.saw_offer,
            received_path: opt_text(self.received_path),
        }
    }
}

impl Default for Live {
    fn default() -> (r: Live)
        ensures
            r.wf(),
            r@ == LiveView::start(),
    {
        let r = Live {
            displays: Vec::new(),
            frames_decoded: 0,
            motion: HashSet::new(),
            last_sample: HashMap::new(),
            transfers: Transfers::default(),
            sent_ok: false,
            saw_offer: false,
            received_path: None,
        };
        assert(r@.displays =~= Seq::<DisplayView>::empty());
        r
    }
}

/// What [`Live::on_message`] asks of its caller.
pub struct Outcome {
    pub replies: Vec<Message>,
    pub event: Option<UiEvent>,
    /// The outgoing file moved on: poll it.
    pub poll: bool,
    /// To be done before the replies are written and the event is shown.
    pub disk: DiskOrder,
}

/// An [`Outcome`] over sequences.
#[verifier::ext_equal]
pub struct OutcomeView {
    pub replies: Seq<MessageView>,
    pub event: Option<UiEventView>,
    pub poll: bool,
    pub disk: DiskOrderView,
}

pub open spec fn opt_event(e: Option<UiEvent>) -> Option<UiEventView> {
    match e {
        Some(e) => Some(e@),
        None => None,
    }
}

impl View for Outcome {
    type V = OutcomeView;

    open spec fn view(&self) -> OutcomeView {
        OutcomeView {
            replies: message_views(self.replies@),
            event: opt_event(self.event),
            poll: self.poll,
            disk: self.disk@,
        }
    }
}

/// An outcome that asks for nothing.
pub open spec fn idle() -> OutcomeView {
    OutcomeView { replies: seq![], event: None, poll: false, disk: DiskOrderView::Nothing }
}

/// What the window is told of a transfer that ended early.
pub open spec fn failure_event(e: TransferErrorView) -> UiEventView {
    UiEventView::Status("file transfer: "@ + e.text())
}

impl LiveView {
    /// A session that has just begun.
    pub open spec fn start() -> LiveView {
        LiveView {
            displays: seq![],
            frames_decoded: 0,
            motion: Set::empty(),
            samples: Map::empty(),
            transfers: TransfersView { outgoing: None, incoming: None },
            sent_ok: false,
            saw_offer: false,
            received_path: None,
        }
    }

    /// The session after a frame of a display was decoded.
    pub open spec fn with_frame(self, display_id: u32, rgba: Seq<u8>) -> LiveView {
        LiveView {
            frames_decoded: if self.frames_decoded < u32::MAX {
                (self.frames_decoded + 1) as u32
            } else {
                u32::MAX
            },
            motion: if self.samples.contains_key(display_id) && self.samples[display_id] != sample(
                rgba,
            ) {
                self.motion.insert(display_id)
            } else {
                self.motion
            },
            samples: self.samples.insert(display_id, sample(rgba)),
            ..self
        }
    }

    /// Whether the session did what it was to do: enough frames, and all files.
    pub open spec fn finished(self, stop_after: Option<u32>, sends: bool) -> bool {
        &&& stop_after matches Some(limit) && self.frames_decoded >= limit
        &&& self.displays.len() > 0
        &&& sends ==> self.sent_ok
        &&& self.transfers.outgoing is None && self.transfers.incoming is None
        &&& self.saw_offer ==> self.received_path is Some
    }

    /// The session after something was done on disk, or failed.
    pub open spec fn after_disk(self, order: DiskOrderView, failed: bool) -> LiveView {
        if failed {
            LiveView { transfers: TransfersView { incoming: None, ..self.transfers }, ..self }
        } else {
            LiveView {
                received_path: match order {
                    DiskOrderView::Keep(_, path) => Some(path),
                    _ => self.received_path,
                },
                ..self
            }
        }
    }

    /// The session after its outgoing file moved on.
    pub open spec fn after_poll(self, s: SenderView) -> LiveView {
        LiveView {
            transfers: TransfersView {
                outgoing: if s.peer_confirmed {
                    None
                } else {
                    Some(s)
                },
                ..self.transfers
            },
            sent_ok: self.sent_ok || s.peer_confirmed,
            ..self
        }
    }

    /// What a message of the host does. A picture is not for this function.
    pub open spec fn taking(self, dir: Seq<char>, msg: MessageView) -> (LiveView, OutcomeView) {
        match msg {
            MessageView::Ping { nonce } => (
                self,
                OutcomeView { replies: seq![MessageView::Pong { nonce }], ..idle() },
            ),
            MessageView::Pong { .. } => (self, idle()),
            MessageView::Displays { displays } => (
                LiveView { displays, ..self },
                OutcomeView { event: Some(UiEventView::Displays(displays)), ..idle() },
            ),
            MessageView::Video { .. } => (self, idle()),
            _ => {
                let (transfers, step) = taken(self.transfers, dir, msg);
                (
                    LiveView {
                        transfers,
                        saw_offer: self.saw_offer || msg is FileOffer,
                        ..self
                    },
                    OutcomeView {
                        replies: step.replies,
                        event: match step.error {
                            Some(e) => Some(failure_event(e)),
                            None => match step.progress {
                                Some(p) => Some(UiEventView::File(p)),
                                None => None,
                            },
                        },
                        poll: step.poll,
                        disk: step.disk,
                    },
                )
            },
        }
    }
}

/// The ids of a set in ascending order.
fn ids_of(set: &HashSet<u32>) -> (r: Vec<u32>)
    ensures
        ascending(r@),
        r@.to_set() == set@,
{
    broadcast use vstd::std_specs::hash::group_hash_axioms;

    let mut out: Vec<u32> = Vec::new();
    let ghost all = vstd::std_specs::iter::IteratorSpec::remaining(&set.iter()).unref();
    assert(out@.to_set() =~= all.take(0).to_set());
    for id in it: set.iter()
        invariant
            ascending(out@),
            it.seq().unref() == all,
            all.to_set() == set@,
            out@.to_set() == all.take(it.index()).to_set(),
    {
        assert(all[it.index()] == *id);
        assert(all.take(it.index() + 1) =~= all.take(it.index()) + seq![*id]);
        proof {
            Seq::lemma_to_set_insert_commutes(all.take(it.index()), *id);
        }
        insert_id(&mut out, *id);
    }
    assert(all.take(all.len() as int) =~= all);
    out
}

fn copy_displays(displays: &Vec<DisplayInfo>) -> (r: Vec<DisplayInfo>)
    ensures
        display_views(r@) == display_views(displays@),
{
    let mut out: Vec<DisplayInfo> = Vec::new();
    let ghost all = display_views(displays@);
    assert(display_views(out@) =~= all.take(0));
    for i in 0..displays.len()
        invariant
            all == display_views(displays@),
            display_views(out@) == all.take(i as int),
    {
        let ghost before = out@;
        out.push(displays[i].copy());
        assert(display_views(out@) =~= display_views(before).push(all[i as int]));
        assert(display_views(out@) =~= all.take(i + 1));
    }
    assert(all.take(all.len() as int) =~= all);
    out
}

fn nothing() -> (r: Outcome)
    ensures
        r@ == idle(),
{
    let r = Outcome { replies: Vec::new(), event: None, poll: false, disk: DiskOrder::Nothing };
    assert(message_views(r.replies@) =~= Seq::<MessageView>::empty());
    r
}

fn failure(err: &FileTransferError) -> (r: UiEvent)
    ensures
        r@ == failure_event(err@),
{
    let mut out = "file transfer: ".to_owned();
    out.append(err.text().as_str());
    UiEvent::Status(out)
}

impl Live {
    pub closed spec fn wf(&self) -> bool {
        &&& self.transfers.wf()
        &&& self.transfers@.wf()
    }

    /// Takes a message of the host. A picture goes to [`Live::on_video`].
    pub fn on_message(&mut self, download_dir: &str, msg: &Message) -> (r: Outcome)
        requires
            old(self).wf(),
        ensures
            final(self).wf(),
            final(self)@.transfers.wf(),
            (final(self)@, r@) == old(self)@.taking(download_dir@, msg@),
    {
        match msg {
            Message::Ping { nonce } => Outcome {
                replies: one(Message::Pong { nonce: *nonce }),
                event: None,
                poll: false,
                disk: DiskOrder::Nothing,
            },
            Message::Pong { .. } => nothing(),
            Message::Video { .. } => nothing(),
            Message::Displays { displays } => {
                self.displays = copy_displays(displays);
                let mut r = nothing();
                r.event = Some(UiEvent::Displays(copy_displays(displays)));
                r
            },
            _ => {
                if let Message::FileOffer { .. } = msg {
                    self.saw_offer = true;
                }
                let step = self.transfers.take(download_dir, msg);
                let mut r = nothing();
                r.poll = step.poll;
                r.disk = step.disk;
                r.replies = step.replies;
                match step.error {
                    Some(err) => {
                        r.event = Some(failure(&err));
                    },
                    None => {
                        if let Some(progress) = step.progress {
                            r.event = Some(UiEvent::File(progress));
                        }
                    },
                }
                r
            },
        }
    }

    /// What was asked of the disk is done, or it failed with this text. A file that
    /// got its final name is received; one that could not be written is given up.
    pub fn on_disk(&mut self, order: &DiskOrder, failed: Option<&str>) -> (r: Option<UiEvent>)
        requires
            old(self).wf(),
        ensures
            final(self).wf(),
            final(self)@.transfers.wf(),
            match failed {
                Some(text) => {
                    &&& opt_event(r) == Some(failure_event(TransferErrorView::Io(text@)))
                    &&& final(self)@ == (LiveView {
                        transfers: TransfersView { incoming: None, ..old(self)@.transfers },
                        ..old(self)@
                    })
                },
                None => {
                    &&& r is None
                    &&& final(self)@ == (LiveView {
                        received_path: match order@ {
                            DiskOrderView::Keep(_, path) => Some(path),
                            _ => old(self)@.received_path,
                        },
                        ..old(self)@
                    })
                },
            },
            final(self)@ == old(self)@.after_disk(order@, failed is Some),
    {
        match failed {
            Some(text) => {
                self.transfers.drop_incoming();
                let err = FileTransferError::Io(text.to_owned());
                Some(failure(&err))
            },
            None => {
                if let DiskOrder::Keep(_, path) = order {
                    self.received_path = Some(path.as_str().to_owned());
                }
                None
            },
        }
    }

    /// Offers a file to the host.
    pub fn queue_send(&mut self, id: u32, name: &str, size: u64) -> (r: Result<
        (Vec<Message>, UiEvent),
        String,
    >)
        requires
            old(self).wf(),
            size < HASH_LIMIT,
        ensures
            final(self).wf(),
            final(self)@.transfers.wf(),
            match r {
                Ok((out, event)) => {
                    let (s, offer) = polled(SenderView::start(id, name@, size), seq![]);
                    &&& old(self)@.transfers.outgoing is None
                    &&& final(self)@ == (LiveView {
                        transfers: TransfersView { outgoing: Some(s), ..old(self)@.transfers },
                        ..old(self)@
                    })
                    &&& message_views(out@) == offer
                    &&& event@ == UiEventView::File(sender_progress(s))
                },
                Err(text) => {
                    &&& old(self)@.transfers.outgoing is Some
                    &&& final(self)@ == old(self)@
                    &&& text@ == "a file send is already in progress"@
                },
            },
    {
        match self.transfers.send(id, name, size) {
            Ok((out, progress)) => Ok((out, UiEvent::File(progress))),
            Err(text) => Err(text),
        }
    }

    /// Where in the outgoing file the next bytes are, and how many are wanted.
    pub fn wanted(&self) -> (r: Option<(u64, usize)>)
        requires
            self.wf(),
        ensures
            match self@.transfers.outgoing {
                Some(s) => r matches Some((at, n)) && at == s.sent.len() && n == s.wanted(),
                None => r is None,
            },
    {
        self.transfers.wanted()
    }

    /// Moves the outgoing file on with the bytes that [`Live::wanted`] asks for. A
    /// file that the host has confirmed is sent.
    pub fn poll(&mut self, fresh: &[u8]) -> (r: (Vec<Message>, UiEvent))
        requires
            old(self).wf(),
            old(self)@.transfers.outgoing matches Some(s) && fresh@.len() == s.wanted(),
        ensures
            final(self).wf(),
            final(self)@.transfers.wf(),
            ({
                let (s, out) = polled(old(self)@.transfers.outgoing->0, fresh@);
                &&& message_views(r.0@) == out
                &&& r.1@ == UiEventView::File(sender_progress(s))
                &&& final(self)@ == (LiveView {
                    transfers: TransfersView {
                        outgoing: if s.peer_confirmed {
                            None
                        } else {
                            Some(s)
                        },
                        ..old(self)@.transfers
                    },
                    sent_ok: old(self)@.sent_ok || s.peer_confirmed,
                    ..old(self)@
                })
                &&& final(self)@ == old(self)@.after_poll(s)
            }),
    {
        let (out, progress) = self.transfers.poll(fresh);
        if progress.done {
            self.sent_ok = true;
        }
        (out, UiEvent::File(progress))
    }

    fn note_motion(&mut self, display_id: u32, rgba: &[u8])
        requires
            old(self).wf(),
        ensures
            final(self).wf(),
            final(self)@.transfers.wf(),
            final(self)@ == (LiveView {
                frames_decoded: old(self)@.frames_decoded,
                ..old(self)@.with_frame(display_id, rgba@)
            }),
    {
        let sample = sample_rgba(rgba);
        if let Some(previous) = self.last_sample.insert(display_id, sample) {
            if previous != sample {
                self.motion.insert(display_id);
            }
        }
    }

    /// Takes a decoded frame of a display.
    pub fn on_frame(&mut self, display_id: u32, frame: RgbaFrame) -> (r: VideoFrame)
        requires
            old(self).wf(),
        ensures
            final(self).wf(),
            final(self)@.transfers.wf(),
            final(self)@ == old(self)@.with_frame(display_id, frame.rgba@),
            r == (VideoFrame {
                display_id,
                width: frame.width,
                height: frame.height,
                rgba: frame.rgba,
            }),
    {
        self.note_motion(display_id, frame.rgba.as_slice());
        if self.frames_decoded < u32::MAX {
            self.frames_decoded = self.frames_decoded + 1;
        }
        VideoFrame { display_id, width: frame.width, height: frame.height, rgba: frame.rgba }
    }

    /// Takes what the decoder of a display made of an access unit.
    pub fn on_decoded(
        &mut self,
        display_id: u32,
        pushed: Result<Option<RgbaFrame>, NoDecoder>,
    ) -> (r: Result<Option<VideoFrame>, NoDecoder>)
        requires
            old(self).wf(),
        ensures
            final(self).wf(),
            final(self)@.transfers.wf(),
            match pushed {
                Ok(Some(f)) => {
                    &&& r == Ok::<_, NoDecoder>(
                        Some(
                            (VideoFrame {
                                display_id,
                                width: f.width,
                                height: f.height,
                                rgba: f.rgba,
                            }),
                        ),
                    )
                    &&& final(self)@ == old(self)@.with_frame(display_id, f.rgba@)
                },
                Ok(None) => r == Ok::<Option<VideoFrame>, NoDecoder>(None) && final(self)@ == old(
                    self,
                )@,
                Err(e) => r == Err::<Option<VideoFrame>, _>(e) && final(self)@ == old(self)@,
            },
    {
        match pushed {
            Ok(Some(frame)) => Ok(Some(self.on_frame(display_id, frame))),
            Ok(None) => Ok(None),
            Err(e) => Err(e),
        }
    }

    /// Decodes an access unit of a display. What cannot be decoded is passed over.
    pub fn on_video(&mut self, bank: &mut DecoderBank, display_id: u32, data: &[u8]) -> (r: Result<
        Option<VideoFrame>,
        NoDecoder,
    >)
        requires
            old(self).wf(),
            data@.len() <= i32::MAX,
        ensures
            final(self).wf(),
            final(self)@.transfers.wf(),
            match r {
                Ok(shown) => match latest_of(
                    history(old(bank).decoders@, display_id),
                    nal_parts(data@),
                ) {
                    Some(f) => {
                        &&& shown matches Some(v) && v.display_id == display_id && v.width
                            == f.width && v.height == f.height && v.rgba@ == f.rgba
                        &&& final(self)@ == old(self)@.with_frame(display_id, f.rgba)
                    },
                    None => shown is None && final(self)@ == old(self)@,
                },
                Err(_) => {
                    &&& !old(bank).decoders@.contains_key(display_id)
                    &&& final(bank).decoders@ == old(bank).decoders@
                    &&& final(self)@ == old(self)@
                },
            },
            r is Ok ==> {
                &&& final(bank).decoders@.contains_key(display_id)
                &&& history(final(bank).decoders@, display_id) == history(
                    old(bank).decoders@,
                    display_id,
                ) + nal_parts(data@)
            },
            final(bank).decoders@.remove(display_id) == old(bank).decoders@.remove(display_id),
    {
        let pushed = bank.push(display_id, data);
        self.on_decoded(display_id, pushed)
    }

    /// Whether the session did what it was to do. One without a limit never has.
    pub fn finished(&self, config: &SessionConfig) -> (r: bool)
        ensures
            r == self@.finished(config.stop_after_frames, config.send_file is Some),
    {
        let limit: u32 = match config.stop_after_frames {
            Some(limit) => limit,
            None => return false,
        };
        if self.frames_decoded < limit || self.displays.len() == 0 {
            return false;
        }
        if config.send_file.is_some() && !self.sent_ok {
            return false;
        }
        if !self.transfers.idle() {
            return false;
        }
        if self.saw_offer && self.received_path.is_none() {
            return false;
        }
        true
    }

    /// What came of the session so far.
    pub fn report(&self) -> (r: SessionReport)
        requires
            self.wf(),
        ensures
            is_report(self@, r@),
    {
        SessionReport {
            displays: copy_displays(&self.displays),
            frames_decoded: self.frames_decoded,
            displays_with_motion: ids_of(&self.motion),
            sent_ok: self.sent_ok,
            received_path: match &self.received_path {
                Some(path) => Some(path.as_str().to_owned()),
                None => None,
            },
        }
    }

    /// The report of a session that is over. It is an error where the session did
    /// not do what it was to do.
    pub fn conclude(&self, config: &SessionConfig) -> (r: Result<SessionReport, String>)
        requires
            self.wf(),
        ensures
            match r {
                Ok(report) => {
                    &&& config.stop_after_frames is None || self@.finished(
                        config.stop_after_frames,
                        config.send_file is Some,
                    )
                    &&& is_report(self@, report@)
                },
                Err(text) => {
                    &&& config.stop_after_frames is Some && !self@.finished(
                        config.stop_after_frames,
                        config.send_file is Some,
                    )
                    &&& exists|report: ReportView| #[trigger]
                        is_report(self@, report) && text@
                            == "session ended before the requested frames and file transfers finished ("@
                            + report.text() + ")"@
                },
            },
    {
        let report = self.report();
        if config.stop_after_frames.is_some() && !self.finished(config) {
            let mut out =
                "session ended before the requested frames and file transfers finished (".to_owned();
            out.append(report.text().as_str());
            out.append(")");
            assert(is_report(self@, report@));
            return Err(out);
        }
        Ok(report)
    }
}

/// Whether a report is that of a session: the displays with motion are listed in
/// ascending order.
pub open spec fn is_report(live: LiveView, r: ReportView) -> bool {
    &&& r.displays == live.displays
    &&& r.frames_decoded == live.frames_decoded
    &&& ascending(r.displays_with_motion)
    &&& r.displays_with_motion.to_set() == live.motion
    &&& r.sent_ok == live.sent_ok
    &&& r.received_path == live.received_path
}

proof fn last_is_greatest(s: Seq<u32>, x: u32)
    requires
        ascending(s),
        s.contains(x),
    ensures
        s.len() > 0,
        x <= s.last(),
        x != s.last() ==> s.drop_last().contains(x),
{
    let i = choose|i: int| 0 <= i < s.len() && s[i] == x;
    if i < s.len() - 1 {
        assert(s.drop_last()[i] == x);
    }
}

proof fn ascending_is_its_set(a: Seq<u32>, b: Seq<u32>)
    requires
        ascending(a),
        ascending(b),
        a.to_set() == b.to_set(),
    ensures
        a == b,
    decreases a.len(),
{
    assert forall|x: u32| a.contains(x) <==> b.contains(x) by {
        assert(a.to_set().contains(x) <==> a.contains(x));
        assert(b.to_set().contains(x) <==> b.contains(x));
    }
    if a.len() == 0 {
        if b.len() > 0 {
            assert(b.contains(b[0]));
            assert(a.contains(b[0]));
        }
        assert(a =~= b);
    } else {
        assert(a.contains(a.last())) by {
            assert(a[a.len() - 1] == a.last());
        }
        last_is_greatest(b, a.last());
        assert(b.contains(b.last())) by {
            assert(b[b.len() - 1] == b.last());
        }
        last_is_greatest(a, b.last());
        let p = a.drop_last();
        let q = b.drop_last();
        assert forall|x: u32| p.contains(x) <==> q.contains(x) by {
            if p.contains(x) {
                let i = choose|i: int| 0 <= i < p.len() && p[i] == x;
                assert(a[i] == x);
                last_is_greatest(b, x);
            }
            if q.contains(x) {
                let i = choose|i: int| 0 <= i < q.len() && q[i] == x;
                assert(b[i] == x);
                last_is_greatest(a, x);
            }
        }
        assert(p.to_set() =~= q.to_set());
        ascending_is_its_set(p, q);
        assert(a =~= p.push(a.last()));
        assert(b =~= q.push(b.last()));
    }
}

/// A session has one report.
pub proof fn report_is_unique(live: LiveView, a: ReportView, b: ReportView)
    requires
        is_report(live, a),
        is_report(live, b),
    ensures
        a == b,
{
    ascending_is_its_set(a.displays_with_motion, b.displays_with_motion);
}

/// A display shows motion after two frames in a row exactly if it did before, or if
/// their samples differ.
pub proof fn motion_is_change(live: LiveView, id: u32, first: Seq<u8>, second: Seq<u8>)
    ensures
        ({
            let one = live.with_frame(id, first);
            let two = one.with_frame(id, second);
            two.motion.contains(id) <==> one.motion.contains(id) || sample(first) != sample(second)
        }),
{
}

/// The frames of one display say nothing of another one.
pub proof fn motion_is_of_one_display(live: LiveView, id: u32, other: u32, rgba: Seq<u8>)
    requires
        id != other,
    ensures
        ({
            let after = live.with_frame(id, rgba);
            &&& after.motion.contains(other) <==> live.motion.contains(other)
            &&& after.samples.contains_key(other) <==> live.samples.contains_key(other)
            &&& live.samples.contains_key(other) ==> after.samples[other] == live.samples[other]
        }),
{
}

/// A session without a limit never ends by itself.
pub proof fn unlimited_never_finishes(live: LiveView, sends: bool)
    ensures
        !live.finished(None, sends),
{
}

/// What the window asks for is done: it ends the session, or its event is written as it
/// is, or the file at its path is offered. Without a window the session ends too.
pub proof fn commands_are_carried_out(event: InputEvent, path: String)
    ensures
        order_of(Some(ClientCommand::Input(event))) == OrderView::Write(MessageView::Input(event)),
        order_of(Some(ClientCommand::SendFile(path))) == OrderView::Offer(path@),
        order_of(Some(ClientCommand::Disconnect)) == OrderView::Stop("disconnected"@),
        order_of(None) == OrderView::Stop("client closed"@),
{
}

/// A picture is sampled at its first byte and then at every 48th part of it, but never at
/// two bytes less than four apart. The last sample is less than one step from the end.
pub proof fn pictures_are_sampled_evenly(rgba: Seq<u8>, k: int)
    requires
        rgba.len() > 0,
    ensures
        ({
            let step = stride_of(rgba.len()) as int;
            let picked = every(rgba, stride_of(rgba.len()));
            &&& step >= 4
            &&& rgba.len() >= 192 ==> step * 48 <= rgba.len() < (step + 1) * 48
            &&& rgba.len() < 192 ==> step == 4
            &&& sample(rgba) == fnv(picked)
            &&& picked.len() >= 1
            &&& 0 <= k < picked.len() ==> k * step < rgba.len() && picked[k] == rgba[k * step]
            &&& picked.len() * step >= rgba.len()
        }),
{
    let n = rgba.len() as int;
    let step = stride_of(rgba.len()) as int;
    let count = (n + step - 1) / step;
    assert(count >= 1 && count * step >= n && (count - 1) * step < n) by (nonlinear_arith)
        requires
            count == (n + step - 1) / step,
            n >= 1,
            step >= 4,
    ;
    if 0 <= k < count {
        assert(k * step <= (count - 1) * step) by (nonlinear_arith)
            requires
                k <= count - 1,
                step >= 4,
        ;
    }
}

/// The hash of a picture starts from the offset of FNV-1a, and takes up each byte by an
/// exclusive or and a product with the prime, whose lowest 64 bits it is.
pub proof fn hash_takes_up_bytes(s: Seq<u8>, b: u8)
    ensures
        fnv(seq![]) == 14695981039346656037,
        fnv(s.push(b)) == ((fnv(s) ^ (b as u64)) * 1099511628211)
            % 0x1_0000_0000_0000_0000,
        sample(seq![]) == 0,
{
    assert(s.push(b).drop_last() =~= s);
}

/// A frame is counted; its display is in motion once it has a sample other than that of
/// the frame before it, and stays so; nothing else of the session changes.
pub proof fn frames_are_counted(s: LiveView, display_id: u32, other: u32, a: Seq<u8>, b: Seq<u8>)
    requires
        s.frames_decoded < u32::MAX - 1,
        other != display_id,
    ensures
        ({
            let one = s.with_frame(display_id, a);
            let two = one.with_frame(display_id, b);
            &&& one.frames_decoded == s.frames_decoded + 1
            &&& two.frames_decoded == s.frames_decoded + 2
            &&& !s.samples.contains_key(display_id) ==> one.motion == s.motion
            &&& two.motion.contains(display_id) <==> one.motion.contains(display_id) || sample(a)
                != sample(b)
            &&& s.motion.contains(display_id) ==> one.motion.contains(display_id)
            &&& one.motion.contains(other) <==> s.motion.contains(other)
            &&& one.samples.contains_key(other) <==> s.samples.contains_key(other)
            &&& one.samples[display_id] == sample(a)
            &&& one.displays == s.displays && one.transfers == s.transfers && one.sent_ok
                == s.sent_ok && one.saw_offer == s.saw_offer && one.received_path
                == s.received_path
        }),
{
}

/// A session ends by itself only where it has a limit of frames, and then once it has
/// shown as many, knows the displays, has sent the file that it was to send, has received
/// the one that was offered, and has no file under way.
pub proof fn sessions_end_when_all_is_done(s: LiveView, limit: u32, sends: bool)
    ensures
        !s.finished(None, sends),
        s.finished(Some(limit), sends) <==> !(s.frames_decoded < limit || s.displays.len() == 0
            || (sends && !s.sent_ok) || s.transfers.outgoing is Some || s.transfers.incoming is Some
            || (s.saw_offer && s.received_path is None)),
{
}

/// What a message of the host does. A ping is answered with its own number; a list of
/// displays is taken up and shown; of an offer it is kept that there was one; a picture
/// and a pong do nothing here.
pub proof fn messages_are_taken(s: LiveView, dir: Seq<char>, msg: MessageView)
    ensures
        ({
            let (after, out) = s.taking(dir, msg);
            &&& msg matches MessageView::Ping { nonce } ==> after == s && out.replies == seq![
                MessageView::Pong { nonce },
            ] && out.event is None && !out.poll
            &&& msg matches MessageView::Displays { displays } ==> {
                &&& after.displays == displays && after.transfers == s.transfers
                &&& out.event == Some(UiEventView::Displays(displays)) && out.replies.len() == 0
            }
            &&& msg is Pong || msg is Video ==> after == s && out.replies.len() == 0 && out.event is None
                && !out.poll && out.disk is Nothing
            &&& after.saw_offer <==> s.saw_offer || msg is FileOffer
            &&& !(msg is Displays) ==> after.displays == s.displays
            &&& after.frames_decoded == s.frames_decoded && after.motion == s.motion
                && after.samples == s.samples && after.sent_ok == s.sent_ok
                && after.received_path == s.received_path
        }),
{
}

/// What the window is shown of a step of a file: why it ended early, or else how far it
/// is. What is to be written, done on disk and polled is what the step asks for.
pub proof fn steps_are_shown(s: LiveView, dir: Seq<char>, msg: MessageView)
    requires
        !(msg is Ping),
        !(msg is Pong),
        !(msg is Video),
        !(msg is Displays),
    ensures
        ({
            let (after, out) = s.taking(dir, msg);
            let (transfers, step) = taken(s.transfers, dir, msg);
            &&& after.transfers == transfers
            &&& out.replies == step.replies && out.poll == step.poll && out.disk == step.disk
            &&& step.error matches Some(e) ==> out.event == Some(
                UiEventView::Status("file transfer: "@ + e.text()),
            )
            &&& step.error is None ==> (step.progress matches Some(p) ==> out.event == Some(
                UiEventView::File(p),
            ))
            &&& step.error is None && step.progress is None ==> out.event is None
        }),
{
}

/// A report says of a session how many frames it decoded, which displays it had, which of
/// them moved, and what came of the files.
pub proof fn reports_are_of_their_session(live: LiveView, r: ReportView, id: u32)
    requires
        is_report(live, r),
    ensures
        r.frames_decoded == live.frames_decoded,
        r.displays == live.displays,
        r.sent_ok == live.sent_ok,
        r.received_path == live.received_path,
        r.displays_with_motion.contains(id) <==> live.motion.contains(id),
        forall|i: int, j: int|
            0 <= i < j < r.displays_with_motion.len() ==> r.displays_with_motion[i]
                < r.displays_with_motion[j],
{
    assert(r.displays_with_motion.to_set().contains(id) <==> live.motion.contains(id));
}

/// A file is received once it has its final name, and the session knows where it is. One
/// that the disk refuses is given up, and nothing else changes.
pub proof fn files_are_received_on_disk(
    s: LiveView,
    from: Seq<char>,
    to: Seq<char>,
    order: DiskOrderView,
)
    ensures
        s.after_disk(DiskOrderView::Keep(from, to), false).received_path == Some(to),
        !(order is Keep) ==> s.after_disk(order, false) == s,
        s.after_disk(order, true).transfers.incoming is None,
        s.after_disk(order, true).transfers.outgoing == s.transfers.outgoing,
        s.after_disk(order, true).received_path == s.received_path,
        s.after_disk(order, false).transfers == s.transfers,
{
}

/// A file is sent once the host has confirmed it, and no longer on its way then.
pub proof fn files_are_sent_when_confirmed(s: LiveView, sender: SenderView)
    ensures
        ({
            let after = s.after_poll(sender);
            &&& sender.peer_confirmed ==> after.sent_ok && after.transfers.outgoing is None
            &&& !sender.peer_confirmed ==> after.sent_ok == s.sent_ok && after.transfers.outgoing
                == Some(sender)
            &&& s.sent_ok ==> after.sent_ok
            &&& after.transfers.incoming == s.transfers.incoming && after.received_path
                == s.received_path && after.saw_offer == s.saw_offer
        }),
{
}

} // verus!
