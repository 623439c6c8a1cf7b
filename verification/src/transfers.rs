//! The file transfers of a session: at most one in each direction.

use vstd::prelude::*;
use vstd::string::*;

use crate::file::{
    answered, file_id, handled, message_views, one, polled, Disk, FileReceiver, FileSender,
    FileTransferError, ReceiverView, SenderView, TransferErrorView,
};
use crate::file_name::sanitized;
use crate::hash::{sha256, HASH_LIMIT};
use crate::message::{Message, MessageView};

verus! {

/// How far a transfer is.
#[derive(Debug, Clone, PartialEq, Eq)]
pub struct Progress {
    pub incoming: bool,
    pub name: String,
    pub transferred: u64,
    pub total: u64,
    pub done: bool,
}

/// A [`Progress`] over sequences.
#[verifier::ext_equal]
pub struct ProgressView {
    pub incoming: bool,
    pub name: Seq<char>,
    pub transferred: u64,
    pub total: u64,
    pub done: bool,
}

impl View for Progress {
    type V = ProgressView;

    open spec fn view(&self) -> ProgressView {
        ProgressView {
            incoming: self.incoming,
            name: self.name@,
            transferred: self.transferred,
            total: self.total,
            done: self.done,
        }
    }
}

pub open spec fn sender_progress(s: SenderView) -> ProgressView {
    ProgressView {
        incoming: false,
        name: s.name,
        transferred: s.acked,
        total: s.size,
        done: s.peer_confirmed,
    }
}

pub open spec fn receiver_progress(r: ReceiverView) -> ProgressView {
    ProgressView {
        incoming: true,
        name: r.name,
        transferred: r.content.len() as u64,
        total: r.size,
        done: r.done,
    }
}

/// What is to be done on disk.
#[derive(Debug, Clone, PartialEq, Eq)]
pub enum DiskOrder {
    Nothing,
    /// Create the download directory and an empty file at this path.
    Create(String),
    /// Write the data of the chunk to the end of the incoming file.
    Append,
    /// Flush the incoming file and rename it from the first path to the second.
    Keep(String, String),
    /// Delete the file at this path.
    Discard(String),
}

/// A [`DiskOrder`] over sequences.
#[verifier::ext_equal]
pub enum DiskOrderView {
    Nothing,
    Create(Seq<char>),
    Append,
    Keep(Seq<char>, Seq<char>),
    Discard(Seq<char>),
}

impl View for DiskOrder {
    type V = DiskOrderView;

    open spec fn view(&self) -> DiskOrderView {
        match self {
            DiskOrder::Nothing => DiskOrderView::Nothing,
            DiskOrder::Create(p) => DiskOrderView::Create(p@),
            DiskOrder::Append => DiskOrderView::Append,
            DiskOrder::Keep(a, b) => DiskOrderView::Keep(a@, b@),
            DiskOrder::Discard(p) => DiskOrderView::Discard(p@),
        }
    }
}

/// What a receiver's file needs, with the paths that it is about.
pub open spec fn ordered(disk: Disk, r: ReceiverView) -> DiskOrderView {
    match disk {
        Disk::Unchanged => DiskOrderView::Nothing,
        Disk::Append => DiskOrderView::Append,
        Disk::Keep => DiskOrderView::Keep(r.temp_path, r.final_path),
        Disk::Discard => DiskOrderView::Discard(r.temp_path),
    }
}

/// What [`Transfers::take`] asks of its caller.
pub struct Step {
    /// The outgoing file moved on: poll it.
    pub poll: bool,
    pub disk: DiskOrder,
    pub progress: Option<Progress>,
    /// What to write to the peer.
    pub replies: Vec<Message>,
    /// Why a transfer ended early.
    pub error: Option<FileTransferError>,
}

/// A [`Step`] over sequences.
#[verifier::ext_equal]
pub struct StepView {
    pub poll: bool,
    pub disk: DiskOrderView,
    pub progress: Option<ProgressView>,
    pub replies: Seq<MessageView>,
    pub error: Option<TransferErrorView>,
}

impl View for Step {
    type V = StepView;

    open spec fn view(&self) -> StepView {
        StepView {
            poll: self.poll,
            disk: self.disk@,
            progress: match self.progress {
                Some(p) => Some(p@),
                None => None,
            },
            replies: message_views(self.replies@),
            error: match self.error {
                Some(e) => Some(e@),
                None => None,
            },
        }
    }
}

/// The transfers of a session.
#[verifier::ext_equal]
pub struct TransfersView {
    pub outgoing: Option<SenderView>,
    pub incoming: Option<ReceiverView>,
}

impl TransfersView {
    /// What holds of every file that is on its way: it has not failed, and an
    /// incoming one is not done.
    pub open spec fn wf(self) -> bool {
        &&& self.outgoing matches Some(s) ==> s.wf() && s.failed is None
        &&& self.incoming matches Some(r) ==> r.wf() && r.failed is None && !r.done
    }
}

/// A step that asks for nothing.
pub open spec fn quiet() -> StepView {
    StepView {
        poll: false,
        disk: DiskOrderView::Nothing,
        progress: None,
        replies: seq![],
        error: None,
    }
}

/// What the peer is told of what a receiver made of a message. A hash that does not
/// match is answered with a cancel.
pub open spec fn told(result: Result<Seq<MessageView>, TransferErrorView>) -> Seq<MessageView> {
    match result {
        Ok(out) => out,
        Err(TransferErrorView::HashMismatch(id)) => seq![
            MessageView::FileCancel { id, reason: "hash mismatch"@ },
        ],
        Err(_) => seq![],
    }
}

/// What a message means for the incoming file.
pub open spec fn take_incoming(t: TransfersView, dir: Seq<char>, msg: MessageView) -> (
    TransfersView,
    StepView,
) {
    match msg {
        MessageView::FileOffer { id, name, size } => if t.incoming is Some {
            (
                t,
                StepView {
                    replies: seq![
                        MessageView::FileCancel { id, reason: "a file is already incoming"@ },
                    ],
                    ..quiet()
                },
            )
        } else {
            let r = ReceiverView::start(dir, id, name, size);
            (
                TransfersView { incoming: Some(r), ..t },
                StepView {
                    disk: DiskOrderView::Create(r.temp_path),
                    progress: Some(receiver_progress(r)),
                    replies: seq![MessageView::FileAccept { id }],
                    ..quiet()
                },
            )
        },
        _ => match t.incoming {
            Some(r) => {
                let (next, disk, result) = handled(r, msg);
                (
                    TransfersView {
                        incoming: if next.done || next.failed is Some {
                            None
                        } else {
                            Some(next)
                        },
                        ..t
                    },
                    StepView {
                        poll: false,
                        disk: ordered(disk, next),
                        progress: if result is Ok {
                            Some(receiver_progress(next))
                        } else {
                            None
                        },
                        replies: told(result),
                        error: match result {
                            Ok(_) => None,
                            Err(e) => Some(e),
                        },
                    },
                )
            },
            None => (t, quiet()),
        },
    }
}

/// What a message means for the transfers of a session: it is for the outgoing
/// file, or else for the incoming one.
pub open spec fn taken(t: TransfersView, dir: Seq<char>, msg: MessageView) -> (
    TransfersView,
    StepView,
) {
    match t.outgoing {
        Some(s) => match answered(s, msg) {
            (next, Ok(true)) => (
                TransfersView { outgoing: Some(next), ..t },
                StepView { poll: true, ..quiet() },
            ),
            (_, Ok(false)) => take_incoming(t, dir, msg),
            (_, Err(e)) => (
                TransfersView { outgoing: None, ..t },
                StepView { error: Some(e), ..quiet() },
            ),
        },
        None => take_incoming(t, dir, msg),
    }
}

/// The file transfers of a session.
pub struct Transfers {
    outgoing: Option<FileSender>,
    incoming: Option<FileReceiver>,
}

impl View for Transfers {
    type V = TransfersView;

    closed spec fn view(&self) -> TransfersView {
        TransfersView {
            outgoing: match self.outgoing {
                Some(s) => Some(s@),
                None => None,
            },
            incoming: match self.incoming {
                Some(r) => Some(r@),
                None => None,
            },
        }
    }
}

impl Default for Transfers {
    fn default() -> (r: Transfers)
        ensures
            r.wf(),
            r@ == (TransfersView { outgoing: None, incoming: None }),
    {
        Transfers { outgoing: None, incoming: None }
    }
}

fn no_replies() -> (r: Vec<Message>)
    ensures
        message_views(r@) == Seq::<MessageView>::empty(),
{
    let out: Vec<Message> = Vec::new();
    assert(message_views(out@) =~= Seq::<MessageView>::empty());
    out
}

fn progress_of_receiver(r: &FileReceiver) -> (p: Progress)
    requires
        r.wf(),
    ensures
        p@ == receiver_progress(r@),
{
    Progress {
        incoming: true,
        name: r.name().to_owned(),
        transferred: r.received(),
        total: r.size(),
        done: r.is_complete(),
    }
}

fn progress_of_sender(s: &FileSender) -> (p: Progress)
    ensures
        p@ == sender_progress(s@),
{
    Progress {
        incoming: false,
        name: s.name().to_owned(),
        transferred: s.acked(),
        total: s.size(),
        done: s.is_complete(),
    }
}

fn order_for(disk: Disk, r: &FileReceiver) -> (o: DiskOrder)
    ensures
        o@ == ordered(disk, r@),
{
    match disk {
        Disk::Unchanged => DiskOrder::Nothing,
        Disk::Append => DiskOrder::Append,
        Disk::Keep => DiskOrder::Keep(r.temp_path().to_owned(), r.final_path().to_owned()),
        Disk::Discard => DiskOrder::Discard(r.temp_path().to_owned()),
    }
}

impl Transfers {
    pub closed spec fn wf(&self) -> bool {
        &&& self@.wf()
        &&& self.outgoing matches Some(s) ==> s.wf()
        &&& self.incoming matches Some(r) ==> r.wf()
    }

    /// Whether no file is on its way in either direction.
    pub fn idle(&self) -> (r: bool)
        ensures
            r == (self@.outgoing is None && self@.incoming is None),
    {
        self.outgoing.is_none() && self.incoming.is_none()
    }

    /// Starts sending a file. Returns the offer for the peer.
    pub fn send(&mut self, id: u32, name: &str, size: u64) -> (r: Result<
        (Vec<Message>, Progress),
        String,
    >)
        requires
            old(self).wf(),
            size < HASH_LIMIT,
        ensures
            final(self).wf(),
            final(self)@.wf(),
            match r {
                Ok((out, progress)) => {
                    let (s, offer) = polled(SenderView::start(id, name@, size), seq![]);
                    &&& old(self)@.outgoing is None
                    &&& final(self)@ == (TransfersView { outgoing: Some(s), ..old(self)@ })
                    &&& message_views(out@) == offer
                    &&& progress@ == sender_progress(s)
                },
                Err(text) => {
                    &&& old(self)@.outgoing is Some
                    &&& final(self)@ == old(self)@
                    &&& text@ == "a file send is already in progress"@
                },
            },
    {
        if self.outgoing.is_some() {
            return Err("a file send is already in progress".to_owned());
        }
        let mut sender = FileSender::open(id, name, size);
        let nothing: [u8; 0] = [];
        assert(nothing@ =~= Seq::<u8>::empty());
        let out = sender.poll(nothing.as_slice());
        let progress = progress_of_sender(&sender);
        self.outgoing = Some(sender);
        Ok((out, progress))
    }

    /// Where in the outgoing file the next bytes are, and how many are wanted.
    pub fn wanted(&self) -> (r: Option<(u64, usize)>)
        requires
            self.wf(),
        ensures
            match self@.outgoing {
                Some(s) => r matches Some((at, n)) && at == s.sent.len() && n == s.wanted(),
                None => r is None,
            },
    {
        match &self.outgoing {
            Some(s) => Some((s.next_offset(), s.wanted())),
            None => None,
        }
    }

    /// Moves the outgoing file on with the bytes that [`Transfers::wanted`] asks
    /// for. A transfer that the peer has confirmed is over.
    pub fn poll(&mut self, fresh: &[u8]) -> (r: (Vec<Message>, Progress))
        requires
            old(self).wf(),
            old(self)@.outgoing matches Some(s) && fresh@.len() == s.wanted(),
        ensures
            final(self).wf(),
            final(self)@.wf(),
            ({
                let (s, out) = polled(old(self)@.outgoing->0, fresh@);
                &&& message_views(r.0@) == out
                &&& r.1@ == sender_progress(s)
                &&& final(self)@ == (TransfersView {
                    outgoing: if s.peer_confirmed {
                        None
                    } else {
                        Some(s)
                    },
                    ..old(self)@
                })
            }),
    {
        let mut sender = self.outgoing.take().unwrap();
        let out = sender.poll(fresh);
        let progress = progress_of_sender(&sender);
        if !sender.is_complete() {
            self.outgoing = Some(sender);
        }
        (out, progress)
    }

    /// The incoming file could not be created or written: it is given up.
    pub fn drop_incoming(&mut self)
        requires
            old(self).wf(),
        ensures
            final(self).wf(),
            final(self)@.wf(),
            final(self)@ == (TransfersView { incoming: None, ..old(self)@ }),
    {
        self.incoming = None;
    }

    /// Takes a message of the peer.
    pub fn take(&mut self, download_dir: &str, msg: &Message) -> (r: Step)
        requires
            old(self).wf(),
        ensures
            final(self).wf(),
            final(self)@.wf(),
            (final(self)@, r@) == taken(old(self)@, download_dir@, msg@),
    {
        if let Some(mut sender) = self.outgoing.take() {
            match sender.on_peer(msg) {
                Ok(true) => {
                    self.outgoing = Some(sender);
                    return Step {
                        poll: true,
                        disk: DiskOrder::Nothing,
                        progress: None,
                        replies: no_replies(),
                        error: None,
                    };
                },
                Ok(false) => {
                    self.outgoing = Some(sender);
                },
                Err(err) => {
                    return Step {
                        poll: false,
                        disk: DiskOrder::Nothing,
                        progress: None,
                        replies: no_replies(),
                        error: Some(err),
                    };
                },
            }
        }
        self.take_in(download_dir, msg)
    }

    fn take_in(&mut self, download_dir: &str, msg: &Message) -> (r: Step)
        requires
            old(self).wf(),
        ensures
            final(self).wf(),
            final(self)@.wf(),
            (final(self)@, r@) == take_incoming(old(self)@, download_dir@, msg@),
    {
        if let Message::FileOffer { id, name, size } = msg {
            if self.incoming.is_some() {
                let refusal = Message::FileCancel {
                    id: *id,
                    reason: "a file is already incoming".to_owned(),
                };
                return Step {
                    poll: false,
                    disk: DiskOrder::Nothing,
                    progress: None,
                    replies: one(refusal),
                    error: None,
                };
            }
            let (receiver, accept) = FileReceiver::accept(download_dir, *id, name.as_str(), *size);
            let disk = DiskOrder::Create(receiver.temp_path().to_owned());
            let progress = progress_of_receiver(&receiver);
            self.incoming = Some(receiver);
            return Step {
                poll: false,
                disk,
                progress: Some(progress),
                replies: one(accept),
                error: None,
            };
        }
        match self.incoming.take() {
            Some(mut receiver) => {
                let (disk, result) = receiver.handle(msg);
                let order = order_for(disk, &receiver);
                match result {
                    Ok(out) => {
                        let progress = progress_of_receiver(&receiver);
                        if !receiver.is_complete() && !receiver.is_failed() {
                            self.incoming = Some(receiver);
                        }
                        Step {
                            poll: false,
                            disk: order,
                            progress: Some(progress),
                            replies: out,
                            error: None,
                        }
                    },
                    Err(err) => {
                        let replies = match &err {
                            FileTransferError::HashMismatch(id) => one(
                                Message::FileCancel { id: *id, reason: "hash mismatch".to_owned() },
                            ),
                            _ => no_replies(),
                        };
                        Step { poll: false, disk: order, progress: None, replies, error: Some(err) }
                    },
                }
            },
            None => Step {
                poll: false,
                disk: DiskOrder::Nothing,
                progress: None,
                replies: no_replies(),
                error: None,
            },
        }
    }
}

/// A second file that is offered while one is incoming is refused, and changes
/// nothing.
pub proof fn second_offer_is_refused(
    t: TransfersView,
    dir: Seq<char>,
    id: u32,
    name: Seq<char>,
    size: u64,
)
    requires
        t.incoming is Some,
    ensures
        ({
            let (after, step) = taken(t, dir, MessageView::FileOffer { id, name, size });
            &&& after == t
            &&& step.replies == seq![
                MessageView::FileCancel { id, reason: "a file is already incoming"@ },
            ]
            &&& step.disk == DiskOrderView::Nothing
        }),
{
}

/// A file that failed is no longer on its way: the next one that is offered is
/// accepted.
pub proof fn failure_frees_the_way(
    t: TransfersView,
    dir: Seq<char>,
    msg: MessageView,
    id: u32,
    name: Seq<char>,
    size: u64,
)
    requires
        t.wf(),
        t.incoming is Some,
        t.outgoing matches Some(s) ==> answered(s, msg).1 == Ok::<bool, TransferErrorView>(false),
        handled(t.incoming->0, msg).0.failed is Some,
    ensures
        ({
            let (after, _) = taken(t, dir, msg);
            let (next, step) = taken(after, dir, MessageView::FileOffer { id, name, size });
            &&& after.incoming is None
            &&& next.incoming == Some(ReceiverView::start(dir, id, name, size))
            &&& step.replies == seq![MessageView::FileAccept { id }]
        }),
{
}

/// A message for one direction leaves the transfer of the other one alone.
pub proof fn directions_are_independent(t: TransfersView, dir: Seq<char>, msg: MessageView)
    ensures
        ({
            let (after, _) = taken(t, dir, msg);
            after.outgoing == t.outgoing || after.incoming == t.incoming
        }),
{
}

/// What a receiver saves is what [`Transfers::take`] has renamed, and the file
/// gets its final name exactly when the transfer is complete.
pub proof fn kept_when_complete(t: TransfersView, dir: Seq<char>, msg: MessageView, r: ReceiverView)
    requires
        t.outgoing is None,
        t.incoming == Some(r),
        !r.done,
        r.failed is None,
    ensures
        ({
            let (after, step) = taken(t, dir, msg);
            &&& step.disk is Keep <==> (step.progress matches Some(p) && p.done)
            &&& step.disk is Keep ==> {
                &&& after.incoming is None
                &&& step.disk == DiskOrderView::Keep(r.temp_path, r.final_path)
                &&& r.content.len() == r.size
            }
        }),
{
}

/// A file whose hash does not match is deleted, and the peer is told so.
pub proof fn bad_hash_is_cancelled(
    t: TransfersView,
    dir: Seq<char>,
    r: ReceiverView,
    theirs: Seq<u8>,
)
    requires
        t.outgoing is None,
        t.incoming == Some(r),
        !r.done,
        r.failed is None,
        r.content.len() == r.size,
        r.size < HASH_LIMIT,
        sha256(r.content) != theirs,
    ensures
        ({
            let (after, step) = taken(
                t,
                dir,
                MessageView::FileComplete { id: r.id, sha256: theirs },
            );
            &&& after.incoming is None
            &&& step.disk == DiskOrderView::Discard(r.temp_path)
            &&& step.replies == seq![
                MessageView::FileCancel { id: r.id, reason: "hash mismatch"@ },
            ]
            &&& step.error == Some(TransferErrorView::HashMismatch(r.id))
        }),
{
}

/// How far a transfer is: a file that is sent as far as the peer says, and one that comes
/// as far as its bytes are there.
pub proof fn progress_is_of_its_file(s: SenderView, r: ReceiverView)
    requires
        r.wf(),
    ensures
        ({
            let p = sender_progress(s);
            &&& !p.incoming && p.name == s.name && p.transferred == s.acked && p.total == s.size
            &&& p.done <==> s.peer_confirmed
        }),
        ({
            let p = receiver_progress(r);
            &&& p.incoming && p.name == r.name && p.transferred == r.content.len() && p.total
                == r.size
            &&& p.done <==> r.done
        }),
{
}

/// An offer, where no file comes yet, is accepted under its id: an empty file is created,
/// of which nothing has come, under the name that was offered and made safe.
pub proof fn first_offer_is_accepted(
    t: TransfersView,
    dir: Seq<char>,
    id: u32,
    name: Seq<char>,
    size: u64,
)
    requires
        t.incoming is None,
    ensures
        ({
            let (after, step) = taken(t, dir, MessageView::FileOffer { id, name, size });
            &&& after.outgoing == t.outgoing
            &&& after.incoming matches Some(r) && r.id == id && r.size == size && r.content.len()
                == 0 && r.name == sanitized(name) && step.disk == DiskOrderView::Create(r.temp_path)
                && step.progress == Some(
                ProgressView {
                    incoming: true,
                    name: sanitized(name),
                    transferred: 0,
                    total: size,
                    done: false,
                },
            )
            &&& step.replies == seq![MessageView::FileAccept { id }]
            &&& step.error is None && !step.poll
        }),
{
}

/// A chunk of the incoming file that goes on where the last one ended is written behind
/// it, is acknowledged, and moves the file on by its length.
pub proof fn chunks_are_appended(
    t: TransfersView,
    dir: Seq<char>,
    r: ReceiverView,
    offset: u64,
    data: Seq<u8>,
)
    requires
        t.wf(),
        t.outgoing is None,
        t.incoming == Some(r),
        offset == r.content.len(),
        offset + data.len() <= r.size,
    ensures
        ({
            let (after, step) = taken(
                t,
                dir,
                MessageView::FileChunk { id: r.id, offset, data },
            );
            &&& after.incoming matches Some(n) && n.content == r.content + data && n.id == r.id
            &&& step.disk is Append
            &&& step.replies == seq![
                MessageView::FileAck { id: r.id, offset: (offset + data.len()) as u64 },
            ]
            &&& step.progress matches Some(p) && p.incoming && p.transferred == offset + data.len()
                && p.total == r.size && !p.done
            &&& step.error is None
        }),
{
}

/// A file that the peer cancels, in whichever direction, is no longer on its way; an
/// incoming one is deleted. The reason is the one that the peer gave.
pub proof fn cancelled_files_are_given_up(
    t: TransfersView,
    dir: Seq<char>,
    id: u32,
    reason: Seq<char>,
)
    requires
        t.wf(),
    ensures
        ({
            let (after, step) = taken(t, dir, MessageView::FileCancel { id, reason });
            let failed = Some(TransferErrorView::Failed { id, reason });
            &&& (t.outgoing matches Some(s) && s.id == id) ==> after.outgoing is None
                && after.incoming == t.incoming && step.error == failed && step.disk is Nothing
            &&& t.outgoing is None && (t.incoming matches Some(r) && r.id == id)
                ==> after.incoming is None && step.error == failed && step.disk
                == DiskOrderView::Discard(t.incoming->0.temp_path) && step.replies.len() == 0
            &&& t.outgoing is None && t.incoming is None ==> after == t && step.error is None
        }),
{
}

/// The answers of the peer to an outgoing file have it polled, and ask for nothing else.
pub proof fn answers_have_the_file_polled(t: TransfersView, dir: Seq<char>, s: SenderView)
    requires
        t.wf(),
        t.outgoing == Some(s),
    ensures
        ({
            let (after, step) = taken(t, dir, MessageView::FileAccept { id: s.id });
            &&& after.outgoing matches Some(n) && n.accepted && n.sent == s.sent
            &&& step.poll && step.disk is Nothing && step.replies.len() == 0
            &&& step.progress is None && step.error is None
            &&& after.incoming == t.incoming
        }),
{
}

/// What is not about the incoming file leaves all as it is.
pub proof fn other_messages_change_nothing(
    t: TransfersView,
    dir: Seq<char>,
    r: ReceiverView,
    msg: MessageView,
)
    requires
        t.wf(),
        t.outgoing is None,
        t.incoming == Some(r),
        !(msg is FileOffer),
        file_id(msg) != Some(r.id),
    ensures
        ({
            let (after, step) = taken(t, dir, msg);
            &&& after == t
            &&& step.disk is Nothing && step.replies.len() == 0 && step.error is None && !step.poll
            &&& step.progress == Some(receiver_progress(r))
        }),
{
}

} // verus!
