//! One reliable file at a time, in each direction, on the session stream.
//!
//! The sender hashes the file while it is read. Chunks are in order and at
//! most [`FILE_CHUNK_SIZE`] bytes. At most [`FILE_WINDOW_BYTES`] are in flight
//! waiting for a cumulative ack. After the receiver has acked every byte, the
//! sender writes a `FileComplete` with the SHA-256. The receiver checks that
//! hash, has the temporary file renamed into the download directory, and echoes
//! the `FileComplete`. A mismatch or a gap produces a `FileCancel`, and the
//! partial file is deleted.
//!
//! Neither side touches the disk here: the sender says how many bytes of the
//! file it wants next, and the receiver says what becomes of its file.

use vstd::prelude::*;
use vstd::string::*;
use vstd::slice::*;

use crate::bytes::same_bytes;
use crate::file_name::{sanitize_file_name, sanitized};
use crate::hash::{digest, fed, feed, new_hasher, sha256, HASH_LIMIT};
use crate::message::{Message, MessageView};
use crate::paths::{join, joined};
use crate::text::{decimal, push_decimal};

verus! {

pub const FILE_CHUNK_SIZE: usize = 16 * 1024;

pub const FILE_WINDOW_BYTES: u64 = 64 * 1024;

/// Why a transfer ended early.
#[derive(Debug, Clone, PartialEq, Eq)]
pub enum FileTransferError {
    /// The file could not be read or written.
    Io(String),
    Failed { id: u32, reason: String },
    HashMismatch(u32),
}

/// A [`FileTransferError`] over sequences.
#[verifier::ext_equal]
pub enum TransferErrorView {
    Io(Seq<char>),
    Failed { id: u32, reason: Seq<char> },
    HashMismatch(u32),
}

impl View for FileTransferError {
    type V = TransferErrorView;

    open spec fn view(&self) -> TransferErrorView {
        match self {
            FileTransferError::Io(text) => TransferErrorView::Io(text@),
            FileTransferError::Failed { id, reason } => TransferErrorView::Failed {
                id: *id,
                reason: reason@,
            },
            FileTransferError::HashMismatch(id) => TransferErrorView::HashMismatch(*id),
        }
    }
}

impl TransferErrorView {
    /// What [`FileTransferError::text`] returns.
    pub open spec fn text(self) -> Seq<char> {
        match self {
            TransferErrorView::Io(text) => "io error: "@ + text,
            TransferErrorView::Failed { id, reason } => "file transfer "@ + decimal(id as nat)
                + " failed: "@ + reason,
            TransferErrorView::HashMismatch(id) => "hash mismatch for transfer "@ + decimal(
                id as nat,
            ),
        }
    }
}

impl FileTransferError {
    /// The error in words.
    pub fn text(&self) -> (r: String)
        ensures
            r@ == self@.text(),
    {
        match self {
            FileTransferError::Io(text) => {
                let mut out = "io error: ".to_owned();
                out.append(text.as_str());
                out
            },
            FileTransferError::Failed { id, reason } => {
                let mut out = "file transfer ".to_owned();
                push_decimal(&mut out, *id as u64);
                out.append(" failed: ");
                out.append(reason.as_str());
                out
            },
            FileTransferError::HashMismatch(id) => {
                let mut out = "hash mismatch for transfer ".to_owned();
                push_decimal(&mut out, *id as u64);
                out
            },
        }
    }
}

/// The views of some messages.
pub open spec fn message_views(s: Seq<Message>) -> Seq<MessageView> {
    s.map_values(|m: Message| m@)
}

// ---------------------------------------------------------------------------
// Sending
// ---------------------------------------------------------------------------

/// The state of an outgoing transfer.
#[verifier::ext_equal]
pub struct SenderView {
    pub id: u32,
    pub name: Seq<char>,
    pub size: u64,
    /// The bytes that were sent, which are those that were hashed.
    pub sent: Seq<u8>,
    pub acked: u64,
    pub offered: bool,
    pub accepted: bool,
    pub hash: Option<Seq<u8>>,
    pub complete_sent: bool,
    pub peer_confirmed: bool,
    pub failed: Option<Seq<char>>,
}

impl SenderView {
    /// Acks do not pass what was sent, what was sent does not pass the file, and
    /// no more than the window is in flight. The hash is that of the whole file.
    pub open spec fn wf(self) -> bool {
        &&& self.acked <= self.sent.len() <= self.size
        &&& self.sent.len() - self.acked <= FILE_WINDOW_BYTES
        &&& self.size < HASH_LIMIT
        &&& self.hash matches Some(h) ==> self.sent.len() == self.size && h == sha256(self.sent)
        &&& self.hash is Some == self.complete_sent
        &&& self.complete_sent ==> self.acked == self.size
    }

    /// Whether chunks may go out.
    pub open spec fn flowing(self) -> bool {
        self.failed is None && !self.complete_sent && self.offered && self.accepted
    }

    /// How many bytes of the file go out next: what the window and the file have
    /// left.
    pub open spec fn wanted(self) -> int {
        if self.flowing() {
            let room = FILE_WINDOW_BYTES - (self.sent.len() - self.acked);
            let left = self.size - self.sent.len();
            if room < left {
                room
            } else {
                left
            }
        } else {
            0
        }
    }

    /// The state before anything was sent.
    pub open spec fn start(id: u32, name: Seq<char>, size: u64) -> SenderView {
        SenderView {
            id,
            name: sanitized(name),
            size,
            sent: seq![],
            acked: 0,
            offered: false,
            accepted: false,
            hash: None,
            complete_sent: false,
            peer_confirmed: false,
            failed: None,
        }
    }
}

/// `data` in chunks of [`FILE_CHUNK_SIZE`], the last one shorter.
pub open spec fn chunks(id: u32, offset: int, data: Seq<u8>) -> Seq<MessageView>
    decreases data.len(),
{
    if data.len() == 0 {
        seq![]
    } else {
        let n = if data.len() < FILE_CHUNK_SIZE {
            data.len() as int
        } else {
            FILE_CHUNK_SIZE as int
        };
        seq![MessageView::FileChunk { id, offset: offset as u64, data: data.take(n) }] + chunks(
            id,
            offset + n,
            data.skip(n),
        )
    }
}

/// What [`FileSender::poll`] does with the wanted bytes: the state after it and
/// the messages to write.
pub open spec fn polled(s: SenderView, fresh: Seq<u8>) -> (SenderView, Seq<MessageView>) {
    if s.failed is Some || s.complete_sent {
        (s, seq![])
    } else if !s.offered {
        (
            SenderView { offered: true, ..s },
            seq![MessageView::FileOffer { id: s.id, name: s.name, size: s.size }],
        )
    } else if !s.accepted {
        (s, seq![])
    } else if s.acked == s.size {
        let hash = sha256(s.sent);
        (
            SenderView { hash: Some(hash), complete_sent: true, ..s },
            seq![MessageView::FileComplete { id: s.id, sha256: hash }],
        )
    } else {
        (
            SenderView { sent: s.sent + fresh, ..s },
            chunks(s.id, s.sent.len() as int, fresh),
        )
    }
}

/// What [`FileSender::on_peer`] does: the state after it and the result.
pub open spec fn answered(s: SenderView, msg: MessageView) -> (
    SenderView,
    Result<bool, TransferErrorView>,
) {
    match msg {
        MessageView::FileAccept { id } if id == s.id => (
            SenderView { accepted: true, ..s },
            Ok(true),
        ),
        MessageView::FileAck { id, offset } if id == s.id => if offset < s.acked {
            (s, Ok(true))
        } else if offset > s.sent.len() {
            (
                SenderView { failed: Some("ack past sent bytes"@), ..s },
                Err(TransferErrorView::Failed { id: s.id, reason: "ack past sent bytes"@ }),
            )
        } else {
            (SenderView { acked: offset, ..s }, Ok(true))
        },
        MessageView::FileComplete { id, sha256 } if id == s.id => if s.hash is Some && s.hash
            != Some(sha256) {
            (
                SenderView { failed: Some("peer hash mismatch"@), ..s },
                Err(TransferErrorView::HashMismatch(s.id)),
            )
        } else {
            (SenderView { peer_confirmed: true, ..s }, Ok(true))
        },
        MessageView::FileCancel { id, reason } if id == s.id => (
            SenderView { failed: Some(reason), ..s },
            Err(TransferErrorView::Failed { id: s.id, reason }),
        ),
        _ => (s, Ok(false)),
    }
}

/// An outgoing transfer.
pub struct FileSender {
    id: u32,
    name: String,
    size: u64,
    next_offset: u64,
    acked: u64,
    offered: bool,
    accepted: bool,
    hasher: sha2::Sha256,
    hash: Option<[u8; 32]>,
    complete_sent: bool,
    peer_confirmed: bool,
    failed: Option<String>,
}

impl View for FileSender {
    type V = SenderView;

    closed spec fn view(&self) -> SenderView {
        SenderView {
            id: self.id,
            name: self.name@,
            size: self.size,
            sent: fed(self.hasher),
            acked: self.acked,
            offered: self.offered,
            accepted: self.accepted,
            hash: match self.hash {
                Some(h) => Some(h@),
                None => None,
            },
            complete_sent: self.complete_sent,
            peer_confirmed: self.peer_confirmed,
            failed: match self.failed {
                Some(text) => Some(text@),
                None => None,
            },
        }
    }
}

impl FileSender {
    pub closed spec fn wf(&self) -> bool {
        self@.wf() && self.next_offset == self@.sent.len()
    }

    /// A transfer of the file `name`, which has `size` bytes.
    pub fn open(id: u32, name: &str, size: u64) -> (r: FileSender)
        requires
            size < HASH_LIMIT,
        ensures
            r.wf(),
            r@.wf(),
            r@ == SenderView::start(id, name@, size),
    {
        FileSender {
            id,
            name: sanitize_file_name(name),
            size,
            next_offset: 0,
            acked: 0,
            offered: false,
            accepted: false,
            hasher: new_hasher(),
            hash: None,
            complete_sent: false,
            peer_confirmed: false,
            failed: None,
        }
    }

    pub fn id(&self) -> (r: u32)
        ensures
            r == self@.id,
    {
        self.id
    }

    pub fn name(&self) -> (r: &str)
        ensures
            r@ == self@.name,
    {
        self.name.as_str()
    }

    pub fn size(&self) -> (r: u64)
        ensures
            r == self@.size,
    {
        self.size
    }

    pub fn acked(&self) -> (r: u64)
        ensures
            r == self@.acked,
    {
        self.acked
    }

    pub fn is_complete(&self) -> (r: bool)
        ensures
            r == self@.peer_confirmed,
    {
        self.peer_confirmed
    }

    pub fn is_failed(&self) -> (r: bool)
        ensures
            r == self@.failed is Some,
    {
        self.failed.is_some()
    }

    pub fn failure(&self) -> (r: Option<&str>)
        ensures
            match self@.failed {
                Some(text) => r matches Some(t) && t@ == text,
                None => r is None,
            },
    {
        match &self.failed {
            Some(text) => Some(text.as_str()),
            None => None,
        }
    }

    /// Where in the file the next bytes are.
    pub fn next_offset(&self) -> (r: u64)
        requires
            self.wf(),
        ensures
            r == self@.sent.len(),
    {
        self.next_offset
    }

    /// How many bytes of the file [`FileSender::poll`] wants.
    pub fn wanted(&self) -> (r: usize)
        requires
            self.wf(),
        ensures
            r == self@.wanted(),
            r <= FILE_WINDOW_BYTES,
    {
        if self.failed.is_some() || self.complete_sent || !self.offered || !self.accepted {
            return 0;
        }
        let room: u64 = FILE_WINDOW_BYTES - (self.next_offset - self.acked);
        let left: u64 = self.size - self.next_offset;
        if room < left {
            room as usize
        } else {
            left as usize
        }
    }

    /// Messages that should be written now. `fresh` is what
    /// [`FileSender::wanted`] asks for. Call again after each peer reply.
    pub fn poll(&mut self, fresh: &[u8]) -> (r: Vec<Message>)
        requires
            old(self).wf(),
            fresh@.len() == old(self)@.wanted(),
        ensures
            final(self).wf(),
            final(self)@.wf(),
            final(self)@ == polled(old(self)@, fresh@).0,
            message_views(r@) == polled(old(self)@, fresh@).1,
    {
        let mut out: Vec<Message> = Vec::new();
        assert(message_views(out@) =~= Seq::<MessageView>::empty());
        if self.failed.is_some() || self.complete_sent {
            return out;
        }
        if !self.offered {
            self.offered = true;
            let offer = Message::FileOffer {
                id: self.id,
                name: self.name.clone(),
                size: self.size,
            };
            out.push(offer);
            assert(message_views(out@) =~= seq![offer@]);
            return out;
        }
        if !self.accepted {
            return out;
        }
        if self.acked == self.size {
            let done = self.finish();
            out.push(done);
            assert(message_views(out@) =~= seq![done@]);
            return out;
        }
        self.push_chunks(fresh, &mut out);
        assert(message_views(out@) =~= chunks(
            self.id,
            old(self)@.sent.len() as int,
            fresh@,
        ));
        out
    }

    /// Hashes what was sent, which is all of the file.
    fn finish(&mut self) -> (r: Message)
        requires
            old(self).wf(),
            old(self)@.acked == old(self)@.size,
            !old(self)@.complete_sent,
        ensures
            final(self).wf(),
            final(self)@.wf(),
            final(self)@ == (SenderView {
                hash: Some(sha256(old(self)@.sent)),
                complete_sent: true,
                ..old(self)@
            }),
            r@ == (MessageView::FileComplete { id: old(self)@.id, sha256: sha256(old(self)@.sent) }),
    {
        let hash = digest(&self.hasher);
        self.hash = Some(hash);
        self.complete_sent = true;
        Message::FileComplete { id: self.id, sha256: hash }
    }

    fn push_chunks(&mut self, fresh: &[u8], out: &mut Vec<Message>)
        requires
            old(self).wf(),
            old(self)@.hash is None,
            fresh@.len() <= old(self)@.size - old(self)@.sent.len(),
            fresh@.len() <= FILE_WINDOW_BYTES - (old(self)@.sent.len() - old(self)@.acked),
        ensures
            final(self).wf(),
            final(self)@.wf(),
            final(self)@ == (SenderView { sent: old(self)@.sent + fresh@, ..old(self)@ }),
            message_views(final(out)@) == message_views(old(out)@) + chunks(
                old(self)@.id,
                old(self)@.sent.len() as int,
                fresh@,
            ),
    {
        let ghost from = self@.sent.len() as int;
        let ghost id = self.id;
        let mut at: usize = 0;
        assert(fresh@.skip(0) =~= fresh@);
        assert(self@.sent + fresh@.take(0) =~= self@.sent);
        while at < fresh.len()
            invariant
                at <= fresh@.len(),
                self.wf(),
                id == old(self)@.id,
                from == old(self)@.sent.len(),
                old(self)@.hash is None,
                fresh@.len() <= old(self)@.size - from,
                fresh@.len() <= FILE_WINDOW_BYTES - (from - old(self)@.acked),
                self@ == (SenderView {
                    sent: old(self)@.sent + fresh@.take(at as int),
                    ..old(self)@
                }),
                message_views(out@) + chunks(id, from + at, fresh@.skip(at as int))
                    == message_views(old(out)@) + chunks(id, from, fresh@),
            decreases fresh.len() - at,
        {
            let left: usize = fresh.len() - at;
            let n: usize = if left < FILE_CHUNK_SIZE {
                left
            } else {
                FILE_CHUNK_SIZE
            };
            let part = slice_subrange(fresh, at, at + n);
            let data = slice_to_vec(part);
            feed(&mut self.hasher, part);
            let ghost before = out@;
            let chunk = Message::FileChunk { id: self.id, offset: self.next_offset, data };
            out.push(chunk);
            self.next_offset = self.next_offset + n as u64;
            proof {
                let rest = fresh@.skip(at as int);
                assert(part@ =~= rest.take(n as int));
                assert(rest.skip(n as int) =~= fresh@.skip(at + n));
                assert(fresh@.take(at as int) + part@ =~= fresh@.take(at + n));
                assert(old(self)@.sent + fresh@.take(at as int) + part@ =~= old(self)@.sent
                    + fresh@.take(at + n));
                assert(message_views(out@) =~= message_views(before).push(chunk@));
                let more = chunks(id, from + at + n, rest.skip(n as int));
                assert(chunk@ == MessageView::FileChunk {
                    id,
                    offset: (from + at) as u64,
                    data: rest.take(n as int),
                });
                assert(message_views(before) + (seq![chunk@] + more) =~= message_views(out@) + more);
            }
            at = at + n;
        }
        assert(fresh@.take(fresh@.len() as int) =~= fresh@);
        assert(message_views(out@) + chunks(id, from + at, fresh@.skip(at as int))
            =~= message_views(out@));
    }

    /// Takes a message of the peer. The result is true when it belongs to this
    /// transfer.
    pub fn on_peer(&mut self, msg: &Message) -> (r: Result<bool, FileTransferError>)
        requires
            old(self).wf(),
        ensures
            final(self).wf(),
            final(self)@.wf(),
            final(self)@ == answered(old(self)@, msg@).0,
            match answered(old(self)@, msg@).1 {
                Ok(b) => r == Ok::<bool, FileTransferError>(b),
                Err(e) => r matches Err(x) && x@ == e,
            },
    {
        match msg {
            Message::FileAccept { id } => {
                if *id != self.id {
                    return Ok(false);
                }
                self.accepted = true;
                Ok(true)
            },
            Message::FileAck { id, offset } => {
                if *id != self.id {
                    return Ok(false);
                }
                if *offset < self.acked {
                    return Ok(true);
                }
                if *offset > self.next_offset {
                    let reason = "ack past sent bytes";
                    self.failed = Some(reason.to_owned());
                    return Err(
                        FileTransferError::Failed { id: self.id, reason: reason.to_owned() },
                    );
                }
                self.acked = *offset;
                Ok(true)
            },
            Message::FileComplete { id, sha256 } => {
                if *id != self.id {
                    return Ok(false);
                }
                if let Some(hash) = self.hash {
                    if !same_bytes(hash.as_slice(), sha256.as_slice()) {
                        self.failed = Some("peer hash mismatch".to_owned());
                        return Err(FileTransferError::HashMismatch(self.id));
                    }
                }
                self.peer_confirmed = true;
                Ok(true)
            },
            Message::FileCancel { id, reason } => {
                if *id != self.id {
                    return Ok(false);
                }
                self.failed = Some(reason.clone());
                Err(FileTransferError::Failed { id: self.id, reason: reason.clone() })
            },
            _ => Ok(false),
        }
    }
}

// ---------------------------------------------------------------------------
// Receiving
// ---------------------------------------------------------------------------

/// What becomes of the file on disk after a message.
#[derive(Debug, Clone, Copy, PartialEq, Eq, Structural)]
pub enum Disk {
    /// It stays as it is.
    Unchanged,
    /// The data of the chunk is written to the end of the temporary file.
    Append,
    /// The temporary file is flushed and gets its final path.
    Keep,
    /// The temporary file is deleted.
    Discard,
}

/// The state of an incoming transfer.
#[verifier::ext_equal]
pub struct ReceiverView {
    pub id: u32,
    pub name: Seq<char>,
    pub size: u64,
    /// The bytes that were received, which are those that were hashed.
    pub content: Seq<u8>,
    pub temp_path: Seq<char>,
    pub final_path: Seq<char>,
    pub done: bool,
    pub failed: Option<Seq<char>>,
}

/// The name of the file while it is incomplete.
pub open spec fn temp_name(name: Seq<char>, id: u32) -> Seq<char> {
    "."@ + name + "."@ + decimal(id as nat) + ".partial"@
}

impl ReceiverView {
    /// What was received does not pass the file.
    pub open spec fn wf(self) -> bool {
        self.content.len() <= self.size
    }

    /// The state before anything was received.
    pub open spec fn start(dir: Seq<char>, id: u32, name: Seq<char>, size: u64) -> ReceiverView {
        let clean = sanitized(name);
        ReceiverView {
            id,
            name: clean,
            size,
            content: seq![],
            temp_path: joined(dir, temp_name(clean, id)),
            final_path: joined(dir, clean),
            done: false,
            failed: None,
        }
    }
}

/// Gives a transfer up.
pub open spec fn cancelled(r: ReceiverView, reason: Seq<char>) -> (
    ReceiverView,
    Disk,
    Result<Seq<MessageView>, TransferErrorView>,
) {
    (
        ReceiverView { failed: Some(reason), ..r },
        Disk::Discard,
        Ok(seq![MessageView::FileCancel { id: r.id, reason }]),
    )
}

/// What [`FileReceiver::handle`] does: the state after it, what becomes of the
/// file, and the replies.
pub open spec fn handled(r: ReceiverView, msg: MessageView) -> (
    ReceiverView,
    Disk,
    Result<Seq<MessageView>, TransferErrorView>,
) {
    if r.failed is Some || r.done {
        (r, Disk::Unchanged, Ok(seq![]))
    } else {
        match msg {
            MessageView::FileChunk { id, offset, data } if id == r.id => if offset
                != r.content.len() || r.content.len() + data.len() > r.size {
                cancelled(r, "chunk out of order"@)
            } else {
                (
                    ReceiverView { content: r.content + data, ..r },
                    Disk::Append,
                    Ok(
                        seq![
                            MessageView::FileAck {
                                id: r.id,
                                offset: (r.content.len() + data.len()) as u64,
                            },
                        ],
                    ),
                )
            },
            MessageView::FileComplete { id, sha256: theirs } if id == r.id => if r.content.len()
                != r.size {
                cancelled(r, "complete before all bytes"@)
            } else if r.size >= HASH_LIMIT || sha256(r.content) != theirs {
                (
                    ReceiverView { failed: Some("hash mismatch"@), ..r },
                    Disk::Discard,
                    Err(TransferErrorView::HashMismatch(r.id)),
                )
            } else {
                (
                    ReceiverView { done: true, ..r },
                    Disk::Keep,
                    Ok(seq![MessageView::FileComplete { id: r.id, sha256: theirs }]),
                )
            },
            MessageView::FileCancel { id, reason } if id == r.id => (
                ReceiverView { failed: Some(reason), ..r },
                Disk::Discard,
                Err(TransferErrorView::Failed { id: r.id, reason }),
            ),
            _ => (r, Disk::Unchanged, Ok(seq![])),
        }
    }
}

/// An incoming transfer.
pub struct FileReceiver {
    id: u32,
    name: String,
    size: u64,
    received: u64,
    temp_path: String,
    final_path: String,
    hasher: sha2::Sha256,
    done: bool,
    failed: Option<String>,
}

impl View for FileReceiver {
    type V = ReceiverView;

    closed spec fn view(&self) -> ReceiverView {
        ReceiverView {
            id: self.id,
            name: self.name@,
            size: self.size,
            content: fed(self.hasher),
            temp_path: self.temp_path@,
            final_path: self.final_path@,
            done: self.done,
            failed: match self.failed {
                Some(text) => Some(text@),
                None => None,
            },
        }
    }
}

impl FileReceiver {
    pub closed spec fn wf(&self) -> bool {
        self@.wf() && self.received == self@.content.len()
    }

    /// Accepts an offer. The message is the answer to it. The caller creates the
    /// directory and an empty file at the temporary path.
    pub fn accept(download_dir: &str, offer_id: u32, name: &str, size: u64) -> (r: (
        FileReceiver,
        Message,
    ))
        ensures
            r.0.wf(),
            r.0@.wf(),
            r.0@ == ReceiverView::start(download_dir@, offer_id, name@, size),
            r.1@ == (MessageView::FileAccept { id: offer_id }),
    {
        let clean = sanitize_file_name(name);
        let mut temp = ".".to_owned();
        temp.append(clean.as_str());
        temp.append(".");
        push_decimal(&mut temp, offer_id as u64);
        temp.append(".partial");
        let receiver = FileReceiver {
            id: offer_id,
            size,
            received: 0,
            temp_path: join(download_dir, temp.as_str()),
            final_path: join(download_dir, clean.as_str()),
            name: clean,
            hasher: new_hasher(),
            done: false,
            failed: None,
        };
        (receiver, Message::FileAccept { id: offer_id })
    }

    pub fn id(&self) -> (r: u32)
        ensures
            r == self@.id,
    {
        self.id
    }

    pub fn name(&self) -> (r: &str)
        ensures
            r@ == self@.name,
    {
        self.name.as_str()
    }

    pub fn size(&self) -> (r: u64)
        ensures
            r == self@.size,
    {
        self.size
    }

    pub fn received(&self) -> (r: u64)
        requires
            self.wf(),
        ensures
            r == self@.content.len(),
    {
        self.received
    }

    pub fn is_complete(&self) -> (r: bool)
        ensures
            r == self@.done,
    {
        self.done
    }

    pub fn is_failed(&self) -> (r: bool)
        ensures
            r == self@.failed is Some,
    {
        self.failed.is_some()
    }

    /// Where the file is while it is incomplete.
    pub fn temp_path(&self) -> (r: &str)
        ensures
            r@ == self@.temp_path,
    {
        self.temp_path.as_str()
    }

    /// Where the file will be once it is complete.
    pub fn final_path(&self) -> (r: &str)
        ensures
            r@ == self@.final_path,
    {
        self.final_path.as_str()
    }

    /// Where the file is, once it is complete.
    pub fn saved_path(&self) -> (r: Option<&str>)
        ensures
            if self@.done {
                r matches Some(p) && p@ == self@.final_path
            } else {
                r is None
            },
    {
        if self.done {
            Some(self.final_path.as_str())
        } else {
            None
        }
    }

    /// Takes a message of the peer. Returns what becomes of the file, and the
    /// replies.
    pub fn handle(&mut self, msg: &Message) -> (r: (Disk, Result<Vec<Message>, FileTransferError>))
        requires
            old(self).wf(),
        ensures
            final(self).wf(),
            final(self)@.wf(),
            final(self)@ == handled(old(self)@, msg@).0,
            r.0 == handled(old(self)@, msg@).1,
            match handled(old(self)@, msg@).2 {
                Ok(out) => r.1 matches Ok(v) && message_views(v@) == out,
                Err(e) => r.1 matches Err(x) && x@ == e,
            },
    {
        let nothing: Vec<Message> = Vec::new();
        assert(message_views(nothing@) =~= Seq::<MessageView>::empty());
        if self.failed.is_some() || self.done {
            return (Disk::Unchanged, Ok(nothing));
        }
        match msg {
            Message::FileChunk { id, offset, data } => {
                if *id != self.id {
                    return (Disk::Unchanged, Ok(nothing));
                }
                if *offset != self.received || data.len() as u64 > self.size - self.received {
                    return self.cancel("chunk out of order");
                }
                feed(&mut self.hasher, data.as_slice());
                self.received = self.received + data.len() as u64;
                let ack = Message::FileAck { id: self.id, offset: self.received };
                (Disk::Append, Ok(one(ack)))
            },
            Message::FileComplete { id, sha256 } => {
                if *id != self.id {
                    return (Disk::Unchanged, Ok(nothing));
                }
                if self.received != self.size {
                    return self.cancel("complete before all bytes");
                }
                if self.size >= HASH_LIMIT || !same_bytes(
                    digest(&self.hasher).as_slice(),
                    sha256.as_slice(),
                ) {
                    self.failed = Some("hash mismatch".to_owned());
                    return (Disk::Discard, Err(FileTransferError::HashMismatch(self.id)));
                }
                self.done = true;
                let echo = Message::FileComplete { id: self.id, sha256: *sha256 };
                (Disk::Keep, Ok(one(echo)))
            },
            Message::FileCancel { id, reason } => {
                if *id != self.id {
                    return (Disk::Unchanged, Ok(nothing));
                }
                self.failed = Some(reason.clone());
                let err = FileTransferError::Failed { id: self.id, reason: reason.clone() };
                (Disk::Discard, Err(err))
            },
            _ => (Disk::Unchanged, Ok(nothing)),
        }
    }

    fn cancel(&mut self, reason: &str) -> (r: (Disk, Result<Vec<Message>, FileTransferError>))
        requires
            old(self).wf(),
        ensures
            final(self).wf(),
            final(self)@.wf(),
            final(self)@ == cancelled(old(self)@, reason@).0,
            r.0 == Disk::Discard,
            r.1 matches Ok(v) && message_views(v@) == seq![
                MessageView::FileCancel { id: old(self)@.id, reason: reason@ },
            ],
    {
        self.failed = Some(reason.to_owned());
        let msg = Message::FileCancel { id: self.id, reason: reason.to_owned() };
        (Disk::Discard, Ok(one(msg)))
    }
}

/// A list of one message.
pub(crate) fn one(msg: Message) -> (r: Vec<Message>)
    ensures
        message_views(r@) == seq![msg@],
{
    let mut out: Vec<Message> = Vec::new();
    out.push(msg);
    assert(message_views(out@) =~= seq![msg@]);
    out
}

// ---------------------------------------------------------------------------
// Laws
// ---------------------------------------------------------------------------

/// The temporary file after a message, for what [`FileReceiver::handle`] says
/// becomes of it.
pub open spec fn temp_file(file: Seq<u8>, disk: Disk, msg: MessageView) -> Seq<u8> {
    match (disk, msg) {
        (Disk::Append, MessageView::FileChunk { data, .. }) => file + data,
        _ => file,
    }
}

/// While a transfer is open, the temporary file is what was received. It is kept
/// only when it has its whole size and the hash that the sender gave, and it is
/// discarded exactly when the transfer fails.
pub proof fn file_is_what_was_received(r: ReceiverView, msg: MessageView, file: Seq<u8>)
    requires
        r.wf(),
        r.failed is None,
        !r.done,
        file == r.content,
    ensures
        ({
            let (after, disk, _) = handled(r, msg);
            &&& temp_file(file, disk, msg) == after.content
            &&& disk == Disk::Discard <==> after.failed is Some
            &&& disk == Disk::Keep <==> after.done
            &&& disk == Disk::Keep ==> {
                &&& msg matches MessageView::FileComplete { id, sha256: theirs } && theirs
                    == sha256(file)
                &&& file.len() == r.size
            }
        }),
{
}

/// Whatever the peer answers, and whenever the sender is polled, no more than
/// [`FILE_WINDOW_BYTES`] are in flight, acks do not pass what was sent, and what was
/// sent does not pass the file.
pub proof fn window_is_kept(s: SenderView, fresh: Seq<u8>, msg: MessageView)
    requires
        s.wf(),
        fresh.len() == s.wanted(),
    ensures
        polled(s, fresh).0.wf(),
        answered(s, msg).0.wf(),
{
}

/// A transfer that failed or is complete takes nothing more.
pub proof fn closed_transfer_is_inert(r: ReceiverView, msg: MessageView)
    requires
        r.failed is Some || r.done,
    ensures
        handled(r, msg) == (r, Disk::Unchanged, Ok::<Seq<MessageView>, TransferErrorView>(seq![])),
{
}

/// The path of the temporary file has no separator in its last segment, so that
/// it is in the download directory, as the final path is.
pub proof fn temp_name_is_one_segment(name: Seq<char>, id: u32)
    ensures
        !temp_name(sanitized(name), id).contains('/'),
        temp_name(sanitized(name), id).len() > 2,
{
    crate::file_name::sanitized_is_safe(name);
    let clean = sanitized(name);
    reveal_strlit(".");
    reveal_strlit(".partial");
    crate::text::decimal_is_digits(id as nat);
    let s = temp_name(clean, id);
    assert forall|i: int| 0 <= i < s.len() implies s[i] != '/' by {
        let n = clean.len() as int;
        let d = decimal(id as nat);
        if 1 <= i < n + 1 {
            assert(s[i] == clean[i - 1]);
            assert(crate::file_name::is_name_char(clean[i - 1]));
        } else if n + 2 <= i < n + 2 + d.len() {
            assert(s[i] == d[i - n - 2]);
        }
    }
}

/// The sender after the replies to one of its messages.
pub open spec fn heard(s: SenderView, replies: Seq<MessageView>) -> SenderView
    decreases replies.len(),
{
    if replies.len() == 0 {
        s
    } else {
        heard(answered(s, replies[0]).0, replies.drop_first())
    }
}

/// Both ends after the receiver took some messages and the sender its replies.
pub open spec fn delivered(s: SenderView, r: ReceiverView, msgs: Seq<MessageView>) -> (
    SenderView,
    ReceiverView,
)
    decreases msgs.len(),
{
    if msgs.len() == 0 {
        (s, r)
    } else {
        let (next, _, replies) = handled(r, msgs[0]);
        let sender = match replies {
            Ok(out) => heard(s, out),
            Err(_) => s,
        };
        delivered(sender, next, msgs.drop_first())
    }
}

/// One poll of the sender of the file `f`, with all that follows from it.
pub open spec fn round(s: SenderView, r: ReceiverView, f: Seq<u8>) -> (SenderView, ReceiverView) {
    let from = s.sent.len() as int;
    let (sender, out) = polled(s, f.subrange(from, from + s.wanted()));
    delivered(sender, r, out)
}

pub open spec fn rounds(s: SenderView, r: ReceiverView, f: Seq<u8>, n: nat) -> (
    SenderView,
    ReceiverView,
)
    decreases n,
{
    if n == 0 {
        (s, r)
    } else {
        let (s1, r1) = round(s, r, f);
        rounds(s1, r1, f, (n - 1) as nat)
    }
}

/// Both ends of a transfer of `f` between two rounds.
spec fn in_step(s: SenderView, r: ReceiverView, f: Seq<u8>) -> bool {
    &&& s.wf() && r.wf()
    &&& s.flowing()
    &&& s.id == r.id
    &&& s.size == f.len() && r.size == f.len()
    &&& s.acked == s.sent.len()
    &&& s.sent == f.take(s.acked as int)
    &&& r.content == s.sent
    &&& !r.done && r.failed is None
}

proof fn chunks_delivered(s: SenderView, r: ReceiverView, data: Seq<u8>)
    requires
        s.id == r.id,
        s.failed is None,
        s.acked == r.content.len(),
        s.acked + data.len() <= s.sent.len(),
        s.acked + data.len() <= r.size,
        !r.done && r.failed is None,
    ensures
        delivered(s, r, chunks(s.id, s.acked as int, data)) == (
            SenderView { acked: (s.acked + data.len()) as u64, ..s },
            ReceiverView { content: r.content + data, ..r },
        ),
    decreases data.len(),
{
    if data.len() == 0 {
        assert(r.content + data =~= r.content);
    } else {
        let n = if data.len() < FILE_CHUNK_SIZE {
            data.len() as int
        } else {
            FILE_CHUNK_SIZE as int
        };
        let all = chunks(s.id, s.acked as int, data);
        let chunk = MessageView::FileChunk { id: s.id, offset: s.acked, data: data.take(n) };
        let more = chunks(s.id, s.acked + n, data.skip(n));
        assert(all == seq![chunk] + more);
        assert(all[0] == chunk);
        assert(all.drop_first() =~= more);
        let ack = MessageView::FileAck { id: s.id, offset: (s.acked + n) as u64 };
        let r1 = ReceiverView { content: r.content + data.take(n), ..r };
        let s1 = SenderView { acked: (s.acked + n) as u64, ..s };
        assert(handled(r, chunk) == (
            r1,
            Disk::Append,
            Ok::<Seq<MessageView>, TransferErrorView>(seq![ack]),
        ));
        assert(answered(s, ack).0 == s1);
        assert(seq![ack].drop_first() =~= Seq::<MessageView>::empty());
        assert(heard(s1, seq![ack].drop_first()) == s1);
        assert(heard(s, seq![ack]) == s1);
        chunks_delivered(s1, r1, data.skip(n));
        assert(r.content + data.take(n) + data.skip(n) =~= r.content + data);
    }
}

proof fn round_moves_on(s: SenderView, r: ReceiverView, f: Seq<u8>)
    requires
        in_step(s, r, f),
        s.acked < s.size,
    ensures
        ({
            let (s1, r1) = round(s, r, f);
            &&& in_step(s1, r1, f)
            &&& s1.acked == s.acked + s.wanted()
            &&& s.wanted() == (if s.size - s.acked < FILE_WINDOW_BYTES {
                s.size - s.acked
            } else {
                FILE_WINDOW_BYTES as int
            })
            &&& r1.final_path == r.final_path
        }),
{
    let from = s.sent.len() as int;
    let data = f.subrange(from, from + s.wanted());
    let sent = SenderView { sent: s.sent + data, ..s };
    chunks_delivered(sent, r, data);
    assert(s.sent + data =~= f.take(from + s.wanted()));
}

proof fn last_round(s: SenderView, r: ReceiverView, f: Seq<u8>)
    requires
        in_step(s, r, f),
        s.acked == s.size,
    ensures
        ({
            let (s1, r1) = round(s, r, f);
            &&& s1.peer_confirmed && s1.complete_sent && s1.failed is None
            &&& r1.done && r1.content == f
            &&& r1.final_path == r.final_path
        }),
{
    assert(f.take(f.len() as int) =~= f);
    let hash = sha256(s.sent);
    let from = s.sent.len() as int;
    let done = MessageView::FileComplete { id: s.id, sha256: hash };
    let (s1, out) = polled(s, f.subrange(from, from + s.wanted()));
    assert(out == seq![done]);
    assert(out.drop_first() =~= Seq::<MessageView>::empty());
    let r1 = ReceiverView { done: true, ..r };
    assert(handled(r, done) == (
        r1,
        Disk::Keep,
        Ok::<Seq<MessageView>, TransferErrorView>(seq![done]),
    ));
    let s2 = answered(s1, done).0;
    assert(seq![done].drop_first() =~= Seq::<MessageView>::empty());
    assert(heard(s2, seq![done].drop_first()) == s2);
    assert(heard(s1, seq![done]) == s2);
    assert(delivered(s2, r1, out.drop_first()) == (s2, r1));
}

proof fn complete_rests(s: SenderView, r: ReceiverView, f: Seq<u8>, n: nat)
    requires
        s.complete_sent,
    ensures
        rounds(s, r, f, n) == (s, r),
    decreases n,
{
    if n > 0 {
        complete_rests(s, r, f, (n - 1) as nat);
    }
}

proof fn rounds_complete(s: SenderView, r: ReceiverView, f: Seq<u8>, n: nat)
    requires
        in_step(s, r, f),
        (s.size - s.acked) / (FILE_WINDOW_BYTES as int) + 2 <= n,
    ensures
        ({
            let (s1, r1) = rounds(s, r, f, n);
            &&& s1.peer_confirmed && s1.failed is None
            &&& r1.done && r1.content == f
            &&& r1.final_path == r.final_path
        }),
    decreases n,
{
    let (s1, r1) = round(s, r, f);
    if s.acked == s.size {
        last_round(s, r, f);
        complete_rests(s1, r1, f, (n - 1) as nat);
    } else {
        round_moves_on(s, r, f);
        if s1.acked == s1.size {
            let (s2, r2) = round(s1, r1, f);
            last_round(s1, r1, f);
            complete_rests(s2, r2, f, (n - 2) as nat);
            assert(rounds(s1, r1, f, (n - 1) as nat) == rounds(s2, r2, f, (n - 2) as nat));
        } else {
            let left = s.size - s.acked;
            assert((left - 65536) / 65536 == left / 65536 - 1) by (nonlinear_arith);
            rounds_complete(s1, r1, f, (n - 1) as nat);
        }
    }
}

/// A file that is offered and accepted arrives: as the sender is polled, the
/// receiver ends up with exactly the bytes of the file at its final path, and
/// the sender learns of it. One round for each window of the file and one for
/// the hash are enough.
pub proof fn transfer_delivers(f: Seq<u8>, dir: Seq<char>, id: u32, name: Seq<char>, n: nat)
    requires
        f.len() < HASH_LIMIT,
        f.len() / (FILE_WINDOW_BYTES as nat) + 2 <= n,
    ensures
        ({
            let size = f.len() as u64;
            let (offered, offer) = polled(SenderView::start(id, name, size), seq![]);
            let receiver = ReceiverView::start(dir, id, sanitized(name), size);
            let sender = answered(offered, MessageView::FileAccept { id }).0;
            let (s, r) = rounds(sender, receiver, f, n);
            &&& offer == seq![MessageView::FileOffer { id, name: sanitized(name), size }]
            &&& s.peer_confirmed && s.failed is None
            &&& r.done && r.content == f
            &&& r.final_path == joined(dir, sanitized(name))
        }),
{
    let size = f.len() as u64;
    let (offered, _) = polled(SenderView::start(id, name, size), seq![]);
    let receiver = ReceiverView::start(dir, id, sanitized(name), size);
    let sender = answered(offered, MessageView::FileAccept { id }).0;
    assert(sender.sent =~= f.take(0));
    rounds_complete(sender, receiver, f, n);
    crate::file_name::sanitized_is_safe(name);
    crate::file_name::sanitized_is_stable(sanitized(name));
}

/// The id of the transfer that a message is about.
pub open spec fn file_id(m: MessageView) -> Option<u32> {
    match m {
        MessageView::FileOffer { id, .. } => Some(id),
        MessageView::FileAccept { id } => Some(id),
        MessageView::FileChunk { id, .. } => Some(id),
        MessageView::FileAck { id, .. } => Some(id),
        MessageView::FileComplete { id, .. } => Some(id),
        MessageView::FileCancel { id, .. } => Some(id),
        _ => None,
    }
}

/// A message about another transfer, or about none, changes neither a sender nor a
/// receiver, and is not answered.
pub proof fn other_transfers_do_not_matter(s: SenderView, r: ReceiverView, m: MessageView)
    ensures
        file_id(m) != Some(s.id) ==> answered(s, m) == (s, Ok::<bool, TransferErrorView>(false)),
        file_id(m) != Some(r.id) ==> {
            let (after, disk, result) = handled(r, m);
            &&& after == r && disk is Unchanged
            &&& result matches Ok(out) && out.len() == 0
        },
{
}

/// What a receiver answers while it is open. A chunk that goes on where the last one
/// ended, and does not pass the size, is acknowledged with how many bytes there are now.
/// Any other chunk, and an end before the last byte, is answered with a cancel. The end
/// is answered with itself where the digest is that of all bytes.
pub proof fn receiver_answers(r: ReceiverView, m: MessageView)
    requires
        r.failed is None,
        !r.done,
        r.size < HASH_LIMIT,
        file_id(m) == Some(r.id),
    ensures
        ({
            let (after, disk, result) = handled(r, m);
            let cancels = result matches Ok(out) && out.len() == 1 && (out[0] matches MessageView::FileCancel {
                id,
                ..
            } && id == r.id);
            &&& m matches MessageView::FileChunk { offset, data, .. } ==> if offset
                == r.content.len() && offset + data.len() <= r.size {
                &&& after.content == r.content + data && after.failed is None && !after.done
                &&& result matches Ok(out) && out.len() == 1 && (out[0] matches MessageView::FileAck {
                    id,
                    offset: upto,
                } && id == r.id && upto == offset + data.len())
            } else {
                cancels && after.failed is Some && disk is Discard && !after.done
            }
            &&& m matches MessageView::FileComplete { sha256: theirs, .. } ==> if r.content.len()
                != r.size {
                cancels && after.failed is Some && disk is Discard && !after.done
            } else if sha256(r.content) == theirs {
                &&& after.done && after.failed is None && disk is Keep
                &&& result == Ok::<_, TransferErrorView>(seq![m])
            } else {
                &&& !after.done && after.failed is Some && disk is Discard
                &&& result == Err::<Seq<MessageView>, _>(TransferErrorView::HashMismatch(r.id))
            }
            &&& m matches MessageView::FileCancel { reason, .. } ==> {
                &&& !after.done && after.failed == Some(reason) && disk is Discard
                &&& result == Err::<Seq<MessageView>, _>(
                    TransferErrorView::Failed { id: r.id, reason },
                )
            }
            &&& m is FileOffer || m is FileAccept || m is FileAck ==> after == r && disk is Unchanged
            &&& after.id == r.id && after.name == r.name && after.size == r.size
            &&& after.temp_path == r.temp_path && after.final_path == r.final_path
        }),
{
}

/// What a sender makes of an answer. An accept lets the chunks go; an acknowledgement
/// counts unless it is an old one, and one past what was sent ends the transfer; the end
/// counts unless its digest is another one; a cancel ends the transfer.
pub proof fn sender_takes_answers(s: SenderView, m: MessageView)
    requires
        file_id(m) == Some(s.id),
    ensures
        ({
            let (after, result) = answered(s, m);
            let goes_on = result == Ok::<bool, TransferErrorView>(true) && after.failed == s.failed;
            &&& m is FileAccept ==> goes_on && after.accepted && after.acked == s.acked
            &&& m matches MessageView::FileAck { offset, .. } ==> if offset > s.sent.len() && offset
                >= s.acked {
                result is Err && after.failed is Some && after.acked == s.acked
            } else if offset >= s.acked {
                goes_on && after.acked == offset
            } else {
                goes_on && after.acked == s.acked
            }
            &&& m matches MessageView::FileComplete { sha256: theirs, .. } ==> if s.hash is None || s.hash
                == Some(theirs) {
                goes_on && after.peer_confirmed
            } else {
                &&& after.failed is Some && after.peer_confirmed == s.peer_confirmed
                &&& result == Err::<bool, _>(TransferErrorView::HashMismatch(s.id))
            }
            &&& m matches MessageView::FileCancel { reason, .. } ==> {
                &&& after.failed == Some(reason)
                &&& result == Err::<bool, _>(TransferErrorView::Failed { id: s.id, reason })
            }
            &&& !(m is FileAccept) ==> after.accepted == s.accepted
            &&& !(m is FileComplete) ==> after.peer_confirmed == s.peer_confirmed
            &&& after.id == s.id && after.name == s.name && after.size == s.size
            &&& after.sent == s.sent && after.hash == s.hash && after.complete_sent
                == s.complete_sent && after.offered == s.offered
        }),
{
}

/// The bytes of some chunks, one after another.
pub open spec fn chunk_data(msgs: Seq<MessageView>) -> Seq<u8>
    decreases msgs.len(),
{
    if msgs.len() == 0 {
        seq![]
    } else {
        (match msgs[0] {
            MessageView::FileChunk { data, .. } => data,
            _ => seq![],
        }) + chunk_data(msgs.drop_first())
    }
}

/// Whether messages are chunks of one transfer from an offset on, each where the one
/// before it ended and none empty or longer than 16384 bytes.
pub open spec fn are_chunks(msgs: Seq<MessageView>, id: u32, offset: int) -> bool
    decreases msgs.len(),
{
    msgs.len() > 0 ==> {
        &&& msgs[0] matches MessageView::FileChunk { id: i, offset: at, data }
        &&& i == id && at == offset && 0 < data.len() <= 16384
        &&& are_chunks(msgs.drop_first(), id, offset + data.len())
    }
}

proof fn chunks_are_chunks(id: u32, offset: int, data: Seq<u8>)
    requires
        0 <= offset,
        offset + data.len() <= u64::MAX,
    ensures
        are_chunks(chunks(id, offset, data), id, offset),
        chunk_data(chunks(id, offset, data)) == data,
    decreases data.len(),
{
    if data.len() > 0 {
        let n = if data.len() < FILE_CHUNK_SIZE {
            data.len() as int
        } else {
            FILE_CHUNK_SIZE as int
        };
        let all = chunks(id, offset, data);
        let more = chunks(id, offset + n, data.skip(n));
        chunks_are_chunks(id, offset + n, data.skip(n));
        assert(all.drop_first() =~= more);
        assert(data.take(n) + data.skip(n) =~= data);
    }
}

/// What a sender writes. First the offer with its id, name and size, once; nothing until
/// it is accepted; then the next bytes of the file in chunks, so that no more than 65536
/// are not acknowledged; and once all are, the end with the digest of all that was sent.
pub proof fn sender_writes(s: SenderView, fresh: Seq<u8>)
    requires
        s.wf(),
        fresh.len() == s.wanted(),
    ensures
        ({
            let (after, out) = polled(s, fresh);
            &&& s.failed is Some || s.complete_sent ==> after == s && out.len() == 0
            &&& s.failed is None && !s.complete_sent && !s.offered ==> {
                &&& after.offered
                &&& out == seq![MessageView::FileOffer { id: s.id, name: s.name, size: s.size }]
            }
            &&& s.failed is None && !s.complete_sent && s.offered && !s.accepted ==> after == s
                && out.len() == 0
            &&& s.failed is None && !s.complete_sent && s.offered && s.accepted && s.acked < s.size ==> {
                &&& are_chunks(out, s.id, s.sent.len() as int)
                &&& chunk_data(out) == fresh
                &&& after.sent == s.sent + fresh
                &&& after.sent.len() - after.acked <= 65536
                &&& after.sent.len() == s.size || after.sent.len() - after.acked == 65536
                &&& !after.complete_sent
            }
            &&& s.failed is None && !s.complete_sent && s.offered && s.accepted && s.acked == s.size ==> {
                &&& out == seq![MessageView::FileComplete { id: s.id, sha256: sha256(s.sent) }]
                &&& after.complete_sent && after.hash == Some(sha256(s.sent))
            }
            &&& after.id == s.id && after.name == s.name && after.size == s.size && after.acked
                == s.acked && after.accepted == s.accepted && after.failed == s.failed
        }),
{
    if s.flowing() && s.acked < s.size {
        chunks_are_chunks(s.id, s.sent.len() as int, fresh);
    }
}

/// An incoming file is written beside its final place, under a name of its own that
/// starts with a dot, and gets the clean name that was offered.
pub proof fn incoming_file_has_its_paths(dir: Seq<char>, id: u32, name: Seq<char>, size: u64)
    ensures
        ({
            let r = ReceiverView::start(dir, id, name, size);
            let clean = sanitized(name);
            &&& r.id == id && r.name == clean && r.size == size
            &&& r.final_path == joined(dir, clean)
            &&& r.temp_path == joined(
                dir,
                seq!['.'] + clean + seq!['.'] + decimal(id as nat) + seq![
                    '.',
                    'p',
                    'a',
                    'r',
                    't',
                    'i',
                    'a',
                    'l',
                ],
            )
            &&& r.content.len() == 0 && !r.done && r.failed is None
        }),
{
    reveal_strlit(".");
    reveal_strlit(".partial");
    assert("."@ =~= seq!['.']);
    assert(".partial"@ =~= seq!['.', 'p', 'a', 'r', 't', 'i', 'a', 'l']);
}

/// What is said of a transfer that failed.
pub proof fn transfer_errors_in_words(id: u32, reason: Seq<char>)
    ensures
        TransferErrorView::Io(reason).text() == "io error: "@ + reason,
        (TransferErrorView::Failed { id, reason }).text() == "file transfer "@ + decimal(id as nat)
            + " failed: "@ + reason,
        TransferErrorView::HashMismatch(id).text() == "hash mismatch for transfer "@ + decimal(
            id as nat,
        ),
{
}

/// A transfer starts with nothing sent, for a file of the size and the clean name that it
/// was given.
pub proof fn transfers_start_with_nothing(id: u32, name: Seq<char>, size: u64)
    ensures
        ({
            let s = SenderView::start(id, name, size);
            &&& s.id == id && s.name == sanitized(name) && s.size == size
            &&& s.sent.len() == 0 && s.acked == 0 && s.hash is None && s.failed is None
            &&& !s.offered && !s.accepted && !s.complete_sent && !s.peer_confirmed
        }),
{
}

/// The reasons for which a side gives a transfer up by itself.
pub proof fn reasons_are_told(
    s: SenderView,
    r: ReceiverView,
    offset: u64,
    data: Seq<u8>,
    theirs: Seq<u8>,
)
    requires
        s.wf(),
        r.failed is None,
        !r.done,
    ensures
        offset > s.sent.len() ==> answered(s, MessageView::FileAck { id: s.id, offset }).1 == Err::<
            bool,
            _,
        >(TransferErrorView::Failed { id: s.id, reason: "ack past sent bytes"@ }),
        offset != r.content.len() || offset + data.len() > r.size ==> handled(
            r,
            MessageView::FileChunk { id: r.id, offset, data },
        ).2 == Ok::<_, TransferErrorView>(
            seq![MessageView::FileCancel { id: r.id, reason: "chunk out of order"@ }],
        ),
        r.content.len() != r.size ==> handled(
            r,
            MessageView::FileComplete { id: r.id, sha256: theirs },
        ).2 == Ok::<_, TransferErrorView>(
            seq![MessageView::FileCancel { id: r.id, reason: "complete before all bytes"@ }],
        ),
{
}

/// A transfer that is over answers nothing any more.
pub proof fn nothing_follows_the_end(r: ReceiverView, m: MessageView)
    requires
        r.done || r.failed is Some,
    ensures
        handled(r, m).0 == r,
        handled(r, m).1 is Unchanged,
        handled(r, m).2 matches Ok(out) && out.len() == 0,
{
}

} // verus!
