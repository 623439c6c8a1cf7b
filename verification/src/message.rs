//! Byte layout of a session.
//!
//! Multi-byte integers are little-endian. Strings are UTF-8 with a `u16` byte
//! length. The length counts bytes, not scalars, and is at most 4096: a longer
//! string is cut after the last whole character that fits.
//!
//! # Framing
//!
//! Each message on the stream is:
//!
//! ```text
//! u32 payload_len   // bytes that follow, 1..=MAX_FRAME_BYTES
//! u8  type
//! [payload_len - 1 bytes of body]
//! ```
//!
//! # Types
//!
//! | type | name          | body |
//! |------|---------------|------|
//! | 1    | Hello         | `u16 version`, `string name` |
//! | 2    | HelloAck      | `u16 version` |
//! | 3    | Displays      | `u16 count`, then `count` displays (max 16) |
//! | 4    | Video         | `u32 display_id`, `u32 pts_ms`, `u8 flags`, `bytes nal` |
//! | 5    | Input         | `u8 kind`, then a kind-specific body |
//! | 6    | FileOffer     | `u32 id`, `u64 size`, `string name` |
//! | 7    | FileAccept    | `u32 id` |
//! | 8    | FileChunk     | `u32 id`, `u64 offset`, `bytes data` |
//! | 9    | FileAck       | `u32 id`, `u64 offset` (cumulative end offset) |
//! | 10   | FileComplete  | `u32 id`, 32-byte SHA-256 |
//! | 11   | FileCancel    | `u32 id`, `string reason` |
//! | 12   | Ping          | `u64 nonce` |
//! | 13   | Pong          | `u64 nonce` |
//!
//! A display is `u32 id`, `i32 x`, `i32 y`, `u32 width`, `u32 height`,
//! `u16 scale_percent` (100 = 1.0), `string name`. `x` and `y` are the
//! display origin in desktop pixels. `width` and `height` are the video
//! framebuffer size in pixels.
//!
//! Video `flags` bit 0 marks a keyframe. Other bits are ignored. `nal` is one
//! Annex-B access unit.
//!
//! Input kinds:
//!
//! | kind | name        | body |
//! |------|-------------|------|
//! | 1    | MouseMove   | `u32 display_id`, `u32 x`, `u32 y` (pixels in that display) |
//! | 2    | MouseButton | `u32 display_id`, `u8 button` (0 left, 1 right, 2 middle), `u8 pressed` |
//! | 3    | MouseWheel  | `u32 display_id`, `i32 dx`, `i32 dy` (detents, not pixels) |
//! | 4    | Key         | `u16 code` (Linux evdev), `u8 pressed` |
//!
//! `pressed` is 1 or 0. Any other value is rejected.

use vstd::prelude::*;
use vstd::string::*;
use vstd::utf8::*;
use vstd::slice::*;

use crate::bytes::{bounds, from_le, from_le_of_le, get_le, le, le_of_from_le, put_all, put_le};
use crate::text::{chars_of, decimal, push_decimal};

verus! {

pub const VERSION: u16 = 1;

pub const MAX_FRAME_BYTES: usize = 8 * 1024 * 1024;

pub const MAX_STRING_BYTES: usize = 4096;

pub const MAX_DISPLAYS: usize = 16;

pub const T_HELLO: u8 = 1;

pub const T_HELLO_ACK: u8 = 2;

pub const T_DISPLAYS: u8 = 3;

pub const T_VIDEO: u8 = 4;

pub const T_INPUT: u8 = 5;

pub const T_FILE_OFFER: u8 = 6;

pub const T_FILE_ACCEPT: u8 = 7;

pub const T_FILE_CHUNK: u8 = 8;

pub const T_FILE_ACK: u8 = 9;

pub const T_FILE_COMPLETE: u8 = 10;

pub const T_FILE_CANCEL: u8 = 11;

pub const T_PING: u8 = 12;

pub const T_PONG: u8 = 13;

pub const I_MOVE: u8 = 1;

pub const I_BUTTON: u8 = 2;

pub const I_WHEEL: u8 = 3;

pub const I_KEY: u8 = 4;

/// Why bytes are no message, or a stream carries no further one.
#[derive(Debug, Clone, PartialEq, Eq)]
pub enum ProtocolError {
    /// The stream ended before a frame began.
    Closed,
    /// The length prefix is outside `1..=MAX_FRAME_BYTES`.
    BadLength(u32),
    /// The body ended inside a field.
    Truncated,
    UnknownType(u8),
    /// A field has a value that no message has, or bytes follow the last field.
    Invalid,
    /// A string is not UTF-8.
    Utf8,
    /// The stream failed, or ended inside a frame. Holds the stream's own error
    /// in words.
    Io(String),
}

/// The model of a [`ProtocolError`].
pub enum ProtocolErrorView {
    Closed,
    BadLength(u32),
    Truncated,
    UnknownType(u8),
    Invalid,
    Utf8,
    Io(Seq<char>),
}

impl View for ProtocolError {
    type V = ProtocolErrorView;

    open spec fn view(&self) -> ProtocolErrorView {
        match *self {
            ProtocolError::Closed => ProtocolErrorView::Closed,
            ProtocolError::BadLength(n) => ProtocolErrorView::BadLength(n),
            ProtocolError::Truncated => ProtocolErrorView::Truncated,
            ProtocolError::UnknownType(t) => ProtocolErrorView::UnknownType(t),
            ProtocolError::Invalid => ProtocolErrorView::Invalid,
            ProtocolError::Utf8 => ProtocolErrorView::Utf8,
            ProtocolError::Io(text) => ProtocolErrorView::Io(text@),
        }
    }
}

impl ProtocolErrorView {
    /// The error in words.
    pub open spec fn text(self) -> Seq<char> {
        match self {
            ProtocolErrorView::Closed => "connection closed"@,
            ProtocolErrorView::BadLength(n) => "frame length "@ + decimal(n as nat)
                + " is outside 1..=8388608"@,
            ProtocolErrorView::Truncated => "truncated message"@,
            ProtocolErrorView::UnknownType(t) => "unknown message type "@ + decimal(t as nat),
            ProtocolErrorView::Invalid => "invalid message field"@,
            ProtocolErrorView::Utf8 => "message text is not utf-8"@,
            ProtocolErrorView::Io(text) => "io error: "@ + text,
        }
    }
}

impl ProtocolError {
    /// The error in words.
    pub fn text(&self) -> (r: String)
        ensures
            r@ == self@.text(),
    {
        match self {
            ProtocolError::Closed => "connection closed".to_owned(),
            ProtocolError::BadLength(n) => {
                let mut out = "frame length ".to_owned();
                push_decimal(&mut out, *n as u64);
                out.append(" is outside 1..=8388608");
                out
            },
            ProtocolError::Truncated => "truncated message".to_owned(),
            ProtocolError::UnknownType(t) => {
                let mut out = "unknown message type ".to_owned();
                push_decimal(&mut out, *t as u64);
                out
            },
            ProtocolError::Invalid => "invalid message field".to_owned(),
            ProtocolError::Utf8 => "message text is not utf-8".to_owned(),
            ProtocolError::Io(text) => {
                let mut out = "io error: ".to_owned();
                out.append(text.as_str());
                out
            },
        }
    }
}

/// One display of the host.
#[derive(Debug, Clone, PartialEq, Eq)]
pub struct DisplayInfo {
    pub id: u32,
    pub x: i32,
    pub y: i32,
    pub width: u32,
    pub height: u32,
    /// 100 means scale 1.0, 150 means 1.5.
    pub scale_percent: u16,
    pub name: String,
}

/// A [`DisplayInfo`] with its name as characters.
#[verifier::ext_equal]
pub struct DisplayView {
    pub id: u32,
    pub x: i32,
    pub y: i32,
    pub width: u32,
    pub height: u32,
    pub scale_percent: u16,
    pub name: Seq<char>,
}

impl View for DisplayInfo {
    type V = DisplayView;

    open spec fn view(&self) -> DisplayView {
        DisplayView {
            id: self.id,
            x: self.x,
            y: self.y,
            width: self.width,
            height: self.height,
            scale_percent: self.scale_percent,
            name: self.name@,
        }
    }
}

impl DisplayInfo {
    /// A copy.
    pub fn copy(&self) -> (r: DisplayInfo)
        ensures
            r@ == self@,
    {
        DisplayInfo {
            id: self.id,
            x: self.x,
            y: self.y,
            width: self.width,
            height: self.height,
            scale_percent: self.scale_percent,
            name: self.name.clone(),
        }
    }
}

/// What the client's pointer or keyboard did.
#[derive(Debug, Clone, Copy, PartialEq, Eq, Structural)]
pub enum InputEvent {
    MouseMove { display_id: u32, x: u32, y: u32 },
    MouseButton { display_id: u32, button: u8, pressed: bool },
    MouseWheel { display_id: u32, dx: i32, dy: i32 },
    Key { code: u16, pressed: bool },
}

/// One message of a session.
#[derive(Debug, Clone, PartialEq, Eq)]
pub enum Message {
    Hello { version: u16, name: String },
    HelloAck { version: u16 },
    Displays { displays: Vec<DisplayInfo> },
    Video { display_id: u32, pts_ms: u32, keyframe: bool, data: Vec<u8> },
    Input(InputEvent),
    FileOffer { id: u32, name: String, size: u64 },
    FileAccept { id: u32 },
    FileChunk { id: u32, offset: u64, data: Vec<u8> },
    FileAck { id: u32, offset: u64 },
    FileComplete { id: u32, sha256: [u8; 32] },
    FileCancel { id: u32, reason: String },
    Ping { nonce: u64 },
    Pong { nonce: u64 },
}

/// A [`Message`] over sequences.
#[verifier::ext_equal]
pub enum MessageView {
    Hello { version: u16, name: Seq<char> },
    HelloAck { version: u16 },
    Displays { displays: Seq<DisplayView> },
    Video { display_id: u32, pts_ms: u32, keyframe: bool, data: Seq<u8> },
    Input(InputEvent),
    FileOffer { id: u32, name: Seq<char>, size: u64 },
    FileAccept { id: u32 },
    FileChunk { id: u32, offset: u64, data: Seq<u8> },
    FileAck { id: u32, offset: u64 },
    FileComplete { id: u32, sha256: Seq<u8> },
    FileCancel { id: u32, reason: Seq<char> },
    Ping { nonce: u64 },
    Pong { nonce: u64 },
}

/// The views of some displays.
pub open spec fn display_views(displays: Seq<DisplayInfo>) -> Seq<DisplayView> {
    displays.map_values(|d: DisplayInfo| d@)
}

impl View for Message {
    type V = MessageView;

    open spec fn view(&self) -> MessageView {
        match self {
            Message::Hello { version, name } => MessageView::Hello {
                version: *version,
                name: name@,
            },
            Message::HelloAck { version } => MessageView::HelloAck { version: *version },
            Message::Displays { displays } => MessageView::Displays {
                displays: display_views(displays@),
            },
            Message::Video { display_id, pts_ms, keyframe, data } => MessageView::Video {
                display_id: *display_id,
                pts_ms: *pts_ms,
                keyframe: *keyframe,
                data: data@,
            },
            Message::Input(event) => MessageView::Input(*event),
            Message::FileOffer { id, name, size } => MessageView::FileOffer {
                id: *id,
                name: name@,
                size: *size,
            },
            Message::FileAccept { id } => MessageView::FileAccept { id: *id },
            Message::FileChunk { id, offset, data } => MessageView::FileChunk {
                id: *id,
                offset: *offset,
                data: data@,
            },
            Message::FileAck { id, offset } => MessageView::FileAck { id: *id, offset: *offset },
            Message::FileComplete { id, sha256 } => MessageView::FileComplete {
                id: *id,
                sha256: sha256@,
            },
            Message::FileCancel { id, reason } => MessageView::FileCancel {
                id: *id,
                reason: reason@,
            },
            Message::Ping { nonce } => MessageView::Ping { nonce: *nonce },
            Message::Pong { nonce } => MessageView::Pong { nonce: *nonce },
        }
    }
}

// ---------------------------------------------------------------------------
// What a message is on the wire
// ---------------------------------------------------------------------------

/// As many whole characters from the front of `s` as `room` bytes hold.
pub open spec fn cut(s: Seq<char>, room: nat) -> Seq<char>
    decreases s.len(),
{
    if s.len() > 0 && encode_scalar(s[0] as u32).len() <= room {
        seq![s[0]] + cut(s.drop_first(), (room - encode_scalar(s[0] as u32).len()) as nat)
    } else {
        seq![]
    }
}

/// The characters of a string that go on the wire.
pub open spec fn carried(s: Seq<char>) -> Seq<char> {
    cut(s, MAX_STRING_BYTES as nat)
}

/// A signed number as the unsigned one with the same bits.
pub open spec fn unsigned(v: i32) -> nat {
    if v >= 0 {
        v as nat
    } else {
        (v + 0x1_0000_0000) as nat
    }
}

/// The signed number with the bits of `v`.
pub open spec fn signed(v: nat) -> i32 {
    if v < 0x8000_0000 {
        v as i32
    } else {
        (v - 0x1_0000_0000) as i32
    }
}

pub open spec fn flag(b: bool) -> u8 {
    if b {
        1
    } else {
        0
    }
}

pub open spec fn wire_str(s: Seq<char>) -> Seq<u8> {
    let bytes = encode_utf8(carried(s));
    le(bytes.len(), 2) + bytes
}

pub open spec fn wire_bytes(data: Seq<u8>) -> Seq<u8> {
    le(data.len() % 0x1_0000_0000, 4) + data
}

/// A display: see the table above.
#[verifier::opaque]
pub open spec fn wire_display(d: DisplayView) -> Seq<u8> {
    le(d.id as nat, 4) + le(unsigned(d.x), 4) + le(unsigned(d.y), 4) + le(d.width as nat, 4) + le(
        d.height as nat,
        4,
    ) + le(d.scale_percent as nat, 2) + wire_str(d.name)
}

pub open spec fn wire_displays(s: Seq<DisplayView>) -> Seq<u8>
    decreases s.len(),
{
    if s.len() == 0 {
        seq![]
    } else {
        wire_display(s[0]) + wire_displays(s.drop_first())
    }
}

pub open spec fn wire_input(e: InputEvent) -> Seq<u8> {
    match e {
        InputEvent::MouseMove { display_id, x, y } => seq![I_MOVE] + le(display_id as nat, 4) + le(
            x as nat,
            4,
        ) + le(y as nat, 4),
        InputEvent::MouseButton { display_id, button, pressed } => seq![I_BUTTON] + le(
            display_id as nat,
            4,
        ) + seq![button] + seq![flag(pressed)],
        InputEvent::MouseWheel { display_id, dx, dy } => seq![I_WHEEL] + le(display_id as nat, 4)
            + le(unsigned(dx), 4) + le(unsigned(dy), 4),
        InputEvent::Key { code, pressed } => seq![I_KEY] + le(code as nat, 2) + seq![flag(pressed)],
    }
}

/// The type byte of a message.
pub open spec fn kind_of(m: MessageView) -> u8 {
    match m {
        MessageView::Hello { .. } => T_HELLO,
        MessageView::HelloAck { .. } => T_HELLO_ACK,
        MessageView::Displays { .. } => T_DISPLAYS,
        MessageView::Video { .. } => T_VIDEO,
        MessageView::Input(_) => T_INPUT,
        MessageView::FileOffer { .. } => T_FILE_OFFER,
        MessageView::FileAccept { .. } => T_FILE_ACCEPT,
        MessageView::FileChunk { .. } => T_FILE_CHUNK,
        MessageView::FileAck { .. } => T_FILE_ACK,
        MessageView::FileComplete { .. } => T_FILE_COMPLETE,
        MessageView::FileCancel { .. } => T_FILE_CANCEL,
        MessageView::Ping { .. } => T_PING,
        MessageView::Pong { .. } => T_PONG,
    }
}

/// The bytes after the type byte.
pub open spec fn wire_body(m: MessageView) -> Seq<u8> {
    match m {
        MessageView::Hello { version, name } => le(version as nat, 2) + wire_str(name),
        MessageView::HelloAck { version } => le(version as nat, 2),
        MessageView::Displays { displays } => le(displays.len() % 0x1_0000, 2) + wire_displays(
            displays,
        ),
        MessageView::Video { display_id, pts_ms, keyframe, data } => le(display_id as nat, 4) + le(
            pts_ms as nat,
            4,
        ) + seq![flag(keyframe)] + wire_bytes(data),
        MessageView::Input(event) => wire_input(event),
        MessageView::FileOffer { id, name, size } => le(id as nat, 4) + le(size as nat, 8)
            + wire_str(name),
        MessageView::FileAccept { id } => le(id as nat, 4),
        MessageView::FileChunk { id, offset, data } => le(id as nat, 4) + le(offset as nat, 8)
            + wire_bytes(data),
        MessageView::FileAck { id, offset } => le(id as nat, 4) + le(offset as nat, 8),
        MessageView::FileComplete { id, sha256 } => le(id as nat, 4) + sha256,
        MessageView::FileCancel { id, reason } => le(id as nat, 4) + wire_str(reason),
        MessageView::Ping { nonce } => le(nonce as nat, 8),
        MessageView::Pong { nonce } => le(nonce as nat, 8),
    }
}

/// The type byte and the body of a message.
pub open spec fn wire(m: MessageView) -> Seq<u8> {
    seq![kind_of(m)] + wire_body(m)
}

// ---------------------------------------------------------------------------
// Writing
// ---------------------------------------------------------------------------

fn put_u16(out: &mut Vec<u8>, v: u16)
    ensures
        final(out)@ == old(out)@ + le(v as nat, 2),
{
    put_le(out, v as u64, 2);
}

fn put_u32(out: &mut Vec<u8>, v: u32)
    ensures
        final(out)@ == old(out)@ + le(v as nat, 4),
{
    put_le(out, v as u64, 4);
}

fn put_u64(out: &mut Vec<u8>, v: u64)
    ensures
        final(out)@ == old(out)@ + le(v as nat, 8),
{
    put_le(out, v, 8);
}

fn put_i32(out: &mut Vec<u8>, v: i32)
    ensures
        final(out)@ == old(out)@ + le(unsigned(v), 4),
{
    if v >= 0 {
        put_u32(out, v as u32);
    } else {
        put_u32(out, (v as i64 + 0x1_0000_0000) as u32);
    }
}

fn put_bytes(out: &mut Vec<u8>, data: &[u8])
    ensures
        final(out)@ == old(out)@ + wire_bytes(data@),
{
    let len: u64 = data.len() as u64;
    put_u32(out, (len % 0x1_0000_0000) as u32);
    put_all(out, data);
    assert(out@ =~= old(out)@ + wire_bytes(data@));
}

/// The bytes that a character takes.
pub(crate) fn width(c: char) -> (r: usize)
    ensures
        r == encode_scalar(c as u32).len(),
{
    let u: u32 = c as u32;
    if u <= 0x7f {
        1
    } else if u <= 0x7ff {
        2
    } else if u <= 0xffff {
        3
    } else {
        4
    }
}

fn put_str(out: &mut Vec<u8>, text: &str)
    ensures
        final(out)@ == old(out)@ + wire_str(text@),
{
    let bytes = text.as_bytes();
    let chars = chars_of(text);
    let ghost s = text@;
    let mut i: usize = 0;
    let mut len: usize = 0;
    assert(s.skip(0) =~= s);
    assert(bytes@.skip(0) =~= bytes@);
    assert(bytes@.take(0) + encode_utf8(carried(s)) =~= encode_utf8(carried(s)));
    while i < chars.len() && width(chars[i]) <= MAX_STRING_BYTES - len
        invariant
            s == text@,
            chars@ == s,
            bytes@ == encode_utf8(s),
            i <= chars@.len(),
            len <= bytes@.len(),
            len <= MAX_STRING_BYTES,
            bytes@.skip(len as int) == encode_utf8(s.skip(i as int)),
            encode_utf8(carried(s)) == bytes@.take(len as int) + encode_utf8(
                cut(s.skip(i as int), (MAX_STRING_BYTES - len) as nat),
            ),
        decreases chars.len() - i,
    {
        proof {
            let rest = s.skip(i as int);
            let w = encode_scalar(rest[0] as u32);
            let room = (MAX_STRING_BYTES - len) as nat;
            let tail = cut(rest.drop_first(), (room - w.len()) as nat);
            assert(rest.drop_first() =~= s.skip(i + 1));
            assert((seq![rest[0]] + tail).drop_first() =~= tail);
            assert(bytes@.skip(len as int) =~= w + encode_utf8(rest.drop_first()));
            assert(bytes@.skip(len as int).skip(w.len() as int) =~= bytes@.skip(
                len + w.len() as int,
            ));
            assert((w + encode_utf8(rest.drop_first())).skip(w.len() as int) =~= encode_utf8(
                rest.drop_first(),
            ));
            assert forall|k: int| 0 <= k < w.len() implies bytes@[len + k] == w[k] by {
                assert(bytes@.skip(len as int)[k] == (w + encode_utf8(rest.drop_first()))[k]);
            }
            assert(bytes@.take(len + w.len() as int) =~= bytes@.take(len as int) + w);
            assert(bytes@.take(len as int) + (w + encode_utf8(tail)) =~= bytes@.take(
                len + w.len() as int,
            ) + encode_utf8(tail));
        }
        len = len + width(chars[i]);
        i += 1;
    }
    assert(encode_utf8(carried(s)) =~= bytes@.take(len as int));
    put_u16(out, len as u16);
    put_all(out, slice_subrange(bytes, 0, len));
    assert(bytes@.subrange(0, len as int) =~= bytes@.take(len as int));
    assert(out@ =~= old(out)@ + wire_str(s));
}

fn put_flag(out: &mut Vec<u8>, b: bool)
    ensures
        final(out)@ == old(out)@ + seq![flag(b)],
{
    out.push(if b {
        1
    } else {
        0
    });
    assert(out@ =~= old(out)@ + seq![flag(b)]);
}

fn put_display(out: &mut Vec<u8>, display: &DisplayInfo)
    ensures
        final(out)@ == old(out)@ + wire_display(display@),
{
    put_u32(out, display.id);
    put_i32(out, display.x);
    put_i32(out, display.y);
    put_u32(out, display.width);
    put_u32(out, display.height);
    put_u16(out, display.scale_percent);
    put_str(out, display.name.as_str());
    reveal(wire_display);
    assert(out@ =~= old(out)@ + wire_display(display@));
}

fn put_displays(out: &mut Vec<u8>, displays: &Vec<DisplayInfo>)
    ensures
        final(out)@ == old(out)@ + wire_displays(display_views(displays@)),
{
    let ghost all = display_views(displays@);
    assert(all.skip(0) =~= all);
    for i in 0..displays.len()
        invariant
            all == display_views(displays@),
            out@ + wire_displays(all.skip(i as int)) == old(out)@ + wire_displays(all),
    {
        let ghost before = out@;
        put_display(out, &displays[i]);
        proof {
            let rest = all.skip(i as int);
            assert(rest[0] == displays@[i as int]@);
            assert(rest.drop_first() =~= all.skip(i + 1));
            assert(before + (wire_display(rest[0]) + wire_displays(rest.drop_first())) =~= out@
                + wire_displays(all.skip(i + 1)));
        }
    }
    assert(all.skip(all.len() as int) =~= Seq::<DisplayView>::empty());
    assert(out@ + wire_displays(Seq::<DisplayView>::empty()) =~= out@);
}

fn put_input(out: &mut Vec<u8>, event: &InputEvent)
    ensures
        final(out)@ == old(out)@ + wire_input(*event),
{
    match event {
        InputEvent::MouseMove { display_id, x, y } => {
            out.push(I_MOVE);
            put_u32(out, *display_id);
            put_u32(out, *x);
            put_u32(out, *y);
        },
        InputEvent::MouseButton { display_id, button, pressed } => {
            out.push(I_BUTTON);
            put_u32(out, *display_id);
            out.push(*button);
            put_flag(out, *pressed);
        },
        InputEvent::MouseWheel { display_id, dx, dy } => {
            out.push(I_WHEEL);
            put_u32(out, *display_id);
            put_i32(out, *dx);
            put_i32(out, *dy);
        },
        InputEvent::Key { code, pressed } => {
            out.push(I_KEY);
            put_u16(out, *code);
            put_flag(out, *pressed);
        },
    }
    assert(out@ =~= old(out)@ + wire_input(*event));
}

impl Message {
    /// Adds the type byte and the body.
    pub fn encode(&self, out: &mut Vec<u8>)
        ensures
            final(out)@ == old(out)@ + wire(self@),
    {
        match self {
            Message::Hello { version, name } => {
                out.push(T_HELLO);
                put_u16(out, *version);
                put_str(out, name.as_str());
            },
            Message::HelloAck { version } => {
                out.push(T_HELLO_ACK);
                put_u16(out, *version);
            },
            Message::Displays { displays } => {
                out.push(T_DISPLAYS);
                let count: u64 = displays.len() as u64;
                put_u16(out, (count % 0x1_0000) as u16);
                put_displays(out, displays);
            },
            Message::Video { display_id, pts_ms, keyframe, data } => {
                out.push(T_VIDEO);
                put_u32(out, *display_id);
                put_u32(out, *pts_ms);
                put_flag(out, *keyframe);
                put_bytes(out, data.as_slice());
            },
            Message::Input(event) => {
                out.push(T_INPUT);
                put_input(out, event);
            },
            Message::FileOffer { id, name, size } => {
                out.push(T_FILE_OFFER);
                put_u32(out, *id);
                put_u64(out, *size);
                put_str(out, name.as_str());
            },
            Message::FileAccept { id } => {
                out.push(T_FILE_ACCEPT);
                put_u32(out, *id);
            },
            Message::FileChunk { id, offset, data } => {
                out.push(T_FILE_CHUNK);
                put_u32(out, *id);
                put_u64(out, *offset);
                put_bytes(out, data.as_slice());
            },
            Message::FileAck { id, offset } => {
                out.push(T_FILE_ACK);
                put_u32(out, *id);
                put_u64(out, *offset);
            },
            Message::FileComplete { id, sha256 } => {
                out.push(T_FILE_COMPLETE);
                put_u32(out, *id);
                put_all(out, sha256.as_slice());
            },
            Message::FileCancel { id, reason } => {
                out.push(T_FILE_CANCEL);
                put_u32(out, *id);
                put_str(out, reason.as_str());
            },
            Message::Ping { nonce } => {
                out.push(T_PING);
                put_u64(out, *nonce);
            },
            Message::Pong { nonce } => {
                out.push(T_PONG);
                put_u64(out, *nonce);
            },
        }
        assert(out@ =~= old(out)@ + wire(self@));
    }
}

// ---------------------------------------------------------------------------
// What bytes say
// ---------------------------------------------------------------------------

/// The first `n` bytes, and the rest.
pub open spec fn read_take(s: Seq<u8>, n: nat) -> Result<(Seq<u8>, Seq<u8>), ProtocolError> {
    if s.len() < n {
        Err(ProtocolError::Truncated)
    } else {
        Ok((s.take(n as int), s.skip(n as int)))
    }
}

/// A number of `n` bytes.
pub open spec fn read_le(s: Seq<u8>, n: nat) -> Result<(nat, Seq<u8>), ProtocolError> {
    match read_take(s, n) {
        Ok((b, rest)) => Ok((from_le(b), rest)),
        Err(e) => Err(e),
    }
}

pub open spec fn read_bytes(s: Seq<u8>) -> Result<(Seq<u8>, Seq<u8>), ProtocolError> {
    match read_le(s, 4) {
        Ok((len, rest)) => if len > MAX_FRAME_BYTES {
            Err(ProtocolError::Invalid)
        } else {
            read_take(rest, len)
        },
        Err(e) => Err(e),
    }
}

pub open spec fn read_str(s: Seq<u8>) -> Result<(Seq<char>, Seq<u8>), ProtocolError> {
    match read_le(s, 2) {
        Ok((len, rest)) => if len > MAX_STRING_BYTES {
            Err(ProtocolError::Invalid)
        } else {
            match read_take(rest, len) {
                Ok((b, rest)) => if valid_utf8(b) {
                    Ok((decode_utf8(b), rest))
                } else {
                    Err(ProtocolError::Utf8)
                },
                Err(e) => Err(e),
            }
        },
        Err(e) => Err(e),
    }
}

/// `pressed`: one byte, 0 or 1.
pub open spec fn read_pressed(s: Seq<u8>) -> Result<(bool, Seq<u8>), ProtocolError> {
    match read_le(s, 1) {
        Ok((v, rest)) => if v > 1 {
            Err(ProtocolError::Invalid)
        } else {
            Ok((v == 1, rest))
        },
        Err(e) => Err(e),
    }
}

/// The 22 bytes before the name of a display.
pub open spec fn display_head(b: Seq<u8>, name: Seq<char>) -> DisplayView {
    DisplayView {
        id: from_le(b.subrange(0, 4)) as u32,
        x: signed(from_le(b.subrange(4, 8))),
        y: signed(from_le(b.subrange(8, 12))),
        width: from_le(b.subrange(12, 16)) as u32,
        height: from_le(b.subrange(16, 20)) as u32,
        scale_percent: from_le(b.subrange(20, 22)) as u16,
        name,
    }
}

/// One display: no side and no scale of it is zero.
#[verifier::opaque]
pub open spec fn read_display(s: Seq<u8>) -> Result<(DisplayView, Seq<u8>), ProtocolError> {
    match read_take(s, 22) {
        Ok((b, rest)) => match read_str(rest) {
            Ok((name, rest)) => {
                let d = display_head(b, name);
                if d.width == 0 || d.height == 0 || d.scale_percent == 0 {
                    Err(ProtocolError::Invalid)
                } else {
                    Ok((d, rest))
                }
            },
            Err(e) => Err(e),
        },
        Err(e) => Err(e),
    }
}

/// `n` displays, one after another.
pub open spec fn read_displays(s: Seq<u8>, n: nat) -> Result<
    (Seq<DisplayView>, Seq<u8>),
    ProtocolError,
>
    decreases n,
{
    if n == 0 {
        Ok((seq![], s))
    } else {
        match read_display(s) {
            Ok((d, rest)) => match read_displays(rest, (n - 1) as nat) {
                Ok((more, rest)) => Ok((seq![d] + more, rest)),
                Err(e) => Err(e),
            },
            Err(e) => Err(e),
        }
    }
}

pub open spec fn read_input(s: Seq<u8>) -> Result<(InputEvent, Seq<u8>), ProtocolError> {
    match read_le(s, 1) {
        Ok((kind, s)) => if kind == I_MOVE {
            match read_take(s, 12) {
                Ok((b, rest)) => Ok(
                    (
                        InputEvent::MouseMove {
                            display_id: from_le(b.subrange(0, 4)) as u32,
                            x: from_le(b.subrange(4, 8)) as u32,
                            y: from_le(b.subrange(8, 12)) as u32,
                        },
                        rest,
                    ),
                ),
                Err(e) => Err(e),
            }
        } else if kind == I_BUTTON {
            match read_take(s, 5) {
                Ok((b, rest)) => match read_pressed(rest) {
                    Ok((pressed, rest)) => Ok(
                        (
                            InputEvent::MouseButton {
                                display_id: from_le(b.subrange(0, 4)) as u32,
                                button: b[4],
                                pressed,
                            },
                            rest,
                        ),
                    ),
                    Err(e) => Err(e),
                },
                Err(e) => Err(e),
            }
        } else if kind == I_WHEEL {
            match read_take(s, 12) {
                Ok((b, rest)) => Ok(
                    (
                        InputEvent::MouseWheel {
                            display_id: from_le(b.subrange(0, 4)) as u32,
                            dx: signed(from_le(b.subrange(4, 8))),
                            dy: signed(from_le(b.subrange(8, 12))),
                        },
                        rest,
                    ),
                ),
                Err(e) => Err(e),
            }
        } else if kind == I_KEY {
            match read_take(s, 2) {
                Ok((b, rest)) => match read_pressed(rest) {
                    Ok((pressed, rest)) => Ok(
                        (InputEvent::Key { code: from_le(b) as u16, pressed }, rest),
                    ),
                    Err(e) => Err(e),
                },
                Err(e) => Err(e),
            }
        } else {
            Err(ProtocolError::Invalid)
        },
        Err(e) => Err(e),
    }
}

/// The body of a message of type `kind`.
pub open spec fn read_body(kind: u8, s: Seq<u8>) -> Result<(MessageView, Seq<u8>), ProtocolError> {
    if kind == T_HELLO {
        match read_le(s, 2) {
            Ok((version, rest)) => match read_str(rest) {
                Ok((name, rest)) => Ok((MessageView::Hello { version: version as u16, name }, rest)),
                Err(e) => Err(e),
            },
            Err(e) => Err(e),
        }
    } else if kind == T_HELLO_ACK {
        match read_le(s, 2) {
            Ok((version, rest)) => Ok((MessageView::HelloAck { version: version as u16 }, rest)),
            Err(e) => Err(e),
        }
    } else if kind == T_DISPLAYS {
        match read_le(s, 2) {
            Ok((count, rest)) => if count > MAX_DISPLAYS {
                Err(ProtocolError::Invalid)
            } else {
                match read_displays(rest, count) {
                    Ok((displays, rest)) => Ok((MessageView::Displays { displays }, rest)),
                    Err(e) => Err(e),
                }
            },
            Err(e) => Err(e),
        }
    } else if kind == T_VIDEO {
        match read_take(s, 9) {
            Ok((b, rest)) => match read_bytes(rest) {
                Ok((data, rest)) => Ok(
                    (
                        MessageView::Video {
                            display_id: from_le(b.subrange(0, 4)) as u32,
                            pts_ms: from_le(b.subrange(4, 8)) as u32,
                            keyframe: b[8] % 2 == 1,
                            data,
                        },
                        rest,
                    ),
                ),
                Err(e) => Err(e),
            },
            Err(e) => Err(e),
        }
    } else if kind == T_INPUT {
        match read_input(s) {
            Ok((event, rest)) => Ok((MessageView::Input(event), rest)),
            Err(e) => Err(e),
        }
    } else if kind == T_FILE_OFFER {
        match read_take(s, 12) {
            Ok((b, rest)) => match read_str(rest) {
                Ok((name, rest)) => Ok(
                    (
                        MessageView::FileOffer {
                            id: from_le(b.subrange(0, 4)) as u32,
                            name,
                            size: from_le(b.subrange(4, 12)) as u64,
                        },
                        rest,
                    ),
                ),
                Err(e) => Err(e),
            },
            Err(e) => Err(e),
        }
    } else if kind == T_FILE_ACCEPT {
        match read_le(s, 4) {
            Ok((id, rest)) => Ok((MessageView::FileAccept { id: id as u32 }, rest)),
            Err(e) => Err(e),
        }
    } else if kind == T_FILE_CHUNK {
        match read_take(s, 12) {
            Ok((b, rest)) => match read_bytes(rest) {
                Ok((data, rest)) => Ok(
                    (
                        MessageView::FileChunk {
                            id: from_le(b.subrange(0, 4)) as u32,
                            offset: from_le(b.subrange(4, 12)) as u64,
                            data,
                        },
                        rest,
                    ),
                ),
                Err(e) => Err(e),
            },
            Err(e) => Err(e),
        }
    } else if kind == T_FILE_ACK {
        match read_take(s, 12) {
            Ok((b, rest)) => Ok(
                (
                    MessageView::FileAck {
                        id: from_le(b.subrange(0, 4)) as u32,
                        offset: from_le(b.subrange(4, 12)) as u64,
                    },
                    rest,
                ),
            ),
            Err(e) => Err(e),
        }
    } else if kind == T_FILE_COMPLETE {
        match read_take(s, 36) {
            Ok((b, rest)) => Ok(
                (
                    MessageView::FileComplete {
                        id: from_le(b.subrange(0, 4)) as u32,
                        sha256: b.subrange(4, 36),
                    },
                    rest,
                ),
            ),
            Err(e) => Err(e),
        }
    } else if kind == T_FILE_CANCEL {
        match read_le(s, 4) {
            Ok((id, rest)) => match read_str(rest) {
                Ok((reason, rest)) => Ok((MessageView::FileCancel { id: id as u32, reason }, rest)),
                Err(e) => Err(e),
            },
            Err(e) => Err(e),
        }
    } else if kind == T_PING {
        match read_le(s, 8) {
            Ok((nonce, rest)) => Ok((MessageView::Ping { nonce: nonce as u64 }, rest)),
            Err(e) => Err(e),
        }
    } else if kind == T_PONG {
        match read_le(s, 8) {
            Ok((nonce, rest)) => Ok((MessageView::Pong { nonce: nonce as u64 }, rest)),
            Err(e) => Err(e),
        }
    } else {
        Err(ProtocolError::UnknownType(kind))
    }
}

/// The message that some bytes are: the type, the body, and nothing after it.
pub open spec fn parse(s: Seq<u8>) -> Result<MessageView, ProtocolError> {
    if s.len() == 0 {
        Err(ProtocolError::Truncated)
    } else {
        match read_body(s[0], s.skip(1)) {
            Ok((m, rest)) => if rest.len() == 0 {
                Ok(m)
            } else {
                Err(ProtocolError::Invalid)
            },
            Err(e) => Err(e),
        }
    }
}

// ---------------------------------------------------------------------------
// Reading
// ---------------------------------------------------------------------------

/// The error of [`String::from_utf8`].
#[verifier::external_type_specification]
#[verifier::external_body]
pub struct ExFromUtf8Error(std::string::FromUtf8Error);

/// `String::from_utf8`, as its documentation has it: the string with these
/// bytes, or an error exactly when they are not UTF-8.
pub assume_specification[ String::from_utf8 ](vec: Vec<u8>) -> (r: Result<
    String,
    std::string::FromUtf8Error,
>)
    ensures
        r is Ok <==> valid_utf8(vec@),
        r matches Ok(s) ==> s@ == decode_utf8(vec@),
;

/// The number of `n` bytes at `at`.
fn le_at(b: &[u8], at: usize, n: usize) -> (r: u64)
    requires
        at + n <= b@.len(),
        n <= 8,
    ensures
        r == from_le(b@.subrange(at as int, at + n)),
{
    assert(at + n <= b.len());
    let part = slice_subrange(b, at, at + n);
    assert(part@.take(n as int) =~= b@.subrange(at as int, at + n));
    get_le(part, n)
}

fn u32_at(b: &[u8], at: usize) -> (r: u32)
    requires
        at + 4 <= b@.len(),
    ensures
        r == from_le(b@.subrange(at as int, at + 4)),
{
    proof {
        le_of_from_le(b@.subrange(at as int, at + 4));
        bounds();
    }
    le_at(b, at, 4) as u32
}

fn u16_at(b: &[u8], at: usize) -> (r: u16)
    requires
        at + 2 <= b@.len(),
    ensures
        r == from_le(b@.subrange(at as int, at + 2)),
{
    proof {
        le_of_from_le(b@.subrange(at as int, at + 2));
        bounds();
    }
    le_at(b, at, 2) as u16
}

fn i32_at(b: &[u8], at: usize) -> (r: i32)
    requires
        at + 4 <= b@.len(),
    ensures
        r == signed(from_le(b@.subrange(at as int, at + 4))),
{
    to_signed(u32_at(b, at))
}

/// The signed number with the same bits.
pub fn to_signed(v: u32) -> (r: i32)
    ensures
        r == signed(v as nat),
{
    if v < 0x8000_0000 {
        v as i32
    } else {
        (v as i64 - 0x1_0000_0000) as i32
    }
}

/// The bytes of a message that are still to be read.
struct Reader<'a> {
    buf: &'a [u8],
    pos: usize,
}

impl<'a> Reader<'a> {
    spec fn wf(&self) -> bool {
        self.pos <= self.buf@.len()
    }

    spec fn rest(&self) -> Seq<u8> {
        self.buf@.skip(self.pos as int)
    }

    fn new(buf: &'a [u8]) -> (r: Self)
        ensures
            r.wf(),
            r.rest() == buf@,
    {
        let r = Reader { buf, pos: 0 };
        assert(r.rest() =~= buf@);
        r
    }

    fn is_empty(&self) -> (r: bool)
        requires
            self.wf(),
        ensures
            r == (self.rest().len() == 0),
    {
        self.pos >= self.buf.len()
    }

    fn take(&mut self, n: usize) -> (r: Result<&'a [u8], ProtocolError>)
        requires
            old(self).wf(),
        ensures
            final(self).wf(),
            match read_take(old(self).rest(), n as nat) {
                Ok((b, rest)) => r matches Ok(v) && v@ == b && final(self).rest() == rest,
                Err(e) => r == Err::<&'a [u8], ProtocolError>(e),
            },
    {
        if n > self.buf.len() - self.pos {
            return Err(ProtocolError::Truncated);
        }
        let end: usize = self.pos + n;
        let part = slice_subrange(self.buf, self.pos, end);
        self.pos = end;
        assert(part@ =~= old(self).rest().take(n as int));
        assert(self.rest() =~= old(self).rest().skip(n as int));
        Ok(part)
    }

    fn u8(&mut self) -> (r: Result<u8, ProtocolError>)
        requires
            old(self).wf(),
        ensures
            final(self).wf(),
            match read_le(old(self).rest(), 1) {
                Ok((v, rest)) => {
                    &&& r matches Ok(x) && x == v && x == old(self).rest()[0]
                    &&& final(self).rest() == rest
                },
                Err(e) => r == Err::<u8, ProtocolError>(e),
            },
    {
        let b = self.take(1)?;
        assert(from_le(b@.drop_first()) == 0);
        Ok(b[0])
    }

    fn u16(&mut self) -> (r: Result<u16, ProtocolError>)
        requires
            old(self).wf(),
        ensures
            final(self).wf(),
            match read_le(old(self).rest(), 2) {
                Ok((v, rest)) => r matches Ok(x) && x == v && final(self).rest() == rest,
                Err(e) => r == Err::<u16, ProtocolError>(e),
            },
    {
        let b = self.take(2)?;
        assert(b@.subrange(0, 2) =~= b@);
        Ok(u16_at(b, 0))
    }

    fn u32(&mut self) -> (r: Result<u32, ProtocolError>)
        requires
            old(self).wf(),
        ensures
            final(self).wf(),
            match read_le(old(self).rest(), 4) {
                Ok((v, rest)) => r matches Ok(x) && x == v && final(self).rest() == rest,
                Err(e) => r == Err::<u32, ProtocolError>(e),
            },
    {
        let b = self.take(4)?;
        assert(b@.subrange(0, 4) =~= b@);
        Ok(u32_at(b, 0))
    }

    fn u64(&mut self) -> (r: Result<u64, ProtocolError>)
        requires
            old(self).wf(),
        ensures
            final(self).wf(),
            match read_le(old(self).rest(), 8) {
                Ok((v, rest)) => r matches Ok(x) && x == v && final(self).rest() == rest,
                Err(e) => r == Err::<u64, ProtocolError>(e),
            },
    {
        let b = self.take(8)?;
        assert(b@.subrange(0, 8) =~= b@);
        Ok(le_at(b, 0, 8))
    }

    fn bytes(&mut self) -> (r: Result<&'a [u8], ProtocolError>)
        requires
            old(self).wf(),
        ensures
            final(self).wf(),
            match read_bytes(old(self).rest()) {
                Ok((b, rest)) => r matches Ok(v) && v@ == b && final(self).rest() == rest,
                Err(e) => r == Err::<&'a [u8], ProtocolError>(e),
            },
    {
        let len: u32 = self.u32()?;
        if len as usize > MAX_FRAME_BYTES {
            return Err(ProtocolError::Invalid);
        }
        self.take(len as usize)
    }

    fn str(&mut self) -> (r: Result<String, ProtocolError>)
        requires
            old(self).wf(),
        ensures
            final(self).wf(),
            match read_str(old(self).rest()) {
                Ok((s, rest)) => r matches Ok(v) && v@ == s && final(self).rest() == rest,
                Err(e) => r == Err::<String, ProtocolError>(e),
            },
    {
        let len: u16 = self.u16()?;
        if len as usize > MAX_STRING_BYTES {
            return Err(ProtocolError::Invalid);
        }
        let bytes = self.take(len as usize)?;
        match String::from_utf8(slice_to_vec(bytes)) {
            Ok(text) => Ok(text),
            Err(_) => Err(ProtocolError::Utf8),
        }
    }

    fn pressed(&mut self) -> (r: Result<bool, ProtocolError>)
        requires
            old(self).wf(),
        ensures
            final(self).wf(),
            match read_pressed(old(self).rest()) {
                Ok((v, rest)) => r matches Ok(x) && x == v && final(self).rest() == rest,
                Err(e) => r == Err::<bool, ProtocolError>(e),
            },
    {
        let v: u8 = self.u8()?;
        if v > 1 {
            return Err(ProtocolError::Invalid);
        }
        Ok(v == 1)
    }

    fn display(&mut self) -> (r: Result<DisplayInfo, ProtocolError>)
        requires
            old(self).wf(),
        ensures
            final(self).wf(),
            match read_display(old(self).rest()) {
                Ok((d, rest)) => r matches Ok(v) && v@ == d && final(self).rest() == rest,
                Err(e) => r == Err::<DisplayInfo, ProtocolError>(e),
            },
    {
        reveal(read_display);
        let b = self.take(22)?;
        let name = self.str()?;
        let display = DisplayInfo {
            id: u32_at(b, 0),
            x: i32_at(b, 4),
            y: i32_at(b, 8),
            width: u32_at(b, 12),
            height: u32_at(b, 16),
            scale_percent: u16_at(b, 20),
            name,
        };
        if display.width == 0 || display.height == 0 || display.scale_percent == 0 {
            return Err(ProtocolError::Invalid);
        }
        Ok(display)
    }

    fn displays(&mut self, count: usize) -> (r: Result<Vec<DisplayInfo>, ProtocolError>)
        requires
            old(self).wf(),
        ensures
            final(self).wf(),
            match read_displays(old(self).rest(), count as nat) {
                Ok((d, rest)) => r matches Ok(v) && display_views(v@) == d && final(self).rest()
                    == rest,
                Err(e) => r == Err::<Vec<DisplayInfo>, ProtocolError>(e),
            },
    {
        let mut displays: Vec<DisplayInfo> = Vec::new();
        assert(display_views(displays@) =~= Seq::<DisplayView>::empty());
        let ghost whole = read_displays(self.rest(), count as nat);
        proof {
            if let Ok((d, _)) = whole {
                assert(Seq::<DisplayView>::empty() + d =~= d);
            }
        }
        for i in 0..count
            invariant
                self.wf(),
                whole == (match read_displays(self.rest(), (count - i) as nat) {
                    Ok((more, rest)) => Ok((display_views(displays@) + more, rest)),
                    Err(e) => Err(e),
                }),
                whole == read_displays(old(self).rest(), count as nat),
        {
            let ghost before = displays@;
            let ghost here = self.rest();
            let display = self.display()?;
            displays.push(display);
            proof {
                assert(display_views(displays@) =~= display_views(before).push(display@));
                if let Ok((more, rest)) = read_displays(self.rest(), (count - i - 1) as nat) {
                    assert(display_views(before) + (seq![display@] + more) =~= display_views(
                        displays@,
                    ) + more);
                }
            }
        }
        assert(display_views(displays@) + Seq::<DisplayView>::empty() =~= display_views(displays@));
        Ok(displays)
    }

    fn input(&mut self) -> (r: Result<InputEvent, ProtocolError>)
        requires
            old(self).wf(),
        ensures
            final(self).wf(),
            match read_input(old(self).rest()) {
                Ok((e, rest)) => r matches Ok(v) && v == e && final(self).rest() == rest,
                Err(e) => r == Err::<InputEvent, ProtocolError>(e),
            },
    {
        let kind: u8 = self.u8()?;
        if kind == I_MOVE {
            let b = self.take(12)?;
            Ok(InputEvent::MouseMove { display_id: u32_at(b, 0), x: u32_at(b, 4), y: u32_at(b, 8) })
        } else if kind == I_BUTTON {
            let b = self.take(5)?;
            let pressed = self.pressed()?;
            Ok(InputEvent::MouseButton { display_id: u32_at(b, 0), button: b[4], pressed })
        } else if kind == I_WHEEL {
            let b = self.take(12)?;
            Ok(
                InputEvent::MouseWheel {
                    display_id: u32_at(b, 0),
                    dx: i32_at(b, 4),
                    dy: i32_at(b, 8),
                },
            )
        } else if kind == I_KEY {
            let b = self.take(2)?;
            let pressed = self.pressed()?;
            assert(b@.subrange(0, 2) =~= b@);
            Ok(InputEvent::Key { code: u16_at(b, 0), pressed })
        } else {
            Err(ProtocolError::Invalid)
        }
    }

    /// What follows a type byte.
    fn body(&mut self, kind: u8) -> (r: Result<Message, ProtocolError>)
        requires
            old(self).wf(),
        ensures
            final(self).wf(),
            match read_body(kind, old(self).rest()) {
                Ok((m, rest)) => r matches Ok(v) && v@ == m && final(self).rest() == rest,
                Err(e) => r == Err::<Message, ProtocolError>(e),
            },
    {
        if kind == T_HELLO {
            let version: u16 = self.u16()?;
            let name = self.str()?;
            Ok(Message::Hello { version, name })
        } else if kind == T_HELLO_ACK {
            let version: u16 = self.u16()?;
            Ok(Message::HelloAck { version })
        } else if kind == T_DISPLAYS {
            let count: u16 = self.u16()?;
            if count as usize > MAX_DISPLAYS {
                return Err(ProtocolError::Invalid);
            }
            let displays = self.displays(count as usize)?;
            Ok(Message::Displays { displays })
        } else if kind == T_VIDEO {
            let b = self.take(9)?;
            let data = self.bytes()?;
            Ok(
                Message::Video {
                    display_id: u32_at(b, 0),
                    pts_ms: u32_at(b, 4),
                    keyframe: b[8] % 2 == 1,
                    data: slice_to_vec(data),
                },
            )
        } else if kind == T_INPUT {
            let event = self.input()?;
            Ok(Message::Input(event))
        } else if kind == T_FILE_OFFER {
            let b = self.take(12)?;
            let name = self.str()?;
            Ok(Message::FileOffer { id: u32_at(b, 0), name, size: le_at(b, 4, 8) })
        } else if kind == T_FILE_ACCEPT {
            let id: u32 = self.u32()?;
            Ok(Message::FileAccept { id })
        } else if kind == T_FILE_CHUNK {
            let b = self.take(12)?;
            let data = self.bytes()?;
            Ok(
                Message::FileChunk {
                    id: u32_at(b, 0),
                    offset: le_at(b, 4, 8),
                    data: slice_to_vec(data),
                },
            )
        } else if kind == T_FILE_ACK {
            let b = self.take(12)?;
            Ok(Message::FileAck { id: u32_at(b, 0), offset: le_at(b, 4, 8) })
        } else if kind == T_FILE_COMPLETE {
            let b = self.take(36)?;
            let sha256 = digest_of(slice_subrange(b, 4, 36));
            Ok(Message::FileComplete { id: u32_at(b, 0), sha256 })
        } else if kind == T_FILE_CANCEL {
            let id: u32 = self.u32()?;
            let reason = self.str()?;
            Ok(Message::FileCancel { id, reason })
        } else if kind == T_PING {
            let nonce: u64 = self.u64()?;
            Ok(Message::Ping { nonce })
        } else if kind == T_PONG {
            let nonce: u64 = self.u64()?;
            Ok(Message::Pong { nonce })
        } else {
            Err(ProtocolError::UnknownType(kind))
        }
    }
}

/// Thirty-two bytes as an array.
pub fn digest_of(b: &[u8]) -> (r: [u8; 32])
    requires
        b@.len() == 32,
    ensures
        r@ == b@,
{
    let mut out: [u8; 32] = [0u8;32];
    for i in 0..32
        invariant
            b@.len() == 32,
            forall|j: int| 0 <= j < i ==> out@[j] == b@[j],
    {
        out[i] = b[i];
    }
    assert(out@ =~= b@);
    out
}

impl Message {
    /// The message that the bytes are: see [`parse`].
    pub fn decode(buf: &[u8]) -> (r: Result<Message, ProtocolError>)
        ensures
            match parse(buf@) {
                Ok(m) => r matches Ok(v) && v@ == m,
                Err(e) => r == Err::<Message, ProtocolError>(e),
            },
    {
        let mut r = Reader::new(buf);
        let kind: u8 = r.u8()?;
        let msg = r.body(kind)?;
        if !r.is_empty() {
            return Err(ProtocolError::Invalid);
        }
        Ok(msg)
    }
}

// ---------------------------------------------------------------------------
// Laws
// ---------------------------------------------------------------------------

/// A display with the characters of its name that go on the wire.
pub open spec fn settled_display(d: DisplayView) -> DisplayView {
    DisplayView { name: carried(d.name), ..d }
}

pub open spec fn settled_displays(s: Seq<DisplayView>) -> Seq<DisplayView> {
    s.map_values(|d: DisplayView| settled_display(d))
}

/// A message with the characters of its strings that go on the wire.
pub open spec fn settled(m: MessageView) -> MessageView {
    match m {
        MessageView::Hello { version, name } => MessageView::Hello { version, name: carried(name) },
        MessageView::Displays { displays } => MessageView::Displays {
            displays: settled_displays(displays),
        },
        MessageView::FileOffer { id, name, size } => MessageView::FileOffer {
            id,
            name: carried(name),
            size,
        },
        MessageView::FileCancel { id, reason } => MessageView::FileCancel {
            id,
            reason: carried(reason),
        },
        _ => m,
    }
}

pub open spec fn sendable_display(d: DisplayView) -> bool {
    d.width != 0 && d.height != 0 && d.scale_percent != 0
}

/// The messages that a peer accepts: at most [`MAX_DISPLAYS`] displays, none of
/// them empty, at most [`MAX_FRAME_BYTES`] of data, and a digest of 32 bytes.
pub open spec fn sendable(m: MessageView) -> bool {
    match m {
        MessageView::Displays { displays } => {
            &&& displays.len() <= MAX_DISPLAYS
            &&& forall|i: int|
                0 <= i < displays.len() ==> sendable_display(#[trigger] displays[i])
        },
        MessageView::Video { data, .. } => data.len() <= MAX_FRAME_BYTES,
        MessageView::FileChunk { data, .. } => data.len() <= MAX_FRAME_BYTES,
        MessageView::FileComplete { sha256, .. } => sha256.len() == 32,
        _ => true,
    }
}

/// A string of at most `room` bytes is not cut.
pub proof fn cut_keeps(s: Seq<char>, room: nat)
    requires
        encode_utf8(s).len() <= room,
    ensures
        cut(s, room) == s,
    decreases s.len(),
{
    if s.len() > 0 {
        let w = encode_scalar(s[0] as u32).len();
        cut_keeps(s.drop_first(), (room - w) as nat);
        assert(seq![s[0]] + s.drop_first() =~= s);
    } else {
        assert(cut(s, room) =~= s);
    }
}

/// What is left of a string fits, and is the front of it.
pub proof fn cut_fits(s: Seq<char>, room: nat)
    ensures
        encode_utf8(cut(s, room)).len() <= room,
        cut(s, room).is_prefix_of(s),
    decreases s.len(),
{
    if s.len() > 0 && encode_scalar(s[0] as u32).len() <= room {
        let w = encode_scalar(s[0] as u32).len();
        let tail = cut(s.drop_first(), (room - w) as nat);
        cut_fits(s.drop_first(), (room - w) as nat);
        assert((seq![s[0]] + tail).drop_first() =~= tail);
        assert(s.subrange(0, 1 + tail.len() as int) =~= seq![s[0]] + s.drop_first().subrange(
            0,
            tail.len() as int,
        ));
    } else {
        assert(s.subrange(0, 0) =~= Seq::<char>::empty());
    }
}

proof fn read_le_of_le(v: nat, n: nat, rest: Seq<u8>)
    requires
        v < crate::bytes::bound(n),
    ensures
        read_le(le(v, n) + rest, n) == Ok::<_, ProtocolError>((v, rest)),
        le(v, n).len() == n,
{
    from_le_of_le(v, n);
    assert((le(v, n) + rest).take(n as int) =~= le(v, n));
    assert((le(v, n) + rest).skip(n as int) =~= rest);
}

proof fn read_str_of_wire(s: Seq<char>, rest: Seq<u8>)
    ensures
        read_str(wire_str(s) + rest) == Ok::<_, ProtocolError>((carried(s), rest)),
{
    broadcast use {encode_utf8_valid_utf8, encode_utf8_decode_utf8};

    let b = encode_utf8(carried(s));
    bounds();
    cut_fits(s, MAX_STRING_BYTES as nat);
    read_le_of_le(b.len(), 2, b + rest);
    assert(wire_str(s) + rest =~= le(b.len(), 2) + (b + rest));
    assert((b + rest).take(b.len() as int) =~= b);
    assert((b + rest).skip(b.len() as int) =~= rest);
    assert(decode_utf8(encode_utf8(carried(s))) == carried(s));
}

proof fn read_bytes_of_wire(data: Seq<u8>, rest: Seq<u8>)
    requires
        data.len() <= MAX_FRAME_BYTES,
    ensures
        read_bytes(wire_bytes(data) + rest) == Ok::<_, ProtocolError>((data, rest)),
{
    bounds();
    read_le_of_le(data.len(), 4, data + rest);
    assert(wire_bytes(data) + rest =~= le(data.len(), 4) + (data + rest));
    assert((data + rest).take(data.len() as int) =~= data);
    assert((data + rest).skip(data.len() as int) =~= rest);
}

proof fn regroup(a: Seq<u8>, b: Seq<u8>, c: Seq<u8>)
    ensures
        a + b + c == a + (b + c),
{
    assert(a + b + c =~= a + (b + c));
}

proof fn read_display_of_wire(d: DisplayView, rest: Seq<u8>)
    requires
        sendable_display(d),
    ensures
        read_display(wire_display(d) + rest) == Ok::<_, ProtocolError>((settled_display(d), rest)),
{
    reveal(read_display);
    reveal(wire_display);
    bounds();
    let a = le(d.id as nat, 4);
    let x = le(unsigned(d.x), 4);
    let y = le(unsigned(d.y), 4);
    let w = le(d.width as nat, 4);
    let h = le(d.height as nat, 4);
    let p = le(d.scale_percent as nat, 2);
    from_le_of_le(d.id as nat, 4);
    from_le_of_le(unsigned(d.x), 4);
    from_le_of_le(unsigned(d.y), 4);
    from_le_of_le(d.width as nat, 4);
    from_le_of_le(d.height as nat, 4);
    from_le_of_le(d.scale_percent as nat, 2);
    let head = a + x + y + w + h + p;
    let all = wire_display(d) + rest;
    assert(all =~= head + (wire_str(d.name) + rest));
    assert(all.take(22) =~= head);
    assert(all.skip(22) =~= wire_str(d.name) + rest);
    assert(head.subrange(0, 4) =~= a);
    assert(head.subrange(4, 8) =~= x);
    assert(head.subrange(8, 12) =~= y);
    assert(head.subrange(12, 16) =~= w);
    assert(head.subrange(16, 20) =~= h);
    assert(head.subrange(20, 22) =~= p);
    read_str_of_wire(d.name, rest);
}

proof fn read_displays_of_wire(s: Seq<DisplayView>, rest: Seq<u8>)
    requires
        forall|i: int| 0 <= i < s.len() ==> sendable_display(#[trigger] s[i]),
    ensures
        read_displays(wire_displays(s) + rest, s.len()) == Ok::<_, ProtocolError>(
            (settled_displays(s), rest),
        ),
    decreases s.len(),
{
    if s.len() == 0 {
        assert(wire_displays(s) + rest =~= rest);
        assert(settled_displays(s) =~= Seq::<DisplayView>::empty());
    } else {
        let tail = s.drop_first();
        regroup(wire_display(s[0]), wire_displays(tail), rest);
        read_display_of_wire(s[0], wire_displays(tail) + rest);
        assert forall|i: int| 0 <= i < tail.len() implies sendable_display(#[trigger] tail[i]) by {
            assert(tail[i] == s[i + 1]);
        }
        read_displays_of_wire(tail, rest);
        assert(seq![settled_display(s[0])] + settled_displays(tail) =~= settled_displays(s));
    }
}

proof fn read_flag(b: bool, rest: Seq<u8>)
    ensures
        read_pressed(seq![flag(b)] + rest) == Ok::<_, ProtocolError>((b, rest)),
{
    let s = seq![flag(b)] + rest;
    assert(s.take(1) =~= seq![flag(b)]);
    assert(s.skip(1) =~= rest);
    assert(from_le(s.take(1).drop_first()) == 0);
}

proof fn read_byte(v: u8, rest: Seq<u8>)
    ensures
        read_le(seq![v] + rest, 1) == Ok::<_, ProtocolError>((v as nat, rest)),
{
    let s = seq![v] + rest;
    assert(s.take(1) =~= seq![v]);
    assert(s.skip(1) =~= rest);
    assert(from_le(s.take(1).drop_first()) == 0);
}

proof fn read_input_of_wire(e: InputEvent, rest: Seq<u8>)
    ensures
        read_input(wire_input(e) + rest) == Ok::<_, ProtocolError>((e, rest)),
{
    bounds();
    let all = wire_input(e) + rest;
    match e {
        InputEvent::MouseMove { display_id, x, y } => {
            from_le_of_le(display_id as nat, 4);
            from_le_of_le(x as nat, 4);
            from_le_of_le(y as nat, 4);
            let head = le(display_id as nat, 4) + le(x as nat, 4) + le(y as nat, 4);
            assert(all =~= seq![I_MOVE] + (head + rest));
            read_byte(I_MOVE, head + rest);
            assert((head + rest).take(12) =~= head);
            assert((head + rest).skip(12) =~= rest);
            assert(head.subrange(0, 4) =~= le(display_id as nat, 4));
            assert(head.subrange(4, 8) =~= le(x as nat, 4));
            assert(head.subrange(8, 12) =~= le(y as nat, 4));
        },
        InputEvent::MouseButton { display_id, button, pressed } => {
            from_le_of_le(display_id as nat, 4);
            let head = le(display_id as nat, 4) + seq![button];
            let more = seq![flag(pressed)] + rest;
            assert(all =~= seq![I_BUTTON] + (head + more));
            read_byte(I_BUTTON, head + more);
            read_flag(pressed, rest);
            assert((head + more).take(5) =~= head);
            assert((head + more).skip(5) =~= more);
            assert(head.subrange(0, 4) =~= le(display_id as nat, 4));
        },
        InputEvent::MouseWheel { display_id, dx, dy } => {
            from_le_of_le(display_id as nat, 4);
            from_le_of_le(unsigned(dx), 4);
            from_le_of_le(unsigned(dy), 4);
            let head = le(display_id as nat, 4) + le(unsigned(dx), 4) + le(unsigned(dy), 4);
            assert(all =~= seq![I_WHEEL] + (head + rest));
            read_byte(I_WHEEL, head + rest);
            assert((head + rest).take(12) =~= head);
            assert((head + rest).skip(12) =~= rest);
            assert(head.subrange(0, 4) =~= le(display_id as nat, 4));
            assert(head.subrange(4, 8) =~= le(unsigned(dx), 4));
            assert(head.subrange(8, 12) =~= le(unsigned(dy), 4));
        },
        InputEvent::Key { code, pressed } => {
            from_le_of_le(code as nat, 2);
            let head = le(code as nat, 2);
            let more = seq![flag(pressed)] + rest;
            assert(all =~= seq![I_KEY] + (head + more));
            read_byte(I_KEY, head + more);
            read_flag(pressed, rest);
            assert((head + more).take(2) =~= head);
            assert((head + more).skip(2) =~= more);
        },
    }
}

proof fn read_two(id: u32, v: u64, rest: Seq<u8>)
    ensures
        read_take(le(id as nat, 4) + le(v as nat, 8) + rest, 12) == Ok::<_, ProtocolError>(
            (le(id as nat, 4) + le(v as nat, 8), rest),
        ),
        from_le((le(id as nat, 4) + le(v as nat, 8)).subrange(0, 4)) == id,
        from_le((le(id as nat, 4) + le(v as nat, 8)).subrange(4, 12)) == v,
{
    bounds();
    from_le_of_le(id as nat, 4);
    from_le_of_le(v as nat, 8);
    let head = le(id as nat, 4) + le(v as nat, 8);
    assert((head + rest).take(12) =~= head);
    assert((head + rest).skip(12) =~= rest);
    assert(head.subrange(0, 4) =~= le(id as nat, 4));
    assert(head.subrange(4, 12) =~= le(v as nat, 8));
}

proof fn read_video_of_wire(m: MessageView, rest: Seq<u8>)
    requires
        m is Video,
        sendable(m),
    ensures
        read_body(kind_of(m), wire_body(m) + rest) == Ok::<_, ProtocolError>((settled(m), rest)),
{
    bounds();
    if let MessageView::Video { display_id, pts_ms, keyframe, data } = m {
        from_le_of_le(display_id as nat, 4);
        from_le_of_le(pts_ms as nat, 4);
        let head = le(display_id as nat, 4) + le(pts_ms as nat, 4) + seq![flag(keyframe)];
        let more = wire_bytes(data) + rest;
        regroup(head, wire_bytes(data), rest);
        assert((head + more).take(9) =~= head);
        assert((head + more).skip(9) =~= more);
        assert(head.subrange(0, 4) =~= le(display_id as nat, 4));
        assert(head.subrange(4, 8) =~= le(pts_ms as nat, 4));
        read_bytes_of_wire(data, rest);
    }
}

proof fn read_complete_of_wire(m: MessageView, rest: Seq<u8>)
    requires
        m is FileComplete,
        sendable(m),
    ensures
        read_body(kind_of(m), wire_body(m) + rest) == Ok::<_, ProtocolError>((settled(m), rest)),
{
    bounds();
    if let MessageView::FileComplete { id, sha256 } = m {
        from_le_of_le(id as nat, 4);
        let head = le(id as nat, 4) + sha256;
        assert((head + rest).take(36) =~= head);
        assert((head + rest).skip(36) =~= rest);
        assert(head.subrange(0, 4) =~= le(id as nat, 4));
        assert(head.subrange(4, 36) =~= sha256);
    }
}

proof fn read_text_of_wire(m: MessageView, rest: Seq<u8>)
    requires
        m is Hello || m is FileOffer || m is FileCancel,
        sendable(m),
    ensures
        read_body(kind_of(m), wire_body(m) + rest) == Ok::<_, ProtocolError>((settled(m), rest)),
{
    bounds();
    match m {
        MessageView::Hello { version, name } => {
            regroup(le(version as nat, 2), wire_str(name), rest);
            read_le_of_le(version as nat, 2, wire_str(name) + rest);
            read_str_of_wire(name, rest);
        },
        MessageView::FileOffer { id, name, size } => {
            regroup(le(id as nat, 4) + le(size as nat, 8), wire_str(name), rest);
            read_two(id, size, wire_str(name) + rest);
            read_str_of_wire(name, rest);
        },
        MessageView::FileCancel { id, reason } => {
            regroup(le(id as nat, 4), wire_str(reason), rest);
            read_le_of_le(id as nat, 4, wire_str(reason) + rest);
            read_str_of_wire(reason, rest);
        },
        _ => {},
    }
}

proof fn read_chunk_of_wire(id: u32, offset: u64, data: Seq<u8>, rest: Seq<u8>)
    requires
        data.len() <= MAX_FRAME_BYTES,
    ensures
        ({
            let m = MessageView::FileChunk { id, offset, data };
            read_body(T_FILE_CHUNK, wire_body(m) + rest) == Ok::<_, ProtocolError>((m, rest))
        }),
{
    regroup(le(id as nat, 4) + le(offset as nat, 8), wire_bytes(data), rest);
    read_two(id, offset, wire_bytes(data) + rest);
    read_bytes_of_wire(data, rest);
}

proof fn read_list(count: nat, list: Seq<u8>, rest: Seq<u8>, out: Seq<DisplayView>)
    requires
        count <= MAX_DISPLAYS,
        read_displays(list + rest, count) == Ok::<_, ProtocolError>((out, rest)),
    ensures
        read_body(T_DISPLAYS, le(count, 2) + list + rest) == Ok::<_, ProtocolError>(
            (MessageView::Displays { displays: out }, rest),
        ),
{
    bounds();
    regroup(le(count, 2), list, rest);
    read_le_of_le(count, 2, list + rest);
}

proof fn read_list_of_wire(displays: Seq<DisplayView>, rest: Seq<u8>)
    requires
        sendable(MessageView::Displays { displays }),
    ensures
        read_body(T_DISPLAYS, wire_body(MessageView::Displays { displays }) + rest) == Ok::<
            _,
            ProtocolError,
        >((MessageView::Displays { displays: settled_displays(displays) }, rest)),
{
    read_displays_of_wire(displays, rest);
    assert(displays.len() % 0x1_0000 == displays.len());
    read_list(displays.len(), wire_displays(displays), rest, settled_displays(displays));
}

proof fn read_plain_of_wire(m: MessageView, rest: Seq<u8>)
    requires
        m is HelloAck || m is Input || m is FileAccept || m is FileAck || m is Ping || m is Pong,
        sendable(m),
    ensures
        read_body(kind_of(m), wire_body(m) + rest) == Ok::<_, ProtocolError>((settled(m), rest)),
{
    bounds();
    match m {
        MessageView::HelloAck { version } => {
            read_le_of_le(version as nat, 2, rest);
        },
        MessageView::Input(event) => {
            read_input_of_wire(event, rest);
        },
        MessageView::FileAccept { id } => {
            read_le_of_le(id as nat, 4, rest);
        },
        MessageView::FileAck { id, offset } => {
            read_two(id, offset, rest);
        },
        MessageView::Ping { nonce } => {
            read_le_of_le(nonce as nat, 8, rest);
        },
        MessageView::Pong { nonce } => {
            read_le_of_le(nonce as nat, 8, rest);
        },
        _ => {},
    }
}

/// The body of a sendable message is read as that message, whatever follows.
proof fn read_body_of_wire(m: MessageView, rest: Seq<u8>)
    requires
        sendable(m),
    ensures
        read_body(kind_of(m), wire_body(m) + rest) == Ok::<_, ProtocolError>((settled(m), rest)),
{
    match m {
        MessageView::Hello { .. } | MessageView::FileOffer { .. } | MessageView::FileCancel {
            ..
        } => read_text_of_wire(m, rest),
        MessageView::Displays { displays } => read_list_of_wire(displays, rest),
        MessageView::FileChunk { id, offset, data } => read_chunk_of_wire(id, offset, data, rest),
        MessageView::Video { .. } => read_video_of_wire(m, rest),
        MessageView::FileComplete { .. } => read_complete_of_wire(m, rest),
        _ => read_plain_of_wire(m, rest),
    }
}

proof fn after_kind(kind: u8, body: Seq<u8>, rest: Seq<u8>)
    ensures
        (seq![kind] + body + rest).len() > 0,
        (seq![kind] + body + rest)[0] == kind,
        (seq![kind] + body + rest).skip(1) == body + rest,
{
    assert((seq![kind] + body + rest).skip(1) =~= body + rest);
}

/// Decoding the encoding of a message gives the message back, with the
/// characters of its strings that go on the wire.
pub proof fn decode_of_encode(m: MessageView)
    requires
        sendable(m),
    ensures
        parse(wire(m)) == Ok::<_, ProtocolError>(settled(m)),
{
    let none = Seq::<u8>::empty();
    read_body_of_wire(m, none);
    after_kind(kind_of(m), wire_body(m), none);
    assert(wire(m) + none =~= wire(m));
}

/// Bytes after the last field of a message make it invalid.
pub proof fn trailing_bytes_are_invalid(m: MessageView, extra: Seq<u8>)
    requires
        sendable(m),
        extra.len() > 0,
    ensures
        parse(wire(m) + extra) == Err::<MessageView, _>(ProtocolError::Invalid),
{
    read_body_of_wire(m, extra);
    after_kind(kind_of(m), wire_body(m), extra);
}

proof fn wire_of_le(s: Seq<u8>, n: nat)
    requires
        read_le(s, n) is Ok,
    ensures
        s == le(read_le(s, n)->Ok_0.0, n) + read_le(s, n)->Ok_0.1,
        read_le(s, n)->Ok_0.0 < crate::bytes::bound(n),
{
    le_of_from_le(s.take(n as int));
    assert(s =~= s.take(n as int) + s.skip(n as int));
}

proof fn wire_of_str(s: Seq<u8>)
    requires
        read_str(s) is Ok,
    ensures
        s == wire_str(read_str(s)->Ok_0.0) + read_str(s)->Ok_0.1,
{
    broadcast use decode_utf8_encode_utf8;

    wire_of_le(s, 2);
    let (len, rest) = read_le(s, 2)->Ok_0;
    let b = rest.take(len as int);
    let t = decode_utf8(b);
    assert(encode_utf8(t) == b);
    cut_keeps(t, MAX_STRING_BYTES as nat);
    assert(rest =~= b + rest.skip(len as int));
    regroup(le(len, 2), b, rest.skip(len as int));
}

proof fn wire_of_bytes(s: Seq<u8>)
    requires
        read_bytes(s) is Ok,
    ensures
        s == wire_bytes(read_bytes(s)->Ok_0.0) + read_bytes(s)->Ok_0.1,
{
    wire_of_le(s, 4);
    let (len, rest) = read_le(s, 4)->Ok_0;
    let b = rest.take(len as int);
    assert(rest =~= b + rest.skip(len as int));
    regroup(le(len, 4), b, rest.skip(len as int));
}

proof fn wire_of_field(b: Seq<u8>, at: int, n: nat)
    requires
        0 <= at,
        at + n <= b.len(),
    ensures
        le(from_le(b.subrange(at, at + n)), n) == b.subrange(at, at + n),
        from_le(b.subrange(at, at + n)) < crate::bytes::bound(n),
{
    le_of_from_le(b.subrange(at, at + n));
}

proof fn wire_of_display(s: Seq<u8>)
    requires
        read_display(s) is Ok,
    ensures
        s == wire_display(read_display(s)->Ok_0.0) + read_display(s)->Ok_0.1,
{
    reveal(read_display);
    reveal(wire_display);
    bounds();
    let b = s.take(22);
    let more = s.skip(22);
    let (name, rest) = read_str(more)->Ok_0;
    let d = display_head(b, name);
    wire_of_str(more);
    wire_of_field(b, 0, 4);
    wire_of_field(b, 4, 4);
    wire_of_field(b, 8, 4);
    wire_of_field(b, 12, 4);
    wire_of_field(b, 16, 4);
    wire_of_field(b, 20, 2);
    let head = le(d.id as nat, 4) + le(unsigned(d.x), 4) + le(unsigned(d.y), 4) + le(
        d.width as nat,
        4,
    ) + le(d.height as nat, 4) + le(d.scale_percent as nat, 2);
    assert(head =~= b);
    assert(s =~= b + more);
    regroup(head, wire_str(name), rest);
}

proof fn wire_of_displays(s: Seq<u8>, n: nat)
    requires
        read_displays(s, n) is Ok,
    ensures
        s == wire_displays(read_displays(s, n)->Ok_0.0) + read_displays(s, n)->Ok_0.1,
        read_displays(s, n)->Ok_0.0.len() == n,
    decreases n,
{
    if n == 0 {
        assert(s =~= wire_displays(seq![]) + s);
    } else {
        wire_of_display(s);
        let (d, rest) = read_display(s)->Ok_0;
        wire_of_displays(rest, (n - 1) as nat);
        let (more, last) = read_displays(rest, (n - 1) as nat)->Ok_0;
        assert((seq![d] + more).drop_first() =~= more);
        regroup(wire_display(d), wire_displays(more), last);
    }
}

proof fn wire_of_pressed(s: Seq<u8>)
    requires
        read_pressed(s) is Ok,
    ensures
        s == seq![flag(read_pressed(s)->Ok_0.0)] + read_pressed(s)->Ok_0.1,
{
    assert(from_le(s.take(1).drop_first()) == 0);
    assert(s =~= seq![s[0]] + s.skip(1));
}

proof fn wire_of_input(s: Seq<u8>)
    requires
        read_input(s) is Ok,
    ensures
        s == wire_input(read_input(s)->Ok_0.0) + read_input(s)->Ok_0.1,
{
    bounds();
    assert(from_le(s.take(1).drop_first()) == 0);
    assert(s =~= seq![s[0]] + s.skip(1));
    let t = s.skip(1);
    match read_input(s)->Ok_0.0 {
        InputEvent::MouseMove { .. } | InputEvent::MouseWheel { .. } => {
            let b = t.take(12);
            wire_of_field(b, 0, 4);
            wire_of_field(b, 4, 4);
            wire_of_field(b, 8, 4);
            assert(b =~= b.subrange(0, 4) + b.subrange(4, 8) + b.subrange(8, 12));
            assert(t =~= b + t.skip(12));
        },
        InputEvent::MouseButton { .. } => {
            let b = t.take(5);
            wire_of_field(b, 0, 4);
            assert(b =~= b.subrange(0, 4) + seq![b[4]]);
            assert(t =~= b + t.skip(5));
            wire_of_pressed(t.skip(5));
        },
        InputEvent::Key { .. } => {
            let b = t.take(2);
            wire_of_field(b, 0, 2);
            assert(b =~= b.subrange(0, 2));
            assert(t =~= b + t.skip(2));
            wire_of_pressed(t.skip(2));
        },
    }
    assert(s =~= wire_input(read_input(s)->Ok_0.0) + read_input(s)->Ok_0.1);
}

proof fn wire_of_two(s: Seq<u8>)
    requires
        s.len() >= 12,
    ensures
        s == le(from_le(s.take(12).subrange(0, 4)), 4) + le(from_le(s.take(12).subrange(4, 12)), 8)
            + s.skip(12),
        from_le(s.take(12).subrange(0, 4)) < 0x1_0000_0000,
        from_le(s.take(12).subrange(4, 12)) < 0x1_0000_0000_0000_0000,
{
    bounds();
    let b = s.take(12);
    wire_of_field(b, 0, 4);
    wire_of_field(b, 4, 8);
    assert(s =~= b.subrange(0, 4) + b.subrange(4, 12) + s.skip(12));
}

proof fn wire_of_text(kind: u8, s: Seq<u8>)
    requires
        kind == T_HELLO || kind == T_FILE_OFFER || kind == T_FILE_CANCEL,
        read_body(kind, s) is Ok,
    ensures
        s == wire_body(read_body(kind, s)->Ok_0.0) + read_body(kind, s)->Ok_0.1,
{
    bounds();
    let last = read_body(kind, s)->Ok_0.1;
    if kind == T_HELLO {
        wire_of_le(s, 2);
        let (v, rest) = read_le(s, 2)->Ok_0;
        wire_of_str(rest);
        regroup(le(v, 2), wire_str(read_str(rest)->Ok_0.0), last);
    } else if kind == T_FILE_OFFER {
        wire_of_two(s);
        let rest = s.skip(12);
        wire_of_str(rest);
        let b = s.take(12);
        let head = le(from_le(b.subrange(0, 4)), 4) + le(from_le(b.subrange(4, 12)), 8);
        regroup(head, wire_str(read_str(rest)->Ok_0.0), last);
    } else {
        wire_of_le(s, 4);
        let (v, rest) = read_le(s, 4)->Ok_0;
        wire_of_str(rest);
        regroup(le(v, 4), wire_str(read_str(rest)->Ok_0.0), last);
    }
}

proof fn wire_of_data(kind: u8, s: Seq<u8>)
    requires
        kind == T_VIDEO || kind == T_FILE_CHUNK || kind == T_FILE_COMPLETE,
        kind == T_VIDEO ==> s[8] <= 1,
        read_body(kind, s) is Ok,
    ensures
        s == wire_body(read_body(kind, s)->Ok_0.0) + read_body(kind, s)->Ok_0.1,
{
    bounds();
    let last = read_body(kind, s)->Ok_0.1;
    if kind == T_VIDEO {
        let b = s.take(9);
        let rest = s.skip(9);
        wire_of_bytes(rest);
        wire_of_field(b, 0, 4);
        wire_of_field(b, 4, 4);
        assert(b =~= b.subrange(0, 4) + b.subrange(4, 8) + seq![b[8]]);
        assert(s =~= b + rest);
        regroup(b, wire_bytes(read_bytes(rest)->Ok_0.0), last);
    } else if kind == T_FILE_CHUNK {
        wire_of_two(s);
        let rest = s.skip(12);
        wire_of_bytes(rest);
        let b = s.take(12);
        let head = le(from_le(b.subrange(0, 4)), 4) + le(from_le(b.subrange(4, 12)), 8);
        regroup(head, wire_bytes(read_bytes(rest)->Ok_0.0), last);
    } else {
        let b = s.take(36);
        wire_of_field(b, 0, 4);
        assert(b =~= b.subrange(0, 4) + b.subrange(4, 36));
        assert(s =~= b + s.skip(36));
    }
}

proof fn wire_of_list(s: Seq<u8>)
    requires
        read_body(T_DISPLAYS, s) is Ok,
    ensures
        s == wire_body(read_body(T_DISPLAYS, s)->Ok_0.0) + read_body(T_DISPLAYS, s)->Ok_0.1,
{
    bounds();
    wire_of_le(s, 2);
    let (n, rest) = read_le(s, 2)->Ok_0;
    wire_of_displays(rest, n);
    let (list, last) = read_displays(rest, n)->Ok_0;
    regroup(le(n, 2), wire_displays(list), last);
}

proof fn wire_of_body(kind: u8, s: Seq<u8>)
    requires
        kind == T_VIDEO ==> s[8] <= 1,
        read_body(kind, s) is Ok,
    ensures
        s == wire_body(read_body(kind, s)->Ok_0.0) + read_body(kind, s)->Ok_0.1,
        kind == kind_of(read_body(kind, s)->Ok_0.0),
{
    bounds();
    if kind == T_HELLO || kind == T_FILE_OFFER || kind == T_FILE_CANCEL {
        wire_of_text(kind, s);
    } else if kind == T_VIDEO || kind == T_FILE_CHUNK || kind == T_FILE_COMPLETE {
        wire_of_data(kind, s);
    } else if kind == T_DISPLAYS {
        wire_of_list(s);
    } else if kind == T_INPUT {
        wire_of_input(s);
    } else if kind == T_HELLO_ACK {
        wire_of_le(s, 2);
    } else if kind == T_FILE_ACCEPT {
        wire_of_le(s, 4);
    } else if kind == T_FILE_ACK {
        wire_of_two(s);
    } else {
        wire_of_le(s, 8);
    }
}

/// Encoding what bytes were decoded to gives the bytes back. Only the flag byte
/// of a video message can hold bits that decoding ignores: it is at most 1 here.
pub proof fn encode_of_decode(s: Seq<u8>, m: MessageView)
    requires
        parse(s) == Ok::<_, ProtocolError>(m),
        m is Video ==> s[9] <= 1,
    ensures
        wire(m) == s,
{
    let body = s.skip(1);
    assert(s[0] == T_VIDEO ==> m is Video);
    if s[0] == T_VIDEO {
        assert(body[8] == s[9]);
    }
    wire_of_body(s[0], body);
    let rest = read_body(s[0], body)->Ok_0.1;
    assert(wire_body(m) + rest =~= wire_body(m));
    assert(s =~= seq![s[0]] + body);
}

// ---------------------------------------------------------------------------
// Where a message ends
// ---------------------------------------------------------------------------

/// Whether one of two byte strings is the start of the other.
spec fn share_start(s: Seq<u8>, t: Seq<u8>) -> bool {
    forall|i: int| 0 <= i < s.len() && i < t.len() ==> #[trigger] s[i] == #[trigger] t[i]
}

/// What is read from `s` is a number of its bytes, and the same is read from `t`
/// where that has as many; where it has fewer, it is truncated.
spec fn reads_alike<T>(
    s: Seq<u8>,
    t: Seq<u8>,
    of_s: Result<(T, Seq<u8>), ProtocolError>,
    of_t: Result<(T, Seq<u8>), ProtocolError>,
) -> bool {
    of_s matches Ok((v, rest)) ==> {
        let n = s.len() - rest.len();
        &&& 0 <= n
        &&& rest == s.skip(n)
        &&& of_t == if t.len() < n {
            Err::<(T, Seq<u8>), ProtocolError>(ProtocolError::Truncated)
        } else {
            Ok((v, t.skip(n)))
        }
    }
}

/// The same holds of what is read after the first `n` bytes.
proof fn alike_after(s: Seq<u8>, t: Seq<u8>, n: int)
    requires
        share_start(s, t),
        0 <= n <= s.len(),
        n <= t.len(),
    ensures
        share_start(s.skip(n), t.skip(n)),
        forall|m: int|
            0 <= m <= s.len() - n ==> #[trigger] s.skip(n).skip(m) == s.skip(n + m),
        forall|m: int|
            0 <= m <= t.len() - n ==> #[trigger] t.skip(n).skip(m) == t.skip(n + m),
{
    assert forall|m: int| 0 <= m <= s.len() - n implies #[trigger] s.skip(n).skip(m) == s.skip(
        n + m,
    ) by {
        assert(s.skip(n).skip(m) =~= s.skip(n + m));
    }
    assert forall|m: int| 0 <= m <= t.len() - n implies #[trigger] t.skip(n).skip(m) == t.skip(
        n + m,
    ) by {
        assert(t.skip(n).skip(m) =~= t.skip(n + m));
    }
}

proof fn take_reads_alike(s: Seq<u8>, t: Seq<u8>, n: nat)
    requires
        share_start(s, t),
    ensures
        reads_alike(s, t, read_take(s, n), read_take(t, n)),
        reads_alike(s, t, read_le(s, n), read_le(t, n)),
{
    if n <= s.len() && n <= t.len() {
        assert(s.take(n as int) =~= t.take(n as int));
    }
}

proof fn bytes_read_alike(s: Seq<u8>, t: Seq<u8>)
    requires
        share_start(s, t),
    ensures
        reads_alike(s, t, read_bytes(s), read_bytes(t)),
{
    take_reads_alike(s, t, 4);
    if read_bytes(s) is Ok && t.len() >= 4 {
        alike_after(s, t, 4);
        take_reads_alike(s.skip(4), t.skip(4), from_le(s.take(4)));
    }
    if read_bytes(s) is Ok {
        let n = from_le(s.take(4)) as int;
        assert(s.skip(4).skip(n) =~= s.skip(4 + n));
    }
}

proof fn str_reads_alike(s: Seq<u8>, t: Seq<u8>)
    requires
        share_start(s, t),
    ensures
        reads_alike(s, t, read_str(s), read_str(t)),
{
    take_reads_alike(s, t, 2);
    if read_str(s) is Ok && t.len() >= 2 {
        alike_after(s, t, 2);
        take_reads_alike(s.skip(2), t.skip(2), from_le(s.take(2)));
    }
    if read_str(s) is Ok {
        let n = from_le(s.take(2)) as int;
        assert(s.skip(2).skip(n) =~= s.skip(2 + n));
    }
}

/// A string behind the first `n` bytes.
proof fn str_after_reads_alike(s: Seq<u8>, t: Seq<u8>, n: int)
    requires
        share_start(s, t),
        0 <= n <= s.len(),
        read_str(s.skip(n)) is Ok,
    ensures
        ({
            let (text, rest) = read_str(s.skip(n))->Ok_0;
            let m = s.len() - rest.len();
            &&& n <= m
            &&& rest == s.skip(m)
            &&& n <= t.len() < m ==> read_str(t.skip(n)) == Err::<(Seq<char>, Seq<u8>), _>(
                ProtocolError::Truncated,
            )
            &&& m <= t.len() ==> read_str(t.skip(n)) == Ok::<_, ProtocolError>((text, t.skip(m)))
        }),
{
    str_reads_alike(s.skip(n), s.skip(n));
    alike_after(s, s, n);
    if n <= t.len() {
        alike_after(s, t, n);
        str_reads_alike(s.skip(n), t.skip(n));
    }
}

/// Bytes behind the first `n` bytes.
proof fn bytes_after_read_alike(s: Seq<u8>, t: Seq<u8>, n: int)
    requires
        share_start(s, t),
        0 <= n <= s.len(),
        read_bytes(s.skip(n)) is Ok,
    ensures
        ({
            let (data, rest) = read_bytes(s.skip(n))->Ok_0;
            let m = s.len() - rest.len();
            &&& n <= m
            &&& rest == s.skip(m)
            &&& n <= t.len() < m ==> read_bytes(t.skip(n)) == Err::<(Seq<u8>, Seq<u8>), _>(
                ProtocolError::Truncated,
            )
            &&& m <= t.len() ==> read_bytes(t.skip(n)) == Ok::<_, ProtocolError>((data, t.skip(m)))
        }),
{
    bytes_read_alike(s.skip(n), s.skip(n));
    alike_after(s, s, n);
    if n <= t.len() {
        alike_after(s, t, n);
        bytes_read_alike(s.skip(n), t.skip(n));
    }
}

proof fn display_reads_alike(s: Seq<u8>, t: Seq<u8>)
    requires
        share_start(s, t),
    ensures
        reads_alike(s, t, read_display(s), read_display(t)),
{
    reveal(read_display);
    take_reads_alike(s, t, 22);
    if read_display(s) is Ok {
        str_after_reads_alike(s, t, 22);
    }
}

proof fn displays_read_alike(s: Seq<u8>, t: Seq<u8>, n: nat)
    requires
        share_start(s, t),
    ensures
        reads_alike(s, t, read_displays(s, n), read_displays(t, n)),
    decreases n,
{
    if n == 0 {
        assert(s.skip(0) =~= s);
        assert(t.skip(0) =~= t);
    } else if read_displays(s, n) is Ok {
        display_reads_alike(s, t);
        let rest = read_display(s)->Ok_0.1;
        let a = s.len() - rest.len();
        alike_after(s, s, a);
        displays_read_alike(rest, rest, (n - 1) as nat);
        if a <= t.len() {
            alike_after(s, t, a);
            displays_read_alike(rest, t.skip(a), (n - 1) as nat);
        }
    }
}

proof fn input_reads_alike(s: Seq<u8>, t: Seq<u8>)
    requires
        share_start(s, t),
    ensures
        reads_alike(s, t, read_input(s), read_input(t)),
{
    take_reads_alike(s, t, 1);
    if read_input(s) is Ok {
        alike_after(s, s, 1);
        let kind = from_le(s.take(1));
        let n: nat = if kind == I_BUTTON {
            5
        } else if kind == I_KEY {
            2
        } else {
            12
        };
        take_reads_alike(s.skip(1), s.skip(1), n);
        alike_after(s.skip(1), s.skip(1), n as int);
        if t.len() >= 1 {
            alike_after(s, t, 1);
            take_reads_alike(s.skip(1), t.skip(1), n);
            if t.len() >= 1 + n {
                alike_after(s.skip(1), t.skip(1), n as int);
                take_reads_alike(s.skip(1).skip(n as int), t.skip(1).skip(n as int), 1);
                alike_after(s, t, 1 + n as int);
            }
        }
    }
}

proof fn text_body_reads_alike(kind: u8, s: Seq<u8>, t: Seq<u8>)
    requires
        share_start(s, t),
        kind == T_HELLO || kind == T_FILE_OFFER || kind == T_FILE_CANCEL,
    ensures
        reads_alike(s, t, read_body(kind, s), read_body(kind, t)),
{
    let n: nat = if kind == T_HELLO {
        2
    } else if kind == T_FILE_OFFER {
        12
    } else {
        4
    };
    take_reads_alike(s, t, n);
    if read_body(kind, s) is Ok {
        str_after_reads_alike(s, t, n as int);
    }
}

proof fn data_body_reads_alike(kind: u8, s: Seq<u8>, t: Seq<u8>)
    requires
        share_start(s, t),
        kind == T_VIDEO || kind == T_FILE_CHUNK,
    ensures
        reads_alike(s, t, read_body(kind, s), read_body(kind, t)),
{
    let n: nat = if kind == T_VIDEO {
        9
    } else {
        12
    };
    take_reads_alike(s, t, n);
    if read_body(kind, s) is Ok {
        bytes_after_read_alike(s, t, n as int);
    }
}

proof fn list_body_reads_alike(s: Seq<u8>, t: Seq<u8>)
    requires
        share_start(s, t),
    ensures
        reads_alike(s, t, read_body(T_DISPLAYS, s), read_body(T_DISPLAYS, t)),
{
    take_reads_alike(s, t, 2);
    if read_body(T_DISPLAYS, s) is Ok {
        let count = from_le(s.take(2));
        alike_after(s, s, 2);
        displays_read_alike(s.skip(2), s.skip(2), count);
        if t.len() >= 2 {
            alike_after(s, t, 2);
            displays_read_alike(s.skip(2), t.skip(2), count);
        }
    }
}

proof fn body_reads_alike(kind: u8, s: Seq<u8>, t: Seq<u8>)
    requires
        share_start(s, t),
    ensures
        reads_alike(s, t, read_body(kind, s), read_body(kind, t)),
{
    if kind == T_HELLO || kind == T_FILE_OFFER || kind == T_FILE_CANCEL {
        text_body_reads_alike(kind, s, t);
    } else if kind == T_VIDEO || kind == T_FILE_CHUNK {
        data_body_reads_alike(kind, s, t);
    } else if kind == T_DISPLAYS {
        list_body_reads_alike(s, t);
    } else if kind == T_INPUT {
        input_reads_alike(s, t);
    } else {
        take_reads_alike(s, t, 2);
        take_reads_alike(s, t, 4);
        take_reads_alike(s, t, 8);
        take_reads_alike(s, t, 12);
        take_reads_alike(s, t, 36);
    }
}

/// A payload that is cut short is truncated, wherever it is cut.
pub proof fn cut_payload_is_truncated(s: Seq<u8>, k: int)
    requires
        parse(s) is Ok,
        0 <= k < s.len(),
    ensures
        parse(s.take(k)) == Err::<MessageView, _>(ProtocolError::Truncated),
{
    if k > 0 {
        assert(s.take(k).skip(1) =~= s.skip(1).take(k - 1));
        body_reads_alike(s[0], s.skip(1), s.take(k).skip(1));
    }
}

/// Bytes after a whole payload make it invalid.
pub proof fn longer_payload_is_invalid(s: Seq<u8>, extra: Seq<u8>)
    requires
        parse(s) is Ok,
        extra.len() > 0,
    ensures
        parse(s + extra) == Err::<MessageView, _>(ProtocolError::Invalid),
{
    assert((s + extra).skip(1) =~= s.skip(1) + extra);
    body_reads_alike(s[0], s.skip(1), s.skip(1) + extra);
}

// ---------------------------------------------------------------------------
// Framing
// ---------------------------------------------------------------------------

/// A payload behind its length.
pub open spec fn framed(body: Seq<u8>) -> Seq<u8> {
    le(body.len(), 4) + body
}

/// A message behind its length.
pub open spec fn frame(m: MessageView) -> Seq<u8> {
    framed(wire(m))
}

/// The payload length in the four bytes before a payload.
pub open spec fn framed_length(prefix: Seq<u8>) -> Result<nat, ProtocolError> {
    let n = from_le(prefix);
    if n == 0 || n > MAX_FRAME_BYTES {
        Err(ProtocolError::BadLength(n as u32))
    } else {
        Ok(n)
    }
}

/// The first message of a stream, and the bytes that it takes. The stream is
/// closed where it ends before the length is complete, and fails where it ends
/// inside the payload.
pub open spec fn first_frame(s: Seq<u8>) -> Result<(MessageView, nat), ProtocolErrorView> {
    if s.len() < 4 {
        Err(ProtocolErrorView::Closed)
    } else {
        match framed_length(s.take(4)) {
            Err(e) => Err(e@),
            Ok(n) => if s.len() < 4 + n {
                Err(ProtocolErrorView::Io("early eof"@))
            } else {
                match parse(s.subrange(4, 4 + n as int)) {
                    Ok(m) => Ok((m, 4 + n)),
                    Err(e) => Err(e@),
                }
            },
        }
    }
}

/// How many bytes follow a length prefix.
pub fn frame_length(prefix: [u8; 4]) -> (r: Result<usize, ProtocolError>)
    ensures
        match framed_length(prefix@) {
            Ok(n) => r matches Ok(v) && v == n,
            Err(e) => r == Err::<usize, ProtocolError>(e),
        },
{
    let bytes = prefix.as_slice();
    assert(bytes@.subrange(0, 4) =~= prefix@);
    let len: u32 = u32_at(bytes, 0);
    if len == 0 || len as usize > MAX_FRAME_BYTES {
        return Err(ProtocolError::BadLength(len));
    }
    Ok(len as usize)
}

/// Reads the first message of a stream, of which `stream` is all that there is.
/// Returns it with the number of bytes that it takes.
pub fn read_message(stream: &[u8]) -> (r: Result<(Message, usize), ProtocolError>)
    ensures
        match first_frame(stream@) {
            Ok((m, n)) => r matches Ok((v, used)) && v@ == m && used == n,
            Err(e) => r matches Err(err) && err@ == e,
        },
{
    if stream.len() < 4 {
        return Err(ProtocolError::Closed);
    }
    let prefix = [stream[0], stream[1], stream[2], stream[3]];
    assert(prefix@ =~= stream@.take(4));
    let len: usize = frame_length(prefix)?;
    if stream.len() - 4 < len {
        return Err(ProtocolError::Io("early eof".to_owned()));
    }
    let msg = Message::decode(slice_subrange(stream, 4, 4 + len))?;
    Ok((msg, 4 + len))
}

/// Adds a message behind its length. A message that is longer than a frame can
/// be is invalid, and nothing is added.
pub fn write_message(out: &mut Vec<u8>, msg: &Message) -> (r: Result<(), ProtocolError>)
    ensures
        wire(msg@).len() <= MAX_FRAME_BYTES ==> r is Ok && final(out)@ == old(out)@ + frame(msg@),
        wire(msg@).len() > MAX_FRAME_BYTES ==> {
            &&& r == Err::<(), _>(ProtocolError::Invalid)
            &&& final(out)@ == old(out)@
        },
{
    let mut body: Vec<u8> = Vec::new();
    msg.encode(&mut body);
    assert(body@ =~= wire(msg@));
    put_frame(out, body.as_slice())
}

/// Adds a payload behind its length. One that is longer than a frame can be is
/// invalid, and nothing is added.
pub(crate) fn put_frame(out: &mut Vec<u8>, body: &[u8]) -> (r: Result<(), ProtocolError>)
    ensures
        body@.len() <= MAX_FRAME_BYTES ==> r is Ok && final(out)@ == old(out)@ + framed(body@),
        body@.len() > MAX_FRAME_BYTES ==> {
            &&& r == Err::<(), _>(ProtocolError::Invalid)
            &&& final(out)@ == old(out)@
        },
{
    if body.len() > MAX_FRAME_BYTES {
        return Err(ProtocolError::Invalid);
    }
    put_u32(out, body.len() as u32);
    put_all(out, body);
    assert(out@ =~= old(out)@ + framed(body@));
    Ok(())
}

/// What is written is what is read, whatever follows on the stream.
pub proof fn read_of_write(m: MessageView, rest: Seq<u8>)
    requires
        sendable(m),
        wire(m).len() <= MAX_FRAME_BYTES,
    ensures
        first_frame(frame(m) + rest) == Ok::<_, ProtocolErrorView>((settled(m), frame(m).len())),
{
    bounds();
    decode_of_encode(m);
    let body = wire(m);
    let s = frame(m) + rest;
    from_le_of_le(body.len(), 4);
    assert(s.take(4) =~= le(body.len(), 4));
    assert(s.subrange(4, 4 + body.len() as int) =~= body);
}

} // verus!
