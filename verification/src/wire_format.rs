//! The messages byte by byte: where each field of a message is on the wire, and how
//! long a message is.

use vstd::prelude::*;
use vstd::utf8::*;

use crate::bytes::{from_le, le, le_len};
use crate::handshake::{auth_wire, AuthView};
use crate::message::{
    carried, cut, cut_fits, first_frame, framed, framed_length, parse, read_display,
    read_displays, read_le, read_str, unsigned, wire, wire_bytes, wire_display, wire_displays,
    wire_input, wire_str, DisplayView, InputEvent, MessageView, ProtocolError, ProtocolErrorView,
};

verus! {

/// The number in two bytes, the lower one first.
pub open spec fn two(s: Seq<u8>, i: int) -> int {
    s[i] + 256 * s[i + 1]
}

/// The number in four bytes, the lowest one first.
pub open spec fn four(s: Seq<u8>, i: int) -> int {
    two(s, i) + 0x1_0000 * two(s, i + 2)
}

/// The number in eight bytes, the lowest one first.
pub open spec fn eight(s: Seq<u8>, i: int) -> int {
    four(s, i) + 0x1_0000_0000 * four(s, i + 4)
}

/// The signed number in four bytes.
pub open spec fn four_signed(s: Seq<u8>, i: int) -> int {
    if four(s, i) < 0x8000_0000 {
        four(s, i)
    } else {
        four(s, i) - 0x1_0000_0000
    }
}

/// Whether the bytes from `i` on are a string and then `rest`: how many bytes it has, in
/// two bytes, and its bytes.
pub open spec fn string_at(s: Seq<u8>, i: int, text: Seq<char>, rest: Seq<u8>) -> bool {
    let bytes = encode_utf8(carried(text));
    &&& bytes.len() <= 4096
    &&& s.len() == i + 2 + bytes.len() + rest.len()
    &&& two(s, i) == bytes.len()
    &&& s.subrange(i + 2, i + 2 + bytes.len()) == bytes
    &&& s.skip(i + 2 + bytes.len()) == rest
}

/// Whether the bytes from `i` to the end are bytes behind how many they are, in four
/// bytes.
pub open spec fn bytes_at(s: Seq<u8>, i: int, data: Seq<u8>) -> bool {
    &&& s.len() == i + 4 + data.len()
    &&& four(s, i) == data.len()
    &&& s.skip(i + 4) == data
}

proof fn two_of_le(v: nat)
    requires
        v < 0x1_0000,
    ensures
        le(v, 2).len() == 2,
        two(le(v, 2), 0) == v,
{
    reveal_with_fuel(le, 3);
    le_len(v, 2);
    assert(le(v, 2)[0] == v % 256);
    assert(le(v, 2)[1] == v / 256 % 256);
}

proof fn four_of_le(v: nat)
    requires
        v < 0x1_0000_0000,
    ensures
        le(v, 4).len() == 4,
        four(le(v, 4), 0) == v,
{
    reveal_with_fuel(le, 5);
    le_len(v, 4);
    assert(le(v, 4)[0] == v % 256);
    assert(le(v, 4)[1] == v / 256 % 256);
    assert(le(v, 4)[2] == v / 256 / 256 % 256);
    assert(le(v, 4)[3] == v / 256 / 256 / 256 % 256);
}

proof fn eight_of_le(v: nat)
    requires
        v < 0x1_0000_0000_0000_0000,
    ensures
        le(v, 8).len() == 8,
        eight(le(v, 8), 0) == v,
{
    reveal_with_fuel(le, 9);
    le_len(v, 8);
    let s = le(v, 8);
    assert(s[0] == v % 256);
    assert(s[1] == v / 256 % 256);
    assert(s[2] == v / 256 / 256 % 256);
    assert(s[3] == v / 256 / 256 / 256 % 256);
    assert(s[4] == v / 256 / 256 / 256 / 256 % 256);
    assert(s[5] == v / 256 / 256 / 256 / 256 / 256 % 256);
    assert(s[6] == v / 256 / 256 / 256 / 256 / 256 / 256 % 256);
    assert(s[7] == v / 256 / 256 / 256 / 256 / 256 / 256 / 256 % 256);
}

proof fn string_is_at(a: Seq<u8>, text: Seq<char>, rest: Seq<u8>)
    ensures
        string_at(a + wire_str(text) + rest, a.len() as int, text, rest),
{
    let bytes = encode_utf8(carried(text));
    cut_fits(text, 4096);
    two_of_le(bytes.len());
    let s = a + wire_str(text) + rest;
    let i = a.len() as int;
    assert(s[i] == le(bytes.len(), 2)[0] && s[i + 1] == le(bytes.len(), 2)[1]);
    assert(s.subrange(i + 2, i + 2 + bytes.len()) =~= bytes);
    assert(s.skip(i + 2 + bytes.len()) =~= rest);
}

proof fn bytes_are_at(a: Seq<u8>, data: Seq<u8>)
    requires
        data.len() < 0x1_0000_0000,
    ensures
        bytes_at(a + wire_bytes(data), a.len() as int, data),
{
    four_of_le(data.len());
    let s = a + wire_bytes(data);
    let i = a.len() as int;
    assert(data.len() % 0x1_0000_0000 == data.len());
    assert forall|k: int| 0 <= k < 4 implies s[i + k] == #[trigger] le(data.len(), 4)[k] by {}
    assert(s[i] == le(data.len(), 4)[0] && s[i + 1] == le(data.len(), 4)[1] && s[i + 2] == le(
        data.len(),
        4,
    )[2] && s[i + 3] == le(data.len(), 4)[3]);
    assert(s.skip(i + 4) =~= data);
}

proof fn four_is_at(a: Seq<u8>, v: nat, rest: Seq<u8>)
    requires
        v < 0x1_0000_0000,
    ensures
        le(v, 4).len() == 4,
        four(a + le(v, 4) + rest, a.len() as int) == v,
{
    four_of_le(v);
    let s = a + le(v, 4) + rest;
    let i = a.len() as int;
    assert(s[i] == le(v, 4)[0] && s[i + 1] == le(v, 4)[1] && s[i + 2] == le(v, 4)[2] && s[i + 3]
        == le(v, 4)[3]);
}

proof fn eight_is_at(a: Seq<u8>, v: nat, rest: Seq<u8>)
    requires
        v < 0x1_0000_0000_0000_0000,
    ensures
        le(v, 8).len() == 8,
        eight(a + le(v, 8) + rest, a.len() as int) == v,
{
    eight_of_le(v);
    let s = a + le(v, 8) + rest;
    let i = a.len() as int;
    assert forall|k: int| 0 <= k < 8 implies s[i + k] == #[trigger] le(v, 8)[k] by {}
    let d = le(v, 8);
    assert(s[i] == d[0] && s[i + 1] == d[1] && s[i + 2] == d[2] && s[i + 3] == d[3]);
    assert(s[i + 4] == d[4] && s[i + 5] == d[5] && s[i + 6] == d[6] && s[i + 7] == d[7]);
}

proof fn two_is_at(a: Seq<u8>, v: nat, rest: Seq<u8>)
    requires
        v < 0x1_0000,
    ensures
        le(v, 2).len() == 2,
        two(a + le(v, 2) + rest, a.len() as int) == v,
{
    two_of_le(v);
    let s = a + le(v, 2) + rest;
    let i = a.len() as int;
    assert(s[i] == le(v, 2)[0] && s[i + 1] == le(v, 2)[1]);
}

/// A greeting: type 1, the version in two bytes, and the name. Its answer: type 2 and the
/// version.
pub proof fn greetings_on_the_wire(version: u16, name: Seq<char>)
    ensures
        ({
            let s = wire(MessageView::Hello { version, name });
            &&& s[0] == 1
            &&& two(s, 1) == version
            &&& string_at(s, 3, name, seq![])
        }),
        ({
            let s = wire(MessageView::HelloAck { version });
            &&& s.len() == 3
            &&& s[0] == 2
            &&& two(s, 1) == version
        }),
{
    let s = wire(MessageView::Hello { version, name });
    let v = le(version as nat, 2);
    two_is_at(seq![1u8], version as nat, wire_str(name));
    assert(s =~= seq![1u8] + v + wire_str(name));
    string_is_at(seq![1u8] + v, name, seq![]);
    assert(s =~= seq![1u8] + v + wire_str(name) + Seq::<u8>::empty());
    two_is_at(seq![2u8], version as nat, seq![]);
    assert(wire(MessageView::HelloAck { version }) =~= seq![2u8] + v + Seq::<u8>::empty());
}

/// A display: its id, where it is across and down, its width and its height, in four
/// bytes each, its scale in two, and its name.
pub proof fn displays_on_the_wire(d: DisplayView, rest: Seq<u8>)
    ensures
        ({
            let s = wire_display(d) + rest;
            &&& four(s, 0) == d.id
            &&& four_signed(s, 4) == d.x
            &&& four_signed(s, 8) == d.y
            &&& four(s, 12) == d.width
            &&& four(s, 16) == d.height
            &&& two(s, 20) == d.scale_percent
            &&& string_at(s, 22, d.name, rest)
        }),
{
    reveal(wire_display);
    let s = wire_display(d) + rest;
    let a = le(d.id as nat, 4);
    let b = le(unsigned(d.x), 4);
    let c = le(unsigned(d.y), 4);
    let e = le(d.width as nat, 4);
    let f = le(d.height as nat, 4);
    let g = le(d.scale_percent as nat, 2);
    let t = wire_str(d.name);
    four_is_at(seq![], d.id as nat, b + c + e + f + g + t + rest);
    assert(s =~= Seq::<u8>::empty() + a + (b + c + e + f + g + t + rest));
    four_is_at(a, unsigned(d.x), c + e + f + g + t + rest);
    assert(s =~= a + b + (c + e + f + g + t + rest));
    four_is_at(a + b, unsigned(d.y), e + f + g + t + rest);
    assert(s =~= a + b + c + (e + f + g + t + rest));
    four_is_at(a + b + c, d.width as nat, f + g + t + rest);
    assert(s =~= a + b + c + e + (f + g + t + rest));
    four_is_at(a + b + c + e, d.height as nat, g + t + rest);
    assert(s =~= a + b + c + e + f + (g + t + rest));
    two_is_at(a + b + c + e + f, d.scale_percent as nat, t + rest);
    assert(s =~= a + b + c + e + f + g + (t + rest));
    string_is_at(a + b + c + e + f + g, d.name, rest);
    assert(s =~= a + b + c + e + f + g + t + rest);
}

/// The list of displays: type 3, how many there are in two bytes, and the displays, one
/// after another.
pub proof fn display_list_on_the_wire(first: DisplayView, more: Seq<DisplayView>)
    requires
        more.len() < 16,
    ensures
        ({
            let s = wire(MessageView::Displays { displays: seq![first] + more });
            &&& s[0] == 3
            &&& two(s, 1) == 1 + more.len()
            &&& s.skip(3) == wire_display(first) + wire_displays(more)
            &&& wire_displays(seq![]).len() == 0
        }),
{
    let all = seq![first] + more;
    let s = wire(MessageView::Displays { displays: all });
    assert(all.drop_first() =~= more);
    assert(all.len() % 0x1_0000 == all.len());
    two_is_at(seq![3u8], all.len(), wire_displays(all));
    assert(s =~= seq![3u8] + le(all.len(), 2) + wire_displays(all));
    assert(s.skip(3) =~= wire_displays(all));
}

/// A picture: type 4, the display and the time in four bytes each, a byte that is 1 for a
/// keyframe and 0 for another, and the data.
pub proof fn video_on_the_wire(display_id: u32, pts_ms: u32, keyframe: bool, data: Seq<u8>)
    requires
        data.len() < 0x1_0000_0000,
    ensures
        ({
            let s = wire(MessageView::Video { display_id, pts_ms, keyframe, data });
            &&& s[0] == 4
            &&& four(s, 1) == display_id
            &&& four(s, 5) == pts_ms
            &&& s[9] == if keyframe {
                1u8
            } else {
                0u8
            }
            &&& bytes_at(s, 10, data)
        }),
{
    let s = wire(MessageView::Video { display_id, pts_ms, keyframe, data });
    let k = seq![crate::message::flag(keyframe)];
    let a = le(display_id as nat, 4);
    let b = le(pts_ms as nat, 4);
    let t = wire_bytes(data);
    four_is_at(seq![4u8], display_id as nat, b + k + t);
    assert(s =~= seq![4u8] + a + (b + k + t));
    four_is_at(seq![4u8] + a, pts_ms as nat, k + t);
    assert(s =~= seq![4u8] + a + b + (k + t));
    bytes_are_at(seq![4u8] + a + b + k, data);
    assert(s =~= seq![4u8] + a + b + k + t);
}

/// Input: type 5 and the kind. A move is kind 1 with the display, across and down in four
/// bytes each; a button is kind 2 with the display, the button and whether it is pressed;
/// the wheel is kind 3 with the display and both turns; a key is kind 4 with its code in
/// two bytes and whether it is pressed.
pub proof fn input_on_the_wire(e: InputEvent)
    ensures
        ({
            let s = wire(MessageView::Input(e));
            &&& s[0] == 5
            &&& match e {
                InputEvent::MouseMove { display_id, x, y } => {
                    &&& s.len() == 14 && s[1] == 1
                    &&& four(s, 2) == display_id && four(s, 6) == x && four(s, 10) == y
                },
                InputEvent::MouseButton { display_id, button, pressed } => {
                    &&& s.len() == 8 && s[1] == 2
                    &&& four(s, 2) == display_id && s[6] == button
                    &&& s[7] == if pressed {
                        1u8
                    } else {
                        0u8
                    }
                },
                InputEvent::MouseWheel { display_id, dx, dy } => {
                    &&& s.len() == 14 && s[1] == 3
                    &&& four(s, 2) == display_id && four_signed(s, 6) == dx && four_signed(s, 10)
                        == dy
                },
                InputEvent::Key { code, pressed } => {
                    &&& s.len() == 5 && s[1] == 4
                    &&& two(s, 2) == code
                    &&& s[4] == if pressed {
                        1u8
                    } else {
                        0u8
                    }
                },
            }
        }),
{
    let s = wire(MessageView::Input(e));
    assert(s =~= seq![5u8] + wire_input(e));
    match e {
        InputEvent::MouseMove { display_id, x, y } => {
            let h = seq![5u8, 1u8];
            let a = le(display_id as nat, 4);
            let b = le(x as nat, 4);
            let c = le(y as nat, 4);
            four_is_at(h, display_id as nat, b + c);
            assert(s =~= h + a + (b + c));
            four_is_at(h + a, x as nat, c);
            assert(s =~= h + a + b + c);
            four_is_at(h + a + b, y as nat, seq![]);
            assert(s =~= h + a + b + c + Seq::<u8>::empty());
        },
        InputEvent::MouseButton { display_id, button, pressed } => {
            let h = seq![5u8, 2u8];
            let a = le(display_id as nat, 4);
            let t = seq![button, crate::message::flag(pressed)];
            four_is_at(h, display_id as nat, t);
            assert(s =~= h + a + t);
        },
        InputEvent::MouseWheel { display_id, dx, dy } => {
            let h = seq![5u8, 3u8];
            let a = le(display_id as nat, 4);
            let b = le(unsigned(dx), 4);
            let c = le(unsigned(dy), 4);
            four_is_at(h, display_id as nat, b + c);
            assert(s =~= h + a + (b + c));
            four_is_at(h + a, unsigned(dx), c);
            assert(s =~= h + a + b + c);
            four_is_at(h + a + b, unsigned(dy), seq![]);
            assert(s =~= h + a + b + c + Seq::<u8>::empty());
        },
        InputEvent::Key { code, pressed } => {
            let h = seq![5u8, 4u8];
            let a = le(code as nat, 2);
            let t = seq![crate::message::flag(pressed)];
            two_is_at(h, code as nat, t);
            assert(s =~= h + a + t);
        },
    }
}

/// The messages about a file: types 6 to 11, with the id in four bytes. An offer goes on
/// with the size in eight bytes and the name, a chunk with its offset in eight bytes and
/// the data, an acknowledgement with its offset, the end with the digest, and a cancel
/// with the reason.
pub proof fn files_on_the_wire(
    id: u32,
    n: u64,
    text: Seq<char>,
    data: Seq<u8>,
)
    requires
        data.len() < 0x1_0000_0000,
    ensures
        ({
            let s = wire(MessageView::FileOffer { id, name: text, size: n });
            s[0] == 6 && four(s, 1) == id && eight(s, 5) == n && string_at(s, 13, text, seq![])
        }),
        ({
            let s = wire(MessageView::FileAccept { id });
            s.len() == 5 && s[0] == 7 && four(s, 1) == id
        }),
        ({
            let s = wire(MessageView::FileChunk { id, offset: n, data });
            s[0] == 8 && four(s, 1) == id && eight(s, 5) == n && bytes_at(s, 13, data)
        }),
        ({
            let s = wire(MessageView::FileAck { id, offset: n });
            s.len() == 13 && s[0] == 9 && four(s, 1) == id && eight(s, 5) == n
        }),
        ({
            let s = wire(MessageView::FileComplete { id, sha256: data });
            s[0] == 10 && four(s, 1) == id && s.skip(5) == data
        }),
        ({
            let s = wire(MessageView::FileCancel { id, reason: text });
            s[0] == 11 && four(s, 1) == id && string_at(s, 5, text, seq![])
        }),
{
    let none = Seq::<u8>::empty();
    let a = le(id as nat, 4);
    let b = le(n as nat, 8);
    let t = wire_str(text);
    let d = wire_bytes(data);
    let s6 = wire(MessageView::FileOffer { id, name: text, size: n });
    four_is_at(seq![6u8], id as nat, b + t);
    assert(s6 =~= seq![6u8] + a + (b + t));
    eight_is_at(seq![6u8] + a, n as nat, t);
    assert(s6 =~= seq![6u8] + a + b + t);
    string_is_at(seq![6u8] + a + b, text, none);
    assert(s6 =~= seq![6u8] + a + b + t + none);
    four_is_at(seq![7u8], id as nat, none);
    assert(wire(MessageView::FileAccept { id }) =~= seq![7u8] + a + none);
    let s8 = wire(MessageView::FileChunk { id, offset: n, data });
    four_is_at(seq![8u8], id as nat, b + d);
    assert(s8 =~= seq![8u8] + a + (b + d));
    eight_is_at(seq![8u8] + a, n as nat, d);
    assert(s8 =~= seq![8u8] + a + b + d);
    bytes_are_at(seq![8u8] + a + b, data);
    let s9 = wire(MessageView::FileAck { id, offset: n });
    four_is_at(seq![9u8], id as nat, b);
    assert(s9 =~= seq![9u8] + a + b);
    eight_is_at(seq![9u8] + a, n as nat, none);
    assert(s9 =~= seq![9u8] + a + b + none);
    let s10 = wire(MessageView::FileComplete { id, sha256: data });
    four_is_at(seq![10u8], id as nat, data);
    assert(s10 =~= seq![10u8] + a + data);
    assert(s10.skip(5) =~= data);
    let s11 = wire(MessageView::FileCancel { id, reason: text });
    four_is_at(seq![11u8], id as nat, t);
    assert(s11 =~= seq![11u8] + a + t);
    string_is_at(seq![11u8] + a, text, none);
    assert(s11 =~= seq![11u8] + a + t + none);
}

/// A ping is type 12 and its answer type 13, both with the nonce in eight bytes.
pub proof fn pings_on_the_wire(nonce: u64)
    ensures
        ({
            let s = wire(MessageView::Ping { nonce });
            s.len() == 9 && s[0] == 12 && eight(s, 1) == nonce
        }),
        ({
            let s = wire(MessageView::Pong { nonce });
            s.len() == 9 && s[0] == 13 && eight(s, 1) == nonce
        }),
{
    let none = Seq::<u8>::empty();
    let a = le(nonce as nat, 8);
    eight_is_at(seq![12u8], nonce as nat, none);
    assert(wire(MessageView::Ping { nonce }) =~= seq![12u8] + a + none);
    eight_is_at(seq![13u8], nonce as nat, none);
    assert(wire(MessageView::Pong { nonce }) =~= seq![13u8] + a + none);
}

/// The messages of the PIN exchange: type 14 with the payload, 15 with the confirmation
/// and 16 with the reason.
pub proof fn exchange_on_the_wire(data: Seq<u8>, text: Seq<char>)
    ensures
        auth_wire(AuthView::Auth(data))[0] == 14 && auth_wire(AuthView::Auth(data)).skip(1) == data,
        auth_wire(AuthView::Confirm(data))[0] == 15 && auth_wire(AuthView::Confirm(data)).skip(1)
            == data,
        auth_wire(AuthView::Denied(text))[0] == 16 && auth_wire(AuthView::Denied(text)).skip(1)
            == encode_utf8(text),
{
    assert(auth_wire(AuthView::Auth(data)).skip(1) =~= data);
    assert(auth_wire(AuthView::Confirm(data)).skip(1) =~= data);
    assert(auth_wire(AuthView::Denied(text)).skip(1) =~= encode_utf8(text));
}

/// A frame is the payload behind its length in four bytes, and lengths from 1 to 8388608
/// are read, and no others.
pub proof fn frames_on_the_wire(body: Seq<u8>, prefix: Seq<u8>)
    requires
        body.len() < 0x1_0000_0000,
        prefix.len() == 4,
    ensures
        framed(body).len() == 4 + body.len(),
        four(framed(body), 0) == body.len(),
        framed(body).skip(4) == body,
        match framed_length(prefix) {
            Ok(n) => n == four(prefix, 0) && 1 <= n <= 8388608,
            Err(e) => e == ProtocolError::BadLength(four(prefix, 0) as u32) && !(1 <= four(prefix, 0)
                <= 8388608),
        },
{
    four_of_le(body.len());
    let s = framed(body);
    let d = le(body.len(), 4);
    assert(s[0] == d[0] && s[1] == d[1] && s[2] == d[2] && s[3] == d[3]);
    assert(s.skip(4) =~= body);
    reveal_with_fuel(crate::bytes::from_le, 6);
    let a = prefix.drop_first();
    let b = a.drop_first();
    let c = b.drop_first();
    assert(a[0] == prefix[1] && b[0] == prefix[2] && c[0] == prefix[3]);
    assert(crate::bytes::from_le(c.drop_first()) == 0);
}

/// A string that is too long is cut at a character: what is carried is its front, and one
/// more character would not fit into 4096 bytes.
pub proof fn carried_is_all_that_fits(s: Seq<char>)
    ensures
        carried(s).is_prefix_of(s),
        encode_utf8(carried(s)).len() <= 4096,
        carried(s).len() < s.len() ==> encode_utf8(s.take(carried(s).len() as int + 1)).len() > 4096,
{
    cut_fits(s, 4096);
    cut_is_all_that_fits(s, 4096);
}

proof fn cut_is_all_that_fits(s: Seq<char>, room: nat)
    ensures
        cut(s, room).len() < s.len() ==> encode_utf8(s.take(cut(s, room).len() as int + 1)).len() > room,
    decreases s.len(),
{
    if s.len() > 0 {
        let w = encode_scalar(s[0] as u32).len();
        if w <= room {
            let rest = s.drop_first();
            let tail = cut(rest, (room - w) as nat);
            cut_is_all_that_fits(rest, (room - w) as nat);
            assert(cut(s, room) == seq![s[0]] + tail);
            if tail.len() < rest.len() {
                let part = s.take(tail.len() as int + 2);
                assert(part.drop_first() =~= rest.take(tail.len() as int + 1));
                assert(part[0] == s[0]);
            }
        } else {
            let part = s.take(1);
            assert(part[0] == s[0]);
            assert(encode_utf8(part).len() >= w);
        }
    }
}

/// Whether a display can be shown: no side and no scale of it is zero.
pub open spec fn can_be_shown(d: DisplayView) -> bool {
    d.width > 0 && d.height > 0 && d.scale_percent > 0
}

proof fn string_read_is_short(s: Seq<u8>)
    ensures
        read_str(s) matches Ok((text, _)) ==> encode_utf8(text).len() <= 4096,
{
    broadcast use decode_utf8_encode_utf8;

}

proof fn displays_read_can_be_shown(s: Seq<u8>, n: nat)
    ensures
        read_displays(s, n) matches Ok((list, _)) ==> {
            &&& list.len() == n
            &&& forall|i: int|
                0 <= i < list.len() ==> can_be_shown(#[trigger] list[i]) && encode_utf8(
                    list[i].name,
                ).len() <= 4096
        },
    decreases n,
{
    if n > 0 {
        reveal(read_display);
        if let Ok((d, rest)) = read_display(s) {
            string_read_is_short(s.skip(22));
            displays_read_can_be_shown(rest, (n - 1) as nat);
        }
    }
}

/// What is accepted is within the limits: at most 16 displays, all of which can be shown,
/// strings of at most 4096 bytes, at most 8388608 bytes of data, and digests of 32 bytes.
/// A picture is a keyframe where the lowest bit of its flags is set, whatever the others
/// are.
pub proof fn accepted_messages_are_within_limits(s: Seq<u8>)
    ensures
        parse(s) matches Ok(m) ==> match m {
            MessageView::Hello { name, .. } => encode_utf8(name).len() <= 4096,
            MessageView::Displays { displays } => {
                &&& displays.len() <= 16
                &&& forall|i: int|
                    0 <= i < displays.len() ==> can_be_shown(#[trigger] displays[i])
                        && encode_utf8(displays[i].name).len() <= 4096
            },
            MessageView::Video { keyframe, data, .. } => {
                &&& keyframe == (s[9] % 2 == 1)
                &&& data.len() <= 8388608
            },
            MessageView::FileOffer { name, .. } => encode_utf8(name).len() <= 4096,
            MessageView::FileChunk { data, .. } => data.len() <= 8388608,
            MessageView::FileComplete { sha256, .. } => sha256.len() == 32,
            MessageView::FileCancel { reason, .. } => encode_utf8(reason).len() <= 4096,
            _ => true,
        },
{
    if parse(s) is Ok {
        let t = s.skip(1);
        let m = parse(s)->Ok_0;
        string_read_is_short(t.skip(2));
        string_read_is_short(t.skip(12));
        string_read_is_short(t.skip(4));
        if let MessageView::Displays { displays } = m {
            displays_read_can_be_shown(t.skip(2), crate::bytes::from_le(t.take(2)));
        }
        if m is Video {
            assert(t.take(9)[8] == s[9]);
        }
    }
}

/// A list of displays that has none but such as can be shown, and 16 at most, is
/// accepted as it was sent.
pub proof fn displays_that_can_be_shown_are_accepted(displays: Seq<DisplayView>)
    requires
        displays.len() <= 16,
        forall|i: int|
            0 <= i < displays.len() ==> can_be_shown(#[trigger] displays[i]) && encode_utf8(
                displays[i].name,
            ).len() <= 4096,
    ensures
        parse(wire(MessageView::Displays { displays })) == Ok::<_, ProtocolError>(
            MessageView::Displays { displays },
        ),
{
    let m = MessageView::Displays { displays };
    assert forall|i: int| 0 <= i < displays.len() implies crate::message::sendable_display(
        #[trigger] displays[i],
    ) by {
        assert(can_be_shown(displays[i]));
    }
    crate::message::decode_of_encode(m);
    let kept = crate::message::settled_displays(displays);
    assert forall|i: int| 0 <= i < displays.len() implies kept[i] == displays[i] by {
        assert(can_be_shown(displays[i]));
        crate::message::cut_keeps(displays[i].name, 4096);
    }
    assert(kept =~= displays);
}

/// A message has one of the types 1 to 13. Of bytes that start with another one, that is
/// what is wrong, and no bytes at all are too few.
pub proof fn types_are_known(s: Seq<u8>)
    ensures
        s.len() == 0 ==> parse(s) == Err::<MessageView, _>(ProtocolError::Truncated),
        s.len() > 0 && !(1 <= s[0] <= 13) ==> parse(s) == Err::<MessageView, _>(
            ProtocolError::UnknownType(s[0]),
        ),
        s.len() > 0 && 1 <= s[0] <= 13 ==> parse(s) != Err::<MessageView, _>(
            ProtocolError::UnknownType(s[0]),
        ),
{
    if s.len() > 0 && 1 <= s[0] <= 13 {
        reveal(read_display);
        if s[0] == 3 {
            if let Ok((count, rest)) = read_le(s.skip(1), 2) {
                displays_have_known_types(rest, count, s[0]);
            }
        }
    }
}

proof fn displays_have_known_types(s: Seq<u8>, n: nat, kind: u8)
    ensures
        read_displays(s, n) matches Err(e) ==> e != ProtocolError::UnknownType(kind),
    decreases n,
{
    reveal(read_display);
    if n > 0 {
        if let Ok((d, rest)) = read_display(s) {
            displays_have_known_types(rest, (n - 1) as nat, kind);
        }
    }
}

/// A stream that ends in the length of its first message is closed, and one that ends in
/// the message itself failed. A length of 0, or of more than 8388608, is none.
pub proof fn streams_that_stop(s: Seq<u8>)
    ensures
        s.len() < 4 ==> first_frame(s) == Err::<(MessageView, nat), _>(ProtocolErrorView::Closed),
        s.len() >= 4 ==> {
            let n = s[0] + 256 * s[1] + 65536 * s[2] + 16777216 * s[3];
            &&& n == 0 || n > 8388608 ==> first_frame(s) == Err::<(MessageView, nat), _>(
                ProtocolErrorView::BadLength(n as u32),
            )
            &&& 0 < n <= 8388608 && s.len() < 4 + n ==> first_frame(s) == Err::<
                (MessageView, nat),
                _,
            >(ProtocolErrorView::Io("early eof"@))
            &&& first_frame(s) matches Ok((m, used)) ==> used == 4 + n && parse(
                s.subrange(4, 4 + n),
            ) == Ok::<_, ProtocolError>(m)
        },
{
    if s.len() >= 4 {
        let b = s.take(4);
        reveal_with_fuel(from_le, 5);
        let c = b.drop_first();
        let d = c.drop_first();
        let e = d.drop_first();
        assert(b.len() == 4 && c.len() == 3 && d.len() == 2 && e.len() == 1);
        assert(c[0] == s[1] && d[0] == s[2] && e[0] == s[3]);
        assert(e.drop_first().len() == 0);
    }
}

} // verus!
