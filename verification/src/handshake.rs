//! The PIN exchange on the wire, and whom the host lets in.
//!
//! The three messages of the exchange are framed as the messages of a session
//! are. They come after `HelloAck` and before `Displays`:
//!
//! | type | name        | body |
//! |------|-------------|------|
//! | 14   | Auth        | the SPAKE2 message |
//! | 15   | AuthConfirm | 32-byte HMAC |
//! | 16   | AuthDenied  | the reason, in UTF-8 |

use vstd::prelude::*;
use vstd::slice::*;
use vstd::string::*;
use vstd::utf8::*;

use crate::auth::{AuthFailure, PinKeys};
use crate::bytes::{bounds, from_le_of_le, le, put_all};
use crate::lockout::{seconds, whole_seconds, Lockout, LockoutView, MAX_LOCK};
use crate::message::{
    digest_of, framed, framed_length, put_frame, ProtocolError, MAX_FRAME_BYTES,
};
use crate::settings::Settings;
use crate::text::{decimal, push_decimal};

verus! {

pub const T_AUTH: u8 = 14;

pub const T_AUTH_CONFIRM: u8 = 15;

pub const T_AUTH_DENIED: u8 = 16;

/// A message of the PIN exchange.
#[derive(Debug, Clone, PartialEq, Eq)]
pub enum AuthMessage {
    Auth(Vec<u8>),
    Confirm([u8; 32]),
    Denied(String),
}

/// An [`AuthMessage`] over sequences.
#[verifier::ext_equal]
pub enum AuthView {
    Auth(Seq<u8>),
    Confirm(Seq<u8>),
    Denied(Seq<char>),
}

impl View for AuthMessage {
    type V = AuthView;

    open spec fn view(&self) -> AuthView {
        match self {
            AuthMessage::Auth(data) => AuthView::Auth(data@),
            AuthMessage::Confirm(tag) => AuthView::Confirm(tag@),
            AuthMessage::Denied(text) => AuthView::Denied(text@),
        }
    }
}

/// The bytes of a message.
pub open spec fn auth_wire(m: AuthView) -> Seq<u8> {
    match m {
        AuthView::Auth(data) => seq![T_AUTH] + data,
        AuthView::Confirm(tag) => seq![T_AUTH_CONFIRM] + tag,
        AuthView::Denied(text) => seq![T_AUTH_DENIED] + encode_utf8(text),
    }
}

/// The message that some bytes are.
pub open spec fn auth_parse(s: Seq<u8>) -> Result<AuthView, ProtocolError> {
    if s.len() == 0 {
        Err(ProtocolError::Truncated)
    } else {
        let body = s.skip(1);
        if s[0] == T_AUTH {
            Ok(AuthView::Auth(body))
        } else if s[0] == T_AUTH_CONFIRM {
            if body.len() < 32 {
                Err(ProtocolError::Truncated)
            } else if body.len() > 32 {
                Err(ProtocolError::Invalid)
            } else {
                Ok(AuthView::Confirm(body))
            }
        } else if s[0] == T_AUTH_DENIED {
            if valid_utf8(body) {
                Ok(AuthView::Denied(decode_utf8(body)))
            } else {
                Err(ProtocolError::Utf8)
            }
        } else {
            Err(ProtocolError::UnknownType(s[0]))
        }
    }
}

impl AuthMessage {
    /// The bytes of the message.
    pub fn encode(&self) -> (r: Vec<u8>)
        ensures
            r@ == auth_wire(self@),
    {
        let mut out: Vec<u8> = Vec::new();
        match self {
            AuthMessage::Auth(data) => {
                out.push(T_AUTH);
                put_all(&mut out, data.as_slice());
            },
            AuthMessage::Confirm(tag) => {
                out.push(T_AUTH_CONFIRM);
                put_all(&mut out, tag.as_slice());
            },
            AuthMessage::Denied(text) => {
                out.push(T_AUTH_DENIED);
                put_all(&mut out, text.as_str().as_bytes());
            },
        }
        assert(out@ =~= auth_wire(self@));
        out
    }

    /// The message that the bytes are.
    pub fn decode(buf: &[u8]) -> (r: Result<AuthMessage, ProtocolError>)
        ensures
            match auth_parse(buf@) {
                Ok(m) => r matches Ok(v) && v@ == m,
                Err(e) => r == Err::<AuthMessage, ProtocolError>(e),
            },
    {
        if buf.len() == 0 {
            return Err(ProtocolError::Truncated);
        }
        let body = slice_subrange(buf, 1, buf.len());
        assert(body@ =~= buf@.skip(1));
        if buf[0] == T_AUTH {
            Ok(AuthMessage::Auth(slice_to_vec(body)))
        } else if buf[0] == T_AUTH_CONFIRM {
            if body.len() < 32 {
                Err(ProtocolError::Truncated)
            } else if body.len() > 32 {
                Err(ProtocolError::Invalid)
            } else {
                Ok(AuthMessage::Confirm(digest_of(body)))
            }
        } else if buf[0] == T_AUTH_DENIED {
            match String::from_utf8(slice_to_vec(body)) {
                Ok(text) => Ok(AuthMessage::Denied(text)),
                Err(_) => Err(ProtocolError::Utf8),
            }
        } else {
            Err(ProtocolError::UnknownType(buf[0]))
        }
    }
}

/// Decoding the encoding of a message gives it back.
pub proof fn auth_decode_of_encode(m: AuthView)
    requires
        m matches AuthView::Confirm(tag) ==> tag.len() == 32,
    ensures
        auth_parse(auth_wire(m)) == Ok::<AuthView, ProtocolError>(m),
{
    broadcast use {encode_utf8_valid_utf8, encode_utf8_decode_utf8};

    match m {
        AuthView::Auth(data) => {
            assert(auth_wire(m).skip(1) =~= data);
        },
        AuthView::Confirm(tag) => {
            assert(auth_wire(m).skip(1) =~= tag);
        },
        AuthView::Denied(text) => {
            assert(auth_wire(m).skip(1) =~= encode_utf8(text));
            assert(decode_utf8(encode_utf8(text)) == text);
        },
    }
}

/// Adds a message behind its length, as the messages of a session are. A message
/// that is longer than a frame can be is invalid, and nothing is added.
pub fn write_auth(out: &mut Vec<u8>, msg: &AuthMessage) -> (r: Result<(), ProtocolError>)
    ensures
        auth_wire(msg@).len() <= MAX_FRAME_BYTES ==> {
            &&& r is Ok
            &&& final(out)@ == old(out)@ + framed(auth_wire(msg@))
        },
        auth_wire(msg@).len() > MAX_FRAME_BYTES ==> {
            &&& r == Err::<(), _>(ProtocolError::Invalid)
            &&& final(out)@ == old(out)@
        },
{
    let body = msg.encode();
    put_frame(out, body.as_slice())
}

/// What is written is what is read, whatever follows on the stream: the four
/// bytes in front are the payload's length, and the payload is the message.
pub proof fn auth_read_of_write(m: AuthView, rest: Seq<u8>)
    requires
        m matches AuthView::Confirm(tag) ==> tag.len() == 32,
        auth_wire(m).len() <= MAX_FRAME_BYTES,
    ensures
        ({
            let s = framed(auth_wire(m)) + rest;
            let n = auth_wire(m).len();
            &&& framed_length(s.take(4)) == Ok::<nat, ProtocolError>(n)
            &&& auth_parse(s.subrange(4, 4 + n as int)) == Ok::<AuthView, ProtocolError>(m)
        }),
{
    let body = auth_wire(m);
    let s = framed(body) + rest;
    bounds();
    auth_decode_of_encode(m);
    assert(body.len() > 0);
    from_le_of_le(body.len(), 4);
    assert(s.take(4) =~= le(body.len(), 4));
    assert(s.subrange(4, 4 + body.len() as int) =~= body);
}

// ---------------------------------------------------------------------------
// The door
// ---------------------------------------------------------------------------

/// Why a client is not let in.
#[derive(Debug, Clone, Copy, PartialEq, Eq, Structural)]
pub enum Denial {
    /// There is no PIN that a client could prove.
    AccessOff,
    /// Attempts are refused for so many more nanoseconds.
    Locked(u64),
    WrongPin,
}

impl Denial {
    /// What [`Denial::text`] returns.
    pub open spec fn text_spec(self) -> Seq<char> {
        match self {
            Denial::AccessOff => "Unattended access is off"@,
            Denial::Locked(left) => "Too many wrong PINs. Try again in "@ + decimal(
                seconds(left) as nat,
            ) + " s"@,
            Denial::WrongPin => "Wrong PIN"@,
        }
    }

    /// What the client is told.
    pub fn text(&self) -> (r: String)
        ensures
            r@ == self.text_spec(),
    {
        match self {
            Denial::AccessOff => "Unattended access is off".to_owned(),
            Denial::Locked(left) => {
                let mut out = "Too many wrong PINs. Try again in ".to_owned();
                push_decimal(&mut out, whole_seconds(*left));
                out.append(" s");
                out
            },
            Denial::WrongPin => "Wrong PIN".to_owned(),
        }
    }
}

/// The PIN that a client must prove: the fixed one of this run, where there is
/// one, and otherwise that of the settings.
pub open spec fn required(fixed: Option<&str>, settings: Settings) -> Option<Seq<char>> {
    match fixed {
        Some(pin) => Some(pin@),
        None => settings.active(),
    }
}

pub fn required_pin<'a>(fixed: Option<&'a str>, settings: &'a Settings) -> (r: Option<&'a str>)
    ensures
        match required(fixed, *settings) {
            Some(pin) => r matches Some(p) && p@ == pin,
            None => r is None,
        },
{
    match fixed {
        Some(pin) => Some(pin),
        None => settings.active_pin(),
    }
}

/// Whether an attempt may be made: access is on, and nothing is locked.
pub open spec fn admission(lockout: LockoutView, now: u64, pin: Option<Seq<char>>) -> Result<
    Seq<char>,
    Denial,
> {
    match pin {
        None => Err(Denial::AccessOff),
        Some(pin) => match lockout.remaining(now) {
            Some(left) => Err(Denial::Locked(left)),
            None => Ok(pin),
        },
    }
}

/// The PIN for an attempt, if one may be made.
pub fn permit<'a>(lockout: &Lockout, now: u64, pin: Option<&'a str>) -> (r: Result<&'a str, Denial>)
    ensures
        match admission(
            lockout@,
            now,
            match pin {
                Some(p) => Some(p@),
                None => None,
            },
        ) {
            Ok(p) => r matches Ok(v) && v@ == p,
            Err(e) => r == Err::<&'a str, Denial>(e),
        },
{
    match pin {
        None => Err(Denial::AccessOff),
        Some(pin) => match lockout.remaining(now) {
            Some(left) => Err(Denial::Locked(left)),
            None => Ok(pin),
        },
    }
}

/// Judges an attempt by the client's confirmation. A right one resets the lockout
/// and gets the host's confirmation; a wrong one, or an exchange that gave no key,
/// is counted.
pub fn judge(
    lockout: &mut Lockout,
    now: u64,
    keys: &Result<PinKeys, AuthFailure>,
    tag: &[u8],
) -> (r: Result<[u8; 32], Denial>)
    requires
        now + MAX_LOCK <= u64::MAX,
        keys matches Ok(k) ==> k.wf(),
    ensures
        match r {
            Ok(confirmation) => {
                &&& keys matches Ok(k) && k@.accepts(tag@) && confirmation@ == k@.tag(k@.side)
                &&& final(lockout)@ == LockoutView::fresh()
            },
            Err(e) => {
                &&& e == Denial::WrongPin
                &&& keys matches Ok(k) ==> !k@.accepts(tag@)
                &&& final(lockout)@ == old(lockout)@.failed(now)
            },
        },
{
    if let Ok(k) = keys {
        if k.verify_peer(tag).is_ok() {
            lockout.succeed();
            return Ok(k.confirmation());
        }
    }
    lockout.fail(now);
    Err(Denial::WrongPin)
}

/// A locked host refuses every attempt, whatever the PIN.
pub proof fn locked_refuses_all(lockout: LockoutView, now: u64, pin: Option<Seq<char>>)
    requires
        lockout.remaining(now) is Some,
    ensures
        admission(lockout, now, pin) is Err,
{
}

/// Without a PIN, the host refuses every attempt, locked or not.
pub proof fn access_off_refuses_all(lockout: LockoutView, now: u64)
    ensures
        admission(lockout, now, None) == Err::<Seq<char>, Denial>(Denial::AccessOff),
{
}

/// After a right PIN, the next attempt may be made at once.
pub proof fn success_unlocks(now: u64, pin: Seq<char>)
    ensures
        admission(LockoutView::fresh(), now, Some(pin)) == Ok::<Seq<char>, Denial>(pin),
{
}

/// What is wrong with bytes that are no message of the exchange: there are none, the first
/// is another number, a confirmation has another length than 32, or a reason is no text.
pub proof fn auth_messages_that_are_refused(s: Seq<u8>)
    ensures
        auth_parse(s) == Err::<AuthView, _>(ProtocolError::Truncated) <==> s.len() == 0 || (s[0]
            == 15 && s.len() < 33),
        auth_parse(s) == Err::<AuthView, _>(ProtocolError::Invalid) <==> s.len() > 33 && s[0]
            == 15,
        auth_parse(s) == Err::<AuthView, _>(ProtocolError::Utf8) <==> s.len() > 0 && s[0] == 16
            && !valid_utf8(s.skip(1)),
        s.len() > 0 && (s[0] < 14 || s[0] > 16) ==> auth_parse(s) == Err::<AuthView, _>(
            ProtocolError::UnknownType(s[0]),
        ),
{
}

/// Whom the host lets try: a client is told that access is off where no PIN is asked for,
/// and otherwise for how long attempts are refused; where they are not, it may try, and
/// the PIN that it has to prove is the fixed one, before the one of the settings.
pub proof fn attempts_are_admitted(
    lockout: LockoutView,
    now: u64,
    fixed: Option<&str>,
    settings: Settings,
    pin: Seq<char>,
)
    ensures
        fixed matches Some(f) ==> required(fixed, settings) == Some(f@),
        fixed is None && !settings.unattended ==> required(fixed, settings) is None,
        fixed is None && settings.unattended && pin.len() > 0 && (settings.pin matches Some(p)
            && p@ == pin) ==> required(fixed, settings) == Some(pin),
        (lockout.until matches Some(until) && until > now) ==> admission(lockout, now, Some(pin))
            == Err::<Seq<char>, _>(Denial::Locked((lockout.until->0 - now) as u64)),
        (lockout.until matches Some(until) && until <= now) ==> admission(lockout, now, Some(pin))
            == Ok::<_, Denial>(pin),
        lockout.until is None ==> admission(lockout, now, Some(pin)) == Ok::<_, Denial>(pin),
{
}

/// What a client is told: the seconds that it has to wait are rounded up.
pub proof fn denials_are_told(left: u64, secs: u64)
    requires
        secs * 1_000_000_000 >= left,
        left > (secs - 1) * 1_000_000_000,
    ensures
        Denial::Locked(left).text_spec() == "Too many wrong PINs. Try again in "@ + decimal(
            secs as nat,
        ) + " s"@,
        Denial::AccessOff.text_spec() == "Unattended access is off"@,
        Denial::WrongPin.text_spec() == "Wrong PIN"@,
{
}

} // verus!
