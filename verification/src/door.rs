//! The greeting and the PIN exchange, step by step, on both ends.
//!
//! A door takes the messages of the peer in the order in which they are due and
//! says what to write. Anything else shuts it.

use vstd::prelude::*;
use vstd::string::*;

use crate::auth::{
    confirmations_are_of_a_word_and_the_session, hmac_sha256, key_of, outbound_of, password_of,
    word_of, ExchangeView, KeysView, PinExchange, PinKeys, Side,
};
use crate::handshake::{admission, judge, permit, AuthMessage, AuthView, Denial};
use crate::hash::HASH_LIMIT;
use crate::lockout::{Lockout, LockoutView, MAX_LOCK};
use crate::message::{Message, MessageView, VERSION};
use crate::session::{check_hello, check_hello_ack, hello, hello_ack};

verus! {

/// How far a door is.
#[derive(Debug, Clone, Copy, PartialEq, Eq, Structural)]
pub enum Phase {
    /// The greeting is due.
    Greeting,
    /// The peer's `Auth` is due.
    Proof,
    /// The peer's `AuthConfirm` is due.
    Confirm,
    /// The session may begin.
    Open,
    /// The connection is to be closed.
    Shut,
}

// ---------------------------------------------------------------------------
// The host
// ---------------------------------------------------------------------------

/// The door of the host, for one connection.
pub struct HostDoor {
    phase: Phase,
    name: String,
    keys: Option<PinKeys>,
}

/// What a [`HostDoor`] holds.
#[verifier::ext_equal]
pub struct HostDoorView {
    pub phase: Phase,
    /// The name with which the client greeted.
    pub name: Seq<char>,
    pub keys: Option<KeysView>,
}

impl HostDoorView {
    /// The keys are there exactly when the client's confirmation is due, and are
    /// those of the host.
    pub open spec fn wf(self) -> bool {
        &&& self.phase == Phase::Confirm <==> self.keys is Some
        &&& self.keys matches Some(k) ==> k.side == Side::Host
    }
}

impl View for HostDoor {
    type V = HostDoorView;

    closed spec fn view(&self) -> HostDoorView {
        HostDoorView {
            phase: self.phase,
            name: self.name@,
            keys: match self.keys {
                Some(k) => Some(k@),
                None => None,
            },
        }
    }
}

pub open spec fn opt_pin(pin: Option<&str>) -> Option<Seq<char>> {
    match pin {
        Some(p) => Some(p@),
        None => None,
    }
}

/// The keys of a host that answers a client's payload with its own, for some
/// secret of its own.
pub open spec fn host_answer(
    pin: Seq<char>,
    secret: Seq<u8>,
    peer: Seq<u8>,
    binding: Seq<u8>,
    reply: Seq<u8>,
    keys: KeysView,
) -> bool {
    let password = password_of(pin);
    &&& reply == outbound_of(Side::Host, password, secret)
    &&& key_of(Side::Host, password, secret, peer) == Some(keys.key)
    &&& keys.side == Side::Host
    &&& keys.binding == binding
}

/// Whether there is such a secret.
pub open spec fn answers(
    pin: Seq<char>,
    peer: Seq<u8>,
    binding: Seq<u8>,
    reply: Seq<u8>,
    keys: KeysView,
) -> bool {
    exists|secret: Seq<u8>| #[trigger] host_answer(pin, secret, peer, binding, reply, keys)
}

/// Whether a payload gives a host no key, for some secret of its own.
pub open spec fn gives_no_key(pin: Seq<char>, peer: Seq<u8>) -> bool {
    exists|secret: Seq<u8>| (#[trigger] key_of(Side::Host, password_of(pin), secret, peer)) is None
}

/// The door of the host after the client's confirmation, and the lockout.
pub open spec fn host_confirms(
    keys: KeysView,
    msg: AuthView,
    lockout: LockoutView,
    now: u64,
) -> (Phase, LockoutView) {
    match msg {
        AuthView::Confirm(tag) => if keys.accepts(tag) {
            (Phase::Open, LockoutView::fresh())
        } else {
            (Phase::Shut, lockout.failed(now))
        },
        _ => (Phase::Shut, lockout),
    }
}

/// The door of the client after the host's confirmation.
pub open spec fn client_confirms(keys: KeysView, msg: AuthView) -> Phase {
    match msg {
        AuthView::Confirm(tag) => if keys.accepts(tag) {
            Phase::Open
        } else {
            Phase::Shut
        },
        _ => Phase::Shut,
    }
}

impl HostDoor {
    pub closed spec fn wf(&self) -> bool {
        &&& self@.wf()
        &&& self.keys matches Some(k) ==> k.wf()
    }

    pub fn new() -> (r: HostDoor)
        ensures
            r.wf(),
            r@ == (HostDoorView { phase: Phase::Greeting, name: seq![], keys: None }),
    {
        let name = String::new();
        assert(name@ =~= Seq::<char>::empty());
        HostDoor { phase: Phase::Greeting, name, keys: None }
    }

    pub fn phase(&self) -> (r: Phase)
        ensures
            r == self@.phase,
    {
        self.phase
    }

    /// The name with which the client greeted.
    pub fn name(&self) -> (r: &str)
        ensures
            r@ == self@.name,
    {
        self.name.as_str()
    }

    /// Takes the first message. A client of the same version is greeted in turn.
    pub fn on_hello(&mut self, msg: &Message) -> (r: Result<Message, String>)
        requires
            old(self).wf(),
            old(self)@.phase == Phase::Greeting,
        ensures
            final(self).wf(),
            final(self)@.wf(),
            match hello(msg@) {
                Ok(name) => {
                    &&& r matches Ok(m) && m@ == (MessageView::HelloAck { version: VERSION })
                    &&& final(self)@ == (HostDoorView { phase: Phase::Proof, name, keys: None })
                },
                Err(text) => {
                    &&& r matches Err(e) && e@ == text
                    &&& final(self)@ == (HostDoorView { phase: Phase::Shut, ..old(self)@ })
                },
            },
    {
        match check_hello(msg) {
            Ok(name) => {
                self.name = name.to_owned();
                self.phase = Phase::Proof;
                Ok(Message::HelloAck { version: VERSION })
            },
            Err(text) => {
                self.phase = Phase::Shut;
                Err(text)
            },
        }
    }

    /// Takes the client's `Auth`. It is answered where an attempt may be made, and
    /// otherwise denied. A payload that gives no key is a wrong guess.
    pub fn on_auth(
        &mut self,
        msg: &AuthMessage,
        pin: Option<&str>,
        lockout: &mut Lockout,
        now: u64,
        binding: &[u8],
    ) -> (r: Result<AuthMessage, String>)
        requires
            old(self).wf(),
            old(self)@.phase == Phase::Proof,
            now + MAX_LOCK <= u64::MAX,
            binding@.len() + 128 < HASH_LIMIT,
        ensures
            final(self).wf(),
            final(self)@.wf(),
            final(self)@.name == old(self)@.name,
            match msg@ {
                AuthView::Auth(peer) => match admission(old(lockout)@, now, opt_pin(pin)) {
                    Ok(pin) => r matches Ok(m) && match m@ {
                        AuthView::Auth(reply) => {
                            &&& final(self)@.phase == Phase::Confirm
                            &&& answers(pin, peer, binding@, reply, final(self)@.keys->0)
                            &&& final(lockout)@ == old(lockout)@
                        },
                        AuthView::Denied(text) => {
                            &&& text == Denial::WrongPin.text_spec()
                            &&& final(self)@.phase == Phase::Shut
                            &&& gives_no_key(pin, peer)
                            &&& final(lockout)@ == old(lockout)@.failed(now)
                        },
                        AuthView::Confirm(_) => false,
                    },
                    Err(denial) => {
                        &&& r matches Ok(m) && m@ == AuthView::Denied(denial.text_spec())
                        &&& final(self)@.phase == Phase::Shut
                        &&& final(lockout)@ == old(lockout)@
                    },
                },
                _ => {
                    &&& r matches Err(e) && e@ == "expected auth"@
                    &&& final(self)@.phase == Phase::Shut
                    &&& final(lockout)@ == old(lockout)@
                },
            },
            msg@ matches AuthView::Auth(peer) ==> {
                &&& peer.len() != 33 ==> final(self)@.phase == Phase::Shut
                &&& admission(old(lockout)@, now, opt_pin(pin)) matches Ok(pin) ==> forall|
                    secret: Seq<u8>,
                | #[trigger]
                    outbound_of(Side::Client, password_of(pin), secret) == peer
                        ==> final(self)@.phase == Phase::Confirm
            },
    {
        let peer = match msg {
            AuthMessage::Auth(peer) => peer,
            _ => {
                self.phase = Phase::Shut;
                return Err("expected auth".to_owned());
            },
        };
        let pin = match permit(lockout, now, pin) {
            Ok(pin) => pin,
            Err(denial) => {
                self.phase = Phase::Shut;
                return Ok(AuthMessage::Denied(denial.text()));
            },
        };
        let (exchange, reply) = PinExchange::start(Side::Host, pin);
        let ghost secret = exchange@.secret;
        match exchange.finish(peer.as_slice(), binding) {
            Ok(keys) => {
                self.keys = Some(keys);
                self.phase = Phase::Confirm;
                assert(host_answer(pin@, secret, peer@, binding@, reply@, self@.keys->0));
                Ok(AuthMessage::Auth(reply))
            },
            Err(_) => {
                assert(key_of(Side::Host, password_of(pin@), secret, peer@) is None);
                lockout.fail(now);
                self.phase = Phase::Shut;
                Ok(AuthMessage::Denied(Denial::WrongPin.text()))
            },
        }
    }

    /// Takes the client's `AuthConfirm`. The right one opens the door and is
    /// answered with the host's own.
    pub fn on_confirm(&mut self, msg: &AuthMessage, lockout: &mut Lockout, now: u64) -> (r: Result<
        AuthMessage,
        String,
    >)
        requires
            old(self).wf(),
            old(self)@.phase == Phase::Confirm,
            now + MAX_LOCK <= u64::MAX,
        ensures
            final(self).wf(),
            final(self)@.wf(),
            final(self)@.name == old(self)@.name,
            final(self)@.keys is None,
            old(self)@.keys is Some,
            match msg@ {
                AuthView::Confirm(tag) => {
                    let keys = old(self)@.keys->0;
                    if keys.accepts(tag) {
                        &&& r matches Ok(m) && m@ == AuthView::Confirm(keys.tag(keys.side))
                        &&& final(self)@.phase == Phase::Open
                        &&& final(lockout)@ == LockoutView::fresh()
                    } else {
                        &&& r matches Ok(m) && m@ == AuthView::Denied(Denial::WrongPin.text_spec())
                        &&& final(self)@.phase == Phase::Shut
                        &&& final(lockout)@ == old(lockout)@.failed(now)
                    }
                },
                _ => {
                    &&& r matches Err(e) && e@ == "expected auth confirm"@
                    &&& final(self)@.phase == Phase::Shut
                    &&& final(lockout)@ == old(lockout)@
                },
            },
            (final(self)@.phase, final(lockout)@) == host_confirms(
                old(self)@.keys->0,
                msg@,
                old(lockout)@,
                now,
            ),
    {
        self.phase = Phase::Shut;
        let keys = self.keys.take().unwrap();
        match msg {
            AuthMessage::Confirm(tag) => match judge(lockout, now, &Ok(keys), tag.as_slice()) {
                Ok(confirmation) => {
                    self.phase = Phase::Open;
                    Ok(AuthMessage::Confirm(confirmation))
                },
                Err(denial) => Ok(AuthMessage::Denied(denial.text())),
            },
            _ => Err("expected auth confirm".to_owned()),
        }
    }
}

// ---------------------------------------------------------------------------
// The client
// ---------------------------------------------------------------------------

/// The door of the client.
pub struct ClientDoor {
    phase: Phase,
    exchange: Option<PinExchange>,
    keys: Option<PinKeys>,
}

/// What a [`ClientDoor`] holds.
#[verifier::ext_equal]
pub struct ClientDoorView {
    pub phase: Phase,
    pub exchange: Option<ExchangeView>,
    pub keys: Option<KeysView>,
}

impl ClientDoorView {
    /// The exchange is there exactly when the host's payload is due, and the keys
    /// when its confirmation is. Both are those of the client.
    pub open spec fn wf(self) -> bool {
        &&& self.phase == Phase::Proof <==> self.exchange is Some
        &&& self.phase == Phase::Confirm <==> self.keys is Some
        &&& self.exchange matches Some(e) ==> e.side == Side::Client
        &&& self.keys matches Some(k) ==> k.side == Side::Client
    }
}

impl View for ClientDoor {
    type V = ClientDoorView;

    closed spec fn view(&self) -> ClientDoorView {
        ClientDoorView {
            phase: self.phase,
            exchange: match self.exchange {
                Some(e) => Some(e@),
                None => None,
            },
            keys: match self.keys {
                Some(k) => Some(k@),
                None => None,
            },
        }
    }
}

impl ClientDoor {
    pub closed spec fn wf(&self) -> bool {
        &&& self@.wf()
        &&& self.exchange matches Some(e) ==> e.wf()
        &&& self.keys matches Some(k) ==> k.wf()
    }

    /// The door, and the greeting of a client with this name.
    pub fn new(name: &str) -> (r: (ClientDoor, Message))
        ensures
            r.0.wf(),
            r.0@ == (ClientDoorView { phase: Phase::Greeting, exchange: None, keys: None }),
            r.1@ == (MessageView::Hello { version: VERSION, name: name@ }),
    {
        (
            ClientDoor { phase: Phase::Greeting, exchange: None, keys: None },
            Message::Hello { version: VERSION, name: name.to_owned() },
        )
    }

    pub fn phase(&self) -> (r: Phase)
        ensures
            r == self@.phase,
    {
        self.phase
    }

    /// Takes the host's greeting, and starts the exchange.
    pub fn on_ack(&mut self, msg: &Message, pin: &str) -> (r: Result<AuthMessage, String>)
        requires
            old(self).wf(),
            old(self)@.phase == Phase::Greeting,
        ensures
            final(self).wf(),
            final(self)@.wf(),
            match hello_ack(msg@) {
                Ok(_) => {
                    &&& final(self)@.phase == Phase::Proof
                    &&& final(self)@.exchange matches Some(e) && e.side == Side::Client
                        && e.password == password_of(pin@)
                    &&& r matches Ok(m) && m@ == AuthView::Auth(
                        outbound_of(
                            Side::Client,
                            password_of(pin@),
                            final(self)@.exchange->0.secret,
                        ),
                    )
                },
                Err(text) => {
                    &&& r matches Err(e) && e@ == text
                    &&& final(self)@.phase == Phase::Shut
                },
            },
    {
        match check_hello_ack(msg) {
            Ok(_) => {
                let (exchange, outbound) = PinExchange::start(Side::Client, pin);
                self.exchange = Some(exchange);
                self.phase = Phase::Proof;
                Ok(AuthMessage::Auth(outbound))
            },
            Err(text) => {
                self.phase = Phase::Shut;
                Err(text)
            },
        }
    }

    /// Takes the host's `Auth`, or its denial, which is the error. A payload that
    /// a host with the same PIN sent gives the key that this host has.
    pub fn on_auth(&mut self, msg: &AuthMessage, binding: &[u8]) -> (r: Result<AuthMessage, String>)
        requires
            old(self).wf(),
            old(self)@.phase == Phase::Proof,
            binding@.len() + 128 < HASH_LIMIT,
        ensures
            final(self).wf(),
            final(self)@.wf(),
            old(self)@.exchange is Some,
            match msg@ {
                AuthView::Auth(peer) => {
                    let e = old(self)@.exchange->0;
                    match key_of(Side::Client, e.password, e.secret, peer) {
                        Some(key) => {
                            let keys = KeysView { side: Side::Client, key, binding: binding@ };
                            &&& final(self)@.phase == Phase::Confirm
                            &&& final(self)@.keys == Some(keys)
                            &&& r matches Ok(m) && m@ == AuthView::Confirm(keys.tag(Side::Client))
                        },
                        None => {
                            &&& final(self)@.phase == Phase::Shut
                            &&& r matches Err(text) && text@ == "PIN did not match"@
                        },
                    }
                },
                AuthView::Denied(reason) => {
                    &&& final(self)@.phase == Phase::Shut
                    &&& r matches Err(text) && text@ == reason
                },
                AuthView::Confirm(_) => {
                    &&& final(self)@.phase == Phase::Shut
                    &&& r matches Err(text) && text@ == "expected auth"@
                },
            },
            msg@ matches AuthView::Auth(peer) ==> forall|secret: Seq<u8>| #[trigger]
                outbound_of(Side::Host, old(self)@.exchange->0.password, secret) == peer ==> {
                    let e = old(self)@.exchange->0;
                    &&& final(self)@.keys matches Some(keys)
                    &&& key_of(
                        Side::Host,
                        e.password,
                        secret,
                        outbound_of(Side::Client, e.password, e.secret),
                    ) == Some(keys.key)
                },
    {
        self.phase = Phase::Shut;
        let exchange = self.exchange.take().unwrap();
        match msg {
            AuthMessage::Auth(peer) => match exchange.finish(peer.as_slice(), binding) {
                Ok(keys) => {
                    let tag = keys.confirmation();
                    self.keys = Some(keys);
                    self.phase = Phase::Confirm;
                    Ok(AuthMessage::Confirm(tag))
                },
                Err(failure) => Err(failure.text().to_owned()),
            },
            AuthMessage::Denied(reason) => Err(reason.as_str().to_owned()),
            AuthMessage::Confirm(_) => Err("expected auth".to_owned()),
        }
    }

    /// Takes the host's `AuthConfirm`, or its denial, which is the error. A host
    /// that cannot prove the PIN is rejected.
    pub fn on_confirm(&mut self, msg: &AuthMessage) -> (r: Result<(), String>)
        requires
            old(self).wf(),
            old(self)@.phase == Phase::Confirm,
        ensures
            final(self).wf(),
            final(self)@.wf(),
            old(self)@.keys is Some,
            r is Ok <==> final(self)@.phase == Phase::Open,
            r is Err <==> final(self)@.phase == Phase::Shut,
            match msg@ {
                AuthView::Confirm(tag) => if old(self)@.keys->0.accepts(tag) {
                    r is Ok
                } else {
                    r matches Err(text) && text@ == "PIN did not match"@
                },
                AuthView::Denied(reason) => r matches Err(text) && text@ == reason,
                AuthView::Auth(_) => r matches Err(text) && text@ == "expected auth confirm"@,
            },
            final(self)@.phase == client_confirms(old(self)@.keys->0, msg@),
    {
        self.phase = Phase::Shut;
        let keys = self.keys.take().unwrap();
        match msg {
            AuthMessage::Confirm(tag) => match keys.verify_peer(tag.as_slice()) {
                Ok(_) => {
                    self.phase = Phase::Open;
                    Ok(())
                },
                Err(failure) => Err(failure.text().to_owned()),
            },
            AuthMessage::Denied(reason) => Err(reason.as_str().to_owned()),
            AuthMessage::Auth(_) => Err("expected auth confirm".to_owned()),
        }
    }
}

/// The right PIN opens both doors. The keys of the host are those of its answer to
/// the client's payload, the client's key is the one that [`ClientDoor::on_auth`]
/// promises for a host with the same PIN, and both are bound to one TLS session:
/// then each side accepts the other's confirmation.
pub proof fn right_pin_opens_both_doors(
    typed: Seq<char>,
    stored: Seq<char>,
    client_secret: Seq<u8>,
    host_secret: Seq<u8>,
    binding: Seq<u8>,
    reply: Seq<u8>,
    client: KeysView,
    host: KeysView,
)
    requires
        password_of(typed) == password_of(stored),
        host_answer(
            stored,
            host_secret,
            outbound_of(Side::Client, password_of(typed), client_secret),
            binding,
            reply,
            host,
        ),
        client.side == Side::Client,
        client.binding == binding,
        key_of(
            Side::Host,
            password_of(typed),
            host_secret,
            outbound_of(Side::Client, password_of(typed), client_secret),
        ) == Some(client.key),
    ensures
        host.accepts(client.tag(Side::Client)),
        client.accepts(host.tag(Side::Host)),
{
}

/// The door of the host opens for the client's confirmation of the key and of this TLS
/// session, and for nothing else. It alone clears the failures, a wrong one is counted, and
/// what is no confirmation changes nothing of them.
pub proof fn host_opens_for_the_right_confirmation(
    keys: KeysView,
    msg: AuthView,
    lockout: LockoutView,
    now: u64,
)
    requires
        keys.side is Host,
        now + 900_000_000_000 <= u64::MAX,
        lockout.failures < u32::MAX,
    ensures
        ({
            let (phase, after) = host_confirms(keys, msg, lockout, now);
            let right = hmac_sha256(keys.key, word_of(Side::Client) + keys.binding);
            &&& phase is Open <==> msg == AuthView::Confirm(right)
            &&& phase is Open || phase is Shut
            &&& phase is Open ==> after.failures == 0 && after.until is None
            &&& (msg matches AuthView::Confirm(tag) && tag != right) ==> after.failures
                == lockout.failures + 1
            &&& !(msg is Confirm) ==> after == lockout
        }),
{
    if let AuthView::Confirm(tag) = msg {
        confirmations_are_of_a_word_and_the_session(keys, tag);
    }
}

/// The door of the client opens for the host's confirmation of the key and of this TLS
/// session, and for nothing else.
pub proof fn client_opens_for_the_right_confirmation(keys: KeysView, msg: AuthView)
    requires
        keys.side is Client,
    ensures
        client_confirms(keys, msg) is Open <==> msg == AuthView::Confirm(
            hmac_sha256(keys.key, word_of(Side::Host) + keys.binding),
        ),
        client_confirms(keys, msg) is Open || client_confirms(keys, msg) is Shut,
{
    if let AuthView::Confirm(tag) = msg {
        confirmations_are_of_a_word_and_the_session(keys, tag);
    }
}

} // verus!
