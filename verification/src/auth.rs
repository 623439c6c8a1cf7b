//! PIN authentication.
//!
//! The host's TLS certificate is ephemeral and unpinned; the PIN is what
//! authenticates both ends. After `Hello`/`HelloAck`:
//!
//! 1. client to host `Auth { spake2 message A }`
//! 2. host to client `Auth { spake2 message B }`, or `AuthDenied`
//! 3. client to host `AuthConfirm { HMAC(K, "client" + E) }`
//! 4. host to client `AuthConfirm { HMAC(K, "host" + E) }`, or `AuthDenied`
//!
//! `K` is the SPAKE2 (Ed25519) key derived from the PIN. `E` is a TLS exporter
//! value, so a machine in the middle that terminates two TLS sessions cannot
//! relay the confirmations: its two legs have different `E`. A wrong PIN yields
//! a different `K`, and the transcript gives an attacker one online guess per
//! connection. The host rate-limits failures.

use vstd::prelude::*;
use vstd::slice::*;
use vstd::string::*;
use vstd::utf8::*;

use hmac::{KeyInit, Mac};

use crate::hash::HASH_LIMIT;
use crate::text::{
    chars_of, control, is_control, is_whitespace, trim, trimmed, trimming_takes_off_white_space,
    whitespace,
};

verus! {

/// Label for the TLS exporter. Both sides use 32 bytes and no context.
pub const TLS_EXPORTER_LABEL: &'static str = "EXPORTER-omarchy-connect-pin";

pub const PIN_MIN: usize = 6;

pub const PIN_MAX: usize = 32;

const ID_CLIENT: &'static str = "omarchy-connect client";

const ID_HOST: &'static str = "omarchy-connect host";

/// An end of the session.
#[derive(Clone, Copy, Debug, PartialEq, Eq, Structural)]
pub enum Side {
    Client,
    Host,
}

impl Side {
    pub open spec fn peer_spec(self) -> Side {
        match self {
            Side::Client => Side::Host,
            Side::Host => Side::Client,
        }
    }

    /// What a confirmation of this side starts with.
    pub open spec fn label_spec(self) -> Seq<u8> {
        match self {
            Side::Client => encode_utf8("client"@),
            Side::Host => encode_utf8("host"@),
        }
    }

    pub fn peer(self) -> (r: Side)
        ensures
            r == self.peer_spec(),
    {
        match self {
            Side::Client => Side::Host,
            Side::Host => Side::Client,
        }
    }

    pub fn label(self) -> (r: &'static [u8])
        ensures
            r@ == self.label_spec(),
    {
        match self {
            Side::Client => "client".as_bytes(),
            Side::Host => "host".as_bytes(),
        }
    }
}

// ---------------------------------------------------------------------------
// The rules for a PIN
// ---------------------------------------------------------------------------

/// Whether a character cannot be in a PIN.
pub open spec fn is_blank(c: char) -> bool {
    is_whitespace(c) || is_control(c)
}

/// Whether some characters are a PIN.
pub open spec fn is_pin(s: Seq<char>) -> bool {
    &&& PIN_MIN <= s.len() <= PIN_MAX
    &&& forall|i: int| 0 <= i < s.len() ==> !is_blank(#[trigger] s[i])
}

/// What is said of characters that are not a PIN.
pub open spec fn pin_error(s: Seq<char>) -> Seq<char> {
    if PIN_MIN <= s.len() <= PIN_MAX {
        "PIN cannot contain spaces"@
    } else {
        "PIN must be 6 to 32 characters"@
    }
}

/// Checks a PIN before it is stored or sent. Leading and trailing white space is
/// not part of the PIN.
pub fn validate_pin(pin: &str) -> (r: Result<&str, String>)
    ensures
        ({
            let p = trimmed(pin@);
            match r {
                Ok(v) => is_pin(p) && v@ == p,
                Err(e) => !is_pin(p) && e@ == pin_error(p),
            }
        }),
{
    let bare = trim(pin);
    let chars = chars_of(bare);
    let len: usize = chars.len();
    if len < PIN_MIN || len > PIN_MAX {
        return Err("PIN must be 6 to 32 characters".to_owned());
    }
    for i in 0..len
        invariant
            len == chars@.len(),
            PIN_MIN <= len <= PIN_MAX,
            chars@ == trimmed(pin@),
            forall|j: int| 0 <= j < i ==> !is_blank(#[trigger] chars@[j]),
    {
        if whitespace(chars[i]) || control(chars[i]) {
            assert(is_blank(chars@[i as int]));
            return Err("PIN cannot contain spaces".to_owned());
        }
    }
    Ok(bare)
}

// ---------------------------------------------------------------------------
// SPAKE2 and HMAC
// ---------------------------------------------------------------------------

/// One side of a SPAKE2 exchange between its two messages.
#[verifier::external_body]
pub struct SpakeState {
    state: spake2::Spake2<spake2::Ed25519Group>,
}

/// What one side of an exchange holds: whether it is the first side, the
/// password, the identities of the first and the second side, and its random
/// scalar.
pub uninterp spec fn spake_parts(s: SpakeState) -> (bool, Seq<u8>, Seq<u8>, Seq<u8>, Seq<u8>);

/// The message that the first side sends: it depends on the password and the random
/// scalar.
pub uninterp spec fn spake_message_a(password: Seq<u8>, secret: Seq<u8>) -> Seq<u8>;

/// The message that the second side sends.
pub uninterp spec fn spake_message_b(password: Seq<u8>, secret: Seq<u8>) -> Seq<u8>;

/// The message that a side sends.
pub open spec fn spake_message(first: bool, password: Seq<u8>, secret: Seq<u8>) -> Seq<u8> {
    if first {
        spake_message_a(password, secret)
    } else {
        spake_message_b(password, secret)
    }
}

/// The key that a side gets from the message of its peer, where it gets one. The
/// arguments before the last are the parts of its state.
pub uninterp spec fn spake_key(
    first: bool,
    password: Seq<u8>,
    id_a: Seq<u8>,
    id_b: Seq<u8>,
    secret: Seq<u8>,
    peer: Seq<u8>,
) -> Option<Seq<u8>>;

/// The key that an exchange ended with.
pub open spec fn key_bytes(r: Result<Vec<u8>, spake2::Error>) -> Option<Seq<u8>> {
    match r {
        Ok(key) => Some(key@),
        Err(_) => None,
    }
}

/// HMAC-SHA-256 of some bytes under a key.
pub uninterp spec fn hmac_sha256(key: Seq<u8>, data: Seq<u8>) -> Seq<u8>;

/// `Spake2::start_a`: draws a scalar and makes the message of the first side,
/// which is `A` and a point of 32 bytes.
#[verifier::external_body]
fn start_a(password: &[u8], id_a: &[u8], id_b: &[u8]) -> (r: (SpakeState, Vec<u8>))
    ensures
        spake_parts(r.0).0 == true,
        spake_parts(r.0).1 == password@,
        spake_parts(r.0).2 == id_a@,
        spake_parts(r.0).3 == id_b@,
        r.1@ == spake_message_a(password@, spake_parts(r.0).4),
        r.1@.len() == 33,
        r.1@[0] == 0x41,
{
    let (state, out) = spake2::Spake2::<spake2::Ed25519Group>::start_a(
        &spake2::Password::new(password),
        &spake2::Identity::new(id_a),
        &spake2::Identity::new(id_b),
    );
    (SpakeState { state }, out)
}

/// `Spake2::start_b`: draws a scalar and makes the message of the second side,
/// which is `B` and a point of 32 bytes.
#[verifier::external_body]
fn start_b(password: &[u8], id_a: &[u8], id_b: &[u8]) -> (r: (SpakeState, Vec<u8>))
    ensures
        spake_parts(r.0).0 == false,
        spake_parts(r.0).1 == password@,
        spake_parts(r.0).2 == id_a@,
        spake_parts(r.0).3 == id_b@,
        r.1@ == spake_message_b(password@, spake_parts(r.0).4),
        r.1@.len() == 33,
        r.1@[0] == 0x42,
{
    let (state, out) = spake2::Spake2::<spake2::Ed25519Group>::start_b(
        &spake2::Password::new(password),
        &spake2::Identity::new(id_a),
        &spake2::Identity::new(id_b),
    );
    (SpakeState { state }, out)
}

/// The error of `Spake2::finish`.
#[verifier::external_type_specification]
#[verifier::external_body]
pub struct ExSpakeError(spake2::Error);

/// `Spake2::finish`: the key for the peer's message, which is 32 bytes. There is
/// none where the message has another length than 33 bytes or is not of the
/// other side. Where the message is what the other side sent for the same
/// password and identities, there is one, and the other side gets the same key
/// from this side's message. That two different passwords lead to different
/// keys is a matter of cryptography and not claimed.
#[verifier::external_body]
fn spake_finish(state: SpakeState, peer: &[u8]) -> (r: Result<Vec<u8>, spake2::Error>)
    ensures
        key_bytes(r) == spake_key(
            spake_parts(state).0,
            spake_parts(state).1,
            spake_parts(state).2,
            spake_parts(state).3,
            spake_parts(state).4,
            peer@,
        ),
        r matches Ok(key) ==> key@.len() == 32,
        r is Ok ==> peer@.len() == 33,
        r is Ok ==> peer@[0] == (if spake_parts(state).0 {
            0x42u8
        } else {
            0x41u8
        }),
        forall|first: bool, other: Seq<u8>|
            first != spake_parts(state).0 && #[trigger] spake_message(
                first,
                spake_parts(state).1,
                other,
            ) == peer@ ==> key_bytes(r) is Some && key_bytes(r) == spake_key(
                first,
                spake_parts(state).1,
                spake_parts(state).2,
                spake_parts(state).3,
                other,
                spake_message(spake_parts(state).0, spake_parts(state).1, spake_parts(state).4),
            ),
{
    state.state.finish(peer)
}

/// `Hmac::<Sha256>`: `new_from_slice`, which takes a key of any length, two
/// `update`s, and `finalize`. The tag is the HMAC of both parts together.
#[verifier::external_body]
fn hmac_tag(key: &[u8], head: &[u8], tail: &[u8]) -> (r: [u8; 32])
    requires
        key@.len() < HASH_LIMIT,
        head@.len() + tail@.len() + 64 < HASH_LIMIT,
    ensures
        r@ == hmac_sha256(key@, head@ + tail@),
{
    let mut mac = hmac::Hmac::<sha2::Sha256>::new_from_slice(key).expect("any key");
    mac.update(head);
    mac.update(tail);
    mac.finalize().into_bytes().into()
}

/// `Hmac::<Sha256>`, as in [`hmac_tag`], with `verify_slice`: whether the tag is
/// all of the HMAC. A tag of another length than an HMAC's 32 bytes never is.
#[verifier::external_body]
fn hmac_matches(key: &[u8], head: &[u8], tail: &[u8], tag: &[u8]) -> (r: bool)
    requires
        key@.len() < HASH_LIMIT,
        head@.len() + tail@.len() + 64 < HASH_LIMIT,
    ensures
        r == (tag@ == hmac_sha256(key@, head@ + tail@)),
        r ==> tag@.len() == 32,
{
    let mut mac = hmac::Hmac::<sha2::Sha256>::new_from_slice(key).expect("any key");
    mac.update(head);
    mac.update(tail);
    mac.verify_slice(tag).is_ok()
}

// ---------------------------------------------------------------------------
// The exchange
// ---------------------------------------------------------------------------

/// The identities that the exchange is bound to.
pub open spec fn id_client() -> Seq<u8> {
    encode_utf8("omarchy-connect client"@)
}

pub open spec fn id_host() -> Seq<u8> {
    encode_utf8("omarchy-connect host"@)
}

/// The password of a PIN: its bytes, without white space at either end.
pub open spec fn password_of(pin: Seq<char>) -> Seq<u8> {
    encode_utf8(trimmed(pin))
}

/// The message of a side for a password.
pub open spec fn outbound_of(side: Side, password: Seq<u8>, secret: Seq<u8>) -> Seq<u8> {
    spake_message(side is Client, password, secret)
}

/// The key of a side for the peer's message.
pub open spec fn key_of(side: Side, password: Seq<u8>, secret: Seq<u8>, peer: Seq<u8>) -> Option<
    Seq<u8>,
> {
    spake_key(side is Client, password, id_client(), id_host(), secret, peer)
}

/// One side of the exchange, after it has sent its `Auth` payload.
pub struct PinExchange {
    side: Side,
    state: SpakeState,
}

/// What a [`PinExchange`] holds.
#[verifier::ext_equal]
pub struct ExchangeView {
    pub side: Side,
    pub password: Seq<u8>,
    /// The random scalar of this side.
    pub secret: Seq<u8>,
}

impl View for PinExchange {
    type V = ExchangeView;

    closed spec fn view(&self) -> ExchangeView {
        ExchangeView {
            side: self.side,
            password: spake_parts(self.state).1,
            secret: spake_parts(self.state).4,
        }
    }
}

/// There was no key to be had from the peer's payload, or its confirmation does
/// not match.
#[derive(Debug, Clone, Copy, PartialEq, Eq, Structural)]
pub struct AuthFailure;

impl AuthFailure {
    /// The failure in words.
    pub fn text(&self) -> (r: &'static str)
        ensures
            r@ == "PIN did not match"@,
    {
        "PIN did not match"
    }
}

impl PinExchange {
    /// Whether the exchange is bound to the identities of both sides.
    pub closed spec fn wf(&self) -> bool {
        let (first, _, a, b, _) = spake_parts(self.state);
        first == (self.side is Client) && a == id_client() && b == id_host()
    }

    /// Returns the exchange and the outbound `Auth` payload.
    pub fn start(side: Side, pin: &str) -> (r: (PinExchange, Vec<u8>))
        ensures
            r.0.wf(),
            r.0@.side == side,
            r.0@.password == password_of(pin@),
            r.1@ == outbound_of(side, password_of(pin@), r.0@.secret),
            r.1@.len() == 33,
    {
        let password = trim(pin).as_bytes();
        let (state, outbound) = match side {
            Side::Client => start_a(password, ID_CLIENT.as_bytes(), ID_HOST.as_bytes()),
            Side::Host => start_b(password, ID_CLIENT.as_bytes(), ID_HOST.as_bytes()),
        };
        (PinExchange { side, state }, outbound)
    }

    /// Takes the peer's `Auth` payload. A wrong PIN still succeeds here; it is
    /// caught when the confirmations disagree. A payload that the other side sent
    /// for the same PIN gives both sides the same key.
    pub fn finish(self, peer: &[u8], binding: &[u8]) -> (r: Result<PinKeys, AuthFailure>)
        requires
            self.wf(),
            binding@.len() + 128 < HASH_LIMIT,
        ensures
            match key_of(self@.side, self@.password, self@.secret, peer@) {
                Some(key) => r matches Ok(keys) && keys.wf() && keys@ == (KeysView {
                    side: self@.side,
                    key,
                    binding: binding@,
                }),
                None => r is Err,
            },
            peer@.len() != 33 ==> r is Err,
            forall|other: Seq<u8>| #[trigger]
                outbound_of(self@.side.peer_spec(), self@.password, other) == peer@ ==> {
                    &&& r matches Ok(keys)
                    &&& key_of(
                        self@.side.peer_spec(),
                        self@.password,
                        other,
                        outbound_of(self@.side, self@.password, self@.secret),
                    ) == Some(keys@.key)
                },
    {
        let side = self.side;
        match spake_finish(self.state, peer) {
            Ok(key) => {
                proof {
                    assert forall|other: Seq<u8>| #[trigger]
                        outbound_of(self@.side.peer_spec(), self@.password, other)
                            == peer@ implies key_of(
                        self@.side.peer_spec(),
                        self@.password,
                        other,
                        outbound_of(self@.side, self@.password, self@.secret),
                    ) == Some(key@) by {
                        assert(spake_message(!(side is Client), self@.password, other) == peer@);
                    }
                }
                Ok(PinKeys { side, key, binding: slice_to_vec(binding) })
            },
            Err(_) => {
                proof {
                    assert forall|other: Seq<u8>| #[trigger]
                        outbound_of(self@.side.peer_spec(), self@.password, other)
                            != peer@ by {
                        assert(spake_message(!(side is Client), self@.password, other) != peer@);
                    }
                }
                Err(AuthFailure)
            },
        }
    }
}

/// The key of the exchange and the TLS session it is bound to.
pub struct PinKeys {
    side: Side,
    key: Vec<u8>,
    binding: Vec<u8>,
}

/// What [`PinKeys`] hold.
#[verifier::ext_equal]
pub struct KeysView {
    pub side: Side,
    pub key: Seq<u8>,
    pub binding: Seq<u8>,
}

impl View for PinKeys {
    type V = KeysView;

    closed spec fn view(&self) -> KeysView {
        KeysView { side: self.side, key: self.key@, binding: self.binding@ }
    }
}

impl KeysView {
    /// The confirmation that one of the sides sends.
    pub open spec fn tag(self, side: Side) -> Seq<u8> {
        hmac_sha256(self.key, side.label_spec() + self.binding)
    }

    /// What [`PinKeys::verify_peer`] accepts.
    pub open spec fn accepts(self, tag: Seq<u8>) -> bool {
        tag == self.tag(self.side.peer_spec())
    }
}

impl PinKeys {
    pub closed spec fn wf(&self) -> bool {
        self.key@.len() == 32 && self.binding@.len() + 128 < HASH_LIMIT
    }

    /// The `AuthConfirm` payload of this side.
    pub fn confirmation(&self) -> (r: [u8; 32])
        requires
            self.wf(),
        ensures
            r@ == self@.tag(self@.side),
    {
        proof {
            label_is_short(self.side);
        }
        hmac_tag(self.key.as_slice(), self.side.label(), self.binding.as_slice())
    }

    /// Whether the peer has the same key for the same TLS session. Only a tag of 32
    /// bytes can show it.
    pub fn verify_peer(&self, tag: &[u8]) -> (r: Result<(), AuthFailure>)
        requires
            self.wf(),
        ensures
            r is Ok <==> self@.accepts(tag@),
            tag@.len() != 32 ==> r is Err,
    {
        proof {
            label_is_short(self.side.peer_spec());
        }
        if hmac_matches(
            self.key.as_slice(),
            self.side.peer().label(),
            self.binding.as_slice(),
            tag,
        ) {
            Ok(())
        } else {
            Err(AuthFailure)
        }
    }
}

proof fn label_is_short(side: Side)
    ensures
        side.label_spec().len() == if side is Client {
            6int
        } else {
            4int
        },
{
    reveal_strlit("client");
    reveal_strlit("host");
    assert(is_ascii_chars("client"@));
    assert(is_ascii_chars("host"@));
    is_ascii_chars_encode_utf8("client"@);
    is_ascii_chars_encode_utf8("host"@);
}

/// Two sides with one key and one binding accept each other's confirmations.
pub proof fn same_key_confirms_both_ways(client: KeysView, host: KeysView)
    requires
        client.side == Side::Client,
        host.side == Side::Host,
        client.key == host.key,
        client.binding == host.binding,
    ensures
        host.accepts(client.tag(Side::Client)),
        client.accepts(host.tag(Side::Host)),
{
}

/// A confirmation that is sent back to its sender is refused: it is accepted only
/// where the labels of the two sides, which differ, give one HMAC with the same key
/// and binding.
pub proof fn reflected_tag_is_refused(keys: KeysView)
    ensures
        Side::Client.label_spec() + keys.binding != Side::Host.label_spec() + keys.binding,
        keys.accepts(keys.tag(keys.side)) <==> hmac_sha256(
            keys.key,
            Side::Client.label_spec() + keys.binding,
        ) == hmac_sha256(keys.key, Side::Host.label_spec() + keys.binding),
{
    label_is_short(Side::Client);
    label_is_short(Side::Host);
    let a = Side::Client.label_spec() + keys.binding;
    let b = Side::Host.label_spec() + keys.binding;
    assert(a.len() != b.len());
}

/// A matching PIN confirms both ways. `client` is what [`PinExchange::finish`]
/// makes of the host's payload for the same PIN, with the key that it promises
/// the host then gets; `host` is what the host makes of the client's payload; and
/// both are bound to one TLS session.
pub proof fn matching_pin_confirms_both_ways(
    password: Seq<u8>,
    client_secret: Seq<u8>,
    host_secret: Seq<u8>,
    client: KeysView,
    host: KeysView,
)
    requires
        client.side == Side::Client,
        host.side == Side::Host,
        client.binding == host.binding,
        key_of(
            Side::Host,
            password,
            host_secret,
            outbound_of(Side::Client, password, client_secret),
        ) == Some(client.key),
        key_of(
            Side::Host,
            password,
            host_secret,
            outbound_of(Side::Client, password, client_secret),
        ) == Some(host.key),
    ensures
        host.accepts(client.tag(Side::Client)),
        client.accepts(host.tag(Side::Host)),
{
    same_key_confirms_both_ways(client, host);
}

/// White space round a PIN does not matter.
pub proof fn padding_is_not_part_of_the_pin(a: Seq<char>, b: Seq<char>)
    requires
        trimmed(a) == trimmed(b),
    ensures
        password_of(a) == password_of(b),
{
}

/// The bytes of the words that the confirmations start with.
pub open spec fn word_of(side: Side) -> Seq<u8> {
    match side {
        Side::Client => seq![0x63u8, 0x6c, 0x69, 0x65, 0x6e, 0x74],
        Side::Host => seq![0x68u8, 0x6f, 0x73, 0x74],
    }
}

/// A side confirms with the HMAC of its own word and the session, in this order, and
/// accepts the HMAC of the other side's word and the session, and nothing else.
pub proof fn confirmations_are_of_a_word_and_the_session(keys: KeysView, tag: Seq<u8>)
    ensures
        keys.tag(Side::Client) == hmac_sha256(keys.key, word_of(Side::Client) + keys.binding),
        keys.tag(Side::Host) == hmac_sha256(keys.key, word_of(Side::Host) + keys.binding),
        keys.side is Client ==> (keys.accepts(tag) <==> tag == hmac_sha256(
            keys.key,
            word_of(Side::Host) + keys.binding,
        )),
        keys.side is Host ==> (keys.accepts(tag) <==> tag == hmac_sha256(
            keys.key,
            word_of(Side::Client) + keys.binding,
        )),
{
    reveal_strlit("client");
    reveal_strlit("host");
    assert(is_ascii_chars("client"@));
    assert(is_ascii_chars("host"@));
    is_ascii_chars_encode_utf8("client"@);
    is_ascii_chars_encode_utf8("host"@);
    assert(Side::Client.label_spec() =~= word_of(Side::Client));
    assert(Side::Host.label_spec() =~= word_of(Side::Host));
}

/// A PIN has 6 to 32 characters, none of them white space or a control character. Of one
/// with another length, the length is what is wrong.
pub proof fn pins_have_six_to_thirty_two_characters(s: Seq<char>, i: int)
    requires
        0 <= i < s.len(),
    ensures
        is_pin(s) ==> 6 <= s.len() <= 32 && !is_whitespace(s[i]) && !is_control(s[i]),
        s.len() < 6 || s.len() > 32 ==> !is_pin(s) && pin_error(s)
            == "PIN must be 6 to 32 characters"@,
        6 <= s.len() <= 32 && !is_pin(s) ==> pin_error(s) == "PIN cannot contain spaces"@,
{
    if is_pin(s) {
        assert(!is_blank(s[i]));
    }
}

/// Every text of 6 to 32 characters without white space and control characters is a PIN.
pub proof fn plain_texts_are_pins(s: Seq<char>)
    requires
        6 <= s.len() <= 32,
        forall|i: int| 0 <= i < s.len() ==> !is_whitespace(#[trigger] s[i]) && !is_control(s[i]),
    ensures
        is_pin(s),
{
}

/// The password is the PIN itself, whatever white space is around it.
pub proof fn password_is_the_pin(before: Seq<char>, pin: Seq<char>, after: Seq<char>)
    requires
        forall|i: int| 0 <= i < before.len() ==> is_whitespace(#[trigger] before[i]),
        forall|i: int| 0 <= i < after.len() ==> is_whitespace(#[trigger] after[i]),
        is_pin(pin),
    ensures
        password_of(before + pin + after) == encode_utf8(pin),
{
    assert(!is_blank(pin[0]));
    assert(!is_blank(pin[pin.len() - 1]));
    trimming_takes_off_white_space(before, pin, after);
}

/// The two ends are each other's peers.
pub proof fn peers_are_two(side: Side)
    ensures
        side.peer_spec() != side,
        side.peer_spec().peer_spec() == side,
{
}

/// The exchange is bound to the names of the client and of the host, the client's first,
/// and to the label of the TLS exporter. The client is the first side of it.
pub proof fn exchange_is_bound_to_both_names(password: Seq<u8>, secret: Seq<u8>, peer: Seq<u8>)
    ensures
        key_of(Side::Client, password, secret, peer) == spake_key(
            true,
            password,
            encode_utf8("omarchy-connect client"@),
            encode_utf8("omarchy-connect host"@),
            secret,
            peer,
        ),
        key_of(Side::Host, password, secret, peer) == spake_key(
            false,
            password,
            encode_utf8("omarchy-connect client"@),
            encode_utf8("omarchy-connect host"@),
            secret,
            peer,
        ),
        outbound_of(Side::Client, password, secret) == spake_message_a(password, secret),
        outbound_of(Side::Host, password, secret) == spake_message_b(password, secret),
        TLS_EXPORTER_LABEL@ == "EXPORTER-omarchy-connect-pin"@,
{
}

} // verus!
