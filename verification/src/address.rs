//! What is typed to reach a host: its address, and the pin of a certificate.

use vstd::prelude::*;
use vstd::slice::*;
use vstd::string::*;
use vstd::utf8::*;

use crate::message::digest_of;
use crate::status::DEFAULT_PORT;
use crate::text::{
    chars_of, decimal, decimal_is_digits, decimal_is_worth_its_number, has_char, is_digit,
    is_whitespace, push_decimal, starts_with, trim, trimmed, trimming_takes_off_white_space,
    worth,
};

verus! {

// ---------------------------------------------------------------------------
// Addresses
// ---------------------------------------------------------------------------

/// Where a host is.
#[derive(Debug, Clone, PartialEq, Eq)]
pub enum Endpoint {
    /// A name or an IP address, and the port that goes with it.
    Host(String, u16),
    /// A text that holds its own port.
    Whole(String),
}

/// An [`Endpoint`] over sequences.
#[verifier::ext_equal]
pub enum EndpointView {
    Host(Seq<char>, u16),
    Whole(Seq<char>),
}

impl View for Endpoint {
    type V = EndpointView;

    open spec fn view(&self) -> EndpointView {
        match self {
            Endpoint::Host(host, port) => EndpointView::Host(host@, *port),
            Endpoint::Whole(text) => EndpointView::Whole(text@),
        }
    }
}

/// What a text asks for. `192.168.1.10` uses the default port, and so does every
/// other bare IP address. A text with a colon keeps the port that it holds.
pub open spec fn endpoint(text: Seq<char>, bare_ip: bool) -> Result<EndpointView, Seq<char>> {
    let host = trimmed(text);
    if host.len() == 0 {
        Err("enter the Omarchy IP"@)
    } else if bare_ip || !host.contains(':') {
        Ok(EndpointView::Host(host, DEFAULT_PORT))
    } else {
        Ok(EndpointView::Whole(host))
    }
}

/// Where the host of a text is. `bare_ip` says whether the text, without white
/// space around it, is an IP address and nothing else.
pub fn parse_host(text: &str, bare_ip: bool) -> (r: Result<Endpoint, String>)
    ensures
        match endpoint(text@, bare_ip) {
            Ok(e) => r matches Ok(v) && v@ == e,
            Err(e) => r matches Err(v) && v@ == e,
        },
{
    let host = trim(text);
    if chars_of(host).len() == 0 {
        return Err("enter the Omarchy IP".to_owned());
    }
    if bare_ip || !has_char(host, ':') {
        Ok(Endpoint::Host(host.to_owned(), DEFAULT_PORT))
    } else {
        Ok(Endpoint::Whole(host.to_owned()))
    }
}

/// What follows the last colon.
pub open spec fn after_colon(s: Seq<char>) -> Option<Seq<char>>
    decreases s.len(),
{
    if s.len() == 0 {
        None
    } else if s.last() == ':' {
        Some(seq![])
    } else {
        match after_colon(s.drop_last()) {
            Some(t) => Some(t.push(s.last())),
            None => None,
        }
    }
}

/// The number that some digits are.
pub open spec fn number(s: Seq<char>) -> nat
    decreases s.len(),
{
    if s.len() == 0 {
        0
    } else {
        number(s.drop_last()) * 10 + (s.last() as u32 - '0' as u32) as nat
    }
}

pub open spec fn is_number(s: Seq<char>) -> bool {
    s.len() > 0 && forall|i: int| 0 <= i < s.len() ==> is_digit(#[trigger] s[i])
}

/// The port that a text is: digits, with or without a plus sign.
pub open spec fn port_of(s: Seq<char>) -> Option<u16> {
    let digits = if s.len() > 0 && s[0] == '+' {
        s.drop_first()
    } else {
        s
    };
    if is_number(digits) && number(digits) <= u16::MAX {
        Some(number(digits) as u16)
    } else {
        None
    }
}

proof fn number_grows(s: Seq<char>, i: int)
    requires
        0 <= i <= s.len(),
        forall|j: int| 0 <= j < s.len() ==> is_digit(#[trigger] s[j]),
    ensures
        number(s.take(i)) <= number(s),
    decreases s.len() - i,
{
    if i < s.len() {
        assert(s.take(i + 1).drop_last() =~= s.take(i));
        assert(is_digit(s[i]));
        number_grows(s, i + 1);
    } else {
        assert(s.take(i) =~= s);
    }
}

/// The port that the characters from `from` on are.
fn parse_port(chars: &Vec<char>, from: usize) -> (r: Option<u16>)
    requires
        from <= chars@.len(),
    ensures
        r == port_of(chars@.skip(from as int)),
{
    let n: usize = chars.len();
    let mut start: usize = from;
    if from < n && chars[from] == '+' {
        start = from + 1;
        assert(chars@.skip(from as int).drop_first() =~= chars@.skip(start as int));
    }
    let ghost digits = chars@.skip(start as int);
    if start == n {
        return None;
    }
    let mut i: usize = start;
    let mut value: u32 = 0;
    while i < n
        invariant
            start <= i <= n,
            n == chars@.len(),
            digits == chars@.skip(start as int),
            port_of(chars@.skip(from as int)) == if is_number(digits) && number(digits)
                <= u16::MAX {
                Some(number(digits) as u16)
            } else {
                None
            },
            value == number(digits.take(i - start)),
            value <= u16::MAX,
            forall|j: int| 0 <= j < i - start ==> is_digit(#[trigger] digits[j]),
        decreases n - i,
    {
        let c: char = chars[i];
        assert(digits[i - start] == c);
        if !('0' <= c && c <= '9') {
            return None;
        }
        assert(digits.take(i - start + 1).drop_last() =~= digits.take(i - start));
        value = value * 10 + (c as u32 - 48);
        i += 1;
        if value > 65535 {
            proof {
                if is_number(digits) {
                    number_grows(digits, i - start);
                }
            }
            return None;
        }
    }
    assert(digits.take(n - start) =~= digits);
    Some(value as u16)
}

impl EndpointView {
    /// The port, where the text of the endpoint holds one that is a number.
    pub open spec fn port(self) -> Option<u16> {
        match self {
            EndpointView::Host(_, port) => Some(port),
            EndpointView::Whole(text) => match after_colon(text) {
                Some(t) => port_of(t),
                None => None,
            },
        }
    }
}

impl Endpoint {
    /// The port of the endpoint, if it is a number.
    pub fn port(&self) -> (r: Option<u16>)
        ensures
            r == self@.port(),
    {
        match self {
            Endpoint::Host(_, port) => Some(*port),
            Endpoint::Whole(text) => {
                let chars = chars_of(text.as_str());
                let n: usize = chars.len();
                let mut i: usize = n;
                assert(chars@.take(n as int) =~= chars@);
                assert(chars@.skip(n as int) =~= Seq::<char>::empty());
                proof {
                    if let Some(t) = after_colon(chars@) {
                        assert(t + Seq::<char>::empty() =~= t);
                    }
                }
                while i > 0
                    invariant
                        i <= n,
                        n == chars@.len(),
                        self@ == EndpointView::Whole(chars@),
                        after_colon(chars@) == match after_colon(chars@.take(i as int)) {
                            Some(t) => Some(t + chars@.skip(i as int)),
                            None => None,
                        },
                    decreases i,
                {
                    let ghost head = chars@.take(i as int);
                    assert(head.drop_last() =~= chars@.take(i - 1));
                    assert(head.last() == chars@[i - 1]);
                    if chars[i - 1] == ':' {
                        assert(Seq::<char>::empty() + chars@.skip(i as int) =~= chars@.skip(
                            i as int,
                        ));
                        return parse_port(&chars, i);
                    }
                    proof {
                        if let Some(t) = after_colon(head.drop_last()) {
                            assert(t.push(head.last()) + chars@.skip(i as int) =~= t + chars@.skip(
                                i - 1,
                            ));
                        }
                    }
                    i -= 1;
                }
                assert(chars@.take(0).len() == 0);
                None
            },
        }
    }
}

// ---------------------------------------------------------------------------
// Pins
// ---------------------------------------------------------------------------

/// An error of the hex decoder.
#[verifier::external_type_specification]
#[verifier::external_body]
pub struct ExFromHexError(hex::FromHexError);

pub open spec fn is_hex(b: u8) -> bool {
    0x30 <= b <= 0x39 || 0x41 <= b <= 0x46 || 0x61 <= b <= 0x66
}

/// The value of a hexadecimal digit.
pub open spec fn hex_value(b: u8) -> int {
    if b <= 0x39 {
        b - 0x30
    } else if b <= 0x46 {
        b - 0x41 + 10
    } else {
        b - 0x61 + 10
    }
}

/// Pairs of hexadecimal digits, and nothing else.
pub open spec fn is_hex_text(s: Seq<u8>) -> bool {
    s.len() % 2 == 0 && forall|i: int| 0 <= i < s.len() ==> is_hex(#[trigger] s[i])
}

/// The bytes that pairs of hexadecimal digits are, the upper half first.
pub open spec fn hex_bytes(s: Seq<u8>) -> Seq<u8> {
    Seq::new(
        s.len() / 2,
        |i: int| (16 * hex_value(s[2 * i]) + hex_value(s[2 * i + 1])) as u8,
    )
}

/// `hex::decode`: the bytes of a text of pairs of hexadecimal digits, in either
/// case. Any other text is an error.
#[verifier::external_body]
fn hex_decode(text: &str) -> (r: Result<Vec<u8>, hex::FromHexError>)
    ensures
        r is Ok <==> is_hex_text(encode_utf8(text@)),
        r matches Ok(bytes) ==> bytes@ == hex_bytes(encode_utf8(text@)),
{
    hex::decode(text)
}

/// The text of a pin, without `pin ` before it and white space around it.
pub open spec fn pin_text(text: Seq<char>) -> Seq<char> {
    let t = trimmed(text);
    if "pin "@.is_prefix_of(t) {
        trimmed(t.skip(4))
    } else {
        trimmed(t)
    }
}

/// The pin that a text is.
pub open spec fn pin_of(text: Seq<char>) -> Result<Seq<u8>, Seq<char>> {
    let hex = encode_utf8(pin_text(text));
    if !is_hex_text(hex) {
        Err("pin is not hex"@)
    } else if hex.len() / 2 != 32 {
        Err("pin is "@ + decimal(hex.len() / 2) + " bytes, expected 32"@)
    } else {
        Ok(hex_bytes(hex))
    }
}

/// The SHA-256 of a certificate, from its hexadecimal text. `pin ` may stand
/// before it.
pub fn parse_pin(text: &str) -> (r: Result<[u8; 32], String>)
    ensures
        match pin_of(text@) {
            Ok(pin) => r matches Ok(v) && v@ == pin,
            Err(e) => r matches Err(v) && v@ == e,
        },
{
    let text = trim(text);
    let text = if starts_with(text, "pin ") {
        proof {
            reveal_strlit("pin ");
        }
        let n: usize = chars_of(text).len();
        assert(text@.skip(4) =~= text@.subrange(4, n as int));
        text.substring_char(4, n)
    } else {
        text
    };
    let text = trim(text);
    match hex_decode(text) {
        Ok(bytes) => if bytes.len() == 32 {
            Ok(digest_of(bytes.as_slice()))
        } else {
            let mut out = "pin is ".to_owned();
            push_decimal(&mut out, bytes.len() as u64);
            out.append(" bytes, expected 32");
            Err(out)
        },
        Err(_) => Err("pin is not hex".to_owned()),
    }
}

proof fn after_the_colon(host: Seq<char>, t: Seq<char>)
    requires
        !t.contains(':'),
    ensures
        after_colon(host.push(':') + t) == Some(t),
    decreases t.len(),
{
    let s = host.push(':') + t;
    if t.len() > 0 {
        let fewer = t.drop_last();
        assert(!fewer.contains(':')) by {
            if fewer.contains(':') {
                let i = choose|i: int| 0 <= i < fewer.len() && fewer[i] == ':';
                assert(t[i] == ':');
            }
        }
        after_the_colon(host, fewer);
        assert(s.drop_last() =~= host.push(':') + fewer);
        assert(s.last() == t.last());
        assert(t[t.len() - 1] != ':');
        assert(fewer.push(t.last()) =~= t);
    } else {
        assert(s =~= host.push(':'));
    }
}

proof fn number_is_worth(s: Seq<char>)
    requires
        forall|i: int| 0 <= i < s.len() ==> is_digit(#[trigger] s[i]),
    ensures
        number(s) == worth(s),
    decreases s.len(),
{
    if s.len() > 0 {
        assert forall|i: int| 0 <= i < s.drop_last().len() implies is_digit(
            #[trigger] s.drop_last()[i],
        ) by {
            assert(s.drop_last()[i] == s[i]);
        }
        number_is_worth(s.drop_last());
        assert(is_digit(s[s.len() - 1]));
    }
}

/// The port of a text is the number after its last colon, with or without a plus sign, if
/// a port can be as large.
pub proof fn port_stands_after_the_colon(host: Seq<char>, n: nat)
    ensures
        ({
            let p = if n <= 65535 {
                Some(n as u16)
            } else {
                None
            };
            &&& EndpointView::Whole(host + seq![':'] + decimal(n)).port() == p
            &&& EndpointView::Whole(host + seq![':'] + (seq!['+'] + decimal(n))).port() == p
        }),
{
    let d = decimal(n);
    let plus = seq!['+'] + d;
    decimal_is_digits(n);
    decimal_is_worth_its_number(n);
    number_is_worth(d);
    assert(is_digit(d[0]));
    assert(!d.contains(':')) by {
        if d.contains(':') {
            let i = choose|i: int| 0 <= i < d.len() && d[i] == ':';
            assert(is_digit(d[i]));
        }
    }
    assert(!plus.contains(':')) by {
        if plus.contains(':') {
            let i = choose|i: int| 0 <= i < plus.len() && plus[i] == ':';
            assert(i > 0 ==> is_digit(d[i - 1]));
        }
    }
    assert(host + seq![':'] + d =~= host.push(':') + d);
    assert(host + seq![':'] + plus =~= host.push(':') + plus);
    after_the_colon(host, d);
    after_the_colon(host, plus);
    assert(plus.drop_first() =~= d);
}

/// What does not end in a digit has no port.
pub proof fn port_ends_in_a_digit(text: Seq<char>)
    requires
        text.len() == 0 || !('0' <= text.last() <= '9'),
    ensures
        EndpointView::Whole(text).port() is None,
{
    if text.len() > 0 && after_colon(text) is Some {
        let t = after_colon(text)->0;
        if t.len() > 0 {
            assert(t.last() == text.last());
            if t[0] == '+' {
                let d = t.drop_first();
                if d.len() > 0 {
                    assert(d.last() == t.last());
                    assert(!is_digit(d[d.len() - 1]));
                }
            } else {
                assert(!is_digit(t[t.len() - 1]));
            }
        }
    }
}

/// A text without a colon, and every bare IP address, is a host at port 47921. Any other
/// text is taken as it is, and white space around it does not count.
pub proof fn hosts_have_the_default_port(
    before: Seq<char>,
    host: Seq<char>,
    after: Seq<char>,
    bare_ip: bool,
)
    requires
        forall|i: int| 0 <= i < before.len() ==> is_whitespace(#[trigger] before[i]),
        forall|i: int| 0 <= i < after.len() ==> is_whitespace(#[trigger] after[i]),
        host.len() > 0,
        !is_whitespace(host[0]),
        !is_whitespace(host.last()),
    ensures
        !host.contains(':') || bare_ip ==> endpoint(before + host + after, bare_ip) == Ok::<_, Seq<char>>(
            EndpointView::Host(host, 47921),
        ),
        host.contains(':') && !bare_ip ==> endpoint(before + host + after, bare_ip) == Ok::<
            _,
            Seq<char>,
        >(EndpointView::Whole(host)),
{
    trimming_takes_off_white_space(before, host, after);
}

/// White space around a pin, and the word before it, do not count. A pin is 64
/// hexadecimal digits, two for each of its bytes.
pub proof fn pin_is_its_digits(before: Seq<char>, digits: Seq<char>, after: Seq<char>)
    requires
        forall|i: int| 0 <= i < before.len() ==> is_whitespace(#[trigger] before[i]),
        forall|i: int| 0 <= i < after.len() ==> is_whitespace(#[trigger] after[i]),
        digits.len() > 0,
        !is_whitespace(digits[0]),
        !is_whitespace(digits.last()),
        digits[0] != 'p',
    ensures
        pin_text(before + digits + after) == digits,
        pin_text(before + (seq!['p', 'i', 'n', ' '] + digits) + after) == digits,
        pin_of(before + digits + after) is Ok ==> encode_utf8(digits).len() == 64,
        pin_of(before + digits + after) matches Ok(bytes) ==> bytes.len() == 32 && forall|i: int|
            0 <= i < 32 ==> #[trigger] bytes[i] == 16 * digit_worth(encode_utf8(digits)[2 * i])
                + digit_worth(encode_utf8(digits)[2 * i + 1]),
{
    reveal_strlit("pin ");
    let word = seq!['p', 'i', 'n', ' '] + digits;
    assert("pin "@ =~= seq!['p', 'i', 'n', ' ']);
    trimming_takes_off_white_space(before, digits, after);
    trimming_takes_off_white_space(before, word, after);
    trimming_takes_off_white_space(seq![], digits, seq![]);
    assert(Seq::<char>::empty() + digits + Seq::<char>::empty() =~= digits);
    assert(word.skip(4) =~= digits);
    assert("pin "@.is_prefix_of(word));
    assert(!"pin "@.is_prefix_of(digits)) by {
        if "pin "@.is_prefix_of(digits) {
            assert("pin "@[0] == digits.take("pin "@.len() as int)[0]);
        }
    }
    let hex = encode_utf8(digits);
    if pin_of(before + digits + after) is Ok {
        assert forall|i: int| 0 <= i < 32 implies #[trigger] hex_bytes(hex)[i] == 16 * digit_worth(
            hex[2 * i],
        ) + digit_worth(hex[2 * i + 1]) by {
            assert(is_hex(hex[2 * i]));
            assert(is_hex(hex[2 * i + 1]));
        }
    }
}

/// What a digit is worth, in a text of hexadecimal digits of either case.
pub open spec fn digit_worth(b: u8) -> int {
    if b >= 97 {
        b - 87
    } else if b >= 65 {
        b - 55
    } else {
        b - 48
    }
}

/// A text is a pin if and only if it is 64 hexadecimal digits, and of any other it is said
/// what is wrong: that it is not made of pairs of digits, or how many bytes it is.
pub proof fn pins_have_thirty_two_bytes(text: Seq<char>)
    ensures
        ({
            let s = encode_utf8(pin_text(text));
            let digits = s.len() % 2 == 0 && forall|i: int|
                0 <= i < s.len() ==> 48 <= (#[trigger] s[i]) <= 57 || 65 <= s[i] <= 70 || 97 <= s[i]
                    <= 102;
            &&& pin_of(text) is Ok <==> digits && s.len() == 64
            &&& !digits ==> pin_of(text) == Err::<Seq<u8>, _>("pin is not hex"@)
            &&& digits && s.len() != 64 ==> pin_of(text) == Err::<Seq<u8>, _>(
                "pin is "@ + decimal(s.len() / 2) + " bytes, expected 32"@,
            )
        }),
{
    let s = encode_utf8(pin_text(text));
    if is_hex_text(s) {
        assert forall|i: int| 0 <= i < s.len() implies 48 <= (#[trigger] s[i]) <= 57 || 65 <= s[i]
            <= 70 || 97 <= s[i] <= 102 by {
            assert(is_hex(s[i]));
        }
    }
}

} // verus!
