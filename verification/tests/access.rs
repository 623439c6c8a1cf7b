use omarchy_connect::auth::{validate_pin, AuthFailure, PinExchange, Side};
use omarchy_connect::door::{ClientDoor, HostDoor, Phase};
use omarchy_connect::handshake::{
    permit, required_pin, write_auth, AuthMessage, Denial, T_AUTH, T_AUTH_CONFIRM, T_AUTH_DENIED,
};
use omarchy_connect::lockout::{whole_seconds, Lockout, BASE_LOCK, FREE_FAILURES, MAX_LOCK};
use omarchy_connect::message::{
    frame_length, Message, ProtocolError, MAX_FRAME_BYTES, VERSION,
};
use omarchy_connect::settings::Settings;

fn run(client_pin: &str, host_pin: &str, client_bind: &[u8], host_bind: &[u8]) -> bool {
    let (client, a) = PinExchange::start(Side::Client, client_pin);
    let (host, b) = PinExchange::start(Side::Host, host_pin);
    let client = client.finish(&b, client_bind).unwrap_or_else(|_| panic!("client"));
    let host = host.finish(&a, host_bind).unwrap_or_else(|_| panic!("host"));
    host.verify_peer(&client.confirmation()).is_ok()
        && client.verify_peer(&host.confirmation()).is_ok()
}

#[test]
fn matching_pin_confirms_both_ways() {
    assert!(run("482913", "482913", b"tls", b"tls"));
    assert!(run(" 482913\n", "482913", b"tls", b"tls"));
}

#[test]
fn wrong_pin_or_split_tls_session_fails() {
    assert!(!run("482914", "482913", b"tls", b"tls"));
    assert!(!run("482913", "482913", b"leg-one", b"leg-two"));
}

#[test]
fn pin_rules() {
    assert!(validate_pin("12345").is_err());
    assert_eq!(validate_pin(" 123456 "), Ok("123456"));
    assert!(validate_pin("123 456").is_err());
    assert!(validate_pin(&"9".repeat(33)).is_err());
}

#[test]
fn pin_errors_in_words() {
    assert_eq!(
        validate_pin("12345"),
        Err("PIN must be 6 to 32 characters".to_string())
    );
    assert_eq!(
        validate_pin("123\t456"),
        Err("PIN cannot contain spaces".to_string())
    );
    assert_eq!(validate_pin("ünïcøde"), Ok("ünïcøde"));
    assert_eq!(AuthFailure.text(), "PIN did not match");
}

#[test]
fn payloads_of_another_shape_give_no_key() {
    let (client, _) = PinExchange::start(Side::Client, "482913");
    assert!(client.finish(b"short", b"tls").is_err());
    // A payload of one's own side is not that of the peer.
    let (client, a) = PinExchange::start(Side::Client, "482913");
    assert_eq!(a.len(), 33);
    assert!(client.finish(&a, b"tls").is_err());
}

#[test]
fn confirmations_are_of_one_side() {
    let (client, a) = PinExchange::start(Side::Client, "482913");
    let (host, b) = PinExchange::start(Side::Host, "482913");
    let client = client.finish(&b, b"tls").unwrap_or_else(|_| panic!("client"));
    let host = host.finish(&a, b"tls").unwrap_or_else(|_| panic!("host"));
    assert_ne!(client.confirmation(), host.confirmation());
    assert!(host.verify_peer(&host.confirmation()).is_err());
    assert!(client.verify_peer(&client.confirmation()).is_err());
    let mut long = client.confirmation().to_vec();
    assert!(host.verify_peer(&long).is_ok());
    long.push(0);
    assert!(host.verify_peer(&long).is_err());
    assert!(host.verify_peer(&client.confirmation()[..31]).is_err());
    assert!(host.verify_peer(&[]).is_err());
}

#[test]
fn locks_after_free_failures_and_doubles() {
    let now = 1_000;
    let mut lockout = Lockout::default();
    for _ in 0..FREE_FAILURES - 1 {
        assert_eq!(lockout.fail(now), None);
    }
    assert_eq!(lockout.remaining(now), None);
    assert_eq!(lockout.fail(now), Some(BASE_LOCK));
    assert_eq!(lockout.remaining(now), Some(BASE_LOCK));
    assert_eq!(lockout.fail(now), Some(BASE_LOCK * 2));
    assert_eq!(lockout.remaining(now + MAX_LOCK), None);
    for _ in 0..20 {
        lockout.fail(now);
    }
    assert_eq!(lockout.remaining(now), Some(MAX_LOCK));
    lockout.succeed();
    assert_eq!(lockout.remaining(now), None);
}

#[test]
fn locks_grow_to_a_quarter_of_an_hour() {
    let second = 1_000_000_000;
    let mut lockout = Lockout::default();
    let locks: Vec<Option<u64>> = (0..11).map(|_| lockout.fail(0)).collect();
    let expected: Vec<Option<u64>> = [0, 0, 0, 0, 30, 60, 120, 240, 480, 900, 900]
        .iter()
        .map(|s| if *s == 0 { None } else { Some(s * second) })
        .collect();
    assert_eq!(locks, expected);
    assert_eq!(lockout.remaining(899 * second), Some(second));
    assert_eq!(lockout.remaining(900 * second), None);
    assert_eq!(lockout.wall_until(second / 2, 1_000), Some(1_900));
    assert_eq!(lockout.wall_until(0, u64::MAX), Some(u64::MAX));
    assert_eq!(lockout.wall_until(900 * second, 1_000), None);
    assert_eq!(whole_seconds(second), 1);
    assert_eq!(whole_seconds(second + 1), 2);
}

#[test]
fn auth_messages_roundtrip() {
    for msg in [
        AuthMessage::Auth(vec![1, 2, 3]),
        AuthMessage::Confirm([7; 32]),
        AuthMessage::Denied("Wrong PIN".into()),
    ] {
        assert_eq!(AuthMessage::decode(&msg.encode()), Ok(msg));
    }
    assert_eq!(AuthMessage::Auth(vec![5]).encode(), vec![T_AUTH, 5]);
}

#[test]
fn auth_messages_that_are_none() {
    assert_eq!(AuthMessage::decode(&[]), Err(ProtocolError::Truncated));
    assert_eq!(
        AuthMessage::decode(&[T_AUTH_CONFIRM; 32]),
        Err(ProtocolError::Truncated)
    );
    assert_eq!(
        AuthMessage::decode(&[T_AUTH_CONFIRM; 34]),
        Err(ProtocolError::Invalid)
    );
    assert_eq!(
        AuthMessage::decode(&[T_AUTH_DENIED, 0xff]),
        Err(ProtocolError::Utf8)
    );
    assert_eq!(
        AuthMessage::decode(&[1]),
        Err(ProtocolError::UnknownType(1))
    );
}

#[test]
fn denials_in_words() {
    assert_eq!(Denial::AccessOff.text(), "Unattended access is off");
    assert_eq!(Denial::WrongPin.text(), "Wrong PIN");
    assert_eq!(
        Denial::Locked(29_500_000_000).text(),
        "Too many wrong PINs. Try again in 30 s"
    );
}

fn settings(unattended: bool, pin: &str) -> Settings {
    Settings {
        unattended,
        pin: Some(pin.to_string()),
        ..Settings::default()
    }
}

#[test]
fn fixed_pin_comes_before_the_settings() {
    let stored = settings(true, "482913");
    assert_eq!(required_pin(None, &stored), Some("482913"));
    assert_eq!(required_pin(Some("111111"), &stored), Some("111111"));
    assert_eq!(required_pin(None, &settings(false, "482913")), None);
}

#[test]
fn locked_host_refuses_the_right_pin() {
    let mut lockout = Lockout::default();
    assert_eq!(permit(&lockout, 0, None), Err(Denial::AccessOff));
    assert_eq!(permit(&lockout, 0, Some("482913")), Ok("482913"));
    for _ in 0..FREE_FAILURES {
        lockout.fail(0);
    }
    assert_eq!(
        permit(&lockout, 1, Some("482913")),
        Err(Denial::Locked(BASE_LOCK - 1))
    );
    assert_eq!(permit(&lockout, BASE_LOCK, Some("482913")), Ok("482913"));
}

/// Both ends in turn. The error is that of the client.
fn connect(
    stored: &Settings,
    typed: &str,
    lockout: &mut Lockout,
    now: u64,
    legs: (&[u8], &[u8]),
) -> Result<(), String> {
    let mut host = HostDoor::new();
    let (mut client, hello) = ClientDoor::new("omarchy-client");
    assert_eq!(
        hello,
        Message::Hello {
            version: VERSION,
            name: "omarchy-client".into()
        }
    );
    let ack = host.on_hello(&hello).unwrap();
    assert_eq!(host.name(), "omarchy-client");
    let proof = client.on_ack(&ack, typed)?;
    let reply = host
        .on_auth(&proof, required_pin(None, stored), lockout, now, legs.1)
        .unwrap();
    let confirmation = client.on_auth(&reply, legs.0)?;
    let reply = host.on_confirm(&confirmation, lockout, now).unwrap();
    client.on_confirm(&reply)?;
    assert_eq!(host.phase(), Phase::Open);
    assert_eq!(client.phase(), Phase::Open);
    Ok(())
}

#[test]
fn unattended_settings_gate_the_pin() {
    let mut lockout = Lockout::default();
    let tls: (&[u8], &[u8]) = (b"tls", b"tls");

    let err = connect(&Settings::default(), "482913", &mut lockout, 0, tls).unwrap_err();
    assert!(err.contains("Unattended access is off"), "{err}");

    let on = settings(true, "482913");
    let err = connect(&on, "111111", &mut lockout, 0, tls).unwrap_err();
    assert!(err.contains("Wrong PIN"), "{err}");
    connect(&on, "482913", &mut lockout, 0, tls).expect("session");

    let off = settings(false, "482913");
    let err = connect(&off, "482913", &mut lockout, 0, tls).unwrap_err();
    assert!(err.contains("Unattended access is off"), "{err}");
}

#[test]
fn five_wrong_pins_lock_until_the_right_one() {
    let on = settings(true, "482913");
    let tls: (&[u8], &[u8]) = (b"tls", b"tls");
    let mut lockout = Lockout::default();
    for _ in 0..5 {
        assert_eq!(
            connect(&on, "111111", &mut lockout, 0, tls),
            Err("Wrong PIN".to_string())
        );
    }
    let err = connect(&on, "482913", &mut lockout, BASE_LOCK - 1, tls).unwrap_err();
    assert_eq!(err, "Too many wrong PINs. Try again in 1 s");
    assert_eq!(connect(&on, "482913", &mut lockout, BASE_LOCK, tls), Ok(()));
    assert_eq!(
        connect(&on, "111111", &mut lockout, BASE_LOCK, tls),
        Err("Wrong PIN".to_string())
    );
    assert_eq!(connect(&on, "482913", &mut lockout, BASE_LOCK, tls), Ok(()));
}

#[test]
fn relayed_exchange_is_denied() {
    let on = settings(true, "482913");
    let mut lockout = Lockout::default();
    assert_eq!(
        connect(&on, "482913", &mut lockout, 0, (b"leg-one", b"leg-two")),
        Err("Wrong PIN".to_string())
    );
}

#[test]
fn doors_shut_on_what_is_not_due() {
    let mut host = HostDoor::new();
    assert_eq!(
        host.on_hello(&Message::Ping { nonce: 1 }),
        Err("expected hello".to_string())
    );
    assert_eq!(host.phase(), Phase::Shut);
    let mut host = HostDoor::new();
    assert_eq!(
        host.on_hello(&Message::Hello {
            version: 2,
            name: "x".into()
        }),
        Err("client protocol version 2, host is 1".to_string())
    );
    let (mut client, _) = ClientDoor::new("c");
    assert_eq!(
        client.on_ack(&Message::HelloAck { version: 3 }, "482913"),
        Err("host protocol version 3, client is 1".to_string())
    );
    let (mut client, _) = ClientDoor::new("c");
    assert_eq!(
        client.on_ack(&Message::Pong { nonce: 1 }, "482913"),
        Err("expected hello ack".to_string())
    );
    assert_eq!(client.phase(), Phase::Shut);
}

#[test]
fn doors_want_the_messages_in_order() {
    let hello = Message::Hello {
        version: VERSION,
        name: "c".into(),
    };
    let mut lockout = Lockout::default();
    let mut host = HostDoor::new();
    host.on_hello(&hello).unwrap();
    assert_eq!(
        host.on_auth(
            &AuthMessage::Confirm([0; 32]),
            Some("482913"),
            &mut lockout,
            0,
            b"tls"
        ),
        Err("expected auth".to_string())
    );
    // A payload that is none is one wrong guess.
    let mut host = HostDoor::new();
    host.on_hello(&hello).unwrap();
    assert_eq!(
        host.on_auth(
            &AuthMessage::Auth(vec![1]),
            Some("482913"),
            &mut lockout,
            0,
            b"tls"
        ),
        Ok(AuthMessage::Denied("Wrong PIN".into()))
    );
    for _ in 0..3 {
        assert_eq!(lockout.fail(0), None);
    }
    assert_eq!(lockout.fail(0), Some(BASE_LOCK));

    let (mut client, _) = ClientDoor::new("c");
    let ack = Message::HelloAck { version: VERSION };
    client.on_ack(&ack, "482913").unwrap();
    assert_eq!(
        client.on_auth(&AuthMessage::Confirm([0; 32]), b"tls"),
        Err("expected auth".to_string())
    );
    let (mut client, _) = ClientDoor::new("c");
    client.on_ack(&ack, "482913").unwrap();
    assert_eq!(
        client.on_auth(&AuthMessage::Auth(vec![]), b"tls"),
        Err("PIN did not match".to_string())
    );
}

#[test]
fn client_rejects_a_host_without_the_pin() {
    let (mut client, _) = ClientDoor::new("c");
    client
        .on_ack(&Message::HelloAck { version: VERSION }, "482913")
        .unwrap();
    let (_, b) = PinExchange::start(Side::Host, "000000");
    client.on_auth(&AuthMessage::Auth(b), b"tls").unwrap();
    assert_eq!(
        client.on_confirm(&AuthMessage::Confirm([0; 32])),
        Err("PIN did not match".to_string())
    );
    assert_eq!(client.phase(), Phase::Shut);
}

#[test]
fn auth_messages_are_framed() {
    let mut out = vec![9];
    write_auth(&mut out, &AuthMessage::Denied("no".into())).unwrap();
    assert_eq!(out, [9, 3, 0, 0, 0, T_AUTH_DENIED, b'n', b'o']);
    for msg in [
        AuthMessage::Auth(vec![7; 33]),
        AuthMessage::Confirm([5; 32]),
        AuthMessage::Denied("Wrong PIN".into()),
    ] {
        let mut frame = Vec::new();
        write_auth(&mut frame, &msg).unwrap();
        let len = frame_length([frame[0], frame[1], frame[2], frame[3]]).unwrap();
        assert_eq!(frame.len(), 4 + len);
        assert_eq!(AuthMessage::decode(&frame[4..]), Ok(msg));
    }
}

#[test]
fn auth_messages_have_the_length_of_a_frame() {
    let mut out = vec![9];
    let fits = AuthMessage::Auth(vec![0; MAX_FRAME_BYTES - 1]);
    write_auth(&mut out, &fits).unwrap();
    assert_eq!(out.len(), 5 + MAX_FRAME_BYTES);
    let over = AuthMessage::Auth(vec![0; MAX_FRAME_BYTES]);
    let mut out = vec![9];
    assert_eq!(write_auth(&mut out, &over), Err(ProtocolError::Invalid));
    assert_eq!(out, [9]);
}
