use omarchy_connect::bytes::put_le;
use omarchy_connect::file::{
    Disk, FileReceiver, FileSender, FileTransferError, FILE_CHUNK_SIZE, FILE_WINDOW_BYTES,
};
use omarchy_connect::file_name::{sanitize_file_name, MAX_NAME_CHARS};
use omarchy_connect::keys::KEY_A;
use omarchy_connect::message::{
    frame_length, read_message, write_message, DisplayInfo, InputEvent, Message, ProtocolError,
    I_KEY, MAX_DISPLAYS, MAX_FRAME_BYTES, MAX_STRING_BYTES, T_DISPLAYS, T_HELLO, T_INPUT, T_VIDEO,
    VERSION,
};

fn roundtrip(msg: Message) {
    let mut buf = Vec::new();
    msg.encode(&mut buf);
    let decoded = Message::decode(&buf).unwrap();
    assert_eq!(decoded, msg);
}

#[test]
fn every_message_roundtrips() {
    roundtrip(Message::Hello {
        version: VERSION,
        name: "omarchy-client".into(),
    });
    roundtrip(Message::HelloAck { version: VERSION });
    roundtrip(Message::Displays {
        displays: vec![
            DisplayInfo {
                id: 0,
                x: 0,
                y: 0,
                width: 960,
                height: 540,
                scale_percent: 100,
                name: "eDP-1".into(),
            },
            DisplayInfo {
                id: 1,
                x: 960,
                y: -40,
                width: 1920,
                height: 1080,
                scale_percent: 150,
                name: "HDMI-A-1".into(),
            },
        ],
    });
    roundtrip(Message::Video {
        display_id: 1,
        pts_ms: 33,
        keyframe: true,
        data: vec![0, 0, 0, 1, 0x65, 1, 2, 3],
    });
    roundtrip(Message::Input(InputEvent::MouseMove {
        display_id: 0,
        x: 10,
        y: 20,
    }));
    roundtrip(Message::Input(InputEvent::MouseButton {
        display_id: 0,
        button: 1,
        pressed: true,
    }));
    roundtrip(Message::Input(InputEvent::MouseWheel {
        display_id: 1,
        dx: -1,
        dy: 2,
    }));
    roundtrip(Message::Input(InputEvent::Key {
        code: KEY_A,
        pressed: false,
    }));
    roundtrip(Message::FileOffer {
        id: 7,
        name: "notes.txt".into(),
        size: 99,
    });
    roundtrip(Message::FileAccept { id: 7 });
    roundtrip(Message::FileChunk {
        id: 7,
        offset: 16,
        data: b"hello".to_vec(),
    });
    roundtrip(Message::FileAck { id: 7, offset: 21 });
    roundtrip(Message::FileComplete {
        id: 7,
        sha256: [0xab; 32],
    });
    roundtrip(Message::FileCancel {
        id: 7,
        reason: "busy".into(),
    });
    roundtrip(Message::Ping { nonce: 42 });
    roundtrip(Message::Pong { nonce: 42 });
}

#[test]
fn rejects_trailing_bytes_and_bad_pressed_flag() {
    let mut buf = Vec::new();
    Message::Ping { nonce: 1 }.encode(&mut buf);
    buf.push(0);
    assert!(Message::decode(&buf).is_err());

    let mut bad = Vec::new();
    bad.push(T_INPUT);
    bad.push(I_KEY);
    put_le(&mut bad, 30, 2);
    bad.push(2);
    assert!(matches!(Message::decode(&bad), Err(ProtocolError::Invalid)));
}

#[test]
fn framed_write_and_read() {
    let msg = Message::Hello {
        version: VERSION,
        name: "desk".into(),
    };
    let mut stream = Vec::new();
    write_message(&mut stream, &msg).unwrap();
    let (got, used) = read_message(&stream).unwrap();
    assert_eq!(got, msg);
    assert_eq!(used, stream.len());
}

#[test]
fn layout_of_a_hello() {
    let mut buf = Vec::new();
    Message::Hello {
        version: 1,
        name: "ab".into(),
    }
    .encode(&mut buf);
    assert_eq!(buf, vec![T_HELLO, 1, 0, 2, 0, b'a', b'b']);
}

#[test]
fn layout_of_signed_coordinates() {
    let mut buf = Vec::new();
    Message::Displays {
        displays: vec![DisplayInfo {
            id: 2,
            x: -1,
            y: -2147483648,
            width: 3,
            height: 4,
            scale_percent: 200,
            name: String::new(),
        }],
    }
    .encode(&mut buf);
    assert_eq!(buf[0], T_DISPLAYS);
    assert_eq!(&buf[1..3], &[1, 0]);
    assert_eq!(&buf[7..11], &[255, 255, 255, 255]);
    assert_eq!(&buf[11..15], &[0, 0, 0, 0x80]);
    assert_eq!(&buf[23..25], &[200, 0]);
}

#[test]
fn keyframe_is_the_lowest_flag() {
    let mut buf = vec![T_VIDEO];
    put_le(&mut buf, 9, 4);
    put_le(&mut buf, 8, 4);
    buf.push(0b1110);
    put_le(&mut buf, 1, 4);
    buf.push(77);
    match Message::decode(&buf).unwrap() {
        Message::Video {
            display_id,
            pts_ms,
            keyframe,
            data,
        } => {
            assert_eq!((display_id, pts_ms, keyframe), (9, 8, false));
            assert_eq!(data, vec![77]);
        }
        other => panic!("{other:?}"),
    }
}

#[test]
fn every_decode_error() {
    assert_eq!(Message::decode(&[]), Err(ProtocolError::Truncated));
    assert_eq!(Message::decode(&[12, 0]), Err(ProtocolError::Truncated));
    assert_eq!(Message::decode(&[99]), Err(ProtocolError::UnknownType(99)));
    assert_eq!(
        Message::decode(&[T_HELLO, 1, 0, 1, 0, 0xff]),
        Err(ProtocolError::Utf8)
    );
    let mut long = vec![T_HELLO, 1, 0];
    put_le(&mut long, MAX_STRING_BYTES as u64 + 1, 2);
    assert_eq!(Message::decode(&long), Err(ProtocolError::Invalid));
    let mut many = vec![T_DISPLAYS];
    put_le(&mut many, MAX_DISPLAYS as u64 + 1, 2);
    assert_eq!(Message::decode(&many), Err(ProtocolError::Invalid));
}

#[test]
fn no_payload_is_the_start_of_another() {
    let display = |id| DisplayInfo {
        id,
        x: -5,
        y: 7,
        width: 960,
        height: 540,
        scale_percent: 125,
        name: "é".into(),
    };
    for msg in [
        Message::Hello {
            version: VERSION,
            name: "añb".into(),
        },
        Message::Displays {
            displays: vec![display(1), display(2)],
        },
        Message::Video {
            display_id: 1,
            pts_ms: 2,
            keyframe: true,
            data: vec![0, 0, 1, 9],
        },
        Message::Input(InputEvent::MouseButton {
            display_id: 1,
            button: 2,
            pressed: true,
        }),
        Message::Input(InputEvent::Key {
            code: KEY_A,
            pressed: false,
        }),
        Message::FileChunk {
            id: 1,
            offset: 2,
            data: vec![3; 5],
        },
        Message::FileComplete {
            id: 1,
            sha256: [4; 32],
        },
        Message::FileCancel {
            id: 1,
            reason: "no".into(),
        },
    ] {
        let mut buf = Vec::new();
        msg.encode(&mut buf);
        for k in 0..buf.len() {
            assert_eq!(Message::decode(&buf[..k]), Err(ProtocolError::Truncated));
        }
        buf.push(0);
        assert_eq!(Message::decode(&buf), Err(ProtocolError::Invalid));
    }
}

#[test]
fn frame_lengths_are_bounded() {
    assert_eq!(frame_length([1, 0, 0, 0]), Ok(1));
    assert_eq!(frame_length([0, 0, 0, 0]), Err(ProtocolError::BadLength(0)));
    let over = (MAX_FRAME_BYTES as u32 + 1).to_le_bytes();
    assert_eq!(
        frame_length(over),
        Err(ProtocolError::BadLength(MAX_FRAME_BYTES as u32 + 1))
    );
}

#[test]
fn streams_that_end_early() {
    assert_eq!(read_message(&[]), Err(ProtocolError::Closed));
    assert_eq!(read_message(&[1, 0, 0]), Err(ProtocolError::Closed));
    let cut = read_message(&[9, 0, 0, 0, 12, 1]).unwrap_err();
    assert_eq!(cut, ProtocolError::Io("early eof".into()));
    assert_eq!(cut.text(), "io error: early eof");
    let mut stream = Vec::new();
    write_message(&mut stream, &Message::Ping { nonce: 3 }).unwrap();
    write_message(&mut stream, &Message::Pong { nonce: 4 }).unwrap();
    let (first, used) = read_message(&stream).unwrap();
    assert_eq!(first, Message::Ping { nonce: 3 });
    let (second, _) = read_message(&stream[used..]).unwrap();
    assert_eq!(second, Message::Pong { nonce: 4 });
}

#[test]
fn long_names_are_cut_between_characters() {
    let mut name = "x".repeat(MAX_STRING_BYTES - 1);
    name.push('é');
    let mut buf = Vec::new();
    Message::Hello { version: 1, name }.encode(&mut buf);
    match Message::decode(&buf).unwrap() {
        Message::Hello { name, .. } => assert_eq!(name, "x".repeat(MAX_STRING_BYTES - 1)),
        other => panic!("{other:?}"),
    }
}

#[test]
fn protocol_errors_in_words() {
    assert_eq!(ProtocolError::Closed.text(), "connection closed");
    assert_eq!(
        ProtocolError::BadLength(0).text(),
        "frame length 0 is outside 1..=8388608"
    );
    assert_eq!(ProtocolError::Truncated.text(), "truncated message");
    assert_eq!(ProtocolError::UnknownType(99).text(), "unknown message type 99");
    assert_eq!(ProtocolError::Invalid.text(), "invalid message field");
    assert_eq!(ProtocolError::Utf8.text(), "message text is not utf-8");
    assert_eq!(
        ProtocolError::Io("connection reset by peer".into()).text(),
        "io error: connection reset by peer"
    );
}

// ---------------------------------------------------------------------------
// Files. The disk is a pair of buffers: the temporary file and the kept one.
// ---------------------------------------------------------------------------

struct Store {
    temp: Option<Vec<u8>>,
    kept: Option<Vec<u8>>,
}

fn perform(store: &mut Store, disk: Disk, msg: &Message) {
    match disk {
        Disk::Unchanged => {}
        Disk::Append => {
            if let Message::FileChunk { data, .. } = msg {
                store.temp.as_mut().expect("temporary file").extend(data);
            } else {
                panic!("append without a chunk");
            }
        }
        Disk::Keep => store.kept = store.temp.take(),
        Disk::Discard => store.temp = None,
    }
}

fn poll(sender: &mut FileSender, file: &[u8]) -> Vec<Message> {
    let from = sender.next_offset() as usize;
    let n = sender.wanted();
    sender.poll(&file[from..from + n])
}

fn drive(name: &str, file: &[u8]) -> Vec<u8> {
    let mut sender = FileSender::open(4, name, file.len() as u64);
    let mut receiver: Option<FileReceiver> = None;
    let mut store = Store {
        temp: None,
        kept: None,
    };
    for _ in 0..10_000 {
        if sender.is_complete() {
            break;
        }
        let outgoing = poll(&mut sender, file);
        if outgoing.is_empty() && receiver.is_none() {
            break;
        }
        for msg in outgoing {
            if let Message::FileOffer { id, name, size } = &msg {
                let (recv, accept) = FileReceiver::accept("in", *id, name, *size);
                store.temp = Some(Vec::new());
                receiver = Some(recv);
                sender.on_peer(&accept).unwrap();
                continue;
            }
            let recv = receiver.as_mut().expect("offer first");
            let (disk, replies) = recv.handle(&msg);
            perform(&mut store, disk, &msg);
            for reply in replies.unwrap() {
                sender.on_peer(&reply).unwrap();
            }
        }
    }
    assert!(
        sender.is_complete(),
        "sender did not finish: {:?}",
        sender.failure()
    );
    let recv = receiver.expect("receiver");
    assert!(recv.is_complete());
    assert_eq!(recv.saved_path().unwrap(), format!("in/{name}"));
    store.kept.expect("kept file")
}

#[test]
fn transfers_bytes_larger_than_the_window() {
    let bytes: Vec<u8> = (0..200_000).map(|i| (i % 251) as u8).collect();
    assert_eq!(drive("payload.bin", &bytes), bytes);
}

#[test]
fn transfers_empty_file() {
    assert_eq!(drive("empty.dat", b""), b"");
}

#[test]
fn window_stops_until_ack() {
    let file = vec![1u8; 200_000];
    let mut sender = FileSender::open(1, "wide.bin", 200_000);
    let offer = poll(&mut sender, &file);
    assert!(matches!(offer[0], Message::FileOffer { .. }));
    sender.on_peer(&Message::FileAccept { id: 1 }).unwrap();
    let first = poll(&mut sender, &file);
    let sent: u64 = first
        .iter()
        .map(|m| match m {
            Message::FileChunk { data, .. } => data.len() as u64,
            _ => 0,
        })
        .sum();
    assert!(sent > 0 && sent <= FILE_WINDOW_BYTES);
    assert!(poll(&mut sender, &file).is_empty());
}

#[test]
fn chunks_have_their_size() {
    let file = vec![9u8; FILE_CHUNK_SIZE + 5];
    let mut sender = FileSender::open(2, "a", file.len() as u64);
    poll(&mut sender, &file);
    sender.on_peer(&Message::FileAccept { id: 2 }).unwrap();
    let lens: Vec<usize> = poll(&mut sender, &file)
        .iter()
        .map(|m| match m {
            Message::FileChunk { data, .. } => data.len(),
            _ => 0,
        })
        .collect();
    assert_eq!(lens, vec![FILE_CHUNK_SIZE, 5]);
}

#[test]
fn rejects_path_escape_in_offer_name() {
    assert_eq!(sanitize_file_name("../../etc/passwd"), "passwd");
    assert_eq!(sanitize_file_name(".."), "file.bin");
    assert_eq!(sanitize_file_name("notes (final).txt"), "notesfinal.txt");
}

#[test]
fn more_file_names() {
    assert_eq!(sanitize_file_name(""), "file.bin");
    assert_eq!(sanitize_file_name("/"), "file.bin");
    assert_eq!(sanitize_file_name("dir/"), "dir");
    assert_eq!(sanitize_file_name("a/."), "a");
    assert_eq!(sanitize_file_name("a/.."), "file.bin");
    assert_eq!(sanitize_file_name(".bashrc"), "bashrc");
    assert_eq!(sanitize_file_name("naïve.txt"), "nave.txt");
    let long = "y".repeat(300);
    assert_eq!(sanitize_file_name(&long).len(), MAX_NAME_CHARS);
}

#[test]
fn bad_hash_does_not_keep_the_file() {
    let (mut recv, _accept) = FileReceiver::accept("dir", 9, "a.bin", 4);
    let mut store = Store {
        temp: Some(Vec::new()),
        kept: None,
    };
    assert_eq!(recv.temp_path(), "dir/.a.bin.9.partial");
    assert_eq!(recv.final_path(), "dir/a.bin");
    let chunk = Message::FileChunk {
        id: 9,
        offset: 0,
        data: b"abcd".to_vec(),
    };
    let (disk, replies) = recv.handle(&chunk);
    perform(&mut store, disk, &chunk);
    assert!(matches!(replies.unwrap()[0], Message::FileAck { offset: 4, .. }));
    let complete = Message::FileComplete {
        id: 9,
        sha256: [0; 32],
    };
    let (disk, result) = recv.handle(&complete);
    perform(&mut store, disk, &complete);
    let err = result.unwrap_err();
    assert!(matches!(err, FileTransferError::HashMismatch(9)));
    assert!(store.kept.is_none());
    assert!(store.temp.is_none());
    assert_eq!(err.text(), "hash mismatch for transfer 9");
}

#[test]
fn known_digest_keeps_the_file() {
    // SHA-256 of "abc".
    let sha256 = [
        0xba, 0x78, 0x16, 0xbf, 0x8f, 0x01, 0xcf, 0xea, 0x41, 0x41, 0x40, 0xde, 0x5d, 0xae, 0x22,
        0x23, 0xb0, 0x03, 0x61, 0xa3, 0x96, 0x17, 0x7a, 0x9c, 0xb4, 0x10, 0xff, 0x61, 0xf2, 0x00,
        0x15, 0xad,
    ];
    let (mut recv, accept) = FileReceiver::accept("dir", 1, "abc.txt", 3);
    assert_eq!(accept, Message::FileAccept { id: 1 });
    let (_, replies) = recv.handle(&Message::FileChunk {
        id: 1,
        offset: 0,
        data: b"abc".to_vec(),
    });
    assert_eq!(replies.unwrap(), vec![Message::FileAck { id: 1, offset: 3 }]);
    let (disk, replies) = recv.handle(&Message::FileComplete { id: 1, sha256 });
    assert_eq!(disk, Disk::Keep);
    assert_eq!(replies.unwrap(), vec![Message::FileComplete { id: 1, sha256 }]);
    assert_eq!(recv.saved_path(), Some("dir/abc.txt"));
}

#[test]
fn receiver_refuses_gaps() {
    let (mut recv, _) = FileReceiver::accept("dir", 3, "a", 10);
    let (disk, result) = recv.handle(&Message::FileChunk {
        id: 3,
        offset: 1,
        data: vec![0],
    });
    assert_eq!(disk, Disk::Discard);
    assert_eq!(
        result,
        Ok(vec![Message::FileCancel {
            id: 3,
            reason: "chunk out of order".into()
        }])
    );
    assert!(!recv.is_complete());
    assert!(recv.is_failed());
    // What comes after it is ignored.
    let (disk, result) = recv.handle(&Message::FileCancel {
        id: 3,
        reason: "late".into(),
    });
    assert_eq!((disk, result), (Disk::Unchanged, Ok(Vec::new())));
}

#[test]
fn sender_refuses_what_it_did_not_send() {
    let mut sender = FileSender::open(5, "a", 10);
    assert_eq!(sender.on_peer(&Message::Ping { nonce: 0 }), Ok(false));
    let err = sender
        .on_peer(&Message::FileAck { id: 5, offset: 1 })
        .unwrap_err();
    assert_eq!(err.text(), "file transfer 5 failed: ack past sent bytes");
    assert!(sender.is_failed());
    assert_eq!(sender.failure(), Some("ack past sent bytes"));
}

#[test]
fn io_errors_in_words() {
    assert_eq!(
        FileTransferError::Io("disk full".into()).text(),
        "io error: disk full"
    );
}
