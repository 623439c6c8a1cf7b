use omarchy_connect::address::{parse_host, parse_pin, Endpoint};
use omarchy_connect::capture::RawFrame;
use omarchy_connect::client::{
    sample_rgba, take_command, ClientCommand, Live, Order, SessionConfig, UiEvent,
};
use omarchy_connect::decode::{DecoderBank, RgbaFrame};
use omarchy_connect::input::Cursor;
use omarchy_connect::keys::{KEY_A, KEY_LEFTALT, KEY_LEFTSHIFT};
use omarchy_connect::message::{DisplayInfo, InputEvent, Message};
use omarchy_connect::report::{display_label, file_status};
use omarchy_connect::session::next_id;
use omarchy_connect::status::DEFAULT_PORT;
use omarchy_connect::synthetic::{demo_displays, SyntheticDesktop, DEMO_HEIGHT, DEMO_WIDTH};
use omarchy_connect::text::trim;
use omarchy_connect::transfers::{DiskOrder, Progress, Transfers};
use omarchy_connect::window::{
    apply_input, check_form, desk, Desk, Modifiers, Panel, Point, WindowEvent,
};

// ---------------------------------------------------------------------------
// Addresses
// ---------------------------------------------------------------------------

#[test]
fn host_without_port_uses_default() {
    let addr = parse_host("127.0.0.1", true).unwrap();
    assert_eq!(addr.port(), Some(DEFAULT_PORT));
    assert_eq!(addr, Endpoint::Host("127.0.0.1".into(), DEFAULT_PORT));
}

#[test]
fn host_keeps_explicit_port() {
    let addr = parse_host("10.0.0.8:9", false).unwrap();
    assert_eq!(addr.port(), Some(9));
}

#[test]
fn empty_host_is_rejected() {
    assert!(parse_host("  ", false).is_err());
}

#[test]
fn hosts_of_other_shapes() {
    assert_eq!(
        parse_host(" ", false),
        Err("enter the Omarchy IP".to_string())
    );
    assert_eq!(
        parse_host(" desk.lan\n", false),
        Ok(Endpoint::Host("desk.lan".into(), DEFAULT_PORT))
    );
    assert_eq!(
        parse_host("::1", true),
        Ok(Endpoint::Host("::1".into(), DEFAULT_PORT))
    );
    let port = |text: &str| parse_host(text, false).unwrap().port();
    assert_eq!(port("[::1]:77"), Some(77));
    assert_eq!(port("desk:65535"), Some(65535));
    assert_eq!(port("desk:65536"), None);
    assert_eq!(port("desk:+5"), Some(5));
    assert_eq!(port("desk:"), None);
    assert_eq!(port("desk:http"), None);
}

#[test]
fn certificate_pins() {
    let hex = "00ff".repeat(16);
    let mut expected = [0u8; 32];
    for i in 0..16 {
        expected[2 * i + 1] = 0xff;
    }
    assert_eq!(parse_pin(&hex), Ok(expected));
    assert_eq!(parse_pin(&format!(" pin {hex}\n")), Ok(expected));
    assert_eq!(parse_pin(&hex.to_uppercase()), Ok(expected));
    assert_eq!(parse_pin("00"), Err("pin is 1 bytes, expected 32".to_string()));
    assert_eq!(parse_pin("0"), Err("pin is not hex".to_string()));
    assert_eq!(parse_pin("zz"), Err("pin is not hex".to_string()));
}

#[test]
fn form_is_checked_in_order() {
    assert_eq!(
        check_form("", false, "1"),
        Err("enter the Omarchy IP".to_string())
    );
    assert_eq!(
        check_form("desk", false, "1"),
        Err("PIN must be 6 to 32 characters".to_string())
    );
    assert_eq!(
        check_form("desk", false, " 482913 "),
        Ok((Endpoint::Host("desk".into(), DEFAULT_PORT), "482913"))
    );
    assert_eq!(trim("\u{3000}x\u{85}"), "x");
}

// ---------------------------------------------------------------------------
// The session
// ---------------------------------------------------------------------------

fn config(send_file: Option<&str>, stop_after_frames: Option<u32>) -> SessionConfig {
    SessionConfig {
        addr: Endpoint::Host("127.0.0.1".into(), DEFAULT_PORT),
        pin: "482913".into(),
        download_dir: "client-in".into(),
        send_file: send_file.map(|s| s.to_string()),
        stop_after_frames,
    }
}

#[test]
fn commands_of_the_window() {
    assert_eq!(take_command(None), Order::Stop("client closed".into()));
    assert_eq!(
        take_command(Some(ClientCommand::Disconnect)),
        Order::Stop("disconnected".into())
    );
    assert_eq!(
        take_command(Some(ClientCommand::SendFile("a".into()))),
        Order::Offer("a".into())
    );
    let key = InputEvent::Key {
        code: KEY_A,
        pressed: true,
    };
    assert_eq!(
        take_command(Some(ClientCommand::Input(key))),
        Order::Write(Message::Input(key))
    );
}

#[test]
fn samples_are_fnv() {
    assert_eq!(sample_rgba(&[]), 0);
    let one = (0xcbf29ce484222325u64 ^ 7).wrapping_mul(0x100000001b3);
    assert_eq!(sample_rgba(&[7]), one);
    // Bytes between the steps do not count.
    assert_eq!(sample_rgba(&[7, 1, 2, 3]), one);
    let two = (one ^ 9).wrapping_mul(0x100000001b3);
    assert_eq!(sample_rgba(&[7, 1, 2, 3, 9]), two);
    let mut long = vec![0u8; 48 * 10];
    let before = sample_rgba(&long);
    long[9] = 1;
    assert_eq!(sample_rgba(&long), before);
    long[10] = 1;
    assert_ne!(sample_rgba(&long), before);
}

fn picture(mark: u8) -> RgbaFrame {
    RgbaFrame {
        width: 1,
        height: 1,
        rgba: vec![mark, 0, 0, 255],
    }
}

#[test]
fn motion_is_a_change_of_the_picture() {
    let mut live = Live::default();
    live.on_frame(5, picture(1));
    live.on_frame(5, picture(1));
    live.on_frame(2, picture(1));
    assert!(live.report().displays_with_motion.is_empty());
    live.on_frame(5, picture(2));
    let shown = live.on_frame(2, picture(2));
    assert_eq!((shown.display_id, shown.rgba[0]), (2, 2));
    assert_eq!(live.report().displays_with_motion, vec![2, 5]);
    assert_eq!(live.report().frames_decoded, 5);
}

#[test]
fn sessions_without_a_limit_never_finish() {
    let mut live = Live::default();
    live.on_message(
        "in",
        &Message::Displays {
            displays: demo_displays(),
        },
    );
    live.on_frame(0, picture(1));
    assert!(!live.finished(&config(None, None)));
    assert!(live.finished(&config(None, Some(1))));
    assert!(!live.finished(&config(None, Some(2))));
    assert!(!live.finished(&config(Some("a"), Some(1))));
    assert!(live.conclude(&config(None, None)).is_ok());
    let err = live.conclude(&config(None, Some(2))).unwrap_err();
    assert_eq!(
        err,
        "session ended before the requested frames and file transfers finished (2 displays, 1 \
         frames, motion [], sent false, received none)"
    );
}

#[test]
fn messages_of_the_host() {
    let mut live = Live::default();
    let outcome = live.on_message("in", &Message::Ping { nonce: 3 });
    assert_eq!(outcome.replies, vec![Message::Pong { nonce: 3 }]);
    let outcome = live.on_message("in", &Message::Pong { nonce: 3 });
    assert!(outcome.replies.is_empty() && outcome.event.is_none());
    let outcome = live.on_message(
        "in",
        &Message::Displays {
            displays: demo_displays(),
        },
    );
    assert_eq!(outcome.event, Some(UiEvent::Displays(demo_displays())));
}

#[test]
fn a_file_after_one_that_failed() {
    let mut live = Live::default();
    let offer = |id| Message::FileOffer {
        id,
        name: "a.txt".into(),
        size: 2,
    };
    live.on_message("in", &offer(9));
    let gap = live.on_message(
        "in",
        &Message::FileChunk {
            id: 9,
            offset: 1,
            data: vec![7],
        },
    );
    assert_eq!(
        gap.replies,
        vec![Message::FileCancel {
            id: 9,
            reason: "chunk out of order".into()
        }]
    );
    assert_eq!(gap.disk, DiskOrder::Discard("in/.a.txt.9.partial".into()));
    // The rest of the first file is ignored, and the next one is accepted.
    let late = live.on_message(
        "in",
        &Message::FileChunk {
            id: 9,
            offset: 0,
            data: vec![7],
        },
    );
    assert_eq!((late.replies, late.disk), (Vec::new(), DiskOrder::Nothing));
    let next = live.on_message("in", &offer(10));
    assert_eq!(next.replies, vec![Message::FileAccept { id: 10 }]);
    assert_eq!(next.disk, DiskOrder::Create("in/.a.txt.10.partial".into()));
}

#[test]
fn one_file_in_each_direction() {
    let mut live = Live::default();
    let offer = Message::FileOffer {
        id: 9,
        name: "a b.txt".into(),
        size: 2,
    };
    let outcome = live.on_message("in", &offer);
    assert_eq!(outcome.disk, DiskOrder::Create("in/.ab.txt.9.partial".into()));
    assert_eq!(outcome.replies, vec![Message::FileAccept { id: 9 }]);
    assert_eq!(live.on_disk(&outcome.disk, None), None);
    let second = live.on_message(
        "in",
        &Message::FileOffer {
            id: 10,
            name: "b".into(),
            size: 1,
        },
    );
    assert_eq!(
        second.replies,
        vec![Message::FileCancel {
            id: 10,
            reason: "a file is already incoming".into()
        }]
    );
    let (offer, event) = live.queue_send(1, "c.bin", 4).unwrap();
    assert_eq!(offer.len(), 1);
    assert_eq!(
        event,
        UiEvent::File(Progress {
            incoming: false,
            name: "c.bin".into(),
            transferred: 0,
            total: 4,
            done: false
        })
    );
    assert_eq!(
        live.queue_send(2, "d.bin", 4),
        Err("a file send is already in progress".to_string())
    );
}

#[test]
fn disk_failures_end_a_transfer() {
    let mut live = Live::default();
    let outcome = live.on_message(
        "in",
        &Message::FileOffer {
            id: 9,
            name: "a".into(),
            size: 2,
        },
    );
    assert_eq!(
        live.on_disk(&outcome.disk, Some("no space")),
        Some(UiEvent::Status("file transfer: io error: no space".into()))
    );
    let outcome = live.on_message(
        "in",
        &Message::FileChunk {
            id: 9,
            offset: 0,
            data: vec![1],
        },
    );
    assert!(outcome.replies.is_empty());
    assert_eq!(outcome.disk, DiskOrder::Nothing);
}

#[test]
fn bad_hashes_are_cancelled() {
    let mut live = Live::default();
    live.on_message(
        "in",
        &Message::FileOffer {
            id: 9,
            name: "a".into(),
            size: 0,
        },
    );
    let outcome = live.on_message(
        "in",
        &Message::FileComplete {
            id: 9,
            sha256: [0; 32],
        },
    );
    assert_eq!(outcome.disk, DiskOrder::Discard("in/.a.9.partial".into()));
    assert_eq!(
        outcome.replies,
        vec![Message::FileCancel {
            id: 9,
            reason: "hash mismatch".into()
        }]
    );
    assert_eq!(
        outcome.event,
        Some(UiEvent::Status(
            "file transfer: hash mismatch for transfer 9".into()
        ))
    );
}

#[test]
fn cancelled_sends_are_shown() {
    let mut live = Live::default();
    live.queue_send(1, "c.bin", 4).unwrap();
    let outcome = live.on_message(
        "in",
        &Message::FileCancel {
            id: 1,
            reason: "busy".into(),
        },
    );
    assert_eq!(
        outcome.event,
        Some(UiEvent::Status(
            "file transfer: file transfer 1 failed: busy".into()
        ))
    );
    assert!(live.queue_send(2, "d.bin", 4).is_ok());
}

// ---------------------------------------------------------------------------
// A demo host and a client, in memory
// ---------------------------------------------------------------------------

/// A file system of one directory.
struct Folder {
    files: Vec<(String, Vec<u8>)>,
    open: String,
}

impl Folder {
    fn perform(&mut self, order: &DiskOrder, msg: &Message) {
        match order {
            DiskOrder::Nothing => {}
            DiskOrder::Create(path) => {
                self.open = path.clone();
                self.files.push((path.clone(), Vec::new()));
            }
            DiskOrder::Append => {
                if let Message::FileChunk { data, .. } = msg {
                    let open = self.open.clone();
                    let file = self.files.iter_mut().find(|f| f.0 == open).unwrap();
                    file.1.extend(data);
                }
            }
            DiskOrder::Keep(from, to) => {
                let file = self.files.iter_mut().find(|f| f.0 == *from).unwrap();
                file.0 = to.clone();
            }
            DiskOrder::Discard(path) => self.files.retain(|f| f.0 != *path),
        }
    }

    fn read(&self, path: &str) -> Option<&Vec<u8>> {
        self.files.iter().find(|f| f.0 == path).map(|f| &f.1)
    }
}

struct DemoHost {
    transfers: Transfers,
    file: Vec<u8>,
    folder: Folder,
}

impl DemoHost {
    fn take(&mut self, msg: &Message) -> Vec<Message> {
        let step = self.transfers.take("host-in", msg);
        self.folder.perform(&step.disk, msg);
        assert_eq!(step.error, None);
        let mut out = step.replies;
        if step.poll {
            let (at, n) = self.transfers.wanted().unwrap();
            let at = at as usize;
            out.extend(self.transfers.poll(&self.file[at..at + n]).0);
        }
        out
    }
}

struct DemoClient {
    live: Live,
    bank: DecoderBank,
    file: Vec<u8>,
    folder: Folder,
}

impl DemoClient {
    fn take(&mut self, msg: &Message) -> Vec<Message> {
        if let Message::Video {
            display_id, data, ..
        } = msg
        {
            self.live.on_video(&mut self.bank, *display_id, data).unwrap();
            return Vec::new();
        }
        let outcome = self.live.on_message("client-in", msg);
        self.folder.perform(&outcome.disk, msg);
        assert_eq!(self.live.on_disk(&outcome.disk, None), None);
        let mut out = outcome.replies;
        if outcome.poll {
            let (at, n) = self.live.wanted().unwrap();
            let at = at as usize;
            out.extend(self.live.poll(&self.file[at..at + n]).0);
        }
        out
    }
}

fn encode(encoder: &mut openh264::encoder::Encoder, frame: RawFrame) -> Vec<u8> {
    let yuv = openh264::formats::YUVBuffer::from_vec(
        frame.i420,
        frame.width as usize,
        frame.height as usize,
    );
    encoder.encode(&yuv).unwrap().to_vec()
}

#[test]
fn demo_roundtrip_frames_and_files() {
    let host_bytes: Vec<u8> = (0..80_000u32).map(|i| (i % 251) as u8).collect();
    let client_bytes: Vec<u8> = (0..90_000u32).map(|i| (i % 199) as u8).collect();
    let empty = || Folder {
        files: Vec::new(),
        open: String::new(),
    };
    let mut host = DemoHost {
        transfers: Transfers::default(),
        file: host_bytes.clone(),
        folder: empty(),
    };
    let mut client = DemoClient {
        live: Live::default(),
        bank: DecoderBank::new(),
        file: client_bytes.clone(),
        folder: empty(),
    };
    let config = config(Some("from-client.bin"), Some(6));

    client.take(&Message::Displays {
        displays: demo_displays(),
    });
    let mut to_client = host
        .transfers
        .send(next_id(1, true), "from-host.bin", 80_000)
        .unwrap()
        .0;
    let mut to_host = client
        .live
        .queue_send(next_id(1, false), "from-client.bin", 90_000)
        .unwrap()
        .0;
    while !to_client.is_empty() || !to_host.is_empty() {
        let replies: Vec<Message> = to_client.iter().flat_map(|m| client.take(m)).collect();
        to_client = to_host.iter().flat_map(|m| host.take(m)).collect();
        to_host = replies;
    }

    let mut desktop = SyntheticDesktop::new();
    let mut encoders = [
        openh264::encoder::Encoder::new().unwrap(),
        openh264::encoder::Encoder::new().unwrap(),
    ];
    let cursor = Cursor {
        display_id: 0,
        x: 0,
        y: 0,
        visible: false,
    };
    for _ in 0..3 {
        assert!(!client.live.finished(&config));
        for frame in desktop.render(cursor) {
            let display_id = frame.display_id;
            let data = encode(&mut encoders[display_id as usize], frame);
            client.take(&Message::Video {
                display_id,
                pts_ms: 0,
                keyframe: false,
                data,
            });
        }
    }
    assert!(client.live.finished(&config));
    let report = client.live.conclude(&config).unwrap();

    assert_eq!(report.displays.len(), 2, "{}", report.text());
    assert_eq!(report.displays[0].name, "eDP-1");
    assert_eq!(report.displays[0].width, 960);
    assert_eq!(report.displays[0].height, 540);
    assert_eq!(report.displays[0].scale_percent, 100);
    assert_eq!(report.displays[1].name, "HDMI-A-1");
    assert_eq!(report.displays[1].x, 960);
    assert_eq!(report.displays[1].scale_percent, 150);
    assert!(report.frames_decoded >= 6, "{}", report.text());
    assert!(report.displays_with_motion.contains(&0), "{}", report.text());
    assert!(report.displays_with_motion.contains(&1), "{}", report.text());
    assert!(report.sent_ok, "{}", report.text());
    let received = report.received_path.clone().expect("received path");
    assert_eq!(client.folder.read(&received), Some(&host_bytes));
    assert_eq!(
        host.folder.read("host-in/from-client.bin"),
        Some(&client_bytes)
    );
    assert_eq!(
        report.text(),
        "2 displays, 6 frames, motion [0, 1], sent true, received client-in/from-host.bin"
    );
    assert_eq!(
        report.lines(),
        vec![
            "displays 2",
            "display 0 eDP-1 960x540 at 0,0 scale 100%",
            "display 1 HDMI-A-1 960x540 at 960,0 scale 150%",
            "frames 6",
            "motion 0,1",
            "received client-in/from-host.bin",
            "sent ok"
        ]
    );
}

#[test]
fn decoded_pictures_have_their_size() {
    let mut desktop = SyntheticDesktop::new();
    let cursor = Cursor {
        display_id: 0,
        x: 0,
        y: 0,
        visible: false,
    };
    let frame = desktop.render(cursor).remove(0);
    let luma = frame.i420[0];
    let mut encoder = openh264::encoder::Encoder::new().unwrap();
    let data = encode(&mut encoder, frame);
    let mut bank = DecoderBank::new();
    let shown = bank.push(4, &data).unwrap().expect("a picture");
    assert_eq!((shown.width, shown.height), (DEMO_WIDTH, DEMO_HEIGHT));
    assert_eq!(shown.rgba.len(), (DEMO_WIDTH * DEMO_HEIGHT * 4) as usize);
    assert_eq!(shown.rgba[3], 255);
    assert!((shown.rgba[1] as i32 - luma as i32).abs() < 64);
    // The stream of one display is not that of another, and noise is passed over.
    assert_eq!(bank.push(5, &[]).unwrap(), None);
    assert_eq!(bank.push(5, &[0, 0, 1, 0xff, 0xff, 0xff]).unwrap(), None);
}

#[test]
fn a_decoder_that_cannot_be_made() {
    let mut bank = DecoderBank::new();
    let said = openh264::Error::msg("no memory").to_string();
    assert!(said.contains("no memory"));
    let failed = bank
        .push_first(3, Err(openh264::Error::msg("no memory")), &[])
        .unwrap_err();
    assert_eq!(failed.reason, said);
    assert_eq!(failed.text(), format!("openh264: {said}"));
    assert!(bank.decoders.is_empty());
    // The display gets its decoder with the next access unit.
    assert_eq!(bank.push(3, &[]), Ok(None));
    assert!(bank.decoders.contains_key(&3));
    assert_eq!(bank.push(7, &[]), Ok(None));
    assert_eq!(bank.decoders.len(), 2);
}

#[test]
fn the_first_access_unit_of_a_display() {
    let mut desktop = SyntheticDesktop::new();
    let cursor = Cursor {
        display_id: 0,
        x: 0,
        y: 0,
        visible: false,
    };
    let frame = desktop.render(cursor).remove(0);
    let mut encoder = openh264::encoder::Encoder::new().unwrap();
    let data = encode(&mut encoder, frame);
    let mut bank = DecoderBank::new();
    let shown = bank
        .push_first(4, openh264::decoder::Decoder::new(), &data)
        .unwrap()
        .expect("a picture");
    assert_eq!((shown.width, shown.height), (DEMO_WIDTH, DEMO_HEIGHT));
    assert!(bank.decoders.contains_key(&4));
}

// ---------------------------------------------------------------------------
// The window
// ---------------------------------------------------------------------------

fn display(x: i32, y: i32, width: u32, height: u32) -> DisplayInfo {
    DisplayInfo {
        id: 0,
        x,
        y,
        width,
        height,
        scale_percent: 125,
        name: "DP-1".into(),
    }
}

#[test]
fn desk_covers_the_displays() {
    assert_eq!(
        desk(&vec![display(-100, 0, 100, 50), display(0, -20, 200, 40)]),
        Desk {
            x: -100,
            y: -20,
            width: 300,
            height: 70
        }
    );
    assert_eq!(
        desk(&vec![display(5, 5, 0, 0)]),
        Desk {
            x: 5,
            y: 5,
            width: 1,
            height: 1
        }
    );
}

#[test]
fn texts_of_the_window() {
    assert_eq!(
        display_label(&display(0, 0, 1920, 1080)),
        "DP-1    1920×1080    125%"
    );
    let mut progress = Progress {
        incoming: true,
        name: "a.bin".into(),
        transferred: 5,
        total: 10,
        done: false,
    };
    assert_eq!(
        file_status(&progress),
        "Receiving a.bin: 5/10 bytes (in progress)"
    );
    progress.incoming = false;
    progress.done = true;
    assert_eq!(file_status(&progress), "Sending a.bin: 5/10 bytes (done)");

    let mut panel = Panel::default();
    assert_eq!(panel.status, "Starting");
    assert_eq!(panel.file_status, "No file transfer yet");
    panel.on_frame();
    panel.on_event(UiEvent::Status("Connecting".into()));
    panel.on_event(UiEvent::File(progress));
    assert_eq!(panel.file_status, "Sending a.bin: 5/10 bytes (done)");
    panel.on_event(UiEvent::Displays(vec![display(0, 0, 2, 2)]));
    assert_eq!(panel.displays.len(), 1);
    assert_eq!((panel.frame_count, panel.status.as_str()), (1, "Connecting"));
    panel.on_event(UiEvent::Closed("disconnected".into()));
    assert_eq!(panel.status, "disconnected");
}

#[test]
fn input_of_the_window() {
    let none = Modifiers {
        shift: false,
        ctrl: false,
        alt: false,
    };
    let held = Modifiers {
        shift: true,
        ..none
    };
    let p = Point {
        display_id: 1,
        x: 2,
        y: 3,
    };
    let moved = InputEvent::MouseMove {
        display_id: 1,
        x: 2,
        y: 3,
    };
    let events = vec![
        WindowEvent::Key {
            code: Some(KEY_A),
            pressed: true,
            repeat: false,
        },
        WindowEvent::Key {
            code: Some(KEY_A),
            pressed: true,
            repeat: true,
        },
        WindowEvent::Key {
            code: None,
            pressed: true,
            repeat: false,
        },
        WindowEvent::Button {
            at: Some(p),
            button: Some(0),
            pressed: true,
        },
        WindowEvent::Button {
            at: None,
            button: Some(0),
            pressed: true,
        },
        WindowEvent::Wheel {
            display_id: Some(1),
            dx: 0,
            dy: 0,
        },
        WindowEvent::Wheel {
            display_id: Some(1),
            dx: 0,
            dy: -1,
        },
    ];
    let mut mods = none;
    let (sent, focus) = apply_input(true, Some(p), &mut mods, held, &events);
    assert!(sent.is_empty() && !focus && mods == none);
    let (sent, focus) = apply_input(false, Some(p), &mut mods, held, &events);
    assert!(focus);
    assert_eq!(mods, held);
    assert_eq!(
        sent,
        vec![
            moved,
            InputEvent::Key {
                code: KEY_LEFTSHIFT,
                pressed: true
            },
            InputEvent::Key {
                code: KEY_A,
                pressed: true
            },
            moved,
            InputEvent::MouseButton {
                display_id: 1,
                button: 0,
                pressed: true
            },
            InputEvent::MouseWheel {
                display_id: 1,
                dx: 0,
                dy: -1
            },
        ]
    );
    let alt = Modifiers { alt: true, ..none };
    let (sent, focus) = apply_input(false, None, &mut mods, alt, &Vec::new());
    assert!(!focus);
    assert_eq!(
        sent,
        vec![
            InputEvent::Key {
                code: KEY_LEFTSHIFT,
                pressed: false
            },
            InputEvent::Key {
                code: KEY_LEFTALT,
                pressed: true
            },
        ]
    );
}
