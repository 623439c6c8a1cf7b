use omarchy_connect::capture::{
    CaptureMode, CaptureSource, FrameInbox, RawFrame, Received,
};
use omarchy_connect::encode::{
    assemble, ffmpeg_args, force_x264, lists_vaapi, push_log, render_node, split_planes,
    x264_rates, Backend, EncodedFrame, Encoder, LOG_KEPT, LOG_LIMIT,
};
use omarchy_connect::input::{
    device_keys, unscaled_regions, Bounds, Cursor, DeviceEvent, InputMode, PointerMap, Region,
    ABS_X, ABS_Y, EV_ABS, EV_KEY, EV_REL, EV_SYN, REL_HWHEEL, REL_WHEEL, SYN_REPORT,
};
use omarchy_connect::keys::{pointer_button, BTN_LEFT, BTN_MIDDLE, BTN_RIGHT, KEY_A};
use omarchy_connect::layout::pixel_origins;
use omarchy_connect::message::{DisplayInfo, InputEvent, Message};
use omarchy_connect::nal::push_bytes;
use omarchy_connect::paths::{
    config_dir, join, runtime_dir, saved_host_file, settings_file, state_dir, state_file, Env,
};
use omarchy_connect::portal::{
    ask_again, default_token_path, displays_from_streams, frame_from_buffer, read_token, Chunk, StreamInfo,
    StreamTarget, VideoFormat,
};
use omarchy_connect::rounding::scaled_start;
use omarchy_connect::screencopy::{
    begin_round, end_round, flip_rows, layout, offers_buffer, round_is_open, Attach, BufferSpec,
    FrameEvent, Output, OutputEvent, Pending, ShmFormat,
};
use omarchy_connect::session::{
    advance_pts, check_fps, frame_interval, next_id, react, resize_display, video_message,
    Reaction,
};
use omarchy_connect::settings::Settings;
use omarchy_connect::state::{LiveState, Publisher, Status};
use omarchy_connect::status::{
    lan_addresses, pid_alive, proc_path, report, Address, Interface, DEFAULT_PORT,
};
use omarchy_connect::synthetic::{
    demo_displays, glyph, render_i420, SyntheticDesktop, DEMO_HEIGHT, DEMO_WIDTH,
};
use omarchy_connect::yuv::{
    copy_i420, even, i420_size, nv12_to_i420, packed_to_i420, rgb_to_yuv, yuy2_to_i420, PixelOrder,
};

// ---------------------------------------------------------------------------
// Pictures
// ---------------------------------------------------------------------------

#[test]
fn sizes_of_i420() {
    assert_eq!(i420_size(960, 540), 960 * 540 * 3 / 2);
    assert_eq!(i420_size(3, 3), 9 + 2);
    assert_eq!(even(7), 6);
    assert_eq!(even(8), 8);
    assert_eq!(even(1), 0);
}

#[test]
fn colours_in_limited_range() {
    assert_eq!(rgb_to_yuv(0, 0, 0), (16, 128, 128));
    assert_eq!(rgb_to_yuv(255, 255, 255), (235, 128, 128));
    assert_eq!(rgb_to_yuv(255, 0, 0), (82, 90, 240));
    assert_eq!(rgb_to_yuv(0, 255, 0), (144, 54, 34));
    assert_eq!(rgb_to_yuv(0, 0, 255), (41, 240, 110));
}

#[test]
fn packed_pixels_of_every_order() {
    // One red block of two by two pixels.
    let orders = [
        (PixelOrder::Rgb, vec![255, 0, 0]),
        (PixelOrder::Bgr, vec![0, 0, 255]),
        (PixelOrder::Rgba, vec![255, 0, 0, 9]),
        (PixelOrder::Bgra, vec![0, 0, 255, 9]),
        (PixelOrder::Rgbx, vec![255, 0, 0, 9]),
        (PixelOrder::Bgrx, vec![0, 0, 255, 9]),
    ];
    for (order, pixel) in orders {
        let src = pixel.repeat(4);
        let stride = pixel.len() * 2;
        assert_eq!(
            packed_to_i420(&src, stride, 2, 2, order),
            Some(vec![82, 82, 82, 82, 90, 240])
        );
        assert_eq!(packed_to_i420(&src[1..], stride, 2, 2, order), None);
        assert_eq!(packed_to_i420(&src, stride - 1, 2, 2, order), None);
    }
}

#[test]
fn other_formats() {
    let yuy2 = [10, 50, 20, 60, 30, 70, 40, 80];
    let out = yuy2_to_i420(&yuy2, 4, 2, 2).unwrap();
    assert_eq!(&out[..4], &[10, 20, 30, 40]);
    assert_eq!(yuy2_to_i420(&yuy2[..7], 4, 2, 2), None);
    let nv12 = [1, 2, 3, 4, 5, 6];
    assert_eq!(
        nv12_to_i420(&nv12, 2, 2, 2, 2),
        Some(vec![1, 2, 3, 4, 5, 6])
    );
    assert_eq!(nv12_to_i420(&nv12[..5], 2, 2, 2, 2), None);
    assert_eq!(copy_i420(&[1, 2, 3, 4, 5, 6, 7], 2, 2), Some(vec![1, 2, 3, 4, 5, 6]));
    assert_eq!(copy_i420(&[1, 2, 3, 4, 5], 2, 2), None);
}

#[test]
fn successive_frames_differ() {
    let a = render_i420(0, 0, DEMO_WIDTH, DEMO_HEIGHT, "eDP-1", None);
    let b = render_i420(0, 4, DEMO_WIDTH, DEMO_HEIGHT, "eDP-1", None);
    assert_ne!(a, b);
    assert_eq!(a.len(), i420_size(DEMO_WIDTH, DEMO_HEIGHT));
}

#[test]
fn demo_desktop_is_two_monitors() {
    let displays = demo_displays();
    assert_eq!(displays.len(), 2);
    assert_eq!(displays[0].name, "eDP-1");
    assert_eq!((displays[0].x, displays[0].scale_percent), (0, 100));
    assert_eq!(displays[1].name, "HDMI-A-1");
    assert_eq!((displays[1].x, displays[1].scale_percent), (960, 150));
    assert_eq!((displays[1].width, displays[1].height), (960, 540));

    let mut desktop = SyntheticDesktop::new();
    let hidden = Cursor {
        display_id: 1,
        x: 500,
        y: 300,
        visible: false,
    };
    let frames = desktop.render(hidden);
    assert_eq!(frames.len(), 2);
    assert_eq!(desktop.frame, 1);
    assert_eq!(
        frames[1].i420,
        render_i420(1, 0, DEMO_WIDTH, DEMO_HEIGHT, "HDMI-A-1", None)
    );
    let shown = Cursor {
        visible: true,
        ..hidden
    };
    let frames = desktop.render(shown);
    assert_eq!(
        frames[0].i420,
        render_i420(0, 1, DEMO_WIDTH, DEMO_HEIGHT, "eDP-1", None)
    );
    assert_eq!(
        frames[1].i420,
        render_i420(1, 1, DEMO_WIDTH, DEMO_HEIGHT, "HDMI-A-1", Some((500, 300)))
    );
}

// ---------------------------------------------------------------------------
// Encoding
// ---------------------------------------------------------------------------

fn nal(kind: u8, payload: &[u8]) -> Vec<u8> {
    let mut out = vec![0, 0, 0, 1, kind];
    out.extend_from_slice(payload);
    out
}

#[test]
fn splits_on_the_next_access_unit() {
    let mut stream = Vec::new();
    stream.extend(nal(7, &[1, 2]));
    stream.extend(nal(8, &[3]));
    stream.extend(nal(5, &[9, 9]));
    stream.extend(nal(1, &[4, 4]));
    stream.extend(nal(1, &[5]));
    let mut buf = Vec::new();
    let units = push_bytes(&mut buf, &stream);
    assert_eq!(units.len(), 1, "the open P-slice stays buffered");
    assert!(units[0].keyframe);
    assert!(!buf.is_empty());
    let more = push_bytes(&mut buf, &nal(1, &[6]));
    assert_eq!(more.len(), 1);
    assert!(!more[0].keyframe);
}

#[test]
fn splitting_loses_nothing() {
    let mut stream = Vec::new();
    for kind in [7, 8, 5, 1, 1, 7, 8, 5, 1] {
        stream.extend(nal(kind, &[kind, 0, 0]));
    }
    let mut whole = Vec::new();
    let mut buf = Vec::new();
    for piece in stream.chunks(3) {
        for unit in push_bytes(&mut buf, piece) {
            whole.extend(unit.data);
        }
    }
    whole.extend(&buf);
    assert_eq!(whole, stream);
}

#[test]
fn encoder_sizes_and_fallback() {
    let err = Encoder::open(3, 4, 15, 2000, false, false).unwrap_err();
    assert_eq!(err, "encoder size must be even and non-zero, got 3x4");
    assert!(Encoder::open(0, 4, 15, 2000, false, false).is_err());
    let mut encoder = Encoder::open(320, 180, 15, 2000, false, true).unwrap();
    assert_eq!(encoder.backend, Backend::Vaapi);
    assert_eq!(
        Encoder::open(320, 180, 15, 2000, true, true).unwrap().backend,
        Backend::X264
    );
    assert_eq!(
        encoder.check(&[0; 4]).unwrap_err(),
        "i420 buffer is 4 bytes, need 86400"
    );
    assert!(encoder.check(&vec![0; 86400]).is_ok());
    assert!(encoder.on_failure());
    encoder.on_fallback(false);
    assert_eq!(encoder.backend, Backend::Vaapi);
    assert!(encoder.on_failure());
    encoder.on_fallback(true);
    assert_eq!(encoder.backend, Backend::X264);
    assert_eq!((encoder.width, encoder.fps), (320, 15));
    assert!(!encoder.on_failure());
}

#[test]
fn rates_of_x264() {
    let rates = x264_rates(0, 0);
    assert_eq!((rates.fps, rates.bitrate), (1, 200));
    let rates = x264_rates(15, 4000);
    assert_eq!(
        (rates.max_keyframe_interval, rates.min_keyframe_interval),
        (30, 15)
    );
}

#[test]
fn planes_and_parameter_sets() {
    let (y, u, v) = split_planes(&[1, 2, 3, 4, 5, 6], 2, 2);
    assert_eq!((y, u, v), (&[1, 2, 3, 4][..], &[5][..], &[6][..]));
    assert_eq!(assemble(&[9], &[], true), None);
    assert_eq!(
        assemble(&[9], &[1], true),
        Some(EncodedFrame {
            keyframe: true,
            data: vec![9, 1]
        })
    );
    assert_eq!(assemble(&[9], &[1], false).unwrap().data, vec![1]);
}

#[test]
fn vaapi_is_looked_for() {
    assert!(!force_x264(None));
    assert!(!force_x264(Some("0")));
    assert!(force_x264(Some("1")));
    assert!(force_x264(Some("")));
    let names: Vec<String> = ["card0", "renderD129", "renderD128"]
        .iter()
        .map(|s| s.to_string())
        .collect();
    assert_eq!(render_node(&names), Some("/dev/dri/renderD128".to_string()));
    assert_eq!(render_node(&names[..1].to_vec()), None);
    assert!(lists_vaapi(" V..... h264_vaapi  H.264/AVC (VAAPI)"));
    assert!(!lists_vaapi("h264_vaap"));
    let args = ffmpeg_args("/dev/dri/renderD128", 640, 480, 30);
    let at = args.iter().position(|a| a == "-video_size").unwrap();
    assert_eq!(args[at + 1], "640x480");
    let at = args.iter().position(|a| a == "-g").unwrap();
    assert_eq!(args[at + 1], "60");
    assert_eq!(args.last().unwrap(), "pipe:1");
}

#[test]
fn log_keeps_its_end() {
    let mut log = String::new();
    push_log(&mut log, &"a".repeat(LOG_LIMIT));
    assert_eq!(log.len(), LOG_LIMIT);
    push_log(&mut log, "b");
    assert_eq!(log.len(), LOG_KEPT);
    assert!(log.ends_with('b'));
}

// ---------------------------------------------------------------------------
// Capture
// ---------------------------------------------------------------------------

fn raw(display_id: u32, mark: u8) -> RawFrame {
    RawFrame {
        display_id,
        width: 2,
        height: 2,
        i420: vec![mark],
    }
}

#[test]
fn inbox_has_one_slot_for_each_display() {
    let mut inbox = FrameInbox::new();
    assert!(matches!(inbox.recv(), Received::Waiting));
    inbox.publish(raw(0, 1));
    inbox.publish(raw(1, 2));
    inbox.publish(raw(0, 3));
    inbox.close();
    let mut seen = Vec::new();
    while let Received::Frame(frame) = inbox.recv() {
        seen.push((frame.display_id, frame.i420[0]));
    }
    assert_eq!(seen, vec![(1, 2), (0, 3)]);
    assert!(matches!(inbox.recv(), Received::Closed));
}

#[test]
fn capture_modes() {
    assert_eq!(CaptureMode::parse("auto"), Ok(CaptureMode::Auto));
    assert_eq!(CaptureMode::parse("screencopy"), Ok(CaptureMode::Screencopy));
    assert_eq!(CaptureMode::parse("portal"), Ok(CaptureMode::Portal));
    assert_eq!(
        CaptureMode::parse("x"),
        Err("unknown capture mode x (auto, screencopy, portal)".to_string())
    );
    assert_eq!(CaptureMode::Auto.first(), CaptureSource::Screencopy);
    assert_eq!(CaptureMode::Auto.fallback(), Some(CaptureSource::Portal));
    assert_eq!(CaptureMode::Screencopy.fallback(), None);
    assert_eq!(CaptureMode::Portal.first(), CaptureSource::Portal);
}

fn region(id: u32, x: i32, y: i32, width: u32, height: u32, scale: f64) -> Region {
    Region {
        id,
        x,
        y,
        width,
        height,
        pixel_width: (width as f64 * scale) as u32,
        pixel_height: (height as f64 * scale) as u32,
    }
}

#[test]
fn mixed_scales_pack_side_by_side() {
    let regions = [
        region(0, 0, 0, 1280, 800, 1.5),
        region(1, 1280, 0, 960, 540, 2.0),
    ];
    assert_eq!(pixel_origins(&regions), vec![(0, 0), (1920, 0)]);
}

#[test]
fn stacked_monitors_pack_vertically() {
    let regions = [
        region(0, 0, 1080, 1920, 1080, 1.0),
        region(1, 0, 0, 1280, 720, 2.0),
    ];
    assert_eq!(pixel_origins(&regions), vec![(0, 1440), (0, 0)]);
}

#[test]
fn monitors_are_flush_with_the_farthest_edge() {
    // The third starts after both of the others, behind a gap.
    let regions = [
        region(0, 0, 0, 1280, 800, 1.5),
        region(1, 0, 800, 1000, 800, 2.5),
        region(2, 1400, 0, 960, 540, 2.0),
        region(3, -200, 0, 200, 540, 2.0),
    ];
    let across: Vec<i32> = pixel_origins(&regions).iter().map(|p| p.0).collect();
    assert_eq!(across, [0, 0, 2500, -400]);
}

#[test]
fn flip_rows_reverses_row_order() {
    let mut bytes = vec![1, 1, 2, 2, 3, 3];
    flip_rows(&mut bytes, 2, 3);
    assert_eq!(bytes, vec![3, 3, 2, 2, 1, 1]);
}

#[test]
fn flipping_twice_changes_nothing() {
    let rows: Vec<u8> = (0..60).collect();
    let mut bytes = rows.clone();
    flip_rows(&mut bytes, 12, 5);
    assert_ne!(bytes, rows);
    flip_rows(&mut bytes, 12, 5);
    assert_eq!(bytes, rows);
}

#[test]
fn scaled_starts_round_as_doubles_do() {
    let starts = [
        0, 1, -1, 7, -7, 1280, -1920, 99_999, -100_000, i32::MAX, i32::MIN, 123_456_789,
    ];
    let sides: [u32; 9] = [1, 2, 3, 7, 1280, 1920, 2880, 1_000_003, u32::MAX];
    for start in starts {
        for pixels in sides {
            for logical in sides {
                let scale = pixels as f64 / logical as f64;
                let expected = (start as f64 * scale).round() as i32;
                assert_eq!(
                    scaled_start(start, pixels, logical),
                    expected,
                    "{start} {pixels} {logical}"
                );
            }
        }
    }
}

fn spec(width: u32, height: u32) -> BufferSpec {
    BufferSpec {
        format: ShmFormat::Xrgb8888,
        width,
        height,
        stride: width * 4,
    }
}

#[test]
fn buffers_are_created_once() {
    let mut output = Output::new();
    let offer = FrameEvent::Buffer {
        spec: spec(4, 2),
        version: 3,
    };
    assert_eq!(output.on_frame(FrameEvent::BufferDone), Attach::Nothing);
    assert_eq!(output.pending, Pending::Failed);
    assert_eq!(output.on_frame(offer), Attach::Nothing);
    assert_eq!(
        output.on_frame(FrameEvent::BufferDone),
        Attach::Create(spec(4, 2))
    );
    output.on_buffer(Some(spec(4, 2)));
    assert_eq!(output.on_frame(FrameEvent::BufferDone), Attach::Copy);
    // Before version 3 there is no word that all offers were made.
    let old = FrameEvent::Buffer {
        spec: spec(8, 2),
        version: 2,
    };
    assert_eq!(output.on_frame(old), Attach::Create(spec(8, 2)));
    assert_eq!(output.buffer, None);
    output.on_buffer(None);
    assert_eq!(output.pending, Pending::Failed);
}

#[test]
fn rounds_of_frames() {
    let mut outputs = vec![Output::new(), Output::new()];
    assert!(!offers_buffer(&outputs));
    begin_round(&mut outputs);
    assert!(round_is_open(&outputs));
    outputs[0].on_frame(FrameEvent::Ready);
    assert!(round_is_open(&outputs));
    end_round(&mut outputs);
    assert!(!round_is_open(&outputs));
    assert_eq!(outputs[0].pending, Pending::Ready);
    assert_eq!(outputs[1].pending, Pending::Failed);
}

#[test]
fn outputs_become_displays() {
    let mut first = Output::new();
    first.on_event(OutputEvent::Name {
        name: "eDP-1".into(),
    });
    first.on_event(OutputEvent::Name {
        name: "other".into(),
    });
    first.on_event(OutputEvent::LogicalPosition { x: 0, y: 0 });
    first.on_event(OutputEvent::LogicalSize {
        width: 1280,
        height: 800,
    });
    first.on_frame(FrameEvent::Buffer {
        spec: spec(1920, 1200),
        version: 3,
    });
    let mut second = Output::new();
    second.on_event(OutputEvent::Geometry { x: 1280, y: 0 });
    second.on_event(OutputEvent::Mode {
        width: 1920,
        height: 1080,
        current: true,
    });
    second.on_event(OutputEvent::Scale { factor: 2 });
    assert_eq!(second.logical_rect(), (1280, 0, 960, 540));
    second.on_frame(FrameEvent::Buffer {
        spec: spec(1920, 1080),
        version: 3,
    });
    // An output without a buffer is not shared.
    let outputs = vec![first, Output::new(), second];
    let (displays, regions) = layout(&outputs);
    assert_eq!(displays.len(), 2);
    assert_eq!(displays[0].name, "eDP-1");
    assert_eq!((displays[0].x, displays[0].scale_percent), (0, 150));
    assert_eq!(displays[1].name, "monitor-2");
    assert_eq!(
        (displays[1].id, displays[1].x, displays[1].scale_percent),
        (2, 1920, 200)
    );
    assert_eq!((regions[1].x, regions[1].width), (1280, 960));
}

#[test]
fn frames_of_outputs() {
    let mut output = Output::new();
    output.on_buffer(Some(spec(2, 2)));
    let red = vec![0, 0, 255, 0];
    let black = vec![0, 0, 0, 0];
    let bytes = [red.clone(), red.clone(), black.clone(), black.clone()].concat();
    assert_eq!(output.frame(0, 2, 2, bytes.clone()), None);
    output.on_frame(FrameEvent::Ready);
    assert_eq!(output.source(4, 2), None);
    let frame = output.frame(7, 2, 2, bytes.clone()).unwrap();
    assert_eq!(frame.display_id, 7);
    assert_eq!(&frame.i420[..4], &[82, 82, 16, 16]);
    output.on_frame(FrameEvent::Flags { y_invert: true });
    let frame = output.frame(7, 2, 2, bytes).unwrap();
    assert_eq!(&frame.i420[..4], &[16, 16, 82, 82]);
}

#[test]
fn streams_become_displays() {
    let streams = vec![
        StreamInfo {
            size: Some((1921, 1080)),
            position: None,
            id: Some("DP-1".into()),
            node_id: 40,
        },
        StreamInfo {
            size: None,
            position: None,
            id: Some(String::new()),
            node_id: 41,
        },
    ];
    let (displays, targets) = displays_from_streams(&streams);
    assert_eq!((displays[0].width, displays[0].x), (1920, 0));
    assert_eq!(displays[1].name, "monitor");
    assert_eq!(
        (displays[1].x, displays[1].width, displays[1].height),
        (1920, 1280, 720)
    );
    assert_eq!(
        targets[1],
        StreamTarget {
            display_id: 1,
            node_id: 41
        }
    );
}

fn chunk(data: Vec<u8>, stride: i32) -> Chunk {
    Chunk {
        offset: 0,
        size: data.len() as u32,
        data: Some(data),
        stride,
    }
}

#[test]
fn frames_of_streams() {
    let red = vec![0, 0, 255, 0].repeat(4);
    let frame = frame_from_buffer(3, VideoFormat::Bgrx, (3, 3), &vec![chunk(red.repeat(3), 0)]);
    assert!(frame.is_some());
    let frame = frame_from_buffer(3, VideoFormat::Bgrx, (2, 2), &vec![chunk(red, 8)]).unwrap();
    assert_eq!((frame.display_id, frame.width, frame.height), (3, 2, 2));
    assert_eq!(frame.i420, vec![82, 82, 82, 82, 90, 240]);
    let planes = vec![
        chunk(vec![1, 2, 3, 4], 2),
        chunk(vec![5], 1),
        chunk(vec![6], 1),
    ];
    assert_eq!(
        frame_from_buffer(0, VideoFormat::I420, (2, 2), &planes)
            .unwrap()
            .i420,
        vec![1, 2, 3, 4, 5, 6]
    );
    assert_eq!(
        frame_from_buffer(0, VideoFormat::Bgrx, (1, 2), &planes),
        None
    );
    assert_eq!(frame_from_buffer(0, VideoFormat::Other, (2, 2), &planes), None);
    let gone = vec![Chunk {
        data: None,
        offset: 0,
        size: 4,
        stride: 2,
    }];
    assert_eq!(frame_from_buffer(0, VideoFormat::Bgrx, (2, 2), &gone), None);
}

// ---------------------------------------------------------------------------
// Input
// ---------------------------------------------------------------------------

fn display(id: u32, x: i32, y: i32, width: u32, height: u32) -> DisplayInfo {
    DisplayInfo {
        id,
        x,
        y,
        width,
        height,
        scale_percent: 100,
        name: format!("m{id}"),
    }
}

fn abs(x: i32, y: i32) -> Vec<DeviceEvent> {
    vec![
        DeviceEvent {
            kind: EV_ABS,
            code: ABS_X,
            value: x,
        },
        DeviceEvent {
            kind: EV_ABS,
            code: ABS_Y,
            value: y,
        },
        DeviceEvent {
            kind: EV_SYN,
            code: SYN_REPORT,
            value: 0,
        },
    ]
}

#[test]
fn pointer_is_mapped_to_the_desktop() {
    let displays = vec![display(0, -1920, 0, 1920, 1080), display(1, 0, 0, 960, 540)];
    let regions = unscaled_regions(&displays);
    let bounds = Bounds::of(&regions);
    assert!(bounds.fits());
    assert_eq!((bounds.min_x, bounds.max_x, bounds.max_y), (-1920, 959, 1079));
    let map = PointerMap::new(regions);
    assert_eq!(map.axes(), (2879, 1079));
    let at = |display_id, x, y| map.apply(&InputEvent::MouseMove { display_id, x, y });
    assert_eq!(at(0, 10, 20), abs(10, 20));
    assert_eq!(at(1, 10, 20), abs(1930, 20));
    assert_eq!(at(1, 5000, 5000), abs(2879, 1079));
    assert_eq!(at(9, 10, 20), abs(10, 20));
}

#[test]
fn the_last_region_of_a_display_counts() {
    let map = PointerMap::new(vec![
        region(3, 0, 0, 100, 100, 1.0),
        region(3, 100, 0, 100, 100, 1.0),
    ]);
    let got = map.apply(&InputEvent::MouseMove {
        display_id: 3,
        x: 5,
        y: 6,
    });
    assert_eq!(got, abs(105, 6));
}

#[test]
fn scaled_pointer_is_mapped_to_logical_pixels() {
    let map = PointerMap::new(vec![region(0, 0, 0, 1280, 800, 1.5)]);
    let got = map.apply(&InputEvent::MouseMove {
        display_id: 0,
        x: 1919,
        y: 600,
    });
    assert_eq!(got, abs(1279, 400));
}

#[test]
fn buttons_wheel_and_keys() {
    let map = PointerMap::new(Vec::new());
    let report = DeviceEvent {
        kind: EV_SYN,
        code: SYN_REPORT,
        value: 0,
    };
    let press = |button| {
        map.apply(&InputEvent::MouseButton {
            display_id: 0,
            button,
            pressed: true,
        })
    };
    assert_eq!(
        press(1),
        vec![
            DeviceEvent {
                kind: EV_KEY,
                code: BTN_RIGHT,
                value: 1
            },
            report
        ]
    );
    assert!(press(3).is_empty());
    let wheel = |dx, dy| {
        map.apply(&InputEvent::MouseWheel {
            display_id: 0,
            dx,
            dy,
        })
    };
    assert!(wheel(0, 0).is_empty());
    assert_eq!(
        wheel(2, -1),
        vec![
            DeviceEvent {
                kind: EV_REL,
                code: REL_WHEEL,
                value: -1
            },
            DeviceEvent {
                kind: EV_REL,
                code: REL_HWHEEL,
                value: 2
            },
            report
        ]
    );
    assert_eq!(
        map.apply(&InputEvent::Key {
            code: KEY_A,
            pressed: false
        })[0],
        DeviceEvent {
            kind: EV_KEY,
            code: KEY_A,
            value: 0
        }
    );
}

#[test]
fn device_has_keys_and_buttons() {
    let keys = device_keys();
    assert_eq!(keys.len(), 250);
    assert_eq!(keys[0], 1);
    assert_eq!(keys[246], 247);
    assert_eq!(&keys[247..], &[BTN_LEFT, BTN_RIGHT, BTN_MIDDLE]);
    assert_eq!(pointer_button(0), Some(BTN_LEFT));
    assert_eq!(pointer_button(3), None);
}

#[test]
fn input_modes() {
    assert_eq!(InputMode::parse("auto"), Ok(InputMode::Auto));
    assert_eq!(InputMode::parse("portal"), Ok(InputMode::Portal));
    assert_eq!(InputMode::parse("uinput"), Ok(InputMode::Uinput));
    assert_eq!(InputMode::parse("none"), Ok(InputMode::Off));
    assert_eq!(
        InputMode::parse("x"),
        Err("unknown input mode x (auto, portal, uinput, none)".to_string())
    );
    assert!(InputMode::Auto.wants_uinput(false));
    assert!(!InputMode::Auto.wants_uinput(true));
    assert!(InputMode::Uinput.wants_uinput(true));
    assert!(!InputMode::Off.wants_uinput(false));
}

// ---------------------------------------------------------------------------
// Settings and status
// ---------------------------------------------------------------------------

#[test]
fn settings_of_the_host() {
    assert_eq!(Settings::content(None), None);
    assert_eq!(Settings::content(Some(" \n")), None);
    assert_eq!(Settings::content(Some("{}")), Some("{}"));
    let settings = Settings {
        unattended: true,
        pin: Some("482913".into()),
        fps: 60,
        bitrate_kbps: 12_000,
    };
    assert_eq!(settings.active_pin(), Some("482913"));
    assert_eq!(settings.video(), (60, 12_000));
    assert_eq!(Settings::default().video(), (15, 4_000));
    let off = Settings {
        unattended: false,
        ..settings.clone()
    };
    assert_eq!(off.active_pin(), None);
    let wild = Settings {
        fps: 1000,
        bitrate_kbps: 1,
        ..settings
    };
    assert_eq!(wild.video(), (60, 500));
}

#[test]
fn saving_a_pin_turns_access_on() {
    let mut settings = Settings::default();
    assert_eq!(
        settings.set_pin("12"),
        Err("PIN must be 6 to 32 characters".to_string())
    );
    assert_eq!(settings, Settings::default());
    assert_eq!(settings.set_pin(" 482913\n"), Ok(()));
    assert_eq!(settings.active_pin(), Some("482913"));
    settings.unattended = false;
    assert_eq!(settings.active_pin(), None);
    settings.unattended = true;
    assert_eq!(settings.active_pin(), Some("482913"));
    settings.clear_pin();
    assert_eq!(settings.active_pin(), None);
}

fn env(home: &str, runtime: Option<&str>) -> Env {
    Env {
        home: Some(home.to_string()),
        xdg_config_home: None,
        xdg_state_home: Some(String::new()),
        xdg_runtime_dir: runtime.map(|s| s.to_string()),
    }
}

#[test]
fn locations() {
    assert_eq!(join("a", "b"), "a/b");
    assert_eq!(join("a/", "b"), "a/b");
    assert_eq!(join("", "b"), "b");
    let env = env("/home/me", Some("/run/user/1000"));
    assert_eq!(
        config_dir(&env),
        Some("/home/me/.config/omarchy-connect".to_string())
    );
    assert_eq!(
        settings_file(&env),
        Some("/home/me/.config/omarchy-connect/settings.json".to_string())
    );
    assert_eq!(
        state_dir(&env),
        Some("/home/me/.local/state/omarchy-connect".to_string())
    );
    assert!(runtime_dir(&env).unwrap().starts_with("/run/user/1000"));
    assert!(state_file(&env).unwrap().ends_with("state.json"));
    assert!(default_token_path(&env).is_some());
    assert_eq!(
        saved_host_file(Some("C:/Users/me")),
        Some("C:/Users/me/omarchy-connect/host.txt".to_string())
    );
    assert_eq!(saved_host_file(None), None);
}

#[test]
fn tokens_are_trimmed() {
    assert_eq!(read_token(" abc\n"), Some("abc".to_string()));
    assert_eq!(read_token("\n"), None);
}

#[test]
fn published_state_changes() {
    let mut publisher = Publisher::new(Some("/run/state.json".into()), LiveState::default());
    assert_eq!(publisher.state().status, Status::Listening);
    let target = publisher.update(|state| LiveState {
        status: Status::Connected,
        ..state
    });
    assert_eq!(target, Some("/run/state.json"));
    assert_eq!(publisher.state().status, Status::Connected);
    assert_eq!(publisher.clear(), Some("/run/state.json"));
    let mut quiet = Publisher::new(None, LiveState::default());
    assert_eq!(quiet.update(|state| state), None);
    assert_eq!(quiet.clear(), None);
}

#[test]
fn live_states_of_a_session() {
    let start = LiveState::started(7, 1234, true);
    assert_eq!((start.pid, start.port, start.input_ready), (7, 1234, true));
    assert_eq!(start.status, Status::Listening);
    let locked = start.clone().locked(Some(99));
    assert_eq!(locked.locked_until, Some(99));
    assert_eq!(locked.locked(None), start);
    let waits = start.clone().sharing(true, "10.0.0.2".into(), "desk".into());
    assert_eq!(waits.status, Status::Sharing);
    assert_eq!(waits.peer.as_deref(), Some("10.0.0.2"));
    assert_eq!(waits.client.as_deref(), Some("desk"));
    assert_eq!(waits.since, None);
    let demo = start.clone().sharing(false, "10.0.0.2".into(), "desk".into());
    assert_eq!(demo.status, Status::Connected);
    let runs = waits.connected(50);
    assert_eq!((runs.status, runs.since), (Status::Connected, Some(50)));
    assert_eq!(runs.client.as_deref(), Some("desk"));
    let over = runs.listening(Some("boom".into()));
    assert_eq!(over.last_error.as_deref(), Some("boom"));
    assert_eq!(over.listening(None), start);
}

#[test]
fn a_refused_token_is_asked_for_again() {
    assert!(ask_again(true));
    assert!(!ask_again(false));
}

#[test]
fn status_of_a_stopped_host() {
    let report = report(&None, Ok(Settings::default()), Vec::new(), false, 0);
    assert_eq!(report.status, "stopped");
    assert!(!report.running);
    assert_eq!(
        report.text(),
        "Omarchy Connect is not running\nUnattended access: off\n"
    );
}

#[test]
fn status_of_a_connected_host() {
    let live = LiveState {
        pid: 7,
        status: Status::Connected,
        port: 1234,
        peer: Some("10.0.0.2".into()),
        client: Some("desk".into()),
        since: Some(5),
        locked_until: Some(130),
        last_error: Some("boom".into()),
        input_ready: false,
    };
    let settings = Settings {
        unattended: true,
        ..Settings::default()
    };
    let addresses = vec![Address {
        interface: "wlan0".into(),
        ip: "10.0.0.1".into(),
    }];
    let got = report(&Some(live.clone()), Ok(settings), addresses.clone(), true, 100);
    assert_eq!(got.locked_secs, 30);
    assert_eq!(got.settings_error, None);
    assert_eq!(
        got.text(),
        "Connected: 10.0.0.2 (desk)\n  address 10.0.0.1:1234 (wlan0)\nUnattended access: on, but \
         no PIN is set\nLocked for 30 s after wrong PINs\nInput: /dev/uinput is not writable; \
         remote keyboard and mouse are off\nLast session: boom\n"
    );
    // Settings that cannot be loaded count as no access and no PIN.
    let got = report(&Some(live), Err("bad".into()), addresses, true, 131);
    assert!(!got.unattended && !got.pin_set);
    assert_eq!(got.settings_error.as_deref(), Some("bad"));
    assert_eq!(got.locked_secs, 0);
    assert_eq!(
        got.text(),
        "Connected: 10.0.0.2 (desk)\n  address 10.0.0.1:1234 (wlan0)\nUnattended access: off\n\
         Input: /dev/uinput is not writable; remote keyboard and mouse are off\n\
         Last session: boom\nSettings: bad\n"
    );
}

#[test]
fn processes_and_interfaces() {
    assert_eq!(proc_path(42), "/proc/42");
    assert!(pid_alive(42, true));
    assert!(!pid_alive(42, false));
    assert!(!pid_alive(0, true));
    let interface = |name: &str, loopback, ip: Option<&str>| Interface {
        name: name.to_string(),
        loopback,
        ipv4: ip.map(|s| s.to_string()),
    };
    let found = lan_addresses(&vec![
        interface("lo", true, Some("127.0.0.1")),
        interface("docker0", false, Some("172.17.0.1")),
        interface("eth0", false, None),
        interface("wlan0", false, Some("10.0.0.5")),
    ]);
    assert_eq!(
        found,
        vec![Address {
            interface: "wlan0".into(),
            ip: "10.0.0.5".into()
        }]
    );
    assert_eq!(DEFAULT_PORT, 47921);
}

// ---------------------------------------------------------------------------
// The session
// ---------------------------------------------------------------------------

#[test]
fn time_stamps() {
    assert_eq!(check_fps(0), Err("fps must be at least 1".to_string()));
    assert_eq!(check_fps(1), Ok(()));
    assert_eq!(frame_interval(0), 1000);
    assert_eq!(frame_interval(30), 33);
    assert_eq!(advance_pts(5, 33), 38);
    assert_eq!(advance_pts(u64::MAX, 1), 0);
    let frame = EncodedFrame {
        keyframe: true,
        data: vec![1],
    };
    assert_eq!(
        video_message(2, u64::MAX, frame),
        Message::Video {
            display_id: 2,
            pts_ms: u32::MAX,
            keyframe: true,
            data: vec![1]
        }
    );
}

#[test]
fn displays_take_the_size_of_their_frames() {
    let mut displays = vec![display(0, 0, 0, 2, 2), display(1, 2, 0, 4, 4)];
    assert!(!resize_display(&mut displays, &raw(0, 0)));
    assert!(resize_display(&mut displays, &raw(1, 0)));
    assert_eq!((displays[1].width, displays[1].height), (2, 2));
    assert_eq!(displays[1].x, 2);
    assert!(!resize_display(&mut displays, &raw(5, 0)));
}

#[test]
fn reactions_of_the_host() {
    assert_eq!(
        react(&Message::Ping { nonce: 6 }),
        Reaction::Pong { nonce: 6 }
    );
    let event = InputEvent::MouseMove {
        display_id: 1,
        x: 2,
        y: 3,
    };
    assert_eq!(
        react(&Message::Input(event)),
        Reaction::Inject {
            event,
            cursor: Some(Cursor {
                display_id: 1,
                x: 2,
                y: 3,
                visible: true
            })
        }
    );
    let key = InputEvent::Key {
        code: KEY_A,
        pressed: true,
    };
    assert_eq!(
        react(&Message::Input(key)),
        Reaction::Inject {
            event: key,
            cursor: None
        }
    );
    assert_eq!(react(&Message::FileAccept { id: 1 }), Reaction::Pass);
}

#[test]
fn transfer_ids_say_who_offers() {
    assert_eq!(next_id(1, false), 1);
    assert_eq!(next_id(1, true), 0x8000_0001);
    assert_eq!(next_id(0x8000_0001, false), 1);
}

#[test]
fn glyphs_of_the_characters() {
    let drawn: Vec<char> = ('0'..='9').chain('A'..='Z').chain(['-', ' ']).collect();
    for (i, c) in drawn.iter().enumerate() {
        assert!(glyph(*c).iter().all(|row| *row < 32));
        assert_eq!(glyph(*c), glyph(c.to_ascii_lowercase()));
        assert_eq!(glyph(*c) == [0; 7], *c == ' ');
        for d in &drawn[..i] {
            assert_ne!(glyph(*c), glyph(*d));
        }
    }
    assert_eq!(
        glyph('0'),
        [0b01110, 0b10001, 0b10011, 0b10101, 0b11001, 0b10001, 0b01110]
    );
    for c in ['_', '.', '{', '@', 'é', '\0'] {
        assert_eq!(glyph(c), [31, 17, 17, 17, 17, 17, 31]);
    }
}
