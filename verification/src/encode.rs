//! What surrounds the H.264 encoders: VAAPI through ffmpeg when a render node is
//! present, and otherwise in-process libx264, whose stream OpenH264 can decode.

use vstd::prelude::*;
use vstd::slice::*;
use vstd::string::*;
use vstd::utf8::*;

use crate::bytes::put_all;
use crate::message::{signed, to_signed};
use crate::settings::opt_text;
use crate::text::{chars_of, decimal, decimal_text, push_decimal, same_text, starts_with, string_of, texts};
use crate::yuv::{i420_len, product};

verus! {

/// One encoded picture.
#[derive(Debug, Clone, PartialEq, Eq)]
pub struct EncodedFrame {
    pub keyframe: bool,
    pub data: Vec<u8>,
}

/// An encoder that can run.
#[derive(Clone, Copy, Debug, PartialEq, Eq, Structural)]
pub enum Backend {
    X264,
    Vaapi,
}

/// The sizes and rates of a stream, and what encodes it.
#[derive(Clone, Copy, Debug, PartialEq, Eq, Structural)]
pub struct Encoder {
    pub width: u32,
    pub height: u32,
    pub fps: u32,
    pub bitrate_kbps: u32,
    pub backend: Backend,
}

/// The sides that can be encoded.
pub open spec fn size_is_fit(width: u32, height: u32) -> bool {
    width != 0 && height != 0 && width % 2 == 0 && height % 2 == 0
}

impl Encoder {
    /// What encodes the next picture, after libx264 was given one in the place of VAAPI.
    pub open spec fn next_backend(self, encoded: bool) -> Backend {
        if encoded {
            Backend::X264
        } else {
            self.backend
        }
    }

    /// What encodes the first picture.
    pub open spec fn first_backend(force_x264: bool, vaapi: bool) -> Backend {
        if vaapi && !force_x264 {
            Backend::Vaapi
        } else {
            Backend::X264
        }
    }

    /// An encoder for pictures of this size: VAAPI where it opened and is not
    /// ruled out.
    pub fn open(
        width: u32,
        height: u32,
        fps: u32,
        bitrate_kbps: u32,
        force_x264: bool,
        vaapi: bool,
    ) -> (r: Result<Encoder, String>)
        ensures
            match r {
                Ok(e) => {
                    &&& size_is_fit(width, height)
                    &&& e == (Encoder {
                        width,
                        height,
                        fps,
                        bitrate_kbps,
                        backend: if vaapi && !force_x264 {
                            Backend::Vaapi
                        } else {
                            Backend::X264
                        },
                    })
                },
                Err(text) => {
                    &&& !size_is_fit(width, height)
                    &&& text@ == "encoder size must be even and non-zero, got "@ + decimal(
                        width as nat,
                    ) + "x"@ + decimal(height as nat)
                },
            },
            r matches Ok(e) ==> e.backend == Encoder::first_backend(force_x264, vaapi),
    {
        if width == 0 || height == 0 || width % 2 != 0 || height % 2 != 0 {
            let mut out = "encoder size must be even and non-zero, got ".to_owned();
            push_decimal(&mut out, width as u64);
            out.append("x");
            push_decimal(&mut out, height as u64);
            return Err(out);
        }
        let backend = if vaapi && !force_x264 {
            Backend::Vaapi
        } else {
            Backend::X264
        };
        Ok(Encoder { width, height, fps, bitrate_kbps, backend })
    }

    /// Whether the bytes hold a picture, or what to say where they do not.
    pub fn check(&self, i420: &[u8]) -> (r: Result<(), String>)
        requires
            i420_len(self.width as int, self.height as int) <= u64::MAX,
        ensures
            ({
                let need = i420_len(self.width as int, self.height as int);
                match r {
                    Ok(_) => need <= i420@.len(),
                    Err(text) => {
                        &&& need > i420@.len()
                        &&& text@ == "i420 buffer is "@ + decimal(i420@.len()) + " bytes, need "@
                            + decimal(need as nat)
                    },
                }
            }),
    {
        let need: u128 = product(self.width as u128, self.height as u128) + 2 * product(
            (self.width / 2) as u128,
            (self.height / 2) as u128,
        );
        if (i420.len() as u128) < need {
            let mut out = "i420 buffer is ".to_owned();
            push_decimal(&mut out, i420.len() as u64);
            out.append(" bytes, need ");
            push_decimal(&mut out, need as u64);
            return Err(out);
        }
        Ok(())
    }

    /// An encoder failed: whether libx264 is to encode the same picture. It does in
    /// the place of VAAPI; there is nothing to take its own.
    pub fn on_failure(&self) -> (retry: bool)
        ensures
            retry == (self.backend == Backend::Vaapi),
    {
        self.backend == Backend::Vaapi
    }

    /// libx264 was given a picture in the place of VAAPI. Where it encoded it, it
    /// stays for good; where it did not, VAAPI is given the next one.
    pub fn on_fallback(&mut self, encoded: bool)
        ensures
            *final(self) == (Encoder {
                backend: if encoded {
                    Backend::X264
                } else {
                    old(self).backend
                },
                ..*old(self)
            }),
            final(self).backend == old(self).next_backend(encoded),
    {
        if encoded {
            self.backend = Backend::X264;
        }
    }
}

/// The rates that libx264 is set up with.
#[derive(Clone, Copy, Debug, PartialEq, Eq, Structural)]
pub struct X264Rates {
    pub fps: u32,
    pub bitrate: i32,
    pub max_keyframe_interval: i32,
    pub min_keyframe_interval: i32,
}

pub open spec fn at_least(v: u32, low: u32) -> u32 {
    if v < low {
        low
    } else {
        v
    }
}

/// The rates for a frame rate and a bitrate.
pub open spec fn rates_for(fps: u32, bitrate_kbps: u32) -> X264Rates {
    X264Rates {
        fps: at_least(fps, 1),
        bitrate: signed(at_least(bitrate_kbps, 200) as nat),
        max_keyframe_interval: signed((at_least(fps, 1) * 2) as nat),
        min_keyframe_interval: signed(at_least(fps, 1) as nat),
    }
}

/// A keyframe every two seconds at the latest, and never two within one.
pub fn x264_rates(fps: u32, bitrate_kbps: u32) -> (r: X264Rates)
    requires
        fps * 2 <= u32::MAX,
    ensures
        r.fps == at_least(fps, 1),
        r.bitrate == signed(at_least(bitrate_kbps, 200) as nat),
        r.max_keyframe_interval == signed((at_least(fps, 1) * 2) as nat),
        r.min_keyframe_interval == signed(at_least(fps, 1) as nat),
        r == rates_for(fps, bitrate_kbps),
{
    let fps: u32 = if fps < 1 {
        1
    } else {
        fps
    };
    let bitrate: u32 = if bitrate_kbps < 200 {
        200
    } else {
        bitrate_kbps
    };
    X264Rates {
        fps,
        bitrate: to_signed(bitrate),
        max_keyframe_interval: to_signed(fps * 2),
        min_keyframe_interval: to_signed(fps),
    }
}

/// The planes of a picture: luma, then both colour differences.
pub open spec fn planes_of(i420: Seq<u8>, width: u32, height: u32) -> (Seq<u8>, Seq<u8>, Seq<u8>) {
    let y = width * height;
    let c = (width as int / 2) * (height as int / 2);
    (i420.subrange(0, y), i420.subrange(y, y + c), i420.subrange(y + c, y + 2 * c))
}

/// The planes of a picture: luma, then both colour differences.
pub fn split_planes(i420: &[u8], width: u32, height: u32) -> (r: (&[u8], &[u8], &[u8]))
    requires
        i420_len(width as int, height as int) <= i420@.len(),
    ensures
        ({
            let y = width * height;
            let c = (width as int / 2) * (height as int / 2);
            &&& r.0@ == i420@.subrange(0, y)
            &&& r.1@ == i420@.subrange(y, y + c)
            &&& r.2@ == i420@.subrange(y + c, y + 2 * c)
        }),
        (r.0@, r.1@, r.2@) == planes_of(i420@, width, height),
{
    let y: u128 = product(width as u128, height as u128);
    let c: u128 = product((width / 2) as u128, (height / 2) as u128);
    assert(i420@.len() == i420.len());
    let a: usize = y as usize;
    let b: usize = (y + c) as usize;
    let end: usize = (y + 2 * c) as usize;
    (slice_subrange(i420, 0, a), slice_subrange(i420, a, b), slice_subrange(i420, b, end))
}

/// What is sent of what the encoder returned, if anything.
pub open spec fn assembled(headers: Seq<u8>, payload: Seq<u8>, keyframe: bool) -> Option<Seq<u8>> {
    if payload.len() == 0 {
        None
    } else if keyframe {
        Some(headers + payload)
    } else {
        Some(payload)
    }
}

/// The frame of what the encoder returned: a keyframe has the parameter sets
/// before it. There may be no output for a picture.
pub fn assemble(headers: &[u8], payload: &[u8], keyframe: bool) -> (r: Option<EncodedFrame>)
    ensures
        if payload@.len() == 0 {
            r is None
        } else {
            r matches Some(f) && f.keyframe == keyframe && f.data@ == (if keyframe {
                headers@ + payload@
            } else {
                payload@
            })
        },
        r is Some <==> assembled(headers@, payload@, keyframe) is Some,
        r matches Some(f) ==> f.keyframe == keyframe && assembled(headers@, payload@, keyframe)
            == Some(f.data@),
{
    if payload.len() == 0 {
        return None;
    }
    let mut data: Vec<u8> = Vec::new();
    if keyframe {
        put_all(&mut data, headers);
    }
    put_all(&mut data, payload);
    assert(data@ =~= if keyframe {
        headers@ + payload@
    } else {
        payload@
    });
    Some(EncodedFrame { keyframe, data })
}

// ---------------------------------------------------------------------------
// ffmpeg
// ---------------------------------------------------------------------------

/// Whether libx264 is asked for: the variable is set to anything but `0`.
pub fn force_x264(var: Option<&str>) -> (r: bool)
    ensures
        r == (var matches Some(v) && v@ != "0"@),
{
    match var {
        Some(v) => !same_text(v, "0"),
        None => false,
    }
}

/// Whether `a` comes before `b` in the order of their bytes.
pub open spec fn sorts_before(a: Seq<u8>, b: Seq<u8>) -> bool
    decreases a.len(),
{
    if b.len() == 0 {
        false
    } else if a.len() == 0 {
        true
    } else if a[0] != b[0] {
        a[0] < b[0]
    } else {
        sorts_before(a.drop_first(), b.drop_first())
    }
}

fn earlier(a: &str, b: &str) -> (r: bool)
    ensures
        r == sorts_before(encode_utf8(a@), encode_utf8(b@)),
{
    let x = a.as_bytes();
    let y = b.as_bytes();
    let mut i: usize = 0;
    assert(x@.skip(0) =~= x@);
    assert(y@.skip(0) =~= y@);
    while i < x.len() && i < y.len()
        invariant
            x@ == encode_utf8(a@),
            y@ == encode_utf8(b@),
            i <= x@.len(),
            i <= y@.len(),
            sorts_before(x@, y@) == sorts_before(x@.skip(i as int), y@.skip(i as int)),
        decreases x.len() - i,
    {
        if x[i] != y[i] {
            return x[i] < y[i];
        }
        assert(x@.skip(i as int).drop_first() =~= x@.skip(i + 1));
        assert(y@.skip(i as int).drop_first() =~= y@.skip(i + 1));
        i += 1;
    }
    i < y.len()
}

/// The first render node by name among the entries of the device directory.
pub open spec fn first_node(names: Seq<String>) -> Option<Seq<char>>
    decreases names.len(),
{
    if names.len() == 0 {
        None
    } else {
        let name = names.last()@;
        match first_node(names.drop_last()) {
            None => if "renderD"@.is_prefix_of(name) {
                Some(name)
            } else {
                None
            },
            Some(best) => if "renderD"@.is_prefix_of(name) && sorts_before(
                encode_utf8(name),
                encode_utf8(best),
            ) {
                Some(name)
            } else {
                Some(best)
            },
        }
    }
}

/// The path of the first render node among the entries of the device directory.
pub fn render_node(names: &Vec<String>) -> (r: Option<String>)
    ensures
        opt_text(r) == (match first_node(names@) {
            Some(name) => Some("/dev/dri/"@ + name),
            None => None,
        }),
{
    let mut best: Option<usize> = None;
    assert(first_node(names@.take(0)) is None);
    for i in 0..names.len()
        invariant
            match best {
                Some(k) => k < i && first_node(names@.take(i as int)) == Some(names@[k as int]@),
                None => first_node(names@.take(i as int)) is None,
            },
    {
        assert(names@.take(i + 1).drop_last() =~= names@.take(i as int));
        let name = names[i].as_str();
        if starts_with(name, "renderD") {
            let first = match best {
                Some(k) => earlier(name, names[k].as_str()),
                None => true,
            };
            if first {
                best = Some(i);
            }
        }
    }
    assert(names@.take(names@.len() as int) =~= names@);
    match best {
        Some(k) => {
            let mut path = "/dev/dri/".to_owned();
            path.append(names[k].as_str());
            Some(path)
        },
        None => None,
    }
}

/// Whether a text is a part of another.
pub open spec fn holds_text(text: Seq<char>, part: Seq<char>) -> bool {
    exists|i: int|
        0 <= i <= text.len() - part.len() && #[trigger] text.subrange(i, i + part.len()) == part
}

/// Whether the list of ffmpeg's encoders has the VAAPI one.
pub fn lists_vaapi(text: &str) -> (r: bool)
    ensures
        r == holds_text(text@, "h264_vaapi"@),
{
    let chars = chars_of(text);
    let part = chars_of("h264_vaapi");
    if chars.len() < part.len() {
        return false;
    }
    let n: usize = chars.len() - part.len();
    let mut i: usize = 0;
    while i <= n
        invariant
            chars@ == text@,
            part@ == "h264_vaapi"@,
            n == chars@.len() - part@.len(),
            i <= n + 1,
            forall|j: int|
                0 <= j < i ==> #[trigger] chars@.subrange(j, j + part@.len()) != part@,
        decreases n + 1 - i,
    {
        let mut k: usize = 0;
        while k < part.len() && chars[i + k] == part[k]
            invariant
                k <= part@.len(),
                i <= n,
                n == chars@.len() - part@.len(),
                chars@.len() == chars.len(),
                forall|j: int| 0 <= j < k ==> chars@[i + j] == part@[j],
            decreases part.len() - k,
        {
            k += 1;
        }
        if k == part.len() {
            assert(chars@.subrange(i as int, i + part@.len()) =~= part@);
            return true;
        }
        assert(chars@.subrange(i as int, i + part@.len())[k as int] != part@[k as int]);
        if i == n {
            return false;
        }
        i += 1;
    }
    false
}

/// The arguments of the ffmpeg process that encodes raw pictures on its input.
pub open spec fn ffmpeg_words(device: Seq<char>, width: u32, height: u32, fps: u32) -> Seq<Seq<char>> {
    let rate = at_least(fps, 1);
    seq![
        "-hide_banner"@,
        "-loglevel"@,
        "error"@,
        "-vaapi_device"@,
        device,
        "-fflags"@,
        "nobuffer"@,
        "-f"@,
        "rawvideo"@,
        "-pix_fmt"@,
        "yuv420p"@,
        "-video_size"@,
        decimal(width as nat) + "x"@ + decimal(height as nat),
        "-framerate"@,
        decimal(rate as nat),
        "-i"@,
        "pipe:0"@,
        "-vf"@,
        "format=nv12,hwupload"@,
        "-c:v"@,
        "h264_vaapi"@,
        "-bf"@,
        "0"@,
        "-g"@,
        decimal((rate * 2) as nat),
        "-qp"@,
        "23"@,
        "-f"@,
        "h264"@,
        "pipe:1"@,
    ]
}

fn push_word(out: &mut Vec<String>, word: &str)
    ensures
        texts(final(out)@) == texts(old(out)@).push(word@),
{
    out.push(word.to_owned());
    assert(texts(out@) =~= texts(old(out)@).push(word@));
}

pub fn ffmpeg_args(device: &str, width: u32, height: u32, fps: u32) -> (r: Vec<String>)
    requires
        fps * 2 <= u32::MAX,
    ensures
        texts(r@) == ffmpeg_words(device@, width, height, fps),
{
    let rate: u32 = if fps < 1 {
        1
    } else {
        fps
    };
    let mut size = decimal_text(width as u64);
    size.append("x");
    push_decimal(&mut size, height as u64);
    let framerate = decimal_text(rate as u64);
    let gop = decimal_text((rate * 2) as u64);
    let mut out: Vec<String> = Vec::new();
    assert(texts(out@) =~= Seq::<Seq<char>>::empty());
    push_word(&mut out, "-hide_banner");
    push_word(&mut out, "-loglevel");
    push_word(&mut out, "error");
    push_word(&mut out, "-vaapi_device");
    push_word(&mut out, device);
    push_word(&mut out, "-fflags");
    push_word(&mut out, "nobuffer");
    push_word(&mut out, "-f");
    push_word(&mut out, "rawvideo");
    push_word(&mut out, "-pix_fmt");
    push_word(&mut out, "yuv420p");
    push_word(&mut out, "-video_size");
    push_word(&mut out, size.as_str());
    push_word(&mut out, "-framerate");
    push_word(&mut out, framerate.as_str());
    push_word(&mut out, "-i");
    push_word(&mut out, "pipe:0");
    push_word(&mut out, "-vf");
    push_word(&mut out, "format=nv12,hwupload");
    push_word(&mut out, "-c:v");
    push_word(&mut out, "h264_vaapi");
    push_word(&mut out, "-bf");
    push_word(&mut out, "0");
    push_word(&mut out, "-g");
    push_word(&mut out, gop.as_str());
    push_word(&mut out, "-qp");
    push_word(&mut out, "23");
    push_word(&mut out, "-f");
    push_word(&mut out, "h264");
    push_word(&mut out, "pipe:1");
    assert(texts(out@) =~= ffmpeg_words(device@, width, height, fps));
    out
}

/// How long a log may grow, in bytes.
pub const LOG_LIMIT: usize = 4000;

/// How much of a log is kept once it is longer.
pub const LOG_KEPT: usize = 2000;

/// The longest end of a text that takes at most `room` bytes.
pub open spec fn tail_of(s: Seq<char>, room: nat) -> Seq<char>
    decreases s.len(),
{
    if s.len() == 0 || encode_utf8(s).len() <= room {
        s
    } else {
        tail_of(s.drop_first(), room)
    }
}

/// A log after a text was added: only its end, once it is long.
pub open spec fn logged(log: Seq<char>, text: Seq<char>) -> Seq<char> {
    let all = log + text;
    if encode_utf8(all).len() > LOG_LIMIT {
        tail_of(all, LOG_KEPT as nat)
    } else {
        all
    }
}

/// Adds to a log, of which only the end is kept.
pub fn push_log(log: &mut String, text: &str)
    ensures
        final(log)@ == logged(old(log)@, text@),
{
    log.append(text);
    let ghost all = log@;
    let len: usize = log.as_str().as_bytes().len();
    if len <= LOG_LIMIT {
        return ;
    }
    let chars = chars_of(log.as_str());
    let mut i: usize = 0;
    let mut left: usize = len;
    assert(all.skip(0) =~= all);
    while i < chars.len() && left > LOG_KEPT
        invariant
            chars@ == all,
            i <= chars@.len(),
            left == encode_utf8(all.skip(i as int)).len(),
            tail_of(all, LOG_KEPT as nat) == tail_of(all.skip(i as int), LOG_KEPT as nat),
        decreases chars.len() - i,
    {
        assert(all.skip(i as int).drop_first() =~= all.skip(i + 1));
        left = left - crate::message::width(chars[i]);
        i += 1;
    }
    let rest = slice_subrange(chars.as_slice(), i, chars.len());
    assert(rest@ =~= all.skip(i as int));
    *log = string_of(rest);
}

/// The sides that can be encoded are those that blocks of two by two fill.
pub proof fn fit_sizes_are_blocks(width: u32, height: u32)
    ensures
        size_is_fit(width, height) <==> exists|a: u32, b: u32|
            a > 0 && b > 0 && #[trigger] doubles(a, width) && #[trigger] doubles(b, height),
{
    if size_is_fit(width, height) {
        assert(doubles((width / 2) as u32, width) && doubles((height / 2) as u32, height));
    }
}

/// Whether a number is twice another.
pub open spec fn doubles(a: u32, v: u32) -> bool {
    v == 2 * a
}

/// A rate is raised to the least one, and left alone from there on.
pub proof fn rates_are_raised(v: u32, low: u32)
    ensures
        low <= at_least(v, low),
        v >= low ==> at_least(v, low) == v,
        v < low ==> at_least(v, low) == low,
{
}

/// Whether bytes come before others: a first byte at which they differ is smaller, or they
/// are the start of the others.
pub open spec fn differ_first_at(a: Seq<u8>, b: Seq<u8>, k: int) -> bool {
    &&& 0 <= k <= a.len()
    &&& k < b.len()
    &&& forall|j: int| 0 <= j < k ==> a[j] == b[j]
    &&& k == a.len() || a[k] < b[k]
}

/// What sorts before other bytes is smaller at the first place at which they differ.
pub proof fn sorted_by_the_first_difference(a: Seq<u8>, b: Seq<u8>)
    ensures
        sorts_before(a, b) <==> exists|k: int| differ_first_at(a, b, k),
    decreases a.len(),
{
    if a.len() > 0 && b.len() > 0 && a[0] == b[0] {
        let c = a.drop_first();
        let d = b.drop_first();
        sorted_by_the_first_difference(c, d);
        if sorts_before(c, d) {
            let k = choose|k: int| differ_first_at(c, d, k);
            assert forall|j: int| 0 <= j < k + 1 implies a[j] == b[j] by {
                if j > 0 {
                    assert(c[j - 1] == d[j - 1]);
                }
            }
            assert(differ_first_at(a, b, k + 1));
        }
        if exists|k: int| differ_first_at(a, b, k) {
            let k = choose|k: int| differ_first_at(a, b, k);
            assert(k > 0);
            assert forall|j: int| 0 <= j < k - 1 implies c[j] == d[j] by {
                assert(a[j + 1] == b[j + 1]);
            }
            assert(differ_first_at(c, d, k - 1));
        }
    } else if b.len() > 0 {
        if sorts_before(a, b) {
            assert(differ_first_at(a, b, 0));
        }
    }
}

proof fn sorting_is_strict(a: Seq<u8>)
    ensures
        !sorts_before(a, a),
    decreases a.len(),
{
    if a.len() > 0 {
        sorting_is_strict(a.drop_first());
    }
}

proof fn sorting_is_transitive(a: Seq<u8>, b: Seq<u8>, c: Seq<u8>)
    requires
        !sorts_before(b, a),
        sorts_before(c, a),
    ensures
        !sorts_before(b, c),
    decreases a.len(),
{
    if c.len() > 0 && a.len() > 0 && b.len() > 0 && a[0] == c[0] && a[0] == b[0] {
        sorting_is_transitive(a.drop_first(), b.drop_first(), c.drop_first());
    }
}

/// Whether the name of a device is that of a render node.
pub open spec fn is_node(name: Seq<char>) -> bool {
    seq!['r', 'e', 'n', 'd', 'e', 'r', 'D'].is_prefix_of(name)
}

/// The node that is used is one of the render nodes that there are, and no other sorts
/// before it. There is none only where no device is a render node.
pub proof fn first_node_is_the_first(names: Seq<String>, i: int)
    requires
        0 <= i < names.len(),
    ensures
        is_node(names[i]@) ==> (first_node(names) matches Some(best) && !sorts_before(
            encode_utf8(names[i]@),
            encode_utf8(best),
        )),
        first_node(names) matches Some(best) ==> is_node(best) && texts(names).contains(best),
    decreases names.len(),
{
    reveal_strlit("renderD");
    assert("renderD"@ =~= seq!['r', 'e', 'n', 'd', 'e', 'r', 'D']);
    let before = names.drop_last();
    let name = names.last()@;
    sorting_is_strict(encode_utf8(name));
    assert(texts(names)[names.len() - 1] == name);
    if before.len() > 0 {
        let j = if i < before.len() {
            i
        } else {
            0
        };
        first_node_is_the_first(before, j);
        assert(before[j] == names[j]);
        if let Some(best) = first_node(before) {
            let k = choose|k: int| 0 <= k < texts(before).len() && texts(before)[k] == best;
            assert(texts(names)[k] == best);
            if is_node(names[j]@) && sorts_before(encode_utf8(name), encode_utf8(best)) {
                sorting_is_transitive(
                    encode_utf8(best),
                    encode_utf8(names[j]@),
                    encode_utf8(name),
                );
            }
        }
    } else {
        assert(first_node(before) is None);
    }
}

/// A log is what it was with the text behind it. Once that takes more than 4000 bytes,
/// it is an end of it of at most 2000 bytes, and one more character would not fit.
pub proof fn logs_keep_their_end(log: Seq<char>, text: Seq<char>)
    ensures
        encode_utf8(log + text).len() <= 4000 ==> logged(log, text) == log + text,
        encode_utf8(log + text).len() > 4000 ==> {
            let all = log + text;
            let after = logged(log, text);
            &&& after.len() < all.len() && after == all.skip(all.len() - after.len())
            &&& encode_utf8(after).len() <= 2000
            &&& encode_utf8(all.skip(all.len() - after.len() - 1)).len() > 2000
        },
{
    if encode_utf8(log + text).len() > 4000 {
        tail_is_the_longest(log + text, 2000);
    }
}

proof fn tail_is_the_longest(s: Seq<char>, room: nat)
    requires
        encode_utf8(s).len() > room,
    ensures
        tail_of(s, room).len() < s.len(),
        tail_of(s, room) == s.skip(s.len() - tail_of(s, room).len()),
        encode_utf8(tail_of(s, room)).len() <= room,
        encode_utf8(s.skip(s.len() - tail_of(s, room).len() - 1)).len() > room,
    decreases s.len(),
{
    reveal_with_fuel(tail_of, 2);
    let t = tail_of(s, room);
    assert(s.len() == 0 ==> encode_utf8(s).len() == 0);
    let rest = s.drop_first();
    assert(rest.len() == 0 ==> encode_utf8(rest).len() == 0);
    assert(rest =~= s.skip(1));
    assert(s.skip(0) =~= s);
    if rest.len() == 0 || encode_utf8(rest).len() <= room {
        assert(t == rest);
    } else {
        tail_is_the_longest(rest, room);
        assert(rest.skip(rest.len() - t.len()) =~= s.skip(s.len() - t.len()));
        assert(rest.skip(rest.len() - t.len() - 1) =~= s.skip(s.len() - t.len() - 1));
    }
}

/// Whether a word comes directly behind another one.
pub open spec fn has_option(words: Seq<Seq<char>>, k: int, option: Seq<char>, value: Seq<char>) -> bool {
    0 <= k < words.len() - 1 && words[k] == option && words[k + 1] == value
}

/// ffmpeg is told the device, the size and the rate of the pictures, and to make a
/// keyframe at least every two seconds. It reads planar pictures from its input, encodes
/// them on the device and writes the bare stream to its output.
pub proof fn ffmpeg_is_told(device: Seq<char>, width: u32, height: u32, fps: u32)
    requires
        fps > 0,
    ensures
        ({
            let words = ffmpeg_words(device, width, height, fps);
            &&& words.len() == 30
            &&& has_option(words, 3, "-vaapi_device"@, device)
            &&& has_option(words, 7, "-f"@, "rawvideo"@)
            &&& has_option(words, 9, "-pix_fmt"@, "yuv420p"@)
            &&& has_option(
                words,
                11,
                "-video_size"@,
                decimal(width as nat) + "x"@ + decimal(height as nat),
            )
            &&& has_option(words, 13, "-framerate"@, decimal(fps as nat))
            &&& has_option(words, 15, "-i"@, "pipe:0"@)
            &&& has_option(words, 17, "-vf"@, "format=nv12,hwupload"@)
            &&& has_option(words, 19, "-c:v"@, "h264_vaapi"@)
            &&& has_option(words, 21, "-bf"@, "0"@)
            &&& has_option(words, 23, "-g"@, decimal((2 * fps) as nat))
            &&& has_option(words, 25, "-qp"@, "23"@)
            &&& has_option(words, 27, "-f"@, "h264"@)
            &&& words[29] == "pipe:1"@
        }),
{
}

/// ffmpeg is told to be quiet and not to hold pictures back. A rate of 0 counts as 1.
pub proof fn ffmpeg_is_quiet(device: Seq<char>, width: u32, height: u32, fps: u32)
    ensures
        ({
            let words = ffmpeg_words(device, width, height, fps);
            &&& words[0] == "-hide_banner"@
            &&& has_option(words, 1, "-loglevel"@, "error"@)
            &&& has_option(words, 5, "-fflags"@, "nobuffer"@)
            &&& ffmpeg_words(device, width, height, 0) == ffmpeg_words(device, width, height, 1)
        }),
{
}

/// libx264 is given a rate of at least one frame and 200 kilobits in a second, and makes
/// keyframes no farther apart than two seconds and no nearer than one.
pub proof fn keyframes_are_one_or_two_seconds_apart(fps: u32, bitrate_kbps: u32)
    requires
        fps <= 0x3fff_ffff,
        bitrate_kbps <= 0x7fff_ffff,
    ensures
        ({
            let r = rates_for(fps, bitrate_kbps);
            &&& fps > 0 ==> r.fps == fps
            &&& fps == 0 ==> r.fps == 1
            &&& bitrate_kbps >= 200 ==> r.bitrate == bitrate_kbps
            &&& bitrate_kbps < 200 ==> r.bitrate == 200
            &&& r.min_keyframe_interval == r.fps
            &&& r.max_keyframe_interval == 2 * r.fps
        }),
{
}

/// The planes of a picture are all of it, one after another: a byte for each pixel, and
/// twice one for each block of two by two.
pub proof fn planes_are_the_picture(i420: Seq<u8>, width: u32, height: u32)
    requires
        i420.len() == width * height + 2 * ((width as int / 2) * (height as int / 2)),
    ensures
        ({
            let (y, u, v) = planes_of(i420, width, height);
            &&& y + u + v == i420
            &&& y.len() == width * height
            &&& u.len() == (width as int / 2) * (height as int / 2)
            &&& v.len() == u.len()
        }),
{
    let (y, u, v) = planes_of(i420, width, height);
    assert(0 <= width * height) by (nonlinear_arith);
    let a = width as int / 2;
    let b = height as int / 2;
    assert(0 <= a * b) by (nonlinear_arith)
        requires
            0 <= a,
            0 <= b,
    ;
    assert(y + u + v =~= i420);
}

/// A keyframe can be decoded by itself: the parameter sets are before it, and nowhere else.
pub proof fn keyframes_have_their_parameters(headers: Seq<u8>, payload: Seq<u8>, b: u8)
    ensures
        assembled(headers, payload.push(b), true) == Some(headers + payload.push(b)),
        assembled(headers, payload.push(b), false) == Some(payload.push(b)),
        assembled(headers, seq![], true) is None && assembled(headers, seq![], false) is None,
{
}

/// VAAPI encodes where it can and may, until libx264 has once done it in its place. From
/// then on libx264 does.
pub proof fn fallback_is_for_good(e: Encoder, encoded: bool, force_x264: bool, vaapi: bool)
    ensures
        Encoder::first_backend(force_x264, vaapi) is Vaapi <==> vaapi && !force_x264,
        e.next_backend(encoded) is Vaapi <==> e.backend is Vaapi && !encoded,
        e.backend is X264 ==> e.next_backend(encoded) is X264,
{
}

} // verus!
