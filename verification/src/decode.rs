//! H.264 decoding with OpenH264: one decoder for each display.

use std::collections::HashMap;

use vstd::prelude::*;
use vstd::string::*;

use openh264::formats::YUVSource;

use crate::nal::short_code;

verus! {

/// A decoded picture: four bytes for each pixel, in the order red, green, blue,
/// alpha.
#[derive(Debug, Clone, PartialEq, Eq)]
pub struct RgbaFrame {
    pub width: u32,
    pub height: u32,
    pub rgba: Vec<u8>,
}

/// A [`RgbaFrame`] over a sequence.
#[verifier::ext_equal]
pub struct RgbaView {
    pub width: u32,
    pub height: u32,
    pub rgba: Seq<u8>,
}

impl View for RgbaFrame {
    type V = RgbaView;

    open spec fn view(&self) -> RgbaView {
        RgbaView { width: self.width, height: self.height, rgba: self.rgba@ }
    }
}

pub open spec fn opt_frame(f: Option<RgbaFrame>) -> Option<RgbaView> {
    match f {
        Some(f) => Some(f@),
        None => None,
    }
}

/// What OpenH264 makes of a NAL: its width, its height and its pixels.
pub struct Picture {
    pub width: usize,
    pub height: usize,
    pub rgba: Vec<u8>,
}

// ---------------------------------------------------------------------------
// OpenH264
// ---------------------------------------------------------------------------

/// An OpenH264 decoder.
#[verifier::external_type_specification]
#[verifier::external_body]
pub struct ExDecoder(openh264::decoder::Decoder);

/// An error of OpenH264.
#[verifier::external_type_specification]
#[verifier::external_body]
pub struct ExOpenH264Error(openh264::Error);

/// The NALs that a decoder has taken, in order.
pub uninterp spec fn nals_taken(d: openh264::decoder::Decoder) -> Seq<Seq<u8>>;

/// What a decoder that has taken some NALs makes of the next one: `Err` where the
/// stream is broken, and otherwise a picture if one is ready.
pub uninterp spec fn h264_picture(taken: Seq<Seq<u8>>, nal: Seq<u8>) -> Result<
    Option<(usize, usize, Seq<u8>)>,
    (),
>;

/// `Decoder::new`: a decoder that has taken nothing. The library may fail to set
/// one up, which is not expected to happen.
#[verifier::external_body]
fn new_decoder() -> (r: Result<openh264::decoder::Decoder, openh264::Error>)
    ensures
        r matches Ok(d) ==> nals_taken(d) == Seq::<Seq<u8>>::empty(),
{
    openh264::decoder::Decoder::new()
}

/// What an error of OpenH264 says of itself.
pub uninterp spec fn openh264_message(err: openh264::Error) -> Seq<char>;

/// `Display` for `openh264::Error`: the error in words, which are made of nothing
/// but the error. What they are is not stated: the library does not show the codes
/// and the message that they are made of.
#[verifier::external_body]
fn error_text(err: &openh264::Error) -> (r: String)
    ensures
        r@ == openh264_message(*err),
{
    err.to_string()
}

/// The parts of a decoded picture.
pub open spec fn picture_parts(r: Result<Option<Picture>, openh264::Error>) -> Result<
    Option<(usize, usize, Seq<u8>)>,
    (),
> {
    match r {
        Ok(Some(p)) => Ok(Some((p.width, p.height, p.rgba@))),
        Ok(None) => Ok(None),
        Err(_) => Err(()),
    }
}

/// `Decoder::decode`, and for the picture `dimensions`, `rgba8_len` and
/// `write_rgba8`: the decoder takes the NAL, and the pixels of a picture are four
/// bytes each. The length of the NAL is an `i32` in the library.
#[verifier::external_body]
fn decode_nal(d: &mut openh264::decoder::Decoder, nal: &[u8]) -> (r: Result<
    Option<Picture>,
    openh264::Error,
>)
    requires
        nal@.len() <= i32::MAX,
    ensures
        nals_taken(*final(d)) == nals_taken(*old(d)).push(nal@),
        picture_parts(r) == h264_picture(nals_taken(*old(d)), nal@),
        r matches Ok(Some(p)) ==> p.rgba@.len() == p.width * p.height * 4,
{
    match d.decode(nal) {
        Ok(Some(yuv)) => {
            let (width, height) = yuv.dimensions();
            let mut rgba = vec![0u8; yuv.rgba8_len()];
            yuv.write_rgba8(&mut rgba);
            Ok(Some(Picture { width, height, rgba }))
        },
        Ok(None) => Ok(None),
        Err(err) => Err(err),
    }
}

/// The first `00 00 01` at or after `i`.
pub open spec fn next_mark(s: Seq<u8>, i: int) -> Option<int>
    decreases s.len() - i,
{
    if i + 2 >= s.len() {
        None
    } else if short_code(s, i) {
        Some(i)
    } else {
        next_mark(s, i + 1)
    }
}

/// The bytes from each mark to the next one, from the mark at `p` on.
pub open spec fn parts_from(s: Seq<u8>, p: int) -> Seq<Seq<u8>>
    decreases s.len() - p,
{
    if 0 <= p < s.len() {
        match next_mark(s, p + 1) {
            Some(q) if p < q && q < s.len() => seq![s.subrange(p, q)] + parts_from(s, q),
            _ => seq![s.skip(p)],
        }
    } else {
        seq![]
    }
}

/// A stream cut at its marks. What is before the first one is left out.
pub open spec fn nal_parts(s: Seq<u8>) -> Seq<Seq<u8>> {
    match next_mark(s, 0) {
        Some(p) => parts_from(s, p),
        None => seq![],
    }
}

pub open spec fn byte_views(s: Seq<Vec<u8>>) -> Seq<Seq<u8>> {
    s.map_values(|v: Vec<u8>| v@)
}

/// `openh264::nal_units`: cuts a stream at each `00 00 01`.
#[verifier::external_body]
fn nal_units(stream: &[u8]) -> (r: Vec<Vec<u8>>)
    ensures
        byte_views(r@) == nal_parts(stream@),
{
    openh264::nal_units(stream).map(|nal| nal.to_vec()).collect()
}

// ---------------------------------------------------------------------------
// The bank
// ---------------------------------------------------------------------------

/// OpenH264 could not set up a decoder, for a reason that it gives.
#[derive(Debug, Clone, PartialEq, Eq)]
pub struct NoDecoder {
    pub reason: String,
}

impl NoDecoder {
    /// The failure in words.
    pub fn text(&self) -> (r: String)
        ensures
            r@ == "openh264: "@ + self.reason@,
    {
        let mut out = "openh264: ".to_owned();
        out.append(self.reason.as_str());
        out
    }
}

/// The frame of a picture, where it has any pixels.
pub open spec fn picture_frame(p: (usize, usize, Seq<u8>)) -> Option<RgbaView> {
    if p.0 == 0 || p.1 == 0 {
        None
    } else {
        Some(RgbaView { width: p.0 as u32, height: p.1 as u32, rgba: p.2 })
    }
}

/// The latest frame after a NAL: a broken NAL, or one without a picture, leaves
/// the one before it.
pub open spec fn newer(
    latest: Option<RgbaView>,
    result: Result<Option<(usize, usize, Seq<u8>)>, ()>,
) -> Option<RgbaView> {
    match result {
        Ok(Some(p)) => match picture_frame(p) {
            Some(f) => Some(f),
            None => latest,
        },
        _ => latest,
    }
}

/// The latest frame after a picture, or none, came out of the decoder.
pub fn take_picture(latest: Option<RgbaFrame>, picture: Option<Picture>) -> (r: Option<RgbaFrame>)
    ensures
        opt_frame(r) == newer(
            opt_frame(latest),
            Ok(
                match picture {
                    Some(p) => Some((p.width, p.height, p.rgba@)),
                    None => None,
                },
            ),
        ),
{
    match picture {
        Some(p) => if p.width == 0 || p.height == 0 {
            latest
        } else {
            Some(RgbaFrame { width: p.width as u32, height: p.height as u32, rgba: p.rgba })
        },
        None => latest,
    }
}

/// The latest frame after some NALs, for a decoder that has taken others before.
pub open spec fn latest_of(taken: Seq<Seq<u8>>, nals: Seq<Seq<u8>>) -> Option<RgbaView>
    decreases nals.len(),
{
    if nals.len() == 0 {
        None
    } else {
        let before = nals.drop_last();
        newer(latest_of(taken, before), h264_picture(taken + before, nals.last()))
    }
}

/// The decoders of a session, by their displays.
pub struct DecoderBank {
    pub decoders: HashMap<u32, openh264::decoder::Decoder>,
}

/// What the decoder of a display has taken: nothing, where it has none yet.
pub open spec fn history(
    decoders: Map<u32, openh264::decoder::Decoder>,
    display_id: u32,
) -> Seq<Seq<u8>> {
    if decoders.contains_key(display_id) {
        nals_taken(decoders[display_id])
    } else {
        seq![]
    }
}

/// Decodes an access unit. The result is the latest picture of it, if any. NALs
/// that are broken are passed over.
fn decode_unit(decoder: &mut openh264::decoder::Decoder, access_unit: &[u8]) -> (r: Option<
    RgbaFrame,
>)
    requires
        access_unit@.len() <= i32::MAX,
    ensures
        opt_frame(r) == latest_of(nals_taken(*old(decoder)), nal_parts(access_unit@)),
        nals_taken(*final(decoder)) == nals_taken(*old(decoder)) + nal_parts(access_unit@),
{
    let nals = nal_units(access_unit);
    let ghost parts = nal_parts(access_unit@);
    let ghost start = nals_taken(*decoder);
    let mut latest: Option<RgbaFrame> = None;
    assert(parts.take(0) =~= Seq::<Seq<u8>>::empty());
    assert(start + parts.take(0) =~= start);
    proof {
        parts_are_short(access_unit@);
    }
    for i in 0..nals.len()
        invariant
            parts == byte_views(nals@),
            forall|j: int| 0 <= j < parts.len() ==> (#[trigger] parts[j]).len() <= i32::MAX,
            nals_taken(*decoder) == start + parts.take(i as int),
            opt_frame(latest) == latest_of(start, parts.take(i as int)),
    {
        assert(parts[i as int] == nals@[i as int]@);
        let result = decode_nal(decoder, nals[i].as_slice());
        proof {
            let done = parts.take(i + 1);
            assert(done.drop_last() =~= parts.take(i as int));
            assert(start + done =~= (start + parts.take(i as int)).push(parts[i as int]));
        }
        if let Ok(picture) = result {
            latest = take_picture(latest, picture);
        }
    }
    assert(parts.take(parts.len() as int) =~= parts);
    latest
}

impl DecoderBank {
    pub fn new() -> (r: DecoderBank)
        ensures
            r.decoders@ == Map::<u32, openh264::decoder::Decoder>::empty(),
    {
        DecoderBank { decoders: HashMap::new() }
    }

    /// Decodes the first access unit of a display, with the decoder that was made
    /// for it. It is an error where none could be made, and then nothing changes.
    pub fn push_first(
        &mut self,
        display_id: u32,
        made: Result<openh264::decoder::Decoder, openh264::Error>,
        access_unit: &[u8],
    ) -> (r: Result<Option<RgbaFrame>, NoDecoder>)
        requires
            !old(self).decoders@.contains_key(display_id),
            access_unit@.len() <= i32::MAX,
        ensures
            match made {
                Ok(decoder) => {
                    let before = nals_taken(decoder);
                    let parts = nal_parts(access_unit@);
                    &&& r matches Ok(frame) && opt_frame(frame) == latest_of(before, parts)
                    &&& final(self).decoders@.contains_key(display_id)
                    &&& history(final(self).decoders@, display_id) == before + parts
                    &&& final(self).decoders@.remove(display_id) == old(self).decoders@
                },
                Err(err) => {
                    &&& r matches Err(e) && e.reason@ == openh264_message(err)
                    &&& final(self).decoders@ == old(self).decoders@
                },
            },
    {
        broadcast use vstd::std_specs::hash::group_hash_axioms;

        match made {
            Ok(mut decoder) => {
                let frame = decode_unit(&mut decoder, access_unit);
                self.decoders.insert(display_id, decoder);
                assert(self.decoders@.remove(display_id) =~= old(self).decoders@);
                Ok(frame)
            },
            Err(err) => Err(NoDecoder { reason: error_text(&err) }),
        }
    }

    /// Decodes an access unit of a display. The result is the latest picture of it,
    /// if any. NALs that are broken are passed over. It is an error where no
    /// decoder can be had for a display that has none yet.
    pub fn push(&mut self, display_id: u32, access_unit: &[u8]) -> (r: Result<
        Option<RgbaFrame>,
        NoDecoder,
    >)
        requires
            access_unit@.len() <= i32::MAX,
        ensures
            match r {
                Ok(frame) => {
                    let before = history(old(self).decoders@, display_id);
                    let parts = nal_parts(access_unit@);
                    &&& opt_frame(frame) == latest_of(before, parts)
                    &&& final(self).decoders@.contains_key(display_id)
                    &&& history(final(self).decoders@, display_id) == before + parts
                    &&& final(self).decoders@.remove(display_id) == old(self).decoders@.remove(
                        display_id,
                    )
                },
                Err(_) => {
                    &&& !old(self).decoders@.contains_key(display_id)
                    &&& final(self).decoders@ == old(self).decoders@
                },
            },
    {
        broadcast use vstd::std_specs::hash::group_hash_axioms;

        match self.decoders.remove(&display_id) {
            Some(mut decoder) => {
                let frame = decode_unit(&mut decoder, access_unit);
                self.decoders.insert(display_id, decoder);
                assert(self.decoders@.remove(display_id) =~= old(self).decoders@.remove(display_id));
                Ok(frame)
            },
            None => {
                assert(self.decoders@ =~= old(self).decoders@);
                assert(old(self).decoders@.remove(display_id) =~= old(self).decoders@);
                self.push_first(display_id, new_decoder(), access_unit)
            },
        }
    }
}

proof fn parts_are_short_from(s: Seq<u8>, p: int)
    requires
        0 <= p,
    ensures
        forall|j: int| 0 <= j < parts_from(s, p).len() ==> (#[trigger] parts_from(s, p)[j]).len()
            <= s.len(),
    decreases s.len() - p,
{
    if p < s.len() {
        mark_is_in(s, p + 1);
        match next_mark(s, p + 1) {
            Some(q) if p < q && q < s.len() => {
                parts_are_short_from(s, q);
                let rest = parts_from(s, q);
                assert forall|j: int| 0 <= j < parts_from(s, p).len() implies (
                #[trigger] parts_from(s, p)[j]).len() <= s.len() by {
                    if j > 0 {
                        assert(parts_from(s, p)[j] == rest[j - 1]);
                    }
                }
            },
            _ => {},
        }
    }
}

proof fn mark_is_in(s: Seq<u8>, i: int)
    ensures
        next_mark(s, i) matches Some(p) ==> i <= p && p + 2 < s.len(),
    decreases s.len() - i,
{
    if i + 2 < s.len() && !short_code(s, i) {
        mark_is_in(s, i + 1);
    }
}

/// No part of a stream is longer than the stream.
pub proof fn parts_are_short(s: Seq<u8>)
    ensures
        forall|j: int| 0 <= j < nal_parts(s).len() ==> (#[trigger] nal_parts(s)[j]).len()
            <= s.len(),
{
    mark_is_in(s, 0);
    if let Some(p) = next_mark(s, 0) {
        parts_are_short_from(s, p);
    }
}

/// The bytes of some parts, one after another.
pub open spec fn strung(parts: Seq<Seq<u8>>) -> Seq<u8>
    decreases parts.len(),
{
    if parts.len() == 0 {
        seq![]
    } else {
        parts[0] + strung(parts.drop_first())
    }
}

/// Whether bytes start with two zeros and a one.
pub open spec fn is_marked(part: Seq<u8>, at: int) -> bool {
    part[at] == 0 && part[at + 1] == 0 && part[at + 2] == 1
}

proof fn mark_is_the_next(s: Seq<u8>, i: int, k: int)
    requires
        0 <= i <= k,
        k + 2 < s.len(),
    ensures
        is_marked(s, k) ==> (next_mark(s, i) matches Some(p) && p <= k),
        next_mark(s, i) matches Some(p) ==> i <= p && p + 2 < s.len() && is_marked(s, p) && (k < p
            ==> !is_marked(s, k)),
    decreases s.len() - i,
{
    if !short_code(s, i) && i < k {
        mark_is_the_next(s, i + 1, k);
        mark_is_in(s, i + 1);
    } else if !short_code(s, i) {
        mark_is_in(s, i + 1);
        if let Some(p) = next_mark(s, i + 1) {
            mark_is_the_next(s, i + 1, p);
        }
    }
}

proof fn parts_from_a_mark(s: Seq<u8>, p: int)
    requires
        0 <= p,
        p + 2 < s.len(),
        is_marked(s, p),
    ensures
        strung(parts_from(s, p)) == s.skip(p),
        forall|i: int, k: int|
            #![trigger is_marked(parts_from(s, p)[i], k)]
            0 <= i < parts_from(s, p).len() && 0 <= k && k + 2 < parts_from(s, p)[i].len() ==> (
            is_marked(parts_from(s, p)[i], k) <==> k == 0),
        forall|i: int|
            0 <= i < parts_from(s, p).len() ==> (#[trigger] parts_from(s, p)[i]).len() > 2,
        parts_from(s, p).len() > 0,
    decreases s.len() - p,
{
    let parts = parts_from(s, p);
    mark_is_in(s, p + 1);
    if let Some(q) = next_mark(s, p + 1) {
        mark_is_the_next(s, p + 1, q);
        let head = s.subrange(p, q);
        assert(q >= p + 3) by {
            assert(s[p + 2] == 1 && s[p + 1] == 0);
            assert(is_marked(s, q));
        }
        let rest = parts_from(s, q);
        parts_from_a_mark(s, q);
        assert(parts =~= seq![head] + rest);
        assert(parts.drop_first() =~= rest);
        assert(head + s.skip(q) =~= s.skip(p));
        assert forall|i: int, k: int|
            #![trigger is_marked(parts[i], k)]
            0 <= i < parts.len() && 0 <= k && k + 2 < parts[i].len() implies (is_marked(parts[i], k)
            <==> k == 0) by {
            if i == 0 {
                assert(head[k] == s[p + k] && head[k + 1] == s[p + k + 1] && head[k + 2] == s[p + k
                    + 2]);
                if k > 0 {
                    mark_is_the_next(s, p + 1, p + k);
                }
            } else {
                assert(parts[i] == rest[i - 1]);
                assert(is_marked(rest[i - 1], k) <==> k == 0);
            }
        }
        assert forall|i: int| 0 <= i < parts.len() implies (#[trigger] parts[i]).len() > 2 by {
            if i > 0 {
                assert(parts[i] == rest[i - 1]);
            }
        }
    } else {
        let head = s.skip(p);
        assert(parts =~= seq![head]);
        assert(parts.drop_first() =~= Seq::<Seq<u8>>::empty());
        assert(strung(parts.drop_first()) =~= Seq::<u8>::empty());
        assert(head + Seq::<u8>::empty() =~= head);
        assert forall|i: int, k: int|
            #![trigger is_marked(parts[i], k)]
            0 <= i < parts.len() && 0 <= k && k + 2 < parts[i].len() implies (is_marked(parts[i], k)
            <==> k == 0) by {
            assert(i == 0);
            assert(head[k] == s[p + k] && head[k + 1] == s[p + k + 1] && head[k + 2] == s[p + k
                + 2]);
            if k > 0 {
                mark_is_the_next(s, p + 1, p + k);
            }
        }
    }
}

/// The parts of a stream that starts with a mark are all of the stream, in order. Each
/// starts with a mark and holds no other.
pub proof fn parts_are_the_stream(s: Seq<u8>, i: int, k: int)
    requires
        s.len() > 2,
        is_marked(s, 0),
    ensures
        strung(nal_parts(s)) == s,
        0 <= i < nal_parts(s).len() && 0 <= k && k + 2 < nal_parts(s)[i].len() ==> (is_marked(
            nal_parts(s)[i],
            k,
        ) <==> k == 0),
        0 <= i < nal_parts(s).len() ==> nal_parts(s)[i].len() > 2,
{
    mark_is_the_next(s, 0, 0);
    parts_from_a_mark(s, 0);
    assert(s.skip(0) =~= s);
}

/// The latest picture of two runs of NALs is that of the second run, or where it has none,
/// that of the first. A picture without pixels and a broken NAL are none.
pub proof fn latest_picture_counts(
    taken: Seq<Seq<u8>>,
    nals: Seq<Seq<u8>>,
    nal: Seq<u8>,
    w: usize,
    h: usize,
    rgba: Seq<u8>,
)
    requires
        w <= u32::MAX,
        h <= u32::MAX,
    ensures
        ({
            let came = h264_picture(taken + nals, nal);
            let after = latest_of(taken, nals.push(nal));
            &&& came is Err ==> after == latest_of(taken, nals)
            &&& came == Ok::<Option<(usize, usize, Seq<u8>)>, ()>(None) ==> after == latest_of(taken, nals)
            &&& came == Ok::<_, ()>(Some((w, h, rgba))) ==> if w > 0 && h > 0 {
                after matches Some(f) && f.width == w && f.height == h && f.rgba == rgba
            } else {
                after == latest_of(taken, nals)
            }
            &&& latest_of(taken, seq![]) is None
        }),
{
    assert(nals.push(nal).drop_last() =~= nals);
}

/// A display without a decoder starts anew, and each decoder goes on where it was.
pub proof fn decoders_keep_their_history(
    decoders: Map<u32, openh264::decoder::Decoder>,
    display_id: u32,
)
    ensures
        !decoders.contains_key(display_id) ==> history(decoders, display_id).len() == 0,
        decoders.contains_key(display_id) ==> history(decoders, display_id) == nals_taken(
            decoders[display_id],
        ),
{
}

} // verus!
