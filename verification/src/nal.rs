//! Annex-B access-unit splitter.
//!
//! A hardware encoder writes a raw byte stream, so NALs are grouped into access
//! units here. A unit is emitted only once the next one has started, which keeps
//! the last unit in the buffer until its following start code arrives.

use vstd::prelude::*;
use vstd::slice::*;

use crate::bytes::put_all;

verus! {

/// One encoded picture with the NALs that belong to it.
#[derive(Debug, Clone, PartialEq, Eq)]
pub struct AccessUnit {
    pub keyframe: bool,
    pub data: Vec<u8>,
}

/// An [`AccessUnit`] over a sequence.
#[verifier::ext_equal]
pub struct UnitView {
    pub keyframe: bool,
    pub data: Seq<u8>,
}

impl View for AccessUnit {
    type V = UnitView;

    open spec fn view(&self) -> UnitView {
        UnitView { keyframe: self.keyframe, data: self.data@ }
    }
}

pub open spec fn unit_views(units: Seq<AccessUnit>) -> Seq<UnitView> {
    units.map_values(|u: AccessUnit| u@)
}

/// `00 00 01` at `i`.
pub open spec fn short_code(s: Seq<u8>, i: int) -> bool {
    i + 2 < s.len() && s[i] == 0 && s[i + 1] == 0 && s[i + 2] == 1
}

/// `00 00 00 01` at `i`.
pub open spec fn long_code(s: Seq<u8>, i: int) -> bool {
    i + 3 < s.len() && s[i] == 0 && s[i + 1] == 0 && s[i + 2] == 0 && s[i + 3] == 1
}

/// Where the first start code at or after `i` begins.
pub open spec fn next_code(s: Seq<u8>, i: int) -> Option<int>
    decreases s.len() - i,
{
    if i + 2 >= s.len() {
        None
    } else if short_code(s, i) || long_code(s, i) {
        Some(i)
    } else {
        next_code(s, i + 1)
    }
}

/// Where the byte behind the start code at `p` is.
pub open spec fn header(s: Seq<u8>, p: int) -> int {
    if s[p + 2] == 1 {
        p + 3
    } else {
        p + 4
    }
}

/// The type of the NAL whose start code is at `p`.
pub open spec fn kind(s: Seq<u8>, p: int) -> int {
    if header(s, p) < s.len() {
        s[header(s, p)] as int % 32
    } else {
        0
    }
}

/// The start code behind the one at `p`.
pub open spec fn next_nal(s: Seq<u8>, p: int) -> Option<int> {
    next_code(s, header(s, p))
}

/// A slice of a picture.
pub open spec fn is_slice(kind: int) -> bool {
    1 <= kind <= 5
}

/// An IDR slice or a sequence parameter set.
pub open spec fn is_key(kind: int) -> bool {
    kind == 5 || kind == 7
}

/// Whether a NAL opens a new unit behind one that holds a slice, or none: an
/// access unit delimiter, a sequence parameter set, or a further slice.
pub open spec fn opens(kind: int, sliced: bool) -> bool {
    kind == 9 || kind == 7 || (is_slice(kind) && sliced)
}

/// Where a unit ends that goes on with the NAL at `q`, and whether it is a
/// keyframe. `sliced` and `key` say what the unit holds before `q`. A NAL counts
/// only once it is complete, that is, once another start code follows it.
pub open spec fn unit_end(s: Seq<u8>, q: int, sliced: bool, key: bool) -> Option<(int, bool)>
    decreases s.len() - q,
{
    match next_nal(s, q) {
        None => None,
        Some(r) => if opens(kind(s, q), sliced) {
            Some((q, key))
        } else {
            proof {
                next_code_is_code(s, header(s, q));
            }
            unit_end(s, r, sliced || is_slice(kind(s, q)), key || is_key(kind(s, q)))
        },
    }
}

/// Where the unit that begins at `p` ends, and whether it is a keyframe.
pub open spec fn first_unit(s: Seq<u8>, p: int) -> Option<(int, bool)> {
    match next_nal(s, p) {
        None => None,
        Some(q) => unit_end(s, q, is_slice(kind(s, p)), is_key(kind(s, p))),
    }
}

/// The complete units from `p` on.
pub open spec fn units_from(s: Seq<u8>, p: int) -> Seq<UnitView>
    decreases s.len() - p,
{
    match first_unit(s, p) {
        None => seq![],
        Some((e, key)) => {
            proof {
                first_unit_is_later(s, p);
            }
            seq![UnitView { keyframe: key, data: s.subrange(p, e) }] + units_from(s, e)
        },
    }
}

/// Where the unit begins that is not complete yet.
pub open spec fn open_unit(s: Seq<u8>, p: int) -> int
    decreases s.len() - p,
{
    match first_unit(s, p) {
        None => p,
        Some((e, _)) => {
            proof {
                first_unit_is_later(s, p);
            }
            open_unit(s, e)
        },
    }
}

/// The complete units of a stream, and the bytes that are kept for later. With
/// fewer than two start codes all bytes are kept.
pub open spec fn split(s: Seq<u8>) -> (Seq<UnitView>, Seq<u8>) {
    match next_code(s, 0) {
        None => (seq![], s),
        Some(p) => match next_nal(s, p) {
            None => (seq![], s),
            Some(_) => (units_from(s, p), s.skip(open_unit(s, p))),
        },
    }
}

/// A start code that is found begins there, and all of it is in the stream.
pub proof fn next_code_is_code(s: Seq<u8>, i: int)
    ensures
        next_code(s, i) matches Some(p) ==> {
            &&& i <= p
            &&& short_code(s, p) || long_code(s, p)
            &&& p + 3 <= header(s, p) <= s.len()
        },
    decreases s.len() - i,
{
    if i + 2 >= s.len() || short_code(s, i) || long_code(s, i) {
    } else {
        next_code_is_code(s, i + 1);
    }
}

/// A unit ends at a later start code.
pub proof fn unit_end_is_later(s: Seq<u8>, q: int, sliced: bool, key: bool)
    ensures
        unit_end(s, q, sliced, key) matches Some((e, _)) ==> q <= e && e + 3 <= s.len(),
    decreases s.len() - q,
{
    if let Some(r) = next_nal(s, q) {
        next_code_is_code(s, header(s, q));
        if !opens(kind(s, q), sliced) {
            unit_end_is_later(
                s,
                r,
                sliced || is_slice(kind(s, q)),
                key || is_key(kind(s, q)),
            );
        }
    }
}

/// A unit is not empty.
pub proof fn first_unit_is_later(s: Seq<u8>, p: int)
    ensures
        first_unit(s, p) matches Some((e, _)) ==> p < e && e + 3 <= s.len(),
{
    if let Some(q) = next_nal(s, p) {
        next_code_is_code(s, header(s, p));
        unit_end_is_later(s, q, is_slice(kind(s, p)), is_key(kind(s, p)));
    }
}

/// The first start code at or after `i`.
fn find_code(buf: &[u8], i: usize) -> (r: Option<usize>)
    ensures
        match next_code(buf@, i as int) {
            Some(p) => r matches Some(v) && v == p,
            None => r is None,
        },
{
    let n: usize = buf.len();
    let mut at: usize = i;
    while at < n && n - at > 2
        invariant
            n == buf@.len(),
            next_code(buf@, at as int) == next_code(buf@, i as int),
        decreases n - at,
    {
        if buf[at] == 0 && buf[at + 1] == 0 {
            if buf[at + 2] == 1 {
                return Some(at);
            }
            if n - at > 3 && buf[at + 2] == 0 && buf[at + 3] == 1 {
                return Some(at);
            }
        }
        at += 1;
    }
    None
}

/// Where the byte behind a start code is.
fn header_at(buf: &[u8], p: usize) -> (r: usize)
    requires
        short_code(buf@, p as int) || long_code(buf@, p as int),
    ensures
        r == header(buf@, p as int),
        r <= buf@.len(),
{
    assert(p + 2 < buf.len());
    if buf[p + 2] == 1 {
        p + 3
    } else {
        p + 4
    }
}

/// The type of the NAL at `p`.
fn nal_type(buf: &[u8], p: usize) -> (r: u8)
    requires
        short_code(buf@, p as int) || long_code(buf@, p as int),
    ensures
        r == kind(buf@, p as int),
{
    let h: usize = header_at(buf, p);
    if h < buf.len() {
        buf[h] % 32
    } else {
        0
    }
}

fn slice_kind(kind: u8) -> (r: bool)
    ensures
        r == is_slice(kind as int),
{
    1 <= kind && kind <= 5
}

/// Adds bytes to the buffer and takes the units out of it that are complete now.
pub fn push_bytes(buf: &mut Vec<u8>, incoming: &[u8]) -> (r: Vec<AccessUnit>)
    ensures
        unit_views(r@) == split(old(buf)@ + incoming@).0,
        final(buf)@ == split(old(buf)@ + incoming@).1,
        are_pictures(unit_views(r@), final(buf)@),
{
    put_all(buf, incoming);
    let ghost s = buf@;
    proof {
        units_are_pictures(s);
    }
    let mut units: Vec<AccessUnit> = Vec::new();
    assert(unit_views(units@) =~= Seq::<UnitView>::empty());
    proof {
        next_code_is_code(s, 0);
    }
    let first: usize = match find_code(buf.as_slice(), 0) {
        Some(p) => p,
        None => {
            return units;
        },
    };
    proof {
        next_code_is_code(s, header(s, first as int));
    }
    let second: usize = match find_code(buf.as_slice(), header_at(buf.as_slice(), first)) {
        Some(p) => p,
        None => {
            return units;
        },
    };
    let kind: u8 = nal_type(buf.as_slice(), first);
    let mut begin: usize = first;
    let mut sliced = slice_kind(kind);
    let mut key = kind == 5 || kind == 7;
    let mut at: usize = second;
    assert(unit_views(units@) + units_from(s, begin as int) =~= units_from(s, first as int));
    loop
        invariant_except_break
            unit_end(s, at as int, sliced, key) == first_unit(s, begin as int),
        invariant
            buf@ == s,
            begin <= at,
            at + 3 <= s.len(),
            short_code(s, at as int) || long_code(s, at as int),
            unit_views(units@) + units_from(s, begin as int) == units_from(s, first as int),
            open_unit(s, begin as int) == open_unit(s, first as int),
        ensures
            first_unit(s, begin as int) is None,
        decreases s.len() - at,
    {
        proof {
            next_code_is_code(s, header(s, at as int));
        }
        let next: usize = match find_code(buf.as_slice(), header_at(buf.as_slice(), at)) {
            Some(p) => p,
            None => {
                break ;
            },
        };
        let kind: u8 = nal_type(buf.as_slice(), at);
        if kind == 9 || kind == 7 || (slice_kind(kind) && sliced) {
            let data = slice_to_vec(slice_subrange(buf.as_slice(), begin, at));
            let ghost before = units@;
            let unit = AccessUnit { keyframe: key, data };
            units.push(unit);
            proof {
                assert(unit_views(units@) =~= unit_views(before).push(unit@));
                assert(unit@ == UnitView {
                    keyframe: key,
                    data: s.subrange(begin as int, at as int),
                });
                assert(unit_views(before) + (seq![unit@] + units_from(s, at as int)) =~= unit_views(
                    units@,
                ) + units_from(s, at as int));
            }
            begin = at;
            sliced = slice_kind(kind);
            key = kind == 5 || kind == 7;
        } else {
            sliced = sliced || slice_kind(kind);
            key = key || kind == 5 || kind == 7;
        }
        at = next;
    }
    assert(unit_views(units@) + units_from(s, begin as int) =~= unit_views(units@));
    let rest = buf.split_off(begin);
    *buf = rest;
    assert(buf@ =~= s.skip(begin as int));
    units
}

/// The bytes of some units, one after another.
pub open spec fn joined(units: Seq<UnitView>) -> Seq<u8>
    decreases units.len(),
{
    if units.len() == 0 {
        seq![]
    } else {
        units[0].data + joined(units.drop_first())
    }
}

/// No byte behind the first start code is lost or changed: the units and what
/// is kept are, together, the stream from there on.
pub proof fn split_keeps_every_byte(s: Seq<u8>)
    ensures
        match next_code(s, 0) {
            Some(p) if next_nal(s, p) is Some => joined(split(s).0) + split(s).1 == s.skip(p),
            _ => split(s).0.len() == 0 && split(s).1 == s,
        },
{
    if let Some(p) = next_code(s, 0) {
        next_code_is_code(s, 0);
        if next_nal(s, p) is Some {
            units_join(s, p);
        }
    }
}

proof fn units_join(s: Seq<u8>, p: int)
    requires
        0 <= p <= s.len(),
    ensures
        joined(units_from(s, p)) + s.skip(open_unit(s, p)) == s.skip(p),
    decreases s.len() - p,
{
    match first_unit(s, p) {
        None => {
            assert(joined(units_from(s, p)) + s.skip(p) =~= s.skip(p));
        },
        Some((e, key)) => {
            first_unit_is_later(s, p);
            units_join(s, e);
            let rest = units_from(s, e);
            let unit = UnitView { keyframe: key, data: s.subrange(p, e) };
            assert((seq![unit] + rest).drop_first() =~= rest);
            assert(s.subrange(p, e) + joined(rest) + s.skip(open_unit(s, e)) =~= s.subrange(p, e)
                + (joined(rest) + s.skip(open_unit(s, e))));
            assert(s.subrange(p, e) + s.skip(e) =~= s.skip(p));
        },
    }
}

proof fn extend_code(s: Seq<u8>, b: Seq<u8>, i: int)
    requires
        0 <= i,
        next_code(s, i) is Some,
    ensures
        next_code(s + b, i) == next_code(s, i),
    decreases s.len() - i,
{
    if !(short_code(s, i) || long_code(s, i)) {
        if i + 3 >= s.len() {
            assert(next_code(s, i + 1) is None);
        }
        extend_code(s, b, i + 1);
    }
}

proof fn extend_nal(s: Seq<u8>, b: Seq<u8>, p: int)
    requires
        0 <= p,
        next_nal(s, p) is Some,
    ensures
        next_nal(s + b, p) == next_nal(s, p),
        kind(s + b, p) == kind(s, p),
{
    next_code_is_code(s, header(s, p));
    extend_code(s, b, header(s, p));
}

proof fn extend_unit_end(s: Seq<u8>, b: Seq<u8>, q: int, sliced: bool, key: bool)
    requires
        0 <= q,
        unit_end(s, q, sliced, key) is Some,
    ensures
        unit_end(s + b, q, sliced, key) == unit_end(s, q, sliced, key),
    decreases s.len() - q,
{
    extend_nal(s, b, q);
    if !opens(kind(s, q), sliced) {
        next_code_is_code(s, header(s, q));
        extend_unit_end(
            s,
            b,
            next_nal(s, q)->0,
            sliced || is_slice(kind(s, q)),
            key || is_key(kind(s, q)),
        );
    }
}

/// A complete unit ends at a start code with another one behind it.
proof fn unit_end_is_code(s: Seq<u8>, q: int, sliced: bool, key: bool)
    requires
        0 <= q,
        short_code(s, q) || long_code(s, q),
    ensures
        unit_end(s, q, sliced, key) matches Some((e, _)) ==> {
            &&& short_code(s, e) || long_code(s, e)
            &&& next_nal(s, e) is Some
        },
    decreases s.len() - q,
{
    if let Some(r) = next_nal(s, q) {
        next_code_is_code(s, header(s, q));
        if !opens(kind(s, q), sliced) {
            unit_end_is_code(s, r, sliced || is_slice(kind(s, q)), key || is_key(kind(s, q)));
        }
    }
}

proof fn extend_units(s: Seq<u8>, b: Seq<u8>, p: int)
    requires
        0 <= p,
        short_code(s, p) || long_code(s, p),
        next_nal(s, p) is Some,
    ensures
        ({
            let k = open_unit(s, p);
            &&& units_from(s + b, p) == units_from(s, p) + units_from(s + b, k)
            &&& open_unit(s + b, p) == open_unit(s + b, k)
            &&& p <= k <= s.len()
            &&& short_code(s, k) || long_code(s, k)
            &&& next_nal(s, k) is Some
        }),
    decreases s.len() - p,
{
    match first_unit(s, p) {
        None => {
            assert(units_from(s, p) + units_from(s + b, p) =~= units_from(s + b, p));
        },
        Some((e, key)) => {
            first_unit_is_later(s, p);
            let q = next_nal(s, p)->0;
            next_code_is_code(s, header(s, p));
            extend_nal(s, b, p);
            extend_unit_end(s, b, q, is_slice(kind(s, p)), is_key(kind(s, p)));
            unit_end_is_code(s, q, is_slice(kind(s, p)), is_key(kind(s, p)));
            extend_units(s, b, e);
            let k = open_unit(s, e);
            assert((s + b).subrange(p, e) =~= s.subrange(p, e));
            let head = seq![UnitView { keyframe: key, data: s.subrange(p, e) }];
            assert(head + (units_from(s, e) + units_from(s + b, k)) =~= head + units_from(s, e)
                + units_from(s + b, k));
        },
    }
}

proof fn shift_code(s: Seq<u8>, k: int, i: int)
    requires
        0 <= k <= s.len(),
        0 <= i,
    ensures
        match next_code(s, k + i) {
            Some(p) => next_code(s.skip(k), i) == Some(p - k),
            None => next_code(s.skip(k), i) is None,
        },
    decreases s.len() - i,
{
    let t = s.skip(k);
    if i + 2 < t.len() {
        assert(short_code(t, i) == short_code(s, k + i));
        assert(long_code(t, i) == long_code(s, k + i));
        if !(short_code(t, i) || long_code(t, i)) {
            shift_code(s, k, i + 1);
        }
    }
}

proof fn shift_nal(s: Seq<u8>, k: int, p: int)
    requires
        0 <= k <= s.len(),
        0 <= p,
        short_code(s, k + p) || long_code(s, k + p),
    ensures
        header(s.skip(k), p) == header(s, k + p) - k,
        kind(s.skip(k), p) == kind(s, k + p),
        match next_nal(s, k + p) {
            Some(q) => next_nal(s.skip(k), p) == Some(q - k),
            None => next_nal(s.skip(k), p) is None,
        },
{
    shift_code(s, k, header(s, k + p) - k);
}

proof fn shift_unit_end(s: Seq<u8>, k: int, q: int, sliced: bool, key: bool)
    requires
        0 <= k <= s.len(),
        0 <= q,
        short_code(s, k + q) || long_code(s, k + q),
    ensures
        match unit_end(s, k + q, sliced, key) {
            Some((e, y)) => unit_end(s.skip(k), q, sliced, key) == Some((e - k, y)),
            None => unit_end(s.skip(k), q, sliced, key) is None,
        },
    decreases s.len() - q,
{
    shift_nal(s, k, q);
    let kd = kind(s, k + q);
    next_code_is_code(s, header(s, k + q));
    if let Some(r) = next_nal(s, k + q) {
        if !opens(kd, sliced) {
            shift_unit_end(s, k, r - k, sliced || is_slice(kd), key || is_key(kd));
        }
    }
}

proof fn shift_units(s: Seq<u8>, k: int, p: int)
    requires
        0 <= k <= s.len(),
        0 <= p,
        short_code(s, k + p) || long_code(s, k + p),
    ensures
        units_from(s.skip(k), p) == units_from(s, k + p),
        open_unit(s.skip(k), p) == open_unit(s, k + p) - k,
    decreases s.len() - p,
{
    shift_nal(s, k, p);
    next_code_is_code(s, header(s, k + p));
    if let Some(q) = next_nal(s, k + p) {
        let kd = kind(s, k + p);
        shift_unit_end(s, k, q - k, is_slice(kd), is_key(kd));
        unit_end_is_code(s, q, is_slice(kd), is_key(kd));
        first_unit_is_later(s, k + p);
        if let Some((e, _)) = first_unit(s, k + p) {
            shift_units(s, k, e - k);
            assert(s.skip(k).subrange(p, e - k) =~= s.subrange(k + p, e));
        }
    }
}

proof fn open_unit_is_in(s: Seq<u8>, p: int)
    requires
        0 <= p <= s.len(),
    ensures
        p <= open_unit(s, p) <= s.len(),
    decreases s.len() - p,
{
    first_unit_is_later(s, p);
    if let Some((e, _)) = first_unit(s, p) {
        open_unit_is_in(s, e);
    }
}

/// How the stream is cut into pieces does not matter: splitting what was kept of
/// `s` with `b` behind it goes on where splitting `s` stopped.
pub proof fn split_in_pieces(s: Seq<u8>, b: Seq<u8>)
    ensures
        split(s + b).0 == split(s).0 + split(split(s).1 + b).0,
        split(s + b).1 == split(split(s).1 + b).1,
{
    next_code_is_code(s, 0);
    let done = match next_code(s, 0) {
        Some(p) => next_nal(s, p) is Some,
        None => false,
    };
    if done {
        let p = next_code(s, 0)->0;
        let k = open_unit(s, p);
        let all = s + b;
        extend_code(s, b, 0);
        extend_nal(s, b, p);
        extend_units(s, b, p);
        assert(s.skip(k) + b =~= all.skip(k));
        assert(short_code(all, k) || long_code(all, k));
        extend_nal(s, b, k);
        shift_code(all, k, 0);
        shift_nal(all, k, 0);
        shift_units(all, k, 0);
        open_unit_is_in(all, k);
        assert(all.skip(k).skip(open_unit(all, k) - k) =~= all.skip(open_unit(all, k)));
    } else {
        assert(split(s).0 + split(s + b).0 =~= split(s + b).0);
    }
}

// ---------------------------------------------------------------------------
// What a unit is
// ---------------------------------------------------------------------------

/// Whether a NAL begins at `i`: there are two zero bytes and a one, or three zero
/// bytes and a one of which the first is here.
pub open spec fn nal_begins(d: Seq<u8>, i: int) -> bool {
    &&& 0 <= i && i + 2 < d.len()
    &&& d[i] == 0 && d[i + 1] == 0
    &&& {
        ||| d[i + 2] == 1 && (i == 0 || d[i - 1] != 0)
        ||| d[i + 2] == 0 && i + 3 < d.len() && d[i + 3] == 1
    }
}

/// The low five bits of the byte behind the zeros and the one at `i`, or 0 where
/// there is no byte.
pub open spec fn nal_number(d: Seq<u8>, i: int) -> int {
    if d[i + 2] == 1 {
        if i + 3 < d.len() {
            d[i + 3] as int % 32
        } else {
            0
        }
    } else if i + 4 < d.len() {
        d[i + 4] as int % 32
    } else {
        0
    }
}

/// Whether the NAL at `i` is a slice of a picture: its number is 1 to 5.
pub open spec fn slice_begins(d: Seq<u8>, i: int) -> bool {
    nal_begins(d, i) && 1 <= nal_number(d, i) <= 5
}

/// Whether the NAL at `i` is an IDR slice or a sequence parameter set.
pub open spec fn key_begins(d: Seq<u8>, i: int) -> bool {
    nal_begins(d, i) && (nal_number(d, i) == 5 || nal_number(d, i) == 7)
}

/// Whether the NAL at `i` is a sequence parameter set or a delimiter.
pub open spec fn head_begins(d: Seq<u8>, i: int) -> bool {
    nal_begins(d, i) && (nal_number(d, i) == 7 || nal_number(d, i) == 9)
}

/// No start code begins between `i` and the next one.
proof fn next_code_is_next(s: Seq<u8>, i: int)
    requires
        0 <= i,
    ensures
        match next_code(s, i) {
            Some(p) => forall|j: int| i <= j < p ==> !#[trigger] nal_begins(s, j),
            None => forall|j: int| i <= j ==> !#[trigger] nal_begins(s, j),
        },
    decreases s.len() - i,
{
    if i + 2 < s.len() && !(short_code(s, i) || long_code(s, i)) {
        next_code_is_next(s, i + 1);
    }
}

/// The NAL behind the one at `p`: it begins there, and none begins between.
proof fn next_nal_is_next(s: Seq<u8>, p: int)
    requires
        0 <= p,
        short_code(s, p) || long_code(s, p),
    ensures
        match next_nal(s, p) {
            Some(q) => {
                &&& p + 3 <= q
                &&& nal_begins(s, q)
                &&& short_code(s, q) || long_code(s, q)
                &&& forall|j: int| p < j < q ==> !#[trigger] nal_begins(s, j)
            },
            None => forall|j: int| p < j ==> !#[trigger] nal_begins(s, j),
        },
{
    let h = header(s, p);
    next_code_is_code(s, h);
    next_code_is_next(s, h);
    assert forall|j: int| p < j < h implies !#[trigger] nal_begins(s, j) by {}
    if let Some(q) = next_nal(s, p) {
        if short_code(s, q) && s[q - 1] == 0 {
            assert(q > h);
            code_before(s, h, q);
        }
    }
}

/// Three zero bytes and a one are found at the first of them.
proof fn code_before(s: Seq<u8>, i: int, q: int)
    requires
        0 <= i < q,
        long_code(s, q - 1),
    ensures
        next_code(s, i) matches Some(p) ==> p < q,
    decreases q - i,
{
    if i < q - 1 && !(short_code(s, i) || long_code(s, i)) {
        code_before(s, i + 1, q);
    }
}

/// What the NALs of `s` from `p` up to `e` are like: the first is at `p`, no later
/// one is a parameter set or a delimiter, and at most one is a slice.
spec fn one_picture(s: Seq<u8>, p: int, e: int) -> bool {
    &&& nal_begins(s, p)
    &&& forall|i: int| p < i < e ==> !#[trigger] head_begins(s, i)
    &&& forall|i: int, j: int|
        p <= i < j < e ==> !(#[trigger] slice_begins(s, i) && #[trigger] slice_begins(s, j))
}

spec fn has_slice(s: Seq<u8>, p: int, e: int) -> bool {
    exists|i: int| p <= i < e && #[trigger] slice_begins(s, i)
}

spec fn has_key(s: Seq<u8>, p: int, e: int) -> bool {
    exists|i: int| p <= i < e && #[trigger] key_begins(s, i)
}

/// Whether the NAL at `q` must begin a unit of its own, behind those from `p` on.
spec fn parts(s: Seq<u8>, p: int, q: int) -> bool {
    head_begins(s, q) || (slice_begins(s, q) && has_slice(s, p, q))
}

proof fn unit_is_one_picture(s: Seq<u8>, p: int, q: int, sliced: bool, key: bool)
    requires
        0 <= p < q,
        short_code(s, q) || long_code(s, q),
        nal_begins(s, q),
        one_picture(s, p, q),
        sliced == has_slice(s, p, q),
        key == has_key(s, p, q),
    ensures
        match unit_end(s, q, sliced, key) {
            Some((e, k)) => {
                &&& q <= e
                &&& one_picture(s, p, e)
                &&& k == has_key(s, p, e)
                &&& parts(s, p, e)
                &&& short_code(s, e) || long_code(s, e)
            },
            None => forall|i: int, j: int|
                q <= i < j && #[trigger] nal_begins(s, i) && #[trigger] nal_begins(s, j)
                    ==> !parts(s, p, i),
        },
    decreases s.len() - q,
{
    next_nal_is_next(s, q);
    assert(kind(s, q) == nal_number(s, q));
    if let Some(r) = next_nal(s, q) {
        if !opens(kind(s, q), sliced) {
            let sliced2 = sliced || is_slice(kind(s, q));
            let key2 = key || is_key(kind(s, q));
            assert forall|i: int| p < i < r implies !#[trigger] head_begins(s, i) by {
                if q < i {
                    assert(!nal_begins(s, i));
                }
            }
            assert forall|i: int, j: int| p <= i < j < r implies !(#[trigger] slice_begins(s, i)
                && #[trigger] slice_begins(s, j)) by {
                if q < j {
                    assert(!nal_begins(s, j));
                }
                if j == q && slice_begins(s, i) && slice_begins(s, j) {
                    assert(has_slice(s, p, q));
                }
            }
            if sliced2 {
                if is_slice(kind(s, q)) {
                    assert(slice_begins(s, q));
                } else {
                    let i = choose|i: int| p <= i < q && #[trigger] slice_begins(s, i);
                    assert(slice_begins(s, i));
                }
                assert(has_slice(s, p, r));
            }
            if has_slice(s, p, r) {
                let i = choose|i: int| p <= i < r && #[trigger] slice_begins(s, i);
                assert(i <= q) by {
                    if q < i {
                        assert(!nal_begins(s, i));
                    }
                }
                assert(sliced2);
            }
            if key2 {
                if is_key(kind(s, q)) {
                    assert(key_begins(s, q));
                } else {
                    let i = choose|i: int| p <= i < q && #[trigger] key_begins(s, i);
                    assert(key_begins(s, i));
                }
                assert(has_key(s, p, r));
            }
            if has_key(s, p, r) {
                let i = choose|i: int| p <= i < r && #[trigger] key_begins(s, i);
                assert(i <= q) by {
                    if q < i {
                        assert(!nal_begins(s, i));
                    }
                }
                assert(key2);
            }
            unit_is_one_picture(s, p, r, sliced2, key2);
            assert(!parts(s, p, q));
            if unit_end(s, q, sliced, key) is None {
                assert forall|i: int, j: int|
                    q <= i < j && #[trigger] nal_begins(s, i) && #[trigger] nal_begins(
                        s,
                        j,
                    ) implies !parts(s, p, i) by {
                    if q < i {
                        assert(r <= i);
                    }
                }
            }
        }
    }
}

/// A part of a stream from one NAL to another has the NALs that the stream has there.
proof fn part_has_its_nals(s: Seq<u8>, p: int, e: int)
    requires
        0 <= p < e,
        nal_begins(s, p),
        nal_begins(s, e),
    ensures
        forall|i: int| #[trigger]
            nal_begins(s.subrange(p, e), i) <==> 0 <= i < e - p && nal_begins(s, p + i),
        forall|i: int|
            0 <= i < e - p && nal_begins(s, p + i) ==> #[trigger] nal_number(s.subrange(p, e), i)
                == nal_number(s, p + i),
{
    let d = s.subrange(p, e);
    assert forall|i: int| #[trigger] nal_begins(d, i) <==> 0 <= i < e - p && nal_begins(
        s,
        p + i,
    ) by {
        if 0 <= i < e - p && nal_begins(s, p + i) {
            assert(s[p + i] == 0 && s[p + i + 1] == 0);
            assert(p + i + 2 < e);
            assert(d[i] == s[p + i] && d[i + 1] == s[p + i + 1] && d[i + 2] == s[p + i + 2]);
        }
        if nal_begins(d, i) {
            assert(d[i] == s[p + i] && d[i + 1] == s[p + i + 1] && d[i + 2] == s[p + i + 2]);
            if i > 0 {
                assert(d[i - 1] == s[p + i - 1]);
            }
        }
    }
    assert forall|i: int| 0 <= i < e - p && nal_begins(s, p + i) implies #[trigger] nal_number(d, i)
        == nal_number(s, p + i) by {
        assert(nal_begins(d, i));
        assert(d[i + 2] == s[p + i + 2]);
    }
}

/// What is left of a stream from a NAL on has the NALs that the stream has there.
proof fn rest_has_its_nals(s: Seq<u8>, p: int)
    requires
        0 <= p,
        nal_begins(s, p),
    ensures
        forall|i: int| #[trigger] nal_begins(s.skip(p), i) <==> 0 <= i && nal_begins(s, p + i),
        forall|i: int|
            0 <= i && nal_begins(s, p + i) ==> #[trigger] nal_number(s.skip(p), i) == nal_number(
                s,
                p + i,
            ),
{
    let d = s.skip(p);
    assert forall|i: int| #[trigger] nal_begins(d, i) <==> 0 <= i && nal_begins(s, p + i) by {
        if nal_begins(d, i) && i > 0 {
            assert(d[i - 1] == s[p + i - 1]);
        }
        if 0 <= i && nal_begins(s, p + i) {
            assert(d[i] == s[p + i] && d[i + 1] == s[p + i + 1] && d[i + 2] == s[p + i + 2]);
        }
    }
}

/// Whether some NAL is an IDR slice or a sequence parameter set.
pub open spec fn holds_key(d: Seq<u8>) -> bool {
    exists|i: int| #[trigger] key_begins(d, i)
}

/// Whether some NAL is a slice of a picture.
pub open spec fn holds_slice(d: Seq<u8>) -> bool {
    exists|i: int| #[trigger] slice_begins(d, i)
}

/// What a unit is, over its own bytes.
pub open spec fn is_picture(u: UnitView) -> bool {
    &&& nal_begins(u.data, 0)
    &&& forall|i: int| 0 < i ==> !#[trigger] head_begins(u.data, i)
    &&& forall|i: int, j: int|
        i < j ==> !(#[trigger] slice_begins(u.data, i) && #[trigger] slice_begins(u.data, j))
    &&& u.keyframe == holds_key(u.data)
}

/// Whether a unit with the bytes `d` ends where `next` begins: with a parameter set or
/// a delimiter, or with a slice where there is one already.
pub open spec fn ends_before(d: Seq<u8>, next: Seq<u8>) -> bool {
    ||| head_begins(next, 0)
    ||| slice_begins(next, 0) && holds_slice(d)
}

/// Whether nothing in some bytes could have been taken as a unit: no whole NAL but the
/// first is a parameter set or a delimiter, or a slice behind another.
pub open spec fn is_open(d: Seq<u8>) -> bool {
    forall|i: int, j: int|
        0 < i < j && #[trigger] nal_begins(d, i) && #[trigger] nal_begins(d, j) ==> {
            &&& !head_begins(d, i)
            &&& forall|h: int| h < i ==> !(#[trigger] slice_begins(d, h) && slice_begins(d, i))
        }
}

proof fn part_is_picture(s: Seq<u8>, p: int, e: int, key: bool)
    requires
        0 <= p < e,
        nal_begins(s, e),
        one_picture(s, p, e),
        key == has_key(s, p, e),
    ensures
        is_picture(UnitView { keyframe: key, data: s.subrange(p, e) }),
        has_slice(s, p, e) ==> holds_slice(s.subrange(p, e)),
{
    let d = s.subrange(p, e);
    part_has_its_nals(s, p, e);
    assert(nal_begins(s, p + 0));
    assert(nal_begins(d, 0));
    assert forall|i: int| 0 < i implies !#[trigger] head_begins(d, i) by {
        if head_begins(d, i) {
            assert(head_begins(s, p + i));
        }
    }
    assert forall|i: int, j: int| i < j implies !(#[trigger] slice_begins(d, i)
        && #[trigger] slice_begins(d, j)) by {
        if slice_begins(d, i) && slice_begins(d, j) {
            assert(slice_begins(s, p + i) && slice_begins(s, p + j));
        }
    }
    if key {
        let i = choose|i: int| p <= i < e && #[trigger] key_begins(s, i);
        assert(nal_begins(s, p + (i - p)));
        assert(nal_begins(d, i - p));
        assert(key_begins(d, i - p));
        assert(holds_key(d));
    }
    if holds_key(d) {
        let i = choose|i: int| #[trigger] key_begins(d, i);
        assert(nal_begins(d, i));
        assert(key_begins(s, p + i));
        assert(has_key(s, p, e));
    }
    if has_slice(s, p, e) {
        let i = choose|i: int| p <= i < e && #[trigger] slice_begins(s, i);
        assert(nal_begins(s, p + (i - p)));
        assert(nal_begins(d, i - p));
        assert(slice_begins(d, i - p));
    }
}

proof fn rest_is_open(s: Seq<u8>, p: int)
    requires
        0 <= p,
        nal_begins(s, p),
        forall|i: int, j: int|
            p < i < j && #[trigger] nal_begins(s, i) && #[trigger] nal_begins(s, j) ==> !parts(
                s,
                p,
                i,
            ),
    ensures
        is_open(s.skip(p)),
{
    let t = s.skip(p);
    rest_has_its_nals(s, p);
    assert forall|i: int, j: int|
        0 < i < j && #[trigger] nal_begins(t, i) && #[trigger] nal_begins(t, j) implies {
        &&& !head_begins(t, i)
        &&& forall|h: int| h < i ==> !(#[trigger] slice_begins(t, h) && slice_begins(t, i))
    } by {
        assert(nal_begins(s, p + i) && nal_begins(s, p + j));
        assert(!parts(s, p, p + i));
        assert(nal_number(t, i) == nal_number(s, p + i));
        assert forall|h: int| h < i implies !(#[trigger] slice_begins(t, h) && slice_begins(t, i)) by {
            if slice_begins(t, h) && slice_begins(t, i) {
                assert(nal_begins(t, h));
                assert(slice_begins(s, p + h));
                assert(has_slice(s, p, p + i));
            }
        }
    }
}

proof fn first_unit_is_picture(s: Seq<u8>, p: int)
    requires
        0 <= p,
        nal_begins(s, p),
        short_code(s, p) || long_code(s, p),
    ensures
        match first_unit(s, p) {
            Some((e, key)) => {
                let d = s.subrange(p, e);
                &&& p < e
                &&& nal_begins(s, e)
                &&& short_code(s, e) || long_code(s, e)
                &&& is_picture(UnitView { keyframe: key, data: d })
                &&& head_begins(s, e) || (slice_begins(s, e) && holds_slice(d))
            },
            None => is_open(s.skip(p)),
        },
{
    next_nal_is_next(s, p);
    assert(kind(s, p) == nal_number(s, p));
    if let Some(q) = next_nal(s, p) {
        let sliced = is_slice(kind(s, p));
        let key = is_key(kind(s, p));
        assert(sliced == has_slice(s, p, q)) by {
            assert(sliced == slice_begins(s, p));
            assert(forall|i: int| p < i < q && slice_begins(s, i) ==> nal_begins(s, i));
        }
        assert(key == has_key(s, p, q)) by {
            assert(key == key_begins(s, p));
            assert(forall|i: int| p < i < q && key_begins(s, i) ==> nal_begins(s, i));
        }
        assert(one_picture(s, p, q)) by {
            assert forall|i: int, j: int| p <= i < j < q implies !(#[trigger] slice_begins(s, i)
                && #[trigger] slice_begins(s, j)) by {
                assert(!nal_begins(s, j));
            }
        }
        unit_is_one_picture(s, p, q, sliced, key);
        match first_unit(s, p) {
            Some((e, k)) => {
                part_is_picture(s, p, e, k);
            },
            None => {
                assert forall|i: int, j: int|
                    p < i < j && #[trigger] nal_begins(s, i) && #[trigger] nal_begins(
                        s,
                        j,
                    ) implies !parts(s, p, i) by {
                    assert(q <= i);
                }
                rest_is_open(s, p);
            },
        }
    } else {
        rest_is_open(s, p);
    }
}

/// A unit ends before what follows it in the stream, as a unit or as what is kept.
proof fn ends_before_next(s: Seq<u8>, p: int, e: int, next: Seq<u8>)
    requires
        0 <= p < e,
        nal_begins(s, e),
        head_begins(s, e) || (slice_begins(s, e) && holds_slice(s.subrange(p, e))),
        next == s.skip(e) || exists|f: int|
            e < f && nal_begins(s, f) && next == #[trigger] s.subrange(e, f),
    ensures
        ends_before(s.subrange(p, e), next),
{
    if next == s.skip(e) {
        rest_has_its_nals(s, e);
    } else {
        let f = choose|f: int| e < f && nal_begins(s, f) && next == #[trigger] s.subrange(e, f);
        part_has_its_nals(s, e, f);
    }
    assert(nal_begins(s, e + 0));
    assert(nal_begins(next, 0));
    assert(nal_number(next, 0) == nal_number(s, e + 0));
}

/// What holds of units, one after another, and of what is kept behind them.
pub open spec fn are_pictures(units: Seq<UnitView>, kept: Seq<u8>) -> bool {
    &&& forall|k: int| 0 <= k < units.len() ==> is_picture(#[trigger] units[k])
    &&& forall|k: int|
        0 <= k < units.len() - 1 ==> ends_before((#[trigger] units[k]).data, units[k + 1].data)
    &&& units.len() > 0 ==> ends_before(units.last().data, kept)
    &&& is_open(kept)
}

proof fn one_more_picture(u: UnitView, units: Seq<UnitView>, kept: Seq<u8>)
    requires
        are_pictures(units, kept),
        is_picture(u),
        ends_before(
            u.data,
            if units.len() > 0 {
                units[0].data
            } else {
                kept
            },
        ),
    ensures
        are_pictures(seq![u] + units, kept),
{
    let all = seq![u] + units;
    assert forall|k: int| 0 <= k < all.len() implies is_picture(#[trigger] all[k]) by {
        if k > 0 {
            assert(all[k] == units[k - 1]);
        }
    }
    assert forall|k: int| 0 <= k < all.len() - 1 implies ends_before(
        (#[trigger] all[k]).data,
        all[k + 1].data,
    ) by {
        assert(all[k + 1] == units[k]);
        if k > 0 {
            assert(all[k] == units[k - 1]);
        }
    }
    if units.len() > 0 {
        assert(all.last() == units.last());
    }
}

proof fn units_are_pictures_from(s: Seq<u8>, p: int)
    requires
        0 <= p,
        nal_begins(s, p),
        short_code(s, p) || long_code(s, p),
    ensures
        are_pictures(units_from(s, p), s.skip(open_unit(s, p))),
        first_unit(s, p) is None ==> open_unit(s, p) == p,
    decreases s.len() - p,
{
    first_unit_is_picture(s, p);
    first_unit_is_later(s, p);
    if let Some((e, key)) = first_unit(s, p) {
        units_are_pictures_from(s, e);
        first_unit_is_picture(s, e);
        let rest = units_from(s, e);
        let kept = s.skip(open_unit(s, p));
        let u = UnitView { keyframe: key, data: s.subrange(p, e) };
        let next = if rest.len() > 0 {
            rest[0].data
        } else {
            kept
        };
        if let Some((f, _)) = first_unit(s, e) {
            assert(next == s.subrange(e, f));
        } else {
            assert(next == s.skip(e));
        }
        ends_before_next(s, p, e, next);
        one_more_picture(u, rest, kept);
    }
}

/// Every unit is one picture with what goes before it: it begins with a NAL, a
/// parameter set or a delimiter is only its first one, it has at most one slice, and
/// it is a keyframe exactly where it has an IDR slice or a parameter set. It ends only
/// where the next NAL cannot belong to it, and nothing that is kept could have been
/// taken as a unit.
pub proof fn units_are_pictures(s: Seq<u8>)
    ensures
        are_pictures(split(s).0, split(s).1),
{
    next_code_is_next(s, 0);
    next_code_is_code(s, 0);
    if let Some(p) = next_code(s, 0) {
        first_code_begins(s, p);
        next_nal_is_next(s, p);
        if next_nal(s, p) is Some {
            units_are_pictures_from(s, p);
        } else {
            assert forall|i: int, j: int|
                0 < i < j && #[trigger] nal_begins(s, i) && #[trigger] nal_begins(s, j) implies false by {
                assert(i <= p);
                assert(j <= p);
            }
        }
    }
}

proof fn first_code_begins(s: Seq<u8>, p: int)
    requires
        next_code(s, 0) == Some(p),
    ensures
        0 <= p,
        nal_begins(s, p),
        forall|j: int| j < p ==> !#[trigger] nal_begins(s, j),
{
    next_code_is_code(s, 0);
    next_code_is_next(s, 0);
    if p > 0 && s[p - 1] == 0 && short_code(s, p) {
        code_before(s, 0, p);
    }
}

/// Nothing from the first NAL on is lost, doubled or put elsewhere: the bytes of the
/// units, and then those that are kept, are the stream from there on. Without a NAL
/// all bytes are kept.
pub proof fn units_are_the_stream(s: Seq<u8>, p: int)
    requires
        nal_begins(s, p),
        forall|j: int| j < p ==> !#[trigger] nal_begins(s, j),
    ensures
        ({
            let (units, kept) = split(s);
            if exists|q: int| p < q && #[trigger] nal_begins(s, q) {
                joined(units) + kept == s.skip(p)
            } else {
                units.len() == 0 && kept == s
            }
        }),
{
    next_code_is_next(s, 0);
    assert(next_code(s, 0) is Some);
    let f = next_code(s, 0)->0;
    first_code_begins(s, f);
    assert(f == p) by {
        if f < p {
            assert(!nal_begins(s, f));
        }
        if p < f {
            assert(!nal_begins(s, p));
        }
    }
    next_code_is_code(s, 0);
    next_nal_is_next(s, p);
    split_keeps_every_byte(s);
}

} // verus!
