//! Where the displays are for the client.
//!
//! Monitors with different scales have logical and pixel layouts that disagree,
//! so each monitor is placed flush against the pixel edges of the monitors left
//! of and above it.

use vstd::prelude::*;

use crate::input::{saturate, saturated, Region};
use crate::message::{signed, to_signed};
use crate::rounding::{scaled_spec, scaled_start};

verus! {

/// One side of a region.
#[derive(Clone, Copy, PartialEq, Eq, Structural)]
pub struct Span {
    /// Where it starts on the desktop.
    pub start: i32,
    /// How long it is on the desktop.
    pub logical: u32,
    /// How many pixels it has.
    pub pixels: u32,
}

impl Span {
    /// Where the span ends on the desktop.
    pub open spec fn end(self) -> int {
        self.start + signed(self.logical as nat)
    }
}

/// `i` put into an order by start, behind those that start where it does.
pub open spec fn insert(spans: Seq<Span>, order: Seq<int>, i: int) -> Seq<int>
    decreases order.len(),
{
    if order.len() == 0 || spans[order.last()].start <= spans[i].start {
        order.push(i)
    } else {
        insert(spans, order.drop_last(), i).push(order.last())
    }
}

/// The first `n` spans by their start; those with one start stay in order.
pub open spec fn by_start(spans: Seq<Span>, n: nat) -> Seq<int>
    decreases n,
{
    if n == 0 {
        seq![]
    } else {
        insert(spans, by_start(spans, (n - 1) as nat), n - 1)
    }
}

/// The pixel edge of a span that is placed.
pub open spec fn pixel_end(spans: Seq<Span>, placed: Seq<i32>, j: int) -> i32 {
    saturated(placed[j] + signed(spans[j].pixels as nat))
}

/// The greatest pixel edge of the spans in `done` that end where `i` starts, or
/// before.
pub open spec fn edge_before(
    spans: Seq<Span>,
    done: Seq<int>,
    placed: Seq<i32>,
    i: int,
) -> Option<i32>
    decreases done.len(),
{
    if done.len() == 0 {
        None
    } else {
        let j = done.last();
        let others = edge_before(spans, done.drop_last(), placed, i);
        if spans[j].end() <= spans[i].start {
            let e = pixel_end(spans, placed, j);
            match others {
                Some(o) if o >= e => Some(o),
                _ => Some(e),
            }
        } else {
            others
        }
    }
}

/// Where a span goes in pixels: flush against those before it, or where its scale
/// puts it.
pub open spec fn place_one(spans: Seq<Span>, done: Seq<int>, placed: Seq<i32>, i: int) -> i32 {
    match edge_before(spans, done, placed, i) {
        Some(e) => e,
        None => scaled_spec(spans[i].start, spans[i].pixels, spans[i].logical),
    }
}

/// The pixel starts after the first `k` spans of the order are placed.
pub open spec fn place_first(spans: Seq<Span>, order: Seq<int>, k: nat) -> Seq<i32>
    decreases k,
{
    if k == 0 {
        Seq::new(spans.len(), |i: int| 0i32)
    } else {
        let before = place_first(spans, order, (k - 1) as nat);
        let i = order[k - 1];
        before.update(i, place_one(spans, order.take(k - 1), before, i))
    }
}

/// The pixel starts of some spans.
pub open spec fn place_all(spans: Seq<Span>) -> Seq<i32> {
    place_first(spans, by_start(spans, spans.len()), spans.len())
}

/// What an order of the first `n` spans is: each of them once, by their start.
spec fn is_order(spans: Seq<Span>, order: Seq<int>, n: int) -> bool {
    &&& order.len() == n
    &&& forall|k: int| 0 <= k < n ==> 0 <= #[trigger] order[k] < n
    &&& forall|a: int, b: int| 0 <= a < b < n ==> #[trigger] order[a] != #[trigger] order[b]
    &&& forall|a: int, b: int|
        0 <= a < b < n ==> spans[#[trigger] order[a]].start <= spans[#[trigger] order[b]].start
}

proof fn insert_keeps(spans: Seq<Span>, order: Seq<int>, i: int)
    requires
        forall|a: int, b: int| 0 <= a < b < order.len() ==> #[trigger] order[a]
            != #[trigger] order[b],
        forall|a: int, b: int|
            0 <= a < b < order.len() ==> spans[#[trigger] order[a]].start
                <= spans[#[trigger] order[b]].start,
        forall|k: int| 0 <= k < order.len() ==> #[trigger] order[k] != i,
    ensures
        ({
            let all = insert(spans, order, i);
            &&& all.len() == order.len() + 1
            &&& forall|k: int| 0 <= k < all.len() ==> #[trigger] all[k] == i || order.contains(
                all[k],
            )
            &&& all.contains(i)
            &&& forall|k: int| 0 <= k < order.len() ==> all.contains(#[trigger] order[k])
            &&& forall|a: int, b: int| 0 <= a < b < all.len() ==> #[trigger] all[a]
                != #[trigger] all[b]
            &&& forall|a: int, b: int|
                0 <= a < b < all.len() ==> spans[#[trigger] all[a]].start
                    <= spans[#[trigger] all[b]].start
        }),
    decreases order.len(),
{
    let all = insert(spans, order, i);
    if order.len() == 0 || spans[order.last()].start <= spans[i].start {
        assert(all[order.len() as int] == i);
        assert forall|k: int| 0 <= k < order.len() implies all.contains(#[trigger] order[k]) by {
            assert(all[k] == order[k]);
        }
    } else {
        let front = order.drop_last();
        insert_keeps(spans, front, i);
        let part = insert(spans, front, i);
        assert(all == part.push(order.last()));
        assert(all.drop_last() =~= part);
        assert forall|k: int| 0 <= k < all.len() implies #[trigger] all[k] == i || order.contains(
            all[k],
        ) by {
            if k < part.len() {
                assert(all[k] == part[k]);
                if part[k] != i {
                    let m = choose|m: int| 0 <= m < front.len() && front[m] == part[k];
                    assert(order[m] == all[k]);
                }
            } else {
                assert(order[order.len() - 1] == all[k]);
            }
        }
        let w = choose|m: int| 0 <= m < part.len() && part[m] == i;
        assert(all[w] == i);
        assert forall|k: int| 0 <= k < order.len() implies all.contains(#[trigger] order[k]) by {
            if k < front.len() {
                assert(part.contains(front[k]));
                let m = choose|m: int| 0 <= m < part.len() && part[m] == front[k];
                assert(all[m] == order[k]);
            } else {
                assert(all[part.len() as int] == order[k]);
            }
        }
        assert forall|a: int, b: int| 0 <= a < b < all.len() implies #[trigger] all[a]
            != #[trigger] all[b] && spans[all[a]].start <= spans[all[b]].start by {
            assert(all[a] == part[a]);
            if b < part.len() {
                assert(all[b] == part[b]);
            } else {
                assert(all[b] == order.last());
                if part[a] != i {
                    let m = choose|m: int| 0 <= m < front.len() && front[m] == part[a];
                    assert(order[m] == part[a]);
                    assert(order[order.len() - 1] == order.last());
                }
            }
        }
    }
}

proof fn by_start_is_order(spans: Seq<Span>, n: nat)
    ensures
        is_order(spans, by_start(spans, n), n as int),
        forall|i: int| 0 <= i < n ==> #[trigger] by_start(spans, n).contains(i),
    decreases n,
{
    if n > 0 {
        let before = by_start(spans, (n - 1) as nat);
        by_start_is_order(spans, (n - 1) as nat);
        insert_keeps(spans, before, n - 1);
        let all = by_start(spans, n);
        assert forall|k: int| 0 <= k < n implies 0 <= #[trigger] all[k] < n by {
            if all[k] != n - 1 {
                let m = choose|m: int| 0 <= m < before.len() && before[m] == all[k];
                assert(0 <= before[m] < n - 1);
            }
        }
        assert forall|i: int| 0 <= i < n implies #[trigger] all.contains(i) by {
            if i < n - 1 {
                assert(before.contains(i));
                let m = choose|m: int| 0 <= m < before.len() && before[m] == i;
                assert(all.contains(before[m]));
            }
        }
    }
}

/// The spans by their start.
fn order_of(spans: &Vec<Span>) -> (r: Vec<usize>)
    ensures
        r@.map_values(|k: usize| k as int) == by_start(spans@, spans@.len()),
        r@.len() == spans@.len(),
        forall|k: int| 0 <= k < r@.len() ==> #[trigger] r@[k] < spans@.len(),
{
    let mut order: Vec<usize> = Vec::new();
    let ghost cast = |k: usize| k as int;
    assert(order@.map_values(cast) =~= by_start(spans@, 0));
    for i in 0..spans.len()
        invariant
            cast == (|k: usize| k as int),
            order@.len() == i,
            order@.map_values(cast) == by_start(spans@, i as nat),
            forall|k: int| 0 <= k < order@.len() ==> #[trigger] order@[k] < i,
    {
        let ghost ints = order@.map_values(cast);
        let ghost before = order@;
        let mut at: usize = order.len();
        assert(ints.take(at as int) =~= ints);
        assert(insert(spans@, ints, i as int) =~= insert(spans@, ints.take(at as int), i as int)
            + ints.skip(at as int));
        while at > 0 && spans[order[at - 1]].start > spans[i].start
            invariant
                i < spans@.len(),
                order@ == before,
                at <= order@.len(),
                order@.len() == i,
                cast == (|k: usize| k as int),
                ints == order@.map_values(cast),
                forall|k: int| 0 <= k < order@.len() ==> #[trigger] order@[k] < i,
                insert(spans@, ints, i as int) == insert(
                    spans@,
                    ints.take(at as int),
                    i as int,
                ) + ints.skip(at as int),
            decreases at,
        {
            proof {
                let part = ints.take(at as int);
                assert(part.last() == order@[at - 1] as int);
                assert(part.drop_last() =~= ints.take(at - 1));
                assert(insert(spans@, ints.take(at - 1), i as int).push(part.last()) + ints.skip(
                    at as int,
                ) =~= insert(spans@, ints.take(at - 1), i as int) + ints.skip(at - 1));
            }
            at -= 1;
        }
        proof {
            let part = ints.take(at as int);
            if at > 0 {
                assert(part.last() == order@[at - 1] as int);
            }
            assert(insert(spans@, part, i as int) == part.push(i as int));
        }
        order.insert(at, i);
        assert(order@.map_values(cast) =~= ints.take(at as int).push(i as int) + ints.skip(
            at as int,
        ));
    }
    order
}

/// The pixel starts of some spans.
fn place(spans: &Vec<Span>) -> (r: Vec<i32>)
    ensures
        r@ == place_all(spans@),
        r@.len() == spans@.len(),
{
    let order = order_of(spans);
    let ghost cast = |k: usize| k as int;
    let ghost ints = order@.map_values(cast);
    let n: usize = spans.len();
    let mut placed: Vec<i32> = Vec::new();
    for i in 0..n
        invariant
            placed@.len() == i,
            forall|j: int| 0 <= j < i ==> placed@[j] == 0,
    {
        placed.push(0);
    }
    assert(placed@ =~= place_first(spans@, ints, 0));
    for k in 0..n
        invariant
            n == spans@.len(),
            n == order@.len(),
            cast == (|k: usize| k as int),
            ints == order@.map_values(cast),
            forall|k: int| 0 <= k < order@.len() ==> #[trigger] order@[k] < spans@.len(),
            placed@.len() == n,
            placed@ == place_first(spans@, ints, k as nat),
    {
        let i: usize = order[k];
        let span = spans[i];
        let mut edge: Option<i32> = None;
        for m in 0..k
            invariant
                n == spans@.len(),
                n == order@.len(),
                k < n,
                i < n,
                span == spans@[i as int],
                cast == (|k: usize| k as int),
                ints == order@.map_values(cast),
                forall|k: int| 0 <= k < order@.len() ==> #[trigger] order@[k] < spans@.len(),
                placed@.len() == n,
                edge == edge_before(spans@, ints.take(m as int), placed@, i as int),
        {
            proof {
                assert(ints.take(m + 1).drop_last() =~= ints.take(m as int));
                assert(ints.take(m + 1).last() == order@[m as int] as int);
            }
            let j: usize = order[m];
            let other = spans[j];
            let end: i64 = other.start as i64 + to_signed(other.logical) as i64;
            if end <= span.start as i64 {
                let sum: i64 = placed[j] as i64 + to_signed(other.pixels) as i64;
                let e: i32 = saturate(sum);
                edge = match edge {
                    Some(o) => if o >= e {
                        Some(o)
                    } else {
                        Some(e)
                    },
                    None => Some(e),
                };
            }
        }
        let v: i32 = match edge {
            Some(e) => e,
            None => scaled_start(span.start, span.pixels, span.logical),
        };
        placed.set(i, v);
        assert(ints[k as int] == i);
    }
    placed
}

/// The sides of some regions across.
pub open spec fn spans_x(regions: Seq<Region>) -> Seq<Span> {
    regions.map_values(
        |r: Region| Span { start: r.x, logical: r.width, pixels: r.pixel_width },
    )
}

/// The sides of some regions down.
pub open spec fn spans_y(regions: Seq<Region>) -> Seq<Span> {
    regions.map_values(
        |r: Region| Span { start: r.y, logical: r.height, pixels: r.pixel_height },
    )
}

/// The pixel origins of some regions.
pub open spec fn origins(regions: Seq<Region>) -> Seq<(i32, i32)> {
    Seq::new(
        regions.len(),
        |i: int| (place_all(spans_x(regions))[i], place_all(spans_y(regions))[i]),
    )
}

/// Pixel origins for the client's overview.
pub fn pixel_origins(regions: &[Region]) -> (r: Vec<(i32, i32)>)
    ensures
        r@ == origins(regions@),
{
    let n: usize = regions.len();
    let mut across: Vec<Span> = Vec::new();
    let mut down: Vec<Span> = Vec::new();
    for i in 0..n
        invariant
            n == regions@.len(),
            across@ == spans_x(regions@).take(i as int),
            down@ == spans_y(regions@).take(i as int),
    {
        let r = regions[i];
        across.push(Span { start: r.x, logical: r.width, pixels: r.pixel_width });
        down.push(Span { start: r.y, logical: r.height, pixels: r.pixel_height });
        proof {
            let xs = spans_x(regions@);
            let ys = spans_y(regions@);
            assert(xs.take(i + 1) =~= xs.take(i as int).push(xs[i as int]));
            assert(ys.take(i + 1) =~= ys.take(i as int).push(ys[i as int]));
        }
    }
    assert(across@ =~= spans_x(regions@));
    assert(down@ =~= spans_y(regions@));
    let xs = place(&across);
    let ys = place(&down);
    let mut out: Vec<(i32, i32)> = Vec::new();
    for i in 0..n
        invariant
            n == regions@.len(),
            xs@ == place_all(spans_x(regions@)),
            ys@ == place_all(spans_y(regions@)),
            xs@.len() == n,
            ys@.len() == n,
            out@ == origins(regions@).take(i as int),
    {
        out.push((xs[i], ys[i]));
        assert(origins(regions@).take(i + 1) =~= origins(regions@).take(i as int).push(
            origins(regions@)[i as int],
        ));
    }
    assert(out@ =~= origins(regions@));
    out
}

proof fn place_first_len(spans: Seq<Span>, order: Seq<int>, k: nat)
    requires
        is_order(spans, order, spans.len() as int),
        k <= spans.len(),
    ensures
        place_first(spans, order, k).len() == spans.len(),
    decreases k,
{
    if k > 0 {
        place_first_len(spans, order, (k - 1) as nat);
    }
}

/// A span that is placed stays where it is.
proof fn placed_stays(spans: Seq<Span>, order: Seq<int>, a: int, k: nat, m: nat)
    requires
        is_order(spans, order, spans.len() as int),
        0 <= a < k <= m <= spans.len(),
    ensures
        place_first(spans, order, m)[order[a]] == place_first(spans, order, k)[order[a]],
    decreases m,
{
    if k < m {
        placed_stays(spans, order, a, k, (m - 1) as nat);
        place_first_len(spans, order, (m - 1) as nat);
        assert(order[a] != order[m - 1]);
    }
}

proof fn edge_is_behind(spans: Seq<Span>, done: Seq<int>, placed: Seq<i32>, i: int, b: int)
    requires
        0 <= b < done.len(),
        spans[done[b]].end() <= spans[i].start,
    ensures
        edge_before(spans, done, placed, i) matches Some(e) && e >= pixel_end(
            spans,
            placed,
            done[b],
        ),
    decreases done.len(),
{
    if b < done.len() - 1 {
        assert(done.drop_last()[b] == done[b]);
        edge_is_behind(spans, done.drop_last(), placed, i, b);
    }
}

/// Monitors do not overlap in pixels: one that starts where another ends on the
/// desktop, or after it, starts in pixels where the other one ends, or after it.
pub proof fn neighbours_do_not_overlap(spans: Seq<Span>, i: int, j: int)
    requires
        0 <= i < spans.len(),
        0 <= j < spans.len(),
        signed(spans[j].logical as nat) > 0,
        spans[j].end() <= spans[i].start,
    ensures
        place_all(spans)[i] >= pixel_end(spans, place_all(spans), j),
{
    let n = spans.len();
    let order = by_start(spans, n);
    by_start_is_order(spans, n);
    assert(order.contains(i) && order.contains(j));
    let a = choose|a: int| 0 <= a < order.len() && order[a] == i;
    let b = choose|b: int| 0 <= b < order.len() && order[b] == j;
    if a <= b {
        assert(spans[order[a]].start <= spans[order[b]].start);
        assert(false);
    }
    let before = place_first(spans, order, a as nat);
    place_first_len(spans, order, a as nat);
    assert(order.take(a)[b] == j);
    edge_is_behind(spans, order.take(a), before, i, b);
    placed_stays(spans, order, b, a as nat, n);
    placed_stays(spans, order, a, (a + 1) as nat, n);
}

/// The edge is that of some span, and there is one where some span gives one.
proof fn edge_is_reached(spans: Seq<Span>, done: Seq<int>, placed: Seq<i32>, i: int) -> (b: int)
    ensures
        match edge_before(spans, done, placed, i) {
            Some(e) => {
                &&& 0 <= b < done.len()
                &&& spans[done[b]].end() <= spans[i].start
                &&& e == pixel_end(spans, placed, done[b])
            },
            None => forall|c: int|
                0 <= c < done.len() ==> spans[#[trigger] done[c]].end() > spans[i].start,
        },
    decreases done.len(),
{
    if done.len() == 0 {
        0
    } else {
        let front = done.drop_last();
        let others = edge_before(spans, front, placed, i);
        let b = edge_is_reached(spans, front, placed, i);
        assert forall|c: int| 0 <= c < front.len() implies #[trigger] done[c] == front[c] by {}
        let j = done.last();
        let e = pixel_end(spans, placed, j);
        if spans[j].end() <= spans[i].start && !(others matches Some(o) && o >= e) {
            done.len() - 1
        } else {
            b
        }
    }
}

/// Whether span `j` ends on the desktop where span `i` starts, or before.
pub open spec fn is_before(spans: Seq<Span>, j: int, i: int) -> bool {
    0 <= j < spans.len() && spans[j].end() <= spans[i].start
}

/// Monitors are flush in pixels: one starts at the greatest pixel edge of those
/// that end on the desktop where it starts, or before, and where there is none, it
/// starts where its scale puts it.
pub proof fn neighbours_are_flush(spans: Seq<Span>, i: int)
    requires
        0 <= i < spans.len(),
        forall|j: int| 0 <= j < spans.len() ==> signed((#[trigger] spans[j]).logical as nat) > 0,
    ensures
        forall|j: int| #[trigger]
            is_before(spans, j, i) ==> pixel_end(spans, place_all(spans), j) <= place_all(spans)[i],
        (exists|j: int| #[trigger] is_before(spans, j, i)) ==> exists|j: int| #[trigger]
            is_before(spans, j, i) && pixel_end(spans, place_all(spans), j) == place_all(spans)[i],
        (forall|j: int| !#[trigger] is_before(spans, j, i)) ==> place_all(spans)[i] == scaled_spec(
            spans[i].start,
            spans[i].pixels,
            spans[i].logical,
        ),
{
    assert forall|j: int| #[trigger] is_before(spans, j, i) implies pixel_end(
        spans,
        place_all(spans),
        j,
    ) <= place_all(spans)[i] by {
        neighbours_do_not_overlap(spans, i, j);
    }
    let n = spans.len();
    let order = by_start(spans, n);
    by_start_is_order(spans, n);
    assert(order.contains(i));
    let a = choose|a: int| 0 <= a < order.len() && order[a] == i;
    let before = place_first(spans, order, a as nat);
    let done = order.take(a);
    place_first_len(spans, order, a as nat);
    placed_stays(spans, order, a, (a + 1) as nat, n);
    assert(place_all(spans)[i] == place_one(spans, done, before, i));
    let b = edge_is_reached(spans, done, before, i);
    if edge_before(spans, done, before, i) is Some {
        let j = done[b];
        assert(order[b] == j);
        placed_stays(spans, order, b, a as nat, n);
        assert(is_before(spans, j, i));
    } else {
        assert forall|j: int| !#[trigger] is_before(spans, j, i) by {
            if is_before(spans, j, i) {
                assert(order.contains(j));
                let c = choose|c: int| 0 <= c < order.len() && order[c] == j;
                assert(spans[order[a]].start > spans[order[c]].start);
                assert(c < a);
                assert(done[c] == j);
            }
        }
    }
}

/// A sum that is held to the range of an `i32`.
pub open spec fn held(v: int) -> int {
    if v > 0x7fff_ffff {
        0x7fff_ffff
    } else if v < -0x8000_0000 {
        -0x8000_0000
    } else {
        v
    }
}

/// Monitors side by side on the desktop are side by side in pixels, each flush with the
/// farthest pixel edge of those to the left of it; one with none to the left starts
/// where its own scale puts its start.
pub proof fn monitors_are_flush_across(regions: Seq<Region>, i: int)
    requires
        0 <= i < regions.len(),
        forall|j: int| #![trigger regions[j]]
            0 <= j < regions.len() ==> 0 < regions[j].width <= 0x7fff_ffff
                && regions[j].pixel_width <= 0x7fff_ffff,
    ensures
        ({
            let left = |j: int|
                0 <= j < regions.len() && regions[j].x + regions[j].width <= regions[i].x;
            let edge = |j: int| held(origins(regions)[j].0 + regions[j].pixel_width);
            &&& origins(regions).len() == regions.len()
            &&& forall|j: int| #[trigger] left(j) ==> edge(j) <= origins(regions)[i].0
            &&& (exists|j: int| #[trigger] left(j)) ==> exists|j: int| #[trigger]
                left(j) && edge(j) == origins(regions)[i].0
            &&& (forall|j: int| !#[trigger] left(j)) ==> origins(regions)[i].0 == scaled_spec(
                regions[i].x,
                regions[i].pixel_width,
                regions[i].width,
            )
        }),
{
    let spans = spans_x(regions);
    let left = |j: int| 0 <= j < regions.len() && regions[j].x + regions[j].width <= regions[i].x;
    assert forall|j: int| 0 <= j < spans.len() implies signed(
        (#[trigger] spans[j]).logical as nat,
    ) > 0 by {
        assert(spans[j].logical == regions[j].width);
    }
    neighbours_are_flush(spans, i);
    assert forall|j: int| left(j) == #[trigger] is_before(spans, j, i) by {
        if 0 <= j < regions.len() {
            assert(spans[j].logical == regions[j].width && spans[j].start == regions[j].x);
            assert(spans[j].pixels == regions[j].pixel_width);
        }
    }
    assert forall|j: int| 0 <= j < regions.len() implies #[trigger] pixel_end(
        spans,
        place_all(spans),
        j,
    ) == held(origins(regions)[j].0 + regions[j].pixel_width) by {
        assert(spans[j].pixels == regions[j].pixel_width);
        assert(regions[j].pixel_width <= 0x7fff_ffff);
    }
    assert forall|j: int| #[trigger] left(j) implies held(
        origins(regions)[j].0 + regions[j].pixel_width,
    ) <= origins(regions)[i].0 by {
        assert(is_before(spans, j, i));
    }
    if exists|j: int| #[trigger] left(j) {
        let j = choose|j: int| #[trigger] left(j);
        assert(is_before(spans, j, i));
        let k = choose|k: int| #[trigger]
            is_before(spans, k, i) && pixel_end(spans, place_all(spans), k) == place_all(spans)[i];
        assert(left(k));
    }
    if forall|j: int| !#[trigger] left(j) {
        assert forall|j: int| !#[trigger] is_before(spans, j, i) by {
            assert(!left(j));
        }
    }
}

/// Monitors one above the other on the desktop are one above the other in pixels, each
/// flush with the lowest pixel edge of those above it; one with none above it starts
/// where its own scale puts its start.
pub proof fn monitors_are_flush_down(regions: Seq<Region>, i: int)
    requires
        0 <= i < regions.len(),
        forall|j: int| #![trigger regions[j]]
            0 <= j < regions.len() ==> 0 < regions[j].height <= 0x7fff_ffff
                && regions[j].pixel_height <= 0x7fff_ffff,
    ensures
        ({
            let above = |j: int|
                0 <= j < regions.len() && regions[j].y + regions[j].height <= regions[i].y;
            let edge = |j: int| held(origins(regions)[j].1 + regions[j].pixel_height);
            &&& forall|j: int| #[trigger] above(j) ==> edge(j) <= origins(regions)[i].1
            &&& (exists|j: int| #[trigger] above(j)) ==> exists|j: int| #[trigger]
                above(j) && edge(j) == origins(regions)[i].1
            &&& (forall|j: int| !#[trigger] above(j)) ==> origins(regions)[i].1 == scaled_spec(
                regions[i].y,
                regions[i].pixel_height,
                regions[i].height,
            )
        }),
{
    let spans = spans_y(regions);
    let above = |j: int| 0 <= j < regions.len() && regions[j].y + regions[j].height <= regions[i].y;
    assert forall|j: int| 0 <= j < spans.len() implies signed(
        (#[trigger] spans[j]).logical as nat,
    ) > 0 by {
        assert(spans[j].logical == regions[j].height);
    }
    neighbours_are_flush(spans, i);
    assert forall|j: int| above(j) == #[trigger] is_before(spans, j, i) by {
        if 0 <= j < regions.len() {
            assert(spans[j].logical == regions[j].height && spans[j].start == regions[j].y);
            assert(spans[j].pixels == regions[j].pixel_height);
        }
    }
    assert forall|j: int| 0 <= j < regions.len() implies #[trigger] pixel_end(
        spans,
        place_all(spans),
        j,
    ) == held(origins(regions)[j].1 + regions[j].pixel_height) by {
        assert(spans[j].pixels == regions[j].pixel_height);
        assert(regions[j].pixel_height <= 0x7fff_ffff);
    }
    assert forall|j: int| #[trigger] above(j) implies held(
        origins(regions)[j].1 + regions[j].pixel_height,
    ) <= origins(regions)[i].1 by {
        assert(is_before(spans, j, i));
    }
    if exists|j: int| #[trigger] above(j) {
        let j = choose|j: int| #[trigger] above(j);
        assert(is_before(spans, j, i));
        let k = choose|k: int| #[trigger]
            is_before(spans, k, i) && pixel_end(spans, place_all(spans), k) == place_all(spans)[i];
        assert(above(k));
    }
    if forall|j: int| !#[trigger] above(j) {
        assert forall|j: int| !#[trigger] is_before(spans, j, i) by {
            assert(!above(j));
        }
    }
}

} // verus!
