//! Little-endian integers and slices of bytes.

use vstd::prelude::*;

verus! {

/// The `n` low bytes of `v`, least significant first.
pub open spec fn le(v: nat, n: nat) -> Seq<u8>
    decreases n,
{
    if n == 0 {
        seq![]
    } else {
        seq![(v % 256) as u8] + le(v / 256, (n - 1) as nat)
    }
}

/// The number that some bytes stand for, least significant first.
pub open spec fn from_le(s: Seq<u8>) -> nat
    decreases s.len(),
{
    if s.len() == 0 {
        0
    } else {
        s[0] as nat + 256 * from_le(s.drop_first())
    }
}

/// `256` to the power of `n`.
pub open spec fn bound(n: nat) -> nat
    decreases n,
{
    if n == 0 {
        1
    } else {
        256 * bound((n - 1) as nat)
    }
}

pub proof fn le_len(v: nat, n: nat)
    ensures
        le(v, n).len() == n,
    decreases n,
{
    if n > 0 {
        le_len(v / 256, (n - 1) as nat);
    }
}

/// Reading the bytes of a number gives the number back.
pub proof fn from_le_of_le(v: nat, n: nat)
    requires
        v < bound(n),
    ensures
        from_le(le(v, n)) == v,
        le(v, n).len() == n,
    decreases n,
{
    if n > 0 {
        from_le_of_le(v / 256, (n - 1) as nat);
        assert(le(v, n).drop_first() =~= le(v / 256, (n - 1) as nat));
    }
}

/// Writing the number that some bytes stand for gives the bytes back.
pub proof fn le_of_from_le(s: Seq<u8>)
    ensures
        le(from_le(s), s.len()) == s,
        from_le(s) < bound(s.len()),
    decreases s.len(),
{
    if s.len() == 0 {
        assert(le(from_le(s), s.len()) =~= s);
    } else {
        let rest = s.drop_first();
        le_of_from_le(rest);
        let v = from_le(s);
        assert(v % 256 == s[0] as nat);
        assert(v / 256 == from_le(rest));
        assert(le(v, s.len()) =~= seq![s[0]] + rest);
        assert(seq![s[0]] + rest =~= s);
    }
}

proof fn from_le_unfold(s: Seq<u8>)
    requires
        s.len() > 0,
    ensures
        from_le(s) == s[0] as nat + 256 * from_le(s.drop_first()),
{
}

pub proof fn bounds()
    ensures
        bound(1) == 0x100,
        bound(2) == 0x1_0000,
        bound(4) == 0x1_0000_0000,
        bound(8) == 0x1_0000_0000_0000_0000,
{
    reveal_with_fuel(bound, 9);
}

/// The number in the first `n` bytes, for `n` of at most eight.
pub fn get_le(s: &[u8], n: usize) -> (r: u64)
    requires
        n <= s@.len(),
        n <= 8,
    ensures
        r == from_le(s@.take(n as int)),
{
    let mut v: u64 = 0;
    let mut i: usize = n;
    let ghost part = s@.take(n as int);
    assert(part.skip(n as int) =~= Seq::<u8>::empty());
    proof {
        bounds();
    }
    while i > 0
        invariant
            i <= n <= 8,
            n <= s@.len(),
            part == s@.take(n as int),
            v == from_le(part.skip(i as int)),
        decreases i,
    {
        proof {
            let tail = part.skip(i - 1);
            assert(tail.drop_first() =~= part.skip(i as int));
            from_le_unfold(tail);
            le_of_from_le(tail);
            bound_monotone((n - (i - 1)) as nat, 8);
            bounds();
        }
        i -= 1;
        v = v * 256 + s[i] as u64;
    }
    assert(part.skip(0) =~= part);
    v
}

proof fn bound_monotone(a: nat, b: nat)
    requires
        a <= b,
    ensures
        bound(a) <= bound(b),
    decreases b,
{
    if a < b {
        bound_monotone(a, (b - 1) as nat);
    }
}

/// Adds the `n` low bytes of `v`.
pub fn put_le(out: &mut Vec<u8>, v: u64, n: usize)
    ensures
        final(out)@ == old(out)@ + le(v as nat, n as nat),
{
    let mut rest: u64 = v;
    let mut i: usize = 0;
    assert(out@ + le(v as nat, n as nat) =~= old(out)@ + le(v as nat, n as nat));
    while i < n
        invariant
            i <= n,
            out@ + le(rest as nat, (n - i) as nat) == old(out)@ + le(v as nat, n as nat),
        decreases n - i,
    {
        let ghost before = out@;
        out.push((rest % 256) as u8);
        assert(out@ + le((rest / 256) as nat, (n - i - 1) as nat) =~= before + le(
            rest as nat,
            (n - i) as nat,
        ));
        rest = rest / 256;
        i += 1;
    }
    assert(out@ + le(rest as nat, 0) =~= out@);
}

/// Adds the bytes of a slice.
pub fn put_all(out: &mut Vec<u8>, data: &[u8])
    ensures
        final(out)@ == old(out)@ + data@,
{
    for i in 0..data.len()
        invariant
            out@ == old(out)@ + data@.take(i as int),
    {
        out.push(data[i]);
        assert(data@.take(i + 1) =~= data@.take(i as int).push(data@[i as int]));
    }
    assert(data@.take(data@.len() as int) =~= data@);
}

/// Whether two slices hold the same bytes.
pub fn same_bytes(a: &[u8], b: &[u8]) -> (r: bool)
    ensures
        r == (a@ == b@),
{
    if a.len() != b.len() {
        return false;
    }
    for i in 0..a.len()
        invariant
            a@.len() == b@.len(),
            forall|j: int| 0 <= j < i ==> a@[j] == b@[j],
    {
        if a[i] != b[i] {
            return false;
        }
    }
    assert(a@ =~= b@);
    true
}

} // verus!
