//! Little-endian fixed-width integer encoding shared by field elements,
//! protocol messages and permutation seeds.
use vstd::prelude::*;

verus! {

/// `256^n`.
pub open spec fn pow256(n: nat) -> nat
    decreases n,
{
    if n == 0 {
        1
    } else {
        256 * pow256((n - 1) as nat)
    }
}

/// The `n` lowest bytes of `v`, least significant first.
pub open spec fn le_bytes(v: nat, n: nat) -> Seq<u8>
    decreases n,
{
    if n == 0 {
        Seq::empty()
    } else {
        seq![(v % 256) as u8] + le_bytes(v / 256, (n - 1) as nat)
    }
}

/// The number whose little-endian encoding is `s`.
pub open spec fn le_value(s: Seq<u8>) -> nat
    decreases s.len(),
{
    if s.len() == 0 {
        0
    } else {
        s[0] as nat + 256 * le_value(s.drop_first())
    }
}

pub proof fn lemma_le_bytes_len(v: nat, n: nat)
    ensures
        le_bytes(v, n).len() == n,
    decreases n,
{
    if n > 0 {
        lemma_le_bytes_len(v / 256, (n - 1) as nat);
    }
}

/// Decoding the encoding of a number that fits in `n` bytes gives it back.
pub proof fn lemma_le_round_trip(v: nat, n: nat)
    requires
        v < pow256(n),
    ensures
        le_value(le_bytes(v, n)) == v,
    decreases n,
{
    if n > 0 {
        let p = pow256((n - 1) as nat);
        let rest = le_bytes(v / 256, (n - 1) as nat);
        assert(le_bytes(v, n).drop_first() =~= rest);
        assert(v / 256 < p) by (nonlinear_arith)
            requires
                v < 256 * p,
        ;
        lemma_le_round_trip(v / 256, (n - 1) as nat);
        assert(v == v % 256 + 256 * (v / 256)) by (nonlinear_arith);
    }
}

/// A decoded number is below `256^len`.
pub proof fn lemma_le_value_bound(s: Seq<u8>)
    ensures
        le_value(s) < pow256(s.len()),
    decreases s.len(),
{
    if s.len() > 0 {
        let t = s.drop_first();
        lemma_le_value_bound(t);
        let x = le_value(t);
        let p = pow256(t.len());
        let b = s[0] as nat;
        assert(b + 256 * x < 256 * p) by (nonlinear_arith)
            requires
                b < 256,
                x < p,
        ;
    }
}

pub proof fn lemma_pow256_monotonic(a: nat, b: nat)
    requires
        a <= b,
    ensures
        pow256(a) <= pow256(b),
    decreases b,
{
    if a < b {
        lemma_pow256_monotonic(a, (b - 1) as nat);
    }
}

/// Writes the `n` low little-endian bytes of `v` into `buf[..n]`, leaving the rest.
pub fn write_le(v: u128, n: usize, buf: &mut [u8])
    requires
        n <= old(buf)@.len(),
    ensures
        final(buf)@.len() == old(buf)@.len(),
        final(buf)@.subrange(0, n as int) == le_bytes(v as nat, n as nat),
        final(buf)@.subrange(n as int, old(buf)@.len() as int) == old(buf)@.subrange(
            n as int,
            old(buf)@.len() as int,
        ),
{
    let mut x: u128 = v;
    let mut i: usize = 0;
    while i < n
        invariant
            i <= n,
            n <= buf@.len(),
            buf@.len() == old(buf)@.len(),
            buf@.subrange(0, i as int) + le_bytes(x as nat, (n - i) as nat) == le_bytes(
                v as nat,
                n as nat,
            ),
            buf@.subrange(n as int, buf@.len() as int) == old(buf)@.subrange(
                n as int,
                old(buf)@.len() as int,
            ),
        decreases n - i,
    {
        let ghost before = buf@;
        let b: u8 = (x % 256) as u8;
        buf[i] = b;
        assert(buf@.subrange(0, i + 1) =~= before.subrange(0, i as int) + seq![b]);
        assert(buf@.subrange(n as int, buf@.len() as int) =~= before.subrange(
            n as int,
            before.len() as int,
        ));
        assert(le_bytes(x as nat, (n - i) as nat) =~= seq![b] + le_bytes(
            (x / 256) as nat,
            (n - i - 1) as nat,
        ));
        assert(before.subrange(0, i as int) + (seq![b] + le_bytes(
            (x / 256) as nat,
            (n - i - 1) as nat,
        )) =~= buf@.subrange(0, i + 1) + le_bytes((x / 256) as nat, (n - i - 1) as nat));
        x = x / 256;
        i = i + 1;
    }
    assert(le_bytes(x as nat, 0) =~= Seq::<u8>::empty());
    assert(buf@.subrange(0, n as int) =~= buf@.subrange(0, n as int) + Seq::<u8>::empty());
}

/// Reads the little-endian number held in `buf[..n]`.
pub fn read_le(buf: &[u8], n: usize) -> (r: u128)
    requires
        n <= buf@.len(),
        n <= 16,
    ensures
        r as nat == le_value(buf@.subrange(0, n as int)),
{
    let mut acc: u128 = 0;
    let mut i: usize = n;
    proof {
        reveal_with_fuel(pow256, 17);
        lemma_pow256_monotonic(n as nat, 16);
        assert(buf@.subrange(n as int, n as int) =~= Seq::<u8>::empty());
    }
    while i > 0
        invariant
            i <= n,
            n <= buf@.len(),
            n <= 16,
            pow256(n as nat) <= pow256(16),
            pow256(16) == 0x1_0000_0000_0000_0000_0000_0000_0000_0000,
            acc as nat == le_value(buf@.subrange(i as int, n as int)),
        decreases i,
    {
        i = i - 1;
        let ghost s = buf@.subrange(i as int, n as int);
        proof {
            assert(s.drop_first() =~= buf@.subrange(i + 1, n as int));
            lemma_le_value_bound(s);
            lemma_pow256_monotonic(s.len(), n as nat);
        }
        acc = acc * 256 + buf[i] as u128;
    }
    acc
}

/// Appends the `n` low little-endian bytes of `v` to `out`.
pub fn push_le(v: u128, n: usize, out: &mut Vec<u8>)
    ensures
        final(out)@ == old(out)@ + le_bytes(v as nat, n as nat),
{
    let mut x: u128 = v;
    let mut i: usize = 0;
    while i < n
        invariant
            i <= n,
            out@ + le_bytes(x as nat, (n - i) as nat) == old(out)@ + le_bytes(v as nat, n as nat),
        decreases n - i,
    {
        let ghost before = out@;
        let b: u8 = (x % 256) as u8;
        out.push(b);
        assert(le_bytes(x as nat, (n - i) as nat) =~= seq![b] + le_bytes(
            (x / 256) as nat,
            (n - i - 1) as nat,
        ));
        assert(before + (seq![b] + le_bytes((x / 256) as nat, (n - i - 1) as nat)) =~= out@
            + le_bytes((x / 256) as nat, (n - i - 1) as nat));
        x = x / 256;
        i = i + 1;
    }
    assert(le_bytes(x as nat, 0) =~= Seq::<u8>::empty());
    assert(out@ =~= out@ + Seq::<u8>::empty());
}

} // verus!
