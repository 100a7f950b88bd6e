//! Big-endian integers in byte sequences.
use vstd::prelude::*;

verus! {

/// The unsigned integer that `b` spells in big-endian order.
pub open spec fn be_value(b: Seq<u8>) -> nat
    decreases b.len(),
{
    if b.len() == 0 {
        0
    } else {
        be_value(b.drop_last()) * 256 + b.last() as nat
    }
}

/// The `n` bytes that spell `v` (modulo `256^n`) in big-endian order.
pub open spec fn be_bytes(v: nat, n: nat) -> Seq<u8>
    decreases n,
{
    if n == 0 {
        Seq::empty()
    } else {
        be_bytes(v / 256, (n - 1) as nat).push((v % 256) as u8)
    }
}

/// Writing a big-endian value back gives the bytes it was read from.
pub proof fn lemma_be_round_trip(b: Seq<u8>)
    ensures
        be_bytes(be_value(b), b.len()) == b,
    decreases b.len(),
{
    if b.len() > 0 {
        let p = b.drop_last();
        lemma_be_round_trip(p);
        let v = be_value(b);
        assert(v / 256 == be_value(p) && v % 256 == b.last() as nat) by (nonlinear_arith)
            requires
                v == be_value(p) * 256 + b.last() as nat,
                (b.last() as nat) < 256,
        ;
        assert(be_bytes(v, b.len()) =~= b);
    }
}

/// Reads the big-endian `u16` at `at`.
pub fn read_be_u16(d: &[u8], at: usize) -> (r: u16)
    requires
        at + 2 <= d@.len(),
    ensures
        r as nat == be_value(d@.subrange(at as int, at + 2)),
{
    let ghost w = d@.subrange(at as int, at + 2);
    proof {
        reveal_with_fuel(be_value, 3);
        assert(w.drop_last().drop_last() =~= Seq::<u8>::empty());
    }
    (d[at] as u16) * 256 + (d[at + 1] as u16)
}

/// Reads the big-endian `u32` at `at`.
pub fn read_be_u32(d: &[u8], at: usize) -> (r: u32)
    requires
        at + 4 <= d@.len(),
    ensures
        r as nat == be_value(d@.subrange(at as int, at + 4)),
{
    let ghost w = d@.subrange(at as int, at + 4);
    proof {
        reveal_with_fuel(be_value, 5);
        assert(w.drop_last().drop_last().drop_last().drop_last() =~= Seq::<u8>::empty());
        assert(w.drop_last().drop_last().drop_last().last() == d@[at as int]);
    }
    let b0 = d[at] as u32;
    let b1 = d[at + 1] as u32;
    let b2 = d[at + 2] as u32;
    let b3 = d[at + 3] as u32;
    assert(((b0 * 256 + b1) * 256 + b2) * 256 + b3 < 0x1_0000_0000) by (nonlinear_arith)
        requires
            b0 < 256,
            b1 < 256,
            b2 < 256,
            b3 < 256,
    ;
    ((b0 * 256 + b1) * 256 + b2) * 256 + b3
}

/// Reads the big-endian 48-bit unsigned integer at `at`, widened to `u64`.
pub fn read_be_u48(d: &[u8], at: usize) -> (r: u64)
    requires
        at + 6 <= d@.len(),
    ensures
        r as nat == be_value(d@.subrange(at as int, at + 6)),
        r < 0x1_0000_0000_0000,
{
    let len: usize = d.len();
    assert(at + 2 < len);
    let hi = read_be_u16(d, at) as u64;
    let lo = read_be_u32(d, at + 2) as u64;
    proof {
        let w = d@.subrange(at as int, at + 6);
        let h = d@.subrange(at as int, at + 2);
        let l = d@.subrange(at + 2, at + 6);
        reveal_with_fuel(be_value, 7);
        assert(h =~= w.drop_last().drop_last().drop_last().drop_last());
        assert(l.drop_last().drop_last().drop_last().drop_last() =~= Seq::<u8>::empty());
        assert(be_value(w) == be_value(h) * 0x1_0000_0000 + be_value(l)) by (nonlinear_arith)
            requires
                be_value(w) == ((((be_value(h) * 256 + w[2]) * 256 + w[3]) * 256 + w[4]) * 256
                    + w[5]),
                be_value(l) == (((l[0] as nat * 256 + l[1]) * 256 + l[2]) * 256 + l[3]),
                l[0] == w[2],
                l[1] == w[3],
                l[2] == w[4],
                l[3] == w[5],
        ;
    }
    hi * 0x1_0000_0000 + lo
}

} // verus!
