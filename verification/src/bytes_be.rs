//! Big-endian byte encodings of the unsigned integers that appear in the
//! wire format, with round-trip lemmas.

use vstd::prelude::*;

verus! {

/// The two big-endian bytes of a `u16`.
pub open spec fn spec_u16_be(x: u16) -> Seq<u8> {
    seq![((x >> 8) & 0xff) as u8, (x & 0xff) as u8]
}

/// The four big-endian bytes of a `u32`.
pub open spec fn spec_u32_be(x: u32) -> Seq<u8> {
    seq![
        ((x >> 24) & 0xff) as u8,
        ((x >> 16) & 0xff) as u8,
        ((x >> 8) & 0xff) as u8,
        (x & 0xff) as u8,
    ]
}

/// The eight big-endian bytes of a `u64`.
pub open spec fn spec_u64_be(x: u64) -> Seq<u8> {
    seq![
        ((x >> 56) & 0xff) as u8,
        ((x >> 48) & 0xff) as u8,
        ((x >> 40) & 0xff) as u8,
        ((x >> 32) & 0xff) as u8,
        ((x >> 24) & 0xff) as u8,
        ((x >> 16) & 0xff) as u8,
        ((x >> 8) & 0xff) as u8,
        (x & 0xff) as u8,
    ]
}

/// The `u16` read from two big-endian bytes.
pub open spec fn spec_u16_from_be(s: Seq<u8>) -> u16
    recommends
        s.len() == 2,
{
    (((s[0] as u16) << 8) | (s[1] as u16)) as u16
}

/// The `u32` read from four big-endian bytes.
pub open spec fn spec_u32_from_be(s: Seq<u8>) -> u32
    recommends
        s.len() == 4,
{
    (((s[0] as u32) << 24) | ((s[1] as u32) << 16) | ((s[2] as u32) << 8) | (s[3] as u32)) as u32
}

/// The `u64` read from eight big-endian bytes.
pub open spec fn spec_u64_from_be(s: Seq<u8>) -> u64
    recommends
        s.len() == 8,
{
    (((s[0] as u64) << 56) | ((s[1] as u64) << 48) | ((s[2] as u64) << 40) | ((s[3] as u64) << 32)
        | ((s[4] as u64) << 24) | ((s[5] as u64) << 16) | ((s[6] as u64) << 8) | (s[7] as u64))
        as u64
}

/// Reading back the two big-endian bytes of a `u16` yields the `u16`,
/// and any two bytes are the encoding of the `u16` read from them.
pub proof fn lemma_u16_be_round_trip()
    ensures
        forall|x: u16| (#[trigger] spec_u16_be(x)).len() == 2,
        forall|x: u16| spec_u16_from_be(#[trigger] spec_u16_be(x)) == x,
        forall|s: Seq<u8>| s.len() == 2 ==> #[trigger] spec_u16_be(spec_u16_from_be(s)) =~= s,
{
    assert forall|x: u16| spec_u16_from_be(#[trigger] spec_u16_be(x)) == x by {
        let b0 = ((x >> 8) & 0xff) as u8;
        let b1 = (x & 0xff) as u8;
        assert((((b0 as u16) << 8) | (b1 as u16)) == x) by (bit_vector)
            requires
                b0 == ((x >> 8) & 0xff) as u8 && b1 == (x & 0xff) as u8,
        ;
    }
    assert forall|s: Seq<u8>| s.len() == 2 implies #[trigger] spec_u16_be(spec_u16_from_be(s))
        =~= s by {
        let y0 = s[0];
        let y1 = s[1];
        let x = (((y0 as u16) << 8) | (y1 as u16)) as u16;
        assert(((x >> 8) & 0xff) as u8 == y0 && (x & 0xff) as u8 == y1) by (bit_vector)
            requires
                x == (((y0 as u16) << 8) | (y1 as u16)) as u16,
        ;
    }
}

/// Reading back the four big-endian bytes of a `u32` yields the `u32`,
/// and any four bytes are the encoding of the `u32` read from them.
pub proof fn lemma_u32_be_round_trip()
    ensures
        forall|x: u32| (#[trigger] spec_u32_be(x)).len() == 4,
        forall|x: u32| spec_u32_from_be(#[trigger] spec_u32_be(x)) == x,
        forall|s: Seq<u8>| s.len() == 4 ==> #[trigger] spec_u32_be(spec_u32_from_be(s)) =~= s,
{
    assert forall|x: u32| spec_u32_from_be(#[trigger] spec_u32_be(x)) == x by {
        let b0 = ((x >> 24) & 0xff) as u8;
        let b1 = ((x >> 16) & 0xff) as u8;
        let b2 = ((x >> 8) & 0xff) as u8;
        let b3 = (x & 0xff) as u8;
        assert((((b0 as u32) << 24) | ((b1 as u32) << 16) | ((b2 as u32) << 8) | (b3 as u32))
            == x) by (bit_vector)
            requires
                b0 == ((x >> 24) & 0xff) as u8 && b1 == ((x >> 16) & 0xff) as u8 && b2 == ((x
                    >> 8) & 0xff) as u8 && b3 == (x & 0xff) as u8,
        ;
    }
    assert forall|s: Seq<u8>| s.len() == 4 implies #[trigger] spec_u32_be(spec_u32_from_be(s))
        =~= s by {
        let y0 = s[0];
        let y1 = s[1];
        let y2 = s[2];
        let y3 = s[3];
        let x = (((y0 as u32) << 24) | ((y1 as u32) << 16) | ((y2 as u32) << 8) | (y3 as u32))
            as u32;
        assert(((x >> 24) & 0xff) as u8 == y0 && ((x >> 16) & 0xff) as u8 == y1 && ((x >> 8)
            & 0xff) as u8 == y2 && (x & 0xff) as u8 == y3) by (bit_vector)
            requires
                x == (((y0 as u32) << 24) | ((y1 as u32) << 16) | ((y2 as u32) << 8) | (y3 as u32))
                    as u32,
        ;
    }
}

/// Reading back the eight big-endian bytes of a `u64` yields the `u64`,
/// and any eight bytes are the encoding of the `u64` read from them.
pub proof fn lemma_u64_be_round_trip()
    ensures
        forall|x: u64| (#[trigger] spec_u64_be(x)).len() == 8,
        forall|x: u64| spec_u64_from_be(#[trigger] spec_u64_be(x)) == x,
        forall|s: Seq<u8>| s.len() == 8 ==> #[trigger] spec_u64_be(spec_u64_from_be(s)) =~= s,
{
    assert forall|x: u64| spec_u64_from_be(#[trigger] spec_u64_be(x)) == x by {
        let b0 = ((x >> 56) & 0xff) as u8;
        let b1 = ((x >> 48) & 0xff) as u8;
        let b2 = ((x >> 40) & 0xff) as u8;
        let b3 = ((x >> 32) & 0xff) as u8;
        let b4 = ((x >> 24) & 0xff) as u8;
        let b5 = ((x >> 16) & 0xff) as u8;
        let b6 = ((x >> 8) & 0xff) as u8;
        let b7 = (x & 0xff) as u8;
        assert((((b0 as u64) << 56) | ((b1 as u64) << 48) | ((b2 as u64) << 40) | ((b3 as u64)
            << 32) | ((b4 as u64) << 24) | ((b5 as u64) << 16) | ((b6 as u64) << 8) | (b7 as u64))
            == x) by (bit_vector)
            requires
                b0 == ((x >> 56) & 0xff) as u8 && b1 == ((x >> 48) & 0xff) as u8 && b2 == ((x
                    >> 40) & 0xff) as u8 && b3 == ((x >> 32) & 0xff) as u8 && b4 == ((x >> 24)
                    & 0xff) as u8 && b5 == ((x >> 16) & 0xff) as u8 && b6 == ((x >> 8) & 0xff)
                    as u8 && b7 == (x & 0xff) as u8,
        ;
    }
    assert forall|s: Seq<u8>| s.len() == 8 implies #[trigger] spec_u64_be(spec_u64_from_be(s))
        =~= s by {
        let y0 = s[0];
        let y1 = s[1];
        let y2 = s[2];
        let y3 = s[3];
        let y4 = s[4];
        let y5 = s[5];
        let y6 = s[6];
        let y7 = s[7];
        let x = (((y0 as u64) << 56) | ((y1 as u64) << 48) | ((y2 as u64) << 40) | ((y3 as u64)
            << 32) | ((y4 as u64) << 24) | ((y5 as u64) << 16) | ((y6 as u64) << 8) | (y7 as u64))
            as u64;
        assert(((x >> 56) & 0xff) as u8 == y0 && ((x >> 48) & 0xff) as u8 == y1 && ((x >> 40)
            & 0xff) as u8 == y2 && ((x >> 32) & 0xff) as u8 == y3 && ((x >> 24) & 0xff) as u8 == y4
            && ((x >> 16) & 0xff) as u8 == y5 && ((x >> 8) & 0xff) as u8 == y6 && (x & 0xff) as u8
            == y7) by (bit_vector)
            requires
                x == (((y0 as u64) << 56) | ((y1 as u64) << 48) | ((y2 as u64) << 40) | ((y3
                    as u64) << 32) | ((y4 as u64) << 24) | ((y5 as u64) << 16) | ((y6 as u64) << 8)
                    | (y7 as u64)) as u64,
        ;
    }
}

/// Append the two big-endian bytes of `x` to `out`.
pub fn u16_to_be_bytes(x: u16, out: &mut Vec<u8>)
    ensures
        final(out)@ == old(out)@ + spec_u16_be(x),
{
    out.push(((x >> 8) & 0xff) as u8);
    out.push((x & 0xff) as u8);
    assert(out@ =~= old(out)@ + spec_u16_be(x));
}

/// Append the four big-endian bytes of `x` to `out`.
pub fn u32_to_be_bytes(x: u32, out: &mut Vec<u8>)
    ensures
        final(out)@ == old(out)@ + spec_u32_be(x),
{
    out.push(((x >> 24) & 0xff) as u8);
    out.push(((x >> 16) & 0xff) as u8);
    out.push(((x >> 8) & 0xff) as u8);
    out.push((x & 0xff) as u8);
    assert(out@ =~= old(out)@ + spec_u32_be(x));
}

/// Append the eight big-endian bytes of `x` to `out`.
pub fn u64_to_be_bytes(x: u64, out: &mut Vec<u8>)
    ensures
        final(out)@ == old(out)@ + spec_u64_be(x),
{
    out.push(((x >> 56) & 0xff) as u8);
    out.push(((x >> 48) & 0xff) as u8);
    out.push(((x >> 40) & 0xff) as u8);
    out.push(((x >> 32) & 0xff) as u8);
    out.push(((x >> 24) & 0xff) as u8);
    out.push(((x >> 16) & 0xff) as u8);
    out.push(((x >> 8) & 0xff) as u8);
    out.push((x & 0xff) as u8);
    assert(out@ =~= old(out)@ + spec_u64_be(x));
}

/// Read a `u16` from the two big-endian bytes at `pos`.
pub fn u16_from_be_bytes(buf: &[u8], pos: usize) -> (x: u16)
    requires
        pos + 2 <= buf@.len(),
    ensures
        x == spec_u16_from_be(buf@.subrange(pos as int, pos + 2)),
{
    let b0 = buf[pos];
    let b1 = buf[pos + 1];
    let s = Ghost(buf@.subrange(pos as int, pos + 2));
    assert(s@[0] == b0 && s@[1] == b1);
    ((b0 as u16) << 8) | (b1 as u16)
}

/// Read a `u32` from the four big-endian bytes at `pos`.
pub fn u32_from_be_bytes(buf: &[u8], pos: usize) -> (x: u32)
    requires
        pos + 4 <= buf@.len(),
    ensures
        x == spec_u32_from_be(buf@.subrange(pos as int, pos + 4)),
{
    let b0 = buf[pos];
    let b1 = buf[pos + 1];
    let b2 = buf[pos + 2];
    let b3 = buf[pos + 3];
    let s = Ghost(buf@.subrange(pos as int, pos + 4));
    assert(s@[0] == b0 && s@[1] == b1 && s@[2] == b2 && s@[3] == b3);
    ((b0 as u32) << 24) | ((b1 as u32) << 16) | ((b2 as u32) << 8) | (b3 as u32)
}

/// Read a `u64` from the eight big-endian bytes at `pos`.
pub fn u64_from_be_bytes(buf: &[u8], pos: usize) -> (x: u64)
    requires
        pos + 8 <= buf@.len(),
    ensures
        x == spec_u64_from_be(buf@.subrange(pos as int, pos + 8)),
{
    let b0 = buf[pos];
    let b1 = buf[pos + 1];
    let b2 = buf[pos + 2];
    let b3 = buf[pos + 3];
    let b4 = buf[pos + 4];
    let b5 = buf[pos + 5];
    let b6 = buf[pos + 6];
    let b7 = buf[pos + 7];
    let s = Ghost(buf@.subrange(pos as int, pos + 8));
    assert(s@[0] == b0 && s@[1] == b1 && s@[2] == b2 && s@[3] == b3 && s@[4] == b4 && s@[5] == b5
        && s@[6] == b6 && s@[7] == b7);
    ((b0 as u64) << 56) | ((b1 as u64) << 48) | ((b2 as u64) << 40) | ((b3 as u64) << 32) | ((b4
        as u64) << 24) | ((b5 as u64) << 16) | ((b6 as u64) << 8) | (b7 as u64)
}

} // verus!
