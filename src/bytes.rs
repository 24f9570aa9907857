use vstd::prelude::*;

verus! {

/// The unsigned value of four bytes read big-endian.
pub open spec fn be_u32(b: Seq<u8>) -> int {
    b[0] as int * 16777216 + b[1] as int * 65536 + b[2] as int * 256 + b[3] as int
}

/// The four big-endian bytes of a `u32`.
pub open spec fn u32_be(x: u32) -> Seq<u8> {
    seq![(x / 16777216) as u8, ((x / 65536) % 256) as u8, ((x / 256) % 256) as u8, (x % 256) as u8]
}

/// Reading back the bytes of a `u32` gives the `u32`.
pub proof fn lemma_be_round_trip(x: u32)
    ensures
        u32_be(x).len() == 4,
        be_u32(u32_be(x)) == x as int,
{
    let b = u32_be(x);
    assert(b[0] as int == x as int / 16777216);
    assert(b[1] as int == (x as int / 65536) % 256);
    assert(b[2] as int == (x as int / 256) % 256);
    assert(b[3] as int == x as int % 256);
    assert(be_u32(b) == x as int) by (nonlinear_arith)
        requires
            b[0] as int == x as int / 16777216,
            b[1] as int == (x as int / 65536) % 256,
            b[2] as int == (x as int / 256) % 256,
            b[3] as int == x as int % 256,
            0 <= x as int,
    ;
}

/// Reads the big-endian `u32` at `at`.
pub fn read_be_u32(bytes: &[u8], at: usize) -> (r: u32)
    requires
        at + 4 <= bytes@.len(),
    ensures
        r as int == be_u32(bytes@.subrange(at as int, at + 4)),
{
    let b0 = bytes[at] as u32;
    let b1 = bytes[at + 1] as u32;
    let b2 = bytes[at + 2] as u32;
    let b3 = bytes[at + 3] as u32;
    b0 * 16777216 + b1 * 65536 + b2 * 256 + b3
}

/// The big-endian bytes of `x`.
pub fn to_be_bytes(x: u32) -> (r: [u8; 4])
    ensures
        r@ == u32_be(x),
{
    let r: [u8; 4] = [(x / 16777216) as u8, ((x / 65536) % 256) as u8, ((x / 256) % 256) as u8, (x % 256) as u8];
    assert(r@ =~= u32_be(x));
    r
}

} // verus!
