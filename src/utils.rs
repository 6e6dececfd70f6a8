use vstd::arithmetic::div_mod::lemma_fundamental_div_mod_converse;
use vstd::prelude::*;

verus! {

/// The big-endian unsigned integer held by the first four bytes of `b`.
pub open spec fn be_u32(b: Seq<u8>) -> u32
    recommends
        b.len() >= 4,
{
    (b[0] as int * 0x1000000 + b[1] as int * 0x10000 + b[2] as int * 0x100 + b[3] as int) as u32
}

/// The four big-endian bytes of `x`.
pub open spec fn u32_be_bytes(x: u32) -> Seq<u8> {
    seq![
        (x / 0x1000000) as u8,
        ((x / 0x10000) % 0x100) as u8,
        ((x / 0x100) % 0x100) as u8,
        (x % 0x100) as u8,
    ]
}

/// Reading back the bytes that `u32_be_bytes` wrote gives the integer again.
pub proof fn lemma_be_u32_round_trip(x: u32)
    ensures
        u32_be_bytes(x).len() == 4,
        be_u32(u32_be_bytes(x)) == x,
{
    let b = u32_be_bytes(x);
    assert(b[0] as int == x / 0x1000000);
    assert(b[1] as int == (x / 0x10000) % 0x100);
    assert(b[2] as int == (x / 0x100) % 0x100);
    assert(b[3] as int == x % 0x100);
    assert(x as int == (x / 0x1000000) * 0x1000000 + ((x / 0x10000) % 0x100) * 0x10000
        + ((x / 0x100) % 0x100) * 0x100 + x % 0x100) by (nonlinear_arith);
}

/// Writing back the integer that four bytes hold gives those bytes again.
pub proof fn lemma_be_bytes_round_trip(b: Seq<u8>)
    requires
        b.len() >= 4,
    ensures
        u32_be_bytes(be_u32(b)) == b.subrange(0, 4),
{
    let b0 = b[0] as int;
    let b1 = b[1] as int;
    let b2 = b[2] as int;
    let b3 = b[3] as int;
    let x = b0 * 0x1000000 + b1 * 0x10000 + b2 * 0x100 + b3;
    assert(0 <= x <= u32::MAX);
    assert(be_u32(b) as int == x);
    lemma_fundamental_div_mod_converse(x, 0x1000000, b0, b1 * 0x10000 + b2 * 0x100 + b3);
    lemma_fundamental_div_mod_converse(x, 0x10000, b0 * 0x100 + b1, b2 * 0x100 + b3);
    lemma_fundamental_div_mod_converse(b0 * 0x100 + b1, 0x100, b0, b1);
    lemma_fundamental_div_mod_converse(x, 0x100, b0 * 0x10000 + b1 * 0x100 + b2, b3);
    lemma_fundamental_div_mod_converse(b0 * 0x10000 + b1 * 0x100 + b2, 0x100, b0 * 0x100 + b1, b2);
    assert(u32_be_bytes(be_u32(b)) =~= b.subrange(0, 4));
}

/// Reads the big-endian `u32` held by the first four bytes of `input`.
pub fn read_be_u32(input: &[u8]) -> (r: u32)
    requires
        input@.len() >= 4,
    ensures
        r == be_u32(input@),
{
    let r: u32 = (input[0] as u32) * 0x1000000 + (input[1] as u32) * 0x10000
        + (input[2] as u32) * 0x100 + (input[3] as u32);
    r
}

/// Writes `x` as four big-endian bytes.
pub fn write_be_u32(x: u32) -> (r: [u8; 4])
    ensures
        r@ == u32_be_bytes(x),
{
    let r: [u8; 4] = [
        (x / 0x1000000) as u8,
        ((x / 0x10000) % 0x100) as u8,
        ((x / 0x100) % 0x100) as u8,
        (x % 0x100) as u8,
    ];
    assert(r@ =~= u32_be_bytes(x));
    r
}

} // verus!
