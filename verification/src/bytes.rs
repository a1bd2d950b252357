use vstd::prelude::*;

verus! {

/// The big-endian 16-bit number stored at `s[i..i + 2]`.
pub open spec fn be_u16_at(s: Seq<u8>, i: int) -> int {
    s[i] * 256 + s[i + 1]
}

/// The big-endian 32-bit number stored at `s[i..i + 4]`.
pub open spec fn be_u32_at(s: Seq<u8>, i: int) -> int {
    s[i] * 16777216 + s[i + 1] * 65536 + s[i + 2] * 256 + s[i + 3]
}

/// The big-endian 64-bit number stored at `s[i..i + 8]`.
pub open spec fn be_u64_at(s: Seq<u8>, i: int) -> int {
    be_u32_at(s, i) * 4294967296 + be_u32_at(s, i + 4)
}

/// The four bytes of `v` in big-endian order.
pub open spec fn u32_be_bytes(v: u32) -> Seq<u8> {
    seq![(v >> 24) as u8, (v >> 16) as u8, (v >> 8) as u8, v as u8]
}

/// The eight bytes of `v` in big-endian order.
pub open spec fn u64_be_bytes(v: u64) -> Seq<u8> {
    u32_be_bytes((v >> 32) as u32) + u32_be_bytes(v as u32)
}

/// `s` with `bytes` written over it from position `pos` on.
pub open spec fn write_bytes(s: Seq<u8>, pos: int, bytes: Seq<u8>) -> Seq<u8> {
    Seq::new(
        s.len(),
        |i: int|
            if pos <= i < pos + bytes.len() {
                bytes[i - pos]
            } else {
                s[i]
            },
    )
}

pub fn read_be_u16(s: &[u8], i: usize) -> (res: u16)
    requires
        i + 2 <= s@.len(),
    ensures
        res as int == be_u16_at(s@, i as int),
{
    (s[i] as u16) * 256 + (s[i + 1] as u16)
}

pub fn read_be_u32(s: &[u8], i: usize) -> (res: u32)
    requires
        i + 4 <= s@.len(),
    ensures
        res as int == be_u32_at(s@, i as int),
{
    (s[i] as u32) * 16777216 + (s[i + 1] as u32) * 65536 + (s[i + 2] as u32) * 256 + (
    s[i + 3] as u32)
}

pub fn read_be_u64(s: &[u8], i: usize) -> (res: u64)
    requires
        i + 8 <= s@.len(),
    ensures
        res as int == be_u64_at(s@, i as int),
{
    assert(s@.len() == s.len());
    let hi = read_be_u32(s, i) as u64;
    let lo = read_be_u32(s, i + 4) as u64;
    hi * 4294967296 + lo
}

pub fn write_be_u32(s: &mut [u8], pos: usize, v: u32)
    requires
        pos + 4 <= old(s)@.len(),
    ensures
        final(s)@ == write_bytes(old(s)@, pos as int, u32_be_bytes(v)),
{
    s[pos] = (v >> 24) as u8;
    s[pos + 1] = (v >> 16) as u8;
    s[pos + 2] = (v >> 8) as u8;
    s[pos + 3] = v as u8;
    assert(s@ =~= write_bytes(old(s)@, pos as int, u32_be_bytes(v)));
}

pub fn write_be_u64(s: &mut [u8], pos: usize, v: u64)
    requires
        pos + 8 <= old(s)@.len(),
    ensures
        final(s)@ == write_bytes(old(s)@, pos as int, u64_be_bytes(v)),
{
    assert(s@.len() == s.len());
    write_be_u32(s, pos, #[verifier::truncate] ((v >> 32) as u32));
    write_be_u32(s, pos + 4, #[verifier::truncate] (v as u32));
    assert(s@ =~= write_bytes(old(s)@, pos as int, u64_be_bytes(v)));
}

/// Reading back a 32-bit number gives what was written.
pub proof fn lemma_u32_round_trip(s: Seq<u8>, pos: int, v: u32)
    requires
        0 <= pos,
        pos + 4 <= s.len(),
    ensures
        be_u32_at(write_bytes(s, pos, u32_be_bytes(v)), pos) == v,
{
    let t = write_bytes(s, pos, u32_be_bytes(v));
    assert(t[pos] == (v >> 24) as u8);
    assert(t[pos + 1] == (v >> 16) as u8);
    assert(t[pos + 2] == (v >> 8) as u8);
    assert(t[pos + 3] == v as u8);
    assert(((v >> 24) as u8) as int * 16777216 + ((v >> 16) as u8) as int * 65536 + ((v >> 8) as u8) as int * 256
        + (v as u8) as int == v as int) by (bit_vector);
}

/// Reading back a 64-bit number gives what was written.
pub proof fn lemma_u64_round_trip(s: Seq<u8>, pos: int, v: u64)
    requires
        0 <= pos,
        pos + 8 <= s.len(),
    ensures
        be_u64_at(write_bytes(s, pos, u64_be_bytes(v)), pos) == v,
{
    let t = write_bytes(s, pos, u64_be_bytes(v));
    let hi = (v >> 32) as u32;
    let lo = v as u32;
    let t1 = write_bytes(s, pos, u32_be_bytes(hi));
    let t2 = write_bytes(t1, pos + 4, u32_be_bytes(lo));
    assert(t =~= t2);
    lemma_u32_round_trip(s, pos, hi);
    lemma_u32_round_trip(t1, pos + 4, lo);
    assert(be_u32_at(t2, pos) == be_u32_at(t1, pos));
    assert(hi as int * 4294967296 + lo as int == v as int) by (bit_vector)
        requires hi == (v >> 32) as u32, lo == v as u32;
}

} // verus!
