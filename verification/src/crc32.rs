//! CRC-32 (IEEE 802.3: reflected polynomial 0xEDB88320, initial value and
//! final XOR 0xFFFFFFFF), the checksum of broadcast messages.

use vstd::prelude::*;

verus! {

/// One bit of polynomial division: shift right, and XOR in the polynomial
/// where the bit shifted out is 1.
pub open spec fn crc_bit(c: u32) -> u32 {
    if c & 1 == 1 {
        (c >> 1) ^ 0xEDB8_8320
    } else {
        c >> 1
    }
}

/// `n` bits of polynomial division.
pub open spec fn crc_bits(c: u32, n: nat) -> u32
    decreases n,
{
    if n == 0 {
        c
    } else {
        crc_bits(crc_bit(c), (n - 1) as nat)
    }
}

/// The running remainder after one more byte, least significant bit first.
pub open spec fn crc_byte(c: u32, b: u8) -> u32 {
    crc_bits(c ^ (b as u32), 8)
}

/// The running remainder after `data`, from `c`.
pub open spec fn crc_update(c: u32, data: Seq<u8>) -> u32
    decreases data.len(),
{
    if data.len() == 0 {
        c
    } else {
        crc_update(crc_byte(c, data[0]), data.drop_first())
    }
}

/// The CRC-32 of `data`.
pub open spec fn spec_crc32(data: Seq<u8>) -> u32 {
    crc_update(0xFFFF_FFFF, data) ^ 0xFFFF_FFFF
}

/// The big-endian bytes of a `u32`.
pub open spec fn u32_be_bytes(x: u32) -> Seq<u8> {
    seq![(x >> 24) as u8, (x >> 16) as u8, (x >> 8) as u8, x as u8]
}

/// One step of the division loses nothing: distinct remainders stay
/// distinct (the bit shifted out reappears as the top bit through the
/// polynomial's top bit).
proof fn lemma_crc_bit_injective(a: u32, b: u32)
    ensures
        crc_bit(a) == crc_bit(b) ==> a == b,
{
    assert((if a & 1 == 1 { (a >> 1) ^ 0xEDB8_8320u32 } else { a >> 1 }) == (if b & 1 == 1 {
        (b >> 1) ^ 0xEDB8_8320u32
    } else {
        b >> 1
    }) ==> a == b) by (bit_vector);
}

proof fn lemma_crc_bits_injective(a: u32, b: u32, n: nat)
    ensures
        crc_bits(a, n) == crc_bits(b, n) ==> a == b,
    decreases n,
{
    if n > 0 {
        lemma_crc_bits_injective(crc_bit(a), crc_bit(b), (n - 1) as nat);
        lemma_crc_bit_injective(a, b);
    }
}

/// A byte step is one-to-one in the remainder and in the byte.
proof fn lemma_crc_byte_injective(c1: u32, c2: u32, x: u8, y: u8)
    ensures
        crc_byte(c1, x) == crc_byte(c2, y) ==> (c1 ^ (x as u32)) == (c2 ^ (y as u32)),
        crc_byte(c1, x) == crc_byte(c2, x) ==> c1 == c2,
        crc_byte(c1, x) == crc_byte(c1, y) ==> x == y,
{
    lemma_crc_bits_injective(c1 ^ (x as u32), c2 ^ (y as u32), 8);
    lemma_crc_bits_injective(c1 ^ (x as u32), c2 ^ (x as u32), 8);
    lemma_crc_bits_injective(c1 ^ (x as u32), c1 ^ (y as u32), 8);
    assert((c1 ^ (x as u32)) == (c2 ^ (x as u32)) ==> c1 == c2) by (bit_vector);
    assert((c1 ^ (x as u32)) == (c1 ^ (y as u32)) ==> x == y) by (bit_vector);
}

/// The remainder after `a + b` is the remainder after `b` from the remainder
/// after `a`: the checksum runs over the data as a stream.
pub proof fn lemma_crc_update_concat(c: u32, a: Seq<u8>, b: Seq<u8>)
    ensures
        crc_update(c, a + b) == crc_update(crc_update(c, a), b),
    decreases a.len(),
{
    if a.len() == 0 {
        assert(a + b =~= b);
    } else {
        assert((a + b).drop_first() =~= a.drop_first() + b);
        assert((a + b)[0] == a[0]);
        lemma_crc_update_concat(crc_byte(c, a[0]), a.drop_first(), b);
    }
}

/// Running the same data from two remainders keeps them apart.
proof fn lemma_crc_update_injective(c1: u32, c2: u32, b: Seq<u8>)
    ensures
        crc_update(c1, b) == crc_update(c2, b) ==> c1 == c2,
    decreases b.len(),
{
    if b.len() > 0 {
        lemma_crc_update_injective(crc_byte(c1, b[0]), crc_byte(c2, b[0]), b.drop_first());
        lemma_crc_byte_injective(c1, c2, b[0], b[0]);
    }
}

/// The checksum of data one byte longer: one more step of the division from
/// the checksum of the shorter data.
pub proof fn lemma_crc32_push(m: Seq<u8>, x: u8)
    ensures
        spec_crc32(m.push(x)) == crc_byte(spec_crc32(m) ^ 0xFFFF_FFFF, x) ^ 0xFFFF_FFFF,
{
    let c = crc_update(0xFFFF_FFFF, m);
    lemma_crc_update_concat(0xFFFF_FFFF, m, seq![x]);
    assert(m.push(x) =~= m + seq![x]);
    assert(seq![x].drop_first() =~= Seq::<u8>::empty());
    assert(crc_update(crc_byte(c, x), Seq::<u8>::empty()) == crc_byte(c, x));
    assert(crc_update(c, seq![x]) == crc_byte(c, x));
    assert((c ^ 0xFFFF_FFFF) ^ 0xFFFF_FFFF == c) by (bit_vector);
}

/// The checksum covers every byte: changing any one byte of the data, at any
/// position, changes the checksum.
pub proof fn lemma_crc32_detects_byte_change(a: Seq<u8>, x: u8, y: u8, b: Seq<u8>)
    requires
        x != y,
    ensures
        spec_crc32(a.push(x) + b) != spec_crc32(a.push(y) + b),
{
    let c = crc_update(0xFFFF_FFFF, a);
    lemma_crc_update_concat(0xFFFF_FFFF, a.push(x), b);
    lemma_crc_update_concat(0xFFFF_FFFF, a.push(y), b);
    lemma_crc_update_concat(0xFFFF_FFFF, a, seq![x]);
    lemma_crc_update_concat(0xFFFF_FFFF, a, seq![y]);
    assert(a.push(x) =~= a + seq![x]);
    assert(a.push(y) =~= a + seq![y]);
    assert(seq![x].drop_first() =~= Seq::<u8>::empty());
    assert(seq![y].drop_first() =~= Seq::<u8>::empty());
    assert(crc_update(crc_byte(c, x), Seq::<u8>::empty()) == crc_byte(c, x));
    assert(crc_update(c, seq![x]) == crc_byte(c, x));
    assert(crc_update(crc_byte(c, y), Seq::<u8>::empty()) == crc_byte(c, y));
    assert(crc_update(c, seq![y]) == crc_byte(c, y));
    lemma_crc_byte_injective(c, c, x, y);
    lemma_crc_update_injective(crc_byte(c, x), crc_byte(c, y), b);
    let u = crc_update(crc_byte(c, x), b);
    let v = crc_update(crc_byte(c, y), b);
    assert(u != v ==> (u ^ 0xFFFF_FFFF) != (v ^ 0xFFFF_FFFF)) by (bit_vector);
}

/// Runs one byte through the division.
fn crc_step(c: u32, b: u8) -> (res: u32)
    ensures
        res == crc_byte(c, b),
{
    let mut r: u32 = c ^ (b as u32);
    let mut i: u32 = 0;
    while i < 8
        invariant
            i <= 8,
            crc_bits(r, (8 - i) as nat) == crc_byte(c, b),
        decreases 8 - i,
    {
        if r & 1 == 1 {
            r = (r >> 1) ^ 0xEDB8_8320;
        } else {
            r = r >> 1;
        }
        i = i + 1;
    }
    r
}

/// The CRC-32 of `data`.
pub fn crc32(data: &[u8]) -> (res: u32)
    ensures
        res == spec_crc32(data@),
{
    let mut c: u32 = 0xFFFF_FFFF;
    let mut i: usize = 0;
    assert(data@.skip(0) =~= data@);
    while i < data.len()
        invariant
            i <= data@.len(),
            crc_update(0xFFFF_FFFF, data@) == crc_update(c, data@.skip(i as int)),
        decreases data@.len() - i,
    {
        assert(data@.skip(i as int).drop_first() =~= data@.skip(i + 1));
        c = crc_step(c, data[i]);
        i = i + 1;
    }
    c ^ 0xFFFF_FFFF
}

/// Appends the big-endian bytes of `x` to `out`.
pub fn push_u32_be(out: &mut Vec<u8>, x: u32)
    ensures
        final(out)@ == old(out)@ + u32_be_bytes(x),
{
    out.push((x >> 24) as u8);
    out.push((x >> 16) as u8);
    out.push((x >> 8) as u8);
    out.push(x as u8);
    assert(final(out)@ =~= old(out)@ + u32_be_bytes(x));
}

/// The `u32` of four big-endian bytes.
pub open spec fn be_u32(b0: u8, b1: u8, b2: u8, b3: u8) -> u32 {
    ((b0 as u32) << 24) | ((b1 as u32) << 16) | ((b2 as u32) << 8) | (b3 as u32)
}

/// Reading back the big-endian bytes of a `u32` gives it.
pub proof fn lemma_be_u32_roundtrip(x: u32)
    ensures
        be_u32((x >> 24) as u8, (x >> 16) as u8, (x >> 8) as u8, x as u8) == x,
{
    assert(((((x >> 24) as u8) as u32) << 24) | ((((x >> 16) as u8) as u32) << 16) | ((((x
        >> 8) as u8) as u32) << 8) | (((x as u8) as u32)) == x) by (bit_vector);
}

/// The big-endian bytes of the `u32` of four bytes are those bytes.
pub proof fn lemma_be_bytes_of_be_u32(b0: u8, b1: u8, b2: u8, b3: u8)
    ensures
        (be_u32(b0, b1, b2, b3) >> 24) as u8 == b0,
        (be_u32(b0, b1, b2, b3) >> 16) as u8 == b1,
        (be_u32(b0, b1, b2, b3) >> 8) as u8 == b2,
        be_u32(b0, b1, b2, b3) as u8 == b3,
{
    assert(((((b0 as u32) << 24) | ((b1 as u32) << 16) | ((b2 as u32) << 8) | (b3 as u32)) >> 24)
        as u8 == b0) by (bit_vector);
    assert(((((b0 as u32) << 24) | ((b1 as u32) << 16) | ((b2 as u32) << 8) | (b3 as u32)) >> 16)
        as u8 == b1) by (bit_vector);
    assert(((((b0 as u32) << 24) | ((b1 as u32) << 16) | ((b2 as u32) << 8) | (b3 as u32)) >> 8)
        as u8 == b2) by (bit_vector);
    assert((((b0 as u32) << 24) | ((b1 as u32) << 16) | ((b2 as u32) << 8) | (b3 as u32)) as u8
        == b3) by (bit_vector);
}

/// The `u32` of the four big-endian bytes at `pos`.
pub fn read_u32_be(bytes: &[u8], pos: usize) -> (res: u32)
    requires
        pos + 4 <= bytes@.len(),
    ensures
        res == be_u32(bytes@[pos as int], bytes@[pos + 1], bytes@[pos + 2], bytes@[pos + 3]),
{
    ((bytes[pos] as u32) << 24) | ((bytes[pos + 1] as u32) << 16) | ((bytes[pos + 2] as u32) << 8)
        | (bytes[pos + 3] as u32)
}

} // verus!
