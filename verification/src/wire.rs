//! The protocol-buffer wire format of the node's messages and stored
//! configuration: base-128 varints, field tags, and length-delimited fields.

use vstd::prelude::*;

verus! {

/// The largest value a varint may carry.
pub open spec fn u64_max() -> nat {
    0xffff_ffff_ffff_ffff
}

/// `128` to the power `k`.
pub open spec fn pow128(k: nat) -> nat
    decreases k,
{
    if k == 0 {
        1
    } else {
        128 * pow128((k - 1) as nat)
    }
}

/// The varint encoding of `v`: seven bits per byte, least significant group
/// first, the high bit set on every byte but the last.
pub open spec fn spec_varint(v: nat) -> Seq<u8>
    decreases v,
{
    if v < 128 {
        seq![v as u8]
    } else {
        seq![(v % 128 + 128) as u8] + spec_varint(v / 128)
    }
}

/// Reads a varint of at most `fuel` bytes from the front of `s`: its value
/// and the number of bytes it takes.
pub open spec fn read_varint_bytes(s: Seq<u8>, fuel: nat) -> Option<(nat, nat)>
    decreases fuel,
{
    if fuel == 0 || s.len() == 0 {
        None
    } else if s[0] < 128 {
        Some((s[0] as nat, 1))
    } else {
        match read_varint_bytes(s.drop_first(), (fuel - 1) as nat) {
            Some((v, n)) => Some((((s[0] - 128) + 128 * v) as nat, n + 1)),
            None => None,
        }
    }
}

/// The varint at the front of `s`, as a reader of 64-bit varints takes it:
/// at most 10 bytes, and a value that fits in 64 bits.
pub open spec fn spec_read_varint(s: Seq<u8>) -> Option<(nat, nat)> {
    match read_varint_bytes(s, 10) {
        Some((v, n)) => if v <= u64_max() {
            Some((v, n))
        } else {
            None
        },
        None => None,
    }
}

proof fn lemma_read_varint_bytes_bounds(s: Seq<u8>, fuel: nat)
    ensures
        read_varint_bytes(s, fuel) matches Some((v, n)) ==> 1 <= n <= fuel && n <= s.len() && v
            < pow128(n),
    decreases fuel,
{
    if fuel > 0 && s.len() > 0 {
        if s[0] < 128 {
            assert(pow128(1) == 128 * pow128(0));
            assert(pow128(0) == 1);
        } else {
            lemma_read_varint_bytes_bounds(s.drop_first(), (fuel - 1) as nat);
            if let Some((v1, n1)) = read_varint_bytes(s.drop_first(), (fuel - 1) as nat) {
                assert(pow128(n1 + 1) == 128 * pow128(n1));
                assert((s[0] - 128) + 128 * v1 < pow128(n1 + 1));
            }
        }
    }
}

proof fn lemma_pow128_mono(a: nat, b: nat)
    requires
        a <= b,
    ensures
        pow128(a) <= pow128(b),
    decreases b,
{
    if a < b {
        lemma_pow128_mono(a, (b - 1) as nat);
    }
}

proof fn lemma_varint_len(v: nat, k: nat)
    requires
        v < pow128(k),
        k >= 1,
    ensures
        1 <= spec_varint(v).len() <= k,
    decreases v,
{
    if v >= 128 {
        assert(spec_varint(v) == seq![(v % 128 + 128) as u8] + spec_varint(v / 128));
        if k == 1 {
            assert(pow128(1) == 128 * pow128(0));
            assert(pow128(0) == 1);
        }
        assert(pow128(k) == 128 * pow128((k - 1) as nat));
        assert(v / 128 < pow128((k - 1) as nat));
        lemma_varint_len(v / 128, (k - 1) as nat);
    }
}

/// `pow128(9)` and `pow128(10)`.
proof fn lemma_pow128_values()
    ensures
        pow128(9) == 0x8000_0000_0000_0000,
        pow128(10) == 0x40_0000_0000_0000_0000,
{
    assert(pow128(0) == 1);
    assert(pow128(1) == 0x80);
    assert(pow128(2) == 0x4000);
    assert(pow128(3) == 0x20_0000);
    assert(pow128(4) == 0x1000_0000);
    assert(pow128(5) == 0x8_0000_0000);
    assert(pow128(6) == 0x400_0000_0000);
    assert(pow128(7) == 0x2_0000_0000_0000);
    assert(pow128(8) == 0x100_0000_0000_0000);
    assert(pow128(9) == 0x8000_0000_0000_0000);
    assert(pow128(10) == 0x40_0000_0000_0000_0000);
}

/// Reading the encoding of `v`, with anything after it, gives `v` and the
/// encoding's length, within any fuel at least that length.
proof fn lemma_read_varint_bytes_of_encoding(v: nat, rest: Seq<u8>, fuel: nat)
    requires
        spec_varint(v).len() <= fuel,
    ensures
        read_varint_bytes(spec_varint(v) + rest, fuel) == Some((v, spec_varint(v).len())),
    decreases v,
{
    let s = spec_varint(v) + rest;
    if v < 128 {
        assert(s[0] == v as u8);
    } else {
        let t = spec_varint(v / 128);
        assert(s.drop_first() =~= t + rest);
        lemma_read_varint_bytes_of_encoding(v / 128, rest, (fuel - 1) as nat);
        assert(s[0] == (v % 128 + 128) as u8);
    }
}

/// A varint reader gives back what the encoder wrote, whatever follows it.
pub proof fn lemma_varint_roundtrip(v: nat, rest: Seq<u8>)
    requires
        v <= u64_max(),
    ensures
        spec_read_varint(spec_varint(v) + rest) == Some((v, spec_varint(v).len())),
        1 <= spec_varint(v).len() <= 10,
{
    lemma_pow128_values();
    lemma_varint_len(v, 10);
    lemma_read_varint_bytes_of_encoding(v, rest, 10);
}

/// Appends the varint encoding of `v` to `out`.
pub fn write_varint(out: &mut Vec<u8>, v: u64)
    ensures
        final(out)@ == old(out)@ + spec_varint(v as nat),
{
    let mut x: u64 = v;
    while x >= 128
        invariant
            old(out)@ + spec_varint(v as nat) == out@ + spec_varint(x as nat),
        decreases x,
    {
        let ghost prev = out@;
        out.push((x % 128 + 128) as u8);
        assert(spec_varint(x as nat) == seq![(x % 128 + 128) as u8] + spec_varint((x / 128) as nat));
        assert(prev + spec_varint(x as nat) =~= out@ + spec_varint((x / 128) as nat));
        x = x / 128;
    }
    let ghost prev = out@;
    out.push(x as u8);
    assert(prev + spec_varint(x as nat) =~= out@);
}

/// Reads a varint of at most `fuel` bytes at `pos`; the value and the
/// number of bytes it takes.
fn read_varint_fuel(buf: &[u8], pos: usize, fuel: usize) -> (res: Option<(u128, usize)>)
    requires
        pos <= buf@.len(),
        fuel <= 10,
    ensures
        match read_varint_bytes(buf@.skip(pos as int), fuel as nat) {
            Some((v, n)) => res == Some((v as u128, n as usize)),
            None => res is None,
        },
        res matches Some((v, n)) ==> 1 <= n <= fuel && n <= buf@.len() - pos && v < pow128(
            n as nat,
        ),
    decreases fuel,
{
    proof {
        lemma_read_varint_bytes_bounds(buf@.skip(pos as int), fuel as nat);
    }
    if fuel == 0 || pos == buf.len() {
        return None;
    }
    let b: u8 = buf[pos];
    if b < 128 {
        return Some((b as u128, 1));
    }
    assert(buf@.skip(pos as int).drop_first() =~= buf@.skip(pos + 1));
    match read_varint_fuel(buf, pos + 1, fuel - 1) {
        Some((v, n)) => {
            proof {
                lemma_read_varint_bytes_bounds(buf@.skip(pos + 1), (fuel - 1) as nat);
                lemma_pow128_mono(n as nat, 9);
                lemma_pow128_values();
            }
            Some(((b - 128) as u128 + 128 * v, n + 1))
        },
        None => None,
    }
}

/// Reads the 64-bit varint at `pos`: its value and the position after it.
pub fn read_varint(buf: &[u8], pos: usize) -> (res: Option<(u64, usize)>)
    requires
        pos <= buf@.len(),
    ensures
        res is None <==> spec_read_varint(buf@.skip(pos as int)) is None,
        res matches Some((v, next)) ==> pos < next <= buf@.len() && spec_read_varint(
            buf@.skip(pos as int),
        ) == Some((v as nat, (next - pos) as nat)),
{
    proof {
        lemma_read_varint_bytes_bounds(buf@.skip(pos as int), 10);
        lemma_pow128_values();
        if let Some((v, n)) = read_varint_bytes(buf@.skip(pos as int), 10) {
            lemma_pow128_mono(n, 10);
        }
    }
    let r = read_varint_fuel(buf, pos, 10);
    match r {
        Some((v, n)) => {
            assert(n <= buf.len() - pos);
            if v <= 0xffff_ffff_ffff_ffff {
                Some((v as u64, pos + n))
            } else {
                None
            }
        },
        None => None,
    }
}

// ---------------------------------------------------------------------------
// Fields

/// A field's value as the wire carries it.
pub enum WireValue {
    /// Wire type 0.
    Varint(nat),
    /// Wire type 1: eight bytes, not interpreted.
    Fixed64,
    /// Wire type 2: a length and that many bytes.
    LenDelim(Seq<u8>),
    /// Wire type 5: four bytes, not interpreted.
    Fixed32,
}

/// The field at the front of `s`: its number, its value, and the number of
/// bytes it takes. Field number 0 and wire types other than 0, 1, 2 and 5
/// are refused, as is a field that runs past the end of `s`.
pub open spec fn spec_read_field(s: Seq<u8>) -> Option<(nat, WireValue, nat)> {
    match spec_read_varint(s) {
        None => None,
        Some((tag, n1)) => {
            let field: nat = tag / 8;
            let wire_type: nat = tag % 8;
            let r = s.skip(n1 as int);
            if field == 0 {
                None
            } else if wire_type == 0 {
                match spec_read_varint(r) {
                    Some((v, n2)) => Some((field, WireValue::Varint(v), n1 + n2)),
                    None => None,
                }
            } else if wire_type == 1 {
                if r.len() >= 8 {
                    Some((field, WireValue::Fixed64, n1 + 8))
                } else {
                    None
                }
            } else if wire_type == 2 {
                match spec_read_varint(r) {
                    Some((len, n2)) => if n2 + len <= r.len() {
                        Some(
                            (
                                field,
                                WireValue::LenDelim(r.subrange(n2 as int, (n2 + len) as int)),
                                n1 + n2 + len,
                            ),
                        )
                    } else {
                        None
                    },
                    None => None,
                }
            } else if wire_type == 5 {
                if r.len() >= 4 {
                    Some((field, WireValue::Fixed32, n1 + 4))
                } else {
                    None
                }
            } else {
                None
            }
        },
    }
}

/// A length-delimited field: tag (wire type 2), length, bytes.
pub open spec fn spec_len_field(field: nat, bytes: Seq<u8>) -> Seq<u8> {
    spec_varint(field * 8 + 2) + spec_varint(bytes.len()) + bytes
}

/// A varint field: tag (wire type 0), value.
pub open spec fn spec_varint_field(field: nat, v: nat) -> Seq<u8> {
    spec_varint(field * 8) + spec_varint(v)
}

/// A length-delimited field reads back as the field and bytes it was made of.
pub proof fn lemma_len_field_roundtrip(field: nat, bytes: Seq<u8>, rest: Seq<u8>)
    requires
        1 <= field,
        field * 8 + 2 <= u64_max(),
        bytes.len() <= u64_max(),
    ensures
        spec_read_field(spec_len_field(field, bytes) + rest) == Some(
            (field, WireValue::LenDelim(bytes), spec_len_field(field, bytes).len()),
        ),
{
    let t = spec_varint(field * 8 + 2);
    let l = spec_varint(bytes.len());
    let s = spec_len_field(field, bytes) + rest;
    assert(s =~= t + (l + bytes + rest));
    lemma_varint_roundtrip(field * 8 + 2, l + bytes + rest);
    assert((field * 8 + 2) / 8 == field && (field * 8 + 2) % 8 == 2);
    let r = s.skip(t.len() as int);
    assert(r =~= l + (bytes + rest));
    lemma_varint_roundtrip(bytes.len(), bytes + rest);
    assert(r.subrange(l.len() as int, (l.len() + bytes.len()) as int) =~= bytes);
}

/// A varint field reads back as the field and value it was made of.
pub proof fn lemma_varint_field_roundtrip(field: nat, v: nat, rest: Seq<u8>)
    requires
        1 <= field,
        field * 8 <= u64_max(),
        v <= u64_max(),
    ensures
        spec_read_field(spec_varint_field(field, v) + rest) == Some(
            (field, WireValue::Varint(v), spec_varint_field(field, v).len()),
        ),
{
    let t = spec_varint(field * 8);
    let s = spec_varint_field(field, v) + rest;
    assert(s =~= t + (spec_varint(v) + rest));
    lemma_varint_roundtrip(field * 8, spec_varint(v) + rest);
    assert((field * 8) / 8 == field && (field * 8) % 8 == 0);
    let r = s.skip(t.len() as int);
    assert(r =~= spec_varint(v) + rest);
    lemma_varint_roundtrip(v, rest);
}

/// A fixed64 field: tag (wire type 1), then eight bytes.
pub open spec fn spec_fixed64_field(field: nat, bytes: Seq<u8>) -> Seq<u8> {
    spec_varint(field * 8 + 1) + bytes
}

/// A fixed32 field: tag (wire type 5), then four bytes.
pub open spec fn spec_fixed32_field(field: nat, bytes: Seq<u8>) -> Seq<u8> {
    spec_varint(field * 8 + 5) + bytes
}

/// A fixed64 field takes its tag and exactly eight bytes, whatever they are
/// and whatever follows.
pub proof fn lemma_fixed64_field_read(field: nat, bytes: Seq<u8>, rest: Seq<u8>)
    requires
        1 <= field,
        field * 8 + 1 <= u64_max(),
        bytes.len() == 8,
    ensures
        spec_read_field(spec_fixed64_field(field, bytes) + rest) == Some(
            (field, WireValue::Fixed64, spec_varint(field * 8 + 1).len() + 8),
        ),
{
    let t = spec_varint(field * 8 + 1);
    let s = spec_fixed64_field(field, bytes) + rest;
    assert(s =~= t + (bytes + rest));
    lemma_varint_roundtrip(field * 8 + 1, bytes + rest);
    assert((field * 8 + 1) / 8 == field && (field * 8 + 1) % 8 == 1);
    assert(s.skip(t.len() as int) =~= bytes + rest);
}

/// A fixed32 field takes its tag and exactly four bytes, whatever they are
/// and whatever follows.
pub proof fn lemma_fixed32_field_read(field: nat, bytes: Seq<u8>, rest: Seq<u8>)
    requires
        1 <= field,
        field * 8 + 5 <= u64_max(),
        bytes.len() == 4,
    ensures
        spec_read_field(spec_fixed32_field(field, bytes) + rest) == Some(
            (field, WireValue::Fixed32, spec_varint(field * 8 + 5).len() + 4),
        ),
{
    let t = spec_varint(field * 8 + 5);
    let s = spec_fixed32_field(field, bytes) + rest;
    assert(s =~= t + (bytes + rest));
    lemma_varint_roundtrip(field * 8 + 5, bytes + rest);
    assert((field * 8 + 5) / 8 == field && (field * 8 + 5) % 8 == 5);
    assert(s.skip(t.len() as int) =~= bytes + rest);
}

/// A field's value as `read_field` finds it in the buffer.
pub enum FieldValue {
    Varint(u64),
    Fixed64,
    /// The bytes lie in `start..end` of the buffer.
    Bytes(usize, usize),
    Fixed32,
}

/// Whether `found`, located in `buf`, is the wire value `value`.
pub open spec fn field_value_is(found: FieldValue, value: WireValue, buf: Seq<u8>) -> bool {
    match (found, value) {
        (FieldValue::Varint(a), WireValue::Varint(b)) => a as nat == b,
        (FieldValue::Fixed64, WireValue::Fixed64) => true,
        (FieldValue::Bytes(start, end), WireValue::LenDelim(b)) => start <= end <= buf.len()
            && buf.subrange(start as int, end as int) == b,
        (FieldValue::Fixed32, WireValue::Fixed32) => true,
        _ => false,
    }
}

/// Reads the field at `pos`: its number, its value, and the position after it.
pub fn read_field(buf: &[u8], pos: usize) -> (res: Option<(u64, FieldValue, usize)>)
    requires
        pos <= buf@.len(),
    ensures
        match spec_read_field(buf@.skip(pos as int)) {
            None => res is None,
            Some((f, v, n)) => res matches Some((rf, rv, next)) && rf == f && next == pos + n
                && field_value_is(rv, v, buf@),
        },
        res matches Some((_, _, next)) ==> pos < next <= buf@.len(),
{
    let len: usize = buf.len();
    let ghost s = buf@.skip(pos as int);
    let (tag, p1) = match read_varint(buf, pos) {
        Some(x) => x,
        None => return None,
    };
    assert(buf@.skip(p1 as int) =~= s.skip(p1 - pos));
    let field: u64 = tag / 8;
    let wire_type: u64 = tag % 8;
    if field == 0 {
        return None;
    }
    if wire_type == 0 {
        match read_varint(buf, p1) {
            Some((v, p2)) => Some((field, FieldValue::Varint(v), p2)),
            None => None,
        }
    } else if wire_type == 1 {
        if len - p1 >= 8 {
            Some((field, FieldValue::Fixed64, p1 + 8))
        } else {
            None
        }
    } else if wire_type == 2 {
        match read_varint(buf, p1) {
            Some((l, p2)) => {
                if l as u128 <= (len - p2) as u128 {
                    let end: usize = p2 + l as usize;
                    proof {
                        let r = s.skip(p1 - pos);
                        assert(r.subrange(p2 - p1, p2 - p1 + l) =~= buf@.subrange(p2 as int, end as int));
                    }
                    Some((field, FieldValue::Bytes(p2, end), end))
                } else {
                    None
                }
            },
            None => None,
        }
    } else if wire_type == 5 {
        if len - p1 >= 4 {
            Some((field, FieldValue::Fixed32, p1 + 4))
        } else {
            None
        }
    } else {
        None
    }
}

/// Appends the bytes of `src` to `out`.
pub fn push_bytes(out: &mut Vec<u8>, src: &[u8])
    ensures
        final(out)@ == old(out)@ + src@,
{
    let mut i: usize = 0;
    while i < src.len()
        invariant
            i <= src@.len(),
            out@ == old(out)@ + src@.subrange(0, i as int),
        decreases src@.len() - i,
    {
        out.push(src[i]);
        i = i + 1;
        assert(out@ =~= old(out)@ + src@.subrange(0, i as int));
    }
    assert(src@.subrange(0, i as int) =~= src@);
}

/// Appends a length-delimited field.
pub fn write_len_field(out: &mut Vec<u8>, field: u64, bytes: &[u8])
    requires
        1 <= field,
        field * 8 + 2 <= u64_max(),
    ensures
        final(out)@ == old(out)@ + spec_len_field(field as nat, bytes@),
{
    write_varint(out, field * 8 + 2);
    write_varint(out, bytes.len() as u64);
    push_bytes(out, bytes);
    assert(final(out)@ =~= old(out)@ + spec_len_field(field as nat, bytes@));
}

/// Appends a varint field.
pub fn write_varint_field(out: &mut Vec<u8>, field: u64, v: u64)
    requires
        1 <= field,
        field * 8 <= u64_max(),
    ensures
        final(out)@ == old(out)@ + spec_varint_field(field as nat, v as nat),
{
    write_varint(out, field * 8);
    write_varint(out, v);
    assert(final(out)@ =~= old(out)@ + spec_varint_field(field as nat, v as nat));
}

/// Copies `buf[start..end]` into a new vector.
pub fn copy_range(buf: &[u8], start: usize, end: usize) -> (res: Vec<u8>)
    requires
        start <= end <= buf@.len(),
    ensures
        res@ == buf@.subrange(start as int, end as int),
{
    let mut out: Vec<u8> = Vec::new();
    push_bytes(&mut out, vstd::slice::slice_subrange(buf, start, end));
    assert(out@ =~= buf@.subrange(start as int, end as int));
    out
}

} // verus!
