//! Little-endian integers and byte strings as they stand on the wire.

use vstd::prelude::*;
use vstd::slice::slice_subrange;

verus! {

broadcast use {vstd::seq::group_seq_axioms, vstd::slice::group_slice_axioms};

/// A 16-bit integer, low byte first.
pub open spec fn le16(v: u16) -> Seq<u8> {
    seq![(v % 256) as u8, (v / 256) as u8]
}

/// A 32-bit integer, low byte first.
pub open spec fn le32(v: u32) -> Seq<u8> {
    seq![
        (v % 256) as u8,
        (v / 256 % 256) as u8,
        (v / 65536 % 256) as u8,
        (v / 16777216) as u8,
    ]
}

/// The 16-bit integer at a position.
pub open spec fn u16_at(buf: Seq<u8>, pos: int) -> u16 {
    (buf[pos] + 256 * buf[pos + 1]) as u16
}

/// The 32-bit integer at a position.
pub open spec fn u32_at(buf: Seq<u8>, pos: int) -> u32 {
    (buf[pos] + 256 * buf[pos + 1] + 65536 * buf[pos + 2] + 16777216 * buf[pos + 3]) as u32
}

/// The bit pattern of a signed integer (two's complement).
pub open spec fn bits_of(v: i32) -> u32 {
    if v < 0 {
        (v + 0x1_0000_0000) as u32
    } else {
        v as u32
    }
}

/// The signed integer of a bit pattern (two's complement).
pub open spec fn from_bits(v: u32) -> i32 {
    if v >= 0x8000_0000 {
        (v - 0x1_0000_0000) as i32
    } else {
        v as i32
    }
}

/// Bit patterns and signed integers correspond one to one.
pub proof fn law_bits_round_trip(v: i32, bits: u32)
    ensures
        from_bits(bits_of(v)) == v,
        bits_of(from_bits(bits)) == bits,
{
}

/// Reading a 16-bit integer where one was written gives it back.
pub proof fn law_u16_round_trip(buf: Seq<u8>, pos: int, v: u16)
    requires
        0 <= pos,
        pos + 2 <= buf.len(),
        buf.subrange(pos, pos + 2) == le16(v),
    ensures
        u16_at(buf, pos) == v,
{
    assert(buf.subrange(pos, pos + 2)[0] == buf[pos]);
    assert(buf.subrange(pos, pos + 2)[1] == buf[pos + 1]);
}

/// Reading a 32-bit integer where one was written gives it back.
pub proof fn law_u32_round_trip(buf: Seq<u8>, pos: int, v: u32)
    requires
        0 <= pos,
        pos + 4 <= buf.len(),
        buf.subrange(pos, pos + 4) == le32(v),
    ensures
        u32_at(buf, pos) == v,
{
    let s = buf.subrange(pos, pos + 4);
    assert(s[0] == buf[pos] && s[1] == buf[pos + 1] && s[2] == buf[pos + 2] && s[3] == buf[pos
        + 3]);
    lemma_u32_digits(v);
}

/// A 32-bit integer is made of its four bytes.
pub proof fn lemma_u32_digits(v: u32)
    ensures
        v == v % 256 + 256 * (v / 256 % 256) + 65536 * (v / 65536 % 256) + 16777216 * (v
            / 16777216),
{
    assert(v == v % 256 + 256 * (v / 256 % 256) + 65536 * (v / 65536 % 256) + 16777216 * (v
        / 16777216)) by (bit_vector);
}

/// Append bytes.
pub fn put_bytes(out: &mut Vec<u8>, bytes: &[u8])
    ensures
        final(out)@ == old(out)@ + bytes@,
{
    let ghost start = out@;
    let mut i: usize = 0;
    assert(start + bytes@.take(0) =~= start);
    while i < bytes.len()
        invariant
            i <= bytes@.len(),
            out@ == start + bytes@.take(i as int),
        decreases bytes@.len() - i,
    {
        out.push(bytes[i]);
        assert(start + bytes@.take(i + 1) =~= (start + bytes@.take(i as int)).push(bytes@[i as int]));
        i = i + 1;
    }
    assert(bytes@.take(i as int) =~= bytes@);
}

/// Append a 16-bit integer, low byte first.
pub fn put_u16(out: &mut Vec<u8>, v: u16)
    ensures
        final(out)@ == old(out)@ + le16(v),
{
    out.push((v % 256) as u8);
    out.push((v / 256) as u8);
    assert(out@ =~= old(out)@ + le16(v));
}

/// Append a 32-bit integer, low byte first.
pub fn put_u32(out: &mut Vec<u8>, v: u32)
    ensures
        final(out)@ == old(out)@ + le32(v),
{
    out.push((v % 256) as u8);
    out.push((v / 256 % 256) as u8);
    out.push((v / 65536 % 256) as u8);
    out.push((v / 16777216) as u8);
    assert(out@ =~= old(out)@ + le32(v));
}

/// Append a signed 32-bit integer, low byte first.
pub fn put_i32(out: &mut Vec<u8>, v: i32)
    ensures
        final(out)@ == old(out)@ + le32(bits_of(v)),
{
    put_u32(out, i32_bits(v));
}

/// The bit pattern of a signed integer.
pub fn i32_bits(v: i32) -> (r: u32)
    ensures
        r == bits_of(v),
{
    if v < 0 {
        (v as i64 + 0x1_0000_0000) as u32
    } else {
        v as u32
    }
}

/// The signed integer of a bit pattern.
pub fn bits_i32(v: u32) -> (r: i32)
    ensures
        r == from_bits(v),
{
    if v >= 0x8000_0000 {
        (v as i64 - 0x1_0000_0000) as i32
    } else {
        v as i32
    }
}

/// The 16-bit integer at a position.
pub fn read_u16(buf: &[u8], pos: usize) -> (r: u16)
    requires
        pos + 2 <= buf@.len(),
    ensures
        r == u16_at(buf@, pos as int),
{
    buf[pos] as u16 + 256 * (buf[pos + 1] as u16)
}

/// The 32-bit integer at a position.
pub fn read_u32(buf: &[u8], pos: usize) -> (r: u32)
    requires
        pos + 4 <= buf@.len(),
    ensures
        r == u32_at(buf@, pos as int),
{
    buf[pos] as u32 + 256 * (buf[pos + 1] as u32) + 65536 * (buf[pos + 2] as u32) + 16777216 * (
    buf[pos + 3] as u32)
}

/// A length as a 32-bit field holds it.
pub open spec fn len32(n: int) -> u32 {
    (n % 0x1_0000_0000) as u32
}

/// A length as a 16-bit field holds it.
pub open spec fn len16(n: int) -> u16 {
    (n % 0x1_0000) as u16
}

/// `n + extra` as a 32-bit field holds it.
pub fn length32(n: usize, extra: u32) -> (r: u32)
    requires
        extra < 1000,
    ensures
        r == len32(n + extra),
{
    let low: u64 = n as u64 % 0x1_0000_0000;
    ((low + extra as u64) % 0x1_0000_0000) as u32
}

/// `n + extra` as a 16-bit field holds it.
pub fn length16(n: usize, extra: u16) -> (r: u16)
    requires
        extra < 1000,
    ensures
        r == len16(n + extra),
{
    let low: usize = n % 0x1_0000;
    ((low + extra as usize) % 0x1_0000) as u16
}

/// The bytes before the first NUL.
pub open spec fn before_nul(raw: Seq<u8>) -> Seq<u8>
    decreases raw.len(),
{
    if raw.len() == 0 || raw[0] == 0 {
        Seq::empty()
    } else {
        seq![raw[0]] + before_nul(raw.drop_first())
    }
}

/// Bytes without a NUL, followed by one, are what stands before the first NUL.
pub proof fn lemma_before_nul(text: Seq<u8>, rest: Seq<u8>)
    requires
        !text.contains(0),
    ensures
        before_nul(text + seq![0u8] + rest) == text,
    decreases text.len(),
{
    let raw = text + seq![0u8] + rest;
    if text.len() > 0 {
        assert(raw[0] == text[0]);
        assert(text.contains(text[0]));
        assert(raw.drop_first() =~= text.drop_first() + seq![0u8] + rest);
        assert forall|b: u8| text.drop_first().contains(b) implies text.contains(b) by {
            let i = choose|i: int| 0 <= i < text.drop_first().len() && text.drop_first()[i] == b;
            assert(text[i + 1] == b);
        }
        lemma_before_nul(text.drop_first(), rest);
        assert(seq![text[0]] + text.drop_first() =~= text);
    }
}

/// How many bytes stand before the first NUL.
fn nul_position(raw: &[u8]) -> (r: usize)
    ensures
        r <= raw@.len(),
        raw@.take(r as int) == before_nul(raw@),
{
    let mut i: usize = 0;
    assert(raw@.skip(0) =~= raw@);
    assert(raw@.take(0) + before_nul(raw@) =~= before_nul(raw@));
    while i < raw.len() && raw[i] != 0
        invariant
            i <= raw@.len(),
            raw@.take(i as int) + before_nul(raw@.skip(i as int)) == before_nul(raw@),
        decreases raw@.len() - i,
    {
        assert(raw@.skip(i as int).drop_first() =~= raw@.skip(i + 1));
        assert(raw@.skip(i as int)[0] == raw@[i as int]);
        assert(raw@.take(i as int) + (seq![raw@[i as int]] + before_nul(raw@.skip(i + 1)))
            =~= raw@.take(i + 1) + before_nul(raw@.skip(i + 1)));
        i = i + 1;
    }
    assert(before_nul(raw@.skip(i as int)) =~= Seq::empty()) by {
        if i < raw@.len() {
            assert(raw@.skip(i as int)[0] == raw@[i as int]);
        }
    }
    assert(raw@.take(i as int) + Seq::<u8>::empty() =~= raw@.take(i as int));
    i
}

/// The text `String::from_utf8_lossy` reads from bytes.
pub uninterp spec fn lossy_text(bytes: Seq<u8>) -> Seq<char>;

/// `String::from_utf8_lossy`: well-formed UTF-8 is read as it stands. What
/// takes the place of ill-formed sequences is left to the name.
#[verifier::external_body]
fn utf8_lossy(bytes: &[u8]) -> (r: String)
    ensures
        r@ == lossy_text(bytes@),
        vstd::utf8::valid_utf8(bytes@) ==> r@ == vstd::utf8::decode_utf8(bytes@),
{
    String::from_utf8_lossy(bytes).into_owned()
}

/// The text that bytes stand for: UTF-8 where they are, else as the lossy
/// reading has it.
pub open spec fn text_of(bytes: Seq<u8>) -> Seq<char> {
    if vstd::utf8::valid_utf8(bytes) {
        vstd::utf8::decode_utf8(bytes)
    } else {
        lossy_text(bytes)
    }
}

/// The text of a NUL-terminated byte string.
pub fn c_text(raw: &[u8]) -> (r: String)
    ensures
        r@ == text_of(before_nul(raw@)),
{
    let n = nul_position(raw);
    let text = slice_subrange(raw, 0, n);
    assert(text@ =~= before_nul(raw@)) by {
        assert(raw@.subrange(0, n as int) =~= raw@.take(n as int));
    }
    utf8_lossy(text)
}

/// An integer on the wire is its bytes with the lowest first: 256 to the power
/// of its place is what each byte counts.
pub proof fn law_low_byte_first(v: u32, w: u16, buf: Seq<u8>, pos: int)
    ensures
        le32(v).len() == 4,
        v == le32(v)[0] + 0x100 * le32(v)[1] + 0x10000 * le32(v)[2] + 0x1000000 * le32(v)[3],
        le16(w).len() == 2,
        w == le16(w)[0] + 0x100 * le16(w)[1],
        u32_at(buf, pos) == buf[pos] + 0x100 * buf[pos + 1] + 0x10000 * buf[pos + 2] + 0x1000000
            * buf[pos + 3],
        u16_at(buf, pos) == buf[pos] + 0x100 * buf[pos + 1],
{
    lemma_u32_digits(v);
}

/// A signed integer and its bit pattern agree from zero up, and differ by the
/// whole range below.
pub proof fn law_twos_complement(v: i32, bits: u32)
    ensures
        v >= 0 ==> bits_of(v) == v,
        v < 0 ==> bits_of(v) == v + 4294967296,
        bits <= 2147483647 ==> from_bits(bits) == bits,
        bits > 2147483647 ==> from_bits(bits) == bits - 4294967296,
{
}

/// A length that fits its field is written as it is.
pub proof fn law_lengths_that_fit(n: int)
    requires
        0 <= n,
    ensures
        n <= 4294967295 ==> len32(n) == n,
        n <= 65535 ==> len16(n) == n,
{
}

/// What stands before the first NUL holds none, starts at the front, and ends
/// at a NUL or with the bytes themselves.
pub proof fn law_text_ends_at_the_first_nul(raw: Seq<u8>)
    ensures
        before_nul(raw).len() <= raw.len(),
        before_nul(raw) == raw.take(before_nul(raw).len() as int),
        !before_nul(raw).contains(0),
        before_nul(raw).len() < raw.len() ==> raw[before_nul(raw).len() as int] == 0,
    decreases raw.len(),
{
    if raw.len() > 0 && raw[0] != 0 {
        let tail = raw.drop_first();
        law_text_ends_at_the_first_nul(tail);
        let t = before_nul(tail);
        let r = before_nul(raw);
        assert(r == seq![raw[0]] + t);
        assert(r =~= raw.take(r.len() as int)) by {
            assert forall|i: int| 0 < i < r.len() implies r[i] == raw[i] by {
                assert(r[i] == t[i - 1]);
                assert(tail.take(t.len() as int)[i - 1] == tail[i - 1]);
            }
        }
        assert(!r.contains(0)) by {
            if r.contains(0) {
                let i = choose|i: int| 0 <= i < r.len() && r[i] == 0;
                assert(r[i] == t[i - 1]);
                assert(t.contains(0));
            }
        }
    } else {
        assert(before_nul(raw) =~= raw.take(0));
    }
}

/// Bytes that are UTF-8 are the text they encode.
pub proof fn law_utf8_is_read_as_it_stands(bytes: Seq<u8>)
    requires
        vstd::utf8::valid_utf8(bytes),
    ensures
        text_of(bytes) == vstd::utf8::decode_utf8(bytes),
{
}

} // verus!
