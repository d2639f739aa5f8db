//! Bluetooth device addresses and their colon-separated spelling.

use std::str::FromStr;
use vstd::prelude::*;

use crate::text;

verus! {

broadcast use {
    vstd::seq::group_seq_axioms,
    vstd::array::group_array_axioms,
    vstd::string::group_string_axioms,
};

/// A Bluetooth device address: its 48 bits, first octet most significant.
#[derive(Debug, Clone, Copy, PartialEq, Eq, Hash, Structural)]
pub struct Address {
    pub raw: u64,
}

/// Why a text is not an address: the part that does not read.
#[derive(Debug, Clone, PartialEq, Eq)]
pub struct AddressError {
    pub part: String,
}

/// The value of a run of hexadecimal digits.
pub open spec fn hex_number(s: Seq<char>) -> nat
    decreases s.len(),
{
    if s.len() == 0 {
        0
    } else {
        16 * hex_number(s.drop_last()) + text::hex_value(s.last())->0 as nat
    }
}

/// Hexadecimal digits only, at least one.
pub open spec fn is_hex(s: Seq<char>) -> bool {
    s.len() > 0 && forall|i: int| 0 <= i < s.len() ==> text::hex_value(#[trigger] s[i]) is Some
}

/// The octet a field spells: hexadecimal digits, optionally after a `+`, worth
/// at most 255.
pub open spec fn octet(field: Seq<char>) -> Option<u8> {
    let digits = text::number_text(field);
    if is_hex(digits) && hex_number(digits) <= 255 {
        Some(hex_number(digits) as u8)
    } else {
        None
    }
}

/// The octets of a list of fields, or the first field that is none.
pub open spec fn octets(fields: Seq<Seq<char>>) -> Result<Seq<u8>, Seq<char>>
    decreases fields.len(),
{
    if fields.len() == 0 {
        Ok(Seq::empty())
    } else {
        match octets(fields.drop_last()) {
            Err(part) => Err(part),
            Ok(init) => match octet(fields.last()) {
                Some(o) => Ok(init.push(o)),
                None => Err(fields.last()),
            },
        }
    }
}

/// The six octets a text spells between colons, or the part that does not
/// read: the first field that is no octet, else the whole text.
pub open spec fn six_octets(s: Seq<char>) -> Result<Seq<u8>, Seq<char>> {
    match octets(text::split(s, ':')) {
        Err(part) => Err(part),
        Ok(list) => if list.len() == 6 {
            Ok(list)
        } else {
            Err(s)
        },
    }
}

/// The uppercase hexadecimal digit `n`.
pub open spec fn upper_digit(n: int) -> char {
    text::ascii_upper(text::hex_char(n))
}

/// An octet as two uppercase hexadecimal digits.
pub open spec fn octet_text(o: u8) -> Seq<char> {
    seq![upper_digit((o / 16) as int), upper_digit((o % 16) as int)]
}

/// Octets between colons.
pub open spec fn octets_text(list: Seq<u8>) -> Seq<char>
    decreases list.len(),
{
    if list.len() == 0 {
        Seq::empty()
    } else if list.len() == 1 {
        octet_text(list[0])
    } else {
        octets_text(list.drop_last()) + seq![':'] + octet_text(list.last())
    }
}

/// The content of a reading.
pub open spec fn octets_read(r: Result<[u8; 6], String>) -> Result<Seq<u8>, Seq<char>> {
    match r {
        Ok(list) => Ok(list@),
        Err(part) => Err(part@),
    }
}

/// `bluer::Address::from_str`: six colon-separated octets in hexadecimal, or
/// the part that does not read.
#[verifier::external_body]
fn bluer_parse(s: &str) -> (r: Result<[u8; 6], String>)
    ensures
        octets_read(r) == six_octets(s@),
{
    match bluer::Address::from_str(s) {
        Ok(addr) => Ok(addr.0),
        Err(e) => Err(e.0),
    }
}

/// `Display` of `bluer::Address`: six octets of two uppercase hexadecimal
/// digits, between colons.
#[verifier::external_body]
fn bluer_print(list: [u8; 6]) -> (r: String)
    ensures
        r@ == octets_text(list@),
{
    format!("{}", bluer::Address::new(list))
}

/// The bits of six octets, first octet most significant.
pub open spec fn packed(list: Seq<u8>) -> u64 {
    (list[0] * 0x100_0000_0000 + list[1] * 0x1_0000_0000 + list[2] * 0x100_0000 + list[3] * 0x1_0000
        + list[4] * 0x100 + list[5]) as u64
}

/// The six octets of 48 bits.
pub open spec fn unpacked(raw: u64) -> Seq<u8> {
    seq![
        (raw / 0x100_0000_0000 % 256) as u8,
        (raw / 0x1_0000_0000 % 256) as u8,
        (raw / 0x100_0000 % 256) as u8,
        (raw / 0x1_0000 % 256) as u8,
        (raw / 0x100 % 256) as u8,
        (raw % 256) as u8,
    ]
}

/// Octets packed into bits can be taken out again.
proof fn lemma_pack(a: u64, b: u64, c: u64, d: u64, e: u64, f: u64)
    requires
        a < 256,
        b < 256,
        c < 256,
        d < 256,
        e < 256,
        f < 256,
    ensures
        ({
            let raw = a * 0x100_0000_0000 + b * 0x1_0000_0000 + c * 0x100_0000 + d * 0x1_0000 + e
                * 0x100 + f;
            &&& raw < 0x1_0000_0000_0000
            &&& raw / 0x100_0000_0000 % 256 == a
            &&& raw / 0x1_0000_0000 % 256 == b
            &&& raw / 0x100_0000 % 256 == c
            &&& raw / 0x1_0000 % 256 == d
            &&& raw / 0x100 % 256 == e
            &&& raw % 256 == f
        }),
{
    let r1 = a;
    let r2 = r1 * 256 + b;
    let r3 = r2 * 256 + c;
    let r4 = r3 * 256 + d;
    let r5 = r4 * 256 + e;
    let r6 = r5 * 256 + f;
    assert(r6 / 256 == r5 && r5 / 256 == r4 && r4 / 256 == r3 && r3 / 256 == r2 && r2 / 256 == r1);
    assert(r6 / 0x1_0000 == r4);
    assert(r6 / 0x100_0000 == r3);
    assert(r6 / 0x1_0000_0000 == r2);
    assert(r6 / 0x100_0000_0000 == r1);
}

impl Address {
    /// 48 bits and no more.
    pub open spec fn wf(self) -> bool {
        self.raw < 0x1_0000_0000_0000
    }

    /// The colon-separated spelling.
    pub open spec fn spelling(self) -> Seq<char> {
        octets_text(unpacked(self.raw))
    }

    /// The address of six octets.
    pub fn new(list: [u8; 6]) -> (r: Self)
        ensures
            r.raw == packed(list@),
            r.wf(),
            unpacked(r.raw) == list@,
    {
        let raw: u64 = list[0] as u64 * 0x100_0000_0000 + list[1] as u64 * 0x1_0000_0000
            + list[2] as u64 * 0x100_0000 + list[3] as u64 * 0x1_0000 + list[4] as u64 * 0x100
            + list[5] as u64;
        proof {
            lemma_pack(
                list[0] as u64,
                list[1] as u64,
                list[2] as u64,
                list[3] as u64,
                list[4] as u64,
                list[5] as u64,
            );
        }
        assert(unpacked(raw) =~= list@);
        Address { raw }
    }

    /// The six octets of an address.
    pub fn to_octets(&self) -> (r: [u8; 6])
        ensures
            r@ == unpacked(self.raw),
    {
        let r: [u8; 6] = [
            (self.raw / 0x100_0000_0000 % 256) as u8,
            (self.raw / 0x1_0000_0000 % 256) as u8,
            (self.raw / 0x100_0000 % 256) as u8,
            (self.raw / 0x1_0000 % 256) as u8,
            (self.raw / 0x100 % 256) as u8,
            (self.raw % 256) as u8,
        ];
        assert(r@ =~= unpacked(self.raw));
        r
    }

    /// The address a text spells.
    pub fn from_str(s: &str) -> (r: Result<Self, AddressError>)
        ensures
            r matches Ok(a) ==> a.wf() && six_octets(s@) == Ok::<Seq<u8>, Seq<char>>(
                unpacked(a.raw),
            ) && parsed_address(s@) == Ok::<Address, Seq<char>>(a),
            r matches Err(e) ==> parsed_address(s@) == Err::<Address, Seq<char>>(e.part@),
    {
        match bluer_parse(s) {
            Ok(list) => Ok(Address::new(list)),
            Err(part) => Err(AddressError { part }),
        }
    }

    /// `AA:BB:CC:DD:EE:FF`.
    pub fn to_string(&self) -> (r: String)
        ensures
            r@ == self.spelling(),
    {
        bluer_print(self.to_octets())
    }
}

/// The address a text spells, or the part of it that does not read.
pub open spec fn parsed_address(s: Seq<char>) -> Result<Address, Seq<char>> {
    match six_octets(s) {
        Ok(list) => Ok(Address { raw: packed(list) }),
        Err(part) => Err(part),
    }
}

/// Packing octets and taking them apart are inverse.
pub proof fn law_octets_round_trip(a: Address)
    requires
        a.wf(),
    ensures
        packed(unpacked(a.raw)) == a.raw,
{
    let r = a.raw;
    assert((r / 0x100_0000_0000 % 256) * 0x100_0000_0000 + (r / 0x1_0000_0000 % 256)
        * 0x1_0000_0000 + (r / 0x100_0000 % 256) * 0x100_0000 + (r / 0x1_0000 % 256) * 0x1_0000 + (r
        / 0x100 % 256) * 0x100 + r % 256 == r) by (bit_vector)
        requires
            r < 0x1_0000_0000_0000,
    ;
}

/// A printed address reads back as itself.
pub proof fn law_address_round_trip(a: Address)
    requires
        a.wf(),
    ensures
        parsed_address(a.spelling()) == Ok::<Address, Seq<char>>(a),
{
    let list = unpacked(a.raw);
    lemma_octets_text(list, 6);
    assert(list.take(6) =~= list);
    law_octets_round_trip(a);
}

/// One octet's two digits read as the octet.
proof fn lemma_octet_text(o: u8)
    ensures
        octet(octet_text(o)) == Some(o),
        forall|i: int| 0 <= i < 2 ==> #[trigger] octet_text(o)[i] != ':',
{
    let s = octet_text(o);
    let (hi, lo) = ((o / 16) as int, (o % 16) as int);
    assert(text::hex_value(upper_digit(hi)) == Some(hi as u8));
    assert(text::hex_value(upper_digit(lo)) == Some(lo as u8));
    assert(upper_digit(hi) != '+');
    assert(text::number_text(s) =~= s);
    assert(s.drop_last() =~= seq![upper_digit(hi)]);
    assert(s.drop_last().drop_last() =~= Seq::empty());
    assert(hex_number(s.drop_last().drop_last()) == 0);
    assert(hex_number(s.drop_last()) == hi);
    assert(hex_number(s) == 16 * hi + lo);
}

/// Appending an octet after a colon appends a field.
proof fn lemma_split_octet(p: Seq<char>, o: u8)
    ensures
        text::split(p + seq![':'] + octet_text(o), ':') == text::split(p, ':').push(octet_text(o)),
{
    lemma_octet_text(o);
    let s = octet_text(o);
    let q0 = p + seq![':'];
    let q1 = q0.push(s[0]);
    let q2 = q1.push(s[1]);
    assert(p + seq![':'] + s =~= q2);
    assert(q0.drop_last() =~= p);
    assert(q1.drop_last() =~= q0);
    assert(q2.drop_last() =~= q1);
    let f0 = text::split(q0, ':');
    assert(f0 == text::split(p, ':').push(Seq::<char>::empty()));
    let f1 = text::split(q1, ':');
    assert(f1 == f0.drop_last().push(f0.last().push(s[0])));
    let f2 = text::split(q2, ':');
    assert(f2 == f1.drop_last().push(f1.last().push(s[1])));
    assert(f0.drop_last() =~= text::split(p, ':'));
    assert(f1.drop_last() =~= f0.drop_last());
    assert(f1.last().push(s[1]) =~= s);
}

proof fn lemma_split_single(o: u8)
    ensures
        text::split(octet_text(o), ':') == seq![octet_text(o)],
{
    lemma_octet_text(o);
    let s = octet_text(o);
    let q1 = seq![s[0]];
    assert(s.drop_last() =~= q1);
    assert(q1.drop_last() =~= Seq::empty());
    let f0 = text::split(q1.drop_last(), ':');
    assert(f0 =~= seq![Seq::<char>::empty()]);
    assert(f0.drop_last() =~= Seq::empty());
    let f1 = text::split(q1, ':');
    assert(f1 =~= seq![q1]) by {
        assert(f0.last().push(s[0]) =~= q1);
    }
    assert(f1.drop_last() =~= Seq::empty());
    assert(f1.last().push(s[1]) =~= s);
}

/// Printed octets read back, field by field.
proof fn lemma_octets_text(list: Seq<u8>, n: int)
    requires
        1 <= n <= list.len(),
    ensures
        octets(text::split(octets_text(list.take(n)), ':')) == Ok::<Seq<u8>, Seq<char>>(
            list.take(n),
        ),
    decreases n,
{
    let part = list.take(n);
    lemma_octet_text(part.last());
    if n == 1 {
        lemma_split_single(part[0]);
        let fields = seq![octet_text(part[0])];
        assert(fields.drop_last() =~= Seq::empty());
        assert(octets(fields.drop_last()) == Ok::<Seq<u8>, Seq<char>>(Seq::empty()));
        assert(Seq::<u8>::empty().push(part[0]) =~= part);
    } else {
        lemma_octets_text(list, n - 1);
        assert(part.drop_last() =~= list.take(n - 1));
        lemma_split_octet(octets_text(part.drop_last()), part.last());
        let fields = text::split(octets_text(part), ':');
        assert(fields.drop_last() =~= text::split(octets_text(part.drop_last()), ':'));
        assert(part.drop_last().push(part.last()) =~= part);
    }
}

/// The first octet counts most: an address is its six octets in base 256.
pub proof fn law_octet_order(list: Seq<u8>)
    requires
        list.len() == 6,
    ensures
        packed(list) == ((((list[0] * 256 + list[1]) * 256 + list[2]) * 256 + list[3]) * 256
            + list[4]) * 256 + list[5],
        unpacked(packed(list)) == list,
{
    lemma_pack(
        list[0] as u64,
        list[1] as u64,
        list[2] as u64,
        list[3] as u64,
        list[4] as u64,
        list[5] as u64,
    );
    assert(unpacked(packed(list)) =~= list);
}

/// An address is six octets between colons, no fewer and no more, each of at
/// most two digits' worth.
pub proof fn law_addresses_have_six_octets(s: Seq<char>)
    ensures
        parsed_address(s) is Ok ==> text::split(s, ':').len() == 6 && (forall|i: int|
            0 <= i < 6 ==> octet(#[trigger] text::split(s, ':')[i]) == Some(
                unpacked((parsed_address(s)->Ok_0).raw)[i],
            )),
        text::split(s, ':').len() == 6 && (forall|i: int|
            0 <= i < 6 ==> octet(#[trigger] text::split(s, ':')[i]) is Some) ==> parsed_address(
            s,
        ) is Ok,
{
    let fields = text::split(s, ':');
    lemma_octets_each(fields);
    if let Ok(list) = six_octets(s) {
        law_octet_order(list);
    }
}

proof fn lemma_octets_each(fields: Seq<Seq<char>>)
    ensures
        octets(fields) is Ok ==> (octets(fields)->Ok_0).len() == fields.len() && (forall|i: int|
            0 <= i < fields.len() ==> octet(#[trigger] fields[i]) == Some((octets(fields)->Ok_0)[i])),
        (forall|i: int| 0 <= i < fields.len() ==> octet(#[trigger] fields[i]) is Some) ==> octets(
            fields,
        ) is Ok,
    decreases fields.len(),
{
    if fields.len() > 0 {
        let init = fields.drop_last();
        lemma_octets_each(init);
        if octets(fields) is Ok {
            assert forall|i: int| 0 <= i < fields.len() implies octet(#[trigger] fields[i]) == Some(
                (octets(fields)->Ok_0)[i],
            ) by {
                if i < init.len() {
                    assert(init[i] == fields[i]);
                }
            }
        }
        if forall|i: int| 0 <= i < fields.len() ==> octet(#[trigger] fields[i]) is Some {
            assert forall|i: int| 0 <= i < init.len() implies octet(#[trigger] init[i]) is Some by {
                assert(init[i] == fields[i]);
            }
            assert(octet(fields[fields.len() - 1]) is Some);
        }
    }
}

/// A field is an octet where it has hexadecimal digits, one or two of which
/// count sixteen to one; an empty one is none.
pub proof fn law_octet_fields(a: char, b: char)
    requires
        text::hex_value(a) is Some,
        text::hex_value(b) is Some,
    ensures
        octet(seq![a]) == text::hex_value(a),
        octet(seq![a, b]) == Some(
            (16 * (text::hex_value(a)->0) + (text::hex_value(b)->0)) as u8,
        ),
        octet(Seq::empty()) is None,
{
    let one = seq![a];
    let two = seq![a, b];
    assert(text::number_text(one) =~= one);
    assert(text::number_text(two) =~= two);
    assert(one.drop_last() =~= Seq::empty());
    assert(two.drop_last() =~= one);
    assert(hex_number(one.drop_last()) == 0);
    assert(hex_number(one) == (text::hex_value(a)->0) as nat);
    assert(hex_number(two) == 16 * hex_number(one) + (text::hex_value(b)->0) as nat);
}

/// An octet is written as two digits, the high one first, its letters capital.
pub proof fn law_octet_digits(o: u8)
    ensures
        octet_text(o).len() == 2,
        16 * (text::hex_value(octet_text(o)[0])->0) + (text::hex_value(octet_text(o)[1])->0) == o,
        text::ascii_upper(octet_text(o)[0]) == octet_text(o)[0],
        text::ascii_upper(octet_text(o)[1]) == octet_text(o)[1],
{
    let (hi, lo) = ((o / 16) as int, (o % 16) as int);
    assert(text::hex_value(upper_digit(hi)) == Some(hi as u8));
    assert(text::hex_value(upper_digit(lo)) == Some(lo as u8));
}

} // verus!
