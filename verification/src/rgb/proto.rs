//! OpenRGB SDK wire protocol, client side.
//!
//! Hand-rolled on purpose: both Rust SDK crates (`openrgb`, `openrgb2`) are
//! GPL-2.0 and km-hub is MIT. The format follows OpenRGB
//! `release_candidate_1.0rc3` — `NetworkProtocol.h` for the header and packet
//! IDs, `RGBController.cpp` for the device-description blob.
//!
//! km-hub asks for **protocol version 3**, the oldest version that still
//! carries mode brightness. The server serializes each controller at the
//! version named in the request (`NetworkServer::SendReply_ControllerData`), so
//! the blob never contains zone segments (v4+), zone flags or LED alternate
//! names (v5+) and the parser below stays small.

use vstd::prelude::*;
use vstd::slice::slice_subrange;

use crate::text;
use crate::wire;

pub mod pkt;

verus! {

broadcast use {
    vstd::seq::group_seq_axioms,
    vstd::slice::group_slice_axioms,
    vstd::string::group_string_axioms,
    vstd::array::group_array_axioms,
};

pub const PROTOCOL_VERSION: u32 = 3;

/// `ORGB`, which every packet starts with.
pub const MAGIC: [u8; 4] = [0x4f, 0x52, 0x47, 0x42];

pub const HEADER_LEN: usize = 16;

/// Guard against a desynced stream turning a bogus length into a huge
/// allocation. Real descriptions are a few KB.
pub const MAX_PACKET: u32 = 4194304;

pub const MODE_FLAG_HAS_BRIGHTNESS: u32 = 0x10;

pub const MODE_FLAG_HAS_PER_LED_COLOR: u32 = 0x20;

pub const MODE_FLAG_HAS_MODE_SPECIFIC_COLOR: u32 = 0x40;

pub const MODE_COLORS_MODE_SPECIFIC: u32 = 2;

// ---------------------------------------------------------------------------
// Colors
// ---------------------------------------------------------------------------

#[derive(Debug, Clone, Copy, PartialEq, Eq, Structural)]
pub struct Rgb {
    pub r: u8,
    pub g: u8,
    pub b: u8,
}

/// A text that is not `#RRGGBB`.
#[derive(Debug, Clone, PartialEq, Eq)]
pub struct ColorError {
    pub text: String,
}

impl ColorError {
    /// The sentence this refusal is reported with.
    pub fn message(&self) -> (r: String)
        ensures
            r@ == "invalid color '"@ + self.text@ + "' (expected #RRGGBB)"@,
    {
        let mut out = String::new();
        out.append("invalid color '");
        out.append(self.text.as_str());
        out.append("' (expected #RRGGBB)");
        assert(out@ =~= "invalid color '"@ + self.text@ + "' (expected #RRGGBB)"@);
        out
    }
}

/// Color texts without their optional leading `#`.
pub open spec fn color_digits(s: Seq<char>) -> Seq<char> {
    if s.len() > 0 && s[0] == '#' {
        s.drop_first()
    } else {
        s
    }
}

/// Six hexadecimal digits of either case.
pub open spec fn is_six_hex(s: Seq<char>) -> bool {
    s.len() == 6 && forall|i: int| 0 <= i < 6 ==> text::hex_value(#[trigger] s[i]) is Some
}

/// The byte two hexadecimal digits spell.
pub open spec fn hex_pair(s: Seq<char>, i: int) -> u8 {
    (16 * text::hex_value(s[i])->0 + text::hex_value(s[i + 1])->0) as u8
}

/// The color a text spells.
pub open spec fn parsed_color(s: Seq<char>) -> Option<Rgb> {
    let hex = color_digits(s);
    if is_six_hex(hex) {
        Some(Rgb { r: hex_pair(hex, 0), g: hex_pair(hex, 2), b: hex_pair(hex, 4) })
    } else {
        None
    }
}

impl Rgb {
    /// Black.
    pub open spec fn black() -> Rgb {
        Rgb { r: 0, g: 0, b: 0 }
    }

    /// `0x00BBGGRR`, as OpenRGB packs colors.
    pub open spec fn packed(self) -> u32 {
        (self.r + 256 * self.g + 65536 * self.b) as u32
    }

    /// `#rrggbb`.
    pub open spec fn spelling(self) -> Seq<char> {
        seq!['#'] + text::hex_lower(seq![self.r, self.g, self.b])
    }

    /// Black: LEDs off.
    pub fn off() -> (c: Self)
        ensures
            c == Rgb::black(),
    {
        Rgb { r: 0, g: 0, b: 0 }
    }

    /// Accepts `#RRGGBB` or bare `RRGGBB`.
    pub fn parse(text: &str) -> (c: Result<Self, ColorError>)
        ensures
            c matches Ok(color) ==> parsed_color(text@) == Some(color),
            c matches Err(e) ==> parsed_color(text@) is None && e.text@ == text@,
    {
        let chars = text::chars_of(text);
        let start: usize = if chars.len() > 0 && chars[0] == '#' {
            1
        } else {
            0
        };
        let ghost hex = color_digits(text@);
        assert(hex =~= chars@.skip(start as int));
        if chars.len() != start + 6 {
            return Err(ColorError { text: text.to_owned() });
        }
        let mut digits: [u8; 6] = [0, 0, 0, 0, 0, 0];
        let mut i: usize = 0;
        while i < 6
            invariant
                i <= 6,
                start <= 1,
                chars@.len() == start + 6,
                chars@ == text@,
                hex == color_digits(text@),
                hex == chars@.skip(start as int),
                digits@.len() == 6,
                forall|j: int| 0 <= j < i ==> text::hex_value(#[trigger] hex[j]) == Some(digits@[j]),
            decreases 6 - i,
        {
            assert(hex[i as int] == chars@[start + i]);
            match text::hex_digit_value(chars[start + i]) {
                Some(d) => {
                    digits[i] = d;
                },
                None => {
                    return Err(ColorError { text: text.to_owned() });
                },
            }
            i = i + 1;
        }
        assert(is_six_hex(hex));
        assert(digits@[0] < 16 && digits@[1] < 16 && digits@[2] < 16 && digits@[3] < 16
            && digits@[4] < 16 && digits@[5] < 16) by {
            assert(text::hex_value(hex[0]) == Some(digits@[0]));
            assert(text::hex_value(hex[1]) == Some(digits@[1]));
            assert(text::hex_value(hex[2]) == Some(digits@[2]));
            assert(text::hex_value(hex[3]) == Some(digits@[3]));
            assert(text::hex_value(hex[4]) == Some(digits@[4]));
            assert(text::hex_value(hex[5]) == Some(digits@[5]));
        }
        Ok(
            Rgb {
                r: 16 * digits[0] + digits[1],
                g: 16 * digits[2] + digits[3],
                b: 16 * digits[4] + digits[5],
            },
        )
    }

    /// OpenRGB packs colors as `0x00BBGGRR`.
    pub fn to_wire(self) -> (w: u32)
        ensures
            w == self.packed(),
    {
        self.r as u32 + 256 * (self.g as u32) + 65536 * (self.b as u32)
    }

    /// `#rrggbb`.
    pub fn to_string(&self) -> (s: String)
        ensures
            s@ == self.spelling(),
    {
        let bytes = [self.r, self.g, self.b];
        let hex = text::hex_of(bytes.as_slice());
        let mut out = String::new();
        out.push('#');
        out.append(hex.as_str());
        assert(bytes@ =~= seq![self.r, self.g, self.b]);
        assert(out@ =~= self.spelling());
        out
    }
}

impl Default for Rgb {
    fn default() -> (c: Self)
        ensures
            c == Rgb::black(),
    {
        Rgb { r: 0, g: 0, b: 0 }
    }
}

/// A printed color reads back as itself.
pub proof fn law_color_round_trip(c: Rgb)
    ensures
        parsed_color(c.spelling()) == Some(c),
{
    let bytes = seq![c.r, c.g, c.b];
    let hex = text::hex_lower(bytes);
    assert(color_digits(c.spelling()) =~= hex);
    assert forall|i: int| 0 <= i < 6 implies text::hex_value(#[trigger] hex[i]) == Some(
        (if i % 2 == 0 {
            bytes[i / 2] / 16
        } else {
            bytes[i / 2] % 16
        }) as u8,
    ) by {}
    assert(hex_pair(hex, 0) == c.r);
    assert(hex_pair(hex, 2) == c.g);
    assert(hex_pair(hex, 4) == c.b);
}

/// Different colors go out as different words.
pub proof fn law_packing_is_injective(a: Rgb, b: Rgb)
    requires
        a.packed() == b.packed(),
    ensures
        a == b,
{
}

// ---------------------------------------------------------------------------
// Packets
// ---------------------------------------------------------------------------

#[derive(Debug, Clone)]
pub struct Packet {
    pub dev_idx: u32,
    pub id: u32,
    pub data: Vec<u8>,
}

/// What a packet's header announces.
#[derive(Debug, Clone, Copy, PartialEq, Eq, Structural)]
pub struct Header {
    pub dev_idx: u32,
    pub id: u32,
    pub size: u32,
}

/// A header that cannot be followed.
#[derive(Debug, Clone, Copy, PartialEq, Eq)]
pub enum HeaderError {
    /// The stream is out of sync: these bytes stand where `ORGB` belongs.
    BadMagic { found: [u8; 4] },
    /// More payload than any real packet has.
    TooLarge { id: u32, size: u32 },
}

/// The header that 16 bytes hold, whatever their magic.
pub open spec fn header_at(bytes: Seq<u8>) -> Header {
    Header {
        dev_idx: wire::u32_at(bytes, 4),
        id: wire::u32_at(bytes, 8),
        size: wire::u32_at(bytes, 12),
    }
}

/// What reading the header in front of some bytes has to give.
pub open spec fn header_read(bytes: Seq<u8>, r: Result<Header, HeaderError>) -> bool {
    let magic = bytes.take(4) == MAGIC@;
    let header = header_at(bytes);
    match r {
        Ok(h) => magic && h == header && h.size <= MAX_PACKET,
        Err(HeaderError::BadMagic { found }) => !magic && found@ == bytes.take(4),
        Err(HeaderError::TooLarge { id, size }) => magic && id == header.id && size == header.size
            && size > MAX_PACKET,
    }
}

/// Read a packet's header. Its payload of `size` bytes follows.
pub fn parse_header(bytes: &[u8; 16]) -> (r: Result<Header, HeaderError>)
    ensures
        header_read(bytes@, r),
{
    read_header(bytes.as_slice())
}

fn read_header(bytes: &[u8]) -> (r: Result<Header, HeaderError>)
    requires
        bytes@.len() >= HEADER_LEN,
    ensures
        header_read(bytes@, r),
{
    let found: [u8; 4] = [bytes[0], bytes[1], bytes[2], bytes[3]];
    assert(found@ =~= bytes@.take(4));
    if found[0] != MAGIC[0] || found[1] != MAGIC[1] || found[2] != MAGIC[2] || found[3]
        != MAGIC[3] {
        return Err(HeaderError::BadMagic { found });
    }
    assert(found@ =~= MAGIC@);
    let dev_idx = wire::read_u32(bytes, 4);
    let id = wire::read_u32(bytes, 8);
    let size = wire::read_u32(bytes, 12);
    if size > MAX_PACKET {
        return Err(HeaderError::TooLarge { id, size });
    }
    Ok(Header { dev_idx, id, size })
}

/// Bytes that hold no packet.
#[derive(Debug, Clone, Copy, PartialEq, Eq)]
pub enum PacketError {
    /// They end before the packet does.
    Ends,
    Header(HeaderError),
}

/// The content of a [`Packet`].
#[verifier::ext_equal]
pub struct PacketView {
    pub dev_idx: u32,
    pub id: u32,
    pub data: Seq<u8>,
}

impl View for Packet {
    type V = PacketView;

    open spec fn view(&self) -> PacketView {
        PacketView { dev_idx: self.dev_idx, id: self.id, data: self.data@ }
    }
}

/// The packet in front of some bytes, and how many of them it takes.
pub open spec fn packet_in(bytes: Seq<u8>) -> Option<(PacketView, int)> {
    let header = header_at(bytes);
    if bytes.len() >= HEADER_LEN && bytes.take(4) == MAGIC@ && header.size <= MAX_PACKET
        && bytes.len() >= HEADER_LEN + header.size {
        Some(
            (
                PacketView {
                    dev_idx: header.dev_idx,
                    id: header.id,
                    data: bytes.subrange(HEADER_LEN as int, HEADER_LEN + header.size),
                },
                HEADER_LEN + header.size,
            ),
        )
    } else {
        None
    }
}

/// Read the packet in front of some bytes. Returns it with how many of them it
/// takes; a header that cannot be followed is refused before anything else.
pub fn read_packet(bytes: &[u8]) -> (r: Result<(Packet, usize), PacketError>)
    ensures
        match r {
            Ok((packet, used)) => packet_in(bytes@) == Some((packet@, used as int)),
            Err(PacketError::Ends) => packet_in(bytes@) is None && (bytes@.len() < HEADER_LEN
                || header_read(bytes@, Ok(header_at(bytes@)))),
            Err(PacketError::Header(e)) => packet_in(bytes@) is None && bytes@.len() >= HEADER_LEN
                && header_read(bytes@, Err(e)),
        },
{
    if bytes.len() < HEADER_LEN {
        return Err(PacketError::Ends);
    }
    let header = match read_header(bytes) {
        Ok(header) => header,
        Err(e) => {
            return Err(PacketError::Header(e));
        },
    };
    let used: usize = HEADER_LEN + header.size as usize;
    if bytes.len() < used {
        return Err(PacketError::Ends);
    }
    let mut data: Vec<u8> = Vec::new();
    let mut i: usize = HEADER_LEN;
    while i < used
        invariant
            HEADER_LEN <= i <= used <= bytes@.len(),
            data@ == bytes@.subrange(HEADER_LEN as int, i as int),
        decreases used - i,
    {
        data.push(bytes[i]);
        i = i + 1;
        assert(data@ =~= bytes@.subrange(HEADER_LEN as int, i as int));
    }
    Ok((Packet { dev_idx: header.dev_idx, id: header.id, data }, used))
}

/// A packet on the wire.
pub open spec fn framed(dev_idx: u32, id: u32, data: Seq<u8>) -> Seq<u8> {
    MAGIC@ + wire::le32(dev_idx) + wire::le32(id) + wire::le32(wire::len32(data.len() as int))
        + data
}

/// A payload that carries its own length in front, counting the field itself.
pub open spec fn size_prefixed(body: Seq<u8>) -> Seq<u8> {
    wire::le32(wire::len32((body.len() + 4) as int)) + body
}

/// A string field: its length with the trailing NUL, its bytes, the NUL.
pub open spec fn text_field(t: Seq<char>) -> Seq<u8> {
    let bytes = vstd::utf8::encode_utf8(t);
    wire::le16(wire::len16((bytes.len() + 1) as int)) + bytes + seq![0u8]
}

/// A packet on the wire.
pub fn frame(dev_idx: u32, id: u32, data: &[u8]) -> (r: Vec<u8>)
    ensures
        r@ == framed(dev_idx, id, data@),
{
    let mut out: Vec<u8> = Vec::new();
    wire::put_bytes(&mut out, MAGIC.as_slice());
    assert(out@ =~= MAGIC@);
    wire::put_u32(&mut out, dev_idx);
    wire::put_u32(&mut out, id);
    wire::put_u32(&mut out, wire::length32(data.len(), 0));
    wire::put_bytes(&mut out, data);
    out
}

/// A framed packet's header announces what was framed.
pub proof fn law_frame_header(dev_idx: u32, id: u32, data: Seq<u8>)
    requires
        data.len() <= MAX_PACKET,
    ensures
        ({
            let bytes = framed(dev_idx, id, data);
            &&& bytes.len() == HEADER_LEN + data.len()
            &&& bytes.take(4) == MAGIC@
            &&& header_at(bytes.take(16)) == (Header { dev_idx, id, size: data.len() as u32 })
            &&& bytes.skip(16) == data
        }),
{
    let bytes = framed(dev_idx, id, data);
    let head = bytes.take(16);
    assert(MAGIC@.len() == 4);
    assert(bytes.take(4) =~= MAGIC@);
    assert(head.subrange(4, 8) =~= wire::le32(dev_idx));
    assert(head.subrange(8, 12) =~= wire::le32(id));
    assert(head.subrange(12, 16) =~= wire::le32(data.len() as u32));
    wire::law_u32_round_trip(head, 4, dev_idx);
    wire::law_u32_round_trip(head, 8, id);
    wire::law_u32_round_trip(head, 12, data.len() as u32);
    assert(bytes.skip(16) =~= data);
}

/// A framed packet is read back from the front of a stream, and nothing of what
/// follows it is used.
pub proof fn law_framed_packet_is_read(dev_idx: u32, id: u32, data: Seq<u8>, rest: Seq<u8>)
    requires
        data.len() <= MAX_PACKET,
    ensures
        packet_in(framed(dev_idx, id, data) + rest) == Some(
            (PacketView { dev_idx, id, data }, HEADER_LEN + data.len()),
        ),
{
    law_frame_header(dev_idx, id, data);
    let bytes = framed(dev_idx, id, data);
    let all = bytes + rest;
    assert(all.take(4) =~= bytes.take(4));
    assert(all.take(16) =~= bytes.take(16));
    lemma_header_at_front(all);
    assert(all.subrange(16, (16 + data.len()) as int) =~= data) by {
        assert(bytes.skip(16) =~= data);
    }
}

/// A framed packet that is cut short is no packet.
pub proof fn law_cut_packet_is_refused(dev_idx: u32, id: u32, data: Seq<u8>, n: int)
    requires
        data.len() <= MAX_PACKET,
        0 <= n < HEADER_LEN + data.len(),
    ensures
        packet_in(framed(dev_idx, id, data).take(n)) is None,
{
    law_frame_header(dev_idx, id, data);
    let bytes = framed(dev_idx, id, data);
    if n >= 16 {
        assert(bytes.take(n).take(16) =~= bytes.take(16));
        lemma_header_at_front(bytes.take(n));
    }
}

proof fn lemma_header_at_front(bytes: Seq<u8>)
    requires
        bytes.len() >= HEADER_LEN,
    ensures
        header_at(bytes) == header_at(bytes.take(16)),
{
}

/// Payloads that carry their own length start with it, counting the field
/// itself (`GetColorDescription`, `GetModeDescription`).
pub fn with_size_prefix(body: Vec<u8>) -> (r: Vec<u8>)
    ensures
        r@ == size_prefixed(body@),
{
    let mut out: Vec<u8> = Vec::new();
    wire::put_u32(&mut out, wire::length32(body.len(), 4));
    wire::put_bytes(&mut out, body.as_slice());
    assert(out@ =~= size_prefixed(body@));
    out
}

/// Strings are a `u16` length followed by the bytes *including* the trailing
/// NUL, matching `strlen() + 1` on the C side.
pub fn put_string(out: &mut Vec<u8>, text: &str)
    ensures
        final(out)@ == old(out)@ + text_field(text@),
{
    let bytes = text.as_bytes();
    wire::put_u16(out, wire::length16(bytes.len(), 1));
    wire::put_bytes(out, bytes);
    out.push(0);
    assert(out@ =~= old(out)@ + text_field(text@));
}

pub fn req_client_name(name: &str) -> (r: Vec<u8>)
    ensures
        r@ == framed(0, pkt::SET_CLIENT_NAME, vstd::utf8::encode_utf8(name@).push(0)),
{
    let mut data: Vec<u8> = Vec::new();
    wire::put_bytes(&mut data, name.as_bytes());
    assert(data@ =~= vstd::utf8::encode_utf8(name@));
    data.push(0);
    frame(0, pkt::SET_CLIENT_NAME, data.as_slice())
}

pub fn req_protocol_version() -> (r: Vec<u8>)
    ensures
        r@ == framed(0, pkt::PROTOCOL_VERSION, wire::le32(PROTOCOL_VERSION)),
{
    let mut data: Vec<u8> = Vec::new();
    wire::put_u32(&mut data, PROTOCOL_VERSION);
    assert(data@ =~= wire::le32(PROTOCOL_VERSION));
    frame(0, pkt::PROTOCOL_VERSION, data.as_slice())
}

pub fn req_controller_count() -> (r: Vec<u8>)
    ensures
        r@ == framed(0, pkt::CONTROLLER_COUNT, Seq::empty()),
{
    let data: Vec<u8> = Vec::new();
    frame(0, pkt::CONTROLLER_COUNT, data.as_slice())
}

/// Ask the server to re-detect hardware. It only detects at startup, so a
/// device that appeared later (or that was not enumerated yet when the service
/// started) stays invisible until something asks for this.
pub fn req_rescan_devices() -> (r: Vec<u8>)
    ensures
        r@ == framed(0, pkt::RESCAN_DEVICES, Seq::empty()),
{
    let data: Vec<u8> = Vec::new();
    frame(0, pkt::RESCAN_DEVICES, data.as_slice())
}

/// The server serializes the description at the version sent here, so this is
/// what actually pins the blob layout to v3.
pub fn req_controller_data(dev_idx: u32) -> (r: Vec<u8>)
    ensures
        r@ == framed(dev_idx, pkt::CONTROLLER_DATA, wire::le32(PROTOCOL_VERSION)),
{
    let mut data: Vec<u8> = Vec::new();
    wire::put_u32(&mut data, PROTOCOL_VERSION);
    assert(data@ =~= wire::le32(PROTOCOL_VERSION));
    frame(dev_idx, pkt::CONTROLLER_DATA, data.as_slice())
}

/// Words one after the other.
pub open spec fn words_bytes(words: Seq<u32>) -> Seq<u8>
    decreases words.len(),
{
    if words.len() == 0 {
        Seq::empty()
    } else {
        words_bytes(words.drop_last()) + wire::le32(words.last())
    }
}

/// Append words one after the other.
fn put_words(out: &mut Vec<u8>, words: &[u32])
    ensures
        final(out)@ == old(out)@ + words_bytes(words@),
{
    let ghost start = out@;
    let mut i: usize = 0;
    assert(start + words_bytes(words@.take(0)) =~= start);
    while i < words.len()
        invariant
            i <= words@.len(),
            out@ == start + words_bytes(words@.take(i as int)),
        decreases words@.len() - i,
    {
        wire::put_u32(out, words[i]);
        assert(words@.take(i + 1).drop_last() =~= words@.take(i as int));
        assert(out@ =~= start + words_bytes(words@.take(i + 1)));
        i = i + 1;
    }
    assert(words@.take(i as int) =~= words@);
}

/// The same color for every LED.
pub open spec fn leds_body(color: Rgb, led_count: u16) -> Seq<u8> {
    wire::le16(led_count) + words_bytes(Seq::new(led_count as nat, |i: int| color.packed()))
}

pub fn update_leds(dev_idx: u32, color: Rgb, led_count: u16) -> (r: Vec<u8>)
    ensures
        r@ == framed(dev_idx, pkt::UPDATE_LEDS, size_prefixed(leds_body(color, led_count))),
{
    let mut body: Vec<u8> = Vec::new();
    wire::put_u16(&mut body, led_count);
    assert(body@ =~= wire::le16(led_count));
    let word = color.to_wire();
    let mut i: u16 = 0;
    let ghost all = Seq::new(led_count as nat, |j: int| word);
    assert(wire::le16(led_count) + words_bytes(all.take(0)) =~= wire::le16(led_count));
    while i < led_count
        invariant
            i <= led_count,
            all.len() == led_count,
            forall|j: int| 0 <= j < led_count ==> all[j] == word,
            body@ == wire::le16(led_count) + words_bytes(all.take(i as int)),
        decreases led_count - i,
    {
        wire::put_u32(&mut body, word);
        assert(all.take(i + 1).drop_last() =~= all.take(i as int));
        assert(body@ =~= wire::le16(led_count) + words_bytes(all.take(i + 1)));
        i = i + 1;
    }
    assert(all.take(i as int) =~= Seq::new(led_count as nat, |j: int| color.packed()));
    let data = with_size_prefix(body);
    frame(dev_idx, pkt::UPDATE_LEDS, data.as_slice())
}

// ---------------------------------------------------------------------------
// Modes and devices
// ---------------------------------------------------------------------------

/// One device mode, kept whole so it can be sent back with only `brightness`
/// (and, for devices without per-LED color, `colors[0]`) changed.
#[derive(Debug, Clone, PartialEq, Eq)]
pub struct Mode {
    pub index: i32,
    pub name: String,
    pub value: i32,
    pub flags: u32,
    pub speed_min: u32,
    pub speed_max: u32,
    pub brightness_min: u32,
    pub brightness_max: u32,
    pub colors_min: u32,
    pub colors_max: u32,
    pub speed: u32,
    pub brightness: u32,
    pub direction: u32,
    pub color_mode: u32,
    pub colors: Vec<u32>,
}

/// The content of a [`Mode`].
#[verifier::ext_equal]
pub struct ModeView {
    pub index: i32,
    pub name: Seq<char>,
    pub value: i32,
    pub flags: u32,
    pub speed_min: u32,
    pub speed_max: u32,
    pub brightness_min: u32,
    pub brightness_max: u32,
    pub colors_min: u32,
    pub colors_max: u32,
    pub speed: u32,
    pub brightness: u32,
    pub direction: u32,
    pub color_mode: u32,
    pub colors: Seq<u32>,
}

impl View for Mode {
    type V = ModeView;

    open spec fn view(&self) -> ModeView {
        ModeView {
            index: self.index,
            name: self.name@,
            value: self.value,
            flags: self.flags,
            speed_min: self.speed_min,
            speed_max: self.speed_max,
            brightness_min: self.brightness_min,
            brightness_max: self.brightness_max,
            colors_min: self.colors_min,
            colors_max: self.colors_max,
            speed: self.speed,
            brightness: self.brightness,
            direction: self.direction,
            color_mode: self.color_mode,
            colors: self.colors@,
        }
    }
}

impl ModeView {
    pub open spec fn dimmable(self) -> bool {
        self.flags & MODE_FLAG_HAS_BRIGHTNESS != 0
    }

    pub open spec fn per_led(self) -> bool {
        self.flags & MODE_FLAG_HAS_PER_LED_COLOR != 0
    }

    pub open spec fn mode_specific(self) -> bool {
        self.flags & MODE_FLAG_HAS_MODE_SPECIFIC_COLOR != 0 && self.colors_max > 0
    }

    /// The twelve words between a mode's name and its colors.
    pub open spec fn words(self) -> Seq<u32> {
        seq![
            wire::bits_of(self.value),
            self.flags,
            self.speed_min,
            self.speed_max,
            self.brightness_min,
            self.brightness_max,
            self.colors_min,
            self.colors_max,
            self.speed,
            self.brightness,
            self.direction,
            self.color_mode,
        ]
    }

    /// A mode as it stands inside a device description.
    pub open spec fn described(self) -> Seq<u8> {
        text_field(self.name) + words_bytes(self.words()) + wire::le16(
            wire::len16(self.colors.len() as int),
        ) + words_bytes(self.colors)
    }

    /// A mode as an update carries it: index in front, prefixed by its size.
    pub open spec fn encoded(self) -> Seq<u8> {
        size_prefixed(wire::le32(wire::bits_of(self.index)) + self.described())
    }
}

impl Mode {
    pub fn has_brightness(&self) -> (r: bool)
        ensures
            r == self@.dimmable(),
    {
        self.flags & MODE_FLAG_HAS_BRIGHTNESS != 0
    }

    pub fn has_per_led_color(&self) -> (r: bool)
        ensures
            r == self@.per_led(),
    {
        self.flags & MODE_FLAG_HAS_PER_LED_COLOR != 0
    }

    pub fn has_mode_specific_color(&self) -> (r: bool)
        ensures
            r == self@.mode_specific(),
    {
        self.flags & MODE_FLAG_HAS_MODE_SPECIFIC_COLOR != 0 && self.colors_max > 0
    }

    /// A copy with the same content.
    pub fn duplicate(&self) -> (r: Mode)
        ensures
            r@ == self@,
    {
        let r = Mode {
            index: self.index,
            name: self.name.clone(),
            value: self.value,
            flags: self.flags,
            speed_min: self.speed_min,
            speed_max: self.speed_max,
            brightness_min: self.brightness_min,
            brightness_max: self.brightness_max,
            colors_min: self.colors_min,
            colors_max: self.colors_max,
            speed: self.speed,
            brightness: self.brightness,
            direction: self.direction,
            color_mode: self.color_mode,
            colors: self.colors.clone(),
        };
        assert(r.colors@ =~= self.colors@);
        r
    }

    /// `RGBController::GetModeDescription` at protocol 3.
    pub fn encode(&self) -> (r: Vec<u8>)
        ensures
            r@ == self@.encoded(),
    {
        let mut body: Vec<u8> = Vec::new();
        wire::put_i32(&mut body, self.index);
        put_string(&mut body, self.name.as_str());
        let words: [u32; 12] = [
            wire::i32_bits(self.value),
            self.flags,
            self.speed_min,
            self.speed_max,
            self.brightness_min,
            self.brightness_max,
            self.colors_min,
            self.colors_max,
            self.speed,
            self.brightness,
            self.direction,
            self.color_mode,
        ];
        assert(words@ =~= self@.words());
        put_words(&mut body, words.as_slice());
        wire::put_u16(&mut body, wire::length16(self.colors.len(), 0));
        put_words(&mut body, self.colors.as_slice());
        assert(body@ =~= wire::le32(wire::bits_of(self.index)) + self@.described());
        with_size_prefix(body)
    }
}

pub fn update_mode(dev_idx: u32, mode: &Mode) -> (r: Vec<u8>)
    ensures
        r@ == framed(dev_idx, pkt::UPDATE_MODE, mode@.encoded()),
{
    let data = mode.encode();
    frame(dev_idx, pkt::UPDATE_MODE, data.as_slice())
}

/// The contents of a list of modes.
pub open spec fn mode_views(list: Seq<Mode>) -> Seq<ModeView> {
    Seq::new(list.len(), |i: int| list[i]@)
}

#[derive(Debug, Clone)]
pub struct Device {
    pub index: u32,
    pub name: String,
    /// `device_type` enum value; kept for logging only.
    pub kind: i32,
    pub active_mode: i32,
    pub modes: Vec<Mode>,
    pub led_count: u16,
}

/// The content of a [`Device`].
#[verifier::ext_equal]
pub struct DeviceView {
    pub index: u32,
    pub name: Seq<char>,
    pub kind: i32,
    pub active_mode: i32,
    pub modes: Seq<ModeView>,
    pub led_count: u16,
}

impl View for Device {
    type V = DeviceView;

    open spec fn view(&self) -> DeviceView {
        DeviceView {
            index: self.index,
            name: self.name@,
            kind: self.kind,
            active_mode: self.active_mode,
            modes: mode_views(self.modes@),
            led_count: self.led_count,
        }
    }
}

// ---------------------------------------------------------------------------
// Reading a device description
// ---------------------------------------------------------------------------

/// Why a device description cannot be read.
#[derive(Debug, Clone, Copy, PartialEq, Eq, Structural)]
pub enum ParseError {
    /// `want` bytes were due at `at`, but the description has only `len`.
    Truncated { want: usize, at: usize, len: usize },
    /// A zone map with more cells than memory could hold.
    AbsurdMatrix { height: u32, width: u32 },
}

/// The position after `n` bytes, if they are there.
pub open spec fn rd_skip(buf: Seq<u8>, pos: int, n: int) -> Result<int, ParseError> {
    if pos + n <= buf.len() {
        Ok(pos + n)
    } else {
        Err(
            ParseError::Truncated {
                want: n as usize,
                at: pos as usize,
                len: buf.len() as usize,
            },
        )
    }
}

/// A 16-bit field and the position after it.
pub open spec fn rd_u16(buf: Seq<u8>, pos: int) -> Result<(u16, int), ParseError> {
    match rd_skip(buf, pos, 2) {
        Ok(end) => Ok((wire::u16_at(buf, pos), end)),
        Err(e) => Err(e),
    }
}

/// `n` 32-bit fields and the position after them.
pub open spec fn rd_words(buf: Seq<u8>, pos: int, n: nat) -> Result<(Seq<u32>, int), ParseError>
    decreases n,
{
    if n == 0 {
        Ok((Seq::empty(), pos))
    } else {
        match rd_words(buf, pos, (n - 1) as nat) {
            Err(e) => Err(e),
            Ok((words, at)) => match rd_skip(buf, at, 4) {
                Ok(end) => Ok((words.push(wire::u32_at(buf, at)), end)),
                Err(e) => Err(e),
            },
        }
    }
}

/// A string field, unread: where its bytes are and the position after it.
pub open spec fn rd_field(buf: Seq<u8>, pos: int) -> Result<(Seq<u8>, int), ParseError> {
    match rd_u16(buf, pos) {
        Err(e) => Err(e),
        Ok((n, at)) => match rd_skip(buf, at, n as int) {
            Ok(end) => Ok((buf.subrange(at, end), end)),
            Err(e) => Err(e),
        },
    }
}

/// A string field, read up to its NUL.
pub open spec fn rd_text(buf: Seq<u8>, pos: int) -> Result<(Seq<char>, int), ParseError> {
    match rd_field(buf, pos) {
        Err(e) => Err(e),
        Ok((raw, end)) => Ok((wire::text_of(wire::before_nul(raw)), end)),
    }
}

/// The position after `n` string fields.
pub open spec fn rd_skip_texts(buf: Seq<u8>, pos: int, n: nat) -> Result<int, ParseError>
    decreases n,
{
    if n == 0 {
        Ok(pos)
    } else {
        match rd_skip_texts(buf, pos, (n - 1) as nat) {
            Err(e) => Err(e),
            Ok(at) => match rd_field(buf, at) {
                Err(e) => Err(e),
                Ok((_, end)) => Ok(end),
            },
        }
    }
}

/// A mode made of its name, its twelve words and its colors.
pub open spec fn assembled_mode(
    index: i32,
    name: Seq<char>,
    w: Seq<u32>,
    colors: Seq<u32>,
) -> ModeView {
    ModeView {
        index,
        name,
        value: wire::from_bits(w[0]),
        flags: w[1],
        speed_min: w[2],
        speed_max: w[3],
        brightness_min: w[4],
        brightness_max: w[5],
        colors_min: w[6],
        colors_max: w[7],
        speed: w[8],
        brightness: w[9],
        direction: w[10],
        color_mode: w[11],
        colors,
    }
}

/// The mode at a position.
pub open spec fn rd_mode(buf: Seq<u8>, pos: int, index: int) -> Result<
    (ModeView, int),
    ParseError,
> {
    match rd_text(buf, pos) {
        Err(e) => Err(e),
        Ok((name, at)) => match rd_words(buf, at, 12) {
            Err(e) => Err(e),
            Ok((w, at)) => match rd_u16(buf, at) {
                Err(e) => Err(e),
                Ok((n, at)) => match rd_words(buf, at, n as nat) {
                    Err(e) => Err(e),
                    Ok((colors, end)) => Ok((assembled_mode(index as i32, name, w, colors), end)),
                },
            },
        },
    }
}

/// `n` modes, numbered from 0, and the position after them.
pub open spec fn rd_modes(buf: Seq<u8>, pos: int, n: nat) -> Result<
    (Seq<ModeView>, int),
    ParseError,
>
    decreases n,
{
    if n == 0 {
        Ok((Seq::empty(), pos))
    } else {
        match rd_modes(buf, pos, (n - 1) as nat) {
            Err(e) => Err(e),
            Ok((modes, at)) => match rd_mode(buf, at, n - 1) {
                Err(e) => Err(e),
                Ok((mode, end)) => Ok((modes.push(mode), end)),
            },
        }
    }
}

/// The position after a zone: name, type, three LED counts, and a map of
/// `height` by `width` words where one is announced.
pub open spec fn rd_zone(buf: Seq<u8>, pos: int) -> Result<int, ParseError> {
    match rd_field(buf, pos) {
        Err(e) => Err(e),
        Ok((_, at)) => match rd_words(buf, at, 4) {
            Err(e) => Err(e),
            Ok((_, at)) => match rd_u16(buf, at) {
                Err(e) => Err(e),
                Ok((matrix_len, at)) => if matrix_len == 0 {
                    Ok(at)
                } else {
                    match rd_words(buf, at, 2) {
                        Err(e) => Err(e),
                        Ok((w, at)) => if w[0] * w[1] * 4 > usize::MAX {
                            Err(ParseError::AbsurdMatrix { height: w[0], width: w[1] })
                        } else {
                            rd_skip(buf, at, w[0] * w[1] * 4)
                        },
                    }
                },
            },
        },
    }
}

/// The position after `n` zones.
pub open spec fn rd_zones(buf: Seq<u8>, pos: int, n: nat) -> Result<int, ParseError>
    decreases n,
{
    if n == 0 {
        Ok(pos)
    } else {
        match rd_zones(buf, pos, (n - 1) as nat) {
            Err(e) => Err(e),
            Ok(at) => rd_zone(buf, at),
        }
    }
}

/// What a description opens with: total size, type, name, five more strings.
/// The type, the name and the position after them.
pub open spec fn rd_intro(buf: Seq<u8>) -> Result<(i32, Seq<char>, int), ParseError> {
    match rd_words(buf, 0, 2) {
        Err(e) => Err(e),
        Ok((head, at)) => match rd_text(buf, at) {
            Err(e) => Err(e),
            Ok((name, at)) => match rd_skip_texts(buf, at, 5) {
                Err(e) => Err(e),
                Ok(at) => Ok((wire::from_bits(head[1]), name, at)),
            },
        },
    }
}

/// The mode section: how many, which is active, the modes themselves.
pub open spec fn rd_mode_section(buf: Seq<u8>, pos: int) -> Result<
    (i32, Seq<ModeView>, int),
    ParseError,
> {
    match rd_u16(buf, pos) {
        Err(e) => Err(e),
        Ok((num_modes, at)) => match rd_words(buf, at, 1) {
            Err(e) => Err(e),
            Ok((active, at)) => match rd_modes(buf, at, num_modes as nat) {
                Err(e) => Err(e),
                Ok((modes, at)) => Ok((wire::from_bits(active[0]), modes, at)),
            },
        },
    }
}

/// The zone section and the LED count behind it.
pub open spec fn rd_led_section(buf: Seq<u8>, pos: int) -> Result<u16, ParseError> {
    match rd_u16(buf, pos) {
        Err(e) => Err(e),
        Ok((num_zones, at)) => match rd_zones(buf, at, num_zones as nat) {
            Err(e) => Err(e),
            Ok(at) => match rd_u16(buf, at) {
                Err(e) => Err(e),
                Ok((led_count, _)) => Ok(led_count),
            },
        },
    }
}

/// The device a description tells of. What follows the LED count is not read.
pub open spec fn parsed_device(index: u32, data: Seq<u8>) -> Result<DeviceView, ParseError> {
    match rd_intro(data) {
        Err(e) => Err(e),
        Ok((kind, name, at)) => match rd_mode_section(data, at) {
            Err(e) => Err(e),
            Ok((active_mode, modes, at)) => match rd_led_section(data, at) {
                Err(e) => Err(e),
                Ok(led_count) => Ok(
                    DeviceView { index, name, kind, active_mode, modes, led_count },
                ),
            },
        },
    }
}

/// Cursor over a device description, bounds-checked so a short or malformed
/// blob is an error instead of a panic.
struct Cursor<'a> {
    buf: &'a [u8],
    pos: usize,
}

impl<'a> Cursor<'a> {
    spec fn wf(&self) -> bool {
        self.pos <= self.buf@.len()
    }

    fn new(buf: &'a [u8]) -> (r: Self)
        ensures
            r.buf@ == buf@,
            r.pos == 0,
    {
        Cursor { buf, pos: 0 }
    }

    /// Step over `n` bytes.
    fn take(&mut self, n: usize) -> (r: Result<usize, ParseError>)
        requires
            old(self).wf(),
        ensures
            final(self).wf(),
            final(self).buf == old(self).buf,
            r matches Ok(at) ==> at == old(self).pos && final(self).pos == at + n && rd_skip(
                old(self).buf@,
                old(self).pos as int,
                n as int,
            ) == Ok::<int, ParseError>(final(self).pos as int),
            r matches Err(e) ==> rd_skip(old(self).buf@, old(self).pos as int, n as int) == Err::<
                int,
                ParseError,
            >(e),
    {
        let at = self.pos;
        if n <= self.buf.len() - at {
            self.pos = at + n;
            Ok(at)
        } else {
            Err(ParseError::Truncated { want: n, at, len: self.buf.len() })
        }
    }

    fn u16(&mut self) -> (r: Result<u16, ParseError>)
        requires
            old(self).wf(),
        ensures
            final(self).wf(),
            final(self).buf == old(self).buf,
            r matches Ok(v) ==> rd_u16(old(self).buf@, old(self).pos as int) == Ok::<
                (u16, int),
                ParseError,
            >((v, final(self).pos as int)),
            r matches Err(e) ==> rd_u16(old(self).buf@, old(self).pos as int) == Err::<
                (u16, int),
                ParseError,
            >(e),
    {
        let at = self.take(2)?;
        Ok(wire::read_u16(self.buf, at))
    }

    /// `n` 32-bit fields.
    fn words(&mut self, n: usize) -> (r: Result<Vec<u32>, ParseError>)
        requires
            old(self).wf(),
        ensures
            final(self).wf(),
            final(self).buf == old(self).buf,
            r matches Ok(v) ==> v@.len() == n && rd_words(
                old(self).buf@,
                old(self).pos as int,
                n as nat,
            ) == Ok::<(Seq<u32>, int), ParseError>((v@, final(self).pos as int)),
            r matches Err(e) ==> rd_words(old(self).buf@, old(self).pos as int, n as nat) == Err::<
                (Seq<u32>, int),
                ParseError,
            >(e),
    {
        let mut out: Vec<u32> = Vec::new();
        let ghost buf = self.buf@;
        let ghost start = self.pos as int;
        let mut i: usize = 0;
        assert(out@ =~= Seq::empty());
        while i < n
            invariant
                i <= n,
                self.wf(),
                self.buf == old(self).buf,
                buf == self.buf@,
                start == old(self).pos,
                out@.len() == i,
                rd_words(buf, start, i as nat) matches Ok(read) && read == (out@, self.pos as int),
            decreases n - i,
        {
            match self.take(4) {
                Ok(at) => {
                    out.push(wire::read_u32(self.buf, at));
                },
                Err(e) => {
                    proof {
                        assert(rd_words(buf, start, (i + 1) as nat) matches Err(f) && f == e);
                        lemma_words_stop(buf, start, (i + 1) as nat, n as nat);
                    }
                    return Err(e);
                },
            }
            i = i + 1;
        }
        Ok(out)
    }

    fn u32(&mut self) -> (r: Result<u32, ParseError>)
        requires
            old(self).wf(),
        ensures
            final(self).wf(),
            final(self).buf == old(self).buf,
            r matches Ok(v) ==> (rd_words(old(self).buf@, old(self).pos as int, 1) matches Ok(read)
                && read.0[0] == v && read.1 == final(self).pos),
            r matches Err(e) ==> (rd_words(old(self).buf@, old(self).pos as int, 1) matches Err(f)
                && f == e),
    {
        let v = self.words(1)?;
        Ok(v[0])
    }

    /// A string field, unread.
    fn field(&mut self) -> (r: Result<&'a [u8], ParseError>)
        requires
            old(self).wf(),
        ensures
            final(self).wf(),
            final(self).buf == old(self).buf,
            r matches Ok(raw) ==> (rd_field(old(self).buf@, old(self).pos as int) matches Ok(read)
                && read == (raw@, final(self).pos as int)),
            r matches Err(e) ==> (rd_field(old(self).buf@, old(self).pos as int) matches Err(f)
                && f == e),
    {
        let n = self.u16()?;
        let at = self.take(n as usize)?;
        Ok(slice_subrange(self.buf, at, at + n as usize))
    }

    /// Length-prefixed string; the length counts the trailing NUL.
    fn string(&mut self) -> (r: Result<String, ParseError>)
        requires
            old(self).wf(),
        ensures
            final(self).wf(),
            final(self).buf == old(self).buf,
            r matches Ok(s) ==> (rd_text(old(self).buf@, old(self).pos as int) matches Ok(read)
                && read == (s@, final(self).pos as int)),
            r matches Err(e) ==> (rd_text(old(self).buf@, old(self).pos as int) matches Err(f) && f
                == e),
    {
        let raw = self.field()?;
        Ok(wire::c_text(raw))
    }

    /// `n` strings nobody needs.
    fn skip_strings(&mut self, n: usize) -> (r: Result<(), ParseError>)
        requires
            old(self).wf(),
        ensures
            final(self).wf(),
            final(self).buf == old(self).buf,
            r is Ok ==> (rd_skip_texts(old(self).buf@, old(self).pos as int, n as nat) matches Ok(
                end,
            ) && end == final(self).pos),
            r matches Err(e) ==> (rd_skip_texts(
                old(self).buf@,
                old(self).pos as int,
                n as nat,
            ) matches Err(f) && f == e),
    {
        let ghost buf = self.buf@;
        let ghost start = self.pos as int;
        let mut i: usize = 0;
        while i < n
            invariant
                i <= n,
                self.wf(),
                self.buf == old(self).buf,
                buf == self.buf@,
                start == old(self).pos,
                rd_skip_texts(buf, start, i as nat) matches Ok(end) && end == self.pos,
            decreases n - i,
        {
            match self.field() {
                Ok(_) => {},
                Err(e) => {
                    proof {
                        assert(rd_skip_texts(buf, start, (i + 1) as nat) matches Err(f) && f == e);
                        lemma_skip_texts_stop(buf, start, (i + 1) as nat, n as nat);
                    }
                    return Err(e);
                },
            }
            i = i + 1;
        }
        Ok(())
    }

    /// One mode.
    fn mode(&mut self, index: u16) -> (r: Result<Mode, ParseError>)
        requires
            old(self).wf(),
        ensures
            final(self).wf(),
            final(self).buf == old(self).buf,
            r matches Ok(m) ==> (rd_mode(
                old(self).buf@,
                old(self).pos as int,
                index as int,
            ) matches Ok(read) && read == (m@, final(self).pos as int)),
            r matches Err(e) ==> (rd_mode(
                old(self).buf@,
                old(self).pos as int,
                index as int,
            ) matches Err(f) && f == e),
    {
        let name = self.string()?;
        let w = self.words(12)?;
        let num_colors = self.u16()?;
        let colors = self.words(num_colors as usize)?;
        Ok(
            Mode {
                index: index as i32,
                name,
                value: wire::bits_i32(w[0]),
                flags: w[1],
                speed_min: w[2],
                speed_max: w[3],
                brightness_min: w[4],
                brightness_max: w[5],
                colors_min: w[6],
                colors_max: w[7],
                speed: w[8],
                brightness: w[9],
                direction: w[10],
                color_mode: w[11],
                colors,
            },
        )
    }

    /// All modes, numbered in order.
    fn modes(&mut self, n: u16) -> (r: Result<Vec<Mode>, ParseError>)
        requires
            old(self).wf(),
        ensures
            final(self).wf(),
            final(self).buf == old(self).buf,
            r matches Ok(list) ==> (rd_modes(
                old(self).buf@,
                old(self).pos as int,
                n as nat,
            ) matches Ok(read) && read == (mode_views(list@), final(self).pos as int)),
            r matches Err(e) ==> (rd_modes(
                old(self).buf@,
                old(self).pos as int,
                n as nat,
            ) matches Err(f) && f == e),
    {
        let mut out: Vec<Mode> = Vec::new();
        let ghost buf = self.buf@;
        let ghost start = self.pos as int;
        let mut i: u16 = 0;
        assert(mode_views(out@) =~= Seq::empty());
        while i < n
            invariant
                i <= n,
                self.wf(),
                self.buf == old(self).buf,
                buf == self.buf@,
                start == old(self).pos,
                rd_modes(buf, start, i as nat) matches Ok(read) && read == (
                    mode_views(out@),
                    self.pos as int,
                ),
            decreases n - i,
        {
            match self.mode(i) {
                Ok(mode) => {
                    let ghost list = out@;
                    out.push(mode);
                    assert(mode_views(out@) =~= mode_views(list).push(mode@));
                },
                Err(e) => {
                    proof {
                        assert(rd_modes(buf, start, (i + 1) as nat) matches Err(f) && f == e);
                        lemma_modes_stop(buf, start, (i + 1) as nat, n as nat);
                    }
                    return Err(e);
                },
            }
            i = i + 1;
        }
        Ok(out)
    }

    /// One zone, skipped.
    fn zone(&mut self) -> (r: Result<(), ParseError>)
        requires
            old(self).wf(),
        ensures
            final(self).wf(),
            final(self).buf == old(self).buf,
            r is Ok ==> (rd_zone(old(self).buf@, old(self).pos as int) matches Ok(end) && end
                == final(self).pos),
            r matches Err(e) ==> (rd_zone(old(self).buf@, old(self).pos as int) matches Err(f) && f
                == e),
    {
        self.field()?;
        // type, leds_min, leds_max, leds_count
        self.words(4)?;
        let matrix_len = self.u16()?;
        if matrix_len > 0 {
            let w = self.words(2)?;
            let height = w[0];
            let width = w[1];
            match map_bytes(height, width) {
                Some(bytes) => {
                    self.take(bytes)?;
                },
                None => {
                    return Err(ParseError::AbsurdMatrix { height, width });
                },
            }
        }
        Ok(())
    }

    /// All zones, skipped.
    fn zones(&mut self, n: u16) -> (r: Result<(), ParseError>)
        requires
            old(self).wf(),
        ensures
            final(self).wf(),
            final(self).buf == old(self).buf,
            r is Ok ==> (rd_zones(old(self).buf@, old(self).pos as int, n as nat) matches Ok(end)
                && end == final(self).pos),
            r matches Err(e) ==> (rd_zones(
                old(self).buf@,
                old(self).pos as int,
                n as nat,
            ) matches Err(f) && f == e),
    {
        let ghost buf = self.buf@;
        let ghost start = self.pos as int;
        let mut i: u16 = 0;
        while i < n
            invariant
                i <= n,
                self.wf(),
                self.buf == old(self).buf,
                buf == self.buf@,
                start == old(self).pos,
                rd_zones(buf, start, i as nat) matches Ok(end) && end == self.pos,
            decreases n - i,
        {
            match self.zone() {
                Ok(_) => {},
                Err(e) => {
                    proof {
                        assert(rd_zones(buf, start, (i + 1) as nat) matches Err(f) && f == e);
                        lemma_zones_stop(buf, start, (i + 1) as nat, n as nat);
                    }
                    return Err(e);
                },
            }
            i = i + 1;
        }
        Ok(())
    }
}

/// The bytes of a zone map, where they can be counted.
fn map_bytes(height: u32, width: u32) -> (r: Option<usize>)
    ensures
        r matches Some(n) ==> n == height * width * 4,
        r is None ==> height * width * 4 > usize::MAX,
{
    let cells: u64 = {
        assert(height * width <= 0xffff_ffff * 0xffff_ffff) by (nonlinear_arith)
            requires
                height <= 0xffff_ffff,
                width <= 0xffff_ffff,
        ;
        assert(height * width >= 0) by (nonlinear_arith)
            requires
                height >= 0,
                width >= 0,
        ;
        height as u64 * width as u64
    };
    let max: u64 = usize::MAX as u64;
    if cells > max / 4 {
        None
    } else {
        Some((cells * 4) as usize)
    }
}

proof fn lemma_words_stop(buf: Seq<u8>, pos: int, i: nat, n: nat)
    requires
        i <= n,
        rd_words(buf, pos, i) is Err,
    ensures
        rd_words(buf, pos, n) == rd_words(buf, pos, i),
    decreases n,
{
    if i < n {
        lemma_words_stop(buf, pos, i, (n - 1) as nat);
    }
}

proof fn lemma_skip_texts_stop(buf: Seq<u8>, pos: int, i: nat, n: nat)
    requires
        i <= n,
        rd_skip_texts(buf, pos, i) is Err,
    ensures
        rd_skip_texts(buf, pos, n) == rd_skip_texts(buf, pos, i),
    decreases n,
{
    if i < n {
        lemma_skip_texts_stop(buf, pos, i, (n - 1) as nat);
    }
}

proof fn lemma_modes_stop(buf: Seq<u8>, pos: int, i: nat, n: nat)
    requires
        i <= n,
        rd_modes(buf, pos, i) is Err,
    ensures
        rd_modes(buf, pos, n) == rd_modes(buf, pos, i),
    decreases n,
{
    if i < n {
        lemma_modes_stop(buf, pos, i, (n - 1) as nat);
    }
}

proof fn lemma_zones_stop(buf: Seq<u8>, pos: int, i: nat, n: nat)
    requires
        i <= n,
        rd_zones(buf, pos, i) is Err,
    ensures
        rd_zones(buf, pos, n) == rd_zones(buf, pos, i),
    decreases n,
{
    if i < n {
        lemma_zones_stop(buf, pos, i, (n - 1) as nat);
    }
}

/// `RGBController::ReadDeviceDescription` at protocol 3.
pub fn parse_device(index: u32, data: &[u8]) -> (r: Result<Device, ParseError>)
    ensures
        r matches Ok(d) ==> parsed_device(index, data@) == Ok::<DeviceView, ParseError>(d@),
        r matches Err(e) ==> parsed_device(index, data@) == Err::<DeviceView, ParseError>(e),
{
    let mut cur = Cursor::new(data);
    // total size, already implied by the packet length, then the device type
    let head = cur.words(2)?;
    let name = cur.string()?;
    // vendor (protocol >= 1), description, version, serial, location
    cur.skip_strings(5)?;
    let num_modes = cur.u16()?;
    let active = cur.u32()?;
    let modes = cur.modes(num_modes)?;
    // Zones are skipped, but must be walked to reach the LED count.
    let num_zones = cur.u16()?;
    cur.zones(num_zones)?;
    let led_count = cur.u16()?;
    Ok(
        Device {
            index,
            name,
            kind: wire::bits_i32(head[1]),
            active_mode: wire::bits_i32(active),
            modes,
            led_count,
        },
    )
}

// ---------------------------------------------------------------------------
// Describing and reading are inverse
// ---------------------------------------------------------------------------

/// `piece` stands at a position of `buf`.
#[verifier::opaque]
pub open spec fn stands_at(buf: Seq<u8>, pos: int, piece: Seq<u8>) -> bool {
    &&& 0 <= pos
    &&& pos + piece.len() <= buf.len()
    &&& buf.subrange(pos, pos + piece.len()) == piece
}

/// What stands somewhere stands there part by part.
proof fn lemma_stands_split(buf: Seq<u8>, pos: int, a: Seq<u8>, b: Seq<u8>)
    requires
        stands_at(buf, pos, a + b),
    ensures
        stands_at(buf, pos, a),
        stands_at(buf, pos + a.len(), b),
{
    reveal(stands_at);
    let whole = buf.subrange(pos, pos + (a + b).len());
    assert(buf.subrange(pos, pos + a.len()) =~= a) by {
        assert forall|i: int| 0 <= i < a.len() implies buf[pos + i] == a[i] by {
            assert(whole[i] == buf[pos + i]);
        }
    }
    assert(buf.subrange(pos + a.len(), pos + a.len() + b.len()) =~= b) by {
        assert forall|i: int| 0 <= i < b.len() implies buf[pos + a.len() + i] == b[i] by {
            assert(whole[a.len() + i] == buf[pos + a.len() + i]);
        }
    }
}

/// A whole buffer stands at its start.
proof fn lemma_stands_whole(buf: Seq<u8>)
    ensures
        stands_at(buf, 0, buf),
{
    reveal(stands_at);
    assert(buf.subrange(0, buf.len() as int) =~= buf);
}

/// A written 16-bit field reads back.
proof fn lemma_rd_u16(buf: Seq<u8>, pos: int, v: u16)
    requires
        stands_at(buf, pos, wire::le16(v)),
    ensures
        rd_u16(buf, pos) == Ok::<(u16, int), ParseError>((v, pos + 2)),
{
    reveal(stands_at);
    wire::law_u16_round_trip(buf, pos, v);
}

/// A written 32-bit field reads back.
proof fn lemma_rd_u32(buf: Seq<u8>, pos: int, v: u32)
    requires
        stands_at(buf, pos, wire::le32(v)),
    ensures
        rd_skip(buf, pos, 4) == Ok::<int, ParseError>(pos + 4),
        wire::u32_at(buf, pos) == v,
{
    reveal(stands_at);
    wire::law_u32_round_trip(buf, pos, v);
}

/// Bytes that are there can be stepped over.
proof fn lemma_rd_skip(buf: Seq<u8>, pos: int, piece: Seq<u8>)
    requires
        stands_at(buf, pos, piece),
    ensures
        rd_skip(buf, pos, piece.len() as int) == Ok::<int, ParseError>(pos + piece.len()),
        buf.subrange(pos, pos + piece.len()) == piece,
        pos >= 0,
{
    reveal(stands_at);
}

/// A text that a string field can carry: without NUL, and short enough for its
/// length to be counted.
pub open spec fn carried(t: Seq<char>) -> bool {
    let bytes = vstd::utf8::encode_utf8(t);
    !bytes.contains(0) && bytes.len() + 1 < 0x1_0000
}

/// A written string field reads as its text.
pub proof fn law_text_round_trip(buf: Seq<u8>, pos: int, t: Seq<char>)
    requires
        stands_at(buf, pos, text_field(t)),
        carried(t),
    ensures
        rd_field(buf, pos) matches Ok(read) && read.1 == pos + text_field(t).len(),
        rd_text(buf, pos) == Ok::<(Seq<char>, int), ParseError>((t, pos + text_field(t).len())),
{
    let bytes = vstd::utf8::encode_utf8(t);
    let n = (bytes.len() + 1) as u16;
    assert(text_field(t) =~= wire::le16(n) + (bytes + seq![0u8]));
    lemma_stands_split(buf, pos, wire::le16(n), bytes + seq![0u8]);
    lemma_rd_u16(buf, pos, n);
    lemma_rd_skip(buf, pos + 2, bytes + seq![0u8]);
    let raw = bytes + seq![0u8];
    assert(raw =~= bytes + seq![0u8] + Seq::<u8>::empty());
    wire::lemma_before_nul(bytes, Seq::empty());
    vstd::utf8::encode_utf8_valid_utf8(t);
    vstd::utf8::encode_utf8_decode_utf8(t);
}

/// Written words read back.
pub proof fn law_words_round_trip(buf: Seq<u8>, pos: int, words: Seq<u32>)
    requires
        stands_at(buf, pos, words_bytes(words)),
    ensures
        words_bytes(words).len() == 4 * words.len(),
        rd_words(buf, pos, words.len()) == Ok::<(Seq<u32>, int), ParseError>(
            (words, pos + 4 * words.len()),
        ),
    decreases words.len(),
{
    if words.len() == 0 {
        assert(words =~= Seq::empty());
    } else {
        let init = words.drop_last();
        lemma_stands_split(buf, pos, words_bytes(init), wire::le32(words.last()));
        law_words_round_trip(buf, pos, init);
        lemma_rd_u32(buf, pos + 4 * init.len(), words.last());
        assert(init.push(words.last()) =~= words);
    }
}

/// A mode that a description can carry.
pub open spec fn mode_carried(m: ModeView) -> bool {
    carried(m.name) && m.colors.len() < 0x1_0000
}

/// A described mode reads back as itself, under the number of its place.
pub proof fn law_mode_round_trip(buf: Seq<u8>, pos: int, m: ModeView)
    requires
        stands_at(buf, pos, m.described()),
        mode_carried(m),
    ensures
        rd_mode(buf, pos, m.index as int) == Ok::<(ModeView, int), ParseError>(
            (m, pos + m.described().len()),
        ),
{
    let a = text_field(m.name);
    let b = words_bytes(m.words());
    let n = m.colors.len() as u16;
    let c = wire::le16(n);
    let d = words_bytes(m.colors);
    assert(m.described() =~= a + (b + (c + d)));
    lemma_stands_split(buf, pos, a, b + (c + d));
    law_text_round_trip(buf, pos, m.name);
    let p1 = pos + a.len();
    lemma_stands_split(buf, p1, b, c + d);
    law_words_round_trip(buf, p1, m.words());
    let p2 = p1 + b.len();
    lemma_stands_split(buf, p2, c, d);
    lemma_rd_u16(buf, p2, n);
    let p3 = p2 + 2;
    law_words_round_trip(buf, p3, m.colors);
    wire::law_bits_round_trip(m.value, 0);
    assert(m.words().len() == 12);
    assert(assembled_mode(m.index, m.name, m.words(), m.colors) =~= m);
}

/// Modes one after the other.
pub open spec fn modes_described(modes: Seq<ModeView>) -> Seq<u8>
    decreases modes.len(),
{
    if modes.len() == 0 {
        Seq::empty()
    } else {
        modes_described(modes.drop_last()) + modes.last().described()
    }
}

/// Modes numbered by their places.
pub open spec fn numbered(modes: Seq<ModeView>) -> bool {
    forall|i: int| 0 <= i < modes.len() ==> (#[trigger] modes[i]).index == i && mode_carried(
        modes[i],
    )
}

/// Described modes read back.
pub proof fn law_modes_round_trip(buf: Seq<u8>, pos: int, modes: Seq<ModeView>)
    requires
        stands_at(buf, pos, modes_described(modes)),
        numbered(modes),
    ensures
        rd_modes(buf, pos, modes.len()) == Ok::<(Seq<ModeView>, int), ParseError>(
            (modes, pos + modes_described(modes).len()),
        ),
    decreases modes.len(),
{
    if modes.len() == 0 {
        assert(modes =~= Seq::empty());
    } else {
        let init = modes.drop_last();
        lemma_stands_split(buf, pos, modes_described(init), modes.last().described());
        assert forall|i: int| 0 <= i < init.len() implies (#[trigger] init[i]).index == i
            && mode_carried(init[i]) by {
            assert(init[i] == modes[i]);
        }
        law_modes_round_trip(buf, pos, init);
        assert(modes.last() == modes[modes.len() - 1]);
        law_mode_round_trip(buf, pos + modes_described(init).len(), modes.last());
        assert(init.push(modes.last()) =~= modes);
    }
}

/// String fields one after the other.
pub open spec fn texts_described(list: Seq<Seq<char>>) -> Seq<u8>
    decreases list.len(),
{
    if list.len() == 0 {
        Seq::empty()
    } else {
        texts_described(list.drop_last()) + text_field(list.last())
    }
}

proof fn lemma_skip_texts(buf: Seq<u8>, pos: int, list: Seq<Seq<char>>)
    requires
        stands_at(buf, pos, texts_described(list)),
        forall|i: int| 0 <= i < list.len() ==> carried(#[trigger] list[i]),
    ensures
        rd_skip_texts(buf, pos, list.len()) == Ok::<int, ParseError>(
            pos + texts_described(list).len(),
        ),
    decreases list.len(),
{
    if list.len() > 0 {
        let init = list.drop_last();
        lemma_stands_split(buf, pos, texts_described(init), text_field(list.last()));
        assert forall|i: int| 0 <= i < init.len() implies carried(#[trigger] init[i]) by {
            assert(init[i] == list[i]);
        }
        lemma_skip_texts(buf, pos, init);
        assert(carried(list[list.len() - 1]));
        law_text_round_trip(buf, pos + texts_described(init).len(), list.last());
    }
}

/// A zone of a described device.
pub struct ZoneView {
    pub name: Seq<char>,
    pub kind: i32,
    pub leds_min: u32,
    pub leds_max: u32,
    pub leds_count: u32,
    /// Announced length of the map, 0 for none.
    pub matrix_len: u16,
    pub height: u32,
    pub width: u32,
    pub cells: Seq<u8>,
}

impl ZoneView {
    /// A zone that a description can carry: its map, if announced, has one
    /// word per cell.
    pub open spec fn carried(self) -> bool {
        &&& carried(self.name)
        &&& self.cells.len() == self.height * self.width * 4
        &&& self.cells.len() <= usize::MAX
    }

    pub open spec fn described(self) -> Seq<u8> {
        text_field(self.name) + words_bytes(
            seq![wire::bits_of(self.kind), self.leds_min, self.leds_max, self.leds_count],
        ) + wire::le16(self.matrix_len) + (if self.matrix_len == 0 {
            Seq::empty()
        } else {
            words_bytes(seq![self.height, self.width]) + self.cells
        })
    }
}

proof fn lemma_zone(buf: Seq<u8>, pos: int, z: ZoneView)
    requires
        stands_at(buf, pos, z.described()),
        z.carried(),
    ensures
        rd_zone(buf, pos) == Ok::<int, ParseError>(pos + z.described().len()),
{
    let a = text_field(z.name);
    let four = seq![wire::bits_of(z.kind), z.leds_min, z.leds_max, z.leds_count];
    let b = words_bytes(four);
    let c = wire::le16(z.matrix_len);
    let two = seq![z.height, z.width];
    let d = if z.matrix_len == 0 {
        Seq::empty()
    } else {
        words_bytes(two) + z.cells
    };
    assert(z.described() =~= a + (b + (c + d)));
    lemma_stands_split(buf, pos, a, b + (c + d));
    law_text_round_trip(buf, pos, z.name);
    let p1 = pos + a.len();
    lemma_stands_split(buf, p1, b, c + d);
    law_words_round_trip(buf, p1, four);
    let p2 = p1 + b.len();
    lemma_stands_split(buf, p2, c, d);
    lemma_rd_u16(buf, p2, z.matrix_len);
    if z.matrix_len != 0 {
        lemma_stands_split(buf, p2 + 2, words_bytes(two), z.cells);
        law_words_round_trip(buf, p2 + 2, two);
        lemma_rd_skip(buf, p2 + 2 + 8, z.cells);
    }
}

/// Zones one after the other.
pub open spec fn zones_described(zones: Seq<ZoneView>) -> Seq<u8>
    decreases zones.len(),
{
    if zones.len() == 0 {
        Seq::empty()
    } else {
        zones_described(zones.drop_last()) + zones.last().described()
    }
}

proof fn lemma_zones(buf: Seq<u8>, pos: int, zones: Seq<ZoneView>)
    requires
        stands_at(buf, pos, zones_described(zones)),
        forall|i: int| 0 <= i < zones.len() ==> (#[trigger] zones[i]).carried(),
    ensures
        rd_zones(buf, pos, zones.len()) == Ok::<int, ParseError>(
            pos + zones_described(zones).len(),
        ),
    decreases zones.len(),
{
    if zones.len() > 0 {
        let init = zones.drop_last();
        lemma_stands_split(buf, pos, zones_described(init), zones.last().described());
        assert forall|i: int| 0 <= i < init.len() implies (#[trigger] init[i]).carried() by {
            assert(init[i] == zones[i]);
        }
        lemma_zones(buf, pos, init);
        assert(zones[zones.len() - 1].carried());
        lemma_zone(buf, pos + zones_described(init).len(), zones.last());
    }
}

/// What a description opens with.
pub open spec fn intro_described(total: u32, kind: i32, name: Seq<char>, strings: Seq<Seq<char>>) -> Seq<
    u8,
> {
    words_bytes(seq![total, wire::bits_of(kind)]) + (text_field(name) + texts_described(strings))
}

/// The mode section of a description.
pub open spec fn mode_section_described(active_mode: i32, modes: Seq<ModeView>) -> Seq<u8> {
    wire::le16(wire::len16(modes.len() as int)) + (words_bytes(seq![wire::bits_of(active_mode)])
        + modes_described(modes))
}

/// The zone section of a description and the LED count.
pub open spec fn led_section_described(zones: Seq<ZoneView>, led_count: u16) -> Seq<u8> {
    wire::le16(wire::len16(zones.len() as int)) + (zones_described(zones) + wire::le16(led_count))
}

/// A device description as a server writes it: total size, type, name, five
/// more strings, modes, zones, LED count, and whatever follows.
pub open spec fn description(
    total: u32,
    d: DeviceView,
    strings: Seq<Seq<char>>,
    zones: Seq<ZoneView>,
    rest: Seq<u8>,
) -> Seq<u8> {
    intro_described(total, d.kind, d.name, strings) + (mode_section_described(
        d.active_mode,
        d.modes,
    ) + (led_section_described(zones, d.led_count) + rest))
}

#[verifier::rlimit(50)]
proof fn lemma_intro(buf: Seq<u8>, total: u32, kind: i32, name: Seq<char>, strings: Seq<Seq<char>>)
    requires
        stands_at(buf, 0, intro_described(total, kind, name, strings)),
        carried(name),
        strings.len() == 5,
        forall|i: int| 0 <= i < strings.len() ==> carried(#[trigger] strings[i]),
    ensures
        rd_intro(buf) == Ok::<(i32, Seq<char>, int), ParseError>(
            (kind, name, intro_described(total, kind, name, strings).len() as int),
        ),
{
    let head = seq![total, wire::bits_of(kind)];
    lemma_stands_split(buf, 0, words_bytes(head), text_field(name) + texts_described(strings));
    law_words_round_trip(buf, 0, head);
    let at = words_bytes(head).len() as int;
    lemma_stands_split(buf, at, text_field(name), texts_described(strings));
    law_text_round_trip(buf, at, name);
    lemma_skip_texts(buf, at + text_field(name).len(), strings);
    wire::law_bits_round_trip(kind, 0);
}

#[verifier::rlimit(50)]
proof fn lemma_mode_section(buf: Seq<u8>, pos: int, active_mode: i32, modes: Seq<ModeView>)
    requires
        stands_at(buf, pos, mode_section_described(active_mode, modes)),
        numbered(modes),
        modes.len() < 0x1_0000,
    ensures
        rd_mode_section(buf, pos) == Ok::<(i32, Seq<ModeView>, int), ParseError>(
            (active_mode, modes, pos + mode_section_described(active_mode, modes).len()),
        ),
{
    let n = wire::len16(modes.len() as int);
    let active = seq![wire::bits_of(active_mode)];
    lemma_stands_split(buf, pos, wire::le16(n), words_bytes(active) + modes_described(modes));
    lemma_rd_u16(buf, pos, n);
    lemma_stands_split(buf, pos + 2, words_bytes(active), modes_described(modes));
    law_words_round_trip(buf, pos + 2, active);
    law_modes_round_trip(buf, pos + 6, modes);
    wire::law_bits_round_trip(active_mode, 0);
}

#[verifier::rlimit(50)]
proof fn lemma_led_section(buf: Seq<u8>, pos: int, zones: Seq<ZoneView>, led_count: u16)
    requires
        stands_at(buf, pos, led_section_described(zones, led_count)),
        zones.len() < 0x1_0000,
        forall|i: int| 0 <= i < zones.len() ==> (#[trigger] zones[i]).carried(),
    ensures
        rd_led_section(buf, pos) == Ok::<u16, ParseError>(led_count),
{
    let n = wire::len16(zones.len() as int);
    lemma_stands_split(buf, pos, wire::le16(n), zones_described(zones) + wire::le16(led_count));
    lemma_rd_u16(buf, pos, n);
    lemma_stands_split(buf, pos + 2, zones_described(zones), wire::le16(led_count));
    lemma_zones(buf, pos + 2, zones);
    lemma_rd_u16(buf, pos + 2 + zones_described(zones).len(), led_count);
}

/// Reading a device's description gives the device.
#[verifier::rlimit(50)]
pub proof fn law_device_round_trip(
    total: u32,
    d: DeviceView,
    strings: Seq<Seq<char>>,
    zones: Seq<ZoneView>,
    rest: Seq<u8>,
)
    requires
        carried(d.name),
        strings.len() == 5,
        forall|i: int| 0 <= i < strings.len() ==> carried(#[trigger] strings[i]),
        numbered(d.modes),
        d.modes.len() < 0x1_0000,
        zones.len() < 0x1_0000,
        forall|i: int| 0 <= i < zones.len() ==> (#[trigger] zones[i]).carried(),
    ensures
        parsed_device(d.index, description(total, d, strings, zones, rest)) == Ok::<
            DeviceView,
            ParseError,
        >(d),
{
    let buf = description(total, d, strings, zones, rest);
    let a = intro_described(total, d.kind, d.name, strings);
    let b = mode_section_described(d.active_mode, d.modes);
    let c = led_section_described(zones, d.led_count);
    lemma_stands_whole(buf);
    lemma_stands_split(buf, 0, a, b + (c + rest));
    lemma_intro(buf, total, d.kind, d.name, strings);
    lemma_stands_split(buf, a.len() as int, b, c + rest);
    lemma_mode_section(buf, a.len() as int, d.active_mode, d.modes);
    lemma_stands_split(buf, (a.len() + b.len()) as int, c, rest);
    lemma_led_section(buf, (a.len() + b.len()) as int, zones, d.led_count);
}

/// An encoded mode update announces its own size and the mode's index, and
/// what follows reads as the mode.
pub proof fn law_update_carries_the_mode(m: ModeView)
    requires
        mode_carried(m),
        m.encoded().len() < 0x1_0000_0000,
    ensures
        ({
            let bytes = m.encoded();
            &&& wire::u32_at(bytes, 0) == bytes.len()
            &&& wire::from_bits(wire::u32_at(bytes, 4)) == m.index
            &&& rd_mode(bytes, 8, m.index as int) == Ok::<(ModeView, int), ParseError>(
                (m, bytes.len() as int),
            )
        }),
{
    let bytes = m.encoded();
    let body = wire::le32(wire::bits_of(m.index)) + m.described();
    let size = wire::len32((body.len() + 4) as int);
    lemma_stands_whole(bytes);
    assert(stands_at(bytes, 0, wire::le32(size) + body));
    lemma_stands_split(bytes, 0, wire::le32(size), body);
    lemma_rd_u32(bytes, 0, size);
    lemma_stands_split(bytes, 4, wire::le32(wire::bits_of(m.index)), m.described());
    lemma_rd_u32(bytes, 4, wire::bits_of(m.index));
    wire::law_bits_round_trip(m.index, 0);
    law_mode_round_trip(bytes, 8, m);
}

// ---------------------------------------------------------------------------
// Laws of the bytes
// ---------------------------------------------------------------------------

/// A packet byte for byte: `ORGB`, then device, number and payload size, each
/// lowest byte first, then the payload.
pub proof fn law_packets_as_bytes(dev_idx: u32, id: u32, data: Seq<u8>, i: int)
    requires
        data.len() <= u32::MAX,
    ensures
        framed(dev_idx, id, data).len() == 16 + data.len(),
        framed(dev_idx, id, data)[0] == 79,
        framed(dev_idx, id, data)[1] == 82,
        framed(dev_idx, id, data)[2] == 71,
        framed(dev_idx, id, data)[3] == 66,
        wire::u32_at(framed(dev_idx, id, data), 4) == dev_idx,
        wire::u32_at(framed(dev_idx, id, data), 8) == id,
        wire::u32_at(framed(dev_idx, id, data), 12) == data.len(),
        0 <= i < data.len() ==> framed(dev_idx, id, data)[16 + i] == data[i],
{
    assert(MAGIC@.len() == 4);
    let b = framed(dev_idx, id, data);
    assert(b.subrange(4, 8) =~= wire::le32(dev_idx));
    assert(b.subrange(8, 12) =~= wire::le32(id));
    assert(b.subrange(12, 16) =~= wire::le32(data.len() as u32));
    wire::law_u32_round_trip(b, 4, dev_idx);
    wire::law_u32_round_trip(b, 8, id);
    wire::law_u32_round_trip(b, 12, data.len() as u32);
}

/// A packet is read only behind `ORGB` and with at most four mebibytes of
/// payload, and then says what its bytes say.
pub proof fn law_packets_as_read(bytes: Seq<u8>)
    ensures
        packet_in(bytes) is Some <==> bytes.len() >= 16 && bytes[0] == 79 && bytes[1] == 82
            && bytes[2] == 71 && bytes[3] == 66 && wire::u32_at(bytes, 12) <= 4194304
            && bytes.len() >= 16 + wire::u32_at(bytes, 12),
        packet_in(bytes) is Some ==> (packet_in(bytes)->0).0.dev_idx == wire::u32_at(bytes, 4) && (
        packet_in(bytes)->0).0.id == wire::u32_at(bytes, 8) && (packet_in(bytes)->0).0.data
            == bytes.subrange(16, 16 + wire::u32_at(bytes, 12)) && (packet_in(bytes)->0).1 == 16
            + wire::u32_at(bytes, 12),
{
    assert(MAGIC@.len() == 4);
    if bytes.len() >= 16 {
        let head = bytes.take(4);
        assert(head[0] == bytes[0] && head[1] == bytes[1] && head[2] == bytes[2] && head[3]
            == bytes[3]);
        if bytes[0] == 79 && bytes[1] == 82 && bytes[2] == 71 && bytes[3] == 66 {
            assert(head =~= MAGIC@);
        }
    }
}

/// What a mode can do, by the bits of its flags.
pub proof fn law_mode_flags(m: ModeView)
    ensures
        m.dimmable() <==> m.flags & 0x10 != 0,
        m.per_led() <==> m.flags & 0x20 != 0,
        m.mode_specific() <==> m.flags & 0x40 != 0 && m.colors_max > 0,
{
}

/// A color goes out as red, green, blue and a zero byte.
pub proof fn law_color_bytes(c: Rgb)
    ensures
        wire::le32(c.packed()) == seq![c.r, c.g, c.b, 0u8],
{
    assert(wire::le32(c.packed()) =~= seq![c.r, c.g, c.b, 0u8]);
}

/// A color's text is read two digits at a time, red first, with or without the
/// `#` in front; anything but six digits is no color.
pub proof fn law_color_texts(s: Seq<char>)
    ensures
        s.len() == 6 && s[0] != '#' && (forall|i: int|
            0 <= i < 6 ==> text::hex_value(#[trigger] s[i]) is Some) ==> parsed_color(s) == Some(
            Rgb {
                r: (16 * text::hex_value(s[0])->0 + text::hex_value(s[1])->0) as u8,
                g: (16 * text::hex_value(s[2])->0 + text::hex_value(s[3])->0) as u8,
                b: (16 * text::hex_value(s[4])->0 + text::hex_value(s[5])->0) as u8,
            },
        ),
        s.len() > 0 && s[0] != '#' ==> parsed_color(seq!['#'] + s) == parsed_color(s),
        parsed_color(s) is Some ==> s.len() == 6 || (s.len() == 7 && s[0] == '#'),
{
    assert((seq!['#'] + s).drop_first() =~= s);
}

proof fn lemma_words_bytes(words: Seq<u32>, i: int)
    requires
        0 <= i < words.len(),
    ensures
        words_bytes(words).len() == 4 * words.len(),
        words_bytes(words).subrange(4 * i, 4 * i + 4) == wire::le32(words[i]),
    decreases words.len(),
{
    let front = words_bytes(words.drop_last());
    lemma_words_len(words.drop_last());
    lemma_words_len(words);
    if i < words.len() - 1 {
        lemma_words_bytes(words.drop_last(), i);
        assert(words_bytes(words).subrange(4 * i, 4 * i + 4) =~= front.subrange(4 * i, 4 * i + 4));
    } else {
        assert(words_bytes(words).subrange(4 * i, 4 * i + 4) =~= wire::le32(words[i]));
    }
}

proof fn lemma_words_len(words: Seq<u32>)
    ensures
        words_bytes(words).len() == 4 * words.len(),
    decreases words.len(),
{
    if words.len() > 0 {
        lemma_words_len(words.drop_last());
    }
}

proof fn lemma_led_head(head: Seq<u8>, size: u32, count: u16, rest: Seq<u8>)
    requires
        head == wire::le32(size) + wire::le16(count),
    ensures
        wire::u32_at(head + rest, 0) == size,
        wire::u16_at(head + rest, 4) == count,
{
    let b = head + rest;
    assert(b.subrange(0, 4) =~= wire::le32(size));
    wire::law_u32_round_trip(b, 0, size);
    assert(b.subrange(4, 6) =~= wire::le16(count));
    wire::law_u16_round_trip(b, 4, count);
}

proof fn lemma_led_word(words: Seq<u32>, color: Rgb, i: int)
    requires
        0 <= i < words.len(),
        words[i] == color.packed(),
    ensures
        words_bytes(words).len() == 4 * words.len(),
        words_bytes(words)[4 * i] == color.r,
        words_bytes(words)[4 * i + 1] == color.g,
        words_bytes(words)[4 * i + 2] == color.b,
        words_bytes(words)[4 * i + 3] == 0,
{
    let wb = words_bytes(words);
    lemma_words_bytes(words, i);
    law_color_bytes(color);
    let at = wb.subrange(4 * i, 4 * i + 4);
    assert(at[0] == wb[4 * i] && at[1] == wb[4 * i + 1] && at[2] == wb[4 * i + 2] && at[3] == wb[4
        * i + 3]);
}

proof fn lemma_led_sizes(color: Rgb, led_count: u16)
    ensures
        ({
            let words = Seq::new(led_count as nat, |j: int| color.packed());
            let head = wire::le32((6 + 4 * led_count) as u32) + wire::le16(led_count);
            size_prefixed(leds_body(color, led_count)) == head + words_bytes(words)
        }),
{
    let words = Seq::new(led_count as nat, |j: int| color.packed());
    let size = (6 + 4 * led_count) as u32;
    lemma_words_len(words);
    assert(leds_body(color, led_count).len() == 2 + 4 * led_count);
    assert(wire::len32(6 + 4 * led_count) == size);
    assert(size_prefixed(leds_body(color, led_count)) =~= wire::le32(size) + wire::le16(led_count)
        + words_bytes(words));
}

/// An LED update: its own size, how many LEDs, and for each of them the same
/// red, green, blue and a zero byte.
#[verifier::rlimit(30)]
pub proof fn law_led_update_bytes(color: Rgb, led_count: u16, i: int)
    requires
        0 <= i < led_count,
    ensures
        ({
            let b = size_prefixed(leds_body(color, led_count));
            &&& b.len() == 6 + 4 * led_count
            &&& wire::u32_at(b, 0) == 6 + 4 * led_count
            &&& wire::u16_at(b, 4) == led_count
            &&& b[6 + 4 * i] == color.r
            &&& b[7 + 4 * i] == color.g
            &&& b[8 + 4 * i] == color.b
            &&& b[9 + 4 * i] == 0
        }),
{
    let words = Seq::new(led_count as nat, |j: int| color.packed());
    let size = (6 + 4 * led_count) as u32;
    let head = wire::le32(size) + wire::le16(led_count);
    let wb = words_bytes(words);
    lemma_led_sizes(color, led_count);
    lemma_led_head(head, size, led_count, wb);
    lemma_led_word(words, color, i);
    let b = head + wb;
    assert(head.len() == 6);
    assert(b[6 + 4 * i] == wb[4 * i]);
    assert(b[7 + 4 * i] == wb[4 * i + 1]);
    assert(b[8 + 4 * i] == wb[4 * i + 2]);
    assert(b[9 + 4 * i] == wb[4 * i + 3]);
}

/// A string field: the length of its bytes and their NUL, the bytes, the NUL.
pub proof fn law_text_field_bytes(t: Seq<char>, i: int)
    requires
        vstd::utf8::encode_utf8(t).len() < 65535,
    ensures
        text_field(t).len() == vstd::utf8::encode_utf8(t).len() + 3,
        wire::u16_at(text_field(t), 0) == vstd::utf8::encode_utf8(t).len() + 1,
        0 <= i < vstd::utf8::encode_utf8(t).len() ==> text_field(t)[2 + i]
            == vstd::utf8::encode_utf8(t)[i],
        text_field(t).last() == 0,
{
    let n = vstd::utf8::encode_utf8(t).len();
    assert(text_field(t).subrange(0, 2) =~= wire::le16((n + 1) as u16));
    wire::law_u16_round_trip(text_field(t), 0, (n + 1) as u16);
}

/// The fields of a mode behind its name, each by its place.
#[verifier::rlimit(30)]
pub proof fn law_mode_field_places(m: ModeView, i: int)
    requires
        m.colors.len() < 65536,
        0 <= i < m.colors.len(),
    ensures
        ({
            let b = m.described();
            let at = text_field(m.name).len() as int;
            &&& wire::u32_at(b, at) == wire::bits_of(m.value)
            &&& wire::u32_at(b, at + 4) == m.flags
            &&& wire::u32_at(b, at + 8) == m.speed_min
            &&& wire::u32_at(b, at + 12) == m.speed_max
            &&& wire::u32_at(b, at + 16) == m.brightness_min
            &&& wire::u32_at(b, at + 20) == m.brightness_max
            &&& wire::u32_at(b, at + 24) == m.colors_min
            &&& wire::u32_at(b, at + 28) == m.colors_max
            &&& wire::u32_at(b, at + 32) == m.speed
            &&& wire::u32_at(b, at + 36) == m.brightness
            &&& wire::u32_at(b, at + 40) == m.direction
            &&& wire::u32_at(b, at + 44) == m.color_mode
            &&& wire::u16_at(b, at + 48) == m.colors.len()
            &&& wire::u32_at(b, at + 50 + 4 * i) == m.colors[i]
            &&& b.len() == at + 50 + 4 * m.colors.len()
        }),
{
    let b = m.described();
    let at = text_field(m.name).len() as int;
    let w = m.words();
    assert(w.len() == 12);
    lemma_words_len(w);
    lemma_words_len(m.colors);
    let wb = words_bytes(w);
    let cb = words_bytes(m.colors);
    assert forall|j: int| 0 <= j < 12 implies #[trigger] wire::u32_at(b, at + 4 * j) == w[j] by {
        lemma_words_bytes(w, j);
        assert(b.subrange(at + 4 * j, at + 4 * j + 4) =~= wb.subrange(4 * j, 4 * j + 4));
        wire::law_u32_round_trip(b, at + 4 * j, w[j]);
    }
    assert(wire::u32_at(b, at + 4 * 0) == w[0]);
    assert(wire::u32_at(b, at + 4 * 1) == w[1]);
    assert(wire::u32_at(b, at + 4 * 2) == w[2]);
    assert(wire::u32_at(b, at + 4 * 3) == w[3]);
    assert(wire::u32_at(b, at + 4 * 4) == w[4]);
    assert(wire::u32_at(b, at + 4 * 5) == w[5]);
    assert(wire::u32_at(b, at + 4 * 6) == w[6]);
    assert(wire::u32_at(b, at + 4 * 7) == w[7]);
    assert(wire::u32_at(b, at + 4 * 8) == w[8]);
    assert(wire::u32_at(b, at + 4 * 9) == w[9]);
    assert(wire::u32_at(b, at + 4 * 10) == w[10]);
    assert(wire::u32_at(b, at + 4 * 11) == w[11]);
    assert(b.subrange(at + 48, at + 50) =~= wire::le16(m.colors.len() as u16));
    wire::law_u16_round_trip(b, at + 48, m.colors.len() as u16);
    lemma_words_bytes(m.colors, i);
    assert(b.subrange(at + 50 + 4 * i, at + 54 + 4 * i) =~= cb.subrange(4 * i, 4 * i + 4));
    wire::law_u32_round_trip(b, at + 50 + 4 * i, m.colors[i]);
}

/// A device that was read carries the number it was asked for under; its
/// description opens with its size and its kind.
pub proof fn law_devices_as_read(index: u32, data: Seq<u8>)
    requires
        parsed_device(index, data) is Ok,
    ensures
        (parsed_device(index, data)->Ok_0).index == index,
        data.len() >= 8,
        (parsed_device(index, data)->Ok_0).kind == wire::from_bits(wire::u32_at(data, 4)),
{
    reveal_with_fuel(rd_words, 3);
}

/// The limits of a packet and the color mode that a mode's own color takes.
pub proof fn law_protocol_constants()
    ensures
        HEADER_LEN == 16,
        MAX_PACKET == 4 * 1024 * 1024,
        MODE_COLORS_MODE_SPECIFIC == 2,
{
}

/// A header is followed where it begins with `ORGB` and announces at most four
/// mebibytes; otherwise the fault is told with what was found.
pub proof fn law_headers_as_read(bytes: Seq<u8>, r: Result<Header, HeaderError>)
    requires
        bytes.len() >= 16,
        header_read(bytes, r),
    ensures
        ({
            let magic = bytes[0] == 79 && bytes[1] == 82 && bytes[2] == 71 && bytes[3] == 66;
            let size = wire::u32_at(bytes, 12);
            &&& r is Ok <==> magic && size <= 4194304
            &&& r is Ok ==> (r->Ok_0).dev_idx == wire::u32_at(bytes, 4) && (r->Ok_0).id
                == wire::u32_at(bytes, 8) && (r->Ok_0).size == size
            &&& !magic ==> r is Err && r->Err_0 is BadMagic && (r->Err_0->found)@ == bytes.take(4)
            &&& magic && size > 4194304 ==> r is Err && r->Err_0 is TooLarge
                && r->Err_0->TooLarge_id == wire::u32_at(bytes, 8) && r->Err_0->TooLarge_size
                == size
        }),
{
    assert(MAGIC@.len() == 4);
    let head = bytes.take(4);
    assert(head[0] == bytes[0] && head[1] == bytes[1] && head[2] == bytes[2] && head[3] == bytes[3]);
    if bytes[0] == 79 && bytes[1] == 82 && bytes[2] == 71 && bytes[3] == 66 {
        assert(head =~= MAGIC@);
    }
}

} // verus!
