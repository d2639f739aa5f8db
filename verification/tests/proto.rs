//! The OpenRGB wire protocol.

use km_hub::rgb::proto::{
    frame, parse_device, parse_header, pkt, put_string, read_packet, req_client_name, req_controller_count,
    req_controller_data, req_protocol_version, req_rescan_devices, update_leds, update_mode,
    with_size_prefix, HeaderError, Mode, PacketError, ParseError, Rgb, HEADER_LEN, MAGIC, MAX_PACKET,
    MODE_FLAG_HAS_BRIGHTNESS, MODE_FLAG_HAS_PER_LED_COLOR, PROTOCOL_VERSION,
};

fn red() -> Rgb {
    Rgb {
        r: 0xff,
        g: 0,
        b: 0,
    }
}

#[test]
fn parses_hex_colors() {
    assert_eq!(Rgb::parse("#ff0000").unwrap(), red());
    assert_eq!(Rgb::parse("FF0000").unwrap(), red());
    assert_eq!(
        Rgb::parse("#0a141e").unwrap(),
        Rgb {
            r: 10,
            g: 20,
            b: 30
        }
    );
    for bad in ["#ff00", "#ff00000", "#gg0000", "", "red"] {
        assert!(Rgb::parse(bad).is_err(), "{bad} should not parse");
    }
}

#[test]
fn color_wire_order_is_bgr() {
    // 0x00BBGGRR
    assert_eq!(red().to_wire(), 0x0000_00ff);
    assert_eq!(Rgb { r: 0, g: 0, b: 0xff }.to_wire(), 0x00ff_0000);
    assert_eq!(
        Rgb {
            r: 0x11,
            g: 0x22,
            b: 0x33
        }
        .to_wire(),
        0x0033_2211
    );
}

#[test]
fn update_leds_payload_is_byte_exact() {
    let packet = update_leds(2, red(), 3);
    assert_eq!(&packet[..4], &MAGIC[..]);
    assert_eq!(u32::from_le_bytes(packet[4..8].try_into().unwrap()), 2);
    assert_eq!(
        u32::from_le_bytes(packet[8..12].try_into().unwrap()),
        pkt::UPDATE_LEDS
    );
    let size = u32::from_le_bytes(packet[12..16].try_into().unwrap()) as usize;
    let body = &packet[16..];
    assert_eq!(size, body.len());
    // size prefix (4) + count (2) + 3 colors (12)
    assert_eq!(body.len(), 18);
    assert_eq!(u32::from_le_bytes(body[..4].try_into().unwrap()), 18);
    assert_eq!(u16::from_le_bytes(body[4..6].try_into().unwrap()), 3);
    for chunk in body[6..].chunks(4) {
        assert_eq!(u32::from_le_bytes(chunk.try_into().unwrap()), 0xff);
    }
}

fn sample_mode(index: i32, name: &str, flags: u32) -> Mode {
    Mode {
        index,
        name: name.into(),
        value: 7,
        flags,
        speed_min: 1,
        speed_max: 9,
        brightness_min: 0,
        brightness_max: 100,
        colors_min: 0,
        colors_max: 1,
        speed: 5,
        brightness: 42,
        direction: 0,
        color_mode: 1,
        colors: vec![red().to_wire()],
    }
}

/// Encode a mode the way the server would inside a device description, so
/// the parser and the encoder are checked against each other.
fn push_mode(out: &mut Vec<u8>, mode: &Mode) {
    put_string(out, &mode.name);
    out.extend_from_slice(&mode.value.to_le_bytes());
    for v in [
        mode.flags,
        mode.speed_min,
        mode.speed_max,
        mode.brightness_min,
        mode.brightness_max,
        mode.colors_min,
        mode.colors_max,
        mode.speed,
        mode.brightness,
        mode.direction,
        mode.color_mode,
    ] {
        out.extend_from_slice(&v.to_le_bytes());
    }
    out.extend_from_slice(&(mode.colors.len() as u16).to_le_bytes());
    for c in &mode.colors {
        out.extend_from_slice(&c.to_le_bytes());
    }
}

fn sample_description(modes: &[Mode], zone_leds: &[(u32, Option<(u32, u32)>)]) -> Vec<u8> {
    let mut body = Vec::new();
    body.extend_from_slice(&1i32.to_le_bytes()); // device type
    put_string(&mut body, "SteelSeries Apex 3");
    for text in ["SteelSeries", "desc", "1.0", "serial", "location"] {
        put_string(&mut body, text);
    }
    body.extend_from_slice(&(modes.len() as u16).to_le_bytes());
    body.extend_from_slice(&0i32.to_le_bytes()); // active mode
    for mode in modes {
        push_mode(&mut body, mode);
    }
    body.extend_from_slice(&(zone_leds.len() as u16).to_le_bytes());
    let mut total_leds = 0u16;
    for (leds, matrix) in zone_leds {
        put_string(&mut body, "zone");
        body.extend_from_slice(&1i32.to_le_bytes()); // zone type
        body.extend_from_slice(&0u32.to_le_bytes()); // leds_min
        body.extend_from_slice(&leds.to_le_bytes()); // leds_max
        body.extend_from_slice(&leds.to_le_bytes()); // leds_count
        match matrix {
            Some((h, w)) => {
                body.extend_from_slice(&((h * w * 4) as u16).to_le_bytes());
                body.extend_from_slice(&h.to_le_bytes());
                body.extend_from_slice(&w.to_le_bytes());
                body.extend(std::iter::repeat_n(0u8, (h * w * 4) as usize));
            }
            None => body.extend_from_slice(&0u16.to_le_bytes()),
        }
        total_leds += *leds as u16;
    }
    body.extend_from_slice(&total_leds.to_le_bytes());
    for _ in 0..total_leds {
        put_string(&mut body, "led");
        body.extend_from_slice(&0u32.to_le_bytes());
    }
    body.extend_from_slice(&total_leds.to_le_bytes());
    for _ in 0..total_leds {
        body.extend_from_slice(&0u32.to_le_bytes());
    }
    with_size_prefix(body)
}

#[test]
fn parses_a_v3_device_description() {
    let modes = vec![
        sample_mode(0, "Static", MODE_FLAG_HAS_BRIGHTNESS),
        sample_mode(
            1,
            "Direct",
            MODE_FLAG_HAS_BRIGHTNESS | MODE_FLAG_HAS_PER_LED_COLOR,
        ),
    ];
    let blob = sample_description(&modes, &[(4, None), (6, Some((2, 3)))]);
    let device = parse_device(3, &blob).unwrap();
    assert_eq!(device.index, 3);
    assert_eq!(device.name, "SteelSeries Apex 3");
    assert_eq!(device.led_count, 10);
    assert_eq!(device.active_mode, 0);
    assert_eq!(device.modes, modes);
    assert!(device.modes[1].has_per_led_color());
    assert!(!device.modes[0].has_per_led_color());
}

#[test]
fn mode_encode_round_trips_through_the_parser() {
    let mut mode = sample_mode(0, "Direct", MODE_FLAG_HAS_BRIGHTNESS);
    mode.brightness = 77;
    let blob = sample_description(std::slice::from_ref(&mode), &[(1, None)]);
    let parsed = parse_device(0, &blob).unwrap().modes.remove(0);
    assert_eq!(parsed, mode);

    // The UpdateMode payload carries the same fields, prefixed by its size.
    let packet = update_mode(1, &parsed);
    let body = &packet[16..];
    assert_eq!(
        u32::from_le_bytes(body[..4].try_into().unwrap()) as usize,
        body.len()
    );
    assert_eq!(i32::from_le_bytes(body[4..8].try_into().unwrap()), 0);
}

#[test]
fn truncated_description_errors_instead_of_panicking() {
    let blob = sample_description(&[sample_mode(0, "Direct", 0)], &[(2, None)]);
    let needed = (0..=blob.len())
        .find(|&cut| parse_device(0, &blob[..cut]).is_ok())
        .expect("the whole blob parses");
    // Anything short of what the parser reads is an error, never a panic.
    for cut in 0..needed {
        assert!(parse_device(0, &blob[..cut]).is_err(), "cut at {cut}");
    }
    // Parsing stops at the LED count; the LED and color arrays after it are
    // skipped, so they are not required to be present.
    assert!(needed < blob.len());
    assert_eq!(parse_device(0, &blob[..needed]).unwrap().led_count, 2);
}

#[test]
fn reads_a_framed_packet() {
    let bytes = req_controller_data(5);
    let (packet, used) = read_packet(&bytes).unwrap();
    assert_eq!(used, bytes.len());
    assert_eq!(packet.dev_idx, 5);
    assert_eq!(packet.id, pkt::CONTROLLER_DATA);
    assert_eq!(
        u32::from_le_bytes(packet.data[..].try_into().unwrap()),
        PROTOCOL_VERSION
    );
}

#[test]
fn a_packet_is_read_from_the_front_of_a_stream() {
    let mut bytes = frame(7, 9, &[1, 2, 3]);
    let whole = bytes.len();
    bytes.extend(frame(8, 1, &[]));
    let (packet, used) = read_packet(&bytes).unwrap();
    assert_eq!((packet.dev_idx, packet.id, packet.data), (7, 9, vec![1, 2, 3]));
    assert_eq!(used, whole);
    for cut in 0..whole {
        assert_eq!(read_packet(&bytes[..cut]).unwrap_err(), PacketError::Ends);
    }
}

#[test]
fn rescan_request_is_a_bare_header() {
    let packet = req_rescan_devices();
    assert_eq!(packet.len(), HEADER_LEN);
    assert_eq!(
        u32::from_le_bytes(packet[8..12].try_into().unwrap()),
        pkt::RESCAN_DEVICES
    );
    assert_eq!(u32::from_le_bytes(packet[12..16].try_into().unwrap()), 0);
}

#[test]
fn rejects_a_bad_magic() {
    let mut bytes = req_controller_count();
    bytes[0] = b'X';
    assert!(read_packet(&bytes).is_err());
    assert_eq!(
        parse_header(bytes[..HEADER_LEN].try_into().unwrap()),
        Err(HeaderError::BadMagic { found: *b"XRGB" })
    );
}

#[test]
fn rejects_an_oversized_packet() {
    let mut bytes = frame(1, 2, &[]);
    bytes[12..16].copy_from_slice(&(MAX_PACKET + 1).to_le_bytes());
    assert_eq!(
        parse_header(bytes[..HEADER_LEN].try_into().unwrap()),
        Err(HeaderError::TooLarge { id: 2, size: MAX_PACKET + 1 })
    );
    assert_eq!(
        read_packet(&bytes).unwrap_err(),
        PacketError::Header(HeaderError::TooLarge { id: 2, size: MAX_PACKET + 1 })
    );
    bytes[12..16].copy_from_slice(&MAX_PACKET.to_le_bytes());
    assert!(parse_header(bytes[..HEADER_LEN].try_into().unwrap()).is_ok());
}

#[test]
fn colors_print_as_they_parse() {
    let c = Rgb { r: 10, g: 20, b: 30 };
    assert_eq!(c.to_string(), "#0a141e");
    assert_eq!(Rgb::parse(&c.to_string()).unwrap(), c);
    assert_eq!(Rgb::off(), Rgb { r: 0, g: 0, b: 0 });
    assert_eq!(Rgb::parse("red").unwrap_err().message(), "invalid color 'red' (expected #RRGGBB)");
}

#[test]
fn requests_are_framed() {
    assert_eq!(req_controller_count().len(), HEADER_LEN);
    let version = req_protocol_version();
    assert_eq!(&version[HEADER_LEN..], &PROTOCOL_VERSION.to_le_bytes()[..]);
    let name = req_client_name("km-hub");
    assert_eq!(&name[HEADER_LEN..], b"km-hub\0");
}

/// Names that are not UTF-8 are read with replacement characters.
#[test]
fn broken_names_are_read_lossily() {
    let mut blob = sample_description(&[sample_mode(0, "Direct", 0)], &[(2, None)]);
    // The name follows the size, the type and its own length.
    blob[10] = 0xFF;
    let device = parse_device(0, &blob).unwrap();
    assert_eq!(device.name, "\u{FFFD}teelSeries Apex 3");
}

#[test]
fn an_absurd_matrix_is_rejected() {
    let mut blob = sample_description(&[], &[(2, Some((2, 3)))]);
    let at = blob.len() - 2 - 2 * (2 + 4 + 4) - 2 - 2 * 4 - 2 * 3 * 4 - 8;
    assert_eq!(u32::from_le_bytes(blob[at..at + 4].try_into().unwrap()), 2);
    blob[at..at + 4].copy_from_slice(&u32::MAX.to_le_bytes());
    blob[at + 4..at + 8].copy_from_slice(&u32::MAX.to_le_bytes());
    assert_eq!(
        parse_device(0, &blob).unwrap_err(),
        ParseError::AbsurdMatrix { height: u32::MAX, width: u32::MAX }
    );
}
