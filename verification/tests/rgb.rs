//! Slot lighting: colors, animations, idling and the session with the server.

use km_hub::config::{
    default_bound_color, default_idle_timeout_secs, default_local_color, default_pairing_color,
    default_palette, default_rgb_server, RawRgb, RgbSettings,
};
use km_hub::rgb::conn::{Link, Session, SessionError, Step};
use km_hub::rgb::proto::{
    pkt, put_string, with_size_prefix, Device, Mode, Packet, Rgb, HEADER_LEN,
    MODE_FLAG_HAS_BRIGHTNESS, MODE_FLAG_HAS_PER_LED_COLOR,
};
use km_hub::rgb::{
    choose_mode, dim, fade_step, map_brightness, Activity, Anim, Frame, Lights, RgbEvent,
    ACTIVITY_COALESCE_MS, FADE_IN_MS, FADE_IN_STEP, FADE_OUT_MS, FADE_OUT_STEP,
};
use km_hub::time::{Duration, Instant};

const START: Instant = Instant { nanos: 5_000_000_000 };

/// Lighting on, at 60 %, otherwise as it comes.
fn lit_settings() -> RgbSettings {
    RgbSettings::parse(
        &RawRgb {
            enabled: true,
            server: default_rgb_server(),
            brightness: 60,
            local_color: default_local_color(),
            pairing_color: default_pairing_color(),
            bound_color: default_bound_color(),
            palette: default_palette(),
            idle_timeout_secs: default_idle_timeout_secs(),
        },
        &[],
    )
    .expect("built-in defaults are valid")
}


fn mode(name: &str, flags: u32, min: u32, max: u32) -> Mode {
    Mode {
        index: 0,
        name: name.into(),
        value: 0,
        flags,
        speed_min: 0,
        speed_max: 0,
        brightness_min: min,
        brightness_max: max,
        colors_min: 0,
        colors_max: 1,
        speed: 0,
        brightness: 0,
        direction: 0,
        color_mode: 0,
        colors: Vec::new(),
    }
}

#[test]
fn brightness_maps_into_the_modes_own_range() {
    let m = mode("Direct", MODE_FLAG_HAS_BRIGHTNESS, 0, 100);
    assert_eq!(map_brightness(0, &m), 0);
    assert_eq!(map_brightness(60, &m), 60);
    assert_eq!(map_brightness(100, &m), 100);

    let m = mode("Direct", MODE_FLAG_HAS_BRIGHTNESS, 10, 50);
    assert_eq!(map_brightness(0, &m), 10);
    assert_eq!(map_brightness(50, &m), 30);
    assert_eq!(map_brightness(100, &m), 50);
    // Over-range input is clamped, not wrapped.
    assert_eq!(map_brightness(255, &m), 50);

    // A mode with no usable range collapses to its minimum.
    assert_eq!(map_brightness(75, &mode("Static", 0, 7, 7)), 7);
}

#[test]
fn devices_without_the_brightness_flag_are_left_alone() {
    let m = mode("Direct", MODE_FLAG_HAS_PER_LED_COLOR, 0, 100);
    assert!(!m.has_brightness());
    assert!(m.has_per_led_color());
}

fn device(modes: Vec<Mode>, active: i32) -> Device {
    Device {
        index: 0,
        name: "test".into(),
        kind: 0,
        active_mode: active,
        modes,
        led_count: 4,
    }
}

#[test]
fn mode_choice_prefers_direct_then_per_led_then_active() {
    let dev = device(
        vec![
            mode("Static", 0, 0, 0),
            mode("Rainbow", MODE_FLAG_HAS_PER_LED_COLOR, 0, 0),
            mode("Direct", MODE_FLAG_HAS_PER_LED_COLOR, 0, 0),
        ],
        0,
    );
    assert_eq!(choose_mode(&dev).unwrap().name, "Direct");

    let dev = device(
        vec![
            mode("Static", 0, 0, 0),
            mode("Rainbow", MODE_FLAG_HAS_PER_LED_COLOR, 0, 0),
        ],
        0,
    );
    assert_eq!(choose_mode(&dev).unwrap().name, "Rainbow");

    let dev = device(vec![mode("Static", 0, 0, 0), mode("Breathing", 0, 0, 0)], 1);
    assert_eq!(choose_mode(&dev).unwrap().name, "Breathing");

    assert!(choose_mode(&device(Vec::new(), 0)).is_none());
}

/// Animation tests: idle blanking off, so every deadline and every frame
/// belongs to the animation under test.
fn lights() -> Lights {
    idle_lights(None).0
}

/// Idle tests: an explicit timeout, plus the instant the clock starts from.
fn idle_lights(idle_timeout: Option<Duration>) -> (Lights, Instant) {
    let mut settings = lit_settings();
    settings.idle_timeout = idle_timeout;
    let start = START;
    (Lights::new(settings, 1, start), start)
}

/// Jump to the next scheduled deadline and fire it, exactly as `run`'s
/// timer arm does. Returns the instant it fired at.
fn advance(l: &mut Lights) -> Instant {
    let at = l.next_tick().expect("nothing scheduled");
    l.tick(at);
    at
}

/// Run the fade to a standstill. Bounded so a state machine that never
/// settles fails the test instead of hanging it.
fn settle_fade(l: &mut Lights) {
    for _ in 0..64 {
        match l.fade_tick {
            Some(at) => l.tick(at),
            None => return,
        }
    }
    panic!("fade never settled (level {})", l.level);
}

#[test]
fn pairing_blinks_and_bind_flashes_twice_before_settling() {
    let mut l = lights();
    let steady = l.frame();

    l.on_event(RgbEvent::PairingOpen, START);
    assert_eq!(l.frame().color, l.settings.pairing_color);
    advance(&mut l);
    assert_eq!(l.frame().color, Rgb::off());
    advance(&mut l);
    assert_eq!(l.frame().color, l.settings.pairing_color);
    // Blinking holds the slot's brightness so only colors change.
    assert_eq!(l.frame().brightness, steady.brightness);

    l.on_event(RgbEvent::Bound, START);
    let mut lit = Vec::new();
    for _ in 0..4 {
        lit.push(l.frame().color != Rgb::off());
        advance(&mut l);
    }
    assert_eq!(lit, vec![true, false, true, false]);
    assert_eq!(l.frame(), steady);
    assert!(l.next_tick().is_none());
}

#[test]
fn pairing_timeout_returns_to_the_slot_color() {
    let mut l = lights();
    let steady = l.frame();
    l.on_event(RgbEvent::PairingOpen, START);
    assert_ne!(l.frame(), steady);
    l.on_event(RgbEvent::PairingClosed, START);
    assert_eq!(l.frame(), steady);
    assert!(l.next_tick().is_none());
}

#[test]
fn the_desk_going_quiet_fades_the_lighting_out_and_input_brings_it_back() {
    let timeout = Duration::from_secs(120);
    let (mut l, start) = idle_lights(Some(timeout));
    let steady = l.frame();
    assert_ne!(steady.color, Rgb::off(), "the test slot must start lit");

    // A second short of the deadline nothing has moved.
    l.tick(start.after(Duration::from_secs(119)));
    assert_eq!(l.frame(), steady);

    // Past it, the fade runs all the way to black and then stops
    // scheduling anything at all.
    let at = start.after(timeout);
    l.tick(at);
    settle_fade(&mut l);
    assert_eq!(l.level, 0);
    assert_eq!(l.frame().color, Rgb::off());
    assert!(l.next_tick().is_none(), "a dark, idle hub should be asleep");
    // Brightness is untouched: the fade rides on the color so that devices
    // with no brightness control fade too.
    assert_eq!(l.frame().brightness, steady.brightness);

    // A keystroke brings it back, exactly as it was.
    l.on_activity(at, at);
    settle_fade(&mut l);
    assert_eq!(l.frame(), steady);
    assert_eq!(l.next_tick(), Some(at.after(timeout)), "the countdown restarts");
}

#[test]
fn an_interrupted_fade_out_reverses_from_where_it_is() {
    let timeout = Duration::from_secs(120);
    let (mut l, start) = idle_lights(Some(timeout));

    // Caught well into the fade — far enough down that a single step back
    // up cannot reach full, so the assertions below mean something.
    const CAUGHT_AFTER: u8 = 10;
    let mut at = start.after(timeout);
    l.tick(at);
    for _ in 0..CAUGHT_AFTER {
        at = l.fade_tick.expect("fading out");
        l.tick(at);
    }
    let caught = l.level;
    assert_eq!(caught, u8::MAX - CAUGHT_AFTER * FADE_OUT_STEP);
    assert!(caught + FADE_IN_STEP < u8::MAX, "caught too early to tell");

    // Interrupting it neither jumps to full nor restarts from black.
    l.on_activity(at, at);
    assert_eq!(l.level, caught, "the level moved on its own");
    at = l.fade_tick.expect("fading back in");
    l.tick(at);
    assert_eq!(l.level, caught + FADE_IN_STEP);

    // And it still gets all the way home.
    settle_fade(&mut l);
    assert_eq!(l.level, u8::MAX);
}

#[test]
fn the_idle_gate_masks_animations_without_losing_them() {
    let timeout = Duration::from_secs(120);
    let (mut l, start) = idle_lights(Some(timeout));

    l.on_event(RgbEvent::PairingOpen, start);
    let at = start.after(timeout);
    l.tick(at);
    settle_fade(&mut l);

    // Dark wins over the pairing blink...
    assert_eq!(l.level, 0);
    assert_eq!(l.frame().color, Rgb::off());
    // ...but the blink is still running behind it, so it is showing the
    // right phase the moment the user comes back.
    assert!(matches!(l.anim, Anim::Pairing { .. }), "the animation was lost");
    assert!(l.anim_tick.is_some(), "the animation stopped ticking");

    l.on_activity(at, at);
    settle_fade(&mut l);
    let Anim::Pairing { lit } = l.anim else {
        unreachable!("checked above");
    };
    assert_eq!(l.frame(), l.blink(lit, l.settings.pairing_color));
}

/// `idle_timeout_secs = 0` parses to `None` — the documented "never blank".
#[test]
fn blanking_can_be_switched_off_entirely() {
    let (mut l, start) = idle_lights(None);
    let steady = l.frame();
    assert!(l.next_tick().is_none(), "no deadline should be armed");

    l.tick(start.after(Duration::from_secs(86_400)));
    assert_eq!(l.frame(), steady);
    assert!(l.next_tick().is_none());
}

#[test]
fn activity_pings_are_coalesced_but_never_delay_a_wake() {
    let start = START;
    let mut activity = Activity::new(start);

    // The first event is always sent — this is the keystroke that wakes a
    // dark desk, and it must not wait for a coalescing window.
    assert!(activity.ping(start), "the first ping was swallowed");

    // A burst inside the window collapses to nothing further.
    for ms in 1..1000 {
        assert!(!activity.ping(start.after(Duration::from_millis(ms))), "a typing burst was not coalesced");
    }

    // Once the window is up, the next event goes out immediately again.
    let later = start.after(Duration::from_millis(ACTIVITY_COALESCE_MS));
    assert!(activity.ping(later), "ping dropped after the window");
}

#[test]
fn switching_slots_mid_blink_shows_the_new_color_once_it_ends() {
    let mut l = lights();
    l.on_event(RgbEvent::PairingOpen, START);
    l.set_slot(3);
    assert_eq!(l.frame().color, l.settings.pairing_color);
    l.on_event(RgbEvent::PairingClosed, START);
    assert_eq!(l.frame().color, l.settings.slot_color(3));
}
#[test]
fn fade_steps_cover_the_whole_range_in_time() {
    assert_eq!(fade_step(FADE_IN_MS), FADE_IN_STEP);
    assert_eq!(fade_step(FADE_OUT_MS), FADE_OUT_STEP);
    assert_eq!((FADE_IN_STEP, FADE_OUT_STEP), (41, 11));
    assert_eq!(fade_step(1), 255);
}

#[test]
fn dimming_follows_a_square() {
    let c = Rgb { r: 255, g: 128, b: 1 };
    assert_eq!(dim(c, 255), c);
    assert_eq!(dim(c, 0), Rgb::off());
    assert_eq!(dim(c, 128), Rgb { r: 64, g: 32, b: 0 });
}

/// What a server answers, as one packet.
fn reply(id: u32, dev_idx: u32, data: Vec<u8>) -> Packet {
    Packet { dev_idx, id, data }
}

/// A description of a device with one mode and one zone.
fn description(name: &str, mode: &Mode, leds: u16) -> Vec<u8> {
    let mut body = Vec::new();
    body.extend_from_slice(&1i32.to_le_bytes());
    for text in [name, "vendor", "desc", "1.0", "serial", "location"] {
        put_string(&mut body, text);
    }
    body.extend_from_slice(&1u16.to_le_bytes());
    body.extend_from_slice(&0i32.to_le_bytes());
    put_string(&mut body, &mode.name);
    body.extend_from_slice(&mode.value.to_le_bytes());
    for v in [
        mode.flags,
        mode.speed_min,
        mode.speed_max,
        mode.brightness_min,
        mode.brightness_max,
        mode.colors_min,
        mode.colors_max,
        mode.speed,
        mode.brightness,
        mode.direction,
        mode.color_mode,
    ] {
        body.extend_from_slice(&v.to_le_bytes());
    }
    body.extend_from_slice(&0u16.to_le_bytes());
    body.extend_from_slice(&0u16.to_le_bytes());
    body.extend_from_slice(&leds.to_le_bytes());
    with_size_prefix(body)
}

fn id_of(bytes: &[u8]) -> u32 {
    u32::from_le_bytes(bytes[8..12].try_into().unwrap())
}

fn send(step: Step) -> Vec<u8> {
    match step {
        Step::Send { bytes } => bytes,
        other => panic!("{other:?}"),
    }
}

#[test]
fn a_session_asks_its_way_to_the_devices() {
    let hello = Session::hello();
    assert_eq!(hello.iter().map(|b| id_of(b)).collect::<Vec<_>>(), vec![pkt::SET_CLIENT_NAME, pkt::PROTOCOL_VERSION]);
    let mut s = Session::new();
    assert_eq!(s.awaited(), Some(pkt::PROTOCOL_VERSION));
    // Whatever else arrives meanwhile is skipped.
    assert!(matches!(s.on_packet(&reply(999, 0, Vec::new())), Step::Ignore));
    let asked = send(s.on_packet(&reply(pkt::PROTOCOL_VERSION, 0, 5u32.to_le_bytes().to_vec())));
    assert_eq!(id_of(&asked), pkt::CONTROLLER_COUNT);
    let asked = send(s.on_packet(&reply(pkt::CONTROLLER_COUNT, 0, 1u32.to_le_bytes().to_vec())));
    assert_eq!(id_of(&asked), pkt::CONTROLLER_DATA);
    let direct = mode("Direct", MODE_FLAG_HAS_BRIGHTNESS | MODE_FLAG_HAS_PER_LED_COLOR, 0, 100);
    let blob = description("kbd", &direct, 3);
    assert!(matches!(s.on_packet(&reply(pkt::CONTROLLER_DATA, 0, blob)), Step::Ready));
    assert_eq!(s.target_count(), 1);
    assert_eq!(s.awaited(), None);

    let red = Frame { color: Rgb { r: 255, g: 0, b: 0 }, brightness: 60 };
    let ids: Vec<u32> = s.apply(red).iter().map(|u| id_of(&u.bytes)).collect();
    assert_eq!(ids, vec![pkt::UPDATE_MODE, pkt::UPDATE_LEDS]);
    // The same frame again costs nothing, a new color only the colors.
    assert!(s.apply(red).is_empty());
    let blue = Frame { color: Rgb { r: 0, g: 0, b: 255 }, brightness: 60 };
    let updates = s.apply(blue);
    assert_eq!(updates.iter().map(|u| id_of(&u.bytes)).collect::<Vec<_>>(), vec![pkt::UPDATE_LEDS]);
    assert_eq!(updates[0].bytes.len(), HEADER_LEN + 4 + 2 + 3 * 4);
}

#[test]
fn a_session_fails_on_nonsense() {
    let mut s = Session::new();
    assert!(matches!(
        s.on_packet(&reply(pkt::PROTOCOL_VERSION, 0, vec![1])),
        Step::Fail { error: SessionError::MalformedVersion }
    ));
    let mut s = Session::new();
    assert!(matches!(
        s.on_packet(&reply(pkt::PROTOCOL_VERSION, 0, 2u32.to_le_bytes().to_vec())),
        Step::Fail { error: SessionError::OldServer { version: 2 } }
    ));
    let mut s = Session::new();
    s.on_packet(&reply(pkt::PROTOCOL_VERSION, 0, 3u32.to_le_bytes().to_vec()));
    assert!(matches!(
        s.on_packet(&reply(pkt::CONTROLLER_COUNT, 0, vec![0])),
        Step::Fail { error: SessionError::MalformedCount }
    ));
    let mut s = Session::new();
    s.on_packet(&reply(pkt::PROTOCOL_VERSION, 0, 3u32.to_le_bytes().to_vec()));
    s.on_packet(&reply(pkt::CONTROLLER_COUNT, 0, 1u32.to_le_bytes().to_vec()));
    assert!(matches!(
        s.on_packet(&reply(pkt::CONTROLLER_DATA, 7, Vec::new())),
        Step::Fail { error: SessionError::WrongDevice { got: 7, want: 0 } }
    ));
    let mut s = Session::new();
    s.on_packet(&reply(pkt::PROTOCOL_VERSION, 0, 3u32.to_le_bytes().to_vec()));
    s.on_packet(&reply(pkt::CONTROLLER_COUNT, 0, 1u32.to_le_bytes().to_vec()));
    assert!(matches!(
        s.on_packet(&reply(pkt::CONTROLLER_DATA, 0, vec![1, 2])),
        Step::Fail { error: SessionError::Description { index: 0, .. } }
    ));
}

#[test]
fn reconnects_wait_longer_and_longer() {
    let mut link = Link::new(START);
    assert!(link.wants_connect(START));
    assert!(link.on_connect_failed(START), "the first outage is worth a warning");
    let mut now = START;
    let mut waits = vec![];
    for _ in 0..6 {
        waits.push(link.retry_at.duration_since(now).as_secs());
        now = link.retry_at;
        assert!(link.wants_connect(now));
        assert!(!link.on_connect_failed(now));
    }
    assert_eq!(waits, vec![1, 2, 4, 8, 16, 30]);
    link.on_connected(0, now);
    assert!(!link.wants_connect(now));
    assert_eq!(link.rescan_at, Some(now.after(Duration::from_secs(30))));
    link.on_rescan_due(now.after(Duration::from_secs(30)));
    assert_eq!(link.rescan_at, Some(now.after(Duration::from_secs(60))));
    link.on_enumerated(2, now);
    assert_eq!(link.rescan_at, None);
    link.on_session_failed(now);
    assert_eq!((link.connected, link.retry_at), (false, now.after(Duration::from_secs(1))));
    link.on_connected(1, now);
    link.on_lost(now);
    assert_eq!(link.backoff, Duration::from_secs(2));
}
