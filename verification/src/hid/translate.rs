//! Stateful translation of evdev events into HID input reports.

use vstd::prelude::*;

use crate::hid;
use crate::hid::{HidFrame, CONSUMER_REPORT_ID, KEYBOARD_REPORT_ID, MOUSE_REPORT_ID};
use crate::input::codes::{KeyCode, RelativeAxisCode};

verus! {

broadcast use {vstd::array::group_array_axioms, vstd::seq::group_seq_axioms};

/// How a key shows in the keyboard report.
#[derive(Debug, Clone, Copy, PartialEq, Eq, Structural)]
pub enum Usage {
    /// Bit index in the modifier byte (LeftControl = 0 .. Right GUI = 7).
    Modifier(u8),
    /// Regular HID keyboard usage code.
    Key(u8),
}

/// Keys a keyboard report has room for.
pub const ROLLOVER: usize = 6;

pub struct Translator {
    modifiers: u8,
    /// Usages of the held keys, in the order of the report.
    keys: Vec<u8>,
    kbd_dirty: bool,
    buttons: u8,
    dx: i32,
    dy: i32,
    wheel: i32,
    /// A button changed since the last mouse report — must go out now.
    buttons_dirty: bool,
    /// Consumer usage currently held, 0 for none. The report is a one-entry
    /// array, so only the most recent of several held media keys is reported.
    consumer: u16,
    consumer_dirty: bool,
}

/// The state of a [`Translator`].
#[verifier::ext_equal]
pub struct TranslatorState {
    /// Bit per modifier key.
    pub modifiers: u8,
    /// Usages of the held keys, in the order of the report.
    pub keys: Seq<u8>,
    /// The keyboard report changed since it was last emitted.
    pub kbd_dirty: bool,
    /// Bit per mouse button.
    pub buttons: u8,
    /// A button changed since the last mouse report.
    pub buttons_dirty: bool,
    /// Motion not emitted yet.
    pub dx: int,
    pub dy: int,
    pub wheel: int,
    /// Consumer usage held, 0 for none.
    pub consumer: u16,
    /// The consumer report changed since it was last emitted.
    pub consumer_dirty: bool,
}

impl View for Translator {
    type V = TranslatorState;

    closed spec fn view(&self) -> TranslatorState {
        TranslatorState {
            modifiers: self.modifiers,
            keys: self.keys@,
            kbd_dirty: self.kbd_dirty,
            buttons: self.buttons,
            buttons_dirty: self.buttons_dirty,
            dx: self.dx as int,
            dy: self.dy as int,
            wheel: self.wheel as int,
            consumer: self.consumer,
            consumer_dirty: self.consumer_dirty,
        }
    }
}

/// Nothing held, nothing pending.
pub open spec fn idle() -> TranslatorState {
    TranslatorState {
        modifiers: 0,
        keys: Seq::empty(),
        kbd_dirty: false,
        buttons: 0,
        buttons_dirty: false,
        dx: 0,
        dy: 0,
        wheel: 0,
        consumer: 0,
        consumer_dirty: false,
    }
}

impl TranslatorState {
    /// At most six keys, none twice, none the empty usage.
    pub open spec fn wf(self) -> bool {
        &&& self.keys.len() <= ROLLOVER
        &&& self.keys.no_duplicates()
        &&& !self.keys.contains(0)
    }

    /// Motion waiting to go out.
    pub open spec fn motion_pending(self) -> bool {
        self.dx != 0 || self.dy != 0 || self.wheel != 0
    }

    /// The keyboard report of this state: ID, modifiers, reserved, six usages
    /// padded with 0.
    pub open spec fn keyboard_report(self) -> Seq<u8> {
        Seq::new(
            9,
            |i: int|
                if i == 0 {
                    KEYBOARD_REPORT_ID
                } else if i == 1 {
                    self.modifiers
                } else if i == 2 {
                    0
                } else if i - 3 < self.keys.len() {
                    self.keys[i - 3]
                } else {
                    0
                },
        )
    }

    /// The consumer report of this state: ID, then the usage, low byte first.
    pub open spec fn consumer_report(self) -> Seq<u8> {
        seq![CONSUMER_REPORT_ID, (self.consumer % 256) as u8, (self.consumer / 256) as u8]
    }
}

/// A byte with one bit set or cleared.
pub open spec fn with_bit(byte: u8, bit: u8, on: bool) -> u8 {
    if on {
        byte | (1u8 << bit)
    } else {
        byte & !(1u8 << bit)
    }
}

/// evdev button → bit in the mouse report's button byte.
pub open spec fn button_bit(key: u16) -> Option<u8> {
    if key == KeyCode::BTN_LEFT {
        Some(0)
    } else if key == KeyCode::BTN_RIGHT {
        Some(1)
    } else if key == KeyCode::BTN_MIDDLE {
        Some(2)
    } else if key == KeyCode::BTN_SIDE || key == KeyCode::BTN_BACK {
        Some(3)
    } else if key == KeyCode::BTN_EXTRA || key == KeyCode::BTN_FORWARD {
        Some(4)
    } else {
        None
    }
}

/// evdev key → usage on the consumer page (0x0C).
pub open spec fn consumer_usage_of(key: u16) -> Option<u16> {
    if key == KeyCode::KEY_MUTE {
        Some(0xE2)
    } else if key == KeyCode::KEY_VOLUMEUP {
        Some(0xE9)
    } else if key == KeyCode::KEY_VOLUMEDOWN {
        Some(0xEA)
    } else if key == KeyCode::KEY_PLAYPAUSE {
        Some(0xCD)
    } else if key == KeyCode::KEY_STOPCD {
        Some(0xB7)
    } else if key == KeyCode::KEY_NEXTSONG {
        Some(0xB5)
    } else if key == KeyCode::KEY_PREVIOUSSONG {
        Some(0xB6)
    } else if key == KeyCode::KEY_BRIGHTNESSUP {
        Some(0x6F)
    } else if key == KeyCode::KEY_BRIGHTNESSDOWN {
        Some(0x70)
    } else {
        None
    }
}

/// evdev key → usage on the keyboard page (0x07).
pub open spec fn key_usage_of(key: u16) -> Option<Usage> {
    if key == KeyCode::KEY_LEFTCTRL {
        Some(Usage::Modifier(0))
    } else if key == KeyCode::KEY_LEFTSHIFT {
        Some(Usage::Modifier(1))
    } else if key == KeyCode::KEY_LEFTALT {
        Some(Usage::Modifier(2))
    } else if key == KeyCode::KEY_LEFTMETA {
        Some(Usage::Modifier(3))
    } else if key == KeyCode::KEY_RIGHTCTRL {
        Some(Usage::Modifier(4))
    } else if key == KeyCode::KEY_RIGHTSHIFT {
        Some(Usage::Modifier(5))
    } else if key == KeyCode::KEY_RIGHTALT {
        Some(Usage::Modifier(6))
    } else if key == KeyCode::KEY_RIGHTMETA {
        Some(Usage::Modifier(7))
    } else if key == KeyCode::KEY_A {
        Some(Usage::Key(0x04))
    } else if key == KeyCode::KEY_B {
        Some(Usage::Key(0x05))
    } else if key == KeyCode::KEY_C {
        Some(Usage::Key(0x06))
    } else if key == KeyCode::KEY_D {
        Some(Usage::Key(0x07))
    } else if key == KeyCode::KEY_E {
        Some(Usage::Key(0x08))
    } else if key == KeyCode::KEY_F {
        Some(Usage::Key(0x09))
    } else if key == KeyCode::KEY_G {
        Some(Usage::Key(0x0A))
    } else if key == KeyCode::KEY_H {
        Some(Usage::Key(0x0B))
    } else if key == KeyCode::KEY_I {
        Some(Usage::Key(0x0C))
    } else if key == KeyCode::KEY_J {
        Some(Usage::Key(0x0D))
    } else if key == KeyCode::KEY_K {
        Some(Usage::Key(0x0E))
    } else if key == KeyCode::KEY_L {
        Some(Usage::Key(0x0F))
    } else if key == KeyCode::KEY_M {
        Some(Usage::Key(0x10))
    } else if key == KeyCode::KEY_N {
        Some(Usage::Key(0x11))
    } else if key == KeyCode::KEY_O {
        Some(Usage::Key(0x12))
    } else if key == KeyCode::KEY_P {
        Some(Usage::Key(0x13))
    } else if key == KeyCode::KEY_Q {
        Some(Usage::Key(0x14))
    } else if key == KeyCode::KEY_R {
        Some(Usage::Key(0x15))
    } else if key == KeyCode::KEY_S {
        Some(Usage::Key(0x16))
    } else if key == KeyCode::KEY_T {
        Some(Usage::Key(0x17))
    } else if key == KeyCode::KEY_U {
        Some(Usage::Key(0x18))
    } else if key == KeyCode::KEY_V {
        Some(Usage::Key(0x19))
    } else if key == KeyCode::KEY_W {
        Some(Usage::Key(0x1A))
    } else if key == KeyCode::KEY_X {
        Some(Usage::Key(0x1B))
    } else if key == KeyCode::KEY_Y {
        Some(Usage::Key(0x1C))
    } else if key == KeyCode::KEY_Z {
        Some(Usage::Key(0x1D))
    } else if key == KeyCode::KEY_1 {
        Some(Usage::Key(0x1E))
    } else if key == KeyCode::KEY_2 {
        Some(Usage::Key(0x1F))
    } else if key == KeyCode::KEY_3 {
        Some(Usage::Key(0x20))
    } else if key == KeyCode::KEY_4 {
        Some(Usage::Key(0x21))
    } else if key == KeyCode::KEY_5 {
        Some(Usage::Key(0x22))
    } else if key == KeyCode::KEY_6 {
        Some(Usage::Key(0x23))
    } else if key == KeyCode::KEY_7 {
        Some(Usage::Key(0x24))
    } else if key == KeyCode::KEY_8 {
        Some(Usage::Key(0x25))
    } else if key == KeyCode::KEY_9 {
        Some(Usage::Key(0x26))
    } else if key == KeyCode::KEY_0 {
        Some(Usage::Key(0x27))
    } else if key == KeyCode::KEY_ENTER {
        Some(Usage::Key(0x28))
    } else if key == KeyCode::KEY_ESC {
        Some(Usage::Key(0x29))
    } else if key == KeyCode::KEY_BACKSPACE {
        Some(Usage::Key(0x2A))
    } else if key == KeyCode::KEY_TAB {
        Some(Usage::Key(0x2B))
    } else if key == KeyCode::KEY_SPACE {
        Some(Usage::Key(0x2C))
    } else if key == KeyCode::KEY_MINUS {
        Some(Usage::Key(0x2D))
    } else if key == KeyCode::KEY_EQUAL {
        Some(Usage::Key(0x2E))
    } else if key == KeyCode::KEY_LEFTBRACE {
        Some(Usage::Key(0x2F))
    } else if key == KeyCode::KEY_RIGHTBRACE {
        Some(Usage::Key(0x30))
    } else if key == KeyCode::KEY_BACKSLASH {
        Some(Usage::Key(0x31))
    } else if key == KeyCode::KEY_SEMICOLON {
        Some(Usage::Key(0x33))
    } else if key == KeyCode::KEY_APOSTROPHE {
        Some(Usage::Key(0x34))
    } else if key == KeyCode::KEY_GRAVE {
        Some(Usage::Key(0x35))
    } else if key == KeyCode::KEY_COMMA {
        Some(Usage::Key(0x36))
    } else if key == KeyCode::KEY_DOT {
        Some(Usage::Key(0x37))
    } else if key == KeyCode::KEY_SLASH {
        Some(Usage::Key(0x38))
    } else if key == KeyCode::KEY_CAPSLOCK {
        Some(Usage::Key(0x39))
    } else if key == KeyCode::KEY_F1 {
        Some(Usage::Key(0x3A))
    } else if key == KeyCode::KEY_F2 {
        Some(Usage::Key(0x3B))
    } else if key == KeyCode::KEY_F3 {
        Some(Usage::Key(0x3C))
    } else if key == KeyCode::KEY_F4 {
        Some(Usage::Key(0x3D))
    } else if key == KeyCode::KEY_F5 {
        Some(Usage::Key(0x3E))
    } else if key == KeyCode::KEY_F6 {
        Some(Usage::Key(0x3F))
    } else if key == KeyCode::KEY_F7 {
        Some(Usage::Key(0x40))
    } else if key == KeyCode::KEY_F8 {
        Some(Usage::Key(0x41))
    } else if key == KeyCode::KEY_F9 {
        Some(Usage::Key(0x42))
    } else if key == KeyCode::KEY_F10 {
        Some(Usage::Key(0x43))
    } else if key == KeyCode::KEY_F11 {
        Some(Usage::Key(0x44))
    } else if key == KeyCode::KEY_F12 {
        Some(Usage::Key(0x45))
    } else if key == KeyCode::KEY_SYSRQ {
        Some(Usage::Key(0x46))
    } else if key == KeyCode::KEY_SCROLLLOCK {
        Some(Usage::Key(0x47))
    } else if key == KeyCode::KEY_PAUSE {
        Some(Usage::Key(0x48))
    } else if key == KeyCode::KEY_INSERT {
        Some(Usage::Key(0x49))
    } else if key == KeyCode::KEY_HOME {
        Some(Usage::Key(0x4A))
    } else if key == KeyCode::KEY_PAGEUP {
        Some(Usage::Key(0x4B))
    } else if key == KeyCode::KEY_DELETE {
        Some(Usage::Key(0x4C))
    } else if key == KeyCode::KEY_END {
        Some(Usage::Key(0x4D))
    } else if key == KeyCode::KEY_PAGEDOWN {
        Some(Usage::Key(0x4E))
    } else if key == KeyCode::KEY_RIGHT {
        Some(Usage::Key(0x4F))
    } else if key == KeyCode::KEY_LEFT {
        Some(Usage::Key(0x50))
    } else if key == KeyCode::KEY_DOWN {
        Some(Usage::Key(0x51))
    } else if key == KeyCode::KEY_UP {
        Some(Usage::Key(0x52))
    } else if key == KeyCode::KEY_NUMLOCK {
        Some(Usage::Key(0x53))
    } else if key == KeyCode::KEY_KPSLASH {
        Some(Usage::Key(0x54))
    } else if key == KeyCode::KEY_KPASTERISK {
        Some(Usage::Key(0x55))
    } else if key == KeyCode::KEY_KPMINUS {
        Some(Usage::Key(0x56))
    } else if key == KeyCode::KEY_KPPLUS {
        Some(Usage::Key(0x57))
    } else if key == KeyCode::KEY_KPENTER {
        Some(Usage::Key(0x58))
    } else if key == KeyCode::KEY_KP1 {
        Some(Usage::Key(0x59))
    } else if key == KeyCode::KEY_KP2 {
        Some(Usage::Key(0x5A))
    } else if key == KeyCode::KEY_KP3 {
        Some(Usage::Key(0x5B))
    } else if key == KeyCode::KEY_KP4 {
        Some(Usage::Key(0x5C))
    } else if key == KeyCode::KEY_KP5 {
        Some(Usage::Key(0x5D))
    } else if key == KeyCode::KEY_KP6 {
        Some(Usage::Key(0x5E))
    } else if key == KeyCode::KEY_KP7 {
        Some(Usage::Key(0x5F))
    } else if key == KeyCode::KEY_KP8 {
        Some(Usage::Key(0x60))
    } else if key == KeyCode::KEY_KP9 {
        Some(Usage::Key(0x61))
    } else if key == KeyCode::KEY_KP0 {
        Some(Usage::Key(0x62))
    } else if key == KeyCode::KEY_KPDOT {
        Some(Usage::Key(0x63))
    } else if key == KeyCode::KEY_102ND {
        Some(Usage::Key(0x64))
    } else if key == KeyCode::KEY_COMPOSE {
        Some(Usage::Key(0x65))
    } else {
        None
    }
}

/// The consumer usage after a key event: a press takes over, a release clears
/// the usage only if it is the one being reported.
pub open spec fn consumer_after(current: u16, usage: u16, down: bool) -> u16 {
    if down {
        usage
    } else if current == usage {
        0
    } else {
        current
    }
}

/// The held keys after a key event: a press appends unless the key is already
/// there or the report is full, a release closes the gap.
pub open spec fn keys_after(current: Seq<u8>, usage: u8, down: bool) -> Seq<u8> {
    if down {
        if current.contains(usage) || current.len() >= ROLLOVER {
            current
        } else {
            current.push(usage)
        }
    } else if current.contains(usage) {
        current.remove(current.index_of(usage))
    } else {
        current
    }
}

/// The state after a key event (`value`: 0 = release, 1 = press, 2 = repeat).
pub open spec fn after_key(s: TranslatorState, key: u16, value: i32) -> TranslatorState {
    let down = value == 1;
    if value == 2 {
        s
    } else if let Some(usage) = consumer_usage_of(key) {
        let consumer = consumer_after(s.consumer, usage, down);
        TranslatorState {
            consumer,
            consumer_dirty: s.consumer_dirty || consumer != s.consumer,
            ..s
        }
    } else if let Some(bit) = button_bit(key) {
        let buttons = with_bit(s.buttons, bit, down);
        TranslatorState { buttons, buttons_dirty: s.buttons_dirty || buttons != s.buttons, ..s }
    } else {
        match key_usage_of(key) {
            Some(Usage::Modifier(bit)) => {
                let modifiers = with_bit(s.modifiers, bit, down);
                TranslatorState {
                    modifiers,
                    kbd_dirty: s.kbd_dirty || modifiers != s.modifiers,
                    ..s
                }
            },
            Some(Usage::Key(usage)) => {
                let keys = keys_after(s.keys, usage, down);
                TranslatorState { keys, kbd_dirty: s.kbd_dirty || keys != s.keys, ..s }
            },
            None => s,
        }
    }
}

/// The state after a relative-axis event.
pub open spec fn after_rel(s: TranslatorState, axis: u16, value: i32) -> TranslatorState {
    if axis == RelativeAxisCode::REL_X {
        TranslatorState { dx: s.dx + value, ..s }
    } else if axis == RelativeAxisCode::REL_Y {
        TranslatorState { dy: s.dy + value, ..s }
    } else if axis == RelativeAxisCode::REL_WHEEL {
        TranslatorState { wheel: s.wheel + value, ..s }
    } else {
        s
    }
}

/// Whether the accumulated motion fits its counters.
pub open spec fn motion_fits(s: TranslatorState) -> bool {
    &&& i32::MIN <= s.dx <= i32::MAX
    &&& i32::MIN <= s.dy <= i32::MAX
    &&& i32::MIN <= s.wheel <= i32::MAX
}

/// The part of a distance that fits one report.
pub open spec fn chunk(v: int) -> int {
    if v < -127 {
        -127
    } else if v > 127 {
        127
    } else {
        v
    }
}

/// A small signed number as the byte that carries it.
pub open spec fn byte_of(v: int) -> u8 {
    if v < 0 {
        (v + 256) as u8
    } else {
        v as u8
    }
}

/// The signed number a byte carries.
pub open spec fn signed(b: u8) -> int {
    if b >= 128 {
        b - 256
    } else {
        b as int
    }
}

/// One mouse report.
pub open spec fn mouse_report(buttons: u8, x: int, y: int, w: int) -> Seq<u8> {
    seq![MOUSE_REPORT_ID, buttons, byte_of(x), byte_of(y), byte_of(w)]
}

pub open spec fn magnitude(v: int) -> nat {
    if v < 0 {
        (-v) as nat
    } else {
        v as nat
    }
}

/// The reports that carry a motion: as many as it takes, each with what fits.
pub open spec fn mouse_reports(buttons: u8, dx: int, dy: int, wheel: int) -> Seq<Seq<u8>>
    decreases magnitude(dx) + magnitude(dy) + magnitude(wheel),
{
    let first = mouse_report(buttons, chunk(dx), chunk(dy), chunk(wheel));
    let (rx, ry, rw) = (dx - chunk(dx), dy - chunk(dy), wheel - chunk(wheel));
    if rx == 0 && ry == 0 && rw == 0 {
        seq![first]
    } else {
        seq![first] + mouse_reports(buttons, rx, ry, rw)
    }
}

/// What a mouse flush emits in a state.
pub open spec fn pending_mouse(s: TranslatorState) -> Seq<Seq<u8>> {
    if s.buttons_dirty || s.motion_pending() {
        mouse_reports(s.buttons, s.dx, s.dy, s.wheel)
    } else {
        Seq::empty()
    }
}

/// What a keyboard flush emits in a state.
pub open spec fn pending_keyboard(s: TranslatorState) -> Seq<Seq<u8>> {
    if s.kbd_dirty {
        seq![s.keyboard_report()]
    } else {
        Seq::empty()
    }
}

/// What a consumer flush emits in a state.
pub open spec fn pending_consumer(s: TranslatorState) -> Seq<Seq<u8>> {
    if s.consumer_dirty {
        seq![s.consumer_report()]
    } else {
        Seq::empty()
    }
}

/// What releasing everything emits: an empty report for each page that holds
/// something, or whose last change the host has not seen yet, in the order
/// keyboard, mouse, consumer.
pub open spec fn release_reports(s: TranslatorState) -> Seq<Seq<u8>> {
    (if s.modifiers != 0 || s.keys.len() > 0 || s.kbd_dirty {
        seq![idle().keyboard_report()]
    } else {
        Seq::empty()
    }) + (if s.buttons != 0 || s.buttons_dirty {
        seq![mouse_report(0, 0, 0, 0)]
    } else {
        Seq::empty()
    }) + (if s.consumer != 0 || s.consumer_dirty {
        seq![idle().consumer_report()]
    } else {
        Seq::empty()
    })
}

/// Split `v` into a report-sized chunk and the remainder.
fn take_i8(v: i32) -> (r: (i8, i32))
    ensures
        r.0 == chunk(v as int),
        r.1 == v - chunk(v as int),
{
    let c: i32 = if v < -127 {
        -127
    } else if v > 127 {
        127
    } else {
        v
    };
    (c as i8, v - c)
}

/// The byte that carries a signed number.
fn to_byte(v: i8) -> (r: u8)
    ensures
        r == byte_of(v as int),
{
    if v < 0 {
        (v as i16 + 256) as u8
    } else {
        v as u8
    }
}

/// evdev button → bit in the mouse report's button byte, i.e. HID button usage
/// minus one. Usages 4 and 5 are what hosts read as back/forward: Linux
/// `hid-input` maps them straight back to BTN_SIDE/BTN_EXTRA, and macOS and
/// Windows treat them as the navigation pair. Mice disagree about which evdev
/// code the thumb buttons emit — Logitech sends BTN_SIDE/BTN_EXTRA, others send
/// BTN_BACK/BTN_FORWARD — so both spellings fold onto the same two bits.
pub fn mouse_button_bit(key: u16) -> (r: Option<u8>)
    ensures
        r == button_bit(key),
{
    if key == KeyCode::BTN_LEFT {
        Some(0)
    } else if key == KeyCode::BTN_RIGHT {
        Some(1)
    } else if key == KeyCode::BTN_MIDDLE {
        Some(2)
    } else if key == KeyCode::BTN_SIDE || key == KeyCode::BTN_BACK {
        Some(3)
    } else if key == KeyCode::BTN_EXTRA || key == KeyCode::BTN_FORWARD {
        Some(4)
    } else {
        None
    }
}

/// evdev key code → HID usage on the consumer page (0x0C). Checked before the
/// keyboard page: some of these have keyboard-page equivalents that hosts treat
/// far less consistently.
pub fn consumer_usage(key: u16) -> (r: Option<u16>)
    ensures
        r == consumer_usage_of(key),
{
    if key == KeyCode::KEY_MUTE {
        Some(0xE2)
    } else if key == KeyCode::KEY_VOLUMEUP {
        Some(0xE9)
    } else if key == KeyCode::KEY_VOLUMEDOWN {
        Some(0xEA)
    } else if key == KeyCode::KEY_PLAYPAUSE {
        Some(0xCD)
    } else if key == KeyCode::KEY_STOPCD {
        Some(0xB7)
    } else if key == KeyCode::KEY_NEXTSONG {
        Some(0xB5)
    } else if key == KeyCode::KEY_PREVIOUSSONG {
        Some(0xB6)
    } else if key == KeyCode::KEY_BRIGHTNESSUP {
        Some(0x6F)
    } else if key == KeyCode::KEY_BRIGHTNESSDOWN {
        Some(0x70)
    } else {
        None
    }
}

/// evdev key code → HID usage (keyboard page 0x07).
pub fn key_usage(key: u16) -> (r: Option<Usage>)
    ensures
        r == key_usage_of(key),
{
    if key == KeyCode::KEY_LEFTCTRL {
        Some(Usage::Modifier(0))
    } else if key == KeyCode::KEY_LEFTSHIFT {
        Some(Usage::Modifier(1))
    } else if key == KeyCode::KEY_LEFTALT {
        Some(Usage::Modifier(2))
    } else if key == KeyCode::KEY_LEFTMETA {
        Some(Usage::Modifier(3))
    } else if key == KeyCode::KEY_RIGHTCTRL {
        Some(Usage::Modifier(4))
    } else if key == KeyCode::KEY_RIGHTSHIFT {
        Some(Usage::Modifier(5))
    } else if key == KeyCode::KEY_RIGHTALT {
        Some(Usage::Modifier(6))
    } else if key == KeyCode::KEY_RIGHTMETA {
        Some(Usage::Modifier(7))
    } else if key == KeyCode::KEY_A {
        Some(Usage::Key(0x04))
    } else if key == KeyCode::KEY_B {
        Some(Usage::Key(0x05))
    } else if key == KeyCode::KEY_C {
        Some(Usage::Key(0x06))
    } else if key == KeyCode::KEY_D {
        Some(Usage::Key(0x07))
    } else if key == KeyCode::KEY_E {
        Some(Usage::Key(0x08))
    } else if key == KeyCode::KEY_F {
        Some(Usage::Key(0x09))
    } else if key == KeyCode::KEY_G {
        Some(Usage::Key(0x0A))
    } else if key == KeyCode::KEY_H {
        Some(Usage::Key(0x0B))
    } else if key == KeyCode::KEY_I {
        Some(Usage::Key(0x0C))
    } else if key == KeyCode::KEY_J {
        Some(Usage::Key(0x0D))
    } else if key == KeyCode::KEY_K {
        Some(Usage::Key(0x0E))
    } else if key == KeyCode::KEY_L {
        Some(Usage::Key(0x0F))
    } else if key == KeyCode::KEY_M {
        Some(Usage::Key(0x10))
    } else if key == KeyCode::KEY_N {
        Some(Usage::Key(0x11))
    } else if key == KeyCode::KEY_O {
        Some(Usage::Key(0x12))
    } else if key == KeyCode::KEY_P {
        Some(Usage::Key(0x13))
    } else if key == KeyCode::KEY_Q {
        Some(Usage::Key(0x14))
    } else if key == KeyCode::KEY_R {
        Some(Usage::Key(0x15))
    } else if key == KeyCode::KEY_S {
        Some(Usage::Key(0x16))
    } else if key == KeyCode::KEY_T {
        Some(Usage::Key(0x17))
    } else if key == KeyCode::KEY_U {
        Some(Usage::Key(0x18))
    } else if key == KeyCode::KEY_V {
        Some(Usage::Key(0x19))
    } else if key == KeyCode::KEY_W {
        Some(Usage::Key(0x1A))
    } else if key == KeyCode::KEY_X {
        Some(Usage::Key(0x1B))
    } else if key == KeyCode::KEY_Y {
        Some(Usage::Key(0x1C))
    } else if key == KeyCode::KEY_Z {
        Some(Usage::Key(0x1D))
    } else if key == KeyCode::KEY_1 {
        Some(Usage::Key(0x1E))
    } else if key == KeyCode::KEY_2 {
        Some(Usage::Key(0x1F))
    } else if key == KeyCode::KEY_3 {
        Some(Usage::Key(0x20))
    } else if key == KeyCode::KEY_4 {
        Some(Usage::Key(0x21))
    } else if key == KeyCode::KEY_5 {
        Some(Usage::Key(0x22))
    } else if key == KeyCode::KEY_6 {
        Some(Usage::Key(0x23))
    } else if key == KeyCode::KEY_7 {
        Some(Usage::Key(0x24))
    } else if key == KeyCode::KEY_8 {
        Some(Usage::Key(0x25))
    } else if key == KeyCode::KEY_9 {
        Some(Usage::Key(0x26))
    } else if key == KeyCode::KEY_0 {
        Some(Usage::Key(0x27))
    } else if key == KeyCode::KEY_ENTER {
        Some(Usage::Key(0x28))
    } else if key == KeyCode::KEY_ESC {
        Some(Usage::Key(0x29))
    } else if key == KeyCode::KEY_BACKSPACE {
        Some(Usage::Key(0x2A))
    } else if key == KeyCode::KEY_TAB {
        Some(Usage::Key(0x2B))
    } else if key == KeyCode::KEY_SPACE {
        Some(Usage::Key(0x2C))
    } else if key == KeyCode::KEY_MINUS {
        Some(Usage::Key(0x2D))
    } else if key == KeyCode::KEY_EQUAL {
        Some(Usage::Key(0x2E))
    } else if key == KeyCode::KEY_LEFTBRACE {
        Some(Usage::Key(0x2F))
    } else if key == KeyCode::KEY_RIGHTBRACE {
        Some(Usage::Key(0x30))
    } else if key == KeyCode::KEY_BACKSLASH {
        Some(Usage::Key(0x31))
    } else if key == KeyCode::KEY_SEMICOLON {
        Some(Usage::Key(0x33))
    } else if key == KeyCode::KEY_APOSTROPHE {
        Some(Usage::Key(0x34))
    } else if key == KeyCode::KEY_GRAVE {
        Some(Usage::Key(0x35))
    } else if key == KeyCode::KEY_COMMA {
        Some(Usage::Key(0x36))
    } else if key == KeyCode::KEY_DOT {
        Some(Usage::Key(0x37))
    } else if key == KeyCode::KEY_SLASH {
        Some(Usage::Key(0x38))
    } else if key == KeyCode::KEY_CAPSLOCK {
        Some(Usage::Key(0x39))
    } else if key == KeyCode::KEY_F1 {
        Some(Usage::Key(0x3A))
    } else if key == KeyCode::KEY_F2 {
        Some(Usage::Key(0x3B))
    } else if key == KeyCode::KEY_F3 {
        Some(Usage::Key(0x3C))
    } else if key == KeyCode::KEY_F4 {
        Some(Usage::Key(0x3D))
    } else if key == KeyCode::KEY_F5 {
        Some(Usage::Key(0x3E))
    } else if key == KeyCode::KEY_F6 {
        Some(Usage::Key(0x3F))
    } else if key == KeyCode::KEY_F7 {
        Some(Usage::Key(0x40))
    } else if key == KeyCode::KEY_F8 {
        Some(Usage::Key(0x41))
    } else if key == KeyCode::KEY_F9 {
        Some(Usage::Key(0x42))
    } else if key == KeyCode::KEY_F10 {
        Some(Usage::Key(0x43))
    } else if key == KeyCode::KEY_F11 {
        Some(Usage::Key(0x44))
    } else if key == KeyCode::KEY_F12 {
        Some(Usage::Key(0x45))
    } else if key == KeyCode::KEY_SYSRQ {
        Some(Usage::Key(0x46))
    } else if key == KeyCode::KEY_SCROLLLOCK {
        Some(Usage::Key(0x47))
    } else if key == KeyCode::KEY_PAUSE {
        Some(Usage::Key(0x48))
    } else if key == KeyCode::KEY_INSERT {
        Some(Usage::Key(0x49))
    } else if key == KeyCode::KEY_HOME {
        Some(Usage::Key(0x4A))
    } else if key == KeyCode::KEY_PAGEUP {
        Some(Usage::Key(0x4B))
    } else if key == KeyCode::KEY_DELETE {
        Some(Usage::Key(0x4C))
    } else if key == KeyCode::KEY_END {
        Some(Usage::Key(0x4D))
    } else if key == KeyCode::KEY_PAGEDOWN {
        Some(Usage::Key(0x4E))
    } else if key == KeyCode::KEY_RIGHT {
        Some(Usage::Key(0x4F))
    } else if key == KeyCode::KEY_LEFT {
        Some(Usage::Key(0x50))
    } else if key == KeyCode::KEY_DOWN {
        Some(Usage::Key(0x51))
    } else if key == KeyCode::KEY_UP {
        Some(Usage::Key(0x52))
    } else if key == KeyCode::KEY_NUMLOCK {
        Some(Usage::Key(0x53))
    } else if key == KeyCode::KEY_KPSLASH {
        Some(Usage::Key(0x54))
    } else if key == KeyCode::KEY_KPASTERISK {
        Some(Usage::Key(0x55))
    } else if key == KeyCode::KEY_KPMINUS {
        Some(Usage::Key(0x56))
    } else if key == KeyCode::KEY_KPPLUS {
        Some(Usage::Key(0x57))
    } else if key == KeyCode::KEY_KPENTER {
        Some(Usage::Key(0x58))
    } else if key == KeyCode::KEY_KP1 {
        Some(Usage::Key(0x59))
    } else if key == KeyCode::KEY_KP2 {
        Some(Usage::Key(0x5A))
    } else if key == KeyCode::KEY_KP3 {
        Some(Usage::Key(0x5B))
    } else if key == KeyCode::KEY_KP4 {
        Some(Usage::Key(0x5C))
    } else if key == KeyCode::KEY_KP5 {
        Some(Usage::Key(0x5D))
    } else if key == KeyCode::KEY_KP6 {
        Some(Usage::Key(0x5E))
    } else if key == KeyCode::KEY_KP7 {
        Some(Usage::Key(0x5F))
    } else if key == KeyCode::KEY_KP8 {
        Some(Usage::Key(0x60))
    } else if key == KeyCode::KEY_KP9 {
        Some(Usage::Key(0x61))
    } else if key == KeyCode::KEY_KP0 {
        Some(Usage::Key(0x62))
    } else if key == KeyCode::KEY_KPDOT {
        Some(Usage::Key(0x63))
    } else if key == KeyCode::KEY_102ND {
        Some(Usage::Key(0x64))
    } else if key == KeyCode::KEY_COMPOSE {
        Some(Usage::Key(0x65))
    } else {
        None
    }
}

/// Modifier usages are bits 0 to 7, key usages lie in the descriptor's range
/// and are never the empty usage.
pub proof fn law_usages_in_range(key: u16)
    ensures
        match key_usage_of(key) {
            Some(Usage::Modifier(bit)) => bit < 8,
            Some(Usage::Key(usage)) => 0 < usage <= 0x65,
            None => true,
        },
        consumer_usage_of(key) matches Some(usage) ==> 0 < usage <= 1023,
        button_bit(key) matches Some(bit) ==> bit < 5,
{
}

/// A byte with one bit set or cleared.
fn set_bit(byte: u8, bit: u8, on: bool) -> (r: u8)
    requires
        bit < 8,
    ensures
        r == with_bit(byte, bit, on),
{
    let mask: u8 = 1u8 << bit;
    if on {
        byte | mask
    } else {
        byte & !mask
    }
}

impl Default for Translator {
    fn default() -> (r: Self)
        ensures
            r@ == idle(),
            r@.wf(),
    {
        let r = Translator {
            modifiers: 0,
            keys: Vec::new(),
            kbd_dirty: false,
            buttons: 0,
            dx: 0,
            dy: 0,
            wheel: 0,
            buttons_dirty: false,
            consumer: 0,
            consumer_dirty: false,
        };
        assert(r@.keys =~= Seq::empty());
        r
    }
}

impl Translator {
    pub fn new() -> (r: Self)
        ensures
            r@ == idle(),
            r@.wf(),
    {
        Self::default()
    }

    /// Feed a key event (`value`: 0 = release, 1 = press, 2 = repeat).
    /// Repeats are ignored: HID hosts do their own key repeat.
    pub fn handle_key(&mut self, key: u16, value: i32)
        requires
            old(self)@.wf(),
        ensures
            final(self)@ == after_key(old(self)@, key, value),
            final(self)@.wf(),
    {
        if value == 2 {
            return;
        }
        proof {
            law_usages_in_range(key);
            law_key_keeps_wf(self@, key, value);
        }
        let ghost before = self@;
        let pressed = value == 1;
        if let Some(usage) = consumer_usage(key) {
            // Releasing a key other than the one being reported (two media keys
            // held, first one let go) must not clear the live usage.
            let new: u16 = if pressed {
                usage
            } else if self.consumer == usage {
                0
            } else {
                self.consumer
            };
            if new != self.consumer {
                self.consumer = new;
                self.consumer_dirty = true;
            }
            assert(self@ =~= after_key(before, key, value));
            return;
        }
        if let Some(bit) = mouse_button_bit(key) {
            let new = set_bit(self.buttons, bit, pressed);
            if new != self.buttons {
                self.buttons = new;
                self.buttons_dirty = true;
            }
            return;
        }
        match key_usage(key) {
            Some(Usage::Modifier(bit)) => {
                let new = set_bit(self.modifiers, bit, pressed);
                if new != self.modifiers {
                    self.modifiers = new;
                    self.kbd_dirty = true;
                }
            },
            Some(Usage::Key(usage)) => {
                let at = self.position(usage);
                if pressed {
                    // More than six keys held: drop the extra key.
                    if at.is_none() && self.keys.len() < ROLLOVER {
                        self.keys.push(usage);
                        self.kbd_dirty = true;
                        assert(self@.keys.len() != before.keys.len());
                    }
                } else if let Some(i) = at {
                    self.keys.remove(i);
                    self.kbd_dirty = true;
                    assert(self@.keys.len() != before.keys.len());
                }
                assert(self@ =~= after_key(before, key, value));
            },
            None => {},
        }
    }

    /// Where a usage stands among the held keys.
    fn position(&self, usage: u8) -> (r: Option<usize>)
        requires
            self@.wf(),
        ensures
            r matches Some(i) ==> self.keys@.contains(usage) && i < self.keys@.len() && i
                == self.keys@.index_of(usage),
            r is None ==> !self.keys@.contains(usage),
    {
        let mut i: usize = 0;
        while i < self.keys.len()
            invariant
                i <= self.keys@.len(),
                self.keys@.no_duplicates(),
                forall|j: int| 0 <= j < i ==> self.keys@[j] != usage,
            decreases self.keys@.len() - i,
        {
            if self.keys[i] == usage {
                assert(self.keys@.contains(usage));
                return Some(i);
            }
            i = i + 1;
        }
        None
    }

    /// Whether a relative-axis event can be accumulated on top of what is
    /// pending.
    pub fn fits(&self, axis: u16, value: i32) -> (r: bool)
        ensures
            r == motion_fits(after_rel(self@, axis, value)),
    {
        if axis == RelativeAxisCode::REL_X {
            self.dx.checked_add(value).is_some()
        } else if axis == RelativeAxisCode::REL_Y {
            self.dy.checked_add(value).is_some()
        } else if axis == RelativeAxisCode::REL_WHEEL {
            self.wheel.checked_add(value).is_some()
        } else {
            true
        }
    }

    /// Feed a relative-axis event (mouse motion / wheel).
    pub fn handle_rel(&mut self, axis: u16, value: i32)
        requires
            motion_fits(after_rel(old(self)@, axis, value)),
        ensures
            final(self)@ == after_rel(old(self)@, axis, value),
    {
        if axis == RelativeAxisCode::REL_X {
            self.dx = self.dx + value;
        } else if axis == RelativeAxisCode::REL_Y {
            self.dy = self.dy + value;
        } else if axis == RelativeAxisCode::REL_WHEEL {
            self.wheel = self.wheel + value;
        }
    }

    /// Emit all pending reports (keyboard, consumer, then mouse) — unpaced; the
    /// router uses the split variants below.
    pub fn flush(&mut self) -> (r: Vec<HidFrame>)
        requires
            old(self)@.wf(),
        ensures
            hid::frames(r@) == pending_keyboard(old(self)@) + pending_consumer(old(self)@)
                + pending_mouse(old(self)@),
            final(self)@ == (TranslatorState {
                kbd_dirty: false,
                consumer_dirty: false,
                buttons_dirty: false,
                dx: 0,
                dy: 0,
                wheel: 0,
                ..old(self)@
            }),
    {
        let mut out = self.flush_keyboard();
        let mut consumer = self.flush_consumer();
        let mut mouse = self.flush_mouse();
        let ghost (a, b, c) = (out@, consumer@, mouse@);
        out.append(&mut consumer);
        out.append(&mut mouse);
        assert(out@ =~= a + b + c);
        assert(hid::frames(out@) =~= hid::frames(a) + hid::frames(b) + hid::frames(c));
        out
    }

    /// Emit the keyboard report if it changed.
    pub fn flush_keyboard(&mut self) -> (r: Vec<HidFrame>)
        requires
            old(self)@.wf(),
        ensures
            hid::frames(r@) == pending_keyboard(old(self)@),
            final(self)@ == (TranslatorState { kbd_dirty: false, ..old(self)@ }),
    {
        let mut out: Vec<HidFrame> = Vec::new();
        if self.kbd_dirty {
            self.kbd_dirty = false;
            out.push(self.keyboard_frame());
        }
        assert(hid::frames(out@) =~= pending_keyboard(old(self)@));
        out
    }

    /// Emit the consumer-control report if it changed. Never paced: media keys
    /// are discrete presses, so there is nothing to coalesce.
    pub fn flush_consumer(&mut self) -> (r: Vec<HidFrame>)
        ensures
            hid::frames(r@) == pending_consumer(old(self)@),
            final(self)@ == (TranslatorState { consumer_dirty: false, ..old(self)@ }),
    {
        let mut out: Vec<HidFrame> = Vec::new();
        if self.consumer_dirty {
            self.consumer_dirty = false;
            out.push(self.consumer_frame());
        }
        assert(hid::frames(out@) =~= pending_consumer(old(self)@));
        out
    }

    /// A mouse button changed since the last mouse report (must not wait).
    pub fn mouse_buttons_dirty(&self) -> (r: bool)
        ensures
            r == self@.buttons_dirty,
    {
        self.buttons_dirty
    }

    /// Unsent mouse motion is pending (may be paced).
    pub fn mouse_motion_pending(&self) -> (r: bool)
        ensures
            r == self@.motion_pending(),
    {
        self.dx != 0 || self.dy != 0 || self.wheel != 0
    }

    /// Emit pending mouse reports. Accumulated deltas beyond the 8-bit report
    /// range are split across several frames instead of being clamped, so
    /// pacing motion never loses distance.
    pub fn flush_mouse(&mut self) -> (r: Vec<HidFrame>)
        ensures
            hid::frames(r@) == pending_mouse(old(self)@),
            final(self)@ == (TranslatorState {
                buttons_dirty: false,
                dx: 0,
                dy: 0,
                wheel: 0,
                ..old(self)@
            }),
    {
        let mut out: Vec<HidFrame> = Vec::new();
        let ghost before = self@;
        if !self.buttons_dirty && !self.mouse_motion_pending() {
            assert(hid::frames(out@) =~= pending_mouse(before));
            return out;
        }
        let mut more = true;
        assert(hid::frames(out@) + mouse_reports(before.buttons, before.dx, before.dy, before.wheel)
            =~= mouse_reports(before.buttons, before.dx, before.dy, before.wheel));
        while more
            invariant
                more ==> hid::frames(out@) + mouse_reports(self@.buttons, self@.dx, self@.dy, self@.wheel)
                    == mouse_reports(before.buttons, before.dx, before.dy, before.wheel),
                !more ==> hid::frames(out@) == mouse_reports(
                    before.buttons,
                    before.dx,
                    before.dy,
                    before.wheel,
                ) && !self@.motion_pending(),
                self@ == (TranslatorState {
                    dx: self@.dx,
                    dy: self@.dy,
                    wheel: self@.wheel,
                    ..before
                }),
            decreases
                    magnitude(self@.dx) + magnitude(self@.dy) + magnitude(self@.wheel) + (if more {
                        1int
                    } else {
                        0
                    }),
        {
            let ghost s = self@;
            let ghost sent = out@;
            let (x, rx) = take_i8(self.dx);
            let (y, ry) = take_i8(self.dy);
            let (w, rw) = take_i8(self.wheel);
            let frame = HidFrame::Mouse(
                [MOUSE_REPORT_ID, self.buttons, to_byte(x), to_byte(y), to_byte(w)],
            );
            out.push(frame);
            let ghost first = mouse_report(s.buttons, chunk(s.dx), chunk(s.dy), chunk(s.wheel));
            assert(frame@ =~= first);
            assert(hid::frames(out@) =~= hid::frames(sent) + seq![first]);
            self.dx = rx;
            self.dy = ry;
            self.wheel = rw;
            if !self.mouse_motion_pending() {
                more = false;
            } else {
                assert(hid::frames(out@) + mouse_reports(s.buttons, self@.dx, self@.dy, self@.wheel)
                    =~= hid::frames(sent) + (seq![first] + mouse_reports(
                    s.buttons,
                    self@.dx,
                    self@.dy,
                    self@.wheel,
                )));
            }
        }
        self.buttons_dirty = false;
        out
    }

    /// Release everything — sent to the old target when switching away so no
    /// key or button stays stuck, not even one whose release was not emitted
    /// yet.
    pub fn release_all(&mut self) -> (r: Vec<HidFrame>)
        requires
            old(self)@.wf(),
        ensures
            hid::frames(r@) == release_reports(old(self)@),
            final(self)@ == idle(),
            final(self)@.wf(),
    {
        let mut out: Vec<HidFrame> = Vec::new();
        let ghost before = self@;
        let ghost a = if before.modifiers != 0 || before.keys.len() > 0 || before.kbd_dirty {
            seq![idle().keyboard_report()]
        } else {
            Seq::empty()
        };
        let ghost b = a + (if before.buttons != 0 || before.buttons_dirty {
            seq![mouse_report(0, 0, 0, 0)]
        } else {
            Seq::empty()
        });
        if self.modifiers != 0 || self.keys.len() != 0 || self.kbd_dirty {
            self.modifiers = 0;
            self.keys = Vec::new();
            out.push(self.keyboard_frame());
            assert(self@.keyboard_report() =~= idle().keyboard_report());
        }
        assert(hid::frames(out@) =~= a);
        assert(self@.keys =~= Seq::empty());
        if self.buttons != 0 || self.buttons_dirty {
            self.buttons = 0;
            let frame = HidFrame::Mouse([MOUSE_REPORT_ID, 0, 0, 0, 0]);
            assert(frame@ =~= mouse_report(0, 0, 0, 0));
            out.push(frame);
        }
        assert(hid::frames(out@) =~= b);
        if self.consumer != 0 || self.consumer_dirty {
            self.consumer = 0;
            out.push(self.consumer_frame());
            assert(self@.consumer_report() =~= idle().consumer_report());
        }
        assert(hid::frames(out@) =~= release_reports(before));
        self.dx = 0;
        self.dy = 0;
        self.wheel = 0;
        self.kbd_dirty = false;
        self.buttons_dirty = false;
        self.consumer_dirty = false;
        out
    }

    /// The usage at a position of the report, 0 past the held keys.
    fn usage_at(&self, i: usize) -> (r: u8)
        ensures
            r == (if i < self@.keys.len() {
                self@.keys[i as int]
            } else {
                0u8
            }),
    {
        if i < self.keys.len() {
            self.keys[i]
        } else {
            0
        }
    }

    fn keyboard_frame(&self) -> (r: HidFrame)
        requires
            self@.keys.len() <= ROLLOVER,
        ensures
            r@ == self@.keyboard_report(),
            r is Keyboard,
    {
        let r = HidFrame::Keyboard(
            [
                KEYBOARD_REPORT_ID,
                self.modifiers,
                0,
                self.usage_at(0),
                self.usage_at(1),
                self.usage_at(2),
                self.usage_at(3),
                self.usage_at(4),
                self.usage_at(5),
            ],
        );
        assert(r@ =~= self@.keyboard_report());
        r
    }

    fn consumer_frame(&self) -> (r: HidFrame)
        ensures
            r@ == self@.consumer_report(),
            r is Consumer,
    {
        let lo: u8 = (self.consumer % 256) as u8;
        let hi: u8 = (self.consumer / 256) as u8;
        let r = HidFrame::Consumer([CONSUMER_REPORT_ID, lo, hi]);
        assert(r@ =~= self@.consumer_report());
        r
    }
}

// ---------------------------------------------------------------------------
// Laws
// ---------------------------------------------------------------------------

/// Key events keep the state well-formed.
pub proof fn law_key_keeps_wf(s: TranslatorState, key: u16, value: i32)
    requires
        s.wf(),
    ensures
        after_key(s, key, value).wf(),
{
    law_usages_in_range(key);
    if let Some(Usage::Key(usage)) = key_usage_of(key) {
        let keys = s.keys;
        if keys.contains(usage) {
            let i = keys.index_of(usage);
            assert(0 <= i < keys.len());
            let left = keys.remove(i);
            assert forall|j: int| 0 <= j < left.len() implies #[trigger] left[j] == (if j < i {
                keys[j]
            } else {
                keys[j + 1]
            }) by {}
            assert(left.no_duplicates());
            assert(!left.contains(0));
        } else {
            let more = keys.push(usage);
            assert(more.no_duplicates());
            assert forall|j: int| 0 <= j < more.len() implies more[j] != 0 by {
                if j < keys.len() {
                    assert(keys.contains(keys[j]));
                }
            }
        }
    }
}

/// The distance a list of mouse reports carries in one of its bytes.
pub open spec fn distance(reports: Seq<Seq<u8>>, byte: int) -> int
    decreases reports.len(),
{
    if reports.len() == 0 {
        0
    } else {
        signed(reports[0][byte]) + distance(reports.drop_first(), byte)
    }
}

/// Splitting motion over reports loses none of it: the reports add up to the
/// distance on each axis, and each carries the current buttons.
pub proof fn law_motion_is_never_lost(buttons: u8, dx: int, dy: int, wheel: int)
    ensures
        ({
            let reports = mouse_reports(buttons, dx, dy, wheel);
            &&& distance(reports, 2) == dx
            &&& distance(reports, 3) == dy
            &&& distance(reports, 4) == wheel
            &&& reports.len() >= 1
            &&& forall|i: int|
                0 <= i < reports.len() ==> {
                    &&& (#[trigger] reports[i]).len() == 5
                    &&& reports[i][0] == MOUSE_REPORT_ID
                    &&& reports[i][1] == buttons
                }
        }),
    decreases magnitude(dx) + magnitude(dy) + magnitude(wheel),
{
    let reports = mouse_reports(buttons, dx, dy, wheel);
    let (rx, ry, rw) = (dx - chunk(dx), dy - chunk(dy), wheel - chunk(wheel));
    if rx == 0 && ry == 0 && rw == 0 {
        assert(reports.drop_first() =~= Seq::empty());
        assert(distance(reports.drop_first(), 2) == 0);
        assert(distance(reports.drop_first(), 3) == 0);
        assert(distance(reports.drop_first(), 4) == 0);
    } else {
        law_motion_is_never_lost(buttons, rx, ry, rw);
        let rest = mouse_reports(buttons, rx, ry, rw);
        assert(reports.drop_first() =~= rest);
        assert forall|i: int| 1 <= i < reports.len() implies reports[i] == rest[i - 1] by {}
    }
}

/// A report that differs from the last one emitted is always flagged: whatever
/// a key event changes on a page marks that page.
pub proof fn law_changes_are_flagged(s: TranslatorState, key: u16, value: i32)
    ensures
        ({
            let t = after_key(s, key, value);
            &&& t.keyboard_report() != s.keyboard_report() ==> t.kbd_dirty
            &&& t.consumer_report() != s.consumer_report() ==> t.consumer_dirty
            &&& t.buttons != s.buttons ==> t.buttons_dirty
            &&& s.kbd_dirty ==> t.kbd_dirty
            &&& s.consumer_dirty ==> t.consumer_dirty
            &&& s.buttons_dirty ==> t.buttons_dirty
        }),
{
}

/// Repeats change nothing.
pub proof fn law_repeats_are_ignored(s: TranslatorState, key: u16)
    ensures
        after_key(s, key, 2) == s,
{
}

/// Pressing and releasing a key that was up leaves the same keys, modifiers
/// and buttons held. A media key leaves no usage behind.
pub proof fn law_release_undoes_press(s: TranslatorState, key: u16)
    requires
        s.wf(),
        key_usage_of(key) matches Some(Usage::Key(usage)) ==> !s.keys.contains(usage) && s.keys.len()
            < ROLLOVER,
        key_usage_of(key) matches Some(Usage::Modifier(bit)) ==> s.modifiers & (1u8 << bit) == 0,
        button_bit(key) matches Some(bit) ==> s.buttons & (1u8 << bit) == 0,
    ensures
        ({
            let t = after_key(after_key(s, key, 1), key, 0);
            &&& t.keys == s.keys
            &&& t.modifiers == s.modifiers
            &&& t.buttons == s.buttons
            &&& t.consumer == if consumer_usage_of(key) is Some {
                0
            } else {
                s.consumer
            }
        }),
{
    law_usages_in_range(key);
    if let Some(Usage::Key(usage)) = key_usage_of(key) {
        let more = s.keys.push(usage);
        assert(more[s.keys.len() as int] == usage);
        assert(more.contains(usage));
        let i = more.index_of(usage);
        assert(i == s.keys.len()) by {
            if i < s.keys.len() {
                assert(s.keys[i] == usage);
            }
        }
        assert(more.remove(i) =~= s.keys);
    }
    if let Some(Usage::Modifier(bit)) = key_usage_of(key) {
        lemma_bit_roundtrip(s.modifiers, bit);
    }
    if let Some(bit) = button_bit(key) {
        lemma_bit_roundtrip(s.buttons, bit);
    }
}

proof fn lemma_bit_roundtrip(byte: u8, bit: u8)
    requires
        bit < 8,
        byte & (1u8 << bit) == 0,
    ensures
        with_bit(with_bit(byte, bit, true), bit, false) == byte,
{
    assert((byte | (1u8 << bit)) & !(1u8 << bit) == byte) by (bit_vector)
        requires
            bit < 8,
            byte & (1u8 << bit) == 0,
    ;
}

/// Keys of one page never touch another page's report.
pub proof fn law_pages_are_separate(s: TranslatorState, key: u16, value: i32)
    ensures
        ({
            let t = after_key(s, key, value);
            &&& consumer_usage_of(key) is Some ==> t.keyboard_report() == s.keyboard_report()
                && t.buttons == s.buttons
            &&& consumer_usage_of(key) is None ==> t.consumer == s.consumer
            &&& t.dx == s.dx && t.dy == s.dy && t.wheel == s.wheel
        }),
{
}

/// What a host takes to be held, from the reports it got.
#[verifier::ext_equal]
pub struct HostView {
    /// The last keyboard report.
    pub keyboard: Seq<u8>,
    /// The buttons of the last mouse report.
    pub buttons: u8,
    /// The last consumer report.
    pub consumer: Seq<u8>,
}

impl HostView {
    /// A host that takes nothing to be held.
    pub open spec fn at_rest() -> HostView {
        HostView {
            keyboard: idle().keyboard_report(),
            buttons: 0,
            consumer: idle().consumer_report(),
        }
    }

    /// After a report.
    pub open spec fn told(self, report: Seq<u8>) -> HostView {
        if report[0] == KEYBOARD_REPORT_ID {
            HostView { keyboard: report, ..self }
        } else if report[0] == MOUSE_REPORT_ID {
            HostView { buttons: report[1], ..self }
        } else {
            HostView { consumer: report, ..self }
        }
    }

    /// After several reports.
    pub open spec fn told_all(self, reports: Seq<Seq<u8>>) -> HostView
        decreases reports.len(),
    {
        if reports.len() == 0 {
            self
        } else {
            self.told(reports[0]).told_all(reports.drop_first())
        }
    }

    /// The host knows everything but what is flagged as not emitted.
    pub open spec fn follows(self, s: TranslatorState) -> bool {
        &&& !s.kbd_dirty ==> self.keyboard == s.keyboard_report()
        &&& !s.buttons_dirty ==> self.buttons == s.buttons
        &&& !s.consumer_dirty ==> self.consumer == s.consumer_report()
    }
}

proof fn lemma_told_all_append(host: HostView, a: Seq<Seq<u8>>, b: Seq<Seq<u8>>)
    ensures
        host.told_all(a + b) == host.told_all(a).told_all(b),
    decreases a.len(),
{
    if a.len() == 0 {
        assert(a + b =~= b);
    } else {
        assert((a + b)[0] == a[0]);
        assert((a + b).drop_first() =~= a.drop_first() + b);
        lemma_told_all_append(host.told(a[0]), a.drop_first(), b);
    }
}

proof fn lemma_told_one(host: HostView, report: Seq<u8>)
    ensures
        host.told_all(seq![report]) == host.told(report),
{
    assert(seq![report].drop_first() =~= Seq::<Seq<u8>>::empty());
    reveal_with_fuel(HostView::told_all, 2);
}

proof fn lemma_told_motion(host: HostView, buttons: u8, dx: int, dy: int, wheel: int)
    ensures
        host.told_all(mouse_reports(buttons, dx, dy, wheel)) == (HostView { buttons, ..host }),
    decreases magnitude(dx) + magnitude(dy) + magnitude(wheel),
{
    let first = mouse_report(buttons, chunk(dx), chunk(dy), chunk(wheel));
    let (rx, ry, rw) = (dx - chunk(dx), dy - chunk(dy), wheel - chunk(wheel));
    lemma_told_one(host, first);
    if !(rx == 0 && ry == 0 && rw == 0) {
        lemma_told_all_append(host, seq![first], mouse_reports(buttons, rx, ry, rw));
        lemma_told_motion(host.told(first), buttons, rx, ry, rw);
    }
}

/// A host that gets every report follows what is held: key events flag what it
/// has not seen, and a flush tells it.
pub proof fn law_the_host_follows(s: TranslatorState, host: HostView, key: u16, value: i32)
    requires
        host.follows(s),
    ensures
        host.follows(after_key(s, key, value)),
        host.told_all(pending_keyboard(s) + pending_consumer(s) + pending_mouse(s)) == (HostView {
            keyboard: s.keyboard_report(),
            buttons: s.buttons,
            consumer: s.consumer_report(),
        }),
{
    law_changes_are_flagged(s, key, value);
    let (a, b, c) = (pending_keyboard(s), pending_consumer(s), pending_mouse(s));
    lemma_told_all_append(host, a + b, c);
    lemma_told_all_append(host, a, b);
    lemma_told_one(host, s.keyboard_report());
    lemma_told_one(host.told_all(a), s.consumer_report());
    lemma_told_motion(host.told_all(a + b), s.buttons, s.dx, s.dy, s.wheel);
    assert(host.told_all(a + b + c) =~= HostView {
        keyboard: s.keyboard_report(),
        buttons: s.buttons,
        consumer: s.consumer_report(),
    });
}

/// Nothing stays stuck: after a release of everything a host that follows takes
/// nothing to be held.
pub proof fn law_nothing_stays_stuck(s: TranslatorState, host: HostView)
    requires
        host.follows(s),
    ensures
        host.told_all(release_reports(s)) == HostView::at_rest(),
{
    let none = Seq::<Seq<u8>>::empty();
    let rest = HostView::at_rest();
    let a = if s.modifiers != 0 || s.keys.len() > 0 || s.kbd_dirty {
        seq![rest.keyboard]
    } else {
        none
    };
    let b = if s.buttons != 0 || s.buttons_dirty {
        seq![mouse_report(0, 0, 0, 0)]
    } else {
        none
    };
    let c = if s.consumer != 0 || s.consumer_dirty {
        seq![rest.consumer]
    } else {
        none
    };
    assert(release_reports(s) == a + b + c);
    lemma_told_all_append(host, a + b, c);
    lemma_told_all_append(host, a, b);
    lemma_told_one(host, rest.keyboard);
    lemma_told_one(host.told_all(a), mouse_report(0, 0, 0, 0));
    lemma_told_one(host.told_all(a + b), rest.consumer);
    assert(s.modifiers == 0 && s.keys.len() == 0 ==> s.keyboard_report() =~= rest.keyboard);
    assert(s.consumer == 0 ==> s.consumer_report() =~= rest.consumer);
    assert(host.told_all(a + b + c) =~= rest);
}

/// After everything was released there is nothing left to emit.
pub proof fn law_nothing_pending_when_idle()
    ensures
        pending_keyboard(idle()) =~= Seq::empty(),
        pending_consumer(idle()) =~= Seq::empty(),
        pending_mouse(idle()) =~= Seq::empty(),
        release_reports(idle()) =~= Seq::empty(),
{
}

// ---------------------------------------------------------------------------
// Codes and usages
// ---------------------------------------------------------------------------

/// The USB HID usage of every key of the keyboard page, by evdev code. No other
/// code has one.
pub proof fn law_keyboard_usages(key: u16)
    ensures
        key_usage_of(1) == Some(Usage::Key(0x29)),
        key_usage_of(2) == Some(Usage::Key(0x1E)),
        key_usage_of(3) == Some(Usage::Key(0x1F)),
        key_usage_of(4) == Some(Usage::Key(0x20)),
        key_usage_of(5) == Some(Usage::Key(0x21)),
        key_usage_of(6) == Some(Usage::Key(0x22)),
        key_usage_of(7) == Some(Usage::Key(0x23)),
        key_usage_of(8) == Some(Usage::Key(0x24)),
        key_usage_of(9) == Some(Usage::Key(0x25)),
        key_usage_of(10) == Some(Usage::Key(0x26)),
        key_usage_of(11) == Some(Usage::Key(0x27)),
        key_usage_of(12) == Some(Usage::Key(0x2D)),
        key_usage_of(13) == Some(Usage::Key(0x2E)),
        key_usage_of(14) == Some(Usage::Key(0x2A)),
        key_usage_of(15) == Some(Usage::Key(0x2B)),
        key_usage_of(16) == Some(Usage::Key(0x14)),
        key_usage_of(17) == Some(Usage::Key(0x1A)),
        key_usage_of(18) == Some(Usage::Key(0x08)),
        key_usage_of(19) == Some(Usage::Key(0x15)),
        key_usage_of(20) == Some(Usage::Key(0x17)),
        key_usage_of(21) == Some(Usage::Key(0x1C)),
        key_usage_of(22) == Some(Usage::Key(0x18)),
        key_usage_of(23) == Some(Usage::Key(0x0C)),
        key_usage_of(24) == Some(Usage::Key(0x12)),
        key_usage_of(25) == Some(Usage::Key(0x13)),
        key_usage_of(26) == Some(Usage::Key(0x2F)),
        key_usage_of(27) == Some(Usage::Key(0x30)),
        key_usage_of(28) == Some(Usage::Key(0x28)),
        key_usage_of(30) == Some(Usage::Key(0x04)),
        key_usage_of(31) == Some(Usage::Key(0x16)),
        key_usage_of(32) == Some(Usage::Key(0x07)),
        key_usage_of(33) == Some(Usage::Key(0x09)),
        key_usage_of(34) == Some(Usage::Key(0x0A)),
        key_usage_of(35) == Some(Usage::Key(0x0B)),
        key_usage_of(36) == Some(Usage::Key(0x0D)),
        key_usage_of(37) == Some(Usage::Key(0x0E)),
        key_usage_of(38) == Some(Usage::Key(0x0F)),
        key_usage_of(39) == Some(Usage::Key(0x33)),
        key_usage_of(40) == Some(Usage::Key(0x34)),
        key_usage_of(41) == Some(Usage::Key(0x35)),
        key_usage_of(43) == Some(Usage::Key(0x31)),
        key_usage_of(44) == Some(Usage::Key(0x1D)),
        key_usage_of(45) == Some(Usage::Key(0x1B)),
        key_usage_of(46) == Some(Usage::Key(0x06)),
        key_usage_of(47) == Some(Usage::Key(0x19)),
        key_usage_of(48) == Some(Usage::Key(0x05)),
        key_usage_of(49) == Some(Usage::Key(0x11)),
        key_usage_of(50) == Some(Usage::Key(0x10)),
        key_usage_of(51) == Some(Usage::Key(0x36)),
        key_usage_of(52) == Some(Usage::Key(0x37)),
        key_usage_of(53) == Some(Usage::Key(0x38)),
        key_usage_of(55) == Some(Usage::Key(0x55)),
        key_usage_of(57) == Some(Usage::Key(0x2C)),
        key_usage_of(58) == Some(Usage::Key(0x39)),
        key_usage_of(59) == Some(Usage::Key(0x3A)),
        key_usage_of(60) == Some(Usage::Key(0x3B)),
        key_usage_of(61) == Some(Usage::Key(0x3C)),
        key_usage_of(62) == Some(Usage::Key(0x3D)),
        key_usage_of(63) == Some(Usage::Key(0x3E)),
        key_usage_of(64) == Some(Usage::Key(0x3F)),
        key_usage_of(65) == Some(Usage::Key(0x40)),
        key_usage_of(66) == Some(Usage::Key(0x41)),
        key_usage_of(67) == Some(Usage::Key(0x42)),
        key_usage_of(68) == Some(Usage::Key(0x43)),
        key_usage_of(69) == Some(Usage::Key(0x53)),
        key_usage_of(70) == Some(Usage::Key(0x47)),
        key_usage_of(71) == Some(Usage::Key(0x5F)),
        key_usage_of(72) == Some(Usage::Key(0x60)),
        key_usage_of(73) == Some(Usage::Key(0x61)),
        key_usage_of(74) == Some(Usage::Key(0x56)),
        key_usage_of(75) == Some(Usage::Key(0x5C)),
        key_usage_of(76) == Some(Usage::Key(0x5D)),
        key_usage_of(77) == Some(Usage::Key(0x5E)),
        key_usage_of(78) == Some(Usage::Key(0x57)),
        key_usage_of(79) == Some(Usage::Key(0x59)),
        key_usage_of(80) == Some(Usage::Key(0x5A)),
        key_usage_of(81) == Some(Usage::Key(0x5B)),
        key_usage_of(82) == Some(Usage::Key(0x62)),
        key_usage_of(83) == Some(Usage::Key(0x63)),
        key_usage_of(86) == Some(Usage::Key(0x64)),
        key_usage_of(87) == Some(Usage::Key(0x44)),
        key_usage_of(88) == Some(Usage::Key(0x45)),
        key_usage_of(96) == Some(Usage::Key(0x58)),
        key_usage_of(98) == Some(Usage::Key(0x54)),
        key_usage_of(99) == Some(Usage::Key(0x46)),
        key_usage_of(102) == Some(Usage::Key(0x4A)),
        key_usage_of(103) == Some(Usage::Key(0x52)),
        key_usage_of(104) == Some(Usage::Key(0x4B)),
        key_usage_of(105) == Some(Usage::Key(0x50)),
        key_usage_of(106) == Some(Usage::Key(0x4F)),
        key_usage_of(107) == Some(Usage::Key(0x4D)),
        key_usage_of(108) == Some(Usage::Key(0x51)),
        key_usage_of(109) == Some(Usage::Key(0x4E)),
        key_usage_of(110) == Some(Usage::Key(0x49)),
        key_usage_of(111) == Some(Usage::Key(0x4C)),
        key_usage_of(119) == Some(Usage::Key(0x48)),
        key_usage_of(127) == Some(Usage::Key(0x65)),
        key_usage_of(29) == Some(Usage::Modifier(0)),
        key_usage_of(42) == Some(Usage::Modifier(1)),
        key_usage_of(56) == Some(Usage::Modifier(2)),
        key_usage_of(125) == Some(Usage::Modifier(3)),
        key_usage_of(97) == Some(Usage::Modifier(4)),
        key_usage_of(54) == Some(Usage::Modifier(5)),
        key_usage_of(100) == Some(Usage::Modifier(6)),
        key_usage_of(126) == Some(Usage::Modifier(7)),
        key_usage_of(key) is Some <==> (1 <= key <= 83 || 86 <= key <= 88 || 96 <= key <= 100 || 102 <= key <= 111 || key == 119 || 125 <= key <= 127),
{
}

/// Each mouse button has its own bit: HID button usage minus one. The thumb
/// buttons are known under two codes each.
pub proof fn law_mouse_buttons(s: TranslatorState, key: u16)
    ensures
        after_key(s, 0x110, 1).buttons == s.buttons | 1,
        after_key(s, 0x111, 1).buttons == s.buttons | 2,
        after_key(s, 0x112, 1).buttons == s.buttons | 4,
        after_key(s, 0x113, 1).buttons == s.buttons | 8,
        after_key(s, 0x116, 1).buttons == s.buttons | 8,
        after_key(s, 0x114, 1).buttons == s.buttons | 16,
        after_key(s, 0x115, 1).buttons == s.buttons | 16,
        after_key(s, 0x110, 0).buttons == s.buttons & !1u8,
        after_key(s, 0x111, 0).buttons == s.buttons & !2u8,
        after_key(s, 0x112, 0).buttons == s.buttons & !4u8,
        after_key(s, 0x113, 0).buttons == s.buttons & !8u8,
        after_key(s, 0x116, 0).buttons == s.buttons & !8u8,
        after_key(s, 0x114, 0).buttons == s.buttons & !16u8,
        after_key(s, 0x115, 0).buttons == s.buttons & !16u8,
        !(0x110 <= key <= 0x116) ==> after_key(s, key, 0).buttons == s.buttons && after_key(
            s,
            key,
            1,
        ).buttons == s.buttons,
        0x110 <= key <= 0x116 ==> {
            &&& after_key(s, key, 1).keyboard_report() == s.keyboard_report()
            &&& after_key(s, key, 0).keyboard_report() == s.keyboard_report()
        },
{
    lemma_bits();
    assert(after_key(s, key, 1).keyboard_report() =~= s.keyboard_report() || !(0x110 <= key
        <= 0x116));
    assert(after_key(s, key, 0).keyboard_report() =~= s.keyboard_report() || !(0x110 <= key
        <= 0x116));
}

proof fn lemma_bits()
    ensures
        1u8 << 0 == 1,
        1u8 << 1 == 2,
        1u8 << 2 == 4,
        1u8 << 3 == 8,
        1u8 << 4 == 16,
        1u8 << 5 == 32,
        1u8 << 6 == 64,
        1u8 << 7 == 128,
{
    assert(1u8 << 0u8 == 1 && 1u8 << 1u8 == 2 && 1u8 << 2u8 == 4 && 1u8 << 3u8 == 8 && 1u8 << 4u8
        == 16 && 1u8 << 5u8 == 32 && 1u8 << 6u8 == 64 && 1u8 << 7u8 == 128) by (bit_vector);
}

/// Each modifier key has its own bit: left Ctrl, Shift, Alt, Meta, then the
/// right ones.
pub proof fn law_modifier_bits(s: TranslatorState)
    ensures
        after_key(s, 29, 1).modifiers == s.modifiers | 1,
        after_key(s, 42, 1).modifiers == s.modifiers | 2,
        after_key(s, 56, 1).modifiers == s.modifiers | 4,
        after_key(s, 125, 1).modifiers == s.modifiers | 8,
        after_key(s, 97, 1).modifiers == s.modifiers | 16,
        after_key(s, 54, 1).modifiers == s.modifiers | 32,
        after_key(s, 100, 1).modifiers == s.modifiers | 64,
        after_key(s, 126, 1).modifiers == s.modifiers | 128,
        after_key(s, 29, 0).modifiers == s.modifiers & !1u8,
        after_key(s, 42, 0).modifiers == s.modifiers & !2u8,
        after_key(s, 56, 0).modifiers == s.modifiers & !4u8,
        after_key(s, 125, 0).modifiers == s.modifiers & !8u8,
        after_key(s, 97, 0).modifiers == s.modifiers & !16u8,
        after_key(s, 54, 0).modifiers == s.modifiers & !32u8,
        after_key(s, 100, 0).modifiers == s.modifiers & !64u8,
        after_key(s, 126, 0).modifiers == s.modifiers & !128u8,
{
    lemma_bits();
}

/// Each media key has its usage on the consumer page, which a press reports and
/// a release takes back; other keys leave that page alone.
pub proof fn law_media_keys(s: TranslatorState, key: u16, value: i32)
    requires
        value == 0 || value == 1,
    ensures
        after_key(s, 113, 1).consumer == 0xE2,
        after_key(s, 115, 1).consumer == 0xE9,
        after_key(s, 114, 1).consumer == 0xEA,
        after_key(s, 164, 1).consumer == 0xCD,
        after_key(s, 166, 1).consumer == 0xB7,
        after_key(s, 163, 1).consumer == 0xB5,
        after_key(s, 165, 1).consumer == 0xB6,
        after_key(s, 225, 1).consumer == 0x6F,
        after_key(s, 224, 1).consumer == 0x70,
        after_key(s, 113, 0).consumer == (if s.consumer == 0xE2 {
            0
        } else {
            s.consumer
        }),
        after_key(s, 115, 0).consumer == (if s.consumer == 0xE9 {
            0
        } else {
            s.consumer
        }),
        after_key(s, 114, 0).consumer == (if s.consumer == 0xEA {
            0
        } else {
            s.consumer
        }),
        after_key(s, 164, 0).consumer == (if s.consumer == 0xCD {
            0
        } else {
            s.consumer
        }),
        after_key(s, 166, 0).consumer == (if s.consumer == 0xB7 {
            0
        } else {
            s.consumer
        }),
        after_key(s, 163, 0).consumer == (if s.consumer == 0xB5 {
            0
        } else {
            s.consumer
        }),
        after_key(s, 165, 0).consumer == (if s.consumer == 0xB6 {
            0
        } else {
            s.consumer
        }),
        after_key(s, 225, 0).consumer == (if s.consumer == 0x6F {
            0
        } else {
            s.consumer
        }),
        after_key(s, 224, 0).consumer == (if s.consumer == 0x70 {
            0
        } else {
            s.consumer
        }),
        !(113 <= key <= 115 || 163 <= key <= 166 || 224 <= key <= 225) ==> after_key(s, key, value).consumer == s.consumer,
        (113 <= key <= 115 || 163 <= key <= 166 || 224 <= key <= 225) ==> after_key(s, key, value).keys == s.keys && after_key(s, key, value).modifiers
            == s.modifiers && after_key(s, key, value).buttons == s.buttons,
{
}

/// A press puts a key's usage into the report, as long as there is room for six;
/// a release takes it out. The usages of other keys stay, in their order.
pub proof fn law_keys_come_and_go(s: TranslatorState, key: u16, usage: u8, other: u8)
    requires
        s.wf(),
        key_usage_of(key) == Some(Usage::Key(usage)),
        other != usage,
    ensures
        s.keys.len() < 6 ==> after_key(s, key, 1).keys.contains(usage),
        after_key(s, key, 1).keys.contains(other) <==> s.keys.contains(other),
        after_key(s, key, 1).keys.take(s.keys.len() as int) == s.keys,
        after_key(s, key, 1).keys.len() <= 6,
        !after_key(s, key, 0).keys.contains(usage),
        after_key(s, key, 0).keys.contains(other) <==> s.keys.contains(other),
        !s.keys.contains(usage) ==> after_key(s, key, 0).keys == s.keys,
        after_key(s, key, 0).modifiers == s.modifiers,
        after_key(s, key, 1).modifiers == s.modifiers,
{
    law_keyboard_usages(key);
    let keys = s.keys;
    let more = keys.push(usage);
    assert(after_key(s, key, 1).keys.take(keys.len() as int) =~= keys);
    assert(more[keys.len() as int] == usage);
    assert(more.contains(other) <==> keys.contains(other)) by {
        if keys.contains(other) {
            let i = choose|i: int| 0 <= i < keys.len() && keys[i] == other;
            assert(more[i] == other);
        }
    }
    if keys.contains(usage) {
        let i = keys.index_of(usage);
        let left = keys.remove(i);
        assert forall|j: int| 0 <= j < left.len() implies #[trigger] left[j] == (if j < i {
            keys[j]
        } else {
            keys[j + 1]
        }) by {}
        if left.contains(usage) {
            let j = choose|j: int| 0 <= j < left.len() && left[j] == usage;
            if j < i {
                assert(keys[j] == keys[i]);
            } else {
                assert(keys[j + 1] == keys[i]);
            }
        }
        assert(left.contains(other) <==> keys.contains(other)) by {
            if keys.contains(other) {
                let j = choose|j: int| 0 <= j < keys.len() && keys[j] == other;
                if j < i {
                    assert(left[j] == other);
                } else {
                    assert(left[j - 1] == other);
                }
            }
        }
    }
}

/// The layout of a keyboard report: ID 1, the modifiers, a reserved byte, then
/// the held keys in order and zeros after them.
pub proof fn law_keyboard_report_layout(s: TranslatorState, i: int)
    requires
        s.wf(),
        0 <= i < 6,
    ensures
        s.keyboard_report().len() == 9,
        s.keyboard_report()[0] == 1,
        s.keyboard_report()[1] == s.modifiers,
        s.keyboard_report()[2] == 0,
        i < s.keys.len() ==> s.keyboard_report()[3 + i] == s.keys[i],
        i >= s.keys.len() ==> s.keyboard_report()[3 + i] == 0,
{
}

/// The layout of a consumer report: ID 4, then the usage, low byte first.
pub proof fn law_consumer_report_layout(s: TranslatorState)
    ensures
        s.consumer_report().len() == 3,
        s.consumer_report()[0] == 4,
        s.consumer_report()[1] + 256 * s.consumer_report()[2] == s.consumer,
{
}

/// Motion adds up, each axis for itself: X, Y and the wheel; other axes count
/// for nothing, and nothing else changes.
pub proof fn law_motion_adds_up(s: TranslatorState, axis: u16, value: i32)
    ensures
        after_rel(s, axis, value).dx == s.dx + (if axis == 0 {
            value as int
        } else {
            0
        }),
        after_rel(s, axis, value).dy == s.dy + (if axis == 1 {
            value as int
        } else {
            0
        }),
        after_rel(s, axis, value).wheel == s.wheel + (if axis == 8 {
            value as int
        } else {
            0
        }),
        after_rel(s, axis, value).buttons == s.buttons,
        after_rel(s, axis, value).keyboard_report() == s.keyboard_report(),
        after_rel(s, axis, value).consumer == s.consumer,
        after_rel(s, axis, value).kbd_dirty == s.kbd_dirty,
        after_rel(s, axis, value).buttons_dirty == s.buttons_dirty,
        after_rel(s, axis, value).consumer_dirty == s.consumer_dirty,
{
    assert(after_rel(s, axis, value).keyboard_report() =~= s.keyboard_report());
}

/// A flush emits what changed and only that: the keyboard and the consumer
/// report once each where they are flagged, mouse reports where buttons are
/// flagged or motion waits. What they carry adds up to the motion.
pub proof fn law_flush_emits_what_changed(s: TranslatorState)
    ensures
        s.kbd_dirty ==> pending_keyboard(s) == seq![s.keyboard_report()],
        !s.kbd_dirty ==> pending_keyboard(s).len() == 0,
        s.consumer_dirty ==> pending_consumer(s) == seq![s.consumer_report()],
        !s.consumer_dirty ==> pending_consumer(s).len() == 0,
        s.buttons_dirty || s.dx != 0 || s.dy != 0 || s.wheel != 0 <==> pending_mouse(s).len() > 0,
        distance(pending_mouse(s), 2) == s.dx,
        distance(pending_mouse(s), 3) == s.dy,
        distance(pending_mouse(s), 4) == s.wheel,
        forall|i: int|
            0 <= i < pending_mouse(s).len() ==> (#[trigger] pending_mouse(s)[i]).len() == 5
                && pending_mouse(s)[i][0] == 2 && pending_mouse(s)[i][1] == s.buttons,
{
    law_motion_is_never_lost(s.buttons, s.dx, s.dy, s.wheel);
}

/// Motion bytes are two's complement, and no report carries more than 127 steps
/// on an axis.
pub proof fn law_motion_bytes(v: int)
    ensures
        -127 <= chunk(v) <= 127,
        v >= 0 ==> 0 <= chunk(v) <= v,
        v <= 0 ==> v <= chunk(v) <= 0,
        -127 <= v <= 127 ==> chunk(v) == v,
        0 <= v <= 127 ==> byte_of(v) == v,
        -127 <= v < 0 ==> byte_of(v) == 256 + v,
        -127 <= v <= 127 ==> signed(byte_of(v)) == v,
{
}

} // verus!
