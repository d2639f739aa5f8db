//! Slot lighting: drives the hub's own keyboard/mouse LEDs through a local
//! OpenRGB SDK server so the active slot is visible on the desk.
//!
//! Strictly cosmetic: every failure means "no lighting for now" — a dead or
//! missing OpenRGB server can neither delay nor block a switch.

use vstd::prelude::*;

use crate::config;
use crate::config::{RgbSettings, RgbView};
use crate::rgb::proto::{Device, DeviceView, Mode, ModeView};
use crate::text;
use crate::time;
use crate::time::{Duration, Instant};

pub mod conn;
pub mod proto;

pub use crate::rgb::proto::Rgb;

verus! {

broadcast use vstd::seq::group_seq_axioms;

/// Half a period: on/off at 500 ms is a 1 Hz blink.
pub const BLINK_MS: u64 = 500;

pub const FLASH_MS: u64 = 180;

/// Idle fade frame interval. 25 fps is smooth to the eye and nothing at all
/// for an OpenRGB server over loopback.
pub const FADE_TICK_MS: u64 = 40;

/// Waking is quick but not instant — a snap reads as a glitch, a short ramp
/// reads as deliberate. Going dark is slow enough to be a sigh rather than a
/// switch flicking off.
pub const FADE_IN_MS: u64 = 250;

pub const FADE_OUT_MS: u64 = 1000;

/// Level added or removed per fade tick, rounded up so a fade always reaches
/// its endpoint rather than stalling a step short. The durations above stay the
/// source of truth; the rounding costs ~30 ms on each.
pub const FADE_IN_STEP: u8 = 41;

pub const FADE_OUT_STEP: u8 = 11;

/// The router pings at most this often while you type. Long enough to keep a
/// 1000 Hz mouse from flooding the channel, short enough that the first event
/// after any real pause is always sent immediately — so waking is never
/// delayed by the coalescing.
pub const ACTIVITY_COALESCE_MS: u64 = 1000;

/// The level a fade of `total_ms` moves per tick, rounded up.
pub open spec fn step_of(total_ms: int) -> int {
    let step = (255 * FADE_TICK_MS + total_ms - 1) / total_ms;
    if step > 255 {
        255
    } else {
        step
    }
}

/// The level a fade of `total_ms` moves per tick, rounded up.
pub fn fade_step(total_ms: u64) -> (r: u8)
    requires
        0 < total_ms <= u64::MAX - 255 * FADE_TICK_MS + 1,
    ensures
        r == step_of(total_ms as int),
{
    let step: u64 = (255 * FADE_TICK_MS - 1 + total_ms) / total_ms;
    if step > 255 {
        255
    } else {
        step as u8
    }
}

/// The fade steps belong to the fade durations.
pub proof fn law_fade_steps()
    ensures
        FADE_IN_STEP == step_of(FADE_IN_MS as int),
        FADE_OUT_STEP == step_of(FADE_OUT_MS as int),
{
}

// ---------------------------------------------------------------------------
// Activity
// ---------------------------------------------------------------------------

/// Coalesced "the user is here" signal from the router to the lighting task.
///
/// Lives here rather than in the router because idling the LEDs is a lighting
/// concern; the router only knows it saw an event.
pub struct Activity {
    /// Events before this instant are part of a burst already signalled.
    quiet_until: Instant,
}

impl Activity {
    /// The instant up to which events add nothing to the last signal.
    pub closed spec fn burst_end(&self) -> Instant {
        self.quiet_until
    }

    /// The very first event, at `now` or later, pings without waiting.
    pub fn new(now: Instant) -> (r: Self)
        ensures
            r.burst_end() == now,
    {
        Activity { quiet_until: now }
    }

    /// Called for every input event, so it must stay cheap. Whether this event
    /// is to be signalled.
    pub fn ping(&mut self, now: Instant) -> (r: bool)
        requires
            now.in_range(),
        ensures
            r == old(self).burst_end().reached(now),
            final(self).burst_end() == if r {
                now.plus(Duration::of_millis(ACTIVITY_COALESCE_MS as int))
            } else {
                old(self).burst_end()
            },
    {
        if !self.quiet_until.is_reached(now) {
            return false;
        }
        self.quiet_until = now.after(Duration::from_millis(ACTIVITY_COALESCE_MS));
        true
    }
}

// ---------------------------------------------------------------------------
// What the LEDs show
// ---------------------------------------------------------------------------

/// Bluetooth-side happenings the lighting reflects. A full channel drops the
/// event rather than stalling the Bluetooth task.
#[derive(Debug, Clone, Copy, PartialEq, Eq, Structural)]
pub enum RgbEvent {
    PairingOpen,
    PairingClosed,
    Bound,
    /// Re-read the device list and push every color and mode again from
    /// scratch. The user's retry for lighting that came out wrong — a device
    /// that took half an update leaves the keyboard half one color, half
    /// another, and nothing else would ever correct it.
    Repaint,
}

#[derive(Debug, Clone, Copy, PartialEq, Eq, Structural)]
pub struct Frame {
    pub color: Rgb,
    pub brightness: u8,
}

#[derive(Debug, Clone, Copy, PartialEq, Eq, Structural)]
pub enum Anim {
    Steady,
    Pairing { lit: bool },
    /// Two green flashes on a successful bind, then back to the slot color.
    Flash { left: u8, lit: bool },
}

/// One channel of a color scaled to a level, on a squared curve.
pub open spec fn scaled(c: u8, level: u8) -> u8 {
    (c * (level * level) / 65025) as u8
}

/// A color scaled toward black.
pub open spec fn dimmed(color: Rgb, level: u8) -> Rgb {
    Rgb { r: scaled(color.r, level), g: scaled(color.g, level), b: scaled(color.b, level) }
}

fn scale(c: u8, level: u8) -> (r: u8)
    ensures
        r == scaled(c, level),
{
    proof {
        lemma_scaled(c, level);
    }
    let factor: u32 = level as u32 * level as u32;
    ((c as u32 * factor) / 65025) as u8
}

/// Scaling stays between black and the channel itself.
proof fn lemma_scaled(c: u8, level: u8)
    ensures
        0 <= level * level <= 65025,
        0 <= c * (level * level) <= 255 * 65025,
        c * (level * level) / 65025 <= c,
        level == 255 ==> c * (level * level) / 65025 == c,
        level == 0 ==> c * (level * level) / 65025 == 0,
{
    assert(0 <= level * level <= 255 * 255) by (nonlinear_arith)
        requires
            0 <= level <= 255,
    ;
    let f = level * level;
    assert(0 <= c * f <= 255 * 65025) by (nonlinear_arith)
        requires
            0 <= c <= 255,
            0 <= f <= 65025,
    ;
    assert(c * f <= c * 65025) by (nonlinear_arith)
        requires
            0 <= c,
            0 <= f <= 65025,
    ;
    assert(c * f / 65025 <= c) by (nonlinear_arith)
        requires
            c * f <= c * 65025,
    ;
    if level == 255 {
        assert(f == 65025);
        assert(c * 65025 / 65025 == c) by (nonlinear_arith);
    }
    if level == 0 {
        assert(f == 0);
        assert(c * 0 == 0) by (nonlinear_arith);
    }
}

/// Scale a color toward black. The curve is squared because the eye's response
/// to light is not linear: scaled straight, a fade rushes the bright end and
/// crawls near black instead of reading as an even ramp.
pub fn dim(color: Rgb, level: u8) -> (r: Rgb)
    ensures
        r == dimmed(color, level),
{
    Rgb { r: scale(color.r, level), g: scale(color.g, level), b: scale(color.b, level) }
}

/// A full level changes nothing, no level is black, and no channel ever gets
/// brighter.
pub proof fn law_dim_bounds(color: Rgb, level: u8)
    ensures
        dimmed(color, 255) == color,
        dimmed(color, 0) == Rgb::black(),
        dimmed(color, level).r <= color.r,
        dimmed(color, level).g <= color.g,
        dimmed(color, level).b <= color.b,
{
    lemma_scaled(color.r, 255);
    lemma_scaled(color.g, 255);
    lemma_scaled(color.b, 255);
    lemma_scaled(color.r, 0);
    lemma_scaled(color.g, 0);
    lemma_scaled(color.b, 0);
    lemma_scaled(color.r, level);
    lemma_scaled(color.g, level);
    lemma_scaled(color.b, level);
}

/// A higher level is never darker: a fade reads as an even ramp.
pub proof fn law_dim_is_monotone(c: u8, low: u8, high: u8)
    requires
        low <= high,
    ensures
        scaled(c, low) <= scaled(c, high),
{
    lemma_scaled(c, low);
    lemma_scaled(c, high);
    assert(low * low <= high * high) by (nonlinear_arith)
        requires
            0 <= low <= high,
    ;
    let (a, b) = (low * low, high * high);
    assert(c * a <= c * b) by (nonlinear_arith)
        requires
            0 <= c,
            a <= b,
    ;
}

/// What the LEDs should show right now, independent of whether a server is
/// reachable to show it.
pub struct Lights {
    pub settings: RgbSettings,
    pub slot: u8,
    pub anim: Anim,
    pub anim_tick: Option<Instant>,
    /// Idle dimmer, 255 lit down to 0 dark. Applied over whatever `anim` renders,
    /// so an animation keeps running behind a dark screen and is showing the
    /// right thing the moment the user comes back.
    pub level: u8,
    /// The idle deadline has passed: the dimmer wants black. Held separately from
    /// `level` so an interrupted fade reverses from where it is.
    pub dark: bool,
    /// When the LEDs go dark. `None` while already dark, or when blanking is
    /// switched off entirely.
    pub idle_at: Option<Instant>,
    pub fade_tick: Option<Instant>,
}

/// The state of [`Lights`].
pub struct LightsView {
    pub settings: RgbView,
    pub slot: u8,
    pub anim: Anim,
    pub anim_tick: Option<Instant>,
    pub level: u8,
    pub dark: bool,
    pub idle_at: Option<Instant>,
    pub fade_tick: Option<Instant>,
}

impl View for Lights {
    type V = LightsView;

    open spec fn view(&self) -> LightsView {
        LightsView {
            settings: self.settings@,
            slot: self.slot,
            anim: self.anim,
            anim_tick: self.anim_tick,
            level: self.level,
            dark: self.dark,
            idle_at: self.idle_at,
            fade_tick: self.fade_tick,
        }
    }
}

pub open spec fn blink_span() -> Duration {
    Duration::of_millis(BLINK_MS as int)
}

pub open spec fn flash_span() -> Duration {
    Duration::of_millis(FLASH_MS as int)
}

pub open spec fn fade_span() -> Duration {
    Duration::of_millis(FADE_TICK_MS as int)
}

impl LightsView {
    /// The level the idle dimmer wants.
    pub open spec fn wanted_level(self) -> u8 {
        if self.dark {
            0
        } else {
            255
        }
    }

    /// What every reachable state satisfies: a fade is scheduled exactly while
    /// the level is not where the dimmer wants it, an animation exactly while one
    /// runs, and the idle deadline exactly while lit with blanking on.
    pub open spec fn wf(self) -> bool {
        &&& self.fade_tick is Some <==> self.level != self.wanted_level()
        &&& self.anim_tick is Some <==> self.anim != Anim::Steady
        &&& self.idle_at is Some <==> !self.dark && self.settings.idle_timeout is Some
        &&& self.settings.wf()
    }

    /// When blanking falls due after activity at `at`.
    pub open spec fn idle_deadline(self, at: Instant) -> Option<Instant> {
        match self.settings.idle_timeout {
            Some(timeout) => Some(at.plus(timeout)),
            None => None,
        }
    }

    /// The fade timer armed if the level is not where the dimmer wants it.
    pub open spec fn faded(self, now: Instant) -> LightsView {
        LightsView {
            fade_tick: if self.level == self.wanted_level() {
                None
            } else {
                Some(now.plus(fade_span()))
            },
            ..self
        }
    }

    /// The level one fade frame later.
    pub open spec fn next_level(self) -> u8 {
        if self.dark {
            if self.level < FADE_OUT_STEP {
                0
            } else {
                (self.level - FADE_OUT_STEP) as u8
            }
        } else if self.level > 255 - FADE_IN_STEP {
            255
        } else {
            (self.level + FADE_IN_STEP) as u8
        }
    }

    /// After the idle deadline: dark wanted, nothing more to wait for.
    pub open spec fn idled(self, now: Instant) -> LightsView {
        if time::due(self.idle_at, now) {
            LightsView { dark: true, idle_at: None, ..self }.faded(now)
        } else {
            self
        }
    }

    /// After the fade deadline: one frame further.
    pub open spec fn fade_stepped(self, now: Instant) -> LightsView {
        if time::due(self.fade_tick, now) {
            LightsView { level: self.next_level(), ..self }.faded(now)
        } else {
            self
        }
    }

    /// After the animation deadline: the other phase, or the end.
    pub open spec fn anim_stepped(self, now: Instant) -> LightsView {
        if time::due(self.anim_tick, now) {
            let at = self.anim_tick->0;
            match self.anim {
                Anim::Steady => LightsView { anim_tick: None, ..self },
                Anim::Pairing { lit } => LightsView {
                    anim: Anim::Pairing { lit: !lit },
                    anim_tick: Some(at.plus(blink_span())),
                    ..self
                },
                Anim::Flash { left, lit } => if left == 0 {
                    LightsView { anim: Anim::Steady, anim_tick: None, ..self }
                } else {
                    LightsView {
                        anim: Anim::Flash { left: (left - 1) as u8, lit: !lit },
                        anim_tick: Some(at.plus(flash_span())),
                        ..self
                    }
                },
            }
        } else {
            self
        }
    }

    /// After a timer fired: whatever is due of the idle deadline, the fade and
    /// the animation.
    pub open spec fn ticked(self, now: Instant) -> LightsView {
        self.idled(now).fade_stepped(now).anim_stepped(now)
    }

    /// After a Bluetooth event.
    pub open spec fn after_event(self, event: RgbEvent, now: Instant) -> LightsView {
        match event {
            RgbEvent::PairingOpen => LightsView {
                anim: Anim::Pairing { lit: true },
                anim_tick: Some(now.plus(blink_span())),
                ..self
            },
            RgbEvent::PairingClosed => if self.anim is Pairing {
                LightsView { anim: Anim::Steady, anim_tick: None, ..self }
            } else {
                self
            },
            RgbEvent::Bound => LightsView {
                anim: Anim::Flash { left: 3, lit: true },
                anim_tick: Some(now.plus(flash_span())),
                ..self
            },
            RgbEvent::Repaint => self,
        }
    }

    /// After input at `at`, noticed at `now`.
    pub open spec fn after_activity(self, at: Instant, now: Instant) -> LightsView {
        LightsView { dark: false, idle_at: self.idle_deadline(at), ..self }.faded(now)
    }

    /// A blinking color at the slot's brightness.
    pub open spec fn blinking(self, lit: bool, color: Rgb) -> Frame {
        Frame {
            color: if lit {
                color
            } else {
                Rgb::black()
            },
            brightness: self.settings.brightness_of(self.slot),
        }
    }

    /// What the animation renders, before the idle dimmer.
    pub open spec fn rendered(self) -> Frame {
        match self.anim {
            Anim::Steady => Frame {
                color: self.settings.color_of(self.slot),
                brightness: self.settings.brightness_of(self.slot),
            },
            Anim::Pairing { lit } => self.blinking(lit, self.settings.pairing_color),
            Anim::Flash { lit, .. } => self.blinking(lit, self.settings.bound_color),
        }
    }

    /// What the LEDs show: the rendered color through the idle dimmer.
    pub open spec fn shown(self) -> Frame {
        Frame {
            color: dimmed(self.rendered().color, self.level),
            brightness: self.rendered().brightness,
        }
    }
}

impl Lights {
    pub fn new(settings: RgbSettings, slot: u8, now: Instant) -> (r: Self)
        requires
            settings@.wf(),
            now.in_range(),
        ensures
            r@ == (LightsView {
                settings: settings@,
                slot,
                anim: Anim::Steady,
                anim_tick: None,
                level: 255,
                dark: false,
                idle_at: match settings@.idle_timeout {
                    Some(timeout) => Some(now.plus(timeout)),
                    None => None,
                },
                fade_tick: None,
            }),
            r@.wf(),
    {
        // Lit at startup, dark once the timeout elapses with nobody there:
        // a hub that just came back up says so.
        let idle_at = match settings.idle_timeout {
            Some(timeout) => Some(now.after(timeout)),
            None => None,
        };
        Lights {
            settings,
            slot,
            anim: Anim::Steady,
            anim_tick: None,
            level: 255,
            dark: false,
            idle_at,
            fade_tick: None,
        }
    }

    /// The earliest of the three independent deadlines, so that one timer is
    /// enough.
    pub fn next_tick(&self) -> (r: Option<Instant>)
        ensures
            r == time::earlier(time::earlier(self.anim_tick, self.fade_tick), self.idle_at),
    {
        time::earlier_of(time::earlier_of(self.anim_tick, self.fade_tick), self.idle_at)
    }

    pub fn frame(&self) -> (r: Frame)
        ensures
            r == self@.shown(),
    {
        let frame = match self.anim {
            Anim::Steady => Frame {
                color: self.settings.slot_color(self.slot),
                brightness: self.settings.slot_brightness(self.slot),
            },
            // Blinks keep the slot's brightness so only the color packet
            // changes between frames.
            Anim::Pairing { lit } => self.blink(lit, self.settings.pairing_color),
            Anim::Flash { lit, .. } => self.blink(lit, self.settings.bound_color),
        };
        // The idle dimmer rides on the color for the same reason: most mice have
        // no brightness control at all, so dimming that way would fade the
        // keyboard and snap the mouse.
        Frame { color: dim(frame.color, self.level), brightness: frame.brightness }
    }

    pub fn blink(&self, lit: bool, color: Rgb) -> (r: Frame)
        ensures
            r == self@.blinking(lit, color),
    {
        Frame {
            color: if lit {
                color
            } else {
                Rgb::off()
            },
            brightness: self.settings.slot_brightness(self.slot),
        }
    }

    pub fn set_slot(&mut self, slot: u8)
        ensures
            final(self)@ == (LightsView { slot, ..old(self)@ }),
    {
        self.slot = slot;
    }

    pub fn on_event(&mut self, event: RgbEvent, now: Instant)
        requires
            now.in_range(),
        ensures
            final(self)@ == old(self)@.after_event(event, now),
    {
        match event {
            RgbEvent::PairingOpen => {
                self.anim = Anim::Pairing { lit: true };
                self.anim_tick = Some(now.after(Duration::from_millis(BLINK_MS)));
            },
            RgbEvent::PairingClosed => {
                if matches!(self.anim, Anim::Pairing { .. }) {
                    self.anim = Anim::Steady;
                    self.anim_tick = None;
                }
            },
            RgbEvent::Bound => {
                self.anim = Anim::Flash { left: 3, lit: true };
                self.anim_tick = Some(now.after(Duration::from_millis(FLASH_MS)));
            },
            // It repaints the hardware and changes nothing about what we are
            // trying to show.
            RgbEvent::Repaint => {},
        }
    }

    /// The user touched the keyboard or the mouse: restart the idle countdown
    /// and bring the LEDs back up.
    pub fn on_activity(&mut self, at: Instant, now: Instant)
        requires
            old(self)@.settings.wf(),
            at.in_range(),
            now.in_range(),
        ensures
            final(self)@ == old(self)@.after_activity(at, now),
    {
        self.dark = false;
        self.idle_at = match self.settings.idle_timeout {
            Some(timeout) => Some(at.after(timeout)),
            None => None,
        };
        self.sync_fade(now);
    }

    pub fn tick(&mut self, now: Instant)
        requires
            now.in_range(),
        ensures
            final(self)@ == old(self)@.ticked(now),
    {
        if time::is_due(self.idle_at, now) {
            self.dark = true;
            self.idle_at = None;
            self.sync_fade(now);
        }
        if time::is_due(self.fade_tick, now) {
            self.step_fade(now);
        }
        if let Some(at) = self.anim_tick {
            if at.is_reached(now) {
                self.step_anim(at);
            }
        }
    }

    /// Arm the fade timer if the level is not already where the dimmer wants it.
    fn sync_fade(&mut self, now: Instant)
        requires
            now.in_range(),
        ensures
            final(self)@ == old(self)@.faded(now),
    {
        let wanted: u8 = if self.dark {
            0
        } else {
            255
        };
        self.fade_tick = if self.level == wanted {
            None
        } else {
            Some(now.after(Duration::from_millis(FADE_TICK_MS)))
        };
    }

    /// One fade frame. Stepping from the *current* level is what makes an
    /// interrupted fade reverse smoothly: catch it half dark and it takes half
    /// the time to come back, with no jump.
    fn step_fade(&mut self, now: Instant)
        requires
            now.in_range(),
        ensures
            final(self)@ == (LightsView { level: old(self)@.next_level(), ..old(self)@ }).faded(now),
    {
        self.level = if self.dark {
            self.level.saturating_sub(FADE_OUT_STEP)
        } else {
            self.level.saturating_add(FADE_IN_STEP)
        };
        self.sync_fade(now);
    }

    /// The animation's next phase, due at `at`.
    fn step_anim(&mut self, at: Instant)
        requires
            old(self).anim_tick == Some(at),
            at.in_range(),
        ensures
            final(self)@ == old(self)@.anim_stepped(at),
    {
        match self.anim {
            Anim::Steady => {
                self.anim_tick = None;
            },
            Anim::Pairing { lit } => {
                self.anim = Anim::Pairing { lit: !lit };
                self.anim_tick = Some(at.after(Duration::from_millis(BLINK_MS)));
            },
            Anim::Flash { left, lit } => {
                if left == 0 {
                    self.anim = Anim::Steady;
                    self.anim_tick = None;
                } else {
                    self.anim = Anim::Flash { left: left - 1, lit: !lit };
                    self.anim_tick = Some(at.after(Duration::from_millis(FLASH_MS)));
                }
            },
        }
    }
}

// ---------------------------------------------------------------------------
// Laws of the lights
// ---------------------------------------------------------------------------

/// Every operation keeps the state well-formed.
pub proof fn law_lights_stay_wf(s: LightsView, event: RgbEvent, at: Instant, now: Instant)
    requires
        s.wf(),
    ensures
        s.ticked(now).wf(),
        s.after_event(event, now).wf(),
        s.after_activity(at, now).wf(),
{
}

/// Input lights the desk again without a jump: the level stays where it is and
/// rises from there.
pub proof fn law_activity_reverses_the_fade(s: LightsView, at: Instant, now: Instant)
    ensures
        s.after_activity(at, now).level == s.level,
        !s.after_activity(at, now).dark,
        s.after_activity(at, now).next_level() >= s.level,
        s.after_activity(at, now).anim == s.anim,
        s.after_activity(at, now).anim_tick == s.anim_tick,
{
}

/// Fade frames by level: dark, `n` of them take `n` steps off, never below 0.
pub open spec fn level_after(level: u8, dark: bool, n: nat) -> u8
    decreases n,
{
    if n == 0 {
        level
    } else {
        let before = level_after(level, dark, (n - 1) as nat);
        if dark {
            if before < FADE_OUT_STEP {
                0
            } else {
                (before - FADE_OUT_STEP) as u8
            }
        } else if before > 255 - FADE_IN_STEP {
            255
        } else {
            (before + FADE_IN_STEP) as u8
        }
    }
}

/// A fade always reaches its endpoint: out within 24 frames, in within 7.
pub proof fn law_fades_reach_their_end(level: u8)
    ensures
        level_after(level, true, 24) == 0,
        level_after(level, false, 7) == 255,
{
    lemma_level_after(level, 24);
    lemma_level_after(level, 7);
}

proof fn lemma_level_after(level: u8, n: nat)
    ensures
        level_after(level, true, n) == if level < n * FADE_OUT_STEP {
            0
        } else {
            level - n * FADE_OUT_STEP
        },
        level_after(level, false, n) == if level + n * FADE_IN_STEP > 255 {
            255
        } else {
            level + n * FADE_IN_STEP
        },
    decreases n,
{
    if n > 0 {
        lemma_level_after(level, (n - 1) as nat);
        assert(n * FADE_OUT_STEP == (n - 1) * FADE_OUT_STEP + FADE_OUT_STEP) by (nonlinear_arith);
        assert(n * FADE_IN_STEP == (n - 1) * FADE_IN_STEP + FADE_IN_STEP) by (nonlinear_arith);
    }
}

/// A dark, idle hub sleeps: with nothing animating there is no deadline left.
pub proof fn law_dark_hub_sleeps(s: LightsView)
    requires
        s.wf(),
        s.dark,
        s.level == 0,
        s.anim == Anim::Steady,
    ensures
        time::earlier(time::earlier(s.anim_tick, s.fade_tick), s.idle_at) is None,
        s.shown().color == Rgb::black(),
{
    law_dim_bounds(s.rendered().color, 0);
}

/// The idle dimmer rides on the color alone: the brightness never changes with
/// it, and fully lit it hides nothing.
pub proof fn law_dimmer_rides_on_the_color(s: LightsView)
    ensures
        s.shown().brightness == s.settings.brightness_of(s.slot),
        s.level == 255 ==> s.shown() == s.rendered(),
        s.level == 0 ==> s.shown().color == Rgb::black(),
{
    law_dim_bounds(s.rendered().color, s.level);
}

/// Idling and fading never touch the animation behind the dimmer.
pub proof fn law_dimmer_keeps_the_animation(s: LightsView, now: Instant)
    requires
        !time::due(s.anim_tick, now),
    ensures
        s.ticked(now).anim == s.anim,
        s.ticked(now).anim_tick == s.anim_tick,
{
}

/// A bind flashes lit, dark, lit, dark, and is then steady with nothing left
/// scheduled.
pub proof fn law_bind_flashes_twice(s: LightsView, now: Instant)
    requires
        now.in_range(),
    ensures
        ({
            let s0 = s.after_event(RgbEvent::Bound, now);
            let s1 = s0.anim_stepped(s0.anim_tick->0);
            let s2 = s1.anim_stepped(s1.anim_tick->0);
            let s3 = s2.anim_stepped(s2.anim_tick->0);
            let s4 = s3.anim_stepped(s3.anim_tick->0);
            &&& s0.anim == Anim::Flash { left: 3, lit: true }
            &&& s1.anim == Anim::Flash { left: 2, lit: false }
            &&& s2.anim == Anim::Flash { left: 1, lit: true }
            &&& s3.anim == Anim::Flash { left: 0, lit: false }
            &&& s4.anim == Anim::Steady
            &&& s4.anim_tick is None
        }),
{
}

/// Opening and closing a pairing window leaves what was steady as it was.
pub proof fn law_pairing_ends_where_it_began(s: LightsView, t1: Instant, t2: Instant)
    requires
        s.wf(),
        s.anim == Anim::Steady,
    ensures
        s.after_event(RgbEvent::PairingOpen, t1).after_event(RgbEvent::PairingClosed, t2) == s,
{
}

/// Repainting changes nothing about what is to be shown.
pub proof fn law_repaint_shows_the_same(s: LightsView, now: Instant)
    ensures
        s.after_event(RgbEvent::Repaint, now) == s,
{
}

/// Without an idle timeout the desk never goes dark.
pub proof fn law_no_timeout_never_dark(s: LightsView, now: Instant)
    requires
        s.wf(),
        s.settings.idle_timeout is None,
        !s.dark,
    ensures
        !s.ticked(now).dark,
        s.idle_at is None,
{
}

// ---------------------------------------------------------------------------
// Choosing a mode
// ---------------------------------------------------------------------------

/// A config brightness (0-100) in the mode's own range.
pub open spec fn mapped_brightness(percent: u8, mode: ModeView) -> int {
    if mode.brightness_max <= mode.brightness_min {
        mode.brightness_min as int
    } else {
        mode.brightness_min + (mode.brightness_max - mode.brightness_min) * config::percent(percent)
            / 100
    }
}

/// Map a config brightness (0-100) into the mode's own range.
pub fn map_brightness(percent: u8, mode: &Mode) -> (r: u32)
    ensures
        r == mapped_brightness(percent, mode@),
{
    let min = mode.brightness_min;
    let max = mode.brightness_max;
    if max <= min {
        return min;
    }
    let span: u64 = (max - min) as u64;
    let part: u64 = if percent > 100 {
        100
    } else {
        percent as u64
    };
    assert(0 <= span * part <= span * 100) by (nonlinear_arith)
        requires
            0 <= part <= 100,
            0 <= span,
    ;
    min + (span * part / 100) as u32
}

/// Mapped brightness stays within the mode's range and reaches both ends.
pub proof fn law_brightness_in_range(percent: u8, mode: ModeView)
    requires
        mode.brightness_min <= mode.brightness_max,
    ensures
        mode.brightness_min <= mapped_brightness(percent, mode) <= mode.brightness_max,
        mapped_brightness(0, mode) == mode.brightness_min,
        percent >= 100 ==> mapped_brightness(percent, mode) == mode.brightness_max,
{
    let span = mode.brightness_max - mode.brightness_min;
    let part = config::percent(percent) as int;
    assert(0 <= span * part <= span * 100) by (nonlinear_arith)
        requires
            0 <= part <= 100,
            0 <= span,
    ;
    assert(span * 0 == 0) by (nonlinear_arith);
}

/// A mode called `Direct`, in any letter case.
pub open spec fn is_direct(m: ModeView) -> bool {
    text::same_ignoring_case(m.name, "direct"@)
}

/// The first `Direct` mode.
pub open spec fn first_direct(modes: Seq<ModeView>) -> Option<int>
    decreases modes.len(),
{
    if modes.len() == 0 {
        None
    } else {
        match first_direct(modes.drop_last()) {
            Some(i) => Some(i),
            None => if is_direct(modes.last()) {
                Some(modes.len() - 1)
            } else {
                None
            },
        }
    }
}

/// The first mode with per-LED color.
pub open spec fn first_per_led(modes: Seq<ModeView>) -> Option<int>
    decreases modes.len(),
{
    if modes.len() == 0 {
        None
    } else {
        match first_per_led(modes.drop_last()) {
            Some(i) => Some(i),
            None => if modes.last().per_led() {
                Some(modes.len() - 1)
            } else {
                None
            },
        }
    }
}

/// The mode a device is driven in: `Direct`, else per-LED, else the active
/// one, else the first.
pub open spec fn chosen_mode(d: DeviceView) -> Option<int> {
    if first_direct(d.modes) is Some {
        first_direct(d.modes)
    } else if first_per_led(d.modes) is Some {
        first_per_led(d.modes)
    } else if 0 <= d.active_mode < d.modes.len() {
        Some(d.active_mode as int)
    } else if d.modes.len() > 0 {
        Some(0)
    } else {
        None
    }
}

proof fn lemma_direct_stays(modes: Seq<ModeView>, i: int)
    requires
        0 <= i <= modes.len(),
        first_direct(modes.take(i)) is Some,
    ensures
        first_direct(modes) == first_direct(modes.take(i)),
    decreases modes.len() - i,
{
    if i < modes.len() {
        assert(modes.take(i + 1).drop_last() =~= modes.take(i));
        lemma_direct_stays(modes, i + 1);
    } else {
        assert(modes.take(i) =~= modes);
    }
}

proof fn lemma_per_led_stays(modes: Seq<ModeView>, i: int)
    requires
        0 <= i <= modes.len(),
        first_per_led(modes.take(i)) is Some,
    ensures
        first_per_led(modes) == first_per_led(modes.take(i)),
    decreases modes.len() - i,
{
    if i < modes.len() {
        assert(modes.take(i + 1).drop_last() =~= modes.take(i));
        lemma_per_led_stays(modes, i + 1);
    } else {
        assert(modes.take(i) =~= modes);
    }
}

/// Where the first `Direct` mode stands.
fn find_direct(modes: &Vec<Mode>) -> (r: Option<usize>)
    ensures
        r matches Some(i) ==> i < modes@.len() && first_direct(proto::mode_views(modes@)) == Some(
            i as int,
        ),
        r is None ==> first_direct(proto::mode_views(modes@)) is None,
{
    let ghost views = proto::mode_views(modes@);
    let mut i: usize = 0;
    while i < modes.len()
        invariant
            i <= modes@.len(),
            views == proto::mode_views(modes@),
            first_direct(views.take(i as int)) is None,
        decreases modes@.len() - i,
    {
        assert(views.take(i + 1).drop_last() =~= views.take(i as int));
        assert(views[i as int] == modes@[i as int]@);
        if text::eq_ignore_case(modes[i].name.as_str(), "direct") {
            proof {
                lemma_direct_stays(views, i + 1);
            }
            return Some(i);
        }
        i = i + 1;
    }
    assert(views.take(i as int) =~= views);
    None
}

/// Where the first mode with per-LED color stands.
fn find_per_led(modes: &Vec<Mode>) -> (r: Option<usize>)
    ensures
        r matches Some(i) ==> i < modes@.len() && first_per_led(proto::mode_views(modes@)) == Some(
            i as int,
        ),
        r is None ==> first_per_led(proto::mode_views(modes@)) is None,
{
    let ghost views = proto::mode_views(modes@);
    let mut i: usize = 0;
    while i < modes.len()
        invariant
            i <= modes@.len(),
            views == proto::mode_views(modes@),
            first_per_led(views.take(i as int)) is None,
        decreases modes@.len() - i,
    {
        assert(views.take(i + 1).drop_last() =~= views.take(i as int));
        assert(views[i as int] == modes@[i as int]@);
        if modes[i].has_per_led_color() {
            proof {
                lemma_per_led_stays(views, i + 1);
            }
            return Some(i);
        }
        i = i + 1;
    }
    assert(views.take(i as int) =~= views);
    None
}

/// Prefer an explicit `Direct` mode, then any per-LED mode, then whatever is
/// active — the same order OpenRGB's own clients use to find a mode they can
/// drive frame by frame.
pub fn choose_mode(device: &Device) -> (r: Option<&Mode>)
    ensures
        r matches Some(m) ==> (chosen_mode(device@) matches Some(i) && 0 <= i < device.modes@.len()
            && *m == device.modes@[i]),
        r is None ==> chosen_mode(device@) is None,
{
    if let Some(i) = find_direct(&device.modes) {
        return Some(&device.modes[i]);
    }
    if let Some(i) = find_per_led(&device.modes) {
        return Some(&device.modes[i]);
    }
    let n: usize = device.modes.len();
    if device.active_mode >= 0 && (device.active_mode as u64) < n as u64 {
        return Some(&device.modes[device.active_mode as usize]);
    }
    if n > 0 {
        return Some(&device.modes[0]);
    }
    None
}

/// A device is driven in some mode exactly when it has one.
pub proof fn law_some_mode_is_chosen(d: DeviceView)
    ensures
        chosen_mode(d) is Some <==> d.modes.len() > 0,
        chosen_mode(d) matches Some(i) ==> 0 <= i < d.modes.len(),
{
    lemma_first_direct(d.modes);
    lemma_first_per_led(d.modes);
}

/// If any mode is called `Direct`, the first such one is chosen; else if any
/// has per-LED color, the first such one is.
pub proof fn law_mode_preference(d: DeviceView, i: int)
    requires
        0 <= i < d.modes.len(),
    ensures
        is_direct(d.modes[i]) ==> (chosen_mode(d) matches Some(j) && 0 <= j <= i && is_direct(
            d.modes[j],
        )),
        first_direct(d.modes) is None && d.modes[i].per_led() ==> (chosen_mode(d) matches Some(j)
            && 0 <= j <= i && d.modes[j].per_led()),
{
    lemma_first_direct(d.modes);
    lemma_first_per_led(d.modes);
}

proof fn lemma_first_direct(modes: Seq<ModeView>)
    ensures
        match first_direct(modes) {
            Some(i) => 0 <= i < modes.len() && is_direct(modes[i]) && forall|j: int|
                0 <= j < i ==> !is_direct(#[trigger] modes[j]),
            None => forall|j: int| 0 <= j < modes.len() ==> !is_direct(#[trigger] modes[j]),
        },
    decreases modes.len(),
{
    if modes.len() > 0 {
        lemma_first_direct(modes.drop_last());
        assert forall|j: int| 0 <= j < modes.len() - 1 implies modes[j] == modes.drop_last()[j] by {}
    }
}

proof fn lemma_first_per_led(modes: Seq<ModeView>)
    ensures
        match first_per_led(modes) {
            Some(i) => 0 <= i < modes.len() && modes[i].per_led() && forall|j: int|
                0 <= j < i ==> !(#[trigger] modes[j]).per_led(),
            None => forall|j: int| 0 <= j < modes.len() ==> !(#[trigger] modes[j]).per_led(),
        },
    decreases modes.len(),
{
    if modes.len() > 0 {
        lemma_first_per_led(modes.drop_last());
        assert forall|j: int| 0 <= j < modes.len() - 1 implies modes[j] == modes.drop_last()[j] by {}
    }
}

// ---------------------------------------------------------------------------
// Laws of the timing and the colors
// ---------------------------------------------------------------------------

/// An open window blinks every half second, a bind flashes every 180 ms; both
/// begin lit, and each phase follows the last by exactly that.
pub proof fn law_blinks_keep_time(s: LightsView, now: Instant)
    requires
        now.in_range(),
    ensures
        s.after_event(RgbEvent::PairingOpen, now).anim == (Anim::Pairing { lit: true }),
        s.after_event(RgbEvent::PairingOpen, now).anim_tick == Some(
            Instant { nanos: (now.nanos + 500_000_000) as u128 },
        ),
        s.after_event(RgbEvent::Bound, now).anim == (Anim::Flash { left: 3, lit: true }),
        s.after_event(RgbEvent::Bound, now).anim_tick == Some(
            Instant { nanos: (now.nanos + 180_000_000) as u128 },
        ),
        s.anim is Pairing ==> s.after_event(RgbEvent::PairingClosed, now).anim == Anim::Steady
            && s.after_event(RgbEvent::PairingClosed, now).anim_tick is None,
        !(s.anim is Pairing) ==> s.after_event(RgbEvent::PairingClosed, now) == s,
{
}

/// A phase that is over gives way to the other one, timed from when it was
/// due rather than from when that was noticed.
pub proof fn law_phases_alternate(s: LightsView, now: Instant)
    requires
        s.anim_tick is Some,
        (s.anim_tick->0).in_range(),
        (s.anim_tick->0).nanos <= now.nanos,
    ensures
        s.anim is Pairing ==> s.ticked(now).anim == (Anim::Pairing { lit: !s.anim->Pairing_lit })
            && s.ticked(now).anim_tick == Some(
            Instant { nanos: ((s.anim_tick->0).nanos + 500_000_000) as u128 },
        ),
        s.anim is Flash && s.anim->left > 0 ==> s.ticked(now).anim == (Anim::Flash {
            left: (s.anim->left - 1) as u8,
            lit: !s.anim->Flash_lit,
        }) && s.ticked(now).anim_tick == Some(
            Instant { nanos: ((s.anim_tick->0).nanos + 180_000_000) as u128 },
        ),
        s.anim is Flash && s.anim->left == 0 ==> s.ticked(now).anim == Anim::Steady && s.ticked(
            now,
        ).anim_tick is None,
{
}

/// Activity restarts the idle countdown from when it happened, and wakes the
/// lights: a fade up is due 40 ms on unless they are fully lit already.
pub proof fn law_activity_wakes(s: LightsView, at: Instant, now: Instant)
    requires
        s.settings.wf(),
        at.in_range(),
        now.in_range(),
    ensures
        !s.after_activity(at, now).dark,
        s.settings.idle_timeout is Some ==> s.after_activity(at, now).idle_at == Some(
            Instant { nanos: (at.nanos + (s.settings.idle_timeout->0).nanos) as u128 },
        ),
        s.settings.idle_timeout is None ==> s.after_activity(at, now).idle_at is None,
        s.level < 255 ==> s.after_activity(at, now).fade_tick == Some(
            Instant { nanos: (now.nanos + 40_000_000) as u128 },
        ),
        s.level == 255 ==> s.after_activity(at, now).fade_tick is None,
{
}

/// Once the idle deadline is reached the lights are on their way to dark, with
/// no further deadline; before it nothing darkens them.
pub proof fn law_idling_darkens(s: LightsView, now: Instant)
    requires
        now.in_range(),
        s.fade_tick is None,
    ensures
        s.idle_at is Some && (s.idle_at->0).nanos <= now.nanos ==> s.ticked(now).dark && s.ticked(
            now,
        ).idle_at is None && (s.level > 0 ==> s.ticked(now).fade_tick == Some(
            Instant { nanos: (now.nanos + 40_000_000) as u128 },
        )),
        s.idle_at is Some && (s.idle_at->0).nanos > now.nanos ==> s.ticked(now).dark == s.dark
            && s.ticked(now).idle_at == s.idle_at && s.ticked(now).level == s.level,
{
}

/// Each fade frame moves the level toward where it is wanted, 41 up or 11
/// down, stopping at the end, and the next frame is 40 ms on until it is
/// there.
pub proof fn law_fade_frames(s: LightsView, now: Instant)
    requires
        now.in_range(),
        s.fade_tick is Some,
        (s.fade_tick->0).nanos <= now.nanos,
        s.idle_at is Some ==> (s.idle_at->0).nanos > now.nanos,
    ensures
        s.dark && s.level >= 11 ==> s.ticked(now).level == s.level - 11,
        s.dark && s.level < 11 ==> s.ticked(now).level == 0,
        !s.dark && s.level <= 214 ==> s.ticked(now).level == s.level + 41,
        !s.dark && s.level > 214 ==> s.ticked(now).level == 255,
        s.ticked(now).dark == s.dark,
        s.dark && s.level > 11 ==> s.ticked(now).fade_tick == Some(
            Instant { nanos: (now.nanos + 40_000_000) as u128 },
        ),
        s.dark && s.level <= 11 ==> s.ticked(now).fade_tick is None,
        !s.dark && s.level < 214 ==> s.ticked(now).fade_tick == Some(
            Instant { nanos: (now.nanos + 40_000_000) as u128 },
        ),
        !s.dark && s.level >= 214 ==> s.ticked(now).fade_tick is None,
{
}

/// With the dimmer fully open the LEDs show the slot's color when steady, and
/// while blinking the pairing or the bound color by turns with black; always
/// at the slot's brightness.
pub proof fn law_what_is_shown(s: LightsView)
    requires
        s.level == 255,
    ensures
        s.anim is Steady ==> s.shown().color == s.settings.color_of(s.slot),
        s.anim is Pairing && s.anim->Pairing_lit ==> s.shown().color == s.settings.pairing_color,
        s.anim is Flash && s.anim->Flash_lit ==> s.shown().color == s.settings.bound_color,
        s.anim is Pairing && !s.anim->Pairing_lit ==> s.shown().color == (Rgb { r: 0, g: 0, b: 0 }),
        s.anim is Flash && !s.anim->Flash_lit ==> s.shown().color == (Rgb { r: 0, g: 0, b: 0 }),
        s.shown().brightness == s.settings.brightness_of(s.slot),
{
    law_dim_bounds(s.rendered().color, 255);
}

/// A channel is scaled by the square of the level over 255, rounded down.
pub proof fn law_dim_curve(c: u8, level: u8)
    ensures
        scaled(c, level) * 65025 <= c * (level * level),
        c * (level * level) < (scaled(c, level) + 1) * 65025,
        forall|color: Rgb, l: u8|
            (#[trigger] dimmed(color, l)).r == scaled(color.r, l) && dimmed(color, l).g == scaled(
                color.g,
                l,
            ) && dimmed(color, l).b == scaled(color.b, l),
{
    lemma_scaled(c, level);
}

/// A percentage takes its share of a mode's range above the least, rounded
/// down; more than all of it is all of it.
pub proof fn law_brightness_share(percent: u8, mode: ModeView)
    requires
        mode.brightness_min < mode.brightness_max,
    ensures
        percent <= 100 ==> 100 * (mapped_brightness(percent, mode) - mode.brightness_min) <= (
        mode.brightness_max - mode.brightness_min) * percent < 100 * (mapped_brightness(
            percent,
            mode,
        ) - mode.brightness_min) + 100,
        percent > 100 ==> mapped_brightness(percent, mode) == mode.brightness_max,
        mapped_brightness(100, mode) == mode.brightness_max,
        mapped_brightness(0, mode) == mode.brightness_min,
{
    law_brightness_in_range(percent, mode);
    law_brightness_in_range(100, mode);
}

/// With no `Direct` mode and none that paints per LED, a device is driven in
/// its active mode, or the first where that names none.
pub proof fn law_mode_fallback(d: DeviceView)
    requires
        forall|i: int|
            0 <= i < d.modes.len() ==> !is_direct(#[trigger] d.modes[i]) && d.modes[i].flags & 0x20
                == 0,
    ensures
        0 <= d.active_mode < d.modes.len() ==> chosen_mode(d) == Some(d.active_mode as int),
        !(0 <= d.active_mode < d.modes.len()) && d.modes.len() > 0 ==> chosen_mode(d) == Some(0int),
        d.modes.len() == 0 ==> chosen_mode(d) is None,
{
    lemma_first_direct(d.modes);
    lemma_first_per_led(d.modes);
}

/// The first `Direct` mode is the choice wherever there is one, and without
/// one the first that paints per LED.
pub proof fn law_mode_choice(d: DeviceView, i: int)
    requires
        0 <= i < d.modes.len(),
    ensures
        is_direct(d.modes[i]) && (forall|j: int|
            0 <= j < i ==> !is_direct(#[trigger] d.modes[j])) ==> chosen_mode(d) == Some(i),
        d.modes[i].flags & 0x20 != 0 && (forall|j: int|
            0 <= j < i ==> (#[trigger] d.modes[j]).flags & 0x20 == 0) && (forall|j: int|
            0 <= j < d.modes.len() ==> !is_direct(#[trigger] d.modes[j])) ==> chosen_mode(d) == Some(
            i,
        ),
{
    lemma_first_direct(d.modes);
    lemma_first_per_led(d.modes);
}

/// How long the fades are meant to take, how their frames are spaced, and how
/// often activity is signalled.
pub proof fn law_lighting_constants()
    ensures
        BLINK_MS == 500,
        FLASH_MS == 180,
        FADE_TICK_MS == 40,
        FADE_IN_MS == 250,
        FADE_OUT_MS == 1000,
        ACTIVITY_COALESCE_MS == 1000,
        FADE_IN_STEP == 41,
        FADE_OUT_STEP == 11,
{
}

/// The step of a fade is the least whose frames reach across all 255 levels
/// within its time.
pub proof fn law_fade_step_is_least(total_ms: int)
    requires
        0 < total_ms,
    ensures
        1 <= step_of(total_ms) <= 255,
        total_ms >= 40 ==> step_of(total_ms) * total_ms >= 255 * 40,
        total_ms >= 40 ==> (step_of(total_ms) - 1) * total_ms < 255 * 40,
        total_ms < 40 ==> step_of(total_ms) == 255,
{
    let n = 255 * 40 + total_ms - 1;
    let q = n / total_ms;
    assert(q * total_ms <= n < q * total_ms + total_ms) by (nonlinear_arith)
        requires
            0 < total_ms,
            q == n / total_ms,
    ;
    assert((q - 1) * total_ms == q * total_ms - total_ms) by (nonlinear_arith);
    if total_ms >= 40 {
        assert(q <= 255) by (nonlinear_arith)
            requires
                q * total_ms <= 255 * 40 + total_ms - 1,
                total_ms >= 40,
        ;
        assert(q >= 1) by (nonlinear_arith)
            requires
                n < q * total_ms + total_ms,
                n == 255 * 40 + total_ms - 1,
                total_ms > 0,
        ;
    } else {
        assert(q >= 255) by (nonlinear_arith)
            requires
                n < q * total_ms + total_ms,
                n == 255 * 40 + total_ms - 1,
                0 < total_ms < 40,
        ;
    }
}

} // verus!
