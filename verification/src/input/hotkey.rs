//! Pure hotkey state machine: Ctrl+Alt+F<n> switches to slot n, and adding
//! Shift switches *and* runs the slot's hooks. Configured macro combos
//! (`[[macro]]`, e.g. Ctrl+Alt+KP1) run a command on the hub without
//! switching, on any slot.
//!
//! Splitting the two is the point: moving the keyboard to a machine and
//! triggering the side effect that belongs to it (an HDMI input, a desk lamp)
//! are separate wishes, so the plain combo is deliberately silent.
//!
//! Combo keys are swallowed in both directions: the F-key (or macro trigger)
//! press/repeat/release never reaches any target, and the releases of the
//! modifiers that formed the combo are swallowed too (the router synthesizes
//! releases on the old target for keys it already forwarded).
//!
//! Macros match their modifier set exactly — Ctrl+Alt+KP1 does not fire while
//! Shift is also down — so combos differing only by a modifier can coexist.
//! Switch combos keep their subset rule (Shift is a flag on top of Ctrl+Alt).

use std::collections::HashSet;
use vstd::prelude::*;

use crate::input::codes::KeyCode;
use crate::input::keys;
use crate::input::keys::{KeyCombo, Modifier, Mods};

verus! {

broadcast use vstd::std_specs::hash::group_hash_axioms;

#[derive(Debug, PartialEq, Eq)]
pub enum Verdict {
    /// Forward the event to the active target.
    Pass,
    /// Drop the event entirely.
    Swallow,
    /// Switch to the given slot; the triggering event is swallowed.
    SwitchTo {
        slot: u8,
        /// Shift was held: also run the slot's hooks. One variant rather than
        /// two, so the router cannot forget to handle a flavour.
        fire_hooks: bool,
    },
    /// Run the macro at this index of the configured list; the triggering
    /// event is swallowed. `held_mods` are the modifier keys that formed the
    /// combo: their presses were already forwarded and their releases will be
    /// swallowed, so the router must release them on the target itself —
    /// there is no switch here to do it as a side effect.
    RunMacro { index: usize, held_mods: Vec<u16> },
}

/// The content of a [`Verdict`].
pub enum VerdictView {
    Pass,
    Swallow,
    SwitchTo { slot: u8, fire_hooks: bool },
    RunMacro { index: int, held_mods: Seq<u16> },
}

impl View for Verdict {
    type V = VerdictView;

    open spec fn view(&self) -> VerdictView {
        match self {
            Verdict::Pass => VerdictView::Pass,
            Verdict::Swallow => VerdictView::Swallow,
            Verdict::SwitchTo { slot, fire_hooks } => VerdictView::SwitchTo {
                slot: *slot,
                fire_hooks: *fire_hooks,
            },
            Verdict::RunMacro { index, held_mods } => VerdictView::RunMacro {
                index: *index as int,
                held_mods: held_mods@,
            },
        }
    }
}

pub struct HotkeyFsm {
    /// Configured macro combos; a position is the index into the config's
    /// macro list.
    macros: Vec<KeyCombo>,
    /// Physical key state, tracked regardless of suppression.
    held: HashSet<u16>,
    /// Keys whose remaining events (repeat/release) must be swallowed.
    suppressed: HashSet<u16>,
    /// The combo F-key currently held down, and the slot it selected. The
    /// router times this to turn a long press into a re-pair request.
    combo_held: Option<(u16, u8)>,
}

/// The state of a [`HotkeyFsm`].
#[verifier::ext_equal]
pub struct HotkeyState {
    /// Configured macro combos, in order.
    pub macros: Seq<KeyCombo>,
    /// Keys physically down.
    pub held: Set<u16>,
    /// Held keys whose remaining events are swallowed.
    pub suppressed: Set<u16>,
    /// The combo F-key held down and the slot it selected.
    pub combo: Option<(u16, u8)>,
}

impl View for HotkeyFsm {
    type V = HotkeyState;

    closed spec fn view(&self) -> HotkeyState {
        HotkeyState {
            macros: self.macros@,
            held: self.held@,
            suppressed: self.suppressed@,
            combo: self.combo_held,
        }
    }
}

/// The slot an F-key selects.
pub open spec fn slot_of_fkey(key: u16) -> Option<u8> {
    if KeyCode::KEY_F1 <= key <= KeyCode::KEY_F10 {
        Some((key - KeyCode::KEY_F1 + 1) as u8)
    } else if key == KeyCode::KEY_F11 {
        Some(11)
    } else if key == KeyCode::KEY_F12 {
        Some(12)
    } else {
        None
    }
}

/// Pressing `key` with `held` down (the key itself among them) forms the
/// switch combo: an F-key with Ctrl and Alt, whatever else is held.
pub open spec fn is_switch(held: Set<u16>, key: u16) -> bool {
    &&& slot_of_fkey(key) is Some
    &&& keys::modifier_held(held, Modifier::Ctrl)
    &&& keys::modifier_held(held, Modifier::Alt)
}

/// The combo that a press forms with what is held.
pub open spec fn formed_combo(held: Set<u16>, key: u16) -> KeyCombo {
    KeyCombo { mods: keys::mods_in(held), key }
}

/// The last position at which a combo is configured.
pub open spec fn macro_index(macros: Seq<KeyCombo>, combo: KeyCombo) -> Option<int>
    decreases macros.len(),
{
    if macros.len() == 0 {
        None
    } else if macros.last() == combo {
        Some(macros.len() - 1)
    } else {
        macro_index(macros.drop_last(), combo)
    }
}

/// The modifier keys among `held`, left before right, in the order ctrl, alt,
/// shift, super.
pub open spec fn held_modifiers(held: Set<u16>) -> Seq<u16> {
    all_modifier_keys().filter(|k: u16| held.contains(k))
}

/// All eight modifier keys, left before right, in the order ctrl, alt, shift,
/// super.
pub open spec fn all_modifier_keys() -> Seq<u16> {
    keys::modifier_keys(Modifier::Ctrl) + keys::modifier_keys(Modifier::Alt)
        + keys::modifier_keys(Modifier::Shift) + keys::modifier_keys(Modifier::Super)
}

/// The modifier keys that a switch combo claims: any held Ctrl, Alt or Shift.
pub open spec fn switch_modifier(key: u16) -> bool {
    keys::modifier_of_key(key) matches Some(m) && m != Modifier::Super
}

/// What a press makes of the state, and the verdict on it.
pub open spec fn pressed(before: HotkeyState, key: u16) -> (HotkeyState, VerdictView) {
    let held = before.held.insert(key);
    let combo = formed_combo(held, key);
    if is_switch(held, key) {
        let slot = slot_of_fkey(key)->0;
        (
            HotkeyState {
                held,
                suppressed: before.suppressed.insert(key).union(held.filter(|k: u16| switch_modifier(k))),
                combo: Some((key, slot)),
                ..before
            },
            VerdictView::SwitchTo {
                slot,
                fire_hooks: keys::modifier_held(held, Modifier::Shift),
            },
        )
    } else if let Some(index) = macro_index(before.macros, combo) {
        (
            HotkeyState {
                held,
                suppressed: before.suppressed.insert(key).union(
                    held.filter(|k: u16| keys::modifier_of_key(k) is Some),
                ),
                ..before
            },
            VerdictView::RunMacro { index, held_mods: held_modifiers(held) },
        )
    } else {
        (
            HotkeyState { held, ..before },
            if before.suppressed.contains(key) {
                VerdictView::Swallow
            } else {
                VerdictView::Pass
            },
        )
    }
}

/// What a release makes of the state, and the verdict on it.
pub open spec fn released(before: HotkeyState, key: u16) -> (HotkeyState, VerdictView) {
    (
        HotkeyState {
            held: before.held.remove(key),
            suppressed: before.suppressed.remove(key),
            combo: match before.combo {
                Some((fkey, slot)) if fkey != key => Some((fkey, slot)),
                _ => None,
            },
            ..before
        },
        if before.suppressed.contains(key) {
            VerdictView::Swallow
        } else {
            VerdictView::Pass
        },
    )
}

/// What a key event (`value`: 0 = release, 1 = press, 2 = repeat) makes of the
/// state, and the verdict on it.
pub open spec fn key_step(before: HotkeyState, key: u16, value: i32) -> (HotkeyState, VerdictView) {
    if value == 1 {
        pressed(before, key)
    } else if value == 0 {
        released(before, key)
    } else if value == 2 {
        (
            before,
            if before.suppressed.contains(key) {
                VerdictView::Swallow
            } else {
                VerdictView::Pass
            },
        )
    } else {
        (before, VerdictView::Pass)
    }
}

impl HotkeyState {
    /// What every reachable state satisfies: only held keys are suppressed,
    /// and the combo key is held, suppressed and an F-key of its slot.
    pub open spec fn wf(self) -> bool {
        &&& self.suppressed.subset_of(self.held)
        &&& self.combo matches Some((key, slot)) ==> {
            &&& self.suppressed.contains(key)
            &&& slot_of_fkey(key) == Some(slot)
        }
    }
}

/// The slot an F-key selects.
fn fkey_slot(key: u16) -> (r: Option<u8>)
    ensures
        r == slot_of_fkey(key),
{
    if KeyCode::KEY_F1 <= key && key <= KeyCode::KEY_F10 {
        Some((key - KeyCode::KEY_F1 + 1) as u8)
    } else if key == KeyCode::KEY_F11 {
        Some(11)
    } else if key == KeyCode::KEY_F12 {
        Some(12)
    } else {
        None
    }
}

impl Default for HotkeyFsm {
    fn default() -> (r: Self)
        ensures
            r@ == (HotkeyState {
                macros: Seq::empty(),
                held: Set::empty(),
                suppressed: Set::empty(),
                combo: None,
            }),
            r@.wf(),
    {
        let r = HotkeyFsm {
            macros: Vec::new(),
            held: HashSet::new(),
            suppressed: HashSet::new(),
            combo_held: None,
        };
        assert(r@.macros =~= Seq::empty());
        r
    }
}

impl HotkeyFsm {
    /// `macros` in config order; `RunMacro { index }` refers to that order.
    /// Duplicates were rejected by the config parser, so later ones win here
    /// without ambiguity in practice.
    pub fn with_macros(macros: Vec<KeyCombo>) -> (r: Self)
        ensures
            r@ == (HotkeyState {
                macros: macros@,
                held: Set::empty(),
                suppressed: Set::empty(),
                combo: None,
            }),
            r@.wf(),
    {
        HotkeyFsm { macros, held: HashSet::new(), suppressed: HashSet::new(), combo_held: None }
    }

    /// Feed a key event (`value`: 0 = release, 1 = press, 2 = repeat).
    pub fn on_key(&mut self, key: u16, value: i32) -> (r: Verdict)
        ensures
            (final(self)@, r@) == key_step(old(self)@, key, value),
            old(self)@.wf() ==> final(self)@.wf(),
    {
        proof {
            law_step_keeps_wf(self@, key, value);
        }
        if value == 1 {
            self.on_press(key)
        } else if value == 2 {
            if self.suppressed.contains(&key) {
                Verdict::Swallow
            } else {
                Verdict::Pass
            }
        } else if value == 0 {
            let ghost before = self@;
            self.held.remove(&key);
            if let Some((fkey, _)) = self.combo_held {
                if fkey == key {
                    self.combo_held = None;
                }
            }
            let r = if self.suppressed.remove(&key) {
                Verdict::Swallow
            } else {
                Verdict::Pass
            };
            assert(self@ =~= released(before, key).0);
            r
        } else {
            Verdict::Pass
        }
    }

    fn on_press(&mut self, key: u16) -> (r: Verdict)
        ensures
            (final(self)@, r@) == pressed(old(self)@, key),
    {
        let ghost before = self@;
        self.held.insert(key);
        let ghost held = self.held@;
        if let Some(slot) = fkey_slot(key) {
            if self.any_held(Modifier::Ctrl) && self.any_held(Modifier::Alt) {
                // Read per press, never latched: letting go of Shift and
                // pressing another F-key must be a silent switch again.
                let fire_hooks = self.any_held(Modifier::Shift);
                // Swallow the F-key and the combo modifiers until released.
                self.suppressed.insert(key);
                let mut none: Vec<u16> = Vec::new();
                self.suppress_held(Modifier::Ctrl, &mut none);
                self.suppress_held(Modifier::Alt, &mut none);
                self.suppress_held(Modifier::Shift, &mut none);
                self.combo_held = Some((key, slot));
                proof {
                    lemma_claimed(held, before.suppressed.insert(key), self.suppressed@, false);
                }
                assert(self@ =~= pressed(before, key).0);
                return Verdict::SwitchTo { slot, fire_hooks };
            }
        }
        let combo = KeyCombo { mods: self.mods_held(), key };
        if let Some(index) = self.find_macro(combo) {
            // Same swallowing contract as the switch combo: the trigger and
            // every held modifier stay ours until released.
            self.suppressed.insert(key);
            let mut held_mods: Vec<u16> = Vec::new();
            self.suppress_held(Modifier::Ctrl, &mut held_mods);
            self.suppress_held(Modifier::Alt, &mut held_mods);
            self.suppress_held(Modifier::Shift, &mut held_mods);
            self.suppress_held(Modifier::Super, &mut held_mods);
            proof {
                lemma_claimed(held, before.suppressed.insert(key), self.suppressed@, true);
                lemma_held_modifiers(held);
            }
            assert(self@ =~= pressed(before, key).0);
            assert(held_mods@ =~= held_modifiers(held));
            return Verdict::RunMacro { index, held_mods };
        }
        assert(self@ =~= pressed(before, key).0);
        if self.suppressed.contains(&key) {
            Verdict::Swallow
        } else {
            Verdict::Pass
        }
    }

    /// The slot whose combo F-key is still physically held, if any. Holding it
    /// is what distinguishes "switch" from "re-pair this slot".
    pub fn combo_slot_held(&self) -> (r: Option<u8>)
        ensures
            r == match self@.combo {
                Some((_, slot)) => Some(slot),
                None => None,
            },
    {
        match self.combo_held {
            Some((_, slot)) => Some(slot),
            None => None,
        }
    }

    /// Whether either key of a modifier is down.
    fn any_held(&self, m: Modifier) -> (r: bool)
        ensures
            r == keys::modifier_held(self.held@, m),
    {
        let pair = m.keys();
        proof {
            keys::lemma_modifier_held(self.held@, m);
        }
        self.held.contains(&pair[0]) || self.held.contains(&pair[1])
    }

    /// The modifiers that are down.
    fn mods_held(&self) -> (r: Mods)
        ensures
            r == keys::mods_in(self.held@),
    {
        Mods {
            ctrl: self.any_held(Modifier::Ctrl),
            alt: self.any_held(Modifier::Alt),
            shift: self.any_held(Modifier::Shift),
            sup: self.any_held(Modifier::Super),
        }
    }

    /// The last macro bound to a combo.
    fn find_macro(&self, combo: KeyCombo) -> (r: Option<usize>)
        ensures
            r matches Some(i) ==> macro_index(self.macros@, combo) == Some(i as int),
            r is None ==> macro_index(self.macros@, combo) is None,
    {
        let mut n: usize = self.macros.len();
        assert(self.macros@.take(n as int) =~= self.macros@);
        while n > 0
            invariant
                n <= self.macros@.len(),
                macro_index(self.macros@, combo) == macro_index(self.macros@.take(n as int), combo),
            decreases n,
        {
            assert(self.macros@.take(n as int).drop_last() =~= self.macros@.take(n - 1));
            if self.macros[n - 1] == combo {
                return Some(n - 1);
            }
            n = n - 1;
        }
        None
    }

    /// Claim the held keys of a modifier, listing them.
    fn suppress_held(&mut self, m: Modifier, list: &mut Vec<u16>)
        ensures
            final(self).macros == old(self).macros,
            final(self).held == old(self).held,
            final(self).combo_held == old(self).combo_held,
            final(self).suppressed@ == old(self).suppressed@.union(held_pair(old(self).held@, m)),
            final(list)@ == old(list)@ + held_list(old(self).held@, m),
    {
        let pair = m.keys();
        let ghost held = self.held@;
        let ghost start = self.suppressed@;
        let ghost listed = list@;
        if self.held.contains(&pair[0]) {
            self.suppressed.insert(pair[0]);
            list.push(pair[0]);
        }
        if self.held.contains(&pair[1]) {
            self.suppressed.insert(pair[1]);
            list.push(pair[1]);
        }
        assert(self.suppressed@ =~= start.union(held_pair(held, m)));
        assert(list@ =~= listed + held_list(held, m));
    }
}

/// The held keys of a modifier, as a set.
pub open spec fn held_pair(held: Set<u16>, m: Modifier) -> Set<u16> {
    Set::new(|k: u16| held.contains(k) && (k == keys::modifier_keys(m)[0] || k == keys::modifier_keys(m)[1]))
}

/// The held keys of a modifier, left before right.
pub open spec fn held_list(held: Set<u16>, m: Modifier) -> Seq<u16> {
    let pair = keys::modifier_keys(m);
    (if held.contains(pair[0]) {
        seq![pair[0]]
    } else {
        Seq::empty()
    }) + (if held.contains(pair[1]) {
        seq![pair[1]]
    } else {
        Seq::empty()
    })
}

/// Claiming modifier by modifier claims every held modifier key.
proof fn lemma_claimed(held: Set<u16>, start: Set<u16>, end: Set<u16>, with_super: bool)
    requires
        end == ({
            let upto_shift = start.union(held_pair(held, Modifier::Ctrl)).union(
                held_pair(held, Modifier::Alt),
            ).union(held_pair(held, Modifier::Shift));
            if with_super {
                upto_shift.union(held_pair(held, Modifier::Super))
            } else {
                upto_shift
            }
        }),
    ensures
        with_super ==> end == start.union(held.filter(|k: u16| keys::modifier_of_key(k) is Some)),
        !with_super ==> end == start.union(held.filter(|k: u16| switch_modifier(k))),
{
    assert forall|k: u16|
        end.contains(k) == (start.contains(k) || held.contains(k) && (if with_super {
            keys::modifier_of_key(k) is Some
        } else {
            switch_modifier(k)
        })) by {
        keys::lemma_modifier_keys(Modifier::Ctrl, k);
        keys::lemma_modifier_keys(Modifier::Alt, k);
        keys::lemma_modifier_keys(Modifier::Shift, k);
        keys::lemma_modifier_keys(Modifier::Super, k);
    }
    if with_super {
        assert(end =~= start.union(held.filter(|k: u16| keys::modifier_of_key(k) is Some)));
    } else {
        assert(end =~= start.union(held.filter(|k: u16| switch_modifier(k))));
    }
}

/// Listing modifier by modifier lists the held modifier keys in order.
proof fn lemma_held_modifiers(held: Set<u16>)
    ensures
        held_modifiers(held) == held_list(held, Modifier::Ctrl) + held_list(held, Modifier::Alt)
            + held_list(held, Modifier::Shift) + held_list(held, Modifier::Super),
{
    let p = |k: u16| held.contains(k);
    let a = keys::modifier_keys(Modifier::Ctrl);
    let b = keys::modifier_keys(Modifier::Alt);
    let c = keys::modifier_keys(Modifier::Shift);
    let d = keys::modifier_keys(Modifier::Super);
    Seq::filter_distributes_over_add(a + b + c, d, p);
    Seq::filter_distributes_over_add(a + b, c, p);
    Seq::filter_distributes_over_add(a, b, p);
    lemma_filter_pair(held, Modifier::Ctrl);
    lemma_filter_pair(held, Modifier::Alt);
    lemma_filter_pair(held, Modifier::Shift);
    lemma_filter_pair(held, Modifier::Super);
}

proof fn lemma_filter_pair(held: Set<u16>, m: Modifier)
    ensures
        keys::modifier_keys(m).filter(|k: u16| held.contains(k)) == held_list(held, m),
{
    let p = |k: u16| held.contains(k);
    let pair = keys::modifier_keys(m);
    reveal(Seq::filter);
    reveal_with_fuel(Seq::filter, 3);
    assert(pair.drop_last() =~= seq![pair[0]]);
    assert(pair.drop_last().drop_last() =~= Seq::empty());
    assert(pair.filter(p) =~= held_list(held, m));
}

// ---------------------------------------------------------------------------
// Laws
// ---------------------------------------------------------------------------

/// Every event keeps the state well-formed.
pub proof fn law_step_keeps_wf(before: HotkeyState, key: u16, value: i32)
    ensures
        before.wf() ==> key_step(before, key, value).0.wf(),
{
}

/// The verdict starts a switch or a macro.
pub open spec fn fires(v: VerdictView) -> bool {
    v is SwitchTo || v is RunMacro
}

/// A fired combo owns its trigger and the held modifiers that formed it: all
/// of them are suppressed, so their repeats and releases are swallowed, and a
/// release ends the suppression.
pub proof fn law_fired_combo_is_swallowed(before: HotkeyState, key: u16, k: u16)
    requires
        fires(pressed(before, key).1),
        k == key || before.held.contains(k) && (if pressed(before, key).1 is SwitchTo {
            switch_modifier(k)
        } else {
            keys::modifier_of_key(k) is Some
        }),
    ensures
        ({
            let after = pressed(before, key).0;
            &&& after.suppressed.contains(k)
            &&& key_step(after, k, 2).1 is Swallow
            &&& key_step(after, k, 0).1 is Swallow
            &&& !key_step(after, k, 0).0.held.contains(k)
            &&& !key_step(after, k, 0).0.suppressed.contains(k)
        }),
{
}

/// Nothing but its own release ends a key's suppression.
pub proof fn law_suppression_lasts(before: HotkeyState, k: u16, key: u16, value: i32)
    requires
        before.suppressed.contains(k),
        !(key == k && value == 0),
    ensures
        key_step(before, key, value).0.suppressed.contains(k),
{
}

/// Events of keys that no combo owns pass, and a press or release of one
/// touches nothing but what is held.
pub proof fn law_plain_keys_pass(before: HotkeyState, key: u16, value: i32)
    requires
        before.wf(),
        !before.suppressed.contains(key),
        !fires(key_step(before, key, value).1),
    ensures
        ({
            let (after, verdict) = key_step(before, key, value);
            &&& verdict is Pass
            &&& after.macros == before.macros
            &&& after.suppressed =~= before.suppressed
            &&& after.combo == before.combo
            &&& forall|k: u16| k != key ==> after.held.contains(k) == before.held.contains(k)
        }),
{
}

/// Leaning on a key never fires anything and changes nothing.
pub proof fn law_repeats_never_fire(before: HotkeyState, key: u16)
    ensures
        key_step(before, key, 2).0 == before,
        !fires(key_step(before, key, 2).1),
{
}

/// A macro fires only with its exact modifier set, and of several equal
/// combos the last one runs.
pub proof fn law_macro_matches_exactly(before: HotkeyState, key: u16)
    requires
        pressed(before, key).1 is RunMacro,
    ensures
        ({
            let index = pressed(before, key).1->index;
            &&& 0 <= index < before.macros.len()
            &&& before.macros[index] == formed_combo(before.held.insert(key), key)
            &&& forall|j: int|
                index < j < before.macros.len() ==> before.macros[j] != before.macros[index]
        }),
{
    lemma_macro_index(before.macros, formed_combo(before.held.insert(key), key));
}

/// A configured combo that is no switch combo always fires its macro.
pub proof fn law_configured_macro_fires(before: HotkeyState, key: u16, i: int)
    requires
        0 <= i < before.macros.len(),
        before.macros[i] == formed_combo(before.held.insert(key), key),
        !is_switch(before.held.insert(key), key),
    ensures
        pressed(before, key).1 is RunMacro,
{
    lemma_macro_index(before.macros, before.macros[i]);
}

proof fn lemma_macro_index(macros: Seq<KeyCombo>, combo: KeyCombo)
    ensures
        match macro_index(macros, combo) {
            Some(i) => 0 <= i < macros.len() && macros[i] == combo && forall|j: int|
                i < j < macros.len() ==> macros[j] != combo,
            None => forall|j: int| 0 <= j < macros.len() ==> macros[j] != combo,
        },
    decreases macros.len(),
{
    if macros.len() > 0 && macros.last() != combo {
        lemma_macro_index(macros.drop_last(), combo);
        assert forall|j: int| 0 <= j < macros.len() - 1 implies macros[j] == macros.drop_last()[j] by {}
    }
}

/// A switch combo fires whatever the macros are, with the hooks exactly when
/// Shift is held, and is then the hold that can turn into a re-pair.
pub proof fn law_switch_wins(before: HotkeyState, key: u16)
    requires
        is_switch(before.held.insert(key), key),
    ensures
        pressed(before, key).1 == (VerdictView::SwitchTo {
            slot: slot_of_fkey(key)->0,
            fire_hooks: keys::modifier_held(before.held.insert(key), Modifier::Shift),
        }),
        pressed(before, key).0.combo == Some((key, slot_of_fkey(key)->0)),
{
}

/// The hold lasts until its own F-key is released or another slot's combo is
/// pressed.
pub proof fn law_hold_lasts(before: HotkeyState, key: u16, value: i32)
    requires
        before.combo matches Some((fkey, _)) && !(value == 0 && key == fkey),
        !(key_step(before, key, value).1 is SwitchTo),
    ensures
        key_step(before, key, value).0.combo == before.combo,
{
}

/// A reserved combo always switches: no macro could fire on it.
pub proof fn law_reserved_never_runs_a_macro(before: HotkeyState, key: u16)
    requires
        formed_combo(before.held.insert(key), key).reserved(),
    ensures
        pressed(before, key).1 is SwitchTo,
{
}

/// The F-keys and the slots they select: F1 to F10 lie together, F11 and F12
/// apart.
pub proof fn law_fkeys_select_slots(key: u16)
    ensures
        59 <= key <= 68 ==> slot_of_fkey(key) == Some((key - 58) as u8),
        key == 87 ==> slot_of_fkey(key) == Some(11u8),
        key == 88 ==> slot_of_fkey(key) == Some(12u8),
        !(59 <= key <= 68) && key != 87 && key != 88 ==> slot_of_fkey(key) is None,
{
}

/// Either key of each modifier, by its code.
pub proof fn law_modifier_codes(held: Set<u16>)
    ensures
        keys::modifier_held(held, Modifier::Ctrl) <==> held.contains(29) || held.contains(97),
        keys::modifier_held(held, Modifier::Alt) <==> held.contains(56) || held.contains(100),
        keys::modifier_held(held, Modifier::Shift) <==> held.contains(42) || held.contains(54),
        keys::modifier_held(held, Modifier::Super) <==> held.contains(125) || held.contains(126),
{
    keys::lemma_modifier_held(held, Modifier::Ctrl);
    keys::lemma_modifier_held(held, Modifier::Alt);
    keys::lemma_modifier_held(held, Modifier::Shift);
    keys::lemma_modifier_held(held, Modifier::Super);
}

/// Pressing F1 to F12 with a Ctrl and an Alt down switches to that slot, and
/// runs its hooks exactly when a Shift is down too; nothing else switches.
pub proof fn law_ctrl_alt_fkey_switches(before: HotkeyState, key: u16)
    ensures
        ({
            let ctrl = before.held.contains(29) || before.held.contains(97);
            let alt = before.held.contains(56) || before.held.contains(100);
            let shift = before.held.contains(42) || before.held.contains(54);
            let (after, verdict) = key_step(before, key, 1);
            &&& ctrl && alt && 59 <= key <= 68 ==> verdict == (VerdictView::SwitchTo {
                slot: (key - 58) as u8,
                fire_hooks: shift,
            }) && after.combo == Some((key, (key - 58) as u8))
            &&& ctrl && alt && key == 87 ==> verdict == (VerdictView::SwitchTo {
                slot: 11,
                fire_hooks: shift,
            }) && after.combo == Some((key, 11u8))
            &&& ctrl && alt && key == 88 ==> verdict == (VerdictView::SwitchTo {
                slot: 12,
                fire_hooks: shift,
            }) && after.combo == Some((key, 12u8))
            &&& verdict is SwitchTo ==> ctrl && alt && (59 <= key <= 68 || key == 87 || key == 88)
            &&& !(verdict is SwitchTo) ==> after.combo == before.combo
        }),
{
    law_modifier_codes(before.held.insert(key));
}

/// What a fired combo claims: its trigger and the held keys of Ctrl, Alt and
/// Shift, and of Super too where a macro fired. Nothing else, and nothing is
/// let go.
#[verifier::rlimit(30)]
pub proof fn law_what_a_combo_claims(before: HotkeyState, key: u16, k: u16)
    ensures
        ({
            let held = before.held.insert(key);
            let (after, verdict) = key_step(before, key, 1);
            let plain = k == 29 || k == 97 || k == 56 || k == 100 || k == 42 || k == 54;
            let sup = k == 125 || k == 126;
            &&& after.held == held
            &&& verdict is SwitchTo ==> (after.suppressed.contains(k) <==> before.suppressed.contains(
                k,
            ) || k == key || (held.contains(k) && plain))
            &&& verdict is RunMacro ==> (after.suppressed.contains(k) <==> before.suppressed.contains(
                k,
            ) || k == key || (held.contains(k) && (plain || sup)))
            &&& !fires(verdict) ==> after.suppressed == before.suppressed
        }),
{
    keys::lemma_modifier_keys(Modifier::Ctrl, k);
    keys::lemma_modifier_keys(Modifier::Alt, k);
    keys::lemma_modifier_keys(Modifier::Shift, k);
    keys::lemma_modifier_keys(Modifier::Super, k);
}

/// A press that does not switch runs the macro whose trigger it is and whose
/// modifiers are exactly those held, if there is one, and passes or is
/// swallowed otherwise as its key is claimed or not.
pub proof fn law_macros_need_exact_modifiers(before: HotkeyState, key: u16, i: int)
    requires
        0 <= i < before.macros.len(),
    ensures
        ({
            let held = before.held.insert(key);
            let mods = before.macros[i].mods;
            let exact = before.macros[i].key == key && mods.ctrl == (held.contains(29)
                || held.contains(97)) && mods.alt == (held.contains(56) || held.contains(100))
                && mods.shift == (held.contains(42) || held.contains(54)) && mods.sup == (
            held.contains(125) || held.contains(126));
            let verdict = key_step(before, key, 1).1;
            &&& exact && !(verdict is SwitchTo) ==> verdict is RunMacro && verdict->index >= i
            &&& verdict is RunMacro && verdict->index == i ==> exact
            &&& !fires(verdict) && before.suppressed.contains(key) ==> verdict is Swallow
            &&& !fires(verdict) && !before.suppressed.contains(key) ==> verdict is Pass
        }),
{
    let held = before.held.insert(key);
    law_modifier_codes(held);
    let combo = formed_combo(held, key);
    lemma_macro_index(before.macros, combo);
    let mods = before.macros[i].mods;
    if before.macros[i].key == key && mods.ctrl == combo.mods.ctrl && mods.alt == combo.mods.alt
        && mods.shift == combo.mods.shift && mods.sup == combo.mods.sup {
        assert(before.macros[i] == combo);
    }
}

/// A macro lists the held modifier keys for release: every one of them, nothing
/// else.
#[verifier::rlimit(30)]
pub proof fn law_macro_lists_held_modifiers(before: HotkeyState, key: u16, k: u16)
    requires
        key_step(before, key, 1).1 is RunMacro,
    ensures
        key_step(before, key, 1).1->held_mods.contains(k) <==> before.held.insert(key).contains(k)
            && (k == 29 || k == 97 || k == 56 || k == 100 || k == 42 || k == 54 || k == 125 || k
            == 126),
        key_step(before, key, 1).1->held_mods.len() <= 8,
{
    let held = before.held.insert(key);
    lemma_held_modifiers(held);
    let a = held_list(held, Modifier::Ctrl);
    let b = held_list(held, Modifier::Alt);
    let c = held_list(held, Modifier::Shift);
    let d = held_list(held, Modifier::Super);
    let all = a + b + c + d;
    assert(held_modifiers(held) == all);
    lemma_held_list(held, Modifier::Ctrl, k);
    lemma_held_list(held, Modifier::Alt, k);
    lemma_held_list(held, Modifier::Shift, k);
    lemma_held_list(held, Modifier::Super, k);
    if all.contains(k) {
        let i = choose|i: int| 0 <= i < all.len() && all[i] == k;
        if i < a.len() {
            assert(a[i] == k);
        } else if i < a.len() + b.len() {
            assert(b[i - a.len()] == k);
        } else if i < a.len() + b.len() + c.len() {
            assert(c[i - a.len() - b.len()] == k);
        } else {
            assert(d[i - a.len() - b.len() - c.len()] == k);
        }
    }
    if a.contains(k) {
        let i = choose|i: int| 0 <= i < a.len() && a[i] == k;
        assert(all[i] == k);
    }
    if b.contains(k) {
        let i = choose|i: int| 0 <= i < b.len() && b[i] == k;
        assert(all[a.len() + i] == k);
    }
    if c.contains(k) {
        let i = choose|i: int| 0 <= i < c.len() && c[i] == k;
        assert(all[a.len() + b.len() + i] == k);
    }
    if d.contains(k) {
        let i = choose|i: int| 0 <= i < d.len() && d[i] == k;
        assert(all[a.len() + b.len() + c.len() + i] == k);
    }
}

proof fn lemma_held_list(held: Set<u16>, m: Modifier, k: u16)
    ensures
        held_list(held, m).contains(k) <==> held.contains(k) && (k == keys::modifier_keys(m)[0] || k
            == keys::modifier_keys(m)[1]),
        held_list(held, m).len() <= 2,
{
    let list = held_list(held, m);
    let pair = keys::modifier_keys(m);
    if held.contains(pair[0]) {
        assert(list[0] == pair[0]);
    }
    if held.contains(pair[1]) {
        assert(list[list.len() - 1] == pair[1]);
    }
}

/// A release forgets its key, ends its claim and, for the combo's F-key, the
/// hold; it is swallowed exactly when the key was claimed. A repeat changes
/// nothing and is swallowed by the same rule; any other value passes.
pub proof fn law_releases_and_repeats(before: HotkeyState, key: u16, value: i32)
    ensures
        key_step(before, key, 0).0.held == before.held.remove(key),
        key_step(before, key, 0).0.suppressed == before.suppressed.remove(key),
        key_step(before, key, 0).0.macros == before.macros,
        before.combo is Some && (before.combo->0).0 == key ==> key_step(
            before,
            key,
            0,
        ).0.combo is None,
        before.combo is Some && (before.combo->0).0 != key ==> key_step(before, key, 0).0.combo
            == before.combo,
        key_step(before, key, 0).1 is Swallow <==> before.suppressed.contains(key),
        key_step(before, key, 0).1 is Pass <==> !before.suppressed.contains(key),
        key_step(before, key, 2).0 == before,
        key_step(before, key, 2).1 is Swallow <==> before.suppressed.contains(key),
        key_step(before, key, 2).1 is Pass <==> !before.suppressed.contains(key),
        value != 0 && value != 1 && value != 2 ==> key_step(before, key, value) == (
            before,
            VerdictView::Pass,
        ),
{
}

} // verus!
