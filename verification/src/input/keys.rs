//! Key combo naming: the `keys = "ctrl+alt+kp1"` strings in `[[macro]]` and
//! what the capture tool prints. Pure data, shared by the config parser, the
//! hotkey state machine and the macro command.
//!
//! A combo is a set of side-agnostic modifiers (ctrl/alt/shift/super, either
//! side) plus exactly one trigger key, named as its evdev constant without the
//! `KEY_` prefix and lowercased: `kp1`, `f5`, `a`, `1`, `prog1`. Parsing is
//! case-insensitive; printing gives the canonical spelling, which is what
//! duplicates are compared by.

use std::str::FromStr;
use vstd::multiset::Multiset;
use vstd::prelude::*;

use crate::input::codes::KeyCode;
use crate::text;

verus! {

broadcast use {vstd::seq::group_seq_axioms, vstd::string::group_string_axioms};

pub const CTRLS: [u16; 2] = [KeyCode::KEY_LEFTCTRL, KeyCode::KEY_RIGHTCTRL];

pub const ALTS: [u16; 2] = [KeyCode::KEY_LEFTALT, KeyCode::KEY_RIGHTALT];

pub const SHIFTS: [u16; 2] = [KeyCode::KEY_LEFTSHIFT, KeyCode::KEY_RIGHTSHIFT];

pub const SUPERS: [u16; 2] = [KeyCode::KEY_LEFTMETA, KeyCode::KEY_RIGHTMETA];

// ---------------------------------------------------------------------------
// Modifiers
// ---------------------------------------------------------------------------

#[derive(Debug, Clone, Copy, PartialEq, Eq, Hash, Structural)]
pub enum Modifier {
    Ctrl,
    Alt,
    Shift,
    Super,
}

/// The physical keys (left and right) that count as a modifier.
pub open spec fn modifier_keys(m: Modifier) -> Seq<u16> {
    match m {
        Modifier::Ctrl => seq![KeyCode::KEY_LEFTCTRL, KeyCode::KEY_RIGHTCTRL],
        Modifier::Alt => seq![KeyCode::KEY_LEFTALT, KeyCode::KEY_RIGHTALT],
        Modifier::Shift => seq![KeyCode::KEY_LEFTSHIFT, KeyCode::KEY_RIGHTSHIFT],
        Modifier::Super => seq![KeyCode::KEY_LEFTMETA, KeyCode::KEY_RIGHTMETA],
    }
}

/// The name a modifier is written with.
pub open spec fn modifier_name(m: Modifier) -> Seq<char> {
    match m {
        Modifier::Ctrl => "ctrl"@,
        Modifier::Alt => "alt"@,
        Modifier::Shift => "shift"@,
        Modifier::Super => "super"@,
    }
}

/// The modifier a lowercase name or alias stands for.
pub open spec fn modifier_named(token: Seq<char>) -> Option<Modifier> {
    if token == "ctrl"@ || token == "control"@ {
        Some(Modifier::Ctrl)
    } else if token == "alt"@ {
        Some(Modifier::Alt)
    } else if token == "shift"@ {
        Some(Modifier::Shift)
    } else if token == "super"@ || token == "meta"@ || token == "win"@ {
        Some(Modifier::Super)
    } else {
        None
    }
}

/// The modifier a physical key is, if it is one.
pub open spec fn modifier_of_key(key: u16) -> Option<Modifier> {
    if modifier_keys(Modifier::Ctrl).contains(key) {
        Some(Modifier::Ctrl)
    } else if modifier_keys(Modifier::Alt).contains(key) {
        Some(Modifier::Alt)
    } else if modifier_keys(Modifier::Shift).contains(key) {
        Some(Modifier::Shift)
    } else if modifier_keys(Modifier::Super).contains(key) {
        Some(Modifier::Super)
    } else {
        None
    }
}

/// Membership in a modifier's pair of keys, spelled out.
pub proof fn lemma_modifier_keys(m: Modifier, key: u16)
    ensures
        modifier_keys(m).contains(key) <==> (key == modifier_keys(m)[0] || key == modifier_keys(
            m,
        )[1]),
{
    let keys = modifier_keys(m);
    assert(keys.len() == 2);
    if key == keys[0] {
        assert(keys.contains(keys[0]));
    }
    if key == keys[1] {
        assert(keys.contains(keys[1]));
    }
}

impl Modifier {
    pub const ALL: [Modifier; 4] = [
        Modifier::Ctrl,
        Modifier::Alt,
        Modifier::Shift,
        Modifier::Super,
    ];

    /// The physical keys (left and right) that count as this modifier.
    pub fn keys(self) -> (r: [u16; 2])
        ensures
            r@ == modifier_keys(self),
    {
        match self {
            Modifier::Ctrl => CTRLS,
            Modifier::Alt => ALTS,
            Modifier::Shift => SHIFTS,
            Modifier::Super => SUPERS,
        }
    }

    /// The name this modifier is printed with.
    pub fn name(self) -> (r: &'static str)
        ensures
            r@ == modifier_name(self),
    {
        match self {
            Modifier::Ctrl => "ctrl",
            Modifier::Alt => "alt",
            Modifier::Shift => "shift",
            Modifier::Super => "super",
        }
    }

    /// The modifier a lowercase name or alias stands for.
    pub fn parse(token: &str) -> (r: Option<Self>)
        ensures
            r == modifier_named(token@),
    {
        if text::str_eq(token, "ctrl") || text::str_eq(token, "control") {
            Some(Modifier::Ctrl)
        } else if text::str_eq(token, "alt") {
            Some(Modifier::Alt)
        } else if text::str_eq(token, "shift") {
            Some(Modifier::Shift)
        } else if text::str_eq(token, "super") || text::str_eq(token, "meta") || text::str_eq(
            token,
            "win",
        ) {
            Some(Modifier::Super)
        } else {
            None
        }
    }
}

/// Which modifier a physical key is, if it is one.
pub fn modifier_of(key: u16) -> (r: Option<Modifier>)
    ensures
        r == modifier_of_key(key),
{
    proof {
        lemma_modifier_keys(Modifier::Ctrl, key);
        lemma_modifier_keys(Modifier::Alt, key);
        lemma_modifier_keys(Modifier::Shift, key);
        lemma_modifier_keys(Modifier::Super, key);
    }
    if key == CTRLS[0] || key == CTRLS[1] {
        Some(Modifier::Ctrl)
    } else if key == ALTS[0] || key == ALTS[1] {
        Some(Modifier::Alt)
    } else if key == SHIFTS[0] || key == SHIFTS[1] {
        Some(Modifier::Shift)
    } else if key == SUPERS[0] || key == SUPERS[1] {
        Some(Modifier::Super)
    } else {
        None
    }
}

/// A set of modifiers, side-agnostic.
#[derive(Debug, Clone, Copy, PartialEq, Eq, Hash, Structural)]
pub struct Mods {
    pub ctrl: bool,
    pub alt: bool,
    pub shift: bool,
    pub sup: bool,
}

/// No modifier at all.
pub open spec fn no_mods() -> Mods {
    Mods { ctrl: false, alt: false, shift: false, sup: false }
}

/// Whether a modifier counts as held among a set of held keys.
pub open spec fn modifier_held(held: Set<u16>, m: Modifier) -> bool {
    exists|i: int| 0 <= i < 2 && held.contains(#[trigger] modifier_keys(m)[i])
}

/// The modifiers among a set of held keys.
pub open spec fn mods_in(held: Set<u16>) -> Mods {
    Mods {
        ctrl: modifier_held(held, Modifier::Ctrl),
        alt: modifier_held(held, Modifier::Alt),
        shift: modifier_held(held, Modifier::Shift),
        sup: modifier_held(held, Modifier::Super),
    }
}

/// A modifier is held when its left or its right key is.
pub proof fn lemma_modifier_held(held: Set<u16>, m: Modifier)
    ensures
        modifier_held(held, m) <==> (held.contains(modifier_keys(m)[0]) || held.contains(
            modifier_keys(m)[1],
        )),
{
}

impl Mods {
    /// Whether this set holds a modifier.
    pub open spec fn has(self, m: Modifier) -> bool {
        match m {
            Modifier::Ctrl => self.ctrl,
            Modifier::Alt => self.alt,
            Modifier::Shift => self.shift,
            Modifier::Super => self.sup,
        }
    }

    /// This set with one modifier added.
    pub open spec fn with(self, m: Modifier) -> Mods {
        match m {
            Modifier::Ctrl => Mods { ctrl: true, ..self },
            Modifier::Alt => Mods { alt: true, ..self },
            Modifier::Shift => Mods { shift: true, ..self },
            Modifier::Super => Mods { sup: true, ..self },
        }
    }

    pub fn is_empty(self) -> (r: bool)
        ensures
            r == (self == no_mods()),
    {
        !(self.ctrl || self.alt || self.shift || self.sup)
    }

    pub fn contains(self, m: Modifier) -> (r: bool)
        ensures
            r == self.has(m),
    {
        match m {
            Modifier::Ctrl => self.ctrl,
            Modifier::Alt => self.alt,
            Modifier::Shift => self.shift,
            Modifier::Super => self.sup,
        }
    }

    pub fn set(&mut self, m: Modifier)
        ensures
            *final(self) == old(self).with(m),
    {
        match m {
            Modifier::Ctrl => self.ctrl = true,
            Modifier::Alt => self.alt = true,
            Modifier::Shift => self.shift = true,
            Modifier::Super => self.sup = true,
        }
    }

    /// The modifiers among a list of held keys.
    pub fn from_held(held: &[u16]) -> (r: Self)
        ensures
            r == mods_in(held@.to_set()),
    {
        let mut mods = Mods::default();
        let mut i: usize = 0;
        proof {
            lemma_mods_empty(held@.take(0).to_set());
        }
        while i < held.len()
            invariant
                i <= held@.len(),
                mods == mods_in(held@.take(i as int).to_set()),
            decreases held@.len() - i,
        {
            let m = modifier_of(held[i]);
            proof {
                assert(held@.take(i + 1) =~= held@.take(i as int).push(held@[i as int]));
                lemma_push_set(held@.take(i as int), held@[i as int]);
                lemma_mods_insert(held@.take(i as int).to_set(), held@[i as int]);
            }
            if let Some(m) = m {
                mods.set(m);
            }
            i = i + 1;
        }
        assert(held@.take(i as int) =~= held@);
        mods
    }
}

impl Default for Mods {
    fn default() -> (r: Self)
        ensures
            r == no_mods(),
    {
        Mods { ctrl: false, alt: false, shift: false, sup: false }
    }
}

/// Pushing onto a list inserts into its set of elements.
pub proof fn lemma_push_set(list: Seq<u16>, key: u16)
    ensures
        list.push(key).to_set() =~= list.to_set().insert(key),
{
    let longer = list.push(key);
    assert forall|k: u16| longer.to_set().contains(k) == list.to_set().insert(key).contains(k) by {
        if longer.contains(k) {
            let i = choose|i: int| 0 <= i < longer.len() && longer[i] == k;
            if i < list.len() {
                assert(list[i] == k);
            }
        }
        if list.contains(k) {
            let i = choose|i: int| 0 <= i < list.len() && list[i] == k;
            assert(longer[i] == k);
        }
        if k == key {
            assert(longer[list.len() as int] == k);
        }
    }
}

proof fn lemma_mods_empty(held: Set<u16>)
    requires
        forall|k: u16| !held.contains(k),
    ensures
        mods_in(held) == no_mods(),
{
}

/// Holding one more key adds exactly the modifier it is.
pub proof fn lemma_mods_insert(held: Set<u16>, key: u16)
    ensures
        mods_in(held.insert(key)) == match modifier_of_key(key) {
            Some(m) => mods_in(held).with(m),
            None => mods_in(held),
        },
{
    lemma_modifier_keys(Modifier::Ctrl, key);
    lemma_modifier_keys(Modifier::Alt, key);
    lemma_modifier_keys(Modifier::Shift, key);
    lemma_modifier_keys(Modifier::Super, key);
    lemma_modifier_held(held, Modifier::Ctrl);
    lemma_modifier_held(held, Modifier::Alt);
    lemma_modifier_held(held, Modifier::Shift);
    lemma_modifier_held(held, Modifier::Super);
    lemma_modifier_held(held.insert(key), Modifier::Ctrl);
    lemma_modifier_held(held.insert(key), Modifier::Alt);
    lemma_modifier_held(held.insert(key), Modifier::Shift);
    lemma_modifier_held(held.insert(key), Modifier::Super);
}

// ---------------------------------------------------------------------------
// Key names
// ---------------------------------------------------------------------------

/// The code evdev gives a constant's name, e.g. 30 for `KEY_A`.
pub uninterp spec fn evdev_key_by_name(name: Seq<char>) -> Option<u16>;

/// What evdev prints for a key code, e.g. `KEY_A` for 30.
pub uninterp spec fn evdev_key_debug(key: u16) -> Seq<char>;

/// Capital letters, digits and underscores only, as evdev's constants are.
pub open spec fn is_constant_name(s: Seq<char>) -> bool {
    forall|i: int| 0 <= i < s.len() ==> {
        let c = #[trigger] s[i];
        ('A' <= c && c <= 'Z') || ('0' <= c && c <= '9') || c == '_'
    }
}

/// `evdev::KeyCode::from_str`: the key a constant's name stands for, `None`
/// where no constant has that name. A key found under a `KEY_` name is also
/// printed under one.
#[verifier::external_body]
fn key_by_name(name: &str) -> (r: Option<u16>)
    ensures
        r == evdev_key_by_name(name@),
        r is Some && text::starts_with(name@, "KEY_"@) ==> text::starts_with(
            evdev_key_debug(r->0),
            "KEY_"@,
        ),
{
    match evdev::KeyCode::from_str(name) {
        Ok(key) => Some(key.code()),
        Err(_) => None,
    }
}

/// `Debug` of `evdev::KeyCode`: the name of the key's first constant. Where
/// that is a `KEY_` name it is spelled in capitals, digits and underscores,
/// has something after the prefix that is none of the modifier names, and
/// reading it gives the key back.
#[verifier::external_body]
fn key_debug(key: u16) -> (r: String)
    ensures
        r@ == evdev_key_debug(key),
        text::starts_with(r@, "KEY_"@) ==> {
            &&& is_constant_name(r@)
            &&& r@.len() > 4
            &&& modifier_named(text::lower(r@.skip(4))) is None
            &&& evdev_key_by_name(r@) == Some(key)
        },
{
    format!("{:?}", evdev::KeyCode::new(key))
}

/// A key's name: its evdev spelling, lowercased and without the `KEY_` prefix.
pub open spec fn spelled_key(key: u16) -> Seq<char> {
    let debug = evdev_key_debug(key);
    if text::starts_with(debug, "KEY_"@) {
        text::lower(debug.skip(4))
    } else {
        text::lower(debug)
    }
}

/// `KEY_KP1` → `kp1`.
pub fn key_name(key: u16) -> (r: String)
    ensures
        r@ == spelled_key(key),
{
    let debug = key_debug(key);
    if text::str_starts_with(debug.as_str(), "KEY_") {
        proof {
            reveal_strlit("KEY_");
        }
        let chars = text::chars_of(debug.as_str());
        let rest = text::string_of(&chars, 4, chars.len());
        assert(rest@ =~= debug@.skip(4));
        text::to_lower(rest.as_str())
    } else {
        text::to_lower(debug.as_str())
    }
}

// ---------------------------------------------------------------------------
// Combos
// ---------------------------------------------------------------------------

/// Modifiers plus one trigger key.
#[derive(Debug, Clone, Copy, PartialEq, Eq, Hash, Structural)]
pub struct KeyCombo {
    pub mods: Mods,
    pub key: u16,
}

/// Why a text is not a combo.
#[derive(Debug, Clone, Copy, PartialEq, Eq, Structural)]
pub enum ComboErrorKind {
    /// Nothing between two `+`, or nothing at all.
    EmptyName,
    /// The same modifier twice.
    RepeatedModifier,
    /// No evdev constant of that name.
    UnknownKey,
    /// A physical modifier key where the trigger belongs.
    ModifierAsTrigger,
    /// A second key besides the modifiers.
    ManyTriggers,
    /// No key besides the modifiers.
    NoTrigger,
}

/// A refused combo: why, at which token (empty where no single token is at
/// fault), in which text.
#[derive(Debug, Clone, PartialEq, Eq)]
pub struct ComboError {
    pub kind: ComboErrorKind,
    pub token: String,
    pub text: String,
}

/// The content of a [`ComboError`].
pub struct ComboFault {
    pub kind: ComboErrorKind,
    pub token: Seq<char>,
    pub text: Seq<char>,
}

impl View for ComboError {
    type V = ComboFault;

    open spec fn view(&self) -> ComboFault {
        ComboFault { kind: self.kind, token: self.token@, text: self.text@ }
    }
}

/// The sentence a refusal is reported with.
pub open spec fn combo_message(e: ComboFault) -> Seq<char> {
    match e.kind {
        ComboErrorKind::EmptyName => "empty key name in '"@ + e.text + "'"@,
        ComboErrorKind::RepeatedModifier => "modifier '"@ + e.token + "' given twice in '"@ + e.text
            + "'"@,
        ComboErrorKind::UnknownKey => "unknown key '"@ + e.token + "' in '"@ + e.text
            + "' (evdev name without KEY_, e.g. kp1, f5, a)"@,
        ComboErrorKind::ModifierAsTrigger => "'"@ + e.token + "' in '"@ + e.text
            + "' is a modifier — write it as ctrl/alt/shift/super, the trigger must be another key"@,
        ComboErrorKind::ManyTriggers => "'"@ + e.text
            + "' needs exactly one key besides modifiers"@,
        ComboErrorKind::NoTrigger => "'"@ + e.text + "' needs a key besides modifiers"@,
    }
}

impl ComboError {
    /// The sentence this refusal is reported with.
    pub fn message(&self) -> (r: String)
        ensures
            r@ == combo_message(self@),
    {
        let mut out = String::new();
        match self.kind {
            ComboErrorKind::EmptyName => {
                out.append("empty key name in '");
                out.append(self.text.as_str());
                out.append("'");
            },
            ComboErrorKind::RepeatedModifier => {
                out.append("modifier '");
                out.append(self.token.as_str());
                out.append("' given twice in '");
                out.append(self.text.as_str());
                out.append("'");
            },
            ComboErrorKind::UnknownKey => {
                out.append("unknown key '");
                out.append(self.token.as_str());
                out.append("' in '");
                out.append(self.text.as_str());
                out.append("' (evdev name without KEY_, e.g. kp1, f5, a)");
            },
            ComboErrorKind::ModifierAsTrigger => {
                out.append("'");
                out.append(self.token.as_str());
                out.append("' in '");
                out.append(self.text.as_str());
                out.append(
                    "' is a modifier — write it as ctrl/alt/shift/super, the trigger must be another key",
                );
            },
            ComboErrorKind::ManyTriggers => {
                out.append("'");
                out.append(self.text.as_str());
                out.append("' needs exactly one key besides modifiers");
            },
            ComboErrorKind::NoTrigger => {
                out.append("'");
                out.append(self.text.as_str());
                out.append("' needs a key besides modifiers");
            },
        }
        assert(out@ =~= combo_message(self@));
        out
    }
}

/// One token of a combo, as it is compared: trimmed and lowercased.
pub open spec fn combo_token(piece: Seq<char>) -> Seq<char> {
    text::lower(text::trim(piece))
}

/// The evdev constant a token names.
pub open spec fn constant_name(token: Seq<char>) -> Seq<char> {
    "KEY_"@ + text::upper(token)
}

/// What one more piece makes of a combo read so far; the error names its token.
pub open spec fn combo_step(
    mods: Mods,
    trigger: Option<u16>,
    piece: Seq<char>,
) -> Result<(Mods, Option<u16>), (ComboErrorKind, Seq<char>)> {
    let token = combo_token(piece);
    if token.len() == 0 {
        Err((ComboErrorKind::EmptyName, Seq::empty()))
    } else if let Some(m) = modifier_named(token) {
        if mods.has(m) {
            Err((ComboErrorKind::RepeatedModifier, token))
        } else {
            Ok((mods.with(m), trigger))
        }
    } else {
        match evdev_key_by_name(constant_name(token)) {
            None => Err((ComboErrorKind::UnknownKey, token)),
            Some(key) => {
                if modifier_of_key(key) is Some {
                    Err((ComboErrorKind::ModifierAsTrigger, token))
                } else if trigger is Some {
                    Err((ComboErrorKind::ManyTriggers, Seq::empty()))
                } else {
                    Ok((mods, Some(key)))
                }
            },
        }
    }
}

/// The modifiers and trigger that a list of pieces spells, or the first fault
/// in it.
pub open spec fn combo_fold(pieces: Seq<Seq<char>>) -> Result<
    (Mods, Option<u16>),
    (ComboErrorKind, Seq<char>),
>
    decreases pieces.len(),
{
    if pieces.len() == 0 {
        Ok((no_mods(), None))
    } else {
        match combo_fold(pieces.drop_last()) {
            Err(e) => Err(e),
            Ok((mods, trigger)) => combo_step(mods, trigger, pieces.last()),
        }
    }
}

/// The combo a text spells.
pub open spec fn parsed_combo(s: Seq<char>) -> Result<KeyCombo, ComboFault> {
    match combo_fold(text::split(s, '+')) {
        Err((kind, token)) => Err(ComboFault { kind, token, text: s }),
        Ok((mods, Some(key))) => Ok(KeyCombo { mods, key }),
        Ok((_, None)) => Err(
            ComboFault { kind: ComboErrorKind::NoTrigger, token: Seq::empty(), text: s },
        ),
    }
}

/// The modifier part of a combo's spelling, in the order ctrl, alt, shift,
/// super.
pub open spec fn spelled_mods(mods: Mods) -> Seq<char> {
    (if mods.ctrl { "ctrl+"@ } else { ""@ }) + (if mods.alt { "alt+"@ } else { ""@ }) + (
    if mods.shift { "shift+"@ } else { ""@ }) + (if mods.sup { "super+"@ } else { ""@ })
}

/// A trigger that can be written down: no modifier, and with a `KEY_` name.
pub open spec fn writable_trigger(key: u16) -> bool {
    &&& modifier_of_key(key) is None
    &&& text::starts_with(evdev_key_debug(key), "KEY_"@)
}

impl KeyCombo {
    /// The canonical spelling.
    pub open spec fn spelling(self) -> Seq<char> {
        spelled_mods(self.mods) + spelled_key(self.key)
    }

    /// A combo that can be written down.
    pub open spec fn writable(self) -> bool {
        writable_trigger(self.key)
    }

    /// Ctrl+Alt+F1..F12, whatever else is held.
    pub open spec fn reserved(self) -> bool {
        &&& self.mods.ctrl
        &&& self.mods.alt
        &&& (KeyCode::KEY_F1 <= self.key <= KeyCode::KEY_F10 || self.key == KeyCode::KEY_F11
            || self.key == KeyCode::KEY_F12)
    }

    /// Ctrl+Alt+F1..F12 with any extra modifiers belong to slot switching and
    /// re-pairing (the switch ignores Shift/Super rather than requiring their
    /// absence); a macro there would never fire.
    pub fn is_reserved(&self) -> (r: bool)
        ensures
            r == self.reserved(),
    {
        // KEY_F1..KEY_F10 are contiguous; F11/F12 sit apart.
        let fkey = (KeyCode::KEY_F1 <= self.key && self.key <= KeyCode::KEY_F10) || self.key
            == KeyCode::KEY_F11 || self.key == KeyCode::KEY_F12;
        self.mods.ctrl && self.mods.alt && fkey
    }

    /// The canonical spelling. Parsing it gives the combo back, for every combo
    /// that can be written down.
    pub fn to_string(&self) -> (r: String)
        ensures
            r@ == self.spelling(),
            self.writable() ==> parsed_combo(r@) == Ok::<KeyCombo, ComboFault>(*self),
    {
        let mut out = String::new();
        proof {
            reveal_strlit("");
            reveal_strlit("ctrl+");
            reveal_strlit("alt+");
            reveal_strlit("shift+");
            reveal_strlit("super+");
        }
        if self.mods.ctrl {
            out.append("ctrl+");
        }
        if self.mods.alt {
            out.append("alt+");
        }
        if self.mods.shift {
            out.append("shift+");
        }
        if self.mods.sup {
            out.append("super+");
        }
        assert(out@ =~= spelled_mods(self.mods));
        let debug = key_debug(self.key);
        let name = key_name(self.key);
        out.append(name.as_str());
        assert(out@ =~= self.spelling());
        proof {
            if self.writable() {
                lemma_spelling_parses(*self);
            }
        }
        out
    }

    /// The combo a text spells. A combo that was read can be written again.
    pub fn from_str(s: &str) -> (r: Result<Self, ComboError>)
        ensures
            r matches Ok(combo) ==> parsed_combo(s@) == Ok::<KeyCombo, ComboFault>(combo),
            r matches Err(e) ==> parsed_combo(s@) == Err::<KeyCombo, ComboFault>(e@),
            r matches Ok(combo) ==> combo.writable(),
    {
        let pieces = text::split_on(s, '+');
        let ghost list = text::split(s@, '+');
        let mut mods = Mods::default();
        let mut trigger: Option<u16> = None;
        let mut i: usize = 0;
        while i < pieces.len()
            invariant
                i <= pieces@.len(),
                text::texts(pieces@) == list,
                list == text::split(s@, '+'),
                combo_fold(list.take(i as int)) matches Ok(read) && read == (mods, trigger),
                trigger matches Some(key) ==> writable_trigger(key),
            decreases pieces@.len() - i,
        {
            assert(list.take(i + 1).drop_last() =~= list.take(i as int));
            assert(list.take(i + 1).last() == pieces@[i as int]@);
            let trimmed = text::trimmed(pieces[i].as_str());
            let token = text::to_lower(trimmed.as_str());
            let step = combo_token_step(mods, trigger, token.as_str());
            match step {
                Err((kind, token)) => {
                    proof {
                        lemma_fold_stops(list, i + 1);
                    }
                    return Err(ComboError { kind, token, text: s.to_owned() });
                },
                Ok((m, t)) => {
                    mods = m;
                    trigger = t;
                },
            }
            i = i + 1;
        }
        assert(list.take(i as int) =~= list);
        match trigger {
            Some(key) => Ok(KeyCombo { mods, key }),
            None => {
                let none = String::new();
                assert(none@ =~= Seq::<char>::empty());
                Err(ComboError { kind: ComboErrorKind::NoTrigger, token: none, text: s.to_owned() })
            },
        }
    }
}

/// Whether a computed reading is the specified one.
pub open spec fn same_reading(
    got: Result<(Mods, Option<u16>), (ComboErrorKind, String)>,
    want: Result<(Mods, Option<u16>), (ComboErrorKind, Seq<char>)>,
) -> bool {
    match got {
        Ok(read) => want matches Ok(w) && w == read,
        Err((kind, token)) => want matches Err(w) && w == (kind, token@),
    }
}

/// One step of reading a combo, on a token already trimmed and lowercased.
fn combo_token_step(mods: Mods, trigger: Option<u16>, token: &str) -> (r: Result<
    (Mods, Option<u16>),
    (ComboErrorKind, String),
>)
    requires
        trigger matches Some(key) ==> writable_trigger(key),
    ensures
        forall|piece: Seq<char>| #[trigger]
            combo_token(piece) == token@ ==> same_reading(r, combo_step(mods, trigger, piece)),
        r matches Ok((m, Some(key))) ==> writable_trigger(key),
{
    let none = String::new();
    assert(none@ =~= Seq::<char>::empty());
    let chars = text::chars_of(token);
    if chars.len() == 0 {
        return Err((ComboErrorKind::EmptyName, none));
    }
    if let Some(m) = Modifier::parse(token) {
        if mods.contains(m) {
            return Err((ComboErrorKind::RepeatedModifier, token.to_owned()));
        }
        let mut more = mods;
        more.set(m);
        return Ok((more, trigger));
    }
    let upper = text::to_upper(token);
    let mut name = String::new();
    name.append("KEY_");
    name.append(upper.as_str());
    assert(name@ =~= constant_name(token@));
    assert(text::starts_with(name@, "KEY_"@)) by {
        assert(name@.take("KEY_"@.len() as int) =~= "KEY_"@);
    }
    match key_by_name(name.as_str()) {
        None => Err((ComboErrorKind::UnknownKey, token.to_owned())),
        Some(key) => {
            if modifier_of(key).is_some() {
                return Err((ComboErrorKind::ModifierAsTrigger, token.to_owned()));
            }
            if trigger.is_some() {
                return Err((ComboErrorKind::ManyTriggers, none));
            }
            Ok((mods, Some(key)))
        },
    }
}

/// Once reading fails it fails the same way whatever follows.
proof fn lemma_fold_stops(pieces: Seq<Seq<char>>, i: int)
    requires
        0 <= i <= pieces.len(),
        combo_fold(pieces.take(i)) is Err,
    ensures
        combo_fold(pieces) == combo_fold(pieces.take(i)),
    decreases pieces.len() - i,
{
    if i < pieces.len() {
        assert(pieces.take(i + 1).drop_last() =~= pieces.take(i));
        lemma_fold_stops(pieces, i + 1);
    } else {
        assert(pieces.take(i) =~= pieces);
    }
}

// ---------------------------------------------------------------------------
// Printing and reading are inverse
// ---------------------------------------------------------------------------

/// Appending text without separators only lengthens the last piece.
proof fn lemma_split_append(p: Seq<char>, tail: Seq<char>, sep: char)
    requires
        forall|i: int| 0 <= i < tail.len() ==> #[trigger] tail[i] != sep,
    ensures
        text::split(p + tail, sep) == text::split(p, sep).drop_last().push(
            text::split(p, sep).last() + tail,
        ),
    decreases tail.len(),
{
    text::lemma_split_nonempty(p, sep);
    if tail.len() == 0 {
        assert(p + tail =~= p);
        assert(text::split(p, sep).last() + tail =~= text::split(p, sep).last());
        assert(text::split(p, sep).drop_last().push(text::split(p, sep).last()) =~= text::split(
            p,
            sep,
        ));
    } else {
        lemma_split_append(p, tail.drop_last(), sep);
        assert((p + tail).drop_last() =~= p + tail.drop_last());
        assert((p + tail).last() == tail.last());
        let init = text::split(p + tail.drop_last(), sep);
        assert(init.drop_last() =~= text::split(p, sep).drop_last());
        assert(init.last().push(tail.last()) =~= text::split(p, sep).last() + tail);
    }
}

/// A text that is empty or ends in a separator: its last piece is empty.
spec fn at_piece_start(p: Seq<char>) -> bool {
    p.len() == 0 || p.last() == '+'
}

/// The pieces before the one about to start.
spec fn pieces_before(p: Seq<char>) -> Seq<Seq<char>> {
    text::split(p, '+').drop_last()
}

/// Writing one whole piece after a separator.
proof fn lemma_piece(p: Seq<char>, piece: Seq<char>)
    requires
        at_piece_start(p),
        forall|i: int| 0 <= i < piece.len() ==> #[trigger] piece[i] != '+',
    ensures
        text::split(p + piece, '+') == pieces_before(p).push(piece),
        at_piece_start(p + piece + seq!['+']),
        pieces_before(p + piece + seq!['+']) == pieces_before(p).push(piece),
{
    lemma_split_append(p, piece, '+');
    text::lemma_split_nonempty(p, '+');
    assert(text::split(p, '+').last() =~= Seq::<char>::empty());
    assert(text::split(p, '+').last() + piece =~= piece);
    let full = p + piece + seq!['+'];
    assert(full.drop_last() =~= p + piece);
    assert(full.last() == '+');
    assert(pieces_before(full) =~= text::split(p + piece, '+'));
}

/// Text without whitespace is its own trimming.
proof fn lemma_trim_solid(s: Seq<char>)
    requires
        forall|i: int| 0 <= i < s.len() ==> !text::is_white(#[trigger] s[i]),
    ensures
        text::trim(s) == s,
{
}

/// Writing a modifier's name extends what is read by that modifier.
proof fn lemma_modifier_piece(p: Seq<char>, mods: Mods, m: Modifier)
    requires
        at_piece_start(p),
        combo_fold(pieces_before(p)) matches Ok(read) && read == (mods, None::<u16>),
        !mods.has(m),
    ensures
        at_piece_start(p + modifier_name(m) + seq!['+']),
        combo_fold(pieces_before(p + modifier_name(m) + seq!['+'])) matches Ok(read) && read == (
            mods.with(m),
            None::<u16>,
        ),
{
    let name = modifier_name(m);
    reveal_strlit("ctrl");
    reveal_strlit("control");
    reveal_strlit("alt");
    reveal_strlit("shift");
    reveal_strlit("super");
    reveal_strlit("meta");
    reveal_strlit("win");
    lemma_piece(p, name);
    lemma_trim_solid(name);
    assert(text::lower(name) =~= name);
    assert("alt"@.len() == 3 && "ctrl"@.len() == 4 && "shift"@.len() == 5);
    assert(modifier_named(name) == Some(m)) by {
        assert("shift"@[1] == 'h');
        assert("super"@[1] == 'u');
        assert("alt"@[0] == 'a');
        assert("ctrl"@[0] == 'c');
    }
    let pieces = pieces_before(p).push(name);
    assert(pieces.drop_last() =~= pieces_before(p));
}

/// A printed combo reads back as itself.
proof fn lemma_spelling_parses(combo: KeyCombo)
    requires
        combo.writable(),
        is_constant_name(evdev_key_debug(combo.key)),
        evdev_key_debug(combo.key).len() > 4,
        modifier_named(text::lower(evdev_key_debug(combo.key).skip(4))) is None,
        evdev_key_by_name(evdev_key_debug(combo.key)) == Some(combo.key),
    ensures
        parsed_combo(combo.spelling()) == Ok::<KeyCombo, ComboFault>(combo),
{
    reveal_strlit("");
    reveal_strlit("ctrl+");
    reveal_strlit("ctrl");
    reveal_strlit("alt+");
    reveal_strlit("alt");
    reveal_strlit("shift+");
    reveal_strlit("shift");
    reveal_strlit("super+");
    reveal_strlit("super");
    reveal_strlit("KEY_");
    let p0 = Seq::<char>::empty();
    assert(pieces_before(p0) =~= Seq::<Seq<char>>::empty());
    let m0 = no_mods();
    let p1 = if combo.mods.ctrl { p0 + "ctrl"@ + seq!['+'] } else { p0 };
    let m1 = if combo.mods.ctrl { m0.with(Modifier::Ctrl) } else { m0 };
    if combo.mods.ctrl {
        lemma_modifier_piece(p0, m0, Modifier::Ctrl);
    }
    assert(combo_fold(pieces_before(p1)) matches Ok(read) && read == (m1, None::<u16>));
    let p2 = if combo.mods.alt { p1 + "alt"@ + seq!['+'] } else { p1 };
    let m2 = if combo.mods.alt { m1.with(Modifier::Alt) } else { m1 };
    if combo.mods.alt {
        lemma_modifier_piece(p1, m1, Modifier::Alt);
    }
    assert(combo_fold(pieces_before(p2)) matches Ok(read) && read == (m2, None::<u16>));
    let p3 = if combo.mods.shift { p2 + "shift"@ + seq!['+'] } else { p2 };
    let m3 = if combo.mods.shift { m2.with(Modifier::Shift) } else { m2 };
    if combo.mods.shift {
        lemma_modifier_piece(p2, m2, Modifier::Shift);
    }
    assert(combo_fold(pieces_before(p3)) matches Ok(read) && read == (m3, None::<u16>));
    let p4 = if combo.mods.sup { p3 + "super"@ + seq!['+'] } else { p3 };
    let m4 = if combo.mods.sup { m3.with(Modifier::Super) } else { m3 };
    if combo.mods.sup {
        lemma_modifier_piece(p3, m3, Modifier::Super);
    }
    assert(combo_fold(pieces_before(p4)) matches Ok(read) && read == (m4, None::<u16>));
    assert(m4 == combo.mods);
    assert(spelled_mods(combo.mods) =~= p4);
    let debug = evdev_key_debug(combo.key);
    let name = spelled_key(combo.key);
    assert forall|i: int| 0 <= i < name.len() implies {
        let c = #[trigger] name[i];
        &&& c != '+'
        &&& !text::is_white(c)
        &&& text::ascii_lower(c) == c
        &&& text::ascii_upper(c) == debug[i + 4]
    } by {
        assert(debug[i + 4] == debug.skip(4)[i]);
        assert(name[i] == text::ascii_lower(debug[i + 4]));
    }
    lemma_piece(p4, name);
    lemma_trim_solid(name);
    assert(text::lower(name) =~= name);
    assert(constant_name(name) =~= debug) by {
        assert(debug.take(4) =~= "KEY_"@);
        assert forall|i: int| 0 <= i < 4 implies "KEY_"@[i] == debug[i] by {
            assert(debug.take(4)[i] == debug[i]);
        }
    }
    let pieces = pieces_before(p4).push(name);
    assert(pieces.drop_last() =~= pieces_before(p4));
    assert(pieces.last() == name);
    assert(combo_fold(pieces) == combo_step(combo.mods, None, name));
}

// ---------------------------------------------------------------------------
// Spellings of one combo
// ---------------------------------------------------------------------------

/// What a token says.
pub enum TokenMeaning {
    Modifier(Modifier),
    Key(u16),
    /// Nothing that can stand in a combo.
    Nothing,
}

/// What one piece of a combo's text says: a modifier under any of its names, or
/// a key, whatever the case and the whitespace around it.
pub open spec fn meaning(piece: Seq<char>) -> TokenMeaning {
    let token = combo_token(piece);
    match modifier_named(token) {
        Some(m) => TokenMeaning::Modifier(m),
        None => match evdev_key_by_name(constant_name(token)) {
            Some(key) => if token.len() > 0 && modifier_of_key(key) is None {
                TokenMeaning::Key(key)
            } else {
                TokenMeaning::Nothing
            },
            None => TokenMeaning::Nothing,
        },
    }
}

/// What the pieces of a text say.
pub open spec fn meanings(pieces: Seq<Seq<char>>) -> Seq<TokenMeaning> {
    Seq::new(pieces.len(), |i: int| meaning(pieces[i]))
}

/// Tokens that go together: all of them say something, no modifier twice, at
/// most one key.
spec fn compatible(said: Multiset<TokenMeaning>) -> bool {
    &&& said.count(TokenMeaning::Nothing) == 0
    &&& forall|m: Modifier| #[trigger] said.count(TokenMeaning::Modifier(m)) <= 1
    &&& forall|key: u16| #[trigger] said.count(TokenMeaning::Key(key)) <= 1
    &&& forall|a: u16, b: u16|
        #[trigger] said.count(TokenMeaning::Key(a)) > 0 && #[trigger] said.count(
            TokenMeaning::Key(b),
        ) > 0 ==> a == b
}

/// The modifiers and the trigger that tokens make.
spec fn amounts_to(said: Multiset<TokenMeaning>, mods: Mods, trigger: Option<u16>) -> bool {
    &&& forall|m: Modifier|
        mods.has(m) <==> #[trigger] said.count(TokenMeaning::Modifier(m)) > 0
    &&& trigger matches Some(key) ==> said.count(TokenMeaning::Key(key)) > 0
    &&& trigger is None ==> forall|key: u16| #[trigger] said.count(TokenMeaning::Key(key)) == 0
}

/// Reading a list of pieces depends on what they say alone.
proof fn lemma_fold_reads_meanings(pieces: Seq<Seq<char>>)
    ensures
        match combo_fold(pieces) {
            Ok((mods, trigger)) => compatible(meanings(pieces).to_multiset()) && amounts_to(
                meanings(pieces).to_multiset(),
                mods,
                trigger,
            ),
            Err(_) => !compatible(meanings(pieces).to_multiset()),
        },
    decreases pieces.len(),
{
    broadcast use vstd::seq_lib::group_to_multiset_ensures;
    broadcast use vstd::multiset::group_multiset_axioms;

    let said = meanings(pieces).to_multiset();
    if pieces.len() == 0 {
        assert(meanings(pieces) =~= Seq::<TokenMeaning>::empty());
        assert(said.len() == 0);
        assert(said =~= Multiset::empty());
    } else {
        let init = pieces.drop_last();
        let last = meaning(pieces.last());
        lemma_fold_reads_meanings(init);
        let before = meanings(init).to_multiset();
        assert(meanings(pieces) =~= meanings(init).push(last));
        assert(said =~= before.insert(last));
        lemma_no_empty_name();
        assert(forall|t: TokenMeaning| said.count(t) == before.count(t) + if t == last {
            1int
        } else {
            0int
        });
        if combo_fold(init) is Err {
            if compatible(said) {
                assert forall|m: Modifier| #[trigger]
                    before.count(TokenMeaning::Modifier(m)) <= 1 by {
                    assert(said.count(TokenMeaning::Modifier(m)) <= 1);
                }
                assert forall|key: u16| #[trigger] before.count(TokenMeaning::Key(key)) <= 1 by {
                    assert(said.count(TokenMeaning::Key(key)) <= 1);
                }
                assert forall|a: u16, b: u16|
                    #[trigger] before.count(TokenMeaning::Key(a)) > 0 && #[trigger] before.count(
                        TokenMeaning::Key(b),
                    ) > 0 implies a == b by {
                    assert(said.count(TokenMeaning::Key(a)) > 0);
                    assert(said.count(TokenMeaning::Key(b)) > 0);
                }
                assert(compatible(before));
            }
        } else {
            let (mods, trigger) = combo_fold(init)->Ok_0;
            match last {
                TokenMeaning::Nothing => {
                    assert(said.count(last) > 0);
                },
                TokenMeaning::Modifier(m) => {
                    assert(said.count(TokenMeaning::Modifier(m)) == before.count(
                        TokenMeaning::Modifier(m),
                    ) + 1);
                    if mods.has(m) {
                        assert(said.count(TokenMeaning::Modifier(m)) > 1);
                    } else {
                        assert(compatible(said));
                        assert(amounts_to(said, mods.with(m), trigger));
                    }
                },
                TokenMeaning::Key(key) => {
                    assert(said.count(TokenMeaning::Key(key)) > 0);
                    match trigger {
                        Some(other) => {
                            assert(said.count(TokenMeaning::Key(other)) > 0);
                            if other == key {
                                assert(said.count(TokenMeaning::Key(key)) > 1);
                            }
                        },
                        None => {
                            assert(compatible(said));
                            assert(amounts_to(said, mods, Some(key)));
                        },
                    }
                },
            }
        }
    }
}

/// The modifiers have names.
proof fn lemma_no_empty_name()
    ensures
        forall|token: Seq<char>| token.len() == 0 ==> #[trigger] modifier_named(token) is None,
{
    reveal_strlit("ctrl");
    reveal_strlit("control");
    reveal_strlit("alt");
    reveal_strlit("shift");
    reveal_strlit("super");
    reveal_strlit("meta");
    reveal_strlit("win");
    assert("ctrl"@.len() == 4 && "control"@.len() == 7 && "alt"@.len() == 3);
    assert("shift"@.len() == 5 && "super"@.len() == 5 && "meta"@.len() == 4 && "win"@.len() == 3);
}

/// Only what its tokens say makes a combo: texts whose tokens say the same
/// things, in any order and under any name, case and padding, spell the same
/// combo.
pub proof fn law_only_meanings_count(s: Seq<char>, other: Seq<char>, combo: KeyCombo)
    requires
        parsed_combo(s) == Ok::<KeyCombo, ComboFault>(combo),
        meanings(text::split(s, '+')).to_multiset() == meanings(
            text::split(other, '+'),
        ).to_multiset(),
    ensures
        parsed_combo(other) == Ok::<KeyCombo, ComboFault>(combo),
{
    let said = meanings(text::split(s, '+')).to_multiset();
    lemma_fold_reads_meanings(text::split(s, '+'));
    lemma_fold_reads_meanings(text::split(other, '+'));
    let (mods, trigger) = combo_fold(text::split(other, '+'))->Ok_0;
    assert(said.count(TokenMeaning::Key(combo.key)) > 0);
    match trigger {
        Some(key) => {
            assert(said.count(TokenMeaning::Key(key)) > 0);
        },
        None => {
            assert(said.count(TokenMeaning::Key(combo.key)) == 0);
        },
    }
    assert(combo.mods.has(Modifier::Ctrl) == (said.count(TokenMeaning::Modifier(Modifier::Ctrl))
        > 0));
    assert(combo.mods.has(Modifier::Alt) == (said.count(TokenMeaning::Modifier(Modifier::Alt))
        > 0));
    assert(combo.mods.has(Modifier::Shift) == (said.count(TokenMeaning::Modifier(Modifier::Shift))
        > 0));
    assert(combo.mods.has(Modifier::Super) == (said.count(TokenMeaning::Modifier(Modifier::Super))
        > 0));
    assert(mods == combo.mods);
}

/// A token says the same in any case, and with whitespace around it.
pub proof fn law_case_and_padding_do_not_matter(
    before: Seq<char>,
    piece: Seq<char>,
    after: Seq<char>,
    other: Seq<char>,
)
    requires
        text::is_blank(before),
        text::is_blank(after),
        text::same_ignoring_case(piece, other),
    ensures
        meaning(before + piece + after) == meaning(piece),
        meaning(other) == meaning(piece),
{
    text::law_padding_is_trimmed(before, piece, after);
    text::lemma_trim_lower(piece);
    text::lemma_trim_lower(other);
}

/// Tokens that name one modifier say the same, whatever name they use.
pub proof fn law_synonyms_do_not_matter(a: Seq<char>, b: Seq<char>)
    requires
        modifier_named(combo_token(a)) is Some,
        modifier_named(combo_token(a)) == modifier_named(combo_token(b)),
    ensures
        meaning(a) == meaning(b),
{
}

/// Changing the case of a combo's text changes nothing.
pub proof fn law_case_of_a_combo_does_not_matter(s: Seq<char>, other: Seq<char>, combo: KeyCombo)
    requires
        parsed_combo(s) == Ok::<KeyCombo, ComboFault>(combo),
        text::same_ignoring_case(s, other),
    ensures
        parsed_combo(other) == Ok::<KeyCombo, ComboFault>(combo),
{
    let (a, b) = (text::split(s, '+'), text::split(other, '+'));
    text::lemma_split_lower(s, '+');
    text::lemma_split_lower(other, '+');
    assert forall|i: int| 0 <= i < a.len() implies meaning(#[trigger] a[i]) == meaning(b[i]) by {
        let lowered = text::split(text::lower(s), '+');
        assert(lowered[i] == text::lower(a[i]));
        assert(lowered[i] == text::lower(b[i]));
        let none = Seq::<char>::empty();
        law_case_and_padding_do_not_matter(none, a[i], none, b[i]);
    }
    assert(meanings(a) =~= meanings(b));
    law_only_meanings_count(s, other, combo);
}

/// The canonical spelling is in lower case.
pub proof fn law_spelling_is_lowercase(combo: KeyCombo)
    ensures
        text::lower(combo.spelling()) == combo.spelling(),
{
    reveal_strlit("");
    reveal_strlit("ctrl+");
    reveal_strlit("alt+");
    reveal_strlit("shift+");
    reveal_strlit("super+");
    assert(text::lower(combo.spelling()) =~= combo.spelling());
}

// ---------------------------------------------------------------------------
// Laws of names and codes
// ---------------------------------------------------------------------------

/// The physical keys of each modifier, by their codes.
pub proof fn law_modifier_key_codes(key: u16)
    ensures
        modifier_of_key(key) == (if key == 29 || key == 97 {
            Some(Modifier::Ctrl)
        } else if key == 56 || key == 100 {
            Some(Modifier::Alt)
        } else if key == 42 || key == 54 {
            Some(Modifier::Shift)
        } else if key == 125 || key == 126 {
            Some(Modifier::Super)
        } else {
            None
        }),
        modifier_keys(Modifier::Ctrl) == seq![29u16, 97],
        modifier_keys(Modifier::Alt) == seq![56u16, 100],
        modifier_keys(Modifier::Shift) == seq![42u16, 54],
        modifier_keys(Modifier::Super) == seq![125u16, 126],
{
    lemma_modifier_keys(Modifier::Ctrl, key);
    lemma_modifier_keys(Modifier::Alt, key);
    lemma_modifier_keys(Modifier::Shift, key);
    lemma_modifier_keys(Modifier::Super, key);
}

/// The names and aliases of the modifiers, and that nothing else names one.
pub proof fn law_modifier_names(token: Seq<char>)
    ensures
        modifier_named("ctrl"@) == Some(Modifier::Ctrl),
        modifier_named("control"@) == Some(Modifier::Ctrl),
        modifier_named("alt"@) == Some(Modifier::Alt),
        modifier_named("shift"@) == Some(Modifier::Shift),
        modifier_named("super"@) == Some(Modifier::Super),
        modifier_named("meta"@) == Some(Modifier::Super),
        modifier_named("win"@) == Some(Modifier::Super),
        modifier_named(token) is Some ==> token == "ctrl"@ || token == "control"@ || token == "alt"@
            || token == "shift"@ || token == "super"@ || token == "meta"@ || token == "win"@,
        modifier_name(Modifier::Ctrl) == "ctrl"@,
        modifier_name(Modifier::Alt) == "alt"@,
        modifier_name(Modifier::Shift) == "shift"@,
        modifier_name(Modifier::Super) == "super"@,
{
    reveal_strlit("ctrl");
    reveal_strlit("control");
    reveal_strlit("alt");
    reveal_strlit("shift");
    reveal_strlit("super");
    reveal_strlit("meta");
    reveal_strlit("win");
    assert("ctrl"@.len() == 4 && "control"@.len() == 7 && "alt"@.len() == 3);
    assert("shift"@.len() == 5 && "super"@.len() == 5 && "meta"@.len() == 4 && "win"@.len() == 3);
    assert("ctrl"@[0] == 'c' && "meta"@[0] == 'm' && "alt"@[0] == 'a' && "win"@[0] == 'w');
    assert("shift"@[1] == 'h' && "super"@[1] == 'u');
}

/// A set of modifiers holds what was put into it and what it held before.
pub proof fn law_modifier_sets(mods: Mods, m: Modifier, n: Modifier, held: Set<u16>)
    ensures
        mods.with(m).has(n) <==> mods.has(n) || n == m,
        !no_mods().has(n),
        mods.has(Modifier::Ctrl) == mods.ctrl,
        mods.has(Modifier::Alt) == mods.alt,
        mods.has(Modifier::Shift) == mods.shift,
        mods.has(Modifier::Super) == mods.sup,
        mods_in(held).has(n) <==> modifier_held(held, n),
{
}

/// The combos that switch slots: Ctrl and Alt with F1 to F12, whatever else.
pub proof fn law_reserved_combos(combo: KeyCombo)
    ensures
        combo.reserved() <==> combo.mods.ctrl && combo.mods.alt && (59 <= combo.key <= 68
            || combo.key == 87 || combo.key == 88),
{
}

/// What a text that is a combo says: each of its pieces is a modifier of the
/// combo or its key, and each modifier and the key stand in one of the pieces.
pub proof fn law_combo_is_what_its_pieces_say(s: Seq<char>, combo: KeyCombo, i: int)
    requires
        parsed_combo(s) == Ok::<KeyCombo, ComboFault>(combo),
        0 <= i < text::split(s, '+').len(),
    ensures
        ({
            let said = meanings(text::split(s, '+'));
            &&& match said[i] {
                TokenMeaning::Modifier(m) => combo.mods.has(m),
                TokenMeaning::Key(key) => key == combo.key,
                TokenMeaning::Nothing => false,
            }
            &&& said.contains(TokenMeaning::Key(combo.key))
            &&& combo.mods.ctrl <==> said.contains(TokenMeaning::Modifier(Modifier::Ctrl))
            &&& combo.mods.alt <==> said.contains(TokenMeaning::Modifier(Modifier::Alt))
            &&& combo.mods.shift <==> said.contains(TokenMeaning::Modifier(Modifier::Shift))
            &&& combo.mods.sup <==> said.contains(TokenMeaning::Modifier(Modifier::Super))
        }),
{
    broadcast use vstd::seq_lib::group_to_multiset_ensures;

    let pieces = text::split(s, '+');
    let said = meanings(pieces);
    let bag = said.to_multiset();
    lemma_fold_reads_meanings(pieces);
    assert(forall|t: TokenMeaning| said.contains(t) <==> #[trigger] bag.count(t) > 0);
    assert(said.contains(said[i]));
    assert(bag.count(said[i]) > 0);
    assert(bag.count(TokenMeaning::Key(combo.key)) > 0);
    match said[i] {
        TokenMeaning::Modifier(m) => {
            assert(bag.count(TokenMeaning::Modifier(m)) > 0);
        },
        TokenMeaning::Key(key) => {
            assert(bag.count(TokenMeaning::Key(key)) > 0);
        },
        TokenMeaning::Nothing => {},
    }
    assert(combo.mods.has(Modifier::Ctrl) <==> bag.count(TokenMeaning::Modifier(Modifier::Ctrl))
        > 0);
    assert(combo.mods.has(Modifier::Alt) <==> bag.count(TokenMeaning::Modifier(Modifier::Alt)) > 0);
    assert(combo.mods.has(Modifier::Shift) <==> bag.count(TokenMeaning::Modifier(Modifier::Shift))
        > 0);
    assert(combo.mods.has(Modifier::Super) <==> bag.count(TokenMeaning::Modifier(Modifier::Super))
        > 0);
}

/// How the first piece that cannot stand where it does is refused.
pub proof fn law_combo_refusals(
    s: Seq<char>,
    mods: Mods,
    trigger: Option<u16>,
    i: int,
)
    requires
        0 <= i < text::split(s, '+').len(),
        combo_fold(text::split(s, '+').take(i)) == Ok::<
            (Mods, Option<u16>),
            (ComboErrorKind, Seq<char>),
        >((mods, trigger)),
    ensures
        ({
            let token = text::lower(text::trim(text::split(s, '+')[i]));
            let named = modifier_named(token);
            let key = evdev_key_by_name("KEY_"@ + text::upper(token));
            let empty = Seq::<char>::empty();
            &&& token.len() == 0 ==> refused(s, ComboErrorKind::EmptyName, empty)
            &&& token.len() > 0 && named is Some && mods.has(named->0) ==> refused(
                s,
                ComboErrorKind::RepeatedModifier,
                token,
            )
            &&& token.len() > 0 && named is None && key is None ==> refused(
                s,
                ComboErrorKind::UnknownKey,
                token,
            )
            &&& token.len() > 0 && named is None && key is Some && modifier_of_key(
                key->0,
            ) is Some ==> refused(s, ComboErrorKind::ModifierAsTrigger, token)
            &&& token.len() > 0 && named is None && key is Some && modifier_of_key(key->0) is None
                && trigger is Some ==> refused(s, ComboErrorKind::ManyTriggers, empty)
        }),
{
    let pieces = text::split(s, '+');
    assert(pieces.take(i + 1).drop_last() =~= pieces.take(i));
    assert(pieces.take(i + 1).last() == pieces[i]);
    lemma_no_empty_name();
    if combo_fold(pieces.take(i + 1)) is Err {
        lemma_fold_stops(pieces, i + 1);
    }
}

/// A text is refused as a combo for this reason, at this token.
pub open spec fn refused(s: Seq<char>, kind: ComboErrorKind, token: Seq<char>) -> bool {
    parsed_combo(s) == Err::<KeyCombo, ComboFault>(ComboFault { kind, token, text: s })
}

/// Modifiers alone make no combo.
pub proof fn law_modifiers_alone_are_no_combo(s: Seq<char>, mods: Mods)
    requires
        combo_fold(text::split(s, '+')) == Ok::<
            (Mods, Option<u16>),
            (ComboErrorKind, Seq<char>),
        >((mods, None)),
    ensures
        refused(s, ComboErrorKind::NoTrigger, Seq::empty()),
{
}

/// A spelling lists ctrl, alt, shift, super in this order, each followed by a
/// plus, and then the key: its evdev name in lower case without `KEY_`.
pub proof fn law_spelling_order(combo: KeyCombo)
    ensures
        combo.mods.ctrl ==> combo.spelling() == "ctrl+"@ + (KeyCombo {
            mods: Mods { ctrl: false, ..combo.mods },
            ..combo
        }).spelling(),
        !combo.mods.ctrl && combo.mods.alt ==> combo.spelling() == "alt+"@ + (KeyCombo {
            mods: Mods { alt: false, ..combo.mods },
            ..combo
        }).spelling(),
        !combo.mods.ctrl && !combo.mods.alt && combo.mods.shift ==> combo.spelling() == "shift+"@ + (
        KeyCombo { mods: Mods { shift: false, ..combo.mods }, ..combo }).spelling(),
        !combo.mods.ctrl && !combo.mods.alt && !combo.mods.shift && combo.mods.sup
            ==> combo.spelling() == "super+"@ + (KeyCombo {
            mods: Mods { sup: false, ..combo.mods },
            ..combo
        }).spelling(),
        combo.mods == no_mods() ==> combo.spelling() == spelled_key(combo.key),
        text::starts_with(evdev_key_debug(combo.key), "KEY_"@) ==> spelled_key(combo.key)
            == text::lower(evdev_key_debug(combo.key).skip(4)),
        !text::starts_with(evdev_key_debug(combo.key), "KEY_"@) ==> spelled_key(combo.key)
            == text::lower(evdev_key_debug(combo.key)),
{
    reveal_strlit("");
    let key = spelled_key(combo.key);
    let m = combo.mods;
    let (a, b, c) = (
        Mods { ctrl: false, ..m },
        Mods { alt: false, ..m },
        Mods { shift: false, ..m },
    );
    let d = Mods { sup: false, ..m };
    if m.ctrl {
        assert(spelled_mods(m) =~= "ctrl+"@ + spelled_mods(a));
        assert(combo.spelling() =~= "ctrl+"@ + (spelled_mods(a) + key));
    } else if m.alt {
        assert(spelled_mods(m) =~= "alt+"@ + spelled_mods(b));
        assert(combo.spelling() =~= "alt+"@ + (spelled_mods(b) + key));
    } else if m.shift {
        assert(spelled_mods(m) =~= "shift+"@ + spelled_mods(c));
        assert(combo.spelling() =~= "shift+"@ + (spelled_mods(c) + key));
    } else if m.sup {
        assert(spelled_mods(m) =~= "super+"@ + spelled_mods(d));
        assert(combo.spelling() =~= "super+"@ + (spelled_mods(d) + key));
    } else {
        assert(spelled_mods(m) =~= Seq::<char>::empty());
        assert(combo.spelling() =~= key);
    }
}

/// A refusal's sentence quotes the text that was refused and, where one token
/// is at fault, that token, and says what the fault is.
#[verifier::rlimit(30)]
pub proof fn law_refusals_quote_their_text(e: ComboFault)
    ensures
        text::says(combo_message(e), e.text),
        e.kind == ComboErrorKind::RepeatedModifier || e.kind == ComboErrorKind::UnknownKey || e.kind
            == ComboErrorKind::ModifierAsTrigger ==> text::says(combo_message(e), e.token),
        e.kind == ComboErrorKind::EmptyName ==> text::says(combo_message(e), "empty key name"@),
        e.kind == ComboErrorKind::RepeatedModifier ==> text::says(
            combo_message(e),
            "given twice"@,
        ),
        e.kind == ComboErrorKind::UnknownKey ==> text::says(combo_message(e), "unknown key"@),
        e.kind == ComboErrorKind::ModifierAsTrigger ==> text::says(
            combo_message(e),
            "is a modifier"@,
        ),
        e.kind == ComboErrorKind::ManyTriggers ==> text::says(combo_message(e), "exactly one key"@),
        e.kind == ComboErrorKind::NoTrigger ==> text::says(
            combo_message(e),
            "needs a key besides modifiers"@,
        ),
{
    let msg = combo_message(e);
    let none = Seq::<char>::empty();
    let (t, s) = (e.token, e.text);
    match e.kind {
        ComboErrorKind::EmptyName => {
            reveal_strlit("empty key name in '");
            reveal_strlit("empty key name");
            text::lemma_says("empty key name in '"@, s, "'"@);
            assert(msg.subrange(0, 14) =~= "empty key name"@);
            text::lemma_says_at(msg, 0, "empty key name"@);
        },
        ComboErrorKind::RepeatedModifier => {
            reveal_strlit("' given twice in '");
            reveal_strlit("given twice");
            let a = "modifier '"@;
            let b = "' given twice in '"@;
            text::lemma_says(a, t, b + s + "'"@);
            assert(msg =~= a + t + (b + s + "'"@));
            text::lemma_says(a + t + b, s, "'"@);
            let at = (a + t).len() as int + 2;
            assert(msg.subrange(at, at + 11) =~= "given twice"@);
            text::lemma_says_at(msg, at, "given twice"@);
        },
        ComboErrorKind::UnknownKey => {
            reveal_strlit("unknown key '");
            reveal_strlit("unknown key");
            let a = "unknown key '"@;
            let b = "' in '"@;
            let c = "' (evdev name without KEY_, e.g. kp1, f5, a)"@;
            text::lemma_says(a, t, b + s + c);
            assert(msg =~= a + t + (b + s + c));
            text::lemma_says(a + t + b, s, c);
            assert(msg.subrange(0, 11) =~= "unknown key"@);
            text::lemma_says_at(msg, 0, "unknown key"@);
        },
        ComboErrorKind::ModifierAsTrigger => {
            reveal_strlit(
                "' is a modifier — write it as ctrl/alt/shift/super, the trigger must be another key",
            );
            reveal_strlit("is a modifier");
            let b = "' in '"@;
            let c =
                "' is a modifier — write it as ctrl/alt/shift/super, the trigger must be another key"@;
            text::lemma_says("'"@, t, b + s + c);
            assert(msg =~= "'"@ + t + (b + s + c));
            text::lemma_says("'"@ + t + b, s, c);
            let at = ("'"@ + t + b + s).len() as int + 2;
            assert(msg.subrange(at, at + 13) =~= "is a modifier"@);
            text::lemma_says_at(msg, at, "is a modifier"@);
        },
        ComboErrorKind::ManyTriggers => {
            reveal_strlit("' needs exactly one key besides modifiers");
            reveal_strlit("exactly one key");
            text::lemma_says("'"@, s, "' needs exactly one key besides modifiers"@);
            let at = ("'"@ + s).len() as int + 8;
            assert(msg.subrange(at, at + 15) =~= "exactly one key"@);
            text::lemma_says_at(msg, at, "exactly one key"@);
        },
        ComboErrorKind::NoTrigger => {
            reveal_strlit("' needs a key besides modifiers");
            reveal_strlit("needs a key besides modifiers");
            text::lemma_says("'"@, s, "' needs a key besides modifiers"@);
            let at = ("'"@ + s).len() as int + 2;
            assert(msg.subrange(at, at + 29) =~= "needs a key besides modifiers"@);
            text::lemma_says_at(msg, at, "needs a key besides modifiers"@);
        },
    }
}

} // verus!
