//! `config.toml`: from the values that stand in the file to settings the hub
//! can run with, or the first thing wrong with them.

use std::collections::BTreeMap;
use vstd::prelude::*;

use crate::bt::addr;
use crate::bt::addr::Address;
use crate::input::keys;
use crate::input::keys::{ComboError, ComboFault, KeyCombo};
use crate::rgb::proto;
use crate::rgb::proto::Rgb;
use crate::text;
use crate::time::Duration;

verus! {

broadcast use {
    vstd::seq::group_seq_axioms,
    vstd::string::group_string_axioms,
    vstd::std_specs::btree::group_btree_axioms,
};

/// Slot 1 is always the local host (Ctrl+Alt+F1).
pub const LOCAL_SLOT: u8 = 1;

/// Highest hotkey slot (Ctrl+Alt+F12).
pub const MAX_SLOT: u8 = 12;

/// How many hosts an LE hub keeps connected.
#[derive(Debug, Clone, Copy, PartialEq, Eq, Structural)]
pub enum Connections {
    /// Every bound host stays connected.
    All,
    /// Only the active slot's host is connected.
    Single,
}

// ---------------------------------------------------------------------------
// As the file has it
// ---------------------------------------------------------------------------

#[derive(Debug)]
pub struct RawConfig {
    pub adapter_alias: String,
    /// Explicit input device paths; `None` means auto-detect.
    pub devices: Option<Vec<String>>,
    /// Max mouse *motion* report rate over Bluetooth (Hz). Buttons and keys
    /// are never delayed. Gaming mice poll at 500–1000 Hz, which floods a BT
    /// link and shows up as cursor lag; BT mice normally report ~125 Hz.
    pub mouse_rate_hz: u32,
    /// Hosts an LE hub keeps connected.
    pub connections: Connections,
    /// Slot lighting through a local OpenRGB server. Absent means off.
    pub rgb: Option<RawRgb>,
    pub targets: Vec<RawTarget>,
    /// Commands to run when a slot becomes the active target. Empty means the
    /// hook task never starts.
    pub hooks: Vec<RawHook>,
    /// Commands run on a key combo, on any slot. Empty means nothing extra.
    pub macros: Vec<RawMacro>,
}

#[derive(Debug)]
pub struct RawTarget {
    pub name: String,
    pub slot: u8,
    /// Optional pre-seed; without it the slot is bound via a pairing window.
    pub mac: Option<String>,
    /// Lighting for this slot; falls back to the `[rgb]` palette.
    pub color: Option<String>,
    /// Lighting brightness for this slot; falls back to `[rgb] brightness`.
    pub brightness: Option<u8>,
}

#[derive(Debug)]
pub struct RawHook {
    pub slot: u8,
    pub run: RawRun,
    /// Shown in log lines; defaults to "slot <n>".
    pub name: Option<String>,
    pub timeout_secs: u64,
}

#[derive(Debug)]
pub struct RawMacro {
    /// e.g. "ctrl+alt+kp1"; see `input::keys`.
    pub keys: String,
    pub run: RawRun,
    /// Shown in log lines; defaults to the canonical combo string.
    pub name: Option<String>,
    pub timeout_secs: u64,
}

/// A bare string goes through `sh -c`, so `$VARS`, pipes and redirection work.
/// An array is exec'd directly, so nothing is interpreted — pick per hook.
#[derive(Debug)]
pub enum RawRun {
    Shell(String),
    Argv(Vec<String>),
}

#[derive(Debug)]
pub struct RawRgb {
    pub enabled: bool,
    pub server: String,
    /// 0-100, mapped onto each device mode's own brightness range.
    pub brightness: u8,
    pub local_color: String,
    pub pairing_color: String,
    pub bound_color: String,
    /// Colors for slots that no `[[target]]` gives one, in slot order.
    pub palette: Vec<String>,
    /// Seconds without keyboard or mouse input before the LEDs fade out; 0
    /// keeps them lit forever.
    pub idle_timeout_secs: u64,
}

pub fn default_mouse_rate_hz() -> (r: u32)
    ensures
        r == 125,
{
    125
}

pub fn default_connections() -> (r: Connections)
    ensures
        r == Connections::All,
{
    Connections::All
}

pub fn default_hook_timeout_secs() -> (r: u64)
    ensures
        r == 10,
{
    10
}

pub fn default_idle_timeout_secs() -> (r: u64)
    ensures
        r == 120,
{
    120
}

pub fn default_rgb_server() -> (r: String)
    ensures
        r@ == "127.0.0.1:6742"@,
{
    "127.0.0.1:6742".to_owned()
}

pub fn default_brightness() -> (r: u8)
    ensures
        r == 100,
{
    100
}

pub fn default_local_color() -> (r: String)
    ensures
        r@ == "#ffffff"@,
{
    "#ffffff".to_owned()
}

pub fn default_pairing_color() -> (r: String)
    ensures
        r@ == "#ffa000"@,
{
    "#ffa000".to_owned()
}

pub fn default_bound_color() -> (r: String)
    ensures
        r@ == "#00ff00"@,
{
    "#00ff00".to_owned()
}

pub fn default_palette() -> (r: Vec<String>)
    ensures
        text::texts(r@) == seq![
            "#ff0000"@,
            "#0000ff"@,
            "#00ff00"@,
            "#ff00ff"@,
            "#00ffff"@,
            "#ff8000"@,
        ],
{
    let mut out: Vec<String> = Vec::new();
    out.push("#ff0000".to_owned());
    out.push("#0000ff".to_owned());
    out.push("#00ff00".to_owned());
    out.push("#ff00ff".to_owned());
    out.push("#00ffff".to_owned());
    out.push("#ff8000".to_owned());
    assert(text::texts(out@) =~= seq![
        "#ff0000"@,
        "#0000ff"@,
        "#00ff00"@,
        "#ff00ff"@,
        "#00ffff"@,
        "#ff8000"@,
    ]);
    out
}

pub fn default_alias() -> (r: String)
    ensures
        r@ == "KMHub"@,
{
    "KMHub".to_owned()
}

// ---------------------------------------------------------------------------
// As the hub uses it
// ---------------------------------------------------------------------------

#[derive(Debug, Clone)]
pub struct RemoteTarget {
    pub name: String,
    pub slot: u8,
    /// `None` means the slot's device is learned via a pairing window.
    pub addr: Option<Address>,
    pub color: Option<Rgb>,
    pub brightness: Option<u8>,
}

/// The content of a [`RemoteTarget`].
pub struct TargetView {
    pub name: Seq<char>,
    pub slot: u8,
    pub addr: Option<Address>,
    pub color: Option<Rgb>,
    pub brightness: Option<u8>,
}

impl View for RemoteTarget {
    type V = TargetView;

    open spec fn view(&self) -> TargetView {
        TargetView {
            name: self.name@,
            slot: self.slot,
            addr: self.addr,
            color: self.color,
            brightness: self.brightness,
        }
    }
}

/// The contents of a list of targets.
pub open spec fn target_views(list: Seq<RemoteTarget>) -> Seq<TargetView> {
    Seq::new(list.len(), |i: int| list[i]@)
}

/// What a hook runs. The two forms differ only in whether a shell interprets
/// the command line; see [`RawRun`].
#[derive(Debug, Clone, PartialEq, Eq)]
pub enum HookCommand {
    Shell(String),
    /// Non-empty, and `argv[0]` is non-empty — both enforced at parse time.
    Argv(Vec<String>),
}

/// The content of a [`HookCommand`].
pub enum CommandView {
    Shell(Seq<char>),
    Argv(Seq<Seq<char>>),
}

impl View for HookCommand {
    type V = CommandView;

    open spec fn view(&self) -> CommandView {
        match self {
            HookCommand::Shell(line) => CommandView::Shell(line@),
            HookCommand::Argv(argv) => CommandView::Argv(text::texts(argv@)),
        }
    }
}

impl CommandView {
    /// There is something to run.
    pub open spec fn runnable(self) -> bool {
        match self {
            CommandView::Shell(line) => !text::is_blank(line),
            CommandView::Argv(argv) => argv.len() > 0 && argv[0].len() > 0,
        }
    }
}

impl HookCommand {
    /// Whether there is something to run.
    pub fn is_runnable(&self) -> (r: bool)
        ensures
            r == self@.runnable(),
    {
        match self {
            HookCommand::Shell(line) => !text::blank(line.as_str()),
            HookCommand::Argv(argv) => {
                assert(text::texts(argv@).len() == argv@.len());
                argv.len() > 0 && !text::chars_of(argv[0].as_str()).is_empty()
            },
        }
    }

    /// A copy with the same content.
    pub fn duplicate(&self) -> (r: HookCommand)
        ensures
            r@ == self@,
    {
        match self {
            HookCommand::Shell(line) => HookCommand::Shell(line.clone()),
            HookCommand::Argv(argv) => HookCommand::Argv(text::copy_texts(argv)),
        }
    }
}

/// A command to run when `slot` becomes the active target.
#[derive(Debug, Clone)]
pub struct Hook {
    pub slot: u8,
    /// For log lines only.
    pub label: String,
    pub command: HookCommand,
    pub timeout: Duration,
}

/// The content of a [`Hook`].
pub struct HookView {
    pub slot: u8,
    pub label: Seq<char>,
    pub command: CommandView,
    pub timeout: Duration,
}

impl View for Hook {
    type V = HookView;

    open spec fn view(&self) -> HookView {
        HookView {
            slot: self.slot,
            label: self.label@,
            command: self.command@,
            timeout: self.timeout,
        }
    }
}

/// The contents of a list of hooks.
pub open spec fn hook_views(list: Seq<Hook>) -> Seq<HookView> {
    Seq::new(list.len(), |i: int| list[i]@)
}

/// A command to run when `combo` is pressed, whatever the active slot.
#[derive(Debug, Clone)]
pub struct Macro {
    pub combo: KeyCombo,
    /// For log lines only.
    pub label: String,
    pub command: HookCommand,
    pub timeout: Duration,
}

/// The content of a [`Macro`].
pub struct MacroView {
    pub combo: KeyCombo,
    pub label: Seq<char>,
    pub command: CommandView,
    pub timeout: Duration,
}

impl View for Macro {
    type V = MacroView;

    open spec fn view(&self) -> MacroView {
        MacroView {
            combo: self.combo,
            label: self.label@,
            command: self.command@,
            timeout: self.timeout,
        }
    }
}

/// The contents of a list of macros.
pub open spec fn macro_views(list: Seq<Macro>) -> Seq<MacroView> {
    Seq::new(list.len(), |i: int| list[i]@)
}

/// A slot's own lighting, where a `[[target]]` gives it one.
#[derive(Debug, Clone, Copy, PartialEq, Eq, Structural)]
pub struct SlotLight {
    pub color: Option<Rgb>,
    pub brightness: Option<u8>,
}

/// Resolved lighting settings. Colors are looked up per slot, so a slot bound
/// through a pairing window (no `[[target]]` entry at all) still gets one.
#[derive(Debug, Clone)]
pub struct RgbSettings {
    pub enabled: bool,
    pub server: String,
    pub brightness: u8,
    pub local_color: Rgb,
    pub pairing_color: Rgb,
    pub bound_color: Rgb,
    /// How long the hub's own input devices may stay quiet before the LEDs
    /// fade out. `None` disables blanking entirely.
    pub idle_timeout: Option<Duration>,
    pub palette: Vec<Rgb>,
    /// Per-slot overrides from `[[target]]` entries.
    pub slots: BTreeMap<u8, SlotLight>,
}

/// The content of [`RgbSettings`].
#[verifier::ext_equal]
pub struct RgbView {
    pub enabled: bool,
    pub server: Seq<char>,
    pub brightness: u8,
    pub local_color: Rgb,
    pub pairing_color: Rgb,
    pub bound_color: Rgb,
    pub idle_timeout: Option<Duration>,
    pub palette: Seq<Rgb>,
    pub slots: Map<u8, SlotLight>,
}

impl View for RgbSettings {
    type V = RgbView;

    open spec fn view(&self) -> RgbView {
        RgbView {
            enabled: self.enabled,
            server: self.server@,
            brightness: self.brightness,
            local_color: self.local_color,
            pairing_color: self.pairing_color,
            bound_color: self.bound_color,
            idle_timeout: self.idle_timeout,
            palette: self.palette@,
            slots: self.slots@,
        }
    }
}

impl RgbView {
    /// The color of a slot: the hub's own for the local slot, else the
    /// target's, else the palette's turn for it.
    pub open spec fn color_of(self, slot: u8) -> Rgb {
        if slot == LOCAL_SLOT {
            self.local_color
        } else if self.slots.contains_key(slot) && self.slots[slot].color is Some {
            self.slots[slot].color->0
        } else if self.palette.len() == 0 {
            self.local_color
        } else {
            // Slot 2 takes the first palette entry, and it wraps from there.
            let turn = if slot < 2 {
                0
            } else {
                slot - 2
            };
            self.palette[turn % (self.palette.len() as int)]
        }
    }

    /// The brightness of a slot: the target's, else the general one.
    pub open spec fn brightness_of(self, slot: u8) -> u8 {
        if self.slots.contains_key(slot) && self.slots[slot].brightness is Some {
            self.slots[slot].brightness->0
        } else {
            self.brightness
        }
    }

    /// Brightness values stay percentages, and the idle timeout is a span a
    /// clock can be asked to wait.
    pub open spec fn wf(self) -> bool {
        &&& self.brightness <= 100
        &&& forall|slot: u8| #[trigger]
            self.slots.contains_key(slot) ==> (self.slots[slot].brightness matches Some(b) ==> b
                <= 100)
        &&& self.idle_timeout matches Some(d) ==> d.in_range() && d.nanos > 0
    }
}

#[derive(Debug, Clone)]
pub struct Settings {
    pub adapter_alias: String,
    pub devices: Option<Vec<String>>,
    /// See `RawConfig::mouse_rate_hz`.
    pub mouse_rate_hz: u32,
    /// See `RawConfig::connections`.
    pub connections: Connections,
    pub rgb: RgbSettings,
    pub targets: Vec<RemoteTarget>,
    pub hooks: Vec<Hook>,
    /// In file order; the hotkey FSM reports a macro by its index here.
    pub macros: Vec<Macro>,
}

/// The content of [`Settings`].
pub struct SettingsView {
    pub adapter_alias: Seq<char>,
    pub devices: Option<Seq<Seq<char>>>,
    pub mouse_rate_hz: u32,
    pub connections: Connections,
    pub rgb: RgbView,
    pub targets: Seq<TargetView>,
    pub hooks: Seq<HookView>,
    pub macros: Seq<MacroView>,
}

/// The paths of an optional device list.
pub open spec fn device_texts(devices: Option<Vec<String>>) -> Option<Seq<Seq<char>>> {
    match devices {
        Some(list) => Some(text::texts(list@)),
        None => None,
    }
}

impl View for Settings {
    type V = SettingsView;

    open spec fn view(&self) -> SettingsView {
        SettingsView {
            adapter_alias: self.adapter_alias@,
            devices: device_texts(self.devices),
            mouse_rate_hz: self.mouse_rate_hz,
            connections: self.connections,
            rgb: self.rgb@,
            targets: target_views(self.targets@),
            hooks: hook_views(self.hooks@),
            macros: macro_views(self.macros@),
        }
    }
}

// ---------------------------------------------------------------------------
// What can be wrong
// ---------------------------------------------------------------------------

/// The `[rgb]` entry a color stands in.
#[derive(Debug, Clone, Copy, PartialEq, Eq, Structural)]
pub enum RgbField {
    Palette,
    LocalColor,
    PairingColor,
    BoundColor,
}

/// Which kind of entry a command belongs to.
#[derive(Debug, Clone, Copy, PartialEq, Eq, Structural)]
pub enum RunOwner {
    Hook,
    Macro,
}

/// The first thing wrong with a configuration.
#[derive(Debug, Clone, PartialEq, Eq)]
pub enum ConfigError {
    TargetSlot { name: String },
    DuplicateSlot { slot: u8 },
    TargetMac { name: String, mac: String, part: String },
    TargetColor { name: String, color: String },
    EmptyPalette,
    RgbColor { field: RgbField, color: String },
    HookSlot { label: String },
    EmptyRun { owner: RunOwner, label: String },
    MacroKeys { name: String, error: ComboError },
    MacroReserved { label: String, combo: KeyCombo },
    MacroDuplicate { label: String, combo: KeyCombo, other: String },
}

/// The content of a [`ConfigError`].
pub enum ConfigFault {
    TargetSlot { name: Seq<char> },
    DuplicateSlot { slot: u8 },
    TargetMac { name: Seq<char>, mac: Seq<char>, part: Seq<char> },
    TargetColor { name: Seq<char>, color: Seq<char> },
    EmptyPalette,
    RgbColor { field: RgbField, color: Seq<char> },
    HookSlot { label: Seq<char> },
    EmptyRun { owner: RunOwner, label: Seq<char> },
    MacroKeys { name: Seq<char>, error: ComboFault },
    MacroReserved { label: Seq<char>, combo: KeyCombo },
    MacroDuplicate { label: Seq<char>, combo: KeyCombo, other: Seq<char> },
}

impl View for ConfigError {
    type V = ConfigFault;

    open spec fn view(&self) -> ConfigFault {
        match self {
            ConfigError::TargetSlot { name } => ConfigFault::TargetSlot { name: name@ },
            ConfigError::DuplicateSlot { slot } => ConfigFault::DuplicateSlot { slot: *slot },
            ConfigError::TargetMac { name, mac, part } => ConfigFault::TargetMac {
                name: name@,
                mac: mac@,
                part: part@,
            },
            ConfigError::TargetColor { name, color } => ConfigFault::TargetColor {
                name: name@,
                color: color@,
            },
            ConfigError::EmptyPalette => ConfigFault::EmptyPalette,
            ConfigError::RgbColor { field, color } => ConfigFault::RgbColor {
                field: *field,
                color: color@,
            },
            ConfigError::HookSlot { label } => ConfigFault::HookSlot { label: label@ },
            ConfigError::EmptyRun { owner, label } => ConfigFault::EmptyRun {
                owner: *owner,
                label: label@,
            },
            ConfigError::MacroKeys { name, error } => ConfigFault::MacroKeys {
                name: name@,
                error: error@,
            },
            ConfigError::MacroReserved { label, combo } => ConfigFault::MacroReserved {
                label: label@,
                combo: *combo,
            },
            ConfigError::MacroDuplicate { label, combo, other } => ConfigFault::MacroDuplicate {
                label: label@,
                combo: *combo,
                other: other@,
            },
        }
    }
}

/// How an `[rgb]` entry is called.
pub open spec fn field_name(field: RgbField) -> Seq<char> {
    match field {
        RgbField::Palette => "palette"@,
        RgbField::LocalColor => "local_color"@,
        RgbField::PairingColor => "pairing_color"@,
        RgbField::BoundColor => "bound_color"@,
    }
}

/// How a kind of entry is called.
pub open spec fn owner_name(owner: RunOwner) -> Seq<char> {
    match owner {
        RunOwner::Hook => "hook"@,
        RunOwner::Macro => "macro"@,
    }
}

/// The sentence a color is refused with.
pub open spec fn color_message(color: Seq<char>) -> Seq<char> {
    "invalid color '"@ + color + "' (expected #RRGGBB)"@
}

/// The sentence a configuration is refused with.
pub open spec fn config_message(e: ConfigFault) -> Seq<char> {
    match e {
        ConfigFault::TargetSlot { name } => "target '"@ + name
            + "': slot must be 2..=12 (slot 1 is the local host)"@,
        ConfigFault::DuplicateSlot { slot } => "duplicate target slot "@ + text::decimal(
            slot as nat,
        ),
        ConfigFault::TargetMac { name, mac, part } => "target '"@ + name + "': invalid MAC '"@ + mac
            + "': invalid Bluetooth address: "@ + part,
        ConfigFault::TargetColor { name, color } => "target '"@ + name + "': "@ + color_message(
            color,
        ),
        ConfigFault::EmptyPalette => "[rgb] palette must list at least one color"@,
        ConfigFault::RgbColor { field, color } => "[rgb] "@ + field_name(field) + ": "@
            + color_message(color),
        ConfigFault::HookSlot { label } => "hook '"@ + label + "': slot must be 1..=12"@,
        ConfigFault::EmptyRun { owner, label } => owner_name(owner) + " '"@ + label
            + "': run is empty"@,
        ConfigFault::MacroKeys { name, error } => "macro '"@ + name + "': invalid keys: "@
            + keys::combo_message(error),
        ConfigFault::MacroReserved { label, combo } => "macro '"@ + label + "': "@
            + combo.spelling()
            + " is reserved — Ctrl+Alt+F1..F12 (with any extra modifier) switch slots"@,
        ConfigFault::MacroDuplicate { label, combo, other } => "macro '"@ + label + "': "@
            + combo.spelling() + " is already bound by macro '"@ + other + "'"@,
    }
}

fn put_color_message(out: &mut String, color: &str)
    ensures
        final(out)@ == old(out)@ + color_message(color@),
{
    out.append("invalid color '");
    out.append(color);
    out.append("' (expected #RRGGBB)");
    assert(out@ =~= old(out)@ + color_message(color@));
}

impl ConfigError {
    /// The sentence this refusal is reported with.
    pub fn message(&self) -> (r: String)
        ensures
            r@ == config_message(self@),
    {
        let mut out = String::new();
        match self {
            ConfigError::TargetSlot { name } => {
                out.append("target '");
                out.append(name.as_str());
                out.append("': slot must be 2..=12 (slot 1 is the local host)");
            },
            ConfigError::DuplicateSlot { slot } => {
                let number = text::decimal_of(*slot as u64);
                out.append("duplicate target slot ");
                out.append(number.as_str());
            },
            ConfigError::TargetMac { name, mac, part } => {
                out.append("target '");
                out.append(name.as_str());
                out.append("': invalid MAC '");
                out.append(mac.as_str());
                out.append("': invalid Bluetooth address: ");
                out.append(part.as_str());
            },
            ConfigError::TargetColor { name, color } => {
                out.append("target '");
                out.append(name.as_str());
                out.append("': ");
                put_color_message(&mut out, color.as_str());
            },
            ConfigError::EmptyPalette => {
                out.append("[rgb] palette must list at least one color");
            },
            ConfigError::RgbColor { field, color } => {
                out.append("[rgb] ");
                match field {
                    RgbField::Palette => out.append("palette"),
                    RgbField::LocalColor => out.append("local_color"),
                    RgbField::PairingColor => out.append("pairing_color"),
                    RgbField::BoundColor => out.append("bound_color"),
                }
                out.append(": ");
                put_color_message(&mut out, color.as_str());
            },
            ConfigError::HookSlot { label } => {
                out.append("hook '");
                out.append(label.as_str());
                out.append("': slot must be 1..=12");
            },
            ConfigError::EmptyRun { owner, label } => {
                match owner {
                    RunOwner::Hook => out.append("hook"),
                    RunOwner::Macro => out.append("macro"),
                }
                out.append(" '");
                out.append(label.as_str());
                out.append("': run is empty");
            },
            ConfigError::MacroKeys { name, error } => {
                let why = error.message();
                out.append("macro '");
                out.append(name.as_str());
                out.append("': invalid keys: ");
                out.append(why.as_str());
            },
            ConfigError::MacroReserved { label, combo } => {
                let spelled = combo.to_string();
                out.append("macro '");
                out.append(label.as_str());
                out.append("': ");
                out.append(spelled.as_str());
                out.append(
                    " is reserved — Ctrl+Alt+F1..F12 (with any extra modifier) switch slots",
                );
            },
            ConfigError::MacroDuplicate { label, combo, other } => {
                let spelled = combo.to_string();
                out.append("macro '");
                out.append(label.as_str());
                out.append("': ");
                out.append(spelled.as_str());
                out.append(" is already bound by macro '");
                out.append(other.as_str());
                out.append("'");
            },
        }
        assert(out@ =~= config_message(self@));
        out
    }
}

// ---------------------------------------------------------------------------
// What a configuration means
// ---------------------------------------------------------------------------

/// A timeout in the range commands may take.
pub open spec fn clamped_timeout(secs: u64) -> Duration {
    Duration::of_secs(
        if secs < 1 {
            1
        } else if secs > 300 {
            300
        } else {
            secs as int
        },
    )
}

/// What a command entry says to run.
pub open spec fn raw_command(run: RawRun) -> CommandView {
    match run {
        RawRun::Shell(line) => CommandView::Shell(line@),
        RawRun::Argv(argv) => CommandView::Argv(text::texts(argv@)),
    }
}

/// One target entry, after the targets read before it.
pub open spec fn target_of(before: Seq<TargetView>, t: RawTarget) -> Result<
    TargetView,
    ConfigFault,
> {
    if t.slot <= LOCAL_SLOT || t.slot > MAX_SLOT {
        Err(ConfigFault::TargetSlot { name: t.name@ })
    } else if exists|i: int| 0 <= i < before.len() && (#[trigger] before[i]).slot == t.slot {
        Err(ConfigFault::DuplicateSlot { slot: t.slot })
    } else {
        let addr = match t.mac {
            Some(mac) => match addr::parsed_address(mac@) {
                Ok(a) => Ok(Some(a)),
                Err(part) => Err((mac@, part)),
            },
            None => Ok(None),
        };
        match addr {
            Err((mac, part)) => Err(ConfigFault::TargetMac { name: t.name@, mac, part }),
            Ok(addr) => {
                if t.color is Some && proto::parsed_color(t.color->0@) is None {
                    Err(ConfigFault::TargetColor { name: t.name@, color: t.color->0@ })
                } else {
                    Ok(
                        TargetView {
                            name: t.name@,
                            slot: t.slot,
                            addr,
                            color: match t.color {
                                Some(c) => proto::parsed_color(c@),
                                None => None,
                            },
                            brightness: t.brightness,
                        },
                    )
                }
            },
        }
    }
}

/// All target entries in order.
pub open spec fn targets_of(raw: Seq<RawTarget>) -> Result<Seq<TargetView>, ConfigFault>
    decreases raw.len(),
{
    if raw.len() == 0 {
        Ok(Seq::empty())
    } else {
        match targets_of(raw.drop_last()) {
            Err(e) => Err(e),
            Ok(before) => match target_of(before, raw.last()) {
                Err(e) => Err(e),
                Ok(t) => Ok(before.push(t)),
            },
        }
    }
}

/// The palette's colors, or the first text that is none.
pub open spec fn palette_of(raw: Seq<Seq<char>>) -> Result<Seq<Rgb>, Seq<char>>
    decreases raw.len(),
{
    if raw.len() == 0 {
        Ok(Seq::empty())
    } else {
        match palette_of(raw.drop_last()) {
            Err(e) => Err(e),
            Ok(before) => match proto::parsed_color(raw.last()) {
                None => Err(raw.last()),
                Some(c) => Ok(before.push(c)),
            },
        }
    }
}

/// A brightness as a percentage.
pub open spec fn percent(b: u8) -> u8 {
    if b > 100 {
        100
    } else {
        b
    }
}

/// A target's own lighting.
pub open spec fn light_of(t: TargetView) -> SlotLight {
    SlotLight {
        color: t.color,
        brightness: match t.brightness {
            Some(b) => Some(percent(b)),
            None => None,
        },
    }
}

/// The lighting overrides of a list of targets.
pub open spec fn slots_of(targets: Seq<TargetView>) -> Map<u8, SlotLight>
    decreases targets.len(),
{
    if targets.len() == 0 {
        Map::empty()
    } else {
        slots_of(targets.drop_last()).insert(targets.last().slot, light_of(targets.last()))
    }
}

/// No lighting.
pub open spec fn lighting_off() -> RgbView {
    RgbView {
        enabled: false,
        server: "127.0.0.1:6742"@,
        brightness: 100,
        local_color: Rgb::black(),
        pairing_color: Rgb::black(),
        bound_color: Rgb::black(),
        idle_timeout: None,
        palette: Seq::empty(),
        slots: Map::empty(),
    }
}

/// The lighting an `[rgb]` table asks for.
pub open spec fn rgb_of(raw: RawRgb, targets: Seq<TargetView>) -> Result<RgbView, ConfigFault> {
    if raw.palette@.len() == 0 {
        Err(ConfigFault::EmptyPalette)
    } else {
        match palette_of(text::texts(raw.palette@)) {
            Err(color) => Err(ConfigFault::RgbColor { field: RgbField::Palette, color }),
            Ok(palette) => {
                if proto::parsed_color(raw.local_color@) is None {
                    Err(
                        ConfigFault::RgbColor {
                            field: RgbField::LocalColor,
                            color: raw.local_color@,
                        },
                    )
                } else if proto::parsed_color(raw.pairing_color@) is None {
                    Err(
                        ConfigFault::RgbColor {
                            field: RgbField::PairingColor,
                            color: raw.pairing_color@,
                        },
                    )
                } else if proto::parsed_color(raw.bound_color@) is None {
                    Err(
                        ConfigFault::RgbColor {
                            field: RgbField::BoundColor,
                            color: raw.bound_color@,
                        },
                    )
                } else {
                    Ok(
                        RgbView {
                            enabled: raw.enabled,
                            server: raw.server@,
                            brightness: percent(raw.brightness),
                            local_color: proto::parsed_color(raw.local_color@)->0,
                            pairing_color: proto::parsed_color(raw.pairing_color@)->0,
                            bound_color: proto::parsed_color(raw.bound_color@)->0,
                            idle_timeout: if raw.idle_timeout_secs > 0 {
                                Some(Duration::of_secs(raw.idle_timeout_secs as int))
                            } else {
                                None
                            },
                            palette,
                            slots: slots_of(targets),
                        },
                    )
                }
            },
        }
    }
}

/// How a hook is called in log lines.
pub open spec fn hook_label(h: RawHook) -> Seq<char> {
    match h.name {
        Some(name) => name@,
        None => "slot "@ + text::decimal(h.slot as nat),
    }
}

/// One hook entry.
pub open spec fn hook_of(h: RawHook) -> Result<HookView, ConfigFault> {
    let label = hook_label(h);
    // Unlike [[target]], the local slot is hookable.
    if h.slot < LOCAL_SLOT || h.slot > MAX_SLOT {
        Err(ConfigFault::HookSlot { label })
    } else if !raw_command(h.run).runnable() {
        Err(ConfigFault::EmptyRun { owner: RunOwner::Hook, label })
    } else {
        Ok(
            HookView {
                slot: h.slot,
                label,
                command: raw_command(h.run),
                timeout: clamped_timeout(h.timeout_secs),
            },
        )
    }
}

/// All hook entries in order.
pub open spec fn hooks_of(raw: Seq<RawHook>) -> Result<Seq<HookView>, ConfigFault>
    decreases raw.len(),
{
    if raw.len() == 0 {
        Ok(Seq::empty())
    } else {
        match hooks_of(raw.drop_last()) {
            Err(e) => Err(e),
            Ok(before) => match hook_of(raw.last()) {
                Err(e) => Err(e),
                Ok(h) => Ok(before.push(h)),
            },
        }
    }
}

/// The first macro bound to a combo.
pub open spec fn macro_bound(list: Seq<MacroView>, combo: KeyCombo) -> Option<int>
    decreases list.len(),
{
    if list.len() == 0 {
        None
    } else {
        match macro_bound(list.drop_last(), combo) {
            Some(i) => Some(i),
            None => if list.last().combo == combo {
                Some(list.len() - 1)
            } else {
                None
            },
        }
    }
}

/// One macro entry, after the macros read before it.
pub open spec fn macro_of(before: Seq<MacroView>, m: RawMacro) -> Result<MacroView, ConfigFault> {
    match keys::parsed_combo(m.keys@) {
        Err(error) => Err(
            ConfigFault::MacroKeys {
                name: match m.name {
                    Some(name) => name@,
                    None => m.keys@,
                },
                error,
            },
        ),
        Ok(combo) => {
            let label = match m.name {
                Some(name) => name@,
                None => combo.spelling(),
            };
            if combo.reserved() {
                Err(ConfigFault::MacroReserved { label, combo })
            } else if let Some(i) = macro_bound(before, combo) {
                Err(ConfigFault::MacroDuplicate { label, combo, other: before[i].label })
            } else if !raw_command(m.run).runnable() {
                Err(ConfigFault::EmptyRun { owner: RunOwner::Macro, label })
            } else {
                Ok(
                    MacroView {
                        combo,
                        label,
                        command: raw_command(m.run),
                        timeout: clamped_timeout(m.timeout_secs),
                    },
                )
            }
        },
    }
}

/// All macro entries in order.
pub open spec fn macros_of(raw: Seq<RawMacro>) -> Result<Seq<MacroView>, ConfigFault>
    decreases raw.len(),
{
    if raw.len() == 0 {
        Ok(Seq::empty())
    } else {
        match macros_of(raw.drop_last()) {
            Err(e) => Err(e),
            Ok(before) => match macro_of(before, raw.last()) {
                Err(e) => Err(e),
                Ok(m) => Ok(before.push(m)),
            },
        }
    }
}

/// A report rate in the range the link can carry.
pub open spec fn clamped_rate(hz: u32) -> u32 {
    if hz < 20 {
        20
    } else if hz > 1000 {
        1000
    } else {
        hz
    }
}

/// The settings a configuration means, or the first thing wrong with it:
/// targets, lighting, hooks, macros, in this order.
pub open spec fn settings_of(raw: RawConfig) -> Result<SettingsView, ConfigFault> {
    match targets_of(raw.targets@) {
        Err(e) => Err(e),
        Ok(targets) => {
            let rgb = match raw.rgb {
                Some(rgb) => rgb_of(rgb, targets),
                None => Ok(lighting_off()),
            };
            match rgb {
                Err(e) => Err(e),
                Ok(rgb) => match hooks_of(raw.hooks@) {
                    Err(e) => Err(e),
                    Ok(hooks) => match macros_of(raw.macros@) {
                        Err(e) => Err(e),
                        Ok(macros) => Ok(
                            SettingsView {
                                adapter_alias: raw.adapter_alias@,
                                devices: device_texts(raw.devices),
                                mouse_rate_hz: clamped_rate(raw.mouse_rate_hz),
                                connections: raw.connections,
                                rgb,
                                targets,
                                hooks,
                                macros,
                            },
                        ),
                    },
                },
            }
        },
    }
}

// ---------------------------------------------------------------------------
// Reading it
// ---------------------------------------------------------------------------

/// Shared by hooks and macros: reject an empty command, clamp the timeout.
pub fn resolve_run(owner: RunOwner, label: &str, run: &RawRun, timeout_secs: u64) -> (r: Result<
    (HookCommand, Duration),
    ConfigError,
>)
    ensures
        r matches Ok(v) ==> raw_command(*run).runnable() && v.0@ == raw_command(*run) && v.1
            == clamped_timeout(timeout_secs),
        r matches Err(e) ==> !raw_command(*run).runnable() && e@ == (ConfigFault::EmptyRun {
            owner,
            label: label@,
        }),
{
    let command = match run {
        RawRun::Shell(line) => {
            if text::blank(line.as_str()) {
                return Err(ConfigError::EmptyRun { owner, label: label.to_owned() });
            }
            HookCommand::Shell(line.clone())
        },
        RawRun::Argv(argv) => {
            // An empty program would hand execvp("") to the kernel and
            // surface as a puzzling ENOENT at switch time instead.
            if argv.len() == 0 {
                return Err(ConfigError::EmptyRun { owner, label: label.to_owned() });
            }
            let program = text::chars_of(argv[0].as_str());
            if program.len() == 0 {
                return Err(ConfigError::EmptyRun { owner, label: label.to_owned() });
            }
            HookCommand::Argv(text::copy_texts(argv))
        },
    };
    let secs: u64 = if timeout_secs < 1 {
        1
    } else if timeout_secs > 300 {
        300
    } else {
        timeout_secs
    };
    Ok((command, Duration::from_secs(secs)))
}

/// One target entry, after the targets read before it.
fn read_target(before: &Vec<RemoteTarget>, t: &RawTarget) -> (r: Result<RemoteTarget, ConfigError>)
    ensures
        r matches Ok(v) ==> target_of(target_views(before@), *t) matches Ok(w) && w == v@,
        r matches Err(e) ==> target_of(target_views(before@), *t) matches Err(f) && f == e@,
{
    if t.slot <= LOCAL_SLOT || t.slot > MAX_SLOT {
        return Err(ConfigError::TargetSlot { name: t.name.clone() });
    }
    let ghost views = target_views(before@);
    let mut i: usize = 0;
    while i < before.len()
        invariant
            i <= before@.len(),
            views == target_views(before@),
            LOCAL_SLOT < t.slot <= MAX_SLOT,
            forall|j: int| 0 <= j < i ==> (#[trigger] views[j]).slot != t.slot,
        decreases before@.len() - i,
    {
        assert(views[i as int] == before@[i as int]@);
        if before[i].slot == t.slot {
            return Err(ConfigError::DuplicateSlot { slot: t.slot });
        }
        i = i + 1;
    }
    let addr = match &t.mac {
        Some(mac) => match Address::from_str(mac.as_str()) {
            Ok(a) => Some(a),
            Err(e) => {
                return Err(
                    ConfigError::TargetMac { name: t.name.clone(), mac: mac.clone(), part: e.part },
                );
            },
        },
        None => None,
    };
    let color = match &t.color {
        Some(text) => match Rgb::parse(text.as_str()) {
            Ok(c) => Some(c),
            Err(e) => {
                return Err(ConfigError::TargetColor { name: t.name.clone(), color: e.text });
            },
        },
        None => None,
    };
    Ok(
        RemoteTarget {
            name: t.name.clone(),
            slot: t.slot,
            addr,
            color,
            brightness: t.brightness,
        },
    )
}

/// All target entries in order.
fn read_targets(raw: &Vec<RawTarget>) -> (r: Result<Vec<RemoteTarget>, ConfigError>)
    ensures
        r matches Ok(v) ==> targets_of(raw@) matches Ok(w) && w == target_views(v@),
        r matches Err(e) ==> targets_of(raw@) matches Err(f) && f == e@,
{
    let mut out: Vec<RemoteTarget> = Vec::new();
    let mut i: usize = 0;
    assert(target_views(out@) =~= Seq::empty());
    while i < raw.len()
        invariant
            i <= raw@.len(),
            targets_of(raw@.take(i as int)) matches Ok(w) && w == target_views(out@),
        decreases raw@.len() - i,
    {
        assert(raw@.take(i + 1).drop_last() =~= raw@.take(i as int));
        match read_target(&out, &raw[i]) {
            Ok(t) => {
                let ghost list = out@;
                out.push(t);
                assert(target_views(out@) =~= target_views(list).push(t@));
            },
            Err(e) => {
                proof {
                    lemma_targets_stop(raw@, i + 1);
                }
                return Err(e);
            },
        }
        i = i + 1;
    }
    assert(raw@.take(i as int) =~= raw@);
    Ok(out)
}

proof fn lemma_targets_stop(raw: Seq<RawTarget>, i: int)
    requires
        0 <= i <= raw.len(),
        targets_of(raw.take(i)) is Err,
    ensures
        targets_of(raw) == targets_of(raw.take(i)),
    decreases raw.len() - i,
{
    if i < raw.len() {
        assert(raw.take(i + 1).drop_last() =~= raw.take(i));
        lemma_targets_stop(raw, i + 1);
    } else {
        assert(raw.take(i) =~= raw);
    }
}

/// The palette's colors, or the first text that is none.
fn read_palette(raw: &Vec<String>) -> (r: Result<Vec<Rgb>, String>)
    ensures
        r matches Ok(v) ==> palette_of(text::texts(raw@)) matches Ok(w) && w == v@,
        r matches Err(e) ==> palette_of(text::texts(raw@)) matches Err(f) && f == e@,
{
    let mut out: Vec<Rgb> = Vec::new();
    let ghost list = text::texts(raw@);
    let mut i: usize = 0;
    assert(out@ =~= Seq::empty());
    while i < raw.len()
        invariant
            i <= raw@.len(),
            list == text::texts(raw@),
            palette_of(list.take(i as int)) matches Ok(w) && w == out@,
        decreases raw@.len() - i,
    {
        assert(list.take(i + 1).drop_last() =~= list.take(i as int));
        match Rgb::parse(raw[i].as_str()) {
            Ok(c) => {
                out.push(c);
            },
            Err(e) => {
                proof {
                    lemma_palette_stop(list, i + 1);
                }
                return Err(e.text);
            },
        }
        i = i + 1;
    }
    assert(list.take(i as int) =~= list);
    Ok(out)
}

proof fn lemma_palette_stop(raw: Seq<Seq<char>>, i: int)
    requires
        0 <= i <= raw.len(),
        palette_of(raw.take(i)) is Err,
    ensures
        palette_of(raw) == palette_of(raw.take(i)),
    decreases raw.len() - i,
{
    if i < raw.len() {
        assert(raw.take(i + 1).drop_last() =~= raw.take(i));
        lemma_palette_stop(raw, i + 1);
    } else {
        assert(raw.take(i) =~= raw);
    }
}

/// A brightness as a percentage.
fn to_percent(b: u8) -> (r: u8)
    ensures
        r == percent(b),
{
    if b > 100 {
        100
    } else {
        b
    }
}

/// The lighting overrides of a list of targets.
fn slot_lights(targets: &[RemoteTarget]) -> (r: BTreeMap<u8, SlotLight>)
    ensures
        r@ == slots_of(target_views(targets@)),
{
    let mut out: BTreeMap<u8, SlotLight> = BTreeMap::new();
    let ghost views = target_views(targets@);
    let mut i: usize = 0;
    assert(out@ =~= Map::empty());
    while i < targets.len()
        invariant
            i <= targets@.len(),
            views == target_views(targets@),
            out@ == slots_of(views.take(i as int)),
        decreases targets@.len() - i,
    {
        assert(views.take(i + 1).drop_last() =~= views.take(i as int));
        let t = &targets[i];
        let brightness = match t.brightness {
            Some(b) => Some(to_percent(b)),
            None => None,
        };
        out.insert(t.slot, SlotLight { color: t.color, brightness });
        assert(views[i as int] == targets@[i as int]@);
        i = i + 1;
    }
    assert(views.take(i as int) =~= views);
    out
}

impl RgbSettings {
    /// No lighting.
    pub fn disabled() -> (r: Self)
        ensures
            r@ == lighting_off(),
            r@.wf(),
    {
        let r = RgbSettings {
            enabled: false,
            server: default_rgb_server(),
            brightness: default_brightness(),
            local_color: Rgb::off(),
            pairing_color: Rgb::off(),
            bound_color: Rgb::off(),
            idle_timeout: None,
            palette: Vec::new(),
            slots: BTreeMap::new(),
        };
        assert(r@ =~= lighting_off());
        r
    }

    /// The lighting an `[rgb]` table asks for.
    pub fn parse(raw: &RawRgb, targets: &[RemoteTarget]) -> (r: Result<Self, ConfigError>)
        ensures
            r matches Ok(v) ==> (rgb_of(*raw, target_views(targets@)) matches Ok(w) && w == v@)
                && v@.wf(),
            r matches Err(e) ==> rgb_of(*raw, target_views(targets@)) matches Err(f) && f == e@,
    {
        if raw.palette.len() == 0 {
            return Err(ConfigError::EmptyPalette);
        }
        let palette = match read_palette(&raw.palette) {
            Ok(p) => p,
            Err(color) => {
                return Err(ConfigError::RgbColor { field: RgbField::Palette, color });
            },
        };
        let local_color = match Rgb::parse(raw.local_color.as_str()) {
            Ok(c) => c,
            Err(e) => {
                return Err(ConfigError::RgbColor { field: RgbField::LocalColor, color: e.text });
            },
        };
        let pairing_color = match Rgb::parse(raw.pairing_color.as_str()) {
            Ok(c) => c,
            Err(e) => {
                return Err(ConfigError::RgbColor { field: RgbField::PairingColor, color: e.text });
            },
        };
        let bound_color = match Rgb::parse(raw.bound_color.as_str()) {
            Ok(c) => c,
            Err(e) => {
                return Err(ConfigError::RgbColor { field: RgbField::BoundColor, color: e.text });
            },
        };
        // 0 is the documented "never blank" switch, not a zero-length
        // timeout that would fade out the instant you stop typing.
        let idle_timeout = if raw.idle_timeout_secs > 0 {
            Some(Duration::from_secs(raw.idle_timeout_secs))
        } else {
            None
        };
        let slots = slot_lights(targets);
        proof {
            lemma_slot_percent(target_views(targets@));
        }
        Ok(
            RgbSettings {
                enabled: raw.enabled,
                server: raw.server.clone(),
                brightness: to_percent(raw.brightness),
                local_color,
                pairing_color,
                bound_color,
                idle_timeout,
                palette,
                slots,
            },
        )
    }

    pub fn slot_color(&self, slot: u8) -> (r: Rgb)
        ensures
            r == self@.color_of(slot),
    {
        if slot == LOCAL_SLOT {
            return self.local_color;
        }
        if let Some(light) = self.slots.get(&slot) {
            if let Some(color) = light.color {
                return color;
            }
        }
        if self.palette.len() == 0 {
            return self.local_color;
        }
        // Slot 2 takes the first palette entry, and it wraps from there.
        let turn: usize = if slot < 2 {
            0
        } else {
            (slot - 2) as usize
        };
        self.palette[turn % self.palette.len()]
    }

    pub fn slot_brightness(&self, slot: u8) -> (r: u8)
        ensures
            r == self@.brightness_of(slot),
    {
        if let Some(light) = self.slots.get(&slot) {
            if let Some(brightness) = light.brightness {
                return brightness;
            }
        }
        self.brightness
    }
}

proof fn lemma_slot_percent(targets: Seq<TargetView>)
    ensures
        forall|slot: u8| #[trigger]
            slots_of(targets).contains_key(slot) ==> (slots_of(targets)[slot].brightness matches Some(
                b,
            ) ==> b <= 100),
    decreases targets.len(),
{
    if targets.len() > 0 {
        lemma_slot_percent(targets.drop_last());
    }
}

/// How a hook is called in log lines.
fn read_hook_label(h: &RawHook) -> (r: String)
    ensures
        r@ == hook_label(*h),
{
    match &h.name {
        Some(name) => name.clone(),
        None => {
            let mut label = String::new();
            let number = text::decimal_of(h.slot as u64);
            label.append("slot ");
            label.append(number.as_str());
            assert(label@ =~= hook_label(*h));
            label
        },
    }
}

/// One hook entry.
fn read_hook(h: &RawHook) -> (r: Result<Hook, ConfigError>)
    ensures
        r matches Ok(v) ==> hook_of(*h) matches Ok(w) && w == v@,
        r matches Err(e) ==> hook_of(*h) matches Err(f) && f == e@,
{
    let label = read_hook_label(h);
    if h.slot < LOCAL_SLOT || h.slot > MAX_SLOT {
        return Err(ConfigError::HookSlot { label });
    }
    match resolve_run(RunOwner::Hook, label.as_str(), &h.run, h.timeout_secs) {
        Ok((command, timeout)) => Ok(Hook { slot: h.slot, label, command, timeout }),
        Err(e) => Err(e),
    }
}

/// All hook entries in order.
fn read_hooks(raw: &Vec<RawHook>) -> (r: Result<Vec<Hook>, ConfigError>)
    ensures
        r matches Ok(v) ==> hooks_of(raw@) matches Ok(w) && w == hook_views(v@),
        r matches Err(e) ==> hooks_of(raw@) matches Err(f) && f == e@,
{
    let mut out: Vec<Hook> = Vec::new();
    let mut i: usize = 0;
    assert(hook_views(out@) =~= Seq::empty());
    while i < raw.len()
        invariant
            i <= raw@.len(),
            hooks_of(raw@.take(i as int)) matches Ok(w) && w == hook_views(out@),
        decreases raw@.len() - i,
    {
        assert(raw@.take(i + 1).drop_last() =~= raw@.take(i as int));
        match read_hook(&raw[i]) {
            Ok(h) => {
                let ghost list = out@;
                out.push(h);
                assert(hook_views(out@) =~= hook_views(list).push(h@));
            },
            Err(e) => {
                proof {
                    lemma_hooks_stop(raw@, i + 1);
                }
                return Err(e);
            },
        }
        i = i + 1;
    }
    assert(raw@.take(i as int) =~= raw@);
    Ok(out)
}

proof fn lemma_hooks_stop(raw: Seq<RawHook>, i: int)
    requires
        0 <= i <= raw.len(),
        hooks_of(raw.take(i)) is Err,
    ensures
        hooks_of(raw) == hooks_of(raw.take(i)),
    decreases raw.len() - i,
{
    if i < raw.len() {
        assert(raw.take(i + 1).drop_last() =~= raw.take(i));
        lemma_hooks_stop(raw, i + 1);
    } else {
        assert(raw.take(i) =~= raw);
    }
}

/// The first macro bound to a combo.
fn find_bound(list: &Vec<Macro>, combo: KeyCombo) -> (r: Option<usize>)
    ensures
        r matches Some(i) ==> i < list@.len() && macro_bound(macro_views(list@), combo) == Some(
            i as int,
        ),
        r is None ==> macro_bound(macro_views(list@), combo) is None,
{
    let ghost views = macro_views(list@);
    let mut i: usize = 0;
    while i < list.len()
        invariant
            i <= list@.len(),
            views == macro_views(list@),
            macro_bound(views.take(i as int), combo) is None,
        decreases list@.len() - i,
    {
        assert(views.take(i + 1).drop_last() =~= views.take(i as int));
        assert(views[i as int] == list@[i as int]@);
        if list[i].combo == combo {
            proof {
                lemma_bound_stays(views, combo, i + 1);
            }
            return Some(i);
        }
        i = i + 1;
    }
    assert(views.take(i as int) =~= views);
    None
}

proof fn lemma_bound_stays(list: Seq<MacroView>, combo: KeyCombo, i: int)
    requires
        0 <= i <= list.len(),
        macro_bound(list.take(i), combo) is Some,
    ensures
        macro_bound(list, combo) == macro_bound(list.take(i), combo),
    decreases list.len() - i,
{
    if i < list.len() {
        assert(list.take(i + 1).drop_last() =~= list.take(i));
        lemma_bound_stays(list, combo, i + 1);
    } else {
        assert(list.take(i) =~= list);
    }
}

/// One macro entry, after the macros read before it.
fn read_macro(before: &Vec<Macro>, m: &RawMacro) -> (r: Result<Macro, ConfigError>)
    ensures
        r matches Ok(v) ==> macro_of(macro_views(before@), *m) matches Ok(w) && w == v@,
        r matches Err(e) ==> macro_of(macro_views(before@), *m) matches Err(f) && f == e@,
        r matches Ok(v) ==> v.combo.writable(),
{
    let combo = match KeyCombo::from_str(m.keys.as_str()) {
        Ok(combo) => combo,
        Err(error) => {
            let name = match &m.name {
                Some(name) => name.clone(),
                None => m.keys.clone(),
            };
            return Err(ConfigError::MacroKeys { name, error });
        },
    };
    let label = match &m.name {
        Some(name) => name.clone(),
        None => combo.to_string(),
    };
    if combo.is_reserved() {
        return Err(ConfigError::MacroReserved { label, combo });
    }
    if let Some(i) = find_bound(before, combo) {
        assert(macro_views(before@)[i as int] == before@[i as int]@);
        return Err(ConfigError::MacroDuplicate { label, combo, other: before[i].label.clone() });
    }
    match resolve_run(RunOwner::Macro, label.as_str(), &m.run, m.timeout_secs) {
        Ok((command, timeout)) => Ok(Macro { combo, label, command, timeout }),
        Err(e) => Err(e),
    }
}

/// All macro entries in order.
fn read_macros(raw: &Vec<RawMacro>) -> (r: Result<Vec<Macro>, ConfigError>)
    ensures
        r matches Ok(v) ==> macros_of(raw@) matches Ok(w) && w == macro_views(v@),
        r matches Err(e) ==> macros_of(raw@) matches Err(f) && f == e@,
        r matches Ok(v) ==> forall|i: int|
            0 <= i < v@.len() ==> (#[trigger] v@[i]).combo.writable(),
{
    let mut out: Vec<Macro> = Vec::new();
    let mut i: usize = 0;
    assert(macro_views(out@) =~= Seq::empty());
    while i < raw.len()
        invariant
            i <= raw@.len(),
            macros_of(raw@.take(i as int)) matches Ok(w) && w == macro_views(out@),
            forall|j: int| 0 <= j < out@.len() ==> (#[trigger] out@[j]).combo.writable(),
        decreases raw@.len() - i,
    {
        assert(raw@.take(i + 1).drop_last() =~= raw@.take(i as int));
        match read_macro(&out, &raw[i]) {
            Ok(m) => {
                let ghost list = out@;
                out.push(m);
                assert(macro_views(out@) =~= macro_views(list).push(m@));
            },
            Err(e) => {
                proof {
                    lemma_macros_stop(raw@, i + 1);
                }
                return Err(e);
            },
        }
        i = i + 1;
    }
    assert(raw@.take(i as int) =~= raw@);
    Ok(out)
}

proof fn lemma_macros_stop(raw: Seq<RawMacro>, i: int)
    requires
        0 <= i <= raw.len(),
        macros_of(raw.take(i)) is Err,
    ensures
        macros_of(raw) == macros_of(raw.take(i)),
    decreases raw.len() - i,
{
    if i < raw.len() {
        assert(raw.take(i + 1).drop_last() =~= raw.take(i));
        lemma_macros_stop(raw, i + 1);
    } else {
        assert(raw.take(i) =~= raw);
    }
}

impl SettingsView {
    /// What all settings satisfy: target slots are remote, in range and
    /// distinct; hook slots are in range; macro combos are distinct, can be
    /// written down and switch no slot; every command has something to run and
    /// a timeout of 1 to 300 seconds; the mouse rate fits the link.
    pub open spec fn wf(self) -> bool {
        &&& forall|i: int|
            0 <= i < self.targets.len() ==> LOCAL_SLOT < (#[trigger] self.targets[i]).slot
                <= MAX_SLOT
        &&& forall|i: int, j: int|
            0 <= i < j < self.targets.len() ==> (#[trigger] self.targets[i]).slot != (
            #[trigger] self.targets[j]).slot
        &&& forall|i: int| 0 <= i < self.hooks.len() ==> hook_wf(#[trigger] self.hooks[i])
        &&& forall|i: int| 0 <= i < self.macros.len() ==> macro_wf(#[trigger] self.macros[i])
        &&& forall|i: int|
            0 <= i < self.macros.len() ==> (#[trigger] self.macros[i]).combo.writable()
        &&& forall|i: int, j: int|
            0 <= i < j < self.macros.len() ==> (#[trigger] self.macros[i]).combo != (
            #[trigger] self.macros[j]).combo
        &&& 20 <= self.mouse_rate_hz <= 1000
        &&& self.rgb.wf()
    }
}

/// A timeout of 1 to 300 seconds.
pub open spec fn timeout_wf(d: Duration) -> bool {
    1_000_000_000 <= d.nanos <= 300_000_000_000
}

pub open spec fn hook_wf(h: HookView) -> bool {
    LOCAL_SLOT <= h.slot <= MAX_SLOT && h.command.runnable() && timeout_wf(h.timeout)
}

pub open spec fn macro_wf(m: MacroView) -> bool {
    !m.combo.reserved() && m.command.runnable() && timeout_wf(m.timeout)
}

impl Settings {
    /// The settings a configuration means.
    pub fn parse(raw: &RawConfig) -> (r: Result<Self, ConfigError>)
        ensures
            r matches Ok(v) ==> settings_of(*raw) == Ok::<SettingsView, ConfigFault>(v@),
            r matches Err(e) ==> settings_of(*raw) == Err::<SettingsView, ConfigFault>(e@),
            r matches Ok(v) ==> v@.wf(),
    {
        let targets = read_targets(&raw.targets)?;
        let rgb = match &raw.rgb {
            Some(rgb) => RgbSettings::parse(rgb, targets.as_slice())?,
            None => RgbSettings::disabled(),
        };
        let hooks = read_hooks(&raw.hooks)?;
        let macros = read_macros(&raw.macros)?;
        let devices = match &raw.devices {
            Some(list) => Some(text::copy_texts(list)),
            None => None,
        };
        let mouse_rate_hz: u32 = if raw.mouse_rate_hz < 20 {
            20
        } else if raw.mouse_rate_hz > 1000 {
            1000
        } else {
            raw.mouse_rate_hz
        };
        proof {
            lemma_targets_wf(raw.targets@);
            lemma_hooks_wf(raw.hooks@);
            lemma_macros_wf(raw.macros@);
            let views = macro_views(macros@);
            assert forall|i: int| 0 <= i < views.len() implies (
            #[trigger] views[i]).combo.writable() by {
                assert(views[i] == macros@[i]@);
            }
        }
        Ok(
            Settings {
                adapter_alias: raw.adapter_alias.clone(),
                devices,
                mouse_rate_hz,
                connections: raw.connections,
                rgb,
                targets,
                hooks,
                macros,
            },
        )
    }

    /// The configured target of a slot.
    pub fn target_for_slot(&self, slot: u8) -> (r: Option<&RemoteTarget>)
        ensures
            r matches Some(t) ==> t.slot == slot && exists|i: int|
                0 <= i < self.targets@.len() && #[trigger] self.targets@[i] == *t && forall|j: int|
                    0 <= j < i ==> (#[trigger] self.targets@[j]).slot != slot,
            r is None ==> forall|i: int|
                0 <= i < self.targets@.len() ==> (#[trigger] self.targets@[i]).slot != slot,
    {
        let mut i: usize = 0;
        while i < self.targets.len()
            invariant
                i <= self.targets@.len(),
                forall|j: int| 0 <= j < i ==> (#[trigger] self.targets@[j]).slot != slot,
            decreases self.targets@.len() - i,
        {
            if self.targets[i].slot == slot {
                return Some(&self.targets[i]);
            }
            i = i + 1;
        }
        None
    }
}

/// Read targets have distinct remote slots.
pub proof fn lemma_targets_wf(raw: Seq<RawTarget>)
    ensures
        targets_of(raw) matches Ok(list) ==> {
            &&& forall|i: int|
                0 <= i < list.len() ==> LOCAL_SLOT < (#[trigger] list[i]).slot <= MAX_SLOT
            &&& forall|i: int, j: int|
                0 <= i < j < list.len() ==> (#[trigger] list[i]).slot != (#[trigger] list[j]).slot
        },
    decreases raw.len(),
{
    if raw.len() > 0 {
        lemma_targets_wf(raw.drop_last());
    }
}

/// Read hooks are runnable, on slots that exist.
pub proof fn lemma_hooks_wf(raw: Seq<RawHook>)
    ensures
        hooks_of(raw) matches Ok(list) ==> forall|i: int|
            0 <= i < list.len() ==> hook_wf(#[trigger] list[i]),
    decreases raw.len(),
{
    if raw.len() > 0 {
        lemma_hooks_wf(raw.drop_last());
    }
}

proof fn lemma_bound_exact(list: Seq<MacroView>, combo: KeyCombo)
    ensures
        match macro_bound(list, combo) {
            Some(i) => 0 <= i < list.len() && list[i].combo == combo,
            None => forall|i: int| 0 <= i < list.len() ==> (#[trigger] list[i]).combo != combo,
        },
    decreases list.len(),
{
    if list.len() > 0 {
        lemma_bound_exact(list.drop_last(), combo);
        assert forall|i: int| 0 <= i < list.len() - 1 implies list[i] == list.drop_last()[i] by {}
    }
}

/// Read macros are runnable, distinct and switch no slot.
pub proof fn lemma_macros_wf(raw: Seq<RawMacro>)
    ensures
        macros_of(raw) matches Ok(list) ==> {
            &&& forall|i: int| 0 <= i < list.len() ==> macro_wf(#[trigger] list[i])
            &&& forall|i: int, j: int|
                0 <= i < j < list.len() ==> (#[trigger] list[i]).combo != (#[trigger] list[j]).combo
        },
    decreases raw.len(),
{
    if raw.len() > 0 {
        lemma_macros_wf(raw.drop_last());
        if let Ok(before) = macros_of(raw.drop_last()) {
            if let Ok(m) = macro_of(before, raw.last()) {
                lemma_bound_exact(before, m.combo);
                let list = before.push(m);
                assert forall|i: int, j: int| 0 <= i < j < list.len() implies (#[trigger] list[i]).combo
                    != (#[trigger] list[j]).combo by {
                    assert(list[i] == before[i]);
                    if j < before.len() {
                        assert(list[j] == before[j]);
                    }
                }
            }
        }
    }
}

// ---------------------------------------------------------------------------
// Laws
// ---------------------------------------------------------------------------

/// A slot's own color wins; the hub's color is the local slot's alone; without
/// an override the palette takes turns from slot 2 on.
pub proof fn law_slot_colors(rgb: RgbView, slot: u8)
    requires
        LOCAL_SLOT < slot <= MAX_SLOT,
    ensures
        rgb.color_of(LOCAL_SLOT) == rgb.local_color,
        rgb.slots.contains_key(slot) && rgb.slots[slot].color is Some ==> rgb.color_of(slot)
            == rgb.slots[slot].color->0,
        !rgb.slots.contains_key(slot) && rgb.palette.len() > 0 ==> rgb.color_of(slot)
            == rgb.palette[(slot - 2) % (rgb.palette.len() as int)],
{
}

/// The lighting of a parsed configuration looks a target's slot up in that
/// target alone.
pub proof fn law_target_lighting(targets: Seq<TargetView>, i: int)
    requires
        0 <= i < targets.len(),
        forall|j: int, k: int|
            0 <= j < k < targets.len() ==> (#[trigger] targets[j]).slot != (
            #[trigger] targets[k]).slot,
    ensures
        slots_of(targets).contains_key(targets[i].slot),
        slots_of(targets)[targets[i].slot] == light_of(targets[i]),
    decreases targets.len(),
{
    if i < targets.len() - 1 {
        assert forall|j: int, k: int| 0 <= j < k < targets.len() - 1 implies (
        #[trigger] targets.drop_last()[j]).slot != (#[trigger] targets.drop_last()[k]).slot by {
            assert(targets[j].slot != targets[k].slot);
        }
        law_target_lighting(targets.drop_last(), i);
        assert(targets[i].slot != targets[targets.len() - 1].slot);
    }
}

/// A slot that no target names has no lighting of its own.
pub proof fn law_untargeted_slot(targets: Seq<TargetView>, slot: u8)
    requires
        forall|j: int| 0 <= j < targets.len() ==> (#[trigger] targets[j]).slot != slot,
    ensures
        !slots_of(targets).contains_key(slot),
    decreases targets.len(),
{
    if targets.len() > 0 {
        assert forall|j: int| 0 <= j < targets.len() - 1 implies (
        #[trigger] targets.drop_last()[j]).slot != slot by {
            assert(targets[j].slot != slot);
        }
        law_untargeted_slot(targets.drop_last(), slot);
        assert(targets[targets.len() - 1].slot != slot);
    }
}

/// Lighting is off unless the configuration has an `[rgb]` table.
pub proof fn law_lighting_needs_a_table(raw: RawConfig)
    requires
        raw.rgb is None,
    ensures
        settings_of(raw) matches Ok(s) ==> !s.rgb.enabled,
{
}

/// The slots there are, and what bounds a command's time and the mouse's rate.
pub proof fn law_bounds(secs: u64, hz: u32, b: u8)
    ensures
        LOCAL_SLOT == 1,
        MAX_SLOT == 12,
        secs < 1 ==> clamped_timeout(secs).nanos == 1_000_000_000,
        1 <= secs <= 300 ==> clamped_timeout(secs).nanos == secs * 1_000_000_000,
        secs > 300 ==> clamped_timeout(secs).nanos == 300_000_000_000,
        hz < 20 ==> clamped_rate(hz) == 20,
        20 <= hz <= 1000 ==> clamped_rate(hz) == hz,
        hz > 1000 ==> clamped_rate(hz) == 1000,
        b <= 100 ==> percent(b) == b,
        b > 100 ==> percent(b) == 100,
{
}

/// A target entry is taken as it stands if its slot is 2 to 12 and not taken
/// yet, its address is none or a good one, and its color is none or a good
/// one; otherwise the first of these that fails is what is wrong with it.
pub proof fn law_target_entries(before: Seq<TargetView>, t: RawTarget)
    ensures
        ({
            let r = target_of(before, t);
            let in_range = 2 <= t.slot <= 12;
            let taken = exists|i: int|
                0 <= i < before.len() && (#[trigger] before[i]).slot == t.slot;
            let bad_mac = t.mac is Some && addr::parsed_address((t.mac->0)@) is Err;
            let bad_color = t.color is Some && proto::parsed_color((t.color->0)@) is None;
            &&& !in_range ==> r == Err::<TargetView, ConfigFault>(
                ConfigFault::TargetSlot { name: t.name@ },
            )
            &&& in_range && taken ==> r == Err::<TargetView, ConfigFault>(
                ConfigFault::DuplicateSlot { slot: t.slot },
            )
            &&& in_range && !taken && bad_mac ==> r == Err::<TargetView, ConfigFault>(
                ConfigFault::TargetMac {
                    name: t.name@,
                    mac: (t.mac->0)@,
                    part: addr::parsed_address((t.mac->0)@)->Err_0,
                },
            )
            &&& in_range && !taken && !bad_mac && bad_color ==> r == Err::<TargetView, ConfigFault>(
                ConfigFault::TargetColor { name: t.name@, color: (t.color->0)@ },
            )
            &&& r is Ok <==> in_range && !taken && !bad_mac && !bad_color
            &&& r is Ok ==> (r->Ok_0).name == t.name@ && (r->Ok_0).slot == t.slot && (
            r->Ok_0).brightness == t.brightness && (t.mac is None ==> (r->Ok_0).addr is None) && (
            t.color is None ==> (r->Ok_0).color is None) && (t.mac is Some ==> (r->Ok_0).addr
                == Some(addr::parsed_address((t.mac->0)@)->Ok_0)) && (t.color is Some ==> (
            r->Ok_0).color == proto::parsed_color((t.color->0)@))
        }),
{
}

/// Entries are read one for one and in order, each after those before it; the
/// first that is wrong is what is wrong with the list.
pub proof fn law_target_list(raw: Seq<RawTarget>)
    ensures
        targets_of(raw) is Ok ==> (targets_of(raw)->Ok_0).len() == raw.len() && (forall|i: int|
            0 <= i < raw.len() ==> target_of((targets_of(raw)->Ok_0).take(i), #[trigger] raw[i])
                == Ok::<TargetView, ConfigFault>((targets_of(raw)->Ok_0)[i])),
        targets_of(raw) is Err ==> exists|i: int|
            0 <= i < raw.len() && targets_of(raw.take(i)) is Ok && target_of(
                targets_of(raw.take(i))->Ok_0,
                #[trigger] raw[i],
            ) == Err::<TargetView, ConfigFault>(targets_of(raw)->Err_0),
    decreases raw.len(),
{
    if raw.len() > 0 {
        let init = raw.drop_last();
        let last = raw.len() - 1;
        law_target_list(init);
        assert(raw[last] == raw.last());
        assert(raw.take(last) =~= init);
        match targets_of(init) {
            Ok(before) => {
                if targets_of(raw) is Ok {
                    let all = targets_of(raw)->Ok_0;
                    assert forall|i: int| 0 <= i < raw.len() implies target_of(
                        all.take(i),
                        #[trigger] raw[i],
                    ) == Ok::<TargetView, ConfigFault>(all[i]) by {
                        if i < last {
                            assert(init[i] == raw[i]);
                            assert(all.take(i) =~= before.take(i));
                        } else {
                            assert(all.take(i) =~= before);
                        }
                    }
                }
            },
            Err(e) => {
                let i = choose|i: int|
                    0 <= i < init.len() && targets_of(init.take(i)) is Ok && target_of(
                        targets_of(init.take(i))->Ok_0,
                        #[trigger] init[i],
                    ) == Err::<TargetView, ConfigFault>(e);
                assert(init.take(i) =~= raw.take(i));
                assert(raw[i] == init[i]);
            },
        }
    }
}

/// A palette is its texts read one for one and in order; the first that is no
/// color is what is wrong with it.
pub proof fn law_palette_list(raw: Seq<Seq<char>>)
    ensures
        palette_of(raw) is Ok ==> (palette_of(raw)->Ok_0).len() == raw.len() && (forall|i: int|
            0 <= i < raw.len() ==> proto::parsed_color(#[trigger] raw[i]) == Some(
                (palette_of(raw)->Ok_0)[i],
            )),
        palette_of(raw) is Err ==> exists|i: int|
            0 <= i < raw.len() && palette_of(raw.take(i)) is Ok && proto::parsed_color(
                #[trigger] raw[i],
            ) is None && palette_of(raw)->Err_0 == raw[i],
    decreases raw.len(),
{
    if raw.len() > 0 {
        let init = raw.drop_last();
        let last = raw.len() - 1;
        law_palette_list(init);
        assert(raw[last] == raw.last());
        assert(raw.take(last) =~= init);
        match palette_of(init) {
            Ok(before) => {
                if palette_of(raw) is Ok {
                    assert forall|i: int| 0 <= i < raw.len() implies proto::parsed_color(
                        #[trigger] raw[i],
                    ) == Some((palette_of(raw)->Ok_0)[i]) by {
                        if i < last {
                            assert(init[i] == raw[i]);
                        }
                    }
                }
            },
            Err(e) => {
                let i = choose|i: int|
                    0 <= i < init.len() && palette_of(init.take(i)) is Ok && proto::parsed_color(
                        #[trigger] init[i],
                    ) is None && e == init[i];
                assert(init.take(i) =~= raw.take(i));
                assert(raw[i] == init[i]);
            },
        }
    }
}

/// A command is worth running when its shell line is not blank, or its program
/// has a name.
pub proof fn law_runnable_commands(run: RawRun)
    ensures
        run is Shell ==> (raw_command(run).runnable() <==> text::trim((run->Shell_0)@).len() > 0)
            && raw_command(run) == CommandView::Shell((run->Shell_0)@),
        run is Argv ==> (raw_command(run).runnable() <==> (run->Argv_0)@.len() > 0 && (
        run->Argv_0)@[0]@.len() > 0) && raw_command(run) == CommandView::Argv(
            text::texts((run->Argv_0)@),
        ),
{
    if run is Shell {
        text::law_blank_trims_to_nothing((run->Shell_0)@);
    }
}

/// A hook entry is taken if its slot is 1 to 12 and there is something to run;
/// it is called what it says, or after its slot.
pub proof fn law_hook_entries(h: RawHook)
    ensures
        ({
            let r = hook_of(h);
            let label = if h.name is Some {
                (h.name->0)@
            } else {
                "slot "@ + text::decimal(h.slot as nat)
            };
            let in_range = 1 <= h.slot <= 12;
            &&& !in_range ==> r == Err::<HookView, ConfigFault>(ConfigFault::HookSlot { label })
            &&& in_range && !raw_command(h.run).runnable() ==> r == Err::<HookView, ConfigFault>(
                ConfigFault::EmptyRun { owner: RunOwner::Hook, label },
            )
            &&& r is Ok <==> in_range && raw_command(h.run).runnable()
            &&& r is Ok ==> (r->Ok_0).slot == h.slot && (r->Ok_0).label == label && (r->Ok_0).command
                == raw_command(h.run) && (r->Ok_0).timeout == clamped_timeout(h.timeout_secs)
        }),
{
}

/// Hooks are read one for one and in order; the first that is wrong is what is
/// wrong with the list.
pub proof fn law_hook_list(raw: Seq<RawHook>)
    ensures
        hooks_of(raw) is Ok ==> (hooks_of(raw)->Ok_0).len() == raw.len() && (forall|i: int|
            0 <= i < raw.len() ==> hook_of(#[trigger] raw[i]) == Ok::<HookView, ConfigFault>(
                (hooks_of(raw)->Ok_0)[i],
            )),
        hooks_of(raw) is Err ==> exists|i: int|
            0 <= i < raw.len() && hooks_of(raw.take(i)) is Ok && hook_of(#[trigger] raw[i]) == Err::<
                HookView,
                ConfigFault,
            >(hooks_of(raw)->Err_0),
    decreases raw.len(),
{
    if raw.len() > 0 {
        let init = raw.drop_last();
        let last = raw.len() - 1;
        law_hook_list(init);
        assert(raw[last] == raw.last());
        assert(raw.take(last) =~= init);
        match hooks_of(init) {
            Ok(before) => {
                if hooks_of(raw) is Ok {
                    assert forall|i: int| 0 <= i < raw.len() implies hook_of(#[trigger] raw[i])
                        == Ok::<HookView, ConfigFault>((hooks_of(raw)->Ok_0)[i]) by {
                        if i < last {
                            assert(init[i] == raw[i]);
                        }
                    }
                }
            },
            Err(e) => {
                let i = choose|i: int|
                    0 <= i < init.len() && hooks_of(init.take(i)) is Ok && hook_of(
                        #[trigger] init[i],
                    ) == Err::<HookView, ConfigFault>(e);
                assert(init.take(i) =~= raw.take(i));
                assert(raw[i] == init[i]);
            },
        }
    }
}

/// A macro entry is taken if its keys are a combo that switches no slot and no
/// macro before it has, and there is something to run; it is called what it
/// says, or after its combo.
pub proof fn law_macro_entries(before: Seq<MacroView>, m: RawMacro)
    ensures
        ({
            let r = macro_of(before, m);
            let read = keys::parsed_combo(m.keys@);
            let combo = read->Ok_0;
            let label = if m.name is Some {
                (m.name->0)@
            } else {
                combo.spelling()
            };
            let taken = exists|i: int| 0 <= i < before.len() && (#[trigger] before[i]).combo == combo;
            &&& read is Err ==> r == Err::<MacroView, ConfigFault>(
                ConfigFault::MacroKeys {
                    name: if m.name is Some {
                        (m.name->0)@
                    } else {
                        m.keys@
                    },
                    error: read->Err_0,
                },
            )
            &&& read is Ok && combo.reserved() ==> r == Err::<MacroView, ConfigFault>(
                ConfigFault::MacroReserved { label, combo },
            )
            &&& read is Ok && !combo.reserved() && taken ==> r is Err && r->Err_0 is MacroDuplicate
            &&& read is Ok && !combo.reserved() && !taken && !raw_command(m.run).runnable() ==> r
                == Err::<MacroView, ConfigFault>(
                ConfigFault::EmptyRun { owner: RunOwner::Macro, label },
            )
            &&& r is Ok <==> read is Ok && !combo.reserved() && !taken && raw_command(
                m.run,
            ).runnable()
            &&& r is Ok ==> (r->Ok_0).combo == combo && (r->Ok_0).label == label && (
            r->Ok_0).command == raw_command(m.run) && (r->Ok_0).timeout == clamped_timeout(
                m.timeout_secs,
            )
        }),
{
    if let Ok(combo) = keys::parsed_combo(m.keys@) {
        lemma_bound_exact(before, combo);
        if let Some(i) = macro_bound(before, combo) {
            assert(before[i].combo == combo);
        }
    }
}

/// Macros are read one for one and in order, each after those before it; the
/// first that is wrong is what is wrong with the list.
pub proof fn law_macro_list(raw: Seq<RawMacro>)
    ensures
        macros_of(raw) is Ok ==> (macros_of(raw)->Ok_0).len() == raw.len() && (forall|i: int|
            0 <= i < raw.len() ==> macro_of((macros_of(raw)->Ok_0).take(i), #[trigger] raw[i])
                == Ok::<MacroView, ConfigFault>((macros_of(raw)->Ok_0)[i])),
        macros_of(raw) is Err ==> exists|i: int|
            0 <= i < raw.len() && macros_of(raw.take(i)) is Ok && macro_of(
                macros_of(raw.take(i))->Ok_0,
                #[trigger] raw[i],
            ) == Err::<MacroView, ConfigFault>(macros_of(raw)->Err_0),
    decreases raw.len(),
{
    if raw.len() > 0 {
        let init = raw.drop_last();
        let last = raw.len() - 1;
        law_macro_list(init);
        assert(raw[last] == raw.last());
        assert(raw.take(last) =~= init);
        match macros_of(init) {
            Ok(before) => {
                if macros_of(raw) is Ok {
                    let all = macros_of(raw)->Ok_0;
                    assert forall|i: int| 0 <= i < raw.len() implies macro_of(
                        all.take(i),
                        #[trigger] raw[i],
                    ) == Ok::<MacroView, ConfigFault>(all[i]) by {
                        if i < last {
                            assert(init[i] == raw[i]);
                            assert(all.take(i) =~= before.take(i));
                        } else {
                            assert(all.take(i) =~= before);
                        }
                    }
                }
            },
            Err(e) => {
                let i = choose|i: int|
                    0 <= i < init.len() && macros_of(init.take(i)) is Ok && macro_of(
                        macros_of(init.take(i))->Ok_0,
                        #[trigger] init[i],
                    ) == Err::<MacroView, ConfigFault>(e);
                assert(init.take(i) =~= raw.take(i));
                assert(raw[i] == init[i]);
            },
        }
    }
}

/// The lighting a table asks for: its colors read, its brightness cut to a
/// percentage, blanking after its seconds unless these are zero. Without a
/// palette or with a text that is no color it is refused, in the order
/// palette, local, pairing, bound.
pub proof fn law_lighting_entries(raw: RawRgb, targets: Seq<TargetView>)
    ensures
        ({
            let r = rgb_of(raw, targets);
            let palette = palette_of(text::texts(raw.palette@));
            let local = proto::parsed_color(raw.local_color@);
            let pairing = proto::parsed_color(raw.pairing_color@);
            let bound = proto::parsed_color(raw.bound_color@);
            let listed = raw.palette@.len() > 0;
            &&& !listed ==> r == Err::<RgbView, ConfigFault>(ConfigFault::EmptyPalette)
            &&& listed && palette is Err ==> r == Err::<RgbView, ConfigFault>(
                ConfigFault::RgbColor { field: RgbField::Palette, color: palette->Err_0 },
            )
            &&& listed && palette is Ok && local is None ==> r == Err::<RgbView, ConfigFault>(
                ConfigFault::RgbColor { field: RgbField::LocalColor, color: raw.local_color@ },
            )
            &&& listed && palette is Ok && local is Some && pairing is None ==> r == Err::<
                RgbView,
                ConfigFault,
            >(ConfigFault::RgbColor { field: RgbField::PairingColor, color: raw.pairing_color@ })
            &&& listed && palette is Ok && local is Some && pairing is Some && bound is None ==> r
                == Err::<RgbView, ConfigFault>(
                ConfigFault::RgbColor { field: RgbField::BoundColor, color: raw.bound_color@ },
            )
            &&& r is Ok <==> listed && palette is Ok && local is Some && pairing is Some
                && bound is Some
            &&& r is Ok ==> {
                let v = r->Ok_0;
                &&& v.enabled == raw.enabled
                &&& v.server == raw.server@
                &&& raw.brightness <= 100 ==> v.brightness == raw.brightness
                &&& raw.brightness > 100 ==> v.brightness == 100
                &&& Some(v.local_color) == local
                &&& Some(v.pairing_color) == pairing
                &&& Some(v.bound_color) == bound
                &&& v.palette == palette->Ok_0
                &&& raw.idle_timeout_secs == 0 ==> v.idle_timeout is None
                &&& raw.idle_timeout_secs > 0 ==> v.idle_timeout is Some && (
                v.idle_timeout->0).nanos == raw.idle_timeout_secs * 1_000_000_000
                &&& v.slots == slots_of(targets)
            }
        }),
{
    assert(raw.idle_timeout_secs * 1_000_000_000 <= u64::MAX * 1_000_000_000) by (nonlinear_arith)
        requires
            raw.idle_timeout_secs <= u64::MAX,
    ;
}

/// The color and the brightness of any slot: slot 1 has the hub's own color, a
/// slot with a color of its own that one, the others take turns through the
/// palette from slot 2 on; brightness is the slot's own or the general one.
pub proof fn law_slot_lighting(rgb: RgbView, slot: u8)
    ensures
        slot == 1 ==> rgb.color_of(slot) == rgb.local_color,
        slot != 1 && rgb.slots.contains_key(slot) && rgb.slots[slot].color is Some ==> Some(
            rgb.color_of(slot),
        ) == rgb.slots[slot].color,
        slot >= 2 && !(rgb.slots.contains_key(slot) && rgb.slots[slot].color is Some)
            && rgb.palette.len() > 0 ==> rgb.color_of(slot) == rgb.palette[(slot - 2) % (
        rgb.palette.len() as int)],
        slot >= 2 && !(rgb.slots.contains_key(slot) && rgb.slots[slot].color is Some)
            && rgb.palette.len() == 0 ==> rgb.color_of(slot) == rgb.local_color,
        rgb.slots.contains_key(slot) && rgb.slots[slot].brightness is Some ==> Some(
            rgb.brightness_of(slot),
        ) == rgb.slots[slot].brightness,
        !(rgb.slots.contains_key(slot) && rgb.slots[slot].brightness is Some)
            ==> rgb.brightness_of(slot) == rgb.brightness,
{
}

/// A target's own lighting is its color and its brightness, cut to a
/// percentage.
pub proof fn law_target_light(t: TargetView)
    ensures
        light_of(t).color == t.color,
        t.brightness is None ==> light_of(t).brightness is None,
        t.brightness is Some && (t.brightness->0) <= 100 ==> light_of(t).brightness == t.brightness,
        t.brightness is Some && (t.brightness->0) > 100 ==> light_of(t).brightness == Some(100u8),
{
}

/// Settings are the configuration's entries, each read; what is wrong with the
/// targets comes before the lighting, that before the hooks, and these before
/// the macros.
pub proof fn law_settings(raw: RawConfig)
    ensures
        ({
            let r = settings_of(raw);
            let targets = targets_of(raw.targets@);
            let lit = rgb_of(raw.rgb->0, targets->Ok_0);
            let bad_light = raw.rgb is Some && lit is Err;
            let hooks = hooks_of(raw.hooks@);
            let macros = macros_of(raw.macros@);
            &&& targets is Err ==> r == Err::<SettingsView, ConfigFault>(targets->Err_0)
            &&& targets is Ok && bad_light ==> r == Err::<SettingsView, ConfigFault>(lit->Err_0)
            &&& targets is Ok && !bad_light && hooks is Err ==> r == Err::<
                SettingsView,
                ConfigFault,
            >(hooks->Err_0)
            &&& targets is Ok && !bad_light && hooks is Ok && macros is Err ==> r == Err::<
                SettingsView,
                ConfigFault,
            >(macros->Err_0)
            &&& r is Ok <==> targets is Ok && !bad_light && hooks is Ok && macros is Ok
            &&& r is Ok ==> {
                let s = r->Ok_0;
                &&& s.adapter_alias == raw.adapter_alias@
                &&& raw.devices is None ==> s.devices is None
                &&& raw.devices is Some ==> s.devices == Some(text::texts((raw.devices->0)@))
                &&& 20 <= raw.mouse_rate_hz <= 1000 ==> s.mouse_rate_hz == raw.mouse_rate_hz
                &&& raw.mouse_rate_hz < 20 ==> s.mouse_rate_hz == 20
                &&& raw.mouse_rate_hz > 1000 ==> s.mouse_rate_hz == 1000
                &&& s.connections == raw.connections
                &&& s.targets == targets->Ok_0
                &&& s.hooks == hooks->Ok_0
                &&& s.macros == macros->Ok_0
                &&& raw.rgb is Some ==> s.rgb == lit->Ok_0
                &&& raw.rgb is None ==> !s.rgb.enabled && s.rgb.idle_timeout is None
                    && s.rgb.slots.dom().is_empty()
            }
        }),
{
    if raw.rgb is None {
        assert(lighting_off().slots.dom() =~= Set::<u8>::empty());
    }
}

/// A refusal's sentence says which entry it is about and quotes what is wrong
/// there.
#[verifier::rlimit(30)]
pub proof fn law_refusals_name_their_entry(e: ConfigFault)
    ensures
        ({
            let msg = config_message(e);
            match e {
                ConfigFault::TargetSlot { name } => text::says(msg, "target '"@ + name + "'"@)
                    && text::says(msg, "2..=12"@),
                ConfigFault::DuplicateSlot { slot } => text::says(msg, "duplicate"@) && text::says(
                    msg,
                    text::decimal(slot as nat),
                ),
                ConfigFault::TargetMac { name, mac, part } => text::says(
                    msg,
                    "target '"@ + name + "'"@,
                ) && text::says(msg, mac) && text::says(msg, part),
                ConfigFault::TargetColor { name, color } => text::says(
                    msg,
                    "target '"@ + name + "'"@,
                ) && text::says(msg, color),
                ConfigFault::EmptyPalette => text::says(msg, "[rgb] palette"@),
                ConfigFault::RgbColor { field, color } => text::says(msg, color) && text::says(
                    msg,
                    match field {
                        RgbField::Palette => "[rgb] "@ + "palette"@,
                        RgbField::LocalColor => "[rgb] "@ + "local_color"@,
                        RgbField::PairingColor => "[rgb] "@ + "pairing_color"@,
                        RgbField::BoundColor => "[rgb] "@ + "bound_color"@,
                    },
                ),
                ConfigFault::HookSlot { label } => text::says(msg, "hook '"@ + label + "'"@)
                    && text::says(msg, "1..=12"@),
                ConfigFault::EmptyRun { owner, label } => text::says(
                    msg,
                    (match owner {
                        RunOwner::Hook => "hook"@,
                        RunOwner::Macro => "macro"@,
                    }) + " '"@ + label,
                ) && text::says(msg, "run is empty"@),
                ConfigFault::MacroKeys { name, error } => text::says(msg, "macro '"@ + name + "'"@)
                    && text::says(msg, keys::combo_message(error)),
                ConfigFault::MacroReserved { label, combo } => text::says(
                    msg,
                    "macro '"@ + label + "'"@,
                ) && text::says(msg, combo.spelling()) && text::says(msg, "reserved"@),
                ConfigFault::MacroDuplicate { label, combo, other } => text::says(
                    msg,
                    "macro '"@ + label + "'"@,
                ) && text::says(msg, combo.spelling()) && text::says(
                    msg,
                    "already bound by macro '"@ + other,
                ),
            }
        }),
{
    let msg = config_message(e);
    let none = Seq::<char>::empty();
    reveal_strlit("'");
    reveal_strlit("': ");
    match e {
        ConfigFault::TargetSlot { name } => {
            reveal_strlit("': slot must be 2..=12 (slot 1 is the local host)");
            reveal_strlit("2..=12");
            let tail = "': slot must be 2..=12 (slot 1 is the local host)"@;
            let who = "target '"@ + name + "'"@;
            text::lemma_says(none, who, tail.skip(1));
            assert(msg =~= none + who + tail.skip(1));
            let at = ("target '"@ + name).len() as int + 16;
            assert(msg.subrange(at, at + 6) =~= "2..=12"@);
            text::lemma_says_at(msg, at, "2..=12"@);
        },
        ConfigFault::DuplicateSlot { slot } => {
            reveal_strlit("duplicate target slot ");
            reveal_strlit("duplicate");
            text::lemma_says("duplicate target slot "@, text::decimal(slot as nat), none);
            assert(msg =~= "duplicate target slot "@ + text::decimal(slot as nat) + none);
            assert(msg.subrange(0, 9) =~= "duplicate"@);
            text::lemma_says_at(msg, 0, "duplicate"@);
        },
        ConfigFault::TargetMac { name, mac, part } => {
            reveal_strlit("': invalid MAC '");
            let a = "': invalid MAC '"@;
            let b = "': invalid Bluetooth address: "@;
            let who = "target '"@ + name + "'"@;
            text::lemma_says(none, who, a.skip(1) + mac + b + part);
            assert(msg =~= none + who + (a.skip(1) + mac + b + part));
            text::lemma_says("target '"@ + name + a, mac, b + part);
            assert(msg =~= "target '"@ + name + a + mac + (b + part));
            text::lemma_says("target '"@ + name + a + mac + b, part, none);
            assert(msg =~= "target '"@ + name + a + mac + b + part + none);
        },
        ConfigFault::TargetColor { name, color } => {
            reveal_strlit("': ");
            let a = "invalid color '"@;
            let b = "' (expected #RRGGBB)"@;
            let who = "target '"@ + name + "'"@;
            text::lemma_says(none, who, "': "@.skip(1) + (a + color + b));
            assert(msg =~= none + who + ("': "@.skip(1) + (a + color + b)));
            text::lemma_says("target '"@ + name + "': "@ + a, color, b);
            assert(msg =~= "target '"@ + name + "': "@ + a + color + b);
        },
        ConfigFault::EmptyPalette => {
            reveal_strlit("[rgb] palette must list at least one color");
            reveal_strlit("[rgb] palette");
            assert(msg.subrange(0, 13) =~= "[rgb] palette"@);
            text::lemma_says_at(msg, 0, "[rgb] palette"@);
        },
        ConfigFault::RgbColor { field, color } => {
            let a = "invalid color '"@;
            let b = "' (expected #RRGGBB)"@;
            let who = "[rgb] "@ + field_name(field);
            text::lemma_says(none, who, ": "@ + (a + color + b));
            assert(msg =~= none + who + (": "@ + (a + color + b)));
            text::lemma_says(who + ": "@ + a, color, b);
            assert(msg =~= who + ": "@ + a + color + b);
        },
        ConfigFault::HookSlot { label } => {
            reveal_strlit("': slot must be 1..=12");
            reveal_strlit("1..=12");
            let tail = "': slot must be 1..=12"@;
            let who = "hook '"@ + label + "'"@;
            text::lemma_says(none, who, tail.skip(1));
            assert(msg =~= none + who + tail.skip(1));
            let at = ("hook '"@ + label).len() as int + 16;
            assert(msg.subrange(at, at + 6) =~= "1..=12"@);
            text::lemma_says_at(msg, at, "1..=12"@);
        },
        ConfigFault::EmptyRun { owner, label } => {
            reveal_strlit("': run is empty");
            reveal_strlit("run is empty");
            let who = owner_name(owner) + " '"@ + label;
            text::lemma_says(none, who, "': run is empty"@);
            assert(msg =~= none + who + "': run is empty"@);
            let at = who.len() as int + 3;
            assert(msg.subrange(at, at + 12) =~= "run is empty"@);
            text::lemma_says_at(msg, at, "run is empty"@);
        },
        ConfigFault::MacroKeys { name, error } => {
            reveal_strlit("': invalid keys: ");
            let a = "': invalid keys: "@;
            let why = keys::combo_message(error);
            let who = "macro '"@ + name + "'"@;
            text::lemma_says(none, who, a.skip(1) + why);
            assert(msg =~= none + who + (a.skip(1) + why));
            text::lemma_says("macro '"@ + name + a, why, none);
            assert(msg =~= "macro '"@ + name + a + why + none);
        },
        ConfigFault::MacroReserved { label, combo } => {
            reveal_strlit(
                " is reserved — Ctrl+Alt+F1..F12 (with any extra modifier) switch slots",
            );
            reveal_strlit("reserved");
            let tail = " is reserved — Ctrl+Alt+F1..F12 (with any extra modifier) switch slots"@;
            let who = "macro '"@ + label + "'"@;
            text::lemma_says(none, who, "': "@.skip(1) + combo.spelling() + tail);
            assert(msg =~= none + who + ("': "@.skip(1) + combo.spelling() + tail));
            text::lemma_says("macro '"@ + label + "': "@, combo.spelling(), tail);
            let at = ("macro '"@ + label + "': "@ + combo.spelling()).len() as int + 4;
            assert(msg.subrange(at, at + 8) =~= "reserved"@);
            text::lemma_says_at(msg, at, "reserved"@);
        },
        ConfigFault::MacroDuplicate { label, combo, other } => {
            reveal_strlit(" is already bound by macro '");
            reveal_strlit("already bound by macro '");
            let a = " is already bound by macro '"@;
            let said = "already bound by macro '"@;
            let who = "macro '"@ + label + "'"@;
            let head = "macro '"@ + label + "': "@;
            text::lemma_says(none, who, "': "@.skip(1) + combo.spelling() + a + other + "'"@);
            assert(msg =~= none + who + ("': "@.skip(1) + combo.spelling() + a + other + "'"@));
            text::lemma_says(head, combo.spelling(), a + other + "'"@);
            assert(msg =~= head + combo.spelling() + (a + other + "'"@));
            assert(a =~= a.take(4) + said);
            text::lemma_says(head + combo.spelling() + a.take(4), said + other, "'"@);
            assert(msg =~= head + combo.spelling() + a.take(4) + (said + other) + "'"@);
        },
    }
}

} // verus!
