//! The configuration.

use std::str::FromStr;

use km_hub::config::{
    default_alias, default_bound_color, default_brightness, default_connections,
    default_hook_timeout_secs, default_idle_timeout_secs, default_local_color,
    default_mouse_rate_hz, default_pairing_color, default_palette, default_rgb_server,
    ConfigError, HookCommand, RawConfig, RawHook, RawMacro, RawRgb, RawRun, RawTarget, Settings,
};
use km_hub::config::{Connections, LOCAL_SLOT};
use km_hub::input::keys::KeyCombo;
use km_hub::rgb::proto::Rgb;
use km_hub::time::Duration;

/// A command as the file has it.
fn raw_run(v: &toml::Value) -> RawRun {
    match v.as_array() {
        Some(list) => RawRun::Argv(list.iter().map(text).collect()),
        None => RawRun::Shell(text(v)),
    }
}

fn text(v: &toml::Value) -> String {
    v.as_str().unwrap().to_string()
}

fn number(v: &toml::Value) -> u64 {
    v.as_integer().unwrap() as u64
}

fn list<'a>(table: &'a toml::Table, key: &str) -> Vec<&'a toml::Value> {
    table.get(key).map(|v| v.as_array().unwrap().iter().collect()).unwrap_or_default()
}

/// A config as its text has it, with defaults for what it leaves out.
fn raw_config(source: &str) -> RawConfig {
    let table = toml::Table::from_str(source).unwrap();
    RawConfig {
        adapter_alias: table.get("adapter_alias").map(text).unwrap_or_else(default_alias),
        devices: table.get("devices").map(|v| v.as_array().unwrap().iter().map(text).collect()),
        mouse_rate_hz: table.get("mouse_rate_hz").map(|v| number(v) as u32).unwrap_or_else(default_mouse_rate_hz),
        connections: default_connections(),
        rgb: table.get("rgb").map(|v| RawRgb {
            enabled: v.get("enabled").map(|v| v.as_bool().unwrap()).unwrap_or(false),
            server: v.get("server").map(text).unwrap_or_else(default_rgb_server),
            brightness: v.get("brightness").map(|v| number(v) as u8).unwrap_or_else(default_brightness),
            local_color: v.get("local_color").map(text).unwrap_or_else(default_local_color),
            pairing_color: v.get("pairing_color").map(text).unwrap_or_else(default_pairing_color),
            bound_color: v.get("bound_color").map(text).unwrap_or_else(default_bound_color),
            palette: v
                .get("palette")
                .map(|v| v.as_array().unwrap().iter().map(text).collect())
                .unwrap_or_else(default_palette),
            idle_timeout_secs: v.get("idle_timeout_secs").map(number).unwrap_or_else(default_idle_timeout_secs),
        }),
        targets: list(&table, "target")
            .into_iter()
            .map(|t| RawTarget {
                name: text(&t["name"]),
                slot: number(&t["slot"]) as u8,
                mac: t.get("mac").map(text),
                color: t.get("color").map(text),
                brightness: t.get("brightness").map(|v| number(v) as u8),
            })
            .collect(),
        hooks: list(&table, "hook")
            .into_iter()
            .map(|h| RawHook {
                slot: number(&h["slot"]) as u8,
                run: raw_run(&h["run"]),
                name: h.get("name").map(text),
                timeout_secs: h.get("timeout_secs").map(number).unwrap_or_else(default_hook_timeout_secs),
            })
            .collect(),
        macros: list(&table, "macro")
            .into_iter()
            .map(|m| RawMacro {
                keys: text(&m["keys"]),
                run: raw_run(&m["run"]),
                name: m.get("name").map(text),
                timeout_secs: m.get("timeout_secs").map(number).unwrap_or_else(default_hook_timeout_secs),
            })
            .collect(),
    }
}

fn parse(source: &str) -> Result<Settings, ConfigError> {
    Settings::parse(&raw_config(source))
}


fn rgb(hex: &str) -> Rgb {
    Rgb::parse(hex).unwrap()
}

#[test]
fn lighting_is_off_unless_configured() {
    let settings = parse("adapter_alias = \"hub\"").unwrap();
    assert!(!settings.rgb.enabled);
}

/// The idle timeout is on by default; 0 is the documented way to say
/// "never blank", not a zero-length timeout that blanks instantly.
#[test]
fn a_zero_idle_timeout_disables_blanking() {
    let on = parse("[rgb]\nenabled = true").unwrap();
    assert_eq!(on.rgb.idle_timeout, Some(Duration::from_secs(120)));

    let tuned = parse("[rgb]\nenabled = true\nidle_timeout_secs = 300").unwrap();
    assert_eq!(tuned.rgb.idle_timeout, Some(Duration::from_secs(300)));

    let never = parse("[rgb]\nenabled = true\nidle_timeout_secs = 0").unwrap();
    assert_eq!(never.rgb.idle_timeout, None);
}

#[test]
fn slot_colors_come_from_targets_then_the_palette() {
    let settings = parse(
        r##"
        [rgb]
        enabled = true
        brightness = 60
        local_color = "#ffffff"
        palette = ["#ff0000", "#0000ff"]

        [[target]]
        name = "tower"
        slot = 2
        color = "#123456"

        [[target]]
        name = "macbook"
        slot = 3
        "##,
    )
    .unwrap();
    let lighting = &settings.rgb;
    assert!(lighting.enabled);
    assert_eq!(lighting.server, "127.0.0.1:6742");
    // Slot 1 is the hub itself.
    assert_eq!(lighting.slot_color(LOCAL_SLOT), rgb("#ffffff"));
    // An explicit target color wins.
    assert_eq!(lighting.slot_color(2), rgb("#123456"));
    // A target without one falls through to the palette, which starts at
    // slot 2 and wraps.
    assert_eq!(lighting.slot_color(3), rgb("#0000ff"));
    assert_eq!(lighting.slot_color(4), rgb("#ff0000"));
    // A slot with no target entry at all (bound via a pairing window).
    assert_eq!(lighting.slot_color(5), rgb("#0000ff"));
}

#[test]
fn brightness_falls_back_to_the_global_value() {
    let settings = parse(
        r##"
        [rgb]
        enabled = true
        brightness = 60

        [[target]]
        name = "tower"
        slot = 2
        brightness = 90

        [[target]]
        name = "macbook"
        slot = 3
        "##,
    )
    .unwrap();
    assert_eq!(settings.rgb.slot_brightness(2), 90);
    assert_eq!(settings.rgb.slot_brightness(3), 60);
    assert_eq!(settings.rgb.slot_brightness(LOCAL_SLOT), 60);
}

#[test]
fn out_of_range_brightness_is_clamped() {
    let settings = parse(
        r##"
        [rgb]
        enabled = true
        brightness = 200

        [[target]]
        name = "tower"
        slot = 2
        brightness = 180
        "##,
    )
    .unwrap();
    assert_eq!(settings.rgb.brightness, 100);
    assert_eq!(settings.rgb.slot_brightness(2), 100);
}

#[test]
fn bad_colors_name_the_offending_entry() {
    let err = parse(
        r##"
        [rgb]
        enabled = true

        [[target]]
        name = "tower"
        slot = 2
        color = "reddish"
        "##,
    )
    .unwrap_err();
    let message = err.message();
    assert!(message.contains("tower"), "{message}");
    assert!(message.contains("reddish"), "{message}");

    let err = parse("[rgb]\nenabled = true\nlocal_color = \"#xyzxyz\"").unwrap_err();
    assert!(err.message().contains("local_color"));
}

#[test]
fn an_empty_palette_is_rejected() {
    let err = parse("[rgb]\nenabled = true\npalette = []").unwrap_err();
    assert!(err.message().contains("palette"));
}

#[test]
fn defaults_apply_when_only_enabled_is_set() {
    let settings = parse("[rgb]\nenabled = true").unwrap();
    let lighting = &settings.rgb;
    assert_eq!(lighting.brightness, 100);
    assert_eq!(lighting.local_color, rgb("#ffffff"));
    assert_eq!(lighting.pairing_color, rgb("#ffa000"));
    assert_eq!(lighting.bound_color, rgb("#00ff00"));
    assert_eq!(lighting.slot_color(2), rgb("#ff0000"));
    assert_eq!(lighting.slot_color(3), rgb("#0000ff"));
}



#[test]
fn hooks_are_absent_by_default() {
    assert!(parse("adapter_alias = \"hub\"").unwrap().hooks.is_empty());
}

#[test]
fn a_hook_takes_a_shell_string_or_an_argv_array() {
    let settings = parse(
        r#"
        [[hook]]
        slot = 2
        run = "curl -fsS http://ha/x"

        [[hook]]
        slot = 3
        name = "notify"
        run = ["/usr/local/bin/notify", "macbook"]
        "#,
    )
    .unwrap();
    assert_eq!(
        settings.hooks[0].command,
        HookCommand::Shell("curl -fsS http://ha/x".into())
    );
    // Without a name, log lines fall back to the slot.
    assert_eq!(settings.hooks[0].label, "slot 2");
    assert_eq!(
        settings.hooks[1].command,
        HookCommand::Argv(vec!["/usr/local/bin/notify".into(), "macbook".into()])
    );
    assert_eq!(settings.hooks[1].label, "notify");
}

/// Unlike `[[target]]`, which starts at slot 2, a hook may fire for the hub
/// itself — "I'm back on the local machine" is worth acting on.
#[test]
fn a_hook_may_target_the_local_slot() {
    let settings = parse("[[hook]]\nslot = 1\nrun = \"true\"").unwrap();
    assert_eq!(settings.hooks[0].slot, LOCAL_SLOT);
    assert!(parse("[[target]]\nname = \"x\"\nslot = 1").is_err());
}

#[test]
fn several_hooks_may_share_a_slot() {
    let settings = parse(
        r#"
        [[hook]]
        slot = 2
        run = "first"

        [[hook]]
        slot = 2
        run = "second"
        "#,
    )
    .unwrap();
    assert_eq!(settings.hooks.len(), 2);
    assert!(settings.hooks.iter().all(|h| h.slot == 2));
}

#[test]
fn an_empty_run_is_rejected() {
    for run in ["\"\"", "\"   \"", "[]", "[\"\"]"] {
        let err = parse(&format!("[[hook]]\nslot = 2\nrun = {run}")).unwrap_err();
        let message = err.message();
        assert!(message.contains("empty"), "{run}: {message}");
    }
}

#[test]
fn an_out_of_range_hook_slot_is_rejected() {
    for slot in [0, 13] {
        let err =
            parse(&format!("[[hook]]\nslot = {slot}\nrun = \"true\"")).unwrap_err();
        assert!(err.message().contains("slot"), "slot {slot}");
    }
}

/// The offending hook must be identifiable, since a config may hold many.
#[test]
fn a_bad_hook_names_itself() {
    let err =
        parse("[[hook]]\nslot = 99\nname = \"desk lamp\"\nrun = \"true\"").unwrap_err();
    assert!(err.message().contains("desk lamp"));
}

#[test]
fn hook_timeouts_default_and_clamp() {
    let settings = parse(
        r#"
        [[hook]]
        slot = 2
        run = "true"

        [[hook]]
        slot = 3
        run = "true"
        timeout_secs = 0

        [[hook]]
        slot = 4
        run = "true"
        timeout_secs = 9999
        "#,
    )
    .unwrap();
    assert_eq!(settings.hooks[0].timeout, Duration::from_secs(10));
    assert_eq!(settings.hooks[1].timeout, Duration::from_secs(1));
    assert_eq!(settings.hooks[2].timeout, Duration::from_secs(300));
}


#[test]
fn macros_are_absent_by_default() {
    assert!(parse("adapter_alias = \"hub\"").unwrap().macros.is_empty());
}

#[test]
fn a_macro_takes_keys_and_a_shell_string_or_argv_array() {
    let settings = parse(
        r#"
        [[macro]]
        keys = "Ctrl+Alt+KP1"
        run = "curl -fsS http://ha/x"

        [[macro]]
        keys = "ctrl+alt+shift+kp1"
        name = "lamp"
        run = ["/usr/local/bin/lamp", "on"]
        timeout_secs = 0
        "#,
    )
    .unwrap();
    assert_eq!(settings.macros.len(), 2);
    assert_eq!(settings.macros[0].combo, KeyCombo::from_str("ctrl+alt+kp1").unwrap());
    assert_eq!(settings.macros[0].command, HookCommand::Shell("curl -fsS http://ha/x".into()));
    // Without a name, log lines fall back to the canonical combo.
    assert_eq!(settings.macros[0].label, "ctrl+alt+kp1");
    assert_eq!(settings.macros[0].timeout, Duration::from_secs(10));
    assert_eq!(settings.macros[1].label, "lamp");
    assert_eq!(
        settings.macros[1].command,
        HookCommand::Argv(vec!["/usr/local/bin/lamp".into(), "on".into()])
    );
    assert_eq!(settings.macros[1].timeout, Duration::from_secs(1));
}

#[test]
fn a_macro_with_unknown_keys_names_the_token() {
    let err = parse("[[macro]]\nkeys = \"ctrl+bogus\"\nrun = \"true\"").unwrap_err();
    let message = err.message();
    assert!(message.contains("bogus"), "{message}");
    assert!(parse("[[macro]]\nkeys = \"ctrl+alt\"\nrun = \"true\"").is_err());
    assert!(parse("[[macro]]\nkeys = \"ctrl+a+b\"\nrun = \"true\"").is_err());
}

#[test]
fn a_macro_on_a_switch_combo_is_rejected() {
    for keys in ["ctrl+alt+f2", "alt+ctrl+shift+f12", "ctrl+alt+super+f1"] {
        let err = parse(&format!("[[macro]]\nkeys = \"{keys}\"\nrun = \"true\""))
            .unwrap_err();
        assert!(err.message().contains("reserved"), "{keys}");
    }
    // Neighbours are fine.
    assert!(parse("[[macro]]\nkeys = \"ctrl+alt+f13\"\nrun = \"true\"").is_ok());
    assert!(parse("[[macro]]\nkeys = \"ctrl+shift+f2\"\nrun = \"true\"").is_ok());
}

#[test]
fn duplicate_macro_combos_are_rejected_across_spellings() {
    let err = parse(
        "[[macro]]\nkeys = \"ctrl+alt+kp1\"\nname = \"first\"\nrun = \"true\"\n\
         [[macro]]\nkeys = \"Alt+Ctrl+KP1\"\nrun = \"true\"",
    )
    .unwrap_err();
    assert!(err.message().contains("first"));
    // Differing only by a modifier is a different combo.
    assert!(
        parse(
            "[[macro]]\nkeys = \"ctrl+alt+kp1\"\nrun = \"true\"\n\
             [[macro]]\nkeys = \"ctrl+alt+shift+kp1\"\nrun = \"true\""
        )
        .is_ok()
    );
}

#[test]
fn a_bare_key_macro_is_accepted() {
    let settings = parse("[[macro]]\nkeys = \"prog1\"\nrun = \"true\"").unwrap();
    assert!(settings.macros[0].combo.mods.is_empty());
}

#[test]
fn an_empty_macro_run_is_rejected() {
    for run in ["\"\"", "[]", "[\"\"]"] {
        let err = parse(&format!("[[macro]]\nkeys = \"ctrl+alt+kp1\"\nrun = {run}"))
            .unwrap_err();
        assert!(err.message().contains("empty"), "{run}");
    }
}


#[test]
fn general_settings_have_defaults() {
    let settings = parse("").unwrap();
    assert_eq!(settings.adapter_alias, "KMHub");
    assert_eq!(settings.mouse_rate_hz, 125);
    assert_eq!(settings.connections, Connections::All);
    assert_eq!(settings.devices, None);
    assert!(settings.targets.is_empty());
    assert_eq!(parse("mouse_rate_hz = 0").unwrap().mouse_rate_hz, 20);
    assert_eq!(parse("mouse_rate_hz = 500").unwrap().mouse_rate_hz, 500);
    assert_eq!(parse("mouse_rate_hz = 5000").unwrap().mouse_rate_hz, 1000);
}

#[test]
fn targets_name_remote_slots_once() {
    let settings = parse("[[target]]\nname = \"tower\"\nslot = 12\nmac = \"AA:BB:CC:DD:EE:FF\"").unwrap();
    assert_eq!(settings.target_for_slot(12).unwrap().name, "tower");
    assert!(settings.target_for_slot(12).unwrap().addr.is_some());
    assert!(settings.target_for_slot(3).is_none());
    for slot in [0, 1, 13] {
        let err = parse(&format!("[[target]]\nname = \"x\"\nslot = {slot}")).unwrap_err();
        assert_eq!(err, ConfigError::TargetSlot { name: "x".to_string() });
    }
    let err = parse("[[target]]\nname = \"a\"\nslot = 2\n[[target]]\nname = \"b\"\nslot = 2").unwrap_err();
    assert_eq!(err, ConfigError::DuplicateSlot { slot: 2 });
    assert_eq!(err.message(), "duplicate target slot 2");
    let err = parse("[[target]]\nname = \"a\"\nslot = 2\nmac = \"zz\"").unwrap_err();
    assert!(err.message().contains("target 'a': invalid MAC 'zz'"), "{}", err.message());
}

#[test]
fn every_fault_has_its_own_error() {
    assert_eq!(parse("[rgb]\npalette = []").unwrap_err(), ConfigError::EmptyPalette);
    assert!(matches!(
        parse("[[hook]]\nslot = 13\nrun = \"x\"").unwrap_err(),
        ConfigError::HookSlot { label } if label == "slot 13"
    ));
    assert!(matches!(parse("[[hook]]\nslot = 2\nrun = []").unwrap_err(), ConfigError::EmptyRun { .. }));
    assert!(matches!(parse("[rgb]\nbound_color = \"x\"").unwrap_err(), ConfigError::RgbColor { .. }));
    assert!(matches!(
        parse("[[target]]\nname = \"a\"\nslot = 2\ncolor = \"x\"").unwrap_err(),
        ConfigError::TargetColor { .. }
    ));
    assert!(matches!(
        parse("[[macro]]\nkeys = \"ctrl\"\nrun = \"x\"").unwrap_err(),
        ConfigError::MacroKeys { .. }
    ));
    assert!(matches!(
        parse("[[macro]]\nkeys = \"ctrl+alt+f1\"\nrun = \"x\"").unwrap_err(),
        ConfigError::MacroReserved { .. }
    ));
    assert!(matches!(
        parse("[[macro]]\nkeys = \"a\"\nrun = \"x\"\n[[macro]]\nkeys = \"A\"\nrun = \"x\"").unwrap_err(),
        ConfigError::MacroDuplicate { .. }
    ));
}
