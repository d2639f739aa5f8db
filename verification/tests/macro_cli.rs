//! `km-hub macro …`.

use std::str::FromStr;

use toml_edit::DocumentMut;

use km_hub::config::{
    default_alias, default_bound_color, default_brightness, default_connections,
    default_hook_timeout_secs, default_idle_timeout_secs, default_local_color,
    default_mouse_rate_hz, default_pairing_color, default_palette, default_rgb_server,
    ConfigError, HookCommand, RawConfig, RawHook, RawMacro, RawRgb, RawRun, RawTarget, Settings,
};
use km_hub::input::codes::KeyCode;
use km_hub::input::keys::KeyCombo;
use km_hub::macro_cli::dialog::{Dialog, Note, Stage};
use km_hub::macro_cli::document::{
    document_to_string, existing_macro, parse_document, render_entry, upsert_macro, MacroEntry,
    MacroError,
};
use km_hub::macro_cli::{parse_args, Capture, Tool, ToolError, USAGE};
use km_hub::time::Duration;

/// A command as the file has it.
fn raw_run(v: &toml::Value) -> RawRun {
    match v.as_array() {
        Some(list) => RawRun::Argv(list.iter().map(text).collect()),
        None => RawRun::Shell(text(v)),
    }
}

fn text(v: &toml::Value) -> String {
    v.as_str().unwrap().to_string()
}

fn number(v: &toml::Value) -> u64 {
    v.as_integer().unwrap() as u64
}

fn list<'a>(table: &'a toml::Table, key: &str) -> Vec<&'a toml::Value> {
    table.get(key).map(|v| v.as_array().unwrap().iter().collect()).unwrap_or_default()
}

/// A config as its text has it, with defaults for what it leaves out.
fn raw_config(source: &str) -> RawConfig {
    let table = toml::Table::from_str(source).unwrap();
    RawConfig {
        adapter_alias: table.get("adapter_alias").map(text).unwrap_or_else(default_alias),
        devices: table.get("devices").map(|v| v.as_array().unwrap().iter().map(text).collect()),
        mouse_rate_hz: table.get("mouse_rate_hz").map(|v| number(v) as u32).unwrap_or_else(default_mouse_rate_hz),
        connections: default_connections(),
        rgb: table.get("rgb").map(|v| RawRgb {
            enabled: v.get("enabled").map(|v| v.as_bool().unwrap()).unwrap_or(false),
            server: v.get("server").map(text).unwrap_or_else(default_rgb_server),
            brightness: v.get("brightness").map(|v| number(v) as u8).unwrap_or_else(default_brightness),
            local_color: v.get("local_color").map(text).unwrap_or_else(default_local_color),
            pairing_color: v.get("pairing_color").map(text).unwrap_or_else(default_pairing_color),
            bound_color: v.get("bound_color").map(text).unwrap_or_else(default_bound_color),
            palette: v
                .get("palette")
                .map(|v| v.as_array().unwrap().iter().map(text).collect())
                .unwrap_or_else(default_palette),
            idle_timeout_secs: v.get("idle_timeout_secs").map(number).unwrap_or_else(default_idle_timeout_secs),
        }),
        targets: list(&table, "target")
            .into_iter()
            .map(|t| RawTarget {
                name: text(&t["name"]),
                slot: number(&t["slot"]) as u8,
                mac: t.get("mac").map(text),
                color: t.get("color").map(text),
                brightness: t.get("brightness").map(|v| number(v) as u8),
            })
            .collect(),
        hooks: list(&table, "hook")
            .into_iter()
            .map(|h| RawHook {
                slot: number(&h["slot"]) as u8,
                run: raw_run(&h["run"]),
                name: h.get("name").map(text),
                timeout_secs: h.get("timeout_secs").map(number).unwrap_or_else(default_hook_timeout_secs),
            })
            .collect(),
        macros: list(&table, "macro")
            .into_iter()
            .map(|m| RawMacro {
                keys: text(&m["keys"]),
                run: raw_run(&m["run"]),
                name: m.get("name").map(text),
                timeout_secs: m.get("timeout_secs").map(number).unwrap_or_else(default_hook_timeout_secs),
            })
            .collect(),
    }
}

fn parse(source: &str) -> Result<Settings, ConfigError> {
    Settings::parse(&raw_config(source))
}


fn entry(keys: &str, name: Option<&str>, command: HookCommand, timeout_secs: u64) -> MacroEntry {
    MacroEntry {
        combo: KeyCombo::from_str(keys).unwrap(),
        name: name.map(str::to_string),
        command,
        timeout_secs,
    }
}

const CONFIG: &str = r#"# hub config
adapter_alias = "KMHub"   # keep me

[[hook]]
slot = 2
run = "true"

# first macro
[[macro]]
keys = "Alt+Ctrl+KP1"
name = "lamp"
run = "lamp on"
timeout_secs = 30
"#;

#[test]
fn append_preserves_everything_else_and_parses() {
    let mut doc: DocumentMut = parse_document(CONFIG).unwrap();
    let e = entry("ctrl+alt+kp2", None, HookCommand::Argv(vec!["/bin/x".into(), "a b".into()]), 10);
    upsert_macro(&mut doc, &e, false).unwrap();
    let out = document_to_string(&doc);
    assert!(out.starts_with(CONFIG), "prefix changed:\n{out}");
    assert!(out.contains("keys = \"ctrl+alt+kp2\""));
    assert!(out.contains("run = [\"/bin/x\", \"a b\"]"));
    // Defaults are not written out.
    assert_eq!(out.matches("timeout_secs").count(), 1);
    assert!(!out.contains("name = \"\""));
    let settings = parse(&out).unwrap();
    assert_eq!(settings.macros.len(), 2);
    assert_eq!(settings.macros[1].command, e.command);
}

#[test]
fn append_into_a_config_without_macros() {
    let mut doc: DocumentMut = parse_document("adapter_alias = \"x\"\n").unwrap();
    upsert_macro(&mut doc, &entry("super+a", Some("n"), HookCommand::Shell("true".into()), 5), false)
        .unwrap();
    let out = document_to_string(&doc);
    assert!(out.contains("[[macro]]"), "{out}");
    let settings = parse(&out).unwrap();
    assert_eq!(settings.macros[0].label, "n");
    assert_eq!(settings.macros[0].timeout, Duration::from_secs(5));
}

#[test]
fn duplicates_are_detected_across_spellings_and_replaced_in_place() {
    let mut doc: DocumentMut = parse_document(CONFIG).unwrap();
    assert_eq!(existing_macro(&doc, KeyCombo::from_str("ctrl+alt+kp1").unwrap()).as_deref(), Some("lamp"));
    assert_eq!(existing_macro(&doc, KeyCombo::from_str("ctrl+alt+kp2").unwrap()), None);
    let e = entry("ctrl+alt+kp1", None, HookCommand::Shell("lamp off".into()), 10);
    assert!(upsert_macro(&mut doc, &e, false).is_err());
    upsert_macro(&mut doc, &e, true).unwrap();
    let out = document_to_string(&doc);
    // Still exactly one macro, comment kept, stale name/timeout gone.
    assert_eq!(out.matches("[[macro]]").count(), 1);
    assert!(out.contains("# first macro"));
    assert!(!out.contains("name = \"lamp\""));
    assert!(!out.contains("timeout_secs"));
    assert!(out.contains("run = \"lamp off\""));
    assert!(out.contains("keys = \"ctrl+alt+kp1\""));
    let settings = parse(&out).unwrap();
    assert_eq!(settings.macros.len(), 1);
    assert_eq!(settings.macros[0].label, "ctrl+alt+kp1");
}

#[test]
fn an_inline_macro_array_is_refused() {
    let mut doc: DocumentMut = parse_document("macro = [{ keys = \"ctrl+a\", run = \"x\" }]\n").unwrap();
    let e = entry("ctrl+b", None, HookCommand::Shell("y".into()), 10);
    assert!(upsert_macro(&mut doc, &e, false).is_err());
}

#[test]
fn comments_outside_the_written_fields_survive() {
    let source = "# top\n\n# mine\n[[macro]] # here\nkeys = 'a'\nnote = 7 # why\nrun = \"first\"\n\n# other\n[[macro]]\nkeys = 'B' # bee\nrun = \"second\"\n# end\n";
    let mut doc = parse_document(source).unwrap();
    upsert_macro(&mut doc, &entry("a", None, HookCommand::Shell("x".into()), 10), true).unwrap();
    let out = document_to_string(&doc);
    assert!(out.starts_with("# top\n\n# mine\n[[macro]] # here\nkeys = \"a\"\nnote = 7 # why\nrun = \"x\"\n"), "{out}");
    assert!(out.ends_with("\n# other\n[[macro]]\nkeys = 'B' # bee\nrun = \"second\"\n# end\n"), "{out}");
}

#[test]
fn a_refused_edit_leaves_the_document_alone() {
    for source in ["macro = 1 # one\n", "[[macro]]\nkeys = 'A' # a\nrun = 'x'\n"] {
        let mut doc = parse_document(source).unwrap();
        let e = entry("a", None, HookCommand::Shell("y".into()), 10);
        assert!(upsert_macro(&mut doc, &e, false).is_err());
        assert_eq!(document_to_string(&doc), source);
    }
}

#[test]
fn a_replacement_touches_nothing_else() {
    let source = "x = 1 # one\n[[macro]]\nkeys = \"a\"\nrun = \"first\"\nnote = 7\n[[macro]]\nkeys = \"b\"\nrun = \"second\"\n";
    let mut doc = parse_document(source).unwrap();
    let e = entry("A", Some("n"), HookCommand::Shell("changed".into()), 30);
    assert_eq!(
        upsert_macro(&mut doc, &e, false),
        Err(MacroError::AlreadyBound("a".to_string()))
    );
    assert_eq!(document_to_string(&doc), source);
    upsert_macro(&mut doc, &e, true).unwrap();
    let out = document_to_string(&doc);
    assert!(out.starts_with("x = 1 # one\n[[macro]]\n"), "{out}");
    assert!(out.contains("note = 7"), "{out}");
    assert!(out.contains("run = \"changed\""), "{out}");
    assert!(!out.contains("first"), "{out}");
    assert!(out.contains("run = \"second\""), "{out}");
    assert!(out.contains("timeout_secs = 30"), "{out}");
    assert_eq!(existing_macro(&doc, KeyCombo::from_str("a").unwrap()).as_deref(), Some("n"));
}

#[test]
fn errors_explain_themselves() {
    assert_eq!(MacroError::AlreadyBound("ctrl+a".to_string()).message(), "ctrl+a is already bound");
    assert!(MacroError::NotTables.message().contains("not a [[macro]] table array"));
    assert!(parse_document("x = ").is_err());
}

#[test]
fn an_entry_is_shown_as_it_will_stand() {
    let e = entry("ctrl+alt+kp2", Some("lamp"), HookCommand::Argv(vec!["/bin/x".into(), "a b".into()]), 10);
    let shown = render_entry(&e);
    assert_eq!(
        shown.trim_end(),
        "[[macro]]\nkeys = \"ctrl+alt+kp2\"\nname = \"lamp\"\nrun = [\"/bin/x\", \"a b\"]"
    );
}

#[test]
fn a_combo_is_captured_once_all_keys_are_up() {
    let mut c = Capture::new();
    // The release of the Enter that launched the tool is nobody's business.
    assert_eq!(c.on_key(KeyCode::KEY_ENTER, 0), None);
    assert_eq!(c.on_key(KeyCode::KEY_LEFTCTRL, 1), None);
    assert_eq!(c.on_key(KeyCode::KEY_LEFTCTRL, 2), None);
    assert_eq!(c.on_key(KeyCode::KEY_KP1, 1), None);
    // A second key changes nothing.
    assert_eq!(c.on_key(KeyCode::KEY_A, 1), None);
    assert_eq!(c.on_key(KeyCode::KEY_A, 0), None);
    assert_eq!(c.on_key(KeyCode::KEY_KP1, 0), None);
    let combo = c.on_key(KeyCode::KEY_LEFTCTRL, 0).unwrap();
    assert_eq!(combo.to_string(), "ctrl+kp1");
}

#[test]
fn modifiers_alone_are_no_combo() {
    let mut c = Capture::new();
    assert_eq!(c.on_key(KeyCode::KEY_LEFTALT, 1), None);
    assert_eq!(c.on_key(KeyCode::KEY_LEFTALT, 0), None);
    assert_eq!(c.on_key(KeyCode::KEY_A, 1), None);
    assert_eq!(c.on_key(KeyCode::KEY_A, 0).unwrap().to_string(), "a");
}

fn args(list: &[&str]) -> Vec<String> {
    list.iter().map(|s| s.to_string()).collect()
}

#[test]
fn the_tool_reads_its_arguments() {
    assert_eq!(parse_args(&args(&["capture"])), Ok(Tool::Capture));
    assert_eq!(parse_args(&args(&["add"])), Ok(Tool::Add("config.toml".to_string())));
    assert_eq!(parse_args(&args(&["--config", "a", "add", "--config", "b"])), Ok(Tool::Add("b".to_string())));
    assert_eq!(parse_args(&args(&["capture", "-h"])), Ok(Tool::Help));
    assert_eq!(parse_args(&args(&["--config"])), Err(ToolError::ConfigNeedsPath));
    assert_eq!(parse_args(&args(&["capture", "add"])), Err(ToolError::Unknown("add".to_string())));
    assert_eq!(parse_args(&args(&[])), Err(ToolError::NoCommand));
    assert_eq!(
        parse_args(&args(&["x"])).unwrap_err().message(),
        "unknown argument 'x' (see km-hub macro --help)"
    );
    assert_eq!(ToolError::ConfigNeedsPath.message(), "--config needs a path");
    assert!(USAGE.starts_with(&ToolError::NoCommand.message()[..20]));
}

#[test]
fn a_dialog_ends_in_a_new_config() {
    let mut d = Dialog::new(CONFIG).unwrap();
    assert_eq!(d.stage(), Stage::Combo);
    assert_eq!(d.on_combo(KeyCombo::from_str("ctrl+alt+f2").unwrap()), Note::Reserved);
    assert_eq!(d.on_combo(KeyCombo::from_str("ctrl+alt+kp1").unwrap()), Note::Taken("lamp".to_string()));
    assert_eq!(d.stage(), Stage::Replace);
    assert_eq!(d.on_answer("\n"), Note::Kept);
    assert_eq!(d.stage(), Stage::Combo);
    assert_eq!(d.on_combo(KeyCombo::from_str("prog1").unwrap()), Note::Chosen { bare: true });
    assert_eq!(d.on_answer("  \n"), Note::Fine);
    assert_eq!(d.stage(), Stage::Command);
    assert_eq!(d.on_answer("\n"), Note::EmptyCommand);
    assert_eq!(d.on_answer("  lamp  off\n"), Note::Fine);
    assert_eq!(d.on_answer("maybe\n"), Note::Again);
    assert_eq!(d.on_answer("No\n"), Note::Fine);
    assert_eq!(d.stage(), Stage::Split);
    assert_eq!(d.command(), Some(&HookCommand::Argv(vec!["lamp".into(), "off".into()])));
    assert_eq!(d.on_answer("no\n"), Note::EditByHand);
    assert_eq!(d.on_answer("0\n"), Note::BadTimeout);
    assert_eq!(d.on_answer("301\n"), Note::BadTimeout);
    assert_eq!(d.on_answer("soon\n"), Note::BadTimeout);
    assert_eq!(d.on_answer("300\n"), Note::Fine);
    assert_eq!(d.stage(), Stage::Done);
    assert_eq!(d.combo().unwrap().to_string(), "prog1");
    let edited = d.finish().unwrap();
    assert!(!edited.replaced);
    assert!(edited.text.starts_with(CONFIG));
    assert!(edited.text.ends_with(&edited.entry), "{}", edited.text);
    let settings = parse(&edited.text).unwrap();
    assert_eq!(settings.macros[1].command, HookCommand::Argv(vec!["lamp".into(), "off".into()]));
    assert_eq!(settings.macros[1].timeout, Duration::from_secs(300));
}

#[test]
fn a_dialog_may_replace_a_macro() {
    let mut d = Dialog::new(CONFIG).unwrap();
    d.on_combo(KeyCombo::from_str("ctrl+alt+kp1").unwrap());
    assert_eq!(d.on_answer("YES"), Note::Chosen { bare: false });
    d.on_answer("desk");
    d.on_answer("lamp off");
    assert_eq!(d.on_answer(""), Note::Fine);
    assert_eq!(d.stage(), Stage::Timeout);
    d.on_answer("");
    let edited = d.finish().unwrap();
    assert!(edited.replaced);
    let settings = parse(&edited.text).unwrap();
    assert_eq!(settings.macros.len(), 1);
    assert_eq!(settings.macros[0].label, "desk");
    assert_eq!(settings.macros[0].command, HookCommand::Shell("lamp off".into()));
}

#[test]
fn a_dialog_refuses_what_it_cannot_edit() {
    assert!(Dialog::new("x = ").is_err());
    let mut d = Dialog::new("macro = [{ keys = \"ctrl+a\", run = \"x\" }]\n").unwrap();
    assert_eq!(d.on_combo(KeyCombo::from_str("ctrl+a").unwrap()), Note::Chosen { bare: false });
    for answer in ["", "x", "y", ""] {
        assert_eq!(d.on_answer(answer), Note::Fine);
    }
    assert_eq!(d.finish(), Err(MacroError::NotTables));
}
