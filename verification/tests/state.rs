//! Learned slot bindings and the remembered slot.

use std::str::FromStr;

use km_hub::bt::addr::Address;
use km_hub::config::{RemoteTarget, LOCAL_SLOT};
use km_hub::state::{load, merge, restore_slot, to_state_file, Binding, Bindings, StateBinding, StateFile};

/// A state file as its text has it.
fn state_file(text: &str) -> StateFile {
    let table = toml::Table::from_str(text).unwrap();
    let bindings = match table.get("binding") {
        Some(list) => list
            .as_array()
            .unwrap()
            .iter()
            .map(|b| StateBinding {
                slot: b["slot"].as_integer().unwrap() as u8,
                mac: b["mac"].as_str().unwrap().to_string(),
                name: b["name"].as_str().unwrap().to_string(),
            })
            .collect(),
        None => Vec::new(),
    };
    StateFile { active_slot: table.get("active_slot").map(|s| s.as_integer().unwrap() as u8), bindings }
}

/// A state file as a document.
fn written(file: &StateFile) -> toml::Table {
    let mut table = toml::Table::new();
    if let Some(slot) = file.active_slot {
        table.insert("active_slot".to_string(), toml::Value::Integer(i64::from(slot)));
    }
    let list = file
        .bindings
        .iter()
        .map(|b| {
            let mut entry = toml::Table::new();
            entry.insert("slot".to_string(), toml::Value::Integer(i64::from(b.slot)));
            entry.insert("mac".to_string(), toml::Value::String(b.mac.clone()));
            entry.insert("name".to_string(), toml::Value::String(b.name.clone()));
            toml::Value::Table(entry)
        })
        .collect();
    table.insert("binding".to_string(), toml::Value::Array(list));
    table
}


fn addr(last: u8) -> Address {
    Address::new([0xAA, 0xBB, 0xCC, 0xDD, 0xEE, last])
}

fn target(slot: u8, name: &str, mac: Option<u8>) -> RemoteTarget {
    RemoteTarget {
        name: name.into(),
        slot,
        addr: mac.map(addr),
        color: None,
        brightness: None,
    }
}

#[test]
fn config_seed_overrides_state_for_same_slot() {
    let file = state_file(
        r#"
        [[binding]]
        slot = 2
        mac = "AA:BB:CC:DD:EE:01"
        name = "learned-mac"
        [[binding]]
        slot = 3
        mac = "AA:BB:CC:DD:EE:02"
        name = "other"
        "#,
    );
    let merged = merge(&file, &[target(2, "config-mac", Some(0x99))]);
    assert_eq!(merged[&2].addr, addr(0x99));
    assert!(merged[&2].from_config);
    // Learned entry for another slot survives.
    assert_eq!(merged[&3].addr, addr(0x02));
    assert!(!merged[&3].from_config);
}

#[test]
fn mac_less_config_target_contributes_no_binding() {
    let merged = merge(&StateFile::default(), &[target(4, "named-only", None)]);
    assert!(merged.is_empty());
}

#[test]
fn save_skips_config_seeds() {
    let mut bindings = Bindings::new();
    bindings.insert(
        2,
        Binding {
            addr: addr(1),
            name: "seeded".into(),
            from_config: true,
        },
    );
    bindings.insert(
        3,
        Binding {
            addr: addr(2),
            name: "learned".into(),
            from_config: false,
        },
    );
    let file = to_state_file(&bindings, LOCAL_SLOT);
    assert_eq!(file.bindings.len(), 1);
    assert_eq!(file.bindings[0].slot, 3);
    assert_eq!(file.bindings[0].mac, addr(2).to_string());
}

#[test]
fn state_file_roundtrip() {
    let mut bindings = Bindings::new();
    bindings.insert(
        5,
        Binding {
            addr: addr(7),
            name: "mac".into(),
            from_config: false,
        },
    );
    let text = toml::to_string_pretty(&written(&to_state_file(&bindings, 5))).unwrap();
    let file = state_file(&text);
    assert_eq!(file.active_slot, Some(5));
    let reloaded = merge(&file, &[]);
    assert_eq!(reloaded, bindings);
}

#[test]
fn active_slot_restores_only_while_bound() {
    let mut bindings = Bindings::new();
    bindings.insert(
        3,
        Binding {
            addr: addr(1),
            name: "mac".into(),
            from_config: false,
        },
    );
    assert_eq!(restore_slot(Some(3), &bindings), 3);
    assert_eq!(restore_slot(Some(4), &bindings), LOCAL_SLOT);
    assert_eq!(restore_slot(None, &bindings), LOCAL_SLOT);
    assert_eq!(restore_slot(Some(LOCAL_SLOT), &bindings), LOCAL_SLOT);
}

#[test]
fn a_state_file_without_active_slot_still_loads() {
    let file = state_file(
        r#"
        [[binding]]
        slot = 2
        mac = "AA:BB:CC:DD:EE:01"
        name = "tower"
        "#,
    );
    assert_eq!(file.active_slot, None);
    // The local slot is not written: a missing key means local.
    assert_eq!(to_state_file(&Bindings::new(), LOCAL_SLOT).active_slot, None);
    assert_eq!(to_state_file(&Bindings::new(), 2).active_slot, Some(2));
}
#[test]
fn entries_with_a_bad_address_are_ignored_and_later_ones_win() {
    let file = state_file(
        "active_slot = 4\n\
         [[binding]]\nslot = 2\nmac = \"nonsense\"\nname = \"bad\"\n\
         [[binding]]\nslot = 4\nmac = \"AA:BB:CC:DD:EE:01\"\nname = \"first\"\n\
         [[binding]]\nslot = 4\nmac = \"AA:BB:CC:DD:EE:02\"\nname = \"second\"\n",
    );
    let (bindings, slot) = load(&file, &[]);
    assert_eq!(slot, 4);
    assert_eq!(bindings.len(), 1);
    assert_eq!(bindings[&4].name, "second");
    assert_eq!(bindings[&4].addr, addr(2));
}

#[test]
fn a_slot_that_lost_its_host_is_not_restored() {
    let file = state_file("active_slot = 7\n");
    let (bindings, slot) = load(&file, &[target(3, "seed", Some(9))]);
    assert_eq!(slot, LOCAL_SLOT);
    assert_eq!(bindings[&3].name, "seed");
}

#[test]
fn a_restart_comes_back_on_the_active_slot() {
    let targets = [target(2, "desk", Some(9))];
    let file = state_file(
        r#"
        [[binding]]
        slot = 4
        mac = "AA:BB:CC:DD:EE:04"
        name = "tower"
        "#,
    );
    let bindings = merge(&file, &targets);
    for slot in [LOCAL_SLOT, 2, 4] {
        let (again, start) = load(&to_state_file(&bindings, slot), &targets);
        assert_eq!(start, slot);
        assert_eq!(again.len(), 2);
    }
}
