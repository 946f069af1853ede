use edge_profile::dump::{dump, dump_key, DumpValue, KeySnapshot, NamedValue, SubkeySnapshot};
use edge_profile::policy::{dword, sz, PolicyEntry, RegValue};
use edge_profile::registry::{apply, check_hklm_conflicts, clean, copy_entry, StoreOp};

fn names(v: &[&str]) -> Vec<String> {
    v.iter().map(|s| s.to_string()).collect()
}

#[test]
fn apply_replaces_list_before_writing() {
    let entries = vec![dword("", "ShowHomeButton", 1), sz("ExtensionInstallForcelist", "1", "a;u")];
    let ops = apply(&entries);
    assert_eq!(ops.len(), 4);
    assert!(matches!(ops[0], StoreOp::CreateRoot));
    assert!(matches!(&ops[1], StoreOp::DeleteSubkey(n) if n == "ExtensionInstallForcelist"));
    assert!(matches!(&ops[2], StoreOp::SetValue(e) if e.name == "ShowHomeButton" && e.subkey.is_empty()));
    assert!(matches!(&ops[3], StoreOp::SetValue(e)
        if e.name == "1" && e.subkey == "ExtensionInstallForcelist"
            && matches!(&e.value, RegValue::Sz(v) if v == "a;u")));
}

#[test]
fn apply_empty_batch_still_clears_list() {
    let ops = apply(&Vec::new());
    assert_eq!(ops.len(), 2);
    assert!(matches!(ops[0], StoreOp::CreateRoot));
    assert!(matches!(&ops[1], StoreOp::DeleteSubkey(n) if n == "ExtensionInstallForcelist"));
}

#[test]
fn clean_touches_only_managed_names() {
    let ops = clean();
    assert_eq!(ops.len(), 14);
    let mut values = Vec::new();
    for op in &ops[..12] {
        match op {
            StoreOp::DeleteValue(n) => values.push(n.clone()),
            _ => panic!("expected a value deletion"),
        }
    }
    assert_eq!(
        values,
        names(&[
            "DefaultSearchProviderEnabled",
            "DefaultSearchProviderName",
            "DefaultSearchProviderSearchURL",
            "DefaultSearchProviderSuggestURL",
            "RestoreOnStartup",
            "ShowHomeButton",
            "FavoritesBarEnabled",
            "HideFirstRunExperience",
            "TrackingPrevention",
            "PasswordManagerEnabled",
            "AutofillCreditCardEnabled",
            "AutofillAddressEnabled",
        ])
    );
    assert!(matches!(&ops[12], StoreOp::DeleteSubkey(n) if n == "ExtensionInstallForcelist"));
    assert!(matches!(ops[13], StoreOp::DeleteRootIfEmpty));
}

#[test]
fn precedence_reports_root_overlap_once() {
    let entries = vec![
        dword("", "X", 1),
        sz("", "DefaultSearchProviderName", "Kagi"),
        sz("ExtensionInstallForcelist", "1", "a;u"),
    ];
    let higher = names(&["X", "Unrelated"]);
    assert_eq!(check_hklm_conflicts(&entries, &higher), names(&["X"]));
}

#[test]
fn precedence_ignores_list_entries_and_absent_store() {
    let entries = vec![sz("ExtensionInstallForcelist", "1", "a;u"), dword("", "ShowHomeButton", 0)];
    assert!(check_hklm_conflicts(&entries, &names(&["1", "Other"])).is_empty());
    assert!(check_hklm_conflicts(&entries, &Vec::new()).is_empty());
    assert_eq!(
        check_hklm_conflicts(&entries, &names(&["ShowHomeButton", "1"])),
        names(&["ShowHomeButton"])
    );
}

#[test]
fn dump_absent_root() {
    assert_eq!(dump(&None), names(&["No HKCU Edge policies found."]));
}

#[test]
fn dump_values_and_subkeys() {
    let root = KeySnapshot {
        values: vec![
            NamedValue { name: "ShowHomeButton".to_string(), value: DumpValue::Dword(1) },
            NamedValue { name: "DefaultSearchProviderName".to_string(), value: DumpValue::Text("Kagi".to_string()) },
            NamedValue { name: "Blob".to_string(), value: DumpValue::Other(vec![1, 2, 255]) },
        ],
        subkeys: vec![SubkeySnapshot {
            name: "ExtensionInstallForcelist".to_string(),
            values: vec![NamedValue { name: "1".to_string(), value: DumpValue::Text("a;u".to_string()) }],
        }],
    };
    assert_eq!(
        dump(&Some(root)),
        names(&[
            "HKCU\\SOFTWARE\\Policies\\Microsoft\\Edge",
            "",
            "ShowHomeButton = DWORD(1)",
            "DefaultSearchProviderName = \"Kagi\"",
            "Blob = [1, 2, 255]",
            "  [ExtensionInstallForcelist]",
            "    1 = \"a;u\"",
        ])
    );
}

#[test]
fn dump_empty_key_and_empty_bytes() {
    let root = KeySnapshot { values: Vec::new(), subkeys: Vec::new() };
    assert_eq!(dump(&Some(root)), names(&["HKCU\\SOFTWARE\\Policies\\Microsoft\\Edge", ""]));
    let vals = vec![NamedValue { name: "E".to_string(), value: DumpValue::Other(Vec::new()) }];
    assert_eq!(dump_key(&vals, "  "), names(&["  E = []"]));
}

#[test]
fn copied_entry_is_equal() {
    let e: PolicyEntry = sz("S", "N", "V");
    let c = copy_entry(&e);
    assert_eq!(c.render(), e.render());
}
