use std::collections::{BTreeMap, BTreeSet};

use edge_profile::config::{Config, ExtensionItem};
use edge_profile::policy::{build_entries, dword, sz, PolicyEntry, RegValue};
use edge_profile::registry::{apply, clean, StoreOp};

#[derive(Clone, Debug, PartialEq, Eq)]
enum Val {
    Dword(u32),
    Sz(String),
}

/// A store held in memory: existing keys ("" is the policy key) and values by (subkey, name).
#[derive(Clone, Debug, PartialEq, Eq, Default)]
struct MemStore {
    keys: BTreeSet<String>,
    values: BTreeMap<(String, String), Val>,
}

impl MemStore {
    /// Performs the operations in order and returns a description of each removal.
    fn run(&mut self, ops: &[StoreOp]) -> Vec<String> {
        let mut removed = Vec::new();
        for op in ops {
            match op {
                StoreOp::CreateRoot => {
                    self.keys.insert(String::new());
                }
                StoreOp::DeleteSubkey(n) => {
                    if self.keys.remove(n) {
                        removed.push(format!("subkey {n}"));
                    }
                    self.values.retain(|k, _| &k.0 != n);
                }
                StoreOp::SetValue(e) => {
                    self.keys.insert(String::new());
                    self.keys.insert(e.subkey.clone());
                    let v = match &e.value {
                        RegValue::Dword(d) => Val::Dword(*d),
                        RegValue::Sz(s) => Val::Sz(s.clone()),
                    };
                    self.values.insert((e.subkey.clone(), e.name.clone()), v);
                }
                StoreOp::DeleteValue(n) => {
                    if self.values.remove(&(String::new(), n.clone())).is_some() {
                        removed.push(n.clone());
                    }
                }
                StoreOp::DeleteRootIfEmpty => {
                    let empty = self.values.is_empty() && self.keys.iter().all(|k| k.is_empty());
                    if self.keys.contains("") && empty {
                        self.keys.remove("");
                        removed.push("policy key".to_string());
                    }
                }
            }
        }
        removed
    }

    fn list_names(&self) -> Vec<String> {
        self.values
            .keys()
            .filter(|k| k.0 == "ExtensionInstallForcelist")
            .map(|k| k.1.clone())
            .collect()
    }
}

fn extensions(specs: &[&str]) -> Vec<PolicyEntry> {
    let items = specs
        .iter()
        .enumerate()
        .map(|(i, s)| ExtensionItem { key: format!("e{i}"), spec: Some(s.to_string()) })
        .collect();
    build_entries(&Config { search: None, extensions: Some(items), browser: None, privacy: None })
}

fn foreign_store() -> MemStore {
    let mut s = MemStore::default();
    s.keys.insert(String::new());
    s.keys.insert("Recommended".to_string());
    s.values.insert((String::new(), "HomepageLocation".to_string()), Val::Sz("https://x".to_string()));
    s.values.insert(("Recommended".to_string(), "Foo".to_string()), Val::Dword(3));
    s
}

#[test]
fn apply_twice_equals_apply_once() {
    let mut entries = vec![dword("", "ShowHomeButton", 1), sz("", "DefaultSearchProviderName", "Kagi")];
    entries.extend(extensions(&["edge:A", "chrome:B"]));
    let ops = apply(&entries);
    let mut once = foreign_store();
    once.run(&ops);
    let mut twice = once.clone();
    twice.run(&ops);
    assert_eq!(once, twice);
    assert_eq!(once.list_names(), vec!["1".to_string(), "2".to_string()]);
}

#[test]
fn shorter_list_replaces_longer() {
    let mut store = MemStore::default();
    store.run(&apply(&extensions(&["A", "B", "C"])));
    assert_eq!(store.list_names().len(), 3);
    store.run(&apply(&extensions(&["D"])));
    assert_eq!(store.list_names(), vec!["1".to_string()]);
    assert_eq!(
        store.values.get(&("ExtensionInstallForcelist".to_string(), "1".to_string())),
        Some(&Val::Sz("D;https://edge.microsoft.com/extensionwebstorebase/v1/crx".to_string()))
    );
}

#[test]
fn clean_twice_second_is_noop() {
    let mut store = foreign_store();
    let mut entries = vec![dword("", "ShowHomeButton", 1), dword("", "TrackingPrevention", 3)];
    entries.extend(extensions(&["A"]));
    store.run(&apply(&entries));
    let first = store.run(&clean());
    assert_eq!(
        first,
        vec!["ShowHomeButton".to_string(), "TrackingPrevention".to_string(), "subkey ExtensionInstallForcelist".to_string()]
    );
    let after = store.clone();
    let second = store.run(&clean());
    assert!(second.is_empty());
    assert_eq!(store, after);
}

#[test]
fn clean_keeps_foreign_values() {
    let mut store = foreign_store();
    store.run(&apply(&vec![dword("", "ShowHomeButton", 0)]));
    store.run(&clean());
    assert!(store.keys.contains(""));
    assert!(store.keys.contains("Recommended"));
    assert_eq!(
        store.values.get(&(String::new(), "HomepageLocation".to_string())),
        Some(&Val::Sz("https://x".to_string()))
    );
    assert_eq!(store.values.get(&("Recommended".to_string(), "Foo".to_string())), Some(&Val::Dword(3)));
    assert!(!store.values.contains_key(&(String::new(), "ShowHomeButton".to_string())));
}

#[test]
fn clean_removes_emptied_policy_key() {
    let mut store = MemStore::default();
    store.run(&apply(&vec![dword("", "ShowHomeButton", 0)]));
    let removed = store.run(&clean());
    assert_eq!(removed, vec!["ShowHomeButton".to_string(), "policy key".to_string()]);
    assert!(store.keys.is_empty());
    assert!(store.values.is_empty());
}

#[test]
fn clean_on_absent_key_removes_nothing() {
    let mut store = MemStore::default();
    assert!(store.run(&clean()).is_empty());
    assert_eq!(store, MemStore::default());
}
