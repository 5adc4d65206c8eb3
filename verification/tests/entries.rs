use cybervault::entry_map::EntryMap;
use cybervault::label_order::{compare_labels, LabelOrder};
use cybervault::vault::{Entry, VaultData};

fn entry(secret: &str) -> Entry {
    Entry { secret: secret.to_string(), created: "2026-01-01".to_string(), note: None }
}

#[test]
fn insert_then_get_returns_the_entry() {
    let mut m = EntryMap::new();
    assert!(m.insert("github".to_string(), entry("a")).is_none());
    assert_eq!(m.get("github").unwrap().secret, "a");
    assert!(m.get("gitlab").is_none());
    assert!(m.contains_key("github"));
    assert_eq!(m.len(), 1);
}

#[test]
fn insert_replaces_and_returns_the_previous_entry() {
    let mut m = EntryMap::new();
    m.insert("k".to_string(), entry("old"));
    let previous = m.insert("k".to_string(), entry("new")).unwrap();
    assert_eq!(previous.secret, "old");
    assert_eq!(m.get("k").unwrap().secret, "new");
    assert_eq!(m.len(), 1);
}

#[test]
fn remove_returns_the_entry_and_forgets_it() {
    let mut m = EntryMap::new();
    m.insert("a".to_string(), entry("1"));
    m.insert("b".to_string(), entry("2"));
    assert_eq!(m.remove("a").unwrap().secret, "1");
    assert!(!m.contains_key("a"));
    assert!(m.remove("a").is_none());
    assert_eq!(m.keys(), vec!["b".to_string()]);
}

#[test]
fn keys_come_out_in_string_order() {
    let mut m = EntryMap::new();
    let labels = ["zeta", "Alpha", "éclair", "alpha", "a", "", "Zeta", "ab"];
    for l in labels {
        m.insert(l.to_string(), entry(l));
    }
    let mut expected: Vec<String> = labels.iter().map(|l| l.to_string()).collect();
    expected.sort();
    assert_eq!(m.keys(), expected);
    assert_eq!(m.len(), labels.len());
}

#[test]
fn compare_labels_agrees_with_string_order() {
    let samples = ["", "a", "ab", "b", "B", "é", "e", "éa", "\u{10FFFF}", "z"];
    for x in samples {
        for y in samples {
            let expected = if x < y {
                LabelOrder::Before
            } else if x == y {
                LabelOrder::Same
            } else {
                LabelOrder::After
            };
            assert_eq!(compare_labels(x, y), expected, "{x:?} vs {y:?}");
        }
    }
}

#[test]
fn default_vault_is_empty() {
    let data = VaultData::default();
    assert!(data.entries.is_empty());
    assert_eq!(data.entries.len(), 0);
}
