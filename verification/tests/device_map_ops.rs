use device_history::device_map::DeviceMap;
use device_history::types::UsbDevice;

fn named(name: &str) -> UsbDevice {
    UsbDevice {
        Name: Some(name.to_string()),
        DeviceID: None,
        Description: None,
        Manufacturer: None,
        PNPClass: None,
    }
}

fn keys(m: &DeviceMap<UsbDevice>) -> Vec<String> {
    (0..m.len()).map(|i| m.key_at(i).clone()).collect()
}

#[test]
fn new_map_is_empty() {
    let m: DeviceMap<UsbDevice> = DeviceMap::new();
    assert_eq!(m.len(), 0);
    assert!(!m.contains_key("a"));
    assert!(m.get("a").is_none());
    assert_eq!(m.position("a"), None);
}

#[test]
fn insert_appends_new_keys_and_replaces_known_ones() {
    let mut m = DeviceMap::new();
    m.insert("b".to_string(), named("first b"));
    m.insert("a".to_string(), named("a"));
    m.insert("b".to_string(), named("second b"));
    assert_eq!(keys(&m), vec!["b", "a"]);
    assert_eq!(m.get("b").unwrap().display_name(), "second b");
    assert_eq!(m.position("a"), Some(1));
    assert_eq!(m.value_at(1).display_name(), "a");
}

#[test]
fn remove_keeps_the_order_of_the_rest() {
    let mut m = DeviceMap::new();
    for k in ["x", "y", "z"] {
        m.insert(k.to_string(), named(k));
    }
    assert!(m.remove("y"));
    assert!(!m.remove("y"));
    assert_eq!(keys(&m), vec!["x", "z"]);
    assert_eq!(m.get("z").unwrap().display_name(), "z");
}

#[test]
fn replace_at_keeps_the_key() {
    let mut m = DeviceMap::new();
    m.insert("x".to_string(), named("old"));
    m.replace_at(0, named("new"));
    assert_eq!(keys(&m), vec!["x"]);
    assert_eq!(m.get("x").unwrap().display_name(), "new");
}

#[test]
fn retain_flagged_keeps_what_is_flagged() {
    let mut m = DeviceMap::new();
    for k in ["a", "b", "c", "d"] {
        m.insert(k.to_string(), named(k));
    }
    m.retain_flagged(&vec![true, false, false, true]);
    assert_eq!(keys(&m), vec!["a", "d"]);
    assert_eq!(m.get("d").unwrap().display_name(), "d");
    assert!(!m.contains_key("b"));
    m.retain_flagged(&vec![false, false]);
    assert_eq!(m.len(), 0);
}

#[test]
fn duplicate_copies_keys_and_values() {
    let mut m = DeviceMap::new();
    m.insert("a".to_string(), named("one"));
    m.insert("b".to_string(), named("two"));
    let mut copy = m.duplicate();
    copy.insert("a".to_string(), named("changed"));
    assert_eq!(keys(&copy), vec!["a", "b"]);
    assert_eq!(m.get("a").unwrap().display_name(), "one");
    assert_eq!(copy.get("a").unwrap().display_name(), "changed");
}
