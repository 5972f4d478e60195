use sched::attrs::Attrs;
use sched::text::{is_plain_key, render};

#[test]
fn new_map_is_empty() {
    let a = Attrs::new();
    assert_eq!(a.len(), 0);
    assert!(a.is_empty());
    assert_eq!(a.get("k"), None);
    assert!(!a.contains_key("k"));
    assert_eq!(a.entry(0), None);
}

#[test]
fn insert_keeps_the_place_of_a_key_and_returns_the_old_value() {
    let mut a = Attrs::new();
    assert_eq!(a.insert("x".to_string(), "1".to_string()), None);
    assert_eq!(a.insert("y".to_string(), "2".to_string()), None);
    assert_eq!(a.insert("x".to_string(), "3".to_string()), Some("1".to_string()));
    assert_eq!(a.len(), 2);
    assert_eq!(a.entry(0), Some((&"x".to_string(), &"3".to_string())));
    assert_eq!(a.entry(1), Some((&"y".to_string(), &"2".to_string())));
    assert_eq!(a.entry(2), None);
    assert_eq!(a.get("x"), Some(&"3".to_string()));
    assert!(a.contains_key("y"));
    assert!(!a.is_empty());
}

#[test]
fn insert_if_absent_keeps_a_value_that_is_there() {
    let mut a = Attrs::new();
    assert!(a.insert_if_absent("x".to_string(), "1".to_string()));
    assert!(!a.insert_if_absent("x".to_string(), "2".to_string()));
    assert!(a.insert_if_absent("y".to_string(), "3".to_string()));
    assert_eq!(a.get("x"), Some(&"1".to_string()));
    assert_eq!(a.get("y"), Some(&"3".to_string()));
    assert_eq!(a.len(), 2);
}

#[test]
fn remove_takes_the_entry_out_and_closes_the_gap() {
    let mut a = Attrs::new();
    a.insert("x".to_string(), "1".to_string());
    a.insert("y".to_string(), "2".to_string());
    a.insert("z".to_string(), "3".to_string());
    assert_eq!(a.remove("y"), Some("2".to_string()));
    assert_eq!(a.remove("y"), None);
    assert_eq!(a.remove("nope"), None);
    assert_eq!(a.len(), 2);
    assert_eq!(a.entry(0), Some((&"x".to_string(), &"1".to_string())));
    assert_eq!(a.entry(1), Some((&"z".to_string(), &"3".to_string())));
}

#[test]
fn a_copy_holds_the_same_entries_and_is_its_own() {
    let mut a = Attrs::new();
    a.insert("x".to_string(), "1".to_string());
    let mut b = a.clone();
    let c = a.clone();
    b.insert("x".to_string(), "2".to_string());
    assert_eq!(a.get("x"), Some(&"1".to_string()));
    assert_eq!(b.get("x"), Some(&"2".to_string()));
    assert_eq!(c.get("x"), Some(&"1".to_string()));
}

#[test]
fn keys_are_compared_by_their_characters() {
    let mut a = Attrs::new();
    a.insert("schlüssel".to_string(), "1".to_string());
    a.insert("".to_string(), "empty".to_string());
    assert_eq!(a.get("schlüssel"), Some(&"1".to_string()));
    assert_eq!(a.get("schlussel"), None);
    assert_eq!(a.get(""), Some(&"empty".to_string()));
}

#[test]
fn plain_keys_hold_no_separator() {
    assert!(is_plain_key("color"));
    assert!(is_plain_key(""));
    assert!(is_plain_key("a,b-c_d"));
    assert!(!is_plain_key("a.b"));
    assert!(!is_plain_key("."));
    assert!(!is_plain_key(".a"));
    assert!(!is_plain_key("a."));
    assert!(!is_plain_key("schlüssel.wert"));
}

#[test]
fn identifiers_are_written_in_decimal() {
    assert_eq!(render(0), "0");
    assert_eq!(render(7), "7");
    assert_eq!(render(10), "10");
    assert_eq!(render(1234567890), "1234567890");
    assert_eq!(render(-1), "-1");
    assert_eq!(render(-908), "-908");
    assert_eq!(render(i32::MAX), "2147483647");
    assert_eq!(render(i32::MIN), "-2147483648");
}
