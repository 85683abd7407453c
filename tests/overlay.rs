use wine_display::document::{apply_overlays, read_val, Document};
use wine_display::error::Errors;
use wine_display::model::{Key, Value, ValueName};

fn named(s: &str) -> ValueName {
    ValueName::Named(s.to_string())
}

fn base() -> Document {
    Document::new()
        .with("A".to_string(), Key::new().with(named("x"), Value::Dword(1)).with(named("y"), Value::Sz("keep".to_string())))
        .with("B".to_string(), Key::new().with(ValueName::Default, Value::Binary(vec![1, 2, 3])))
}

#[test]
fn overlay_twice_equals_once() {
    let frag = Key::new().with(named("x"), Value::Dword(9)).with(named("z"), Value::Qword(5));
    let once = base().with("A".to_string(), frag.clone());
    let twice = once.clone().with("A".to_string(), frag);
    assert_eq!(once, twice);
}

#[test]
fn overlay_leaves_other_keys() {
    let d = base();
    let b_before = d.get("B").unwrap().clone();
    let r = d.with("A".to_string(), Key::new().with(named("x"), Value::Dword(2)));
    assert_eq!(r.get("B").unwrap(), &b_before);
    assert!(r.get("C").is_none());
}

#[test]
fn overlay_overwrites_and_keeps() {
    let r = base().with("A".to_string(), Key::new().with(named("x"), Value::Dword(2)));
    assert_eq!(read_val(&r, "A", "x"), Ok(&Value::Dword(2)));
    assert_eq!(read_val(&r, "A", "y"), Ok(&Value::Sz("keep".to_string())));
    assert_eq!(r.get("A").unwrap().values().len(), 2);
}

#[test]
fn overlay_creates_missing_key() {
    let r = base().with("C\\D".to_string(), Key::new().with(named("n"), Value::MultiSz(vec!["a".to_string(), "b".to_string()])));
    assert_eq!(read_val(&r, "C\\D", "n"), Ok(&Value::MultiSz(vec!["a".to_string(), "b".to_string()])));
    assert_eq!(r.keys().len(), 3);
}

#[test]
fn default_value_is_distinct_from_named() {
    let d = base();
    let b = d.get("B").unwrap();
    assert_eq!(b.get(&ValueName::Default), Some(&Value::Binary(vec![1, 2, 3])));
    assert_eq!(b.get(&named("@")), None);
    assert_eq!(read_val(&d, "B", ""), Err(Errors::KeyMissing));
}

#[test]
fn later_overlay_wins_on_same_name() {
    let r = apply_overlays(
        base(),
        vec![
            ("A".to_string(), Key::new().with(named("x"), Value::Dword(3))),
            ("A".to_string(), Key::new().with(named("x"), Value::Dword(4))),
        ],
    );
    assert_eq!(read_val(&r, "A", "x"), Ok(&Value::Dword(4)));
}

#[test]
fn overlays_of_different_keys_commute() {
    let f1 = ("A".to_string(), Key::new().with(named("x"), Value::Dword(3)));
    let f2 = ("E".to_string(), Key::new().with(named("e"), Value::ExpandSz("%PATH%".to_string())));
    let r1 = apply_overlays(base(), vec![f1.clone(), f2.clone()]);
    let r2 = apply_overlays(base(), vec![f2, f1]);
    for k in ["A", "B", "E"] {
        assert_eq!(r1.get(k), r2.get(k));
    }
    assert_eq!(r1.keys().len(), r2.keys().len());
}

#[test]
fn empty_overlay_list_keeps_document() {
    assert_eq!(apply_overlays(base(), vec![]), base());
}

#[test]
fn key_insert_replaces_in_place() {
    let mut k = Key::new().with(named("a"), Value::Delete);
    k.insert(named("a"), Value::DwordBigEndian(8));
    assert_eq!(k.values().len(), 1);
    assert_eq!(k.get(&named("a")), Some(&Value::DwordBigEndian(8)));
}

#[test]
fn key_merge_prefers_fragment() {
    let mut k = Key::new().with(named("a"), Value::Dword(1)).with(named("b"), Value::Dword(2));
    k.merge(Key::new().with(named("b"), Value::Dword(3)).with(named("c"), Value::Hex { kind: 0, bytes: vec![] }));
    assert_eq!(k.values().len(), 3);
    assert_eq!(k.get(&named("a")), Some(&Value::Dword(1)));
    assert_eq!(k.get(&named("b")), Some(&Value::Dword(3)));
    assert_eq!(k.get(&named("c")), Some(&Value::Hex { kind: 0, bytes: vec![] }));
}

#[test]
fn value_name_same() {
    assert!(ValueName::Default.same(&ValueName::Default));
    assert!(named("a").same(&named("a")));
    assert!(!named("a").same(&named("A")));
    assert!(!named("a").same(&ValueName::Default));
}
