use wine_display::display::{apply_display_overlay, bool_to_yes, get_display_state, DisplayState};
use wine_display::document::{read_dword, read_sz, read_val, Document};
use wine_display::error::Errors;
use wine_display::model::{Key, Value, ValueName};

fn named(s: &str) -> ValueName {
    ValueName::Named(s.to_string())
}

fn one(name: &str, v: Value) -> Key {
    Key::new().with(named(name), v)
}

fn doc_with(fonts: u32, desktop: u32, retina: &str) -> Document {
    Document::new()
        .with("Software\\Wine\\Fonts".to_string(), one("LogPixels", Value::Dword(fonts)))
        .with("Control Panel\\Desktop".to_string(), one("LogPixels", Value::Dword(desktop)))
        .with(
            "Software\\Wine\\Mac Driver".to_string(),
            one("RetinaMode", Value::Sz(retina.to_string())),
        )
}

#[test]
fn scenario_read_consistent() {
    let d = doc_with(0x60, 0x60, "Y");
    let s = get_display_state(&d).unwrap();
    assert_eq!(s, DisplayState { dpi: 96, retina_mode: "Y".to_string() });
}

#[test]
fn scenario_read_inconsistent() {
    let d = doc_with(0x60, 0x78, "Y");
    assert_eq!(get_display_state(&d), Err(Errors::Inconsistent));
}

#[test]
fn scenario_write_dpi_only() {
    let d = apply_display_overlay(Document::new(), Some(144), None);
    assert_eq!(read_val(&d, "Software\\Wine\\Fonts", "LogPixels"), Ok(&Value::Dword(0x90)));
    assert_eq!(read_val(&d, "Control Panel\\Desktop", "LogPixels"), Ok(&Value::Dword(0x90)));
    assert_eq!(read_val(&d, "Software\\Wine\\Mac Driver", "RetinaMode"), Err(Errors::KeyMissing));
    assert!(d.get("Software\\Wine\\Mac Driver").is_none());
    assert_eq!(d.keys().len(), 2);
}

#[test]
fn scenario_write_retina_only_keeps_dpi() {
    let d = apply_display_overlay(doc_with(0x60, 0x60, "Y"), None, Some(false));
    assert_eq!(read_dword(&d, "Software\\Wine\\Fonts", "LogPixels"), Ok(0x60));
    assert_eq!(read_dword(&d, "Control Panel\\Desktop", "LogPixels"), Ok(0x60));
    assert_eq!(read_sz(&d, "Software\\Wine\\Mac Driver", "RetinaMode"), Ok("N".to_string()));
    let s = get_display_state(&d).unwrap();
    assert_eq!(s.dpi, 96);
    assert_eq!(s.retina_mode, "N");
}

#[test]
fn write_both_settings() {
    let d = apply_display_overlay(Document::new(), Some(120), Some(true));
    let s = get_display_state(&d).unwrap();
    assert_eq!(s, DisplayState { dpi: 120, retina_mode: "Y".to_string() });
}

#[test]
fn write_nothing_keeps_document() {
    let before = doc_with(0x60, 0x60, "N");
    let after = apply_display_overlay(before.clone(), None, None);
    assert_eq!(before, after);
}

#[test]
fn write_keeps_other_values_of_the_key() {
    let d = Document::new().with(
        "Software\\Wine\\Mac Driver".to_string(),
        Key::new()
            .with(named("RetinaMode"), Value::Sz("Y".to_string()))
            .with(named("Other"), Value::Dword(7)),
    );
    let d = apply_display_overlay(d, None, Some(false));
    assert_eq!(read_val(&d, "Software\\Wine\\Mac Driver", "Other"), Ok(&Value::Dword(7)));
    assert_eq!(read_sz(&d, "Software\\Wine\\Mac Driver", "RetinaMode"), Ok("N".to_string()));
}

#[test]
fn bool_to_yes_maps_both() {
    assert_eq!(bool_to_yes(true), "Y");
    assert_eq!(bool_to_yes(false), "N");
}

#[test]
fn read_missing_key() {
    let d = doc_with(0x60, 0x60, "Y");
    assert_eq!(read_val(&d, "NoSuchKey", "x"), Err(Errors::KeyMissing));
    assert_eq!(read_val(&Document::new(), "NoSuchKey", "x"), Err(Errors::KeyMissing));
}

#[test]
fn read_missing_value() {
    let d = doc_with(0x60, 0x60, "Y");
    assert_eq!(read_val(&d, "Software\\Wine\\Fonts", "x"), Err(Errors::KeyMissing));
}

#[test]
fn read_wrong_variant() {
    let d = doc_with(0x60, 0x60, "Y");
    assert_eq!(read_dword(&d, "Software\\Wine\\Mac Driver", "RetinaMode"), Err(Errors::WrongFormat));
    assert_eq!(read_sz(&d, "Software\\Wine\\Fonts", "LogPixels"), Err(Errors::WrongFormat));
}

#[test]
fn display_state_wrong_variant() {
    let d = doc_with(0x60, 0x60, "Y").with(
        "Control Panel\\Desktop".to_string(),
        one("LogPixels", Value::Sz("96".to_string())),
    );
    assert_eq!(get_display_state(&d), Err(Errors::WrongFormat));
}

#[test]
fn display_state_missing_retina() {
    let d = apply_display_overlay(Document::new(), Some(96), None);
    assert_eq!(get_display_state(&d), Err(Errors::KeyMissing));
}

#[test]
fn key_names_are_case_sensitive() {
    let d = doc_with(0x60, 0x60, "Y");
    assert_eq!(read_val(&d, "software\\wine\\fonts", "LogPixels"), Err(Errors::KeyMissing));
    assert_eq!(read_val(&d, "Software\\Wine\\Fonts", "logpixels"), Err(Errors::KeyMissing));
}
