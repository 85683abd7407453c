//! The display-settings protocol: DPI, stored identically at two places, and
//! the retina mode flag, stored as `"Y"` or `"N"`.

use vstd::prelude::*;
use crate::document::{dword_at, overlay, read_dword, read_sz, sz_at, Document};
use crate::error::Errors;
use crate::model::{DocView, Key, KeyView, Value, ValueName, ValueView};

verus! {

/// The key that holds the DPI read by the font subsystem.
pub open spec fn fonts_path() -> Seq<char> {
    "Software\\Wine\\Fonts"@
}

/// The key that holds the DPI read by the desktop.
pub open spec fn desktop_path() -> Seq<char> {
    "Control Panel\\Desktop"@
}

/// The key that holds the retina mode flag.
pub open spec fn mac_driver_path() -> Seq<char> {
    "Software\\Wine\\Mac Driver"@
}

/// The flag's text for a boolean.
pub open spec fn yes_no(b: bool) -> Seq<char> {
    if b {
        "Y"@
    } else {
        "N"@
    }
}

/// What reading the display settings of `d` gives: the DPI and the retina
/// mode text, or the first failure met, reading the font DPI, the desktop DPI
/// and the retina mode in that order, then comparing the two DPIs.
pub open spec fn display_state_of(d: DocView) -> Result<(u32, Seq<char>), Errors> {
    match dword_at(d, fonts_path(), "LogPixels"@) {
        Err(e) => Err(e),
        Ok(fonts) => match dword_at(d, desktop_path(), "LogPixels"@) {
            Err(e) => Err(e),
            Ok(desktop) => match sz_at(d, mac_driver_path(), "RetinaMode"@) {
                Err(e) => Err(e),
                Ok(mode) => if fonts == desktop {
                    Ok((desktop, mode))
                } else {
                    Err(Errors::Inconsistent)
                },
            },
        },
    }
}

/// A key holding the single value `v` under the name `n`.
pub open spec fn single(n: Seq<char>, v: ValueView) -> KeyView {
    Map::empty().insert(Some(n), v)
}

/// `d` with the supplied settings written: the retina flag first, then the DPI
/// at the desktop and at the fonts key. A setting not supplied is not touched.
pub open spec fn display_overlay(d: DocView, dpi: Option<u32>, retina: Option<bool>) -> DocView {
    let d1 = match retina {
        Some(b) => overlay(d, mac_driver_path(), single("RetinaMode"@, ValueView::Sz(yes_no(b)))),
        None => d,
    };
    match dpi {
        Some(n) => overlay(
            overlay(d1, desktop_path(), single("LogPixels"@, ValueView::Dword(n))),
            fonts_path(),
            single("LogPixels"@, ValueView::Dword(n)),
        ),
        None => d1,
    }
}

/// The display settings read from a document.
#[derive(Debug, Clone, PartialEq, Eq)]
pub struct DisplayState {
    pub dpi: u32,
    pub retina_mode: String,
}

/// The retina mode text for a boolean: `"Y"` for true, `"N"` for false.
pub fn bool_to_yes(b: bool) -> (r: String)
    ensures
        r@ == yes_no(b),
{
    if b {
        "Y".to_owned()
    } else {
        "N".to_owned()
    }
}

/// Reads the DPI and the retina mode; the two DPI places must agree.
pub fn get_display_state(registry: &Document) -> (r: Result<DisplayState, Errors>)
    requires
        registry.wf(),
    ensures
        match r {
            Ok(s) => display_state_of(registry@) == Ok::<(u32, Seq<char>), Errors>(
                (s.dpi, s.retina_mode@),
            ),
            Err(e) => display_state_of(registry@) == Err::<(u32, Seq<char>), Errors>(e),
        },
{
    let dpi_wine_fonts = match read_dword(registry, "Software\\Wine\\Fonts", "LogPixels") {
        Ok(n) => n,
        Err(e) => return Err(e),
    };
    let dpi_control_panel = match read_dword(registry, "Control Panel\\Desktop", "LogPixels") {
        Ok(n) => n,
        Err(e) => return Err(e),
    };
    let retina_mode = match read_sz(registry, "Software\\Wine\\Mac Driver", "RetinaMode") {
        Ok(s) => s,
        Err(e) => return Err(e),
    };
    if dpi_control_panel != dpi_wine_fonts {
        return Err(Errors::Inconsistent);
    }
    Ok(DisplayState { dpi: dpi_control_panel, retina_mode })
}

/// Writes whichever settings are supplied: the DPI at both of its places,
/// the retina mode as `"Y"` or `"N"`. Everything else is kept.
pub fn apply_display_overlay(registry: Document, dpi: Option<u32>, retina: Option<bool>) -> (r:
    Document)
    requires
        registry.wf(),
    ensures
        r.wf(),
        r@ == display_overlay(registry@, dpi, retina),
{
    let mut registry = registry;
    match retina {
        Some(b) => {
            let frag = Key::new().with(
                ValueName::Named("RetinaMode".to_owned()),
                Value::Sz(bool_to_yes(b)),
            );
            registry = registry.with("Software\\Wine\\Mac Driver".to_owned(), frag);
        },
        None => {},
    }
    match dpi {
        Some(n) => {
            let desktop = Key::new().with(ValueName::Named("LogPixels".to_owned()), Value::Dword(n));
            registry = registry.with("Control Panel\\Desktop".to_owned(), desktop);
            let fonts = Key::new().with(ValueName::Named("LogPixels".to_owned()), Value::Dword(n));
            registry = registry.with("Software\\Wine\\Fonts".to_owned(), fonts);
        },
        None => {},
    }
    registry
}

} // verus!
