//! A typed model of `.reg` registry documents: keys holding named, typed
//! values, an overlay engine that merges fragments into a document without
//! disturbing unrelated content, a typed accessor, and the display-settings
//! protocol (DPI and retina mode) built on top of them.

pub mod assoc;
pub mod model;
pub mod error;
pub mod document;
pub mod display;
