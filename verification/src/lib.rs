//! The logic of a viewer for the text chunks (`tEXt`, `zTXt`, `iTXt`) of PNG files.
//!
//! Everything here works on plain values: bytes and texts come in, rows, plans
//! and messages go out. Files, windows and threads belong to the application.

pub mod text;
pub mod rounding;
pub mod full;
pub mod chunks;
pub mod json;
pub mod lenient;
pub mod index;
pub mod lists;
pub mod clock;
pub mod model;
pub mod cache;
pub mod sorting;
pub mod scan;
pub mod thumbs;
pub mod lightbox;
pub mod pins;
pub mod table;
pub mod controls;
pub mod viewer;
pub mod tree;
pub mod labels;
pub mod icon;
pub mod laws;
