//! What the library promises, stated in terms of what goes in and what comes
//! out.

pub mod texts;
pub mod files;
pub mod rows;
pub mod selection;
pub mod search;
pub mod order;
pub mod documents;
pub mod windows;
pub mod actions;
pub mod trees;
pub mod icons;
pub mod storage;
pub mod scaling;
pub mod values;
