//! Verified core of `del`, a delete tool that moves paths into a trash
//! before they disappear and can restore them later.

pub mod ids;
pub mod text;
pub mod size;
pub mod paths;
pub mod config;
pub mod compress;
pub mod records;
pub mod tui;
