//! Verified core of the quickshot screenshot tool.

pub mod capture;
pub mod clock;
pub mod color;
pub mod history;
pub mod hotkey;
pub mod keys;
pub mod model;
pub mod options;
pub mod output;
pub mod overlay;
pub mod picture;
pub mod pixels;
pub mod text;
