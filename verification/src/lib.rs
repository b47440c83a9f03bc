//! Screen analysis and decision logic of a resurrection-dialog assistant.

pub mod components;
pub mod config;
pub mod cycle;
pub mod decision;
pub mod detection;
pub mod diagnostics;
pub mod error;
pub mod icon;
pub mod image;
pub mod input;
pub mod layout;
mod random;
pub mod report;
pub mod settings;
pub mod text;
pub mod tray;
pub mod wide;
pub mod window;
