//! Verified core of a mobile-simulator listing and boot tool.
//!
//! The library parses the text listing produced by the platform's
//! device-management command into structured records, filters them by a
//! case-insensitive substring of the device name, formats them for display,
//! and decides what a boot request should do. All I/O — running the external
//! command, the terminal, the interactive picker — lives outside the library.

pub mod boot;
pub mod device;
pub mod filter;
pub mod listing;
pub mod parser;
pub mod text;
