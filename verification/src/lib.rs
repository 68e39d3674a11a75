//! Core logic for a desktop screen-mirroring helper: parsing the line-oriented
//! output of an external device-bridge tool, classifying discovered devices,
//! re-identifying a device after a wired-to-wireless transport switch, and
//! tracking mirroring subprocesses in a session registry.
//!
//! Everything here is pure computation with verified contracts.  Launching the
//! external tools, file persistence and the UI shell live outside this crate
//! and hand plain values in and out.

pub mod text;
pub mod adb;
pub mod catalog;
pub mod registry;
pub mod reconnect;
pub mod mirror;
