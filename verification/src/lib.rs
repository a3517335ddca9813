//! Extraction of USB device history from Windows registry hives.
//!
//! The library reads the `SYSTEM` and `SOFTWARE` hives (as raw bytes) and
//! collects, for every USB storage device that was ever attached, its
//! vendor, product, revision, serial number, vendor/product identifiers,
//! volume GUID, drive letters and the install / connect / removal times.

pub mod text;
pub mod structure;
pub mod timestamp;
pub mod hive_check;
pub mod hive;
pub mod extract;
pub mod laws;
