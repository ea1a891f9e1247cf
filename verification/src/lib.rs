//! Sensor discovery, parsing and formatting logic for a system monitor.
pub mod assoc;
pub mod config;
pub mod format;
pub mod history;
pub mod hwmon;
pub mod sensors;
pub mod text;
