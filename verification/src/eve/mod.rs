//! The EVE output: JSON events that Suricata writes, sorted into tables.

pub mod address;
pub mod event;
pub mod postgres;
pub mod sqlite;
