//! Three Suricata plugins store what Suricata sees in a SQL database: its EVE events, the files
//! that it extracts, and the payloads of packets. This library makes their decisions: what is read
//! out of an event, how parts become files and payloads get their numbers, which statements write
//! a batch, and what the database thread does next. The plugins themselves call it with what
//! Suricata and the database hand them.

pub mod config;
pub mod database;
pub mod eve;
pub mod filedata;
pub mod plugin;
pub mod rawdata;
pub mod text;
