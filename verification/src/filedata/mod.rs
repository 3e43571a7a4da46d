//! The filedata output: files that Suricata extracts, stored whole under their digest.

pub mod file;
pub mod zlib;
