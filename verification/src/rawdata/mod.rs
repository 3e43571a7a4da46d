//! The rawdata output: the payload of each packet, numbered within its flow.

pub mod insert;
pub mod packet;
pub mod table;
