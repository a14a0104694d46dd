//! The wire protocol: byte order, commands, their codec and the
//! per-connection ingestion rules.

pub mod byte_order;
pub mod commands;
pub mod protocol_parser;
pub mod round_trip;
pub mod tcp_server;
pub mod text;
