//! A small execution runtime: binary-framed commands name a node of a
//! computation graph; the library decodes them, queues them and works out
//! which node actions have to run.

pub mod command_processor;
pub mod network;
pub mod protocol;
