//! The consumer side of the command queue.

pub mod command_scheduler;
