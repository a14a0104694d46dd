//! The execution graph and the data that flows through it.

pub mod assoc;
pub mod data_container;
pub mod graph;
pub mod node;
