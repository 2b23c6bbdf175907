//! The commands of the tool, as plain values.
pub mod addon;
pub mod entity;
pub mod model;
pub mod vmf;
