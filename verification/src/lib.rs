//! An extract–load toolkit: a chunk planner for ranged downloads, a bijective
//! surrogate-key allocator backed by a relational store, and the decision
//! logic of a transactional batch loader.

pub mod digits;
pub mod download;
pub mod error;
pub mod etl;
pub mod fetch;
pub mod keymap;
pub mod load;

pub use error::EtlError;
pub use keymap::KeyMap;
