//! The mid-level intermediate representation that front ends emit.

pub mod archive_builder;
pub mod bytes;
pub mod container;
pub mod content;
pub mod emitter;
pub mod function_builder;
pub mod listing;
pub mod op_code;
