//! Emission of the intermediate representation.

pub mod emitter;
pub mod errors;
pub mod register_allocator;
