//! Query scheduler: memoizing, demand-driven execution of pure queries.

pub mod arena;
pub mod cell;
pub mod name;
pub mod scheduler;
pub mod tables;

pub use name::Name;
