//! The intermediate representation that the back ends consume.

pub mod archive;
pub mod container;
pub mod function;
pub mod instruction_read_error;
pub mod op_code;
pub mod register;
pub mod small;
pub mod types;
