//! Rokugo compiler front-end: the incremental query runtime and the
//! pipelines it drives, with machine-checked contracts.

pub mod ast;
pub mod backend_common;
pub mod diagnostic;
pub mod ir;
pub mod ir_generated;
pub mod lexis;
pub mod mir;
pub mod parser;
pub mod query;
pub mod source_code;
pub mod text;
