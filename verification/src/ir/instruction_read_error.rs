//! What can go wrong when an instruction is read.

use crate::text::decimal;
use crate::text::push_str;
use crate::text::u64_to_string;
use crate::text::usize_to_string;
use vstd::prelude::*;

verus! {

#[derive(Debug, Clone, Copy, PartialEq, Eq, Structural)]
pub enum IrInstructionReadError {
    /// The bytes at the index are the number of no op code.
    InvalidOpCode(usize, u16),
}

impl IrInstructionReadError {
    /// The text of the error.
    pub fn message(&self) -> (text: String)
        ensures
            match *self {
                IrInstructionReadError::InvalidOpCode(index, op_code) => text@
                    == "Invalid op code `"@ + decimal(op_code as nat) + "` at index: "@ + decimal(
                    index as nat,
                ),
            },
    {
        match self {
            IrInstructionReadError::InvalidOpCode(index, op_code) => {
                let mut text = "Invalid op code `".to_owned();
                push_str(&mut text, u64_to_string(*op_code as u64).as_str());
                push_str(&mut text, "` at index: ");
                push_str(&mut text, usize_to_string(*index).as_str());
                text
            },
        }
    }
}

} // verus!
