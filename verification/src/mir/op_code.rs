//! Op codes and instructions.

use crate::backend_common::FunctionId;
use crate::backend_common::ValueId;
use core::ops::Range;
use vstd::prelude::*;

verus! {

#[derive(Debug, Clone, Copy, PartialEq, Eq, Structural)]
pub enum MirOpCode {
    // Memory
    /// Layout: the [`ValueId`] of the defined value, then the `u32` literal assigned to
    /// it.
    DefineNat32,
    /// Layout: the [`ValueId`] of the defined value, then the `i32` literal assigned to
    /// it.
    DefineInt32,
    // Control flow
    /// Layout: the [`ValueId`] of the value that is returned from this function.
    ReturnValue,
    /// Layout: the [`ValueId`] of the value that the called function returns, the
    /// [`FunctionId`] of the called function, the count of arguments in one byte, and the
    /// [`ValueId`]s of the arguments.
    Call,
    // Meta
    /// Layout: the start and the end of the span, eight bytes each.
    MetaSpan,
}

#[derive(Debug, PartialEq)]
pub struct MirInstruction {
    pub data: MirInstructionData,
    pub meta: MirInstructionMeta,
}

#[derive(Debug, PartialEq)]
pub enum MirInstructionData {
    // Memory
    DefineNat32(ValueId, u32),
    DefineInt32(ValueId, i32),
    // Control flow
    ReturnValue(ValueId),
    Call(ValueId, FunctionId, Vec<ValueId>),
}

#[derive(Debug, PartialEq)]
pub struct MirInstructionMeta {
    pub span: Option<Range<usize>>,
}

impl MirOpCode {
    /// The byte that stands for the op code.
    pub open spec fn number(self) -> u8 {
        match self {
            MirOpCode::DefineNat32 => 0,
            MirOpCode::DefineInt32 => 1,
            MirOpCode::ReturnValue => 2,
            MirOpCode::Call => 3,
            MirOpCode::MetaSpan => 4,
        }
    }

    /// The op code that `number` stands for, if it stands for one.
    pub open spec fn of_number(number: u8) -> Option<MirOpCode> {
        if number == 0 {
            Some(MirOpCode::DefineNat32)
        } else if number == 1 {
            Some(MirOpCode::DefineInt32)
        } else if number == 2 {
            Some(MirOpCode::ReturnValue)
        } else if number == 3 {
            Some(MirOpCode::Call)
        } else if number == 4 {
            Some(MirOpCode::MetaSpan)
        } else {
            None
        }
    }

    /// The byte that stands for the op code.
    pub fn to_number(self) -> (number: u8)
        ensures
            number == self.number(),
    {
        match self {
            MirOpCode::DefineNat32 => 0,
            MirOpCode::DefineInt32 => 1,
            MirOpCode::ReturnValue => 2,
            MirOpCode::Call => 3,
            MirOpCode::MetaSpan => 4,
        }
    }

    /// The op code that `number` stands for, if it stands for one.
    pub fn from_number(number: u8) -> (op_code: Option<MirOpCode>)
        ensures
            op_code == MirOpCode::of_number(number),
    {
        if number == 0 {
            Some(MirOpCode::DefineNat32)
        } else if number == 1 {
            Some(MirOpCode::DefineInt32)
        } else if number == 2 {
            Some(MirOpCode::ReturnValue)
        } else if number == 3 {
            Some(MirOpCode::Call)
        } else if number == 4 {
            Some(MirOpCode::MetaSpan)
        } else {
            None
        }
    }
}

impl Default for MirInstructionMeta {
    fn default() -> (meta: Self)
        ensures
            meta.span is None,
    {
        MirInstructionMeta { span: None }
    }
}

} // verus!
