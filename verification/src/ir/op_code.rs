//! Op codes and instructions.

use crate::ir::register::RegisterChill;
use crate::ir::register::RegisterId;
use vstd::prelude::*;

verus! {

#[derive(Debug, Clone, Copy, PartialEq, Eq, Structural)]
pub enum IrOpCode {
    // Local memory
    /// Allocates a virtual register, or prepare a native register to store a new 32-bit
    /// natural value.
    ///
    /// Layout: the [`RegisterId`] of the defined register, then the [`RegisterChill`] of
    /// the most optimal registers to chill.
    AllocRegisterNat32,
    /// Drops a virtual register, what preverts it from being chilled.
    ///
    /// This instruction is not dropping any memory like pointer etc. It is only a hint to
    /// the JIT compiler.
    ///
    /// Layout: the [`RegisterId`] of the register to drop.
    DropRegister,
    /// Loads 32-bit natural literal into register.
    ///
    /// Layout: the [`RegisterId`] of the destination register, then the `u32` literal.
    LoadNat32,
    /// Marks which virtual registers are most optimal to chill in the current context.
    ///
    /// Layout: the [`RegisterChill`].
    MarkRegisterChill,
}

#[derive(Debug, PartialEq)]
pub enum IrInstruction<'container> {
    // Local memory
    AllocRegisterNat32(RegisterId, RegisterChill),
    DropRegister(RegisterId),
    LoadNat32(RegisterId, u32),
    MarkRegisterChill(RegisterChill),
    // Control flow
    Call(&'container [u8]),
}

impl IrOpCode {
    /// The number that stands for the op code in the byte stream.
    pub open spec fn number(self) -> u16 {
        match self {
            IrOpCode::AllocRegisterNat32 => 0,
            IrOpCode::DropRegister => 1,
            IrOpCode::LoadNat32 => 2,
            IrOpCode::MarkRegisterChill => 3,
        }
    }

    /// The op code that `number` stands for, if it stands for one.
    pub open spec fn of_number(number: u16) -> Option<IrOpCode> {
        if number == 0 {
            Some(IrOpCode::AllocRegisterNat32)
        } else if number == 1 {
            Some(IrOpCode::DropRegister)
        } else if number == 2 {
            Some(IrOpCode::LoadNat32)
        } else if number == 3 {
            Some(IrOpCode::MarkRegisterChill)
        } else {
            None
        }
    }

    /// Number of bytes of the operands of the op code.
    pub open spec fn operands(self) -> int {
        match self {
            IrOpCode::AllocRegisterNat32 => 2,
            IrOpCode::DropRegister => 2,
            IrOpCode::LoadNat32 => 6,
            IrOpCode::MarkRegisterChill => 0,
        }
    }

    /// The number that stands for the op code in the byte stream.
    pub fn to_number(self) -> (number: u16)
        ensures
            number == self.number(),
    {
        match self {
            IrOpCode::AllocRegisterNat32 => 0,
            IrOpCode::DropRegister => 1,
            IrOpCode::LoadNat32 => 2,
            IrOpCode::MarkRegisterChill => 3,
        }
    }

    /// The op code that `number` stands for. The number comes back as the error if it
    /// stands for none.
    pub fn try_from(number: u16) -> (r: Result<IrOpCode, u16>)
        ensures
            match r {
                Ok(op_code) => IrOpCode::of_number(number) == Some(op_code),
                Err(n) => IrOpCode::of_number(number) is None && n == number,
            },
    {
        if number == 0 {
            Ok(IrOpCode::AllocRegisterNat32)
        } else if number == 1 {
            Ok(IrOpCode::DropRegister)
        } else if number == 2 {
            Ok(IrOpCode::LoadNat32)
        } else if number == 3 {
            Ok(IrOpCode::MarkRegisterChill)
        } else {
            Err(number)
        }
    }
}

/// An op code is read back from its number.
pub proof fn lemma_op_code_roundtrip(op_code: IrOpCode)
    ensures
        IrOpCode::of_number(op_code.number()) == Some(op_code),
{
}

} // verus!
