//! The byte stream of instructions, and reading it back.

use crate::ir::instruction_read_error::IrInstructionReadError;
use crate::ir::op_code::IrInstruction;
use crate::ir::op_code::IrOpCode;
use crate::ir::register::RegisterChill;
use crate::ir::register::RegisterId;
use vstd::prelude::*;

verus! {

/// A stream of instructions: for each, the two bytes of its op code, low byte first, and
/// the bytes of its operands.
pub struct IrContainer {
    data: Vec<u8>,
}

pub struct IrContainerIterator<'c> {
    container: &'c IrContainer,
    index: usize,
}

/// The 16-bit number at `index`, low byte first.
pub open spec fn read_u16(data: Seq<u8>, index: int) -> u16 {
    (data[index] as int + 256 * (data[index + 1] as int)) as u16
}

/// The 32-bit number at `index`, low byte first.
pub open spec fn read_u32(data: Seq<u8>, index: int) -> u32 {
    (data[index] as int + 256 * (data[index + 1] as int) + 65536 * (data[index + 2] as int)
        + 16777216 * (data[index + 3] as int)) as u32
}

/// Number of bytes of the instruction at `index`: its op code and its operands. An unknown
/// op code stands alone.
pub open spec fn length_at(data: Seq<u8>, index: int) -> int {
    match IrOpCode::of_number(read_u16(data, index)) {
        Some(op_code) => 2 + op_code.operands(),
        None => 2,
    }
}

/// The instruction at `index`, or the error of reading it.
pub open spec fn instruction_at<'a>(data: Seq<u8>, index: int) -> Result<
    IrInstruction<'a>,
    IrInstructionReadError,
> {
    match IrOpCode::of_number(read_u16(data, index)) {
        Some(IrOpCode::AllocRegisterNat32) => Ok(
            IrInstruction::AllocRegisterNat32(
                RegisterId(read_u16(data, index + 2)),
                RegisterChill {  },
            ),
        ),
        Some(IrOpCode::DropRegister) => Ok(
            IrInstruction::DropRegister(RegisterId(read_u16(data, index + 2))),
        ),
        Some(IrOpCode::LoadNat32) => Ok(
            IrInstruction::LoadNat32(
                RegisterId(read_u16(data, index + 2)),
                read_u32(data, index + 4),
            ),
        ),
        Some(IrOpCode::MarkRegisterChill) => Ok(
            IrInstruction::MarkRegisterChill(RegisterChill {  }),
        ),
        None => Err(
            IrInstructionReadError::InvalidOpCode(index as usize, read_u16(data, index)),
        ),
    }
}

/// Whether the bytes from `index` on are whole instructions.
pub open spec fn well_formed_from(data: Seq<u8>, index: int) -> bool
    decreases data.len() - index,
{
    if index >= data.len() {
        index == data.len()
    } else if 0 <= index && index + 2 <= data.len() && index + length_at(data, index)
        <= data.len() {
        well_formed_from(data, index + length_at(data, index))
    } else {
        false
    }
}

/// Whether `data` is a sequence of whole instructions.
pub open spec fn well_formed(data: Seq<u8>) -> bool {
    well_formed_from(data, 0)
}

/// What is read from `index` on: the instructions and errors in order.
pub open spec fn instructions_from<'a>(data: Seq<u8>, index: int) -> Seq<
    Result<IrInstruction<'a>, IrInstructionReadError>,
>
    decreases data.len() - index,
{
    if 0 <= index < data.len() && index + length_at(data, index) <= data.len() {
        seq![instruction_at(data, index)] + instructions_from(
            data,
            index + length_at(data, index),
        )
    } else {
        Seq::empty()
    }
}

impl View for IrContainer {
    type V = Seq<u8>;

    closed spec fn view(&self) -> Seq<u8> {
        self.data@
    }
}

impl IrContainer {
    /// Whether the container holds whole instructions. Every container does.
    pub closed spec fn wf(&self) -> bool {
        well_formed(self.data@)
    }

    /// Wraps a byte stream that is known to be a sequence of whole instructions.
    pub fn from_vec(data: Vec<u8>) -> (container: Self)
        requires
            well_formed(data@),
        ensures
            container@ == data@,
            container.wf(),
    {
        IrContainer { data }
    }

    /// Wraps a byte stream after checking that it is a sequence of whole instructions.
    pub fn try_from_vec(data: Vec<u8>) -> (container: Option<Self>)
        ensures
            match container {
                Some(container) => well_formed(data@) && container@ == data@ && container.wf(),
                None => !well_formed(data@),
            },
    {
        let mut index: usize = 0;
        while index < data.len()
            invariant
                index <= data@.len(),
                well_formed(data@) == well_formed_from(data@, index as int),
            decreases data@.len() - index,
        {
            if data.len() - index < 2 {
                return None;
            }
            let number = data[index] as u16 + 256 * (data[index + 1] as u16);
            let operands: usize = match IrOpCode::try_from(number) {
                Ok(IrOpCode::AllocRegisterNat32) => 2,
                Ok(IrOpCode::DropRegister) => 2,
                Ok(IrOpCode::LoadNat32) => 6,
                Ok(IrOpCode::MarkRegisterChill) => 0,
                Err(_) => 0,
            };
            if data.len() - index - 2 < operands {
                return None;
            }
            index = index + 2 + operands;
        }
        Some(IrContainer { data })
    }

    /// The bytes of the container.
    pub fn as_bytes(&self) -> (bytes: &[u8])
        ensures
            bytes@ == self@,
    {
        self.data.as_slice()
    }

    /// An iterator over the instructions, from the first on.
    pub fn iter(&self) -> (iterator: IrContainerIterator<'_>)
        requires
            self.wf(),
        ensures
            iterator.wf(),
            iterator.data() == self@,
            iterator.position() == 0,
    {
        IrContainerIterator { container: self, index: 0 }
    }
}

impl<'c> IrContainerIterator<'c> {
    /// The bytes that the iterator reads.
    pub closed spec fn data(&self) -> Seq<u8> {
        self.container@
    }

    /// Where the iterator stands.
    pub closed spec fn position(&self) -> int {
        self.index as int
    }

    /// Whether the iterator stands at the start of an instruction or at the end.
    pub closed spec fn wf(&self) -> bool {
        self.index <= self.container@.len() && well_formed_from(
            self.container@,
            self.index as int,
        )
    }

    fn read_byte_array(&mut self, length: usize) -> (bytes: &'c [u8])
        requires
            old(self).index + length <= old(self).container@.len(),
        ensures
            final(self).container == old(self).container,
            final(self).index == old(self).index + length,
            bytes@ == old(self).container@.subrange(
                old(self).index as int,
                old(self).index + length,
            ),
    {
        let data = self.container.data.as_slice();
        let len = data.len();
        let bytes = vstd::slice::slice_subrange(data, self.index, self.index + length);
        self.index = self.index + length;
        bytes
    }

    fn read_nat16(&mut self) -> (value: u16)
        requires
            old(self).index + 2 <= old(self).container@.len(),
        ensures
            final(self).container == old(self).container,
            final(self).index == old(self).index + 2,
            value == read_u16(old(self).container@, old(self).index as int),
    {
        let bytes = self.read_byte_array(2);
        bytes[0] as u16 + 256 * (bytes[1] as u16)
    }

    fn read_nat32(&mut self) -> (value: u32)
        requires
            old(self).index + 4 <= old(self).container@.len(),
        ensures
            final(self).container == old(self).container,
            final(self).index == old(self).index + 4,
            value == read_u32(old(self).container@, old(self).index as int),
    {
        let bytes = self.read_byte_array(4);
        bytes[0] as u32 + 256 * (bytes[1] as u32) + 65536 * (bytes[2] as u32) + 16777216 * (
        bytes[3] as u32)
    }

    fn read_register_id(&mut self) -> (id: RegisterId)
        requires
            old(self).index + 2 <= old(self).container@.len(),
        ensures
            final(self).container == old(self).container,
            final(self).index == old(self).index + 2,
            id == RegisterId(read_u16(old(self).container@, old(self).index as int)),
    {
        RegisterId(self.read_nat16())
    }

    fn read_instruction(&mut self) -> (r: Result<IrInstruction<'c>, IrInstructionReadError>)
        requires
            old(self).wf(),
            old(self).index < old(self).container@.len(),
        ensures
            final(self).wf(),
            final(self).container == old(self).container,
            final(self).index == old(self).index + length_at(
                old(self).container@,
                old(self).index as int,
            ),
            r == instruction_at::<'c>(old(self).container@, old(self).index as int),
    {
        let start = self.index;
        let op_code = match IrOpCode::try_from(self.read_nat16()) {
            Ok(op_code) => op_code,
            Err(number) => {
                return Err(IrInstructionReadError::InvalidOpCode(start, number));
            },
        };
        match op_code {
            IrOpCode::AllocRegisterNat32 => {
                let id = self.read_register_id();
                let chill = RegisterChill::from_le_bytes(self.read_byte_array(0));
                Ok(IrInstruction::AllocRegisterNat32(id, chill))
            },
            IrOpCode::DropRegister => Ok(IrInstruction::DropRegister(self.read_register_id())),
            IrOpCode::LoadNat32 => {
                let id = self.read_register_id();
                let value = self.read_nat32();
                Ok(IrInstruction::LoadNat32(id, value))
            },
            IrOpCode::MarkRegisterChill => {
                let chill = RegisterChill::from_le_bytes(self.read_byte_array(0));
                Ok(IrInstruction::MarkRegisterChill(chill))
            },
        }
    }

    /// The next instruction, or the error of reading it; `None` at the end.
    pub fn next(&mut self) -> (item: Option<Result<IrInstruction<'c>, IrInstructionReadError>>)
        requires
            old(self).wf(),
        ensures
            final(self).wf(),
            final(self).data() == old(self).data(),
            match item {
                Some(r) => {
                    &&& old(self).position() < old(self).data().len()
                    &&& r == instruction_at::<'c>(old(self).data(), old(self).position())
                    &&& final(self).position() == old(self).position() + length_at(
                        old(self).data(),
                        old(self).position(),
                    )
                },
                None => old(self).position() == old(self).data().len() && final(self).position()
                    == old(self).position(),
            },
    {
        if self.index < self.container.data.len() {
            Some(self.read_instruction())
        } else {
            None
        }
    }
}

} // verus!
