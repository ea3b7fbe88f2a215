//! The emitter of the intermediate representation.

use crate::ir::container::instruction_at;
use crate::ir::container::instructions_from;
use crate::ir::container::length_at;
use crate::ir::container::read_u16;
use crate::ir::container::well_formed;
use crate::ir::container::well_formed_from;
use crate::ir::container::IrContainer;
use crate::ir::instruction_read_error::IrInstructionReadError;
use crate::ir::op_code::IrInstruction;
use crate::ir::op_code::IrOpCode;
use crate::ir::register::le_bytes_u16;
use crate::ir::register::le_bytes_u32;
use crate::ir::register::u16_to_le_bytes;
use crate::ir::register::u32_to_le_bytes;
use crate::ir::register::Register;
use crate::ir::register::RegisterChill;
use crate::ir::register::RegisterId;
use crate::ir::register::RegisterNat32;
use crate::ir_generated::errors::RegisterAllocationError;
use crate::ir_generated::register_allocator::RegisterAllocator;
use crate::ir_generated::register_allocator::RegisterDropGuard;
use vstd::prelude::*;

verus! {

pub struct IrEmitter {
    data: Vec<u8>,
    register_allocator: RegisterAllocator,
}

/// The bytes of an instruction with the given op code and operands.
pub open spec fn encoded(op_code: IrOpCode, operands: Seq<u8>) -> Seq<u8> {
    le_bytes_u16(op_code.number()) + operands
}

/// Bytes put behind a stream change nothing of what is read within the stream.
pub proof fn lemma_prefix_reads(data: Seq<u8>, tail: Seq<u8>, index: int)
    requires
        0 <= index,
        index + 2 <= data.len(),
        index + length_at(data, index) <= data.len(),
    ensures
        length_at(data + tail, index) == length_at(data, index),
        instruction_at::<'static>(data + tail, index) == instruction_at::<'static>(data, index),
{
    let more = data + tail;
    assert(more[index] == data[index]);
    assert(more[index + 1] == data[index + 1]);
    assert(read_u16(more, index) == read_u16(data, index));
    if length_at(data, index) >= 4 {
        assert(more[index + 2] == data[index + 2]);
        assert(more[index + 3] == data[index + 3]);
    }
    if length_at(data, index) >= 8 {
        assert(more[index + 4] == data[index + 4]);
        assert(more[index + 5] == data[index + 5]);
        assert(more[index + 6] == data[index + 6]);
        assert(more[index + 7] == data[index + 7]);
    }
}

/// A whole instruction put behind a stream of whole instructions gives a stream of whole
/// instructions, and reading it gives what was read before and then that instruction.
pub proof fn lemma_append_instruction(
    data: Seq<u8>,
    op_code: IrOpCode,
    operands: Seq<u8>,
    index: int,
)
    requires
        0 <= index <= data.len(),
        well_formed_from(data, index),
        operands.len() == op_code.operands(),
    ensures
        well_formed_from(data + encoded(op_code, operands), index),
        instructions_from::<'static>(data + encoded(op_code, operands), index)
            == instructions_from::<'static>(data, index).push(
            instruction_at::<'static>(data + encoded(op_code, operands), data.len() as int),
        ),
        length_at(data + encoded(op_code, operands), data.len() as int) == 2
            + op_code.operands(),
    decreases data.len() - index,
{
    let tail = encoded(op_code, operands);
    let more = data + tail;
    let end = data.len() as int;
    assert(tail[0] == le_bytes_u16(op_code.number())[0]);
    assert(tail[1] == le_bytes_u16(op_code.number())[1]);
    assert(more[end] == tail[0]);
    assert(more[end + 1] == tail[1]);
    assert(read_u16(more, end) == op_code.number());
    assert(length_at(more, end) == 2 + op_code.operands());
    if index == data.len() {
        assert(well_formed_from(more, end + length_at(more, end)));
        assert(instructions_from::<'static>(more, end + length_at(more, end)) =~= Seq::empty());
        assert(instructions_from::<'static>(data, index) =~= Seq::empty());
        assert(instructions_from::<'static>(more, index) =~= Seq::<
            Result<IrInstruction<'static>, IrInstructionReadError>,
        >::empty().push(instruction_at::<'static>(more, end)));
    } else {
        lemma_prefix_reads(data, tail, index);
        lemma_append_instruction(data, op_code, operands, index + length_at(data, index));
        assert(instructions_from::<'static>(more, index) =~= instructions_from::<'static>(
            data,
            index,
        ).push(instruction_at::<'static>(more, end)));
    }
}

/// The instruction that is read from bytes made by [`encoded`] behind a stream.
pub proof fn lemma_read_encoded(data: Seq<u8>, id: u16, value: u32)
    ensures
        instruction_at::<'static>(
            data + encoded(IrOpCode::MarkRegisterChill, Seq::empty()),
            data.len() as int,
        ) == Ok::<IrInstruction<'static>, IrInstructionReadError>(
            IrInstruction::MarkRegisterChill(RegisterChill {  }),
        ),
        instruction_at::<'static>(
            data + encoded(IrOpCode::AllocRegisterNat32, le_bytes_u16(id)),
            data.len() as int,
        ) == Ok::<IrInstruction<'static>, IrInstructionReadError>(
            IrInstruction::AllocRegisterNat32(RegisterId(id), RegisterChill {  }),
        ),
        instruction_at::<'static>(
            data + encoded(IrOpCode::DropRegister, le_bytes_u16(id)),
            data.len() as int,
        ) == Ok::<IrInstruction<'static>, IrInstructionReadError>(
            IrInstruction::DropRegister(RegisterId(id)),
        ),
        instruction_at::<'static>(
            data + encoded(IrOpCode::LoadNat32, le_bytes_u16(id) + le_bytes_u32(value)),
            data.len() as int,
        ) == Ok::<IrInstruction<'static>, IrInstructionReadError>(
            IrInstruction::LoadNat32(RegisterId(id), value),
        ),
{
    let end = data.len() as int;
    let mark = data + encoded(IrOpCode::MarkRegisterChill, Seq::empty());
    assert(mark[end] == 3 && mark[end + 1] == 0);
    let alloc = data + encoded(IrOpCode::AllocRegisterNat32, le_bytes_u16(id));
    assert(alloc[end] == 0 && alloc[end + 1] == 0);
    assert(alloc[end + 2] == le_bytes_u16(id)[0] && alloc[end + 3] == le_bytes_u16(id)[1]);
    let dropped = data + encoded(IrOpCode::DropRegister, le_bytes_u16(id));
    assert(dropped[end] == 1 && dropped[end + 1] == 0);
    assert(dropped[end + 2] == le_bytes_u16(id)[0] && dropped[end + 3] == le_bytes_u16(id)[1]);
    let load = data + encoded(IrOpCode::LoadNat32, le_bytes_u16(id) + le_bytes_u32(value));
    assert(load[end] == 2 && load[end + 1] == 0);
    assert(load[end + 2] == le_bytes_u16(id)[0] && load[end + 3] == le_bytes_u16(id)[1]);
    assert(load[end + 4] == le_bytes_u32(value)[0] && load[end + 5] == le_bytes_u32(value)[1]
        && load[end + 6] == le_bytes_u32(value)[2] && load[end + 7] == le_bytes_u32(value)[3]);
}

impl IrEmitter {
    /// What is read back from the bytes emitted so far.
    pub open spec fn instructions(&self) -> Seq<
        Result<IrInstruction<'static>, IrInstructionReadError>,
    > {
        instructions_from::<'static>(self.data(), 0)
    }

    /// The bytes emitted so far.
    pub closed spec fn data(&self) -> Seq<u8> {
        self.data@
    }

    /// The allocator of the emitter's registers.
    pub closed spec fn allocator(&self) -> RegisterAllocator {
        self.register_allocator
    }

    /// Whether the bytes emitted so far are whole instructions. Between two operations
    /// they always are.
    pub open spec fn wf(&self) -> bool {
        well_formed(self.data()) && self.allocator().wf()
    }

    pub fn new() -> (emitter: Self)
        ensures
            emitter.wf(),
            emitter.data() == Seq::<u8>::empty(),
            emitter.allocator().fresh(),
    {
        IrEmitter { data: Vec::new(), register_allocator: RegisterAllocator::new() }
    }

    /// Marks which virtual registers are most optimal to chill in the current context.
    pub fn mark_register_chill(&mut self, registers_to_chill: RegisterChill) -> (emitter: &mut Self)
        requires
            old(self).wf(),
        ensures
            emitter.wf(),
            emitter.data() == old(self).data() + encoded(
                IrOpCode::MarkRegisterChill,
                Seq::empty(),
            ),
            emitter.allocator() == old(self).allocator(),
            emitter.instructions() == old(self).instructions().push(
                Ok(IrInstruction::MarkRegisterChill(registers_to_chill)),
            ),
            *final(self) == *final(emitter),
    {
        proof {
            lemma_append_instruction(self.data(), IrOpCode::MarkRegisterChill, Seq::empty(), 0);
            lemma_read_encoded(self.data(), 0, 0);
        }
        self.emit(IrOpCode::MarkRegisterChill);
        let bytes = registers_to_chill.to_le_bytes();
        self.data.extend_from_slice(bytes.as_slice());
        assert(self.data() =~= old(self).data() + encoded(
            IrOpCode::MarkRegisterChill,
            Seq::empty(),
        ));
        self
    }

    /// Allocates a virtual register, or prepare a native register to store a new 32-bit
    /// natural value.
    pub fn alloc_register_nat32(&mut self) -> (r: Result<
        RegisterDropGuard<RegisterNat32>,
        RegisterAllocationError,
    >)
        requires
            old(self).wf(),
        ensures
            final(self).wf(),
            old(self).allocator().handed_out(final(self).allocator()),
            match r {
                Ok(guard) => {
                    &&& old(self).allocator().next_register() == Some(guard.register().spec_id())
                    &&& final(self).data() == old(self).data() + encoded(
                        IrOpCode::AllocRegisterNat32,
                        le_bytes_u16(guard.register().spec_id().0),
                    )
                    &&& final(self).instructions() == old(self).instructions().push(
                        Ok(
                            IrInstruction::AllocRegisterNat32(
                                guard.register().spec_id(),
                                RegisterChill {  },
                            ),
                        ),
                    )
                },
                Err(e) => {
                    &&& old(self).allocator().next_register() is None
                    &&& e.last_valid_register_id
                        == crate::ir_generated::register_allocator::nat32_range().end
                    &&& final(self).data() == old(self).data()
                },
            },
    {
        let id = match self.register_allocator.next_nat32() {
            Ok(id) => id,
            Err(e) => {
                return Err(e);
            },
        };
        proof {
            lemma_append_instruction(
                self.data(),
                IrOpCode::AllocRegisterNat32,
                le_bytes_u16(id.0),
                0,
            );
            lemma_read_encoded(self.data(), id.0, 0);
        }
        self.emit(IrOpCode::AllocRegisterNat32);
        self.emit_register_id(id);
        assert(self.data() =~= old(self).data() + encoded(
            IrOpCode::AllocRegisterNat32,
            le_bytes_u16(id.0),
        ));
        Ok(RegisterDropGuard::new(RegisterNat32::new_unchecked(id)))
    }

    /// Drops a virtual register, what preverts it from being chilled.
    ///
    /// This is not dropping any memory like pointer etc. It is only a hint to the JIT
    /// compiler.
    pub fn drop_register<R: Register>(&mut self, register: RegisterDropGuard<R>) -> (emitter:
        &mut Self)
        requires
            old(self).wf(),
        ensures
            emitter.wf(),
            emitter.data() == old(self).data(),
            emitter.allocator().dropped() == old(self).allocator().dropped().push(
                register.register().spec_id(),
            ),
            emitter.allocator().upcoming_nat32() == old(self).allocator().upcoming_nat32(),
            *final(self) == *final(emitter),
    {
        self.register_allocator.drop(register.id());
        self
    }

    /// Loads 32-bit natural literal into register.
    pub fn load_nat32(&mut self, register: &RegisterNat32, value: u32) -> (emitter: &mut Self)
        requires
            old(self).wf(),
        ensures
            emitter.wf(),
            emitter.data() == old(self).data() + encoded(
                IrOpCode::LoadNat32,
                le_bytes_u16(register.spec_id().0) + le_bytes_u32(value),
            ),
            emitter.allocator() == old(self).allocator(),
            emitter.instructions() == old(self).instructions().push(
                Ok(IrInstruction::LoadNat32(register.spec_id(), value)),
            ),
            *final(self) == *final(emitter),
    {
        proof {
            lemma_read_encoded(self.data(), register.spec_id().0, value);
            lemma_append_instruction(
                self.data(),
                IrOpCode::LoadNat32,
                le_bytes_u16(register.spec_id().0) + le_bytes_u32(value),
                0,
            );
        }
        self.emit(IrOpCode::LoadNat32);
        self.emit_register_id(register.id());
        self.emit_nat32(value);
        assert(self.data() =~= old(self).data() + encoded(
            IrOpCode::LoadNat32,
            le_bytes_u16(register.spec_id().0) + le_bytes_u32(value),
        ));
        self
    }

    fn emit(&mut self, op_code: IrOpCode)
        ensures
            final(self).data() == old(self).data() + le_bytes_u16(op_code.number()),
            final(self).allocator() == old(self).allocator(),
    {
        let bytes = u16_to_le_bytes(op_code.to_number());
        self.data.extend_from_slice(bytes.as_slice());
    }

    fn emit_register_id(&mut self, register_id: RegisterId)
        ensures
            final(self).data() == old(self).data() + le_bytes_u16(register_id.0),
            final(self).allocator() == old(self).allocator(),
    {
        let bytes = register_id.to_le_bytes();
        self.data.extend_from_slice(bytes.as_slice());
    }

    fn emit_nat32(&mut self, value: u32)
        ensures
            final(self).data() == old(self).data() + le_bytes_u32(value),
            final(self).allocator() == old(self).allocator(),
    {
        let bytes = u32_to_le_bytes(value);
        self.data.extend_from_slice(bytes.as_slice());
    }

    /// The container of the instructions emitted so far.
    pub fn into_container(self) -> (container: IrContainer)
        requires
            self.wf(),
        ensures
            container.wf(),
            container@ == self.data(),
    {
        IrContainer::from_vec(self.data)
    }
}

impl Default for IrEmitter {
    fn default() -> (emitter: Self)
        ensures
            emitter.wf(),
            emitter.data() == Seq::<u8>::empty(),
    {
        Self::new()
    }
}

} // verus!
