//! The emitter of the mid-level intermediate representation.

use crate::backend_common::FunctionId;
use crate::backend_common::ValueId;
use crate::ir::register::le_bytes_u32;
use crate::mir::bytes::bits_of_i32;
use crate::mir::bytes::bytes_of_i32;
use crate::mir::bytes::bytes_of_u32;
use crate::mir::bytes::bytes_of_u64;
use crate::mir::bytes::bytes_of_u8;
use crate::mir::bytes::le_bytes_u64;
use crate::ir::register::lemma_le_bytes_roundtrip;
use crate::mir::bytes::lemma_roundtrips;
use crate::mir::container::instruction_from;
use crate::mir::container::number_at;
use crate::mir::container::MirContainer;
use crate::mir::container::MirContainerIterator;
use crate::mir::op_code::MirInstruction;
use crate::mir::op_code::MirInstructionData;
use crate::mir::op_code::MirInstructionMeta;
use crate::mir::op_code::MirOpCode;
use core::ops::Range;
use vstd::prelude::*;

verus! {

#[derive(Debug)]
pub struct MirEmitter {
    next_value_id: u32,
    content: MirContainer,
}

/// The bytes of the identifiers of `arguments`, one after the other.
pub open spec fn argument_bytes(arguments: Seq<ValueId>) -> Seq<u8>
    decreases arguments.len(),
{
    if arguments.len() == 0 {
        Seq::empty()
    } else {
        argument_bytes(arguments.drop_last()) + le_bytes_u32(arguments.last().0)
    }
}

/// Whether `data` is read, from `start` on, as the instruction `data_read` without a
/// span, which ends the stream.
pub open spec fn reads_back(data: Seq<u8>, start: int, data_read: MirInstructionData) -> bool {
    instruction_from(
        data,
        start,
        None,
        MirInstruction { data: data_read, meta: MirInstructionMeta { span: None } },
        data.len() as int,
    )
}

/// A number is read back from where its bytes stand in a stream.
pub proof fn lemma_number_at(stream: Seq<u8>, index: int, word: u32, wide: u64)
    requires
        0 <= index,
    ensures
        index + 4 <= stream.len() && stream.subrange(index, index + 4) == le_bytes_u32(word)
            ==> number_at(stream, index, 4) == word,
        index + 8 <= stream.len() && stream.subrange(index, index + 8) == le_bytes_u64(wide)
            ==> number_at(stream, index, 8) == wide,
{
    lemma_le_bytes_roundtrip(0, word);
    lemma_roundtrips(0, wide);
}

impl MirEmitter {
    /// The bytes emitted so far.
    pub closed spec fn data(&self) -> Seq<u8> {
        self.content@
    }

    /// The identifier that the next defined value gets.
    pub closed spec fn upcoming(&self) -> u32 {
        self.next_value_id
    }

    pub fn new() -> (emitter: Self)
        ensures
            emitter.data() == Seq::<u8>::empty(),
            emitter.upcoming() == 0,
    {
        Self { next_value_id: 0, content: MirContainer::new() }
    }

    pub fn iter(&self) -> (iterator: MirContainerIterator<'_>)
        ensures
            iterator.data() == self.data(),
            iterator.position() == 0,
    {
        self.content.iter()
    }

    /// Defines a value with assigned literal `value` which is represented by the
    /// returned identifier.
    pub fn define_nat32(&mut self, value: u32) -> (id: ValueId)
        requires
            old(self).upcoming() < u32::MAX,
        ensures
            id.0 == old(self).upcoming(),
            final(self).upcoming() == old(self).upcoming() + 1,
            final(self).data() == old(self).data() + seq![MirOpCode::DefineNat32.number()]
                + le_bytes_u32(id.0) + le_bytes_u32(value),
            reads_back(
                final(self).data(),
                old(self).data().len() as int,
                MirInstructionData::DefineNat32(id, value),
            ),
    {
        self.emit(MirOpCode::DefineNat32);
        let value_id = self.next_value_id();
        self.emit_value_id(value_id);
        self.emit_nat32(value);
        proof {
            let start = old(self).data().len() as int;
            let stream = self.data();
            assert(stream[start] == 0);
            assert(stream.subrange(start + 1, start + 5) =~= le_bytes_u32(value_id.0));
            assert(stream.subrange(start + 5, start + 9) =~= le_bytes_u32(value));
            lemma_number_at(stream, start + 1, value_id.0, 0);
            lemma_number_at(stream, start + 5, value, 0);
        }
        value_id
    }

    /// Defines a value with assigned literal `value` which is represented by the
    /// returned identifier.
    pub fn define_int32(&mut self, value: i32) -> (id: ValueId)
        requires
            old(self).upcoming() < u32::MAX,
        ensures
            id.0 == old(self).upcoming(),
            final(self).upcoming() == old(self).upcoming() + 1,
            final(self).data() == old(self).data() + seq![MirOpCode::DefineInt32.number()]
                + le_bytes_u32(id.0) + le_bytes_u32(bits_of_i32(value)),
            reads_back(
                final(self).data(),
                old(self).data().len() as int,
                MirInstructionData::DefineInt32(id, value),
            ),
    {
        self.emit(MirOpCode::DefineInt32);
        let value_id = self.next_value_id();
        self.emit_value_id(value_id);
        self.emit_int32(value);
        proof {
            let start = old(self).data().len() as int;
            let stream = self.data();
            assert(stream[start] == 1);
            assert(stream.subrange(start + 1, start + 5) =~= le_bytes_u32(value_id.0));
            assert(stream.subrange(start + 5, start + 9) =~= le_bytes_u32(bits_of_i32(value)));
            lemma_number_at(stream, start + 1, value_id.0, 0);
            lemma_number_at(stream, start + 5, bits_of_i32(value), 0);
            lemma_roundtrips(value, 0);
        }
        value_id
    }

    /// Returns from this function with the value which is represented by `value_id`.
    /// Function return type must be the same as type of the value.
    pub fn return_value(&mut self, value_id: ValueId)
        ensures
            final(self).upcoming() == old(self).upcoming(),
            final(self).data() == old(self).data() + seq![MirOpCode::ReturnValue.number()]
                + le_bytes_u32(value_id.0),
            reads_back(
                final(self).data(),
                old(self).data().len() as int,
                MirInstructionData::ReturnValue(value_id),
            ),
    {
        self.emit(MirOpCode::ReturnValue);
        self.emit_value_id(value_id);
        proof {
            let start = old(self).data().len() as int;
            let stream = self.data();
            assert(stream[start] == 2);
            assert(stream.subrange(start + 1, start + 5) =~= le_bytes_u32(value_id.0));
            lemma_number_at(stream, start + 1, value_id.0, 0);
        }
    }

    /// Calls a function which is represented by `function_id` with the arguments which
    /// are represented by `arguments`. And returns the value which is returned from the
    /// called function.
    pub fn call(&mut self, function_id: FunctionId, arguments: &[ValueId]) -> (id: ValueId)
        requires
            old(self).upcoming() < u32::MAX,
            arguments@.len() <= 255,
        ensures
            id.0 == old(self).upcoming(),
            final(self).upcoming() == old(self).upcoming() + 1,
            final(self).data() == old(self).data() + seq![MirOpCode::Call.number()]
                + le_bytes_u32(id.0) + le_bytes_u64(function_id.0) + seq![
                arguments@.len() as u8,
            ] + argument_bytes(arguments@),
    {
        self.emit(MirOpCode::Call);
        let value_id = self.next_value_id();
        self.emit_value_id(value_id);
        self.emit_function_id(function_id);
        self.emit_nat8(arguments.len() as u8);
        let ghost head = self.data();
        let mut count: usize = 0;
        assert(arguments@.subrange(0, 0) =~= Seq::empty());
        assert(self.data() =~= head + argument_bytes(arguments@.subrange(0, 0)));
        while count < arguments.len()
            invariant
                count <= arguments@.len(),
                self.upcoming() == old(self).upcoming() + 1,
                self.data() == head + argument_bytes(arguments@.subrange(0, count as int)),
            decreases arguments@.len() - count,
        {
            self.emit_value_id(arguments[count]);
            proof {
                let next = arguments@.subrange(0, count + 1);
                assert(next.drop_last() =~= arguments@.subrange(0, count as int));
                assert(self.data() =~= head + argument_bytes(next));
            }
            count += 1;
        }
        assert(arguments@.subrange(0, arguments@.len() as int) =~= arguments@);
        assert(self.data() =~= old(self).data() + seq![MirOpCode::Call.number()] + le_bytes_u32(
            value_id.0,
        ) + le_bytes_u64(function_id.0) + seq![arguments@.len() as u8] + argument_bytes(
            arguments@,
        ));
        value_id
    }

    /// Adds meta data to the next instruction, which is represented by `span` what is a
    /// range of bytes in the frontend's source code which generated that instruction.
    /// This is useful for debugging and error reporting.
    pub fn meta_span(&mut self, span: Range<usize>) -> (emitter: &mut Self)
        ensures
            emitter.upcoming() == old(self).upcoming(),
            emitter.data() == old(self).data() + seq![MirOpCode::MetaSpan.number()]
                + le_bytes_u64(span.start as u64) + le_bytes_u64(span.end as u64),
            *final(self) == *final(emitter),
    {
        self.emit(MirOpCode::MetaSpan);
        self.emit_nat_size(span.start);
        self.emit_nat_size(span.end);
        self
    }

    /// The identifier of the next value.
    pub fn next_value_id(&mut self) -> (id: ValueId)
        requires
            old(self).upcoming() < u32::MAX,
        ensures
            id.0 == old(self).upcoming(),
            final(self).upcoming() == old(self).upcoming() + 1,
            final(self).data() == old(self).data(),
    {
        let variable_id = ValueId(self.next_value_id);
        self.next_value_id += 1;
        variable_id
    }

    fn emit(&mut self, op_code: MirOpCode)
        ensures
            final(self).upcoming() == old(self).upcoming(),
            final(self).data() == old(self).data() + seq![op_code.number()],
    {
        self.content.emit_native_bytes(bytes_of_u8(op_code.to_number()));
    }

    fn emit_function_id(&mut self, function_id: FunctionId)
        ensures
            final(self).upcoming() == old(self).upcoming(),
            final(self).data() == old(self).data() + le_bytes_u64(function_id.0),
    {
        self.content.emit_native_bytes(bytes_of_u64(function_id.0));
    }

    fn emit_value_id(&mut self, value_id: ValueId)
        ensures
            final(self).upcoming() == old(self).upcoming(),
            final(self).data() == old(self).data() + le_bytes_u32(value_id.0),
    {
        self.content.emit_native_bytes(bytes_of_u32(value_id.0));
    }

    fn emit_nat_size(&mut self, nat_size: usize)
        ensures
            final(self).upcoming() == old(self).upcoming(),
            final(self).data() == old(self).data() + le_bytes_u64(nat_size as u64),
    {
        self.content.emit_native_bytes(bytes_of_u64(nat_size as u64));
    }

    fn emit_nat32(&mut self, nat32: u32)
        ensures
            final(self).upcoming() == old(self).upcoming(),
            final(self).data() == old(self).data() + le_bytes_u32(nat32),
    {
        self.content.emit_native_bytes(bytes_of_u32(nat32));
    }

    fn emit_nat8(&mut self, nat8: u8)
        ensures
            final(self).upcoming() == old(self).upcoming(),
            final(self).data() == old(self).data() + seq![nat8],
    {
        self.content.emit_native_bytes(bytes_of_u8(nat8));
    }

    fn emit_int32(&mut self, int32: i32)
        ensures
            final(self).upcoming() == old(self).upcoming(),
            final(self).data() == old(self).data() + le_bytes_u32(bits_of_i32(int32)),
    {
        self.content.emit_native_bytes(bytes_of_i32(int32));
    }

    /// The container of the instructions emitted so far.
    pub fn into_container(self) -> (container: MirContainer)
        ensures
            container@ == self.data(),
    {
        self.content
    }
}

impl Default for MirEmitter {
    fn default() -> (emitter: Self)
        ensures
            emitter.data() == Seq::<u8>::empty(),
            emitter.upcoming() == 0,
    {
        Self::new()
    }
}

} // verus!
