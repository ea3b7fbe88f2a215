//! The byte stream of instructions, and reading it back.

use crate::backend_common::FunctionId;
use crate::backend_common::ValueId;
use crate::ir::register::from_le_bytes;
use crate::mir::bytes::i32_of_bits;
use crate::mir::bytes::read_i32;
use crate::mir::bytes::read_u32;
use crate::mir::bytes::read_u64;
use crate::mir::op_code::MirInstruction;
use crate::mir::op_code::MirInstructionData;
use crate::mir::op_code::MirInstructionMeta;
use crate::mir::op_code::MirOpCode;
use core::ops::Range;
use vstd::prelude::*;
use vstd::slice::slice_subrange;

verus! {

/// A stream of instructions: for each, the byte of its op code and the bytes of its
/// operands, every number low byte first.
#[derive(Debug)]
pub struct MirContainer {
    pub(crate) data: Vec<u8>,
}

pub struct MirContainerIterator<'container> {
    content: &'container MirContainer,
    index: usize,
}

/// A reader of the byte stream, shared by the iterators.
pub struct Reader<'a> {
    pub data: &'a [u8],
    pub index: usize,
}

/// What is read at one position of the stream.
pub enum Item {
    /// An instruction.
    Data(MirInstructionData),
    /// A span for the instruction that follows.
    Span(usize, usize),
}

/// The number made of the `count` bytes at `index`, low byte first.
pub open spec fn number_at(data: Seq<u8>, index: int, count: int) -> nat {
    from_le_bytes(data.subrange(index, index + count))
}

/// Number of bytes of the instruction at `index`, if the stream holds all of it.
pub open spec fn length_at(data: Seq<u8>, index: int) -> Option<int> {
    if !(0 <= index < data.len()) {
        None
    } else {
        let length: Option<int> = match MirOpCode::of_number(data[index]) {
            Some(MirOpCode::DefineNat32) => Some(9),
            Some(MirOpCode::DefineInt32) => Some(9),
            Some(MirOpCode::ReturnValue) => Some(5),
            Some(MirOpCode::Call) => if index + 14 <= data.len() {
                Some(14 + 4 * (data[index + 13] as int))
            } else {
                None
            },
            Some(MirOpCode::MetaSpan) => Some(17),
            None => None,
        };
        match length {
            Some(length) => if index + length <= data.len() {
                Some(length)
            } else {
                None
            },
            None => None,
        }
    }
}

/// The arguments of the call at `index`.
pub open spec fn arguments_at(data: Seq<u8>, index: int) -> Seq<ValueId> {
    Seq::new(
        data[index + 13] as nat,
        |i: int| ValueId(number_at(data, index + 14 + 4 * i, 4) as u32),
    )
}

impl<'a> Reader<'a> {
    /// Whether the reader stands within the stream or at its end.
    pub open spec fn wf(&self) -> bool {
        self.index <= self.data@.len()
    }

    fn left(&self) -> (left: usize)
        requires
            self.wf(),
        ensures
            left == self.data@.len() - self.index,
    {
        self.data.len() - self.index
    }

    fn read_native_u8(&mut self) -> (value: u8)
        requires
            old(self).index + 1 <= old(self).data@.len(),
        ensures
            final(self).data == old(self).data,
            final(self).index == old(self).index + 1,
            value == old(self).data@[old(self).index as int],
    {
        let value = self.data[self.index];
        self.index = self.index + 1;
        value
    }

    fn read_native_u32(&mut self) -> (value: u32)
        requires
            old(self).index + 4 <= old(self).data@.len(),
        ensures
            final(self).data == old(self).data,
            final(self).index == old(self).index + 4,
            value == number_at(old(self).data@, old(self).index as int, 4),
    {
        let len = self.data.len();
        let value = read_u32(slice_subrange(self.data, self.index, self.index + 4));
        self.index = self.index + 4;
        value
    }

    fn read_native_i32(&mut self) -> (value: i32)
        requires
            old(self).index + 4 <= old(self).data@.len(),
        ensures
            final(self).data == old(self).data,
            final(self).index == old(self).index + 4,
            value == i32_of_bits(number_at(old(self).data@, old(self).index as int, 4) as u32),
    {
        let len = self.data.len();
        let value = read_i32(slice_subrange(self.data, self.index, self.index + 4));
        self.index = self.index + 4;
        value
    }

    fn read_native_u64(&mut self) -> (value: u64)
        requires
            old(self).index + 8 <= old(self).data@.len(),
        ensures
            final(self).data == old(self).data,
            final(self).index == old(self).index + 8,
            value == number_at(old(self).data@, old(self).index as int, 8),
    {
        let len = self.data.len();
        let value = read_u64(slice_subrange(self.data, self.index, self.index + 8));
        self.index = self.index + 8;
        value
    }

    fn read_native_slice(&mut self, count: usize) -> (values: Vec<ValueId>)
        requires
            old(self).index + 4 * count <= old(self).data@.len(),
        ensures
            final(self).data == old(self).data,
            final(self).index == old(self).index + 4 * count,
            values@.len() == count,
            forall|i: int|
                0 <= i < count ==> (#[trigger] values@[i]) == ValueId(
                    number_at(old(self).data@, old(self).index + 4 * i, 4) as u32,
                ),
    {
        let mut values: Vec<ValueId> = Vec::new();
        let mut i: usize = 0;
        while i < count
            invariant
                i <= count,
                self.data == old(self).data,
                self.index == old(self).index + 4 * i,
                old(self).index + 4 * count <= old(self).data@.len(),
                values@.len() == i,
                forall|j: int|
                    0 <= j < i ==> (#[trigger] values@[j]) == ValueId(
                        number_at(old(self).data@, old(self).index + 4 * j, 4) as u32,
                    ),
            decreases count - i,
        {
            let value = self.read_native_u32();
            values.push(ValueId(value));
            i += 1;
        }
        values
    }

    /// Reads what stands at the position of the reader, if the stream holds all of it.
    /// A reader that finds nothing to read stays where it is.
    pub fn read_instruction(&mut self) -> (item: Option<Item>)
        requires
            old(self).wf(),
        ensures
            final(self).wf(),
            final(self).data == old(self).data,
            match item {
                Some(item) => {
                    &&& length_at(old(self).data@, old(self).index as int) matches Some(length)
                    &&& final(self).index == old(self).index + length
                    &&& item_at(old(self).data@, old(self).index as int, item)
                },
                None => length_at(old(self).data@, old(self).index as int) is None && final(self).index == old(self).index,
            },
    {
        let left = self.left();
        if left == 0 {
            return None;
        }
        let start = self.index;
        let op_code = match MirOpCode::from_number(self.data[self.index]) {
            Some(op_code) => op_code,
            None => {
                return None;
            },
        };
        match op_code {
            MirOpCode::DefineNat32 => {
                if left < 9 {
                    return None;
                }
                self.index = self.index + 1;
                let id = self.read_native_u32();
                let value = self.read_native_u32();
                Some(Item::Data(MirInstructionData::DefineNat32(ValueId(id), value)))
            },
            MirOpCode::DefineInt32 => {
                if left < 9 {
                    return None;
                }
                self.index = self.index + 1;
                let id = self.read_native_u32();
                let value = self.read_native_i32();
                Some(Item::Data(MirInstructionData::DefineInt32(ValueId(id), value)))
            },
            MirOpCode::ReturnValue => {
                if left < 5 {
                    return None;
                }
                self.index = self.index + 1;
                let id = self.read_native_u32();
                Some(Item::Data(MirInstructionData::ReturnValue(ValueId(id))))
            },
            MirOpCode::Call => {
                if left < 14 {
                    return None;
                }
                let arguments_count = self.data[self.index + 13];
                if left - 14 < 4 * (arguments_count as usize) {
                    return None;
                }
                self.index = self.index + 1;
                let result = self.read_native_u32();
                let function_id = self.read_native_u64();
                let count = self.read_native_u8();
                let arguments = self.read_native_slice(count as usize);
                assert(arguments@ =~= arguments_at(self.data@, start as int));
                Some(
                    Item::Data(
                        MirInstructionData::Call(ValueId(result), FunctionId(function_id), arguments),
                    ),
                )
            },
            MirOpCode::MetaSpan => {
                if left < 17 {
                    return None;
                }
                self.index = self.index + 1;
                let start = self.read_native_u64();
                let end = self.read_native_u64();
                Some(Item::Span(start as usize, end as usize))
            },
        }
    }

    /// The next instruction with the span that was given for it, if any. `None` where
    /// the stream ends or cannot be read on.
    pub fn next_instruction(&mut self) -> (instruction: Option<MirInstruction>)
        requires
            old(self).wf(),
        ensures
            final(self).wf(),
            final(self).data == old(self).data,
            final(self).index >= old(self).index,
            instruction is Some ==> final(self).index > old(self).index,
            match instruction {
                Some(instruction) => instruction_from(
                    old(self).data@,
                    old(self).index as int,
                    None,
                    instruction,
                    final(self).index as int,
                ),
                None => unreadable(old(self).data@, old(self).index as int),
            },
    {
        let mut meta = MirInstructionMeta::default();
        loop
            invariant
                self.wf(),
                self.data == old(self).data,
                self.index >= old(self).index,
                forall|instruction: MirInstruction, end: int|
                    instruction_from(
                        self.data@,
                        self.index as int,
                        meta.span,
                        instruction,
                        end,
                    ) == #[trigger] instruction_from(
                        old(self).data@,
                        old(self).index as int,
                        None,
                        instruction,
                        end,
                    ),
            decreases self.data@.len() - self.index,
        {
            let ghost before = self.index as int;
            let ghost span = meta.span;
            match self.read_instruction() {
                Some(Item::Data(data)) => {
                    let instruction = MirInstruction { data, meta };
                    assert(instruction_from(
                        self.data@,
                        before,
                        span,
                        instruction,
                        self.index as int,
                    ));
                    return Some(instruction);
                },
                Some(Item::Span(start, end)) => {
                    meta.span = Some(Range { start, end });
                },
                None => {
                    return None;
                },
            }
        }
    }
}

/// Whether no instruction can be read from `index` on: the stream ends, or what stands
/// there or behind the spans that stand there is no whole instruction.
pub open spec fn unreadable(data: Seq<u8>, index: int) -> bool {
    forall|instruction: MirInstruction, end: int|
        !#[trigger] instruction_from(data, index, None, instruction, end)
}

/// Whether `item` is what stands at `index`, where the stream holds a whole instruction.
pub open spec fn item_at(data: Seq<u8>, index: int, item: Item) -> bool {
    match MirOpCode::of_number(data[index]) {
        Some(MirOpCode::DefineNat32) => item matches Item::Data(
            MirInstructionData::DefineNat32(id, value),
        ) && id.0 == number_at(data, index + 1, 4) && value == number_at(data, index + 5, 4),
        Some(MirOpCode::DefineInt32) => item matches Item::Data(
            MirInstructionData::DefineInt32(id, value),
        ) && id.0 == number_at(data, index + 1, 4) && value == i32_of_bits(
            number_at(data, index + 5, 4) as u32,
        ),
        Some(MirOpCode::ReturnValue) => item matches Item::Data(
            MirInstructionData::ReturnValue(id),
        ) && id.0 == number_at(data, index + 1, 4),
        Some(MirOpCode::Call) => item matches Item::Data(
            MirInstructionData::Call(result, function, arguments),
        ) && result.0 == number_at(data, index + 1, 4) && function.0 == number_at(
            data,
            index + 5,
            8,
        ) && arguments@ == arguments_at(data, index),
        Some(MirOpCode::MetaSpan) => item matches Item::Span(start, end) && start == number_at(
            data,
            index + 1,
            8,
        ) as usize && end == number_at(data, index + 9, 8) as usize,
        None => false,
    }
}

/// Whether `instruction` is the first instruction from `index` on, with the last span
/// given before it, or `span` if none is given, and the stream is at `end` behind it.
pub open spec fn instruction_from(
    data: Seq<u8>,
    index: int,
    span: Option<Range<usize>>,
    instruction: MirInstruction,
    end: int,
) -> bool
    decreases data.len() - index,
{
    match length_at(data, index) {
        Some(length) => if MirOpCode::of_number(data[index]) == Some(MirOpCode::MetaSpan) {
            length > 0 && instruction_from(
                data,
                index + length,
                Some(
                    Range {
                        start: number_at(data, index + 1, 8) as usize,
                        end: number_at(data, index + 9, 8) as usize,
                    },
                ),
                instruction,
                end,
            )
        } else {
            &&& end == index + length
            &&& instruction.meta.span == span
            &&& item_at(data, index, Item::Data(instruction.data))
        },
        None => false,
    }
}

impl View for MirContainer {
    type V = Seq<u8>;

    closed spec fn view(&self) -> Seq<u8> {
        self.data@
    }
}

impl MirContainer {
    /// A container without instructions.
    pub fn new() -> (container: Self)
        ensures
            container@ == Seq::<u8>::empty(),
    {
        MirContainer { data: Vec::new() }
    }

    /// The bytes of the container, by value.
    pub fn into_bytes(self) -> (bytes: Vec<u8>)
        ensures
            bytes@ == self@,
    {
        self.data
    }

    /// The bytes of the container.
    pub fn as_bytes(&self) -> (bytes: &[u8])
        ensures
            bytes@ == self@,
    {
        self.data.as_slice()
    }

    pub fn iter(&self) -> (iterator: MirContainerIterator<'_>)
        ensures
            iterator.data() == self@,
            iterator.position() == 0,
    {
        MirContainerIterator { content: self, index: 0 }
    }

    /// Puts bytes behind the bytes of the container.
    pub(crate) fn emit_native_bytes(&mut self, bytes: Vec<u8>)
        ensures
            final(self)@ == old(self)@ + bytes@,
    {
        self.data.extend_from_slice(bytes.as_slice());
    }
}

impl<'container> MirContainerIterator<'container> {
    /// The bytes that the iterator reads.
    pub closed spec fn data(&self) -> Seq<u8> {
        self.content@
    }

    /// Where the iterator stands. It stands at the end once it has nothing left to hand
    /// out.
    pub closed spec fn position(&self) -> int {
        self.index as int
    }

    /// The next instruction with the span that was given for it, if any; `None` at the
    /// end of the stream, or where the stream cannot be read on.
    pub fn next(&mut self) -> (instruction: Option<MirInstruction>)
        requires
            old(self).position() <= old(self).data().len(),
        ensures
            final(self).data() == old(self).data(),
            final(self).position() <= final(self).data().len(),
            match instruction {
                Some(instruction) => instruction_from(
                    old(self).data(),
                    old(self).position(),
                    None,
                    instruction,
                    final(self).position(),
                ),
                None => final(self).position() == final(self).data().len() && unreadable(
                    old(self).data(),
                    old(self).position(),
                ),
            },
    {
        let mut reader = Reader { data: self.content.data.as_slice(), index: self.index };
        match reader.next_instruction() {
            Some(instruction) => {
                self.index = reader.index;
                Some(instruction)
            },
            None => {
                self.index = self.content.data.len();
                None
            },
        }
    }
}

} // verus!
