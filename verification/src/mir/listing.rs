//! Listings of instructions: what is written, in which paint.

use crate::mir::container::instruction_from;
use crate::mir::container::unreadable;
use crate::mir::container::MirContainer;
use crate::mir::container::Reader;
use crate::mir::content::MirContent;
use crate::mir::op_code::MirInstruction;
use crate::mir::op_code::MirInstructionData;
use crate::mir::op_code::MirInstructionMeta;
use crate::text::decimal;
use crate::text::push_str;
use crate::text::u64_to_string;
use crate::text::usize_to_string;
use vstd::prelude::*;

verus! {

/// The paints of a listing.
#[derive(Debug, Clone, Copy, PartialEq, Eq, Structural)]
pub enum Paint {
    /// Instructions that define values.
    Memory,
    /// Instructions that steer the control flow.
    ControlFlow,
    /// What is said about instructions.
    Meta,
    /// Identifiers of values.
    ValueId,
    /// Identifiers of functions.
    FunctionId,
}

/// One step of writing a listing.
#[derive(Debug, PartialEq, Eq)]
pub enum Step {
    /// From here on, write in this paint.
    SetColor(Paint),
    /// From here on, write without paint.
    Reset,
    /// Write this text.
    Write(String),
}

/// A step as contracts see it.
pub enum StepView {
    SetColor(Paint),
    Reset,
    Write(Seq<char>),
}

impl View for Step {
    type V = StepView;

    open spec fn view(&self) -> StepView {
        match *self {
            Step::SetColor(paint) => StepView::SetColor(paint),
            Step::Reset => StepView::Reset,
            Step::Write(text) => StepView::Write(text@),
        }
    }
}

/// What the steps say, one by one.
pub open spec fn step_views(steps: Seq<Step>) -> Seq<StepView> {
    Seq::new(steps.len(), |i: int| steps[i]@)
}

/// The numeral of an integer: that of its amount, behind a minus sign if it is negative.
pub open spec fn signed_decimal(value: int) -> Seq<char> {
    if value < 0 {
        "-"@ + decimal((-value) as nat)
    } else {
        decimal(value as nat)
    }
}

/// The steps that write the result of an instruction: the identifier in its paint, then
/// ` = ` without paint.
pub open spec fn result_steps(id: u32) -> Seq<StepView> {
    seq![
        StepView::SetColor(Paint::ValueId),
        StepView::Write("%"@ + decimal(id as nat)),
        StepView::Reset,
        StepView::Write(" = "@),
    ]
}

/// The steps that write the identifier of a value.
pub open spec fn value_steps(id: u32) -> Seq<StepView> {
    seq![StepView::SetColor(Paint::ValueId), StepView::Write("%"@ + decimal(id as nat))]
}

/// The steps that write the arguments of a call, each behind a blank.
pub open spec fn argument_steps(arguments: Seq<crate::backend_common::ValueId>) -> Seq<StepView>
    decreases arguments.len(),
{
    if arguments.len() == 0 {
        Seq::empty()
    } else {
        argument_steps(arguments.drop_last()) + seq![StepView::Write(" "@)] + value_steps(
            arguments.last().0,
        )
    }
}

/// The steps that write an instruction on a line of its own.
pub open spec fn data_steps(data: MirInstructionData) -> Seq<StepView> {
    (match data {
        MirInstructionData::DefineNat32(result, value) => result_steps(result.0) + seq![
            StepView::SetColor(Paint::Memory),
            StepView::Write("DefineNat32 "@),
            StepView::Reset,
            StepView::Write(decimal(value as nat)),
        ],
        MirInstructionData::DefineInt32(result, value) => result_steps(result.0) + seq![
            StepView::SetColor(Paint::Memory),
            StepView::Write("DefineInt32 "@),
            StepView::Reset,
            StepView::Write(signed_decimal(value as int)),
        ],
        MirInstructionData::ReturnValue(value) => seq![
            StepView::SetColor(Paint::ControlFlow),
            StepView::Write("ReturnValue "@),
        ] + value_steps(value.0),
        MirInstructionData::Call(result, function, arguments) => result_steps(result.0) + seq![
            StepView::SetColor(Paint::ControlFlow),
            StepView::Write("Call "@),
            StepView::SetColor(Paint::FunctionId),
            StepView::Write("$"@ + decimal(function.0 as nat)),
        ] + argument_steps(arguments@),
    }) + seq![StepView::Write("\n"@)]
}

/// The steps that write what is said about an instruction: the paint of such remarks,
/// and the span on a line of its own if there is one.
pub open spec fn meta_steps(meta: MirInstructionMeta) -> Seq<StepView> {
    seq![StepView::SetColor(Paint::Meta)] + (match meta.span {
        Some(span) => seq![
            StepView::Write(
                "@MetaSpan: "@ + decimal(span.start as nat) + ".."@ + decimal(span.end as nat)
                    + "\n"@,
            ),
        ],
        None => Seq::empty(),
    })
}

/// The steps that write an instruction with what is said about it.
pub open spec fn instruction_steps(instruction: MirInstruction) -> Seq<StepView> {
    meta_steps(instruction.meta) + data_steps(instruction.data)
}

/// Whether `steps` write the instructions that are read from `index` on, one behind the
/// other, up to where the stream ends or cannot be read on.
pub open spec fn lists(data: Seq<u8>, index: int, steps: Seq<StepView>) -> bool
    decreases data.len() - index,
{
    if unreadable(data, index) {
        steps == Seq::<StepView>::empty()
    } else {
        exists|instruction: MirInstruction, end: int|
            {
                &&& #[trigger] instruction_from(data, index, None, instruction, end)
                &&& index < end <= data.len()
                &&& instruction_steps(instruction).is_prefix_of(steps)
                &&& lists(data, end, steps.skip(instruction_steps(instruction).len() as int))
            }
    }
}

/// Whether `steps` write a whole stream: its instructions, then no paint.
pub open spec fn stream_steps(data: Seq<u8>, steps: Seq<StepView>) -> bool {
    steps.len() > 0 && steps.last() == StepView::Reset && lists(data, 0, steps.drop_last())
}

/// Puts `step` behind `steps`.
fn put(steps: &mut Vec<Step>, step: Step)
    ensures
        step_views(final(steps)@) == step_views(old(steps)@).push(step@),
{
    steps.push(step);
    assert(step_views(steps@) =~= step_views(old(steps)@).push(step@));
}

/// The numeral of an integer.
fn i32_to_string(value: i32) -> (text: String)
    ensures
        text@ == signed_decimal(value as int),
{
    if value < 0 {
        let mut text = "-".to_owned();
        let amount: u64 = (-(value as i64)) as u64;
        push_str(&mut text, u64_to_string(amount).as_str());
        text
    } else {
        u64_to_string(value as u64)
    }
}

fn write_result(steps: &mut Vec<Step>, result: &crate::backend_common::ValueId)
    ensures
        step_views(final(steps)@) == step_views(old(steps)@) + result_steps(result.0),
{
    put(steps, Step::SetColor(Paint::ValueId));
    put(steps, Step::Write(result.to_text()));
    put(steps, Step::Reset);
    put(steps, Step::Write(" = ".to_owned()));
    assert(step_views(steps@) =~= step_views(old(steps)@) + result_steps(result.0));
}

fn write_value_id(steps: &mut Vec<Step>, value_id: &crate::backend_common::ValueId)
    ensures
        step_views(final(steps)@) == step_views(old(steps)@) + value_steps(value_id.0),
{
    put(steps, Step::SetColor(Paint::ValueId));
    put(steps, Step::Write(value_id.to_text()));
    assert(step_views(steps@) =~= step_views(old(steps)@) + value_steps(value_id.0));
}

fn write_function_id(steps: &mut Vec<Step>, function_id: &crate::backend_common::FunctionId)
    ensures
        step_views(final(steps)@) == step_views(old(steps)@) + seq![
            StepView::SetColor(Paint::FunctionId),
            StepView::Write("$"@ + decimal(function_id.0 as nat)),
        ],
{
    put(steps, Step::SetColor(Paint::FunctionId));
    put(steps, Step::Write(function_id.to_text()));
    assert(step_views(steps@) =~= step_views(old(steps)@) + seq![
        StepView::SetColor(Paint::FunctionId),
        StepView::Write("$"@ + decimal(function_id.0 as nat)),
    ]);
}

impl MirInstructionData {
    /// Puts the steps that write the instruction behind `steps`.
    pub fn fmt_with_color(&self, steps: &mut Vec<Step>)
        ensures
            step_views(final(steps)@) == step_views(old(steps)@) + data_steps(*self),
    {
        match self {
            // Memory
            MirInstructionData::DefineNat32(result, value) => {
                write_result(steps, result);
                put(steps, Step::SetColor(Paint::Memory));
                put(steps, Step::Write("DefineNat32 ".to_owned()));
                put(steps, Step::Reset);
                put(steps, Step::Write(u64_to_string(*value as u64)));
            },
            MirInstructionData::DefineInt32(result, value) => {
                write_result(steps, result);
                put(steps, Step::SetColor(Paint::Memory));
                put(steps, Step::Write("DefineInt32 ".to_owned()));
                put(steps, Step::Reset);
                put(steps, Step::Write(i32_to_string(*value)));
            },
            // Control flow
            MirInstructionData::ReturnValue(value) => {
                put(steps, Step::SetColor(Paint::ControlFlow));
                put(steps, Step::Write("ReturnValue ".to_owned()));
                write_value_id(steps, value);
            },
            MirInstructionData::Call(result, function_id, arguments) => {
                write_result(steps, result);
                put(steps, Step::SetColor(Paint::ControlFlow));
                put(steps, Step::Write("Call ".to_owned()));
                write_function_id(steps, function_id);
                let ghost head = step_views(steps@);
                let mut i: usize = 0;
                assert(arguments@.subrange(0, 0) =~= Seq::empty());
                assert(step_views(steps@) =~= head + argument_steps(arguments@.subrange(0, 0)));
                while i < arguments.len()
                    invariant
                        i <= arguments@.len(),
                        step_views(steps@) == head + argument_steps(
                            arguments@.subrange(0, i as int),
                        ),
                    decreases arguments@.len() - i,
                {
                    put(steps, Step::Write(" ".to_owned()));
                    write_value_id(steps, &arguments[i]);
                    proof {
                        let next = arguments@.subrange(0, i + 1);
                        assert(next.drop_last() =~= arguments@.subrange(0, i as int));
                        assert(step_views(steps@) =~= head + argument_steps(next));
                    }
                    i += 1;
                }
                assert(arguments@.subrange(0, arguments@.len() as int) =~= arguments@);
            },
        }
        put(steps, Step::Write("\n".to_owned()));
        assert(step_views(steps@) =~= step_views(old(steps)@) + data_steps(*self));
    }
}

impl MirInstructionMeta {
    /// Puts the steps that write what is said about an instruction behind `steps`.
    pub fn fmt_with_color(&self, steps: &mut Vec<Step>)
        ensures
            step_views(final(steps)@) == step_views(old(steps)@) + meta_steps(*self),
    {
        put(steps, Step::SetColor(Paint::Meta));
        if let Some(span) = &self.span {
            let mut line = "@MetaSpan: ".to_owned();
            push_str(&mut line, usize_to_string(span.start).as_str());
            push_str(&mut line, "..");
            push_str(&mut line, usize_to_string(span.end).as_str());
            push_str(&mut line, "\n");
            put(steps, Step::Write(line));
        }
        assert(step_views(steps@) =~= step_views(old(steps)@) + meta_steps(*self));
    }
}

impl MirInstruction {
    /// Puts the steps that write the instruction, with what is said about it, behind
    /// `steps`.
    pub fn fmt_with_color(&self, steps: &mut Vec<Step>)
        ensures
            step_views(final(steps)@) == step_views(old(steps)@) + instruction_steps(*self),
    {
        self.meta.fmt_with_color(steps);
        self.data.fmt_with_color(steps);
        assert(step_views(steps@) =~= step_views(old(steps)@) + instruction_steps(*self));
    }
}

/// Puts the steps that write the stream `data` behind `steps`.
fn list_stream(data: &[u8], steps: &mut Vec<Step>)
    ensures
        step_views(old(steps)@).is_prefix_of(step_views(final(steps)@)),
        stream_steps(data@, step_views(final(steps)@).skip(old(steps)@.len() as int)),
{
    let ghost before = step_views(steps@);
    let mut reader = Reader { data, index: 0 };
    assert(step_views(steps@).skip(before.len() as int) =~= Seq::empty());
    loop
        invariant
            reader.wf(),
            reader.data == data,
            before == step_views(old(steps)@),
            before.len() == old(steps)@.len(),
            before.is_prefix_of(step_views(steps@)),
            forall|rest: Seq<StepView>| #[trigger]
                lists(data@, reader.index as int, rest) ==> lists(
                    data@,
                    0,
                    step_views(steps@).skip(before.len() as int) + rest,
                ),
        decreases data@.len() - reader.index,
    {
        let ghost index = reader.index as int;
        let ghost written = step_views(steps@).skip(before.len() as int);
        match reader.next_instruction() {
            Some(instruction) => {
                let ghost earlier = step_views(steps@);
                instruction.fmt_with_color(steps);
                proof {
                    let line = instruction_steps(instruction);
                    let end = reader.index as int;
                    assert(step_views(steps@).skip(before.len() as int) =~= written + line);
                    assert forall|rest: Seq<StepView>| #[trigger]
                        lists(data@, end, rest) implies lists(
                        data@,
                        0,
                        step_views(steps@).skip(before.len() as int) + rest,
                    ) by {
                        assert((line + rest).skip(line.len() as int) =~= rest);
                        assert(line.is_prefix_of(line + rest));
                        assert(instruction_from(data@, index, None, instruction, end));
                        assert(lists(data@, index, line + rest));
                        assert(written + (line + rest) =~= (written + line) + rest);
                    }
                }
            },
            None => {
                proof {
                    assert(lists(data@, index, Seq::empty()));
                    assert(written + Seq::<StepView>::empty() =~= written);
                }
                put(steps, Step::Reset);
                proof {
                    let tail = step_views(steps@).skip(before.len() as int);
                    assert(tail =~= written.push(StepView::Reset));
                    assert(tail.drop_last() =~= written);
                    assert(tail.last() == StepView::Reset);
                    assert(before.len() == old(steps)@.len());
                    assert(before.is_prefix_of(step_views(steps@)));
                    assert(stream_steps(data@, tail));
                }
                return ;
            },
        }
    }
}

impl MirContainer {
    /// Puts the steps that write the instructions of the container behind `steps`, and
    /// a last one that ends the paint.
    pub fn fmt_with_color(&self, steps: &mut Vec<Step>)
        ensures
            step_views(old(steps)@).is_prefix_of(step_views(final(steps)@)),
            stream_steps(self@, step_views(final(steps)@).skip(old(steps)@.len() as int)),
    {
        list_stream(self.as_bytes(), steps);
    }
}

impl MirContent {
    /// Puts the steps that write the instructions of the content behind `steps`, and a
    /// last one that ends the paint.
    pub fn fmt_with_color(&self, steps: &mut Vec<Step>)
        ensures
            step_views(old(steps)@).is_prefix_of(step_views(final(steps)@)),
            stream_steps(self@, step_views(final(steps)@).skip(old(steps)@.len() as int)),
    {
        list_stream(self.as_bytes(), steps);
    }
}

} // verus!
