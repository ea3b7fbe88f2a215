use std::io::Write;

use rokugo::backend_common::{FunctionId, ValueId};
use rokugo::diagnostic::{rendering_order, Note, NoteKind, Severity};
use rokugo::mir::content::MirContent;
use rokugo::mir::emitter::MirEmitter;
use rokugo::mir::listing::{Paint, Step};
use rokugo::mir::op_code::{MirInstruction, MirInstructionData, MirInstructionMeta};
use termcolor::{Buffer, Color, ColorChoice, ColorSpec, StandardStream, WriteColor};

fn color_of(paint: Paint) -> ColorSpec {
    let mut spec = ColorSpec::new();
    match paint {
        Paint::Memory | Paint::ControlFlow => spec.set_fg(Some(Color::Blue)).set_intense(true),
        Paint::Meta => spec.set_fg(Some(Color::Black)),
        Paint::ValueId => spec.set_fg(Some(Color::Yellow)),
        Paint::FunctionId => spec.set_fg(Some(Color::Green)),
    };
    spec
}

fn replay(steps: &[Step], f: &mut dyn WriteColor) -> std::io::Result<()> {
    for step in steps {
        match step {
            Step::SetColor(paint) => f.set_color(&color_of(*paint))?,
            Step::Reset => f.reset()?,
            Step::Write(text) => f.write_all(text.as_bytes())?,
        }
    }
    Ok(())
}

fn write(text: &str) -> Step {
    Step::Write(text.to_owned())
}

#[test]
fn colored_display() {
    let mut mir = MirEmitter::new();
    let int = mir.meta_span(0..3).define_int32(65);
    mir.return_value(int);

    let mir: MirContent = MirContent::from(mir.into_container());
    let mut steps = Vec::new();
    mir.fmt_with_color(&mut steps);
    let mut stdout = StandardStream::stdout(ColorChoice::Always);
    replay(&steps, &mut stdout).unwrap();

    assert_eq!(
        steps,
        vec![
            Step::SetColor(Paint::Meta),
            write("@MetaSpan: 0..3\n"),
            Step::SetColor(Paint::ValueId),
            write("%0"),
            Step::Reset,
            write(" = "),
            Step::SetColor(Paint::Memory),
            write("DefineInt32 "),
            Step::Reset,
            write("65"),
            write("\n"),
            Step::SetColor(Paint::Meta),
            Step::SetColor(Paint::ControlFlow),
            write("ReturnValue "),
            Step::SetColor(Paint::ValueId),
            write("%0"),
            write("\n"),
            Step::Reset,
        ]
    );
}

#[test]
fn listing_without_paint_is_the_plain_text() {
    let mut mir = MirEmitter::new();
    let int = mir.meta_span(0..3).define_int32(-65);
    let nat = mir.define_nat32(4_000_000_000);
    let sum = mir.call(FunctionId(7), &[int, nat]);
    mir.return_value(sum);

    let mut steps = Vec::new();
    mir.into_container().fmt_with_color(&mut steps);
    let mut plain = Buffer::no_color();
    replay(&steps, &mut plain).unwrap();
    assert_eq!(
        String::from_utf8(plain.into_inner()).unwrap(),
        "@MetaSpan: 0..3\n%0 = DefineInt32 -65\n%1 = DefineNat32 4000000000\n\
         %2 = Call $7 %0 %1\nReturnValue %2\n"
    );
}

#[test]
fn listing_of_a_call() {
    let call = MirInstructionData::Call(ValueId(3), FunctionId(12), vec![ValueId(1), ValueId(2)]);
    let mut steps = vec![Step::Reset];
    call.fmt_with_color(&mut steps);
    assert_eq!(
        steps,
        vec![
            Step::Reset,
            Step::SetColor(Paint::ValueId),
            write("%3"),
            Step::Reset,
            write(" = "),
            Step::SetColor(Paint::ControlFlow),
            write("Call "),
            Step::SetColor(Paint::FunctionId),
            write("$12"),
            write(" "),
            Step::SetColor(Paint::ValueId),
            write("%1"),
            write(" "),
            Step::SetColor(Paint::ValueId),
            write("%2"),
            write("\n"),
        ]
    );
}

#[test]
fn listing_of_the_smallest_integer() {
    let define = MirInstruction {
        data: MirInstructionData::DefineInt32(ValueId(0), i32::MIN),
        meta: MirInstructionMeta { span: None },
    };
    let mut steps = Vec::new();
    define.fmt_with_color(&mut steps);
    assert_eq!(steps[0], Step::SetColor(Paint::Meta));
    assert_eq!(steps[steps.len() - 2], write("-2147483648"));
    assert_eq!(steps.len(), 10);
}

#[test]
fn listing_of_nothing_ends_the_paint() {
    let mut steps = Vec::new();
    MirEmitter::new().into_container().fmt_with_color(&mut steps);
    assert_eq!(steps, vec![Step::Reset]);
}

#[test]
fn rendered_notes() {
    let context = Note { kind: NoteKind::Context, message: "while parsing".to_owned() };
    let note = Note { kind: NoteKind::Note, message: "try a blank".to_owned() };
    assert_eq!(context.rendered(), "while parsing");
    assert_eq!(note.rendered(), "note: try a blank");
}

#[test]
fn diagnostics_are_rendered_parents_first() {
    let leaf = |message: &str| Severity::Note.diagnostic(message);
    let first = Severity::Error
        .diagnostic("a")
        .with_child(leaf("a1").with_child(leaf("a11")))
        .with_child(leaf("a2"));
    let second = Severity::Warning.diagnostic("b").with_child(leaf("b1"));
    let diagnostics = vec![first, second];
    let order: Vec<&str> = rendering_order(&diagnostics)
        .into_iter()
        .map(|diagnostic| diagnostic.message.as_str())
        .collect();
    assert_eq!(order, vec!["a", "a1", "a11", "a2", "b", "b1"]);
    assert!(rendering_order(&[]).is_empty());
}
