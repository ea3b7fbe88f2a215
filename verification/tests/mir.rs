use rokugo::backend_common::{FunctionId, UnstableTypeId, ValueId};
use rokugo::mir::container::MirContainer;
use rokugo::mir::content::MirContent;
use rokugo::mir::emitter::MirEmitter;
use rokugo::mir::op_code::{MirInstruction, MirInstructionData, MirInstructionMeta, MirOpCode};

fn emit_and_assert<const LENGTH: usize>(f: fn(&mut MirEmitter) -> [MirInstructionData; LENGTH]) {
    let mut mir = MirEmitter::new();
    let data = f(&mut mir);
    let mut iter = mir.iter();
    let mut i = 0;
    while let Some(instruction) = iter.next() {
        assert_eq!(data[i], instruction.data);
        i += 1;
    }
    assert_eq!(i, LENGTH);
}

fn emit_meta_and_assert(f: fn(&mut MirEmitter) -> MirInstructionMeta) {
    let mut mir = MirEmitter::new();
    let data = f(&mut mir);
    assert_eq!(data, mir.iter().next().unwrap().meta);
}

#[test]
fn define_nat32() {
    emit_and_assert(|mir| {
        let id = mir.define_nat32(45);
        [MirInstructionData::DefineNat32(id, 45)]
    });
}

#[test]
fn define_int32() {
    emit_and_assert(|mir| {
        let id = mir.define_int32(65);
        [MirInstructionData::DefineInt32(id, 65)]
    });
}

#[test]
fn emitter_return_value() {
    emit_and_assert(|mir| {
        let id = mir.define_int32(-5634);
        mir.return_value(id);
        [
            MirInstructionData::DefineInt32(id, -5634),
            MirInstructionData::ReturnValue(id),
        ]
    });
}

#[test]
fn meta_span() {
    emit_meta_and_assert(|mir| {
        mir.meta_span(0..5).define_int32(-1);
        MirInstructionMeta { span: Some(0..5) }
    });
}

#[test]
fn container_iter_many() {
    let mut mir = MirEmitter::new();

    // Prepare
    let int = mir.meta_span(0..3).define_int32(65);
    mir.return_value(int);

    let container = mir.into_container();
    let mut iter = container.iter();

    // Assert
    assert!(
        Some(MirInstruction {
            data: MirInstructionData::DefineInt32(int, 65),
            meta: MirInstructionMeta { span: Some(0..3) }
        }) == iter.next()
    );
    assert!(
        Some(MirInstruction {
            data: MirInstructionData::ReturnValue(int),
            meta: MirInstructionMeta::default()
        }) == iter.next()
    );

    assert!(iter.next().is_none());
}

#[test]
fn content_iter_many() {
    let mut mir = MirEmitter::new();

    // Prepare
    let int = mir.meta_span(0..3).define_int32(65);
    mir.return_value(int);

    let content = MirContent::from(mir.into_container());
    let mut iter = content.iter();

    // Assert
    assert!(
        Some(MirInstruction {
            data: MirInstructionData::DefineInt32(int, 65),
            meta: MirInstructionMeta { span: Some(0..3) }
        }) == iter.next()
    );
    assert!(
        Some(MirInstruction {
            data: MirInstructionData::ReturnValue(int),
            meta: MirInstructionMeta::default()
        }) == iter.next()
    );

    assert!(iter.next().is_none());
}

#[test]
fn call_and_bytes() {
    let mut mir = MirEmitter::new();
    let a = mir.define_nat32(0x01020304);
    let b = mir.define_int32(-2);
    let r = mir.call(FunctionId(0x1122334455667788), &[a, b]);
    assert_eq!((a, b, r), (ValueId(0), ValueId(1), ValueId(2)));
    let container: MirContainer = mir.into_container();
    assert_eq!(
        container.as_bytes(),
        &[
            0, 0, 0, 0, 0, 4, 3, 2, 1, // DefineNat32 %0 0x01020304
            1, 1, 0, 0, 0, 0xfe, 0xff, 0xff, 0xff, // DefineInt32 %1 -2
            3, 2, 0, 0, 0, 0x88, 0x77, 0x66, 0x55, 0x44, 0x33, 0x22, 0x11, 2, 0, 0, 0, 0, 1, 0, 0, 0,
        ]
    );
    let mut iter = container.iter();
    iter.next();
    iter.next();
    assert_eq!(
        iter.next().unwrap().data,
        MirInstructionData::Call(r, FunctionId(0x1122334455667788), vec![a, b])
    );
    assert!(iter.next().is_none());
    assert_eq!(MirOpCode::from_number(MirOpCode::MetaSpan.to_number()), Some(MirOpCode::MetaSpan));
    assert_eq!(MirOpCode::from_number(5), None);
}

#[test]
fn truncated_stream_ends_the_iteration() {
    let mut mir = MirEmitter::new();
    mir.define_nat32(7);
    let mut bytes = mir.into_container().into_bytes();
    bytes.extend_from_slice(&[2, 1, 0]);
    let content = MirContent::from({
        let mut again = MirEmitter::new();
        again.define_nat32(7);
        again.into_container()
    });
    let mut iter = content.iter();
    assert!(iter.next().is_some());
    assert!(iter.next().is_none());
    assert_eq!(bytes.len(), 12);
}

#[test]
fn identifiers_as_text() {
    assert_eq!(ValueId(12).to_text(), "%12");
    assert_eq!(FunctionId(0).to_text(), "$0");
    assert_eq!(UnstableTypeId::void().inner(), 0);
    assert_eq!(UnstableTypeId::nat32().inner(), 1);
}
