use rokugo::diagnostic::{NoteKind, Severity};
use rokugo::ir::container::IrContainer;
use rokugo::ir::instruction_read_error::IrInstructionReadError;
use rokugo::ir::op_code::{IrInstruction, IrOpCode};
use rokugo::ir::register::{get_id, id_range, Register, RegisterChill, RegisterId, RegisterSP, RegisterX};
use rokugo::ir_generated::emitter::IrEmitter;
use rokugo::ir_generated::errors::RegisterAllocationError;
use rokugo::ir_generated::register_allocator::RegisterAllocator;

#[test]
fn alloc_overflow() {
    let mut allocator = RegisterAllocator::new();
    for _ in 0..u16::MAX {
        if allocator.next_nat32().is_err() {
            return;
        }
    }

    panic!("Should overflow");
}

#[test]
fn load_nat32() {
    let mut ir = IrEmitter::new();
    let chill = RegisterChill::default();
    ir.mark_register_chill(chill);
    let register = ir.alloc_register_nat32().unwrap();
    let register_id = register.id();
    ir.load_nat32(register.get(), 65).drop_register(register);
    let expected = [
        IrInstruction::MarkRegisterChill(chill),
        IrInstruction::AllocRegisterNat32(register_id, chill),
        IrInstruction::LoadNat32(register_id, 65),
    ];
    let container = ir.into_container();
    let mut iter = container.iter();
    let mut i = 0;
    while let Some(instruction) = iter.next() {
        assert_eq!(expected[i], instruction.unwrap());
        i += 1;
    }
    assert_eq!(expected.len(), i);
    assert_eq!(
        container.as_bytes(),
        &[3, 0, 0, 0, 0, 4, 2, 0, 0, 4, 65, 0, 0, 0]
    );
}

#[test]
fn allocator_hands_out_dropped_registers_first() {
    let mut allocator = RegisterAllocator::new();
    let a = allocator.next_nat32().unwrap();
    let b = allocator.next_nat32().unwrap();
    assert_eq!(a, RegisterId(1024));
    assert_eq!(b, RegisterId(1025));
    allocator.drop(RegisterId(7));
    allocator.drop(b);
    allocator.drop(a);
    assert_eq!(allocator.next_nat32(), Ok(b));
    assert_eq!(allocator.next_nat32(), Ok(a));
    assert_eq!(allocator.next_nat32(), Ok(RegisterId(1026)));
    let mut last = RegisterId(0);
    let mut count = 3;
    loop {
        match allocator.next_nat32() {
            Ok(id) => {
                last = id;
                count += 1;
            }
            Err(e) => {
                assert_eq!(e, RegisterAllocationError { last_valid_register_id: 2048 });
                break;
            }
        }
    }
    assert_eq!(last, RegisterId(2047));
    assert_eq!(count, 1024);
}

#[test]
fn allocation_error_diagnostic() {
    let diagnostic = RegisterAllocationError { last_valid_register_id: 2048 }.diagnostic();
    assert_eq!(diagnostic.severity, Severity::Bug);
    assert_eq!(
        diagnostic.message,
        "register allocation failed. Nat32 ID range overflow"
    );
    assert_eq!(diagnostic.notes.len(), 1);
    assert_eq!(diagnostic.notes[0].kind, NoteKind::Note);
    let unknown = RegisterAllocationError { last_valid_register_id: 5 }.diagnostic();
    assert_eq!(
        unknown.message,
        "register allocation failed. Unknown ID range overflow"
    );
}

#[test]
fn container_checks_its_bytes() {
    assert!(IrContainer::try_from_vec(vec![]).is_some());
    assert!(IrContainer::try_from_vec(vec![1, 0, 5, 0]).is_some());
    assert!(IrContainer::try_from_vec(vec![1, 0, 5]).is_none());
    assert!(IrContainer::try_from_vec(vec![2, 0, 5, 0, 1, 2, 3]).is_none());
    assert!(IrContainer::try_from_vec(vec![1]).is_none());
    let container = IrContainer::try_from_vec(vec![9, 1, 1, 0, 5, 4, 2, 0, 1, 0, 0x78, 0x56, 0x34, 0x12]).unwrap();
    let mut iter = container.iter();
    assert_eq!(
        iter.next(),
        Some(Err(IrInstructionReadError::InvalidOpCode(0, 265)))
    );
    assert_eq!(
        iter.next(),
        Some(Ok(IrInstruction::DropRegister(RegisterId(1029))))
    );
    assert_eq!(
        iter.next(),
        Some(Ok(IrInstruction::LoadNat32(RegisterId(1), 0x12345678)))
    );
    assert_eq!(iter.next(), None);
    assert_eq!(
        IrInstructionReadError::InvalidOpCode(0, 265).message(),
        "Invalid op code `265` at index: 0"
    );
}

#[test]
fn registers_and_op_codes() {
    assert_eq!(id_range(1), 1024..2048);
    assert_eq!(id_range(13), 13312..14336);
    assert_eq!(get_id(0), RegisterId(11264));
    assert_eq!(RegisterSP.id(), RegisterId(11264));
    assert_eq!(RegisterX::R14.id(), RegisterId(14));
    assert_eq!(RegisterId(0x1234).to_le_bytes(), [0x34, 0x12]);
    assert_eq!(RegisterId(0x1234).into_inner(), 0x1234);
    assert_eq!(RegisterChill::from_le_bytes(&[]), RegisterChill::default());
    assert_eq!(RegisterChill::default().to_le_bytes(), []);
    for op in [
        IrOpCode::AllocRegisterNat32,
        IrOpCode::DropRegister,
        IrOpCode::LoadNat32,
        IrOpCode::MarkRegisterChill,
    ] {
        assert_eq!(IrOpCode::try_from(op.to_number()), Ok(op));
    }
    assert_eq!(IrOpCode::try_from(4), Err(4));
}

#[test]
fn emitter_allocates_until_the_range_is_exhausted() {
    let mut ir = IrEmitter::new();
    let first = ir.alloc_register_nat32().unwrap();
    assert_eq!(first.id(), RegisterId(1024));
    let second = ir.alloc_register_nat32().unwrap();
    assert_eq!(second.id(), RegisterId(1025));
    ir.drop_register(first);
    let again = ir.alloc_register_nat32().unwrap();
    assert_eq!(again.id(), RegisterId(1024));
    for expected in 1026..2048 {
        assert_eq!(ir.alloc_register_nat32().unwrap().id(), RegisterId(expected));
    }
    let error = ir.alloc_register_nat32().err().unwrap();
    assert_eq!(error, RegisterAllocationError { last_valid_register_id: 2048 });
    ir.drop_register(second);
    assert_eq!(ir.alloc_register_nat32().unwrap().id(), RegisterId(1025));
    // Each allocation wrote one instruction of four bytes, and the failed one none.
    assert_eq!(ir.into_container().as_bytes().len(), 4 * 1026);
}
