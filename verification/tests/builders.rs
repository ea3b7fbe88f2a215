use rokugo::backend_common::{FunctionId, UnstableTypeId, ValueId};
use rokugo::ir::archive::{Archive, ArchiveLoadError, ArchiveRef, UnstableArchiveId};
use rokugo::ir::container::IrContainer;
use rokugo::ir::small::{RegisterList, TypeList};
use rokugo::ir::register::RegisterId;
use rokugo::ir::function::{
    Function, FunctionCategory, FunctionCollection, FunctionLoadError, FunctionSignature,
    ReturnData, ReturnDataContainer, UnstableFunctionId,
};
use rokugo::ir_generated::emitter::IrEmitter;
use rokugo::mir::archive_builder::{new_archive_with_standard, ArchiveBuilderRef};
use rokugo::mir::content::MirContent;
use rokugo::mir::emitter::MirEmitter;
use rokugo::mir::function_builder::{FunctionBuilder, FunctionSignatureBuilder};

fn function() -> Function {
    Function::new(
        FunctionSignature::new(ReturnData {
            return_type: rokugo::ir::types::UnstableTypeId::void(),
            container: ReturnDataContainer::Registers(RegisterList::new()),
        }),
        IrEmitter::new().into_container(),
    )
}

#[test]
fn return_value_return_value() {
    let ir = IrEmitter::new();

    let made = Function::new(
        FunctionSignature::new(ReturnData {
            return_type: rokugo::ir::types::UnstableTypeId::void(),
            container: ReturnDataContainer::Registers(RegisterList::new()),
        }),
        ir.into_container(),
    );
    assert_eq!(made.signature.return_data.return_type.inner(), 0);
    assert_eq!(made.code.as_bytes(), &[] as &[u8]);
}

#[test]
fn functions_are_found_through_dependencies() {
    let mut code = function();
    code.code = IrContainer::try_from_vec(vec![1, 0, 7, 0]).unwrap();
    let library = ArchiveRef::new(Archive::new(
        vec![],
        FunctionCollection::new(vec![FunctionCategory::Local(0)], vec![code]),
    ));
    let program = ArchiveRef::new(Archive::new(
        vec![library],
        FunctionCollection::new(
            vec![
                FunctionCategory::Local(0),
                FunctionCategory::External(UnstableArchiveId(0), UnstableFunctionId(0)),
                FunctionCategory::External(UnstableArchiveId(3), UnstableFunctionId(0)),
                FunctionCategory::External(UnstableArchiveId(0), UnstableFunctionId(9)),
                FunctionCategory::Local(5),
            ],
            vec![function()],
        ),
    ));
    let own = FunctionCollection::get(&program, UnstableFunctionId(0)).ok().unwrap();
    assert_eq!(own.code.as_bytes(), &[] as &[u8]);
    let external = FunctionCollection::get(&program, UnstableFunctionId(1)).ok().unwrap();
    assert_eq!(external.code.as_bytes(), &[1, 0, 7, 0]);
    match FunctionCollection::get(&program, UnstableFunctionId(2)) {
        Err(FunctionLoadError::ArchiveRelated(ArchiveLoadError::DependencyDoesNotExist(_, id))) => {
            assert_eq!(id, UnstableArchiveId(3));
        }
        _ => panic!("the dependency does not exist"),
    }
    match FunctionCollection::get(&program, UnstableFunctionId(3)) {
        Err(FunctionLoadError::DoesNotExsist(_, id)) => assert_eq!(id, UnstableFunctionId(9)),
        _ => panic!("the function does not exist in the dependency"),
    }
    assert!(matches!(
        FunctionCollection::get(&program, UnstableFunctionId(4)),
        Err(FunctionLoadError::DoesNotExsist(_, UnstableFunctionId(4)))
    ));
    let missing = FunctionCollection::get(&program, UnstableFunctionId(77)).err().unwrap();
    let diagnostic = missing.diagnostic();
    assert!(diagnostic
        .message
        .starts_with("function with unstable id `4d` does not exist in archive `"));
    assert!(program.load_dependency(UnstableArchiveId(0)).is_ok());
    let error = program.load_dependency(UnstableArchiveId(255)).err().unwrap();
    assert!(error
        .diagnostic()
        .message
        .starts_with("dependency archive with unstable id `ff` does not exist for archive `"));
    assert_eq!(UnstableArchiveId(255).to_text(), "ff");
    assert_eq!(UnstableFunctionId(4096).inner(), 4096);
}

#[test]
fn function_builders_number_parameters_from_the_top() {
    let builder = FunctionBuilder::new(
        FunctionId(3),
        FunctionSignatureBuilder {
            parameters: vec!["a", "b", "c"],
            return_type: UnstableTypeId::nat32(),
        },
    );
    assert_eq!(builder.id(), FunctionId(3));
    let signature = builder.signature();
    assert_eq!(signature.parameter_count(), 3);
    assert_eq!(*signature.parameter(0), ("a", ValueId(u32::MAX)));
    assert_eq!(*signature.parameter(1), ("b", ValueId(u32::MAX - 1)));
    assert_eq!(*signature.parameter(2), ("c", ValueId(u32::MAX - 2)));
    assert_eq!(signature.result_type(), UnstableTypeId::nat32());
    assert!(builder.mir().is_none());
    let nothing: FunctionSignatureBuilder<u8> = FunctionSignatureBuilder::default();
    assert!(nothing.parameters.is_empty());
    assert_eq!(nothing.return_type, UnstableTypeId::void());
}

#[test]
fn archives_hand_out_function_identifiers_in_order() {
    let mut archive: ArchiveBuilderRef<u8> = new_archive_with_standard();
    let first = archive.define_function(FunctionSignatureBuilder::default()).id();
    let second = archive.define_function(FunctionSignatureBuilder::default()).id();
    assert_eq!((first, second), (FunctionId(0), FunctionId(1)));
    assert!(archive.function(FunctionId(1)).is_some());
    assert!(archive.function(FunctionId(2)).is_none());
    let mut function = FunctionBuilder::new(FunctionId(9), FunctionSignatureBuilder::<u8>::default());
    let mut mir = MirEmitter::new();
    mir.define_nat32(1);
    function.set_or_update_mir(MirContent::from(mir.into_container()));
    assert!(function.mir().is_some());
    assert!(function
        .try_set_mir(MirContent::from(MirEmitter::new().into_container()))
        .is_err());
    let mut left = function.mir().unwrap().iter();
    assert!(left.next().is_some());
    assert!(left.next().is_none());
}

#[test]
fn short_lists_keep_their_items_in_order() {
    let mut registers = RegisterList::new();
    assert_eq!(registers.len(), 0);
    assert_eq!(registers.get(0), None);
    for id in 0..6 {
        registers.push(RegisterId(1024 + id));
    }
    assert_eq!(registers.len(), 6);
    assert_eq!(registers.get(0), Some(RegisterId(1024)));
    assert_eq!(registers.get(5), Some(RegisterId(1029)));
    assert_eq!(registers.get(6), None);

    let types = TypeList::from_slice(&[rokugo::ir::types::UnstableTypeId(7), rokugo::ir::types::UnstableTypeId(0), rokugo::ir::types::UnstableTypeId(9)]);
    assert_eq!(types.len(), 3);
    assert_eq!(types.get(0), Some(rokugo::ir::types::UnstableTypeId(7)));
    assert_eq!(types.get(2), Some(rokugo::ir::types::UnstableTypeId(9)));
    assert_eq!(types.get(3), None);
}
