//! Functions of an archive.

use crate::diagnostic::Diagnostic;
use crate::diagnostic::Severity;
use crate::ir::archive::missing_dependency_message;
use crate::ir::archive::ArchiveLoadError;
use crate::ir::archive::ArchiveRef;
use crate::ir::archive::UnstableArchiveId;
use crate::ir::container::IrContainer;
use crate::ir::small::RegisterList;
use crate::ir::types::UnstableTypeId;
use crate::text::hexadecimal;
use crate::text::push_str;
use crate::text::u64_to_hex;
use vstd::prelude::*;

verus! {

pub struct Function {
    pub signature: FunctionSignature,
    pub code: IrContainer,
}

pub struct FunctionSignature {
    pub return_data: ReturnData,
}

pub struct ReturnData {
    pub return_type: UnstableTypeId,
    pub container: ReturnDataContainer,
}

/// Store information how the return data is stored.
pub enum ReturnDataContainer {
    /// Return unwrapped type in registers.
    Registers(RegisterList),
    /// Grows stack by size of return type, where store a return value.
    ///
    /// Caller must remember about increased stack pointer, and return right data to their
    /// caller.
    Stack(),
}

#[derive(Debug, Clone, Copy, PartialEq, Eq, Structural)]
pub struct UnstableFunctionId(pub u64);

pub struct FunctionCollection {
    ids: Vec<FunctionCategory>,
    local: Vec<Function>,
}

pub enum FunctionCategory {
    /// The function is the one at this position among the archive's own.
    Local(u64),
    /// The function is the given one of the given dependency.
    External(UnstableArchiveId, UnstableFunctionId),
}

pub enum FunctionLoadError {
    DoesNotExsist(ArchiveRef, UnstableFunctionId),
    ArchiveRelated(ArchiveLoadError),
}

impl Function {
    pub fn new(signature: FunctionSignature, code: IrContainer) -> (function: Self)
        ensures
            function.signature == signature,
            function.code == code,
    {
        Self { signature, code }
    }
}

impl FunctionSignature {
    pub fn new(return_data: ReturnData) -> (signature: Self)
        ensures
            signature.return_data == return_data,
    {
        Self { return_data }
    }
}

impl UnstableFunctionId {
    pub fn inner(self) -> (value: u64)
        ensures
            value == self.0,
    {
        self.0
    }

    /// The identifier as it is written in messages: in hexadecimal.
    pub fn to_text(&self) -> (text: String)
        ensures
            text@ == hexadecimal(self.0 as nat),
    {
        u64_to_hex(self.0)
    }
}

/// Where looking a function up ends.
pub enum Lookup {
    /// At the function at this position among the own functions of this archive.
    Found(ArchiveRef, int),
    /// At an identifier that this archive has no function for.
    Missing(ArchiveRef, UnstableFunctionId),
    /// At a dependency that this archive does not have.
    NoDependency(ArchiveRef, UnstableArchiveId),
}

impl FunctionCollection {
    pub fn new(ids: Vec<FunctionCategory>, local: Vec<Function>) -> (collection: Self)
        ensures
            collection.ids() == ids@,
            collection.local() == local@,
    {
        FunctionCollection { ids, local }
    }

    /// What each function identifier of the archive stands for.
    pub closed spec fn ids(&self) -> Seq<FunctionCategory> {
        self.ids@
    }

    /// The archive's own functions.
    pub closed spec fn local(&self) -> Seq<Function> {
        self.local@
    }

    /// Where looking up `id` in `archive` ends, following at most `depth` references
    /// into dependencies.
    pub open spec fn lookup(archive: ArchiveRef, id: UnstableFunctionId, depth: nat) -> Lookup
        decreases depth,
    {
        let collection = archive@.functions();
        if id.0 >= collection.ids().len() {
            Lookup::Missing(archive, id)
        } else {
            match collection.ids()[id.0 as int] {
                FunctionCategory::Local(position) => if position < collection.local().len() {
                    Lookup::Found(archive, position as int)
                } else {
                    Lookup::Missing(archive, id)
                },
                FunctionCategory::External(dependency, function) => if dependency.0
                    >= archive@.dependencies().len() {
                    Lookup::NoDependency(archive, dependency)
                } else if depth == 0 {
                    Lookup::Missing(archive, id)
                } else {
                    Self::lookup(
                        archive@.dependencies()[dependency.0 as int],
                        function,
                        (depth - 1) as nat,
                    )
                },
            }
        }
    }

    /// The function with the given identifier: one of the archive's own, or one of a
    /// dependency, which is then looked up in that dependency. At most `depth`
    /// references into dependencies are followed.
    pub fn get_within(archive: &ArchiveRef, id: UnstableFunctionId, depth: usize) -> (r: Result<
        &Function,
        FunctionLoadError,
    >)
        ensures
            match r {
                Ok(function) => Self::lookup(*archive, id, depth as nat) matches Lookup::Found(
                    owner,
                    position,
                ) && *function == owner@.functions().local()[position],
                Err(FunctionLoadError::DoesNotExsist(owner, missing)) => Self::lookup(
                    *archive,
                    id,
                    depth as nat,
                ) matches Lookup::Missing(found, function) && found@ == owner@
                    && function == missing,
                Err(
                    FunctionLoadError::ArchiveRelated(
                        ArchiveLoadError::DependencyDoesNotExist(owner, missing),
                    ),
                ) => Self::lookup(*archive, id, depth as nat) matches Lookup::NoDependency(
                    found,
                    dependency,
                ) && found@ == owner@ && dependency == missing,
            },
        decreases depth,
    {
        let data = archive.functions();
        let count = data.ids.len();
        if id.inner() >= count as u64 {
            return Err(FunctionLoadError::DoesNotExsist(archive.clone(), id));
        }
        match &data.ids[id.inner() as usize] {
            FunctionCategory::Local(function_position) => {
                let locals = data.local.len();
                if *function_position < locals as u64 {
                    Ok(&data.local[*function_position as usize])
                } else {
                    Err(FunctionLoadError::DoesNotExsist(archive.clone(), id))
                }
            },
            FunctionCategory::External(dependency_id, function_id) => {
                let dependency = match archive.load_dependency(*dependency_id) {
                    Ok(dependency) => dependency,
                    Err(e) => {
                        return Err(FunctionLoadError::ArchiveRelated(e));
                    },
                };
                if depth == 0 {
                    Err(FunctionLoadError::DoesNotExsist(archive.clone(), id))
                } else {
                    Self::get_within(dependency, *function_id, depth - 1)
                }
            },
        }
    }

    /// The function with the given identifier: one of the archive's own, or one of a
    /// dependency, which is then looked up in that dependency.
    pub fn get(archive: &ArchiveRef, id: UnstableFunctionId) -> (r: Result<
        &Function,
        FunctionLoadError,
    >)
        ensures
            match r {
                Ok(function) => Self::lookup(*archive, id, usize::MAX as nat) matches Lookup::Found(
                    owner,
                    position,
                ) && *function == owner@.functions().local()[position],
                Err(FunctionLoadError::DoesNotExsist(owner, missing)) => Self::lookup(
                    *archive,
                    id,
                    usize::MAX as nat,
                ) matches Lookup::Missing(found, function) && found@ == owner@
                    && function == missing,
                Err(
                    FunctionLoadError::ArchiveRelated(
                        ArchiveLoadError::DependencyDoesNotExist(owner, missing),
                    ),
                ) => Self::lookup(*archive, id, usize::MAX as nat) matches Lookup::NoDependency(
                    found,
                    dependency,
                ) && found@ == owner@ && dependency == missing,
            },
    {
        Self::get_within(archive, id, usize::MAX)
    }
}

/// The message for a function that an archive does not have; `archive` is the text that
/// stands for the archive.
pub open spec fn missing_function_message(id: UnstableFunctionId, archive: Seq<char>) -> Seq<
    char,
> {
    "function with unstable id `"@ + hexadecimal(id.0 as nat) + "` does not exist in archive `"@
        + archive + "`"@
}

impl FunctionLoadError {
    /// The diagnostic that reports the error.
    pub fn diagnostic(&self) -> (diagnostic: Diagnostic)
        ensures
            diagnostic.severity == Severity::Bug,
            diagnostic.labels@.len() == 0,
            diagnostic.notes@.len() == 0,
            diagnostic.children@.len() == 0,
            match *self {
                FunctionLoadError::DoesNotExsist(_, id) => exists|archive: Seq<char>|
                    diagnostic.message@ == #[trigger] missing_function_message(id, archive),
                FunctionLoadError::ArchiveRelated(
                    ArchiveLoadError::DependencyDoesNotExist(_, id),
                ) => exists|archive: Seq<char>|
                    diagnostic.message@ == #[trigger] missing_dependency_message(id, archive),
            },
    {
        match self {
            FunctionLoadError::DoesNotExsist(archive, function_id) => {
                let mut message = "function with unstable id `".to_owned();
                push_str(&mut message, function_id.to_text().as_str());
                push_str(&mut message, "` does not exist in archive `");
                let name = archive.to_text();
                push_str(&mut message, name.as_str());
                push_str(&mut message, "`");
                assert(message@ == missing_function_message(*function_id, name@));
                Severity::Bug.diagnostic(message.as_str())
            },
            FunctionLoadError::ArchiveRelated(archive) => archive.diagnostic(),
        }
    }

    /// Wraps the error of loading an archive.
    pub fn from(value: ArchiveLoadError) -> (error: Self)
        ensures
            error == FunctionLoadError::ArchiveRelated(value),
    {
        Self::ArchiveRelated(value)
    }
}

} // verus!
