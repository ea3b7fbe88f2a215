//! Archives: functions, and the archives they depend on.

use crate::diagnostic::Diagnostic;
use crate::diagnostic::Severity;
use crate::ir::function::FunctionCollection;
use crate::text::hexadecimal;
use crate::text::push_str;
use crate::text::u64_to_hex;
use std::sync::Arc;
use vstd::prelude::*;

verus! {

pub struct ArchiveRef {
    archive: Arc<Archive>,
}

pub struct Archive {
    dependencies: Vec<ArchiveRef>,
    functions: FunctionCollection,
}

#[derive(Debug, Clone, Copy, PartialEq, Eq, Structural)]
pub struct UnstableArchiveId(pub u64);

pub enum ArchiveLoadError {
    DependencyDoesNotExist(ArchiveRef, UnstableArchiveId),
}

impl UnstableArchiveId {
    pub fn inner(self) -> (value: u64)
        ensures
            value == self.0,
    {
        self.0
    }

    /// The identifier as it is written in messages: in hexadecimal.
    pub fn to_text(&self) -> (text: String)
        ensures
            text@ == hexadecimal(self.0 as nat),
    {
        u64_to_hex(self.0)
    }
}

/// `Arc::clone` of std: another handle to the same archive.
#[verifier::external_body]
fn share(archive: &Arc<Archive>) -> (shared: Arc<Archive>)
    ensures
        *shared == **archive,
{
    Arc::clone(archive)
}

/// `Arc::as_ptr` of std, written out with `format!`: the address of the archive, which
/// differs from run to run.
#[verifier::external_body]
fn address(archive: &Arc<Archive>) -> (text: String) {
    format!("{:?}", Arc::as_ptr(archive))
}

impl Archive {
    pub fn new(dependencies: Vec<ArchiveRef>, functions: FunctionCollection) -> (archive: Self)
        ensures
            archive.dependencies() == dependencies@,
            archive.functions() == functions,
    {
        Archive { dependencies, functions }
    }

    /// The archives that this one depends on, by their identifiers.
    pub closed spec fn dependencies(&self) -> Seq<ArchiveRef> {
        self.dependencies@
    }

    /// The functions of the archive.
    pub closed spec fn functions(&self) -> FunctionCollection {
        self.functions
    }
}

impl ArchiveRef {
    pub fn new(archive: Archive) -> (shared: Self)
        ensures
            shared@ == archive,
    {
        ArchiveRef { archive: Arc::new(archive) }
    }

    /// The archive that the handle leads to.
    pub closed spec fn view(&self) -> Archive {
        *self.archive
    }

    /// The dependency with the given identifier.
    pub fn load_dependency(&self, id: UnstableArchiveId) -> (r: Result<
        &ArchiveRef,
        ArchiveLoadError,
    >)
        ensures
            match r {
                Ok(dependency) => id.0 < self@.dependencies().len() && *dependency
                    == self@.dependencies()[id.0 as int],
                Err(ArchiveLoadError::DependencyDoesNotExist(archive, missing)) => id.0
                    >= self@.dependencies().len() && archive@ == self@ && missing == id,
            },
    {
        let count = self.archive.dependencies.len();
        if id.inner() < count as u64 {
            Ok(&self.archive.dependencies[id.inner() as usize])
        } else {
            Err(ArchiveLoadError::DependencyDoesNotExist(self.clone(), id))
        }
    }

    /// The functions of the archive.
    pub fn functions(&self) -> (functions: &FunctionCollection)
        ensures
            *functions == self@.functions(),
    {
        &self.archive.functions
    }

    /// The address of the archive as text. It tells archives apart within one run.
    pub fn to_text(&self) -> (text: String) {
        address(&self.archive)
    }
}

impl Clone for ArchiveRef {
    fn clone(&self) -> (shared: Self)
        ensures
            shared@ == self@,
    {
        ArchiveRef { archive: share(&self.archive) }
    }
}

impl ArchiveLoadError {
    /// The diagnostic that reports the error.
    pub fn diagnostic(&self) -> (diagnostic: Diagnostic)
        ensures
            diagnostic.severity == Severity::Bug,
            diagnostic.labels@.len() == 0,
            diagnostic.notes@.len() == 0,
            diagnostic.children@.len() == 0,
            match *self {
                ArchiveLoadError::DependencyDoesNotExist(_, id) => exists|archive: Seq<char>|
                    diagnostic.message@ == #[trigger] missing_dependency_message(id, archive),
            },
    {
        match self {
            ArchiveLoadError::DependencyDoesNotExist(archive, dependency_id) => {
                let mut message = "dependency archive with unstable id `".to_owned();
                push_str(&mut message, dependency_id.to_text().as_str());
                push_str(&mut message, "` does not exist for archive `");
                let name = archive.to_text();
                push_str(&mut message, name.as_str());
                push_str(&mut message, "`");
                assert(message@ == missing_dependency_message(*dependency_id, name@));
                Severity::Bug.diagnostic(message.as_str())
            },
        }
    }
}

/// The message for a dependency that an archive does not have; `archive` is the text that
/// stands for the archive.
pub open spec fn missing_dependency_message(id: UnstableArchiveId, archive: Seq<char>) -> Seq<
    char,
> {
    "dependency archive with unstable id `"@ + hexadecimal(id.0 as nat)
        + "` does not exist for archive `"@ + archive + "`"@
}

} // verus!
