//! Archives under construction.

use crate::backend_common::FunctionId;
use crate::mir::function_builder::FunctionBuilder;
use crate::mir::function_builder::FunctionSignatureBuilder;
use crate::query::tables::table_entries;
use crate::query::tables::table_get;
use crate::query::tables::table_insert;
use crate::query::tables::table_new;
use crate::query::tables::IndexTable;
use vstd::prelude::*;

verus! {

/// The functions of an archive under construction. A function's identifier is the
/// number of functions that were defined before it; a concurrent table leads from the
/// identifiers to the functions.
pub struct ArchiveBuilderRef<P> {
    functions: Vec<FunctionBuilder<P>>,
    by_id: IndexTable,
}

impl<P> View for ArchiveBuilderRef<P> {
    type V = Seq<FunctionBuilder<P>>;

    /// The functions defined so far, by their identifiers.
    closed spec fn view(&self) -> Seq<FunctionBuilder<P>> {
        self.functions@
    }
}

impl<P> ArchiveBuilderRef<P> {
    /// Whether every function has the identifier that it is found under, and the table
    /// leads from each identifier to its function and from nothing else.
    pub closed spec fn wf(&self) -> bool {
        &&& self.numbered()
        &&& forall|id: u64| #[trigger]
            table_entries(self.by_id).dom().contains(id) <==> id < self.functions@.len()
        &&& forall|id: u64| #[trigger]
            table_entries(self.by_id).dom().contains(id) ==> table_entries(self.by_id)[id]
                == id
    }

    /// Whether every function has the identifier that it is found under.
    pub open spec fn numbered(&self) -> bool {
        forall|i: int| 0 <= i < self@.len() ==> (#[trigger] self@[i]).spec_id() == FunctionId(
            i as u64,
        )
    }

    /// A valid archive numbers its functions by their places.
    pub proof fn lemma_numbered(&self)
        requires
            self.wf(),
        ensures
            self.numbered(),
    {
    }

    pub fn new() -> (archive: Self)
        ensures
            archive.wf(),
            archive@.len() == 0,
    {
        Self { functions: Vec::new(), by_id: table_new() }
    }

    /// Defines a function: it gets the next identifier and no body.
    pub fn define_function(&mut self, signature_builder: FunctionSignatureBuilder<P>) -> (function:
        &FunctionBuilder<P>)
        requires
            old(self).wf(),
            old(self)@.len() < u64::MAX,
        ensures
            final(self).wf(),
            final(self)@.len() == old(self)@.len() + 1,
            forall|i: int| 0 <= i < old(self)@.len() ==> #[trigger] final(self)@[i] == old(self)@[i],
            *function == final(self)@[old(self)@.len() as int],
            function.spec_id() == FunctionId(old(self)@.len() as u64),
            function.spec_mir() is None,
            function.spec_signature().return_type() == signature_builder.return_type,
            function.spec_signature().parameters().len() == signature_builder.parameters@.len(),
    {
        let position = self.functions.len();
        let function_id = FunctionId(position as u64);
        let function = FunctionBuilder::new(function_id, signature_builder);
        self.functions.push(function);
        table_insert(&mut self.by_id, position as u64, position);
        &self.functions[position]
    }

    /// The function with the given identifier, if it was defined.
    pub fn function(&self, id: FunctionId) -> (function: Option<&FunctionBuilder<P>>)
        requires
            self.wf(),
        ensures
            match function {
                Some(function) => id.0 < self@.len() && *function == self@[id.0 as int],
                None => id.0 >= self@.len(),
            },
    {
        match table_get(&self.by_id, id.0) {
            Some(position) => Some(&self.functions[position]),
            None => None,
        }
    }
}

/// An archive under construction with nothing defined in it.
pub fn new_archive_with_standard<P>() -> (archive: ArchiveBuilderRef<P>)
    ensures
        archive.wf(),
        archive@.len() == 0,
{
    ArchiveBuilderRef::new()
}

} // verus!
