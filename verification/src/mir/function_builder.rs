//! Functions under construction.

use crate::backend_common::FunctionId;
use crate::backend_common::UnstableTypeId;
use crate::backend_common::ValueId;
use crate::mir::content::MirContent;
use crate::query::cell::Cell;
use vstd::prelude::*;

verus! {

/// What a function takes and returns, as far as the front end has to say it.
pub struct FunctionSignatureBuilder<P> {
    pub parameters: Vec<P>,
    pub return_type: UnstableTypeId,
}

/// The signature of a function: its parameters, each with the identifier of the value
/// that stands for it in the body, and its return type.
pub struct FunctionSignature<P> {
    parameters: Vec<(P, ValueId)>,
    return_type: UnstableTypeId,
}

pub struct FunctionBuilder<P> {
    id: FunctionId,
    signature: FunctionSignature<P>,
    mir: Cell<MirContent>,
}

/// The identifier of the value that stands for the parameter at `index`: parameters
/// count down from the largest identifier.
pub open spec fn parameter_value(index: int) -> ValueId {
    ValueId((u32::MAX - index % 0x1_0000_0000) as u32)
}

impl<P> FunctionSignature<P> {
    /// The parameters, each with the identifier of its value.
    pub closed spec fn parameters(&self) -> Seq<(P, ValueId)> {
        self.parameters@
    }

    /// The return type.
    pub closed spec fn return_type(&self) -> UnstableTypeId {
        self.return_type
    }

    /// Number of parameters.
    pub fn parameter_count(&self) -> (count: usize)
        ensures
            count == self.parameters().len(),
    {
        self.parameters.len()
    }

    /// The parameter at `index` and the identifier of its value.
    pub fn parameter(&self, index: usize) -> (parameter: &(P, ValueId))
        requires
            index < self.parameters().len(),
        ensures
            *parameter == self.parameters()[index as int],
    {
        &self.parameters[index]
    }

    /// The return type.
    pub fn result_type(&self) -> (return_type: UnstableTypeId)
        ensures
            return_type == self.return_type(),
    {
        self.return_type
    }
}

impl<P> FunctionSignatureBuilder<P> {
    /// The signature of a function that takes nothing and returns nothing.
    pub fn default() -> (builder: Self)
        ensures
            builder.parameters@.len() == 0,
            builder.return_type.0 == 0,
    {
        Self { parameters: Vec::new(), return_type: UnstableTypeId::void() }
    }
}

impl<P> FunctionBuilder<P> {
    /// The identifier of the function.
    pub closed spec fn spec_id(&self) -> FunctionId {
        self.id
    }

    /// The signature of the function.
    pub closed spec fn spec_signature(&self) -> FunctionSignature<P> {
        self.signature
    }

    /// The body of the function, once it is set.
    pub closed spec fn spec_mir(&self) -> Option<MirContent> {
        self.mir@
    }

    /// A function without a body. Its parameters get the identifiers of their values.
    pub fn new(id: FunctionId, signature_builder: FunctionSignatureBuilder<P>) -> (builder: Self)
        ensures
            builder.spec_id() == id,
            builder.spec_mir() is None,
            builder.spec_signature().return_type() == signature_builder.return_type,
            builder.spec_signature().parameters().len() == signature_builder.parameters@.len(),
            forall|i: int|
                0 <= i < signature_builder.parameters@.len() ==> #[trigger] builder.spec_signature().parameters()[i]
                    == (signature_builder.parameters@[i], parameter_value(i)),
    {
        let return_type = signature_builder.return_type;
        let mut given = signature_builder.parameters;
        let ghost all = given@;
        let mut parameters: Vec<(P, ValueId)> = Vec::new();
        let mut value_id: u32 = u32::MAX;
        // Taken from the back and then from the back again: the order stays.
        let mut pending: Vec<P> = Vec::new();
        while given.len() > 0
            invariant
                given@.len() + pending@.len() == all.len(),
                forall|i: int| 0 <= i < given@.len() ==> given@[i] == all[i],
                forall|i: int|
                    0 <= i < pending@.len() ==> pending@[i] == all[all.len() - 1 - i],
            decreases given@.len(),
        {
            let last = given.pop().unwrap();
            pending.push(last);
        }
        while pending.len() > 0
            invariant
                parameters@.len() + pending@.len() == all.len(),
                forall|i: int|
                    0 <= i < pending@.len() ==> pending@[i] == all[all.len() - 1 - i],
                value_id == parameter_value(parameters@.len() as int).0,
                forall|i: int|
                    0 <= i < parameters@.len() ==> #[trigger] parameters@[i] == (
                        all[i],
                        parameter_value(i),
                    ),
            decreases pending@.len(),
        {
            let parameter = pending.pop().unwrap();
            parameters.push((parameter, ValueId(value_id)));
            value_id = value_id.wrapping_sub(1);
        }
        Self {
            id,
            signature: FunctionSignature { parameters, return_type },
            mir: Cell::new(),
        }
    }

    pub fn id(&self) -> (id: FunctionId)
        ensures
            id == self.spec_id(),
    {
        self.id
    }

    pub fn signature(&self) -> (signature: &FunctionSignature<P>)
        ensures
            *signature == self.spec_signature(),
    {
        &self.signature
    }

    pub fn mir(&self) -> (mir: Option<&MirContent>)
        ensures
            match mir {
                Some(mir) => self.spec_mir() == Some(*mir),
                None => self.spec_mir() is None,
            },
    {
        self.mir.get()
    }

    /// Sets the body of a function that has none.
    pub fn set_or_update_mir(&mut self, mir: MirContent)
        requires
            old(self).spec_mir() is None,
        ensures
            final(self).spec_mir() == Some(mir),
            final(self).spec_id() == old(self).spec_id(),
            final(self).spec_signature() == old(self).spec_signature(),
    {
        let _ = self.mir.set(mir);
    }

    /// Sets the body of a function, unless it has one; the body that was not taken comes
    /// back.
    pub fn try_set_mir(&mut self, mir: MirContent) -> (r: Result<(), MirContent>)
        ensures
            final(self).spec_id() == old(self).spec_id(),
            final(self).spec_signature() == old(self).spec_signature(),
            old(self).spec_mir() is None ==> r is Ok && final(self).spec_mir() == Some(mir),
            old(self).spec_mir() is Some ==> r == Err::<(), MirContent>(mir) && final(self).spec_mir() == old(self).spec_mir(),
    {
        self.mir.set(mir)
    }
}

} // verus!
