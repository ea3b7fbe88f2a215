//! Types of the intermediate representation.

use crate::ir::archive::UnstableArchiveId;
use crate::text::hexadecimal;
use crate::text::u64_to_hex;
use crate::ir::small::TypeList;
use vstd::prelude::*;

verus! {

#[derive(Debug)]
pub struct Type {
    kind: TypeKind,
}

#[derive(Debug)]
pub enum TypeKind {
    Regular(RegularType),
    GenericConstructed(GenericConstructedType),
}

/// A type with fields of the given types.
#[derive(Debug)]
pub struct RegularType {
    fields: TypeList,
}

#[derive(Debug)]
pub struct GenericConstructedType {
    parent_type_id: UnstableTypeId,
}

#[derive(Debug, Clone, Copy, PartialEq, Eq, Structural)]
pub struct UnstableTypeId(pub u64);

#[derive(Debug)]
pub struct TypeCollection {
    ids: Vec<TypeCategory>,
    local: Vec<Type>,
}

#[derive(Debug)]
enum TypeCategory {
    Local(u64),
    External(UnstableArchiveId, UnstableTypeId),
}

impl UnstableTypeId {
    /// The type of a value that is nothing.
    pub fn void() -> (id: Self)
        ensures
            id.0 == 0,
    {
        UnstableTypeId(0)
    }

    pub fn inner(self) -> (value: u64)
        ensures
            value == self.0,
    {
        self.0
    }

    /// The identifier as it is written in messages: in hexadecimal.
    pub fn to_text(&self) -> (text: String)
        ensures
            text@ == hexadecimal(self.0 as nat),
    {
        u64_to_hex(self.0)
    }
}

impl Type {
    pub fn new(kind: TypeKind) -> (made: Self)
        ensures
            made.kind() == kind,
    {
        Type { kind }
    }

    pub closed spec fn kind(&self) -> TypeKind {
        self.kind
    }
}

impl RegularType {
    /// A type with fields of the given types, in that order.
    pub fn new(fields: &[UnstableTypeId]) -> (made: Self)
        ensures
            made.fields() == fields@,
    {
        RegularType { fields: TypeList::from_slice(fields) }
    }

    /// The types of the fields, in their order.
    pub closed spec fn fields(&self) -> Seq<UnstableTypeId> {
        self.fields@
    }

    /// The type of the field at `index`, if there is one.
    pub fn field(&self, index: usize) -> (field: Option<UnstableTypeId>)
        ensures
            field == (if index < self.fields().len() {
                Some(self.fields()[index as int])
            } else {
                None
            }),
    {
        self.fields.get(index)
    }
}

impl GenericConstructedType {
    pub fn new(parent_type_id: UnstableTypeId) -> (made: Self)
        ensures
            made.parent() == parent_type_id,
    {
        GenericConstructedType { parent_type_id }
    }

    pub closed spec fn parent(&self) -> UnstableTypeId {
        self.parent_type_id
    }
}

} // verus!
