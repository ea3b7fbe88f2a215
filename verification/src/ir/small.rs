//! Short lists of identifiers.
//!
//! The lists come from `smallvec`. What a list holds is named by an uninterpreted
//! function, and each operation on it is a small function whose contract is stated over
//! that name and taken on trust from the crate's source.

use crate::ir::register::RegisterId;
use crate::ir::types::UnstableTypeId;
use smallvec::SmallVec;
use vstd::prelude::*;

verus! {

/// A list of registers. Up to four of them are kept in place, without an allocation.
#[verifier::external_body]
#[derive(Debug)]
pub struct RegisterList {
    items: SmallVec<[RegisterId; 4]>,
}

/// The numbers of the registers of a list, in their order.
pub uninterp spec fn register_list_items(list: RegisterList) -> Seq<u16>;

/// `SmallVec::new` of smallvec: a list without items.
#[verifier::external_body]
fn register_list_new() -> (list: RegisterList)
    ensures
        register_list_items(list) =~= Seq::empty(),
{
    RegisterList { items: SmallVec::new() }
}

/// `SmallVec::push` of smallvec: the item is put behind the items of the list.
#[verifier::external_body]
fn register_list_push(list: &mut RegisterList, item: RegisterId)
    ensures
        register_list_items(*final(list)) == register_list_items(*old(list)).push(item.0),
{
    list.items.push(item)
}

/// `SmallVec::len` of smallvec: the number of items of the list.
#[verifier::external_body]
fn register_list_len(list: &RegisterList) -> (len: usize)
    ensures
        len == register_list_items(*list).len(),
{
    list.items.len()
}

/// Indexing a `SmallVec` of smallvec, which is indexing the slice of its items: the
/// item at `index`. The index has to be within the list.
#[verifier::external_body]
fn register_list_at(list: &RegisterList, index: usize) -> (item: RegisterId)
    requires
        index < register_list_items(*list).len(),
    ensures
        item.0 == register_list_items(*list)[index as int],
{
    list.items[index]
}

impl View for RegisterList {
    type V = Seq<RegisterId>;

    /// The registers of the list, in their order.
    open spec fn view(&self) -> Seq<RegisterId> {
        register_list_items(*self).map_values(|number: u16| RegisterId(number))
    }
}

impl RegisterList {
    /// A list without items.
    pub fn new() -> (list: Self)
        ensures
            list@ == Seq::<RegisterId>::empty(),
    {
        let list = register_list_new();
        assert(list@ =~= Seq::<RegisterId>::empty());
        list
    }

    /// Puts a register behind the items of the list.
    pub fn push(&mut self, item: RegisterId)
        ensures
            final(self)@ == old(self)@.push(item),
    {
        register_list_push(self, item);
        assert(self@ =~= old(self)@.push(item));
    }

    /// Number of items of the list.
    pub fn len(&self) -> (len: usize)
        ensures
            len == self@.len(),
    {
        register_list_len(self)
    }

    /// The item at `index`, if there is one.
    pub fn get(&self, index: usize) -> (item: Option<RegisterId>)
        ensures
            item == (if index < self@.len() {
                Some(self@[index as int])
            } else {
                None
            }),
    {
        if index < register_list_len(self) {
            Some(register_list_at(self, index))
        } else {
            None
        }
    }

    /// The list of the given items, in their order.
    pub fn from_slice(items: &[RegisterId]) -> (list: Self)
        ensures
            list@ == items@,
    {
        let mut list = Self::new();
        let mut i: usize = 0;
        while i < items.len()
            invariant
                i <= items@.len(),
                list@ == items@.subrange(0, i as int),
            decreases items@.len() - i,
        {
            list.push(items[i]);
            assert(items@.subrange(0, i + 1) =~= items@.subrange(0, i as int).push(
                items@[i as int],
            ));
            i += 1;
        }
        assert(items@.subrange(0, items@.len() as int) =~= items@);
        list
    }
}

/// A list of types. Up to four of them are kept in place, without an allocation.
#[verifier::external_body]
#[derive(Debug)]
pub struct TypeList {
    items: SmallVec<[UnstableTypeId; 4]>,
}

/// The numbers of the types of a list, in their order.
pub uninterp spec fn type_list_items(list: TypeList) -> Seq<u64>;

/// `SmallVec::new` of smallvec: a list without items.
#[verifier::external_body]
fn type_list_new() -> (list: TypeList)
    ensures
        type_list_items(list) =~= Seq::empty(),
{
    TypeList { items: SmallVec::new() }
}

/// `SmallVec::push` of smallvec: the item is put behind the items of the list.
#[verifier::external_body]
fn type_list_push(list: &mut TypeList, item: UnstableTypeId)
    ensures
        type_list_items(*final(list)) == type_list_items(*old(list)).push(item.0),
{
    list.items.push(item)
}

/// `SmallVec::len` of smallvec: the number of items of the list.
#[verifier::external_body]
fn type_list_len(list: &TypeList) -> (len: usize)
    ensures
        len == type_list_items(*list).len(),
{
    list.items.len()
}

/// Indexing a `SmallVec` of smallvec, which is indexing the slice of its items: the
/// item at `index`. The index has to be within the list.
#[verifier::external_body]
fn type_list_at(list: &TypeList, index: usize) -> (item: UnstableTypeId)
    requires
        index < type_list_items(*list).len(),
    ensures
        item.0 == type_list_items(*list)[index as int],
{
    list.items[index]
}

impl View for TypeList {
    type V = Seq<UnstableTypeId>;

    /// The types of the list, in their order.
    open spec fn view(&self) -> Seq<UnstableTypeId> {
        type_list_items(*self).map_values(|number: u64| UnstableTypeId(number))
    }
}

impl TypeList {
    /// A list without items.
    pub fn new() -> (list: Self)
        ensures
            list@ == Seq::<UnstableTypeId>::empty(),
    {
        let list = type_list_new();
        assert(list@ =~= Seq::<UnstableTypeId>::empty());
        list
    }

    /// Puts a type behind the items of the list.
    pub fn push(&mut self, item: UnstableTypeId)
        ensures
            final(self)@ == old(self)@.push(item),
    {
        type_list_push(self, item);
        assert(self@ =~= old(self)@.push(item));
    }

    /// Number of items of the list.
    pub fn len(&self) -> (len: usize)
        ensures
            len == self@.len(),
    {
        type_list_len(self)
    }

    /// The item at `index`, if there is one.
    pub fn get(&self, index: usize) -> (item: Option<UnstableTypeId>)
        ensures
            item == (if index < self@.len() {
                Some(self@[index as int])
            } else {
                None
            }),
    {
        if index < type_list_len(self) {
            Some(type_list_at(self, index))
        } else {
            None
        }
    }

    /// The list of the given items, in their order.
    pub fn from_slice(items: &[UnstableTypeId]) -> (list: Self)
        ensures
            list@ == items@,
    {
        let mut list = Self::new();
        let mut i: usize = 0;
        while i < items.len()
            invariant
                i <= items@.len(),
                list@ == items@.subrange(0, i as int),
            decreases items@.len() - i,
        {
            list.push(items[i]);
            assert(items@.subrange(0, i + 1) =~= items@.subrange(0, i as int).push(
                items@[i as int],
            ));
            i += 1;
        }
        assert(items@.subrange(0, items@.len() as int) =~= items@);
        list
    }
}

} // verus!
