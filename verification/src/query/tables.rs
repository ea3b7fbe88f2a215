//! The concurrent tables that the scheduler and the archives under construction keep
//! their bookkeeping in.
//!
//! The tables come from `dashmap` and `parking_lot`. Their contents are named by the
//! uninterpreted functions below, and each operation the scheduler needs is a small
//! function whose contract is stated over those names and taken on trust from the
//! crates' sources. Every operation that changes a table takes it by `&mut`: the
//! contracts describe a table that nobody else is writing to at the same time.

use core::hash::BuildHasherDefault;
use dashmap::DashMap;
use dashmap::DashSet;
use parking_lot::Mutex;
use rustc_hash::FxHasher;
use vstd::prelude::*;

verus! {

#[verifier::external_type_specification]
#[verifier::external_body]
#[verifier::reject_recursive_types(K)]
#[verifier::reject_recursive_types(V)]
#[verifier::reject_recursive_types(S)]
pub struct ExDashMap<K, V, S>(DashMap<K, V, S>);

#[verifier::external_type_specification]
#[verifier::external_body]
#[verifier::reject_recursive_types(K)]
#[verifier::reject_recursive_types(S)]
pub struct ExDashSet<K, S>(DashSet<K, S>);

#[verifier::external_type_specification]
#[verifier::external_body]
pub struct ExFxHasher(FxHasher);

#[verifier::external_type_specification]
#[verifier::external_body]
#[verifier::reject_recursive_types(H)]
pub struct ExBuildHasherDefault<H>(BuildHasherDefault<H>);

#[verifier::external_type_specification]
#[verifier::external_body]
pub struct ExRawMutex(parking_lot::RawMutex);

#[verifier::external_type_specification]
#[verifier::external_body]
#[verifier::reject_recursive_types(R)]
#[verifier::reject_recursive_types(T)]
pub struct ExMutex<R, T: ?Sized>(parking_lot::lock_api::Mutex<R, T>);

/// Hasher of every table of the scheduler.
pub type FxBuild = BuildHasherDefault<FxHasher>;

/// A table from 64-bit keys to positions.
pub type IndexTable = DashMap<u64, usize, FxBuild>;

/// A set of 64-bit keys.
pub type KeySet = DashSet<u64, FxBuild>;

/// A queue of positions behind a lock.
pub type IndexQueue = Mutex<Vec<usize>>;

/// The entries of an [`IndexTable`].
pub uninterp spec fn table_entries(table: IndexTable) -> Map<u64, usize>;

/// The elements of a [`KeySet`].
pub uninterp spec fn set_elements(set: KeySet) -> Set<u64>;

/// The items of an [`IndexQueue`], oldest first.
pub uninterp spec fn queue_items(queue: IndexQueue) -> Seq<usize>;

/// `DashMap::default`: a table without entries.
#[verifier::external_body]
pub(crate) fn table_new() -> (table: IndexTable)
    ensures
        table_entries(table) =~= Map::empty(),
{
    DashMap::default()
}

/// `DashMap::get`: the position stored under `key`, if there is one. The table is left
/// as it is.
#[verifier::external_body]
pub(crate) fn table_get(table: &IndexTable, key: u64) -> (found: Option<usize>)
    ensures
        found == (if table_entries(*table).dom().contains(key) {
            Some(table_entries(*table)[key])
        } else {
            None
        }),
{
    table.get(&key).map(|entry| *entry)
}

/// `DashMap::insert`: stores `value` under `key`, replacing what was stored there, and
/// returns what was replaced.
#[verifier::external_body]
pub(crate) fn table_insert(table: &mut IndexTable, key: u64, value: usize) -> (replaced: Option<
    usize,
>)
    ensures
        table_entries(*final(table)) == table_entries(*old(table)).insert(key, value),
        replaced == (if table_entries(*old(table)).dom().contains(key) {
            Some(table_entries(*old(table))[key])
        } else {
            None
        }),
{
    table.insert(key, value)
}

/// `DashSet::default`: a set without elements.
#[verifier::external_body]
pub(crate) fn set_new() -> (set: KeySet)
    ensures
        set_elements(set) == Set::<u64>::empty(),
{
    DashSet::default()
}

/// `DashSet::insert`: adds `key` to the set and tells whether it was not in it before.
#[verifier::external_body]
pub(crate) fn set_insert(set: &mut KeySet, key: u64) -> (newly: bool)
    ensures
        set_elements(*final(set)) == set_elements(*old(set)).insert(key),
        newly == !set_elements(*old(set)).contains(key),
{
    set.insert(key)
}

/// `DashSet::remove`: takes `key` out of the set and hands it back if it was in it.
#[verifier::external_body]
pub(crate) fn set_remove(set: &mut KeySet, key: u64) -> (removed: Option<u64>)
    ensures
        set_elements(*final(set)) == set_elements(*old(set)).remove(key),
        removed == (if set_elements(*old(set)).contains(key) {
            Some(key)
        } else {
            None
        }),
{
    set.remove(&key)
}

/// `Mutex::new` around an empty vector: a queue without items.
#[verifier::external_body]
pub(crate) fn queue_new() -> (queue: IndexQueue)
    ensures
        queue_items(queue) == Seq::<usize>::empty(),
{
    Mutex::new(Vec::new())
}

/// `Mutex::lock`, then a push on the guarded vector: appends `item` at the back.
#[verifier::external_body]
pub(crate) fn queue_push(queue: &mut IndexQueue, item: usize)
    ensures
        queue_items(*final(queue)) == queue_items(*old(queue)).push(item),
{
    queue.lock().push(item);
}

/// `Mutex::lock`, then the guarded vector is emptied into the result: hands out all
/// items, oldest first, and leaves the queue empty.
#[verifier::external_body]
pub(crate) fn queue_drain(queue: &mut IndexQueue) -> (items: Vec<usize>)
    ensures
        items@ == queue_items(*old(queue)),
        queue_items(*final(queue)) == Seq::<usize>::empty(),
{
    queue.lock().drain(..).collect()
}

/// `Mutex::lock`, then the length of the guarded vector. The queue is left as it is.
#[verifier::external_body]
pub(crate) fn queue_len(queue: &IndexQueue) -> (len: usize)
    ensures
        len == queue_items(*queue).len(),
{
    queue.lock().len()
}

} // verus!
