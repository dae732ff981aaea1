//! The two durable regions of the store, trusted at their boundary.
//!
//! The durable counter and the record table wrap the persisted containers
//! of `ic_stable_structures`. Verus sees each of them only through its
//! contents function (`counter_of`, `table_of`) and the contracts of the
//! few operations below; everything built on top of these contracts is
//! verified.

use ic_stable_structures::memory_manager::{MemoryId, MemoryManager, VirtualMemory};
use ic_stable_structures::{Cell, DefaultMemoryImpl, StableBTreeMap};
use vstd::prelude::*;

verus! {

/// A persisted monotonically increasing counter, the source of record ids.
#[verifier::external_body]
pub struct DurableCounter {
    cell: Cell<u64, VirtualMemory<DefaultMemoryImpl>>,
}

/// The value the durable counter currently holds.
pub uninterp spec fn counter_of(c: DurableCounter) -> u64;

/// Relies on `Cell::get`: it returns the value the cell holds.
#[verifier::external_body]
pub(crate) fn counter_value(c: &DurableCounter) -> (v: u64)
    ensures
        v == counter_of(*c),
{
    *c.cell.get()
}

/// Relies on `Cell::set`: it replaces the value the cell holds. For a
/// fixed-size `u64` value the write cannot fail, since the backing memory
/// grows as needed.
#[verifier::external_body]
pub(crate) fn counter_set(c: &mut DurableCounter, v: u64)
    ensures
        counter_of(*final(c)) == v,
{
    c.cell.set(v);
}

/// Mints the next record id: returns the value the counter holds and
/// advances it by one.
pub(crate) fn counter_next(c: &mut DurableCounter) -> (id: u64)
    requires
        counter_of(*old(c)) < u64::MAX,
    ensures
        id == counter_of(*old(c)),
        counter_of(*final(c)) == counter_of(*old(c)) + 1,
{
    let v = counter_value(c);
    counter_set(c, v + 1);
    v
}

/// A persisted table from record id to the bounded byte encoding of the
/// record, iterated in ascending id order.
#[verifier::external_body]
pub struct RecordTable {
    map: StableBTreeMap<u64, Vec<u8>, VirtualMemory<DefaultMemoryImpl>>,
}

/// The entries the record table currently holds.
pub uninterp spec fn table_of(t: RecordTable) -> Map<u64, Seq<u8>>;

/// Relies on `MemoryManager::init` and `MemoryManager::get`: the manager
/// carves disjoint virtual memories out of the process's one default
/// memory, so the counter's region (memory id 0) and the table's region
/// (memory id 1) never overlap, and writes through one never disturb the
/// other. Relies on `Cell::init` and `BTreeMap::init` over a memory that
/// holds no previously persisted store — every fresh process, and a
/// canister's first installation: the counter then starts at 0 and the
/// table starts empty. Reopening a memory that already holds a persisted
/// store loads that state instead; this library models a single store
/// lifetime and states nothing about reopening.
#[verifier::external_body]
pub(crate) fn regions_new() -> (p: (DurableCounter, RecordTable))
    ensures
        counter_of(p.0) == 0,
        (table_of(p.1) == Map::<u64, Seq<u8>>::empty()),
{
    let manager = MemoryManager::init(DefaultMemoryImpl::default());
    let counter = DurableCounter { cell: Cell::init(manager.get(MemoryId::new(0)), 0) };
    let table = RecordTable { map: StableBTreeMap::init(manager.get(MemoryId::new(1))) };
    (counter, table)
}

/// Relies on `BTreeMap::get`: it returns the value stored under the key,
/// if the key is present.
#[verifier::external_body]
pub(crate) fn table_get(t: &RecordTable, id: u64) -> (r: Option<Vec<u8>>)
    ensures
        r is Some <==> table_of(*t).dom().contains(id),
        r matches Some(v) ==> v@ == table_of(*t)[id],
{
    t.map.get(&id)
}

/// Relies on `BTreeMap::insert`: it stores the value under the key,
/// returning the value the key held before, if any.
#[verifier::external_body]
pub(crate) fn table_insert(t: &mut RecordTable, id: u64, bytes: Vec<u8>) -> (r: Option<Vec<u8>>)
    ensures
        table_of(*final(t)) == table_of(*old(t)).insert(id, bytes@),
        r is Some <==> table_of(*old(t)).dom().contains(id),
        r matches Some(v) ==> v@ == table_of(*old(t))[id],
{
    t.map.insert(id, bytes)
}

/// Relies on `BTreeMap::remove`: it removes the key, returning the value
/// the key held before, if any.
#[verifier::external_body]
pub(crate) fn table_remove(t: &mut RecordTable, id: u64) -> (r: Option<Vec<u8>>)
    ensures
        table_of(*final(t)) == table_of(*old(t)).remove(id),
        r is Some <==> table_of(*old(t)).dom().contains(id),
        r matches Some(v) ==> v@ == table_of(*old(t))[id],
{
    t.map.remove(&id)
}

/// Relies on `BTreeMap::iter` and `LazyEntry::into_pair`: the iterator
/// yields every entry of the map exactly once, in ascending key order.
#[verifier::external_body]
pub(crate) fn table_entries(t: &RecordTable) -> (es: Vec<(u64, Vec<u8>)>)
    ensures
        es@.len() == table_of(*t).dom().len(),
        forall|i: int|
            0 <= i < es@.len() ==> table_of(*t).dom().contains(#[trigger] es@[i].0) && es@[i].1@
                == table_of(*t)[es@[i].0],
        forall|i: int, j: int|
            0 <= i < j < es@.len() ==> #[trigger] es@[i].0 < #[trigger] es@[j].0,
        forall|k: u64|
            table_of(*t).dom().contains(k) ==> exists|i: int|
                0 <= i < es@.len() && #[trigger] es@[i].0 == k,
{
    t.map.iter().map(|e| e.into_pair()).collect()
}

} // verus!
