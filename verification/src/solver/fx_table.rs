//! The table of the solvers that work on packed states: a hash map with
//! the hasher of the `fxhash` crate. That hasher has no seed, so the map
//! behaves as a map from keys to entries; this is taken on trust.
use crate::solver::synchronus::ab_tt::Bounds;
use fxhash::FxHashMap;
use vstd::prelude::*;

verus! {

#[verifier::external_type_specification]
#[verifier::external_body]
pub struct ExFxHasher(fxhash::FxHasher);

#[verifier::external_type_specification]
#[verifier::external_body]
#[verifier::reject_recursive_types(H)]
pub struct ExBuildHasherDefault<H>(std::hash::BuildHasherDefault<H>);

/// A score and what it says of the value.
pub type TableEntry = (i8, Bounds);

/// The table of a solver on packed states.
pub type FxTable = FxHashMap<u32, TableEntry>;

/// `FxHashMap::default`: a new map holds nothing.
#[verifier::external_body]
pub(crate) fn fx_new() -> (m: FxTable)
    ensures
        forall|k: u32| !m@.contains_key(k),
{
    FxHashMap::default()
}

/// `HashMap::insert` with the `fxhash` hasher: the entry stands under the
/// key afterwards, and the other keys keep theirs.
#[verifier::external_body]
pub(crate) fn fx_insert(table: &mut FxTable, key: u32, entry: TableEntry)
    ensures
        final(table)@ == old(table)@.insert(key, entry),
{
    table.insert(key, entry);
}

/// `HashMap::get` with the `fxhash` hasher: the entry under the key, if
/// there is one.
#[verifier::external_body]
pub(crate) fn fx_get(table: &FxTable, key: u32) -> (entry: Option<TableEntry>)
    ensures
        entry == (if table@.contains_key(key) {
            Some(table@[key])
        } else {
            None
        }),
{
    table.get(&key).copied()
}

} // verus!
