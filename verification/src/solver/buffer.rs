//! The buffer of at most ten moves that the search fills for each state.
//! It is an `ArrayVec`; what is said here of its methods is taken on
//! trust from that crate and, for the sorting, from the standard library.
use crate::solver::bitstates::BitLocal;
use crate::solver::rules::{Successor, sort_key, with_key};
use arrayvec::ArrayVec;
use std::cmp::Ordering;
use vstd::prelude::*;

verus! {

#[verifier::external_type_specification]
#[verifier::external_body]
#[verifier::reject_recursive_types(T)]
pub struct ExArrayVec<T, const CAP: usize>(ArrayVec<T, CAP>);

/// The moves that a buffer holds, in their order.
pub uninterp spec fn successor_items(v: ArrayVec<Successor, 10>) -> Seq<Successor>;

/// `ArrayVec::new`: a new buffer holds nothing.
#[verifier::external_body]
pub(crate) fn buffer_new() -> (v: ArrayVec<Successor, 10>)
    ensures
        successor_items(v) == Seq::<Successor>::empty(),
{
    ArrayVec::new()
}

/// `ArrayVec::push`: the element is added at the end. The method panics
/// on a full buffer, so there must be room.
#[verifier::external_body]
pub(crate) fn buffer_push(v: &mut ArrayVec<Successor, 10>, e: Successor)
    requires
        successor_items(*old(v)).len() < 10,
    ensures
        successor_items(*final(v)) == successor_items(*old(v)).push(e),
{
    v.push(e)
}

/// `ArrayVec::len`: the number of elements held.
#[verifier::external_body]
pub(crate) fn buffer_len(v: &ArrayVec<Successor, 10>) -> (n: usize)
    ensures
        n == successor_items(*v).len(),
        n <= 10,
{
    v.len()
}

/// Indexing an `ArrayVec`: the element at a position below its length.
#[verifier::external_body]
pub(crate) fn buffer_get(v: &ArrayVec<Successor, 10>, i: usize) -> (e: Successor)
    requires
        i < successor_items(*v).len(),
    ensures
        e == successor_items(*v)[i as int],
{
    v[i]
}

/// The order in which two moves are tried: the one with more points
/// goes first.
pub fn compare_moves(a: &Successor, b: &Successor) -> (o: Ordering)
    ensures
        sort_key(*b) < sort_key(*a) ==> o == Ordering::Less,
        sort_key(*b) == sort_key(*a) ==> o == Ordering::Equal,
        sort_key(*b) > sort_key(*a) ==> o == Ordering::Greater,
{
    let key_a = if a.0.current_suit.is_none() {
        a.2
    } else {
        a.1
    };
    let key_b = if b.0.current_suit.is_none() {
        b.2
    } else {
        b.1
    };
    if key_b < key_a {
        Ordering::Less
    } else if key_b == key_a {
        Ordering::Equal
    } else {
        Ordering::Greater
    }
}

/// `slice::sort_by` on the elements of the buffer, with `compare_moves`:
/// the same moves, those with more points first, and moves of equal points
/// in the order they had (the sort is stable).
#[verifier::external_body]
pub(crate) fn buffer_sort(v: &mut ArrayVec<Successor, 10>)
    ensures
        successor_items(*final(v)).to_multiset() == successor_items(*old(v)).to_multiset(),
        forall|i: int, j: int|
            0 <= i < j < successor_items(*final(v)).len() ==> sort_key(
                #[trigger] successor_items(*final(v))[i],
            ) >= sort_key(#[trigger] successor_items(*final(v))[j]),
        forall|k: u8| #[trigger]
            with_key(successor_items(*final(v)), k) == with_key(successor_items(*old(v)), k),
{
    v.sort_by(|a, b| compare_moves(a, b))
}


/// A move from a packed state: the packed state it leads to and the
/// points it brings the player who plays alone.
pub type BitSuccessor = (BitLocal, u8);

/// The moves that a buffer of packed states holds, in their order.
pub uninterp spec fn bit_successor_items(v: ArrayVec<BitSuccessor, 10>) -> Seq<BitSuccessor>;

/// `ArrayVec::new`: a new buffer holds nothing.
#[verifier::external_body]
pub(crate) fn bit_buffer_new() -> (v: ArrayVec<BitSuccessor, 10>)
    ensures
        bit_successor_items(v) == Seq::<BitSuccessor>::empty(),
{
    ArrayVec::new()
}

/// `ArrayVec::push`: the element is added at the end. The method panics
/// on a full buffer, so there must be room.
#[verifier::external_body]
pub(crate) fn bit_buffer_push(v: &mut ArrayVec<BitSuccessor, 10>, e: BitSuccessor)
    requires
        bit_successor_items(*old(v)).len() < 10,
    ensures
        bit_successor_items(*final(v)) == bit_successor_items(*old(v)).push(e),
{
    v.push(e)
}

/// `ArrayVec::len`: the number of elements held.
#[verifier::external_body]
pub(crate) fn bit_buffer_len(v: &ArrayVec<BitSuccessor, 10>) -> (n: usize)
    ensures
        n == bit_successor_items(*v).len(),
        n <= 10,
{
    v.len()
}

/// Indexing an `ArrayVec`: the element at a position below its length.
#[verifier::external_body]
pub(crate) fn bit_buffer_get(v: &ArrayVec<BitSuccessor, 10>, i: usize) -> (e: BitSuccessor)
    requires
        i < bit_successor_items(*v).len(),
    ensures
        e == bit_successor_items(*v)[i as int],
{
    v[i]
}

/// A suit with the number by which the suits are put in order.
pub type ColorAmount = (u8, u32);

/// The order of two suits: the one with the smaller number goes first.
pub fn compare_cells(a: &ColorAmount, b: &ColorAmount) -> (o: Ordering)
    ensures
        a.0 < b.0 ==> o == Ordering::Less,
        a.0 == b.0 ==> o == Ordering::Equal,
        a.0 > b.0 ==> o == Ordering::Greater,
{
    if a.0 < b.0 {
        Ordering::Less
    } else if a.0 == b.0 {
        Ordering::Equal
    } else {
        Ordering::Greater
    }
}

/// `slice::sort_unstable_by` on the five suits, with `compare_cells`: the
/// same suits, in rising order of their numbers.
#[verifier::external_body]
pub(crate) fn sort_cells(cells: &mut [ColorAmount; 5])
    ensures
        final(cells)@.to_multiset() == old(cells)@.to_multiset(),
        forall|i: int, j: int|
            0 <= i < j < 5 ==> (#[trigger] final(cells)@[i]).0 <= (#[trigger] final(cells)@[j]).0,
{
    cells.sort_unstable_by(|a, b| compare_cells(a, b))
}

} // verus!
