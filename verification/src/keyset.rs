//! The set of channels that hold a key down, kept in a fixed-capacity
//! `micromap::Set`.
use vstd::prelude::*;

verus! {

#[verifier::external_type_specification]
#[verifier::external_body]
#[verifier::reject_recursive_types(T)]
pub struct ExMicroSet<T, const N: usize>(micromap::Set<T, N>);

/// The channels in a key set, in the order of its slots.
pub uninterp spec fn set_slots(s: micromap::Set<u8, 8>) -> Seq<u8>;

/// An empty set (`Set::new`).
#[verifier::external_body]
pub(crate) fn key_set_new() -> (r: micromap::Set<u8, 8>)
    ensures
        set_slots(r) == Seq::<u8>::empty(),
{
    micromap::Set::new()
}


/// The first slot of `s` that holds `k`.
pub open spec fn slot_of(s: Seq<u8>, k: u8) -> int
    decreases s.len(),
{
    if s.len() == 0 {
        0
    } else if s.last() == k && !s.drop_last().contains(k) {
        s.len() - 1
    } else {
        slot_of(s.drop_last(), k)
    }
}

/// The slots after removing the item in slot `i`: the last item moves into
/// slot `i`.
pub open spec fn swap_remove(s: Seq<u8>, i: int) -> Seq<u8> {
    s.update(i, s.last()).drop_last()
}

/// Whether `s` holds `k` (`Set::contains`).
#[verifier::external_body]
pub(crate) fn key_set_contains(s: &micromap::Set<u8, 8>, k: u8) -> (r: bool)
    ensures
        r == set_slots(*s).contains(k),
{
    s.contains(&k)
}

/// Adds `k` to `s` (`Set::insert`): an item not yet held goes into the next
/// free slot; the call panics when all eight slots are taken, which the
/// `requires` leaves out.
#[verifier::external_body]
pub(crate) fn key_set_insert(s: &mut micromap::Set<u8, 8>, k: u8) -> (r: bool)
    requires
        set_slots(*old(s)).contains(k) || set_slots(*old(s)).len() < 8,
    ensures
        r == !set_slots(*old(s)).contains(k),
        set_slots(*old(s)).contains(k) ==> set_slots(*final(s)) == set_slots(*old(s)),
        !set_slots(*old(s)).contains(k) ==> set_slots(*final(s)) == set_slots(*old(s)).push(k),
{
    s.insert(k)
}

/// Removes `k` from `s` (`Set::remove`): the item in the last slot moves
/// into the slot that `k` held.
#[verifier::external_body]
pub(crate) fn key_set_remove(s: &mut micromap::Set<u8, 8>, k: u8) -> (r: bool)
    ensures
        r == set_slots(*old(s)).contains(k),
        !set_slots(*old(s)).contains(k) ==> set_slots(*final(s)) == set_slots(*old(s)),
        set_slots(*old(s)).contains(k) ==> set_slots(*final(s)) == swap_remove(
            set_slots(*old(s)),
            slot_of(set_slots(*old(s)), k),
        ),
{
    s.remove(&k)
}

/// The item in the first slot of `s` (`s.iter().next()`).
#[verifier::external_body]
pub(crate) fn key_set_first(s: &micromap::Set<u8, 8>) -> (r: Option<u8>)
    ensures
        set_slots(*s).len() == 0 ==> r is None,
        set_slots(*s).len() > 0 ==> r == Some(set_slots(*s)[0]),
{
    s.iter().next().copied()
}

/// The items of `s` in the order of its slots (`s.iter()`, copied).
#[verifier::external_body]
pub(crate) fn key_set_items(s: &micromap::Set<u8, 8>) -> (r: Vec<u8>)
    ensures
        r@ == set_slots(*s),
{
    s.iter().copied().collect()
}

/// The number of items in `s` (`Set::len`).
#[verifier::external_body]
pub(crate) fn key_set_len(s: &micromap::Set<u8, 8>) -> (r: usize)
    ensures
        r == set_slots(*s).len(),
{
    s.len()
}

} // verus!
