//! The fixed-capacity staging list a harvest collects its resources in: an
//! `arrayvec::ArrayVec` of capacity 6, one slot per harvested resource kind.
use vstd::prelude::*;
use arrayvec::ArrayVec;
use crate::resource_minter::HarvestedResource;

verus! {

#[verifier::external_type_specification]
#[verifier::external_body]
#[verifier::reject_recursive_types(T)]
pub struct ExArrayVec<T, const CAP: usize>(ArrayVec<T, CAP>);

/// The items held by a staging list, first pushed first.
pub uninterp spec fn staged_items(v: ArrayVec<HarvestedResource, 6>) -> Seq<HarvestedResource>;

/// `ArrayVec::new`: an empty list.
#[verifier::external_body]
pub(crate) fn staged_new() -> (v: ArrayVec<HarvestedResource, 6>)
    ensures
        staged_items(v) == Seq::<HarvestedResource>::empty(),
{
    ArrayVec::new()
}

/// `ArrayVec::push`: appends `item`; it panics on a full list, which the
/// precondition rules out.
#[verifier::external_body]
pub(crate) fn staged_push(v: &mut ArrayVec<HarvestedResource, 6>, item: HarvestedResource)
    requires
        staged_items(*old(v)).len() < 6,
    ensures
        staged_items(*final(v)) == staged_items(*old(v)).push(item),
{
    v.push(item)
}

/// `ArrayVec::len`: the number of items.
#[verifier::external_body]
pub(crate) fn staged_len(v: &ArrayVec<HarvestedResource, 6>) -> (n: usize)
    ensures
        n == staged_items(*v).len(),
{
    v.len()
}

/// `ArrayVec::remove`: takes out the item at `index`, shifting the later ones
/// down; it panics on an index out of bounds, which the precondition rules out.
#[verifier::external_body]
pub(crate) fn staged_remove(v: &mut ArrayVec<HarvestedResource, 6>, index: usize) -> (item: HarvestedResource)
    requires
        index < staged_items(*old(v)).len(),
    ensures
        item == staged_items(*old(v))[index as int],
        staged_items(*final(v)) == staged_items(*old(v)).remove(index as int),
{
    v.remove(index)
}

} // verus!
