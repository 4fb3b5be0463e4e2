//! The arena that holds the raw data indexes of a file.

use crate::segment::{RawDataIndex, RawDataIndexId};
use id_arena::{Arena, DefaultArenaBehavior, Id};
use vstd::prelude::*;

verus! {

/// `id_arena::Arena`, an arena of values that are found again by the id that
/// was given out for them; opaque here.
#[verifier::external_type_specification]
#[verifier::external_body]
#[verifier::reject_recursive_types(T)]
#[verifier::reject_recursive_types(A)]
pub struct ExArena<T, A>(Arena<T, A>);

/// `id_arena::Id`, the id of a value in an arena; opaque here.
#[verifier::external_type_specification]
#[verifier::external_body]
#[verifier::reject_recursive_types(T)]
pub struct ExId<T>(Id<T>);

/// `id_arena::DefaultArenaBehavior`, the second type parameter that an
/// arena has by default; it has no values of interest.
#[verifier::external_type_specification]
#[verifier::external_body]
#[verifier::reject_recursive_types(T)]
pub struct ExDefaultArenaBehavior<T>(DefaultArenaBehavior<T>);

/// The records that an arena holds, each under the id that `alloc` gave out
/// for it.
pub uninterp spec fn arena_map(arena: Arena<RawDataIndex>) -> Map<RawDataIndexId, RawDataIndex>;

/// No records at all.
pub open spec fn no_indexes() -> Map<RawDataIndexId, RawDataIndex> {
    Map::empty()
}

/// `id_arena::Arena::new`: an arena that holds nothing.
#[verifier::external_body]
pub(crate) fn arena_new() -> (r: Arena<RawDataIndex>)
    ensures
        arena_map(r) == no_indexes(),
{
    Arena::new()
}

/// `id_arena::Arena::alloc`: stores the record under an id that the arena did
/// not hold before, and keeps all that it held.
#[verifier::external_body]
pub(crate) fn arena_alloc(arena: &mut Arena<RawDataIndex>, item: RawDataIndex) -> (r: RawDataIndexId)
    ensures
        !arena_map(*old(arena)).contains_key(r),
        arena_map(*final(arena)) == arena_map(*old(arena)).insert(r, item),
{
    arena.alloc(item)
}

/// `id_arena::Arena::get`: the record stored under the id, or `None` for an
/// id that this arena did not give out.
#[verifier::external_body]
pub(crate) fn arena_get(arena: &Arena<RawDataIndex>, id: RawDataIndexId) -> (r: Option<
    &RawDataIndex,
>)
    ensures
        r == (if arena_map(*arena).contains_key(id) {
            Some(&arena_map(*arena)[id])
        } else {
            None
        }),
{
    arena.get(id)
}

} // verus!
