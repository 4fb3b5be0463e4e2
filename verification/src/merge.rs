//! Merging the objects that a segment declares into the object list of the
//! segment before it.

use crate::object_map::ObjectMap;
use crate::segment::{entries, Keyed, RawDataIndex, RawDataIndexId, SegmentObject};
use vstd::prelude::*;

verus! {

/// The index in the first `n` entries of `objects` of the last one with the
/// id `object_id`, if there is one.
pub open spec fn last_index_of<T: Keyed>(objects: Seq<T>, object_id: nat, n: int) -> Option<int>
    decreases n,
{
    if n <= 0 {
        None
    } else if objects[n - 1].key() == object_id {
        Some(n - 1)
    } else {
        last_index_of(objects, object_id, n - 1)
    }
}

/// The list `merged` with one newly declared object merged in: it takes the
/// place of the object with its id in the previous list `previous`, at that
/// object's position, or comes last if the previous list has no such object.
pub open spec fn merge_one<T: Keyed>(merged: Seq<T>, previous: Seq<T>, object: T) -> Seq<T> {
    match last_index_of(previous, object.key(), previous.len() as int) {
        Some(index) => merged.update(index, object),
        None => merged.push(object),
    }
}

/// The previous list of objects with the first `n` of the newly declared
/// objects merged in, one after the other.
pub open spec fn merge_first<T: Keyed>(previous: Seq<T>, declared: Seq<T>, n: int) -> Seq<T>
    decreases n,
{
    if n <= 0 {
        previous
    } else {
        merge_one(merge_first(previous, declared, n - 1), previous, declared[n - 1])
    }
}

/// The object list of a segment that declares `declared` without a new
/// object list, behind a segment with the list `previous`.
pub open spec fn spec_merge<T: Keyed>(previous: Seq<T>, declared: Seq<T>) -> Seq<T> {
    merge_first(previous, declared, declared.len() as int)
}

/// An index found among the first `n` entries is below `n` and holds the id;
/// where none is found, none of them holds the id.
pub proof fn lemma_last_index_bound<T: Keyed>(objects: Seq<T>, object_id: nat, n: int)
    requires
        0 <= n <= objects.len(),
    ensures
        last_index_of(objects, object_id, n) matches Some(index) ==> 0 <= index < n
            && objects[index].key() == object_id,
        last_index_of(objects, object_id, n) is None ==> forall|j: int|
            0 <= j < n ==> (#[trigger] objects[j]).key() != object_id,
    decreases n,
{
    if n > 0 {
        lemma_last_index_bound(objects, object_id, n - 1);
    }
}

/// Merging keeps the order of the previous list: the merged list is at least
/// as long, every object of it comes from one of the two lists, and the
/// object at a position of the previous list has the id that the previous
/// list had there.
pub proof fn lemma_merge_members<T: Keyed>(previous: Seq<T>, declared: Seq<T>, n: int)
    requires
        0 <= n <= declared.len(),
    ensures
        merge_first(previous, declared, n).len() >= previous.len(),
        forall|k: int|
            0 <= k < merge_first(previous, declared, n).len() ==> previous.contains(
                #[trigger] merge_first(previous, declared, n)[k],
            ) || declared.contains(merge_first(previous, declared, n)[k]),
        forall|k: int|
            0 <= k < previous.len() ==> (#[trigger] merge_first(previous, declared, n)[k]).key()
                == previous[k].key(),
    decreases n,
{
    if n > 0 {
        lemma_merge_members(previous, declared, n - 1);
        lemma_last_index_bound(previous, declared[n - 1].key(), previous.len() as int);
        let before = merge_first(previous, declared, n - 1);
        let after = merge_first(previous, declared, n);
        assert(declared.contains(declared[n - 1]));
        assert forall|k: int| 0 <= k < after.len() implies previous.contains(#[trigger] after[k])
            || declared.contains(after[k]) by {
            if after[k] != declared[n - 1] {
                assert(after[k] == before[k]);
            }
        }
    } else {
        assert forall|k: int| 0 <= k < previous.len() implies previous.contains(
            #[trigger] previous[k],
        ) by {}
    }
}

/// Looking up the raw data indexes and merging can be done in either order.
pub proof fn lemma_merge_entries(
    previous: Seq<SegmentObject>,
    declared: Seq<SegmentObject>,
    indexes: Map<RawDataIndexId, RawDataIndex>,
    n: int,
)
    requires
        0 <= n <= declared.len(),
    ensures
        entries(merge_first(previous, declared, n), indexes) == merge_first(
            entries(previous, indexes),
            entries(declared, indexes),
            n,
        ),
    decreases n,
{
    if n > 0 {
        lemma_merge_entries(previous, declared, indexes, n - 1);
        lemma_merge_members(previous, declared, n - 1);
        lemma_last_index_entries(previous, indexes, declared[n - 1].key(), previous.len() as int);
        lemma_last_index_bound(previous, declared[n - 1].key(), previous.len() as int);
        let before = merge_first(previous, declared, n - 1);
        assert(entries(declared, indexes)[n - 1] == declared[n - 1].entry(indexes));
        match last_index_of(previous, declared[n - 1].key(), previous.len() as int) {
            Some(index) => {
                assert(entries(before.update(index, declared[n - 1]), indexes) =~= entries(
                    before,
                    indexes,
                ).update(index, declared[n - 1].entry(indexes)));
            },
            None => {
                assert(entries(before.push(declared[n - 1]), indexes) =~= entries(
                    before,
                    indexes,
                ).push(declared[n - 1].entry(indexes)));
            },
        }
    }
}

/// An object is found at the same index whether or not the raw data indexes
/// are looked up.
pub proof fn lemma_last_index_entries(
    objects: Seq<SegmentObject>,
    indexes: Map<RawDataIndexId, RawDataIndex>,
    object_id: nat,
    n: int,
)
    requires
        0 <= n <= objects.len(),
    ensures
        last_index_of(entries(objects, indexes), object_id, n) == last_index_of(
            objects,
            object_id,
            n,
        ),
    decreases n,
{
    if n > 0 {
        lemma_last_index_entries(objects, indexes, object_id, n - 1);
    }
}

/// Merges the objects that a segment declares into the object list of the
/// segment before it. It keeps the map from object ids to positions, which is
/// filled anew for every merge.
pub struct ObjectMerger {
    object_indexes: ObjectMap<usize>,
}

impl View for ObjectMerger {
    type V = Map<nat, usize>;

    /// The positions that the merger holds, by object id.
    closed spec fn view(&self) -> Map<nat, usize> {
        self.object_indexes@
    }
}

impl ObjectMerger {
    pub fn new() -> (r: ObjectMerger)
        ensures
            r@ == Map::<nat, usize>::empty(),
    {
        ObjectMerger { object_indexes: ObjectMap::new() }
    }

    /// Combine previous segment's object list with objects in the current segment
    pub fn merge_objects(
        &mut self,
        previous_segment_objects: Option<&Vec<SegmentObject>>,
        new_objects: Vec<SegmentObject>,
    ) -> (r: Vec<SegmentObject>)
        requires
            previous_segment_objects matches Some(previous) ==> forall|k: int|
                0 <= k < previous@.len() ==> (#[trigger] previous@[k]).key() < usize::MAX,
        ensures
            r@ == (match previous_segment_objects {
                Some(previous) => spec_merge(previous@, new_objects@),
                None => new_objects@,
            }),
    {
        if let Some(prev_objs) = previous_segment_objects {
            let ghost previous = prev_objs@;
            let mut merged_objects: Vec<SegmentObject> = Vec::with_capacity(prev_objs.len());
            // Store indexes of existing objects and add to merged vector
            self.object_indexes.clear();
            let mut i: usize = 0;
            while i < prev_objs.len()
                invariant
                    i <= prev_objs@.len(),
                    previous == prev_objs@,
                    merged_objects@ == prev_objs@.take(i as int),
                    forall|k: int|
                        0 <= k < previous.len() ==> (#[trigger] previous[k]).key() < usize::MAX,
                    forall|id: nat|
                        (#[trigger] self.object_indexes@.contains_key(id)) <==> last_index_of(
                            previous,
                            id,
                            i as int,
                        ) is Some,
                    forall|id: nat|
                        #[trigger] self.object_indexes@.contains_key(id)
                            ==> self.object_indexes@[id] as int == last_index_of(
                            previous,
                            id,
                            i as int,
                        )->0,
                decreases prev_objs@.len() - i,
            {
                let obj = prev_objs[i];
                assert(previous[i as int].key() < usize::MAX);
                self.object_indexes.set(obj.object_id, i);
                merged_objects.push(obj);
                proof {
                    assert(merged_objects@ =~= prev_objs@.take(i + 1));
                }
                i += 1;
            }
            assert(merged_objects@ =~= prev_objs@);
            // Replace or push new objects
            let mut n: usize = 0;
            while n < new_objects.len()
                invariant
                    n <= new_objects@.len(),
                    previous == prev_objs@,
                    merged_objects@ == merge_first(previous, new_objects@, n as int),
                    forall|id: nat|
                        (#[trigger] self.object_indexes@.contains_key(id)) <==> last_index_of(
                            previous,
                            id,
                            previous.len() as int,
                        ) is Some,
                    forall|id: nat|
                        #[trigger] self.object_indexes@.contains_key(id)
                            ==> self.object_indexes@[id] as int == last_index_of(
                            previous,
                            id,
                            previous.len() as int,
                        )->0,
                decreases new_objects@.len() - n,
            {
                let obj = new_objects[n];
                proof {
                    lemma_last_index_bound(previous, obj.key(), previous.len() as int);
                    lemma_merge_members(previous, new_objects@, n as int);
                }
                match self.object_indexes.get(obj.object_id) {
                    Some(i) => {
                        let index = *i;
                        merged_objects[index] = obj;
                    },
                    None => {
                        merged_objects.push(obj);
                    },
                }
                n += 1;
            }
            merged_objects
        } else {
            new_objects
        }
    }
}

} // verus!
