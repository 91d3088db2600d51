use vstd::prelude::*;

use crate::person::PersonView;
use crate::store::{is_next_id, keyed_by_id, patched, with_id};

verus! {

/// `states` and `made` trace successful creates one after another: the
/// `i`-th create turns `states[i]` into `states[i + 1]`, returning `made[i]`.
pub open spec fn create_trace(
    states: Seq<Map<u64, PersonView>>,
    made: Seq<PersonView>,
) -> bool {
    &&& states.len() == made.len() + 1
    &&& forall|i: int|
        0 <= i < made.len() ==> {
            &&& is_next_id(states[i], #[trigger] made[i].id)
            &&& states[i + 1] == states[i].insert(made[i].id, made[i])
        }
}

/// The identifiers one to `n`.
pub open spec fn first_ids(n: int) -> Set<u64> {
    Set::new(|k: u64| 1 <= k <= n)
}

proof fn lemma_trace_from_empty(states: Seq<Map<u64, PersonView>>, made: Seq<PersonView>, n: int)
    requires
        create_trace(states, made),
        states[0] == Map::<u64, PersonView>::empty(),
        0 <= n <= made.len(),
    ensures
        states[n].dom() == first_ids(n),
        forall|i: int| 0 <= i < n ==> #[trigger] made[i].id == i + 1,
    decreases n,
{
    if n == 0 {
        assert(states[0].dom() =~= first_ids(0));
    } else {
        lemma_trace_from_empty(states, made, n - 1);
        let m = states[n - 1];
        let id = made[n - 1].id;
        assert(is_next_id(m, id));
        if n - 1 == 0 {
            assert(m.dom().is_empty()) by {
                assert(m.dom() =~= Set::<u64>::empty());
            }
        } else {
            if n - 1 >= u64::MAX {
                assert(first_ids(n - 1).contains(u64::MAX));
                assert(m.contains_key(u64::MAX));
            }
            assert(first_ids(n - 1).contains((n - 1) as u64));
            assert(m.contains_key((n - 1) as u64));
            assert(!m.dom().is_empty());
            assert(m.contains_key((id - 1) as u64));
        }
        assert(id == n);
        assert(states[n].dom() =~= first_ids(n));
    }
}

/// Records created one after another on an empty store get the identifiers
/// 1, 2, …, n in turn, and keep the name and age they were given.
pub proof fn serial_creates_number_from_one(
    states: Seq<Map<u64, PersonView>>,
    drafts: Seq<PersonView>,
    made: Seq<PersonView>,
)
    requires
        create_trace(states, made),
        states[0] == Map::<u64, PersonView>::empty(),
        drafts.len() == made.len(),
        forall|i: int| 0 <= i < made.len() ==> #[trigger] made[i] == with_id(drafts[i], made[i].id),
    ensures
        forall|i: int|
            0 <= i < made.len() ==> {
                &&& #[trigger] made[i].id == i + 1
                &&& made[i].name == drafts[i].name
                &&& made[i].age == drafts[i].age
            },
{
    lemma_trace_from_empty(states, made, made.len() as int);
}

/// Each change that the store makes, a create, an update or a delete, keeps
/// every record stored under its own identifier.
pub proof fn changes_keep_records_keyed(
    m: Map<u64, PersonView>,
    id: u64,
    draft: PersonView,
    patch: PersonView,
)
    requires
        keyed_by_id(m),
    ensures
        is_next_id(m, id) ==> keyed_by_id(m.insert(id, with_id(draft, id))),
        m.contains_key(id) ==> keyed_by_id(m.insert(id, patched(m[id], patch))),
        keyed_by_id(m.remove(id)),
{
    if is_next_id(m, id) {
        assert(id != 0);
    }
}

/// A created record is found again, unchanged, under its identifier.
pub proof fn get_after_create(
    before: Map<u64, PersonView>,
    draft: PersonView,
    made: PersonView,
    after: Map<u64, PersonView>,
)
    requires
        is_next_id(before, made.id),
        made == with_id(draft, made.id),
        after == before.insert(made.id, made),
    ensures
        after.contains_key(made.id),
        after[made.id] == made,
{
}

/// After an update, the record under `id` has the patch's name and age and
/// still its identifier `id`.
pub proof fn get_after_update(
    before: Map<u64, PersonView>,
    id: u64,
    patch: PersonView,
    updated: PersonView,
    after: Map<u64, PersonView>,
)
    requires
        keyed_by_id(before),
        before.contains_key(id),
        updated == patched(before[id], patch),
        after == before.insert(id, updated),
    ensures
        after.contains_key(id),
        after[id].id == id,
        after[id].name == patch.name,
        after[id].age == patch.age,
{
}

/// After a delete of `id` nothing is found under `id`, and a second delete
/// of `id` finds nothing to remove and changes nothing.
pub proof fn delete_is_final(before: Map<u64, PersonView>, id: u64, after: Map<u64, PersonView>)
    requires
        after == before.remove(id),
    ensures
        !after.contains_key(id),
        after.remove(id) == after,
{
    assert(after.remove(id) =~= after);
}

/// The identifier that a create hands out is in use by no stored record.
pub proof fn next_id_is_fresh(m: Map<u64, PersonView>, id: u64)
    requires
        is_next_id(m, id),
    ensures
        !m.contains_key(id),
{
}

/// Creates carried out one after another never hand out the same identifier
/// twice: each one is larger than all before it.
pub proof fn serial_creates_never_repeat_an_id(
    states: Seq<Map<u64, PersonView>>,
    made: Seq<PersonView>,
)
    requires
        create_trace(states, made),
    ensures
        forall|i: int, j: int| 0 <= i < j < made.len() ==> #[trigger] made[i].id < #[trigger] made[j].id,
{
    assert forall|i: int, j: int| 0 <= i < j < made.len() implies #[trigger] made[i].id
        < #[trigger] made[j].id by {
        lemma_ids_grow(states, made, i, j);
    }
}

proof fn lemma_ids_grow(states: Seq<Map<u64, PersonView>>, made: Seq<PersonView>, i: int, j: int)
    requires
        create_trace(states, made),
        0 <= i < j < made.len(),
    ensures
        made[i].id < made[j].id,
        states[j].contains_key(made[i].id),
    decreases j - i,
{
    let a = made[j - 1];
    assert(is_next_id(states[j - 1], a.id));
    assert(states[j] == states[j - 1].insert(a.id, a));
    if i < j - 1 {
        lemma_ids_grow(states, made, i, j - 1);
        assert(states[j].contains_key(made[i].id));
    }
    assert(states[j].contains_key(a.id));
    assert(is_next_id(states[j], made[j].id));
    assert(!states[j].dom().is_empty());
}

/// Deleting a record that does not hold the largest identifier leaves the
/// next identifier as it was, so its identifier is not handed out again.
pub proof fn delete_below_max_keeps_next_id(m: Map<u64, PersonView>, d: u64, top: u64, id: u64)
    requires
        m.contains_key(d),
        m.contains_key(top),
        d < top,
    ensures
        is_next_id(m.remove(d), id) <==> is_next_id(m, id),
        is_next_id(m, id) ==> d < id,
{
    let r = m.remove(d);
    assert(r.contains_key(top));
    assert(!m.dom().is_empty());
    assert(!r.dom().is_empty());
    if is_next_id(m, id) {
        assert(m.contains_key((id - 1) as u64));
        assert((id - 1) as u64 != d);
        assert(r.contains_key((id - 1) as u64));
    }
    if is_next_id(r, id) {
        assert forall|k: u64| #[trigger] m.contains_key(k) implies k < id by {
            if k != d {
                assert(r.contains_key(k));
            }
        }
    }
}

/// Deleting the record with the largest identifier `top`, where `top - 1`
/// is in use too, makes `top` the next identifier again.
pub proof fn delete_of_max_reuses_its_id(m: Map<u64, PersonView>, top: u64)
    requires
        m.contains_key(top),
        top > 0,
        m.contains_key((top - 1) as u64),
        forall|k: u64| #[trigger] m.contains_key(k) ==> k <= top,
    ensures
        is_next_id(m.remove(top), top),
{
    let r = m.remove(top);
    assert(r.contains_key((top - 1) as u64));
    assert(!r.dom().is_empty());
}

} // verus!
