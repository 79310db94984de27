//! The registry's laws: properties relating several operations, stated over
//! the model and proved once for every well-formed state.

use vstd::prelude::*;
use crate::event::{EventModel, Status};
use crate::model::{
    RegistryModel, by_index_model, create_model, delete_model, empty_model, has_id, index_of_id,
    lemma_create_preserves_wf, lemma_delete_preserves_wf, lemma_id_index_unique, lemma_lookup_at,
    lemma_update_preserves_wf, lookup, update_model, wf_model,
};

verus! {

/// The inputs of one create call, for stating laws about chains of creates.
pub ghost struct CreateReq {
    pub name: Seq<char>,
    pub description: Seq<char>,
    pub start_date: u64,
    pub end_date: u64,
}

/// The state after performing the given creates in order.
pub open spec fn apply_creates(m: RegistryModel, reqs: Seq<CreateReq>) -> RegistryModel
    decreases reqs.len(),
{
    if reqs.len() == 0 {
        m
    } else {
        apply_creates(
            create_model(m, reqs[0].name, reqs[0].description, reqs[0].start_date, reqs[0].end_date),
            reqs.drop_first(),
        )
    }
}

/// A chain of creates advances the counter by exactly one per call and
/// preserves the invariant.
pub proof fn lemma_counter_after_creates(m: RegistryModel, reqs: Seq<CreateReq>)
    requires
        wf_model(m),
        m.counter + reqs.len() <= u32::MAX,
    ensures
        apply_creates(m, reqs).counter == m.counter + reqs.len(),
        wf_model(apply_creates(m, reqs)),
    decreases reqs.len(),
{
    if reqs.len() > 0 {
        let r = reqs[0];
        lemma_create_preserves_wf(m, r.name, r.description, r.start_date, r.end_date);
        lemma_counter_after_creates(
            create_model(m, r.name, r.description, r.start_date, r.end_date),
            reqs.drop_first(),
        );
    }
}

/// Sequential IDs: in a chain of creates, the ID handed out by the call at
/// position `i` — the counter of the state it starts from, plus one — is
/// `m.counter + i + 1`. So `n` consecutive creates return
/// `m.counter + 1, ..., m.counter + n` in call order.
pub proof fn lemma_sequential_ids(m: RegistryModel, reqs: Seq<CreateReq>, i: int)
    requires
        wf_model(m),
        m.counter + reqs.len() <= u32::MAX,
        0 <= i < reqs.len(),
    ensures
        apply_creates(m, reqs.take(i)).counter + 1 == m.counter + i + 1,
{
    lemma_counter_after_creates(m, reqs.take(i));
}

/// Sequential IDs from a fresh registry: `n` consecutive creates return
/// exactly `1, ..., n` in call order.
pub proof fn lemma_sequential_ids_from_fresh(reqs: Seq<CreateReq>, i: int)
    requires
        reqs.len() <= u32::MAX,
        0 <= i < reqs.len(),
    ensures
        apply_creates(empty_model(), reqs.take(i)).counter + 1 == i + 1,
{
    lemma_sequential_ids(empty_model(), reqs, i);
}

/// Round trip: reading the ID a create just returned yields a record with
/// exactly the given fields, `Active` status, and that ID.
pub proof fn lemma_create_read_round_trip(
    m: RegistryModel,
    name: Seq<char>,
    description: Seq<char>,
    start_date: u64,
    end_date: u64,
)
    requires
        wf_model(m),
        m.counter < u32::MAX,
    ensures
        lookup(
            create_model(m, name, description, start_date, end_date).events,
            (m.counter + 1) as u32,
        ) == Some(
            EventModel {
                event_id: (m.counter + 1) as u32,
                name,
                description,
                start_date,
                end_date,
                status: Status::Active,
            },
        ),
{
    let m2 = create_model(m, name, description, start_date, end_date);
    lemma_create_preserves_wf(m, name, description, start_date, end_date);
    lemma_lookup_at(m2.events, m2.counter, (m.counter + 1) as u32, m.events.len() as int);
}

/// Update preserves the ID: after updating a present ID, reading it back
/// yields the new fields under the same, unchanged ID — and the counter is
/// untouched.
pub proof fn lemma_update_preserves_id(
    m: RegistryModel,
    event_id: u32,
    name: Seq<char>,
    description: Seq<char>,
    start_date: u64,
    end_date: u64,
    status: Status,
)
    requires
        wf_model(m),
        has_id(m.events, event_id),
    ensures
        lookup(
            update_model(m, event_id, name, description, start_date, end_date, status).events,
            event_id,
        ) == Some(EventModel { event_id, name, description, start_date, end_date, status }),
        update_model(m, event_id, name, description, start_date, end_date, status).counter
            == m.counter,
{
    let m2 = update_model(m, event_id, name, description, start_date, end_date, status);
    lemma_update_preserves_wf(m, event_id, name, description, start_date, end_date, status);
    let i = index_of_id(m.events, event_id);
    assert(m2.events[i] == EventModel { event_id, name, description, start_date, end_date, status });
    lemma_lookup_at(m2.events, m2.counter, event_id, i);
}

/// Update of an absent ID is a no-op: the whole state — counter, every
/// record, hence also what a list or a count would return — is unchanged.
pub proof fn lemma_update_absent_is_no_op(
    m: RegistryModel,
    event_id: u32,
    name: Seq<char>,
    description: Seq<char>,
    start_date: u64,
    end_date: u64,
    status: Status,
)
    requires
        !has_id(m.events, event_id),
    ensures
        update_model(m, event_id, name, description, start_date, end_date, status) == m,
{
    let m2 = update_model(m, event_id, name, description, start_date, end_date, status);
    assert forall|k: int| 0 <= k < m.events.len() implies m2.events[k] == m.events[k] by {
        assert(m.events[k].event_id != event_id);
    }
    assert(m2.events =~= m.events);
    assert(m2 =~= m);
}

/// Delete removes the record from reads and lists but not from the count:
/// afterwards the deleted ID reads as `None`, every other ID reads as
/// before, the number of live records drops by one exactly when the ID was
/// present, and the counter never changes. Deleting an absent ID changes
/// nothing at all.
pub proof fn lemma_delete_removes_but_keeps_count(m: RegistryModel, event_id: u32)
    requires
        wf_model(m),
    ensures
        delete_model(m, event_id).counter == m.counter,
        lookup(delete_model(m, event_id).events, event_id) == None::<EventModel>,
        has_id(m.events, event_id) ==> delete_model(m, event_id).events.len() == m.events.len()
            - 1,
        !has_id(m.events, event_id) ==> delete_model(m, event_id) == m,
        forall|other: u32|
            other != event_id ==> lookup(delete_model(m, event_id).events, other) == lookup(
                m.events,
                other,
            ),
{
    let m2 = delete_model(m, event_id);
    lemma_delete_preserves_wf(m, event_id);
    if has_id(m.events, event_id) {
        let k = index_of_id(m.events, event_id);
        assert forall|j: int|
            0 <= j < m2.events.len() implies #[trigger] m2.events[j].event_id != event_id by {
            let j0: int = if j < k {
                j
            } else {
                j + 1
            };
            assert(m2.events[j] == m.events[j0]);
            if m.events[j0].event_id == event_id {
                lemma_id_index_unique(m.events, m.counter, j0, k);
            }
        }
        assert(!has_id(m2.events, event_id));
        assert forall|other: u32|
            other != event_id implies lookup(m2.events, other) == lookup(m.events, other) by {
            lemma_delete_keeps_other(m, event_id, other);
        }
    } else {
        assert(m2 =~= m);
    }
}

/// After a delete, any other ID reads exactly as before.
proof fn lemma_delete_keeps_other(m: RegistryModel, event_id: u32, other: u32)
    requires
        wf_model(m),
        has_id(m.events, event_id),
        other != event_id,
    ensures
        lookup(delete_model(m, event_id).events, other) == lookup(m.events, other),
{
    let m2 = delete_model(m, event_id);
    lemma_delete_preserves_wf(m, event_id);
    let k = index_of_id(m.events, event_id);
    if has_id(m.events, other) {
        let j = index_of_id(m.events, other);
        assert(m.events[j].event_id == other);
        let j2: int = if j < k {
            j
        } else {
            j - 1
        };
        assert(m2.events[j2] == m.events[j]);
        lemma_lookup_at(m2.events, m2.counter, other, j2);
        lemma_lookup_at(m.events, m.counter, other, j);
    } else {
        assert forall|j: int|
            0 <= j < m2.events.len() implies #[trigger] m2.events[j].event_id != other by {
            let j0: int = if j < k {
                j
            } else {
                j + 1
            };
            assert(m2.events[j] == m.events[j0]);
        }
        assert(!has_id(m2.events, other));
    }
}

/// The counter only moves one way: a create advances it by exactly one,
/// and neither an update nor a delete ever changes it.
pub proof fn lemma_counter_only_increases(
    m: RegistryModel,
    event_id: u32,
    name: Seq<char>,
    description: Seq<char>,
    start_date: u64,
    end_date: u64,
    status: Status,
)
    ensures
        m.counter < u32::MAX ==> create_model(m, name, description, start_date, end_date).counter
            == m.counter + 1,
        update_model(m, event_id, name, description, start_date, end_date, status).counter
            == m.counter,
        delete_model(m, event_id).counter == m.counter,
{
}

/// The ID the next create will assign is live in no well-formed state: IDs
/// are handed out once and, together with the one-way counter, never
/// reissued after a delete.
pub proof fn lemma_next_id_is_fresh(m: RegistryModel)
    requires
        wf_model(m),
        m.counter < u32::MAX,
    ensures
        !has_id(m.events, (m.counter + 1) as u32),
{
    if has_id(m.events, (m.counter + 1) as u32) {
        let i = index_of_id(m.events, (m.counter + 1) as u32);
        assert(m.events[i].event_id <= m.counter);
    }
}

/// Index aliasing: position `k` is a direct alias for ID `k + 1`. Within
/// range it returns whatever reading ID `k + 1` returns; out of range it
/// returns `None`; and once ID `k + 1` has been deleted it returns `None`
/// even though `k` is still within `[0, counter)`.
pub proof fn lemma_index_aliasing(m: RegistryModel, k: u32)
    requires
        wf_model(m),
    ensures
        k < m.counter ==> by_index_model(m, k) == lookup(m.events, (k + 1) as u32),
        k >= m.counter ==> by_index_model(m, k) == None::<EventModel>,
        k < m.counter ==> by_index_model(delete_model(m, (k + 1) as u32), k)
            == None::<EventModel>,
{
    if k < m.counter {
        lemma_delete_removes_but_keeps_count(m, (k + 1) as u32);
    }
}

} // verus!
