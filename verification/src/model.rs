//! The registry's mathematical model: its state as a counter together with a
//! sequence of event models in creation order, the well-formedness invariant,
//! and one transition function per registry operation.

use vstd::prelude::*;
use crate::event::{EventModel, Status};

verus! {

/// Abstract registry state.
///
/// `counter` is the number of events ever created (not the number still
/// present); `events` holds the live records in creation order, which under
/// `wf_model` is also ascending `event_id` order.
#[verifier::ext_equal]
pub ghost struct RegistryModel {
    pub counter: u32,
    pub events: Seq<EventModel>,
}

/// The state a registry has before anything was ever persisted.
pub open spec fn empty_model() -> RegistryModel {
    RegistryModel { counter: 0, events: Seq::empty() }
}

/// Well-formedness of the event sequence alone: IDs strictly increase along
/// the sequence (so no two records share an ID), and every ID lies in
/// `[1, counter]`.
pub open spec fn wf_events(events: Seq<EventModel>, counter: u32) -> bool {
    &&& forall|i: int, j: int|
        0 <= i < j < events.len() ==> events[i].event_id < events[j].event_id
    &&& forall|i: int|
        0 <= i < events.len() ==> 1 <= #[trigger] events[i].event_id <= counter
}

/// The registry invariant: see `wf_events`.
pub open spec fn wf_model(m: RegistryModel) -> bool {
    wf_events(m.events, m.counter)
}

/// Whether some record in `events` carries `event_id`.
pub open spec fn has_id(events: Seq<EventModel>, event_id: u32) -> bool {
    exists|i: int| 0 <= i < events.len() && events[i].event_id == event_id
}

/// The position of the record carrying `event_id`; meaningful only when
/// `has_id` holds, and unique under `wf_events`.
pub open spec fn index_of_id(events: Seq<EventModel>, event_id: u32) -> int {
    choose|i: int| 0 <= i < events.len() && events[i].event_id == event_id
}

/// The record carrying `event_id`, or `None` if no record does.
pub open spec fn lookup(events: Seq<EventModel>, event_id: u32) -> Option<EventModel> {
    if has_id(events, event_id) {
        Some(events[index_of_id(events, event_id)])
    } else {
        None
    }
}

/// State after a successful create: the counter advances by one and a fresh
/// `Active` record with ID `counter + 1` is appended. The returned ID is
/// `m.counter + 1`.
pub open spec fn create_model(
    m: RegistryModel,
    name: Seq<char>,
    description: Seq<char>,
    start_date: u64,
    end_date: u64,
) -> RegistryModel
    recommends
        m.counter < u32::MAX,
{
    RegistryModel {
        counter: (m.counter + 1) as u32,
        events: m.events.push(
            EventModel {
                event_id: (m.counter + 1) as u32,
                name,
                description,
                start_date,
                end_date,
                status: Status::Active,
            },
        ),
    }
}

/// State after an update: the record carrying `event_id`, if any, has all its
/// mutable fields replaced while keeping its ID and position; every other
/// record, and the counter, are untouched. Updating an absent ID changes
/// nothing (update never upserts).
pub open spec fn update_model(
    m: RegistryModel,
    event_id: u32,
    name: Seq<char>,
    description: Seq<char>,
    start_date: u64,
    end_date: u64,
    status: Status,
) -> RegistryModel {
    RegistryModel {
        counter: m.counter,
        events: m.events.map_values(
            |e: EventModel|
                if e.event_id == event_id {
                    EventModel { event_id, name, description, start_date, end_date, status }
                } else {
                    e
                },
        ),
    }
}

/// State after a delete: the record carrying `event_id`, if any, is removed;
/// the counter is untouched, so the ID is retired forever. Deleting an absent
/// ID changes nothing.
pub open spec fn delete_model(m: RegistryModel, event_id: u32) -> RegistryModel {
    RegistryModel {
        counter: m.counter,
        events: if has_id(m.events, event_id) {
            m.events.remove(index_of_id(m.events, event_id))
        } else {
            m.events
        },
    }
}

/// The positional accessor: position `index` is a direct alias for ID
/// `index + 1`, bounds-checked against the counter but not re-compacted after
/// deletions. An in-range position whose aliased ID was deleted yields `None`.
pub open spec fn by_index_model(m: RegistryModel, index: u32) -> Option<EventModel> {
    if index < m.counter {
        lookup(m.events, (index + 1) as u32)
    } else {
        None
    }
}

/// Under the invariant, at most one position carries a given ID.
pub proof fn lemma_id_index_unique(events: Seq<EventModel>, counter: u32, i: int, j: int)
    requires
        wf_events(events, counter),
        0 <= i < events.len(),
        0 <= j < events.len(),
        events[i].event_id == events[j].event_id,
    ensures
        i == j,
{
    if i < j {
        assert(events[i].event_id < events[j].event_id);
    } else if j < i {
        assert(events[j].event_id < events[i].event_id);
    }
}

/// When position `i` carries `event_id`, `lookup` returns exactly that record.
pub proof fn lemma_lookup_at(events: Seq<EventModel>, counter: u32, event_id: u32, i: int)
    requires
        wf_events(events, counter),
        0 <= i < events.len(),
        events[i].event_id == event_id,
    ensures
        has_id(events, event_id),
        index_of_id(events, event_id) == i,
        lookup(events, event_id) == Some(events[i]),
{
    assert(has_id(events, event_id));
    lemma_id_index_unique(events, counter, index_of_id(events, event_id), i);
}

/// A create preserves the invariant whenever the counter can still advance.
pub proof fn lemma_create_preserves_wf(
    m: RegistryModel,
    name: Seq<char>,
    description: Seq<char>,
    start_date: u64,
    end_date: u64,
)
    requires
        wf_model(m),
        m.counter < u32::MAX,
    ensures
        wf_model(create_model(m, name, description, start_date, end_date)),
{
    let m2 = create_model(m, name, description, start_date, end_date);
    assert forall|i: int, j: int|
        0 <= i < j < m2.events.len() implies m2.events[i].event_id < m2.events[j].event_id by {
        if j < m.events.len() as int {
        } else {
            assert(m2.events[i] == m.events[i]);
        }
    }
}

/// An update preserves the invariant: IDs and the counter are unchanged.
pub proof fn lemma_update_preserves_wf(
    m: RegistryModel,
    event_id: u32,
    name: Seq<char>,
    description: Seq<char>,
    start_date: u64,
    end_date: u64,
    status: Status,
)
    requires
        wf_model(m),
    ensures
        wf_model(update_model(m, event_id, name, description, start_date, end_date, status)),
{
    let m2 = update_model(m, event_id, name, description, start_date, end_date, status);
    assert(forall|i: int|
        0 <= i < m2.events.len() ==> #[trigger] m2.events[i].event_id == m.events[i].event_id);
}

/// A delete preserves the invariant: what remains is a subsequence.
pub proof fn lemma_delete_preserves_wf(m: RegistryModel, event_id: u32)
    requires
        wf_model(m),
    ensures
        wf_model(delete_model(m, event_id)),
{
    let m2 = delete_model(m, event_id);
    if has_id(m.events, event_id) {
        let k = index_of_id(m.events, event_id);
        assert forall|i: int, j: int|
            0 <= i < j < m2.events.len() implies m2.events[i].event_id < m2.events[j].event_id by {
            let i0: int = if i < k { i } else { i + 1 };
            let j0: int = if j < k { j } else { j + 1 };
            assert(m2.events[i] == m.events[i0]);
            assert(m2.events[j] == m.events[j0]);
        }
        assert forall|i: int|
            0 <= i < m2.events.len() implies 1 <= #[trigger] m2.events[i].event_id <= m2.counter by {
            let i0: int = if i < k { i } else { i + 1 };
            assert(m2.events[i] == m.events[i0]);
        }
    }
}

} // verus!
