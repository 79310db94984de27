//! The event registry: a counter and the live records, with one method per
//! registry operation.

use vstd::prelude::*;
use crate::event::{Event, EventModel, Status};
use crate::model::{
    RegistryModel, by_index_model, create_model, delete_model, empty_model, has_id,
    lemma_create_preserves_wf, lemma_delete_preserves_wf, lemma_id_index_unique, lemma_lookup_at,
    lemma_update_preserves_wf, lookup, update_model, wf_model,
};

verus! {

/// The registry state: the count of events ever created, and the live
/// records in creation order. A host that persists state between calls
/// rebuilds this value at the start of every operation (`from_persisted`)
/// and writes it back afterwards.
pub struct EventsContract {
    event_counter: u32,
    events: Vec<Event>,
}

/// The models of a sequence of records, element by element.
pub open spec fn models_of(events: Seq<Event>) -> Seq<EventModel> {
    events.map_values(|e: Event| e@)
}

/// The model of an optional record.
pub open spec fn opt_model(r: Option<Event>) -> Option<EventModel> {
    match r {
        Some(e) => Some(e@),
        None => None,
    }
}

impl View for EventsContract {
    type V = RegistryModel;

    closed spec fn view(&self) -> RegistryModel {
        RegistryModel { counter: self.event_counter, events: models_of(self.events@) }
    }
}

impl EventsContract {
    /// The registry invariant, on the model: see `model::wf_events`.
    pub open spec fn wf(&self) -> bool {
        wf_model(self@)
    }

    /// A fresh registry: nothing created yet, nothing stored.
    pub fn new() -> (r: EventsContract)
        ensures
            r@ == empty_model(),
            r.wf(),
    {
        let r = EventsContract { event_counter: 0, events: Vec::new() };
        proof {
            assert(r@.events =~= empty_model().events);
            assert(r@ =~= empty_model());
        }
        r
    }

    /// Rebuilds the registry from what a durable store returned for its two
    /// entries, substituting the defaults (0, no records) for an absent one.
    /// The result is well formed only if the persisted data was; see
    /// `is_well_formed`.
    pub fn from_persisted(counter: Option<u32>, events: Option<Vec<Event>>) -> (r: EventsContract)
        ensures
            r@.counter == match counter {
                Some(c) => c,
                None => 0u32,
            },
            r@.events == match events {
                Some(v) => models_of(v@),
                None => Seq::<EventModel>::empty(),
            },
    {
        let r = EventsContract {
            event_counter: match counter {
                Some(c) => c,
                None => 0,
            },
            events: match events {
                Some(v) => v,
                None => Vec::new(),
            },
        };
        proof {
            if events is None {
                assert(r@.events =~= Seq::<EventModel>::empty());
            }
        }
        r
    }

    /// Decides the registry invariant, so that an unverified host can test
    /// data of unknown provenance before calling the operations that
    /// require it.
    pub fn is_well_formed(&self) -> (b: bool)
        ensures
            b == self.wf(),
    {
        let n = self.events.len();
        let mut i: usize = 0;
        while i < n
            invariant
                n == self.events.len(),
                i <= n,
                forall|k: int|
                    0 <= k < i ==> 1 <= #[trigger] self.events@[k].event_id <= self.event_counter,
                forall|k: int|
                    1 <= k < i
                        ==> self.events@[k - 1].event_id < #[trigger] self.events@[k].event_id,
            decreases n - i,
        {
            let ev_id = self.events[i].event_id;
            if ev_id < 1 || ev_id > self.event_counter {
                proof {
                    assert(self@.events[i as int] == self.events@[i as int]@);
                    if self.wf() {
                        assert(1 <= self@.events[i as int].event_id <= self@.counter);
                    }
                }
                return false;
            }
            if i > 0 && self.events[i - 1].event_id >= ev_id {
                proof {
                    assert(self@.events[i as int] == self.events@[i as int]@);
                    assert(self@.events[i - 1] == self.events@[i - 1]@);
                    if self.wf() {
                        assert(self@.events[i - 1].event_id < self@.events[i as int].event_id);
                    }
                }
                return false;
            }
            i += 1;
        }
        proof {
            assert forall|k: int| 0 <= k < self@.events.len() implies #[trigger] self@.events[k]
                == self.events@[k]@ by {}
            lemma_adjacent_increase_is_sorted(self@.events);
            assert forall|k: int|
                0 <= k < self@.events.len() implies 1 <= #[trigger] self@.events[k].event_id
                <= self@.counter by {}
        }
        true
    }

    /// Creates a record with the next ID and `Active` status and returns
    /// that ID: IDs are `1, 2, 3, ...` in call order. Any field values are
    /// accepted; nothing is validated.
    pub fn create_event(
        &mut self,
        name: String,
        description: String,
        start_date: u64,
        end_date: u64,
    ) -> (r: u32)
        requires
            old(self).wf(),
            old(self)@.counter < u32::MAX,
        ensures
            r == old(self)@.counter + 1,
            final(self)@ == create_model(old(self)@, name@, description@, start_date, end_date),
            final(self).wf(),
    {
        proof {
            lemma_create_preserves_wf(self@, name@, description@, start_date, end_date);
        }
        let new_id = self.event_counter + 1;
        let new_event = Event {
            event_id: new_id,
            name,
            description,
            start_date,
            end_date,
            status: Status::Active,
        };
        self.event_counter = new_id;
        self.events.push(new_event);
        proof {
            assert(self@.events =~= create_model(
                old(self)@,
                new_event.name@,
                new_event.description@,
                start_date,
                end_date,
            ).events);
        }
        new_id
    }

    /// Looks the record up by its ID: the stored record, or `None` for an ID
    /// never created or already deleted. No side effects.
    pub fn read_event(&self, event_id: u32) -> (r: Option<Event>)
        requires
            self.wf(),
        ensures
            opt_model(r) == lookup(self@.events, event_id),
    {
        let n = self.events.len();
        let mut i: usize = 0;
        while i < n
            invariant
                self.wf(),
                n == self.events.len(),
                i <= n,
                forall|k: int| 0 <= k < i ==> #[trigger] self.events@[k].event_id != event_id,
            decreases n - i,
        {
            if self.events[i].event_id == event_id {
                let found = self.events[i].clone();
                proof {
                    assert(self@.events[i as int] == self.events@[i as int]@);
                    lemma_lookup_at(self@.events, self@.counter, event_id, i as int);
                }
                return Some(found);
            }
            i += 1;
        }
        proof {
            assert forall|k: int|
                0 <= k < self@.events.len() implies #[trigger] self@.events[k].event_id
                != event_id by {
                assert(self@.events[k] == self.events@[k]@);
            }
            assert(!has_id(self@.events, event_id));
        }
        None
    }

    /// Replaces every mutable field of the record carrying `event_id` —
    /// name, description, dates, status — keeping the ID itself. Updating an
    /// absent ID is a silent no-op: update never upserts, and no error is
    /// signalled.
    pub fn update_event(
        &mut self,
        event_id: u32,
        name: String,
        description: String,
        start_date: u64,
        end_date: u64,
        status: Status,
    )
        requires
            old(self).wf(),
        ensures
            final(self)@ == update_model(
                old(self)@,
                event_id,
                name@,
                description@,
                start_date,
                end_date,
                status,
            ),
            final(self).wf(),
    {
        proof {
            lemma_update_preserves_wf(
                self@,
                event_id,
                name@,
                description@,
                start_date,
                end_date,
                status,
            );
        }
        let ghost m0 = self@;
        let n = self.events.len();
        let mut i: usize = 0;
        while i < n
            invariant
                self.wf(),
                self@ == m0,
                m0 == old(self)@,
                n == self.events.len(),
                i <= n,
                forall|k: int| 0 <= k < i ==> #[trigger] self.events@[k].event_id != event_id,
            decreases n - i,
        {
            if self.events[i].event_id == event_id {
                let updated = Event {
                    event_id,
                    name,
                    description,
                    start_date,
                    end_date,
                    status,
                };
                let ghost s0 = self.events@;
                let ghost target = update_model(
                    m0,
                    event_id,
                    updated.name@,
                    updated.description@,
                    start_date,
                    end_date,
                    status,
                );
                self.events[i] = updated;
                proof {
                    assert(self.events@ == s0.update(i as int, updated));
                    assert(self@.events.len() == target.events.len());
                    assert forall|k: int|
                        0 <= k < s0.len() implies self@.events[k] == target.events[k] by {
                        assert(self@.events[k] == self.events@[k]@);
                        assert(m0.events[k] == s0[k]@);
                        if k != i as int && s0[k]@.event_id == event_id {
                            lemma_id_index_unique(m0.events, m0.counter, k, i as int);
                        }
                    }
                    assert(self@.events =~= target.events);
                    assert(self@ =~= target);
                }
                return ;
            }
            i += 1;
        }
        proof {
            assert forall|k: int|
                0 <= k < m0.events.len() implies self@.events[k] == update_model(
                m0,
                event_id,
                name@,
                description@,
                start_date,
                end_date,
                status,
            ).events[k] by {
                assert(self@.events[k] == self.events@[k]@);
            }
            assert(self@.events =~= update_model(
                m0,
                event_id,
                name@,
                description@,
                start_date,
                end_date,
                status,
            ).events);
        }
    }

    /// Removes the record carrying `event_id` if present; a no-op when it is
    /// absent. The counter is never decremented, so a deleted ID is retired
    /// forever and never reissued.
    pub fn delete_event(&mut self, event_id: u32)
        requires
            old(self).wf(),
        ensures
            final(self)@ == delete_model(old(self)@, event_id),
            final(self).wf(),
    {
        proof {
            lemma_delete_preserves_wf(self@, event_id);
        }
        let ghost m0 = self@;
        let n = self.events.len();
        let mut i: usize = 0;
        while i < n
            invariant
                self.wf(),
                self@ == m0,
                m0 == old(self)@,
                n == self.events.len(),
                i <= n,
                forall|k: int| 0 <= k < i ==> #[trigger] self.events@[k].event_id != event_id,
            decreases n - i,
        {
            if self.events[i].event_id == event_id {
                let ghost s0 = self.events@;
                proof {
                    assert(m0.events[i as int] == s0[i as int]@);
                    lemma_lookup_at(m0.events, m0.counter, event_id, i as int);
                }
                self.events.remove(i);
                proof {
                    let target = delete_model(m0, event_id).events;
                    assert(self.events@ == s0.remove(i as int));
                    assert(target == m0.events.remove(i as int));
                    assert(self@.events.len() == target.len());
                    assert forall|k: int|
                        0 <= k < target.len() implies self@.events[k] == target[k] by {
                        assert(self@.events[k] == self.events@[k]@);
                        if k < i as int {
                            assert(self.events@[k] == s0[k]);
                            assert(target[k] == m0.events[k]);
                            assert(m0.events[k] == s0[k]@);
                        } else {
                            assert(self.events@[k] == s0[k + 1]);
                            assert(target[k] == m0.events[k + 1]);
                            assert(m0.events[k + 1] == s0[k + 1]@);
                        }
                    }
                    assert(self@.events =~= target);
                    assert(self@ =~= delete_model(m0, event_id));
                }
                return ;
            }
            i += 1;
        }
        proof {
            assert forall|k: int|
                0 <= k < m0.events.len() implies #[trigger] m0.events[k].event_id != event_id by {
                assert(m0.events[k] == self.events@[k]@);
            }
            assert(!has_id(m0.events, event_id));
        }
    }

    /// All live records, in creation order (ascending ID). Deleted records
    /// are excluded and their positions are simply skipped, so the length is
    /// the number of records still present, not the counter.
    pub fn list_events(&self) -> (r: Vec<Event>)
        requires
            self.wf(),
        ensures
            models_of(r@) == self@.events,
    {
        let n = self.events.len();
        let mut out: Vec<Event> = Vec::new();
        let mut i: usize = 0;
        while i < n
            invariant
                n == self.events.len(),
                i <= n,
                out@.len() == i,
                forall|k: int| 0 <= k < i ==> #[trigger] out@[k] == self.events@[k],
            decreases n - i,
        {
            out.push(self.events[i].clone());
            i += 1;
        }
        proof {
            assert(models_of(out@) =~= self@.events);
        }
        out
    }

    /// The count of events ever created — not the count still present; the
    /// two diverge as soon as anything is deleted.
    pub fn get_event_count(&self) -> (r: u32)
        ensures
            r == self@.counter,
    {
        self.event_counter
    }

    /// Positional accessor: position `index` is a direct alias for ID
    /// `index + 1`, not an ordinal over the currently live records. Out of
    /// range (`index >= counter`) yields `None`; and so does an in-range
    /// position whose aliased ID was deleted, even while higher IDs are
    /// still present — positions are never re-compacted after a delete.
    pub fn get_event_by_index(&self, index: u32) -> (r: Option<Event>)
        requires
            self.wf(),
        ensures
            opt_model(r) == by_index_model(self@, index),
    {
        if index < self.event_counter {
            self.read_event(index + 1)
        } else {
            None
        }
    }
}

/// Strictly increasing adjacent IDs make the whole sequence strictly
/// increasing.
proof fn lemma_adjacent_increase_is_sorted(events: Seq<EventModel>)
    requires
        forall|k: int| 1 <= k < events.len() ==> events[k - 1].event_id < #[trigger] events[k].event_id,
    ensures
        forall|i: int, j: int| 0 <= i < j < events.len() ==> events[i].event_id < events[j].event_id,
{
    assert forall|i: int, j: int|
        0 <= i < j < events.len() implies events[i].event_id < events[j].event_id by {
        lemma_increase_between(events, i, j);
    }
}

proof fn lemma_increase_between(events: Seq<EventModel>, i: int, j: int)
    requires
        forall|k: int| 1 <= k < events.len() ==> events[k - 1].event_id < #[trigger] events[k].event_id,
        0 <= i < j < events.len(),
    ensures
        events[i].event_id < events[j].event_id,
    decreases j - i,
{
    if i + 1 < j {
        lemma_increase_between(events, i + 1, j);
    }
}

} // verus!
