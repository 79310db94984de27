use event_registry::event::{Event, Status};
use event_registry::registry::EventsContract;

fn event(
    event_id: u32,
    name: &str,
    description: &str,
    start_date: u64,
    end_date: u64,
    status: Status,
) -> Event {
    Event {
        event_id,
        name: String::from(name),
        description: String::from(description),
        start_date,
        end_date,
        status,
    }
}

#[test]
fn test_create_event() {
    let mut registry = EventsContract::new();

    let event_id = registry.create_event(
        String::from("Event1"),
        String::from("Description1"),
        123456u64,
        789012u64,
    );
    assert_eq!(event_id, 1);
}

#[test]
fn test_read_event() {
    let mut registry = EventsContract::new();

    registry.create_event(
        String::from("Event1"),
        String::from("Description1"),
        123456u64,
        789012u64,
    );

    let read = registry.read_event(1u32);
    assert_eq!(
        read,
        Some(event(1, "Event1", "Description1", 123456, 789012, Status::Active))
    );
}

#[test]
fn test_update_event() {
    let mut registry = EventsContract::new();

    registry.create_event(
        String::from("Event1"),
        String::from("Description1"),
        123456u64,
        789012u64,
    );

    registry.update_event(
        1u32,
        String::from("UpdatedEvent"),
        String::from("UpdatedDesc"),
        654321u64,
        210987u64,
        Status::Completed,
    );

    let updated = registry.read_event(1u32);
    assert_eq!(
        updated,
        Some(event(1, "UpdatedEvent", "UpdatedDesc", 654321, 210987, Status::Completed))
    );
}

#[test]
fn test_delete_event() {
    let mut registry = EventsContract::new();

    registry.create_event(
        String::from("Event1"),
        String::from("Description1"),
        123456u64,
        789012u64,
    );
    registry.delete_event(1u32);

    let read = registry.read_event(1u32);
    assert_eq!(read, None);
}

#[test]
fn test_list_events() {
    let mut registry = EventsContract::new();

    registry.create_event(
        String::from("Event1"),
        String::from("Description1"),
        123456u64,
        789012u64,
    );
    registry.create_event(
        String::from("Event2"),
        String::from("Description2"),
        234567u64,
        890123u64,
    );

    let events = registry.list_events();
    assert_eq!(events.len(), 2);
}

#[test]
fn test_get_event_count() {
    let mut registry = EventsContract::new();

    registry.create_event(
        String::from("Event1"),
        String::from("Description1"),
        123456u64,
        789012u64,
    );
    registry.create_event(
        String::from("Event2"),
        String::from("Description2"),
        234567u64,
        890123u64,
    );

    let event_count = registry.get_event_count();
    assert_eq!(event_count, 2);
}

#[test]
fn test_get_event_by_index() {
    let mut registry = EventsContract::new();

    registry.create_event(
        String::from("Event1"),
        String::from("Description1"),
        123456u64,
        789012u64,
    );
    registry.create_event(
        String::from("Event2"),
        String::from("Description2"),
        234567u64,
        890123u64,
    );

    let by_index = registry.get_event_by_index(1u32);
    assert_eq!(
        by_index,
        Some(event(2, "Event2", "Description2", 234567, 890123, Status::Active))
    );
}

#[test]
fn sequential_ids_for_consecutive_creates() {
    let mut registry = EventsContract::new();
    for expected in 1u32..=5u32 {
        let id = registry.create_event(
            String::from("Name"),
            String::from("Desc"),
            expected as u64,
            expected as u64 + 1,
        );
        assert_eq!(id, expected);
    }
    assert_eq!(registry.get_event_count(), 5);
}

#[test]
fn update_of_nonexistent_id_is_a_noop() {
    let mut registry = EventsContract::new();
    registry.create_event(String::from("Event1"), String::from("Description1"), 1u64, 2u64);

    let listed_before = registry.list_events();
    registry.update_event(
        42u32,
        String::from("Ghostly"),
        String::from("Nothing"),
        9u64,
        10u64,
        Status::Completed,
    );

    assert_eq!(registry.get_event_count(), 1);
    assert_eq!(registry.list_events(), listed_before);
    assert_eq!(
        registry.read_event(42u32),
        None,
        "update must never upsert a missing record"
    );
}

#[test]
fn delete_of_nonexistent_id_is_a_noop() {
    let mut registry = EventsContract::new();
    registry.create_event(String::from("Event1"), String::from("Description1"), 1u64, 2u64);

    registry.delete_event(7u32);

    assert_eq!(registry.get_event_count(), 1);
    assert_eq!(registry.list_events().len(), 1);
}

#[test]
fn count_and_live_size_diverge_after_delete() {
    let mut registry = EventsContract::new();
    registry.create_event(String::from("A"), String::from("a"), 1u64, 2u64);
    registry.create_event(String::from("B"), String::from("b"), 3u64, 4u64);
    registry.create_event(String::from("C"), String::from("c"), 5u64, 6u64);

    registry.delete_event(2u32);

    assert_eq!(registry.get_event_count(), 3);
    assert_eq!(registry.list_events().len(), 2);
    assert_eq!(registry.read_event(2u32), None);
    assert_eq!(
        registry.read_event(3u32),
        Some(event(3, "C", "c", 5, 6, Status::Active))
    );
}

#[test]
fn index_is_an_alias_for_id_minus_one() {
    let mut registry = EventsContract::new();
    registry.create_event(String::from("A"), String::from("a"), 1u64, 2u64);
    registry.create_event(String::from("B"), String::from("b"), 3u64, 4u64);

    assert_eq!(registry.get_event_by_index(0u32), registry.read_event(1u32));
    assert_eq!(registry.get_event_by_index(1u32), registry.read_event(2u32));
    assert_eq!(registry.get_event_by_index(2u32), None);

    registry.delete_event(1u32);
    assert_eq!(
        registry.get_event_by_index(0u32),
        None,
        "positions are not re-compacted after a delete"
    );
    assert_eq!(
        registry.get_event_by_index(1u32),
        Some(event(2, "B", "b", 3, 4, Status::Active))
    );
}

#[test]
fn deleted_ids_are_never_reissued() {
    let mut registry = EventsContract::new();
    registry.create_event(String::from("A"), String::from("a"), 1u64, 2u64);
    registry.delete_event(1u32);

    let id = registry.create_event(String::from("B"), String::from("b"), 3u64, 4u64);
    assert_eq!(id, 2, "the retired ID 1 must not come back");
    assert_eq!(registry.read_event(1u32), None);
    assert_eq!(
        registry.read_event(2u32),
        Some(event(2, "B", "b", 3, 4, Status::Active))
    );
}

#[test]
fn full_lifecycle_scenario() {
    let mut registry = EventsContract::new();

    let id = registry.create_event(
        String::from("Event1"),
        String::from("Description1"),
        123456u64,
        789012u64,
    );
    assert_eq!(id, 1);
    assert_eq!(
        registry.read_event(1u32),
        Some(event(1, "Event1", "Description1", 123456, 789012, Status::Active))
    );

    registry.update_event(
        1u32,
        String::from("UpdatedEvent"),
        String::from("UpdatedDesc"),
        654321u64,
        210987u64,
        Status::Completed,
    );
    assert_eq!(
        registry.read_event(1u32),
        Some(event(1, "UpdatedEvent", "UpdatedDesc", 654321, 210987, Status::Completed))
    );

    registry.delete_event(1u32);
    assert_eq!(registry.read_event(1u32), None);
}

#[test]
fn empty_registry_has_permissive_defaults() {
    let registry = EventsContract::new();
    assert_eq!(registry.get_event_count(), 0);
    assert_eq!(registry.read_event(1u32), None);
    assert_eq!(registry.get_event_by_index(0u32), None);
    assert!(registry.list_events().is_empty());
    assert!(registry.is_well_formed());
}

#[test]
fn list_preserves_creation_order() {
    let mut registry = EventsContract::new();
    registry.create_event(String::from("A"), String::from("a"), 1u64, 2u64);
    registry.create_event(String::from("B"), String::from("b"), 3u64, 4u64);
    registry.create_event(String::from("C"), String::from("c"), 5u64, 6u64);

    let ids: Vec<u32> = registry.list_events().iter().map(|e| e.event_id).collect();
    assert_eq!(ids, vec![1, 2, 3]);
}

#[test]
fn from_persisted_defaults_missing_entries() {
    let registry = EventsContract::from_persisted(None, None);
    assert_eq!(registry.get_event_count(), 0);
    assert!(registry.list_events().is_empty());
    assert!(registry.is_well_formed());
}

#[test]
fn from_persisted_restores_state() {
    let stored = vec![
        event(1, "A", "a", 1, 2, Status::Active),
        event(3, "C", "c", 5, 6, Status::Completed),
    ];
    let registry = EventsContract::from_persisted(Some(3), Some(stored));
    assert!(registry.is_well_formed());
    assert_eq!(registry.get_event_count(), 3);
    assert_eq!(registry.read_event(1u32), Some(event(1, "A", "a", 1, 2, Status::Active)));
    assert_eq!(registry.read_event(2u32), None);
    assert_eq!(registry.read_event(3u32), Some(event(3, "C", "c", 5, 6, Status::Completed)));
}

#[test]
fn from_persisted_detects_ill_formed_state() {
    let zero_id = EventsContract::from_persisted(
        Some(1),
        Some(vec![event(0, "A", "a", 1, 2, Status::Active)]),
    );
    assert!(!zero_id.is_well_formed());

    let beyond_counter = EventsContract::from_persisted(
        Some(1),
        Some(vec![event(2, "A", "a", 1, 2, Status::Active)]),
    );
    assert!(!beyond_counter.is_well_formed());

    let out_of_order = EventsContract::from_persisted(
        Some(2),
        Some(vec![
            event(2, "B", "b", 3, 4, Status::Active),
            event(1, "A", "a", 1, 2, Status::Active),
        ]),
    );
    assert!(!out_of_order.is_well_formed());

    let duplicate = EventsContract::from_persisted(
        Some(2),
        Some(vec![
            event(1, "A", "a", 1, 2, Status::Active),
            event(1, "A", "a", 1, 2, Status::Active),
        ]),
    );
    assert!(!duplicate.is_well_formed());
}
