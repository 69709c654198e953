use crabby::action::ActionType;
use crabby::entry::AuditEntry;
use crabby::error::StoreError;
use crabby::query::QueryFilter;
use crabby::store::DocumentStore;

fn entry(guild: &str, serial: u64, action: ActionType, user: &str) -> AuditEntry {
    AuditEntry {
        guild_id: String::from(guild),
        serial,
        action_type: action,
        subject_user: String::from(user),
        reason: String::from("reason"),
        responsible_moderator: String::from("mod#0002"),
        recorded_at: String::from("2024-05-01T12:00:00+00:00"),
    }
}

fn filter(guild: &str, user: &str, action: Option<ActionType>) -> QueryFilter {
    QueryFilter {
        guild_id: String::from(guild),
        subject_user: String::from(user),
        action_type: action,
    }
}

#[test]
fn store_is_scoped_to_its_collection() {
    let store = DocumentStore::new(String::from("ModOffenses"));
    assert_eq!(store.collection_name(), &String::from("ModOffenses"));
}

#[test]
fn insert_find_and_count_agree() {
    let mut store = DocumentStore::new(String::from("ModOffenses"));
    store.insert(entry("G", 1, ActionType::Warn, "U")).unwrap();
    store.insert(entry("G", 2, ActionType::Ban, "U")).unwrap();
    store.insert(entry("G", 3, ActionType::Warn, "V")).unwrap();

    let found = store.find(&filter("G", "U", None)).unwrap();
    assert_eq!(found.len(), 2);
    assert_eq!(found[0].serial, 1);
    assert_eq!(found[1].serial, 2);

    assert_eq!(store.count(&filter("G", "U", None)).unwrap(), 2);
    assert_eq!(store.count(&filter("G", "U", Some(ActionType::Warn))).unwrap(), 1);
    assert_eq!(store.count(&filter("G", "V", None)).unwrap(), 1);
    assert_eq!(store.count(&filter("H", "U", None)).unwrap(), 0);
}

#[test]
fn delete_one_removes_at_most_one() {
    let mut store = DocumentStore::new(String::from("ModOffenses"));
    store.insert(entry("G", 1, ActionType::Warn, "U")).unwrap();
    store.insert(entry("G", 2, ActionType::Ban, "U")).unwrap();

    assert_eq!(store.delete_one(2).unwrap(), 1);
    assert_eq!(store.delete_one(2).unwrap(), 0);
    assert_eq!(store.count(&filter("G", "U", None)).unwrap(), 1);
}

#[test]
fn fetch_and_increment_counts_per_guild() {
    let mut store = DocumentStore::new(String::from("ModOffenses"));
    let a = String::from("GuildA");
    let b = String::from("GuildB");
    assert_eq!(store.counter_value(&a), 0);
    assert_eq!(store.fetch_and_increment(&a).unwrap(), 1);
    assert_eq!(store.fetch_and_increment(&a).unwrap(), 2);
    assert_eq!(store.fetch_and_increment(&b).unwrap(), 1);
    assert_eq!(store.counter_value(&a), 2);
    assert_eq!(store.counter_value(&b), 1);
}

#[test]
fn every_operation_can_fail() {
    let mut store = DocumentStore::new(String::from("ModOffenses"));
    store.schedule_fault(0, StoreError::ConnectionLost);
    assert_eq!(
        store.insert(entry("G", 1, ActionType::Warn, "U")),
        Err(StoreError::ConnectionLost)
    );
    store.schedule_fault(0, StoreError::Timeout);
    assert_eq!(store.find(&filter("G", "U", None)).unwrap_err(), StoreError::Timeout);
    store.schedule_fault(0, StoreError::Serialization);
    assert_eq!(store.count(&filter("G", "U", None)), Err(StoreError::Serialization));
    store.schedule_fault(0, StoreError::Timeout);
    assert_eq!(store.delete_one(1), Err(StoreError::Timeout));
    store.schedule_fault(0, StoreError::ConnectionLost);
    assert_eq!(store.fetch_and_increment(&String::from("G")), Err(StoreError::ConnectionLost));
    // Each scheduled fault was consumed by its failing operation.
    assert_eq!(store.fetch_and_increment(&String::from("G")).unwrap(), 1);
}

#[test]
fn scheduled_fault_hits_the_chosen_operation() {
    let mut store = DocumentStore::new(String::from("ModOffenses"));
    store.schedule_fault(2, StoreError::Timeout);
    assert!(store.insert(entry("G", 1, ActionType::Warn, "U")).is_ok());
    assert!(store.insert(entry("G", 2, ActionType::Warn, "U")).is_ok());
    assert_eq!(
        store.insert(entry("G", 3, ActionType::Warn, "U")),
        Err(StoreError::Timeout)
    );
    assert_eq!(store.count(&filter("G", "U", None)).unwrap(), 2);
}
