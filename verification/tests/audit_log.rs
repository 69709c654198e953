use crabby::action::ActionType;
use crabby::error::{AuditError, RemovalOutcome, StoreError};
use crabby::service::AuditLog;

fn fresh_log() -> AuditLog {
    AuditLog::new(String::from("ModOffenses"))
}

fn record_simple(log: &mut AuditLog, guild: &str, action: ActionType, user: &str, reason: &str) -> Result<crabby::entry::AuditEntry, AuditError> {
    log.record(
        String::from(guild),
        action,
        String::from(user),
        String::from(reason),
        String::from("mod#0002"),
        String::from("2024-05-01T12:00:00+00:00"),
    )
}

#[test]
fn serials_unique_for_many_records() {
    let mut log = fresh_log();
    let mut serials: Vec<u64> = Vec::new();
    for k in 0..100u64 {
        let entry = record_simple(&mut log, "G1", ActionType::Warn, "user#1", "stress")
            .expect("record must succeed");
        assert_eq!(entry.serial, k + 1);
        serials.push(entry.serial);
    }
    for a in 0..serials.len() {
        for b in 0..serials.len() {
            if a != b {
                assert_ne!(serials[a], serials[b]);
            }
        }
    }
}

#[test]
fn two_guilds_independently_reach_serial_one() {
    let mut log = fresh_log();
    let a = record_simple(&mut log, "GuildA", ActionType::Kick, "u#1", "r").unwrap();
    let b = record_simple(&mut log, "GuildB", ActionType::Ban, "u#2", "r").unwrap();
    assert_eq!(a.serial, 1);
    assert_eq!(b.serial, 1);
    let a2 = record_simple(&mut log, "GuildA", ActionType::Warn, "u#3", "r").unwrap();
    assert_eq!(a2.serial, 2);
    assert_eq!(log.current_counter(&String::from("GuildA")), 2);
    assert_eq!(log.current_counter(&String::from("GuildB")), 1);
}

#[test]
fn filter_correctness() {
    let mut log = fresh_log();
    record_simple(&mut log, "G", ActionType::Warn, "U", "first").unwrap();
    record_simple(&mut log, "G", ActionType::Warn, "U", "second").unwrap();
    record_simple(&mut log, "G", ActionType::Ban, "U", "third").unwrap();

    let warns = log
        .list_offenses(&String::from("G"), &String::from("U"), Some(ActionType::Warn))
        .unwrap();
    assert_eq!(warns.len(), 2);
    assert_eq!(warns[0].serial, 1);
    assert_eq!(warns[0].reason, String::from("first"));
    assert_eq!(warns[1].serial, 2);
    assert_eq!(warns[1].reason, String::from("second"));
    assert_eq!(warns[0].action_type, ActionType::Warn);
    assert_eq!(warns[1].action_type, ActionType::Warn);

    let all = log.list_offenses(&String::from("G"), &String::from("U"), None).unwrap();
    assert_eq!(all.len(), 3);
    assert_eq!(all[0].serial, 1);
    assert_eq!(all[1].serial, 2);
    assert_eq!(all[2].serial, 3);
    assert_eq!(all[2].action_type, ActionType::Ban);

    let unrelated = log.list_offenses(&String::from("G"), &String::from("V"), None).unwrap();
    assert!(unrelated.is_empty());
}

#[test]
fn removal_idempotence() {
    let mut log = fresh_log();
    record_simple(&mut log, "G", ActionType::Warn, "U", "a").unwrap();
    record_simple(&mut log, "G", ActionType::Kick, "U", "b").unwrap();
    record_simple(&mut log, "G", ActionType::Ban, "U", "c").unwrap();

    assert_eq!(log.remove_by_serial(2).unwrap(), RemovalOutcome::Removed);
    assert_eq!(log.remove_by_serial(2).unwrap(), RemovalOutcome::NotFound);

    let rest = log.list_offenses(&String::from("G"), &String::from("U"), None).unwrap();
    assert_eq!(rest.len(), 2);
    assert_eq!(rest[0].serial, 1);
    assert_eq!(rest[1].serial, 3);
}

#[test]
fn no_partial_state_on_failure() {
    let mut log = fresh_log();
    record_simple(&mut log, "G", ActionType::Warn, "U", "kept").unwrap();

    // The next record performs two store operations: the allocation, then
    // the insert. Fail the second, so serial 2 is consumed but not written.
    log.schedule_store_fault(1, StoreError::Timeout);
    let failed = record_simple(&mut log, "G", ActionType::Ban, "U", "lost");
    assert_eq!(failed, Err(AuditError::PersistenceFailed(StoreError::Timeout)));

    let visible = log.list_offenses(&String::from("G"), &String::from("U"), None).unwrap();
    assert_eq!(visible.len(), 1);
    assert_eq!(visible[0].serial, 1);

    // The burned serial is skipped, never reassigned.
    let next = record_simple(&mut log, "G", ActionType::Ban, "U", "after").unwrap();
    assert_eq!(next.serial, 3);
    let visible = log.list_offenses(&String::from("G"), &String::from("U"), None).unwrap();
    assert_eq!(visible.len(), 2);
    assert_eq!(visible[0].serial, 1);
    assert_eq!(visible[1].serial, 3);
}

#[test]
fn allocation_failure_changes_nothing() {
    let mut log = fresh_log();
    record_simple(&mut log, "G", ActionType::Warn, "U", "kept").unwrap();

    // Fail the very next store operation: the allocation itself. No serial
    // is consumed.
    log.schedule_store_fault(0, StoreError::ConnectionLost);
    let failed = record_simple(&mut log, "G", ActionType::Ban, "U", "lost");
    assert_eq!(failed, Err(AuditError::PersistenceFailed(StoreError::ConnectionLost)));

    let next = record_simple(&mut log, "G", ActionType::Ban, "U", "after").unwrap();
    assert_eq!(next.serial, 2);
}

#[test]
fn end_to_end_scenario() {
    let mut log = fresh_log();
    let first = log
        .record(
            String::from("G1"),
            ActionType::Warn,
            String::from("alice#0001"),
            String::from("spam"),
            String::from("mod#0002"),
            String::from("2024-05-01T12:00:00+00:00"),
        )
        .unwrap();
    assert_eq!(first.serial, 1);
    assert_eq!(first.action_type, ActionType::Warn);
    assert_eq!(first.guild_id, String::from("G1"));
    assert_eq!(first.subject_user, String::from("alice#0001"));
    assert_eq!(first.reason, String::from("spam"));
    assert_eq!(first.responsible_moderator, String::from("mod#0002"));

    let second = log
        .record(
            String::from("G1"),
            ActionType::Ban,
            String::from("alice#0001"),
            String::from("kept spamming"),
            String::from("mod#0002"),
            String::from("2024-05-01T12:05:00+00:00"),
        )
        .unwrap();
    assert_eq!(second.serial, 2);

    let both = log
        .list_offenses(&String::from("G1"), &String::from("alice#0001"), None)
        .unwrap();
    assert_eq!(both.len(), 2);
    assert_eq!(both[0].serial, 1);
    assert_eq!(both[0].action_type, ActionType::Warn);
    assert_eq!(both[1].serial, 2);
    assert_eq!(both[1].action_type, ActionType::Ban);

    assert_eq!(log.remove_by_serial_str("1").unwrap(), RemovalOutcome::Removed);

    let left = log
        .list_offenses(&String::from("G1"), &String::from("alice#0001"), None)
        .unwrap();
    assert_eq!(left.len(), 1);
    assert_eq!(left[0].serial, 2);
    assert_eq!(left[0].action_type, ActionType::Ban);
}

#[test]
fn record_keeps_given_timestamp() {
    let mut log = fresh_log();
    let entry = record_simple(&mut log, "G", ActionType::Unban, "U", "served time").unwrap();
    assert_eq!(entry.recorded_at, String::from("2024-05-01T12:00:00+00:00"));
}

#[test]
fn record_now_stamps_and_allocates() {
    let mut log = fresh_log();
    let entry = log
        .record_now(
            String::from("G"),
            ActionType::Warn,
            String::from("U"),
            String::from("r"),
            String::from("mod#1"),
        )
        .unwrap();
    assert_eq!(entry.serial, 1);
    assert_eq!(entry.action_type, ActionType::Warn);
}

#[test]
fn remove_by_serial_str_rejects_noncanonical() {
    let mut log = fresh_log();
    record_simple(&mut log, "G", ActionType::Warn, "U", "r").unwrap();
    assert_eq!(log.remove_by_serial_str("01").unwrap(), RemovalOutcome::NotFound);
    assert_eq!(log.remove_by_serial_str("").unwrap(), RemovalOutcome::NotFound);
    assert_eq!(log.remove_by_serial_str("one").unwrap(), RemovalOutcome::NotFound);
    assert_eq!(log.remove_by_serial_str("1").unwrap(), RemovalOutcome::Removed);
}

#[test]
fn query_failure_is_surfaced() {
    let mut log = fresh_log();
    record_simple(&mut log, "G", ActionType::Warn, "U", "r").unwrap();
    log.schedule_store_fault(0, StoreError::Serialization);
    let res = log.list_offenses(&String::from("G"), &String::from("U"), None);
    assert_eq!(res, Err(AuditError::PersistenceFailed(StoreError::Serialization)));
    // The failure consumed the scheduled fault; the next query succeeds.
    let ok = log.list_offenses(&String::from("G"), &String::from("U"), None).unwrap();
    assert_eq!(ok.len(), 1);
}

#[test]
fn removal_failure_is_surfaced() {
    let mut log = fresh_log();
    record_simple(&mut log, "G", ActionType::Warn, "U", "r").unwrap();
    log.schedule_store_fault(0, StoreError::Timeout);
    let res = log.remove_by_serial(1);
    assert_eq!(res, Err(AuditError::PersistenceFailed(StoreError::Timeout)));
    assert_eq!(log.remove_by_serial(1).unwrap(), RemovalOutcome::Removed);
}

#[test]
fn audit_error_describes_itself() {
    let err = AuditError::PersistenceFailed(StoreError::Timeout);
    assert_eq!(err.describe(), "the audit store rejected the operation");
}
