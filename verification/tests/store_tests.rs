use control_cards::database::{pending_migrations, Database};
use control_cards::errors::ErrorKind;

fn connected() -> Database {
    let mut db = Database::new();
    db.connect("cards.db").unwrap();
    db
}

#[test]
fn fresh_connection_has_both_tables_empty() {
    let mut db = Database::new();
    assert!(!db.is_connected());
    db.connect("cards.db").unwrap();
    assert!(db.is_connected());
    assert_eq!(db.get_path().map(|p| p.as_str()), Some("cards.db"));
    assert_eq!(db.get_all_users().unwrap().len(), 0);
    assert_eq!(db.get_all_control_cards().unwrap().len(), 0);
    assert!(!db.has_any_users().unwrap());
}

#[test]
fn reconnecting_tears_down_the_old_connection() {
    let mut db = connected();
    db.create_user("ada", "h", "admin", "2024-01-01 00:00:00").unwrap();
    db.connect("other.db").unwrap();
    assert_eq!(db.get_path().map(|p| p.as_str()), Some("other.db"));
    assert_eq!(db.get_all_users().unwrap().len(), 0);
}

#[test]
fn disconnect_clears_state_and_is_idempotent() {
    let mut db = connected();
    db.disconnect();
    assert!(!db.is_connected());
    assert!(db.get_path().is_none());
    db.disconnect();
    assert!(!db.is_connected());
}

#[test]
fn operations_fail_fast_when_disconnected() {
    let mut db = Database::new();
    assert_eq!(db.get_next_card_number(2024).unwrap_err().kind, ErrorKind::StoreUnavailable);
    assert_eq!(db.get_all_users().unwrap_err().kind, ErrorKind::StoreUnavailable);
    assert_eq!(
        db.create_user("ada", "h", "admin", "t").unwrap_err().kind,
        ErrorKind::StoreUnavailable
    );
    assert_eq!(db.delete_control_card(1).unwrap_err().kind, ErrorKind::StoreUnavailable);
}

#[test]
fn usernames_are_unique() {
    let mut db = connected();
    db.create_user("ada", "h1", "admin", "t1").unwrap();
    let err = db.create_user("ada", "h2", "user", "t2").unwrap_err();
    assert_eq!(err.kind, ErrorKind::Conflict);
}

#[test]
fn roles_outside_the_three_values_are_rejected_by_the_store() {
    let mut db = connected();
    let err = db.create_user("ada", "h", "superuser", "t").unwrap_err();
    assert_eq!(err.kind, ErrorKind::Validation);
}

#[test]
fn account_ids_are_assigned_sequentially_and_never_reused() {
    let mut db = connected();
    assert_eq!(db.create_user("a", "h", "admin", "t").unwrap(), 1);
    assert_eq!(db.create_user("b", "h", "user", "t").unwrap(), 2);
    db.delete_user(2).unwrap();
    assert_eq!(db.create_user("c", "h", "user", "t").unwrap(), 3);
}

#[test]
fn accounts_list_newest_first() {
    let mut db = connected();
    db.create_user("a", "h", "admin", "t1").unwrap();
    db.create_user("b", "h", "user", "t2").unwrap();
    db.create_user("c", "h", "controller", "t3").unwrap();
    let all = db.get_all_users().unwrap();
    let names: Vec<&str> = all.iter().map(|u| u.username.as_str()).collect();
    assert_eq!(names, vec!["c", "b", "a"]);
}

#[test]
fn lookup_by_username_and_id_agree() {
    let mut db = connected();
    let id = db.create_user("ada", "h", "user", "t").unwrap();
    let by_name = db.get_user_by_username("ada").unwrap().unwrap();
    let by_id = db.get_user_by_id(id).unwrap().unwrap();
    assert_eq!(by_name.id, id);
    assert_eq!(by_id.username, "ada");
    assert!(db.get_user_by_username("eda").unwrap().is_none());
    assert!(db.get_user_by_id(999).unwrap().is_none());
}

#[test]
fn update_user_reports_affected_rows() {
    let mut db = connected();
    let id = db.create_user("ada", "h", "user", "t").unwrap();
    assert_eq!(db.update_user(id, "ada2", "controller").unwrap(), 1);
    let u = db.get_user_by_id(id).unwrap().unwrap();
    assert_eq!(u.username, "ada2");
    assert_eq!(u.role, "controller");
    assert_eq!(db.update_user(999, "x", "user").unwrap(), 0);
}

#[test]
fn update_user_password_keeps_the_other_fields() {
    let mut db = connected();
    let id = db.create_user("ada", "h1", "user", "t").unwrap();
    assert_eq!(db.update_user_password(id, "h2").unwrap(), 1);
    let u = db.get_user_by_id(id).unwrap().unwrap();
    assert_eq!(u.password_hash, "h2");
    assert_eq!(u.username, "ada");
    assert_eq!(db.update_user_password(999, "h3").unwrap(), 0);
}

#[test]
fn next_card_number_starts_at_one_per_year() {
    let mut db = connected();
    assert_eq!(db.get_next_card_number(2024).unwrap(), 1);
    db.create_control_card(
        1, 2024, "ada", "rep", "sum", "doc", None, None, None, None, None, None, None, None,
        None, None, "t",
    )
    .unwrap();
    assert_eq!(db.get_next_card_number(2024).unwrap(), 2);
    assert_eq!(db.get_next_card_number(2025).unwrap(), 1);
}

#[test]
fn next_card_number_is_one_more_than_the_maximum() {
    let mut db = connected();
    for n in [3, 1, 7] {
        db.create_control_card(
            n, 2024, "ada", "rep", "sum", "doc", None, None, None, None, None, None, None,
            None, None, None, "t",
        )
        .unwrap();
    }
    assert_eq!(db.get_next_card_number(2024).unwrap(), 8);
}

#[test]
fn year_and_number_pair_is_unique() {
    let mut db = connected();
    db.create_control_card(
        1, 2024, "ada", "rep", "sum", "doc", None, None, None, None, None, None, None, None,
        None, None, "t",
    )
    .unwrap();
    let err = db
        .create_control_card(
            1, 2024, "eda", "rep2", "sum2", "doc2", None, None, None, None, None, None, None,
            None, None, None, "t",
        )
        .unwrap_err();
    assert_eq!(err.kind, ErrorKind::Conflict);
    // The same number under another year is fine.
    db.create_control_card(
        1, 2025, "ada", "rep", "sum", "doc", None, None, None, None, None, None, None, None,
        None, None, "t",
    )
    .unwrap();
}

#[test]
fn cards_list_descending_by_year_then_number() {
    let mut db = connected();
    for (n, y) in [(1, 2024), (2, 2024), (1, 2025), (5, 2023)] {
        db.create_control_card(
            n, y, "ada", "rep", "sum", "doc", None, None, None, None, None, None, None, None,
            None, None, "t",
        )
        .unwrap();
    }
    let keys: Vec<(i32, i32)> = db
        .get_all_control_cards()
        .unwrap()
        .iter()
        .map(|c| (c.year, c.card_number))
        .collect();
    assert_eq!(keys, vec![(2025, 1), (2024, 2), (2024, 1), (2023, 5)]);
}

#[test]
fn get_card_reports_not_found_for_a_missing_id() {
    let mut db = connected();
    let err = db.get_control_card(12).unwrap_err();
    assert_eq!(err.kind, ErrorKind::NotFound);
    let id = db
        .create_control_card(
            1, 2024, "ada", "rep", "sum", "doc", None, Some(3), None, None, None, None, None,
            None, None, None, "2024-05-05 10:00:00",
        )
        .unwrap();
    let card = db.get_control_card(id).unwrap();
    assert_eq!(card.executor, "ada");
    assert_eq!(card.executor_user_id, Some(3));
    assert_eq!(card.created_at, "2024-05-05 10:00:00");
}

#[test]
fn update_card_keeps_id_and_creation_time() {
    let mut db = connected();
    let id = db
        .create_control_card(
            1, 2024, "ada", "rep", "sum", "doc", None, None, None, None, None, None, None,
            None, None, None, "2024-05-05 10:00:00",
        )
        .unwrap();
    let n = db
        .update_control_card(
            id, 2, 2025, "eda", "rep2", "sum2", "doc2", None, Some(9), Some("desk"), None,
            None, None, Some("done"), None, None, None,
        )
        .unwrap();
    assert_eq!(n, 1);
    let card = db.get_control_card(id).unwrap();
    assert_eq!(card.card_number, 2);
    assert_eq!(card.year, 2025);
    assert_eq!(card.executor, "eda");
    assert_eq!(card.created_at, "2024-05-05 10:00:00");
    assert_eq!(card.return_to.as_deref(), Some("desk"));
    assert_eq!(card.resolution.as_deref(), Some("done"));
    let err = db
        .update_control_card(
            999, 3, 2025, "x", "r", "s", "d", None, None, None, None, None, None, None, None,
            None, None,
        )
        .unwrap_err();
    assert_eq!(err.kind, ErrorKind::NotFound);
}

#[test]
fn update_card_rejects_a_taken_pair_but_allows_its_own() {
    let mut db = connected();
    let first = db
        .create_control_card(
            1, 2024, "ada", "rep", "sum", "doc", None, None, None, None, None, None, None,
            None, None, None, "t",
        )
        .unwrap();
    db.create_control_card(
        2, 2024, "ada", "rep", "sum", "doc", None, None, None, None, None, None, None, None,
        None, None, "t",
    )
    .unwrap();
    let err = db
        .update_control_card(
            first, 2, 2024, "ada", "rep", "sum", "doc", None, None, None, None, None, None,
            None, None, None, None,
        )
        .unwrap_err();
    assert_eq!(err.kind, ErrorKind::Conflict);
    // Re-writing a card under its own unchanged pair is no conflict.
    assert_eq!(
        db.update_control_card(
            first, 1, 2024, "ada", "rep3", "sum3", "doc3", None, None, None, None, None, None,
            None, None, None, None,
        )
        .unwrap(),
        1
    );
}

#[test]
fn delete_card_counts_affected_rows() {
    let mut db = connected();
    let id = db
        .create_control_card(
            1, 2024, "ada", "rep", "sum", "doc", None, None, None, None, None, None, None,
            None, None, None, "t",
        )
        .unwrap();
    assert_eq!(db.delete_control_card(id).unwrap(), 1);
    assert_eq!(db.delete_control_card(id).unwrap(), 0);
    assert_eq!(db.get_control_card(id).unwrap_err().kind, ErrorKind::NotFound);
}

#[test]
fn restore_rebuilds_accounts_under_their_persisted_ids() {
    let mut db = connected();
    db.restore_user(1, "root", "h1", "admin", "t1").unwrap();
    // Account 2 was deleted in a past session: the gap is kept.
    db.restore_user(3, "ada", "h3", "user", "t3").unwrap();
    assert_eq!(db.get_user_by_id(3).unwrap().unwrap().username, "ada");
    assert!(db.get_user_by_id(2).unwrap().is_none());
    // New accounts continue past the highest restored id.
    assert_eq!(db.create_user("eda", "h", "user", "t").unwrap(), 4);
}

#[test]
fn restore_rejects_reused_ids_and_bad_rows() {
    let mut db = connected();
    db.restore_user(5, "root", "h", "admin", "t").unwrap();
    let err = db.restore_user(5, "ada", "h", "user", "t").unwrap_err();
    assert_eq!(err.kind, ErrorKind::Conflict);
    let err = db.restore_user(2, "ada", "h", "user", "t").unwrap_err();
    assert_eq!(err.kind, ErrorKind::Conflict);
    let err = db.restore_user(6, "root", "h", "user", "t").unwrap_err();
    assert_eq!(err.kind, ErrorKind::Conflict);
    let err = db.restore_user(6, "ada", "h", "boss", "t").unwrap_err();
    assert_eq!(err.kind, ErrorKind::Validation);
    let mut fresh = Database::new();
    let err = fresh.restore_user(1, "root", "h", "admin", "t").unwrap_err();
    assert_eq!(err.kind, ErrorKind::StoreUnavailable);
}

#[test]
fn restore_rebuilds_cards_with_gaps_and_order() {
    let mut db = connected();
    db.restore_control_card(
        2, 1, 2024, "ada", "rep", "sum", "doc", Some(1), Some(3), None, None, None, None,
        None, None, None, None, "t1",
    )
    .unwrap();
    db.restore_control_card(
        7, 1, 2025, "eda", "rep", "sum", "doc", None, None, None, None, None, None, None,
        None, None, None, "t2",
    )
    .unwrap();
    let keys: Vec<(i32, i32)> = db
        .get_all_control_cards()
        .unwrap()
        .iter()
        .map(|c| (c.year, c.card_number))
        .collect();
    assert_eq!(keys, vec![(2025, 1), (2024, 1)]);
    let restored = db.get_control_card(2).unwrap();
    assert_eq!(restored.executor_user_id, Some(3));
    assert_eq!(restored.created_at, "t1");
    // A reused (year, card_number) pair is still a conflict.
    let err = db
        .restore_control_card(
            8, 1, 2024, "x", "r", "s", "d", None, None, None, None, None, None, None, None,
            None, None, "t3",
        )
        .unwrap_err();
    assert_eq!(err.kind, ErrorKind::Conflict);
    // Ids must keep ascending.
    let err = db
        .restore_control_card(
            3, 2, 2024, "x", "r", "s", "d", None, None, None, None, None, None, None, None,
            None, None, "t3",
        )
        .unwrap_err();
    assert_eq!(err.kind, ErrorKind::Conflict);
    // New cards continue past the highest restored id.
    let id = db
        .create_control_card(
            5, 2024, "ada", "rep", "sum", "doc", None, None, None, None, None, None, None,
            None, None, None, "t4",
        )
        .unwrap();
    assert_eq!(id, 8);
}

#[test]
fn migrations_are_skipped_for_a_fresh_table() {
    let existing: Vec<String> = Vec::new();
    let pending = pending_migrations(false, &existing);
    assert_eq!(pending.len(), 0);
}

#[test]
fn migrations_add_only_the_missing_columns() {
    let existing: Vec<String> = vec![
        "id".to_string(),
        "card_number".to_string(),
        "user_id".to_string(),
        "return_to".to_string(),
    ];
    let pending = pending_migrations(true, &existing);
    let names: Vec<&str> = pending.iter().map(|c| c.name.as_str()).collect();
    assert_eq!(
        names,
        vec![
            "executor_user_id",
            "execution_deadline",
            "execution_period_type",
            "extended_deadline",
            "resolution",
            "department",
            "controller",
            "controller_user_id",
        ]
    );
    assert_eq!(pending[0].column_type, "INTEGER");
    assert_eq!(pending[1].column_type, "TEXT");
}

#[test]
fn migrations_on_an_old_table_cover_every_declared_column() {
    let existing: Vec<String> = vec![
        "id".to_string(),
        "card_number".to_string(),
        "year".to_string(),
        "executor".to_string(),
    ];
    let pending = pending_migrations(true, &existing);
    assert_eq!(pending.len(), 10);
    assert_eq!(pending[0].name, "user_id");
    assert_eq!(pending[9].name, "controller_user_id");
}
