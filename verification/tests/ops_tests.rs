use control_cards::database::Database;
use control_cards::errors::ErrorKind;
use control_cards::ops;

fn connected() -> Database {
    let mut db = Database::new();
    ops::connect_database(&mut db, "cards.db").unwrap();
    db
}

/// A store with one admin ("root" / "secret123"), returning the store
/// and the admin's token.
fn with_admin() -> (Database, String) {
    let mut db = connected();
    ops::init_admin(&mut db, "root", "secret123").unwrap();
    let token = ops::login(&db, "root", "secret123").unwrap();
    (db, token)
}

fn new_card(
    db: &mut Database,
    number: i32,
    year: i32,
    executor_id: i64,
    token: &str,
) -> Result<i64, control_cards::errors::AppError> {
    ops::create_control_card(
        db, number, year, executor_id, "rep", "sum", "doc", None, None, None, None, None,
        None, None, None, token,
    )
}

#[test]
fn bootstrap_succeeds_exactly_once() {
    let mut db = connected();
    let id = ops::init_admin(&mut db, "root", "secret123").unwrap();
    assert_eq!(id, 1);
    // A second call fails with a conflict whatever the arguments.
    let err = ops::init_admin(&mut db, "other", "differentpw9").unwrap_err();
    assert_eq!(err.kind, ErrorKind::Conflict);
    let err = ops::init_admin(&mut db, "root", "x").unwrap_err();
    assert_eq!(err.kind, ErrorKind::Conflict);
}

#[test]
fn bootstrap_checks_the_password_only_on_an_empty_store() {
    let mut db = connected();
    let err = ops::init_admin(&mut db, "root", "short").unwrap_err();
    assert_eq!(err.kind, ErrorKind::Validation);
    assert!(!ops::has_any_users(&db).unwrap());
    ops::init_admin(&mut db, "root", "secret123").unwrap();
    assert!(ops::has_any_users(&db).unwrap());
}

#[test]
fn bootstrap_requires_a_connected_store() {
    let mut db = Database::new();
    let err = ops::init_admin(&mut db, "root", "secret123").unwrap_err();
    assert_eq!(err.kind, ErrorKind::StoreUnavailable);
    assert!(!ops::has_any_users(&db).unwrap());
}

#[test]
fn login_failures_are_indistinguishable() {
    let (db, _token) = with_admin();
    let unknown = ops::login(&db, "nobody", "secret123").unwrap_err();
    let wrong = ops::login(&db, "root", "secret124").unwrap_err();
    assert_eq!(unknown.kind, ErrorKind::Authentication);
    assert_eq!(wrong.kind, ErrorKind::Authentication);
    assert_eq!(unknown.message, wrong.message);
}

#[test]
fn current_account_comes_from_the_token() {
    let (db, token) = with_admin();
    let me = ops::get_current_user(&db, &token).unwrap();
    assert_eq!(me.username, "root");
    assert_eq!(me.role, "admin");
    assert_eq!(me.id, 1);
    let err = ops::get_current_user(&db, "garbage").unwrap_err();
    assert_eq!(err.kind, ErrorKind::Authentication);
}

#[test]
fn only_admin_registers_accounts() {
    let (mut db, admin) = with_admin();
    ops::register_user(&mut db, "ada", "secret123", "user", &admin).unwrap();
    let user_token = ops::login(&db, "ada", "secret123").unwrap();
    let err =
        ops::register_user(&mut db, "eda", "secret123", "user", &user_token).unwrap_err();
    assert_eq!(err.kind, ErrorKind::Authorization);
}

#[test]
fn register_validates_role_then_password_then_username() {
    let (mut db, admin) = with_admin();
    let err = ops::register_user(&mut db, "ada", "secret123", "boss", &admin).unwrap_err();
    assert_eq!(err.kind, ErrorKind::Validation);
    let err = ops::register_user(&mut db, "ada", "short", "user", &admin).unwrap_err();
    assert_eq!(err.kind, ErrorKind::Validation);
    ops::register_user(&mut db, "ada", "secret123", "user", &admin).unwrap();
    let err = ops::register_user(&mut db, "ada", "secret123", "user", &admin).unwrap_err();
    assert_eq!(err.kind, ErrorKind::Conflict);
}

#[test]
fn account_listing_is_for_admins_only() {
    let (mut db, admin) = with_admin();
    ops::register_user(&mut db, "ctrl", "secret123", "controller", &admin).unwrap();
    let ctrl_token = ops::login(&db, "ctrl", "secret123").unwrap();
    let all = ops::get_all_users(&db, &admin).unwrap();
    let names: Vec<&str> = all.iter().map(|u| u.username.as_str()).collect();
    assert_eq!(names, vec!["ctrl", "root"]);
    let err = ops::get_all_users(&db, &ctrl_token).unwrap_err();
    assert_eq!(err.kind, ErrorKind::Authorization);
}

#[test]
fn selection_lists_are_narrowed_to_one_role() {
    let (mut db, admin) = with_admin();
    ops::register_user(&mut db, "ada", "secret123", "user", &admin).unwrap();
    ops::register_user(&mut db, "ctrl", "secret123", "controller", &admin).unwrap();
    ops::register_user(&mut db, "eda", "secret123", "user", &admin).unwrap();
    let executors = ops::get_users_for_executor_selection(&db, &admin).unwrap();
    let names: Vec<&str> = executors.iter().map(|u| u.username.as_str()).collect();
    assert_eq!(names, vec!["eda", "ada"]);
    let controllers = ops::get_users_for_controller_selection(&db, &admin).unwrap();
    let names: Vec<&str> = controllers.iter().map(|u| u.username.as_str()).collect();
    assert_eq!(names, vec!["ctrl"]);
}

#[test]
fn update_account_rejects_a_colliding_username() {
    let (mut db, admin) = with_admin();
    let ada = ops::register_user(&mut db, "ada", "secret123", "user", &admin).unwrap();
    ops::register_user(&mut db, "eda", "secret123", "user", &admin).unwrap();
    let err = ops::update_user(&mut db, ada, "eda", "user", &admin).unwrap_err();
    assert_eq!(err.kind, ErrorKind::Conflict);
    // Keeping one's own username is no collision.
    assert_eq!(ops::update_user(&mut db, ada, "ada", "controller", &admin).unwrap(), 1);
    let err = ops::update_user(&mut db, 999, "new", "user", &admin).unwrap_err();
    assert_eq!(err.kind, ErrorKind::NotFound);
}

#[test]
fn changed_password_takes_effect_at_login() {
    let (mut db, admin) = with_admin();
    let ada = ops::register_user(&mut db, "ada", "secret123", "user", &admin).unwrap();
    assert_eq!(ops::change_user_password(&mut db, ada, "newsecret7", &admin).unwrap(), 1);
    assert!(ops::login(&db, "ada", "newsecret7").is_ok());
    let err = ops::login(&db, "ada", "secret123").unwrap_err();
    assert_eq!(err.kind, ErrorKind::Authentication);
    let err = ops::change_user_password(&mut db, ada, "short", &admin).unwrap_err();
    assert_eq!(err.kind, ErrorKind::Validation);
}

#[test]
fn card_executor_must_have_the_user_role() {
    let (mut db, admin) = with_admin();
    // The executor reference points at the admin account: rejected.
    let err = new_card(&mut db, 1, 2024, 1, &admin).unwrap_err();
    assert_eq!(err.kind, ErrorKind::Validation);
    // A missing executor account is a different failure.
    let err = new_card(&mut db, 1, 2024, 999, &admin).unwrap_err();
    assert_eq!(err.kind, ErrorKind::NotFound);
    // A role "user" executor is accepted and its username is copied
    // onto the card as the display name.
    let ada = ops::register_user(&mut db, "ada", "secret123", "user", &admin).unwrap();
    let card_id = new_card(&mut db, 1, 2024, ada, &admin).unwrap();
    let card = ops::get_control_card(&db, card_id, &admin).unwrap();
    assert_eq!(card.executor, "ada");
    assert_eq!(card.executor_user_id, Some(ada));
}

#[test]
fn card_controller_reference_is_checked_only_when_it_resolves() {
    let (mut db, admin) = with_admin();
    let ada = ops::register_user(&mut db, "ada", "secret123", "user", &admin).unwrap();
    let ctrl = ops::register_user(&mut db, "ctrl", "secret123", "controller", &admin).unwrap();
    // A controller reference to a non-controller account is rejected.
    let err = ops::create_control_card(
        &mut db, 1, 2024, ada, "rep", "sum", "doc", None, None, None, None, None, None,
        Some("ctrl"), Some(ada), &admin,
    )
    .unwrap_err();
    assert_eq!(err.kind, ErrorKind::Validation);
    // One that resolves to a controller account is accepted.
    ops::create_control_card(
        &mut db, 1, 2024, ada, "rep", "sum", "doc", None, None, None, None, None, None,
        Some("ctrl"), Some(ctrl), &admin,
    )
    .unwrap();
    // One that resolves to no account at all is deliberately tolerated.
    ops::create_control_card(
        &mut db, 2, 2024, ada, "rep", "sum", "doc", None, None, None, None, None, None,
        Some("ghost"), Some(999), &admin,
    )
    .unwrap();
}

#[test]
fn duplicate_year_and_number_is_a_conflict_through_the_operation_layer() {
    let (mut db, admin) = with_admin();
    let ada = ops::register_user(&mut db, "ada", "secret123", "user", &admin).unwrap();
    new_card(&mut db, 1, 2024, ada, &admin).unwrap();
    let err = new_card(&mut db, 1, 2024, ada, &admin).unwrap_err();
    assert_eq!(err.kind, ErrorKind::Conflict);
}

#[test]
fn next_card_number_counts_up_after_sequential_creates() {
    let (mut db, admin) = with_admin();
    let ada = ops::register_user(&mut db, "ada", "secret123", "user", &admin).unwrap();
    for n in 1..=3 {
        let suggested = ops::get_next_card_number(&db, 2024).unwrap();
        assert_eq!(suggested, n);
        new_card(&mut db, suggested, 2024, ada, &admin).unwrap();
    }
    assert_eq!(ops::get_next_card_number(&db, 2024).unwrap(), 4);
}

#[test]
fn a_user_sees_a_card_only_as_its_executor() {
    let (mut db, admin) = with_admin();
    let ada = ops::register_user(&mut db, "ada", "secret123", "user", &admin).unwrap();
    let eda = ops::register_user(&mut db, "eda", "secret123", "user", &admin).unwrap();
    let ada_card = new_card(&mut db, 1, 2024, ada, &admin).unwrap();
    let eda_card = new_card(&mut db, 2, 2024, eda, &admin).unwrap();
    let ada_token = ops::login(&db, "ada", "secret123").unwrap();
    // The executor themselves gets the card.
    let card = ops::get_control_card(&db, ada_card, &ada_token).unwrap();
    assert_eq!(card.id, ada_card);
    // Another user's card is denied.
    let err = ops::get_control_card(&db, eda_card, &ada_token).unwrap_err();
    assert_eq!(err.kind, ErrorKind::Authorization);
}

#[test]
fn a_user_cannot_reach_a_card_without_an_executor() {
    let (mut db, admin) = with_admin();
    let ada = ops::register_user(&mut db, "ada", "secret123", "user", &admin).unwrap();
    let card_id = new_card(&mut db, 1, 2024, ada, &admin).unwrap();
    // Drop the executor reference through the store, as an update
    // from an older record shape would leave it.
    db.update_control_card(
        card_id, 1, 2024, "ada", "rep", "sum", "doc", None, None, None, None, None, None,
        None, None, None, None,
    )
    .unwrap();
    let ada_token = ops::login(&db, "ada", "secret123").unwrap();
    let err = ops::get_control_card(&db, card_id, &ada_token).unwrap_err();
    assert_eq!(err.kind, ErrorKind::NotFound);
    // Admins still see it.
    assert!(ops::get_control_card(&db, card_id, &admin).is_ok());
}

#[test]
fn a_user_lists_exactly_their_own_cards_newest_first() {
    let (mut db, admin) = with_admin();
    let ada = ops::register_user(&mut db, "ada", "secret123", "user", &admin).unwrap();
    let eda = ops::register_user(&mut db, "eda", "secret123", "user", &admin).unwrap();
    new_card(&mut db, 1, 2024, ada, &admin).unwrap();
    new_card(&mut db, 2, 2024, eda, &admin).unwrap();
    new_card(&mut db, 1, 2025, ada, &admin).unwrap();
    let ada_token = ops::login(&db, "ada", "secret123").unwrap();
    let mine = ops::get_all_control_cards(&db, &ada_token).unwrap();
    let keys: Vec<(i32, i32)> = mine.iter().map(|c| (c.year, c.card_number)).collect();
    assert_eq!(keys, vec![(2025, 1), (2024, 1)]);
    assert!(mine.iter().all(|c| c.executor_user_id == Some(ada)));
    // Admins and controllers see everything.
    assert_eq!(ops::get_all_control_cards(&db, &admin).unwrap().len(), 3);
}

#[test]
fn card_writes_are_closed_to_the_user_role() {
    let (mut db, admin) = with_admin();
    let ada = ops::register_user(&mut db, "ada", "secret123", "user", &admin).unwrap();
    let card = new_card(&mut db, 1, 2024, ada, &admin).unwrap();
    let ada_token = ops::login(&db, "ada", "secret123").unwrap();
    let err = new_card(&mut db, 2, 2024, ada, &ada_token).unwrap_err();
    assert_eq!(err.kind, ErrorKind::Authorization);
    let err = ops::delete_control_card(&mut db, card, &ada_token).unwrap_err();
    assert_eq!(err.kind, ErrorKind::Authorization);
    // A controller has the same card powers as an admin.
    ops::register_user(&mut db, "ctrl", "secret123", "controller", &admin).unwrap();
    let ctrl_token = ops::login(&db, "ctrl", "secret123").unwrap();
    assert_eq!(ops::delete_control_card(&mut db, card, &ctrl_token).unwrap(), 1);
    assert_eq!(ops::delete_control_card(&mut db, card, &ctrl_token).unwrap(), 0);
}

#[test]
fn deleting_an_account_leaves_its_cards_dangling() {
    let (mut db, admin) = with_admin();
    let ada = ops::register_user(&mut db, "ada", "secret123", "user", &admin).unwrap();
    let card_id = new_card(&mut db, 1, 2024, ada, &admin).unwrap();
    assert_eq!(ops::delete_user(&mut db, ada, &admin).unwrap(), 1);
    // The account is gone...
    assert!(db.get_user_by_id(ada).unwrap().is_none());
    let err = ops::delete_user(&mut db, ada, &admin).unwrap_err();
    assert_eq!(err.kind, ErrorKind::NotFound);
    // ...but the card still carries the now-dangling reference.
    let card = ops::get_control_card(&db, card_id, &admin).unwrap();
    assert_eq!(card.executor_user_id, Some(ada));
    assert_eq!(card.executor, "ada");
}

#[test]
fn login_requires_a_connected_store() {
    let db = Database::new();
    let err = ops::login(&db, "root", "secret123").unwrap_err();
    assert_eq!(err.kind, ErrorKind::StoreUnavailable);
}

#[test]
fn login_with_a_corrupted_stored_hash_is_an_internal_failure() {
    let mut db = connected();
    db.create_user("ada", "not-a-bcrypt-hash", "user", "t").unwrap();
    let err = ops::login(&db, "ada", "secret123").unwrap_err();
    assert_eq!(err.kind, ErrorKind::Internal);
}

#[test]
fn a_bad_token_is_rejected_before_any_store_access() {
    let mut db = Database::new();
    // The store is disconnected: an authentication failure proves the
    // token was checked first.
    let err = ops::get_all_users(&db, "garbage").unwrap_err();
    assert_eq!(err.kind, ErrorKind::Authentication);
    let err = ops::register_user(&mut db, "ada", "secret123", "user", "garbage").unwrap_err();
    assert_eq!(err.kind, ErrorKind::Authentication);
    let err = ops::delete_control_card(&mut db, 1, "garbage").unwrap_err();
    assert_eq!(err.kind, ErrorKind::Authentication);
}

#[test]
fn database_path_is_reported_while_connected() {
    let mut db = Database::new();
    assert_eq!(ops::get_database_path(&db).unwrap(), None);
    assert!(!ops::is_database_connected(&db).unwrap());
    ops::connect_database(&mut db, "cards.db").unwrap();
    assert!(ops::is_database_connected(&db).unwrap());
    assert_eq!(ops::get_database_path(&db).unwrap().as_deref(), Some("cards.db"));
    ops::disconnect_database(&mut db).unwrap();
    assert_eq!(ops::get_database_path(&db).unwrap(), None);
}
