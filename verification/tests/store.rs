use todo_app::db::{initialize_db, Store};
use todo_app::error::StoreError;
use todo_app::task::Task;
use todo_app::user::User;

fn user(id: i32, name: &str) -> User {
    User { id, username: name.to_string(), password_hash: "h".to_string() }
}

fn task(id: i32, user_id: i32) -> Task {
    Task { id, user_id, description: format!("t{}", id), completed: false }
}

fn refusal(opened: Result<Store, StoreError>) -> StoreError {
    match opened {
        Ok(_) => panic!("the rows were accepted"),
        Err(e) => e,
    }
}

#[test]
fn initialize_db_without_rows_gives_empty_relations() {
    let store = initialize_db(Vec::new(), Vec::new()).unwrap();
    assert!(store.users().is_empty());
    assert!(store.tasks().is_empty());
}

#[test]
fn initialize_db_keeps_the_rows() {
    let users = vec![user(1, "ann"), user(4, "bob")];
    let tasks = vec![task(2, 4), task(3, 1), task(10, 4)];
    let store = initialize_db(users.clone(), tasks.clone()).unwrap();
    assert_eq!(store.users(), &users);
    assert_eq!(store.tasks(), &tasks);
    assert!(store.has_user(4));
    assert!(!store.has_user(2));
}

#[test]
fn initialize_db_is_idempotent() {
    let first = initialize_db(vec![user(1, "ann")], vec![task(1, 1), task(2, 1)]).unwrap();
    let again = initialize_db(first.users().clone(), first.tasks().clone()).unwrap();
    assert_eq!(again.users(), first.users());
    assert_eq!(again.tasks(), first.tasks());
}

#[test]
fn initialize_db_refuses_repeated_user_identity() {
    let opened = initialize_db(vec![user(1, "ann"), user(1, "bob")], Vec::new());
    assert_eq!(refusal(opened), StoreError::PrimaryKeyViolation);
}

#[test]
fn initialize_db_refuses_users_out_of_order() {
    let opened = initialize_db(vec![user(2, "ann"), user(1, "bob")], Vec::new());
    assert_eq!(refusal(opened), StoreError::PrimaryKeyViolation);
}

#[test]
fn initialize_db_refuses_repeated_username() {
    let opened = initialize_db(vec![user(1, "ann"), user(2, "bob"), user(3, "ann")], Vec::new());
    assert_eq!(refusal(opened), StoreError::DuplicateUsername);
}

#[test]
fn initialize_db_tells_names_apart_by_case() {
    assert!(initialize_db(vec![user(1, "ann"), user(2, "Ann")], Vec::new()).is_ok());
}

#[test]
fn initialize_db_refuses_repeated_task_identity() {
    let opened = initialize_db(vec![user(1, "ann")], vec![task(1, 1), task(3, 1), task(3, 1)]);
    assert_eq!(refusal(opened), StoreError::PrimaryKeyViolation);
}

#[test]
fn initialize_db_refuses_task_without_owner() {
    let opened = initialize_db(vec![user(1, "ann")], vec![task(1, 1), task(2, 5)]);
    assert_eq!(refusal(opened), StoreError::ForeignKeyViolation);
}

#[test]
fn initialize_db_reports_the_first_broken_constraint() {
    let opened = initialize_db(vec![user(1, "ann"), user(2, "ann")], vec![task(2, 9), task(1, 9)]);
    assert_eq!(refusal(opened), StoreError::DuplicateUsername);
    let opened = initialize_db(vec![user(1, "ann")], vec![task(2, 9), task(1, 9)]);
    assert_eq!(refusal(opened), StoreError::PrimaryKeyViolation);
}
