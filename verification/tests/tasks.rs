use todo_app::db::{initialize_db, Store};
use todo_app::error::StoreError;
use todo_app::task::{
    add_task, delete_task, edit_task, get_task_id_by_number, get_tasks, mark_task_completed,
    view_tasks, Task, TaskLine,
};
use todo_app::user::{register_with_hash, User};

fn user(id: i32, name: &str) -> User {
    User { id, username: name.to_string(), password_hash: format!("hash of {}", name) }
}

fn task(id: i32, user_id: i32, description: &str, completed: bool) -> Task {
    Task { id, user_id, description: description.to_string(), completed }
}

fn two_users() -> Store {
    let mut store = Store::new();
    assert_eq!(register_with_hash(&mut store, "ann", Some("hash a".to_string())), Ok(()));
    assert_eq!(register_with_hash(&mut store, "bob", Some("hash b".to_string())), Ok(()));
    store
}

/// A store in which user 1 owns the tasks 5, 9 and 12 and user 2 the rest.
fn interleaved() -> Store {
    let mut store = two_users();
    for id in 1..=12 {
        let owner = if id == 5 || id == 9 || id == 12 { 1 } else { 2 };
        assert_eq!(add_task(&mut store, owner, &format!("task {}", id)), Ok(id));
    }
    store
}

#[test]
fn new_store_is_empty() {
    let store = Store::new();
    assert!(store.users().is_empty());
    assert!(store.tasks().is_empty());
    assert!(get_tasks(&store, 1).is_empty());
    assert!(view_tasks(&store, 1).is_empty());
}

#[test]
fn add_task_assigns_consecutive_identities() {
    let mut store = two_users();
    assert_eq!(add_task(&mut store, 1, "buy milk"), Ok(1));
    assert_eq!(add_task(&mut store, 2, "walk dog"), Ok(2));
    assert_eq!(add_task(&mut store, 1, "pay rent"), Ok(3));
    assert_eq!(
        get_tasks(&store, 1),
        vec![task(1, 1, "buy milk", false), task(3, 1, "pay rent", false)]
    );
    assert_eq!(get_tasks(&store, 2), vec![task(2, 2, "walk dog", false)]);
}

#[test]
fn add_task_takes_the_description_as_it_is() {
    let mut store = two_users();
    assert_eq!(add_task(&mut store, 1, "  two  spaces "), Ok(1));
    assert_eq!(add_task(&mut store, 1, ""), Ok(2));
    let mine = get_tasks(&store, 1);
    assert_eq!(mine[0].description, "  two  spaces ");
    assert_eq!(mine[1].description, "");
}

#[test]
fn add_task_for_unknown_owner_is_a_foreign_key_violation() {
    let mut store = two_users();
    assert_eq!(add_task(&mut store, 3, "nobody's"), Err(StoreError::ForeignKeyViolation));
    assert!(store.tasks().is_empty());
}

#[test]
fn add_task_after_the_largest_identity_is_refused() {
    let mut store =
        initialize_db(vec![user(1, "ann")], vec![task(i32::MAX, 1, "last", false)]).unwrap();
    assert_eq!(add_task(&mut store, 1, "one more"), Err(StoreError::IdentitiesExhausted));
    assert_eq!(store.tasks().len(), 1);
}

#[test]
fn add_task_continues_after_the_largest_identity_in_use() {
    let mut store = initialize_db(
        vec![user(1, "ann")],
        vec![task(4, 1, "a", false), task(40, 1, "b", true)],
    )
    .unwrap();
    assert_eq!(add_task(&mut store, 1, "c"), Ok(41));
    assert_eq!(delete_task(&mut store, 1, 41), true);
    assert_eq!(delete_task(&mut store, 1, 40), true);
    assert_eq!(add_task(&mut store, 1, "d"), Ok(5));
}

#[test]
fn list_of_user_without_tasks_is_empty() {
    let mut store = two_users();
    add_task(&mut store, 1, "mine").unwrap();
    assert_eq!(get_tasks(&store, 2), Vec::<Task>::new());
    assert_eq!(get_tasks(&store, 99), Vec::<Task>::new());
}

#[test]
fn position_resolves_to_rank_among_own_tasks() {
    let store = interleaved();
    let ids: Vec<i32> = get_tasks(&store, 1).iter().map(|t| t.id).collect();
    assert_eq!(ids, vec![5, 9, 12]);
    assert_eq!(get_task_id_by_number(&store, 1, 1), Some(5));
    assert_eq!(get_task_id_by_number(&store, 1, 2), Some(9));
    assert_eq!(get_task_id_by_number(&store, 1, 3), Some(12));
    assert_eq!(get_task_id_by_number(&store, 1, 4), None);
    assert_eq!(get_task_id_by_number(&store, 1, 0), None);
    assert_eq!(get_task_id_by_number(&store, 1, usize::MAX), None);
}

#[test]
fn position_of_user_without_tasks_is_none() {
    let store = two_users();
    assert_eq!(get_task_id_by_number(&store, 1, 1), None);
    assert_eq!(get_task_id_by_number(&store, 7, 1), None);
}

#[test]
fn position_is_counted_afresh_after_a_deletion() {
    let mut store = interleaved();
    assert_eq!(get_task_id_by_number(&store, 1, 2), Some(9));
    assert!(delete_task(&mut store, 1, 5));
    assert_eq!(get_task_id_by_number(&store, 1, 1), Some(9));
    assert_eq!(get_task_id_by_number(&store, 1, 2), Some(12));
    assert_eq!(get_task_id_by_number(&store, 1, 3), None);
}

#[test]
fn view_tasks_numbers_the_list_from_one() {
    let mut store = interleaved();
    assert!(mark_task_completed(&mut store, 1, 9));
    let shown = view_tasks(&store, 1);
    assert_eq!(
        shown,
        vec![
            TaskLine { number: 1, description: "task 5".to_string(), completed: false },
            TaskLine { number: 2, description: "task 9".to_string(), completed: true },
            TaskLine { number: 3, description: "task 12".to_string(), completed: false },
        ]
    );
    for line in &shown {
        let id = get_task_id_by_number(&store, 1, line.number).unwrap();
        let found = get_tasks(&store, 1).into_iter().find(|t| t.id == id).unwrap();
        assert_eq!(found.description, line.description);
    }
}

#[test]
fn edit_task_replaces_only_the_description() {
    let mut store = interleaved();
    assert!(mark_task_completed(&mut store, 1, 9));
    assert_eq!(edit_task(&mut store, 1, 9, "nine"), true);
    assert_eq!(
        get_tasks(&store, 1),
        vec![task(5, 1, "task 5", false), task(9, 1, "nine", true), task(12, 1, "task 12", false)]
    );
}

#[test]
fn edit_task_of_missing_task_changes_nothing() {
    let mut store = interleaved();
    let before = store.tasks().clone();
    assert_eq!(edit_task(&mut store, 1, 100, "x"), false);
    assert_eq!(store.tasks(), &before);
}

#[test]
fn other_users_task_is_out_of_reach() {
    let mut store = interleaved();
    let before = store.tasks().clone();
    assert_eq!(edit_task(&mut store, 2, 5, "stolen"), false);
    assert_eq!(mark_task_completed(&mut store, 2, 5), false);
    assert_eq!(delete_task(&mut store, 2, 5), false);
    assert_eq!(store.tasks(), &before);
    assert_eq!(get_tasks(&store, 1)[0], task(5, 1, "task 5", false));
}

#[test]
fn own_operations_leave_other_users_tasks_alone() {
    let mut store = interleaved();
    let theirs = get_tasks(&store, 2);
    assert!(edit_task(&mut store, 1, 5, "five"));
    assert!(mark_task_completed(&mut store, 1, 9));
    assert!(delete_task(&mut store, 1, 12));
    assert_eq!(get_tasks(&store, 2), theirs);
}

#[test]
fn delete_task_removes_exactly_that_task() {
    let mut store = interleaved();
    assert_eq!(delete_task(&mut store, 1, 9), true);
    assert_eq!(
        get_tasks(&store, 1),
        vec![task(5, 1, "task 5", false), task(12, 1, "task 12", false)]
    );
    assert_eq!(store.tasks().len(), 11);
    assert_eq!(delete_task(&mut store, 1, 9), false);
    assert_eq!(store.tasks().len(), 11);
}

#[test]
fn completing_twice_reports_success_both_times() {
    let mut store = interleaved();
    assert_eq!(mark_task_completed(&mut store, 1, 5), true);
    let after_first = store.tasks().clone();
    assert_eq!(mark_task_completed(&mut store, 1, 5), true);
    assert_eq!(store.tasks(), &after_first);
    assert_eq!(get_tasks(&store, 1)[0], task(5, 1, "task 5", true));
}

#[test]
fn completing_a_missing_task_reports_nothing_done() {
    let mut store = interleaved();
    assert_eq!(mark_task_completed(&mut store, 1, 13), false);
    assert!(get_tasks(&store, 1).iter().all(|t| !t.completed));
}

#[test]
fn task_duplicate_is_equal() {
    let row = task(3, 1, "copy me", true);
    assert_eq!(row.duplicate(), row);
}
