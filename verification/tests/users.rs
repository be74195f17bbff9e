use todo_app::db::{initialize_db, Store};
use todo_app::error::StoreError;
use todo_app::user::{login_outcome, login_user, register_user, register_with_hash, User};

#[test]
fn register_user_stores_a_hash_and_not_the_password() {
    let mut store = Store::new();
    assert_eq!(register_user(&mut store, "realuser", "secret"), Ok(()));
    let users = store.users();
    assert_eq!(users.len(), 1);
    assert_eq!(users[0].id, 1);
    assert_eq!(users[0].username, "realuser");
    assert_ne!(users[0].password_hash, "secret");
    assert!(users[0].password_hash.starts_with("$2"));
    assert_eq!(users[0].password_hash.len(), 60);
}

#[test]
fn register_user_refuses_a_name_that_is_taken() {
    let mut store = Store::new();
    assert_eq!(register_with_hash(&mut store, "ann", Some("h1".to_string())), Ok(()));
    let before = store.users().clone();
    assert_eq!(register_user(&mut store, "ann", "other"), Err(StoreError::DuplicateUsername));
    assert_eq!(store.users(), &before);
    assert_eq!(store.users().iter().filter(|u| u.username == "ann").count(), 1);
}

#[test]
fn register_with_hash_refuses_a_name_that_is_taken() {
    let mut store = Store::new();
    assert_eq!(register_with_hash(&mut store, "ann", Some("h1".to_string())), Ok(()));
    assert_eq!(
        register_with_hash(&mut store, "ann", Some("h2".to_string())),
        Err(StoreError::DuplicateUsername)
    );
    assert_eq!(register_with_hash(&mut store, "ann", None), Err(StoreError::DuplicateUsername));
    assert_eq!(store.users().len(), 1);
    assert_eq!(store.users()[0].password_hash, "h1");
}

#[test]
fn usernames_are_compared_exactly() {
    let mut store = Store::new();
    assert_eq!(register_with_hash(&mut store, "ann", Some("h1".to_string())), Ok(()));
    assert_eq!(register_with_hash(&mut store, "Ann", Some("h2".to_string())), Ok(()));
    assert_eq!(register_with_hash(&mut store, "ann ", Some("h3".to_string())), Ok(()));
    let ids: Vec<i32> = store.users().iter().map(|u| u.id).collect();
    assert_eq!(ids, vec![1, 2, 3]);
}

#[test]
fn register_with_hash_without_a_hash_fails() {
    let mut store = Store::new();
    assert_eq!(register_with_hash(&mut store, "ann", None), Err(StoreError::CredentialHashFailed));
    assert!(store.users().is_empty());
}

#[test]
fn register_after_the_largest_identity_is_refused() {
    let last = User { id: i32::MAX, username: "last".to_string(), password_hash: "h".to_string() };
    let mut store = initialize_db(vec![last], Vec::new()).unwrap();
    assert_eq!(
        register_with_hash(&mut store, "next", Some("h".to_string())),
        Err(StoreError::IdentitiesExhausted)
    );
    assert_eq!(store.users().len(), 1);
}

#[test]
fn login_succeeds_with_the_registered_password() {
    let mut store = Store::new();
    assert_eq!(register_with_hash(&mut store, "first", Some("no hash".to_string())), Ok(()));
    assert_eq!(register_user(&mut store, "realuser", "secret"), Ok(()));
    assert_eq!(login_user(&store, "realuser", "secret"), Some(2));
}

#[test]
fn unknown_user_and_wrong_password_are_indistinguishable() {
    let mut store = Store::new();
    assert_eq!(register_user(&mut store, "realuser", "rightpass"), Ok(()));
    let unknown = login_user(&store, "nouser", "x");
    let wrong = login_user(&store, "realuser", "wrongpass");
    assert_eq!(unknown, None);
    assert_eq!(wrong, None);
    assert_eq!(unknown, wrong);
}

#[test]
fn login_against_a_known_hash() {
    let known = "$2y$12$L6Bc/AlTQHyd9liGgGEZyOFLPHNgyxeEPfgYfBCVxJ7JIlwxyVU3u";
    let mut store = Store::new();
    assert_eq!(register_with_hash(&mut store, "ann", Some(known.to_string())), Ok(()));
    assert_eq!(login_user(&store, "ann", known), None);
    assert_eq!(login_user(&store, "ann", ""), None);
}

#[test]
fn login_treats_a_broken_hash_as_a_failed_match() {
    let mut store = Store::new();
    assert_eq!(register_with_hash(&mut store, "ann", Some("not a hash".to_string())), Ok(()));
    assert_eq!(login_user(&store, "ann", "not a hash"), None);
    assert_eq!(login_user(&store, "ann", "anything"), None);
}

#[test]
fn has_username_compares_exactly() {
    let mut store = Store::new();
    assert!(!store.has_username("ann"));
    assert_eq!(register_with_hash(&mut store, "ann", Some("h".to_string())), Ok(()));
    assert!(store.has_username("ann"));
    assert!(!store.has_username("Ann"));
    assert!(!store.has_username("an"));
    assert!(!store.has_username(""));
}

#[test]
fn login_outcome_follows_the_verdict() {
    assert_eq!(login_outcome(7, Some(true)), Some(7));
    assert_eq!(login_outcome(7, Some(false)), None);
    assert_eq!(login_outcome(7, None), None);
}
