//! Users and their credentials.

use vstd::prelude::*;
use crate::db::{Relations, Store};
use crate::error::StoreError;

verus! {

/// A row of the users relation. The password itself is never kept, only
/// the hash that the credential check accepts it by.
#[derive(Clone, Debug, PartialEq, Eq)]
pub struct User {
    pub id: i32,
    pub username: String,
    pub password_hash: String,
}

/// The mathematical value of a [`User`].
pub struct UserRow {
    pub id: int,
    pub username: Seq<char>,
    pub password_hash: Seq<char>,
}

impl View for User {
    type V = UserRow;

    open spec fn view(&self) -> UserRow {
        UserRow {
            id: self.id as int,
            username: self.username@,
            password_hash: self.password_hash@,
        }
    }
}

/// The values of a sequence of users.
pub open spec fn user_rows(users: Seq<User>) -> Seq<UserRow> {
    users.map_values(|u: User| u@)
}

/// What `bcrypt::verify` returns for a password and a stored hash, with
/// its errors (a hash that is no bcrypt hash, a cost out of range) folded
/// to `None`.
pub uninterp spec fn bcrypt_verdict(password: Seq<char>, password_hash: Seq<char>) -> Option<bool>;

/// The stored hash accepts the password. A check that ends in an error
/// accepts nothing.
pub open spec fn accepts(password: Seq<char>, password_hash: Seq<char>) -> bool {
    bcrypt_verdict(password, password_hash) == Some(true)
}

/// What a login under `name` with `password` comes to: the identity of the
/// user of that name, provided the stored hash accepts the password.
pub open spec fn login(store: Relations, name: Seq<char>, password: Seq<char>) -> Option<int> {
    match store.user_named(name) {
        Some(user) => if accepts(password, user.password_hash) {
            Some(user.id)
        } else {
            None
        },
        None => None,
    }
}

/// Calls `bcrypt::hash` with the crate's default cost, which draws a fresh
/// random salt from the operating system; `None` stands for its error.
/// Two calls on one password give different hashes, so the hash has no
/// name. What is claimed of every hash that comes back is that
/// `bcrypt::verify` accepts the password it was made from: the hash carries
/// its cost and salt, and `verify` repeats the same computation with them.
#[verifier::external_body]
fn hash_password(password: &str) -> (password_hash: Option<String>)
    ensures
        password_hash matches Some(h) ==> bcrypt_verdict(password@, h@) == Some(true),
{
    bcrypt::hash(password, bcrypt::DEFAULT_COST).ok()
}

/// Calls `bcrypt::verify`, which reads cost and salt out of the stored
/// hash, hashes the password again with them and compares in constant
/// time. The result depends on the two arguments alone; `None` stands for
/// its error.
#[verifier::external_body]
fn verify_password(password: &str, password_hash: &str) -> (verdict: Option<bool>)
    ensures
        verdict == bcrypt_verdict(password@, password_hash@),
{
    bcrypt::verify(password, password_hash).ok()
}

/// Registers `username` with a credential hash that was computed already,
/// or refuses: a name that is taken, a hash that could not be computed
/// (`None`), or no identity left, in this order.
pub fn register_with_hash(store: &mut Store, username: &str, password_hash: Option<String>) -> (registered:
    Result<(), StoreError>)
    requires
        old(store).wf(),
    ensures
        final(store).wf(),
        registered == Err::<(), StoreError>(StoreError::DuplicateUsername) <==> old(
            store,
        )@.has_username(username@),
        registered == Err::<(), StoreError>(StoreError::CredentialHashFailed) <==> !old(
            store,
        )@.has_username(username@) && password_hash is None,
        registered == Err::<(), StoreError>(StoreError::IdentitiesExhausted) <==> !old(
            store,
        )@.has_username(username@) && password_hash is Some && old(store)@.next_user_id()
            > i32::MAX,
        registered is Ok <==> !old(store)@.has_username(username@) && password_hash is Some && old(
            store,
        )@.next_user_id() <= i32::MAX,
        registered is Ok ==> final(store)@ == old(store)@.with_user(
            username@,
            password_hash->Some_0@,
        ),
        registered is Err ==> final(store)@ == old(store)@,
{
    let name = username.to_owned();
    if store.place_of_username(&name).is_some() {
        return Err(StoreError::DuplicateUsername);
    }
    let password_hash = match password_hash {
        Some(h) => h,
        None => {
            return Err(StoreError::CredentialHashFailed);
        },
    };
    let count: usize = store.users.len();
    let id: i32 = if count == 0 {
        1
    } else {
        let last: i32 = store.users[count - 1].id;
        assert(store@.users.last().id == last);
        if last == i32::MAX {
            return Err(StoreError::IdentitiesExhausted);
        }
        last + 1
    };
    let ghost before = store@;
    let user = User { id, username: name, password_hash };
    store.users.push(user);
    assert(store@.users =~= before.users.push(user@));
    assert(store@.tasks == before.tasks);
    assert(store@.wf()) by {
        assert forall|i: int| 0 <= i < store@.tasks.len() implies store@.has_user(
            #[trigger] store@.tasks[i].owner,
        ) by {
            assert(before.has_user(before.tasks[i].owner));
            let j = choose|j: int|
                0 <= j < before.users.len() && #[trigger] before.users[j].id == before.tasks[i].owner;
            assert(store@.users[j].id == store@.tasks[i].owner);
        }
    }
    Ok(())
}

/// Registers a new user. A name that is taken already is refused before
/// anything is computed; otherwise the password is hashed and the user is
/// entered under that hash. The password itself is not kept.
pub fn register_user(store: &mut Store, username: &str, password: &str) -> (registered: Result<
    (),
    StoreError,
>)
    requires
        old(store).wf(),
    ensures
        final(store).wf(),
        registered == Err::<(), StoreError>(StoreError::DuplicateUsername) <==> old(
            store,
        )@.has_username(username@),
        registered == Err::<(), StoreError>(StoreError::IdentitiesExhausted) ==> old(
            store,
        )@.next_user_id() > i32::MAX,
        registered is Ok ==> old(store)@.next_user_id() <= i32::MAX && final(store)@ == old(
            store,
        )@.with_user(username@, final(store)@.users.last().password_hash),
        registered is Ok ==> login(final(store)@, username@, password@) == Some(
            old(store)@.next_user_id(),
        ),
        registered is Err ==> final(store)@ == old(store)@ && (registered
            == Err::<(), StoreError>(StoreError::DuplicateUsername) || registered == Err::<
            (),
            StoreError,
        >(StoreError::CredentialHashFailed) || registered == Err::<(), StoreError>(
            StoreError::IdentitiesExhausted,
        )),
{
    let name = username.to_owned();
    if store.place_of_username(&name).is_some() {
        return Err(StoreError::DuplicateUsername);
    }
    let password_hash = hash_password(password);
    let registered = register_with_hash(store, username, password_hash);
    proof {
        if registered is Ok {
            lemma_last_user_is_named(store@);
        }
    }
    registered
}

/// In a store that keeps its constraints, the user that was entered last
/// is the user of their name.
proof fn lemma_last_user_is_named(store: Relations)
    requires
        store.wf(),
        store.users.len() > 0,
    ensures
        store.user_named(store.users.last().username) == Some(store.users.last()),
{
    let name = store.users.last().username;
    let last = store.users.len() - 1;
    assert(store.users[last].username == name);
    let c = choose|c: int| 0 <= c < store.users.len() && #[trigger] store.users[c].username == name;
    if c < last {
        assert(store.users[c].username != store.users[last].username);
    }
}

/// What a login comes to once the credential check has answered: the
/// user's identity where the check said yes, and nothing where it said no
/// or ended in an error.
pub fn login_outcome(user_id: i32, verdict: Option<bool>) -> (identity: Option<i32>)
    ensures
        identity == (if verdict == Some(true) {
            Some(user_id)
        } else {
            None
        }),
{
    match verdict {
        Some(true) => Some(user_id),
        _ => None,
    }
}

/// Logs a user in: the identity of the user of that name, provided the
/// stored hash accepts the password. An unknown name and a wrong password
/// give the same answer.
pub fn login_user(store: &Store, username: &str, password: &str) -> (identity: Option<i32>)
    requires
        store.wf(),
    ensures
        match identity {
            Some(id) => login(store@, username@, password@) == Some(id as int),
            None => login(store@, username@, password@) is None,
        },
{
    let name = username.to_owned();
    match store.place_of_username(&name) {
        Some(i) => {
            let verdict = verify_password(password, store.users[i].password_hash.as_str());
            login_outcome(store.users[i].id, verdict)
        },
        None => None,
    }
}

} // verus!
