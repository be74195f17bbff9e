//! The store: the users and tasks relations and the constraints that the
//! schema puts on them.

use vstd::prelude::*;
use crate::error::StoreError;
use crate::task::{Task, TaskRow, Entry, task_rows};
use crate::user::{User, UserRow, user_rows};

verus! {

/// The mathematical value of a [`Store`]: both relations, each in ascending
/// order of identity.
pub struct Relations {
    pub users: Seq<UserRow>,
    pub tasks: Seq<TaskRow>,
}

/// The predicate that selects the tasks of one owner.
pub open spec fn owned_by(owner: int) -> spec_fn(TaskRow) -> bool {
    |t: TaskRow| t.owner == owner
}

/// The rows stand in strictly ascending order of identity.
pub open spec fn user_ids_ascending(users: Seq<UserRow>) -> bool {
    forall|i: int, j: int| 0 <= i < j < users.len() ==> #[trigger] users[i].id < #[trigger] users[j].id
}

/// No two of the rows hold the same name.
pub open spec fn names_distinct(users: Seq<UserRow>) -> bool {
    forall|i: int, j: int|
        0 <= i < j < users.len() ==> #[trigger] users[i].username != #[trigger] users[j].username
}

/// The rows stand in strictly ascending order of identity.
pub open spec fn task_ids_ascending(tasks: Seq<TaskRow>) -> bool {
    forall|i: int, j: int| 0 <= i < j < tasks.len() ==> #[trigger] tasks[i].id < #[trigger] tasks[j].id
}

impl Relations {
    /// `id` is the identity of a registered user.
    pub open spec fn has_user(self, id: int) -> bool {
        exists|i: int| 0 <= i < self.users.len() && #[trigger] self.users[i].id == id
    }

    /// `name` is the name of a registered user.
    pub open spec fn has_username(self, name: Seq<char>) -> bool {
        exists|i: int| 0 <= i < self.users.len() && #[trigger] self.users[i].username == name
    }

    /// Users stand in strictly ascending order of identity, so that no
    /// identity occurs twice.
    pub open spec fn users_ascending(self) -> bool {
        user_ids_ascending(self.users)
    }

    /// No two users share a name.
    pub open spec fn usernames_distinct(self) -> bool {
        names_distinct(self.users)
    }

    /// Tasks stand in strictly ascending order of identity, so that no
    /// identity occurs twice.
    pub open spec fn tasks_ascending(self) -> bool {
        task_ids_ascending(self.tasks)
    }

    /// Every task belongs to a registered user.
    pub open spec fn owners_registered(self) -> bool {
        forall|i: int| 0 <= i < self.tasks.len() ==> self.has_user(#[trigger] self.tasks[i].owner)
    }

    /// The constraints of the schema: identities are unique within a
    /// relation, no two users share a name, and every task belongs to a
    /// registered user.
    pub open spec fn wf(self) -> bool {
        &&& self.users_ascending()
        &&& self.usernames_distinct()
        &&& self.tasks_ascending()
        &&& self.owners_registered()
    }

    /// The constraint that rows break, if they break one: the first of
    /// unique user identities, distinct names, unique task identities and
    /// registered owners.
    pub open spec fn violation(self) -> Option<StoreError> {
        if !self.users_ascending() {
            Some(StoreError::PrimaryKeyViolation)
        } else if !self.usernames_distinct() {
            Some(StoreError::DuplicateUsername)
        } else if !self.tasks_ascending() {
            Some(StoreError::PrimaryKeyViolation)
        } else if !self.owners_registered() {
            Some(StoreError::ForeignKeyViolation)
        } else {
            None
        }
    }

    /// The registered user of that name, if there is one.
    pub open spec fn user_named(self, name: Seq<char>) -> Option<UserRow> {
        if self.has_username(name) {
            Some(
                self.users[choose|i: int|
                    0 <= i < self.users.len() && #[trigger] self.users[i].username == name],
            )
        } else {
            None
        }
    }

    /// The identity that the next new user gets: one more than the largest
    /// in use, and 1 in an empty relation.
    pub open spec fn next_user_id(self) -> int {
        if self.users.len() == 0 {
            1
        } else {
            self.users.last().id + 1
        }
    }

    /// The store after a new user is registered under `name`.
    pub open spec fn with_user(self, name: Seq<char>, password_hash: Seq<char>) -> Relations {
        Relations {
            users: self.users.push(
                UserRow { id: self.next_user_id(), username: name, password_hash },
            ),
            tasks: self.tasks,
        }
    }

    /// The tasks of `owner`, in ascending order of identity.
    pub open spec fn tasks_of(self, owner: int) -> Seq<TaskRow> {
        self.tasks.filter(owned_by(owner))
    }

    /// The task that stands at the 1-based `position` among the tasks of
    /// `owner`, if there is one.
    pub open spec fn resolve(self, owner: int, position: int) -> Option<int> {
        let mine = self.tasks_of(owner);
        if 1 <= position <= mine.len() {
            Some(mine[position - 1].id)
        } else {
            None
        }
    }

    /// The task `id` exists and belongs to `owner`.
    pub open spec fn owns(self, owner: int, id: int) -> bool {
        exists|i: int|
            0 <= i < self.tasks.len() && (#[trigger] self.tasks[i]).id == id && self.tasks[i].owner
                == owner
    }

    /// The identity that the next new task gets: one more than the largest
    /// in use, and 1 in an empty relation.
    pub open spec fn next_task_id(self) -> int {
        if self.tasks.len() == 0 {
            1
        } else {
            self.tasks.last().id + 1
        }
    }

    /// Why the store refuses a new task of `owner`, if it does: the owner
    /// is no registered user, or the identities have run out.
    pub open spec fn insert_refusal(self, owner: int) -> Option<StoreError> {
        if !self.has_user(owner) {
            Some(StoreError::ForeignKeyViolation)
        } else if self.next_task_id() > i32::MAX {
            Some(StoreError::IdentitiesExhausted)
        } else {
            None
        }
    }

    /// The store after one new task of `owner`.
    pub open spec fn with_task(self, owner: int, entry: Entry) -> Relations {
        Relations {
            users: self.users,
            tasks: self.tasks.push(
                TaskRow {
                    id: self.next_task_id(),
                    owner,
                    description: entry.description,
                    completed: entry.completed,
                },
            ),
        }
    }

    /// The store after new tasks of `owner`, one for each entry and in the
    /// order of the entries, with consecutive fresh identities.
    pub open spec fn with_tasks(self, owner: int, new: Seq<Entry>) -> Relations {
        Relations {
            users: self.users,
            tasks: self.tasks + Seq::new(
                new.len(),
                |k: int|
                    TaskRow {
                        id: self.next_task_id() + k,
                        owner,
                        description: new[k].description,
                        completed: new[k].completed,
                    },
            ),
        }
    }

    /// Why the store refuses `count` new tasks of `owner` as one unit, if it
    /// does: one of them would be refused. No task at all is never refused.
    pub open spec fn import_refusal(self, owner: int, count: int) -> Option<StoreError> {
        if count <= 0 {
            None
        } else if !self.has_user(owner) {
            Some(StoreError::ForeignKeyViolation)
        } else if self.next_task_id() + count - 1 > i32::MAX {
            Some(StoreError::IdentitiesExhausted)
        } else {
            None
        }
    }

    /// The store after the description of task `id` is replaced, provided
    /// the task belongs to `owner`; any other row stays as it is.
    pub open spec fn edited(self, owner: int, id: int, description: Seq<char>) -> Relations {
        Relations {
            users: self.users,
            tasks: self.tasks.map_values(
                |t: TaskRow|
                    if t.id == id && t.owner == owner {
                        TaskRow { id: t.id, owner: t.owner, description, completed: t.completed }
                    } else {
                        t
                    },
            ),
        }
    }

    /// The store after task `id` is marked completed, provided the task
    /// belongs to `owner`; any other row stays as it is.
    pub open spec fn completed(self, owner: int, id: int) -> Relations {
        Relations {
            users: self.users,
            tasks: self.tasks.map_values(
                |t: TaskRow|
                    if t.id == id && t.owner == owner {
                        TaskRow { id: t.id, owner: t.owner, description: t.description, completed: true }
                    } else {
                        t
                    },
            ),
        }
    }

    /// The store without task `id`, provided the task belongs to `owner`;
    /// any other row stays.
    pub open spec fn deleted(self, owner: int, id: int) -> Relations {
        Relations {
            users: self.users,
            tasks: self.tasks.filter(|t: TaskRow| !(t.id == id && t.owner == owner)),
        }
    }

    /// What leaves the store when the tasks of `owner` are exported.
    pub open spec fn exported(self, owner: int) -> Seq<Entry> {
        self.tasks_of(owner).map_values(|t: TaskRow| t.entry())
    }
}

/// New tasks of a registered user keep the schema's constraints.
pub proof fn lemma_with_tasks_wf(before: Relations, owner: int, list: Seq<Entry>)
    requires
        before.wf(),
        before.has_user(owner),
    ensures
        before.with_tasks(owner, list).wf(),
{
    let after = before.with_tasks(owner, list);
    assert(after.users == before.users);
    assert forall|i: int| 0 <= i < after.tasks.len() implies after.has_user(
        #[trigger] after.tasks[i].owner,
    ) by {
        if i < before.tasks.len() {
            assert(after.tasks[i] == before.tasks[i]);
            assert(before.has_user(before.tasks[i].owner));
        } else {
            assert(after.tasks[i].owner == owner);
        }
    }
    assert forall|i: int, j: int| 0 <= i < j < after.tasks.len() implies #[trigger] after.tasks[i].id
        < #[trigger] after.tasks[j].id by {
        if i < before.tasks.len() && j >= before.tasks.len() {
            assert(before.tasks[i].id <= before.tasks.last().id) by {
                if i < before.tasks.len() - 1 {
                    assert(before.tasks[i].id < before.tasks[before.tasks.len() - 1].id);
                }
            }
        }
    }
}

/// The store. Its relations are reached only through the operations of this
/// crate, which keep the schema's constraints.
pub struct Store {
    pub(crate) users: Vec<User>,
    pub(crate) tasks: Vec<Task>,
}

impl View for Store {
    type V = Relations;

    open(crate) spec fn view(&self) -> Relations {
        Relations { users: user_rows(self.users@), tasks: task_rows(self.tasks@) }
    }
}

impl Store {
    /// The store satisfies the constraints of the schema.
    pub open spec fn wf(&self) -> bool {
        self@.wf()
    }

    /// A store with both relations empty.
    pub fn new() -> (store: Store)
        ensures
            store.wf(),
            store@.users.len() == 0,
            store@.tasks.len() == 0,
    {
        Store { users: Vec::new(), tasks: Vec::new() }
    }

    /// The rows of the users relation, in ascending order of identity.
    pub fn users(&self) -> (rows: &Vec<User>)
        ensures
            user_rows(rows@) == self@.users,
    {
        &self.users
    }

    /// The rows of the tasks relation, in ascending order of identity.
    pub fn tasks(&self) -> (rows: &Vec<Task>)
        ensures
            task_rows(rows@) == self@.tasks,
    {
        &self.tasks
    }

    /// The place in the relation of the user of that name, if one is
    /// registered.
    pub(crate) fn place_of_username(&self, name: &String) -> (place: Option<usize>)
        requires
            self.wf(),
        ensures
            place is Some <==> self@.has_username(name@),
            place matches Some(i) ==> i < self.users.len() && self@.user_named(name@) == Some(
                self@.users[i as int],
            ),
    {
        let mut i: usize = 0;
        while i < self.users.len()
            invariant
                self.wf(),
                i <= self.users.len(),
                forall|k: int| 0 <= k < i ==> (#[trigger] self@.users[k]).username != name@,
            decreases self.users.len() - i,
        {
            if self.users[i].username == *name {
                proof {
                    assert(self@.users[i as int].username == name@);
                    let c = choose|c: int|
                        0 <= c < self@.users.len() && #[trigger] self@.users[c].username == name@;
                    assert(c == i) by {
                        if c < i {
                            assert(self@.users[c].username != self@.users[i as int].username);
                        } else if i < c {
                            assert(self@.users[i as int].username != self@.users[c].username);
                        }
                    }
                }
                return Some(i);
            }
            i += 1;
        }
        None
    }

    /// Whether `name` is the name of a registered user. Names are compared
    /// exactly, letter case included.
    pub fn has_username(&self, name: &str) -> (found: bool)
        requires
            self.wf(),
        ensures
            found == self@.has_username(name@),
    {
        let name = name.to_owned();
        self.place_of_username(&name).is_some()
    }

    /// Whether `user_id` is the identity of a registered user.
    pub fn has_user(&self, user_id: i32) -> (found: bool)
        ensures
            found == self@.has_user(user_id as int),
    {
        let mut i: usize = 0;
        while i < self.users.len()
            invariant
                i <= self.users.len(),
                forall|k: int| 0 <= k < i ==> (#[trigger] self@.users[k]).id != user_id,
            decreases self.users.len() - i,
        {
            if self.users[i].id == user_id {
                assert(self@.users[i as int].id == user_id);
                return true;
            }
            i += 1;
        }
        false
    }

    /// The place in the relation of the task `task_id` of `user_id`, if the
    /// task exists and is theirs.
    pub(crate) fn position_of(&self, user_id: i32, task_id: i32) -> (place: Option<usize>)
        ensures
            place is Some <==> self@.owns(user_id as int, task_id as int),
            place matches Some(i) ==> i < self.tasks.len() && self@.tasks[i as int].id == task_id
                && self@.tasks[i as int].owner == user_id,
    {
        let mut i: usize = 0;
        while i < self.tasks.len()
            invariant
                i <= self.tasks.len(),
                forall|k: int|
                    0 <= k < i ==> !((#[trigger] self@.tasks[k]).id == task_id && self@.tasks[k].owner
                        == user_id),
            decreases self.tasks.len() - i,
        {
            if self.tasks[i].id == task_id && self.tasks[i].user_id == user_id {
                assert(self@.tasks[i as int].id == task_id && self@.tasks[i as int].owner == user_id);
                return Some(i);
            }
            i += 1;
        }
        None
    }
}

/// The relations that the given rows make up.
pub open spec fn relations_of(users: Seq<User>, tasks: Seq<Task>) -> Relations {
    Relations { users: user_rows(users), tasks: task_rows(tasks) }
}

/// Whether the users stand in strictly ascending order of identity.
fn check_users_ascending(users: &Vec<User>) -> (ascending: bool)
    ensures
        ascending == user_ids_ascending(user_rows(users@)),
{
    let ghost rows = user_rows(users@);
    let mut i: usize = 1;
    while i < users.len()
        invariant
            1 <= i,
            rows == user_rows(users@),
            forall|a: int, b: int| 0 <= a < b < i && b < rows.len() ==> rows[a].id < rows[b].id,
        decreases users.len() - i,
    {
        if users[i - 1].id >= users[i].id {
            assert(!(rows[i - 1].id < rows[i as int].id));
            return false;
        }
        assert forall|a: int, b: int| 0 <= a < b < i + 1 && b < rows.len() implies rows[a].id
            < rows[b].id by {
            if b == i && a < i - 1 {
                assert(rows[a].id < rows[i - 1].id);
            }
        }
        i += 1;
    }
    true
}

/// Whether the tasks stand in strictly ascending order of identity.
fn check_tasks_ascending(tasks: &Vec<Task>) -> (ascending: bool)
    ensures
        ascending == task_ids_ascending(task_rows(tasks@)),
{
    let ghost rows = task_rows(tasks@);
    let mut i: usize = 1;
    while i < tasks.len()
        invariant
            1 <= i,
            rows == task_rows(tasks@),
            forall|a: int, b: int| 0 <= a < b < i && b < rows.len() ==> rows[a].id < rows[b].id,
        decreases tasks.len() - i,
    {
        if tasks[i - 1].id >= tasks[i].id {
            assert(!(rows[i - 1].id < rows[i as int].id));
            return false;
        }
        assert forall|a: int, b: int| 0 <= a < b < i + 1 && b < rows.len() implies rows[a].id
            < rows[b].id by {
            if b == i && a < i - 1 {
                assert(rows[a].id < rows[i - 1].id);
            }
        }
        i += 1;
    }
    true
}

/// Whether no two of the users share a name.
fn check_usernames_distinct(users: &Vec<User>) -> (distinct: bool)
    ensures
        distinct == names_distinct(user_rows(users@)),
{
    let ghost rows = user_rows(users@);
    let mut j: usize = 0;
    while j < users.len()
        invariant
            j <= users.len(),
            rows == user_rows(users@),
            forall|a: int, b: int| 0 <= a < b < j ==> rows[a].username != rows[b].username,
        decreases users.len() - j,
    {
        let mut i: usize = 0;
        while i < j
            invariant
                i <= j < users.len(),
                rows == user_rows(users@),
                forall|a: int| 0 <= a < i ==> rows[a].username != rows[j as int].username,
            decreases j - i,
        {
            if users[i].username == users[j].username {
                assert(rows[i as int].username == rows[j as int].username);
                return false;
            }
            i += 1;
        }
        j += 1;
    }
    true
}

/// Opens the store over the rows that were kept from an earlier run, each
/// relation in ascending order of identity; with no rows the relations are
/// created empty. Rows that break a constraint of the schema are refused.
pub fn initialize_db(users: Vec<User>, tasks: Vec<Task>) -> (opened: Result<Store, StoreError>)
    ensures
        match opened {
            Ok(store) => {
                &&& relations_of(users@, tasks@).violation() is None
                &&& store.wf()
                &&& store@ == relations_of(users@, tasks@)
            },
            Err(e) => relations_of(users@, tasks@).violation() == Some(e),
        },
{
    let ghost rows = relations_of(users@, tasks@);
    if !check_users_ascending(&users) {
        return Err(StoreError::PrimaryKeyViolation);
    }
    if !check_usernames_distinct(&users) {
        return Err(StoreError::DuplicateUsername);
    }
    if !check_tasks_ascending(&tasks) {
        return Err(StoreError::PrimaryKeyViolation);
    }
    let store = Store { users, tasks };
    assert(store@ == rows);
    let mut i: usize = 0;
    while i < store.tasks.len()
        invariant
            i <= store.tasks.len(),
            store@ == rows,
            rows == relations_of(users@, tasks@),
            rows.users_ascending(),
            rows.usernames_distinct(),
            rows.tasks_ascending(),
            forall|k: int| 0 <= k < i ==> rows.has_user(#[trigger] rows.tasks[k].owner),
        decreases store.tasks.len() - i,
    {
        if !store.has_user(store.tasks[i].user_id) {
            assert(!rows.has_user(rows.tasks[i as int].owner));
            return Err(StoreError::ForeignKeyViolation);
        }
        i += 1;
    }
    Ok(store)
}

} // verus!
