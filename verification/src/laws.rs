//! What holds of the store whatever its contents: laws that relate its
//! operations to one another, stated over the values of the store.

use vstd::prelude::*;
use crate::db::{lemma_with_tasks_wf, owned_by, task_ids_ascending, Relations};
use crate::file_ops::{entries_of, entry_of, first_malformed, ScalarValue};
use crate::seq_facts::{
    lemma_filter_commutes,
    lemma_filter_keeps_all,
    lemma_filter_keeps_none,
    lemma_filter_keeps_one,
    lemma_filter_members,
    lemma_filter_of_map,
    lemma_filter_removes_one,
    lemma_filter_twice,
};
use crate::task::{Entry, TaskRow};
use crate::user::{accepts, login, UserRow};

verus! {

/// Every operation keeps the constraints of the schema. Editing,
/// completing and deleting a task keep them whoever asks and whatever the
/// task; a new task keeps them where its owner is a registered user, new
/// tasks for no entries in any case, and a new user where the name is free.
pub proof fn law_schema_is_kept(
    store: Relations,
    user: int,
    id: int,
    description: Seq<char>,
    entry: Entry,
    name: Seq<char>,
    password_hash: Seq<char>,
)
    requires
        store.wf(),
    ensures
        store.edited(user, id, description).wf(),
        store.completed(user, id).wf(),
        store.deleted(user, id).wf(),
        store.has_user(user) ==> store.with_task(user, entry).wf(),
        store.with_task(user, entry) == store.with_tasks(user, seq![entry]),
        store.with_tasks(user, Seq::empty()) == store,
        !store.has_username(name) ==> store.with_user(name, password_hash).wf(),
{
    let edited = store.edited(user, id, description);
    assert(edited.wf()) by {
        assert forall|i: int| 0 <= i < edited.tasks.len() implies edited.has_user(
            #[trigger] edited.tasks[i].owner,
        ) by {
            assert(edited.users == store.users);
            assert(edited.tasks[i].owner == store.tasks[i].owner);
            assert(store.has_user(store.tasks[i].owner));
        }
    }
    let completed = store.completed(user, id);
    assert(completed.wf()) by {
        assert forall|i: int| 0 <= i < completed.tasks.len() implies completed.has_user(
            #[trigger] completed.tasks[i].owner,
        ) by {
            assert(completed.users == store.users);
            assert(completed.tasks[i].owner == store.tasks[i].owner);
            assert(store.has_user(store.tasks[i].owner));
        }
    }
    let deleted = store.deleted(user, id);
    let keep = |t: TaskRow| !(t.id == id && t.owner == user);
    assert(deleted.wf()) by {
        lemma_filter_ascending(store.tasks, keep);
        lemma_filter_members(store.tasks, keep);
        assert forall|i: int| 0 <= i < deleted.tasks.len() implies deleted.has_user(
            #[trigger] deleted.tasks[i].owner,
        ) by {
            assert(deleted.tasks.contains(deleted.tasks[i]));
            let k = choose|k: int| 0 <= k < store.tasks.len() && store.tasks[k] == deleted.tasks[i];
            assert(deleted.users == store.users);
            assert(store.has_user(store.tasks[k].owner));
        }
    }
    assert(store.with_task(user, entry).tasks =~= store.with_tasks(user, seq![entry]).tasks);
    assert(store.with_tasks(user, Seq::empty()).tasks =~= store.tasks);
    if store.has_user(user) {
        lemma_with_tasks_wf(store, user, seq![entry]);
    }
    if !store.has_username(name) {
        let grown = store.with_user(name, password_hash);
        assert forall|i: int, j: int| 0 <= i < j < grown.users.len() implies #[trigger] grown.users[i].id
            < #[trigger] grown.users[j].id by {
            if j == store.users.len() && i < store.users.len() - 1 {
                assert(store.users[i].id < store.users[store.users.len() - 1].id);
            }
        }
        assert forall|i: int, j: int| 0 <= i < j < grown.users.len() implies #[trigger] grown.users[i].username
            != #[trigger] grown.users[j].username by {
            if j == store.users.len() {
                assert(store.users[i].username != name);
            }
        }
        assert forall|i: int| 0 <= i < grown.tasks.len() implies grown.has_user(
            #[trigger] grown.tasks[i].owner,
        ) by {
            assert(store.has_user(store.tasks[i].owner));
            let k = choose|k: int|
                0 <= k < store.users.len() && #[trigger] store.users[k].id == store.tasks[i].owner;
            assert(grown.users[k].id == grown.tasks[i].owner);
        }
    }
}

/// A name that is registered is held by exactly one user. A registration
/// under that name is refused and leaves the store as it was, so the name
/// stays with that one user.
pub proof fn law_username_held_once(store: Relations, name: Seq<char>)
    requires
        store.wf(),
        store.has_username(name),
    ensures
        store.users.filter(|u: UserRow| u.username == name).len() == 1,
{
    let named = |u: UserRow| u.username == name;
    let i = choose|i: int| 0 <= i < store.users.len() && #[trigger] store.users[i].username == name;
    assert forall|j: int| 0 <= j < store.users.len() && j != i implies !named(
        #[trigger] store.users[j],
    ) by {
        if j < i {
            assert(store.users[j].username != store.users[i].username);
        } else {
            assert(store.users[i].username != store.users[j].username);
        }
    }
    lemma_filter_keeps_one(store.users, named, i);
}

/// A task is out of reach of every user but its owner: for another user
/// the task does not count as theirs, and their edit, completion or
/// deletion of it leaves the whole store as it was.
pub proof fn law_ownership_isolation(store: Relations, other: int, task: TaskRow, description: Seq<char>)
    requires
        store.wf(),
        store.tasks.contains(task),
        task.owner != other,
    ensures
        !store.owns(other, task.id),
        store.edited(other, task.id, description) == store,
        store.completed(other, task.id) == store,
        store.deleted(other, task.id) == store,
{
    let at = choose|at: int| 0 <= at < store.tasks.len() && store.tasks[at] == task;
    assert forall|i: int| 0 <= i < store.tasks.len() implies !((#[trigger] store.tasks[i]).id
        == task.id && store.tasks[i].owner == other) by {
        if i < at {
            assert(store.tasks[i].id < store.tasks[at].id);
        } else if at < i {
            assert(store.tasks[at].id < store.tasks[i].id);
        }
    }
    assert(store.edited(other, task.id, description).tasks =~= store.tasks);
    assert(store.completed(other, task.id).tasks =~= store.tasks);
    lemma_filter_keeps_all(store.tasks, |t: TaskRow| !(t.id == task.id && t.owner == other));
}

/// Whatever a user does to a task by its identity, the tasks of every
/// other user stay as they were.
pub proof fn law_others_untouched(store: Relations, user: int, id: int, description: Seq<char>, other: int)
    requires
        other != user,
    ensures
        store.edited(user, id, description).tasks_of(other) == store.tasks_of(other),
        store.completed(user, id).tasks_of(other) == store.tasks_of(other),
        store.deleted(user, id).tasks_of(other) == store.tasks_of(other),
{
    lemma_filter_of_map(
        store.tasks,
        |t: TaskRow|
            if t.id == id && t.owner == user {
                TaskRow { id: t.id, owner: t.owner, description, completed: t.completed }
            } else {
                t
            },
        owned_by(other),
    );
    lemma_filter_of_map(
        store.tasks,
        |t: TaskRow|
            if t.id == id && t.owner == user {
                TaskRow { id: t.id, owner: t.owner, description: t.description, completed: true }
            } else {
                t
            },
        owned_by(other),
    );
    lemma_filter_twice(store.tasks, |t: TaskRow| !(t.id == id && t.owner == user), owned_by(other));
}

/// The list of a user holds exactly their tasks, in strictly ascending
/// order of identity: the task at position n is the one with the n-th
/// smallest identity among them. Position 0 and positions past the end
/// find nothing.
pub proof fn law_position_is_rank(store: Relations, owner: int, position: int)
    requires
        store.wf(),
    ensures
        task_ids_ascending(store.tasks_of(owner)),
        forall|t: TaskRow| #[trigger]
            store.tasks_of(owner).contains(t) <==> store.tasks.contains(t) && t.owner == owner,
        store.resolve(owner, position) is Some <==> 1 <= position <= store.tasks_of(owner).len(),
        store.resolve(owner, position) matches Some(id) ==> store.owns(owner, id) && id
            == store.tasks_of(owner)[position - 1].id,
{
    lemma_filter_members(store.tasks, owned_by(owner));
    lemma_filter_ascending(store.tasks, owned_by(owner));
    if store.resolve(owner, position) is Some {
        let t = store.tasks_of(owner)[position - 1];
        assert(store.tasks_of(owner).contains(t));
        let i = choose|i: int| 0 <= i < store.tasks.len() && store.tasks[i] == t;
        assert(store.tasks[i].id == t.id && store.tasks[i].owner == owner);
    }
}

/// A position is a rank at the time of asking, not a name for a task: once
/// the task at position `k` of a user's list is deleted, each later
/// position stands for the task that stood one place further on, and each
/// earlier position for the task it stood for before. A number read off a
/// list that has changed since may so name another task.
pub proof fn law_deletion_shifts_positions(store: Relations, owner: int, k: int, n: int)
    requires
        store.wf(),
        store.resolve(owner, k) is Some,
    ensures
        store.deleted(owner, store.resolve(owner, k)->Some_0).tasks_of(owner) == store.tasks_of(
            owner,
        ).remove(k - 1),
        n < k ==> store.deleted(owner, store.resolve(owner, k)->Some_0).resolve(owner, n)
            == store.resolve(owner, n),
        n >= k ==> store.deleted(owner, store.resolve(owner, k)->Some_0).resolve(owner, n)
            == store.resolve(owner, n + 1),
{
    let id = store.resolve(owner, k)->Some_0;
    let mine = store.tasks_of(owner);
    let keep = |t: TaskRow| !(t.id == id && t.owner == owner);
    lemma_filter_commutes(store.tasks, keep, owned_by(owner));
    lemma_filter_ascending(store.tasks, owned_by(owner));
    lemma_filter_members(store.tasks, owned_by(owner));
    assert forall|j: int| 0 <= j < mine.len() && j != k - 1 implies keep(#[trigger] mine[j]) by {
        if j < k - 1 {
            assert(mine[j].id < mine[k - 1].id);
        } else {
            assert(mine[k - 1].id < mine[j].id);
        }
    }
    assert(!keep(mine[k - 1])) by {
        assert(mine.contains(mine[k - 1]));
    }
    lemma_filter_removes_one(mine, keep, k - 1);
}

/// Tasks picked out of tasks in ascending order of identity are in
/// ascending order of identity.
proof fn lemma_filter_ascending(tasks: Seq<TaskRow>, keep: spec_fn(TaskRow) -> bool)
    requires
        task_ids_ascending(tasks),
    ensures
        task_ids_ascending(tasks.filter(keep)),
    decreases tasks.len(),
{
    reveal(Seq::filter);
    if tasks.len() > 0 {
        let rest = tasks.drop_last();
        assert(task_ids_ascending(rest)) by {
            assert forall|i: int, j: int| 0 <= i < j < rest.len() implies #[trigger] rest[i].id
                < #[trigger] rest[j].id by {
                assert(tasks[i].id < tasks[j].id);
            }
        }
        lemma_filter_ascending(rest, keep);
        lemma_filter_members(rest, keep);
        let kept = tasks.filter(keep);
        let before = rest.filter(keep);
        assert forall|i: int, j: int| 0 <= i < j < kept.len() implies #[trigger] kept[i].id
            < #[trigger] kept[j].id by {
            if j < before.len() {
                assert(before[i].id < before[j].id);
            } else {
                assert(before.contains(before[i]));
                let k = choose|k: int| 0 <= k < rest.len() && rest[k] == before[i];
                assert(tasks[k].id < tasks[tasks.len() - 1].id);
            }
        }
    }
}

/// A login under a name that no user has and a login with a password that
/// the stored hash does not accept end alike: in nothing.
pub proof fn law_failed_logins_alike(
    store: Relations,
    unknown: Seq<char>,
    known: Seq<char>,
    any_password: Seq<char>,
    wrong_password: Seq<char>,
)
    requires
        !store.has_username(unknown),
        store.user_named(known) matches Some(user) && !accepts(wrong_password, user.password_hash),
    ensures
        login(store, unknown, any_password) is None,
        login(store, known, wrong_password) is None,
{
}

/// The tasks of one user, exported and imported for another, stand at the
/// end of that user's list with the same descriptions and completion
/// flags in the same order. For a user who had no tasks the list is the
/// exported one. The new tasks get identities that no task had before, all
/// different, and the store keeps its constraints.
pub proof fn law_export_import_round_trip(store: Relations, from: int, to: int)
    requires
        store.wf(),
        store.has_user(to),
    ensures
        store.with_tasks(to, store.exported(from)).exported(to) == store.exported(to)
            + store.exported(from),
        store.tasks_of(to).len() == 0 ==> store.with_tasks(to, store.exported(from)).exported(to)
            == store.exported(from),
        store.with_tasks(to, store.exported(from)).wf(),
        forall|k: int|
            store.tasks.len() <= k < store.with_tasks(to, store.exported(from)).tasks.len() ==> (
            #[trigger] store.with_tasks(to, store.exported(from)).tasks[k]).id
                == store.next_task_id() + (k - store.tasks.len()),
{
    let list = store.exported(from);
    let after = store.with_tasks(to, list);
    let block = Seq::new(
        list.len(),
        |k: int|
            TaskRow {
                id: store.next_task_id() + k,
                owner: to,
                description: list[k].description,
                completed: list[k].completed,
            },
    );
    let project = |t: TaskRow| t.entry();
    assert(after.tasks == store.tasks + block);
    Seq::filter_distributes_over_add(store.tasks, block, owned_by(to));
    lemma_filter_keeps_all(block, owned_by(to));
    assert(after.tasks_of(to) == store.tasks_of(to) + block);
    assert(block.map_values(project) =~= list);
    assert((store.tasks_of(to) + block).map_values(project) =~= store.tasks_of(to).map_values(project)
        + block.map_values(project));
    if store.tasks_of(to).len() == 0 {
        assert(store.exported(to) + list =~= list);
    }
    lemma_with_tasks_wf(store, to, list);
}

/// One malformed entry spoils a document: entries that all stand for a
/// task, followed by one that does not, are no document, and the place of
/// the bad entry is reported; without it they are a document with as many
/// entries as there are objects.
pub proof fn law_malformed_entry_spoils_document(
    valid: Seq<Seq<(Seq<char>, Option<ScalarValue>)>>,
    bad: Seq<(Seq<char>, Option<ScalarValue>)>,
)
    requires
        forall|i: int| 0 <= i < valid.len() ==> entry_of(#[trigger] valid[i]) is Some,
        entry_of(bad) is None,
    ensures
        entries_of(valid.push(bad)) == Err::<Seq<Entry>, int>(valid.len() as int),
        entries_of(valid) matches Ok(list) && list.len() == valid.len(),
{
    let all = valid.push(bad);
    assert(first_malformed(all, valid.len() as int)) by {
        assert forall|j: int| 0 <= j < valid.len() implies entry_of(#[trigger] all[j]) is Some by {
            assert(all[j] == valid[j]);
        }
    }
    let c = choose|c: int| first_malformed(all, c);
    assert(c == valid.len()) by {
        if c < valid.len() {
            assert(all[c] == valid[c]);
        } else if c > valid.len() {
            assert(entry_of(all[valid.len() as int]) is Some);
        }
    }
    assert forall|k: int| !first_malformed(valid, k) by {
        if 0 <= k < valid.len() {
            assert(entry_of(valid[k]) is Some);
        }
    }
}

/// Completing a task twice is completing it once: the second completion
/// finds the task as the first did, changes nothing, and the task is
/// completed after either.
pub proof fn law_completion_idempotent(store: Relations, owner: int, id: int)
    ensures
        store.completed(owner, id).owns(owner, id) == store.owns(owner, id),
        store.completed(owner, id).completed(owner, id) == store.completed(owner, id),
        forall|i: int|
            0 <= i < store.tasks.len() && store.tasks[i].id == id && store.tasks[i].owner == owner
                ==> (#[trigger] store.completed(owner, id).tasks[i]).completed,
{
    let once = store.completed(owner, id);
    assert(once.completed(owner, id).tasks =~= once.tasks);
    if store.owns(owner, id) {
        let i = choose|i: int|
            0 <= i < store.tasks.len() && (#[trigger] store.tasks[i]).id == id && store.tasks[i].owner
                == owner;
        assert(once.tasks[i].id == id && once.tasks[i].owner == owner);
    }
    if once.owns(owner, id) {
        let i = choose|i: int|
            0 <= i < once.tasks.len() && (#[trigger] once.tasks[i]).id == id && once.tasks[i].owner
                == owner;
        assert(store.tasks[i].id == id && store.tasks[i].owner == owner);
    }
}

} // verus!
