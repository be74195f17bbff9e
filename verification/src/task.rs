//! Tasks and the operations of a user on their own tasks.

use vstd::prelude::*;
use crate::db::{Store, owned_by};
use crate::error::StoreError;
use crate::seq_facts::{lemma_take_next, lemma_filter_of_prefix, lemma_filter_removes_one};

verus! {

/// What a task holds apart from its identity and owner: the form in which
/// tasks leave and enter the store.
#[derive(Clone, Debug, PartialEq, Eq)]
pub struct TaskData {
    pub description: String,
    pub completed: bool,
}

/// A row of the tasks relation.
#[derive(Clone, Debug, PartialEq, Eq)]
pub struct Task {
    pub id: i32,
    pub user_id: i32,
    pub description: String,
    pub completed: bool,
}

/// The mathematical value of a [`TaskData`].
pub struct Entry {
    pub description: Seq<char>,
    pub completed: bool,
}

/// The mathematical value of a [`Task`].
pub struct TaskRow {
    pub id: int,
    pub owner: int,
    pub description: Seq<char>,
    pub completed: bool,
}

impl View for TaskData {
    type V = Entry;

    open spec fn view(&self) -> Entry {
        Entry { description: self.description@, completed: self.completed }
    }
}

impl View for Task {
    type V = TaskRow;

    open spec fn view(&self) -> TaskRow {
        TaskRow {
            id: self.id as int,
            owner: self.user_id as int,
            description: self.description@,
            completed: self.completed,
        }
    }
}

impl TaskRow {
    /// The row without its identity and owner.
    pub open spec fn entry(self) -> Entry {
        Entry { description: self.description, completed: self.completed }
    }
}

/// A line of a user's list as it is shown: the task with its number in the
/// list.
#[derive(Clone, Debug, PartialEq, Eq)]
pub struct TaskLine {
    pub number: usize,
    pub description: String,
    pub completed: bool,
}

/// The mathematical value of a [`TaskLine`].
pub struct Line {
    pub number: int,
    pub description: Seq<char>,
    pub completed: bool,
}

impl View for TaskLine {
    type V = Line;

    open spec fn view(&self) -> Line {
        Line { number: self.number as int, description: self.description@, completed: self.completed }
    }
}

/// The values of a sequence of lines.
pub open spec fn lines(shown: Seq<TaskLine>) -> Seq<Line> {
    shown.map_values(|l: TaskLine| l@)
}

/// The list that is shown for a sequence of tasks: the tasks in their
/// order, numbered from 1.
pub open spec fn numbered(tasks: Seq<TaskRow>) -> Seq<Line> {
    Seq::new(
        tasks.len(),
        |i: int| Line { number: i + 1, description: tasks[i].description, completed: tasks[i].completed },
    )
}

/// The values of a sequence of tasks.
pub open spec fn task_rows(tasks: Seq<Task>) -> Seq<TaskRow> {
    tasks.map_values(|t: Task| t@)
}

/// The values of a sequence of entries.
pub open spec fn entries(data: Seq<TaskData>) -> Seq<Entry> {
    data.map_values(|d: TaskData| d@)
}

impl Task {
    /// A copy of the row.
    pub fn duplicate(&self) -> (copy: Task)
        ensures
            copy@ == self@,
    {
        Task {
            id: self.id,
            user_id: self.user_id,
            description: self.description.clone(),
            completed: self.completed,
        }
    }
}

/// The tasks of `user_id`, in ascending order of identity. A user without
/// tasks, or an identity that no user has, gives the empty list.
pub fn get_tasks(store: &Store, user_id: i32) -> (tasks: Vec<Task>)
    ensures
        task_rows(tasks@) == store@.tasks_of(user_id as int),
{
    let ghost rows = store@.tasks;
    let ghost mine = owned_by(user_id as int);
    let mut tasks: Vec<Task> = Vec::new();
    let mut i: usize = 0;
    assert(rows.take(0) =~= Seq::<TaskRow>::empty());
    assert(task_rows(tasks@) =~= Seq::<TaskRow>::empty());
    proof {
        crate::seq_facts::lemma_filter_keeps_none(rows.take(0), mine);
    }
    while i < store.tasks.len()
        invariant
            i <= store.tasks.len(),
            rows == store@.tasks,
            mine == owned_by(user_id as int),
            task_rows(tasks@) == rows.take(i as int).filter(mine),
        decreases store.tasks.len() - i,
    {
        proof {
            lemma_take_next(rows, i as int);
            rows.take(i as int).lemma_filter_push(rows[i as int], mine);
        }
        if store.tasks[i].user_id == user_id {
            let ghost before = tasks@;
            let copy = store.tasks[i].duplicate();
            tasks.push(copy);
            assert(task_rows(tasks@) =~= task_rows(before).push(rows[i as int]));
        }
        i += 1;
    }
    assert(rows.take(i as int) =~= rows);
    tasks
}

/// The list of `user_id` as it is shown: their tasks in ascending order of
/// identity, numbered from 1. The number of a line is the position by which
/// [`get_task_id_by_number`] finds the task, as long as the list does not
/// change in between.
pub fn view_tasks(store: &Store, user_id: i32) -> (shown: Vec<TaskLine>)
    ensures
        lines(shown@) == numbered(store@.tasks_of(user_id as int)),
{
    let tasks = get_tasks(store, user_id);
    let mut shown: Vec<TaskLine> = Vec::new();
    let mut i: usize = 0;
    while i < tasks.len()
        invariant
            i <= tasks.len(),
            shown.len() == i,
            forall|j: int|
                0 <= j < i ==> (#[trigger] shown@[j])@ == (Line {
                    number: j + 1,
                    description: tasks@[j]@.description,
                    completed: tasks@[j]@.completed,
                }),
        decreases tasks.len() - i,
    {
        shown.push(
            TaskLine {
                number: i + 1,
                description: tasks[i].description.clone(),
                completed: tasks[i].completed,
            },
        );
        i += 1;
    }
    assert(lines(shown@) =~= numbered(task_rows(tasks@)));
    shown
}

/// The identity of the task that stands at the 1-based `task_number` in the
/// list of `user_id`. The list is counted afresh at every call; number 0
/// and numbers past the end of the list give `None`.
pub fn get_task_id_by_number(store: &Store, user_id: i32, task_number: usize) -> (id: Option<i32>)
    ensures
        match id {
            Some(id) => store@.resolve(user_id as int, task_number as int) == Some(id as int),
            None => store@.resolve(user_id as int, task_number as int) is None,
        },
{
    if task_number == 0 {
        return None;
    }
    let ghost rows = store@.tasks;
    let ghost mine = owned_by(user_id as int);
    let mut skipped: usize = 0;
    let mut i: usize = 0;
    assert(rows.take(0) =~= Seq::<TaskRow>::empty());
    proof {
        crate::seq_facts::lemma_filter_keeps_none(rows.take(0), mine);
    }
    while i < store.tasks.len()
        invariant
            i <= store.tasks.len(),
            rows == store@.tasks,
            mine == owned_by(user_id as int),
            skipped == rows.take(i as int).filter(mine).len(),
            skipped < task_number,
        decreases store.tasks.len() - i,
    {
        proof {
            lemma_take_next(rows, i as int);
            rows.take(i as int).lemma_filter_push(rows[i as int], mine);
        }
        if store.tasks[i].user_id == user_id {
            if skipped + 1 == task_number {
                proof {
                    lemma_filter_of_prefix(rows, mine, i + 1);
                    let upto = rows.take(i + 1).filter(mine);
                    assert(upto[task_number - 1] == rows[i as int]);
                    assert(upto[task_number - 1] == rows.filter(mine)[task_number - 1]);
                }
                return Some(store.tasks[i].id);
            }
            skipped += 1;
        }
        i += 1;
    }
    assert(rows.take(i as int) =~= rows);
    None
}

/// Adds a task of `user_id` with the given description, not completed, and
/// returns its identity. The description is taken as it is.
pub fn add_task(store: &mut Store, user_id: i32, description: &str) -> (added: Result<i32, StoreError>)
    requires
        old(store).wf(),
    ensures
        final(store).wf(),
        match added {
            Ok(id) => {
                &&& old(store)@.insert_refusal(user_id as int) is None
                &&& id == old(store)@.next_task_id()
                &&& final(store)@ == old(store)@.with_task(
                    user_id as int,
                    Entry { description: description@, completed: false },
                )
            },
            Err(e) => old(store)@.insert_refusal(user_id as int) == Some(e) && final(store)@ == old(
                store,
            )@,
        },
{
    insert_task(store, user_id, description.to_owned(), false)
}

/// Adds a task of `user_id` with the given description and completion
/// flag, and returns its identity.
pub(crate) fn insert_task(store: &mut Store, user_id: i32, description: String, completed: bool) -> (added:
    Result<i32, StoreError>)
    requires
        old(store).wf(),
    ensures
        final(store).wf(),
        match added {
            Ok(id) => {
                &&& old(store)@.insert_refusal(user_id as int) is None
                &&& id == old(store)@.next_task_id()
                &&& final(store)@ == old(store)@.with_task(
                    user_id as int,
                    Entry { description: description@, completed },
                )
            },
            Err(e) => old(store)@.insert_refusal(user_id as int) == Some(e) && final(store)@ == old(
                store,
            )@,
        },
{
    if !store.has_user(user_id) {
        return Err(StoreError::ForeignKeyViolation);
    }
    let count: usize = store.tasks.len();
    let id: i32 = if count == 0 {
        1
    } else {
        let last: i32 = store.tasks[count - 1].id;
        assert(store@.tasks.last().id == last);
        if last == i32::MAX {
            return Err(StoreError::IdentitiesExhausted);
        }
        last + 1
    };
    let ghost before = store@;
    let task = Task { id, user_id, description, completed };
    store.tasks.push(task);
    assert(store@.tasks =~= before.tasks.push(task@));
    assert(store@.users == before.users);
    assert(store@.wf()) by {
        assert forall|i: int| 0 <= i < store@.tasks.len() implies store@.has_user(
            #[trigger] store@.tasks[i].owner,
        ) by {
            if i < before.tasks.len() {
                assert(before.has_user(before.tasks[i].owner));
            }
        }
    }
    Ok(id)
}

/// Replaces the description of task `task_id`, provided the task exists and
/// belongs to `user_id`, and says whether it did. A task of another user is
/// left as it is.
pub fn edit_task(store: &mut Store, user_id: i32, task_id: i32, new_description: &str) -> (changed: bool)
    requires
        old(store).wf(),
    ensures
        final(store).wf(),
        changed == old(store)@.owns(user_id as int, task_id as int),
        final(store)@ == old(store)@.edited(user_id as int, task_id as int, new_description@),
{
    let ghost before = store@;
    match store.position_of(user_id, task_id) {
        Some(i) => {
            let completed = store.tasks[i].completed;
            let task = Task { id: task_id, user_id, description: new_description.to_owned(), completed };
            store.tasks.set(i, task);
            assert(store@.tasks =~= before.edited(
                user_id as int,
                task_id as int,
                new_description@,
            ).tasks);
            assert(store@.users == before.users);
            assert(store@.wf()) by {
                assert forall|k: int| 0 <= k < store@.tasks.len() implies store@.has_user(
                    #[trigger] store@.tasks[k].owner,
                ) by {
                    assert(before.has_user(before.tasks[k].owner));
                }
            }
            true
        },
        None => {
            assert(store@.tasks =~= before.edited(
                user_id as int,
                task_id as int,
                new_description@,
            ).tasks);
            false
        },
    }
}

/// Marks task `task_id` as completed, provided the task exists and belongs
/// to `user_id`, and says whether it does. A task that was completed
/// already stays completed and counts as well.
pub fn mark_task_completed(store: &mut Store, user_id: i32, task_id: i32) -> (marked: bool)
    requires
        old(store).wf(),
    ensures
        final(store).wf(),
        marked == old(store)@.owns(user_id as int, task_id as int),
        final(store)@ == old(store)@.completed(user_id as int, task_id as int),
{
    let ghost before = store@;
    match store.position_of(user_id, task_id) {
        Some(i) => {
            let description = store.tasks[i].description.clone();
            let task = Task { id: task_id, user_id, description, completed: true };
            store.tasks.set(i, task);
            assert(store@.tasks =~= before.completed(user_id as int, task_id as int).tasks);
            assert(store@.users == before.users);
            assert(store@.wf()) by {
                assert forall|k: int| 0 <= k < store@.tasks.len() implies store@.has_user(
                    #[trigger] store@.tasks[k].owner,
                ) by {
                    assert(before.has_user(before.tasks[k].owner));
                }
            }
            true
        },
        None => {
            assert(store@.tasks =~= before.completed(user_id as int, task_id as int).tasks);
            false
        },
    }
}

/// Deletes task `task_id`, provided the task exists and belongs to
/// `user_id`, and says whether it did. A task of another user stays.
pub fn delete_task(store: &mut Store, user_id: i32, task_id: i32) -> (deleted: bool)
    requires
        old(store).wf(),
    ensures
        final(store).wf(),
        deleted == old(store)@.owns(user_id as int, task_id as int),
        final(store)@ == old(store)@.deleted(user_id as int, task_id as int),
{
    let ghost before = store@;
    let ghost keep = |t: TaskRow| !(t.id == task_id as int && t.owner == user_id as int);
    match store.position_of(user_id, task_id) {
        Some(i) => {
            store.tasks.remove(i);
            proof {
                assert(store@.users == before.users);
                lemma_filter_removes_one(before.tasks, keep, i as int);
                assert(store@.tasks =~= before.tasks.remove(i as int));
                assert(store@.tasks == before.deleted(user_id as int, task_id as int).tasks);
                assert forall|k: int| 0 <= k < store@.tasks.len() implies store@.has_user(
                    #[trigger] store@.tasks[k].owner,
                ) by {
                    if k < i {
                        assert(before.has_user(before.tasks[k].owner));
                    } else {
                        assert(before.has_user(before.tasks[k + 1].owner));
                    }
                }
            }
            true
        },
        None => {
            proof {
                crate::seq_facts::lemma_filter_keeps_all(before.tasks, keep);
            }
            false
        },
    }
}

} // verus!
