//! Export of a user's tasks to a document and import of a document into a
//! user's tasks. A document is JSON text: an array of objects, each with a
//! text member `description` and a boolean member `completed`.

use vstd::prelude::*;
use crate::db::{lemma_with_tasks_wf, Store};
use crate::error::StoreError;
use crate::seq_facts::lemma_take_next;
use crate::task::{get_tasks, entries, task_rows, Entry, Task, TaskData, TaskRow};

verus! {

/// A value that a member of a document's object may hold and that an entry
/// is read from.
#[derive(Clone, Debug, PartialEq, Eq)]
pub enum Scalar {
    Text(String),
    Flag(bool),
}

/// The mathematical value of a [`Scalar`].
pub enum ScalarValue {
    Text(Seq<char>),
    Flag(bool),
}

impl View for Scalar {
    type V = ScalarValue;

    open spec fn view(&self) -> ScalarValue {
        match self {
            Scalar::Text(s) => ScalarValue::Text(s@),
            Scalar::Flag(b) => ScalarValue::Flag(*b),
        }
    }
}

/// The values of the members of a parsed object: each key with the text or
/// boolean under it, and `None` where the member holds a value of another
/// kind.
pub open spec fn member_values(members: Seq<(String, Option<Scalar>)>) -> Seq<
    (Seq<char>, Option<ScalarValue>),
> {
    members.map_values(
        |m: (String, Option<Scalar>)|
            (
                m.0@,
                match m.1 {
                    Some(s) => Some(s@),
                    None => None,
                },
            ),
    )
}

/// The values of the objects of a parsed document.
pub open spec fn object_values(objects: Seq<Vec<(String, Option<Scalar>)>>) -> Seq<
    Seq<(Seq<char>, Option<ScalarValue>)>,
> {
    objects.map_values(|o: Vec<(String, Option<Scalar>)>| member_values(o@))
}

/// The values of the members of an object that is to be written.
pub open spec fn written_members(members: Seq<(String, Scalar)>) -> Seq<(Seq<char>, ScalarValue)> {
    members.map_values(|m: (String, Scalar)| (m.0@, m.1@))
}

/// The values of the objects of a document that is to be written.
pub open spec fn written_objects(objects: Seq<Vec<(String, Scalar)>>) -> Seq<
    Seq<(Seq<char>, ScalarValue)>,
> {
    objects.map_values(|o: Vec<(String, Scalar)>| written_members(o@))
}

/// What `serde_json::from_str` reads from a text as an array of objects:
/// the members of each object as its map holds them, or `None` where the
/// text is no JSON or no array of objects. The map keeps the members in
/// the order of the text and a key once.
pub uninterp spec fn json_objects(text: Seq<char>) -> Option<
    Seq<Seq<(Seq<char>, Option<ScalarValue>)>>,
>;

/// What `serde_json::to_string_pretty` writes for an array of objects with
/// the given members, or `None` where it fails.
pub uninterp spec fn json_pretty(objects: Seq<Seq<(Seq<char>, ScalarValue)>>) -> Option<Seq<char>>;

/// Calls `serde_json::from_str` for an array of maps from text keys to
/// JSON values, and hands each member over with its key: a string or a
/// boolean as it is, a value of any other kind as `None`. The result
/// depends on the text alone; `None` stands for the parser's error.
#[verifier::external_body]
fn parse_objects(text: &str) -> (objects: Option<Vec<Vec<(String, Option<Scalar>)>>>)
    ensures
        match objects {
            Some(objects) => json_objects(text@) == Some(object_values(objects@)),
            None => json_objects(text@) is None,
        },
{
    let parsed: Vec<serde_json::Map<String, serde_json::Value>> = serde_json::from_str(text).ok()?;
    Some(parsed.into_iter().map(|object| object.into_iter().map(|(key, value)| (key, match value {
        serde_json::Value::String(s) => Some(Scalar::Text(s)),
        serde_json::Value::Bool(b) => Some(Scalar::Flag(b)),
        serde_json::Value::Null => None,
        serde_json::Value::Number(_) => None,
        serde_json::Value::Array(_) => None,
        serde_json::Value::Object(_) => None,
    })).collect()).collect())
}

/// Builds an array of JSON objects with the given members, in their
/// order, and calls `serde_json::to_string_pretty` on it. The result
/// depends on the members alone; `None` stands for the serializer's error.
#[verifier::external_body]
fn render_objects(objects: &Vec<Vec<(String, Scalar)>>) -> (text: Option<String>)
    ensures
        match text {
            Some(text) => json_pretty(written_objects(objects@)) == Some(text@),
            None => json_pretty(written_objects(objects@)) is None,
        },
{
    let array: Vec<serde_json::Map<String, serde_json::Value>> = objects.iter().map(|object| object.iter().map(|(key, value)| (key.clone(), match value {
        Scalar::Text(s) => serde_json::Value::String(s.clone()),
        Scalar::Flag(b) => serde_json::Value::Bool(*b),
    })).collect()).collect();
    serde_json::to_string_pretty(&array).ok()
}

/// The key of the member that holds a task's description.
pub open spec fn description_key() -> Seq<char> {
    "description"@
}

/// The key of the member that holds a task's completion flag.
pub open spec fn completed_key() -> Seq<char> {
    "completed"@
}

/// The member at `i` is the first of the object under `key`.
pub open spec fn first_under(members: Seq<(Seq<char>, Option<ScalarValue>)>, key: Seq<char>, i: int) -> bool {
    &&& 0 <= i < members.len()
    &&& members[i].0 == key
    &&& forall|j: int| 0 <= j < i ==> (#[trigger] members[j]).0 != key
}

/// What the object holds under `key`: nothing where it has no such member,
/// else the text or boolean of the first such member, or `None` for a
/// value of another kind.
pub open spec fn member_under(members: Seq<(Seq<char>, Option<ScalarValue>)>, key: Seq<char>) -> Option<
    Option<ScalarValue>,
> {
    if exists|i: int| first_under(members, key, i) {
        Some(members[choose|i: int| first_under(members, key, i)].1)
    } else {
        None
    }
}

/// The entry that an object of a document stands for: it needs a text
/// under `description` and a boolean under `completed`; other members are
/// passed over.
pub open spec fn entry_of(members: Seq<(Seq<char>, Option<ScalarValue>)>) -> Option<Entry> {
    match (member_under(members, description_key()), member_under(members, completed_key())) {
        (Some(Some(ScalarValue::Text(description))), Some(Some(ScalarValue::Flag(completed)))) => Some(
            Entry { description, completed },
        ),
        _ => None,
    }
}

/// The object at `i` is the first of the document that stands for no entry.
pub open spec fn first_malformed(objects: Seq<Seq<(Seq<char>, Option<ScalarValue>)>>, i: int) -> bool {
    &&& 0 <= i < objects.len()
    &&& entry_of(objects[i]) is None
    &&& forall|j: int| 0 <= j < i ==> entry_of(#[trigger] objects[j]) is Some
}

/// The entries that the objects of a document stand for, or the place of
/// the first object that stands for none.
pub open spec fn entries_of(objects: Seq<Seq<(Seq<char>, Option<ScalarValue>)>>) -> Result<
    Seq<Entry>,
    int,
> {
    if exists|i: int| first_malformed(objects, i) {
        Err(choose|i: int| first_malformed(objects, i))
    } else {
        Ok(Seq::new(objects.len(), |i: int| entry_of(objects[i])->Some_0))
    }
}

/// The object that an entry is written as: its description, then its
/// completion flag.
pub open spec fn object_of(entry: Entry) -> Seq<(Seq<char>, ScalarValue)> {
    seq![
        (description_key(), ScalarValue::Text(entry.description)),
        (completed_key(), ScalarValue::Flag(entry.completed)),
    ]
}

/// The objects that a sequence of entries is written as.
pub open spec fn objects_of(list: Seq<Entry>) -> Seq<Seq<(Seq<char>, ScalarValue)>> {
    list.map_values(|e: Entry| object_of(e))
}

/// The entries that a text holds as a document, or why it is none.
pub open spec fn document_entries(text: Seq<char>) -> Result<Seq<Entry>, StoreError> {
    match json_objects(text) {
        None => Err(StoreError::MalformedDocument),
        Some(objects) => match entries_of(objects) {
            Ok(list) => Ok(list),
            Err(i) => Err(StoreError::MalformedEntry { index: i as usize }),
        },
    }
}

/// What the first member under `key` holds, if the object has such a
/// member.
fn find_member<'a>(members: &'a Vec<(String, Option<Scalar>)>, key: &String) -> (found: Option<
    &'a Option<Scalar>,
>)
    ensures
        match found {
            Some(value) => member_under(member_values(members@), key@) == Some(
                match *value {
                    Some(s) => Some(s@),
                    None => None,
                },
            ),
            None => member_under(member_values(members@), key@) is None,
        },
{
    let ghost values = member_values(members@);
    let mut i: usize = 0;
    while i < members.len()
        invariant
            i <= members.len(),
            values == member_values(members@),
            forall|j: int| 0 <= j < i ==> (#[trigger] values[j]).0 != key@,
        decreases members.len() - i,
    {
        if members[i].0 == *key {
            proof {
                assert(first_under(values, key@, i as int));
                let c = choose|c: int| first_under(values, key@, c);
                assert(c == i) by {
                    if c < i {
                        assert(values[c].0 != key@);
                    } else if i < c {
                        assert(values[i as int].0 != key@);
                    }
                }
            }
            return Some(&members[i].1);
        }
        i += 1;
    }
    None
}

/// Reads the objects of a parsed document as entries. Every object must
/// hold a text under `description` and a boolean under `completed`; the
/// first that does not is reported by its place, and no entry is returned.
pub fn decode_entries(objects: &Vec<Vec<(String, Option<Scalar>)>>) -> (decoded: Result<
    Vec<TaskData>,
    StoreError,
>)
    ensures
        match decoded {
            Ok(data) => entries_of(object_values(objects@)) == Ok::<Seq<Entry>, int>(entries(data@)),
            Err(e) => exists|i: usize|
                e == (StoreError::MalformedEntry { index: i }) && entries_of(object_values(objects@))
                    == Err::<Seq<Entry>, int>(i as int),
        },
{
    let ghost values = object_values(objects@);
    let text_key = "description".to_owned();
    let flag_key = "completed".to_owned();
    let mut data: Vec<TaskData> = Vec::new();
    let mut i: usize = 0;
    while i < objects.len()
        invariant
            i <= objects.len(),
            values == object_values(objects@),
            text_key@ == description_key(),
            flag_key@ == completed_key(),
            data.len() == i,
            forall|j: int| 0 <= j < i ==> entry_of(#[trigger] values[j]) == Some(data@[j]@),
        decreases objects.len() - i,
    {
        let description = find_member(&objects[i], &text_key);
        let completed = find_member(&objects[i], &flag_key);
        match (description, completed) {
            (Some(Some(Scalar::Text(d))), Some(Some(Scalar::Flag(c)))) => {
                let entry = TaskData { description: d.clone(), completed: *c };
                assert(entry_of(values[i as int]) == Some(entry@));
                data.push(entry);
            },
            _ => {
                proof {
                    assert(entry_of(values[i as int]) is None);
                    assert(first_malformed(values, i as int));
                    let c = choose|c: int| first_malformed(values, c);
                    assert(c == i) by {
                        if c < i {
                            assert(entry_of(values[c]) is Some);
                        } else if i < c {
                            assert(entry_of(values[i as int]) is Some);
                        }
                    }
                }
                return Err(StoreError::MalformedEntry { index: i });
            },
        }
        i += 1;
    }
    proof {
        assert forall|k: int| !first_malformed(values, k) by {
            if 0 <= k < values.len() {
                assert(entry_of(values[k]) is Some);
            }
        }
        assert(entries(data@) =~= Seq::new(values.len(), |k: int| entry_of(values[k])->Some_0));
    }
    Ok(data)
}

/// Writes entries as the objects of a document: for each entry its
/// description and its completion flag, under their keys and in this
/// order.
pub fn encode_entries(data: &Vec<TaskData>) -> (objects: Vec<Vec<(String, Scalar)>>)
    ensures
        written_objects(objects@) == objects_of(entries(data@)),
{
    let mut objects: Vec<Vec<(String, Scalar)>> = Vec::new();
    let mut i: usize = 0;
    while i < data.len()
        invariant
            i <= data.len(),
            objects.len() == i,
            forall|j: int|
                0 <= j < i ==> written_members((#[trigger] objects@[j])@) == object_of(data@[j]@),
        decreases data.len() - i,
    {
        let mut members: Vec<(String, Scalar)> = Vec::new();
        members.push(("description".to_owned(), Scalar::Text(data[i].description.clone())));
        members.push(("completed".to_owned(), Scalar::Flag(data[i].completed)));
        assert(written_members(members@) =~= object_of(data@[i as int]@));
        objects.push(members);
        i += 1;
    }
    assert(written_objects(objects@) =~= objects_of(entries(data@)));
    objects
}

/// The tasks of `user_id` without their identities and owner, in ascending
/// order of identity.
pub fn export_tasks(store: &Store, user_id: i32) -> (data: Vec<TaskData>)
    ensures
        entries(data@) == store@.exported(user_id as int),
{
    let tasks = get_tasks(store, user_id);
    let mut data: Vec<TaskData> = Vec::new();
    let mut i: usize = 0;
    while i < tasks.len()
        invariant
            i <= tasks.len(),
            data.len() == i,
            forall|j: int| 0 <= j < i ==> (#[trigger] data@[j])@ == tasks@[j]@.entry(),
        decreases tasks.len() - i,
    {
        data.push(TaskData { description: tasks[i].description.clone(), completed: tasks[i].completed });
        i += 1;
    }
    assert(entries(data@) =~= task_rows(tasks@).map_values(|t: TaskRow| t.entry()));
    data
}

/// Adds one new task of `user_id` for every entry, in the order of the
/// entries, as one unit: where a single one of them would be refused, the
/// store stays as it was. Nothing is matched against the tasks that are
/// there already.
pub fn import_tasks(store: &mut Store, user_id: i32, data: &Vec<TaskData>) -> (imported: Result<
    (),
    StoreError,
>)
    requires
        old(store).wf(),
    ensures
        final(store).wf(),
        match imported {
            Ok(()) => old(store)@.import_refusal(user_id as int, data.len() as int) is None
                && final(store)@ == old(store)@.with_tasks(user_id as int, entries(data@)),
            Err(e) => old(store)@.import_refusal(user_id as int, data.len() as int) == Some(e)
                && final(store)@ == old(store)@,
        },
{
    let ghost before = store@;
    let ghost list = entries(data@);
    let count: usize = data.len();
    if count == 0 {
        assert(store@.tasks =~= before.with_tasks(user_id as int, list).tasks);
        return Ok(());
    }
    if !store.has_user(user_id) {
        return Err(StoreError::ForeignKeyViolation);
    }
    let held: usize = store.tasks.len();
    let first: i32 = if held == 0 {
        1
    } else {
        let last: i32 = store.tasks[held - 1].id;
        assert(before.tasks.last().id == last);
        if last == i32::MAX {
            return Err(StoreError::IdentitiesExhausted);
        }
        last + 1
    };
    let room: i64 = i32::MAX as i64 - first as i64;
    if (count - 1) as u64 > room as u64 {
        return Err(StoreError::IdentitiesExhausted);
    }
    let mut i: usize = 0;
    let mut id: i32 = first;
    assert(store@.tasks =~= before.with_tasks(user_id as int, list.take(0)).tasks);
    while i < count
        invariant
            i <= count,
            count == data.len(),
            list == entries(data@),
            before.wf(),
            before.has_user(user_id as int),
            first == before.next_task_id(),
            first + count - 1 <= i32::MAX,
            id == first + i || (i == count && id == i32::MAX),
            store@ == before.with_tasks(user_id as int, list.take(i as int)),
        decreases count - i,
    {
        let ghost so_far = store@;
        let task = Task {
            id,
            user_id,
            description: data[i].description.clone(),
            completed: data[i].completed,
        };
        store.tasks.push(task);
        proof {
            lemma_take_next(list, i as int);
            assert(store@.users == before.users);
            assert(store@.tasks =~= so_far.tasks.push(task@));
            assert(store@.tasks =~= before.with_tasks(user_id as int, list.take(i + 1)).tasks);
        }
        i += 1;
        if id < i32::MAX {
            id += 1;
        }
    }
    assert(list.take(count as int) =~= list);
    proof {
        lemma_with_tasks_wf(before, user_id as int, list);
    }
    Ok(())
}

/// Writes the tasks of `user_id` as a document: pretty-printed JSON, an
/// array with one object for each task in ascending order of identity,
/// holding the description and the completion flag and neither identity
/// nor owner.
pub fn save_tasks_to_json(store: &Store, user_id: i32) -> (document: Result<String, StoreError>)
    ensures
        match document {
            Ok(text) => json_pretty(objects_of(store@.exported(user_id as int))) == Some(text@),
            Err(e) => e == StoreError::SerializationFailed && json_pretty(
                objects_of(store@.exported(user_id as int)),
            ) is None,
        },
{
    let data = export_tasks(store, user_id);
    let objects = encode_entries(&data);
    match render_objects(&objects) {
        Some(text) => Ok(text),
        None => Err(StoreError::SerializationFailed),
    }
}

/// Reads a document and adds one new task of `user_id` for each of its
/// entries, as one unit: a text that is no document, an entry that is
/// malformed, or a task that the store refuses leaves the store as it was.
pub fn load_tasks_from_json(store: &mut Store, user_id: i32, text: &str) -> (loaded: Result<
    (),
    StoreError,
>)
    requires
        old(store).wf(),
    ensures
        final(store).wf(),
        match document_entries(text@) {
            Err(e) => loaded == Err::<(), StoreError>(e) && final(store)@ == old(store)@,
            Ok(list) => match old(store)@.import_refusal(user_id as int, list.len() as int) {
                Some(e) => loaded == Err::<(), StoreError>(e) && final(store)@ == old(store)@,
                None => loaded is Ok && final(store)@ == old(store)@.with_tasks(user_id as int, list),
            },
        },
{
    let objects = match parse_objects(text) {
        Some(objects) => objects,
        None => {
            return Err(StoreError::MalformedDocument);
        },
    };
    let data = match decode_entries(&objects) {
        Ok(data) => data,
        Err(e) => {
            return Err(e);
        },
    };
    import_tasks(store, user_id, &data)
}

} // verus!
