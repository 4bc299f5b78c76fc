//! The operations the store exposes to its callers: building a fresh
//! entity, applying a partial update, and finding an entity by identifier.

use vstd::prelude::*;
use crate::models::{Note, NoteView, Task, TaskView};
use crate::utils::{spec_dec, spec_hex, timestamp_now, uuid_simple};

verus! {

/// A partial task update: each given field replaces the old one, every
/// other field is kept, and the identifier and creation time never change.
pub open spec fn spec_apply_task_update(
    t: TaskView,
    text: Option<Seq<char>>,
    completed: Option<bool>,
    priority: Option<Seq<char>>,
) -> TaskView {
    TaskView {
        id: t.id,
        text: match text {
            Some(s) => s,
            None => t.text,
        },
        completed: match completed {
            Some(b) => b,
            None => t.completed,
        },
        priority: match priority {
            Some(s) => s,
            None => t.priority,
        },
        created_at: t.created_at,
    }
}

/// A partial note update: given fields replace old ones, the identifier
/// and creation time are kept, and the update time becomes `now`.
pub open spec fn spec_apply_note_update(
    n: NoteView,
    title: Option<Seq<char>>,
    content: Option<Seq<char>>,
    now: Seq<char>,
) -> NoteView {
    NoteView {
        id: n.id,
        title: match title {
            Some(s) => s,
            None => n.title,
        },
        content: match content {
            Some(s) => s,
            None => n.content,
        },
        created_at: n.created_at,
        updated_at: now,
    }
}

/// Apply a partial update to a task.
pub fn apply_task_update(
    task: &Task,
    text: Option<String>,
    completed: Option<bool>,
    priority: Option<String>,
) -> (r: Task)
    ensures
        r@ == spec_apply_task_update(task@, text.deep_view(), completed, priority.deep_view()),
{
    Task {
        id: task.id.clone(),
        text: match text {
            Some(t) => t,
            None => task.text.clone(),
        },
        completed: match completed {
            Some(c) => c,
            None => task.completed,
        },
        priority: match priority {
            Some(p) => p,
            None => task.priority.clone(),
        },
        created_at: task.created_at.clone(),
    }
}

/// Apply a partial update to a note, stamping it with the given time.
pub fn apply_note_update(
    note: &Note,
    title: Option<String>,
    content: Option<String>,
    now: String,
) -> (r: Note)
    ensures
        r@ == spec_apply_note_update(note@, title.deep_view(), content.deep_view(), now@),
{
    Note {
        id: note.id.clone(),
        title: match title {
            Some(t) => t,
            None => note.title.clone(),
        },
        content: match content {
            Some(c) => c,
            None => note.content.clone(),
        },
        created_at: note.created_at.clone(),
        updated_at: now,
    }
}

/// Updating only `completed` leaves the text, the priority, the creation
/// time and the identifier of a task untouched.
pub proof fn lemma_partial_update_keeps_rest(t: TaskView, c: bool)
    ensures
        spec_apply_task_update(t, None, Some(c), None).text == t.text,
        spec_apply_task_update(t, None, Some(c), None).priority == t.priority,
        spec_apply_task_update(t, None, Some(c), None).created_at == t.created_at,
        spec_apply_task_update(t, None, Some(c), None).id == t.id,
        spec_apply_task_update(t, None, Some(c), None).completed == c,
{
}

/// The index of the first task with the given identifier, if any.
pub fn find_task(tasks: &Vec<Task>, id: &String) -> (r: Option<usize>)
    ensures
        match r {
            Some(i) => i < tasks@.len() && tasks@[i as int]@.id == id@ && (forall|k: int|
                0 <= k < i ==> tasks@[k]@.id != id@),
            None => forall|k: int| 0 <= k < tasks@.len() ==> tasks@[k]@.id != id@,
        },
{
    let mut i: usize = 0;
    while i < tasks.len()
        invariant
            i <= tasks@.len(),
            forall|k: int| 0 <= k < i ==> tasks@[k]@.id != id@,
        decreases tasks.len() - i,
    {
        if tasks[i].id == *id {
            return Some(i);
        }
        i = i + 1;
    }
    None
}

/// The index of the first note with the given identifier, if any.
pub fn find_note(notes: &Vec<Note>, id: &String) -> (r: Option<usize>)
    ensures
        match r {
            Some(i) => i < notes@.len() && notes@[i as int]@.id == id@ && (forall|k: int|
                0 <= k < i ==> notes@[k]@.id != id@),
            None => forall|k: int| 0 <= k < notes@.len() ==> notes@[k]@.id != id@,
        },
{
    let mut i: usize = 0;
    while i < notes.len()
        invariant
            i <= notes@.len(),
            forall|k: int| 0 <= k < i ==> notes@[k]@.id != id@,
        decreases notes.len() - i,
    {
        if notes[i].id == *id {
            return Some(i);
        }
        i = i + 1;
    }
    None
}

/// A fresh task: not completed, with a generated identifier and the
/// current time as its creation time.
pub fn make_task(text: String, priority: String) -> (r: Task)
    ensures
        r@.text == text@,
        r@.completed == false,
        r@.priority == priority@,
        exists|s: nat, ns: nat| ns < 1_000_000_000 && r@.id == spec_hex(s) + spec_hex(ns),
        exists|s: nat| r@.created_at == spec_dec(s),
{
    Task {
        id: uuid_simple(),
        text: text,
        completed: false,
        priority: priority,
        created_at: timestamp_now(),
    }
}

/// A fresh note: a generated identifier, and one current time stamped
/// into both the creation and the update field, so the two start equal.
pub fn make_note(title: String, content: String) -> (r: Note)
    ensures
        r@.title == title@,
        r@.content == content@,
        r@.created_at == r@.updated_at,
        exists|s: nat, ns: nat| ns < 1_000_000_000 && r@.id == spec_hex(s) + spec_hex(ns),
        exists|s: nat| r@.created_at == spec_dec(s),
{
    let now = timestamp_now();
    Note {
        id: uuid_simple(),
        title: title,
        content: content,
        created_at: now.clone(),
        updated_at: now,
    }
}

} // verus!
