//! The two entity kinds of the store, and the bundle returned by a full load.

use vstd::prelude::*;

verus! {

/// A task: one checkbox line of text with a priority and a creation time.
/// `created_at` holds seconds since the epoch as decimal text.
#[derive(Debug, Clone)]
pub struct Task {
    pub id: String,
    pub text: String,
    pub completed: bool,
    pub priority: String,
    pub created_at: String,
}

/// A note: a title taken from a leading heading line, free-form content,
/// and creation/update times as decimal text.
#[derive(Debug, Clone)]
pub struct Note {
    pub id: String,
    pub title: String,
    pub content: String,
    pub created_at: String,
    pub updated_at: String,
}

/// Mathematical image of a `Task`: every text field as a sequence of chars.
pub struct TaskView {
    pub id: Seq<char>,
    pub text: Seq<char>,
    pub completed: bool,
    pub priority: Seq<char>,
    pub created_at: Seq<char>,
}

/// Mathematical image of a `Note`.
pub struct NoteView {
    pub id: Seq<char>,
    pub title: Seq<char>,
    pub content: Seq<char>,
    pub created_at: Seq<char>,
    pub updated_at: Seq<char>,
}

impl View for Task {
    type V = TaskView;

    open spec fn view(&self) -> TaskView {
        TaskView {
            id: self.id@,
            text: self.text@,
            completed: self.completed,
            priority: self.priority@,
            created_at: self.created_at@,
        }
    }
}

impl DeepView for Task {
    type V = TaskView;

    open spec fn deep_view(&self) -> TaskView {
        self.view()
    }
}

impl View for Note {
    type V = NoteView;

    open spec fn view(&self) -> NoteView {
        NoteView {
            id: self.id@,
            title: self.title@,
            content: self.content@,
            created_at: self.created_at@,
            updated_at: self.updated_at@,
        }
    }
}

impl DeepView for Note {
    type V = NoteView;

    open spec fn deep_view(&self) -> NoteView {
        self.view()
    }
}

/// Everything the store holds: the full task list and note list.
#[derive(Debug)]
pub struct AppData {
    pub tasks: Vec<Task>,
    pub notes: Vec<Note>,
}

impl Default for AppData {
    fn default() -> (r: AppData)
        ensures
            r.tasks@.len() == 0,
            r.notes@.len() == 0,
    {
        AppData { tasks: Vec::new(), notes: Vec::new() }
    }
}

} // verus!
