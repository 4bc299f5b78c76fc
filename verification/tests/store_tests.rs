use clip::models::{AppData, Note, Task};
use clip::ops::{apply_note_update, apply_task_update, find_note, find_task, make_note, make_task};
use clip::store::{
    data_dir_path, get_config_path, load_notes_from, load_tasks_from, md_file_path, md_stem,
    notes_dir_path, tasks_dir_path, MdFile,
};
use clip::task_md::task_to_md;
use clip::utils::{timestamp_now, u64_to_dec, u64_to_hex, uuid_simple};

fn file(id: &str, content: &str) -> MdFile {
    MdFile { id: String::from(id), content: String::from(content) }
}

#[test]
fn load_skips_corrupt_task_file() {
    // one unparseable (empty) file among two valid ones: exactly two tasks
    let files = vec![
        file("a", "- [ ] first\n\n---\npriority: high\ncreated: 1\n"),
        file("broken", ""),
        file("c", "- [x] third\n\n---\npriority: low\ncreated: 3\n"),
    ];
    let tasks = load_tasks_from(&files);
    assert_eq!(tasks.len(), 2);
    assert_eq!(tasks[0].id, "a");
    assert_eq!(tasks[0].text, "first");
    assert_eq!(tasks[1].id, "c");
    assert!(tasks[1].completed);
}

#[test]
fn load_notes_never_fails() {
    let files = vec![file("a", ""), file("b", "# Hello\nworld\n")];
    let notes = load_notes_from(&files);
    assert_eq!(notes.len(), 2);
    assert_eq!(notes[0].id, "a");
    assert_eq!(notes[0].title, "");
    assert_eq!(notes[1].title, "Hello");
    assert_eq!(notes[1].content, "world");
}

#[test]
fn delete_then_list_has_no_deleted_id() {
    // the listing after a delete no longer holds x.md: no loaded task has id x
    let files = vec![
        file("a", "- [ ] one\n"),
        file("b", "- [ ] two\n"),
    ];
    let tasks = load_tasks_from(&files);
    assert!(tasks.iter().all(|t| t.id != "x"));
    assert_eq!(tasks.len(), 2);
}

#[test]
fn save_twice_decodes_unchanged() {
    // both saves write the same bytes, so the second decode equals the first
    let task = Task {
        id: String::from("t"),
        text: String::from("steady"),
        completed: false,
        priority: String::from("medium"),
        created_at: String::from("5"),
    };
    let first = task_to_md(&task);
    let second = task_to_md(&task);
    assert_eq!(first, second);
}

#[test]
fn partial_update_keeps_other_fields() {
    let task = Task {
        id: String::from("t"),
        text: String::from("the errand"),
        completed: false,
        priority: String::from("high"),
        created_at: String::from("9"),
    };
    let updated = apply_task_update(&task, None, Some(true), None);
    assert_eq!(updated.id, "t");
    assert_eq!(updated.text, "the errand");
    assert!(updated.completed);
    assert_eq!(updated.priority, "high");
    assert_eq!(updated.created_at, "9");
}

#[test]
fn note_update_stamps_time() {
    let note = Note {
        id: String::from("n"),
        title: String::from("old title"),
        content: String::from("old content"),
        created_at: String::from("1"),
        updated_at: String::from("1"),
    };
    let updated = apply_note_update(&note, Some(String::from("new title")), None, String::from("2"));
    assert_eq!(updated.title, "new title");
    assert_eq!(updated.content, "old content");
    assert_eq!(updated.created_at, "1");
    assert_eq!(updated.updated_at, "2");
}

#[test]
fn find_by_id() {
    let tasks = vec![
        Task {
            id: String::from("a"),
            text: String::from("one"),
            completed: false,
            priority: String::from("medium"),
            created_at: String::from("1"),
        },
        Task {
            id: String::from("b"),
            text: String::from("two"),
            completed: false,
            priority: String::from("medium"),
            created_at: String::from("2"),
        },
    ];
    assert_eq!(find_task(&tasks, &String::from("b")), Some(1));
    assert_eq!(find_task(&tasks, &String::from("zz")), None);
    let notes = vec![Note {
        id: String::from("n"),
        title: String::from(""),
        content: String::from(""),
        created_at: String::from(""),
        updated_at: String::from(""),
    }];
    assert_eq!(find_note(&notes, &String::from("n")), Some(0));
    assert_eq!(find_note(&notes, &String::from("m")), None);
}

#[test]
fn fresh_entities() {
    let task = make_task(String::from("do it"), String::from("high"));
    assert_eq!(task.text, "do it");
    assert!(!task.completed);
    assert_eq!(task.priority, "high");
    assert!(task.id.chars().all(|c| c.is_ascii_hexdigit()));
    assert!(task.created_at.chars().all(|c| c.is_ascii_digit()));
    let note = make_note(String::from("t"), String::from("c"));
    assert_eq!(note.title, "t");
    assert_eq!(note.content, "c");
    assert_eq!(note.created_at, note.updated_at);
}

#[test]
fn paths() {
    assert_eq!(data_dir_path("/home/u/.local/share"), "/home/u/.local/share/Clip");
    assert_eq!(tasks_dir_path("/data"), "/data/tasks");
    assert_eq!(notes_dir_path("/data"), "/data/notes");
    assert_eq!(get_config_path("/data"), "/data/config.json");
    assert_eq!(md_file_path("/data/tasks", "abc"), "/data/tasks/abc.md");
}

#[test]
fn stems() {
    assert_eq!(md_stem("abc.md"), Some(String::from("abc")));
    assert_eq!(md_stem("a.tar.md"), Some(String::from("a.tar")));
    assert_eq!(md_stem("abc.txt"), None);
    assert_eq!(md_stem(".md"), None);
    assert_eq!(md_stem("md"), None);
}

#[test]
fn renderings() {
    assert_eq!(u64_to_hex(0), "0");
    assert_eq!(u64_to_hex(255), "ff");
    assert_eq!(u64_to_hex(3735928559), "deadbeef");
    assert_eq!(u64_to_dec(0), "0");
    assert_eq!(u64_to_dec(1000), "1000");
    assert_eq!(u64_to_dec(18446744073709551615), "18446744073709551615");
    let now = timestamp_now();
    assert!(!now.is_empty());
    assert!(now.chars().all(|c| c.is_ascii_digit()));
    let id = uuid_simple();
    assert!(!id.is_empty());
    assert!(id.chars().all(|c| c.is_ascii_hexdigit()));
}

#[test]
fn default_app_data_is_empty() {
    let data = AppData::default();
    assert!(data.tasks.is_empty());
    assert!(data.notes.is_empty());
}
