use clip::models::{Note, Task};
use clip::note_md::{note_to_md, parse_note_from_md};
use clip::task_md::{parse_task_from_md, task_to_md};

fn sample_task() -> Task {
    Task {
        id: String::from("1"),
        text: String::from("Buy milk"),
        completed: false,
        priority: String::from("high"),
        created_at: String::from("1000"),
    }
}

#[test]
fn task_encode_scenario() {
    let encoded = task_to_md(&sample_task());
    assert_eq!(encoded, "- [ ] Buy milk\n\n---\npriority: high\ncreated: 1000\n");
}

#[test]
fn task_decode_scenario() {
    let t = parse_task_from_md("1", "- [ ] Buy milk\n\n---\npriority: high\ncreated: 1000\n")
        .expect("task should parse");
    assert_eq!(t.id, "1");
    assert_eq!(t.text, "Buy milk");
    assert!(!t.completed);
    assert_eq!(t.priority, "high");
    assert_eq!(t.created_at, "1000");
}

#[test]
fn task_round_trip_completed() {
    let task = Task {
        id: String::from("abc"),
        text: String::from("ship the release"),
        completed: true,
        priority: String::from("low"),
        created_at: String::from("123456"),
    };
    let t = parse_task_from_md("abc", &task_to_md(&task)).expect("task should parse");
    assert_eq!(t.text, "ship the release");
    assert!(t.completed);
    assert_eq!(t.priority, "low");
    assert_eq!(t.created_at, "123456");
}

#[test]
fn task_decode_empty_is_none() {
    assert!(parse_task_from_md("x", "").is_none());
}

#[test]
fn task_decode_defaults() {
    // no checkbox line: the first line verbatim becomes the text,
    // priority defaults to medium, the rest stays empty
    let t = parse_task_from_md("x", "just a line\n").expect("task should parse");
    assert_eq!(t.text, "just a line");
    assert!(!t.completed);
    assert_eq!(t.priority, "medium");
    assert_eq!(t.created_at, "");
}

#[test]
fn task_decode_checkbox_with_empty_remainder() {
    // a checkbox line was found, so the first line is not used verbatim:
    // the text is the (empty) trimmed remainder of the checkbox line
    let t = parse_task_from_md("x", "- [x]\npriority: low\n").expect("task should parse");
    assert!(t.completed);
    assert_eq!(t.text, "");
    assert_eq!(t.priority, "low");
}

#[test]
fn task_decode_crlf_line_endings() {
    let t = parse_task_from_md("x", "- [ ] milk\r\n\r\n---\r\npriority: high\r\ncreated: 7\r\n")
        .expect("task should parse");
    assert_eq!(t.text, "milk");
    assert!(!t.completed);
    assert_eq!(t.priority, "high");
    assert_eq!(t.created_at, "7");
}

#[test]
fn task_decode_unicode_whitespace_trim() {
    let t = parse_task_from_md("x", "- [x] \u{a0}padded\u{a0}\n").expect("task should parse");
    assert_eq!(t.text, "padded");
}

#[test]
fn task_decode_uppercase_checkbox() {
    let t = parse_task_from_md("x", "- [X] shout\n").expect("task should parse");
    assert!(t.completed);
    assert_eq!(t.text, "shout");
}

#[test]
fn task_decode_last_metadata_wins() {
    let text = "- [ ] things\npriority: low\npriority: high\ncreated: 1\ncreated: 2\n";
    let t = parse_task_from_md("x", text).expect("task should parse");
    assert_eq!(t.priority, "high");
    assert_eq!(t.created_at, "2");
}

#[test]
fn task_decode_trims_values() {
    let t = parse_task_from_md("x", "- [x]   spaced out  \npriority:   low  \n")
        .expect("task should parse");
    assert_eq!(t.text, "spaced out");
    assert_eq!(t.priority, "low");
}

fn sample_note() -> Note {
    Note {
        id: String::from("n1"),
        title: String::from("Ideas"),
        content: String::from("Line one"),
        created_at: String::from("1000"),
        updated_at: String::from("1000"),
    }
}

#[test]
fn note_encode_scenario() {
    let encoded = note_to_md(&sample_note());
    assert_eq!(encoded, "---\ncreated: 1000\nupdated: 1000\n---\n\n# Ideas\n\nLine one\n");
}

#[test]
fn note_decode_scenario() {
    let n = parse_note_from_md("n1", "---\ncreated: 1000\nupdated: 1000\n---\n\n# Ideas\n\nLine one\n");
    assert_eq!(n.id, "n1");
    assert_eq!(n.title, "Ideas");
    assert_eq!(n.content, "Line one");
    assert_eq!(n.created_at, "1000");
    assert_eq!(n.updated_at, "1000");
}

#[test]
fn note_round_trip_multiline() {
    let note = Note {
        id: String::from("n2"),
        title: String::from("Plan"),
        content: String::from("first step\n\nsecond step"),
        created_at: String::from("42"),
        updated_at: String::from("43"),
    };
    let n = parse_note_from_md("n2", &note_to_md(&note));
    assert_eq!(n.title, "Plan");
    assert_eq!(n.content, "first step\n\nsecond step");
    assert_eq!(n.created_at, "42");
    assert_eq!(n.updated_at, "43");
}

#[test]
fn note_decode_no_front_matter_heading() {
    let n = parse_note_from_md("x", "# Title\nLine one\nLine two\n");
    assert_eq!(n.title, "Title");
    assert_eq!(n.content, "Line one\nLine two");
    assert_eq!(n.created_at, "");
    assert_eq!(n.updated_at, "");
}

#[test]
fn note_decode_no_front_matter_no_heading() {
    let n = parse_note_from_md("x", "plain text\nwith lines\n");
    assert_eq!(n.title, "");
    assert_eq!(n.content, "plain text\nwith lines\n");
}

#[test]
fn note_decode_unterminated_front_matter() {
    // a single delimiter never closes: treated as no front matter for
    // title and content, though the timestamp inside it is still read
    let n = parse_note_from_md("x", "---\ncreated: 7\nrest of it\n");
    assert_eq!(n.title, "");
    assert_eq!(n.created_at, "7");
    assert_eq!(n.content, "---\ncreated: 7\nrest of it\n");
}

#[test]
fn note_decode_unterminated_front_matter_with_heading() {
    // the leading heading still supplies the title when the lone
    // delimiter never closes
    let n = parse_note_from_md("x", "# T\n---\nrest\n");
    assert_eq!(n.title, "T");
    assert_eq!(n.content, "---\nrest");
    assert_eq!(n.created_at, "");
}

#[test]
fn note_decode_empty() {
    let n = parse_note_from_md("x", "");
    assert_eq!(n.title, "");
    assert_eq!(n.content, "");
    assert_eq!(n.created_at, "");
    assert_eq!(n.updated_at, "");
}

#[test]
fn note_decode_crlf_line_endings() {
    let n = parse_note_from_md(
        "x",
        "---\r\ncreated: 1\r\nupdated: 2\r\n---\r\n\r\n# T\r\n\r\nbody\r\n",
    );
    assert_eq!(n.title, "T");
    assert_eq!(n.content, "body");
    assert_eq!(n.created_at, "1");
    assert_eq!(n.updated_at, "2");
}

#[test]
fn note_decode_only_first_heading_counts() {
    let n = parse_note_from_md("x", "---\ncreated: 1\nupdated: 2\n---\n\n# First\n\nbody\n# Second\n");
    assert_eq!(n.title, "First");
    assert_eq!(n.content, "body\n# Second");
}
