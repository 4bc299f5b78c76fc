//! Task codec: a task as one Markdown blob with a checkbox line, a
//! separator, and `priority:` / `created:` metadata lines.

use vstd::prelude::*;
use vstd::string::*;
use crate::models::{Task, TaskView};
use crate::text::{
    chars_of, has_prefix, is_trimmed, is_ws, lemma_split_nl_concat, lemma_split_nl_nonempty,
    lemma_split_nl_single, lemma_trim_pad, lines_of, raw_lines, spec_lines, split_nl, starts_with,
    string_of, strip_cr, sub_vec, trim, trim_vec,
};

verus! {

/// The Markdown text a task is saved as: checkbox line, blank line,
/// `---`, then the priority and creation time.
pub open spec fn spec_task_to_md(t: TaskView) -> Seq<char> {
    (if t.completed {
        "- [x] "@
    } else {
        "- [ ] "@
    }) + t.text + "\n\n---\npriority: "@ + t.priority + "\ncreated: "@ + t.created_at + "\n"@
}

/// The fields gathered while scanning the lines of a task file; `seen`
/// records whether any checkbox line was found.
pub struct TaskScan {
    pub completed: bool,
    pub text: Seq<char>,
    pub priority: Seq<char>,
    pub created: Seq<char>,
    pub seen: bool,
}

pub open spec fn task_scan_init() -> TaskScan {
    TaskScan {
        completed: false,
        text: Seq::<char>::empty(),
        priority: "medium"@,
        created: Seq::<char>::empty(),
        seen: false,
    }
}

/// One line of the scan: a checkbox line sets `completed` and the text,
/// a `priority:` or `created:` line sets that field; later lines win.
pub open spec fn task_scan_step(st: TaskScan, line: Seq<char>) -> TaskScan {
    if starts_with(line, "- [x]"@) || starts_with(line, "- [X]"@) {
        TaskScan { completed: true, text: trim(line.skip(5)), seen: true, ..st }
    } else if starts_with(line, "- [ ]"@) {
        TaskScan { completed: false, text: trim(line.skip(5)), seen: true, ..st }
    } else if starts_with(line, "priority:"@) {
        TaskScan { priority: trim(line.skip(9)), ..st }
    } else if starts_with(line, "created:"@) {
        TaskScan { created: trim(line.skip(8)), ..st }
    } else {
        st
    }
}

/// The scan state after the first `n` lines.
pub open spec fn task_scan(lines: Seq<Seq<char>>, n: int) -> TaskScan
    decreases n,
{
    if n <= 0 {
        task_scan_init()
    } else {
        task_scan_step(task_scan(lines, n - 1), lines[n - 1])
    }
}

/// Decoding a task file: `None` exactly when the text has no lines;
/// otherwise the scanned fields, with the first line verbatim as the
/// text when no checkbox line was found at all.
pub open spec fn spec_parse_task(id: Seq<char>, content: Seq<char>) -> Option<TaskView> {
    let ls = spec_lines(content);
    if ls.len() == 0 {
        None
    } else {
        let st = task_scan(ls, ls.len() as int);
        let text = if st.seen {
            st.text
        } else {
            ls[0]
        };
        Some(
            TaskView {
                id: id,
                text: text,
                completed: st.completed,
                priority: st.priority,
                created_at: st.created,
            },
        )
    }
}

/// Serialize a task to its Markdown form.
pub fn task_to_md(task: &Task) -> (r: String)
    ensures
        r@ == spec_task_to_md(task@),
{
    let mut s = String::new();
    if task.completed {
        s.append("- [x] ");
    } else {
        s.append("- [ ] ");
    }
    s.append(task.text.as_str());
    s.append("\n\n---\npriority: ");
    s.append(task.priority.as_str());
    s.append("\ncreated: ");
    s.append(task.created_at.as_str());
    s.append("\n");
    proof {
        assert(s@ =~= spec_task_to_md(task@));
    }
    s
}

/// Decode a task from its Markdown form; the identifier comes from the
/// caller (the file name), never from the contents.
pub fn parse_task_from_md(id: &str, content: &str) -> (r: Option<Task>)
    ensures
        match r {
            Some(t) => spec_parse_task(id@, content@) == Some(t@),
            None => spec_parse_task(id@, content@) is None,
        },
{
    proof {
        reveal_strlit("- [x]");
        reveal_strlit("- [X]");
        reveal_strlit("- [ ]");
        reveal_strlit("priority:");
        reveal_strlit("created:");
        reveal_strlit("medium");
    }
    let cs = chars_of(content);
    let ls = lines_of(&cs);
    if ls.len() == 0 {
        return None;
    }
    let mut completed = false;
    let mut seen = false;
    let mut text: Vec<char> = Vec::new();
    let mut priority: Vec<char> = chars_of("medium");
    let mut created: Vec<char> = Vec::new();
    let ghost dv = ls.deep_view();
    let mut i: usize = 0;
    while i < ls.len()
        invariant
            i <= ls@.len(),
            dv == ls.deep_view(),
            dv.len() == ls@.len(),
            dv == spec_lines(content@),
            task_scan(dv, i as int) == (TaskScan {
                completed: completed,
                text: text@,
                priority: priority@,
                created: created@,
                seen: seen,
            }),
        decreases ls.len() - i,
    {
        let line = &ls[i];
        proof {
            reveal_strlit("- [x]");
            reveal_strlit("- [X]");
            reveal_strlit("- [ ]");
            reveal_strlit("priority:");
            reveal_strlit("created:");
            assert(dv[i as int] =~= line@);
        }
        if has_prefix(line, "- [x]") || has_prefix(line, "- [X]") {
            completed = true;
            seen = true;
            let rest = sub_vec(line, 5, line.len());
            text = trim_vec(&rest);
            proof {
                assert(line@.skip(5) =~= line@.subrange(5, line@.len() as int));
            }
        } else if has_prefix(line, "- [ ]") {
            completed = false;
            seen = true;
            let rest = sub_vec(line, 5, line.len());
            text = trim_vec(&rest);
            proof {
                assert(line@.skip(5) =~= line@.subrange(5, line@.len() as int));
            }
        } else if has_prefix(line, "priority:") {
            let rest = sub_vec(line, 9, line.len());
            priority = trim_vec(&rest);
            proof {
                assert(line@.skip(9) =~= line@.subrange(9, line@.len() as int));
            }
        } else if has_prefix(line, "created:") {
            let rest = sub_vec(line, 8, line.len());
            created = trim_vec(&rest);
            proof {
                assert(line@.skip(8) =~= line@.subrange(8, line@.len() as int));
            }
        }
        i = i + 1;
        proof {
            assert(task_scan(dv, i as int) == task_scan_step(
                task_scan(dv, i as int - 1),
                dv[i as int - 1],
            ));
        }
    }
    let final_text = if seen {
        text
    } else {
        let first = sub_vec(&ls[0], 0, ls[0].len());
        proof {
            assert(first@ =~= dv[0]);
        }
        first
    };
    Some(
        Task {
            id: id.to_owned(),
            text: string_of(&final_text),
            completed: completed,
            priority: string_of(&priority),
            created_at: string_of(&created),
        },
    )
}

/// Task decoding fails exactly on the empty text.
pub proof fn lemma_parse_task_none_iff_empty(id: Seq<char>, content: Seq<char>)
    ensures
        spec_parse_task(id, content) is None <==> content.len() == 0,
{
    if content.len() > 0 {
        if content[content.len() - 1] == '\n' {
            lemma_split_nl_nonempty(content.take(content.len() - 1));
        } else {
            lemma_split_nl_nonempty(content);
        }
    }
}

/// Round trip: decoding an encoded task under its own identifier gives the
/// task back, provided the text is a non-empty trimmed single line and the
/// priority and creation time are trimmed single lines.
pub proof fn lemma_task_round_trip(t: TaskView)
    requires
        t.text.len() > 0,
        is_trimmed(t.text),
        forall|i: int| 0 <= i < t.text.len() ==> t.text[i] != '\n',
        is_trimmed(t.priority),
        forall|i: int| 0 <= i < t.priority.len() ==> t.priority[i] != '\n',
        is_trimmed(t.created_at),
        forall|i: int| 0 <= i < t.created_at.len() ==> t.created_at[i] != '\n',
    ensures
        spec_parse_task(t.id, spec_task_to_md(t)) == Some(t),
{
    reveal_strlit("- [x] ");
    reveal_strlit("- [ ] ");
    reveal_strlit("\n\n---\npriority: ");
    reveal_strlit("\ncreated: ");
    reveal_strlit("\n");
    reveal_strlit("- [x]");
    reveal_strlit("- [X]");
    reveal_strlit("- [ ]");
    reveal_strlit("priority:");
    reveal_strlit("created:");
    reveal_strlit("---");
    reveal_strlit("priority: ");
    reveal_strlit("created: ");
    let nl = seq!['\n'];
    let head = if t.completed {
        "- [x] "@
    } else {
        "- [ ] "@
    };
    let line0 = head + t.text;
    let line2 = "---"@;
    let line3 = "priority: "@ + t.priority;
    let line4 = "created: "@ + t.created_at;
    let enc = spec_task_to_md(t);
    let rest3 = line3 + nl + line4;
    let rest2 = line2 + nl + rest3;
    let rest1 = Seq::<char>::empty() + nl + rest2;
    let body = line0 + nl + rest1;
    assert(enc =~= body + nl);
    assert(enc[enc.len() - 1] == '\n');
    assert(enc.take(enc.len() - 1) =~= body);
    // each piece holds no newline
    assert(forall|i: int| 0 <= i < line0.len() ==> line0[i] != '\n');
    assert(forall|i: int| 0 <= i < line2.len() ==> line2[i] != '\n');
    assert(forall|i: int| 0 <= i < line3.len() ==> line3[i] != '\n');
    assert(forall|i: int| 0 <= i < line4.len() ==> line4[i] != '\n');
    lemma_split_nl_concat(line0, rest1);
    lemma_split_nl_concat(Seq::<char>::empty(), rest2);
    lemma_split_nl_concat(line2, rest3);
    lemma_split_nl_concat(line3, line4);
    lemma_split_nl_single(line0);
    lemma_split_nl_single(Seq::<char>::empty());
    lemma_split_nl_single(line2);
    lemma_split_nl_single(line3);
    lemma_split_nl_single(line4);
    let rawl = raw_lines(enc);
    assert(rawl == split_nl(body));
    assert(rawl =~= seq![line0, Seq::<char>::empty(), line2, line3, line4]);
    // no line of the encoding ends in a carriage return
    assert(is_ws('\r'));
    assert(line0[line0.len() - 1] == t.text[t.text.len() - 1]);
    assert(strip_cr(line0) == line0);
    assert(strip_cr(Seq::<char>::empty()) == Seq::<char>::empty());
    assert(line2[line2.len() - 1] == '-');
    assert(strip_cr(line2) == line2);
    if t.priority.len() == 0 {
        assert(line3[line3.len() - 1] == ' ');
    } else {
        assert(line3[line3.len() - 1] == t.priority[t.priority.len() - 1]);
    }
    assert(strip_cr(line3) == line3);
    if t.created_at.len() == 0 {
        assert(line4[line4.len() - 1] == ' ');
    } else {
        assert(line4[line4.len() - 1] == t.created_at[t.created_at.len() - 1]);
    }
    assert(strip_cr(line4) == line4);
    let ls = spec_lines(enc);
    assert forall|k: int| 0 <= k < ls.len() implies ls[k] == rawl[k] by {
        assert(ls[k] == strip_cr(rawl[k]));
    }
    assert(ls =~= rawl);
    assert(ls =~= seq![line0, Seq::<char>::empty(), line2, line3, line4]);
    // the five scan steps
    let s0 = task_scan(ls, 0);
    let s1 = task_scan(ls, 1);
    let s2 = task_scan(ls, 2);
    let s3 = task_scan(ls, 3);
    let s4 = task_scan(ls, 4);
    let s5 = task_scan(ls, 5);
    assert(s0 == task_scan_init());
    assert(s1 == task_scan_step(s0, line0));
    assert(s2 == task_scan_step(s1, Seq::<char>::empty()));
    assert(s3 == task_scan_step(s2, line2));
    assert(s4 == task_scan_step(s3, line3));
    assert(s5 == task_scan_step(s4, line4));
    // line0 takes the matching checkbox branch
    assert(line0[0] == '-');
    assert(line0[3] == head[3]);
    if t.completed {
        assert(starts_with(line0, "- [x]"@));
    } else {
        assert(!starts_with(line0, "- [x]"@));
        assert(!starts_with(line0, "- [X]"@));
        assert(starts_with(line0, "- [ ]"@));
    }
    assert(line0.skip(5) =~= seq![' '] + t.text);
    assert(seq![' '] + t.text + Seq::<char>::empty() =~= seq![' '] + t.text);
    lemma_trim_pad(seq![' '], t.text, Seq::<char>::empty());
    assert(s1.completed == t.completed);
    assert(s1.text == t.text);
    // the empty line and the separator match nothing
    assert(s2 == s1);
    assert(line2[1] != ' ');
    assert(!starts_with(line2, "- [x]"@));
    assert(!starts_with(line2, "- [X]"@));
    assert(!starts_with(line2, "- [ ]"@));
    assert(s3 == s2);
    // the priority line
    assert(line3[0] == 'p');
    assert(!starts_with(line3, "- [x]"@));
    assert(!starts_with(line3, "- [X]"@));
    assert(!starts_with(line3, "- [ ]"@));
    assert(!starts_with(line3, "created:"@));
    assert(starts_with(line3, "priority:"@));
    assert(line3.skip(9) =~= seq![' '] + t.priority);
    assert(seq![' '] + t.priority + Seq::<char>::empty() =~= seq![' '] + t.priority);
    lemma_trim_pad(seq![' '], t.priority, Seq::<char>::empty());
    assert(s4.priority == t.priority);
    assert(s4.text == t.text);
    assert(s4.completed == t.completed);
    // the created line
    assert(line4[0] == 'c');
    assert(!starts_with(line4, "- [x]"@));
    assert(!starts_with(line4, "- [X]"@));
    assert(!starts_with(line4, "- [ ]"@));
    assert(!starts_with(line4, "priority:"@));
    assert(starts_with(line4, "created:"@));
    assert(line4.skip(8) =~= seq![' '] + t.created_at);
    assert(seq![' '] + t.created_at + Seq::<char>::empty() =~= seq![' '] + t.created_at);
    lemma_trim_pad(seq![' '], t.created_at, Seq::<char>::empty());
    assert(s5.created == t.created_at);
    assert(s5.priority == t.priority);
    assert(s5.text == t.text);
    assert(s5.completed == t.completed);
    assert(s5.seen);
    assert(ls.len() == 5);
    assert(spec_parse_task(t.id, enc) == Some(t));
}

} // verus!
