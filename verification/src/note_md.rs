//! Note codec: a note as a Markdown blob with a `---`-delimited front
//! matter block, a heading line for the title, and the content after it.

use vstd::prelude::*;
use vstd::string::*;
use crate::models::{Note, NoteView};
use crate::text::{
    chars_of, eq_str, find_char, find_char_vec, has_prefix, is_trimmed, is_ws, join_lines,
    join_nl, lemma_find_char_at, lemma_join_nl_concat, lemma_join_split_nl, lemma_split_nl_concat,
    lemma_split_nl_no_cr, lemma_split_nl_nonempty, lemma_split_nl_single, lemma_trim_pad,
    lemma_trim_trimmed, lines_of, raw_lines, spec_lines, split_nl, starts_with, string_of,
    strip_cr, sub_vec, tail_lines, trim, trim_vec,
};

verus! {

/// The Markdown text a note is saved as: front matter with both
/// timestamps, a blank line, the heading, a blank line, the content.
pub open spec fn spec_note_to_md(n: NoteView) -> Seq<char> {
    "---\ncreated: "@ + n.created_at + "\nupdated: "@ + n.updated_at + "\n---\n\n# "@ + n.title
        + "\n\n"@ + n.content + "\n"@
}

/// The state gathered while scanning the lines of a note file.
pub struct NoteScan {
    pub created: Seq<char>,
    pub updated: Seq<char>,
    pub title: Seq<char>,
    pub in_fm: bool,
    pub fm_count: int,
    pub content_start: int,
}

pub open spec fn note_scan_init() -> NoteScan {
    NoteScan {
        created: Seq::<char>::empty(),
        updated: Seq::<char>::empty(),
        title: Seq::<char>::empty(),
        in_fm: false,
        fm_count: 0,
        content_start: 0,
    }
}

/// One line of the scan. A `---` line opens front matter on its first
/// occurrence and closes it on its second, which also marks where the
/// content block begins; timestamp lines count only inside front matter;
/// after it closes, the first `# ` line supplies the title.
pub open spec fn note_scan_step(st: NoteScan, line: Seq<char>, i: int) -> NoteScan {
    if line == "---"@ {
        let c = st.fm_count + 1;
        NoteScan {
            fm_count: c,
            in_fm: if c == 1 {
                true
            } else if c == 2 {
                false
            } else {
                st.in_fm
            },
            content_start: if c == 2 {
                i + 1
            } else {
                st.content_start
            },
            ..st
        }
    } else if st.in_fm {
        if starts_with(line, "created:"@) {
            NoteScan { created: trim(line.skip(8)), ..st }
        } else if starts_with(line, "updated:"@) {
            NoteScan { updated: trim(line.skip(8)), ..st }
        } else {
            st
        }
    } else if st.fm_count >= 2 {
        if st.title.len() == 0 && starts_with(line, "# "@) {
            NoteScan { title: trim(line.skip(2)), ..st }
        } else {
            st
        }
    } else {
        st
    }
}

/// The scan state after the first `n` lines.
pub open spec fn note_scan(lines: Seq<Seq<char>>, n: int) -> NoteScan
    decreases n,
{
    if n <= 0 {
        note_scan_init()
    } else {
        note_scan_step(note_scan(lines, n - 1), lines[n - 1], n - 1)
    }
}

/// One leading heading line stripped from a reconstructed content block.
pub open spec fn strip_heading(block: Seq<char>) -> Seq<char> {
    if starts_with(block, "# "@) {
        let idx = find_char(block, '\n');
        if idx >= 0 {
            trim(block.skip(idx))
        } else {
            Seq::<char>::empty()
        }
    } else {
        block
    }
}

/// Decoding a note file; it never fails, only degrades to emptier fields.
/// Front matter that never closes counts as no front matter at all for
/// the title and the content: then a leading heading gives the title and
/// the rest gives the content, or else the whole text is the content.
pub open spec fn spec_parse_note(id: Seq<char>, content: Seq<char>) -> NoteView {
    let ls = spec_lines(content);
    let st = note_scan(ls, ls.len() as int);
    let base = if st.content_start < ls.len() {
        strip_heading(trim(join_nl(ls.skip(st.content_start))))
    } else {
        Seq::<char>::empty()
    };
    if st.fm_count < 2 {
        if ls.len() > 0 && starts_with(ls[0], "# "@) {
            NoteView {
                id: id,
                title: trim(ls[0].skip(2)),
                content: trim(join_nl(ls.skip(1))),
                created_at: st.created,
                updated_at: st.updated,
            }
        } else {
            NoteView {
                id: id,
                title: st.title,
                content: content,
                created_at: st.created,
                updated_at: st.updated,
            }
        }
    } else {
        NoteView {
            id: id,
            title: st.title,
            content: base,
            created_at: st.created,
            updated_at: st.updated,
        }
    }
}

/// Serialize a note to its Markdown form.
pub fn note_to_md(note: &Note) -> (r: String)
    ensures
        r@ == spec_note_to_md(note@),
{
    let mut s = String::new();
    s.append("---\ncreated: ");
    s.append(note.created_at.as_str());
    s.append("\nupdated: ");
    s.append(note.updated_at.as_str());
    s.append("\n---\n\n# ");
    s.append(note.title.as_str());
    s.append("\n\n");
    s.append(note.content.as_str());
    s.append("\n");
    proof {
        assert(s@ =~= spec_note_to_md(note@));
    }
    s
}

/// Decode a note from its Markdown form; the identifier comes from the
/// caller (the file name), never from the contents.
pub fn parse_note_from_md(id: &str, content: &str) -> (r: Note)
    ensures
        r@ == spec_parse_note(id@, content@),
{
    let cs = chars_of(content);
    let ls = lines_of(&cs);
    let ghost dv = ls.deep_view();
    let mut created: Vec<char> = Vec::new();
    let mut updated: Vec<char> = Vec::new();
    let mut title: Vec<char> = Vec::new();
    let mut in_fm = false;
    let mut fm_count: usize = 0;
    let mut content_start: usize = 0;
    let mut i: usize = 0;
    while i < ls.len()
        invariant
            i <= ls@.len(),
            dv == ls.deep_view(),
            dv.len() == ls@.len(),
            fm_count <= i,
            content_start <= i,
            note_scan(dv, i as int) == (NoteScan {
                created: created@,
                updated: updated@,
                title: title@,
                in_fm: in_fm,
                fm_count: fm_count as int,
                content_start: content_start as int,
            }),
        decreases ls.len() - i,
    {
        let line = &ls[i];
        proof {
            reveal_strlit("created:");
            reveal_strlit("updated:");
            reveal_strlit("# ");
            assert(dv[i as int] =~= line@);
        }
        if eq_str(line, "---") {
            fm_count = fm_count + 1;
            if fm_count == 1 {
                in_fm = true;
            } else if fm_count == 2 {
                in_fm = false;
                content_start = i + 1;
            }
        } else if in_fm {
            if has_prefix(line, "created:") {
                let rest = sub_vec(line, 8, line.len());
                created = trim_vec(&rest);
                proof {
                    assert(line@.skip(8) =~= line@.subrange(8, line@.len() as int));
                }
            } else if has_prefix(line, "updated:") {
                let rest = sub_vec(line, 8, line.len());
                updated = trim_vec(&rest);
                proof {
                    assert(line@.skip(8) =~= line@.subrange(8, line@.len() as int));
                }
            }
        } else if fm_count >= 2 {
            if title.len() == 0 && has_prefix(line, "# ") {
                let rest = sub_vec(line, 2, line.len());
                title = trim_vec(&rest);
                proof {
                    assert(line@.skip(2) =~= line@.subrange(2, line@.len() as int));
                }
            }
        }
        i = i + 1;
        proof {
            assert(note_scan(dv, i as int) == note_scan_step(
                note_scan(dv, i as int - 1),
                dv[i as int - 1],
                i as int - 1,
            ));
        }
    }
    let mut body: Vec<char> = Vec::new();
    if content_start < ls.len() {
        let tail = tail_lines(&ls, content_start);
        let joined = join_lines(&tail);
        let trimmed = trim_vec(&joined);
        if has_prefix(&trimmed, "# ") {
            match find_char_vec(&trimmed, '\n') {
                Some(idx) => {
                    let rest = sub_vec(&trimmed, idx, trimmed.len());
                    body = trim_vec(&rest);
                    proof {
                        assert(trimmed@.skip(idx as int) =~= trimmed@.subrange(
                            idx as int,
                            trimmed@.len() as int,
                        ));
                    }
                },
                None => {
                    body = Vec::new();
                },
            }
        } else {
            body = trimmed;
        }
    }
    if fm_count < 2 {
        if ls.len() > 0 && has_prefix(&ls[0], "# ") {
            proof {
                reveal_strlit("# ");
                assert(dv[0] =~= ls@[0]@);
            }
            let rest = sub_vec(&ls[0], 2, ls[0].len());
            title = trim_vec(&rest);
            proof {
                assert(dv[0].skip(2) =~= ls@[0]@.subrange(2, ls@[0]@.len() as int));
            }
            let tail = tail_lines(&ls, 1);
            let joined = join_lines(&tail);
            body = trim_vec(&joined);
        } else {
            proof {
                reveal_strlit("# ");
                if ls.len() > 0 {
                    assert(dv[0] =~= ls@[0]@);
                }
            }
            body = cs;
        }
    }
    Note {
        id: id.to_owned(),
        title: string_of(&title),
        content: string_of(&body),
        created_at: string_of(&created),
        updated_at: string_of(&updated),
    }
}

/// Once front matter has closed and a title has been found, later lines
/// change nothing but the delimiter count.
proof fn lemma_note_scan_stable(lines: Seq<Seq<char>>, i: int, j: int)
    requires
        0 <= i <= j <= lines.len(),
        !note_scan(lines, i).in_fm,
        note_scan(lines, i).fm_count >= 2,
        note_scan(lines, i).title.len() > 0,
    ensures
        note_scan(lines, j).created == note_scan(lines, i).created,
        note_scan(lines, j).updated == note_scan(lines, i).updated,
        note_scan(lines, j).title == note_scan(lines, i).title,
        !note_scan(lines, j).in_fm,
        note_scan(lines, j).fm_count >= 2,
        note_scan(lines, j).content_start == note_scan(lines, i).content_start,
    decreases j - i,
{
    if j > i {
        lemma_note_scan_stable(lines, i, j - 1);
        assert(note_scan(lines, j) == note_scan_step(
            note_scan(lines, j - 1),
            lines[j - 1],
            j - 1,
        ));
    }
}

/// Round trip: decoding an encoded note under its own identifier gives the
/// note back, provided the title is a non-empty trimmed single line, the
/// content is non-empty, trimmed and free of `\r\n` pairs (which decoding
/// reads as plain line endings), and the timestamps are trimmed single
/// lines.
pub proof fn lemma_note_round_trip(n: NoteView)
    requires
        n.title.len() > 0,
        is_trimmed(n.title),
        forall|i: int| 0 <= i < n.title.len() ==> n.title[i] != '\n',
        n.content.len() > 0,
        is_trimmed(n.content),
        forall|i: int|
            0 <= i < n.content.len() - 1 ==> !(#[trigger] n.content[i] == '\r' && n.content[i + 1]
                == '\n'),
        is_trimmed(n.created_at),
        forall|i: int| 0 <= i < n.created_at.len() ==> n.created_at[i] != '\n',
        is_trimmed(n.updated_at),
        forall|i: int| 0 <= i < n.updated_at.len() ==> n.updated_at[i] != '\n',
    ensures
        spec_parse_note(n.id, spec_note_to_md(n)) == n,
{
    reveal_strlit("---\ncreated: ");
    reveal_strlit("\nupdated: ");
    reveal_strlit("\n---\n\n# ");
    reveal_strlit("\n\n");
    reveal_strlit("\n");
    reveal_strlit("---");
    reveal_strlit("created:");
    reveal_strlit("updated:");
    reveal_strlit("created: ");
    reveal_strlit("updated: ");
    reveal_strlit("# ");
    let nl = seq!['\n'];
    let line0 = "---"@;
    let line1 = "created: "@ + n.created_at;
    let line2 = "updated: "@ + n.updated_at;
    let line5 = "# "@ + n.title;
    let empty = Seq::<char>::empty();
    let enc = spec_note_to_md(n);
    let cls = split_nl(n.content);
    let rest6 = n.content;
    let rest5 = empty + nl + rest6;
    let rest4 = line5 + nl + rest5;
    let rest3 = empty + nl + rest4;
    let rest2 = line0 + nl + rest3;
    let rest1 = line2 + nl + rest2;
    let body = line0 + nl + line1 + nl + rest1;
    assert(enc =~= body + nl);
    assert(enc[enc.len() - 1] == '\n');
    assert(enc.take(enc.len() - 1) =~= body);
    assert(forall|i: int| 0 <= i < line0.len() ==> line0[i] != '\n');
    assert(forall|i: int| 0 <= i < line1.len() ==> line1[i] != '\n');
    assert(forall|i: int| 0 <= i < line2.len() ==> line2[i] != '\n');
    assert(forall|i: int| 0 <= i < line5.len() ==> line5[i] != '\n');
    assert(body =~= line0 + nl + (line1 + nl + rest1));
    lemma_split_nl_concat(line0, line1 + nl + rest1);
    lemma_split_nl_concat(line1, rest1);
    lemma_split_nl_concat(line2, rest2);
    lemma_split_nl_concat(line0, rest3);
    lemma_split_nl_concat(empty, rest4);
    lemma_split_nl_concat(line5, rest5);
    lemma_split_nl_concat(empty, rest6);
    lemma_split_nl_single(line0);
    lemma_split_nl_single(line1);
    lemma_split_nl_single(line2);
    lemma_split_nl_single(line5);
    lemma_split_nl_single(empty);
    lemma_split_nl_nonempty(n.content);
    let rawl = raw_lines(enc);
    assert(rawl == split_nl(body));
    assert(rawl =~= seq![line0, line1, line2, line0, empty, line5, empty] + cls);
    // no line of the encoding ends in a carriage return
    assert(is_ws('\r'));
    assert(line0[line0.len() - 1] == '-');
    assert(strip_cr(line0) == line0);
    if n.created_at.len() == 0 {
        assert(line1[line1.len() - 1] == ' ');
    } else {
        assert(line1[line1.len() - 1] == n.created_at[n.created_at.len() - 1]);
    }
    assert(strip_cr(line1) == line1);
    if n.updated_at.len() == 0 {
        assert(line2[line2.len() - 1] == ' ');
    } else {
        assert(line2[line2.len() - 1] == n.updated_at[n.updated_at.len() - 1]);
    }
    assert(strip_cr(line2) == line2);
    assert(line5[line5.len() - 1] == n.title[n.title.len() - 1]);
    assert(strip_cr(line5) == line5);
    assert(strip_cr(empty) == empty);
    assert(n.content[n.content.len() - 1] != '\r');
    lemma_split_nl_no_cr(n.content);
    let ls = spec_lines(enc);
    assert forall|k: int| 0 <= k < ls.len() implies ls[k] == rawl[k] by {
        assert(ls[k] == strip_cr(rawl[k]));
        if k >= 7 {
            assert(rawl[k] == cls[k - 7]);
        }
    }
    assert(ls =~= rawl);
    assert(ls =~= seq![line0, line1, line2, line0, empty, line5, empty] + cls);
    assert(ls.len() == 7 + cls.len());
    assert(ls[0] == line0);
    assert(ls[1] == line1);
    assert(ls[2] == line2);
    assert(ls[3] == line0);
    assert(ls[4] == empty);
    assert(ls[5] == line5);
    assert(ls[6] == empty);
    // the seven scan steps
    let s0 = note_scan(ls, 0);
    let s1 = note_scan(ls, 1);
    let s2 = note_scan(ls, 2);
    let s3 = note_scan(ls, 3);
    let s4 = note_scan(ls, 4);
    let s5 = note_scan(ls, 5);
    let s6 = note_scan(ls, 6);
    let s7 = note_scan(ls, 7);
    assert(s0 == note_scan_init());
    assert(s1 == note_scan_step(s0, ls[0], 0));
    assert(s2 == note_scan_step(s1, ls[1], 1));
    assert(s3 == note_scan_step(s2, ls[2], 2));
    assert(s4 == note_scan_step(s3, ls[3], 3));
    assert(s5 == note_scan_step(s4, ls[4], 4));
    assert(s6 == note_scan_step(s5, ls[5], 5));
    assert(s7 == note_scan_step(s6, ls[6], 6));
    // opening delimiter
    assert(s1.fm_count == 1 && s1.in_fm);
    // created line
    assert(line1.len() >= 9);
    assert(line1 != "---"@);
    assert(starts_with(line1, "created:"@));
    assert(line1.skip(8) =~= seq![' '] + n.created_at);
    assert(seq![' '] + n.created_at + empty =~= seq![' '] + n.created_at);
    lemma_trim_pad(seq![' '], n.created_at, empty);
    assert(s2.created == n.created_at);
    // updated line
    assert(line2.len() >= 9);
    assert(line2 != "---"@);
    assert(line2[0] == 'u');
    assert(!starts_with(line2, "created:"@));
    assert(starts_with(line2, "updated:"@));
    assert(line2.skip(8) =~= seq![' '] + n.updated_at);
    assert(seq![' '] + n.updated_at + empty =~= seq![' '] + n.updated_at);
    lemma_trim_pad(seq![' '], n.updated_at, empty);
    assert(s3.updated == n.updated_at);
    assert(s3.created == n.created_at);
    // closing delimiter
    assert(s4.fm_count == 2 && !s4.in_fm && s4.content_start == 4);
    // blank line
    assert(empty != "---"@);
    assert(!starts_with(empty, "# "@));
    assert(s5 == s4);
    // heading line
    assert(line5[0] == '#');
    assert(line5 != "---"@);
    assert(starts_with(line5, "# "@));
    assert(line5.skip(2) =~= n.title);
    lemma_trim_trimmed(n.title);
    assert(s6.title == n.title);
    // blank line again
    assert(s7 == s6);
    assert(s7.fm_count == 2 && !s7.in_fm && s7.title.len() > 0 && s7.content_start == 4);
    // the content lines change nothing further
    lemma_note_scan_stable(ls, 7, ls.len() as int);
    let st = note_scan(ls, ls.len() as int);
    assert(st.created == n.created_at);
    assert(st.updated == n.updated_at);
    assert(st.title == n.title);
    assert(st.fm_count >= 2);
    assert(st.content_start == 4);
    // reconstruct the content block
    assert(st.content_start < ls.len());
    let tail = ls.skip(4);
    assert(tail =~= seq![empty, line5, empty] + cls);
    lemma_join_nl_concat(seq![empty, line5, empty], cls);
    lemma_join_split_nl(n.content);
    let head3 = seq![empty, line5, empty];
    assert(head3.skip(1) =~= seq![line5, empty]);
    assert(seq![line5, empty].skip(1) =~= seq![empty]);
    assert(join_nl(seq![empty]) == empty);
    assert(join_nl(seq![line5, empty]) == line5 + nl + empty);
    assert(join_nl(head3) == empty + nl + (line5 + nl + empty));
    let joined = join_nl(tail);
    assert(joined =~= nl + (line5 + nl + nl + n.content));
    // trimming strips only the leading newline
    let block = line5 + nl + nl + n.content;
    assert(block[0] == '#');
    assert(block[block.len() - 1] == n.content[n.content.len() - 1]);
    assert(is_trimmed(block));
    assert(nl + block + empty =~= joined);
    lemma_trim_pad(nl, block, empty);
    assert(trim(joined) == block);
    // strip the heading line
    assert(starts_with(block, "# "@));
    let k = 2 + n.title.len() as int;
    assert(block[k] == '\n');
    assert(forall|i: int| 0 <= i < k ==> block[i] != '\n');
    lemma_find_char_at(block, '\n', k);
    assert(block.skip(k) =~= nl + nl + n.content);
    assert(seq!['\n', '\n'] + n.content + empty =~= block.skip(k));
    lemma_trim_pad(seq!['\n', '\n'], n.content, empty);
    assert(strip_heading(block) == n.content);
    assert(spec_parse_note(n.id, enc) == n);
}

} // verus!
