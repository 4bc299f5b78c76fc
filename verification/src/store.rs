//! The pure side of the flat-file store: decoding a directory listing into
//! the entity lists, the effect of save and delete on the stored files, and
//! the paths the store lives at. One entity maps to one file `<id>.md`
//! inside its kind's directory; the identifier comes from the file name.

use vstd::prelude::*;
use vstd::string::*;
use crate::models::{Note, NoteView, Task, TaskView};
use crate::note_md::{parse_note_from_md, spec_parse_note};
use crate::task_md::{parse_task_from_md, spec_parse_task};
use crate::text::{chars_of, string_of, sub_vec};

verus! {

/// One file of a kind's directory, as the store logic sees it: the stem
/// of its name (the identifier) and its text.
pub struct MdFile {
    pub id: String,
    pub content: String,
}

/// Mathematical image of an `MdFile`.
pub struct MdFileView {
    pub id: Seq<char>,
    pub content: Seq<char>,
}

impl View for MdFile {
    type V = MdFileView;

    open spec fn view(&self) -> MdFileView {
        MdFileView { id: self.id@, content: self.content@ }
    }
}

impl DeepView for MdFile {
    type V = MdFileView;

    open spec fn deep_view(&self) -> MdFileView {
        self.view()
    }
}

/// The tasks decoded from the files at index `i` and after; a file whose
/// decode fails contributes nothing.
pub open spec fn spec_load_tasks_from(files: Seq<MdFileView>, i: int) -> Seq<TaskView>
    decreases files.len() - i,
{
    if i < 0 || i >= files.len() {
        Seq::<TaskView>::empty()
    } else {
        match spec_parse_task(files[i].id, files[i].content) {
            Some(t) => seq![t] + spec_load_tasks_from(files, i + 1),
            None => spec_load_tasks_from(files, i + 1),
        }
    }
}

/// All tasks a directory listing decodes to, in listing order.
pub open spec fn spec_load_tasks(files: Seq<MdFileView>) -> Seq<TaskView> {
    spec_load_tasks_from(files, 0)
}

/// All notes a directory listing decodes to; note decoding never fails,
/// so every file contributes one note.
pub open spec fn spec_load_notes(files: Seq<MdFileView>) -> Seq<NoteView> {
    files.map_values(|f: MdFileView| spec_parse_note(f.id, f.content))
}

/// Decode every task file of a listing, skipping the files that do not
/// parse.
pub fn load_tasks_from(files: &Vec<MdFile>) -> (r: Vec<Task>)
    ensures
        r.deep_view() == spec_load_tasks(files.deep_view()),
{
    let ghost dv = files.deep_view();
    let mut r: Vec<Task> = Vec::new();
    let mut i: usize = 0;
    while i < files.len()
        invariant
            i <= files@.len(),
            dv == files.deep_view(),
            dv.len() == files@.len(),
            spec_load_tasks_from(dv, 0) == r.deep_view() + spec_load_tasks_from(dv, i as int),
        decreases files.len() - i,
    {
        let f = &files[i];
        proof {
            assert(dv[i as int] == f@);
        }
        let ghost old_r = r.deep_view();
        match parse_task_from_md(f.id.as_str(), f.content.as_str()) {
            Some(t) => {
                proof {
                    assert(spec_parse_task(dv[i as int].id, dv[i as int].content) == Some(t@));
                }
                r.push(t);
                proof {
                    assert(r.deep_view() =~~= old_r.push(t@));
                    assert(old_r + seq![t@] =~~= r.deep_view());
                    assert(old_r + (seq![t@] + spec_load_tasks_from(dv, i as int + 1))
                        =~~= r.deep_view() + spec_load_tasks_from(dv, i as int + 1));
                }
            },
            None => {
                proof {
                    assert(spec_parse_task(dv[i as int].id, dv[i as int].content) is None);
                }
            },
        }
        i = i + 1;
    }
    proof {
        assert(spec_load_tasks_from(dv, i as int) =~~= Seq::<TaskView>::empty());
        assert(r.deep_view() + Seq::<TaskView>::empty() =~~= r.deep_view());
    }
    r
}

/// Decode every note file of a listing.
pub fn load_notes_from(files: &Vec<MdFile>) -> (r: Vec<Note>)
    ensures
        r.deep_view() == spec_load_notes(files.deep_view()),
{
    let ghost dv = files.deep_view();
    let mut r: Vec<Note> = Vec::new();
    let mut i: usize = 0;
    while i < files.len()
        invariant
            i <= files@.len(),
            dv == files.deep_view(),
            dv.len() == files@.len(),
            r.deep_view() == dv.take(i as int).map_values(
                |f: MdFileView| spec_parse_note(f.id, f.content),
            ),
        decreases files.len() - i,
    {
        let f = &files[i];
        proof {
            assert(dv[i as int] == f@);
        }
        let ghost old_r = r.deep_view();
        let n = parse_note_from_md(f.id.as_str(), f.content.as_str());
        r.push(n);
        i = i + 1;
        proof {
            assert(r.deep_view() =~~= old_r.push(spec_parse_note(dv[i - 1].id, dv[i - 1].content)));
            assert(dv.take(i as int).map_values(|f: MdFileView| spec_parse_note(f.id, f.content))
                =~~= old_r.push(spec_parse_note(dv[i - 1].id, dv[i - 1].content)));
        }
    }
    proof {
        assert(dv.take(dv.len() as int) =~= dv);
    }
    r
}

/// Every task a listing decodes to carries the identifier of its file.
pub proof fn lemma_loaded_task_ids(files: Seq<MdFileView>, i: int)
    requires
        0 <= i <= files.len(),
    ensures
        forall|j: int|
            0 <= j < spec_load_tasks_from(files, i).len() ==> exists|k: int|
                i <= k < files.len() && #[trigger] spec_load_tasks_from(files, i)[j].id
                    == files[k].id,
    decreases files.len() - i,
{
    if i < files.len() {
        lemma_loaded_task_ids(files, i + 1);
        let here = spec_load_tasks_from(files, i);
        let rest = spec_load_tasks_from(files, i + 1);
        match spec_parse_task(files[i].id, files[i].content) {
            Some(t) => {
                assert(t.id == files[i].id);
                assert forall|j: int| 0 <= j < here.len() implies exists|k: int|
                    i <= k < files.len() && #[trigger] here[j].id == files[k].id by {
                    if j == 0 {
                        assert(here[0].id == files[i].id);
                    } else {
                        assert(here[j] == rest[j - 1]);
                    }
                }
            },
            None => {
                assert forall|j: int| 0 <= j < here.len() implies exists|k: int|
                    i <= k < files.len() && #[trigger] here[j].id == files[k].id by {
                    assert(here[j] == rest[j]);
                }
            },
        }
    }
}

/// Delete then list: when no file of the listing carries a given
/// identifier any more, no decoded task carries it either.
pub proof fn lemma_delete_then_list(files: Seq<MdFileView>, id: Seq<char>)
    requires
        forall|i: int| 0 <= i < files.len() ==> files[i].id != id,
    ensures
        forall|j: int| 0 <= j < spec_load_tasks(files).len() ==> spec_load_tasks(files)[j].id != id,
{
    lemma_loaded_task_ids(files, 0);
}

/// Delete then list, for notes: every decoded note carries the identifier
/// of its file, so a listing without the identifier decodes to no note
/// with it.
pub proof fn lemma_delete_then_list_notes(files: Seq<MdFileView>, id: Seq<char>)
    requires
        forall|i: int| 0 <= i < files.len() ==> files[i].id != id,
    ensures
        forall|j: int| 0 <= j < spec_load_notes(files).len() ==> spec_load_notes(files)[j].id != id,
{
    assert forall|j: int| 0 <= j < spec_load_notes(files).len() implies spec_load_notes(files)[j].id
        != id by {
        assert(spec_load_notes(files)[j] == spec_parse_note(files[j].id, files[j].content));
    }
}

/// The stored files of one kind, file name to contents: what a save or a
/// delete does to the kind's directory.
pub open spec fn store_save(
    files: Map<Seq<char>, Seq<char>>,
    id: Seq<char>,
    body: Seq<char>,
) -> Map<Seq<char>, Seq<char>> {
    files.insert(id, body)
}

pub open spec fn store_delete(files: Map<Seq<char>, Seq<char>>, id: Seq<char>) -> Map<
    Seq<char>,
    Seq<char>,
> {
    files.remove(id)
}

/// Saving the same entity twice leaves the store exactly as one save
/// does, so what the file decodes to is unchanged by the second save.
pub proof fn lemma_save_twice_is_once(
    files: Map<Seq<char>, Seq<char>>,
    id: Seq<char>,
    body: Seq<char>,
)
    ensures
        store_save(store_save(files, id, body), id, body) == store_save(files, id, body),
{
    assert(store_save(store_save(files, id, body), id, body) =~= store_save(files, id, body));
}

/// After a delete the store holds no file for the identifier, and a
/// second delete of the same identifier changes nothing: it is a no-op,
/// not an error.
pub proof fn lemma_delete_twice_is_once(files: Map<Seq<char>, Seq<char>>, id: Seq<char>)
    ensures
        !store_delete(files, id).dom().contains(id),
        store_delete(store_delete(files, id), id) == store_delete(files, id),
{
    assert(store_delete(store_delete(files, id), id) =~= store_delete(files, id));
}

/// The application data directory under the platform's local-data root.
pub fn data_dir_path(base: &str) -> (r: String)
    ensures
        r@ == base@ + "/Clip"@,
{
    let mut s = base.to_owned();
    s.append("/Clip");
    s
}

/// The tasks directory of a data directory.
pub fn tasks_dir_path(data_dir: &str) -> (r: String)
    ensures
        r@ == data_dir@ + "/tasks"@,
{
    let mut s = data_dir.to_owned();
    s.append("/tasks");
    s
}

/// The notes directory of a data directory.
pub fn notes_dir_path(data_dir: &str) -> (r: String)
    ensures
        r@ == data_dir@ + "/notes"@,
{
    let mut s = data_dir.to_owned();
    s.append("/notes");
    s
}

/// The one fixed path of the opaque configuration blob.
pub fn get_config_path(data_dir: &str) -> (r: String)
    ensures
        r@ == data_dir@ + "/config.json"@,
{
    let mut s = data_dir.to_owned();
    s.append("/config.json");
    s
}

/// The file an entity is stored at: `<id>.md` inside its directory.
pub fn md_file_path(dir: &str, id: &str) -> (r: String)
    ensures
        r@ == dir@ + "/"@ + id@ + ".md"@,
{
    let mut s = dir.to_owned();
    s.append("/");
    s.append(id);
    s.append(".md");
    proof {
        assert(s@ =~= dir@ + "/"@ + id@ + ".md"@);
    }
    s
}

/// The identifier a file name stands for: the stem of a name ending in
/// `.md`, and nothing for any other name.
pub fn md_stem(name: &str) -> (r: Option<String>)
    ensures
        match r {
            Some(stem) => name@.len() > 3 && name@.skip(name@.len() - 3) == ".md"@ && stem@
                == name@.take(name@.len() - 3),
            None => !(name@.len() > 3 && name@.skip(name@.len() - 3) == ".md"@),
        },
{
    proof {
        reveal_strlit(".md");
    }
    let cs = chars_of(name);
    let n = cs.len();
    if n > 3 && cs[n - 3] == '.' && cs[n - 2] == 'm' && cs[n - 1] == 'd' {
        proof {
            assert(name@.skip(name@.len() - 3) =~= ".md"@);
        }
        let stem = sub_vec(&cs, 0, n - 3);
        proof {
            assert(stem@ =~= name@.take(name@.len() - 3));
        }
        Some(string_of(&stem))
    } else {
        proof {
            if name@.len() > 3 && name@.skip(name@.len() - 3) == ".md"@ {
                assert(name@.skip(name@.len() - 3)[0] == name@[name@.len() - 3]);
                assert(name@.skip(name@.len() - 3)[1] == name@[name@.len() - 2]);
                assert(name@.skip(name@.len() - 3)[2] == name@[name@.len() - 1]);
                assert(false);
            }
        }
        None
    }
}

} // verus!
