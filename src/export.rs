//! The layout of a workspace exported as a tree of Markdown files.
use vstd::prelude::*;
use vstd::string::StringExecFns;
use crate::records::{FolderRecord, NoteRecord};
use crate::table::Keyed;
use crate::text::{sanitize_filename, sanitized};

verus! {

/// One file of an export: its path inside the archive and its content.
#[derive(Debug, Clone)]
pub struct ExportEntry {
    pub path: String,
    pub content: String,
}

/// The paths and contents of a sequence of entries.
pub open spec fn entry_views(v: Seq<ExportEntry>) -> Seq<(Seq<char>, Seq<char>)> {
    Seq::new(v.len(), |i: int| (v[i].path@, v[i].content@))
}

/// The characters of an optional string.
pub open spec fn opt_view(o: Option<String>) -> Option<Seq<char>> {
    match o {
        Some(s) => Some(s@),
        None => None,
    }
}

/// `name` inside the directory `dir`; the root directory is empty.
pub open spec fn join_path(dir: Seq<char>, name: Seq<char>) -> Seq<char> {
    if dir.len() == 0 {
        name
    } else {
        dir + "/"@ + name
    }
}

/// The file name of a note with title `title`.
pub open spec fn note_file_name(title: Seq<char>) -> Seq<char> {
    if sanitized(title).len() == 0 {
        "Untitled.md"@
    } else {
        sanitized(title) + ".md"@
    }
}

/// The directory name of a folder named `name`.
pub open spec fn folder_dir_name(name: Seq<char>) -> Seq<char> {
    if sanitized(name).len() == 0 {
        "Untitled Folder"@
    } else {
        sanitized(name)
    }
}

/// The files of the notes among `notes` that sit directly in `parent`, in
/// table order, placed in the directory `dir`.
pub open spec fn note_files(notes: Seq<NoteRecord>, parent: Option<Seq<char>>, dir: Seq<char>) -> Seq<
    (Seq<char>, Seq<char>),
>
    decreases notes.len(),
{
    if notes.len() == 0 {
        Seq::empty()
    } else {
        let rest = note_files(notes.drop_last(), parent, dir);
        let n = notes.last();
        if opt_view(n.folder_id) == parent {
            rest.push((join_path(dir, note_file_name(n.title@)), n.content@))
        } else {
            rest
        }
    }
}

/// The files of the directory `dir`, which stands for `parent`: the notes
/// directly in it, then the contents of each child folder in table order,
/// descending at most `depth` more levels.
pub open spec fn export_dir(
    notes: Seq<NoteRecord>,
    folders: Seq<FolderRecord>,
    parent: Option<Seq<char>>,
    dir: Seq<char>,
    depth: nat,
) -> Seq<(Seq<char>, Seq<char>)>
    decreases depth, folders.len() + 1,
{
    note_files(notes, parent, dir) + if depth == 0 {
        Seq::empty()
    } else {
        folder_files(notes, folders, folders, parent, dir, depth)
    }
}

/// The contents of the child folders of `parent` among `fs`, in order.
pub open spec fn folder_files(
    notes: Seq<NoteRecord>,
    folders: Seq<FolderRecord>,
    fs: Seq<FolderRecord>,
    parent: Option<Seq<char>>,
    dir: Seq<char>,
    depth: nat,
) -> Seq<(Seq<char>, Seq<char>)>
    decreases depth, fs.len(),
{
    if fs.len() == 0 || depth == 0 {
        Seq::empty()
    } else {
        let rest = folder_files(notes, folders, fs.drop_last(), parent, dir, depth);
        let f = fs.last();
        if opt_view(f.parent_id) == parent {
            rest + export_dir(
                notes,
                folders,
                Some(f.id@),
                join_path(dir, folder_dir_name(f.name@)),
                (depth - 1) as nat,
            )
        } else {
            rest
        }
    }
}

fn same_parent(a: &Option<String>, b: &Option<String>) -> (r: bool)
    ensures
        r == (opt_view(*a) == opt_view(*b)),
{
    match (a, b) {
        (Some(x), Some(y)) => *x == *y,
        (None, None) => true,
        _ => false,
    }
}

fn join(dir: &String, name: String) -> (r: String)
    ensures
        r@ == join_path(dir@, name@),
{
    if dir.as_str().is_empty() {
        name
    } else {
        dir.clone().concat("/").concat(name.as_str())
    }
}

fn export_dir_into(
    notes: &Vec<NoteRecord>,
    folders: &Vec<FolderRecord>,
    parent: &Option<String>,
    dir: &String,
    depth: usize,
    out: &mut Vec<ExportEntry>,
)
    ensures
        entry_views(final(out)@) == entry_views(old(out)@) + export_dir(
            notes@,
            folders@,
            opt_view(*parent),
            dir@,
            depth as nat,
        ),
    decreases depth,
{
    let ghost start = entry_views(out@);
    let ghost p = opt_view(*parent);
    let mut i: usize = 0;
    while i < notes.len()
        invariant
            i <= notes@.len(),
            start == entry_views(old(out)@),
            p == opt_view(*parent),
            entry_views(out@) =~= start + note_files(notes@.subrange(0, i as int), p, dir@),
        decreases notes@.len() - i,
    {
        assert(notes@.subrange(0, i + 1).drop_last() =~= notes@.subrange(0, i as int));
        assert(notes@.subrange(0, i + 1).last() == notes@[i as int]);
        let ghost before = out@;
        if same_parent(&notes[i].folder_id, parent) {
            let name = sanitize_filename(notes[i].title.as_str());
            let file = if name.as_str().is_empty() {
                <String as StringExecFns>::from_str("Untitled.md")
            } else {
                name.concat(".md")
            };
            assert(file@ == note_file_name(notes@[i as int].title@));
            let path = join(dir, file);
            let e = ExportEntry { path, content: notes[i].content.clone() };
            out.push(e);
            assert(entry_views(out@) =~= entry_views(before).push((e.path@, e.content@)));
        }
        i = i + 1;
    }
    assert(notes@.subrange(0, notes@.len() as int) =~= notes@);
    if depth == 0 {
        assert(entry_views(out@) =~= start + export_dir(notes@, folders@, p, dir@, depth as nat));
        return;
    }
    let ghost files = note_files(notes@, p, dir@);
    let mut j: usize = 0;
    while j < folders.len()
        invariant
            j <= folders@.len(),
            depth > 0,
            start == entry_views(old(out)@),
            p == opt_view(*parent),
            files == note_files(notes@, p, dir@),
            entry_views(out@) =~= start + files + folder_files(
                notes@,
                folders@,
                folders@.subrange(0, j as int),
                p,
                dir@,
                depth as nat,
            ),
        decreases folders@.len() - j,
    {
        assert(folders@.subrange(0, j + 1).drop_last() =~= folders@.subrange(0, j as int));
        if same_parent(&folders[j].parent_id, parent) {
            let name = sanitize_filename(folders[j].name.as_str());
            let sub = if name.as_str().is_empty() {
                <String as StringExecFns>::from_str("Untitled Folder")
            } else {
                name
            };
            let path = join(dir, sub);
            let child = Some(folders[j].id.clone());
            export_dir_into(notes, folders, &child, &path, depth - 1, out);
        }
        j = j + 1;
    }
    assert(folders@.subrange(0, folders@.len() as int) =~= folders@);
    assert(entry_views(out@) =~= start + export_dir(notes@, folders@, p, dir@, depth as nat));
}

/// The notes among `notes` that belong to the workspace `ws`.
pub open spec fn notes_in_workspace(notes: Seq<NoteRecord>, ws: Seq<char>) -> Seq<NoteRecord>
    decreases notes.len(),
{
    if notes.len() == 0 {
        Seq::empty()
    } else {
        let rest = notes_in_workspace(notes.drop_last(), ws);
        if notes.last().workspace_id@ == ws {
            rest.push(notes.last())
        } else {
            rest
        }
    }
}

/// The folders among `folders` that belong to the workspace `ws`.
pub open spec fn folders_in_workspace(folders: Seq<FolderRecord>, ws: Seq<char>) -> Seq<FolderRecord>
    decreases folders.len(),
{
    if folders.len() == 0 {
        Seq::empty()
    } else {
        let rest = folders_in_workspace(folders.drop_last(), ws);
        if folders.last().workspace_id@ == ws {
            rest.push(folders.last())
        } else {
            rest
        }
    }
}

/// The files of an export of the given notes and folders of one workspace:
/// the root holds the notes without a folder, each folder becomes a
/// directory named after it, and each note a `.md` file named after its
/// title and holding its content. The walk descends at most as many levels
/// as there are folders.
pub fn export_entries(notes: Vec<NoteRecord>, folders: Vec<FolderRecord>, workspace_id: &String) -> (r: Vec<ExportEntry>)
    ensures
        entry_views(r@) == export_dir(
            notes_in_workspace(notes@, workspace_id@),
            folders_in_workspace(folders@, workspace_id@),
            None,
            Seq::empty(),
            folders_in_workspace(folders@, workspace_id@).len(),
        ),
{
    let mut ws_notes: Vec<NoteRecord> = Vec::new();
    let mut i: usize = 0;
    while i < notes.len()
        invariant
            i <= notes@.len(),
            ws_notes@ == notes_in_workspace(notes@.subrange(0, i as int), workspace_id@),
        decreases notes@.len() - i,
    {
        assert(notes@.subrange(0, i + 1).drop_last() =~= notes@.subrange(0, i as int));
        if notes[i].workspace_id == *workspace_id {
            ws_notes.push(notes[i].duplicate());
        }
        i = i + 1;
    }
    assert(notes@.subrange(0, notes@.len() as int) =~= notes@);
    let mut ws_folders: Vec<FolderRecord> = Vec::new();
    let mut i: usize = 0;
    while i < folders.len()
        invariant
            i <= folders@.len(),
            ws_folders@ == folders_in_workspace(folders@.subrange(0, i as int), workspace_id@),
        decreases folders@.len() - i,
    {
        assert(folders@.subrange(0, i + 1).drop_last() =~= folders@.subrange(0, i as int));
        if folders[i].workspace_id == *workspace_id {
            ws_folders.push(folders[i].duplicate());
        }
        i = i + 1;
    }
    assert(folders@.subrange(0, folders@.len() as int) =~= folders@);
    let mut out: Vec<ExportEntry> = Vec::new();
    let root = String::new();
    let depth = ws_folders.len();
    export_dir_into(&ws_notes, &ws_folders, &None, &root, depth, &mut out);
    assert(entry_views(Seq::<ExportEntry>::empty()) =~= Seq::<(Seq<char>, Seq<char>)>::empty());
    assert(entry_views(out@) =~= export_dir(ws_notes@, ws_folders@, None, root@, depth as nat));
    out
}

} // verus!
