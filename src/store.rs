//! The versioned record store of one replica.
use vstd::prelude::*;
use crate::clock::{new_id, now_millis};
use crate::tree::{cascade_folders, cascade_notes, in_subtree, is_marked_id, marked_id, note_under, subtree_marks};
use crate::text::{has_word_prefix, word_prefix_in};
use crate::importer::{
    folder_views, importable, note_views, plan_import, plan_notes, planned_folders, ArchiveEntry, ImportError,
    ImportPlan, PlannedFolder, PlannedNote,
};
use crate::export::{entry_views, export_dir, export_entries, folders_in_workspace, notes_in_workspace, ExportEntry};
use crate::server::{Folder, Note, SyncRequest, SyncResponse, Workspace};
use vstd::string::StringExecFns;
use crate::records::{SearchResult, ChangeLogEntry, FolderRecord, NoteRecord, WorkspaceRecord, copy_opt};
use crate::table::{
    delete_row, find_index, tombstone_at, Keyed, has_key, index_of, keys_unique, lemma_index_of, live, live_rows,
    merge_row, merge_rows, delete_rows, rows_between, select_between, upper, upsert_row, upsert_rows,
    version_exhausted, Versioned,
};

verus! {

/// Why a write was refused.
#[derive(Debug, Clone, Copy, PartialEq, Eq, Structural)]
pub enum StoreError {
    /// The record's identifier is empty.
    InvalidId,
    /// The stored version is already the largest that the counter holds.
    VersionOverflow,
}

/// What a merge does with the version of an incoming record.
#[derive(Debug, Clone, Copy, PartialEq, Eq, Structural)]
pub enum VersionMode {
    /// The incoming record's version replaces the stored one with the rest
    /// of the record.
    Compatible,
    /// Versions count local edits only: a merge keeps the stored version,
    /// and a record new to this replica starts at 1.
    Strict,
}

/// The contents of a store: one table per entity type, the change log, and
/// whether merges keep versions local.
pub struct DbView {
    pub notes: Seq<NoteRecord>,
    pub folders: Seq<FolderRecord>,
    pub workspaces: Seq<WorkspaceRecord>,
    pub changes: Seq<ChangeLogEntry>,
    pub strict: bool,
}

/// The version that this replica holds for the record `r`: the stored one,
/// or 1 when the record is new here.
pub open spec fn local_version<R: Versioned>(rows: Seq<R>, r: R) -> i32 {
    if has_key(rows, r.key()) {
        rows[index_of(rows, r.key())].version()
    } else {
        1
    }
}

/// The record that a merge of `r` offers to the table: `r` itself, or, when
/// versions are local, `r` carrying the local version.
pub open spec fn incoming_for<R: Versioned>(rows: Seq<R>, r: R, strict: bool) -> R {
    if strict {
        r.restamped(r.created(), r.stamp(), local_version(rows, r))
    } else {
        r
    }
}

fn with_local_version<R: Versioned>(rows: &Vec<R>, r: R) -> (out: R)
    requires
        keys_unique(rows@),
    ensures
        out == incoming_for(rows@, r, true),
{
    let v = match find_index(rows, r.id_ref()) {
        Some(i) => {
            proof {
                lemma_index_of(rows@, i as int);
            }
            rows[i].version_of()
        },
        None => 1,
    };
    let c = r.created_at_of();
    let u = r.updated_at_of();
    let mut out = r;
    out.restamp(c, u, v);
    out
}

/// The change-log entries that the local edit of `note` at `now` appends to
/// the log: one when the note is new or its content differs from the stored
/// content, carrying the new version; none otherwise.
pub open spec fn note_change(
    notes: Seq<NoteRecord>,
    note: NoteRecord,
    now: i64,
    change_id: String,
) -> Seq<ChangeLogEntry> {
    if has_key(notes, note.id@) {
        let p = notes[index_of(notes, note.id@)];
        if p.content@ != note.content@ {
            seq![
                ChangeLogEntry {
                    id: change_id,
                    note_id: note.id,
                    old_content: Some(p.content),
                    new_content: note.content,
                    timestamp: now,
                    version: (p.version + 1) as i32,
                },
            ]
        } else {
            seq![]
        }
    } else {
        seq![
            ChangeLogEntry {
                id: change_id,
                note_id: note.id,
                old_content: None,
                new_content: note.content,
                timestamp: now,
                version: 1,
            },
        ]
    }
}

impl DbView {
    /// Every table holds each identifier at most once.
    pub open spec fn wf(self) -> bool {
        &&& keys_unique(self.notes)
        &&& keys_unique(self.folders)
        &&& keys_unique(self.workspaces)
    }

    /// The store after the local edit of `note` at `now`.
    pub open spec fn note_upserted(self, note: NoteRecord, now: i64, change_id: String) -> DbView {
        DbView {
            notes: upsert_rows(self.notes, note, now),
            changes: self.changes + note_change(self.notes, note, now, change_id),
            ..self
        }
    }

    /// The store after `note` arrived from another replica.
    pub open spec fn note_merged(self, note: NoteRecord) -> DbView {
        DbView { notes: merge_rows(self.notes, incoming_for(self.notes, note, self.strict)), ..self }
    }

    /// The store after the note `id` was deleted at `now`.
    pub open spec fn note_deleted(self, id: Seq<char>, now: i64) -> DbView {
        DbView { notes: delete_rows(self.notes, id, now), ..self }
    }

    /// The store after the local edit of `folder` at `now`.
    pub open spec fn folder_upserted(self, folder: FolderRecord, now: i64) -> DbView {
        DbView { folders: upsert_rows(self.folders, folder, now), ..self }
    }

    /// The store after `folder` arrived from another replica.
    pub open spec fn folder_merged(self, folder: FolderRecord) -> DbView {
        DbView { folders: merge_rows(self.folders, incoming_for(self.folders, folder, self.strict)), ..self }
    }

    /// The store after the folder `id` was deleted at `now`: the folder, the
    /// folders below it and the notes in any of them become tombstones
    /// stamped `now`; nothing changes when there is no folder `id`.
    pub open spec fn folder_deleted(self, id: Seq<char>, now: i64) -> DbView {
        if has_key(self.folders, id) {
            DbView {
                notes: cascade_notes(self.notes, self.folders, id, now),
                folders: cascade_folders(self.folders, id, now),
                ..self
            }
        } else {
            self
        }
    }

    /// The store after the local edit of `workspace` at `now`.
    pub open spec fn workspace_upserted(self, workspace: WorkspaceRecord, now: i64) -> DbView {
        DbView { workspaces: upsert_rows(self.workspaces, workspace, now), ..self }
    }

    /// The store after `workspace` arrived from another replica.
    pub open spec fn workspace_merged(self, workspace: WorkspaceRecord) -> DbView {
        DbView {
            workspaces: merge_rows(self.workspaces, incoming_for(self.workspaces, workspace, self.strict)),
            ..self
        }
    }

    /// The store after the workspace `id` was deleted at `now`.
    pub open spec fn workspace_deleted(self, id: Seq<char>, now: i64) -> DbView {
        DbView { workspaces: delete_rows(self.workspaces, id, now), ..self }
    }
}

/// The outcome that a local edit of a record with identifier `id` has on a
/// table: refused when the identifier is empty or the stored version cannot
/// grow, accepted otherwise.
pub open spec fn edit_outcome<R: Versioned>(rows: Seq<R>, id: Seq<char>) -> Result<(), StoreError> {
    if id.len() == 0 {
        Err(StoreError::InvalidId)
    } else if version_exhausted(rows, id) {
        Err(StoreError::VersionOverflow)
    } else {
        Ok(())
    }
}

/// The outcome of merging a record with identifier `id`: refused when the
/// identifier is empty, accepted otherwise (a stale record is accepted and
/// changes nothing).
pub open spec fn merge_outcome(id: Seq<char>) -> Result<(), StoreError> {
    if id.len() == 0 {
        Err(StoreError::InvalidId)
    } else {
        Ok(())
    }
}

/// The wire form of a local note; `version` stays local.
pub open spec fn pushed_note(r: NoteRecord) -> Note {
    Note {
        id: r.id,
        title: r.title,
        content: r.content,
        folder_id: r.folder_id,
        workspace_id: r.workspace_id,
        created_at: Some(r.created_at),
        updated_at: r.updated_at,
        is_deleted: r.is_deleted,
    }
}

/// The wire form of a local folder; `version` and `color` stay local.
pub open spec fn pushed_folder(r: FolderRecord) -> Folder {
    Folder {
        id: r.id,
        name: r.name,
        parent_id: r.parent_id,
        workspace_id: r.workspace_id,
        created_at: Some(r.created_at),
        updated_at: r.updated_at,
        is_deleted: r.is_deleted,
    }
}

/// The wire form of a local workspace; `version` stays local.
pub open spec fn pushed_workspace(r: WorkspaceRecord) -> Workspace {
    Workspace {
        id: r.id,
        name: r.name,
        color: r.color,
        created_at: Some(r.created_at),
        updated_at: r.updated_at,
        is_deleted: r.is_deleted,
    }
}

/// The wire forms of every local note, tombstones included.
pub open spec fn pushed_notes(s: Seq<NoteRecord>) -> Seq<Note> {
    Seq::new(s.len(), |i: int| pushed_note(s[i]))
}

/// The wire forms of every local folder, tombstones included.
pub open spec fn pushed_folders(s: Seq<FolderRecord>) -> Seq<Folder> {
    Seq::new(s.len(), |i: int| pushed_folder(s[i]))
}

/// The wire forms of every local workspace, tombstones included.
pub open spec fn pushed_workspaces(s: Seq<WorkspaceRecord>) -> Seq<Workspace> {
    Seq::new(s.len(), |i: int| pushed_workspace(s[i]))
}

/// The local form of a pulled note: a missing `created_at` defaults to
/// `updated_at`; the wire carries no version, so the stored one is kept
/// (1 for a new note).
pub open spec fn pulled_note(rows: Seq<NoteRecord>, n: Note) -> NoteRecord {
    NoteRecord {
        id: n.id,
        title: n.title,
        content: n.content,
        folder_id: n.folder_id,
        workspace_id: n.workspace_id,
        created_at: n.created_at.unwrap_or(n.updated_at),
        updated_at: n.updated_at,
        version: if has_key(rows, n.id@) { rows[index_of(rows, n.id@)].version } else { 1 },
        is_deleted: n.is_deleted,
    }
}

/// The local form of a pulled folder; version and color are kept from the
/// stored folder (1 and none for a new one).
pub open spec fn pulled_folder(rows: Seq<FolderRecord>, n: Folder) -> FolderRecord {
    FolderRecord {
        id: n.id,
        name: n.name,
        parent_id: n.parent_id,
        workspace_id: n.workspace_id,
        created_at: n.created_at.unwrap_or(n.updated_at),
        updated_at: n.updated_at,
        version: if has_key(rows, n.id@) { rows[index_of(rows, n.id@)].version } else { 1 },
        color: if has_key(rows, n.id@) { rows[index_of(rows, n.id@)].color } else { None },
        is_deleted: n.is_deleted,
    }
}

/// The local form of a pulled workspace; the version is kept from the stored
/// workspace (1 for a new one).
pub open spec fn pulled_workspace(rows: Seq<WorkspaceRecord>, n: Workspace) -> WorkspaceRecord {
    WorkspaceRecord {
        id: n.id,
        name: n.name,
        color: n.color,
        created_at: n.created_at.unwrap_or(n.updated_at),
        updated_at: n.updated_at,
        version: if has_key(rows, n.id@) { rows[index_of(rows, n.id@)].version } else { 1 },
        is_deleted: n.is_deleted,
    }
}

/// The notes after each pulled note, in order, went through the merge.
pub open spec fn pull_notes(rows: Seq<NoteRecord>, incoming: Seq<Note>) -> Seq<NoteRecord>
    decreases incoming.len(),
{
    if incoming.len() == 0 {
        rows
    } else {
        let acc = pull_notes(rows, incoming.drop_last());
        merge_rows(acc, pulled_note(acc, incoming.last()))
    }
}

/// The folders after each pulled folder, in order, went through the merge.
pub open spec fn pull_folders(rows: Seq<FolderRecord>, incoming: Seq<Folder>) -> Seq<FolderRecord>
    decreases incoming.len(),
{
    if incoming.len() == 0 {
        rows
    } else {
        let acc = pull_folders(rows, incoming.drop_last());
        merge_rows(acc, pulled_folder(acc, incoming.last()))
    }
}

/// The workspaces after each pulled workspace, in order, went through the merge.
pub open spec fn pull_workspaces(rows: Seq<WorkspaceRecord>, incoming: Seq<Workspace>) -> Seq<
    WorkspaceRecord,
>
    decreases incoming.len(),
{
    if incoming.len() == 0 {
        rows
    } else {
        let acc = pull_workspaces(rows, incoming.drop_last());
        merge_rows(acc, pulled_workspace(acc, incoming.last()))
    }
}

/// Every record of the response has a non-empty identifier.
pub open spec fn response_valid(r: SyncResponse) -> bool {
    &&& forall|i: int| 0 <= i < r.notes@.len() ==> (#[trigger] r.notes@[i]).id@.len() > 0
    &&& forall|i: int| 0 <= i < r.folders@.len() ==> (#[trigger] r.folders@[i]).id@.len() > 0
    &&& forall|i: int| 0 <= i < r.workspaces@.len() ==> (#[trigger] r.workspaces@[i]).id@.len() > 0
}

/// The folder record made for the planned folder `f`, the `i`-th of its plan.
pub open spec fn imported_folder(
    f: PlannedFolder,
    i: int,
    workspace_id: String,
    folder_ids: Seq<String>,
    now: i64,
) -> FolderRecord {
    FolderRecord {
        id: folder_ids[i],
        name: f.name,
        parent_id: match f.parent {
            Some(p) => Some(folder_ids[p as int]),
            None => None,
        },
        workspace_id,
        created_at: now,
        updated_at: now,
        version: 1,
        color: None,
        is_deleted: false,
    }
}

/// The note record made for the planned note `n`, the `i`-th of its plan.
pub open spec fn imported_note(
    n: PlannedNote,
    i: int,
    workspace_id: String,
    folder_ids: Seq<String>,
    note_ids: Seq<String>,
    now: i64,
) -> NoteRecord {
    NoteRecord {
        id: note_ids[i],
        title: n.title,
        content: n.content,
        folder_id: match n.folder {
            Some(p) => Some(folder_ids[p as int]),
            None => None,
        },
        workspace_id,
        created_at: now,
        updated_at: now,
        version: 1,
        is_deleted: false,
    }
}

/// The store and outcome after the local edits of the first `k` planned
/// folders at `now`; the first refused edit stops the run.
pub open spec fn import_folders(
    v: DbView,
    fs: Seq<PlannedFolder>,
    k: nat,
    workspace_id: String,
    folder_ids: Seq<String>,
    now: i64,
) -> (DbView, Result<(), StoreError>)
    decreases k,
{
    if k == 0 {
        (v, Ok(()))
    } else {
        let (v1, r1) = import_folders(v, fs, (k - 1) as nat, workspace_id, folder_ids, now);
        let rec = imported_folder(fs[k - 1], k - 1, workspace_id, folder_ids, now);
        if r1 is Err {
            (v1, r1)
        } else if edit_outcome(v1.folders, rec.id@) is Ok {
            (v1.folder_upserted(rec, now), Ok(()))
        } else {
            (v1, edit_outcome(v1.folders, rec.id@))
        }
    }
}

/// The store and outcome after the local edits of the first `k` planned
/// notes at `now`; the first refused edit stops the run.
pub open spec fn import_notes(
    v: DbView,
    ns: Seq<PlannedNote>,
    k: nat,
    workspace_id: String,
    folder_ids: Seq<String>,
    note_ids: Seq<String>,
    change_ids: Seq<String>,
    now: i64,
) -> (DbView, Result<(), StoreError>)
    decreases k,
{
    if k == 0 {
        (v, Ok(()))
    } else {
        let (v1, r1) = import_notes(v, ns, (k - 1) as nat, workspace_id, folder_ids, note_ids, change_ids, now);
        let rec = imported_note(ns[k - 1], k - 1, workspace_id, folder_ids, note_ids, now);
        if r1 is Err {
            (v1, r1)
        } else if edit_outcome(v1.notes, rec.id@) is Ok {
            (v1.note_upserted(rec, now, change_ids[k - 1]), Ok(()))
        } else {
            (v1, edit_outcome(v1.notes, rec.id@))
        }
    }
}

proof fn lemma_import_folders_stop(
    v: DbView,
    fs: Seq<PlannedFolder>,
    k: nat,
    m: nat,
    workspace_id: String,
    folder_ids: Seq<String>,
    now: i64,
)
    requires
        k <= m,
        import_folders(v, fs, k, workspace_id, folder_ids, now).1 is Err,
    ensures
        import_folders(v, fs, m, workspace_id, folder_ids, now) == import_folders(v, fs, k, workspace_id, folder_ids, now),
    decreases m,
{
    if k < m {
        lemma_import_folders_stop(v, fs, k, (m - 1) as nat, workspace_id, folder_ids, now);
    }
}

proof fn lemma_import_notes_stop(
    v: DbView,
    ns: Seq<PlannedNote>,
    k: nat,
    m: nat,
    workspace_id: String,
    folder_ids: Seq<String>,
    note_ids: Seq<String>,
    change_ids: Seq<String>,
    now: i64,
)
    requires
        k <= m,
        import_notes(v, ns, k, workspace_id, folder_ids, note_ids, change_ids, now).1 is Err,
    ensures
        import_notes(v, ns, m, workspace_id, folder_ids, note_ids, change_ids, now) == import_notes(
            v,
            ns,
            k,
            workspace_id,
            folder_ids,
            note_ids,
            change_ids,
            now,
        ),
    decreases m,
{
    if k < m {
        lemma_import_notes_stop(v, ns, k, (m - 1) as nat, workspace_id, folder_ids, note_ids, change_ids, now);
    }
}

/// The workspace record of an import.
pub open spec fn imported_workspace(workspace_id: String, name: String, color: String, now: i64) -> WorkspaceRecord {
    WorkspaceRecord {
        id: workspace_id,
        name,
        color,
        created_at: now,
        updated_at: now,
        version: 1,
        is_deleted: false,
    }
}

/// The store and outcome of applying an import plan: the workspace, then
/// its folders, then its notes, each a local edit at `now`; the first
/// refused edit stops the run.
pub open spec fn imported(
    v: DbView,
    plan: ImportPlan,
    workspace: WorkspaceRecord,
    folder_ids: Seq<String>,
    note_ids: Seq<String>,
    change_ids: Seq<String>,
    now: i64,
) -> (DbView, Result<(), StoreError>) {
    if edit_outcome(v.workspaces, workspace.id@) is Err {
        (v, edit_outcome(v.workspaces, workspace.id@))
    } else {
        let v1 = v.workspace_upserted(workspace, now);
        let (v2, r2) = import_folders(v1, plan.folders@, plan.folders@.len(), workspace.id, folder_ids, now);
        if r2 is Err {
            (v2, r2)
        } else {
            import_notes(v2, plan.notes@, plan.notes@.len(), workspace.id, folder_ids, note_ids, change_ids, now)
        }
    }
}

/// The planned parents and folders of `plan` name planned folders.
pub open spec fn plan_indices_valid(plan: ImportPlan) -> bool {
    &&& forall|i: int|
        0 <= i < plan.folders@.len() && (#[trigger] plan.folders@[i]).parent is Some
            ==> plan.folders@[i].parent.unwrap() < plan.folders@.len()
    &&& forall|i: int|
        0 <= i < plan.notes@.len() && (#[trigger] plan.notes@[i]).folder is Some
            ==> plan.notes@[i].folder.unwrap() < plan.folders@.len()
}

/// The name of an imported workspace: the one asked for, else the archive's
/// file stem, else a fixed default.
pub open spec fn import_name(name: Option<String>, stem: Option<String>) -> Seq<char> {
    match name {
        Some(n) => n@,
        None => match stem {
            Some(s) => s@,
            None => "Imported Workspace"@,
        },
    }
}

/// The largest number of results that a search returns.
pub const SEARCH_LIMIT: usize = 20;

/// The first `SEARCH_LIMIT` items of `s`, or all of them when there are fewer.
pub open spec fn limited<T>(s: Seq<T>) -> Seq<T> {
    if s.len() <= SEARCH_LIMIT {
        s
    } else {
        s.take(SEARCH_LIMIT as int)
    }
}

/// The note `n` is live and some word of its title starts with `q`.
pub open spec fn title_hit(n: NoteRecord, q: Seq<char>) -> bool {
    !n.is_deleted && has_word_prefix(q, n.title@)
}

/// The note `n` is live, no word of its title starts with `q`, but some word
/// of its content does.
pub open spec fn content_hit(n: NoteRecord, q: Seq<char>) -> bool {
    !n.is_deleted && !has_word_prefix(q, n.title@) && has_word_prefix(q, n.content@)
}

/// The search result that stands for the note `n`; its snippet is the
/// note's current content.
pub open spec fn hit_of(n: NoteRecord) -> SearchResult {
    SearchResult { id: n.id, title: n.title, snippet: n.content }
}

/// The results for the notes that are title hits (`in_title`) or content
/// hits (otherwise) for `q`, in table order.
pub open spec fn hits_where(notes: Seq<NoteRecord>, q: Seq<char>, in_title: bool) -> Seq<SearchResult>
    decreases notes.len(),
{
    if notes.len() == 0 {
        Seq::empty()
    } else {
        let rest = hits_where(notes.drop_last(), q, in_title);
        let n = notes.last();
        if (in_title && title_hit(n, q)) || (!in_title && content_hit(n, q)) {
            rest.push(hit_of(n))
        } else {
            rest
        }
    }
}

/// The ranked results for `q`: notes matched in the title first, then notes
/// matched in the content only, each group in table order.
pub open spec fn search_hits(notes: Seq<NoteRecord>, q: Seq<char>) -> Seq<SearchResult> {
    hits_where(notes, q, true) + hits_where(notes, q, false)
}

/// One replica's store of notes, folders and workspaces, with the change log
/// of its notes.
pub struct Db {
    notes: Vec<NoteRecord>,
    folders: Vec<FolderRecord>,
    workspaces: Vec<WorkspaceRecord>,
    changes: Vec<ChangeLogEntry>,
    strict: bool,
}

impl View for Db {
    type V = DbView;

    closed spec fn view(&self) -> DbView {
        DbView {
            notes: self.notes@,
            folders: self.folders@,
            workspaces: self.workspaces@,
            changes: self.changes@,
            strict: self.strict,
        }
    }
}

impl Db {
    /// An empty store whose merges take the incoming version.
    pub fn new() -> (r: Db)
        ensures
            r@.wf(),
            r@.notes.len() == 0,
            r@.folders.len() == 0,
            r@.workspaces.len() == 0,
            r@.changes.len() == 0,
            !r@.strict,
    {
        Db::with_version_mode(VersionMode::Compatible)
    }

    /// An empty store whose merges treat versions as `mode` says.
    pub fn with_version_mode(mode: VersionMode) -> (r: Db)
        ensures
            r@.wf(),
            r@.notes.len() == 0,
            r@.folders.len() == 0,
            r@.workspaces.len() == 0,
            r@.changes.len() == 0,
            r@.strict == (mode == VersionMode::Strict),
    {
        let strict = match mode {
            VersionMode::Strict => true,
            VersionMode::Compatible => false,
        };
        Db { notes: Vec::new(), folders: Vec::new(), workspaces: Vec::new(), changes: Vec::new(), strict }
    }

    /// The notes that are not deleted, in table order.
    pub fn get_notes(&self) -> (r: Vec<NoteRecord>)
        ensures
            r@ == live_rows(self@.notes),
    {
        live(&self.notes)
    }

    /// Records a local edit of `note` at time `now`, with `change_id` naming
    /// the change-log entry that it may append.
    pub fn upsert_note_at(&mut self, note: NoteRecord, now: i64, change_id: String) -> (r: Result<
        (),
        StoreError,
    >)
        requires
            old(self)@.wf(),
        ensures
            final(self)@.wf(),
            r == edit_outcome(old(self)@.notes, note.id@),
            r is Ok ==> final(self)@ == old(self)@.note_upserted(note, now, change_id),
            r is Err ==> final(self)@ == old(self)@,
    {
        if note.id.as_str().is_empty() {
            return Err(StoreError::InvalidId);
        }
        let found = find_index(&self.notes, &note.id);
        let entry = match found {
            Some(i) => {
                proof {
                    lemma_index_of(self.notes@, i as int);
                }
                if self.notes[i].version == i32::MAX {
                    None
                } else if self.notes[i].content != note.content {
                    Some(
                        ChangeLogEntry {
                            id: change_id,
                            note_id: note.id.clone(),
                            old_content: Some(self.notes[i].content.clone()),
                            new_content: note.content.clone(),
                            timestamp: now,
                            version: self.notes[i].version + 1,
                        },
                    )
                } else {
                    None
                }
            },
            None => Some(
                ChangeLogEntry {
                    id: change_id,
                    note_id: note.id.clone(),
                    old_content: None,
                    new_content: note.content.clone(),
                    timestamp: now,
                    version: 1,
                },
            ),
        };
        let ghost notes0 = self.notes@;
        if !upsert_row(&mut self.notes, note, now) {
            return Err(StoreError::VersionOverflow);
        }
        match entry {
            Some(e) => {
                self.changes.push(e);
            },
            None => {},
        }
        assert(self.changes@ =~= old(self)@.changes + note_change(notes0, note, now, change_id));
        Ok(())
    }

    /// Records a local edit of `note`, stamped with the current time.
    pub fn upsert_note(&mut self, note: NoteRecord) -> (r: Result<(), StoreError>)
        requires
            old(self)@.wf(),
        ensures
            final(self)@.wf(),
            r == edit_outcome(old(self)@.notes, note.id@),
            r is Ok ==> exists|now: i64, change_id: String|
                change_id@.len() == 36 && final(self)@ == old(self)@.note_upserted(
                    note,
                    now,
                    change_id,
                ),
            r is Err ==> final(self)@ == old(self)@,
    {
        let now = now_millis();
        let change_id = new_id();
        let ghost cid = change_id;
        let r = self.upsert_note_at(note, now, change_id);
        assert(r is Ok ==> cid@.len() == 36 && self@ == old(self)@.note_upserted(note, now, cid));
        r
    }

    /// Applies a note that arrived from another replica, by the
    /// last-write-wins rule.
    pub fn apply_remote_update_note(&mut self, note: NoteRecord) -> (r: Result<(), StoreError>)
        requires
            old(self)@.wf(),
        ensures
            final(self)@.wf(),
            r == merge_outcome(note.id@),
            r is Ok ==> final(self)@ == old(self)@.note_merged(note),
            r is Err ==> final(self)@ == old(self)@,
    {
        if note.id.as_str().is_empty() {
            return Err(StoreError::InvalidId);
        }
        let incoming = if self.strict {
            with_local_version(&self.notes, note)
        } else {
            note
        };
        merge_row(&mut self.notes, incoming);
        Ok(())
    }

    /// Marks the note `id` deleted at time `now`; its change log stays.
    pub fn delete_note_at(&mut self, id: String, now: i64)
        requires
            old(self)@.wf(),
        ensures
            final(self)@.wf(),
            final(self)@ == old(self)@.note_deleted(id@, now),
    {
        delete_row(&mut self.notes, &id, now);
    }

    /// Marks the note `id` deleted at the current time; its change log stays.
    pub fn delete_note(&mut self, id: String)
        requires
            old(self)@.wf(),
        ensures
            final(self)@.wf(),
            exists|now: i64| final(self)@ == old(self)@.note_deleted(id@, now),
    {
        let now = now_millis();
        self.delete_note_at(id, now);
    }

    /// The folders that are not deleted, in table order.
    pub fn get_folders(&self) -> (r: Vec<FolderRecord>)
        ensures
            r@ == live_rows(self@.folders),
    {
        live(&self.folders)
    }

    /// Records a local edit of `folder` at time `now`.
    pub fn upsert_folder_at(&mut self, folder: FolderRecord, now: i64) -> (r: Result<(), StoreError>)
        requires
            old(self)@.wf(),
        ensures
            final(self)@.wf(),
            r == edit_outcome(old(self)@.folders, folder.id@),
            r is Ok ==> final(self)@ == old(self)@.folder_upserted(folder, now),
            r is Err ==> final(self)@ == old(self)@,
    {
        if folder.id.as_str().is_empty() {
            return Err(StoreError::InvalidId);
        }
        if upsert_row(&mut self.folders, folder, now) {
            Ok(())
        } else {
            Err(StoreError::VersionOverflow)
        }
    }

    /// Records a local edit of `folder`, stamped with the current time.
    pub fn upsert_folder(&mut self, folder: FolderRecord) -> (r: Result<(), StoreError>)
        requires
            old(self)@.wf(),
        ensures
            final(self)@.wf(),
            r == edit_outcome(old(self)@.folders, folder.id@),
            r is Ok ==> exists|now: i64| final(self)@ == old(self)@.folder_upserted(folder, now),
            r is Err ==> final(self)@ == old(self)@,
    {
        let now = now_millis();
        self.upsert_folder_at(folder, now)
    }

    /// Applies a folder that arrived from another replica, by the
    /// last-write-wins rule.
    pub fn apply_remote_update_folder(&mut self, folder: FolderRecord) -> (r: Result<(), StoreError>)
        requires
            old(self)@.wf(),
        ensures
            final(self)@.wf(),
            r == merge_outcome(folder.id@),
            r is Ok ==> final(self)@ == old(self)@.folder_merged(folder),
            r is Err ==> final(self)@ == old(self)@,
    {
        if folder.id.as_str().is_empty() {
            return Err(StoreError::InvalidId);
        }
        let incoming = if self.strict {
            with_local_version(&self.folders, folder)
        } else {
            folder
        };
        merge_row(&mut self.folders, incoming);
        Ok(())
    }

    /// Deletes the folder `id` at time `now`, with every folder below it and
    /// every note in any of them.
    pub fn delete_folder_at(&mut self, id: String, now: i64)
        requires
            old(self)@.wf(),
        ensures
            final(self)@.wf(),
            final(self)@ == old(self)@.folder_deleted(id@, now),
    {
        if find_index(&self.folders, &id).is_none() {
            return;
        }
        let marked = subtree_marks(&self.folders, &id);
        let ghost notes0 = self.notes@;
        let ghost folders0 = self.folders@;
        let ghost want_notes = cascade_notes(notes0, folders0, id@, now);
        let ghost want_folders = cascade_folders(folders0, id@, now);
        let mut i: usize = 0;
        while i < self.notes.len()
            invariant
                notes0 == old(self)@.notes,
                folders0 == old(self)@.folders,
                want_notes == cascade_notes(notes0, folders0, id@, now),
                self.folders@ == folders0,
                self.workspaces@ == old(self)@.workspaces,
                self.changes@ == old(self)@.changes,
                self.strict == old(self).strict,
                marked@.len() == folders0.len(),
                forall|k: int| 0 <= k < folders0.len() ==> #[trigger] marked@[k] == in_subtree(folders0, id@, k),
                self.notes@.len() == notes0.len(),
                i <= notes0.len(),
                forall|k: int| 0 <= k < i ==> #[trigger] self.notes@[k] == want_notes[k],
                forall|k: int| i <= k < notes0.len() ==> #[trigger] self.notes@[k] == notes0[k],
            decreases notes0.len() - i,
        {
            let hit = match &self.notes[i].folder_id {
                Some(f) => is_marked_id(&self.folders, &marked, f),
                None => false,
            };
            proof {
                let n = notes0[i as int];
                if n.folder_id is Some {
                    let f = n.folder_id.unwrap();
                    if marked_id(folders0, marked@, f@) {
                        let j = choose|j: int| 0 <= j < folders0.len() && #[trigger] marked@[j] && folders0[j].id@ == f@;
                        assert(in_subtree(folders0, id@, j));
                    }
                    if note_under(folders0, id@, n) {
                        let j = choose|j: int| 0 <= j < folders0.len() && #[trigger] in_subtree(folders0, id@, j) && folders0[j].id@ == f@;
                        assert(marked@[j]);
                    }
                }
                assert(hit == note_under(folders0, id@, n));
            }
            if hit {
                tombstone_at(&mut self.notes, i, now);
            }
            assert(want_notes.len() == notes0.len());
            assert(self.notes@[i as int] == want_notes[i as int]);
            i = i + 1;
        }
        let mut i: usize = 0;
        while i < self.folders.len()
            invariant
                notes0 == old(self)@.notes,
                folders0 == old(self)@.folders,
                want_notes == cascade_notes(notes0, folders0, id@, now),
                want_folders == cascade_folders(folders0, id@, now),
                self.notes@ =~= want_notes,
                self.workspaces@ == old(self)@.workspaces,
                self.changes@ == old(self)@.changes,
                self.strict == old(self).strict,
                marked@.len() == folders0.len(),
                forall|k: int| 0 <= k < folders0.len() ==> #[trigger] marked@[k] == in_subtree(folders0, id@, k),
                self.folders@.len() == folders0.len(),
                i <= folders0.len(),
                forall|k: int| 0 <= k < i ==> #[trigger] self.folders@[k] == want_folders[k],
                forall|k: int| i <= k < folders0.len() ==> #[trigger] self.folders@[k] == folders0[k],
            decreases folders0.len() - i,
        {
            if marked[i] {
                tombstone_at(&mut self.folders, i, now);
            }
            assert(want_folders.len() == folders0.len());
            assert(self.folders@[i as int] == want_folders[i as int]);
            i = i + 1;
        }
        assert(self.folders@ =~= want_folders);
        proof {
            assert forall|a: int, b: int|
                0 <= a < self.notes@.len() && 0 <= b < self.notes@.len() && a != b implies #[trigger] self.notes@[a].key()
                    != #[trigger] self.notes@[b].key() by {
                notes0[a].lemma_tombstoned(now);
                notes0[b].lemma_tombstoned(now);
            }
            assert forall|a: int, b: int|
                0 <= a < self.folders@.len() && 0 <= b < self.folders@.len() && a != b implies #[trigger] self.folders@[a].key()
                    != #[trigger] self.folders@[b].key() by {
                folders0[a].lemma_tombstoned(now);
                folders0[b].lemma_tombstoned(now);
            }
        }
    }

    /// Deletes the folder `id` at the current time, with every folder below it
    /// and every note in any of them.
    pub fn delete_folder(&mut self, id: String)
        requires
            old(self)@.wf(),
        ensures
            final(self)@.wf(),
            exists|now: i64| final(self)@ == old(self)@.folder_deleted(id@, now),
    {
        let now = now_millis();
        self.delete_folder_at(id, now);
    }

    /// The workspaces that are not deleted, in table order.
    pub fn get_workspaces(&self) -> (r: Vec<WorkspaceRecord>)
        ensures
            r@ == live_rows(self@.workspaces),
    {
        live(&self.workspaces)
    }

    /// Records a local edit of `workspace` at time `now`.
    pub fn upsert_workspace_at(&mut self, workspace: WorkspaceRecord, now: i64) -> (r: Result<
        (),
        StoreError,
    >)
        requires
            old(self)@.wf(),
        ensures
            final(self)@.wf(),
            r == edit_outcome(old(self)@.workspaces, workspace.id@),
            r is Ok ==> final(self)@ == old(self)@.workspace_upserted(workspace, now),
            r is Err ==> final(self)@ == old(self)@,
    {
        if workspace.id.as_str().is_empty() {
            return Err(StoreError::InvalidId);
        }
        if upsert_row(&mut self.workspaces, workspace, now) {
            Ok(())
        } else {
            Err(StoreError::VersionOverflow)
        }
    }

    /// Records a local edit of `workspace`, stamped with the current time.
    pub fn upsert_workspace(&mut self, workspace: WorkspaceRecord) -> (r: Result<(), StoreError>)
        requires
            old(self)@.wf(),
        ensures
            final(self)@.wf(),
            r == edit_outcome(old(self)@.workspaces, workspace.id@),
            r is Ok ==> exists|now: i64|
                final(self)@ == old(self)@.workspace_upserted(workspace, now),
            r is Err ==> final(self)@ == old(self)@,
    {
        let now = now_millis();
        self.upsert_workspace_at(workspace, now)
    }

    /// Applies a workspace that arrived from another replica, by the
    /// last-write-wins rule.
    pub fn apply_remote_update_workspace(&mut self, workspace: WorkspaceRecord) -> (r: Result<
        (),
        StoreError,
    >)
        requires
            old(self)@.wf(),
        ensures
            final(self)@.wf(),
            r == merge_outcome(workspace.id@),
            r is Ok ==> final(self)@ == old(self)@.workspace_merged(workspace),
            r is Err ==> final(self)@ == old(self)@,
    {
        if workspace.id.as_str().is_empty() {
            return Err(StoreError::InvalidId);
        }
        let incoming = if self.strict {
            with_local_version(&self.workspaces, workspace)
        } else {
            workspace
        };
        merge_row(&mut self.workspaces, incoming);
        Ok(())
    }

    /// Marks the workspace `id` deleted at time `now`.
    pub fn delete_workspace_at(&mut self, id: String, now: i64)
        requires
            old(self)@.wf(),
        ensures
            final(self)@.wf(),
            final(self)@ == old(self)@.workspace_deleted(id@, now),
    {
        delete_row(&mut self.workspaces, &id, now);
    }

    /// Marks the workspace `id` deleted at the current time.
    pub fn delete_workspace(&mut self, id: String)
        requires
            old(self)@.wf(),
        ensures
            final(self)@.wf(),
            exists|now: i64| final(self)@ == old(self)@.workspace_deleted(id@, now),
    {
        let now = now_millis();
        self.delete_workspace_at(id, now);
    }

    /// The notes and folders, tombstones included, whose `updated_at` is
    /// later than `since`, in table order.
    pub fn get_sync_data(&self, since: i64) -> (r: (Vec<NoteRecord>, Vec<FolderRecord>))
        ensures
            r.0@ == rows_between(self@.notes, since as int, upper(None)),
            r.1@ == rows_between(self@.folders, since as int, upper(None)),
    {
        (select_between(&self.notes, since, None), select_between(&self.folders, since, None))
    }

    /// The workspaces, tombstones included, whose `updated_at` is later than
    /// `since`, in table order.
    pub fn get_sync_workspaces(&self, since: i64) -> (r: Vec<WorkspaceRecord>)
        ensures
            r@ == rows_between(self@.workspaces, since as int, upper(None)),
    {
        select_between(&self.workspaces, since, None)
    }

    fn hits(&self, query: &String, in_title: bool) -> (r: Vec<SearchResult>)
        ensures
            r@ == hits_where(self@.notes, query@, in_title),
    {
        let mut out: Vec<SearchResult> = Vec::new();
        let mut i: usize = 0;
        while i < self.notes.len()
            invariant
                i <= self.notes@.len(),
                out@ == hits_where(self.notes@.subrange(0, i as int), query@, in_title),
            decreases self.notes@.len() - i,
        {
            assert(self.notes@.subrange(0, i + 1).drop_last() =~= self.notes@.subrange(0, i as int));
            let n = &self.notes[i];
            let hit = if n.is_deleted {
                false
            } else if word_prefix_in(n.title.as_str(), query.as_str()) {
                in_title
            } else {
                !in_title && word_prefix_in(n.content.as_str(), query.as_str())
            };
            if hit {
                out.push(
                    SearchResult { id: n.id.clone(), title: n.title.clone(), snippet: n.content.clone() },
                );
            }
            i = i + 1;
        }
        assert(self.notes@.subrange(0, self.notes@.len() as int) =~= self.notes@);
        out
    }

    /// Searches the notes that are not deleted with `query` read as a prefix
    /// query: a note matches when a word of its title or content starts with
    /// the query, every character of which is taken literally. Notes matched
    /// in the title rank before notes matched in the content only; at most
    /// `SEARCH_LIMIT` results, each reflecting the note's latest stored state.
    pub fn search_notes(&self, query: String) -> (r: Vec<SearchResult>)
        ensures
            r@ == limited(search_hits(self@.notes, query@)),
    {
        let mut out = self.hits(&query, true);
        let mut rest = self.hits(&query, false);
        out.append(&mut rest);
        if out.len() > SEARCH_LIMIT {
            out.truncate(SEARCH_LIMIT);
        }
        out
    }

    /// The request that pushes every local record, tombstones included, with
    /// the watermark `last_sync_time`.
    pub fn sync_request(&self, last_sync_time: i64) -> (r: SyncRequest)
        ensures
            r.last_sync_time == last_sync_time,
            r.notes@ == pushed_notes(self@.notes),
            r.folders@ == pushed_folders(self@.folders),
            r.workspaces@ == pushed_workspaces(self@.workspaces),
    {
        let mut notes: Vec<Note> = Vec::new();
        let mut i: usize = 0;
        while i < self.notes.len()
            invariant
                i <= self.notes@.len(),
                notes@ =~= pushed_notes(self.notes@.subrange(0, i as int)),
            decreases self.notes@.len() - i,
        {
            let n = &self.notes[i];
            notes.push(
                Note {
                    id: n.id.clone(),
                    title: n.title.clone(),
                    content: n.content.clone(),
                    folder_id: copy_opt(&n.folder_id),
                    workspace_id: n.workspace_id.clone(),
                    created_at: Some(n.created_at),
                    updated_at: n.updated_at,
                    is_deleted: n.is_deleted,
                },
            );
            i = i + 1;
        }
        let mut folders: Vec<Folder> = Vec::new();
        let mut i: usize = 0;
        while i < self.folders.len()
            invariant
                i <= self.folders@.len(),
                folders@ =~= pushed_folders(self.folders@.subrange(0, i as int)),
            decreases self.folders@.len() - i,
        {
            let f = &self.folders[i];
            folders.push(
                Folder {
                    id: f.id.clone(),
                    name: f.name.clone(),
                    parent_id: copy_opt(&f.parent_id),
                    workspace_id: f.workspace_id.clone(),
                    created_at: Some(f.created_at),
                    updated_at: f.updated_at,
                    is_deleted: f.is_deleted,
                },
            );
            i = i + 1;
        }
        let mut workspaces: Vec<Workspace> = Vec::new();
        let mut i: usize = 0;
        while i < self.workspaces.len()
            invariant
                i <= self.workspaces@.len(),
                workspaces@ =~= pushed_workspaces(self.workspaces@.subrange(0, i as int)),
            decreases self.workspaces@.len() - i,
        {
            let w = &self.workspaces[i];
            workspaces.push(
                Workspace {
                    id: w.id.clone(),
                    name: w.name.clone(),
                    color: w.color.clone(),
                    created_at: Some(w.created_at),
                    updated_at: w.updated_at,
                    is_deleted: w.is_deleted,
                },
            );
            i = i + 1;
        }
        assert(self.notes@.subrange(0, self.notes@.len() as int) =~= self.notes@);
        assert(self.folders@.subrange(0, self.folders@.len() as int) =~= self.folders@);
        assert(self.workspaces@.subrange(0, self.workspaces@.len() as int) =~= self.workspaces@);
        SyncRequest { last_sync_time, notes, folders, workspaces }
    }

    /// Applies every record of a server's response through the merge and
    /// returns the new watermark, the response's `server_time`. A response
    /// holding a record with an empty identifier is refused whole.
    pub fn apply_sync_response(&mut self, response: SyncResponse) -> (r: Result<i64, StoreError>)
        requires
            old(self)@.wf(),
        ensures
            final(self)@.wf(),
            !response_valid(response) ==> r == Err::<i64, StoreError>(StoreError::InvalidId)
                && final(self)@ == old(self)@,
            response_valid(response) ==> r == Ok::<i64, StoreError>(response.server_time)
                && final(self)@ == (DbView {
                notes: pull_notes(old(self)@.notes, response.notes@),
                folders: pull_folders(old(self)@.folders, response.folders@),
                workspaces: pull_workspaces(old(self)@.workspaces, response.workspaces@),
                ..old(self)@
            }),
    {
        let mut i: usize = 0;
        while i < response.notes.len()
            invariant
                i <= response.notes@.len(),
                forall|k: int| 0 <= k < i ==> (#[trigger] response.notes@[k]).id@.len() > 0,
                old(self)@.wf(),
                self.notes@ == old(self)@.notes,
                self.folders@ == old(self)@.folders,
                self.workspaces@ == old(self)@.workspaces,
                self.changes@ == old(self)@.changes,
                self.strict == old(self).strict,
            decreases response.notes@.len() - i,
        {
            if response.notes[i].id.as_str().is_empty() {
                assert(response.notes@[i as int].id@.len() == 0);
                return Err(StoreError::InvalidId);
            }
            i = i + 1;
        }
        let mut i: usize = 0;
        while i < response.folders.len()
            invariant
                i <= response.folders@.len(),
                forall|k: int| 0 <= k < i ==> (#[trigger] response.folders@[k]).id@.len() > 0,
                old(self)@.wf(),
                self.notes@ == old(self)@.notes,
                self.folders@ == old(self)@.folders,
                self.workspaces@ == old(self)@.workspaces,
                self.changes@ == old(self)@.changes,
                self.strict == old(self).strict,
            decreases response.folders@.len() - i,
        {
            if response.folders[i].id.as_str().is_empty() {
                assert(response.folders@[i as int].id@.len() == 0);
                return Err(StoreError::InvalidId);
            }
            i = i + 1;
        }
        let mut i: usize = 0;
        while i < response.workspaces.len()
            invariant
                i <= response.workspaces@.len(),
                forall|k: int| 0 <= k < i ==> (#[trigger] response.workspaces@[k]).id@.len() > 0,
                old(self)@.wf(),
                self.notes@ == old(self)@.notes,
                self.folders@ == old(self)@.folders,
                self.workspaces@ == old(self)@.workspaces,
                self.changes@ == old(self)@.changes,
                self.strict == old(self).strict,
            decreases response.workspaces@.len() - i,
        {
            if response.workspaces[i].id.as_str().is_empty() {
                assert(response.workspaces@[i as int].id@.len() == 0);
                return Err(StoreError::InvalidId);
            }
            i = i + 1;
        }
        let mut i: usize = 0;
        while i < response.notes.len()
            invariant
                i <= response.notes@.len(),
                keys_unique(self.notes@),
                self.notes@ == pull_notes(old(self)@.notes, response.notes@.subrange(0, i as int)),
                self.folders@ == old(self)@.folders,
                self.workspaces@ == old(self)@.workspaces,
                self.changes@ == old(self)@.changes,
                self.strict == old(self).strict,
            decreases response.notes@.len() - i,
        {
            let n = &response.notes[i];
            let version = match find_index(&self.notes, &n.id) {
                Some(j) => {
                    proof {
                        lemma_index_of(self.notes@, j as int);
                    }
                    self.notes[j].version
                },
                None => 1,
            };
            let row = NoteRecord {
                id: n.id.clone(),
                title: n.title.clone(),
                content: n.content.clone(),
                folder_id: copy_opt(&n.folder_id),
                workspace_id: n.workspace_id.clone(),
                created_at: match n.created_at {
                    Some(c) => c,
                    None => n.updated_at,
                },
                updated_at: n.updated_at,
                version,
                is_deleted: n.is_deleted,
            };
            assert(response.notes@.subrange(0, i + 1).drop_last() =~= response.notes@.subrange(0, i as int));
            merge_row(&mut self.notes, row);
            i = i + 1;
        }
        assert(response.notes@.subrange(0, response.notes@.len() as int) =~= response.notes@);
        let mut i: usize = 0;
        while i < response.folders.len()
            invariant
                i <= response.folders@.len(),
                keys_unique(self.folders@),
                self.notes@ == pull_notes(old(self)@.notes, response.notes@),
                self.folders@ == pull_folders(old(self)@.folders, response.folders@.subrange(0, i as int)),
                self.workspaces@ == old(self)@.workspaces,
                self.changes@ == old(self)@.changes,
                self.strict == old(self).strict,
            decreases response.folders@.len() - i,
        {
            let n = &response.folders[i];
            let (version, color) = match find_index(&self.folders, &n.id) {
                Some(j) => {
                    proof {
                        lemma_index_of(self.folders@, j as int);
                    }
                    (self.folders[j].version, copy_opt(&self.folders[j].color))
                },
                None => (1, None),
            };
            let row = FolderRecord {
                id: n.id.clone(),
                name: n.name.clone(),
                parent_id: copy_opt(&n.parent_id),
                workspace_id: n.workspace_id.clone(),
                created_at: match n.created_at {
                    Some(c) => c,
                    None => n.updated_at,
                },
                updated_at: n.updated_at,
                version,
                color,
                is_deleted: n.is_deleted,
            };
            assert(response.folders@.subrange(0, i + 1).drop_last() =~= response.folders@.subrange(0, i as int));
            merge_row(&mut self.folders, row);
            i = i + 1;
        }
        assert(response.folders@.subrange(0, response.folders@.len() as int) =~= response.folders@);
        let mut i: usize = 0;
        while i < response.workspaces.len()
            invariant
                i <= response.workspaces@.len(),
                keys_unique(self.workspaces@),
                self.notes@ == pull_notes(old(self)@.notes, response.notes@),
                self.folders@ == pull_folders(old(self)@.folders, response.folders@),
                self.workspaces@ == pull_workspaces(old(self)@.workspaces, response.workspaces@.subrange(0, i as int)),
                self.changes@ == old(self)@.changes,
                self.strict == old(self).strict,
            decreases response.workspaces@.len() - i,
        {
            let n = &response.workspaces[i];
            let version = match find_index(&self.workspaces, &n.id) {
                Some(j) => {
                    proof {
                        lemma_index_of(self.workspaces@, j as int);
                    }
                    self.workspaces[j].version
                },
                None => 1,
            };
            let row = WorkspaceRecord {
                id: n.id.clone(),
                name: n.name.clone(),
                color: n.color.clone(),
                created_at: match n.created_at {
                    Some(c) => c,
                    None => n.updated_at,
                },
                updated_at: n.updated_at,
                version,
                is_deleted: n.is_deleted,
            };
            assert(response.workspaces@.subrange(0, i + 1).drop_last() =~= response.workspaces@.subrange(0, i as int));
            merge_row(&mut self.workspaces, row);
            i = i + 1;
        }
        proof {
            assert(response.notes@.subrange(0, response.notes@.len() as int) =~= response.notes@);
            assert(response.folders@.subrange(0, response.folders@.len() as int) =~= response.folders@);
            assert(response.workspaces@.subrange(0, response.workspaces@.len() as int) =~= response.workspaces@);
        }
        Ok(response.server_time)
    }

    /// The files of an export of the workspace `workspace_id`: its notes and
    /// folders that are not deleted, laid out as a tree of Markdown files.
    pub fn export_workspace(&self, workspace_id: &String) -> (r: Vec<ExportEntry>)
        ensures
            entry_views(r@) == export_dir(
                notes_in_workspace(live_rows(self@.notes), workspace_id@),
                folders_in_workspace(live_rows(self@.folders), workspace_id@),
                None,
                Seq::empty(),
                folders_in_workspace(live_rows(self@.folders), workspace_id@).len(),
            ),
    {
        export_entries(self.get_notes(), self.get_folders(), workspace_id)
    }

    /// Applies an import plan at time `now`: a new workspace `workspace`, a
    /// folder per planned folder and a note per planned note, all in that
    /// workspace and named by the given identifiers.
    pub fn import_plan_at(
        &mut self,
        plan: &ImportPlan,
        workspace: WorkspaceRecord,
        folder_ids: &Vec<String>,
        note_ids: &Vec<String>,
        change_ids: &Vec<String>,
        now: i64,
    ) -> (r: Result<(), StoreError>)
        requires
            old(self)@.wf(),
            plan_indices_valid(*plan),
            folder_ids@.len() == plan.folders@.len(),
            note_ids@.len() == plan.notes@.len(),
            change_ids@.len() == plan.notes@.len(),
        ensures
            final(self)@.wf(),
            (final(self)@, r) == imported(old(self)@, *plan, workspace, folder_ids@, note_ids@, change_ids@, now),
    {
        let ws_id = workspace.id.clone();
        let r = self.upsert_workspace_at(workspace, now);
        if r.is_err() {
            return r;
        }
        let ghost v1 = self@;
        let mut i: usize = 0;
        while i < plan.folders.len()
            invariant
                i <= plan.folders@.len(),
                self@.wf(),
                plan_indices_valid(*plan),
                folder_ids@.len() == plan.folders@.len(),
                (self@, Ok::<(), StoreError>(())) == import_folders(v1, plan.folders@, i as nat, ws_id, folder_ids@, now),
                ws_id == workspace.id,
                edit_outcome(old(self)@.workspaces, workspace.id@) is Ok,
                v1 == old(self)@.workspace_upserted(workspace, now),
            decreases plan.folders@.len() - i,
        {
            let f = &plan.folders[i];
            let parent_id = match f.parent {
                Some(p) => Some(folder_ids[p].clone()),
                None => None,
            };
            let rec = FolderRecord {
                id: folder_ids[i].clone(),
                name: f.name.clone(),
                parent_id,
                workspace_id: ws_id.clone(),
                created_at: now,
                updated_at: now,
                version: 1,
                color: None,
                is_deleted: false,
            };
            assert(rec == imported_folder(plan.folders@[i as int], i as int, ws_id, folder_ids@, now));
            let r = self.upsert_folder_at(rec, now);
            if r.is_err() {
                proof {
                    lemma_import_folders_stop(v1, plan.folders@, (i + 1) as nat, plan.folders@.len(), ws_id, folder_ids@, now);
                }
                return r;
            }
            i = i + 1;
        }
        let ghost v2 = self@;
        let mut i: usize = 0;
        while i < plan.notes.len()
            invariant
                i <= plan.notes@.len(),
                self@.wf(),
                plan_indices_valid(*plan),
                folder_ids@.len() == plan.folders@.len(),
                note_ids@.len() == plan.notes@.len(),
                change_ids@.len() == plan.notes@.len(),
                (self@, Ok::<(), StoreError>(())) == import_notes(v2, plan.notes@, i as nat, ws_id, folder_ids@, note_ids@, change_ids@, now),
                ws_id == workspace.id,
                edit_outcome(old(self)@.workspaces, workspace.id@) is Ok,
                v1 == old(self)@.workspace_upserted(workspace, now),
                (v2, Ok::<(), StoreError>(())) == import_folders(v1, plan.folders@, plan.folders@.len(), ws_id, folder_ids@, now),
            decreases plan.notes@.len() - i,
        {
            let n = &plan.notes[i];
            let folder_id = match n.folder {
                Some(p) => Some(folder_ids[p].clone()),
                None => None,
            };
            let rec = NoteRecord {
                id: note_ids[i].clone(),
                title: n.title.clone(),
                content: n.content.clone(),
                folder_id,
                workspace_id: ws_id.clone(),
                created_at: now,
                updated_at: now,
                version: 1,
                is_deleted: false,
            };
            assert(rec == imported_note(plan.notes@[i as int], i as int, ws_id, folder_ids@, note_ids@, now));
            let r = self.upsert_note_at(rec, now, change_ids[i].clone());
            if r.is_err() {
                proof {
                    lemma_import_notes_stop(v2, plan.notes@, (i + 1) as nat, plan.notes@.len(), ws_id, folder_ids@, note_ids@, change_ids@, now);
                }
                return r;
            }
            i = i + 1;
        }
        Ok(())
    }

    /// Imports an archive as a new workspace named `workspace_name`, else
    /// after the archive's file stem `file_stem`, with fresh identifiers and
    /// the current time; returns the new workspace's identifier.
    pub fn import_workspace(
        &mut self,
        entries: &Vec<ArchiveEntry>,
        workspace_name: Option<String>,
        file_stem: Option<String>,
    ) -> (r: Result<String, ImportError>)
        requires
            old(self)@.wf(),
        ensures
            final(self)@.wf(),
            !importable(entries@) ==> r == Err::<String, ImportError>(ImportError::NothingToImport)
                && final(self)@ == old(self)@,
            importable(entries@) ==> exists|
                plan: ImportPlan,
                workspace: WorkspaceRecord,
                folder_ids: Seq<String>,
                note_ids: Seq<String>,
                change_ids: Seq<String>,
                now: i64,
            |
                {
                    &&& folder_views(plan.folders@) == planned_folders(entries@)
                    &&& note_views(plan.notes@) == plan_notes(planned_folders(entries@), entries@)
                    &&& workspace.id@.len() == 36
                    &&& workspace == imported_workspace(workspace.id, workspace.name, workspace.color, now)
                    &&& workspace.name@ == import_name(workspace_name, file_stem)
                    &&& workspace.color@ == "#4F7DF3"@
                    &&& folder_ids.len() == plan.folders@.len()
                    &&& note_ids.len() == plan.notes@.len()
                    &&& (forall|i: int| 0 <= i < folder_ids.len() ==> (#[trigger] folder_ids[i])@.len() == 36)
                    &&& (forall|i: int| 0 <= i < note_ids.len() ==> (#[trigger] note_ids[i])@.len() == 36)
                    &&& final(self)@ == imported(old(self)@, plan, workspace, folder_ids, note_ids, change_ids, now).0
                    &&& match imported(old(self)@, plan, workspace, folder_ids, note_ids, change_ids, now).1 {
                        Ok(_) => r == Ok::<String, ImportError>(workspace.id),
                        Err(e) => r == Err::<String, ImportError>(ImportError::Store(e)),
                    }
                },
    {
        let plan = match plan_import(entries) {
            Ok(p) => p,
            Err(e) => {
                return Err(e);
            },
        };
        let now = now_millis();
        let name = match workspace_name {
            Some(n) => n,
            None => match file_stem {
                Some(s) => s,
                None => <String as StringExecFns>::from_str("Imported Workspace"),
            },
        };
        let workspace = WorkspaceRecord {
            id: new_id(),
            name,
            color: <String as StringExecFns>::from_str("#4F7DF3"),
            created_at: now,
            updated_at: now,
            version: 1,
            is_deleted: false,
        };
        let ws_id = workspace.id.clone();
        let mut folder_ids: Vec<String> = Vec::new();
        while folder_ids.len() < plan.folders.len()
            invariant
                folder_ids@.len() <= plan.folders@.len(),
                forall|i: int| 0 <= i < folder_ids@.len() ==> (#[trigger] folder_ids@[i])@.len() == 36,
            decreases plan.folders@.len() - folder_ids@.len(),
        {
            folder_ids.push(new_id());
        }
        let mut note_ids: Vec<String> = Vec::new();
        let mut change_ids: Vec<String> = Vec::new();
        while note_ids.len() < plan.notes.len()
            invariant
                note_ids@.len() <= plan.notes@.len(),
                change_ids@.len() == note_ids@.len(),
                forall|i: int| 0 <= i < note_ids@.len() ==> (#[trigger] note_ids@[i])@.len() == 36,
            decreases plan.notes@.len() - note_ids@.len(),
        {
            note_ids.push(new_id());
            change_ids.push(new_id());
        }
        let ghost ws = workspace;
        proof {
            assert forall|i: int|
                0 <= i < plan.folders@.len() && (#[trigger] plan.folders@[i]).parent is Some
                    implies plan.folders@[i].parent.unwrap() < plan.folders@.len() by {
                assert(folder_views(plan.folders@)[i].parent == Some(plan.folders@[i].parent.unwrap() as int));
            }
        }
        let r = self.import_plan_at(&plan, workspace, &folder_ids, &note_ids, &change_ids, now);
        let ghost out = imported(old(self)@, plan, ws, folder_ids@, note_ids@, change_ids@, now);
        let result = match r {
            Ok(()) => Ok(ws_id),
            Err(e) => Err(ImportError::Store(e)),
        };
        assert(match out.1 {
            Ok(_) => result == Ok::<String, ImportError>(ws.id),
            Err(e) => result == Err::<String, ImportError>(ImportError::Store(e)),
        });
        result
    }

    /// The change log, oldest entry first.
    pub fn get_changes(&self) -> (r: Vec<ChangeLogEntry>)
        ensures
            r@ == self@.changes,
    {
        let mut out: Vec<ChangeLogEntry> = Vec::new();
        let mut i: usize = 0;
        while i < self.changes.len()
            invariant
                i <= self.changes@.len(),
                out@ == self.changes@.subrange(0, i as int),
            decreases self.changes@.len() - i,
        {
            let e = &self.changes[i];
            out.push(
                ChangeLogEntry {
                    id: e.id.clone(),
                    note_id: e.note_id.clone(),
                    old_content: copy_opt(&e.old_content),
                    new_content: e.new_content.clone(),
                    timestamp: e.timestamp,
                    version: e.version,
                },
            );
            assert(out@ =~= self.changes@.subrange(0, i + 1));
            i = i + 1;
        }
        assert(out@ =~= self.changes@);
        out
    }
}

} // verus!
