//! The server side of the sync exchange: its stored rows, the wire records,
//! and the exchange itself, with all data partitioned by sync key.
use vstd::prelude::*;
use crate::clock::now_millis;
use crate::records::copy_opt;
use crate::table::{copy_rows, keys_unique, merge_row, merge_rows, rows_between, select_between, Keyed};

verus! {

/// A note on the wire; `created_at` may be absent on the way in.
#[derive(Debug, Clone)]
pub struct Note {
    pub id: String,
    pub title: String,
    pub content: String,
    pub folder_id: Option<String>,
    pub workspace_id: String,
    pub created_at: Option<i64>,
    pub updated_at: i64,
    pub is_deleted: bool,
}

/// A note as the server stores it.
#[derive(Debug, Clone)]
pub struct NoteRow {
    pub id: String,
    pub title: String,
    pub content: String,
    pub folder_id: Option<String>,
    pub workspace_id: String,
    pub created_at: i64,
    pub updated_at: i64,
    pub is_deleted: bool,
}

impl Keyed for NoteRow {
    open spec fn key(&self) -> Seq<char> {
        self.id@
    }

    open spec fn stamp(&self) -> i64 {
        self.updated_at
    }

    open spec fn created(&self) -> i64 {
        self.created_at
    }

    open spec fn deleted(&self) -> bool {
        self.is_deleted
    }

    open spec fn with_created(self, t: i64) -> Self {
        NoteRow { created_at: t, ..self }
    }

    proof fn lemma_with_created(self, t: i64) {
    }

    fn id_ref(&self) -> (r: &String) {
        &self.id
    }

    fn updated_at_of(&self) -> (r: i64) {
        self.updated_at
    }

    fn created_at_of(&self) -> (r: i64) {
        self.created_at
    }

    fn is_deleted_of(&self) -> (r: bool) {
        self.is_deleted
    }

    fn set_created_at(&mut self, t: i64) {
        self.created_at = t;
    }

    fn duplicate(&self) -> (r: Self) {
        NoteRow {
            id: self.id.clone(),
            title: self.title.clone(),
            content: self.content.clone(),
            folder_id: copy_opt(&self.folder_id),
            workspace_id: self.workspace_id.clone(),
            created_at: self.created_at,
            updated_at: self.updated_at,
            is_deleted: self.is_deleted,
        }
    }
}

/// A folder on the wire; `created_at` may be absent on the way in.
#[derive(Debug, Clone)]
pub struct Folder {
    pub id: String,
    pub name: String,
    pub parent_id: Option<String>,
    pub workspace_id: String,
    pub created_at: Option<i64>,
    pub updated_at: i64,
    pub is_deleted: bool,
}

/// A folder as the server stores it.
#[derive(Debug, Clone)]
pub struct FolderRow {
    pub id: String,
    pub name: String,
    pub parent_id: Option<String>,
    pub workspace_id: String,
    pub created_at: i64,
    pub updated_at: i64,
    pub is_deleted: bool,
}

impl Keyed for FolderRow {
    open spec fn key(&self) -> Seq<char> {
        self.id@
    }

    open spec fn stamp(&self) -> i64 {
        self.updated_at
    }

    open spec fn created(&self) -> i64 {
        self.created_at
    }

    open spec fn deleted(&self) -> bool {
        self.is_deleted
    }

    open spec fn with_created(self, t: i64) -> Self {
        FolderRow { created_at: t, ..self }
    }

    proof fn lemma_with_created(self, t: i64) {
    }

    fn id_ref(&self) -> (r: &String) {
        &self.id
    }

    fn updated_at_of(&self) -> (r: i64) {
        self.updated_at
    }

    fn created_at_of(&self) -> (r: i64) {
        self.created_at
    }

    fn is_deleted_of(&self) -> (r: bool) {
        self.is_deleted
    }

    fn set_created_at(&mut self, t: i64) {
        self.created_at = t;
    }

    fn duplicate(&self) -> (r: Self) {
        FolderRow {
            id: self.id.clone(),
            name: self.name.clone(),
            parent_id: copy_opt(&self.parent_id),
            workspace_id: self.workspace_id.clone(),
            created_at: self.created_at,
            updated_at: self.updated_at,
            is_deleted: self.is_deleted,
        }
    }
}

/// A workspace on the wire; `created_at` may be absent on the way in.
#[derive(Debug, Clone)]
pub struct Workspace {
    pub id: String,
    pub name: String,
    pub color: String,
    pub created_at: Option<i64>,
    pub updated_at: i64,
    pub is_deleted: bool,
}

/// A workspace as the server stores it.
#[derive(Debug, Clone)]
pub struct WorkspaceRow {
    pub id: String,
    pub name: String,
    pub color: String,
    pub created_at: i64,
    pub updated_at: i64,
    pub is_deleted: bool,
}

impl Keyed for WorkspaceRow {
    open spec fn key(&self) -> Seq<char> {
        self.id@
    }

    open spec fn stamp(&self) -> i64 {
        self.updated_at
    }

    open spec fn created(&self) -> i64 {
        self.created_at
    }

    open spec fn deleted(&self) -> bool {
        self.is_deleted
    }

    open spec fn with_created(self, t: i64) -> Self {
        WorkspaceRow { created_at: t, ..self }
    }

    proof fn lemma_with_created(self, t: i64) {
    }

    fn id_ref(&self) -> (r: &String) {
        &self.id
    }

    fn updated_at_of(&self) -> (r: i64) {
        self.updated_at
    }

    fn created_at_of(&self) -> (r: i64) {
        self.created_at
    }

    fn is_deleted_of(&self) -> (r: bool) {
        self.is_deleted
    }

    fn set_created_at(&mut self, t: i64) {
        self.created_at = t;
    }

    fn duplicate(&self) -> (r: Self) {
        WorkspaceRow {
            id: self.id.clone(),
            name: self.name.clone(),
            color: self.color.clone(),
            created_at: self.created_at,
            updated_at: self.updated_at,
            is_deleted: self.is_deleted,
        }
    }
}

/// The stored row for an incoming note: a missing `created_at` defaults to
/// its `updated_at`.
pub open spec fn note_row(n: Note) -> NoteRow {
    NoteRow {
        id: n.id,
        title: n.title,
        content: n.content,
        folder_id: n.folder_id,
        workspace_id: n.workspace_id,
        created_at: n.created_at.unwrap_or(n.updated_at),
        updated_at: n.updated_at,
        is_deleted: n.is_deleted,
    }
}

/// The outgoing note for a stored row; `created_at` is always present.
pub open spec fn note_of_row(r: NoteRow) -> Note {
    Note {
        id: r.id,
        title: r.title,
        content: r.content,
        folder_id: r.folder_id,
        workspace_id: r.workspace_id,
        created_at: Some(r.created_at),
        updated_at: r.updated_at,
        is_deleted: r.is_deleted,
    }
}

fn to_note_row(n: &Note) -> (r: NoteRow)
    ensures
        r == note_row(*n),
{
    NoteRow {
        id: n.id.clone(),
        title: n.title.clone(),
        content: n.content.clone(),
        folder_id: copy_opt(&n.folder_id),
        workspace_id: n.workspace_id.clone(),
        created_at: match n.created_at {
            Some(c) => c,
            None => n.updated_at,
        },
        updated_at: n.updated_at,
        is_deleted: n.is_deleted,
    }
}

fn note_from_row(r: &NoteRow) -> (n: Note)
    ensures
        n == note_of_row(*r),
{
    Note {
        id: r.id.clone(),
        title: r.title.clone(),
        content: r.content.clone(),
        folder_id: copy_opt(&r.folder_id),
        workspace_id: r.workspace_id.clone(),
        created_at: Some(r.created_at),
        updated_at: r.updated_at,
        is_deleted: r.is_deleted,
    }
}

/// The stored row for an incoming folder: a missing `created_at` defaults to
/// its `updated_at`.
pub open spec fn folder_row(n: Folder) -> FolderRow {
    FolderRow {
        id: n.id,
        name: n.name,
        parent_id: n.parent_id,
        workspace_id: n.workspace_id,
        created_at: n.created_at.unwrap_or(n.updated_at),
        updated_at: n.updated_at,
        is_deleted: n.is_deleted,
    }
}

/// The outgoing folder for a stored row; `created_at` is always present.
pub open spec fn folder_of_row(r: FolderRow) -> Folder {
    Folder {
        id: r.id,
        name: r.name,
        parent_id: r.parent_id,
        workspace_id: r.workspace_id,
        created_at: Some(r.created_at),
        updated_at: r.updated_at,
        is_deleted: r.is_deleted,
    }
}

fn to_folder_row(n: &Folder) -> (r: FolderRow)
    ensures
        r == folder_row(*n),
{
    FolderRow {
        id: n.id.clone(),
        name: n.name.clone(),
        parent_id: copy_opt(&n.parent_id),
        workspace_id: n.workspace_id.clone(),
        created_at: match n.created_at {
            Some(c) => c,
            None => n.updated_at,
        },
        updated_at: n.updated_at,
        is_deleted: n.is_deleted,
    }
}

fn folder_from_row(r: &FolderRow) -> (n: Folder)
    ensures
        n == folder_of_row(*r),
{
    Folder {
        id: r.id.clone(),
        name: r.name.clone(),
        parent_id: copy_opt(&r.parent_id),
        workspace_id: r.workspace_id.clone(),
        created_at: Some(r.created_at),
        updated_at: r.updated_at,
        is_deleted: r.is_deleted,
    }
}

/// The stored row for an incoming workspace: a missing `created_at` defaults to
/// its `updated_at`.
pub open spec fn workspace_row(n: Workspace) -> WorkspaceRow {
    WorkspaceRow {
        id: n.id,
        name: n.name,
        color: n.color,
        created_at: n.created_at.unwrap_or(n.updated_at),
        updated_at: n.updated_at,
        is_deleted: n.is_deleted,
    }
}

/// The outgoing workspace for a stored row; `created_at` is always present.
pub open spec fn workspace_of_row(r: WorkspaceRow) -> Workspace {
    Workspace {
        id: r.id,
        name: r.name,
        color: r.color,
        created_at: Some(r.created_at),
        updated_at: r.updated_at,
        is_deleted: r.is_deleted,
    }
}

fn to_workspace_row(n: &Workspace) -> (r: WorkspaceRow)
    ensures
        r == workspace_row(*n),
{
    WorkspaceRow {
        id: n.id.clone(),
        name: n.name.clone(),
        color: n.color.clone(),
        created_at: match n.created_at {
            Some(c) => c,
            None => n.updated_at,
        },
        updated_at: n.updated_at,
        is_deleted: n.is_deleted,
    }
}

fn workspace_from_row(r: &WorkspaceRow) -> (n: Workspace)
    ensures
        n == workspace_of_row(*r),
{
    Workspace {
        id: r.id.clone(),
        name: r.name.clone(),
        color: r.color.clone(),
        created_at: Some(r.created_at),
        updated_at: r.updated_at,
        is_deleted: r.is_deleted,
    }
}

/// What a client sends: its watermark and every record it holds.
#[derive(Debug)]
pub struct SyncRequest {
    pub last_sync_time: i64,
    pub notes: Vec<Note>,
    pub folders: Vec<Folder>,
    pub workspaces: Vec<Workspace>,
}

/// What the server answers: its time and the records changed in the window.
#[derive(Debug)]
pub struct SyncResponse {
    pub server_time: i64,
    pub notes: Vec<Note>,
    pub folders: Vec<Folder>,
    pub workspaces: Vec<Workspace>,
}

/// The stored rows for a sequence of incoming notes.
pub open spec fn note_rows(s: Seq<Note>) -> Seq<NoteRow> {
    Seq::new(s.len(), |i: int| note_row(s[i]))
}

/// The outgoing notes for a sequence of stored rows.
pub open spec fn notes_of_rows(s: Seq<NoteRow>) -> Seq<Note> {
    Seq::new(s.len(), |i: int| note_of_row(s[i]))
}

fn merge_notes(rows: &mut Vec<NoteRow>, incoming: &Vec<Note>)
    requires
        keys_unique(old(rows)@),
    ensures
        keys_unique(final(rows)@),
        final(rows)@ == merge_all(old(rows)@, note_rows(incoming@)),
{
    let mut i: usize = 0;
    while i < incoming.len()
        invariant
            i <= incoming@.len(),
            keys_unique(rows@),
            rows@ == merge_all(old(rows)@, note_rows(incoming@.subrange(0, i as int))),
        decreases incoming@.len() - i,
    {
        let row = to_note_row(&incoming[i]);
        merge_row(rows, row);
        assert(note_rows(incoming@.subrange(0, i + 1)).drop_last() =~= note_rows(incoming@.subrange(0, i as int)));
        i = i + 1;
    }
    assert(incoming@.subrange(0, incoming@.len() as int) =~= incoming@);
}

fn notes_from_rows(rows: Vec<NoteRow>) -> (r: Vec<Note>)
    ensures
        r@ == notes_of_rows(rows@),
{
    let mut out: Vec<Note> = Vec::new();
    let mut i: usize = 0;
    while i < rows.len()
        invariant
            i <= rows@.len(),
            out@ =~= notes_of_rows(rows@.subrange(0, i as int)),
        decreases rows@.len() - i,
    {
        out.push(note_from_row(&rows[i]));
        i = i + 1;
    }
    assert(rows@.subrange(0, rows@.len() as int) =~= rows@);
    out
}

fn notes_have_ids(s: &Vec<Note>) -> (r: bool)
    ensures
        r == forall|i: int| 0 <= i < s@.len() ==> (#[trigger] s@[i]).id@.len() > 0,
{
    let mut i: usize = 0;
    while i < s.len()
        invariant
            i <= s@.len(),
            forall|k: int| 0 <= k < i ==> (#[trigger] s@[k]).id@.len() > 0,
        decreases s@.len() - i,
    {
        if s[i].id.as_str().is_empty() {
            return false;
        }
        i = i + 1;
    }
    true
}

/// The stored rows for a sequence of incoming folders.
pub open spec fn folder_rows(s: Seq<Folder>) -> Seq<FolderRow> {
    Seq::new(s.len(), |i: int| folder_row(s[i]))
}

/// The outgoing folders for a sequence of stored rows.
pub open spec fn folders_of_rows(s: Seq<FolderRow>) -> Seq<Folder> {
    Seq::new(s.len(), |i: int| folder_of_row(s[i]))
}

fn merge_folders(rows: &mut Vec<FolderRow>, incoming: &Vec<Folder>)
    requires
        keys_unique(old(rows)@),
    ensures
        keys_unique(final(rows)@),
        final(rows)@ == merge_all(old(rows)@, folder_rows(incoming@)),
{
    let mut i: usize = 0;
    while i < incoming.len()
        invariant
            i <= incoming@.len(),
            keys_unique(rows@),
            rows@ == merge_all(old(rows)@, folder_rows(incoming@.subrange(0, i as int))),
        decreases incoming@.len() - i,
    {
        let row = to_folder_row(&incoming[i]);
        merge_row(rows, row);
        assert(folder_rows(incoming@.subrange(0, i + 1)).drop_last() =~= folder_rows(incoming@.subrange(0, i as int)));
        i = i + 1;
    }
    assert(incoming@.subrange(0, incoming@.len() as int) =~= incoming@);
}

fn folders_from_rows(rows: Vec<FolderRow>) -> (r: Vec<Folder>)
    ensures
        r@ == folders_of_rows(rows@),
{
    let mut out: Vec<Folder> = Vec::new();
    let mut i: usize = 0;
    while i < rows.len()
        invariant
            i <= rows@.len(),
            out@ =~= folders_of_rows(rows@.subrange(0, i as int)),
        decreases rows@.len() - i,
    {
        out.push(folder_from_row(&rows[i]));
        i = i + 1;
    }
    assert(rows@.subrange(0, rows@.len() as int) =~= rows@);
    out
}

fn folders_have_ids(s: &Vec<Folder>) -> (r: bool)
    ensures
        r == forall|i: int| 0 <= i < s@.len() ==> (#[trigger] s@[i]).id@.len() > 0,
{
    let mut i: usize = 0;
    while i < s.len()
        invariant
            i <= s@.len(),
            forall|k: int| 0 <= k < i ==> (#[trigger] s@[k]).id@.len() > 0,
        decreases s@.len() - i,
    {
        if s[i].id.as_str().is_empty() {
            return false;
        }
        i = i + 1;
    }
    true
}

/// The stored rows for a sequence of incoming workspaces.
pub open spec fn workspace_rows(s: Seq<Workspace>) -> Seq<WorkspaceRow> {
    Seq::new(s.len(), |i: int| workspace_row(s[i]))
}

/// The outgoing workspaces for a sequence of stored rows.
pub open spec fn workspaces_of_rows(s: Seq<WorkspaceRow>) -> Seq<Workspace> {
    Seq::new(s.len(), |i: int| workspace_of_row(s[i]))
}

fn merge_workspaces(rows: &mut Vec<WorkspaceRow>, incoming: &Vec<Workspace>)
    requires
        keys_unique(old(rows)@),
    ensures
        keys_unique(final(rows)@),
        final(rows)@ == merge_all(old(rows)@, workspace_rows(incoming@)),
{
    let mut i: usize = 0;
    while i < incoming.len()
        invariant
            i <= incoming@.len(),
            keys_unique(rows@),
            rows@ == merge_all(old(rows)@, workspace_rows(incoming@.subrange(0, i as int))),
        decreases incoming@.len() - i,
    {
        let row = to_workspace_row(&incoming[i]);
        merge_row(rows, row);
        assert(workspace_rows(incoming@.subrange(0, i + 1)).drop_last() =~= workspace_rows(incoming@.subrange(0, i as int)));
        i = i + 1;
    }
    assert(incoming@.subrange(0, incoming@.len() as int) =~= incoming@);
}

fn workspaces_from_rows(rows: Vec<WorkspaceRow>) -> (r: Vec<Workspace>)
    ensures
        r@ == workspaces_of_rows(rows@),
{
    let mut out: Vec<Workspace> = Vec::new();
    let mut i: usize = 0;
    while i < rows.len()
        invariant
            i <= rows@.len(),
            out@ =~= workspaces_of_rows(rows@.subrange(0, i as int)),
        decreases rows@.len() - i,
    {
        out.push(workspace_from_row(&rows[i]));
        i = i + 1;
    }
    assert(rows@.subrange(0, rows@.len() as int) =~= rows@);
    out
}

fn workspaces_have_ids(s: &Vec<Workspace>) -> (r: bool)
    ensures
        r == forall|i: int| 0 <= i < s@.len() ==> (#[trigger] s@[i]).id@.len() > 0,
{
    let mut i: usize = 0;
    while i < s.len()
        invariant
            i <= s@.len(),
            forall|k: int| 0 <= k < i ==> (#[trigger] s@[k]).id@.len() > 0,
        decreases s@.len() - i,
    {
        if s[i].id.as_str().is_empty() {
            return false;
        }
        i = i + 1;
    }
    true
}

/// Why the server refused an exchange; a refused exchange changes nothing.
#[derive(Debug, Clone, Copy, PartialEq, Eq, Structural)]
pub enum SyncError {
    /// The request carries no sync key.
    MissingKey,
    /// The sync key is not one that the server accepts.
    UnknownKey,
    /// A record of the request has an empty identifier.
    InvalidRecord,
}

/// The data stored under one sync key.
pub struct PartitionView {
    pub key: Seq<char>,
    pub notes: Seq<NoteRow>,
    pub folders: Seq<FolderRow>,
    pub workspaces: Seq<WorkspaceRow>,
}

struct Partition {
    key: String,
    notes: Vec<NoteRow>,
    folders: Vec<FolderRow>,
    workspaces: Vec<WorkspaceRow>,
}

impl View for Partition {
    type V = PartitionView;

    closed spec fn view(&self) -> PartitionView {
        PartitionView {
            key: self.key@,
            notes: self.notes@,
            folders: self.folders@,
            workspaces: self.workspaces@,
        }
    }
}

/// The result of merging `incoming`, in order, into `rows`.
pub open spec fn merge_all<R: Keyed>(rows: Seq<R>, incoming: Seq<R>) -> Seq<R>
    decreases incoming.len(),
{
    if incoming.len() == 0 {
        rows
    } else {
        merge_rows(merge_all(rows, incoming.drop_last()), incoming.last())
    }
}

impl PartitionView {
    pub open spec fn wf(self) -> bool {
        &&& keys_unique(self.notes)
        &&& keys_unique(self.folders)
        &&& keys_unique(self.workspaces)
    }

    /// The partition after every record of `request` went through the merge.
    pub open spec fn pushed(self, request: SyncRequest) -> PartitionView {
        PartitionView {
            key: self.key,
            notes: merge_all(self.notes, note_rows(request.notes@)),
            folders: merge_all(self.folders, folder_rows(request.folders@)),
            workspaces: merge_all(self.workspaces, workspace_rows(request.workspaces@)),
        }
    }
}

/// Some partition is stored under `key`.
pub open spec fn has_partition(ps: Seq<PartitionView>, key: Seq<char>) -> bool {
    exists|i: int| 0 <= i < ps.len() && #[trigger] ps[i].key == key
}

/// The position of the partition stored under `key`.
pub open spec fn partition_index(ps: Seq<PartitionView>, key: Seq<char>) -> int {
    choose|i: int| 0 <= i < ps.len() && #[trigger] ps[i].key == key
}

/// Every record of `request` has a non-empty identifier.
pub open spec fn request_valid(request: SyncRequest) -> bool {
    &&& forall|i: int| 0 <= i < request.notes@.len() ==> (#[trigger] request.notes@[i]).id@.len() > 0
    &&& forall|i: int| 0 <= i < request.folders@.len() ==> (#[trigger] request.folders@[i]).id@.len() > 0
    &&& forall|i: int|
        0 <= i < request.workspaces@.len() ==> (#[trigger] request.workspaces@[i]).id@.len() > 0
}

/// Whether an exchange under `key` with `request` is refused, and why.
pub open spec fn sync_outcome(ps: Seq<PartitionView>, key: Option<String>, request: SyncRequest) -> Result<(), SyncError> {
    match key {
        None => Err(SyncError::MissingKey),
        Some(k) => if !has_partition(ps, k@) {
            Err(SyncError::UnknownKey)
        } else if !request_valid(request) {
            Err(SyncError::InvalidRecord)
        } else {
            Ok(())
        },
    }
}

/// The answer to an exchange whose push left the partition `p`: the server's
/// time and every record with `since < updated_at < now`, tombstones included.
pub open spec fn pulled(p: PartitionView, since: i64, now: i64, r: SyncResponse) -> bool {
    &&& r.server_time == now
    &&& r.notes@ == notes_of_rows(rows_between(p.notes, since as int, now as int))
    &&& r.folders@ == folders_of_rows(rows_between(p.folders, since as int, now as int))
    &&& r.workspaces@ == workspaces_of_rows(rows_between(p.workspaces, since as int, now as int))
}

/// The server's store: one partition per accepted sync key.
pub struct SyncServer {
    partitions: Vec<Partition>,
}

impl View for SyncServer {
    type V = Seq<PartitionView>;

    closed spec fn view(&self) -> Seq<PartitionView> {
        Seq::new(self.partitions@.len(), |i: int| self.partitions@[i]@)
    }
}

/// Partitions have distinct keys and each is well formed.
pub open spec fn server_wf(ps: Seq<PartitionView>) -> bool {
    &&& forall|i: int, j: int|
        0 <= i < ps.len() && 0 <= j < ps.len() && i != j ==> #[trigger] ps[i].key != #[trigger] ps[j].key
    &&& forall|i: int| 0 <= i < ps.len() ==> (#[trigger] ps[i]).wf()
}

impl SyncServer {
    /// A server that accepts the single sync key `key` and holds no data.
    pub fn new(key: String) -> (r: SyncServer)
        ensures
            server_wf(r@),
            r@.len() == 1,
            r@[0].key == key@,
            r@[0].notes.len() == 0,
            r@[0].folders.len() == 0,
            r@[0].workspaces.len() == 0,
    {
        let mut partitions: Vec<Partition> = Vec::new();
        partitions.push(
            Partition { key, notes: Vec::new(), folders: Vec::new(), workspaces: Vec::new() },
        );
        SyncServer { partitions }
    }

    fn find_partition(&self, key: &String) -> (r: Option<usize>)
        ensures
            match r {
                Some(i) => i < self@.len() && self@[i as int].key == key@,
                None => !has_partition(self@, key@),
            },
    {
        let mut i: usize = 0;
        while i < self.partitions.len()
            invariant
                i <= self@.len(),
                self@.len() == self.partitions@.len(),
                forall|j: int| 0 <= j < i ==> #[trigger] self@[j].key != key@,
            decreases self@.len() - i,
        {
            if self.partitions[i].key == *key {
                return Some(i);
            }
            i = i + 1;
        }
        None
    }

    /// Accepts one more sync key, with an empty partition; returns `false`,
    /// changing nothing, when the key is already accepted.
    pub fn add_key(&mut self, key: String) -> (added: bool)
        requires
            server_wf(old(self)@),
        ensures
            server_wf(final(self)@),
            added == !has_partition(old(self)@, key@),
            added ==> final(self)@ == old(self)@.push(
                PartitionView { key: key@, notes: seq![], folders: seq![], workspaces: seq![] },
            ),
            !added ==> final(self)@ == old(self)@,
    {
        if self.find_partition(&key).is_some() {
            return false;
        }
        self.partitions.push(
            Partition { key, notes: Vec::new(), folders: Vec::new(), workspaces: Vec::new() },
        );
        assert(self@ =~= old(self)@.push(
            PartitionView { key: key@, notes: seq![], folders: seq![], workspaces: seq![] },
        ));
        true
    }

    /// Runs one exchange at server time `now`: checks the sync key and the
    /// request, merges every pushed record into the key's partition by the
    /// last-write-wins rule, and answers with every record of that partition
    /// whose `updated_at` lies strictly between the client's watermark and
    /// `now`.
    pub fn sync(&mut self, sync_key: Option<String>, request: SyncRequest, now: i64) -> (r: Result<
        SyncResponse,
        SyncError,
    >)
        requires
            server_wf(old(self)@),
        ensures
            server_wf(final(self)@),
            match sync_outcome(old(self)@, sync_key, request) {
                Err(e) => r == Err::<SyncResponse, SyncError>(e) && final(self)@ == old(self)@,
                Ok(_) => {
                    let i = partition_index(old(self)@, sync_key.unwrap()@);
                    let p = old(self)@[i].pushed(request);
                    &&& r is Ok
                    &&& final(self)@ == old(self)@.update(i, p)
                    &&& pulled(p, request.last_sync_time, now, r.unwrap())
                },
            },
    {
        let key = match sync_key {
            None => {
                return Err(SyncError::MissingKey);
            },
            Some(k) => k,
        };
        let idx = match self.find_partition(&key) {
            None => {
                return Err(SyncError::UnknownKey);
            },
            Some(i) => i,
        };
        proof {
            assert(self@[idx as int].key == key@);
            let j = partition_index(self@, key@);
            assert(self@[j].key == key@);
        }
        if !(notes_have_ids(&request.notes) && folders_have_ids(&request.folders)
            && workspaces_have_ids(&request.workspaces)) {
            return Err(SyncError::InvalidRecord);
        }
        let ghost old_view = self@;
        let mut p = self.partitions.remove(idx);
        assert(p@ == old_view[idx as int]);
        merge_notes(&mut p.notes, &request.notes);
        merge_folders(&mut p.folders, &request.folders);
        merge_workspaces(&mut p.workspaces, &request.workspaces);
        let since = request.last_sync_time;
        let notes = notes_from_rows(select_between(&p.notes, since, Some(now)));
        let folders = folders_from_rows(select_between(&p.folders, since, Some(now)));
        let workspaces = workspaces_from_rows(select_between(&p.workspaces, since, Some(now)));
        let ghost pv = p@;
        self.partitions.insert(idx, p);
        assert(self@ =~= old_view.update(idx as int, pv));
        assert(pv == old_view[idx as int].pushed(request));
        Ok(SyncResponse { server_time: now, notes, folders, workspaces })
    }

    /// Every row stored under `key`, tombstones included; `None` when the key
    /// is not accepted.
    pub fn partition_rows(&self, key: &String) -> (r: Option<(Vec<NoteRow>, Vec<FolderRow>, Vec<WorkspaceRow>)>)
        requires
            server_wf(self@),
        ensures
            r is Some <==> has_partition(self@, key@),
            r is Some ==> {
                let p = self@[partition_index(self@, key@)];
                &&& r.unwrap().0@ == p.notes
                &&& r.unwrap().1@ == p.folders
                &&& r.unwrap().2@ == p.workspaces
            },
    {
        match self.find_partition(key) {
            None => None,
            Some(i) => {
                proof {
                    let j = partition_index(self@, key@);
                    assert(self@[j].key == key@);
                    assert(self@[i as int].key == key@);
                    assert(i == j);
                }
                let p = &self.partitions[i];
                Some((copy_rows(&p.notes), copy_rows(&p.folders), copy_rows(&p.workspaces)))
            },
        }
    }

    /// Runs one exchange stamped with the server's current time.
    pub fn handle_sync(&mut self, sync_key: Option<String>, request: SyncRequest) -> (r: Result<
        SyncResponse,
        SyncError,
    >)
        requires
            server_wf(old(self)@),
        ensures
            server_wf(final(self)@),
            match sync_outcome(old(self)@, sync_key, request) {
                Err(e) => r == Err::<SyncResponse, SyncError>(e) && final(self)@ == old(self)@,
                Ok(_) => {
                    let i = partition_index(old(self)@, sync_key.unwrap()@);
                    let p = old(self)@[i].pushed(request);
                    &&& r is Ok
                    &&& final(self)@ == old(self)@.update(i, p)
                    &&& exists|now: i64| pulled(p, request.last_sync_time, now, r.unwrap())
                },
            },
    {
        let now = now_millis();
        self.sync(sync_key, request, now)
    }
}

} // verus!
