//! The records that a replica stores.
use vstd::prelude::*;
use crate::table::{Keyed, Versioned};

verus! {

/// A copy of an optional string.
pub fn copy_opt(s: &Option<String>) -> (r: Option<String>)
    ensures
        r == *s,
{
    match s {
        Some(v) => Some(v.clone()),
        None => None,
    }
}

/// A note as a replica stores it; `folder_id == None` places it at the root of its workspace.
#[derive(Debug, Clone)]
pub struct NoteRecord {
    pub id: String,
    pub title: String,
    pub content: String,
    pub folder_id: Option<String>,
    pub workspace_id: String,
    pub created_at: i64,
    pub updated_at: i64,
    pub version: i32,
    pub is_deleted: bool,
}

impl Keyed for NoteRecord {
    open spec fn key(&self) -> Seq<char> {
        self.id@
    }

    open spec fn stamp(&self) -> i64 {
        self.updated_at
    }

    open spec fn created(&self) -> i64 {
        self.created_at
    }

    open spec fn deleted(&self) -> bool {
        self.is_deleted
    }

    open spec fn with_created(self, t: i64) -> Self {
        NoteRecord { created_at: t, ..self }
    }

    proof fn lemma_with_created(self, t: i64) {
    }

    fn id_ref(&self) -> (r: &String) {
        &self.id
    }

    fn updated_at_of(&self) -> (r: i64) {
        self.updated_at
    }

    fn created_at_of(&self) -> (r: i64) {
        self.created_at
    }

    fn is_deleted_of(&self) -> (r: bool) {
        self.is_deleted
    }

    fn set_created_at(&mut self, t: i64) {
        self.created_at = t;
    }

    fn duplicate(&self) -> (r: Self) {
        NoteRecord {
            id: self.id.clone(),
            title: self.title.clone(),
            content: self.content.clone(),
            folder_id: copy_opt(&self.folder_id),
            workspace_id: self.workspace_id.clone(),
            created_at: self.created_at,
            updated_at: self.updated_at,
            version: self.version,
            is_deleted: self.is_deleted,
        }
    }
}

impl Versioned for NoteRecord {
    open spec fn version(&self) -> i32 {
        self.version
    }

    open spec fn restamped(self, created: i64, updated: i64, version: i32) -> Self {
        NoteRecord { created_at: created, updated_at: updated, version: version, ..self }
    }

    open spec fn tombstoned(self, now: i64) -> Self {
        NoteRecord { is_deleted: true, updated_at: now, ..self }
    }

    proof fn lemma_restamped(self, created: i64, updated: i64, version: i32) {
    }

    proof fn lemma_tombstoned(self, now: i64) {
    }

    fn version_of(&self) -> (r: i32) {
        self.version
    }

    fn restamp(&mut self, created: i64, updated: i64, version: i32) {
        self.created_at = created;
        self.updated_at = updated;
        self.version = version;
    }

    fn tombstone(&mut self, now: i64) {
        self.is_deleted = true;
        self.updated_at = now;
    }
}

/// A folder as a replica stores it; `parent_id == None` places it at the root of its workspace.
#[derive(Debug, Clone)]
pub struct FolderRecord {
    pub id: String,
    pub name: String,
    pub parent_id: Option<String>,
    pub workspace_id: String,
    pub created_at: i64,
    pub updated_at: i64,
    pub version: i32,
    pub color: Option<String>,
    pub is_deleted: bool,
}

impl Keyed for FolderRecord {
    open spec fn key(&self) -> Seq<char> {
        self.id@
    }

    open spec fn stamp(&self) -> i64 {
        self.updated_at
    }

    open spec fn created(&self) -> i64 {
        self.created_at
    }

    open spec fn deleted(&self) -> bool {
        self.is_deleted
    }

    open spec fn with_created(self, t: i64) -> Self {
        FolderRecord { created_at: t, ..self }
    }

    proof fn lemma_with_created(self, t: i64) {
    }

    fn id_ref(&self) -> (r: &String) {
        &self.id
    }

    fn updated_at_of(&self) -> (r: i64) {
        self.updated_at
    }

    fn created_at_of(&self) -> (r: i64) {
        self.created_at
    }

    fn is_deleted_of(&self) -> (r: bool) {
        self.is_deleted
    }

    fn set_created_at(&mut self, t: i64) {
        self.created_at = t;
    }

    fn duplicate(&self) -> (r: Self) {
        FolderRecord {
            id: self.id.clone(),
            name: self.name.clone(),
            parent_id: copy_opt(&self.parent_id),
            workspace_id: self.workspace_id.clone(),
            created_at: self.created_at,
            updated_at: self.updated_at,
            version: self.version,
            color: copy_opt(&self.color),
            is_deleted: self.is_deleted,
        }
    }
}

impl Versioned for FolderRecord {
    open spec fn version(&self) -> i32 {
        self.version
    }

    open spec fn restamped(self, created: i64, updated: i64, version: i32) -> Self {
        FolderRecord { created_at: created, updated_at: updated, version: version, ..self }
    }

    open spec fn tombstoned(self, now: i64) -> Self {
        FolderRecord { is_deleted: true, updated_at: now, ..self }
    }

    proof fn lemma_restamped(self, created: i64, updated: i64, version: i32) {
    }

    proof fn lemma_tombstoned(self, now: i64) {
    }

    fn version_of(&self) -> (r: i32) {
        self.version
    }

    fn restamp(&mut self, created: i64, updated: i64, version: i32) {
        self.created_at = created;
        self.updated_at = updated;
        self.version = version;
    }

    fn tombstone(&mut self, now: i64) {
        self.is_deleted = true;
        self.updated_at = now;
    }
}

/// A workspace as a replica stores it.
#[derive(Debug, Clone)]
pub struct WorkspaceRecord {
    pub id: String,
    pub name: String,
    pub color: String,
    pub created_at: i64,
    pub updated_at: i64,
    pub version: i32,
    pub is_deleted: bool,
}

impl Keyed for WorkspaceRecord {
    open spec fn key(&self) -> Seq<char> {
        self.id@
    }

    open spec fn stamp(&self) -> i64 {
        self.updated_at
    }

    open spec fn created(&self) -> i64 {
        self.created_at
    }

    open spec fn deleted(&self) -> bool {
        self.is_deleted
    }

    open spec fn with_created(self, t: i64) -> Self {
        WorkspaceRecord { created_at: t, ..self }
    }

    proof fn lemma_with_created(self, t: i64) {
    }

    fn id_ref(&self) -> (r: &String) {
        &self.id
    }

    fn updated_at_of(&self) -> (r: i64) {
        self.updated_at
    }

    fn created_at_of(&self) -> (r: i64) {
        self.created_at
    }

    fn is_deleted_of(&self) -> (r: bool) {
        self.is_deleted
    }

    fn set_created_at(&mut self, t: i64) {
        self.created_at = t;
    }

    fn duplicate(&self) -> (r: Self) {
        WorkspaceRecord {
            id: self.id.clone(),
            name: self.name.clone(),
            color: self.color.clone(),
            created_at: self.created_at,
            updated_at: self.updated_at,
            version: self.version,
            is_deleted: self.is_deleted,
        }
    }
}

impl Versioned for WorkspaceRecord {
    open spec fn version(&self) -> i32 {
        self.version
    }

    open spec fn restamped(self, created: i64, updated: i64, version: i32) -> Self {
        WorkspaceRecord { created_at: created, updated_at: updated, version: version, ..self }
    }

    open spec fn tombstoned(self, now: i64) -> Self {
        WorkspaceRecord { is_deleted: true, updated_at: now, ..self }
    }

    proof fn lemma_restamped(self, created: i64, updated: i64, version: i32) {
    }

    proof fn lemma_tombstoned(self, now: i64) {
    }

    fn version_of(&self) -> (r: i32) {
        self.version
    }

    fn restamp(&mut self, created: i64, updated: i64, version: i32) {
        self.created_at = created;
        self.updated_at = updated;
        self.version = version;
    }

    fn tombstone(&mut self, now: i64) {
        self.is_deleted = true;
        self.updated_at = now;
    }
}

/// One transition of a note's content: written for each local edit that
/// creates a note or changes its content, and never altered afterwards.
#[derive(Debug, Clone)]
pub struct ChangeLogEntry {
    pub id: String,
    pub note_id: String,
    pub old_content: Option<String>,
    pub new_content: String,
    pub timestamp: i64,
    pub version: i32,
}

/// A note found by a search: its identifier, title and a snippet of its content.
#[derive(Debug, Clone)]
pub struct SearchResult {
    pub id: String,
    pub title: String,
    pub snippet: String,
}

/// The notes and folders that changed after a given time.
#[derive(Debug)]
pub struct SyncDataResponse {
    pub notes: Vec<NoteRecord>,
    pub folders: Vec<FolderRecord>,
}

} // verus!
