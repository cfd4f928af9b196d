//! A versioned note store with last-write-wins synchronization.
//!
//! The library keeps notes, folders and workspaces as versioned records,
//! derives a change log from local note edits, merges records that arrive
//! from another replica by their `updated_at` stamps, and runs both halves
//! of the push/pull exchange that keeps replicas converged. It also lays out
//! a workspace as a tree of Markdown files and plans the import of one.
//!
//! - `table`: keyed tables and the generic edit, merge and delete rules.
//! - `records`: the records a replica stores.
//! - `store`: one replica's store, its change log and search.
//! - `tree`: which folders lie below a folder.
//! - `server`: the server's partitions and the sync exchange.
//! - `text`: search queries and file names.
//! - `export` and `importer`: workspaces as trees of Markdown files.
//! - `laws`: properties that span several operations.
//! - `clock`: the wall clock and fresh identifiers.
pub mod table;
pub mod records;
pub mod clock;
pub mod store;
pub mod tree;
pub mod server;
pub mod text;
pub mod export;
pub mod importer;
pub mod laws;
