use lumenote::records::NoteRecord;
use lumenote::server::{Folder, Note, SyncError, SyncRequest, SyncServer, Workspace};
use lumenote::store::{Db, StoreError};

fn wire(id: &str, content: &str, updated_at: i64, created_at: Option<i64>) -> Note {
    Note {
        id: id.to_string(),
        title: "T".to_string(),
        content: content.to_string(),
        folder_id: None,
        workspace_id: "default".to_string(),
        created_at,
        updated_at,
        is_deleted: false,
    }
}

fn request(last: i64, notes: Vec<Note>) -> SyncRequest {
    SyncRequest { last_sync_time: last, notes, folders: Vec::new(), workspaces: Vec::new() }
}

fn key() -> Option<String> {
    Some("secret".to_string())
}

fn local(id: &str, content: &str) -> NoteRecord {
    NoteRecord {
        id: id.to_string(),
        title: "T".to_string(),
        content: content.to_string(),
        folder_id: None,
        workspace_id: "default".to_string(),
        created_at: 0,
        updated_at: 0,
        version: 1,
        is_deleted: false,
    }
}

#[test]
fn pull_window_and_watermark() {
    let mut server = SyncServer::new("secret".to_string());
    server.sync(key(), request(i64::MAX, vec![wire("N1", "x", 2000, Some(1000))]), 2100).unwrap();
    let mut client = Db::new();
    let resp = server.sync(key(), client.sync_request(500), 3000).unwrap();
    assert_eq!(resp.server_time, 3000);
    assert_eq!(resp.notes.len(), 1);
    assert_eq!(resp.notes[0].id, "N1");
    assert_eq!(resp.notes[0].created_at, Some(1000));
    let watermark = client.apply_sync_response(resp).unwrap();
    assert_eq!(watermark, 3000);
    let got = &client.get_notes()[0];
    assert_eq!((got.updated_at, got.created_at, got.version), (2000, 1000, 1));
}

#[test]
fn stale_push_is_ignored() {
    let mut server = SyncServer::new("secret".to_string());
    server.sync(key(), request(i64::MAX, vec![wire("N1", "server", 1800, None)]), 1900).unwrap();
    let resp = server.sync(key(), request(0, vec![wire("N1", "client", 1500, None)]), 4000).unwrap();
    assert_eq!(resp.notes.len(), 1);
    assert_eq!(resp.notes[0].updated_at, 1800);
    assert_eq!(resp.notes[0].content, "server");
    assert_eq!(resp.notes[0].created_at, Some(1800));
}

#[test]
fn window_bounds_are_exclusive() {
    let mut server = SyncServer::new("secret".to_string());
    let notes = vec![wire("A", "a", 100, None), wire("B", "b", 200, None), wire("C", "c", 300, None)];
    let resp = server.sync(key(), request(100, notes), 300).unwrap();
    let ids: Vec<String> = resp.notes.into_iter().map(|n| n.id).collect();
    assert_eq!(ids, vec!["B".to_string()]);
}

#[test]
fn newer_push_replaces_and_keeps_created_at() {
    let mut server = SyncServer::new("secret".to_string());
    server.sync(key(), request(i64::MAX, vec![wire("N1", "v1", 1000, Some(10))]), 1100).unwrap();
    let resp = server.sync(key(), request(0, vec![wire("N1", "v2", 2000, Some(99))]), 5000).unwrap();
    assert_eq!(resp.notes[0].content, "v2");
    assert_eq!(resp.notes[0].created_at, Some(10));
}

#[test]
fn tombstone_reaches_the_server() {
    let mut server = SyncServer::new("secret".to_string());
    let mut client = Db::new();
    client.upsert_note_at(local("N1", "x"), 1000, "c1".to_string()).unwrap();
    server.sync(key(), client.sync_request(0), 1100).unwrap();
    client.delete_note_at("N1".to_string(), 2000);
    let resp = server.sync(key(), client.sync_request(1100), 2500).unwrap();
    assert_eq!(resp.notes.len(), 1);
    assert!(resp.notes[0].is_deleted);
    assert_eq!(client.get_changes().len(), 1);
    let mut other = Db::new();
    other.upsert_note_at(local("N1", "x"), 1000, "o1".to_string()).unwrap();
    other.apply_sync_response(resp).unwrap();
    assert!(other.get_notes().is_empty());
    assert_eq!(other.get_changes().len(), 1);
}

#[test]
fn missing_or_unknown_key_is_refused() {
    let mut server = SyncServer::new("secret".to_string());
    let r = server.sync(None, request(0, vec![wire("N1", "x", 10, None)]), 100);
    assert_eq!(r.err(), Some(SyncError::MissingKey));
    let r = server.sync(Some("Secret".to_string()), request(0, vec![wire("N1", "x", 10, None)]), 100);
    assert_eq!(r.err(), Some(SyncError::UnknownKey));
    let resp = server.sync(key(), request(0, Vec::new()), 100).unwrap();
    assert!(resp.notes.is_empty());
}

#[test]
fn invalid_record_refuses_whole_exchange() {
    let mut server = SyncServer::new("secret".to_string());
    let r = server.sync(key(), request(0, vec![wire("N1", "x", 10, None), wire("", "y", 10, None)]), 100);
    assert_eq!(r.err(), Some(SyncError::InvalidRecord));
    let resp = server.sync(key(), request(0, Vec::new()), 100).unwrap();
    assert!(resp.notes.is_empty());
}

#[test]
fn partitions_are_separate() {
    let mut server = SyncServer::new("one".to_string());
    assert!(server.add_key("two".to_string()));
    assert!(!server.add_key("one".to_string()));
    server.sync(Some("one".to_string()), request(i64::MAX, vec![wire("N1", "x", 10, None)]), 20).unwrap();
    let resp = server.sync(Some("two".to_string()), request(0, Vec::new()), 100).unwrap();
    assert!(resp.notes.is_empty());
    let resp = server.sync(Some("one".to_string()), request(0, Vec::new()), 100).unwrap();
    assert_eq!(resp.notes.len(), 1);
}

#[test]
fn folders_and_workspaces_travel_too() {
    let mut server = SyncServer::new("secret".to_string());
    let req = SyncRequest {
        last_sync_time: 0,
        notes: Vec::new(),
        folders: vec![Folder {
            id: "F".to_string(),
            name: "f".to_string(),
            parent_id: None,
            workspace_id: "W".to_string(),
            created_at: None,
            updated_at: 50,
            is_deleted: false,
        }],
        workspaces: vec![Workspace {
            id: "W".to_string(),
            name: "w".to_string(),
            color: "#123456".to_string(),
            created_at: Some(5),
            updated_at: 60,
            is_deleted: false,
        }],
    };
    let resp = server.sync(key(), req, 100).unwrap();
    assert_eq!(resp.folders.len(), 1);
    assert_eq!(resp.folders[0].created_at, Some(50));
    assert_eq!(resp.workspaces[0].color, "#123456");
    let mut client = Db::new();
    client.apply_sync_response(resp).unwrap();
    assert_eq!(client.get_folders()[0].version, 1);
    assert_eq!(client.get_workspaces()[0].created_at, 5);
}

#[test]
fn handle_sync_uses_the_clock() {
    let mut server = SyncServer::new("secret".to_string());
    let resp = server.handle_sync(key(), request(0, vec![wire("N1", "x", 10, None)])).unwrap();
    assert!(resp.server_time > 1_577_836_800_000);
    assert_eq!(resp.notes.len(), 1);
}

#[test]
fn response_with_empty_id_is_refused() {
    let mut server = SyncServer::new("secret".to_string());
    let mut resp = server.sync(key(), request(0, vec![wire("N1", "x", 10, None)]), 100).unwrap();
    resp.notes.push(wire("", "bad", 20, None));
    let mut client = Db::new();
    assert_eq!(client.apply_sync_response(resp), Err(StoreError::InvalidId));
    assert!(client.get_notes().is_empty());
}

#[test]
fn pulled_record_keeps_local_version() {
    let mut client = Db::new();
    client.upsert_note_at(local("N1", "a"), 100, "c1".to_string()).unwrap();
    client.upsert_note_at(local("N1", "b"), 200, "c2".to_string()).unwrap();
    let mut server = SyncServer::new("secret".to_string());
    let resp = server.sync(key(), request(0, vec![wire("N1", "remote", 300, None)]), 400).unwrap();
    client.apply_sync_response(resp).unwrap();
    let got = &client.get_notes()[0];
    assert_eq!((got.content.as_str(), got.version, got.created_at), ("remote", 2, 100));
}

#[test]
fn retransmitted_request_applies_nothing_twice() {
    let mut server = SyncServer::new("secret".to_string());
    server.sync(key(), request(i64::MAX, vec![wire("N1", "s", 100, None)]), 150).unwrap();
    let batch = || request(0, vec![wire("N1", "old", 50, None), wire("N1", "new", 200, Some(7)), wire("N2", "x", 120, None)]);
    let first = server.sync(key(), batch(), 1000).unwrap();
    let second = server.sync(key(), batch(), 2000).unwrap();
    let view = |r: &lumenote::server::SyncResponse| {
        r.notes.iter().map(|n| (n.id.clone(), n.content.clone(), n.updated_at, n.created_at)).collect::<Vec<_>>()
    };
    assert_eq!(view(&first), view(&second));
    assert_eq!(first.notes[0].content, "new");
    assert_eq!(first.notes[0].created_at, Some(100));
}

#[test]
fn pushed_tombstone_keeps_server_row() {
    let mut server = SyncServer::new("secret".to_string());
    server.sync(key(), request(i64::MAX, vec![wire("N1", "x", 100, None)]), 150).unwrap();
    let mut tomb = wire("N1", "x", 300, None);
    tomb.is_deleted = true;
    let resp = server.sync(key(), request(0, vec![tomb]), 1000).unwrap();
    assert_eq!(resp.notes.len(), 1);
    assert!(resp.notes[0].is_deleted);
    assert_eq!(resp.notes[0].updated_at, 300);
}
