use lumenote::records::{FolderRecord, NoteRecord, WorkspaceRecord};
use lumenote::store::{Db, StoreError, VersionMode};

fn note(id: &str, title: &str, content: &str, folder: Option<&str>) -> NoteRecord {
    NoteRecord {
        id: id.to_string(),
        title: title.to_string(),
        content: content.to_string(),
        folder_id: folder.map(|f| f.to_string()),
        workspace_id: "default".to_string(),
        created_at: 1000,
        updated_at: 1000,
        version: 1,
        is_deleted: false,
    }
}

fn folder(id: &str, name: &str, parent: Option<&str>) -> FolderRecord {
    FolderRecord {
        id: id.to_string(),
        name: name.to_string(),
        parent_id: parent.map(|p| p.to_string()),
        workspace_id: "default".to_string(),
        created_at: 1000,
        updated_at: 1000,
        version: 1,
        color: None,
        is_deleted: false,
    }
}

#[test]
fn test_upsert_and_get_notes() {
    let mut db = Db::new();
    let note = NoteRecord {
        id: "test-note".to_string(),
        title: "Test Title".to_string(),
        content: "Test Content".to_string(),
        folder_id: None,
        workspace_id: "default".to_string(),
        created_at: 1000,
        updated_at: 1000,
        version: 1,
        is_deleted: false,
    };
    db.upsert_note(note).unwrap();
    let notes = db.get_notes();
    assert_eq!(notes.len(), 1);
    assert_eq!(notes[0].title, "Test Title");
}

#[test]
fn test_delete_note() {
    let mut db = Db::new();
    let note = NoteRecord {
        id: "test-note".to_string(),
        title: "Test".to_string(),
        content: "Test".to_string(),
        folder_id: None,
        workspace_id: "default".to_string(),
        created_at: 1000,
        updated_at: 1000,
        version: 1,
        is_deleted: false,
    };
    db.upsert_note(note).unwrap();
    db.delete_note("test-note".to_string());
    let notes = db.get_notes();
    assert_eq!(notes.len(), 0);
}

#[test]
fn test_upsert_and_get_folders() {
    let mut db = Db::new();
    let folder = FolderRecord {
        id: "test-folder".to_string(),
        name: "Test Folder".to_string(),
        parent_id: None,
        workspace_id: "default".to_string(),
        created_at: 1000,
        updated_at: 1000,
        version: 1,
        color: None,
        is_deleted: false,
    };
    db.upsert_folder(folder).unwrap();
    let folders = db.get_folders();
    assert_eq!(folders.len(), 1);
    assert_eq!(folders[0].name, "Test Folder");
}

#[test]
fn test_note_versioning() {
    let mut db = Db::new();
    let mut note = NoteRecord {
        id: "version-note".to_string(),
        title: "V1".to_string(),
        content: "Content V1".to_string(),
        folder_id: None,
        workspace_id: "default".to_string(),
        created_at: 1000,
        updated_at: 1000,
        version: 1,
        is_deleted: false,
    };
    db.upsert_note(note.clone()).unwrap();
    let notes = db.get_notes();
    assert_eq!(notes[0].version, 1);

    note.content = "Content V2".to_string();
    note.updated_at = 2000;
    db.upsert_note(note).unwrap();

    let notes = db.get_notes();
    assert_eq!(notes[0].version, 2);
    assert_eq!(notes[0].content, "Content V2");

    let mut changes = db.get_changes();
    changes.sort_by_key(|c| c.version);
    assert_eq!(changes.len(), 2);
    assert_eq!(changes[0].new_content, "Content V1");
    assert_eq!(changes[0].version, 1);
    assert_eq!(changes[1].old_content, Some("Content V1".to_string()));
    assert_eq!(changes[1].new_content, "Content V2");
    assert_eq!(changes[1].version, 2);
}

#[test]
fn create_then_edit_content() {
    let mut db = Db::new();
    db.upsert_note_at(note("N1", "A", "x", None), 1000, "c1".to_string()).unwrap();
    let n = &db.get_notes()[0];
    assert_eq!(n.version, 1);
    assert_eq!(n.created_at, 1000);
    assert_eq!(n.updated_at, 1000);

    db.upsert_note_at(note("N1", "A", "y", None), 2000, "c2".to_string()).unwrap();
    let n = &db.get_notes()[0];
    assert_eq!(n.version, 2);
    assert_eq!(n.created_at, 1000);
    assert_eq!(n.updated_at, 2000);
    let changes = db.get_changes();
    assert_eq!(changes.len(), 2);
    assert_eq!(changes[0].id, "c1");
    assert_eq!(changes[0].old_content, None);
    assert_eq!(changes[1].id, "c2");
    assert_eq!(changes[1].note_id, "N1");
    assert_eq!(changes[1].old_content, Some("x".to_string()));
    assert_eq!(changes[1].new_content, "y");
    assert_eq!(changes[1].timestamp, 2000);
    assert_eq!(changes[1].version, 2);
}

#[test]
fn edit_without_content_change_logs_nothing() {
    let mut db = Db::new();
    db.upsert_note_at(note("N1", "A", "x", None), 1000, "c1".to_string()).unwrap();
    db.upsert_note_at(note("N1", "B", "x", None), 1500, "c2".to_string()).unwrap();
    let n = &db.get_notes()[0];
    assert_eq!(n.version, 2);
    assert_eq!(n.title, "B");
    assert_eq!(db.get_changes().len(), 1);
}

#[test]
fn local_edit_ignores_supplied_stamps() {
    let mut db = Db::new();
    let mut n = note("N1", "A", "x", None);
    n.created_at = 5;
    n.updated_at = 6;
    n.version = 40;
    db.upsert_note_at(n, 700, "c".to_string()).unwrap();
    let got = &db.get_notes()[0];
    assert_eq!((got.created_at, got.updated_at, got.version), (700, 700, 1));
}

#[test]
fn empty_id_is_rejected() {
    let mut db = Db::new();
    assert_eq!(db.upsert_note_at(note("", "A", "x", None), 1000, "c".to_string()), Err(StoreError::InvalidId));
    assert_eq!(db.upsert_folder_at(folder("", "F", None), 1000), Err(StoreError::InvalidId));
    assert_eq!(db.apply_remote_update_note(note("", "A", "x", None)), Err(StoreError::InvalidId));
    assert!(db.get_notes().is_empty());
    assert!(db.get_folders().is_empty());
    assert!(db.get_changes().is_empty());
}

#[test]
fn exhausted_version_is_refused() {
    let mut db = Db::new();
    let mut n = note("N1", "A", "x", None);
    n.version = i32::MAX;
    db.apply_remote_update_note(n).unwrap();
    assert_eq!(
        db.upsert_note_at(note("N1", "A", "y", None), 2000, "c".to_string()),
        Err(StoreError::VersionOverflow)
    );
    let got = &db.get_notes()[0];
    assert_eq!(got.content, "x");
    assert_eq!(got.version, i32::MAX);
    assert!(db.get_changes().is_empty());
}

#[test]
fn version_increments_by_one_per_edit() {
    let mut db = Db::new();
    db.upsert_folder_at(folder("F1", "a", None), 10).unwrap();
    db.upsert_folder_at(folder("F1", "b", None), 20).unwrap();
    db.upsert_folder_at(folder("F1", "c", None), 30).unwrap();
    let f = &db.get_folders()[0];
    assert_eq!((f.version, f.created_at, f.updated_at), (3, 10, 30));
    let w = WorkspaceRecord {
        id: "W".to_string(),
        name: "w".to_string(),
        color: "#fff".to_string(),
        created_at: 0,
        updated_at: 0,
        version: 9,
        is_deleted: false,
    };
    db.upsert_workspace_at(w.clone(), 50).unwrap();
    db.upsert_workspace_at(w, 60).unwrap();
    let w = &db.get_workspaces()[0];
    assert_eq!((w.version, w.created_at, w.updated_at), (2, 50, 60));
}

#[test]
fn current_time_and_fresh_change_ids_are_used() {
    let mut db = Db::new();
    db.upsert_note(note("N1", "A", "x", None)).unwrap();
    let n = &db.get_notes()[0];
    // 2020-01-01 in milliseconds: the clock is read, not the supplied stamp.
    assert!(n.updated_at > 1_577_836_800_000);
    assert_eq!(n.created_at, n.updated_at);
    db.upsert_note(note("N1", "A", "y", None)).unwrap();
    let changes = db.get_changes();
    assert_eq!(changes.len(), 2);
    assert_eq!(changes[0].id.len(), 36);
    assert_ne!(changes[0].id, changes[1].id);
}

#[test]
fn delete_keeps_change_log_and_tombstone() {
    let mut db = Db::new();
    db.upsert_note_at(note("N1", "A", "x", None), 1000, "c1".to_string()).unwrap();
    db.delete_note_at("N1".to_string(), 3000);
    assert!(db.get_notes().is_empty());
    assert_eq!(db.get_changes().len(), 1);
    let (notes, _) = db.get_sync_data(2500);
    assert_eq!(notes.len(), 1);
    assert!(notes[0].is_deleted);
    assert_eq!(notes[0].updated_at, 3000);
    assert_eq!(notes[0].version, 1);
}

#[test]
fn deleting_unknown_note_changes_nothing() {
    let mut db = Db::new();
    db.upsert_note_at(note("N1", "A", "x", None), 1000, "c1".to_string()).unwrap();
    db.delete_note_at("other".to_string(), 3000);
    assert_eq!(db.get_notes().len(), 1);
    assert_eq!(db.get_notes()[0].updated_at, 1000);
}

#[test]
fn folder_delete_cascades() {
    let mut db = Db::new();
    db.upsert_folder_at(folder("F1", "top", None), 100).unwrap();
    db.upsert_folder_at(folder("F2", "inner", Some("F1")), 100).unwrap();
    db.upsert_folder_at(folder("F3", "other", None), 100).unwrap();
    db.upsert_note_at(note("N2", "in F1", "a", Some("F1")), 100, "c1".to_string()).unwrap();
    db.upsert_note_at(note("N3", "in F2", "b", Some("F2")), 100, "c2".to_string()).unwrap();
    db.upsert_note_at(note("N4", "in F3", "c", Some("F3")), 100, "c3".to_string()).unwrap();
    db.upsert_note_at(note("N5", "root", "d", None), 100, "c4".to_string()).unwrap();
    db.delete_folder_at("F1".to_string(), 500);
    let live: Vec<String> = db.get_notes().into_iter().map(|n| n.id).collect();
    assert_eq!(live, vec!["N4".to_string(), "N5".to_string()]);
    let folders: Vec<String> = db.get_folders().into_iter().map(|f| f.id).collect();
    assert_eq!(folders, vec!["F3".to_string()]);
    let (notes, folders) = db.get_sync_data(400);
    assert_eq!(notes.len(), 2);
    assert!(notes.iter().all(|n| n.is_deleted && n.updated_at == 500));
    assert_eq!(folders.len(), 2);
    assert_eq!(db.get_changes().len(), 4);
}

#[test]
fn folder_delete_survives_a_cycle() {
    let mut db = Db::new();
    db.upsert_folder_at(folder("A", "a", Some("B")), 100).unwrap();
    db.upsert_folder_at(folder("B", "b", Some("A")), 100).unwrap();
    db.upsert_note_at(note("N", "n", "x", Some("B")), 100, "c".to_string()).unwrap();
    db.delete_folder_at("A".to_string(), 200);
    assert!(db.get_folders().is_empty());
    assert!(db.get_notes().is_empty());
}

#[test]
fn merge_is_last_write_wins() {
    let mut db = Db::new();
    let mut n = note("N1", "A", "local", None);
    n.updated_at = 1800;
    n.created_at = 100;
    db.apply_remote_update_note(n).unwrap();
    let mut stale = note("N1", "A", "stale", None);
    stale.updated_at = 1800;
    db.apply_remote_update_note(stale).unwrap();
    assert_eq!(db.get_notes()[0].content, "local");
    let mut newer = note("N1", "B", "newer", None);
    newer.updated_at = 1801;
    newer.created_at = 999;
    newer.version = 7;
    db.apply_remote_update_note(newer).unwrap();
    let got = &db.get_notes()[0];
    assert_eq!(got.content, "newer");
    assert_eq!(got.created_at, 100);
    assert_eq!(got.version, 7);
    assert!(db.get_changes().is_empty());
}

#[test]
fn merge_twice_equals_merge_once() {
    let mut a = Db::new();
    let mut b = Db::new();
    a.upsert_note_at(note("N1", "A", "x", None), 1000, "c".to_string()).unwrap();
    b.upsert_note_at(note("N1", "A", "x", None), 1000, "c".to_string()).unwrap();
    let mut inc = note("N1", "B", "y", None);
    inc.updated_at = 2000;
    a.apply_remote_update_note(inc.clone()).unwrap();
    b.apply_remote_update_note(inc.clone()).unwrap();
    b.apply_remote_update_note(inc).unwrap();
    let (x, y) = (&a.get_notes()[0], &b.get_notes()[0]);
    assert_eq!((&x.content, x.updated_at, x.created_at), (&y.content, y.updated_at, y.created_at));
}

#[test]
fn stale_then_newer_equals_newer_alone() {
    let stored = {
        let mut n = note("N1", "S", "s", None);
        n.updated_at = 1000;
        n
    };
    let mut older = note("N1", "A", "a", None);
    older.updated_at = 1500;
    let mut newer = note("N1", "B", "b", None);
    newer.updated_at = 2000;
    let run = |order: &[&NoteRecord]| {
        let mut db = Db::new();
        db.apply_remote_update_note(stored.clone()).unwrap();
        for r in order {
            db.apply_remote_update_note((*r).clone()).unwrap();
        }
        let n = db.get_notes()[0].clone();
        (n.content, n.updated_at, n.created_at)
    };
    let alone = run(&[&newer]);
    assert_eq!(run(&[&older, &newer]), alone);
    assert_eq!(run(&[&newer, &older]), alone);
    assert_eq!(alone.0, "b");
}

#[test]
fn updated_at_never_goes_back_under_merges() {
    let mut db = Db::new();
    db.upsert_note_at(note("N1", "A", "x", None), 1000, "c".to_string()).unwrap();
    let mut last = db.get_notes()[0].updated_at;
    for t in [500, 1500, 1200, 1500, 3000, 10] {
        let mut inc = note("N1", "A", "z", None);
        inc.updated_at = t;
        db.apply_remote_update_note(inc).unwrap();
        let now = db.get_notes()[0].updated_at;
        assert!(now >= last);
        last = now;
    }
    assert_eq!(last, 3000);
    db.upsert_note_at(note("N1", "A", "w", None), 3500, "d".to_string()).unwrap();
    assert_eq!(db.get_notes()[0].updated_at, 3500);
}

#[test]
fn sync_data_filters_by_time() {
    let mut db = Db::new();
    db.upsert_note_at(note("N1", "A", "x", None), 1000, "c1".to_string()).unwrap();
    db.upsert_note_at(note("N2", "B", "y", None), 2000, "c2".to_string()).unwrap();
    db.upsert_folder_at(folder("F1", "f", None), 1500).unwrap();
    let (notes, folders) = db.get_sync_data(1000);
    assert_eq!(notes.len(), 1);
    assert_eq!(notes[0].id, "N2");
    assert_eq!(folders.len(), 1);
    let (notes, folders) = db.get_sync_data(2000);
    assert!(notes.is_empty() && folders.is_empty());
}

#[test]
fn search_finds_live_notes_by_title_or_content() {
    let mut db = Db::new();
    db.upsert_note_at(note("N1", "Groceries", "milk and eggs", None), 1, "a".to_string()).unwrap();
    db.upsert_note_at(note("N2", "Work", "meeting about milk", None), 2, "b".to_string()).unwrap();
    db.upsert_note_at(note("N3", "Misc", "nothing", None), 3, "c".to_string()).unwrap();
    let hits = db.search_notes("milk".to_string());
    let ids: Vec<&str> = hits.iter().map(|h| h.id.as_str()).collect();
    assert_eq!(ids, vec!["N1", "N2"]);
    assert_eq!(hits[0].title, "Groceries");
    assert_eq!(hits[0].snippet, "milk and eggs");
    assert_eq!(db.search_notes("Misc".to_string()).len(), 1);
    db.delete_note_at("N1".to_string(), 10);
    db.upsert_note_at(note("N2", "Work", "meeting moved", None), 11, "d".to_string()).unwrap();
    assert!(db.search_notes("milk".to_string()).is_empty());
    assert_eq!(db.search_notes("moved".to_string())[0].snippet, "meeting moved");
}

#[test]
fn search_returns_at_most_twenty() {
    let mut db = Db::new();
    for i in 0..25 {
        let id = format!("N{}", i);
        db.upsert_note_at(note(&id, "t", "same words", None), i, format!("c{}", i)).unwrap();
    }
    let hits = db.search_notes("words".to_string());
    assert_eq!(hits.len(), 20);
    assert_eq!(hits[0].id, "N0");
    assert_eq!(hits[19].id, "N19");
}

#[test]
fn remote_folder_and_workspace_merges() {
    let mut db = Db::new();
    let mut f = folder("F1", "old", None);
    f.color = Some("red".to_string());
    db.apply_remote_update_folder(f).unwrap();
    let mut f2 = folder("F1", "new", None);
    f2.updated_at = 2000;
    db.apply_remote_update_folder(f2).unwrap();
    assert_eq!(db.get_folders()[0].name, "new");
    assert_eq!(db.get_folders()[0].color, None);
    let w = WorkspaceRecord {
        id: "W".to_string(),
        name: "w".to_string(),
        color: "#000".to_string(),
        created_at: 1,
        updated_at: 5,
        version: 3,
        is_deleted: false,
    };
    db.apply_remote_update_workspace(w).unwrap();
    db.delete_workspace_at("W".to_string(), 9);
    assert!(db.get_workspaces().is_empty());
    let ws = db.get_sync_workspaces(8);
    assert_eq!(ws.len(), 1);
    assert!(ws[0].is_deleted);
}

#[test]
fn strict_mode_keeps_local_versions() {
    let mut db = Db::with_version_mode(VersionMode::Strict);
    db.upsert_note_at(note("N1", "A", "x", None), 1000, "c1".to_string()).unwrap();
    db.upsert_note_at(note("N1", "A", "y", None), 1100, "c2".to_string()).unwrap();
    let mut inc = note("N1", "B", "remote", None);
    inc.updated_at = 2000;
    inc.version = 40;
    db.apply_remote_update_note(inc.clone()).unwrap();
    db.apply_remote_update_note(inc).unwrap();
    let got = &db.get_notes()[0];
    assert_eq!((got.content.as_str(), got.version, got.updated_at), ("remote", 2, 2000));
    let mut fresh = note("N2", "C", "z", None);
    fresh.version = 7;
    db.apply_remote_update_note(fresh).unwrap();
    assert_eq!(db.get_notes()[1].version, 1);
}

#[test]
fn compatible_mode_takes_incoming_version() {
    let mut db = Db::with_version_mode(VersionMode::Compatible);
    db.upsert_note_at(note("N1", "A", "x", None), 1000, "c1".to_string()).unwrap();
    let mut inc = note("N1", "B", "remote", None);
    inc.updated_at = 2000;
    inc.version = 40;
    db.apply_remote_update_note(inc).unwrap();
    assert_eq!(db.get_notes()[0].version, 40);
}

#[test]
fn search_matches_word_prefixes_only() {
    let mut db = Db::new();
    db.upsert_note_at(note("N1", "abc", "abc", None), 1, "a".to_string()).unwrap();
    db.upsert_note_at(note("N2", "x", "the meeting (milk) at noon", None), 2, "b".to_string()).unwrap();
    assert!(db.search_notes("bc".to_string()).is_empty());
    assert_eq!(db.search_notes("ab".to_string())[0].id, "N1");
    assert_eq!(db.search_notes("mee".to_string())[0].id, "N2");
    assert_eq!(db.search_notes("milk".to_string())[0].id, "N2");
    assert!(db.search_notes("eting".to_string()).is_empty());
}

#[test]
fn search_ranks_title_hits_first() {
    let mut db = Db::new();
    db.upsert_note_at(note("N1", "Diary", "plans for the garden", None), 1, "a".to_string()).unwrap();
    db.upsert_note_at(note("N2", "Garden", "roses", None), 2, "b".to_string()).unwrap();
    db.upsert_note_at(note("N3", "Garden tools", "garden shears", None), 3, "c".to_string()).unwrap();
    let ids: Vec<String> = db.search_notes("gar".to_string()).into_iter().map(|h| h.id).collect();
    assert_eq!(ids, vec!["N1".to_string(), "N3".to_string()]);
    let ids: Vec<String> = db.search_notes("Gar".to_string()).into_iter().map(|h| h.id).collect();
    assert_eq!(ids, vec!["N2".to_string(), "N3".to_string()]);
    let ids: Vec<String> = db.search_notes("garden".to_string()).into_iter().map(|h| h.id).collect();
    assert_eq!(ids, vec!["N1".to_string(), "N3".to_string()]);
}

#[test]
fn search_takes_quotes_literally() {
    let mut db = Db::new();
    db.upsert_note_at(note("N1", "q", "they say \"hi\" loudly", None), 1, "a".to_string()).unwrap();
    assert_eq!(db.search_notes("say \"hi".to_string()).len(), 1);
    assert_eq!(db.search_notes("\"hi\"".to_string()).len(), 1);
    assert!(db.search_notes("a\"b".to_string()).is_empty());
}

#[test]
fn stale_then_newer_without_stored_record() {
    let mut older = note("N1", "A", "a", None);
    older.updated_at = 1500;
    let mut newer = note("N1", "B", "b", None);
    newer.updated_at = 2000;
    let run = |order: &[&NoteRecord]| {
        let mut db = Db::new();
        for r in order {
            db.apply_remote_update_note((*r).clone()).unwrap();
        }
        let n = db.get_notes()[0].clone();
        (n.content, n.updated_at, n.created_at)
    };
    let alone = run(&[&newer]);
    assert_eq!(run(&[&older, &newer]), alone);
    assert_eq!(run(&[&newer, &older]), alone);
}
