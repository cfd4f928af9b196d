use lumenote::export::export_entries;
use lumenote::records::{FolderRecord, NoteRecord};
use lumenote::store::Db;

fn note(id: &str, title: &str, content: &str, folder: Option<&str>, ws: &str) -> NoteRecord {
    NoteRecord {
        id: id.to_string(),
        title: title.to_string(),
        content: content.to_string(),
        folder_id: folder.map(|f| f.to_string()),
        workspace_id: ws.to_string(),
        created_at: 0,
        updated_at: 0,
        version: 1,
        is_deleted: false,
    }
}

fn folder(id: &str, name: &str, parent: Option<&str>, ws: &str) -> FolderRecord {
    FolderRecord {
        id: id.to_string(),
        name: name.to_string(),
        parent_id: parent.map(|p| p.to_string()),
        workspace_id: ws.to_string(),
        created_at: 0,
        updated_at: 0,
        version: 1,
        color: None,
        is_deleted: false,
    }
}

fn paths(entries: &[lumenote::export::ExportEntry]) -> Vec<(String, String)> {
    entries.iter().map(|e| (e.path.clone(), e.content.clone())).collect()
}

#[test]
fn export_lays_out_tree() {
    let notes = vec![
        note("n1", "Top", "t", None, "W"),
        note("n2", "In/A", "a", Some("A"), "W"),
        note("n3", "", "u", Some("B"), "W"),
        note("n4", "Elsewhere", "x", None, "V"),
    ];
    let folders = vec![
        folder("A", "Alpha", None, "W"),
        folder("B", "?", Some("A"), "W"),
        folder("C", "Other", None, "V"),
    ];
    let got = paths(&export_entries(notes, folders, &"W".to_string()));
    assert_eq!(
        got,
        vec![
            ("Top.md".to_string(), "t".to_string()),
            ("Alpha/In_A.md".to_string(), "a".to_string()),
            ("Alpha/_/Untitled.md".to_string(), "u".to_string()),
        ]
    );
}

#[test]
fn export_names_blank_folders() {
    let notes = vec![note("n1", "  ", "c", Some("A"), "W")];
    let folders = vec![folder("A", "   ", None, "W")];
    let got = paths(&export_entries(notes, folders, &"W".to_string()));
    assert_eq!(got, vec![("Untitled Folder/Untitled.md".to_string(), "c".to_string())]);
}

#[test]
fn export_from_store_skips_deleted() {
    let mut db = Db::new();
    db.upsert_folder_at(folder("A", "Alpha", None, "W"), 1).unwrap();
    db.upsert_note_at(note("n1", "one", "1", Some("A"), "W"), 1, "c1".to_string()).unwrap();
    db.upsert_note_at(note("n2", "two", "2", None, "W"), 1, "c2".to_string()).unwrap();
    db.delete_note_at("n2".to_string(), 5);
    let got = paths(&db.export_workspace(&"W".to_string()));
    assert_eq!(got, vec![("Alpha/one.md".to_string(), "1".to_string())]);
}
