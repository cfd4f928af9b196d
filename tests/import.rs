use lumenote::importer::{classify_entry, plan_import, ArchiveEntry, EntryKind, ImportError};
use lumenote::store::Db;

fn dir(name: &str) -> ArchiveEntry {
    ArchiveEntry { name: name.to_string(), is_dir: true, content: None }
}

fn file(name: &str, content: &str) -> ArchiveEntry {
    ArchiveEntry { name: name.to_string(), is_dir: false, content: Some(content.to_string()) }
}

fn sample() -> Vec<ArchiveEntry> {
    vec![
        file("Work/plan.md", "p"),
        dir("Work/Sub/"),
        file("root.md", "r"),
        ArchiveEntry { name: "image.png".to_string(), is_dir: false, content: None },
        dir("Work/"),
        file("Work/Sub/deep.md.md", "d"),
        file("Other/x.md", "x"),
        file("Work/.md", "u"),
    ]
}

#[test]
fn classify_entries() {
    assert_eq!(classify_entry("a/", false), EntryKind::Directory);
    assert_eq!(classify_entry("a", true), EntryKind::Directory);
    assert_eq!(classify_entry("a/b.md", false), EntryKind::Markdown);
    assert_eq!(classify_entry("a/b.txt", false), EntryKind::Other);
    assert_eq!(classify_entry("md", false), EntryKind::Other);
}

#[test]
fn plan_creates_folders_shallow_first() {
    let plan = plan_import(&sample()).unwrap();
    let folders: Vec<(String, String, Option<usize>)> =
        plan.folders.iter().map(|f| (f.path.clone(), f.name.clone(), f.parent)).collect();
    assert_eq!(
        folders,
        vec![
            ("Work".to_string(), "Work".to_string(), None),
            ("Work/Sub".to_string(), "Sub".to_string(), Some(0)),
        ]
    );
    let notes: Vec<(String, String, Option<usize>)> =
        plan.notes.iter().map(|n| (n.title.clone(), n.content.clone(), n.folder)).collect();
    assert_eq!(
        notes,
        vec![
            ("plan".to_string(), "p".to_string(), Some(0)),
            ("root".to_string(), "r".to_string(), None),
            ("deep".to_string(), "d".to_string(), Some(1)),
            ("x".to_string(), "x".to_string(), None),
            ("Untitled".to_string(), "u".to_string(), Some(0)),
        ]
    );
}

#[test]
fn deep_directory_creates_its_ancestors() {
    let plan = plan_import(&vec![dir("a/b/c/")]).unwrap();
    let paths: Vec<String> = plan.folders.iter().map(|f| f.path.clone()).collect();
    assert_eq!(paths, vec!["a".to_string(), "a/b".to_string(), "a/b/c".to_string()]);
    assert_eq!(plan.folders[2].parent, Some(1));
}

#[test]
fn archive_without_notes_or_folders_is_refused() {
    let entries = vec![ArchiveEntry { name: "x.png".to_string(), is_dir: false, content: None }];
    assert_eq!(plan_import(&entries).err(), Some(ImportError::NothingToImport));
    assert_eq!(plan_import(&Vec::new()).err(), Some(ImportError::NothingToImport));
    let mut db = Db::new();
    assert_eq!(db.import_workspace(&entries, None, None), Err(ImportError::NothingToImport));
    assert!(db.get_workspaces().is_empty());
}

#[test]
fn import_into_store() {
    let mut db = Db::new();
    let ws = db.import_workspace(&sample(), Some("Mine".to_string()), Some("stem".to_string())).unwrap();
    assert_eq!(ws.len(), 36);
    let workspaces = db.get_workspaces();
    assert_eq!(workspaces.len(), 1);
    assert_eq!(workspaces[0].name, "Mine");
    assert_eq!(workspaces[0].color, "#4F7DF3");
    let folders = db.get_folders();
    assert_eq!(folders.len(), 2);
    assert_eq!(folders[1].parent_id, Some(folders[0].id.clone()));
    assert!(folders.iter().all(|f| f.workspace_id == ws));
    let notes = db.get_notes();
    assert_eq!(notes.len(), 5);
    assert_eq!(notes[0].title, "plan");
    assert_eq!(notes[0].folder_id, Some(folders[0].id.clone()));
    assert_eq!(notes[2].folder_id, Some(folders[1].id.clone()));
    assert_eq!(notes[1].folder_id, None);
    assert_eq!(db.get_changes().len(), 5);
}

#[test]
fn import_name_falls_back() {
    let mut db = Db::new();
    db.import_workspace(&vec![dir("d/")], None, Some("archive".to_string())).unwrap();
    db.import_workspace(&vec![dir("d/")], None, None).unwrap();
    let names: Vec<String> = db.get_workspaces().into_iter().map(|w| w.name).collect();
    assert_eq!(names, vec!["archive".to_string(), "Imported Workspace".to_string()]);
}
