use asom_index::engine::{EngineState, FileScan, PathInput, ScanEntry};
use asom_index::events::{
    classify, EventAction, FsCreateKind, FsEventKind, FsModifyKind, FsRemoveKind, FsRenameMode,
    IPCEmitEvent, PathMeta,
};
use asom_index::paths::RelPath;
use asom_index::records::AttrValue;
use asom_index::schema::{
    NumberSettings, Schema, SchemaAttrType, SchemaItem, TextSettings,
};

fn rp(segments: &[&str]) -> RelPath {
    RelPath::from_segments(segments.iter().map(|s| s.to_string()).collect())
}

fn books_schema() -> Schema {
    Schema {
        name: "books".to_owned(),
        version: "1.0".to_owned(),
        fill_from_filename: None,
        fill_api_search_from: None,
        items: vec![
            SchemaItem {
                name: "author".to_owned(),
                value: SchemaAttrType::Text(TextSettings::default()),
            },
            SchemaItem {
                name: "year".to_owned(),
                value: SchemaAttrType::Number(NumberSettings::default()),
            },
        ],
    }
}

fn meta_file() -> PathMeta {
    PathMeta { exists: Some(true), is_file: true, is_dir: false }
}

fn meta_gone() -> PathMeta {
    PathMeta { exists: Some(false), is_file: false, is_dir: false }
}

fn md_input(path: RelPath, front_matter: &str, modified: i64) -> PathInput {
    PathInput {
        path,
        meta: meta_file(),
        file_read: Some(Ok(FileScan { modified, front_matter: front_matter.to_owned() })),
        schema_read: None,
        scan: None,
    }
}

fn bare_input(path: RelPath, meta: PathMeta) -> PathInput {
    PathInput { path, meta, file_read: None, schema_read: None, scan: None }
}

fn scan_of_books(suffix: &str) -> Vec<ScanEntry> {
    let root = if suffix.is_empty() { "books".to_string() } else { format!("books{}", suffix) };
    vec![
        ScanEntry::Dir { path: rp(&[]), schema_read: Ok(None) },
        ScanEntry::Dir { path: rp(&[&root]), schema_read: Ok(Some(books_schema())) },
        ScanEntry::File {
            path: rp(&[&root, "a.md"]),
            read: Ok(FileScan { modified: 7, front_matter: "author: X".to_owned() }),
        },
        ScanEntry::Dir { path: rp(&[&root, "sub"]), schema_read: Ok(None) },
    ]
}

/// Basic convergence: scanning a root with a governed folder and one
/// file leaves exactly that file queryable, with the declared fields
/// parsed or empty.
#[test]
fn scan_converges_from_empty() {
    let mut engine = EngineState::new();
    let aggregate = engine.scan_apply(&scan_of_books(""));
    assert!(aggregate.is_none(), "no per-entry failure");

    let records = engine.index.query_files(&rp(&["books"]), None);
    assert_eq!(records.len(), 1);
    let rec = &records[0];
    assert_eq!(rec.path, Some(rp(&["books", "a.md"])));
    assert_eq!(rec.attrs.get("author"), Some(&AttrValue::Str(Some("X".into()))));
    assert_eq!(rec.attrs.get("year"), Some(&AttrValue::Integer(None)));
}

/// An ungoverned markdown file is reported in the scan aggregate and
/// stays out of the index.
#[test]
fn scan_reports_ungoverned_files() {
    let mut engine = EngineState::new();
    let entries = vec![
        ScanEntry::Dir { path: rp(&[]), schema_read: Ok(None) },
        ScanEntry::File {
            path: rp(&["loose.md"]),
            read: Ok(FileScan { modified: 1, front_matter: "".to_owned() }),
        },
    ];
    let aggregate = engine.scan_apply(&entries).expect("the loose file is reported");
    assert_eq!(aggregate.title, "Error when caching files and folders");
    assert_eq!(aggregate.sub_errors.len(), 1);
    assert_eq!(engine.index.query_files(&rp(&[]), None).len(), 0);
}

/// Rename equals remove-plus-add: the paired event and the explicit
/// sequence end in the same index state.
#[test]
fn rename_matches_remove_then_add() {
    let mut renamed = EngineState::new();
    renamed.scan_apply(&scan_of_books(""));
    let mut explicit = EngineState::new();
    explicit.scan_apply(&scan_of_books(""));

    let kind = FsEventKind::Modify(FsModifyKind::Name(FsRenameMode::Both));
    let old_path = rp(&["books", "a.md"]);
    let new_path = rp(&["books", "b.md"]);
    let inputs = vec![
        bare_input(old_path.clone(), meta_gone()),
        md_input(new_path.clone(), "author: Y", 9),
    ];
    let res = renamed.handle_event(&kind, &inputs);
    assert!(res.errors.is_empty());
    assert_eq!(res.events.len(), 2);
    assert!(matches!(res.events[0], IPCEmitEvent::FileRemove(_)));
    assert!(matches!(res.events[1], IPCEmitEvent::FileAdd(_)));

    let remove = explicit.handle_file_remove(&bare_input(old_path.clone(), meta_gone()));
    assert!(remove.is_ok());
    let add = explicit.handle_file_upsert(&md_input(new_path.clone(), "author: Y", 9), false);
    assert!(add.is_ok());

    let via_event = renamed.index.query_files(&rp(&[]), None);
    let via_sequence = explicit.index.query_files(&rp(&[]), None);
    assert_eq!(via_event.len(), 1);
    assert_eq!(via_sequence.len(), 1);
    assert_eq!(via_event[0].path, via_sequence[0].path);
    assert_eq!(via_event[0].attrs, via_sequence[0].attrs);
    assert_eq!(via_event[0].path, Some(new_path));
}

/// Folder rename cascades schema: after the old folder's removal event
/// and the new folder's arrival (with its contents), the schema resolves
/// under the new name and no longer under the old one.
#[test]
fn folder_rename_cascades_schema() {
    let mut engine = EngineState::new();
    engine.scan_apply(&scan_of_books(""));
    assert!(engine.schemas.get_schema(&rp(&["books", "sub"])).is_some());

    let remove = engine.handle_event(
        &FsEventKind::Modify(FsModifyKind::Name(FsRenameMode::From)),
        &vec![bare_input(rp(&["books"]), meta_gone())],
    );
    assert!(remove.errors.is_empty());

    let mut add_input = bare_input(
        rp(&["books2"]),
        PathMeta { exists: Some(true), is_file: false, is_dir: true },
    );
    add_input.scan = Some(scan_of_books("2"));
    let add = engine.handle_event(
        &FsEventKind::Modify(FsModifyKind::Name(FsRenameMode::To)),
        &vec![add_input],
    );
    assert!(add.errors.is_empty());

    let new_side = engine.schemas.get_schema(&rp(&["books2", "sub"])).expect("schema follows");
    assert_eq!(new_side.schema.name, "books");
    assert_eq!(new_side.location.schema_owner_folder, rp(&["books2"]));
    assert!(engine.schemas.get_schema(&rp(&["books", "sub"])).is_none());
}

/// Schema removal: once a folder's schema file is gone, the folder is
/// ungoverned and fresh content under it is silently left unindexed.
#[test]
fn schema_removal_leaves_subtree_ungoverned() {
    let mut engine = EngineState::new();
    engine.scan_apply(&scan_of_books(""));

    let removal = engine.handle_event(
        &FsEventKind::Remove(FsRemoveKind::File),
        &vec![bare_input(rp(&["books", ".asom", "schema.yaml"]), meta_gone())],
    );
    assert!(removal.errors.is_empty());
    assert!(engine.schemas.get_schema(&rp(&["books", "sub"])).is_none());

    let before = engine.index.query_files(&rp(&[]), None).len();
    let add = engine.handle_file_upsert(&md_input(rp(&["books", "new.md"]), "author: Z", 3), false);
    assert_eq!(add.ok().map(|v| v.len()), Some(0), "ungoverned content is skipped in silence");
    assert_eq!(engine.index.query_files(&rp(&[]), None).len(), before);
}

/// A folder removal cascades over files and schemas under a governed
/// folder.
#[test]
fn folder_remove_cascades() {
    let mut engine = EngineState::new();
    engine.scan_apply(&scan_of_books(""));

    let res = engine.handle_event(
        &FsEventKind::Remove(FsRemoveKind::Folder),
        &vec![bare_input(rp(&["books"]), meta_gone())],
    );
    assert!(res.errors.is_empty());
    assert_eq!(engine.index.query_files(&rp(&[]), None).len(), 0);
    assert!(engine.schemas.get_schema(&rp(&["books", "a.md"])).is_none());
    let folders = engine.index.get_all_folders(&engine.schemas);
    assert_eq!(folders.folders.len(), 1, "only the root row stays");
}

/// A data change on an existing governed file updates its record.
#[test]
fn file_update_replaces_record() {
    let mut engine = EngineState::new();
    engine.scan_apply(&scan_of_books(""));

    let res = engine.handle_event(
        &FsEventKind::Modify(FsModifyKind::Data),
        &vec![md_input(rp(&["books", "a.md"]), "author: Changed", 8)],
    );
    assert!(res.errors.is_empty());
    assert_eq!(res.events.len(), 1);
    assert!(matches!(res.events[0], IPCEmitEvent::FileUpdate(_)));

    let records = engine.index.query_files(&rp(&["books"]), None);
    assert_eq!(records.len(), 1);
    assert_eq!(records[0].attrs.get("author"), Some(&AttrValue::Str(Some("Changed".into()))));
    assert_eq!(records[0].modified, Some(8));
}

/// A removal of a governed file with no resolvable schema is reported,
/// not silently swallowed.
#[test]
fn file_remove_without_schema_is_an_error() {
    let mut engine = EngineState::new();
    let res = engine.handle_event(
        &FsEventKind::Remove(FsRemoveKind::File),
        &vec![bare_input(rp(&["loose.md"]), meta_gone())],
    );
    assert_eq!(res.errors.len(), 1);
    assert_eq!(res.errors[0].title, "Schema not found for file remove");
}

/// Representative rows of the decision table, platform quirks included.
#[test]
fn classification_table_rows() {
    let file = meta_file();
    let dir = PathMeta { exists: Some(true), is_file: false, is_dir: true };
    let gone = meta_gone();

    assert_eq!(
        classify(&FsEventKind::Create(FsCreateKind::File), true, &file, 0),
        EventAction::FileAdd
    );
    assert_eq!(
        classify(&FsEventKind::Create(FsCreateKind::Any), false, &dir, 0),
        EventAction::FolderAdd
    );
    assert_eq!(
        classify(&FsEventKind::Modify(FsModifyKind::Name(FsRenameMode::From)), true, &gone, 0),
        EventAction::FileRemove
    );
    assert_eq!(
        classify(&FsEventKind::Modify(FsModifyKind::Name(FsRenameMode::From)), false, &gone, 0),
        EventAction::FolderRemove
    );
    assert_eq!(
        classify(&FsEventKind::Modify(FsModifyKind::Name(FsRenameMode::Both)), true, &gone, 0),
        EventAction::FileRemove
    );
    assert_eq!(
        classify(&FsEventKind::Modify(FsModifyKind::Name(FsRenameMode::Both)), true, &file, 1),
        EventAction::FileAdd
    );
    assert_eq!(
        classify(&FsEventKind::Modify(FsModifyKind::Name(FsRenameMode::Any)), true, &gone, 0),
        EventAction::FileRemove,
        "single-path rename of a vanished file reads the disk"
    );
    assert_eq!(
        classify(&FsEventKind::Modify(FsModifyKind::Name(FsRenameMode::Any)), false, &dir, 0),
        EventAction::FolderAdd
    );
    assert_eq!(
        classify(&FsEventKind::Modify(FsModifyKind::Any), true, &file, 0),
        EventAction::FileUpdate,
        "generic platforms report data changes as Any"
    );
    assert_eq!(
        classify(&FsEventKind::Modify(FsModifyKind::Data), true, &gone, 0),
        EventAction::NoAction,
        "a data change on a vanished path is ignored"
    );
    assert_eq!(
        classify(&FsEventKind::Remove(FsRemoveKind::Any), false, &gone, 0),
        EventAction::FolderRemove
    );
    assert_eq!(classify(&FsEventKind::Other, true, &file, 0), EventAction::NoAction);
}

/// The cascade is unconditional: even when no schema resolves for the
/// removed folder any more, every file row, folder row and schema under
/// it still leaves.
#[test]
fn folder_remove_cascades_without_resolving_schema() {
    let mut engine = EngineState::new();
    engine.scan_apply(&scan_of_books(""));
    assert_eq!(engine.index.query_files(&rp(&[]), None).len(), 1);

    // The schema file goes first: only the schema entry leaves, the
    // indexed rows stay behind.
    let removal = engine.handle_event(
        &FsEventKind::Remove(FsRemoveKind::File),
        &vec![bare_input(rp(&["books", ".asom", "schema.yaml"]), meta_gone())],
    );
    assert!(removal.errors.is_empty());
    assert!(engine.schemas.get_schema(&rp(&["books"])).is_none());
    assert_eq!(engine.index.query_files(&rp(&[]), None).len(), 1);

    // Now the whole folder goes: nothing under it may survive.
    let res = engine.handle_event(
        &FsEventKind::Remove(FsRemoveKind::Folder),
        &vec![bare_input(rp(&["books"]), meta_gone())],
    );
    assert!(res.errors.is_empty());
    assert_eq!(res.events.len(), 1, "no schema resolved, so no listing re-announcement");
    assert!(matches!(res.events[0], IPCEmitEvent::FolderRemove(_)));
    assert_eq!(engine.index.query_files(&rp(&[]), None).len(), 0);
    let folders = engine.index.get_all_folders(&engine.schemas);
    assert_eq!(folders.folders.len(), 1, "only the root row stays");
}

/// A nested schema strictly below the removed folder leaves with it,
/// whether or not the folder itself was governed.
#[test]
fn folder_remove_drops_nested_schemas() {
    let mut engine = EngineState::new();
    let entries = vec![
        ScanEntry::Dir { path: rp(&[]), schema_read: Ok(None) },
        ScanEntry::Dir { path: rp(&["shelf"]), schema_read: Ok(None) },
        ScanEntry::Dir { path: rp(&["shelf", "books"]), schema_read: Ok(Some(books_schema())) },
    ];
    engine.scan_apply(&entries);
    assert!(engine.schemas.get_schema(&rp(&["shelf", "books", "x.md"])).is_some());

    let res = engine.handle_event(
        &FsEventKind::Remove(FsRemoveKind::Folder),
        &vec![bare_input(rp(&["shelf"]), meta_gone())],
    );
    assert!(res.errors.is_empty());
    assert!(engine.schemas.get_schema(&rp(&["shelf", "books", "x.md"])).is_none());
}
