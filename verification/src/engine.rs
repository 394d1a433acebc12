//! The event-interpretation engine: applies classified filesystem events
//! to the schema store and the index store, and produces the outbound
//! notifications.
//!
//! Every disk access happens outside: each event path arrives with what
//! was read off the disk for it (existence, file content, decoded schema
//! document, subtree walk), and the engine's behaviour is a function of
//! those inputs and the current stores.

use vstd::prelude::*;

use crate::errors::{ErrFR, ErrFRActionCode};
use crate::events::{
    classify, spec_classify, EventAction, FileEventDataExisting, FileEventDataRemoved,
    FolderEventData, FsEventKind, IPCEmitEvent, PathMeta,
};
use crate::index::{IndexStore, StoredFileV};
use crate::metadata::{
    parse_metadata, spec_doc_entries, spec_metadata_entries, spec_metadata_map, yaml_parse_of,
};
use crate::paths::{spec_extension, RelPath};
use crate::records::RecordFromDb;
use crate::schema::{Schema, SchemaItemV, SchemaV};
use crate::schema_store::{
    locate_schema_and_folder, spec_locate, spec_resolve_owner, SchemasInMemoryCache,
};

verus! {

/// What the file-access collaborator read for one governed file: its
/// modification time in unix milliseconds and its raw front matter.
#[derive(Debug)]
pub struct FileScan {
    pub modified: i64,
    pub front_matter: String,
}

/// One entry of a subtree walk, in walk order: directories come before
/// their contents, each with its schema file already read and decoded.
#[derive(Debug)]
pub enum ScanEntry {
    File { path: RelPath, read: Result<FileScan, String> },
    Dir { path: RelPath, schema_read: Result<Option<Schema>, String> },
}

/// One event path with everything the engine may need read off the disk
/// for it.
#[derive(Debug)]
pub struct PathInput {
    pub path: RelPath,
    pub meta: PathMeta,
    pub file_read: Option<Result<FileScan, String>>,
    pub schema_read: Option<Result<Option<Schema>, String>>,
    pub scan: Option<Vec<ScanEntry>>,
}

/// The engine's two stores.
pub struct EngineState {
    pub schemas: SchemasInMemoryCache,
    pub index: IndexStore,
}

/// The abstract value of an [`EngineState`]: the three maps.
pub struct EngineStateV {
    pub schemas: Map<Seq<Seq<char>>, SchemaV>,
    pub files: Map<Seq<Seq<char>>, StoredFileV>,
    pub folders: Map<Seq<Seq<char>>, Seq<char>>,
}

impl View for EngineState {
    type V = EngineStateV;

    open spec fn view(&self) -> EngineStateV {
        EngineStateV {
            schemas: self.schemas@,
            files: self.index.files(),
            folders: self.index.folders(),
        }
    }
}

impl EngineState {
    pub open spec fn wf(&self) -> bool {
        self.schemas.wf() && self.index.wf()
    }

    pub fn new() -> (r: EngineState)
        ensures
            r.wf(),
            r@.schemas == Map::<Seq<Seq<char>>, SchemaV>::empty(),
            r@.files == Map::<Seq<Seq<char>>, StoredFileV>::empty(),
            r@.folders == Map::<Seq<Seq<char>>, Seq<char>>::empty(),
    {
        EngineState { schemas: SchemasInMemoryCache::new(), index: IndexStore::new() }
    }
}

/// The map with every key at or under `p` gone.
pub open spec fn spec_remove_subtree<V>(
    m: Map<Seq<Seq<char>>, V>,
    p: Seq<Seq<char>>,
) -> Map<Seq<Seq<char>>, V> {
    Map::new(|k: Seq<Seq<char>>| m.contains_key(k) && !p.is_prefix_of(k), |k| m[k])
}

/// The extension of a path's final segment.
pub open spec fn spec_ext(p: Seq<Seq<char>>) -> Option<Seq<char>> {
    if p.len() == 0 {
        None
    } else {
        spec_extension(p.last())
    }
}

pub open spec fn spec_is_md(p: Seq<Seq<char>>) -> bool {
    spec_ext(p) == Some("md"@)
}

pub open spec fn spec_is_yaml(p: Seq<Seq<char>>) -> bool {
    spec_ext(p) == Some("yaml"@)
}

/// The file row a governed file's read yields under a schema's fields.
pub open spec fn spec_md_row(fs: FileScan, items: Seq<SchemaItemV>) -> StoredFileV {
    StoredFileV {
        modified: Some(fs.modified),
        attrs: spec_metadata_map(spec_doc_entries(yaml_parse_of(fs.front_matter@)), items),
        search_index: crate::index::lower_of(
            crate::index::spec_search_source(
                spec_metadata_entries(spec_doc_entries(yaml_parse_of(fs.front_matter@)), items),
            ),
        ),
    }
}

/// A governed-content upsert: indexed only where some schema resolves
/// and the read succeeded; ungoverned content is out of scope, not an
/// error.
pub open spec fn spec_apply_md_upsert(
    s: EngineStateV,
    p: Seq<Seq<char>>,
    file_read: Option<Result<FileScan, String>>,
) -> EngineStateV {
    match spec_resolve_owner(s.schemas, p) {
        Some(o) => match file_read {
            Some(Ok(fs)) => EngineStateV {
                files: s.files.insert(p, spec_md_row(fs, s.schemas[o].items)),
                ..s
            },
            _ => s,
        },
        None => s,
    }
}

/// A schema-file upsert: the decoded schema document stored under its
/// owner folder; an absent or undecodable file changes nothing.
pub open spec fn spec_apply_schema_upsert(
    s: EngineStateV,
    p: Seq<Seq<char>>,
    meta: PathMeta,
    schema_read: Option<Result<Option<Schema>, String>>,
) -> EngineStateV {
    match spec_locate(p, meta.exists == Some(true), meta.is_dir) {
        Some(fo) => match schema_read {
            Some(Ok(Some(sch))) => EngineStateV { schemas: s.schemas.insert(fo.1, sch@), ..s },
            _ => s,
        },
        None => s,
    }
}

/// Whether a file add/update fails: a governed file whose read failed,
/// a schema path the canonicalization rule rejects, or a schema
/// document that did not decode.  Nothing else fails; in particular
/// ungoverned content is silently skipped, not an error.
pub open spec fn spec_file_upsert_fails(s: EngineStateV, input: PathInput) -> bool {
    let p = input.path@;
    if spec_is_md(p) {
        match spec_resolve_owner(s.schemas, p) {
            Some(_) => !(input.file_read matches Some(Ok(_))),
            None => false,
        }
    } else if spec_is_yaml(p) {
        if spec_locate(p, input.meta.exists == Some(true), input.meta.is_dir) is None {
            true
        } else {
            input.schema_read matches Some(Err(_))
        }
    } else {
        false
    }
}

/// A file-add or file-update transition.
pub open spec fn spec_apply_file_upsert(s: EngineStateV, input: PathInput) -> EngineStateV {
    let p = input.path@;
    if spec_is_md(p) {
        spec_apply_md_upsert(s, p, input.file_read)
    } else if spec_is_yaml(p) {
        spec_apply_schema_upsert(s, p, input.meta, input.schema_read)
    } else {
        s
    }
}

/// Whether a file removal fails: a governed file no schema resolves
/// for, or a schema file with no usable parent folder.
pub open spec fn spec_file_remove_fails(s: EngineStateV, input: PathInput) -> bool {
    let p = input.path@;
    if spec_is_md(p) {
        spec_resolve_owner(s.schemas, p) is None
    } else if spec_is_yaml(p) {
        p.len() == 0 || spec_locate(p.drop_last(), false, false) is None
    } else {
        false
    }
}

/// A file-remove transition: a governed file's row leaves the index; a
/// schema file's removal removes its owner folder's schema.
pub open spec fn spec_apply_file_remove(s: EngineStateV, input: PathInput) -> EngineStateV {
    let p = input.path@;
    if spec_is_md(p) {
        match spec_resolve_owner(s.schemas, p) {
            Some(_) => EngineStateV { files: s.files.remove(p), ..s },
            None => s,
        }
    } else if spec_is_yaml(p) {
        if p.len() == 0 {
            s
        } else {
            match spec_locate(p.drop_last(), false, false) {
                Some(fo) => EngineStateV { schemas: s.schemas.remove(fo.1), ..s },
                None => s,
            }
        }
    } else {
        s
    }
}

/// A folder-remove transition: every folder row, file row and schema
/// whose key is the removed folder or lies under it leaves,
/// unconditionally.
pub open spec fn spec_apply_folder_remove(s: EngineStateV, p: Seq<Seq<char>>) -> EngineStateV {
    EngineStateV {
        schemas: spec_remove_subtree(s.schemas, p),
        files: spec_remove_subtree(s.files, p),
        folders: spec_remove_subtree(s.folders, p),
    }
}

/// One subtree-walk entry applied: a directory first stores its schema
/// (so the files under it parse against it), then its folder row, a
/// hidden name excluded; a governed file stores its row.
pub open spec fn spec_scan_step(s: EngineStateV, e: ScanEntry) -> EngineStateV {
    match e {
        ScanEntry::File { path, read } => if spec_is_md(path@) {
            spec_apply_md_upsert(s, path@, Some(read))
        } else {
            s
        },
        ScanEntry::Dir { path, schema_read } => {
            let with_schema = match spec_locate(path@, true, true) {
                Some(fo) => match schema_read {
                    Ok(Some(sch)) => EngineStateV { schemas: s.schemas.insert(fo.1, sch@), ..s },
                    _ => s,
                },
                None => s,
            };
            let name = if path@.len() == 0 {
                "/"@
            } else {
                path@.last()
            };
            if name.len() > 0 && name[0] == '.' {
                with_schema
            } else {
                EngineStateV { folders: with_schema.folders.insert(path@, name), ..with_schema }
            }
        },
    }
}

/// A whole subtree walk applied, in walk order.
pub open spec fn spec_scan_fold(s: EngineStateV, entries: Seq<ScanEntry>) -> EngineStateV
    decreases entries.len(),
{
    if entries.len() == 0 {
        s
    } else {
        spec_scan_step(spec_scan_fold(s, entries.drop_last()), entries.last())
    }
}

/// Whether one walk entry fails under the stores the walk reached it
/// with: a governed file whose read failed, or one that no schema
/// resolves for.  Directory entries never fail the walk.
pub open spec fn spec_scan_entry_fails(s: EngineStateV, e: ScanEntry) -> bool {
    match e {
        ScanEntry::File { path, read } => spec_is_md(path@) && (match spec_resolve_owner(
            s.schemas,
            path@,
        ) {
            Some(_) => read is Err,
            None => true,
        }),
        ScanEntry::Dir { .. } => false,
    }
}

/// How many walk entries fail, each judged at the stores the walk
/// reached it with.
pub open spec fn spec_scan_fail_count(s: EngineStateV, entries: Seq<ScanEntry>) -> int
    decreases entries.len(),
{
    if entries.len() == 0 {
        0int
    } else {
        spec_scan_fail_count(s, entries.drop_last()) + (if spec_scan_entry_fails(
            spec_scan_fold(s, entries.drop_last()),
            entries.last(),
        ) {
            1int
        } else {
            0
        })
    }
}

/// A folder-add transition: the provided subtree walk applied.
pub open spec fn spec_apply_folder_add(s: EngineStateV, input: PathInput) -> EngineStateV {
    match input.scan {
        Some(entries) => spec_scan_fold(s, entries@),
        None => s,
    }
}

/// One classified action applied to the stores.
pub open spec fn spec_apply_action(
    s: EngineStateV,
    action: EventAction,
    input: PathInput,
) -> EngineStateV {
    match action {
        EventAction::FileAdd => spec_apply_file_upsert(s, input),
        EventAction::FileUpdate => if input.meta.exists == Some(true) {
            spec_apply_file_upsert(s, input)
        } else {
            s
        },
        EventAction::FileRemove => spec_apply_file_remove(s, input),
        EventAction::FolderAdd => spec_apply_folder_add(s, input),
        EventAction::FolderRemove => spec_apply_folder_remove(s, input.path@),
        EventAction::NoAction => s,
    }
}

/// Whether a path has an extension at all.
pub fn path_has_ext(p: &RelPath) -> (r: bool)
    ensures
        r == (spec_ext(p@) is Some),
{
    let e = p.extension();
    e.is_some()
}

/// Which governed kind a path's extension names.
fn ext_kind(p: &RelPath) -> (r: (bool, bool))
    ensures
        r.0 == spec_is_md(p@),
        r.1 == spec_is_yaml(p@),
        r.0 ==> !r.1,
{
    proof {
        reveal_strlit("md");
        reveal_strlit("yaml");
    }
    match p.extension() {
        Some(e) => {
            let md = crate::paths::str_eq(e.as_str(), "md");
            let yaml = crate::paths::str_eq(e.as_str(), "yaml");
            proof {
                assert(md ==> e@ == "md"@);
                assert(yaml ==> e@ == "yaml"@);
                assert("md"@.len() == 2 && "yaml"@.len() == 4);
            }
            (md, yaml)
        },
        None => (false, false),
    }
}

/// The result of one whole event: the notifications it produced and the
/// per-path failures it collected; a failure never stops the rest of
/// the event.
pub struct HandleEventResult {
    pub events: Vec<IPCEmitEvent>,
    pub errors: Vec<ErrFR>,
}

impl EngineState {
    /// A file add or update: a governed file is read, parsed against its
    /// resolved schema and indexed (silently skipped where no schema
    /// governs it); a schema file is decoded and stored for its owner
    /// folder, and the schema listing is re-announced.
    pub fn handle_file_upsert(&mut self, input: &PathInput, update: bool) -> (r: Result<
        Vec<IPCEmitEvent>,
        ErrFR,
    >)
        requires
            old(self).wf(),
        ensures
            final(self).wf(),
            r is Ok ==> final(self)@ == spec_apply_file_upsert(old(self)@, *input),
            r is Err ==> final(self)@ == old(self)@ && spec_apply_file_upsert(old(self)@, *input)
                == old(self)@,
            r is Err <==> spec_file_upsert_fails(old(self)@, *input),
            r matches Err(e) ==> (spec_is_md(input.path@) ==> e.title@
                == "Error reading get file modified time"@ && e.action_code == Some(
                ErrFRActionCode::FileReadRetry,
            )),
            r matches Err(e) ==> (spec_is_yaml(input.path@) && spec_locate(
                input.path@,
                input.meta.exists == Some(true),
                input.meta.is_dir,
            ) is Some ==> e.title@ == "Error parsing schema"@),
            r matches Ok(es) ==> (if spec_is_md(input.path@) {
                match spec_resolve_owner(old(self)@.schemas, input.path@) {
                    Some(o) => es@.len() == 1 && (match es@[0] {
                        IPCEmitEvent::FileAdd(d) => !update && d.path@ == input.path@
                            && d.schema.schema_owner_folder@ == o && d.schema.schema_path@
                            == crate::schema_store::spec_schema_file_of(o) && d.record@.path
                            == Some(input.path@) && d.record@.modified == Some(
                            input.file_read->Some_0->Ok_0.modified,
                        ) && d.record@.markdown is None
                            && d.record@.attrs == final(self)@.files[input.path@].attrs,
                        IPCEmitEvent::FileUpdate(d) => update && d.path@ == input.path@
                            && d.schema.schema_owner_folder@ == o && d.schema.schema_path@
                            == crate::schema_store::spec_schema_file_of(o) && d.record@.path
                            == Some(input.path@) && d.record@.modified == Some(
                            input.file_read->Some_0->Ok_0.modified,
                        ) && d.record@.markdown is None
                            && d.record@.attrs == final(self)@.files[input.path@].attrs,
                        _ => false,
                    }),
                    None => es@.len() == 0,
                }
            } else if spec_is_yaml(input.path@) {
                match input.schema_read {
                    Some(Ok(Some(_))) => es@.len() == 1 && (match es@[0] {
                        IPCEmitEvent::SchemasUpdated(l) => crate::schema_store::spec_schema_listing(
                            final(self)@.schemas,
                            l@,
                        ),
                        _ => false,
                    }),
                    Some(Err(_)) => true,
                    _ => if update {
                        es@.len() == 0
                    } else {
                        es@.len() == 1 && (match es@[0] {
                            IPCEmitEvent::SchemasUpdated(l) => crate::schema_store::spec_schema_listing(
                                final(self)@.schemas,
                                l@,
                            ),
                            _ => false,
                        })
                    },
                }
            } else {
                es@.len() == 0
            }),
    {
        let (is_md, is_yaml) = ext_kind(&input.path);
        if is_md {
            let resolved = self.schemas.get_schema(&input.path);
            let res = match resolved {
                None => Ok(Vec::new()),
                Some(schema_res) => {
                    match &input.file_read {
                        Some(Ok(fs)) => {
                            let parsed = parse_metadata(
                                fs.front_matter.as_str(),
                                &schema_res.schema,
                            );
                            let record = RecordFromDb {
                                path: Some(input.path.duplicate()),
                                modified: Some(fs.modified),
                                markdown: None,
                                attrs: parsed.metadata,
                            };
                            self.index.upsert_file(&record);
                            proof {
                                let o = spec_resolve_owner(old(self)@.schemas, input.path@);
                                assert(IndexStore::spec_row_of(record) == spec_md_row(
                                    *fs,
                                    old(self)@.schemas[o->Some_0].items,
                                ));
                            }
                            let data = FileEventDataExisting {
                                path: input.path.duplicate(),
                                record,
                                schema: schema_res.location,
                            };
                            let mut events: Vec<IPCEmitEvent> = Vec::new();
                            if update {
                                events.push(IPCEmitEvent::FileUpdate(data));
                            } else {
                                events.push(IPCEmitEvent::FileAdd(data));
                            }
                            Ok(events)
                        },
                        Some(Err(e)) => Err(
                            ErrFR::new("Error reading get file modified time").raw(
                                e.as_str(),
                            ).action_c(ErrFRActionCode::FileReadRetry, "Retry"),
                        ),
                        None => Err(
                            ErrFR::new("Error reading get file modified time").action_c(
                                ErrFRActionCode::FileReadRetry,
                                "Retry",
                            ),
                        ),
                    }
                },
            };
            res
        } else if is_yaml {
            let exists = match input.meta.exists {
                Some(true) => true,
                _ => false,
            };
            match locate_schema_and_folder(&input.path, exists, input.meta.is_dir) {
                Err(e) => Err(e),
                Ok((_, owner)) => {
                    match &input.schema_read {
                        Some(Ok(Some(sch))) => {
                            self.schemas.insert(owner, sch.duplicate());
                            let mut events: Vec<IPCEmitEvent> = Vec::new();
                            events.push(
                                IPCEmitEvent::SchemasUpdated(self.schemas.get_schemas_list()),
                            );
                            Ok(events)
                        },
                        Some(Ok(None)) => {
                            if update {
                                Ok(Vec::new())
                            } else {
                                let mut events: Vec<IPCEmitEvent> = Vec::new();
                                events.push(
                                    IPCEmitEvent::SchemasUpdated(self.schemas.get_schemas_list()),
                                );
                                Ok(events)
                            }
                        },
                        Some(Err(e)) => Err(ErrFR::new("Error parsing schema").raw(e.as_str())),
                        None => {
                            if update {
                                Ok(Vec::new())
                            } else {
                                let mut events: Vec<IPCEmitEvent> = Vec::new();
                                events.push(
                                    IPCEmitEvent::SchemasUpdated(self.schemas.get_schemas_list()),
                                );
                                Ok(events)
                            }
                        },
                    }
                },
            }
        } else {
            Ok(Vec::new())
        }
    }

    /// A file removal: a governed file's row leaves the index (its
    /// schema must still resolve, else the removal is reported as a
    /// failure); a schema file's removal removes the schema its parent's
    /// owner folder held, and re-announces the listing.
    pub fn handle_file_remove(&mut self, input: &PathInput) -> (r: Result<
        Vec<IPCEmitEvent>,
        ErrFR,
    >)
        requires
            old(self).wf(),
        ensures
            final(self).wf(),
            r is Ok ==> final(self)@ == spec_apply_file_remove(old(self)@, *input),
            r is Err ==> final(self)@ == old(self)@ && spec_apply_file_remove(old(self)@, *input)
                == old(self)@,
            r is Err <==> spec_file_remove_fails(old(self)@, *input),
            r matches Err(e) ==> (spec_is_md(input.path@) ==> e.title@
                == "Schema not found for file remove"@),
            r matches Ok(es) ==> (if spec_is_md(input.path@) {
                es@.len() == 1 && (match es@[0] {
                    IPCEmitEvent::FileRemove(d) => d.path@ == input.path@ && spec_resolve_owner(
                        old(self)@.schemas,
                        input.path@,
                    ) == Some(d.schema.schema_owner_folder@) && d.schema.schema_path@
                        == crate::schema_store::spec_schema_file_of(d.schema.schema_owner_folder@),
                    _ => false,
                })
            } else if spec_is_yaml(input.path@) {
                es@.len() == 1 && (match es@[0] {
                    IPCEmitEvent::SchemasUpdated(l) => crate::schema_store::spec_schema_listing(
                        final(self)@.schemas,
                        l@,
                    ),
                    _ => false,
                })
            } else {
                es@.len() == 0
            }),
    {
        let (is_md, is_yaml) = ext_kind(&input.path);
        if is_md {
            match self.schemas.get_schema(&input.path) {
                None => Err(ErrFR::new("Schema not found for file remove")),
                Some(schema_res) => {
                    self.index.remove_file(&input.path);
                    let mut events: Vec<IPCEmitEvent> = Vec::new();
                    events.push(
                        IPCEmitEvent::FileRemove(
                            FileEventDataRemoved {
                                path: input.path.duplicate(),
                                schema: schema_res.location,
                            },
                        ),
                    );
                    Ok(events)
                },
            }
        } else if is_yaml {
            match input.path.parent() {
                None => Err(ErrFR::new("Failed to get parent of schema.yaml")),
                Some(parent) => {
                    match locate_schema_and_folder(&parent, false, false) {
                        Err(e) => Err(e),
                        Ok((_, owner)) => {
                            self.schemas.remove(&owner);
                            let mut events: Vec<IPCEmitEvent> = Vec::new();
                            events.push(
                                IPCEmitEvent::SchemasUpdated(self.schemas.get_schemas_list()),
                            );
                            Ok(events)
                        },
                    }
                },
            }
        } else {
            Ok(Vec::new())
        }
    }

    /// A folder removal cascades unconditionally: every folder row,
    /// file row and schema at or under the removed folder leaves.  The
    /// removal notification carries the schema that governed the folder,
    /// if one did, and in that case the schema listing is re-announced.
    pub fn handle_folder_remove(&mut self, input: &PathInput) -> (r: Vec<IPCEmitEvent>)
        requires
            old(self).wf(),
        ensures
            final(self).wf(),
            final(self)@ == spec_apply_folder_remove(old(self)@, input.path@),
            match spec_resolve_owner(old(self)@.schemas, input.path@) {
                Some(o) => r@.len() == 2 && (match r@[0] {
                    IPCEmitEvent::FolderRemove(d) => d.path@ == input.path@ && (match d.schema {
                        Some(loc) => loc.schema_owner_folder@ == o && loc.schema_path@
                            == crate::schema_store::spec_schema_file_of(o),
                        None => false,
                    }),
                    _ => false,
                }) && (match r@[1] {
                    IPCEmitEvent::SchemasUpdated(l) => crate::schema_store::spec_schema_listing(
                        final(self)@.schemas,
                        l@,
                    ),
                    _ => false,
                }),
                None => r@.len() == 1 && (match r@[0] {
                    IPCEmitEvent::FolderRemove(d) => d.path@ == input.path@ && d.schema is None,
                    _ => false,
                }),
            },
    {
        let schema = self.schemas.get_schema(&input.path);
        self.index.remove_folder_subtree(&input.path);
        self.index.remove_files_in_folder(&input.path);
        self.schemas.remove_schemas_with_children(&input.path);
        proof {
            assert(self.index.folders() =~= spec_remove_subtree(
                old(self)@.folders,
                input.path@,
            ));
            assert(self.index.files() =~= spec_remove_subtree(old(self)@.files, input.path@));
            assert(self.schemas@ =~= spec_remove_subtree(old(self)@.schemas, input.path@));
        }
        match schema {
            Some(schema_res) => {
                let mut events: Vec<IPCEmitEvent> = Vec::new();
                events.push(
                    IPCEmitEvent::FolderRemove(
                        FolderEventData {
                            path: input.path.duplicate(),
                            schema: Some(schema_res.location),
                        },
                    ),
                );
                events.push(IPCEmitEvent::SchemasUpdated(self.schemas.get_schemas_list()));
                events
            },
            None => {
                let mut events: Vec<IPCEmitEvent> = Vec::new();
                events.push(
                    IPCEmitEvent::FolderRemove(
                        FolderEventData { path: input.path.duplicate(), schema: None },
                    ),
                );
                events
            },
        }
    }

    /// A folder arrival: the folder may arrive with contents (a moved
    /// subtree), so the whole provided walk is applied, then the folder
    /// and the schema listing are announced.
    pub fn handle_folder_add(&mut self, input: &PathInput) -> (r: (
        Vec<IPCEmitEvent>,
        Option<ErrFR>,
    ))
        requires
            old(self).wf(),
        ensures
            final(self).wf(),
            final(self)@ == spec_apply_folder_add(old(self)@, *input),
            r.0@.len() == 2,
            (match r.0@[0] {
                IPCEmitEvent::FolderAdd(d) => d.path@ == input.path@ && (match d.schema {
                    Some(loc) => spec_resolve_owner(final(self)@.schemas, input.path@) == Some(
                        loc.schema_owner_folder@,
                    ) && loc.schema_path@ == crate::schema_store::spec_schema_file_of(
                        loc.schema_owner_folder@,
                    ),
                    None => spec_resolve_owner(final(self)@.schemas, input.path@) is None,
                }),
                _ => false,
            }),
            (match r.0@[1] {
                IPCEmitEvent::SchemasUpdated(l) => crate::schema_store::spec_schema_listing(
                    final(self)@.schemas,
                    l@,
                ),
                _ => false,
            }),
            r.1 is Some <==> (match input.scan {
                Some(en) => spec_scan_fail_count(old(self)@, en@) > 0,
                None => false,
            }),
            r.1 matches Some(e) ==> (match input.scan {
                Some(en) => e.title@ == "Error when caching files and folders"@
                    && e.sub_errors@.len() == spec_scan_fail_count(old(self)@, en@),
                None => false,
            }),
    {
        let aggregate = match &input.scan {
            Some(entries) => self.scan_apply(entries),
            None => None,
        };
        let schema = self.schemas.get_schema(&input.path);
        let mut events: Vec<IPCEmitEvent> = Vec::new();
        match schema {
            Some(schema_res) => {
                events.push(
                    IPCEmitEvent::FolderAdd(
                        FolderEventData {
                            path: input.path.duplicate(),
                            schema: Some(schema_res.location),
                        },
                    ),
                );
            },
            None => {
                events.push(
                    IPCEmitEvent::FolderAdd(
                        FolderEventData { path: input.path.duplicate(), schema: None },
                    ),
                );
            },
        }
        events.push(IPCEmitEvent::SchemasUpdated(self.schemas.get_schemas_list()));
        (events, aggregate)
    }

    /// Applies one whole subtree walk, in walk order: each directory's
    /// schema before the files under it.  Per-entry failures are
    /// accumulated into one aggregate, never fatal to the walk.
    pub fn scan_apply(&mut self, entries: &Vec<ScanEntry>) -> (r: Option<ErrFR>)
        requires
            old(self).wf(),
        ensures
            final(self).wf(),
            final(self)@ == spec_scan_fold(old(self)@, entries@),
            r is Some <==> spec_scan_fail_count(old(self)@, entries@) > 0,
            r matches Some(e) ==> e.title@ == "Error when caching files and folders"@
                && e.sub_errors@.len() == spec_scan_fail_count(old(self)@, entries@),
    {
        let mut err = ErrFR::new("Error when caching files and folders");
        let mut any_err = false;
        let mut i: usize = 0;
        proof {
            assert(entries@.subrange(0, 0) =~= Seq::<ScanEntry>::empty());
        }
        while i < entries.len()
            invariant
                i <= entries@.len(),
                self.wf(),
                self@ == spec_scan_fold(old(self)@, entries@.subrange(0, i as int)),
                err.title@ == "Error when caching files and folders"@,
                err.sub_errors@.len() == spec_scan_fail_count(
                    old(self)@,
                    entries@.subrange(0, i as int),
                ),
                any_err == (spec_scan_fail_count(old(self)@, entries@.subrange(0, i as int)) > 0),
            decreases entries@.len() - i,
        {
            proof {
                assert(entries@.subrange(0, i + 1).drop_last() =~= entries@.subrange(0, i as int));
                assert(entries@.subrange(0, i + 1).last() == entries@[i as int]);
            }
            match &entries[i] {
                ScanEntry::File { path, read } => {
                    let (is_md, _) = ext_kind(path);
                    if is_md {
                        let resolved = self.schemas.get_schema(path);
                        match resolved {
                            Some(schema_res) => {
                                match read {
                                    Ok(fs) => {
                                        let parsed = parse_metadata(
                                            fs.front_matter.as_str(),
                                            &schema_res.schema,
                                        );
                                        let record = RecordFromDb {
                                            path: Some(path.duplicate()),
                                            modified: Some(fs.modified),
                                            markdown: None,
                                            attrs: parsed.metadata,
                                        };
                                        self.index.upsert_file(&record);
                                        proof {
                                            let ghost prev = spec_scan_fold(
                                                old(self)@,
                                                entries@.subrange(0, i as int),
                                            );
                                            let o = spec_resolve_owner(prev.schemas, path@);
                                            assert(IndexStore::spec_row_of(record)
                                                == spec_md_row(*fs, prev.schemas[o->Some_0].items));
                                        }
                                    },
                                    Err(e) => {
                                        err = err.sub(
                                            ErrFR::new(
                                                "Error reading get file modified time",
                                            ).raw(e.as_str()),
                                        );
                                        any_err = true;
                                    },
                                }
                            },
                            None => {
                                err = err.sub(ErrFR::new("Schema not found").raw("ungoverned file"));
                                any_err = true;
                            },
                        }
                    }
                },
                ScanEntry::Dir { path, schema_read } => {
                    match locate_schema_and_folder(path, true, true) {
                        Ok((_, owner)) => {
                            match schema_read {
                                Ok(Some(sch)) => {
                                    self.schemas.insert(owner, sch.duplicate());
                                },
                                _ => {},
                            }
                        },
                        Err(_) => {},
                    }
                    let name = match path.file_name() {
                        Some(n) => n,
                        None => {
                            proof {
                                reveal_strlit("/");
                            }
                            "/".to_owned()
                        },
                    };
                    self.index.upsert_folder(path, name.as_str());
                },
            }
            i = i + 1;
        }
        proof {
            assert(entries@.subrange(0, entries@.len() as int) =~= entries@);
        }
        if any_err {
            Some(err)
        } else {
            None
        }
    }

    /// Interprets one whole filesystem event: each of its paths is
    /// classified by the decision table and applied in order.  A failing
    /// path contributes one collected error and never stops the rest of
    /// the event; the notifications of the successful paths all come
    /// back, in order.
    pub fn handle_event(&mut self, kind: &FsEventKind, inputs: &Vec<PathInput>) -> (r:
        HandleEventResult)
        requires
            old(self).wf(),
        ensures
            final(self).wf(),
            final(self)@ == spec_handle_event(old(self)@, *kind, inputs@),
            r.errors@.len() == spec_handle_event_err_count(
                old(self)@,
                *kind,
                inputs@,
                inputs@.len() as int,
            ),
            r.events@.len() == spec_handle_event_event_count(
                old(self)@,
                *kind,
                inputs@,
                inputs@.len() as int,
            ),
    {
        let mut events: Vec<IPCEmitEvent> = Vec::new();
        let mut errors: Vec<ErrFR> = Vec::new();
        let mut i: usize = 0;
        proof {
            assert(inputs@.subrange(0, 0) =~= Seq::<PathInput>::empty());
        }
        while i < inputs.len()
            invariant
                i <= inputs@.len(),
                self.wf(),
                self@ == spec_handle_event_prefix(old(self)@, *kind, inputs@, i as int),
                errors@.len() == spec_handle_event_err_count(old(self)@, *kind, inputs@, i as int),
                events@.len() == spec_handle_event_event_count(
                    old(self)@,
                    *kind,
                    inputs@,
                    i as int,
                ),
            decreases inputs@.len() - i,
        {
            let ghost prev_state = self@;
            let input = &inputs[i];
            let has_ext = path_has_ext(&input.path);
            let action = classify(kind, has_ext, &input.meta, i);
            match action {
                EventAction::FileAdd => {
                    match self.handle_file_upsert(input, false) {
                        Ok(mut es) => events.append(&mut es),
                        Err(e) => errors.push(e),
                    }
                },
                EventAction::FileUpdate => {
                    let exists = match input.meta.exists {
                        Some(true) => true,
                        _ => false,
                    };
                    if exists {
                        match self.handle_file_upsert(input, true) {
                            Ok(mut es) => events.append(&mut es),
                            Err(e) => errors.push(e),
                        }
                    }
                },
                EventAction::FileRemove => {
                    match self.handle_file_remove(input) {
                        Ok(mut es) => events.append(&mut es),
                        Err(e) => errors.push(e),
                    }
                },
                EventAction::FolderAdd => {
                    let (mut es, aggregate) = self.handle_folder_add(input);
                    events.append(&mut es);
                    match aggregate {
                        Some(e) => errors.push(e),
                        None => {},
                    }
                },
                EventAction::FolderRemove => {
                    let mut es = self.handle_folder_remove(input);
                    events.append(&mut es);
                },
                EventAction::NoAction => {},
            }
            proof {
                assert(spec_handle_event_prefix(old(self)@, *kind, inputs@, i + 1)
                    == spec_apply_action(prev_state, action, inputs@[i as int]));
            }
            i = i + 1;
        }
        HandleEventResult { events, errors }
    }
}

/// Whether the classified action for one event path fails at the
/// stores it meets.
pub open spec fn spec_action_fails(
    s: EngineStateV,
    action: EventAction,
    input: PathInput,
) -> bool {
    match action {
        EventAction::FileAdd => spec_file_upsert_fails(s, input),
        EventAction::FileUpdate => input.meta.exists == Some(true) && spec_file_upsert_fails(
            s,
            input,
        ),
        EventAction::FileRemove => spec_file_remove_fails(s, input),
        EventAction::FolderAdd => match input.scan {
            Some(en) => spec_scan_fail_count(s, en@) > 0,
            None => false,
        },
        EventAction::FolderRemove => false,
        EventAction::NoAction => false,
    }
}

/// How many notifications a successful file add/update yields.
pub open spec fn spec_upsert_event_count(s: EngineStateV, input: PathInput, update: bool) -> int {
    let p = input.path@;
    if spec_is_md(p) {
        if spec_resolve_owner(s.schemas, p) is Some {
            1int
        } else {
            0
        }
    } else if spec_is_yaml(p) {
        match input.schema_read {
            Some(Ok(Some(_))) => 1int,
            _ => if update {
                0int
            } else {
                1
            },
        }
    } else {
        0
    }
}

/// How many notifications the classified action yields.
pub open spec fn spec_action_event_count(
    s: EngineStateV,
    action: EventAction,
    input: PathInput,
) -> int {
    match action {
        EventAction::FileAdd => if spec_file_upsert_fails(s, input) {
            0int
        } else {
            spec_upsert_event_count(s, input, false)
        },
        EventAction::FileUpdate => if input.meta.exists != Some(true) {
            0int
        } else if spec_file_upsert_fails(s, input) {
            0
        } else {
            spec_upsert_event_count(s, input, true)
        },
        EventAction::FileRemove => if spec_file_remove_fails(s, input) {
            0int
        } else if spec_is_md(input.path@) || spec_is_yaml(input.path@) {
            1
        } else {
            0
        },
        EventAction::FolderAdd => 2,
        EventAction::FolderRemove => if spec_resolve_owner(s.schemas, input.path@) is Some {
            2int
        } else {
            1
        },
        EventAction::NoAction => 0,
    }
}

/// How many per-path failures the first `n` paths of an event collect.
pub open spec fn spec_handle_event_err_count(
    s: EngineStateV,
    kind: FsEventKind,
    inputs: Seq<PathInput>,
    n: int,
) -> int
    decreases n,
{
    if n <= 0 {
        0int
    } else {
        let prev = spec_handle_event_prefix(s, kind, inputs, n - 1);
        let input = inputs[n - 1];
        let action = spec_classify(kind, spec_ext(input.path@) is Some, input.meta, n - 1);
        spec_handle_event_err_count(s, kind, inputs, n - 1) + (if spec_action_fails(
            prev,
            action,
            input,
        ) {
            1int
        } else {
            0
        })
    }
}

/// How many notifications the first `n` paths of an event produce.
pub open spec fn spec_handle_event_event_count(
    s: EngineStateV,
    kind: FsEventKind,
    inputs: Seq<PathInput>,
    n: int,
) -> int
    decreases n,
{
    if n <= 0 {
        0int
    } else {
        let prev = spec_handle_event_prefix(s, kind, inputs, n - 1);
        let input = inputs[n - 1];
        let action = spec_classify(kind, spec_ext(input.path@) is Some, input.meta, n - 1);
        spec_handle_event_event_count(s, kind, inputs, n - 1) + spec_action_event_count(
            prev,
            action,
            input,
        )
    }
}

/// The stores after the first `n` paths of an event.
pub open spec fn spec_handle_event_prefix(
    s: EngineStateV,
    kind: FsEventKind,
    inputs: Seq<PathInput>,
    n: int,
) -> EngineStateV
    decreases n,
{
    if n <= 0 {
        s
    } else {
        let prev = spec_handle_event_prefix(s, kind, inputs, n - 1);
        let input = inputs[n - 1];
        spec_apply_action(
            prev,
            spec_classify(kind, spec_ext(input.path@) is Some, input.meta, n - 1),
            input,
        )
    }
}

/// The stores after one whole event: each path classified by the table
/// and applied in delivery order.
pub open spec fn spec_handle_event(
    s: EngineStateV,
    kind: FsEventKind,
    inputs: Seq<PathInput>,
) -> EngineStateV {
    spec_handle_event_prefix(s, kind, inputs, inputs.len() as int)
}

/// Rename equals remove-plus-add: a two-path rename event whose ends
/// classify as a file removal and a file addition leaves the stores
/// exactly where an explicit removal of the old path followed by an
/// explicit addition of the new path leaves them.
pub proof fn lemma_rename_is_remove_then_add(
    s: EngineStateV,
    old_in: PathInput,
    new_in: PathInput,
)
    requires
        spec_classify(
            FsEventKind::Modify(crate::events::FsModifyKind::Name(crate::events::FsRenameMode::Both)),
            spec_ext(old_in.path@) is Some,
            old_in.meta,
            0,
        ) == EventAction::FileRemove,
        spec_classify(
            FsEventKind::Modify(crate::events::FsModifyKind::Name(crate::events::FsRenameMode::Both)),
            spec_ext(new_in.path@) is Some,
            new_in.meta,
            1,
        ) == EventAction::FileAdd,
    ensures
        spec_handle_event(
            s,
            FsEventKind::Modify(crate::events::FsModifyKind::Name(crate::events::FsRenameMode::Both)),
            seq![old_in, new_in],
        ) == spec_apply_file_upsert(spec_apply_file_remove(s, old_in), new_in),
{
    let kind = FsEventKind::Modify(
        crate::events::FsModifyKind::Name(crate::events::FsRenameMode::Both),
    );
    let inputs = seq![old_in, new_in];
    assert(inputs.len() == 2);
    assert(inputs[0] == old_in && inputs[1] == new_in);
    assert(spec_handle_event_prefix(s, kind, inputs, 0) == s);
    assert(spec_handle_event_prefix(s, kind, inputs, 1) == spec_apply_file_remove(s, old_in));
    assert(spec_handle_event_prefix(s, kind, inputs, 2) == spec_apply_file_upsert(
        spec_apply_file_remove(s, old_in),
        new_in,
    ));
}

} // verus!
