//! The normalized filesystem-event model and the decision table that
//! classifies one event path into an index action.
//!
//! Platforms diverge: one reports precise create/remove kinds, another
//! only generic ones; one reports renames as paired From/To paths,
//! another as a single path whose meaning must be read off the disk
//! after the fact.  The table keeps every such row explicit.

use vstd::prelude::*;

use crate::errors::ErrFR;
use crate::paths::RelPath;
use crate::records::RecordFromDb;
use crate::schema::Schema;
use crate::schema_store::SchemaLocation;

verus! {

#[derive(Clone, Copy, Debug, PartialEq, Eq)]
pub enum FsCreateKind {
    File,
    Folder,
    Any,
    Other,
}

#[derive(Clone, Copy, Debug, PartialEq, Eq)]
pub enum FsRenameMode {
    From,
    To,
    Both,
    Any,
    Other,
}

#[derive(Clone, Copy, Debug, PartialEq, Eq)]
pub enum FsModifyKind {
    Name(FsRenameMode),
    Data,
    Any,
    Other,
}

#[derive(Clone, Copy, Debug, PartialEq, Eq)]
pub enum FsRemoveKind {
    File,
    Folder,
    Any,
    Other,
}

/// One normalized filesystem event kind.
#[derive(Clone, Copy, Debug, PartialEq, Eq)]
pub enum FsEventKind {
    Create(FsCreateKind),
    Modify(FsModifyKind),
    Remove(FsRemoveKind),
    Other,
}

/// What the disk says of a path at classification time.  `exists` is
/// `None` when even the existence check failed.
#[derive(Clone, Copy, Debug, PartialEq, Eq)]
pub struct PathMeta {
    pub exists: Option<bool>,
    pub is_file: bool,
    pub is_dir: bool,
}

/// The index action one event path calls for.
#[derive(Clone, Copy, Debug, PartialEq, Eq)]
pub enum EventAction {
    FileAdd,
    FileUpdate,
    FileRemove,
    FolderAdd,
    FolderRemove,
    NoAction,
}

/// The decision table: event kind, extension presence, disk state and
/// position within a paired rename decide the action.  Row order is the
/// contract; the trailing rename rows are the single-path fallback for
/// platforms that cannot distinguish rename ends, read off the disk
/// after the fact.
pub open spec fn spec_classify(
    kind: FsEventKind,
    has_ext: bool,
    meta: PathMeta,
    index: int,
) -> EventAction {
    match kind {
        FsEventKind::Create(ck) => match ck {
            FsCreateKind::File => if has_ext {
                EventAction::FileAdd
            } else {
                EventAction::NoAction
            },
            FsCreateKind::Folder => EventAction::FolderAdd,
            FsCreateKind::Any => if meta.is_dir {
                EventAction::FolderAdd
            } else if has_ext {
                EventAction::FileAdd
            } else {
                EventAction::NoAction
            },
            FsCreateKind::Other => EventAction::NoAction,
        },
        FsEventKind::Modify(mk) => match mk {
            FsModifyKind::Name(rm) => spec_classify_rename(rm, has_ext, meta, index),
            FsModifyKind::Data => if has_ext && meta.exists == Some(true) {
                EventAction::FileUpdate
            } else {
                EventAction::NoAction
            },
            FsModifyKind::Any => if has_ext && !meta.is_dir {
                EventAction::FileUpdate
            } else {
                EventAction::NoAction
            },
            FsModifyKind::Other => EventAction::NoAction,
        },
        FsEventKind::Remove(rk) => match rk {
            FsRemoveKind::File => if has_ext {
                EventAction::FileRemove
            } else {
                EventAction::NoAction
            },
            FsRemoveKind::Folder => EventAction::FolderRemove,
            FsRemoveKind::Any => if has_ext {
                EventAction::FileRemove
            } else {
                EventAction::FolderRemove
            },
            FsRemoveKind::Other => EventAction::NoAction,
        },
        FsEventKind::Other => EventAction::NoAction,
    }
}

/// The rename rows of the table: the precise From/To and paired Both
/// rows first, then the read-the-disk fallback rows; row order decides.
pub open spec fn spec_classify_rename(
    rm: FsRenameMode,
    has_ext: bool,
    meta: PathMeta,
    index: int,
) -> EventAction {
    if rm == FsRenameMode::From && has_ext {
        EventAction::FileRemove
    } else if rm == FsRenameMode::From {
        EventAction::FolderRemove
    } else if rm == FsRenameMode::To && has_ext && meta.is_file {
        EventAction::FileAdd
    } else if rm == FsRenameMode::To && meta.is_dir {
        EventAction::FolderAdd
    } else if rm == FsRenameMode::Both && index == 0 && has_ext {
        EventAction::FileRemove
    } else if rm == FsRenameMode::Both && index == 0 {
        EventAction::FolderRemove
    } else if rm == FsRenameMode::Both && index == 1 && has_ext && meta.is_file {
        EventAction::FileAdd
    } else if rm == FsRenameMode::Both && index == 1 && meta.is_dir {
        EventAction::FolderAdd
    } else if meta.exists == Some(false) && !has_ext {
        EventAction::FolderRemove
    } else if meta.exists == Some(false) && has_ext {
        EventAction::FileRemove
    } else if meta.exists == Some(true) && !has_ext && meta.is_dir {
        EventAction::FolderAdd
    } else if meta.exists == Some(true) && has_ext && meta.is_file {
        EventAction::FileAdd
    } else {
        EventAction::NoAction
    }
}

/// Classifies one event path, by the decision table.
pub fn classify(kind: &FsEventKind, has_ext: bool, meta: &PathMeta, index: usize) -> (r:
    EventAction)
    ensures
        r == spec_classify(*kind, has_ext, *meta, index as int),
{
    match kind {
        FsEventKind::Create(ck) => match ck {
            FsCreateKind::File => if has_ext {
                EventAction::FileAdd
            } else {
                EventAction::NoAction
            },
            FsCreateKind::Folder => EventAction::FolderAdd,
            FsCreateKind::Any => if meta.is_dir {
                EventAction::FolderAdd
            } else if has_ext {
                EventAction::FileAdd
            } else {
                EventAction::NoAction
            },
            FsCreateKind::Other => EventAction::NoAction,
        },
        FsEventKind::Modify(mk) => match mk {
            FsModifyKind::Name(rm) => {
                if matches!(rm, FsRenameMode::From) && has_ext {
                    EventAction::FileRemove
                } else if matches!(rm, FsRenameMode::From) {
                    EventAction::FolderRemove
                } else if matches!(rm, FsRenameMode::To) && has_ext && meta.is_file {
                    EventAction::FileAdd
                } else if matches!(rm, FsRenameMode::To) && meta.is_dir {
                    EventAction::FolderAdd
                } else if matches!(rm, FsRenameMode::Both) && index == 0 && has_ext {
                    EventAction::FileRemove
                } else if matches!(rm, FsRenameMode::Both) && index == 0 {
                    EventAction::FolderRemove
                } else if matches!(rm, FsRenameMode::Both) && index == 1 && has_ext
                    && meta.is_file {
                    EventAction::FileAdd
                } else if matches!(rm, FsRenameMode::Both) && index == 1 && meta.is_dir {
                    EventAction::FolderAdd
                } else if meta.exists == Some(false) && !has_ext {
                    EventAction::FolderRemove
                } else if meta.exists == Some(false) && has_ext {
                    EventAction::FileRemove
                } else if meta.exists == Some(true) && !has_ext && meta.is_dir {
                    EventAction::FolderAdd
                } else if meta.exists == Some(true) && has_ext && meta.is_file {
                    EventAction::FileAdd
                } else {
                    EventAction::NoAction
                }
            },
            FsModifyKind::Data => if has_ext && meta.exists == Some(true) {
                EventAction::FileUpdate
            } else {
                EventAction::NoAction
            },
            FsModifyKind::Any => if has_ext && !meta.is_dir {
                EventAction::FileUpdate
            } else {
                EventAction::NoAction
            },
            FsModifyKind::Other => EventAction::NoAction,
        },
        FsEventKind::Remove(rk) => match rk {
            FsRemoveKind::File => if has_ext {
                EventAction::FileRemove
            } else {
                EventAction::NoAction
            },
            FsRemoveKind::Folder => EventAction::FolderRemove,
            FsRemoveKind::Any => if has_ext {
                EventAction::FileRemove
            } else {
                EventAction::FolderRemove
            },
            FsRemoveKind::Other => EventAction::NoAction,
        },
        FsEventKind::Other => EventAction::NoAction,
    }
}

/// Data of a file-removal notification.
#[derive(Debug)]
pub struct FileEventDataRemoved {
    pub path: RelPath,
    pub schema: SchemaLocation,
}

/// Data of a file add/update notification: the record as indexed.
#[derive(Debug)]
pub struct FileEventDataExisting {
    pub path: RelPath,
    pub record: RecordFromDb,
    pub schema: SchemaLocation,
}

/// Data of a folder add/remove notification.
#[derive(Debug)]
pub struct FolderEventData {
    pub path: RelPath,
    pub schema: Option<SchemaLocation>,
}

/// One outbound change notification.
#[derive(Debug)]
pub enum IPCEmitEvent {
    FileRemove(FileEventDataRemoved),
    FileAdd(FileEventDataExisting),
    FileUpdate(FileEventDataExisting),
    FolderRemove(FolderEventData),
    FolderAdd(FolderEventData),
    ErrorHappened(ErrFR),
    SchemasUpdated(Vec<(RelPath, Schema)>),
    EventOverflow(u32),
}

/// The wire name of a notification.
pub fn get_event_name(event: &IPCEmitEvent) -> (r: String)
    ensures
        r@ == spec_event_name(*event),
{
    proof {
        reveal_strlit("FileRemove");
        reveal_strlit("FileAdd");
        reveal_strlit("FileUpdate");
        reveal_strlit("FolderRemove");
        reveal_strlit("FolderAdd");
        reveal_strlit("ErrorHappened");
        reveal_strlit("SchemasUpdated");
        reveal_strlit("EventOverflow");
    }
    match event {
        IPCEmitEvent::FileRemove(_) => "FileRemove".to_owned(),
        IPCEmitEvent::FileAdd(_) => "FileAdd".to_owned(),
        IPCEmitEvent::FileUpdate(_) => "FileUpdate".to_owned(),
        IPCEmitEvent::FolderRemove(_) => "FolderRemove".to_owned(),
        IPCEmitEvent::FolderAdd(_) => "FolderAdd".to_owned(),
        IPCEmitEvent::ErrorHappened(_) => "ErrorHappened".to_owned(),
        IPCEmitEvent::SchemasUpdated(_) => "SchemasUpdated".to_owned(),
        IPCEmitEvent::EventOverflow(_) => "EventOverflow".to_owned(),
    }
}

/// A command to the monitor loop.
#[derive(Clone, Copy, Debug, PartialEq, Eq)]
pub enum MonitorCommand {
    Shutdown,
}

impl IPCEmitEvent {
    /// A one-line description of the notification, for diagnostics.
    pub fn print_event(&self) -> (r: String)
        ensures
            r@ == spec_print_event(*self),
    {
        proof {
            reveal_strlit("FileRemove: ");
            reveal_strlit("FileAdd: ");
            reveal_strlit("FileUpdate: ");
            reveal_strlit("FolderRemove: ");
            reveal_strlit("FolderAdd: ");
            reveal_strlit("ErrorHappened: ");
            reveal_strlit("SchemasUpdated: new count ");
            reveal_strlit("EventOverflow: ");
        }
        let mut out = String::new();
        match self {
            IPCEmitEvent::FileRemove(d) => {
                out.append("FileRemove: ");
                let path = d.path.to_display();
                out.append(path.as_str());
            },
            IPCEmitEvent::FileAdd(d) => {
                out.append("FileAdd: ");
                let path = d.path.to_display();
                out.append(path.as_str());
            },
            IPCEmitEvent::FileUpdate(d) => {
                out.append("FileUpdate: ");
                let path = d.path.to_display();
                out.append(path.as_str());
            },
            IPCEmitEvent::FolderRemove(d) => {
                out.append("FolderRemove: ");
                let path = d.path.to_display();
                out.append(path.as_str());
            },
            IPCEmitEvent::FolderAdd(d) => {
                out.append("FolderAdd: ");
                let path = d.path.to_display();
                out.append(path.as_str());
            },
            IPCEmitEvent::ErrorHappened(e) => {
                out.append("ErrorHappened: ");
                out.append(e.title.as_str());
            },
            IPCEmitEvent::SchemasUpdated(list) => {
                out.append("SchemasUpdated: new count ");
                let n = crate::paths::u64_to_string(list.len() as u64);
                out.append(n.as_str());
            },
            IPCEmitEvent::EventOverflow(ms) => {
                out.append("EventOverflow: ");
                let n = crate::paths::u64_to_string(*ms as u64);
                out.append(n.as_str());
            },
        }
        proof {
            assert(out@ =~= spec_print_event(*self));
        }
        out
    }
}

pub open spec fn spec_print_event(event: IPCEmitEvent) -> Seq<char> {
    match event {
        IPCEmitEvent::FileRemove(d) => "FileRemove: "@ + crate::paths::spec_join_path(d.path@),
        IPCEmitEvent::FileAdd(d) => "FileAdd: "@ + crate::paths::spec_join_path(d.path@),
        IPCEmitEvent::FileUpdate(d) => "FileUpdate: "@ + crate::paths::spec_join_path(d.path@),
        IPCEmitEvent::FolderRemove(d) => "FolderRemove: "@ + crate::paths::spec_join_path(d.path@),
        IPCEmitEvent::FolderAdd(d) => "FolderAdd: "@ + crate::paths::spec_join_path(d.path@),
        IPCEmitEvent::ErrorHappened(e) => "ErrorHappened: "@ + e.title@,
        IPCEmitEvent::SchemasUpdated(list) => "SchemasUpdated: new count "@
            + crate::paths::spec_digits(list@.len()),
        IPCEmitEvent::EventOverflow(ms) => "EventOverflow: "@ + crate::paths::spec_digits(
            ms as nat,
        ),
    }
}

pub open spec fn spec_event_name(event: IPCEmitEvent) -> Seq<char> {
    match event {
        IPCEmitEvent::FileRemove(_) => "FileRemove"@,
        IPCEmitEvent::FileAdd(_) => "FileAdd"@,
        IPCEmitEvent::FileUpdate(_) => "FileUpdate"@,
        IPCEmitEvent::FolderRemove(_) => "FolderRemove"@,
        IPCEmitEvent::FolderAdd(_) => "FolderAdd"@,
        IPCEmitEvent::ErrorHappened(_) => "ErrorHappened"@,
        IPCEmitEvent::SchemasUpdated(_) => "SchemasUpdated"@,
        IPCEmitEvent::EventOverflow(_) => "EventOverflow"@,
    }
}

} // verus!
