use vstd::prelude::*;

use crate::path::FsPath;

verus! {

/// The type of a file-system object, as read without following a final
/// symbolic link.
#[derive(Clone, Copy, Debug, PartialEq, Eq, Structural)]
pub enum FileKind {
    Directory,
    File,
    Symlink,
    /// A device, socket or fifo.
    Other,
}

/// What the caller read from the file system for one source entry and its
/// destination.
#[derive(Clone, Debug, PartialEq, Eq)]
pub struct Probe {
    /// The source entry's own type; `None` when its metadata could not be read.
    pub source: Option<FileKind>,
    /// Where the source points, when it is a symbolic link whose target could be read.
    pub source_target: Option<FsPath>,
    /// The type of what stands at the destination; `None` when nothing does.
    pub destination: Option<FileKind>,
    /// Where the destination points, when it is a symbolic link whose target could be read.
    pub destination_target: Option<FsPath>,
}

pub ghost struct ProbeView {
    pub source: Option<FileKind>,
    pub source_target: Option<Seq<Seq<u8>>>,
    pub destination: Option<FileKind>,
    pub destination_target: Option<Seq<Seq<u8>>>,
}

pub open spec fn opt_path_view(p: Option<FsPath>) -> Option<Seq<Seq<u8>>> {
    match p {
        Some(x) => Some(x@),
        None => None,
    }
}

impl View for Probe {
    type V = ProbeView;

    open spec fn view(&self) -> ProbeView {
        ProbeView {
            source: self.source,
            source_target: opt_path_view(self.source_target),
            destination: self.destination,
            destination_target: opt_path_view(self.destination_target),
        }
    }
}

/// One change to the file system.
#[derive(Clone, Debug, PartialEq, Eq)]
pub enum Action {
    /// Remove the file or symbolic link at the path.
    RemoveFile(FsPath),
    /// Remove the directory at the path with all it holds.
    RemoveDir(FsPath),
    /// Create the directory at the path and each missing one above it.
    CreateDirAll(FsPath),
    /// Create a symbolic link at `link` that points to `target`.
    Symlink { target: FsPath, link: FsPath },
}

pub ghost enum ActionView {
    RemoveFile(Seq<Seq<u8>>),
    RemoveDir(Seq<Seq<u8>>),
    CreateDirAll(Seq<Seq<u8>>),
    Symlink { target: Seq<Seq<u8>>, link: Seq<Seq<u8>> },
}

impl View for Action {
    type V = ActionView;

    open spec fn view(&self) -> ActionView {
        match self {
            Action::RemoveFile(p) => ActionView::RemoveFile(p@),
            Action::RemoveDir(p) => ActionView::RemoveDir(p@),
            Action::CreateDirAll(p) => ActionView::CreateDirAll(p@),
            Action::Symlink { target, link } => ActionView::Symlink { target: target@, link: link@ },
        }
    }
}

/// What was decided for one entry, reported whether or not it is carried out.
#[derive(Clone, Copy, Debug, PartialEq, Eq, Structural)]
pub enum Outcome {
    /// The entry's relative path is in the ignore set.
    Ignored,
    /// Directories are not mirrored themselves; their children are.
    Directory,
    /// The source is neither a directory, a file nor a symbolic link.
    UnknownSource,
    /// Nothing stood at the destination; the link is created.
    Created,
    /// Under force, what stood at the destination is removed and the link created.
    Replaced,
    /// The destination already is the right link.
    AlreadyLinked,
    /// The destination is a symbolic link that points elsewhere; it is left alone.
    PointsElsewhere,
    /// The destination exists and is not a symbolic link; it is left alone.
    NotSymlink,
    /// Nothing stands at the destination; there is nothing to unlink.
    Absent,
    /// Under force, what stood at the destination is removed.
    Removed,
    /// The destination was this entry's link and is removed.
    Unlinked,
    /// The destination is a plain file; it is left alone.
    KeptFile,
    /// The destination is a directory; it is left alone.
    KeptDirectory,
    /// The destination is of another type; it is left alone.
    UnknownDestination,
}

/// A failure to read what a decision needs; it ends the run.
#[derive(Clone, Copy, Debug, PartialEq, Eq, Structural)]
pub enum EntryError {
    /// The source entry's metadata could not be read.
    SourceMetadata,
    /// The source is a symbolic link whose target could not be read.
    SourceLink,
    /// The destination is a symbolic link whose target could not be read.
    DestinationLink,
}

/// The decision for one entry and the changes that carry it out.
#[derive(Clone, Debug, PartialEq, Eq)]
pub struct Plan {
    pub outcome: Outcome,
    pub actions: Vec<Action>,
}

pub ghost struct PlanView {
    pub outcome: Outcome,
    pub actions: Seq<ActionView>,
}

impl View for Plan {
    type V = PlanView;

    open spec fn view(&self) -> PlanView {
        PlanView { outcome: self.outcome, actions: self.actions@.map_values(|a: Action| a@) }
    }
}

pub open spec fn plan_result_view(r: Result<Plan, EntryError>) -> Result<PlanView, EntryError> {
    match r {
        Ok(p) => Ok(p@),
        Err(e) => Err(e),
    }
}

/// The action that removes what stands at `dst`, which is of type `kind`.
pub open spec fn removal(kind: FileKind, dst: Seq<Seq<u8>>) -> ActionView {
    if kind == FileKind::Directory {
        ActionView::RemoveDir(dst)
    } else {
        ActionView::RemoveFile(dst)
    }
}

/// What a link to the source at `src` points to: the source itself for a
/// file, the source's own target for a symbolic link.
pub open spec fn link_target(src: Seq<Seq<u8>>, p: ProbeView) -> Result<Seq<Seq<u8>>, EntryError>
    recommends
        p.source == Some(FileKind::File) || p.source == Some(FileKind::Symlink),
{
    if p.source == Some(FileKind::File) {
        Ok(src)
    } else {
        match p.source_target {
            Some(t) => Ok(t),
            None => Err(EntryError::SourceLink),
        }
    }
}

/// How `link` treats a file or symbolic link whose destination is `dst` and
/// whose link must point to `target`. Only a file source insists on reading
/// a destination link; for a symbolic link source an unreadable one counts as
/// pointing elsewhere.
pub open spec fn link_decision(
    force: bool,
    file_source: bool,
    target: Seq<Seq<u8>>,
    dst: Seq<Seq<u8>>,
    p: ProbeView,
) -> Result<(Outcome, Seq<ActionView>), EntryError> {
    match p.destination {
        None => Ok(
            (
                Outcome::Created,
                seq![
                    ActionView::CreateDirAll(dst.drop_last()),
                    ActionView::Symlink { target, link: dst },
                ],
            ),
        ),
        Some(kind) => if force {
            Ok((Outcome::Replaced, seq![removal(kind, dst), ActionView::Symlink { target, link: dst }]))
        } else if kind == FileKind::Symlink {
            match p.destination_target {
                Some(d) => if d == target {
                    Ok((Outcome::AlreadyLinked, seq![]))
                } else {
                    Ok((Outcome::PointsElsewhere, seq![]))
                },
                None => if file_source {
                    Err(EntryError::DestinationLink)
                } else {
                    Ok((Outcome::PointsElsewhere, seq![]))
                },
            }
        } else {
            Ok((Outcome::NotSymlink, seq![]))
        },
    }
}

/// How `unlink` treats a file or symbolic link whose destination is `dst`
/// and whose link would point to `target`.
pub open spec fn unlink_decision(
    force: bool,
    target: Seq<Seq<u8>>,
    dst: Seq<Seq<u8>>,
    p: ProbeView,
) -> Result<(Outcome, Seq<ActionView>), EntryError> {
    match p.destination {
        None => Ok((Outcome::Absent, seq![])),
        Some(kind) => if force {
            Ok((Outcome::Removed, seq![removal(kind, dst)]))
        } else {
            match kind {
                FileKind::File => Ok((Outcome::KeptFile, seq![])),
                FileKind::Directory => Ok((Outcome::KeptDirectory, seq![])),
                FileKind::Other => Ok((Outcome::UnknownDestination, seq![])),
                FileKind::Symlink => match p.destination_target {
                    Some(d) => if d == target {
                        Ok((Outcome::Unlinked, seq![ActionView::RemoveFile(dst)]))
                    } else {
                        Ok((Outcome::PointsElsewhere, seq![]))
                    },
                    None => Err(EntryError::DestinationLink),
                },
            }
        },
    }
}

/// The decision for one source entry at `src`, mirrored at `dst`, before
/// the dry-run setting is applied; `linking` picks `link` or `unlink`.
pub open spec fn entry_decision(
    linking: bool,
    force: bool,
    ignored: bool,
    src: Seq<Seq<u8>>,
    dst: Seq<Seq<u8>>,
    p: ProbeView,
) -> Result<(Outcome, Seq<ActionView>), EntryError> {
    if ignored {
        Ok((Outcome::Ignored, seq![]))
    } else {
        match p.source {
            None => Err(EntryError::SourceMetadata),
            Some(FileKind::Directory) => Ok((Outcome::Directory, seq![])),
            Some(FileKind::Other) => Ok((Outcome::UnknownSource, seq![])),
            Some(kind) => match link_target(src, p) {
                Err(e) => Err(e),
                Ok(target) => if linking {
                    link_decision(force, kind == FileKind::File, target, dst, p)
                } else {
                    unlink_decision(force, target, dst, p)
                },
            },
        }
    }
}

/// The plan for a decision: under dry run the same outcome with no actions.
pub open spec fn as_plan(
    d: Result<(Outcome, Seq<ActionView>), EntryError>,
    dry_run: bool,
) -> Result<PlanView, EntryError> {
    match d {
        Ok((outcome, actions)) => Ok(
            PlanView {
                outcome,
                actions: if dry_run {
                    seq![]
                } else {
                    actions
                },
            },
        ),
        Err(e) => Err(e),
    }
}

} // verus!
