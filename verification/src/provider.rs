//! The file-watch provider's decisions: which watch events matter, and the
//! directory a provider reads.  The watcher itself and the stream plumbing
//! around it live with the caller: on every relevant event it re-reads the
//! lease directory and emits a fresh interface list, starting with one
//! initial read.

use vstd::prelude::*;

verus! {

/// The kind of a file event the watcher reports.
#[derive(Clone, Copy, PartialEq, Eq, Structural, Debug)]
pub enum FileEventKind {
    Access,
    Create,
    Modify,
    Remove,
    Other,
}

/// Whether a watch event can change lease contents: creations,
/// modifications and removals are relevant; accesses and anything else are
/// not.
pub fn is_releant_event(kind: &FileEventKind) -> (r: bool)
    ensures
        r == (match kind {
            FileEventKind::Create => true,
            FileEventKind::Modify => true,
            FileEventKind::Remove => true,
            _ => false,
        }),
{
    match kind {
        FileEventKind::Create => true,
        FileEventKind::Modify => true,
        FileEventKind::Remove => true,
        _ => false,
    }
}

/// A provider that watches one directory and re-reads interfaces from it
/// on every relevant change.
pub struct NotifyProvider {
    pub path: String,
}

impl NotifyProvider {
    /// A provider over the given directory.
    pub fn new(path: String) -> (r: Self)
        ensures
            r.path@ == path@,
    {
        NotifyProvider { path }
    }
}

} // verus!
