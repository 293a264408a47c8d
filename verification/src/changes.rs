//! The library change feed: net per-image changes since a sequence, and
//! when the engine tells the host to pull.
use vstd::prelude::*;

verus! {

/// What changed about an image (all false for adds and removes).
#[derive(Clone, Copy, Debug, PartialEq, Eq, Structural)]
pub struct ChangedFields {
    /// File path, size or modification time: new pixels or a move.
    pub file: bool,
    pub capture_time: bool,
    /// Camera, lens, caption, GPS or orientation.
    pub metadata: bool,
    pub selection: bool,
    /// A develop edit was saved.
    pub recipe: bool,
    pub keywords: bool,
    /// AI signals (focus, faces, quality).
    pub scores: bool,
}

impl ChangedFields {
    pub fn none() -> (r: ChangedFields)
        ensures
            !r.file && !r.capture_time && !r.metadata && !r.selection && !r.recipe && !r.keywords
                && !r.scores,
    {
        ChangedFields {
            file: false,
            capture_time: false,
            metadata: false,
            selection: false,
            recipe: false,
            keywords: false,
            scores: false,
        }
    }
}

#[derive(Clone, Copy, Debug, PartialEq, Eq, Structural)]
pub enum LibraryChangeKind {
    Added,
    Removed,
    Updated,
}

/// A change as the catalog records it: updates carry their fields.
#[derive(Clone, Copy, Debug, PartialEq, Eq, Structural)]
pub enum CatalogChange {
    Added,
    Removed,
    Updated(ChangedFields),
}

/// Net change of one image since the pull's starting sequence.
#[derive(Clone, Debug)]
pub struct LibraryChange {
    /// Sequence of the image's latest contributing write.
    pub sequence: u64,
    pub image_id: String,
    pub kind: LibraryChangeKind,
    pub fields: ChangedFields,
}

/// Changes after `from` up to `sequence`, one entry per image in write order.
/// `reset`: the range is no longer available; reload instead of applying.
#[derive(Clone, Debug)]
pub struct LibraryChanges {
    pub from: u64,
    pub sequence: u64,
    pub reset: bool,
    pub changes: Vec<LibraryChange>,
}

/// A catalog change as the bridge reports it: adds and removes carry no fields.
pub fn library_change(sequence: u64, image_id: String, change: CatalogChange) -> (r: LibraryChange)
    ensures
        r.sequence == sequence,
        r.image_id == image_id,
        r.kind == match change {
            CatalogChange::Added => LibraryChangeKind::Added,
            CatalogChange::Removed => LibraryChangeKind::Removed,
            CatalogChange::Updated(_) => LibraryChangeKind::Updated,
        },
        r.fields == match change {
            CatalogChange::Updated(f) => f,
            _ => ChangedFields {
                file: false,
                capture_time: false,
                metadata: false,
                selection: false,
                recipe: false,
                keywords: false,
                scores: false,
            },
        },
{
    let (kind, fields) = match change {
        CatalogChange::Added => (LibraryChangeKind::Added, ChangedFields::none()),
        CatalogChange::Removed => (LibraryChangeKind::Removed, ChangedFields::none()),
        CatalogChange::Updated(f) => (LibraryChangeKind::Updated, f),
    };
    LibraryChange { sequence, image_id, kind, fields }
}

/// The change log's head from its stored sequence (none yet, or negative: 0).
pub fn head_sequence(stored: Option<i64>) -> (r: u64)
    ensures
        r == match stored {
            Some(v) => if v > 0 { v as u64 } else { 0u64 },
            None => 0u64,
        },
{
    match stored {
        Some(v) => if v > 0 {
            v as u64
        } else {
            0
        },
        None => 0,
    }
}

/// The last notified sequence after the catalog reports `sequence`.
pub open spec fn notified_after(before: u64, sequence: u64) -> u64 {
    if before >= sequence {
        before
    } else {
        sequence
    }
}

/// Records that the catalog reached `sequence`; the host is told to pull
/// only when it moved past every sequence notified before.
pub fn advance_notified(notified: &mut u64, sequence: u64) -> (emit: bool)
    ensures
        *final(notified) == notified_after(*old(notified), sequence),
        emit == (*old(notified) < sequence),
{
    let before = *notified;
    if before < sequence {
        *notified = sequence;
    }
    before < sequence
}

/// The notified sequence never goes backwards and covers every head seen;
/// reporting the same head again (a duplicate or coalesced notification)
/// announces nothing.
pub proof fn notifications_are_monotone(before: u64, sequence: u64)
    ensures
        notified_after(before, sequence) >= before,
        notified_after(before, sequence) >= sequence,
        !(notified_after(before, sequence) < sequence),
        notified_after(notified_after(before, sequence), sequence) == notified_after(before, sequence),
{
}

} // verus!
