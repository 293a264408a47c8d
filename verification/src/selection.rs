//! Culling decisions as the bridge carries them, and the catalog query.
use vstd::prelude::*;
use crate::ids::{BridgeError, failure};

verus! {

#[derive(Clone, Copy, Debug, PartialEq, Eq, Structural)]
pub enum Decision {
    Undecided,
    Reject,
    Keep,
}

/// Keep grade of the catalog (one to three stars).
#[derive(Clone, Copy, Debug, PartialEq, Eq, Structural)]
pub enum Grade {
    One,
    Two,
    Three,
}

/// A selection as the host sends it: the grade is a plain number.
#[derive(Clone, Debug)]
pub struct Selection {
    pub decision: Decision,
    pub grade: Option<u8>,
    pub mark: Option<String>,
}

/// A selection in the catalog's terms (before the catalog normalizes it).
#[derive(Clone, Debug)]
pub struct CoreSelection {
    pub decision: Decision,
    pub grade: Option<Grade>,
    pub mark: Option<String>,
}

pub open spec fn grade_number(g: Grade) -> u8 {
    match g {
        Grade::One => 1,
        Grade::Two => 2,
        Grade::Three => 3,
    }
}

pub open spec fn valid_grade(g: Option<u8>) -> bool {
    match g {
        None => true,
        Some(n) => 1 <= n <= 3,
    }
}

pub open spec fn core_grade_of(g: Option<u8>) -> Option<Grade> {
    match g {
        Some(n) => Some(
            if n == 1 {
                Grade::One
            } else if n == 2 {
                Grade::Two
            } else {
                Grade::Three
            },
        ),
        None => None,
    }
}

impl Selection {
    /// Converts to the catalog's form; the grade must be 1, 2 or 3.
    pub fn into_core(self) -> (r: Result<CoreSelection, BridgeError>)
        ensures
            valid_grade(self.grade) ==> r is Ok && r->Ok_0.decision == self.decision
                && r->Ok_0.grade == core_grade_of(self.grade) && r->Ok_0.mark == self.mark,
            !valid_grade(self.grade) ==> r is Err && r->Err_0.message()
                == "grade must be 1, 2, or 3"@,
    {
        let grade = match self.grade {
            None => None,
            Some(1) => Some(Grade::One),
            Some(2) => Some(Grade::Two),
            Some(3) => Some(Grade::Three),
            _ => {
                return Err(failure("grade must be 1, 2, or 3"));
            },
        };
        Ok(CoreSelection { decision: self.decision, grade, mark: self.mark })
    }

    /// The bridge form of a catalog selection.
    pub fn from_core(s: CoreSelection) -> (r: Selection)
        ensures
            r.decision == s.decision,
            r.grade == (match s.grade {
                Some(g) => Some(grade_number(g)),
                None => None,
            }),
            r.mark == s.mark,
    {
        let grade = match s.grade {
            Some(Grade::One) => Some(1u8),
            Some(Grade::Two) => Some(2u8),
            Some(Grade::Three) => Some(3u8),
            None => None,
        };
        Selection { decision: s.decision, grade, mark: s.mark }
    }
}

/// Converting a valid selection to the catalog's form and back gives it back unchanged.
pub proof fn selection_round_trip(s: Selection, c: CoreSelection)
    requires
        valid_grade(s.grade),
        c.decision == s.decision,
        c.grade == core_grade_of(s.grade),
        c.mark == s.mark,
    ensures
        (match c.grade {
            Some(g) => Some(grade_number(g)),
            None => None,
        }) == s.grade,
{
}

#[derive(Clone, Debug)]
pub struct ImageQuery {
    pub folder: Option<String>,
    pub text: Option<String>,
    pub decision: Option<Decision>,
    /// Zero means all matching rows. Offset is applied before returning them.
    pub limit: u32,
    pub offset: u32,
}

/// The row limit the catalog search gets: zero asks for every row.
pub fn search_limit(limit: u32) -> (r: u64)
    ensures
        r == if limit == 0 { 0x7fff_ffff_ffff_ffffu64 } else { limit as u64 },
{
    if limit == 0 {
        0x7fff_ffff_ffff_ffffu64
    } else {
        limit as u64
    }
}

#[derive(Clone, Debug)]
pub struct ImageSummary {
    pub id: String,
    pub path: String,
    /// RAW: Unix seconds; EXIF JPEG/TIFF: ISO local date-time without a timezone.
    pub capture_time: Option<String>,
    pub orientation: u16,
    pub selection: Selection,
    pub recipe_hash: String,
}

#[derive(Clone, Debug)]
pub struct FolderHandle {
    pub path: String,
    pub updated: u64,
}

#[derive(Clone, Debug)]
pub enum EngineEvent {
    ScanProgress { path: String, updated: u64, finished: bool },
    PreviewReady { image_id: String, max_px: u32 },
}

/// Called on the command's worker thread, never while holding a catalog lock.
pub trait EngineEventListener {
    fn on_event(&self, event: EngineEvent);
}

/// Milliseconds since the Unix epoch as the catalog stores them: capped at
/// `i64::MAX`.
pub fn millis_i64(elapsed_ms: u128) -> (r: i64)
    ensures
        r == (if elapsed_ms > i64::MAX { i64::MAX as int } else { elapsed_ms as int }),
{
    if elapsed_ms > 0x7fff_ffff_ffff_ffffu128 {
        0x7fff_ffff_ffff_ffffi64
    } else {
        elapsed_ms as i64
    }
}

} // verus!
