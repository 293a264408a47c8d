//! How many levels coarser than the screen level an interactive drag
//! renders at, adapted to the measured frame times, and what a render
//! request starts. The host keeps the smoothed frame time; this state
//! machine decides the level from what the host measured of each frame.
use vstd::prelude::*;

verus! {

/// At most this many levels coarser than the screen level while dragging.
pub const MAX_DRAG_OFFSET: u8 = 4;

/// The adaptive level of one render class: the offset below the screen
/// level, the consecutive frames that missed the refresh, and whether the
/// first frame at this level (a cache refill) has been seen.
#[derive(Clone, Copy, Debug, PartialEq, Eq, Structural)]
pub struct DragLevel {
    pub offset: u8,
    pub misses: u8,
    pub warm: bool,
}

/// What became of the host's smoothed frame time after a frame.
#[derive(Clone, Copy, Debug, PartialEq, Eq, Structural)]
pub enum FrameOutcome {
    /// The first frame at a level: no evidence, nothing smoothed.
    Ignored,
    /// The level stays: the frame joins the smoothed time.
    Kept,
    /// The level changed: the smoothed time starts over.
    Moved,
}

/// A level entered at `offset`, before its first frame.
pub open spec fn fresh(offset: u8) -> DragLevel {
    DragLevel { offset, misses: 0, warm: false }
}

/// Consecutive misses after a frame that `over_refresh` or not.
pub open spec fn misses_after(d: DragLevel, over_refresh: bool) -> u8 {
    if !over_refresh {
        0
    } else if d.misses == u8::MAX {
        u8::MAX
    } else {
        (d.misses + 1) as u8
    }
}

/// The offset a warm level moves to: one coarser (up to the limit) after
/// two consecutive misses, one finer (down to the screen level) when the
/// finer level is predicted to fit the preferred budget, else unchanged.
pub open spec fn next_offset(d: DragLevel, over_refresh: bool, finer_fits: bool) -> u8 {
    if misses_after(d, over_refresh) >= 2 {
        if d.offset + 1 < MAX_DRAG_OFFSET {
            (d.offset + 1) as u8
        } else {
            MAX_DRAG_OFFSET
        }
    } else if finer_fits {
        if d.offset == 0 {
            0
        } else {
            (d.offset - 1) as u8
        }
    } else {
        d.offset
    }
}

/// The level after a frame: the first frame at a level only warms it; a
/// later frame keeps the level (counting misses) or enters a fresh level.
pub open spec fn after_frame(d: DragLevel, over_refresh: bool, finer_fits: bool) -> DragLevel {
    if !d.warm {
        DragLevel { warm: true, ..d }
    } else if next_offset(d, over_refresh, finer_fits) == d.offset {
        DragLevel { offset: d.offset, misses: misses_after(d, over_refresh), warm: true }
    } else {
        fresh(next_offset(d, over_refresh, finer_fits))
    }
}

/// What the host does with its smoothed time after that frame.
pub open spec fn outcome_of(d: DragLevel, over_refresh: bool, finer_fits: bool) -> FrameOutcome {
    if !d.warm {
        FrameOutcome::Ignored
    } else if next_offset(d, over_refresh, finer_fits) == d.offset {
        FrameOutcome::Kept
    } else {
        FrameOutcome::Moved
    }
}

impl DragLevel {
    /// A level entered at `offset`.
    pub fn starting_at(offset: u8) -> (d: DragLevel)
        ensures
            d == fresh(offset),
    {
        DragLevel { offset, misses: 0, warm: false }
    }

    /// Records an interactive frame: `over_refresh` when it took longer
    /// than one display refresh, `finer_fits` when the next finer level
    /// (four times the pixels) is predicted from the smoothed frame time to
    /// fit the preferred budget.
    pub fn record(&mut self, over_refresh: bool, finer_fits: bool) -> (o: FrameOutcome)
        ensures
            *final(self) == after_frame(*old(self), over_refresh, finer_fits),
            o == outcome_of(*old(self), over_refresh, finer_fits),
    {
        if !self.warm {
            self.warm = true;
            return FrameOutcome::Ignored;
        }
        let misses = if over_refresh {
            if self.misses == u8::MAX {
                u8::MAX
            } else {
                self.misses + 1
            }
        } else {
            0
        };
        let next = if misses >= 2 {
            if self.offset < MAX_DRAG_OFFSET - 1 {
                self.offset + 1
            } else {
                MAX_DRAG_OFFSET
            }
        } else if finer_fits {
            if self.offset == 0 {
                0
            } else {
                self.offset - 1
            }
        } else {
            self.offset
        };
        if next == self.offset {
            *self = DragLevel { offset: next, misses, warm: true };
            FrameOutcome::Kept
        } else {
            *self = DragLevel::starting_at(next);
            FrameOutcome::Moved
        }
    }
}

/// The first frame at a level is not evidence: it only warms the level.
pub proof fn the_first_frame_is_ignored(d: DragLevel, over_refresh: bool, finer_fits: bool)
    requires
        !d.warm,
    ensures
        after_frame(d, over_refresh, finer_fits).offset == d.offset,
        after_frame(d, over_refresh, finer_fits).misses == d.misses,
        outcome_of(d, over_refresh, finer_fits) == FrameOutcome::Ignored,
{
}

/// An isolated spike never drops the level: a frame that misses the
/// refresh right after one that did not leaves the level no coarser.
pub proof fn a_single_spike_keeps_the_level(d: DragLevel, finer_fits: bool)
    requires
        d.misses == 0,
    ensures
        after_frame(d, true, finer_fits).offset <= d.offset,
{
}

/// Two consecutive misses drop one level, up to the limit.
pub proof fn sustained_misses_go_coarser(d: DragLevel, finer_fits: bool)
    requires
        d.warm,
        d.misses >= 1,
        d.offset < MAX_DRAG_OFFSET,
    ensures
        after_frame(d, true, finer_fits) == fresh((d.offset + 1) as u8),
{
}

/// From a level within the limit, a frame moves at most one level either
/// way and stays within the limit; it goes finer only when the finer level
/// is predicted to fit.
pub proof fn levels_move_one_step_within_the_limit(
    d: DragLevel,
    over_refresh: bool,
    finer_fits: bool,
)
    requires
        d.offset <= MAX_DRAG_OFFSET,
    ensures
        after_frame(d, over_refresh, finer_fits).offset <= MAX_DRAG_OFFSET,
        after_frame(d, over_refresh, finer_fits).offset <= d.offset + 1,
        after_frame(d, over_refresh, finer_fits).offset + 1 >= d.offset,
        !finer_fits ==> after_frame(d, over_refresh, finer_fits).offset >= d.offset,
{
}

// ─────────────────────────────── render requests ───────────────────────────────

/// Interactive drags on screen levels larger than this many pixels start one
/// level coarser, unless the recipe renders resident.
pub const DRAG_BUDGET_PX: u64 = 4_200_000;

/// What a render request of the develop viewport starts.
#[derive(Clone, Copy, Debug, PartialEq, Eq, Structural)]
pub enum RenderPlan {
    /// The session is closed: nothing.
    Closed,
    /// A drag's own frame is still in flight: it is not cancelled, and the
    /// latest state is rendered as soon as it lands (marked pending).
    Deferred,
    /// The sharpening-mask overlay at the screen level, under a new
    /// generation (the running job is cancelled).
    Mask { generation: u64, level: u8 },
    /// A progressive render from level `first` down to `finest`, under a new
    /// generation (the running job is cancelled); an interactive one is the
    /// drag's frame in flight.
    Levels { generation: u64, first: u8, finest: u8, interactive: bool },
}

/// The level a render starts at: the screen level, or for a drag the screen
/// level plus the drag's offset (at least one for a large non-resident
/// level), capped at the coarsest level.
pub open spec fn first_level(
    interactive: bool,
    screen_level: u8,
    max_level: u8,
    resident: bool,
    area: u64,
    drag_offset: u8,
) -> int {
    let budget: int = if !resident && area > DRAG_BUDGET_PX { 1 } else { 0 };
    let offset: int = if drag_offset >= budget { drag_offset as int } else { budget };
    if !interactive {
        screen_level as int
    } else if screen_level + offset < max_level {
        screen_level + offset
    } else {
        max_level as int
    }
}

/// What a render request starts: nothing when closed; for a drag whose
/// own frame is in flight (no mask overlay, a job running), nothing yet;
/// otherwise the mask overlay or a progressive render, under the next
/// generation.
pub open spec fn render_decision(
    closed: bool,
    interactive: bool,
    masking_preview: bool,
    job_running: bool,
    in_flight: Option<u64>,
    generation: u64,
    screen_level: u8,
    max_level: u8,
    resident: bool,
    area: u64,
    drag_offset: u8,
) -> RenderPlan {
    if closed {
        RenderPlan::Closed
    } else if interactive && !masking_preview && job_running && in_flight == Some(generation) {
        RenderPlan::Deferred
    } else if masking_preview {
        RenderPlan::Mask { generation: (generation + 1) as u64, level: screen_level }
    } else {
        let first = first_level(interactive, screen_level, max_level, resident, area, drag_offset);
        RenderPlan::Levels {
            generation: (generation + 1) as u64,
            first: first as u8,
            finest: if interactive { first as u8 } else { screen_level },
            interactive,
        }
    }
}

/// Decides what a render request of the develop viewport starts: see
/// [`render_decision`]. `in_flight` is the generation of the drag frame in
/// flight, `resident` whether the recipe renders resident, `area` the
/// pixels of the screen level, `drag_offset` the drag level of the
/// recipe's render class.
pub fn render_plan(
    closed: bool,
    interactive: bool,
    masking_preview: bool,
    job_running: bool,
    in_flight: Option<u64>,
    generation: u64,
    screen_level: u8,
    max_level: u8,
    resident: bool,
    area: u64,
    drag_offset: u8,
) -> (r: RenderPlan)
    requires
        !closed && !(interactive && !masking_preview && job_running && in_flight == Some(generation))
            ==> generation < u64::MAX,
    ensures
        r == render_decision(
            closed,
            interactive,
            masking_preview,
            job_running,
            in_flight,
            generation,
            screen_level,
            max_level,
            resident,
            area,
            drag_offset,
        ),
{
    if closed {
        return RenderPlan::Closed;
    }
    let own_frame = match in_flight {
        Some(g) => g == generation,
        None => false,
    };
    if interactive && !masking_preview && job_running && own_frame {
        return RenderPlan::Deferred;
    }
    let next = generation + 1;
    if masking_preview {
        return RenderPlan::Mask { generation: next, level: screen_level };
    }
    let first: u8 = if interactive {
        let budget: u8 = if !resident && area > DRAG_BUDGET_PX { 1 } else { 0 };
        let offset: u8 = if drag_offset >= budget { drag_offset } else { budget };
        let sum: u16 = screen_level as u16 + offset as u16;
        if sum < max_level as u16 { sum as u8 } else { max_level }
    } else {
        screen_level
    };
    RenderPlan::Levels {
        generation: next,
        first,
        finest: if interactive { first } else { screen_level },
        interactive,
    }
}

/// A drag never cancels its own frame in flight, and a render's levels run
/// from the coarser first level down to the finest, never past the coarsest
/// level for a drag.
pub proof fn a_drag_waits_for_its_own_frame(
    closed: bool,
    interactive: bool,
    masking_preview: bool,
    job_running: bool,
    in_flight: Option<u64>,
    generation: u64,
    screen_level: u8,
    max_level: u8,
    resident: bool,
    area: u64,
    drag_offset: u8,
)
    requires
        screen_level <= max_level,
    ensures
        ({
            let r = render_decision(
                closed,
                interactive,
                masking_preview,
                job_running,
                in_flight,
                generation,
                screen_level,
                max_level,
                resident,
                area,
                drag_offset,
            );
            &&& (!closed && interactive && !masking_preview && job_running && in_flight == Some(
                generation,
            )) ==> r == RenderPlan::Deferred
            &&& r matches RenderPlan::Levels { first, finest, .. } ==> screen_level <= finest
                <= first <= max_level
        }),
{
}

/// A frame of `generation` finished (or failed): it is no longer the drag's
/// frame in flight, and a render queued behind it starts (interactively).
/// Gives the new frame in flight, the new pending mark, and whether to
/// render again.
pub fn frame_done(in_flight: Option<u64>, pending: bool, generation: u64) -> (r: (
    Option<u64>,
    bool,
    bool,
))
    ensures
        r == (if in_flight == Some(generation) {
            (None::<u64>, false, pending)
        } else {
            (in_flight, pending, false)
        }),
{
    match in_flight {
        Some(g) => if g == generation {
            (None, false, pending)
        } else {
            (in_flight, pending, false)
        },
        None => (None, pending, false),
    }
}

} // verus!
