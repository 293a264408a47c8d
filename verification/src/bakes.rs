//! Smart filter bakes: whether a smart object's bake can be shown as it
//! is, which bake job to queue for it otherwise, which job the filter
//! worker takes next, and the blocks a neighbourhood filter runs in.
use vstd::prelude::*;
use crate::text::same_text;

verus! {

/// A rectangle of canvas pixels: `x0 ≤ x < x1`, `y0 ≤ y < y1`.
#[derive(Clone, Copy, Debug, PartialEq, Eq, Structural)]
pub struct Region {
    pub x0: i64,
    pub y0: i64,
    pub x1: i64,
    pub y1: i64,
}

/// A finished bake of a smart object: what it was baked for (its key), the
/// pyramid level of its full bake, and the full-resolution regions refined
/// since.
#[derive(Clone, Debug)]
pub struct Bake {
    pub key: String,
    pub level: u8,
    pub fine: Vec<Region>,
}

/// A queued bake job: its key, level and, at level 0, the region it refines.
#[derive(Clone, Debug)]
pub struct BakeJob {
    pub key: String,
    pub level: u8,
    pub region: Option<Region>,
}

/// What to do about one smart object's bake.
#[derive(Clone, Copy, Debug, PartialEq, Eq, Structural)]
pub enum BakeDecision {
    /// The bake shows the wanted level (and region) as it is.
    Good,
    /// The job it needs is already queued.
    AlreadyQueued,
    /// Queue a bake at `level`, refining `region` at level 0.
    Queue { level: u8, region: Option<Region> },
}

/// `f` holds all of `w`.
pub open spec fn covers(f: Region, w: Region) -> bool {
    f.x0 <= w.x0 && f.y0 <= w.y0 && w.x1 <= f.x1 && w.y1 <= f.y1
}

/// The bake was made for the layer as it is now.
pub open spec fn fresh(key: Seq<char>, bake: Option<Bake>) -> bool {
    bake matches Some(b) && b.key@ == key
}

/// A bake can be shown as it is: it is fresh, and its full bake is at the
/// wanted level or finer, or one of its refined regions covers the wanted
/// region.
pub open spec fn bake_good(key: Seq<char>, level: u8, bake: Option<Bake>, wanted: Option<Region>) -> bool {
    &&& fresh(key, bake)
    &&& bake->Some_0.level <= level || (wanted matches Some(w) && exists|i: int|
        0 <= i < bake->Some_0.fine@.len() && covers(#[trigger] bake->Some_0.fine@[i], w))
}

/// The level of the job to queue: level 0 (refining the wanted region) when
/// level 0 is wanted and the bake is fresh; else a full bake at the wanted
/// level, but never at level 0.
pub open spec fn job_level(key: Seq<char>, level: u8, bake: Option<Bake>) -> u8 {
    if level == 0 && fresh(key, bake) {
        0
    } else if level >= 1 {
        level
    } else {
        1
    }
}

/// What to do about a smart object's bake for a presentation at `level`
/// (`wanted` is the full-resolution region to show, at level 0): nothing
/// when the bake is good; else the job of [`job_level`], unless the same
/// job (key, level and region) is already queued.
pub open spec fn bake_decision(
    key: Seq<char>,
    level: u8,
    bake: Option<Bake>,
    wanted: Option<Region>,
    queued: Option<BakeJob>,
) -> BakeDecision {
    if bake_good(key, level, bake, wanted) {
        BakeDecision::Good
    } else {
        let l = job_level(key, level, bake);
        let region = if l == 0 { wanted } else { None };
        if queued matches Some(j) && j.key@ == key && j.level == l && j.region == region {
            BakeDecision::AlreadyQueued
        } else {
            BakeDecision::Queue { level: l, region }
        }
    }
}

/// A bake is shown as it is exactly when it was made for the layer as it
/// is now and either its full bake is at the wanted level or finer, or one
/// of its refined regions holds the whole wanted region, in both axes.
pub proof fn bakes_are_good_only_when_they_hold_the_view(
    key: Seq<char>,
    level: u8,
    bake: Option<Bake>,
    wanted: Option<Region>,
    queued: Option<BakeJob>,
)
    ensures
        bake_decision(key, level, bake, wanted, queued) == BakeDecision::Good <==> (bake matches Some(
            b,
        ) && b.key@ == key && (b.level <= level || (wanted matches Some(w) && exists|i: int|
            0 <= i < b.fine@.len() && (#[trigger] b.fine@[i]).x0 <= w.x0 && b.fine@[i].y0 <= w.y0
                && w.x1 <= b.fine@[i].x1 && w.y1 <= b.fine@[i].y1))),
{
    if let Some(b) = bake {
        if let Some(w) = wanted {
            if exists|i: int| 0 <= i < b.fine@.len() && covers(#[trigger] b.fine@[i], w) {
                let i = choose|i: int| 0 <= i < b.fine@.len() && covers(#[trigger] b.fine@[i], w);
                assert(b.fine@[i].x0 <= w.x0 && b.fine@[i].y0 <= w.y0 && w.x1 <= b.fine@[i].x1 && w.y1
                    <= b.fine@[i].y1);
            }
            if exists|i: int|
                0 <= i < b.fine@.len() && (#[trigger] b.fine@[i]).x0 <= w.x0 && b.fine@[i].y0 <= w.y0
                    && w.x1 <= b.fine@[i].x1 && w.y1 <= b.fine@[i].y1 {
                let i = choose|i: int|
                    0 <= i < b.fine@.len() && (#[trigger] b.fine@[i]).x0 <= w.x0 && b.fine@[i].y0 <= w.y0
                        && w.x1 <= b.fine@[i].x1 && w.y1 <= b.fine@[i].y1;
                assert(covers(b.fine@[i], w));
            }
        }
    }
}

fn any_covers(fine: &Vec<Region>, w: Region) -> (r: bool)
    ensures
        r == exists|i: int| 0 <= i < fine@.len() && covers(#[trigger] fine@[i], w),
{
    let mut i: usize = 0;
    while i < fine.len()
        invariant
            i <= fine@.len(),
            forall|j: int| 0 <= j < i ==> !covers(#[trigger] fine@[j], w),
        decreases fine.len() - i,
    {
        let f = fine[i];
        if f.x0 <= w.x0 && f.y0 <= w.y0 && w.x1 <= f.x1 && w.y1 <= f.y1 {
            assert(covers(fine@[i as int], w));
            return true;
        }
        i = i + 1;
    }
    false
}

/// Decides what to do about a smart object's bake (see [`bake_decision`]):
/// `key` is what the layer's bake would be made for now, `bake` its finished
/// bake, `queued` its queued job.
pub fn bake_step(
    key: &str,
    level: u8,
    bake: Option<&Bake>,
    wanted: Option<Region>,
    queued: Option<&BakeJob>,
) -> (r: BakeDecision)
    ensures
        r == bake_decision(
            key@,
            level,
            match bake {
                Some(b) => Some(*b),
                None => None,
            },
            wanted,
            match queued {
                Some(j) => Some(*j),
                None => None,
            },
        ),
        r == BakeDecision::Good <==> (bake matches Some(b) && b.key@ == key@ && (b.level <= level || (
        wanted matches Some(w) && exists|i: int|
            0 <= i < b.fine@.len() && (#[trigger] b.fine@[i]).x0 <= w.x0 && b.fine@[i].y0 <= w.y0
                && w.x1 <= b.fine@[i].x1 && w.y1 <= b.fine@[i].y1))),
{
    proof {
        let bv = match bake {
            Some(b) => Some(*b),
            None => None::<Bake>,
        };
        let qv = match queued {
            Some(j) => Some(*j),
            None => None::<BakeJob>,
        };
        bakes_are_good_only_when_they_hold_the_view(key@, level, bv, wanted, qv);
    }
    let ghost b0 = match bake {
        Some(b) => Some(*b),
        None => None::<Bake>,
    };
    let is_fresh = match bake {
        Some(b) => same_text(b.key.as_str(), key),
        None => false,
    };
    let good = match bake {
        Some(b) => is_fresh && (b.level <= level || match wanted {
            Some(w) => any_covers(&b.fine, w),
            None => false,
        }),
        None => false,
    };
    assert(good == bake_good(key@, level, b0, wanted));
    if good {
        return BakeDecision::Good;
    }
    let l: u8 = if level == 0 && is_fresh {
        0
    } else if level >= 1 {
        level
    } else {
        1
    };
    let region = if l == 0 {
        wanted
    } else {
        None
    };
    let same = match queued {
        Some(j) => same_text(j.key.as_str(), key) && j.level == l && j.region == region,
        None => false,
    };
    if same {
        BakeDecision::AlreadyQueued
    } else {
        BakeDecision::Queue { level: l, region }
    }
}

// ─────────────────────────────── the worker ───────────────────────────────

/// What the filter worker does next.
#[derive(Clone, Copy, Debug, PartialEq, Eq, Structural)]
pub enum WorkerStep {
    /// The worker is asked to stop.
    Stop,
    /// Run the queued preview.
    Preview,
    /// Run the queued bake of smart object `layer`.
    Bake { layer: u64 },
    /// Nothing queued: wait to be woken.
    Wait,
}

/// The worker's next job: stopping first, then a queued preview, then the
/// queued bake of the lowest layer id, else waiting.
pub open spec fn next_step(stop: bool, preview_queued: bool, bake_layers: Seq<u64>) -> WorkerStep {
    if stop {
        WorkerStep::Stop
    } else if preview_queued {
        WorkerStep::Preview
    } else if bake_layers.len() > 0 {
        WorkerStep::Bake {
            layer: choose|m: u64|
                bake_layers.contains(m) && forall|i: int|
                    0 <= i < bake_layers.len() ==> m <= #[trigger] bake_layers[i],
        }
    } else {
        WorkerStep::Wait
    }
}

/// Chooses the worker's next job (see [`next_step`]); `bake_layers` are the
/// layers with a queued bake.
pub fn next_job(stop: bool, preview_queued: bool, bake_layers: &Vec<u64>) -> (r: WorkerStep)
    ensures
        r == next_step(stop, preview_queued, bake_layers@),
        r matches WorkerStep::Bake { layer } ==> bake_layers@.contains(layer) && forall|i: int|
            0 <= i < bake_layers@.len() ==> layer <= #[trigger] bake_layers@[i],
{
    if stop {
        return WorkerStep::Stop;
    }
    if preview_queued {
        return WorkerStep::Preview;
    }
    if bake_layers.len() == 0 {
        return WorkerStep::Wait;
    }
    let mut m = bake_layers[0];
    let mut i: usize = 1;
    while i < bake_layers.len()
        invariant
            1 <= i <= bake_layers@.len(),
            bake_layers@.contains(m),
            forall|j: int| 0 <= j < i ==> m <= #[trigger] bake_layers@[j],
        decreases bake_layers.len() - i,
    {
        if bake_layers[i] < m {
            m = bake_layers[i];
        }
        i = i + 1;
    }
    proof {
        let c = choose|c: u64|
            bake_layers@.contains(c) && forall|j: int|
                0 <= j < bake_layers@.len() ==> c <= #[trigger] bake_layers@[j];
        assert(bake_layers@.contains(c));
        let k = choose|k: int| 0 <= k < bake_layers@.len() && bake_layers@[k] == c;
        let q = choose|q: int| 0 <= q < bake_layers@.len() && bake_layers@[q] == m;
        assert(m <= bake_layers@[k] && c <= bake_layers@[q]);
    }
    WorkerStep::Bake { layer: m }
}

/// Whether a finished preview is shown: only when no newer preview was
/// asked for since (`generation` is still the job's) and it was not
/// cancelled; any other result is dropped.
pub fn preview_lands(generation: u64, job_generation: u64, cancelled: bool) -> (r: bool)
    ensures
        r == (generation == job_generation && !cancelled),
{
    generation == job_generation && !cancelled
}

// ─────────────────────────────── filter blocks ───────────────────────────────

/// The side of the blocks a neighbourhood filter runs in: twice its halo,
/// kept within 256–1024 pixels.
pub open spec fn block_side(halo: int) -> int {
    if 2 * halo < 256 {
        256
    } else if 2 * halo > 1024 {
        1024
    } else {
        2 * halo
    }
}

pub open spec fn min_int(a: int, b: int) -> int {
    if a < b {
        a
    } else {
        b
    }
}

/// The blocks of one band `y..y_end` from column `x` on, left to right.
pub open spec fn band_blocks(x: int, x1: int, y: int, y_end: int, side: int) -> Seq<Region>
    decreases (if x < x1 { x1 - x } else { 0 }),
    when side > 0
{
    if x >= x1 {
        Seq::empty()
    } else {
        seq![Region { x0: x as i64, y0: y as i64, x1: min_int(x + side, x1) as i64, y1: y_end as i64 }]
            + band_blocks(x + side, x1, y, y_end, side)
    }
}

/// The blocks of the bands from row `y` on, top to bottom.
pub open spec fn grid_blocks(x0: int, x1: int, y: int, y1: int, side: int) -> Seq<Region>
    decreases (if y < y1 { y1 - y } else { 0 }),
    when side > 0
{
    if y >= y1 {
        Seq::empty()
    } else {
        band_blocks(x0, x1, y, min_int(y + side, y1), side) + grid_blocks(x0, x1, y + side, y1, side)
    }
}

/// The blocks a neighbourhood filter with halo `halo` runs over the
/// rectangle `area` in: squares of [`block_side`] from its top left corner,
/// row by row, cut at its right and bottom edges.
pub fn effect_blocks(area: Region, halo: i64) -> (r: Vec<Region>)
    requires
        0 <= halo <= u32::MAX,
        area.x1 <= i64::MAX - 1024,
        area.y1 <= i64::MAX - 1024,
    ensures
        r@ == grid_blocks(
            area.x0 as int,
            area.x1 as int,
            area.y0 as int,
            area.y1 as int,
            block_side(halo as int),
        ),
{
    let side: i64 = if halo * 2 < 256 {
        256
    } else if halo * 2 > 1024 {
        1024
    } else {
        halo * 2
    };
    let ghost g = grid_blocks(area.x0 as int, area.x1 as int, area.y0 as int, area.y1 as int, side as int);
    let mut out: Vec<Region> = Vec::new();
    let mut y = area.y0;
    while y < area.y1
        invariant
            256 <= side <= 1024,
            area.x1 <= i64::MAX - 1024,
            area.y1 <= i64::MAX - 1024,
            out@ + grid_blocks(area.x0 as int, area.x1 as int, y as int, area.y1 as int, side as int) == g,
        decreases (if y < area.y1 { area.y1 - y } else { 0 }),
    {
        let y_end = if y + side < area.y1 {
            y + side
        } else {
            area.y1
        };
        let ghost before = out@;
        let mut x = area.x0;
        while x < area.x1
            invariant
                256 <= side <= 1024,
                area.x1 <= i64::MAX - 1024,
                y < area.y1,
                out@ + band_blocks(x as int, area.x1 as int, y as int, y_end as int, side as int)
                    == before + band_blocks(area.x0 as int, area.x1 as int, y as int, y_end as int, side as int),
            decreases (if x < area.x1 { area.x1 - x } else { 0 }),
        {
            let x_end = if x + side < area.x1 {
                x + side
            } else {
                area.x1
            };
            let ghost rest = band_blocks(x as int + side, area.x1 as int, y as int, y_end as int, side as int);
            out.push(Region { x0: x, y0: y, x1: x_end, y1: y_end });
            proof {
                assert(band_blocks(x as int, area.x1 as int, y as int, y_end as int, side as int) == seq![
                    Region { x0: x, y0: y, x1: x_end, y1: y_end },
                ] + rest);
                assert(out@ + rest =~= (out@.drop_last() + seq![Region { x0: x, y0: y, x1: x_end, y1: y_end }]) + rest);
                assert(out@.drop_last() + (seq![Region { x0: x, y0: y, x1: x_end, y1: y_end }] + rest) =~= (out@.drop_last() + seq![Region { x0: x, y0: y, x1: x_end, y1: y_end }]) + rest);
            }
            x = x + side;
        }
        proof {
            assert(band_blocks(x as int, area.x1 as int, y as int, y_end as int, side as int) =~= Seq::<Region>::empty());
            assert(out@ =~= before + band_blocks(area.x0 as int, area.x1 as int, y as int, y_end as int, side as int));
            let rest = grid_blocks(area.x0 as int, area.x1 as int, y as int + side, area.y1 as int, side as int);
            assert(grid_blocks(area.x0 as int, area.x1 as int, y as int, area.y1 as int, side as int)
                == band_blocks(area.x0 as int, area.x1 as int, y as int, y_end as int, side as int) + rest);
            assert(before + (band_blocks(area.x0 as int, area.x1 as int, y as int, y_end as int, side as int) + rest)
                =~= out@ + rest);
        }
        y = y + side;
    }
    proof {
        assert(grid_blocks(area.x0 as int, area.x1 as int, y as int, area.y1 as int, side as int) =~= Seq::<Region>::empty());
        assert(out@ =~= g);
    }
    out
}

} // verus!
