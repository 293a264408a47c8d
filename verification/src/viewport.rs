//! The develop viewport: which pyramid level a surface shows, the ring of
//! host surfaces frames rotate through, and the next surface to write.
use vstd::prelude::*;
use crate::ids::{BridgeError, failure};

verus! {

/// Surface size to allocate for a viewport: exactly the extent of `level`.
#[derive(Clone, Copy, Debug, PartialEq, Eq, Structural)]
pub struct SurfacePlan {
    pub level: u8,
    pub width: u32,
    pub height: u32,
}

/// Pyramid level extents, level 0 (full size) first: `(width, height)`.
pub open spec fn covers(e: (u32, u32), width: u32, height: u32) -> bool {
    e.0 >= width && e.1 >= height
}

/// The coarsest level covering the viewport at or below `hi`, else level 0.
pub open spec fn coarsest_covering(extents: Seq<(u32, u32)>, width: u32, height: u32, hi: int) -> int
    decreases hi,
{
    if hi <= 0 {
        0
    } else if covers(extents[hi], width, height) {
        hi
    } else {
        coarsest_covering(extents, width, height, hi - 1)
    }
}

/// The level chosen among `0..=hi` is the highest whose extent holds the
/// viewport in both width and height; when none does, it is level 0.
pub proof fn lemma_coarsest_covering(extents: Seq<(u32, u32)>, width: u32, height: u32, hi: int)
    requires
        0 <= hi < extents.len(),
    ensures
        0 <= coarsest_covering(extents, width, height, hi) <= hi,
        (exists|l: int| 0 <= l <= hi && extents[l].0 >= width && extents[l].1 >= height) ==> ({
            let c = coarsest_covering(extents, width, height, hi);
            extents[c].0 >= width && extents[c].1 >= height
        }),
        forall|l: int|
            coarsest_covering(extents, width, height, hi) < l <= hi ==> !((#[trigger] extents[l]).0
                >= width && extents[l].1 >= height),
    decreases hi,
{
    if hi > 0 && !covers(extents[hi], width, height) {
        lemma_coarsest_covering(extents, width, height, hi - 1);
        if exists|l: int| 0 <= l <= hi && extents[l].0 >= width && extents[l].1 >= height {
            let l = choose|l: int| 0 <= l <= hi && extents[l].0 >= width && extents[l].1 >= height;
            assert(l != hi);
        }
    }
}

/// Surface size for a viewport of `width × height` device pixels: the
/// coarsest level whose extent covers the viewport, or level 0 when the
/// image is smaller.
pub fn plan_surface(extents: &Vec<(u32, u32)>, width: u32, height: u32) -> (r: SurfacePlan)
    requires
        1 <= extents.len() <= 256,
    ensures
        r.level == coarsest_covering(extents@, width, height, extents@.len() - 1),
        (r.width, r.height) == extents@[r.level as int],
        r.level < extents@.len(),
        (exists|l: int| 0 <= l < extents@.len() && extents@[l].0 >= width && extents@[l].1 >= height)
            ==> r.width >= width && r.height >= height,
        forall|l: int|
            r.level < l < extents@.len() ==> !((#[trigger] extents@[l]).0 >= width && extents@[l].1
                >= height),
{
    proof {
        lemma_coarsest_covering(extents@, width, height, extents@.len() - 1);
    }
    let mut l = extents.len() - 1;
    while l > 0 && !(extents[l].0 >= width && extents[l].1 >= height)
        invariant
            l < extents.len(),
            extents.len() <= 256,
            coarsest_covering(extents@, width, height, extents@.len() - 1) == coarsest_covering(
                extents@,
                width,
                height,
                l as int,
            ),
        decreases l,
    {
        l = l - 1;
    }
    SurfacePlan { level: l as u8, width: extents[l].0, height: extents[l].1 }
}

/// The first level at or after `from` whose long edge is at most 2048, else the last.
pub open spec fn first_fitting(extents: Seq<(u32, u32)>, from: int) -> int
    decreases extents.len() - from,
{
    if from >= extents.len() - 1 {
        extents.len() - 1
    } else if extents[from].0 <= 2048 && extents[from].1 <= 2048 {
        from
    } else {
        first_fitting(extents, from + 1)
    }
}

/// Before a surface is attached: the level whose long edge is ≤ 2048 px.
pub fn default_level(extents: &Vec<(u32, u32)>) -> (r: u8)
    requires
        1 <= extents.len() <= 256,
    ensures
        r == first_fitting(extents@, 0),
{
    let mut l: usize = 0;
    while l < extents.len() - 1 && !(extents[l].0 <= 2048 && extents[l].1 <= 2048)
        invariant
            l < extents.len(),
            extents.len() <= 256,
            first_fitting(extents@, 0) == first_fitting(extents@, l as int),
        decreases extents.len() - l,
    {
        l = l + 1;
    }
    l as u8
}

/// The first level whose extent is exactly `width × height`.
pub open spec fn exact_level(extents: Seq<(u32, u32)>, width: u32, height: u32, from: int) -> Option<int>
    decreases extents.len() - from,
{
    if from >= extents.len() {
        None
    } else if extents[from] == (width, height) {
        Some(from)
    } else {
        exact_level(extents, width, height, from + 1)
    }
}

/// The level of a surface `width × height`; it must be a level's extent.
pub fn surface_level(extents: &Vec<(u32, u32)>, width: u32, height: u32) -> (r: Result<u8, BridgeError>)
    requires
        extents.len() <= 256,
    ensures
        match exact_level(extents@, width, height, 0) {
            Some(l) => r == Ok::<u8, BridgeError>(l as u8),
            None => r is Err && r->Err_0.message() == "surface size must come from plan_surface"@,
        },
{
    let mut l: usize = 0;
    while l < extents.len()
        invariant
            l <= extents.len(),
            extents.len() <= 256,
            exact_level(extents@, width, height, 0) == exact_level(extents@, width, height, l as int),
        decreases extents.len() - l,
    {
        if extents[l].0 == width && extents[l].1 == height {
            return Ok(l as u8);
        }
        l = l + 1;
    }
    Err(failure("surface size must come from plan_surface"))
}

// ─────────────────────────────── the ring ───────────────────────────────

/// A host surface of the frame ring: id, size and whether it is the
/// float (EDR) contract.
#[derive(Clone, Copy, Debug, PartialEq, Eq, Structural)]
pub struct RingSurface {
    pub id: u32,
    pub width: u32,
    pub height: u32,
    pub float: bool,
}

/// `ring` without the surfaces whose id is `id`, in order.
pub open spec fn without_id(ring: Seq<RingSurface>, id: u32) -> Seq<RingSurface>
    decreases ring.len(),
{
    if ring.len() == 0 {
        ring
    } else if ring.last().id == id {
        without_id(ring.drop_last(), id)
    } else {
        without_id(ring.drop_last(), id).push(ring.last())
    }
}

/// The ring after attaching `s`: a surface of another size or contract
/// replaces the ring; the same id is not listed twice; at most three stay
/// (the oldest leaves).
pub open spec fn ring_after(ring: Seq<RingSurface>, s: RingSurface) -> Seq<RingSurface> {
    let kept = if ring.len() > 0 && (ring[0].width != s.width || ring[0].height != s.height
        || ring[0].float != s.float) {
        Seq::empty()
    } else {
        ring
    };
    let unique = without_id(kept, s.id);
    let trimmed = if unique.len() >= 3 {
        unique.drop_first()
    } else {
        unique
    };
    trimmed.push(s)
}

/// Whether attaching starts a render: the first surface of a ring, or a
/// new screen level.
pub open spec fn attach_renders(ring: Seq<RingSurface>, s: RingSurface, screen: u8, level: u8) -> bool {
    let kept = if ring.len() > 0 && (ring[0].width != s.width || ring[0].height != s.height
        || ring[0].float != s.float) {
        Seq::empty()
    } else {
        ring
    };
    let unique = without_id(kept, s.id);
    unique.len() == 0 || screen != level
}

/// Adds `s` to the ring at screen level `level` (see [`ring_after`]);
/// returns whether a render starts.
pub fn attach_to_ring(ring: &mut Vec<RingSurface>, screen_level: &mut u8, s: RingSurface, level: u8) -> (r: bool)
    ensures
        final(ring)@ == ring_after(old(ring)@, s),
        *final(screen_level) == level,
        r == attach_renders(old(ring)@, s, *old(screen_level), level),
{
    let ghost before = ring@;
    if ring.len() > 0 && (ring[0].width != s.width || ring[0].height != s.height || ring[0].float
        != s.float) {
        ring.clear();
    }
    let ghost kept = ring@;
    let mut unique: Vec<RingSurface> = Vec::new();
    let mut i: usize = 0;
    while i < ring.len()
        invariant
            i <= ring.len(),
            unique@ == without_id(ring@.take(i as int), s.id),
        decreases ring.len() - i,
    {
        proof {
            assert(ring@.take(i + 1).drop_last() =~= ring@.take(i as int));
            assert(ring@.take(i + 1).last() == ring@[i as int]);

            assert(ring@.take(i as int).push(ring@[i as int]) =~= ring@.take(i + 1));
        }
        let ghost prev = unique@;
        if ring[i].id != s.id {
            unique.push(ring[i]);
        }
        i = i + 1;
    }
    proof {
        assert(ring@.take(ring.len() as int) =~= ring@);
    }
    let renders = unique.len() == 0 || *screen_level != level;
    if unique.len() >= 3 {
        unique.remove(0);
    }
    unique.push(s);
    *ring = unique;
    *screen_level = level;
    proof {
        assert(kept == (if before.len() > 0 && (before[0].width != s.width || before[0].height
            != s.height || before[0].float != s.float) {
            Seq::<RingSurface>::empty()
        } else {
            before
        }));
    }
    renders
}

/// A ring holds at most three surfaces, each once, all of one size and
/// contract.
pub open spec fn ring_ok(ring: Seq<RingSurface>) -> bool {
    &&& ring.len() <= 3
    &&& forall|i: int, j: int| 0 <= i < j < ring.len() ==> ring[i].id != ring[j].id
    &&& forall|i: int|
        0 <= i < ring.len() ==> (#[trigger] ring[i]).width == ring[0].width && ring[i].height
            == ring[0].height && ring[i].float == ring[0].float
}

pub open spec fn distinct_ids(ring: Seq<RingSurface>) -> bool {
    forall|i: int, j: int| 0 <= i < j < ring.len() ==> ring[i].id != ring[j].id
}

proof fn lemma_without_id(ring: Seq<RingSurface>, id: u32)
    ensures
        without_id(ring, id).len() <= ring.len(),
        forall|i: int| 0 <= i < without_id(ring, id).len() ==> (#[trigger] without_id(ring, id)[i]).id != id,
        forall|i: int|
            0 <= i < without_id(ring, id).len() ==> ring.contains(#[trigger] without_id(ring, id)[i]),
        distinct_ids(ring) ==> distinct_ids(without_id(ring, id)),
    decreases ring.len(),
{
    if ring.len() > 0 {
        let p = ring.drop_last();
        lemma_without_id(p, id);
        let w = without_id(p, id);
        assert forall|i: int| 0 <= i < w.len() implies ring.contains(#[trigger] w[i]) by {
            assert(p.contains(w[i]));
            let k = choose|k: int| 0 <= k < p.len() && p[k] == w[i];
            assert(ring[k] == w[i]);
        }
        if ring.last().id != id {
            let v = without_id(ring, id);
            assert(v == w.push(ring.last()));
            assert forall|i: int| 0 <= i < v.len() implies ring.contains(#[trigger] v[i]) by {
                if i < w.len() {
                    assert(v[i] == w[i]);
                } else {
                    assert(ring[ring.len() - 1] == v[i]);
                }
            }
            if distinct_ids(ring) {
                assert(distinct_ids(p));
                assert forall|i: int, j: int| 0 <= i < j < v.len() implies v[i].id != v[j].id by {
                    if j < w.len() {
                        assert(v[i] == w[i] && v[j] == w[j]);
                    } else {
                        assert(v[i] == w[i]);
                        assert(p.contains(w[i]));
                        let k = choose|k: int| 0 <= k < p.len() && p[k] == w[i];
                        assert(ring[k] == w[i]);
                        assert(v[j] == ring[ring.len() - 1]);
                    }
                }
            }
        } else {
            if distinct_ids(ring) {
                assert(distinct_ids(p));
            }
        }
    }
}

/// Attaching keeps a ring well formed: at most three surfaces, no surface
/// twice, one size and contract throughout, and the new surface last.
pub proof fn attaching_keeps_the_ring(ring: Seq<RingSurface>, s: RingSurface)
    requires
        ring_ok(ring),
    ensures
        ring_ok(ring_after(ring, s)),
        ring_after(ring, s).last() == s,
{
    let kept = if ring.len() > 0 && (ring[0].width != s.width || ring[0].height != s.height
        || ring[0].float != s.float) {
        Seq::<RingSurface>::empty()
    } else {
        ring
    };
    lemma_without_id(kept, s.id);
    let unique = without_id(kept, s.id);
    let trimmed = if unique.len() >= 3 { unique.drop_first() } else { unique };
    let out = trimmed.push(s);
    assert(out == ring_after(ring, s));
    assert forall|i: int| 0 <= i < trimmed.len() implies (#[trigger] trimmed[i]).id != s.id && trimmed[i].width
        == s.width && trimmed[i].height == s.height && trimmed[i].float == s.float by {
        let k = if unique.len() >= 3 { i + 1 } else { i };
        assert(trimmed[i] == unique[k]);
        assert(kept.contains(unique[k]));
        let a = choose|a: int| 0 <= a < kept.len() && kept[a] == unique[k];
        assert(kept[a] == ring[a]);
    }
    assert(distinct_ids(kept));
    assert forall|i: int, j: int| 0 <= i < j < trimmed.len() implies trimmed[i].id != trimmed[j].id by {
        let (ki, kj) = if unique.len() >= 3 { (i + 1, j + 1) } else { (i, j) };
        assert(trimmed[i] == unique[ki] && trimmed[j] == unique[kj]);
    }
    assert forall|i: int, j: int| 0 <= i < j < out.len() implies out[i].id != out[j].id by {
        if j < trimmed.len() {
            assert(out[i] == trimmed[i] && out[j] == trimmed[j]);
        } else {
            assert(out[i] == trimmed[i]);
        }
    }
    assert forall|i: int| 0 <= i < out.len() implies (#[trigger] out[i]).width == out[0].width && out[i].height
        == out[0].height && out[i].float == out[0].float by {
        if i < trimmed.len() {
            assert(out[i] == trimmed[i]);
        }
        if trimmed.len() > 0 {
            assert(out[0] == trimmed[0]);
        }
    }
}

// ─────────────────────────────── next surface ───────────────────────────────

/// Advances only after presentation; cancelled work keeps its unpresented slot.
#[derive(Clone, Copy, Debug)]
pub struct SurfaceCursor(pub Option<u32>);

/// Position of `id` in `ids`, if it is there.
pub open spec fn position_of(ids: Seq<u32>, id: u32) -> Option<int>
    decreases ids.len(),
{
    if ids.len() == 0 {
        None
    } else if ids.last() == id {
        match position_of(ids.drop_last(), id) {
            Some(p) => Some(p),
            None => Some(ids.len() - 1),
        }
    } else {
        position_of(ids.drop_last(), id)
    }
}

proof fn lemma_position_bound(ids: Seq<u32>, id: u32)
    ensures
        position_of(ids, id) matches Some(p) ==> 0 <= p < ids.len(),
    decreases ids.len(),
{
    if ids.len() > 0 {
        lemma_position_bound(ids.drop_last(), id);
    }
}

impl SurfaceCursor {
    /// The ring slot to write next: the one after the last presented
    /// surface, or the first.
    pub open spec fn next_slot(self, ids: Seq<u32>) -> Option<int> {
        if ids.len() == 0 {
            None
        } else {
            match self.0 {
                Some(id) => match position_of(ids, id) {
                    Some(i) => Some((i + 1) % (ids.len() as int)),
                    None => Some(0),
                },
                None => Some(0),
            }
        }
    }

    pub fn candidate(&self, ids: &Vec<u32>) -> (r: Option<usize>)
        ensures
            match self.next_slot(ids@) {
                Some(i) => r == Some(i as usize),
                None => r is None,
            },
    {
        if ids.len() == 0 {
            return None;
        }
        let pos = match self.0 {
            Some(id) => {
                let mut i: usize = 0;
                let mut found: Option<usize> = None;
                while i < ids.len()
                    invariant
                        i <= ids.len(),
                        match position_of(ids@.take(i as int), id) {
                            Some(p) => found == Some(p as usize),
                            None => found is None,
                        },
                        found matches Some(p) ==> p < i,
                    decreases ids.len() - i,
                {
                    proof {
                        assert(ids@.take(i + 1).drop_last() =~= ids@.take(i as int));
                        assert(ids@.take(i + 1).last() == ids@[i as int]);
                    }
                    if found.is_none() && ids[i] == id {
                        found = Some(i);
                    }
                    i = i + 1;
                }
                proof {
                    assert(ids@.take(ids.len() as int) =~= ids@);
                    lemma_position_bound(ids@, id);
                }
                found
            },
            None => None,
        };
        match pos {
            Some(i) => Some((i + 1) % ids.len()),
            None => Some(0),
        }
    }

    pub fn published(&mut self, id: u32)
        ensures
            final(self).0 == Some(id),
    {
        self.0 = Some(id);
    }
}

/// A rendered 1:1 detail crop.
#[derive(Clone, Copy, Debug, PartialEq, Eq, Structural)]
pub struct DetailPreview {
    /// Top-left of the crop in level-0 active-area pixels (sensor orientation).
    pub x: u32,
    pub y: u32,
    /// Pixels written, anchored top-left in the surface.
    pub width: u32,
    pub height: u32,
}

#[derive(Clone, Debug)]
pub struct HistoryState {
    pub can_undo: bool,
    pub can_redo: bool,
    /// Entries ever recorded (the history is append-only).
    pub entries: u32,
    /// Label of the entry at the head, if any.
    pub head_label: Option<String>,
    pub snapshots: Vec<String>,
    /// Live settings differ from the last commit.
    pub uncommitted: bool,
}

} // verus!
