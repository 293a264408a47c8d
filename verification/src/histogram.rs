//! Histograms of the displayed frame: 256 bins per channel of 8-bit
//! display-encoded pixels, plus a Rec. 709 luma channel in 8.8 fixed point.
use vstd::prelude::*;

verus! {

/// 256-bin histograms of the displayed (sRGB-encoded) frame.
#[derive(Clone, Debug)]
pub struct Histogram {
    pub red: Vec<u32>,
    pub green: Vec<u32>,
    pub blue: Vec<u32>,
    /// Rec. 709 weights on the encoded values.
    pub luminance: Vec<u32>,
    pub level: u8,
    pub generation: u64,
}

/// How many times `v` occurs in `s`.
pub open spec fn occurrences(s: Seq<u8>, v: int) -> nat
    decreases s.len(),
{
    if s.len() == 0 {
        0
    } else {
        occurrences(s.drop_last(), v) + if s.last() == v { 1nat } else { 0nat }
    }
}

/// The luma bin of a pixel: Rec. 709 weights in 8.8 fixed point
/// (54 + 183 + 19 = 256).
pub open spec fn luma_of(r: u8, g: u8, b: u8) -> int {
    (54 * r + 183 * g + 19 * b) / 256
}

/// The luma bins of planes `r`, `g`, `b`.
pub open spec fn lumas(r: Seq<u8>, g: Seq<u8>, b: Seq<u8>) -> Seq<u8> {
    Seq::new(r.len(), |i: int| luma_of(r[i], g[i], b[i]) as u8)
}

/// The luma bin of one pixel.
pub fn luma_bin(r: u8, g: u8, b: u8) -> (y: u8)
    ensures
        y == luma_of(r, g, b),
{
    let x: u32 = 54 * (r as u32) + 183 * (g as u32) + 19 * (b as u32);
    assert(x >> 8u32 == x / 256) by (bit_vector);
    assert(x / 256 < 256);
    (x >> 8u32) as u8
}

impl Histogram {
    /// Four channels of 256 bins.
    pub open spec fn well_formed(&self) -> bool {
        &&& self.red@.len() == 256
        &&& self.green@.len() == 256
        &&& self.blue@.len() == 256
        &&& self.luminance@.len() == 256
    }

    /// Room for `n` more pixels in every bin.
    pub open spec fn room_for(&self, n: nat) -> bool {
        &&& forall|v: int| 0 <= v < 256 ==> #[trigger] self.red@[v] + n <= u32::MAX
        &&& forall|v: int| 0 <= v < 256 ==> #[trigger] self.green@[v] + n <= u32::MAX
        &&& forall|v: int| 0 <= v < 256 ==> #[trigger] self.blue@[v] + n <= u32::MAX
        &&& forall|v: int| 0 <= v < 256 ==> #[trigger] self.luminance@[v] + n <= u32::MAX
    }

    /// An empty histogram of a frame at `level`, generation `generation`.
    pub fn empty(level: u8, generation: u64) -> (h: Histogram)
        ensures
            h.well_formed(),
            h.level == level,
            h.generation == generation,
            forall|v: int|
                0 <= v < 256 ==> #[trigger] h.red@[v] == 0 && h.green@[v] == 0 && h.blue@[v] == 0
                    && h.luminance@[v] == 0,
    {
        Histogram {
            red: vec![0u32; 256],
            green: vec![0u32; 256],
            blue: vec![0u32; 256],
            luminance: vec![0u32; 256],
            level,
            generation,
        }
    }

    /// Counts 8-bit pixels given as planes: each channel's value in its bin,
    /// and the pixel's luma in the luminance bins.
    pub fn add_pixels(&mut self, r: &[u8], g: &[u8], b: &[u8])
        requires
            old(self).well_formed(),
            r@.len() == g@.len(),
            r@.len() == b@.len(),
            old(self).room_for(r@.len()),
        ensures
            final(self).well_formed(),
            final(self).level == old(self).level,
            final(self).generation == old(self).generation,
            forall|v: int|
                0 <= v < 256 ==> {
                    &&& #[trigger] final(self).red@[v] == old(self).red@[v] + occurrences(r@, v)
                    &&& final(self).green@[v] == old(self).green@[v] + occurrences(g@, v)
                    &&& final(self).blue@[v] == old(self).blue@[v] + occurrences(b@, v)
                    &&& final(self).luminance@[v] == old(self).luminance@[v] + occurrences(lumas(r@, g@, b@), v)
                },
    {
        let ghost start = *self;
        let n = r.len();
        let mut i: usize = 0;
        while i < n
            invariant
                n == r@.len(),
                r@.len() == g@.len(),
                r@.len() == b@.len(),
                i <= n,
                self.well_formed(),
                self.level == start.level,
                self.generation == start.generation,
                start.room_for(n as nat),
                start.well_formed(),
                forall|v: int| 0 <= v < 256 ==> #[trigger] self.red@[v] == start.red@[v] + occurrences(r@.take(i as int), v),
                forall|v: int| 0 <= v < 256 ==> #[trigger] self.green@[v] == start.green@[v] + occurrences(g@.take(i as int), v),
                forall|v: int| 0 <= v < 256 ==> #[trigger] self.blue@[v] == start.blue@[v] + occurrences(b@.take(i as int), v),
                forall|v: int|
                    0 <= v < 256 ==> #[trigger] self.luminance@[v] == start.luminance@[v] + occurrences(
                        lumas(r@, g@, b@).take(i as int),
                        v,
                    ),
            decreases n - i,
        {
            let (rv, gv, bv) = (r[i], g[i], b[i]);
            let yv = luma_bin(rv, gv, bv);
            let ghost ys = lumas(r@, g@, b@);
            proof {
                assert(ys[i as int] == yv);
                lemma_occurrences_take(r@, i as int);
                lemma_occurrences_take(g@, i as int);
                lemma_occurrences_take(b@, i as int);
                lemma_occurrences_take(ys, i as int);
                lemma_occurrences_le(r@.take(i as int), rv as int);
                lemma_occurrences_le(g@.take(i as int), gv as int);
                lemma_occurrences_le(b@.take(i as int), bv as int);
                lemma_occurrences_le(ys.take(i as int), yv as int);
                assert(start.red@[rv as int] + n <= u32::MAX);
                assert(start.green@[gv as int] + n <= u32::MAX);
                assert(start.blue@[bv as int] + n <= u32::MAX);
                assert(start.luminance@[yv as int] + n <= u32::MAX);
            }
            let c = self.red[rv as usize];
            self.red.set(rv as usize, c + 1);
            let c = self.green[gv as usize];
            self.green.set(gv as usize, c + 1);
            let c = self.blue[bv as usize];
            self.blue.set(bv as usize, c + 1);
            let c = self.luminance[yv as usize];
            self.luminance.set(yv as usize, c + 1);
            i = i + 1;
        }
        proof {
            assert(r@.take(n as int) =~= r@);
            assert(g@.take(n as int) =~= g@);
            assert(b@.take(n as int) =~= b@);
            assert(lumas(r@, g@, b@).take(n as int) =~= lumas(r@, g@, b@));
            assert forall|v: int| 0 <= v < 256 implies {
                &&& #[trigger] self.red@[v] == start.red@[v] + occurrences(r@, v)
                &&& self.green@[v] == start.green@[v] + occurrences(g@, v)
                &&& self.blue@[v] == start.blue@[v] + occurrences(b@, v)
                &&& self.luminance@[v] == start.luminance@[v] + occurrences(lumas(r@, g@, b@), v)
            } by {
                assert(self.green@[v] == start.green@[v] + occurrences(g@.take(n as int), v));
                assert(self.blue@[v] == start.blue@[v] + occurrences(b@.take(n as int), v));
                assert(self.luminance@[v] == start.luminance@[v] + occurrences(lumas(r@, g@, b@).take(n as int), v));
            }
        }
    }

    /// Adds the counts of `other` bin by bin (the bands of one frame).
    pub fn merge(&mut self, other: &Histogram)
        requires
            old(self).well_formed(),
            other.well_formed(),
            forall|v: int|
                0 <= v < 256 ==> #[trigger] old(self).red@[v] + other.red@[v] <= u32::MAX
                    && old(self).green@[v] + other.green@[v] <= u32::MAX && old(self).blue@[v]
                    + other.blue@[v] <= u32::MAX && old(self).luminance@[v] + other.luminance@[v] <= u32::MAX,
        ensures
            final(self).well_formed(),
            final(self).level == old(self).level,
            final(self).generation == old(self).generation,
            forall|v: int|
                0 <= v < 256 ==> {
                    &&& #[trigger] final(self).red@[v] == old(self).red@[v] + other.red@[v]
                    &&& final(self).green@[v] == old(self).green@[v] + other.green@[v]
                    &&& final(self).blue@[v] == old(self).blue@[v] + other.blue@[v]
                    &&& final(self).luminance@[v] == old(self).luminance@[v] + other.luminance@[v]
                },
    {
        let ghost start = *self;
        let mut v: usize = 0;
        while v < 256
            invariant
                v <= 256,
                self.well_formed(),
                start.well_formed(),
                other.well_formed(),
                self.level == start.level,
                self.generation == start.generation,
                forall|k: int|
                    0 <= k < 256 ==> #[trigger] start.red@[k] + other.red@[k] <= u32::MAX
                        && start.green@[k] + other.green@[k] <= u32::MAX && start.blue@[k]
                        + other.blue@[k] <= u32::MAX && start.luminance@[k] + other.luminance@[k] <= u32::MAX,
                forall|k: int| 0 <= k < 256 ==> #[trigger] self.red@[k] == start.red@[k] + (if k < v { other.red@[k] as int } else { 0 }),
                forall|k: int| 0 <= k < 256 ==> #[trigger] self.green@[k] == start.green@[k] + (if k < v { other.green@[k] as int } else { 0 }),
                forall|k: int| 0 <= k < 256 ==> #[trigger] self.blue@[k] == start.blue@[k] + (if k < v { other.blue@[k] as int } else { 0 }),
                forall|k: int| 0 <= k < 256 ==> #[trigger] self.luminance@[k] == start.luminance@[k] + (if k < v { other.luminance@[k] as int } else { 0 }),
            decreases 256 - v,
        {
            assert(start.red@[v as int] + other.red@[v as int] <= u32::MAX);
            assert(self.green@[v as int] == start.green@[v as int]);
            assert(self.blue@[v as int] == start.blue@[v as int]);
            assert(self.luminance@[v as int] == start.luminance@[v as int]);
            let c = self.red[v] + other.red[v];
            self.red.set(v, c);
            let c = self.green[v] + other.green[v];
            self.green.set(v, c);
            let c = self.blue[v] + other.blue[v];
            self.blue.set(v, c);
            let c = self.luminance[v] + other.luminance[v];
            self.luminance.set(v, c);
            v = v + 1;
        }
        assert forall|k: int| 0 <= k < 256 implies {
            &&& #[trigger] self.red@[k] == start.red@[k] + other.red@[k]
            &&& self.green@[k] == start.green@[k] + other.green@[k]
            &&& self.blue@[k] == start.blue@[k] + other.blue@[k]
            &&& self.luminance@[k] == start.luminance@[k] + other.luminance@[k]
        } by {
            assert(self.green@[k] == start.green@[k] + other.green@[k]);
            assert(self.blue@[k] == start.blue@[k] + other.blue@[k]);
            assert(self.luminance@[k] == start.luminance@[k] + other.luminance@[k]);
        }
    }
}

proof fn lemma_occurrences_take(s: Seq<u8>, i: int)
    requires
        0 <= i < s.len(),
    ensures
        forall|v: int| #[trigger] occurrences(s.take(i + 1), v) == occurrences(s.take(i), v) + if s[i] == v { 1nat } else { 0nat },
{
    assert(s.take(i + 1).drop_last() =~= s.take(i));
    assert(s.take(i + 1).last() == s[i]);
}

proof fn lemma_occurrences_le(s: Seq<u8>, v: int)
    ensures
        occurrences(s, v) <= s.len(),
    decreases s.len(),
{
    if s.len() > 0 {
        lemma_occurrences_le(s.drop_last(), v);
    }
}

/// Occurrences of the values from `0` up to `k` (exclusive).
pub open spec fn counted_below(s: Seq<u8>, k: int) -> nat
    decreases k,
{
    if k <= 0 {
        0
    } else {
        counted_below(s, k - 1) + occurrences(s, k - 1)
    }
}

proof fn lemma_counted_push(s: Seq<u8>, x: u8, k: int)
    requires
        0 <= k <= 256,
    ensures
        counted_below(s.push(x), k) == counted_below(s, k) + if x < k { 1nat } else { 0nat },
    decreases k,
{
    if k > 0 {
        lemma_counted_push(s, x, k - 1);
        assert(s.push(x).drop_last() =~= s);
    }
}

/// Every pixel lands in exactly one bin: the bins of a channel add up to
/// the number of pixels counted.
pub proof fn every_pixel_is_counted_once(s: Seq<u8>)
    ensures
        counted_below(s, 256) == s.len(),
    decreases s.len(),
{
    if s.len() > 0 {
        every_pixel_is_counted_once(s.drop_last());
        lemma_counted_push(s.drop_last(), s.last(), 256);
        assert(s.drop_last().push(s.last()) =~= s);
    } else {
        lemma_counted_empty(s, 256);
    }
}

proof fn lemma_counted_empty(s: Seq<u8>, k: int)
    requires
        s.len() == 0,
    ensures
        counted_below(s, k) == 0,
    decreases k,
{
    if k > 0 {
        lemma_counted_empty(s, k - 1);
    }
}

} // verus!
