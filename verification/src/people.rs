//! People of a culling queue: face clusters listed most frequent first, each
//! with the queue images it appears in and its sharpest face as cover.
use vstd::prelude::*;
use vstd::string::*;
use crate::assist::{id_text, hex_digits};
use crate::text::{concat_str, u64_decimal, decimal_text};

verus! {

/// What face and quality analysis computes.
#[derive(Clone, Copy, Debug, PartialEq, Eq, Structural)]
pub struct AnalysisOptions {
    /// Classical quality (sharpness, blur, noise, exposure, clipping).
    pub quality: bool,
    /// Face detection and descriptors.
    pub faces: bool,
    /// Recompute signals that already exist.
    pub force: bool,
}

/// What an analysis call does: which analyses run, and whether it is
/// skipped.
#[derive(Clone, Copy, Debug, PartialEq, Eq, Structural)]
pub struct AnalysisPlan {
    /// Quality runs: asked, and missing or forced.
    pub quality: bool,
    /// Faces run: asked, and missing or forced.
    pub faces: bool,
    /// Nothing requested was missing, and `force` was off.
    pub skipped: bool,
}

/// What an analysis call does: quality and faces each run when asked and not
/// already there (or forced); the call is skipped when nothing it asks for
/// is missing and `force` is off.
pub fn analysis_plan(options: AnalysisOptions, have_quality: bool, have_faces: bool) -> (r: AnalysisPlan)
    ensures
        r.quality == (options.quality && (options.force || !have_quality)),
        r.faces == (options.faces && (options.force || !have_faces)),
        r.skipped == (!options.force && !(options.quality && !have_quality) && !(options.faces
            && !have_faces)),
{
    AnalysisPlan {
        quality: options.quality && (options.force || !have_quality),
        faces: options.faces && (options.force || !have_faces),
        skipped: !options.force && !(options.quality && !have_quality) && !(options.faces && !have_faces),
    }
}

/// One analysed face of the queue: its image, its ordinal among that image's
/// detections, and its sharpness as a rank (a sharper face has a higher rank,
/// equally sharp faces share one).
#[derive(Clone, Copy, Debug)]
pub struct FaceRef {
    pub image: u128,
    pub ordinal: u32,
    pub sharpness_rank: u64,
}

#[derive(Clone, Debug)]
pub struct PersonInfo {
    pub id: String,
    pub name: String,
    /// Images (queue order) in which this person appears.
    pub images: Vec<String>,
    pub faces: u32,
    /// A representative face (the sharpest).
    pub cover_image: String,
    pub cover_ordinal: u32,
}

/// A person as plain values.
pub struct PersonView {
    pub id: Seq<char>,
    pub name: Seq<char>,
    pub images: Seq<Seq<char>>,
    pub faces: u32,
    pub cover_image: Seq<char>,
    pub cover_ordinal: u32,
}

impl View for PersonInfo {
    type V = PersonView;

    open spec fn view(&self) -> PersonView {
        PersonView {
            id: self.id@,
            name: self.name@,
            images: texts(self.images@),
            faces: self.faces,
            cover_image: self.cover_image@,
            cover_ordinal: self.cover_ordinal,
        }
    }
}

fn copy_texts(v: &Vec<String>) -> (r: Vec<String>)
    ensures
        texts(r@) == texts(v@),
{
    let mut r: Vec<String> = Vec::new();
    let mut i: usize = 0;
    while i < v.len()
        invariant
            i <= v.len(),
            texts(r@) == texts(v@.take(i as int)),
        decreases v.len() - i,
    {
        let t = v[i].clone();
        let ghost before = r@;
        r.push(t);
        proof {
            assert(v@.take(i + 1) =~= v@.take(i as int).push(v@[i as int]));
            assert(texts(r@) =~= texts(before).push(t@));
            assert(texts(v@.take(i + 1)) =~= texts(v@.take(i as int)).push(v@[i as int]@));
        }
        i = i + 1;
    }
    assert(v@.take(v.len() as int) =~= v@);
    r
}

impl PersonInfo {
    /// A copy with the same values.
    pub fn duplicate(&self) -> (r: PersonInfo)
        ensures
            r@ == self@,
    {
        PersonInfo {
            id: self.id.clone(),
            name: self.name.clone(),
            images: copy_texts(&self.images),
            faces: self.faces,
            cover_image: self.cover_image.clone(),
            cover_ordinal: self.cover_ordinal,
        }
    }
}

pub open spec fn person_views(list: Seq<PersonInfo>) -> Seq<PersonView> {
    list.map_values(|p: PersonInfo| p@)
}

/// A copy of a people list with the same values.
pub fn copy_people(list: &Vec<PersonInfo>) -> (r: Vec<PersonInfo>)
    ensures
        person_views(r@) == person_views(list@),
{
    let mut r: Vec<PersonInfo> = Vec::new();
    let mut i: usize = 0;
    while i < list.len()
        invariant
            i <= list.len(),
            person_views(r@) == person_views(list@.take(i as int)),
        decreases list.len() - i,
    {
        let p = list[i].duplicate();
        let ghost before = r@;
        r.push(p);
        proof {
            assert(list@.take(i + 1) =~= list@.take(i as int).push(list@[i as int]));
            assert(person_views(r@) =~= person_views(before).push(p@));
            assert(person_views(list@.take(i + 1)) =~= person_views(list@.take(i as int)).push(list@[i as int]@));
        }
        i = i + 1;
    }
    assert(list@.take(list.len() as int) =~= list@);
    r
}

/// Session-local identities from descriptor clustering.
#[derive(Clone, Debug)]
pub struct People {
    pub list: Vec<PersonInfo>,
    /// The faces of each person of `list`, as (image, ordinal).
    pub faces_of: Vec<Vec<(u128, u32)>>,
}

/// The faces of cluster `g` as (image, ordinal).
pub open spec fn face_pairs(faces: Seq<FaceRef>, g: Seq<usize>) -> Seq<(u128, u32)> {
    g.map_values(|k: usize| (faces[k as int].image, faces[k as int].ordinal))
}

pub open spec fn pair_views(v: Seq<Vec<(u128, u32)>>) -> Seq<Seq<(u128, u32)>> {
    v.map_values(|x: Vec<(u128, u32)>| x@)
}

/// `list` and `faces_of` describe the clusters taken in one order that
/// sorts them: person `q` is made of cluster `order[q]`, and its faces are
/// that cluster's.
pub open spec fn lists_people_and_faces(
    list: Seq<PersonView>,
    faces_of: Seq<Seq<(u128, u32)>>,
    images: Seq<u128>,
    faces: Seq<FaceRef>,
    groups: Seq<Seq<usize>>,
) -> bool {
    exists|order: Seq<usize>|
        #[trigger] ordered_people(list, images, faces, groups, order) && faces_of.len()
            == order.len() && forall|q: int|
            0 <= q < order.len() ==> #[trigger] faces_of[q] == face_pairs(
                faces,
                groups[order[q] as int],
            )
}

/// Some face of cluster `g` lies in `image`.
pub open spec fn shows(faces: Seq<FaceRef>, g: Seq<usize>, image: u128) -> bool {
    exists|k: int| #![trigger g[k]] 0 <= k < g.len() && faces[g[k] as int].image == image
}

/// The queue images in which cluster `g` appears, in queue order.
pub open spec fn person_images(images: Seq<u128>, faces: Seq<FaceRef>, g: Seq<usize>) -> Seq<u128>
    decreases images.len(),
{
    if images.len() == 0 {
        Seq::empty()
    } else {
        let rest = person_images(images.drop_last(), faces, g);
        if shows(faces, g, images.last()) {
            rest.push(images.last())
        } else {
            rest
        }
    }
}

/// The faces of cluster `g` as (image, ordinal).
fn face_pairs_exec(faces: &Vec<FaceRef>, g: &Vec<usize>) -> (r: Vec<(u128, u32)>)
    requires
        forall|k: int| 0 <= k < g.len() ==> #[trigger] g@[k] < faces.len(),
    ensures
        r@ == face_pairs(faces@, g@),
{
    let mut r: Vec<(u128, u32)> = Vec::new();
    let mut k: usize = 0;
    while k < g.len()
        invariant
            k <= g.len(),
            forall|j: int| 0 <= j < g.len() ==> #[trigger] g@[j] < faces.len(),
            r@ == face_pairs(faces@, g@.take(k as int)),
        decreases g.len() - k,
    {
        let f = faces[g[k]];
        r.push((f.image, f.ordinal));
        assert(g@.take(k + 1) =~= g@.take(k as int).push(g@[k as int]));
        k = k + 1;
    }
    assert(g@.take(g.len() as int) =~= g@);
    r
}

/// The smallest face index of a cluster.
pub open spec fn seq_min(g: Seq<usize>) -> int
    decreases g.len(),
{
    if g.len() <= 1 {
        if g.len() == 0 { 0 } else { g[0] as int }
    } else {
        let m = seq_min(g.drop_last());
        if (g.last() as int) < m { g.last() as int } else { m }
    }
}

/// What orders the clusters: distinct images (more first), then the
/// smallest face index, then the clustering's own order.
pub open spec fn group_key(images: Seq<u128>, faces: Seq<FaceRef>, groups: Seq<Seq<usize>>, i: int) -> (int, int, int) {
    (person_images(images, faces, groups[i]).len() as int, seq_min(groups[i]), i)
}

pub open spec fn key_before(a: (int, int, int), b: (int, int, int)) -> bool {
    a.0 > b.0 || (a.0 == b.0 && (a.1 < b.1 || (a.1 == b.1 && a.2 < b.2)))
}

/// Face `c` is the cover of cluster `g`: the sharpest, the first of equals.
pub open spec fn is_cover(faces: Seq<FaceRef>, g: Seq<usize>, c: int) -> bool {
    &&& exists|k: int| #![trigger g[k]] 0 <= k < g.len() && g[k] == c
    &&& forall|k: int|
        0 <= k < g.len() ==> {
            let r = #[trigger] faces[g[k] as int].sharpness_rank;
            r < faces[c].sharpness_rank || (r == faces[c].sharpness_rank && c <= g[k])
        }
}

pub open spec fn texts(v: Seq<String>) -> Seq<Seq<char>> {
    v.map_values(|s: String| s@)
}

pub open spec fn id_texts(ids: Seq<u128>) -> Seq<Seq<char>> {
    ids.map_values(|x: u128| hex_digits(x as nat, 32))
}

/// `p` is the `n`-th person (from zero), made of cluster `g`.
pub open spec fn describes(p: PersonView, images: Seq<u128>, faces: Seq<FaceRef>, g: Seq<usize>, n: int) -> bool {
    &&& p.id == "person-"@ + decimal_text((n + 1) as nat)
    &&& p.name == "Person "@ + decimal_text((n + 1) as nat)
    &&& p.images == id_texts(person_images(images, faces, g))
    &&& p.faces == g.len() as u32
    &&& exists|c: int|
        #![trigger faces[c]]
        is_cover(faces, g, c) && p.cover_image == hex_digits(faces[c].image as nat, 32)
            && p.cover_ordinal == faces[c].ordinal
}

/// What clustering hands over: a queue without repeats, faces that lie in
/// queue images, and non-empty clusters of face indices.
pub open spec fn clusters_fit(images: Seq<u128>, faces: Seq<FaceRef>, groups: Seq<Seq<usize>>) -> bool {
    &&& forall|i: int, j: int| 0 <= i < j < images.len() ==> images[i] != images[j]
    &&& forall|f: int| 0 <= f < faces.len() ==> images.contains(#[trigger] faces[f].image)
    &&& forall|i: int| 0 <= i < groups.len() ==> (#[trigger] groups[i]).len() > 0
    &&& forall|i: int, k: int| 0 <= i < groups.len() && 0 <= k < groups[i].len() ==> (#[trigger] groups[i][k]) < faces.len()
}

pub open spec fn group_views(groups: Seq<Vec<usize>>) -> Seq<Seq<usize>> {
    groups.map_values(|g: Vec<usize>| g@)
}

/// `list` describes the clusters taken in `order`, which sorts them by
/// `group_key`.
pub open spec fn ordered_people(
    list: Seq<PersonView>,
    images: Seq<u128>,
    faces: Seq<FaceRef>,
    groups: Seq<Seq<usize>>,
    order: Seq<usize>,
) -> bool {
    &&& list.len() == groups.len()
    &&& order.len() == groups.len()
    &&& forall|n: int| 0 <= n < order.len() ==> #[trigger] order[n] < groups.len()
    &&& forall|n: int, m: int|
        0 <= n < m < order.len() ==> key_before(
            group_key(images, faces, groups, #[trigger] order[n] as int),
            group_key(images, faces, groups, #[trigger] order[m] as int),
        )
    &&& forall|n: int|
        0 <= n < order.len() ==> describes(#[trigger] list[n], images, faces, groups[order[n] as int], n)
}

/// The people list orders the clusters by `group_key` and describes each.
pub open spec fn lists_people(list: Seq<PersonView>, images: Seq<u128>, faces: Seq<FaceRef>, groups: Seq<Seq<usize>>) -> bool {
    exists|order: Seq<usize>| #[trigger] ordered_people(list, images, faces, groups, order)
}

fn shows_exec(faces: &Vec<FaceRef>, g: &Vec<usize>, image: u128) -> (r: bool)
    requires
        forall|k: int| 0 <= k < g.len() ==> #[trigger] g@[k] < faces.len(),
    ensures
        r == shows(faces@, g@, image),
{
    let mut k: usize = 0;
    while k < g.len()
        invariant
            k <= g.len(),
            forall|j: int| 0 <= j < g.len() ==> #[trigger] g@[j] < faces.len(),
            forall|j: int| 0 <= j < k ==> faces@[#[trigger] g@[j] as int].image != image,
        decreases g.len() - k,
    {
        if faces[g[k]].image == image {
            assert(0 <= k < g@.len() && faces@[g@[k as int] as int].image == image);
            return true;
        }
        k = k + 1;
    }
    false
}

fn images_of(images: &Vec<u128>, faces: &Vec<FaceRef>, g: &Vec<usize>) -> (r: Vec<u128>)
    requires
        forall|k: int| 0 <= k < g.len() ==> #[trigger] g@[k] < faces.len(),
    ensures
        r@ == person_images(images@, faces@, g@),
{
    let mut r: Vec<u128> = Vec::new();
    let mut i: usize = 0;
    while i < images.len()
        invariant
            i <= images.len(),
            forall|k: int| 0 <= k < g.len() ==> #[trigger] g@[k] < faces.len(),
            r@ == person_images(images@.take(i as int), faces@, g@),
        decreases images.len() - i,
    {
        let x = images[i];
        let hit = shows_exec(faces, g, x);
        proof {
            assert(images@.take(i + 1).drop_last() =~= images@.take(i as int));
            assert(images@.take(i + 1).last() == x);
        }
        if hit {
            r.push(x);
        }
        i = i + 1;
    }
    proof {
        assert(images@.take(images.len() as int) =~= images@);
    }
    r
}

fn min_of(g: &Vec<usize>) -> (r: usize)
    requires
        g.len() > 0,
    ensures
        r == seq_min(g@),
{
    let mut m = g[0];
    let mut k: usize = 1;
    proof {
        assert(g@.take(1).len() == 1);
    }
    while k < g.len()
        invariant
            1 <= k <= g.len(),
            m == seq_min(g@.take(k as int)),
        decreases g.len() - k,
    {
        proof {
            assert(g@.take(k + 1).drop_last() =~= g@.take(k as int));
            assert(g@.take(k + 1).last() == g@[k as int]);
        }
        if g[k] < m {
            m = g[k];
        }
        k = k + 1;
    }
    proof {
        assert(g@.take(g.len() as int) =~= g@);
    }
    m
}

fn cover_of(faces: &Vec<FaceRef>, g: &Vec<usize>) -> (c: usize)
    requires
        g.len() > 0,
        forall|k: int| 0 <= k < g.len() ==> #[trigger] g@[k] < faces.len(),
    ensures
        c < faces.len(),
        is_cover(faces@, g@, c as int),
{
    let mut best = g[0];
    let mut k: usize = 1;
    while k < g.len()
        invariant
            1 <= k <= g.len(),
            forall|j: int| 0 <= j < g.len() ==> #[trigger] g@[j] < faces.len(),
            best < faces.len(),
            exists|j: int| #![trigger g@[j]] 0 <= j < k && g@[j] == best,
            forall|j: int|
                0 <= j < k ==> {
                    let r = #[trigger] faces@[g@[j] as int].sharpness_rank;
                    r < faces@[best as int].sharpness_rank || (r == faces@[best as int].sharpness_rank && best <= g@[j])
                },
        decreases g.len() - k,
    {
        let f = g[k];
        let better = faces[f].sharpness_rank > faces[best].sharpness_rank
            || (faces[f].sharpness_rank == faces[best].sharpness_rank && f < best);
        if better {
            best = f;
            assert(g@[k as int] == best);
        }
        k = k + 1;
    }
    best
}

fn ranks_before(distinct_a: usize, min_a: usize, distinct_b: usize, min_b: usize) -> (r: bool)
    ensures
        r == (distinct_a > distinct_b || (distinct_a == distinct_b && min_a < min_b)),
{
    distinct_a > distinct_b || (distinct_a == distinct_b && min_a < min_b)
}

fn numbered(prefix: &str, n: u64) -> (r: String)
    ensures
        r@ == prefix@ + decimal_text(n as nat),
{
    let head = String::from_str(prefix);
    let digits = u64_decimal(n);
    concat_str(&head, digits.as_str())
}

fn id_texts_exec(ids: &Vec<u128>) -> (r: Vec<String>)
    ensures
        texts(r@) == id_texts(ids@),
{
    let mut r: Vec<String> = Vec::new();
    let mut i: usize = 0;
    while i < ids.len()
        invariant
            i <= ids.len(),
            texts(r@) == id_texts(ids@.take(i as int)),
        decreases ids.len() - i,
    {
        let t = id_text(ids[i]);
        let ghost before = r@;
        r.push(t);
        proof {
            assert(r@ == before.push(t));
            assert(ids@.take(i + 1) =~= ids@.take(i as int).push(ids@[i as int]));
            assert(texts(r@) =~= texts(before).push(t@));
            assert(id_texts(ids@.take(i + 1)) =~= id_texts(ids@.take(i as int)).push(hex_digits(ids@[i as int] as nat, 32)));
        }
        i = i + 1;
    }
    assert(ids@.take(ids.len() as int) =~= ids@);
    r
}

/// Lists the people of a queue from the clustering of its faces: clusters
/// with more distinct images first, then by smallest face index, then in
/// clustering order; person `n` (from one) is `person-n`, named `Person n`.
pub fn build_people(images: &Vec<u128>, faces: &Vec<FaceRef>, groups: &Vec<Vec<usize>>) -> (r: People)
    requires
        clusters_fit(images@, faces@, group_views(groups@)),
    ensures
        lists_people(person_views(r.list@), images@, faces@, group_views(groups@)),
        lists_people_and_faces(
            person_views(r.list@),
            pair_views(r.faces_of@),
            images@,
            faces@,
            group_views(groups@),
        ),
{
    let ghost gs = group_views(groups@);
    let m = groups.len();
    // Per cluster: its images in queue order and its key.
    let mut found: Vec<Vec<u128>> = Vec::new();
    let mut mins: Vec<usize> = Vec::new();
    let mut i: usize = 0;
    while i < m
        invariant
            m == groups.len(),
            gs == group_views(groups@),
            clusters_fit(images@, faces@, gs),
            i <= m,
            found.len() == i,
            mins.len() == i,
            forall|j: int| 0 <= j < i ==> (#[trigger] found@[j])@ == person_images(images@, faces@, gs[j]),
            forall|j: int| 0 <= j < i ==> #[trigger] mins@[j] == seq_min(gs[j]),
        decreases m - i,
    {
        let g = &groups[i];
        assert(g@ == gs[i as int]);
        assert forall|k: int| 0 <= k < g.len() implies #[trigger] g@[k] < faces.len() by {
            assert(gs[i as int][k] < faces.len());
        }
        assert(gs[i as int].len() > 0);
        let ids = images_of(images, faces, g);
        let low = min_of(g);
        found.push(ids);
        mins.push(low);
        i = i + 1;
    }
    // Insertion by cluster index keeps the order sorted by `group_key`.
    let mut order: Vec<usize> = Vec::new();
    let mut i: usize = 0;
    while i < m
        invariant
            m == groups.len(),
            found.len() == m,
            mins.len() == m,
            gs == group_views(groups@),
            forall|j: int| 0 <= j < m ==> (#[trigger] found@[j])@ == person_images(images@, faces@, gs[j]),
            forall|j: int| 0 <= j < m ==> #[trigger] mins@[j] == seq_min(gs[j]),
            i <= m,
            order.len() == i,
            forall|n: int| 0 <= n < order.len() ==> #[trigger] order@[n] < i,
            forall|n: int, q: int|
                0 <= n < q < order.len() ==> key_before(
                    group_key(images@, faces@, gs, #[trigger] order@[n] as int),
                    group_key(images@, faces@, gs, #[trigger] order@[q] as int),
                ),
        decreases m - i,
    {
        let ghost ki = group_key(images@, faces@, gs, i as int);
        let di = found[i].len();
        let mi = mins[i];
        let mut k: usize = 0;
        while k < order.len() && !ranks_before(di, mi, found[order[k]].len(), mins[order[k]])
            invariant
                gs == group_views(groups@),
                m == groups.len(),
                found.len() == m,
                mins.len() == m,
                forall|j: int| 0 <= j < m ==> (#[trigger] found@[j])@ == person_images(images@, faces@, gs[j]),
                forall|j: int| 0 <= j < m ==> #[trigger] mins@[j] == seq_min(gs[j]),
                i < m,
                ki == group_key(images@, faces@, gs, i as int),
                di == ki.0,
                mi == ki.1,
                k <= order.len(),
                forall|n: int| 0 <= n < order.len() ==> #[trigger] order@[n] < i,
                forall|n: int| 0 <= n < k ==> key_before(group_key(images@, faces@, gs, #[trigger] order@[n] as int), ki),
            decreases order.len() - k,
        {
            let ghost o = order@[k as int];
            assert(key_before(group_key(images@, faces@, gs, o as int), ki));
            k = k + 1;
        }
        let ghost before = order@;
        proof {
            if k < order.len() {
                assert(key_before(ki, group_key(images@, faces@, gs, order@[k as int] as int)));
            }
        }
        order.insert(k, i);
        proof {
            let now = order@;
            assert(now =~= before.insert(k as int, i));
            assert forall|n: int, q: int|
                0 <= n < q < now.len() implies key_before(
                    group_key(images@, faces@, gs, #[trigger] now[n] as int),
                    group_key(images@, faces@, gs, #[trigger] now[q] as int),
                ) by {
                if q < k {
                    assert(now[n] == before[n] && now[q] == before[q]);
                } else if q == k {
                    assert(now[n] == before[n]);
                } else if n < k {
                    assert(now[q] == before[q - 1] && now[n] == before[n]);
                } else if n == k {
                    assert(now[q] == before[q - 1]);
                    let kk = group_key(images@, faces@, gs, before[k as int] as int);
                    let kq = group_key(images@, faces@, gs, before[q - 1] as int);
                    if q - 1 > k {
                        assert(key_before(kk, kq));
                    }
                } else {
                    assert(now[q] == before[q - 1] && now[n] == before[n - 1]);
                }
            }
        }
        i = i + 1;
    }
    // The people, in that order.
    let mut list: Vec<PersonInfo> = Vec::new();
    let mut faces_of: Vec<Vec<(u128, u32)>> = Vec::new();
    let mut n: usize = 0;
    while n < m
        invariant
            m == groups.len(),
            gs == group_views(groups@),
            clusters_fit(images@, faces@, gs),
            found.len() == m,
            forall|j: int| 0 <= j < m ==> (#[trigger] found@[j])@ == person_images(images@, faces@, gs[j]),
            order.len() == m,
            forall|q: int| 0 <= q < order.len() ==> #[trigger] order@[q] < m,
            forall|q: int, t: int|
                0 <= q < t < order.len() ==> key_before(
                    group_key(images@, faces@, gs, #[trigger] order@[q] as int),
                    group_key(images@, faces@, gs, #[trigger] order@[t] as int),
                ),
            n <= m,
            list.len() == n,
            forall|q: int| 0 <= q < n ==> describes(#[trigger] list@[q]@, images@, faces@, gs[order@[q] as int], q),
            faces_of.len() == n,
            forall|q: int| 0 <= q < n ==> (#[trigger] faces_of@[q])@ == face_pairs(faces@, gs[order@[q] as int]),
        decreases m - n,
    {
        let o = order[n];
        let g = &groups[o];
        assert(g@ == gs[o as int]);
        assert forall|k: int| 0 <= k < g.len() implies #[trigger] g@[k] < faces.len() by {
            assert(gs[o as int][k] < faces.len());
        }
        assert(gs[o as int].len() > 0);
        let c = cover_of(faces, g);
        let count = #[verifier::truncate] (g.len() as u32);
        let p = PersonInfo {
            id: numbered("person-", (n + 1) as u64),
            name: numbered("Person ", (n + 1) as u64),
            images: id_texts_exec(&found[o]),
            faces: count,
            cover_image: id_text(faces[c].image),
            cover_ordinal: faces[c].ordinal,
        };
        assert(describes(p@, images@, faces@, gs[o as int], n as int));
        list.push(p);
        let pairs = face_pairs_exec(faces, g);
        faces_of.push(pairs);
        n = n + 1;
    }
    proof {
        assert(ordered_people(person_views(list@), images@, faces@, gs, order@)) by {
            assert forall|q: int| 0 <= q < order@.len() implies describes(#[trigger] person_views(list@)[q], images@, faces@, gs[order@[q] as int], q) by {
                assert(person_views(list@)[q] == list@[q]@);
            }
        }
        assert(forall|q: int| 0 <= q < order@.len() ==> #[trigger] pair_views(faces_of@)[q] == face_pairs(
            faces@,
            gs[order@[q] as int],
        ));
    }
    People { list, faces_of }
}

/// The faces of cluster `g` that lie in one of `images`.
pub open spec fn faces_in(faces: Seq<FaceRef>, g: Seq<usize>, images: Seq<u128>) -> nat
    decreases g.len(),
{
    if g.len() == 0 {
        0
    } else {
        faces_in(faces, g.drop_last(), images) + if images.contains(faces[g.last() as int].image) {
            1nat
        } else {
            0nat
        }
    }
}

/// The faces of cluster `g` that lie in image `x`.
pub open spec fn faces_on(faces: Seq<FaceRef>, g: Seq<usize>, x: u128) -> nat
    decreases g.len(),
{
    if g.len() == 0 {
        0
    } else {
        faces_on(faces, g.drop_last(), x) + if faces[g.last() as int].image == x {
            1nat
        } else {
            0nat
        }
    }
}

proof fn lemma_person_images_contains(images: Seq<u128>, faces: Seq<FaceRef>, g: Seq<usize>, x: u128)
    ensures
        person_images(images, faces, g).contains(x) <==> (images.contains(x) && shows(faces, g, x)),
    decreases images.len(),
{
    if images.len() > 0 {
        let front = images.drop_last();
        lemma_person_images_contains(front, faces, g, x);
        let rest = person_images(front, faces, g);
        if images.contains(x) && x != images.last() {
            let i = choose|i: int| 0 <= i < images.len() && images[i] == x;
            assert(front[i] == x);
        }
        if front.contains(x) {
            let i = choose|i: int| 0 <= i < front.len() && front[i] == x;
            assert(images[i] == x);
        }
        assert(images[images.len() - 1] == images.last());
        if shows(faces, g, images.last()) {
            let pi = rest.push(images.last());
            if rest.contains(x) {
                let i = choose|i: int| 0 <= i < rest.len() && rest[i] == x;
                assert(pi[i] == x);
            }
            if pi.contains(x) && x != images.last() {
                let i = choose|i: int| 0 <= i < pi.len() && pi[i] == x;
                assert(rest[i] == x);
            }
            assert(pi[rest.len() as int] == images.last());
        }
    }
}

proof fn lemma_faces_in_bounded(faces: Seq<FaceRef>, g: Seq<usize>, images: Seq<u128>)
    ensures
        faces_in(faces, g, images) <= g.len(),
    decreases g.len(),
{
    if g.len() > 0 {
        lemma_faces_in_bounded(faces, g.drop_last(), images);
    }
}

proof fn lemma_faces_in_push(faces: Seq<FaceRef>, g: Seq<usize>, images: Seq<u128>, x: u128)
    requires
        !images.contains(x),
    ensures
        faces_in(faces, g, images.push(x)) == faces_in(faces, g, images) + faces_on(faces, g, x),
    decreases g.len(),
{
    if g.len() > 0 {
        lemma_faces_in_push(faces, g.drop_last(), images, x);
        let y = faces[g.last() as int].image;
        if images.push(x).contains(y) && y != x {
            let i = choose|i: int| 0 <= i < images.push(x).len() && images.push(x)[i] == y;
            assert(images[i] == y);
        }
        if images.contains(y) {
            let i = choose|i: int| 0 <= i < images.len() && images[i] == y;
            assert(images.push(x)[i] == y);
        }
        assert(images.push(x)[images.len() as int] == x);
    }
}

proof fn lemma_faces_on_shown(faces: Seq<FaceRef>, g: Seq<usize>, x: u128)
    requires
        shows(faces, g, x),
    ensures
        faces_on(faces, g, x) >= 1,
    decreases g.len(),
{
    let k = choose|k: int| #![trigger g[k]] 0 <= k < g.len() && faces[g[k] as int].image == x;
    if k < g.len() - 1 {
        assert(g.drop_last()[k] == g[k]);
        lemma_faces_on_shown(faces, g.drop_last(), x);
    }
}

proof fn lemma_images_within_faces(images: Seq<u128>, faces: Seq<FaceRef>, g: Seq<usize>)
    requires
        forall|i: int, j: int| 0 <= i < j < images.len() ==> images[i] != images[j],
    ensures
        person_images(images, faces, g).len() <= faces_in(faces, g, images),
    decreases images.len(),
{
    if images.len() > 0 {
        let front = images.drop_last();
        let x = images.last();
        lemma_images_within_faces(front, faces, g);
        if front.contains(x) {
            let i = choose|i: int| 0 <= i < front.len() && front[i] == x;
            assert(images[i] == images[images.len() - 1]);
        }
        assert(front.push(x) =~= images);
        lemma_faces_in_push(faces, g, front, x);
        if shows(faces, g, x) {
            lemma_faces_on_shown(faces, g, x);
        }
    }
}

/// What the listing of people promises of each person, for a clustering
/// that fits the queue and clusters of at most `u32::MAX` faces: the images
/// are not empty, there are at least as many faces as images, the cover
/// image is one of the images, and people come most frequent first.
pub proof fn listed_people_hold_together(
    list: Seq<PersonView>,
    images: Seq<u128>,
    faces: Seq<FaceRef>,
    groups: Seq<Seq<usize>>,
)
    requires
        clusters_fit(images, faces, groups),
        lists_people(list, images, faces, groups),
        forall|i: int| 0 <= i < groups.len() ==> (#[trigger] groups[i]).len() <= u32::MAX,
    ensures
        forall|k: int|
            0 <= k < list.len() ==> {
                &&& (#[trigger] list[k]).images.len() > 0
                &&& list[k].faces >= list[k].images.len()
                &&& list[k].images.contains(list[k].cover_image)
            },
        forall|j: int, k: int|
            0 <= j < k < list.len() ==> (#[trigger] list[j]).images.len() >= (
            #[trigger] list[k]).images.len(),
{
    let order = choose|order: Seq<usize>| #[trigger] ordered_people(list, images, faces, groups, order);
    assert forall|k: int| 0 <= k < list.len() implies {
        &&& (#[trigger] list[k]).images.len() > 0
        &&& list[k].faces >= list[k].images.len()
        &&& list[k].images.contains(list[k].cover_image)
    } by {
        let g = groups[order[k] as int];
        assert(describes(list[k], images, faces, g, k));
        let pi = person_images(images, faces, g);
        assert(list[k].images.len() == pi.len());
        // non-empty: the first face's image is shown
        assert(g.len() > 0);
        let x = faces[g[0] as int].image;
        assert(g[0] < faces.len());
        assert(images.contains(x));
        assert(shows(faces, g, x));
        lemma_person_images_contains(images, faces, g, x);
        // faces >= images
        lemma_images_within_faces(images, faces, g);
        lemma_faces_in_bounded(faces, g, images);
        // the cover
        let c = choose|c: int|
            #![trigger faces[c]]
            is_cover(faces, g, c) && list[k].cover_image == hex_digits(faces[c].image as nat, 32)
                && list[k].cover_ordinal == faces[c].ordinal;
        let kk = choose|kk: int| #![trigger g[kk]] 0 <= kk < g.len() && g[kk] == c;
        assert(images.contains(faces[c].image));
        assert(shows(faces, g, faces[c].image));
        lemma_person_images_contains(images, faces, g, faces[c].image);
        let i = choose|i: int| 0 <= i < pi.len() && pi[i] == faces[c].image;
        assert(list[k].images[i] == hex_digits(pi[i] as nat, 32));
    }
    assert forall|j: int, k: int| 0 <= j < k < list.len() implies (#[trigger] list[j]).images.len() >= (
        #[trigger] list[k]).images.len() by {
        assert(describes(list[j], images, faces, groups[order[j] as int], j));
        assert(describes(list[k], images, faces, groups[order[k] as int], k));
        assert(key_before(
            group_key(images, faces, groups, order[j] as int),
            group_key(images, faces, groups, order[k] as int),
        ));
    }
}

} // verus!
