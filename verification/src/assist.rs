//! Assisted culling: people found by face clustering, dismissed
//! suggestions, and the review order of a culling queue.
use vstd::prelude::*;
use vstd::string::*;
use std::collections::BTreeSet;
use crate::ids::{BridgeError, failure, parse_id, hex_value, is_image_id, pow16, is_hex_digit, hex_digit_value};
use crate::text::push_char;
use crate::people::{People, PersonInfo, PersonView, FaceRef, build_people, copy_people, person_views, clusters_fit, group_views, lists_people, lists_people_and_faces, pair_views};

verus! {

broadcast use vstd::std_specs::btree::group_btree_axioms;

// ─────────────────────────────── identities ───────────────────────────────

pub open spec fn hex_char(d: int) -> char {
    if d < 10 {
        (48 + d) as char
    } else {
        (87 + d) as char
    }
}

/// `v` as `n` lower-case hexadecimal digits, most significant first.
pub open spec fn hex_digits(v: nat, n: nat) -> Seq<char>
    decreases n,
{
    if n == 0 {
        Seq::empty()
    } else {
        hex_digits(v / 16, (n - 1) as nat).push(hex_char((v % 16) as int))
    }
}

fn hex_char_exec(d: u8) -> (c: char)
    requires
        d < 16,
    ensures
        c == hex_char(d as int),
{
    if d < 10 {
        (48 + d) as char
    } else {
        (87 + d) as char
    }
}

/// The catalog's text for an image id: 32 lower-case hexadecimal digits.
pub fn id_text(id: u128) -> (r: String)
    ensures
        r@ == hex_digits(id as nat, 32),
{
    let mut digits: Vec<char> = Vec::new();
    let mut v = id;
    let mut k: usize = 0;
    proof {
        assert(pow16(0) == 1);
        assert(id as nat / 1 == id as nat) by (nonlinear_arith);
    }
    while k < 32
        invariant
            k <= 32,
            digits@.len() == k,
            forall|j: int| 0 <= j < k ==> #[trigger] digits@[j] == hex_digits(id as nat, 32)[31 - j],
            v as nat == id as nat / pow16(k as nat),
        decreases 32 - k,
    {
        let d = (v % 16) as u8;
        let c = hex_char_exec(d);
        proof {
            lemma_hex_digit_at(id as nat, 32, k as nat);
            lemma_pow16_step(id as nat, k as nat);
        }
        digits.push(c);
        v = v / 16;
        k = k + 1;
    }
    let mut r = String::new();
    let mut i: usize = 32;
    while i > 0
        invariant
            i <= 32,
            digits@.len() == 32,
            forall|j: int| 0 <= j < 32 ==> #[trigger] digits@[j] == hex_digits(id as nat, 32)[31 - j],
            r@ == hex_digits(id as nat, 32).take(32 - i),
        decreases i,
    {
        push_char(&mut r, digits[i - 1]);
        proof {
            lemma_hex_digits_len(id as nat, 32);
            assert(hex_digits(id as nat, 32).take(32 - i + 1) =~= hex_digits(id as nat, 32).take(32 - i).push(
                hex_digits(id as nat, 32)[32 - i],
            ));
        }
        i = i - 1;
    }
    proof {
        lemma_hex_digits_len(id as nat, 32);
        assert(hex_digits(id as nat, 32).take(32) =~= hex_digits(id as nat, 32));
    }
    r
}

proof fn lemma_hex_digits_len(v: nat, n: nat)
    ensures
        hex_digits(v, n).len() == n,
    decreases n,
{
    if n > 0 {
        lemma_hex_digits_len(v / 16, (n - 1) as nat);
    }
}

proof fn lemma_pow16_pos(k: nat)
    ensures
        pow16(k) >= 1,
    decreases k,
{
    if k > 0 {
        lemma_pow16_pos((k - 1) as nat);
    }
}

proof fn lemma_pow16_step(v: nat, k: nat)
    ensures
        v / pow16(k) / 16 == v / pow16(k + 1),
{
    lemma_pow16_pos(k);
    let p = pow16(k);
    assert(pow16(k + 1) == 16 * p);
    vstd::arithmetic::div_mod::lemma_div_denominator(v as int, p as int, 16);
    assert(p * 16 == 16 * p) by (nonlinear_arith);
}

/// Digit `k` from the right of `hex_digits(v, n)` is `(v / 16^k) % 16`.
proof fn lemma_hex_digit_at(v: nat, n: nat, k: nat)
    requires
        k < n,
    ensures
        hex_digits(v, n)[n - 1 - k] == hex_char(((v / pow16(k)) % 16) as int),
    decreases n,
{
    lemma_hex_digits_len(v / 16, (n - 1) as nat);
    if k == 0 {
        assert(pow16(0) == 1);
        assert(v / 1 == v) by (nonlinear_arith);
    } else {
        lemma_hex_digit_at(v / 16, (n - 1) as nat, (k - 1) as nat);
        lemma_pow16_step(v, 0);
        assert(pow16(0) == 1);
        assert(v / 1 == v) by (nonlinear_arith);
        lemma_div_chain(v, (k - 1) as nat);
    }
}

/// `v / 16 / 16^k == v / 16^(k+1)`.
proof fn lemma_div_chain(v: nat, k: nat)
    ensures
        v / 16 / pow16(k) == v / pow16(k + 1),
{
    lemma_pow16_pos(k);
    let p = pow16(k);
    assert(pow16(k + 1) == 16 * p);
    vstd::arithmetic::div_mod::lemma_div_denominator(v as int, 16, p as int);
}

proof fn lemma_hex_char_byte(d: int)
    requires
        0 <= d < 16,
    ensures
        is_hex_digit(hex_char(d) as u8),
        hex_digit_value(hex_char(d) as u8) == d,
        (hex_char(d) as u8) as char == hex_char(d),
{
    if d < 10 {
        assert((48 + d) as char as u8 == 48 + d);
    } else {
        assert((87 + d) as char as u8 == 87 + d);
    }
}

proof fn lemma_hex_digits_value(v: nat, n: nat)
    ensures
        ({
            let b = hex_digits(v, n).map_values(|c: char| c as u8);
            &&& forall|i: int| 0 <= i < b.len() ==> is_hex_digit(#[trigger] b[i])
            &&& hex_value(b) == v % pow16(n)
        }),
    decreases n,
{
    lemma_hex_digits_len(v, n);
    let b = hex_digits(v, n).map_values(|c: char| c as u8);
    if n == 0 {
        assert(pow16(0) == 1);
        assert(v % 1 == 0) by (nonlinear_arith);
    } else {
        lemma_hex_digits_value(v / 16, (n - 1) as nat);
        lemma_hex_digits_len(v / 16, (n - 1) as nat);
        let p = hex_digits(v / 16, (n - 1) as nat).map_values(|c: char| c as u8);
        assert(b.drop_last() =~= p);
        let d = (v % 16) as int;
        assert(b.last() == hex_char(d) as u8);
        lemma_hex_char_byte(d);
        assert(hex_digit_value(b.last()) == d);
        assert forall|i: int| 0 <= i < b.len() implies is_hex_digit(#[trigger] b[i]) by {
            if i < b.len() - 1 {
                assert(b[i] == p[i]);
            }
        }
        lemma_pow16_pos((n - 1) as nat);
        vstd::arithmetic::div_mod::lemma_breakdown(v as int, 16, pow16((n - 1) as nat) as int);
        assert(pow16(n) == 16 * pow16((n - 1) as nat));
        assert(hex_value(b) == hex_value(p) * 16 + d);
        assert(16 * ((v / 16) % pow16((n - 1) as nat)) == ((v / 16) % pow16((n - 1) as nat)) * 16) by (nonlinear_arith);
    }
}

proof fn lemma_hex_digits_ascii(v: nat, n: nat)
    ensures
        forall|i: int| 0 <= i < hex_digits(v, n).len() ==> '\0' <= #[trigger] hex_digits(v, n)[i] <= '\u{7f}',
    decreases n,
{
    if n > 0 {
        lemma_hex_digits_ascii(v / 16, (n - 1) as nat);
        lemma_hex_digits_len(v / 16, (n - 1) as nat);
        let p = hex_digits(v / 16, (n - 1) as nat);
        let t = hex_digits(v, n);
        assert forall|i: int| 0 <= i < t.len() implies '\0' <= #[trigger] t[i] <= '\u{7f}' by {
            if i < t.len() - 1 {
                assert(t[i] == p[i]);
            }
        }
    }
}

/// The catalog's text of an image id parses back to the same id: a valid
/// id of 32 hexadecimal digits with that value.
pub proof fn image_id_text_round_trip(id: u128)
    ensures
        is_image_id(vstd::utf8::encode_utf8(hex_digits(id as nat, 32))),
        hex_value(vstd::utf8::encode_utf8(hex_digits(id as nat, 32))) == id,
{
    let t = hex_digits(id as nat, 32);
    lemma_hex_digits_len(id as nat, 32);
    lemma_hex_digits_value(id as nat, 32);
    lemma_hex_digits_ascii(id as nat, 32);
    vstd::utf8::is_ascii_chars_encode_utf8(t);
    assert(vstd::utf8::encode_utf8(t) =~= t.map_values(|c: char| c as u8));
    crate::ids::lemma_pow16_32();
    assert(id as nat % pow16(32) == id as nat) by (nonlinear_arith)
        requires
            pow16(32) == 0x1_0000_0000_0000_0000_0000_0000_0000_0000,
            id as nat <= 0xffff_ffff_ffff_ffff_ffff_ffff_ffff_ffff,
    ;
}

// ─────────────────────────────── library key ───────────────────────────────

/// The BLAKE3 digest (32 bytes) of `data`.
pub uninterp spec fn blake3_digest(data: Seq<u8>) -> Seq<u8>;

/// `blake3::hash`: the 32-byte digest of `data`.
#[verifier::external_body]
fn blake3_hash(data: &[u8]) -> (r: Vec<u8>)
    ensures
        r@ == blake3_digest(data@),
        r@.len() == 32,
{
    blake3::hash(data).as_bytes().to_vec()
}

/// Lower-case hexadecimal of bytes, two digits per byte (`Hash::to_hex`).
pub open spec fn bytes_hex(b: Seq<u8>) -> Seq<char>
    decreases b.len(),
{
    if b.len() == 0 {
        Seq::empty()
    } else {
        bytes_hex(b.drop_last()) + seq![hex_char(b.last() as int / 16), hex_char(b.last() as int % 16)]
    }
}

/// Stable, bounded learner/profile key for a library folder: `folder-` and
/// the first 32 hexadecimal digits of the folder path's BLAKE3 digest; a
/// query library is `query`.
pub open spec fn library_key_of(folder: Option<Seq<u8>>) -> Seq<char> {
    match folder {
        Some(p) => "folder-"@ + bytes_hex(blake3_digest(p)).take(32),
        None => "query"@,
    }
}

proof fn lemma_bytes_hex_len(b: Seq<u8>)
    ensures
        bytes_hex(b).len() == 2 * b.len(),
    decreases b.len(),
{
    if b.len() > 0 {
        lemma_bytes_hex_len(b.drop_last());
    }
}

pub fn library_key(folder: Option<&str>) -> (r: String)
    ensures
        r@ == library_key_of(
            match folder {
                Some(p) => Some(p.spec_bytes()),
                None => None,
            },
        ),
{
    match folder {
        None => String::from_str("query"),
        Some(path) => {
            let digest = blake3_hash(path.as_bytes());
            let mut out = String::from_str("folder-");
            let ghost head = out@;
            let mut i: usize = 0;
            while i < 16
                invariant
                    i <= 16,
                    digest@.len() == 32,
                    out@ == head + bytes_hex(digest@.take(i as int)),
                decreases 16 - i,
            {
                let b = digest[i];
                push_char(&mut out, hex_char_exec(b / 16));
                push_char(&mut out, hex_char_exec(b % 16));
                proof {
                    assert(digest@.take(i + 1).drop_last() =~= digest@.take(i as int));
                    assert(digest@.take(i + 1).last() == b);
                    assert(out@ =~= head + bytes_hex(digest@.take(i + 1)));
                }
                i = i + 1;
            }
            proof {
                assert(digest@ =~= digest@.take(16) + digest@.skip(16));
                lemma_bytes_hex_concat(digest@.take(16), digest@.skip(16));
                lemma_bytes_hex_len(digest@.take(16));
                assert(bytes_hex(digest@).take(32) =~= bytes_hex(digest@.take(16)));
            }
            out
        },
    }
}

proof fn lemma_bytes_hex_concat(a: Seq<u8>, b: Seq<u8>)
    ensures
        bytes_hex(a + b) == bytes_hex(a) + bytes_hex(b),
    decreases b.len(),
{
    if b.len() == 0 {
        assert(a + b =~= a);
        assert(bytes_hex(a) + Seq::<char>::empty() =~= bytes_hex(a));
    } else {
        assert((a + b).drop_last() =~= a + b.drop_last());
        assert((a + b).last() == b.last());
        lemma_bytes_hex_concat(a, b.drop_last());
        assert(bytes_hex(a) + bytes_hex(b.drop_last()) + seq![hex_char(b.last() as int / 16), hex_char(b.last() as int % 16)]
            =~= bytes_hex(a) + bytes_hex(b));
    }
}

// ─────────────────────────────── session ───────────────────────────────

/// Whether `ids` has no repeats.
pub open spec fn distinct(ids: Seq<u128>) -> bool {
    forall|i: int, j: int| 0 <= i < j < ids.len() ==> ids[i] != ids[j]
}

/// `order` holds exactly the images of `queue`, each once.
pub open spec fn reorders(order: Seq<u128>, queue: Seq<u128>) -> bool {
    &&& order.len() == queue.len()
    &&& distinct(order)
    &&& forall|x: u128| order.contains(x) <==> queue.contains(x)
}

/// The texts of several ids parse, each as its number; `None` when one
/// does not.
pub open spec fn parsed_ids(texts: Seq<Seq<u8>>) -> Option<Seq<u128>> {
    if forall|i: int| 0 <= i < texts.len() ==> is_image_id(#[trigger] texts[i]) {
        Some(texts.map_values(|t: Seq<u8>| hex_value(t) as u128))
    } else {
        None
    }
}

pub open spec fn byte_texts(v: Seq<String>) -> Seq<Seq<u8>> {
    v.map_values(|s: String| vstd::utf8::encode_utf8(s@))
}

/// Whether a confirmation of `ids` is refused, and with which message.
pub open spec fn confirmation_refusal(dismissed: Set<u128>, plan: Option<Seq<u128>>, ids: Seq<u128>) -> Option<Seq<char>> {
    if exists|i: int| 0 <= i < ids.len() && dismissed.contains(#[trigger] ids[i]) {
        Some("a dismissed suggestion cannot be confirmed"@)
    } else if plan is None {
        Some("call review() first"@)
    } else {
        None
    }
}

/// The first of `faces_of` holding `face`.
fn first_with_face(faces_of: &Vec<Vec<(u128, u32)>>, face: (u128, u32)) -> (r: Option<usize>)
    ensures
        match r {
            Some(q) => q < faces_of@.len() && pair_views(faces_of@)[q as int].contains(face)
                && forall|p: int| 0 <= p < q ==> !(#[trigger] pair_views(faces_of@)[p]).contains(face),
            None => forall|q: int|
                0 <= q < faces_of@.len() ==> !(#[trigger] pair_views(faces_of@)[q]).contains(face),
        },
{
    let ghost refs = pair_views(faces_of@);
    let mut q: usize = 0;
    while q < faces_of.len()
        invariant
            q <= faces_of@.len(),
            refs == pair_views(faces_of@),
            forall|j: int| 0 <= j < q ==> !(#[trigger] refs[j]).contains(face),
        decreases faces_of.len() - q,
    {
        let fs = &faces_of[q];
        assert(refs[q as int] == fs@);
        let mut k: usize = 0;
        while k < fs.len()
            invariant
                k <= fs@.len(),
                q < faces_of@.len(),
                refs == pair_views(faces_of@),
                refs[q as int] == fs@,
                forall|j: int| 0 <= j < q ==> !(#[trigger] refs[j]).contains(face),
                forall|j: int| 0 <= j < k ==> #[trigger] fs@[j] != face,
            decreases fs.len() - k,
        {
            if fs[k].0 == face.0 && fs[k].1 == face.1 {
                assert(fs@[k as int] == face);
                assert(refs[q as int].contains(face));
                return Some(q);
            }
            k = k + 1;
        }
        q = q + 1;
    }
    None
}

/// Person `q` is the first of the people with `face`, and `id` is its id.
pub open spec fn owns_face(
    list: Seq<PersonView>,
    refs: Seq<Seq<(u128, u32)>>,
    face: (u128, u32),
    q: int,
    id: Seq<char>,
) -> bool {
    &&& 0 <= q < refs.len()
    &&& q < list.len()
    &&& refs[q].contains(face)
    &&& id == list[q].id
    &&& forall|p: int| 0 <= p < q ==> !(#[trigger] refs[p]).contains(face)
}

/// The assisted-culling state of a session: its queue (navigation order),
/// the order of the last review, dismissed suggestions, and the people
/// found in the queue.
pub struct CullSession {
    images: Vec<u128>,
    plan: Option<Vec<u128>>,
    dismissed: BTreeSet<u128>,
    people: Option<People>,
    /// The queue, faces and clusters the people were listed from.
    source: Ghost<Option<(Seq<u128>, Seq<FaceRef>, Seq<Seq<usize>>)>>,
}

impl CullSession {
    pub closed spec fn queue(self) -> Seq<u128> {
        self.images@
    }

    pub closed spec fn review_plan(self) -> Option<Seq<u128>> {
        match self.plan {
            Some(p) => Some(p@),
            None => None,
        }
    }

    pub closed spec fn dismissed_ids(self) -> Set<u128> {
        self.dismissed@
    }

    pub closed spec fn known_people(self) -> Option<Seq<PersonView>> {
        match self.people {
            Some(p) => Some(person_views(p.list@)),
            None => None,
        }
    }

    /// The queue, faces and clusters that the known people were listed
    /// from, when there are known people.
    pub closed spec fn people_source(self) -> Option<(Seq<u128>, Seq<FaceRef>, Seq<Seq<usize>>)> {
        self.source@
    }

    /// A queue holds each image once; a review plan holds the queue's
    /// images; the known people are the listing of their clustering.
    #[verifier::type_invariant]
    spec fn well_formed(self) -> bool {
        &&& distinct(self.images@)
        &&& self.plan matches Some(p) ==> reorders(p@, self.images@)
        &&& self.people matches Some(p) ==> (self.source@ matches Some((q, f, g)) && clusters_fit(
            q,
            f,
            g,
        ) && lists_people(person_views(p.list@), q, f, g) && lists_people_and_faces(
            person_views(p.list@),
            pair_views(p.faces_of@),
            q,
            f,
            g,
        ))
    }

    /// The faces of each known person, as (image, ordinal).
    pub closed spec fn known_faces(self) -> Option<Seq<Seq<(u128, u32)>>> {
        match self.people {
            Some(p) => Some(pair_views(p.faces_of@)),
            None => None,
        }
    }

    /// A session over `images`, with nothing reviewed, dismissed or
    /// clustered; `None` when an image occurs twice.
    pub fn for_queue(images: Vec<u128>) -> (r: Option<CullSession>)
        ensures
            r is Some <==> distinct(images@),
            r matches Some(s) ==> {
                &&& s.queue() == images@
                &&& s.review_plan() is None
                &&& s.dismissed_ids() == Set::<u128>::empty()
                &&& s.known_people() is None
                &&& s.people_source() is None
            },
    {
        if !no_repeats(&images) {
            return None;
        }
        Some(CullSession { images, plan: None, dismissed: BTreeSet::new(), people: None, source: Ghost(None) })
    }

    /// The queue's image ids, in navigation order.
    pub fn queue_ids(&self) -> (r: Vec<String>)
        ensures
            crate::people::texts(r@) == crate::people::id_texts(self.queue()),
    {
        id_strings(&self.images)
    }

    /// People in this queue, most frequent first; `refresh` forgets the
    /// clustering. `None` while the queue has not been clustered since.
    pub fn people(&mut self, refresh: bool) -> (r: Option<Vec<PersonInfo>>)
        ensures
            final(self).known_people() == (if refresh { None } else { old(self).known_people() }),
            final(self).known_faces() == (if refresh { None } else { old(self).known_faces() }),
            final(self).queue() == old(self).queue(),
            final(self).review_plan() == old(self).review_plan(),
            final(self).dismissed_ids() == old(self).dismissed_ids(),
            final(self).people_source() == old(self).people_source(),
            match r {
                Some(list) => {
                    &&& final(self).known_people() == Some(person_views(list@))
                    &&& final(self).people_source() matches Some((q, f, g))
                    &&& clusters_fit(q, f, g)
                    &&& lists_people(person_views(list@), q, f, g)
                    &&& final(self).known_faces() matches Some(refs)
                    &&& lists_people_and_faces(person_views(list@), refs, q, f, g)
                },
                None => final(self).known_people() is None,
            },
    {
        proof {
            use_type_invariant(&*self);
        }
        if refresh {
            self.people = None;
        }
        match &self.people {
            Some(p) => Some(copy_people(&p.list)),
            None => None,
        }
    }

    /// The id of the first known person with face `ordinal` of `image`;
    /// `None` when no known person has it (or nothing is clustered).
    pub fn person_of_face(&self, image: u128, ordinal: u32) -> (r: Option<String>)
        ensures
            r is Some ==> self.known_people() is Some && self.known_faces() is Some && exists|q: int|
                #[trigger] owns_face(
                    self.known_people()->Some_0,
                    self.known_faces()->Some_0,
                    (image, ordinal),
                    q,
                    r->Some_0@,
                ),
            r is None ==> (self.known_faces() matches Some(refs) ==> forall|q: int|
                0 <= q < refs.len() ==> !(#[trigger] refs[q]).contains((image, ordinal))),
    {
        proof {
            use_type_invariant(self);
        }
        match &self.people {
            None => None,
            Some(p) => {
                assert(p.list@.len() == p.faces_of@.len());
                match first_with_face(&p.faces_of, (image, ordinal)) {
                    None => None,
                    Some(q) => {
                        let id = p.list[q].id.clone();
                        proof {
                            assert(person_views(p.list@)[q as int] == p.list@[q as int]@);
                            assert(self.known_people()->Some_0 == person_views(p.list@));
                            assert(self.known_faces()->Some_0 == pair_views(p.faces_of@));
                            assert(owns_face(
                                person_views(p.list@),
                                pair_views(p.faces_of@),
                                (image, ordinal),
                                q as int,
                                id@,
                            ));
                        }
                        let res = Some(id);
                        proof {
                            assert(owns_face(
                                self.known_people()->Some_0,
                                self.known_faces()->Some_0,
                                (image, ordinal),
                                q as int,
                                res->Some_0@,
                            ));
                        }
                        res
                    },
                }
            },
        }
    }

    /// Records the people of the queue from a clustering of its faces and
    /// returns them; `None`, with nothing recorded, when a face lies outside
    /// the queue or a cluster is empty or names a face that does not exist.
    pub fn cluster_people(&mut self, faces: &Vec<FaceRef>, groups: &Vec<Vec<usize>>) -> (r: Option<Vec<PersonInfo>>)
        ensures
            final(self).queue() == old(self).queue(),
            final(self).review_plan() == old(self).review_plan(),
            final(self).dismissed_ids() == old(self).dismissed_ids(),
            r is Some <==> clusters_fit(old(self).queue(), faces@, group_views(groups@)),
            match r {
                Some(list) => {
                    &&& final(self).known_people() == Some(person_views(list@))
                    &&& final(self).people_source() == Some(
                        (old(self).queue(), faces@, group_views(groups@)),
                    )
                    &&& lists_people(person_views(list@), old(self).queue(), faces@, group_views(groups@))
                    &&& final(self).known_faces() matches Some(refs)
                    &&& lists_people_and_faces(
                        person_views(list@),
                        refs,
                        old(self).queue(),
                        faces@,
                        group_views(groups@),
                    )
                },
                None => {
                    &&& final(self).known_people() == old(self).known_people()
                    &&& final(self).known_faces() == old(self).known_faces()
                    &&& final(self).people_source() == old(self).people_source()
                },
            },
    {
        proof {
            use_type_invariant(&*self);
        }
        if !fits(&self.images, faces, groups) {
            return None;
        }
        let found = build_people(&self.images, faces, groups);
        let list = copy_people(&found.list);
        self.people = None;
        self.source = Ghost(Some((self.images@, faces@, group_views(groups@))));
        self.people = Some(found);
        Some(list)
    }

    /// Remembers the order of a review; `false`, with nothing recorded,
    /// unless it holds exactly the queue's images.
    pub fn record_review(&mut self, order: Vec<u128>) -> (r: bool)
        ensures
            r == reorders(order@, old(self).queue()),
            final(self).review_plan() == (if r { Some(order@) } else { old(self).review_plan() }),
            final(self).queue() == old(self).queue(),
            final(self).dismissed_ids() == old(self).dismissed_ids(),
            final(self).known_people() == old(self).known_people(),
            final(self).known_faces() == old(self).known_faces(),
            final(self).people_source() == old(self).people_source(),
    {
        proof {
            use_type_invariant(&*self);
        }
        if !same_images(&order, &self.images) {
            return false;
        }
        self.plan = Some(order);
        true
    }

    /// Decisions change the queue's before-states: any plan is stale.
    pub fn invalidate(&mut self)
        ensures
            final(self).review_plan() is None,
            final(self).queue() == old(self).queue(),
            final(self).dismissed_ids() == old(self).dismissed_ids(),
            final(self).known_people() == old(self).known_people(),
            final(self).known_faces() == old(self).known_faces(),
            final(self).people_source() == old(self).people_source(),
    {
        proof {
            use_type_invariant(&*self);
        }
        self.plan = None;
    }

    /// Switching assistance forgets the plan and every dismissal.
    pub fn switch_assistance(&mut self)
        ensures
            final(self).review_plan() is None,
            final(self).dismissed_ids() == Set::<u128>::empty(),
            final(self).queue() == old(self).queue(),
            final(self).known_people() == old(self).known_people(),
            final(self).known_faces() == old(self).known_faces(),
            final(self).people_source() == old(self).people_source(),
    {
        proof {
            use_type_invariant(&*self);
        }
        self.plan = None;
        self.dismissed = BTreeSet::new();
    }

    /// Whether the review still shows the suggestion for `image`.
    pub fn suggestion_shown(&self, image: u128) -> (r: bool)
        ensures
            r == !self.dismissed_ids().contains(image),
    {
        !self.dismissed.contains(&image)
    }

    /// Reorders the review queue by the last review (navigation order only).
    /// Returns the new order.
    pub fn reorder_queue(&mut self) -> (r: Result<Vec<String>, BridgeError>)
        ensures
            old(self).review_plan() is None <==> r is Err,
            match r {
                Ok(ids) => {
                    &&& final(self).queue() == old(self).review_plan()->Some_0
                    &&& crate::people::texts(ids@) == crate::people::id_texts(final(self).queue())
                    &&& reorders(final(self).queue(), old(self).queue())
                    &&& final(self).review_plan() == old(self).review_plan()
                },
                Err(e) => {
                    &&& e.message() == "call review() first"@
                    &&& final(self).queue() == old(self).queue()
                    &&& final(self).review_plan() == old(self).review_plan()
                },
            },
            final(self).dismissed_ids() == old(self).dismissed_ids(),
            final(self).known_people() == old(self).known_people(),
            final(self).known_faces() == old(self).known_faces(),
            final(self).people_source() == old(self).people_source(),
    {
        proof {
            use_type_invariant(&*self);
        }
        let order = match &self.plan {
            Some(p) => p.clone(),
            None => return Err(failure("call review() first")),
        };
        proof {
            lemma_reorders_symmetric(order@, self.images@);
        }
        self.images = order;
        Ok(id_strings(&self.images))
    }

    /// Rejects (dismisses) suggestions: they stop showing and cannot be
    /// confirmed until assistance is switched again. Nothing changes when an
    /// id is malformed.
    pub fn dismiss_suggestions(&mut self, image_ids: Vec<String>) -> (r: Result<(), BridgeError>)
        ensures
            r is Ok <==> parsed_ids(byte_texts(image_ids@)) is Some,
            match parsed_ids(byte_texts(image_ids@)) {
                Some(ids) => final(self).dismissed_ids() == old(self).dismissed_ids() + ids.to_set(),
                None => {
                    &&& r->Err_0.message() == "image_id must contain 32 hexadecimal characters"@
                    &&& final(self).dismissed_ids() == old(self).dismissed_ids()
                },
            },
            final(self).queue() == old(self).queue(),
            final(self).review_plan() == old(self).review_plan(),
            final(self).known_people() == old(self).known_people(),
            final(self).known_faces() == old(self).known_faces(),
            final(self).people_source() == old(self).people_source(),
    {
        proof {
            use_type_invariant(&*self);
        }
        let ids = match parse_ids(&image_ids) {
            Ok(ids) => ids,
            Err(e) => return Err(e),
        };
        let ghost before = self.dismissed@;
        let mut all = self.dismissed.clone();
        let mut i: usize = 0;
        while i < ids.len()
            invariant
                i <= ids.len(),
                all@ == before + ids@.take(i as int).to_set(),
            decreases ids.len() - i,
        {
            all.insert(ids[i]);
            proof {
                assert(ids@.take(i + 1) =~= ids@.take(i as int).push(ids@[i as int]));
                ids@.take(i as int).lemma_push_to_set_commute(ids@[i as int]);
                assert(all@ =~= before + ids@.take(i + 1).to_set());
            }
            i = i + 1;
        }
        proof {
            assert(ids@.take(ids.len() as int) =~= ids@);
        }
        self.dismissed = all;
        Ok(())
    }

    /// What confirming suggestions needs before anything is written: the
    /// parsed ids and the last review's order, which is used up. Refused,
    /// with nothing changed, when an id is malformed, one was dismissed, or
    /// nothing was reviewed.
    pub fn take_confirmation(&mut self, image_ids: &Vec<String>) -> (r: Result<(Vec<u128>, Vec<u128>), BridgeError>)
        ensures
            match parsed_ids(byte_texts(image_ids@)) {
                None => {
                    &&& r is Err
                    &&& r->Err_0.message() == "image_id must contain 32 hexadecimal characters"@
                    &&& final(self).review_plan() == old(self).review_plan()
                },
                Some(ids) => match confirmation_refusal(old(self).dismissed_ids(), old(self).review_plan(), ids) {
                    Some(message) => {
                        &&& r is Err
                        &&& r->Err_0.message() == message
                        &&& final(self).review_plan() == old(self).review_plan()
                    },
                    None => {
                        &&& r matches Ok((got, plan)) && got@ == ids && Some(plan@) == old(self).review_plan()
                        &&& final(self).review_plan() is None
                    },
                },
            },
            final(self).queue() == old(self).queue(),
            final(self).dismissed_ids() == old(self).dismissed_ids(),
            final(self).known_people() == old(self).known_people(),
            final(self).known_faces() == old(self).known_faces(),
            final(self).people_source() == old(self).people_source(),
    {
        proof {
            use_type_invariant(&*self);
        }
        let ids = match parse_ids(image_ids) {
            Ok(ids) => ids,
            Err(e) => return Err(e),
        };
        assert(parsed_ids(byte_texts(image_ids@)) == Some(ids@));
        let mut i: usize = 0;
        while i < ids.len()
            invariant
                i <= ids.len(),
                parsed_ids(byte_texts(image_ids@)) == Some(ids@),
                forall|j: int| 0 <= j < i ==> !self.dismissed@.contains(#[trigger] ids@[j]),
            decreases ids.len() - i,
        {
            if self.dismissed.contains(&ids[i]) {
                assert(self.dismissed@.contains(ids@[i as int]));
                assert(confirmation_refusal(self.dismissed@, self.review_plan(), ids@) == Some("a dismissed suggestion cannot be confirmed"@));
                return Err(failure("a dismissed suggestion cannot be confirmed"));
            }
            i = i + 1;
        }
        let plan = match &self.plan {
            Some(p) => p.clone(),
            None => return Err(failure("call review() first")),
        };
        self.plan = None;
        Ok((ids, plan))
    }
}

proof fn lemma_reorders_symmetric(a: Seq<u128>, b: Seq<u128>)
    requires
        reorders(a, b),
        distinct(b),
    ensures
        reorders(b, a),
{
}

fn no_repeats(ids: &Vec<u128>) -> (r: bool)
    ensures
        r == distinct(ids@),
{
    let mut i: usize = 0;
    while i < ids.len()
        invariant
            i <= ids.len(),
            forall|a: int, b: int| 0 <= a < b < ids.len() && a < i ==> ids@[a] != ids@[b],
        decreases ids.len() - i,
    {
        let mut j: usize = i + 1;
        while j < ids.len()
            invariant
                i < j <= ids.len(),
                forall|a: int, b: int| 0 <= a < b < ids.len() && a < i ==> ids@[a] != ids@[b],
                forall|b: int| i < b < j ==> ids@[i as int] != ids@[b],
            decreases ids.len() - j,
        {
            if ids[i] == ids[j] {
                return false;
            }
            j = j + 1;
        }
        i = i + 1;
    }
    true
}

fn contains_id(ids: &Vec<u128>, x: u128) -> (r: bool)
    ensures
        r == ids@.contains(x),
{
    let mut i: usize = 0;
    while i < ids.len()
        invariant
            i <= ids.len(),
            forall|j: int| 0 <= j < i ==> ids@[j] != x,
        decreases ids.len() - i,
    {
        if ids[i] == x {
            assert(ids@[i as int] == x);
            return true;
        }
        i = i + 1;
    }
    false
}

/// Whether `order` holds exactly the images of `queue`.
fn same_images(order: &Vec<u128>, queue: &Vec<u128>) -> (r: bool)
    ensures
        r == reorders(order@, queue@),
{
    if order.len() != queue.len() || !no_repeats(order) {
        return false;
    }
    let mut i: usize = 0;
    while i < order.len()
        invariant
            i <= order.len(),
            forall|j: int| 0 <= j < i ==> queue@.contains(#[trigger] order@[j]),
        decreases order.len() - i,
    {
        if !contains_id(queue, order[i]) {
            return false;
        }
        i = i + 1;
    }
    let mut k: usize = 0;
    while k < queue.len()
        invariant
            k <= queue.len(),
            forall|j: int| 0 <= j < order.len() ==> queue@.contains(#[trigger] order@[j]),
            forall|j: int| 0 <= j < k ==> order@.contains(#[trigger] queue@[j]),
        decreases queue.len() - k,
    {
        if !contains_id(order, queue[k]) {
            return false;
        }
        k = k + 1;
    }
    proof {
        assert forall|x: u128| order@.contains(x) <==> queue@.contains(x) by {
            if order@.contains(x) {
                let j = choose|j: int| 0 <= j < order@.len() && order@[j] == x;
                assert(queue@.contains(order@[j]));
            }
            if queue@.contains(x) {
                let j = choose|j: int| 0 <= j < queue@.len() && queue@[j] == x;
                assert(order@.contains(queue@[j]));
            }
        }
    }
    true
}

/// Whether a clustering fits the queue `images` (which has no repeats).
fn fits(images: &Vec<u128>, faces: &Vec<FaceRef>, groups: &Vec<Vec<usize>>) -> (r: bool)
    requires
        distinct(images@),
    ensures
        r == clusters_fit(images@, faces@, group_views(groups@)),
{
    let ghost gs = group_views(groups@);
    let mut f: usize = 0;
    while f < faces.len()
        invariant
            f <= faces.len(),
            forall|j: int| 0 <= j < f ==> images@.contains(#[trigger] faces@[j].image),
        decreases faces.len() - f,
    {
        if !contains_id(images, faces[f].image) {
            return false;
        }
        f = f + 1;
    }
    let mut i: usize = 0;
    while i < groups.len()
        invariant
            i <= groups.len(),
            gs == group_views(groups@),
            forall|j: int| 0 <= j < i ==> (#[trigger] gs[j]).len() > 0,
            forall|j: int, k: int| 0 <= j < i && 0 <= k < gs[j].len() ==> (#[trigger] gs[j][k]) < faces.len(),
        decreases groups.len() - i,
    {
        let g = &groups[i];
        assert(g@ == gs[i as int]);
        if g.len() == 0 {
            return false;
        }
        let mut k: usize = 0;
        while k < g.len()
            invariant
                k <= g.len(),
                i < groups.len(),
                gs == group_views(groups@),
                g@ == gs[i as int],
                forall|t: int| 0 <= t < k ==> #[trigger] g@[t] < faces.len(),
            decreases g.len() - k,
        {
            if g[k] >= faces.len() {
                assert(gs[i as int][k as int] >= faces.len());
                return false;
            }
            k = k + 1;
        }
        i = i + 1;
    }
    true
}

/// The texts of ids, in order.
fn id_strings(ids: &Vec<u128>) -> (r: Vec<String>)
    ensures
        crate::people::texts(r@) == crate::people::id_texts(ids@),
{
    let mut r: Vec<String> = Vec::new();
    let mut i: usize = 0;
    while i < ids.len()
        invariant
            i <= ids.len(),
            crate::people::texts(r@) == crate::people::id_texts(ids@.take(i as int)),
        decreases ids.len() - i,
    {
        let t = id_text(ids[i]);
        let ghost before = r@;
        r.push(t);
        proof {
            assert(ids@.take(i + 1) =~= ids@.take(i as int).push(ids@[i as int]));
            assert(crate::people::texts(r@) =~= crate::people::texts(before).push(t@));
            assert(crate::people::id_texts(ids@.take(i + 1)) =~= crate::people::id_texts(ids@.take(i as int)).push(
                hex_digits(ids@[i as int] as nat, 32),
            ));
        }
        i = i + 1;
    }
    assert(ids@.take(ids.len() as int) =~= ids@);
    r
}

/// Parses every id, or fails with the first malformed one.
pub fn parse_ids(texts: &Vec<String>) -> (r: Result<Vec<u128>, BridgeError>)
    ensures
        match parsed_ids(byte_texts(texts@)) {
            Some(ids) => r matches Ok(v) && v@ == ids,
            None => r matches Err(e) && e.message() == "image_id must contain 32 hexadecimal characters"@,
        },
{
    let ghost bt = byte_texts(texts@);
    let mut out: Vec<u128> = Vec::new();
    let mut i: usize = 0;
    while i < texts.len()
        invariant
            i <= texts.len(),
            bt == byte_texts(texts@),
            out@.len() == i,
            forall|j: int| 0 <= j < i ==> is_image_id(#[trigger] bt[j]),
            forall|j: int| 0 <= j < i ==> #[trigger] out@[j] == hex_value(bt[j]) as u128,
        decreases texts.len() - i,
    {
        match parse_id(texts[i].as_str()) {
            Ok(v) => {
                out.push(v);
            },
            Err(e) => {
                assert(!is_image_id(bt[i as int]));
                return Err(e);
            },
        }
        i = i + 1;
    }
    proof {
        assert(out@ =~= bt.map_values(|t: Seq<u8>| hex_value(t) as u128));
    }
    Ok(out)
}

/// A dismissed suggestion is refused at confirmation for as long as the
/// dismissal lasts: once any of the confirmed ids was dismissed, the
/// confirmation is refused whatever was reviewed.
pub proof fn dismissed_suggestions_are_refused(
    dismissed: Set<u128>,
    ids: Seq<u128>,
    plan: Option<Seq<u128>>,
    confirmed: Seq<u128>,
    k: int,
)
    requires
        0 <= k < confirmed.len(),
        ids.contains(confirmed[k]),
    ensures
        confirmation_refusal(dismissed + ids.to_set(), plan, confirmed)
            == Some("a dismissed suggestion cannot be confirmed"@),
{
    assert((dismissed + ids.to_set()).contains(confirmed[k]));
}

/// After assistance is switched, a reviewed confirmation is never refused
/// as dismissed.
pub proof fn switching_forgets_dismissals(plan: Seq<u128>, confirmed: Seq<u128>)
    ensures
        confirmation_refusal(Set::<u128>::empty(), Some(plan), confirmed) is None,
{
}

} // verus!
