//! JSON merge patches (RFC 7386), as edits to develop settings arrive.
use vstd::prelude::*;
use vstd::string::*;
use crate::ids::{BridgeError, failure_owned};
use crate::text::same_text;

verus! {

/// A JSON value. A number keeps its JSON text; an object keeps its members
/// in order.
#[derive(Debug, PartialEq)]
pub enum Json {
    Null,
    Bool(bool),
    Number(String),
    Text(String),
    Array(Vec<Json>),
    Object(Vec<(String, Json)>),
}

/// A JSON value as a mathematical value.
pub enum JsonView {
    Null,
    Bool(bool),
    Number(Seq<char>),
    Text(Seq<char>),
    Array(Seq<JsonView>),
    Object(Seq<(Seq<char>, JsonView)>),
}

pub open spec fn json_view(j: Json) -> JsonView
    decreases j,
{
    match j {
        Json::Null => JsonView::Null,
        Json::Bool(b) => JsonView::Bool(b),
        Json::Number(n) => JsonView::Number(n@),
        Json::Text(t) => JsonView::Text(t@),
        Json::Array(items) => JsonView::Array(items_view(items@)),
        Json::Object(members) => JsonView::Object(members_view(members@)),
    }
}

pub open spec fn items_view(s: Seq<Json>) -> Seq<JsonView>
    decreases s,
{
    if s.len() == 0 {
        Seq::empty()
    } else {
        items_view(s.subrange(0, s.len() - 1)).push(json_view(s[s.len() - 1]))
    }
}

pub open spec fn members_view(s: Seq<(String, Json)>) -> Seq<(Seq<char>, JsonView)>
    decreases s,
{
    if s.len() == 0 {
        Seq::empty()
    } else {
        members_view(s.subrange(0, s.len() - 1)).push(
            (s[s.len() - 1].0@, json_view(s[s.len() - 1].1)),
        )
    }
}

impl View for Json {
    type V = JsonView;

    open spec fn view(&self) -> JsonView {
        json_view(*self)
    }
}

/// `i` is where the first member named `k` stands.
pub open spec fn is_first_named(m: Seq<(Seq<char>, JsonView)>, k: Seq<char>, i: int) -> bool {
    &&& 0 <= i < m.len()
    &&& m[i].0 == k
    &&& forall|j: int| 0 <= j < i ==> (#[trigger] m[j]).0 != k
}

/// Index of the first member named `k`, or -1.
pub open spec fn key_pos(m: Seq<(Seq<char>, JsonView)>, k: Seq<char>) -> int {
    if exists|i: int| is_first_named(m, k, i) {
        choose|i: int| is_first_named(m, k, i)
    } else {
        -1
    }
}

/// The value of member `k`, null when there is none.
pub open spec fn member_value(m: Seq<(Seq<char>, JsonView)>, k: Seq<char>) -> JsonView {
    if key_pos(m, k) < 0 {
        JsonView::Null
    } else {
        m[key_pos(m, k)].1
    }
}

/// The members with `k` set to `v`: in its place, or added last.
pub open spec fn member_set(m: Seq<(Seq<char>, JsonView)>, k: Seq<char>, v: JsonView) -> Seq<
    (Seq<char>, JsonView),
> {
    if key_pos(m, k) < 0 {
        m.push((k, v))
    } else {
        m.update(key_pos(m, k), (k, v))
    }
}

/// The members without member `k`.
pub open spec fn member_removed(m: Seq<(Seq<char>, JsonView)>, k: Seq<char>) -> Seq<
    (Seq<char>, JsonView),
> {
    if key_pos(m, k) < 0 {
        m
    } else {
        m.remove(key_pos(m, k))
    }
}

/// The members of an object; none for any other value.
pub open spec fn object_members(t: JsonView) -> Seq<(Seq<char>, JsonView)> {
    match t {
        JsonView::Object(m) => m,
        _ => Seq::empty(),
    }
}

/// `MergePatch(target, patch)` of RFC 7386: a patch that is not an object
/// replaces the target; an object patch applies its members in order to the
/// target's members (none when the target is not an object): a null member
/// removes that name, any other is merged into the target's value of it.
pub open spec fn merged(target: JsonView, patch: JsonView) -> JsonView
    decreases patch,
{
    match patch {
        JsonView::Object(members) => JsonView::Object(
            merged_members(object_members(target), members),
        ),
        _ => patch,
    }
}

pub open spec fn merged_members(
    entries: Seq<(Seq<char>, JsonView)>,
    members: Seq<(Seq<char>, JsonView)>,
) -> Seq<(Seq<char>, JsonView)>
    decreases members,
{
    if members.len() == 0 {
        entries
    } else {
        let before = merged_members(entries, members.subrange(0, members.len() - 1));
        let k = members[members.len() - 1].0;
        let v = members[members.len() - 1].1;
        if v is Null {
            member_removed(before, k)
        } else {
            member_set(before, k, merged(member_value(before, k), v))
        }
    }
}

proof fn lemma_items_view(s: Seq<Json>)
    ensures
        items_view(s).len() == s.len(),
        forall|i: int| 0 <= i < s.len() ==> #[trigger] items_view(s)[i] == json_view(s[i]),
    decreases s.len(),
{
    if s.len() > 0 {
        let t = s.subrange(0, s.len() - 1);
        lemma_items_view(t);
        assert forall|i: int| 0 <= i < s.len() implies #[trigger] items_view(s)[i] == json_view(
            s[i],
        ) by {
            if i < s.len() - 1 {
                assert(t[i] == s[i]);
            }
        }
    }
}

proof fn lemma_members_view(s: Seq<(String, Json)>)
    ensures
        members_view(s).len() == s.len(),
        forall|i: int|
            0 <= i < s.len() ==> #[trigger] members_view(s)[i] == (s[i].0@, json_view(s[i].1)),
    decreases s.len(),
{
    if s.len() > 0 {
        let t = s.subrange(0, s.len() - 1);
        lemma_members_view(t);
        assert forall|i: int| 0 <= i < s.len() implies #[trigger] members_view(s)[i] == (
            s[i].0@,
            json_view(s[i].1),
        ) by {
            if i < s.len() - 1 {
                assert(t[i] == s[i]);
            }
        }
    }
}

/// Two sequences of members view alike when they agree member by member.
proof fn lemma_members_view_ext(s: Seq<(String, Json)>, v: Seq<(Seq<char>, JsonView)>)
    requires
        s.len() == v.len(),
        forall|i: int| 0 <= i < s.len() ==> #[trigger] v[i] == (s[i].0@, json_view(s[i].1)),
    ensures
        members_view(s) == v,
{
    lemma_members_view(s);
    assert(members_view(s) =~= v);
}

proof fn lemma_items_view_ext(s: Seq<Json>, v: Seq<JsonView>)
    requires
        s.len() == v.len(),
        forall|i: int| 0 <= i < s.len() ==> #[trigger] v[i] == json_view(s[i]),
    ensures
        items_view(s) == v,
{
    lemma_items_view(s);
    assert(items_view(s) =~= v);
}

/// A copy of `j`.
pub fn copy_json(j: &Json) -> (r: Json)
    ensures
        r@ == j@,
    decreases j,
{
    match j {
        Json::Null => Json::Null,
        Json::Bool(b) => Json::Bool(*b),
        Json::Number(n) => Json::Number(n.clone()),
        Json::Text(t) => Json::Text(t.clone()),
        Json::Array(items) => {
            let mut out: Vec<Json> = Vec::new();
            let mut i: usize = 0;
            while i < items.len()
                invariant
                    i <= items.len(),
                    *j == Json::Array(*items),
                    out@.len() == i,
                    forall|k: int| 0 <= k < i ==> #[trigger] json_view(out@[k]) == json_view(
                        items@[k],
                    ),
                decreases items.len() - i,
            {
                proof {
                    assert(decreases_to!(*j => (*j)->Array_0));
                    assert(decreases_to!(*items => items@));
                    vstd::seq::axiom_seq_index_decreases(items@, i as int);
                    assert(decreases_to!(*j => items@[i as int]));
                }
                let item = copy_json(&items[i]);
                out.push(item);
                i = i + 1;
            }
            proof {
                lemma_items_view(items@);
                lemma_items_view_ext(out@, items_view(items@));
            }
            Json::Array(out)
        },
        Json::Object(members) => {
            let mut out: Vec<(String, Json)> = Vec::new();
            let mut i: usize = 0;
            while i < members.len()
                invariant
                    i <= members.len(),
                    *j == Json::Object(*members),
                    out@.len() == i,
                    forall|k: int|
                        0 <= k < i ==> (#[trigger] out@[k]).0@ == members@[k].0@ && json_view(
                            out@[k].1,
                        ) == json_view(members@[k].1),
                decreases members.len() - i,
            {
                proof {
                    assert(decreases_to!(*j => (*j)->Object_0));
                    assert(decreases_to!(*members => members@));
                    vstd::seq::axiom_seq_index_decreases(members@, i as int);
                    assert(decreases_to!(members@[i as int] => members@[i as int].1));
                    assert(decreases_to!(*j => members@[i as int].1));
                }
                let value = copy_json(&members[i].1);
                out.push((members[i].0.clone(), value));
                i = i + 1;
            }
            proof {
                lemma_members_view(members@);
                lemma_members_view_ext(out@, members_view(members@));
            }
            Json::Object(out)
        },
    }
}

proof fn lemma_first_named(m: Seq<(Seq<char>, JsonView)>, k: Seq<char>, i: int)
    requires
        is_first_named(m, k, i),
    ensures
        key_pos(m, k) == i,
{
    let c = choose|c: int| is_first_named(m, k, c);
    assert(is_first_named(m, k, c));
    if c < i {
        assert(m[c].0 != k);
    } else if c > i {
        assert(m[i].0 != k);
    }
}

proof fn lemma_unnamed(m: Seq<(Seq<char>, JsonView)>, k: Seq<char>)
    requires
        forall|j: int| 0 <= j < m.len() ==> (#[trigger] m[j]).0 != k,
    ensures
        key_pos(m, k) == -1,
{
    assert(!exists|i: int| is_first_named(m, k, i));
}

/// Where the first member named `key` stands.
fn find_key(entries: &Vec<(String, Json)>, key: &String) -> (r: Option<usize>)
    ensures
        match r {
            Some(p) => p < entries@.len() && p as int == key_pos(members_view(entries@), key@),
            None => key_pos(members_view(entries@), key@) == -1,
        },
{
    let ghost mv = members_view(entries@);
    proof {
        lemma_members_view(entries@);
    }
    let mut i: usize = 0;
    while i < entries.len()
        invariant
            i <= entries@.len(),
            mv == members_view(entries@),
            mv.len() == entries@.len(),
            forall|j: int| 0 <= j < entries@.len() ==> #[trigger] mv[j] == (
                entries@[j].0@,
                json_view(entries@[j].1),
            ),
            forall|j: int| 0 <= j < i ==> (#[trigger] mv[j]).0 != key@,
        decreases entries.len() - i,
    {
        if same_text(entries[i].0.as_str(), key.as_str()) {
            proof {
                assert(mv[i as int].0 == key@);
                lemma_first_named(mv, key@, i as int);
            }
            return Some(i);
        }
        i = i + 1;
    }
    proof {
        lemma_unnamed(mv, key@);
    }
    None
}

fn merged_value(target: Json, patch: &Json) -> (r: Json)
    ensures
        r@ == merged(target@, patch@),
    decreases patch,
{
    match patch {
        Json::Object(members) => {
            let ghost start = object_members(target@);
            let mut entries: Vec<(String, Json)> = match target {
                Json::Object(e) => e,
                _ => Vec::new(),
            };
            let ghost pm = members_view(members@);
            proof {
                lemma_members_view(members@);
                lemma_members_view(entries@);
                assert(members_view(entries@) =~= start);
            }
            let mut i: usize = 0;
            while i < members.len()
                invariant
                    i <= members@.len(),
                    *patch == Json::Object(*members),
                    pm == members_view(members@),
                    pm.len() == members@.len(),
                    forall|j: int| 0 <= j < members@.len() ==> #[trigger] pm[j] == (
                        members@[j].0@,
                        json_view(members@[j].1),
                    ),
                    members_view(entries@) == merged_members(start, pm.subrange(0, i as int)),
                decreases members.len() - i,
            {
                let ghost before = members_view(entries@);
                let ghost k = members@[i as int].0@;
                proof {
                    assert(pm.subrange(0, i + 1).subrange(0, i as int) =~= pm.subrange(0, i as int));
                    assert(pm.subrange(0, i + 1)[i as int] == pm[i as int]);
                    lemma_members_view(entries@);
                    assert(decreases_to!(*patch => (*patch)->Object_0));
                    assert(decreases_to!(*members => members@));
                    vstd::seq::axiom_seq_index_decreases(members@, i as int);
                    assert(decreases_to!(members@[i as int] => members@[i as int].1));
                }
                let pos = find_key(&entries, &members[i].0);
                let value = &members[i].1;
                match value {
                    Json::Null => {
                        if let Some(p) = pos {
                            entries.remove(p);
                            proof {
                                lemma_members_view(entries@);
                                assert(members_view(entries@) =~= before.remove(p as int));
                            }
                        }
                    },
                    _ => {
                        match pos {
                            Some(p) => {
                                let (name, old) = entries.remove(p);
                                let new = merged_value(old, value);
                                entries.insert(p, (name, new));
                                proof {
                                    lemma_members_view(entries@);
                                    assert(members_view(entries@) =~= before.update(
                                        p as int,
                                        (k, merged(member_value(before, k), pm[i as int].1)),
                                    ));
                                }
                            },
                            None => {
                                let new = merged_value(Json::Null, value);
                                entries.push((members[i].0.clone(), new));
                                proof {
                                    lemma_members_view(entries@);
                                    assert(members_view(entries@) =~= before.push(
                                        (k, merged(JsonView::Null, pm[i as int].1)),
                                    ));
                                }
                            },
                        }
                    },
                }
                i = i + 1;
            }
            proof {
                assert(pm.subrange(0, members@.len() as int) =~= pm);
            }
            Json::Object(entries)
        },
        _ => copy_json(patch),
    }
}

/// Applies the JSON merge patch `patch` to `target` (RFC 7386).
pub fn merge_patch(target: &mut Json, patch: &Json)
    ensures
        final(target)@ == merged(old(target)@, patch@),
{
    let mut t = Json::Null;
    std::mem::swap(&mut t, target);
    *target = merged_value(t, patch);
}

/// No two members share a name.
pub open spec fn distinct_names(m: Seq<(Seq<char>, JsonView)>) -> bool {
    forall|i: int, j: int| 0 <= i < j < m.len() ==> (#[trigger] m[i]).0 != (#[trigger] m[j]).0
}

/// The value of member `k`, if there is one.
pub open spec fn lookup(m: Seq<(Seq<char>, JsonView)>, k: Seq<char>) -> Option<JsonView> {
    if key_pos(m, k) < 0 {
        None
    } else {
        Some(m[key_pos(m, k)].1)
    }
}

/// What RFC 7386 makes of member `k` of `entries` under an object patch
/// with `members`: unnamed, it stays; named null, it goes; named with a
/// value, that value is merged into it (into null when it was absent).
pub open spec fn patched_member(
    entries: Seq<(Seq<char>, JsonView)>,
    members: Seq<(Seq<char>, JsonView)>,
    k: Seq<char>,
) -> Option<JsonView> {
    match lookup(members, k) {
        None => lookup(entries, k),
        Some(v) => if v is Null {
            None
        } else {
            Some(
                merged(
                    match lookup(entries, k) {
                        Some(x) => x,
                        None => JsonView::Null,
                    },
                    v,
                ),
            )
        },
    }
}

proof fn lemma_lookup_at(m: Seq<(Seq<char>, JsonView)>, k: Seq<char>, i: int)
    requires
        distinct_names(m),
        0 <= i < m.len(),
        m[i].0 == k,
    ensures
        key_pos(m, k) == i,
        lookup(m, k) == Some(m[i].1),
        member_value(m, k) == m[i].1,
{
    assert forall|j: int| 0 <= j < i implies (#[trigger] m[j]).0 != k by {
        assert(m[j].0 != m[i].0);
    }
    lemma_first_named(m, k, i);
}

proof fn lemma_lookup_none(m: Seq<(Seq<char>, JsonView)>, k: Seq<char>)
    requires
        forall|j: int| 0 <= j < m.len() ==> (#[trigger] m[j]).0 != k,
    ensures
        key_pos(m, k) == -1,
        lookup(m, k) is None,
        member_value(m, k) == JsonView::Null,
{
    lemma_unnamed(m, k);
}

/// Where a name is not first found, it is not there at all.
proof fn lemma_absent(m: Seq<(Seq<char>, JsonView)>, k: Seq<char>)
    requires
        key_pos(m, k) < 0,
    ensures
        forall|j: int| 0 <= j < m.len() ==> (#[trigger] m[j]).0 != k,
{
    assert forall|j: int| 0 <= j < m.len() implies (#[trigger] m[j]).0 != k by {
        if m[j].0 == k {
            let first = choose|f: int| 0 <= f <= j && m[f].0 == k && forall|g: int|
                0 <= g < f ==> (#[trigger] m[g]).0 != k;
            assert(exists|f: int| 0 <= f <= j && m[f].0 == k && forall|g: int|
                0 <= g < f ==> (#[trigger] m[g]).0 != k) by {
                lemma_some_first(m, k, j);
            }
            assert(is_first_named(m, k, first));
        }
    }
}

proof fn lemma_some_first(m: Seq<(Seq<char>, JsonView)>, k: Seq<char>, j: int)
    requires
        0 <= j < m.len(),
        m[j].0 == k,
    ensures
        exists|f: int|
            0 <= f <= j && m[f].0 == k && forall|g: int| 0 <= g < f ==> (#[trigger] m[g]).0 != k,
    decreases j,
{
    if exists|g: int| 0 <= g < j && (#[trigger] m[g]).0 == k {
        let g = choose|g: int| 0 <= g < j && (#[trigger] m[g]).0 == k;
        lemma_some_first(m, k, g);
    } else {
        assert(forall|g: int| 0 <= g < j ==> (#[trigger] m[g]).0 != k);
    }
}

/// Removing or setting one name keeps the names distinct and leaves every
/// other name as it was.
proof fn lemma_one_member(m: Seq<(Seq<char>, JsonView)>, k: Seq<char>, v: JsonView, other: Seq<char>)
    requires
        distinct_names(m),
        other != k,
    ensures
        distinct_names(member_removed(m, k)),
        distinct_names(member_set(m, k, v)),
        lookup(member_removed(m, k), k) is None,
        lookup(member_set(m, k, v), k) == Some(v),
        lookup(member_removed(m, k), other) == lookup(m, other),
        lookup(member_set(m, k, v), other) == lookup(m, other),
{
    let p = key_pos(m, k);
    if p < 0 {
        lemma_absent(m, k);
        let s = m.push((k, v));
        assert(distinct_names(s)) by {
            assert forall|i: int, j: int| 0 <= i < j < s.len() implies (#[trigger] s[i]).0 != (
            #[trigger] s[j]).0 by {
                if j == m.len() {
                    assert(m[i].0 != k);
                } else {
                    assert(m[i].0 != m[j].0);
                }
            }
        }
        lemma_lookup_none(m, k);
        lemma_lookup_at(s, k, m.len() as int);
        if exists|q: int| 0 <= q < m.len() && (#[trigger] m[q]).0 == other {
            let q = choose|q: int| 0 <= q < m.len() && (#[trigger] m[q]).0 == other;
            lemma_lookup_at(m, other, q);
            lemma_lookup_at(s, other, q);
        } else {
            lemma_lookup_none(m, other);
            lemma_lookup_none(s, other);
        }
    } else {
        assert(is_first_named(m, k, p)) by {
            let c = choose|i: int| is_first_named(m, k, i);
            assert(exists|i: int| is_first_named(m, k, i));
        }
        let r = m.remove(p);
        let u = m.update(p, (k, v));
        assert(distinct_names(r)) by {
            assert forall|i: int, j: int| 0 <= i < j < r.len() implies (#[trigger] r[i]).0 != (
            #[trigger] r[j]).0 by {
                let a = if i < p { i } else { i + 1 };
                let b = if j < p { j } else { j + 1 };
                assert(r[i] == m[a] && r[j] == m[b]);
                assert(m[a].0 != m[b].0);
            }
        }
        assert(distinct_names(u)) by {
            assert forall|i: int, j: int| 0 <= i < j < u.len() implies (#[trigger] u[i]).0 != (
            #[trigger] u[j]).0 by {
                assert(m[i].0 != m[j].0);
            }
        }
        assert forall|j: int| 0 <= j < r.len() implies (#[trigger] r[j]).0 != k by {
            let a = if j < p { j } else { j + 1 };
            assert(r[j] == m[a]);
            assert(m[a].0 != m[p].0);
        }
        lemma_lookup_none(r, k);
        lemma_lookup_at(u, k, p);
        if exists|q: int| 0 <= q < m.len() && (#[trigger] m[q]).0 == other {
            let q = choose|q: int| 0 <= q < m.len() && (#[trigger] m[q]).0 == other;
            lemma_lookup_at(m, other, q);
            lemma_lookup_at(u, other, q);
            let q2 = if q < p { q } else { q - 1 };
            assert(r[q2] == m[q]);
            lemma_lookup_at(r, other, q2);
        } else {
            lemma_lookup_none(m, other);
            lemma_lookup_none(u, other);
            assert forall|j: int| 0 <= j < r.len() implies (#[trigger] r[j]).0 != other by {
                let a = if j < p { j } else { j + 1 };
                assert(r[j] == m[a]);
            }
            lemma_lookup_none(r, other);
        }
    }
}

/// An object patch with distinct names applied to members with distinct
/// names: every name ends as [`patched_member`] says, and the names stay
/// distinct.
proof fn lemma_merged_members(
    entries: Seq<(Seq<char>, JsonView)>,
    members: Seq<(Seq<char>, JsonView)>,
    k: Seq<char>,
)
    requires
        distinct_names(entries),
        distinct_names(members),
    ensures
        distinct_names(merged_members(entries, members)),
        lookup(merged_members(entries, members), k) == patched_member(entries, members, k),
    decreases members.len(),
{
    if members.len() == 0 {
        lemma_lookup_none(members, k);
    } else {
        let n = members.len() - 1;
        let front = members.subrange(0, n);
        let k0 = members[n].0;
        let v0 = members[n].1;
        assert(distinct_names(front)) by {
            assert forall|i: int, j: int| 0 <= i < j < front.len() implies (#[trigger] front[i]).0
                != (#[trigger] front[j]).0 by {
                assert(front[i] == members[i] && front[j] == members[j]);
            }
        }
        let before = merged_members(entries, front);
        lemma_merged_members(entries, front, k);
        lemma_merged_members(entries, front, k0);
        assert forall|j: int| 0 <= j < front.len() implies (#[trigger] front[j]).0 != k0 by {
            assert(front[j] == members[j]);
            assert(members[j].0 != members[n].0);
        }
        lemma_lookup_none(front, k0);
        lemma_lookup_at(members, k0, n);
        let w = merged(member_value(before, k0), v0);
        if key_pos(before, k0) < 0 {
            lemma_absent(before, k0);
            lemma_lookup_none(before, k0);
        } else {
            assert(is_first_named(before, k0, key_pos(before, k0))) by {
                assert(exists|i: int| is_first_named(before, k0, i));
            }
            lemma_lookup_at(before, k0, key_pos(before, k0));
        }
        if k == k0 {
            lemma_one_member(before, k0, w, k0 + seq!['x']);
        } else {
            lemma_one_member(before, k0, w, k);
            if exists|q: int| 0 <= q < front.len() && (#[trigger] front[q]).0 == k {
                let q = choose|q: int| 0 <= q < front.len() && (#[trigger] front[q]).0 == k;
                lemma_lookup_at(front, k, q);
                assert(front[q] == members[q]);
                lemma_lookup_at(members, k, q);
            } else {
                lemma_lookup_none(front, k);
                assert forall|j: int| 0 <= j < members.len() implies (#[trigger] members[j]).0
                    != k by {
                    if j < n {
                        assert(front[j] == members[j]);
                    }
                }
                lemma_lookup_none(members, k);
            }
        }
    }
}

/// Merging an object patch whose names are distinct into a value whose
/// members' names are distinct (RFC 7386): a name the patch does not name
/// keeps its value, a name the patch sets to null is removed, and any
/// other named value is merged into the old value of that name (or into
/// null); the result's names stay distinct.
pub proof fn object_patches_work_name_by_name(
    target: JsonView,
    members: Seq<(Seq<char>, JsonView)>,
    k: Seq<char>,
)
    requires
        distinct_names(object_members(target)),
        distinct_names(members),
    ensures
        distinct_names(object_members(merged(target, JsonView::Object(members)))),
        lookup(object_members(merged(target, JsonView::Object(members))), k) == patched_member(
            object_members(target),
            members,
            k,
        ),
{
    lemma_merged_members(object_members(target), members, k);
}

/// A patch that is not an object replaces the target whole.
pub proof fn other_patches_replace_the_target(target: JsonView, patch: JsonView)
    requires
        !(patch is Object),
    ensures
        merged(target, patch) == patch,
{
}

/// Every object in `j`, however deep among object members, has distinct
/// names (the arrays' contents are not looked into: a patch never merges
/// into them).
pub open spec fn well_formed(j: JsonView) -> bool
    decreases j,
{
    match j {
        JsonView::Object(m) => distinct_names(m) && members_well_formed(m),
        _ => true,
    }
}

pub open spec fn members_well_formed(m: Seq<(Seq<char>, JsonView)>) -> bool
    decreases m,
{
    if m.len() == 0 {
        true
    } else {
        members_well_formed(m.subrange(0, m.len() - 1)) && well_formed(m[m.len() - 1].1)
    }
}

proof fn lemma_members_well_formed(m: Seq<(Seq<char>, JsonView)>)
    requires
        members_well_formed(m),
    ensures
        forall|i: int| 0 <= i < m.len() ==> well_formed(#[trigger] m[i].1),
    decreases m.len(),
{
    if m.len() > 0 {
        let front = m.subrange(0, m.len() - 1);
        lemma_members_well_formed(front);
        assert forall|i: int| 0 <= i < m.len() implies well_formed(#[trigger] m[i].1) by {
            if i < m.len() - 1 {
                assert(front[i] == m[i]);
            }
        }
    }
}

proof fn lemma_members_well_formed_from(m: Seq<(Seq<char>, JsonView)>)
    requires
        forall|i: int| 0 <= i < m.len() ==> well_formed(#[trigger] m[i].1),
    ensures
        members_well_formed(m),
    decreases m.len(),
{
    if m.len() > 0 {
        let front = m.subrange(0, m.len() - 1);
        assert forall|i: int| 0 <= i < front.len() implies well_formed(#[trigger] front[i].1) by {
            assert(front[i] == m[i]);
        }
        lemma_members_well_formed_from(front);
        assert(well_formed(m[m.len() - 1].1));
    }
}

/// Merging a patch into a value, both with distinct names in every
/// object, gives a value with distinct names in every object.
pub proof fn merging_keeps_names_distinct(target: JsonView, patch: JsonView)
    requires
        well_formed(target),
        well_formed(patch),
    ensures
        well_formed(merged(target, patch)),
    decreases patch,
{
    match patch {
        JsonView::Object(members) => {
            let e = object_members(target);
            lemma_members_well_formed(members);
            if target is Object {
                lemma_members_well_formed(e);
            }
            let r = merged_members(e, members);
            lemma_merged_members(e, members, Seq::empty());
            assert forall|i: int| 0 <= i < r.len() implies well_formed(#[trigger] r[i].1) by {
                let k = r[i].0;
                lemma_lookup_at(r, k, i);
                lemma_merged_members(e, members, k);
                match lookup(members, k) {
                    None => {
                        let p = key_pos(e, k);
                        assert(is_first_named(e, k, p)) by {
                            assert(exists|j: int| is_first_named(e, k, j));
                        }
                        assert(well_formed(e[p].1));
                    },
                    Some(v) => {
                        let j = key_pos(members, k);
                        assert(is_first_named(members, k, j)) by {
                            assert(exists|jj: int| is_first_named(members, k, jj));
                        }
                        assert(v == members[j].1);
                        let x = match lookup(e, k) {
                            Some(x) => x,
                            None => JsonView::Null,
                        };
                        if lookup(e, k) is Some {
                            let q = key_pos(e, k);
                            assert(is_first_named(e, k, q)) by {
                                assert(exists|jj: int| is_first_named(e, k, jj));
                            }
                            assert(well_formed(e[q].1));
                        }
                        assert(decreases_to!(patch => patch->Object_0));
                        vstd::seq::axiom_seq_index_decreases(members, j);
                        assert(decreases_to!(members[j] => members[j].1));
                        merging_keeps_names_distinct(x, v);
                    },
                }
            }
            lemma_members_well_formed_from(r);
        },
        _ => {},
    }
}

/// Member `member` of a patch has already had its effect on `r`.
pub open spec fn settled(r: Seq<(Seq<char>, JsonView)>, member: (Seq<char>, JsonView)) -> bool {
    if member.1 is Null {
        lookup(r, member.0) is None
    } else {
        lookup(r, member.0) matches Some(x) && merged(x, member.1) == x
    }
}

proof fn lemma_settled(r: Seq<(Seq<char>, JsonView)>, members: Seq<(Seq<char>, JsonView)>, n: int)
    requires
        distinct_names(r),
        0 <= n <= members.len(),
        forall|j: int| 0 <= j < members.len() ==> settled(r, #[trigger] members[j]),
    ensures
        merged_members(r, members.subrange(0, n)) == r,
    decreases n,
{
    if n > 0 {
        let ms = members.subrange(0, n);
        assert(ms.subrange(0, n - 1) =~= members.subrange(0, n - 1));
        lemma_settled(r, members, n - 1);
        let k0 = ms[n - 1].0;
        let v0 = ms[n - 1].1;
        assert(settled(r, members[n - 1]));
        assert(ms[n - 1] == members[n - 1]);
        if key_pos(r, k0) >= 0 {
            let p = key_pos(r, k0);
            assert(is_first_named(r, k0, p)) by {
                assert(exists|i: int| is_first_named(r, k0, i));
            }
            if !(v0 is Null) {
                assert(r.update(p, (k0, merged(member_value(r, k0), v0))) =~= r);
            }
        }
    }
}

/// Applying a merge patch twice is applying it once (RFC 7386 patches are
/// idempotent), for values whose objects have distinct names.
pub proof fn merging_twice_changes_nothing(target: JsonView, patch: JsonView)
    requires
        well_formed(target),
        well_formed(patch),
    ensures
        merged(merged(target, patch), patch) == merged(target, patch),
    decreases patch,
{
    match patch {
        JsonView::Object(members) => {
            let e = object_members(target);
            lemma_members_well_formed(members);
            if target is Object {
                lemma_members_well_formed(e);
            }
            let r = merged_members(e, members);
            assert forall|j: int| 0 <= j < members.len() implies settled(r, #[trigger] members[j]) by {
                let k0 = members[j].0;
                let v0 = members[j].1;
                lemma_lookup_at(members, k0, j);
                lemma_merged_members(e, members, k0);
                if !(v0 is Null) {
                    let x = match lookup(e, k0) {
                        Some(x) => x,
                        None => JsonView::Null,
                    };
                    if lookup(e, k0) is Some {
                        assert(is_first_named(e, k0, key_pos(e, k0))) by {
                            assert(exists|i: int| is_first_named(e, k0, i));
                        }
                        assert(well_formed(e[key_pos(e, k0)].1));
                    }
                    assert(decreases_to!(patch => patch->Object_0));
                    vstd::seq::axiom_seq_index_decreases(members, j);
                    assert(decreases_to!(members[j] => members[j].1));
                    merging_twice_changes_nothing(x, v0);
                }
            }
            lemma_merged_members(e, members, Seq::empty());
            lemma_settled(r, members, members.len() as int);
            assert(members.subrange(0, members.len() as int) =~= members);
        },
        _ => {},
    }
}

// ─────────────────────────────── settings patches ───────────────────────────────

#[verifier::external_type_specification]
#[verifier::external_body]
pub struct ExJsonValue(serde_json::Value);

/// The value `serde_json` parses from a text, if the text is one JSON value.
pub uninterp spec fn json_of_text(text: Seq<char>) -> Option<JsonView>;

/// `serde_json::from_str` into a `serde_json::Value`, given as a [`Json`];
/// the message of a failure is the parser's.
#[verifier::external_body]
fn parse_json(text: &str) -> (r: Result<Json, String>)
    ensures
        match r {
            Ok(j) => json_of_text(text@) == Some(j@),
            Err(_) => json_of_text(text@) is None,
        },
{
    let value: serde_json::Value = serde_json::from_str(text).map_err(|e| e.to_string())?;
    Ok(json_of_value(value))
}

/// A `serde_json::Value` as a [`Json`], variant for variant (a number keeps
/// the text `serde_json` writes for it).
#[verifier::external_body]
fn json_of_value(v: serde_json::Value) -> Json {
    match v {
        serde_json::Value::Null => Json::Null,
        serde_json::Value::Bool(b) => Json::Bool(b),
        serde_json::Value::Number(n) => Json::Number(n.to_string()),
        serde_json::Value::String(s) => Json::Text(s),
        serde_json::Value::Array(a) => Json::Array(a.into_iter().map(json_of_value).collect()),
        serde_json::Value::Object(o) => Json::Object(o.into_iter().map(|(k, v)| (k, json_of_value(v))).collect()),
    }
}

/// Whether `j` is an object with a member named `k`.
pub open spec fn has_member(j: JsonView, k: Seq<char>) -> bool {
    key_pos(object_members(j), k) >= 0
}

/// The value of member `k` of `j`: null when `j` has none.
pub open spec fn member_of(j: JsonView, k: Seq<char>) -> JsonView {
    member_value(object_members(j), k)
}

/// `j` as an object with member `k` set to `v` (an index assignment on a
/// JSON object, or on null, which becomes an object).
pub open spec fn with_member(j: JsonView, k: Seq<char>, v: JsonView) -> JsonView {
    JsonView::Object(member_set(object_members(j), k, v))
}

pub open spec fn pair_view(o: Option<(Json, Json)>) -> Option<(JsonView, JsonView)> {
    match o {
        Some((a, b)) => Some((a@, b@)),
        None => None,
    }
}

/// The white-balance rule of a settings patch: when the patch's
/// `white_balance` object sets a temperature or a tint but no mode, white
/// balance becomes `custom`; coming from as-shot (`as_shot` then holds the
/// as-shot temperature and tint), whichever of the two the patch leaves out
/// is filled in with its as-shot value. Any other patch leaves `merged` as
/// it is.
pub open spec fn white_balance_rule(
    merged: JsonView,
    patch: JsonView,
    as_shot: Option<(JsonView, JsonView)>,
) -> JsonView {
    let wb = member_of(patch, "white_balance"@);
    if has_member(patch, "white_balance"@) && wb is Object && (has_member(wb, "temperature"@)
        || has_member(wb, "tint"@)) && !has_member(wb, "mode"@) {
        let w0 = member_of(merged, "white_balance"@);
        let w1 = match as_shot {
            Some((t, n)) => {
                let a = if has_member(wb, "temperature"@) {
                    w0
                } else {
                    with_member(w0, "temperature"@, t)
                };
                if has_member(wb, "tint"@) {
                    a
                } else {
                    with_member(a, "tint"@, n)
                }
            },
            None => w0,
        };
        with_member(merged, "white_balance"@, with_member(w1, "mode"@, JsonView::Text("custom"@)))
    } else {
        merged
    }
}

proof fn lemma_object_members(j: Json)
    ensures
        match j {
            Json::Object(e) => object_members(j@) == members_view(e@),
            _ => object_members(j@) == Seq::<(Seq<char>, JsonView)>::empty(),
        },
{
}

/// The value of member `key` of `j`, if `j` is an object that has one.
fn find_member<'a>(j: &'a Json, key: &String) -> (r: Option<&'a Json>)
    ensures
        match r {
            Some(v) => has_member(j@, key@) && v@ == member_of(j@, key@),
            None => !has_member(j@, key@),
        },
{
    match j {
        Json::Object(e) => {
            proof {
                lemma_object_members(*j);
                lemma_members_view(e@);
            }
            match find_key(e, key) {
                Some(p) => Some(&e[p].1),
                None => None,
            }
        },
        _ => {
            proof {
                lemma_object_members(*j);
                assert(!(exists|i: int| is_first_named(object_members(j@), key@, i)));
            }
            None
        },
    }
}

/// `j` with member `key` set to `v`.
fn with_member_set(j: Json, key: String, v: Json) -> (r: Json)
    ensures
        r@ == with_member(j@, key@, v@),
{
    proof {
        lemma_object_members(j);
    }
    let ghost start = object_members(j@);
    let mut entries: Vec<(String, Json)> = match j {
        Json::Object(e) => e,
        _ => Vec::new(),
    };
    proof {
        lemma_members_view(entries@);
        assert(members_view(entries@) =~= start);
    }
    let ghost before = members_view(entries@);
    let ghost k = key@;
    let ghost w = v@;
    match find_key(&entries, &key) {
        Some(p) => {
            entries.remove(p);
            entries.insert(p, (key, v));
        },
        None => {
            entries.push((key, v));
        },
    }
    proof {
        lemma_members_view(entries@);
        assert(members_view(entries@) =~= member_set(before, k, w));
    }
    Json::Object(entries)
}

/// `merged` after the white-balance rule of `patch`.
fn apply_white_balance_rule(merged: Json, patch: &Json, as_shot: Option<(Json, Json)>) -> (r: Json)
    ensures
        r@ == white_balance_rule(merged@, patch@, pair_view(as_shot)),
{
    let wb_key = String::from_str("white_balance");
    let wb = match find_member(patch, &wb_key) {
        Some(w) => w,
        None => return merged,
    };
    match wb {
        Json::Object(_) => {},
        _ => return merged,
    }
    let t_key = String::from_str("temperature");
    let n_key = String::from_str("tint");
    let mode_key = String::from_str("mode");
    let has_t = find_member(wb, &t_key).is_some();
    let has_n = find_member(wb, &n_key).is_some();
    let has_mode = find_member(wb, &mode_key).is_some();
    if !((has_t || has_n) && !has_mode) {
        return merged;
    }
    let w0 = match find_member(&merged, &wb_key) {
        Some(w) => copy_json(w),
        None => Json::Null,
    };
    let w1 = match as_shot {
        Some((t, n)) => {
            let a = if has_t {
                w0
            } else {
                with_member_set(w0, t_key, t)
            };
            if has_n {
                a
            } else {
                with_member_set(a, n_key, n)
            }
        },
        None => w0,
    };
    let w2 = with_member_set(w1, mode_key, Json::Text(String::from_str("custom")));
    with_member_set(merged, wb_key, w2)
}

/// A develop settings edit: parses the JSON merge patch `patch`, merges it
/// into the settings JSON `target` (RFC 7386) and applies the white-balance
/// rule ([`white_balance_rule`]); `as_shot` holds the as-shot temperature
/// and tint when the live white balance is as-shot. Gives back the parsed
/// patch; a patch that does not parse changes nothing.
pub fn apply_settings_patch(target: &mut Json, patch: &str, as_shot: Option<(Json, Json)>) -> (r:
    Result<Json, BridgeError>)
    ensures
        match json_of_text(patch@) {
            None => r is Err && final(target)@ == old(target)@,
            Some(p) => r matches Ok(q) && q@ == p && final(target)@ == white_balance_rule(
                merged(old(target)@, p),
                p,
                pair_view(as_shot),
            ),
        },
{
    let p = match parse_json(patch) {
        Ok(p) => p,
        Err(message) => return Err(failure_owned(message)),
    };
    let mut t = Json::Null;
    std::mem::swap(&mut t, target);
    let m = merged_value(t, &p);
    *target = apply_white_balance_rule(m, &p, as_shot);
    Ok(p)
}

// ─────────────────────────────── the white-balance rule, by member ───────────────────────────────

proof fn lemma_first_of(m: Seq<(Seq<char>, JsonView)>, k: Seq<char>)
    requires
        key_pos(m, k) >= 0,
    ensures
        is_first_named(m, k, key_pos(m, k)),
{
    assert(exists|i: int| is_first_named(m, k, i));
}

/// Setting member `k` gives it the new value and leaves every other name
/// as it was (present or absent, with its value).
proof fn lemma_member_set(m: Seq<(Seq<char>, JsonView)>, k: Seq<char>, v: JsonView, other: Seq<char>)
    requires
        other != k,
    ensures
        key_pos(member_set(m, k, v), k) >= 0,
        member_value(member_set(m, k, v), k) == v,
        (key_pos(member_set(m, k, v), other) >= 0) == (key_pos(m, other) >= 0),
        member_value(member_set(m, k, v), other) == member_value(m, other),
{
    let p = key_pos(m, k);
    let s = member_set(m, k, v);
    if p < 0 {
        lemma_absent(m, k);
        assert(is_first_named(s, k, m.len() as int));
        lemma_first_named(s, k, m.len() as int);
    } else {
        lemma_first_of(m, k);
        assert(is_first_named(s, k, p));
        lemma_first_named(s, k, p);
    }
    let q = key_pos(m, other);
    if q >= 0 {
        lemma_first_of(m, other);
        assert(q != p);
        assert(is_first_named(s, other, q));
        lemma_first_named(s, other, q);
    } else {
        lemma_absent(m, other);
        assert forall|j: int| 0 <= j < s.len() implies (#[trigger] s[j]).0 != other by {
            if j == p || j == m.len() {
            } else {
                assert(s[j] == m[j]);
            }
        }
        lemma_unnamed(s, other);
    }
}

proof fn lemma_with_member(j: JsonView, k: Seq<char>, v: JsonView, other: Seq<char>)
    requires
        other != k,
    ensures
        has_member(with_member(j, k, v), k),
        member_of(with_member(j, k, v), k) == v,
        has_member(with_member(j, k, v), other) == has_member(j, other),
        member_of(with_member(j, k, v), other) == member_of(j, other),
{
    lemma_member_set(object_members(j), k, v, other);
}

/// What the white-balance rule does to a merged settings value, member by
/// member: when the patch's `white_balance` object sets a temperature or a
/// tint and no mode, the mode becomes `custom`, the temperature and tint
/// the patch sets keep their merged values, and only one the patch leaves
/// out takes its as-shot value (when coming from as-shot); every other
/// member of `white_balance`, and every other setting, stays as merged.
/// Any other patch leaves the merged value as it is.
pub proof fn white_balance_rule_fills_only_what_the_patch_leaves_out(
    merged_value: JsonView,
    patch: JsonView,
    as_shot: Option<(JsonView, JsonView)>,
    k: Seq<char>,
)
    ensures
        ({
            let wb = member_of(patch, "white_balance"@);
            let applies = has_member(patch, "white_balance"@) && wb is Object && (has_member(
                wb,
                "temperature"@,
            ) || has_member(wb, "tint"@)) && !has_member(wb, "mode"@);
            let out = white_balance_rule(merged_value, patch, as_shot);
            let before = member_of(merged_value, "white_balance"@);
            let after = member_of(out, "white_balance"@);
            &&& !applies ==> out == merged_value
            &&& applies ==> member_of(after, "mode"@) == JsonView::Text("custom"@)
            &&& applies && has_member(wb, "temperature"@) ==> member_of(after, "temperature"@)
                == member_of(before, "temperature"@)
            &&& applies && has_member(wb, "tint"@) ==> member_of(after, "tint"@) == member_of(
                before,
                "tint"@,
            )
            &&& applies && !has_member(wb, "temperature"@) ==> member_of(after, "temperature"@)
                == match as_shot {
                Some((t, _)) => t,
                None => member_of(before, "temperature"@),
            }
            &&& applies && !has_member(wb, "tint"@) ==> member_of(after, "tint"@) == match as_shot {
                Some((_, n)) => n,
                None => member_of(before, "tint"@),
            }
            &&& applies && k != "mode"@ && k != "temperature"@ && k != "tint"@ ==> member_of(after, k)
                == member_of(before, k)
            &&& applies && k != "white_balance"@ ==> member_of(out, k) == member_of(merged_value, k)
        }),
{
    let wb = member_of(patch, "white_balance"@);
    let applies = has_member(patch, "white_balance"@) && wb is Object && (has_member(
        wb,
        "temperature"@,
    ) || has_member(wb, "tint"@)) && !has_member(wb, "mode"@);
    if applies {
        reveal_strlit("temperature");
        reveal_strlit("tint");
        reveal_strlit("mode");
        reveal_strlit("white_balance");
        let t_key = "temperature"@;
        let n_key = "tint"@;
        let m_key = "mode"@;
        let w_key = "white_balance"@;
        assert(t_key.len() == 11 && n_key.len() == 4 && m_key.len() == 4 && w_key.len() == 13);
        assert(n_key[0] == 't' && m_key[0] == 'm');
        assert(t_key != n_key && t_key != m_key && n_key != m_key && w_key != t_key);
        let w0 = member_of(merged_value, w_key);
        let w1 = match as_shot {
            Some((t, n)) => {
                let a = if has_member(wb, t_key) {
                    w0
                } else {
                    with_member(w0, t_key, t)
                };
                if has_member(wb, n_key) {
                    a
                } else {
                    with_member(a, n_key, n)
                }
            },
            None => w0,
        };
        let w2 = with_member(w1, m_key, JsonView::Text("custom"@));
        // the outer object
        if k != w_key {
            lemma_with_member(merged_value, w_key, w2, k);
        }
        lemma_with_member(merged_value, w_key, w2, t_key);
        // the mode
        lemma_with_member(w1, m_key, JsonView::Text("custom"@), t_key);
        lemma_with_member(w1, m_key, JsonView::Text("custom"@), n_key);
        if k != m_key {
            lemma_with_member(w1, m_key, JsonView::Text("custom"@), k);
        }
        match as_shot {
            Some((t, n)) => {
                let a = if has_member(wb, t_key) {
                    w0
                } else {
                    with_member(w0, t_key, t)
                };
                lemma_with_member(w0, t_key, t, n_key);
                lemma_with_member(a, n_key, n, t_key);
                if k != t_key && k != n_key {
                    lemma_with_member(w0, t_key, t, k);
                    lemma_with_member(a, n_key, n, k);
                }
            },
            None => {},
        }
    }
}

/// A settings patch whose `white_balance` object sets the temperature or
/// the tint to a value (not an object) ends with exactly that value there,
/// whatever the white-balance rule does, for settings and patches whose
/// objects have distinct names.
pub proof fn a_patched_temperature_or_tint_is_kept(
    target: JsonView,
    patch: JsonView,
    as_shot: Option<(JsonView, JsonView)>,
    k: Seq<char>,
)
    requires
        well_formed(target),
        well_formed(patch),
        k == "temperature"@ || k == "tint"@,
        has_member(member_of(patch, "white_balance"@), k),
        !(member_of(member_of(patch, "white_balance"@), k) is Object),
    ensures
        member_of(
            member_of(white_balance_rule(merged(target, patch), patch, as_shot), "white_balance"@),
            k,
        ) == member_of(member_of(patch, "white_balance"@), k),
{
    reveal_strlit("temperature");
    reveal_strlit("tint");
    reveal_strlit("white_balance");
    let w_key = "white_balance"@;
    let wb = member_of(patch, w_key);
    // the patch is an object naming white_balance, itself an object naming k
    assert(patch is Object) by {
        if !(patch is Object) {
            assert(object_members(member_of(patch, w_key)) =~= Seq::<(Seq<char>, JsonView)>::empty())
                by {
                lemma_unnamed(object_members(patch), w_key);
            }
            lemma_unnamed(object_members(wb), k);
        }
    }
    let pm = object_members(patch);
    lemma_members_well_formed(pm);
    assert(has_member(patch, w_key)) by {
        if key_pos(pm, w_key) < 0 {
            assert(wb == JsonView::Null);
            lemma_unnamed(object_members(wb), k);
        }
    }
    lemma_first_of(pm, w_key);
    let jw = key_pos(pm, w_key);
    assert(wb == pm[jw].1);
    assert(well_formed(wb));
    assert(wb is Object) by {
        if !(wb is Object) {
            lemma_unnamed(object_members(wb), k);
        }
    }
    let wm = object_members(wb);
    lemma_members_well_formed(wm);
    lemma_first_of(wm, k);
    let v = wm[key_pos(wm, k)].1;
    lemma_lookup_at(pm, w_key, jw);
    lemma_lookup_at(wm, k, key_pos(wm, k));
    // the target's white_balance, merged with the patch's
    let e = object_members(target);
    if target is Object {
        lemma_members_well_formed(e);
    }
    lemma_merged_members(e, pm, w_key);
    let x = match lookup(e, w_key) {
        Some(x) => x,
        None => JsonView::Null,
    };
    if lookup(e, w_key) is Some {
        lemma_first_of(e, w_key);
        assert(well_formed(e[key_pos(e, w_key)].1));
    }
    let r = merged_members(e, pm);
    assert(lookup(r, w_key) is Some);
    lemma_first_of(r, w_key);
    assert(member_of(merged(target, patch), w_key) == merged(x, wb));
    let xm = object_members(x);
    if x is Object {
        lemma_members_well_formed(xm);
    }
    lemma_merged_members(xm, wm, k);
    let before = member_of(merged(target, patch), w_key);
    assert(member_of(before, k) == v) by {
        let rb = merged_members(xm, wm);
        if v is Null {
            assert(lookup(rb, k) is None);
        } else {
            assert(lookup(rb, k) == Some(merged(match lookup(xm, k) { Some(y) => y, None => JsonView::Null }, v)));
            lemma_first_of(rb, k);
        }
    }
    white_balance_rule_fills_only_what_the_patch_leaves_out(merged(target, patch), patch, as_shot, k);
}

} // verus!
