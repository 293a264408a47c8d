//! A saved-search tree (rules under AND / OR / NOT groups): its readable
//! rule text and its editor item list.
use vstd::prelude::*;
use vstd::string::*;
use crate::lexical::{quote, quoted};
use crate::rules::{
    ItemView, RuleItem, RuleItemKind, children_at, group_text, item_views, join, leaf_text,
    render_at,
};
use crate::text::concat_str;

verus! {

/// A rule's value: JSON text (`Text`) or any other JSON value, written as
/// its JSON text (`Literal`: numbers, booleans, …).
#[derive(Clone, Debug)]
pub enum RuleValue {
    Text(String),
    Literal(String),
}

/// A saved search: rules combined by AND (`All`), OR (`Any`) and NOT
/// (`Not`: none of the children).
#[derive(Debug)]
pub enum SavedSearch {
    Rule { criteria: String, operation: String, value: RuleValue },
    All(Vec<SavedSearch>),
    Any(Vec<SavedSearch>),
    Not(Vec<SavedSearch>),
}

pub open spec fn value_chars(v: RuleValue) -> Seq<char> {
    match v {
        RuleValue::Text(s) => s@,
        RuleValue::Literal(s) => s@,
    }
}

pub open spec fn group_kind(s: SavedSearch) -> RuleItemKind {
    match s {
        SavedSearch::All(_) => RuleItemKind::All,
        SavedSearch::Any(_) => RuleItemKind::Any,
        SavedSearch::Not(_) => RuleItemKind::Not,
        SavedSearch::Rule { .. } => RuleItemKind::Rule,
    }
}

pub open spec fn children_of(s: SavedSearch) -> Seq<SavedSearch> {
    match s {
        SavedSearch::All(v) => v@,
        SavedSearch::Any(v) => v@,
        SavedSearch::Not(v) => v@,
        SavedSearch::Rule { .. } => Seq::empty(),
    }
}

// ─────────────────────────────── readable text ───────────────────────────────

/// A rule as text: string values quoted when they are not bare words, other
/// values as their JSON text; free text (`text:` / `text=`) is the value alone.
pub open spec fn rule_leaf_text(criteria: Seq<char>, op: Seq<char>, value: RuleValue) -> Seq<char> {
    let v = match value {
        RuleValue::Text(s) => quoted(s@),
        RuleValue::Literal(s) => s@,
    };
    if criteria == "text"@ && (op == ":"@ || op == "="@) {
        v
    } else {
        criteria + op + v
    }
}

/// The readable text of a saved search: AND is explicit, nested groups are
/// parenthesized, NOT binds tightest.
pub open spec fn search_text(s: SavedSearch, root: bool) -> Seq<char>
    decreases s, 1int,
{
    match s {
        SavedSearch::Rule { criteria, operation, value } => rule_leaf_text(criteria@, operation@, value),
        SavedSearch::All(v) => {
            let body = join(search_texts(v@), " AND "@);
            if root { body } else { "("@ + body + ")"@ }
        },
        SavedSearch::Any(v) => {
            let body = join(search_texts(v@), " OR "@);
            if root { body } else { "("@ + body + ")"@ }
        },
        SavedSearch::Not(v) => {
            if v@.len() == 1 {
                "NOT "@ + search_text(v@[0], false)
            } else {
                "NOT ("@ + join(search_texts(v@), " OR "@) + ")"@
            }
        },
    }
}

/// The texts of sibling searches, each as a nested (non-root) search.
pub open spec fn search_texts(v: Seq<SavedSearch>) -> Seq<Seq<char>>
    decreases v, 0int,
{
    if v.len() == 0 {
        Seq::empty()
    } else {
        seq![search_text(v[0], false)] + search_texts(v.drop_first())
    }
}

// ─────────────────────────────── item list ───────────────────────────────

/// The preorder item list of a saved search: a group item with its child
/// count, then each child's items.
pub open spec fn flat(s: SavedSearch) -> Seq<ItemView>
    decreases s, 1int,
{
    match s {
        SavedSearch::Rule { criteria, operation, value } => seq![
            ItemView {
                kind: RuleItemKind::Rule,
                children: 0,
                field: criteria@,
                op: operation@,
                value: value_chars(value),
            },
        ],
        _ => seq![
            ItemView {
                kind: group_kind(s),
                children: children_of(s).len() as u32,
                field: Seq::empty(),
                op: Seq::empty(),
                value: Seq::empty(),
            },
        ] + flat_all(children_of(s)),
    }
}

pub open spec fn flat_all(v: Seq<SavedSearch>) -> Seq<ItemView>
    decreases v, 0int,
{
    if v.len() == 0 {
        Seq::empty()
    } else {
        flat(v[0]) + flat_all(v.drop_first())
    }
}

/// The text the item list of `s` renders to.
pub open spec fn item_tree_text(s: SavedSearch, root: bool) -> Seq<char>
    decreases s, 1int,
{
    match s {
        SavedSearch::Rule { criteria, operation, value } => leaf_text(
            criteria@,
            operation@,
            value_chars(value),
        ),
        _ => group_text(group_kind(s), item_tree_texts(children_of(s)), root),
    }
}

pub open spec fn item_tree_texts(v: Seq<SavedSearch>) -> Seq<Seq<char>>
    decreases v, 0int,
{
    if v.len() == 0 {
        Seq::empty()
    } else {
        seq![item_tree_text(v[0], false)] + item_tree_texts(v.drop_first())
    }
}

/// Every node of `s`, at depth `depth` for its root, is at most 64 deep, and
/// groups have at most `u32::MAX` children.
pub open spec fn fits(s: SavedSearch, depth: int) -> bool
    decreases s, 1int,
{
    &&& depth <= 64
    &&& match s {
        SavedSearch::Rule { .. } => true,
        SavedSearch::All(v) => v@.len() <= u32::MAX && fits_all(v@, depth + 1),
        SavedSearch::Any(v) => v@.len() <= u32::MAX && fits_all(v@, depth + 1),
        SavedSearch::Not(v) => v@.len() <= u32::MAX && fits_all(v@, depth + 1),
    }
}

pub open spec fn fits_all(v: Seq<SavedSearch>, depth: int) -> bool
    decreases v, 0int,
{
    if v.len() == 0 {
        true
    } else {
        fits(v[0], depth) && fits_all(v.drop_first(), depth)
    }
}

// ─────────────────────────────── the item list renders as the tree ───────────────────────────────

proof fn lemma_flat_len(s: SavedSearch)
    ensures
        flat(s).len() >= 1,
{
}

proof fn lemma_flat_renders(s: SavedSearch, items: Seq<ItemView>, pos: int, root: bool, d: int)
    requires
        fits(s, d),
        0 <= d,
        0 <= pos,
        pos + flat(s).len() <= items.len(),
        items.subrange(pos, pos + flat(s).len()) == flat(s),
    ensures
        render_at(items, pos, root, d) == Ok::<(Seq<char>, int), crate::rules::ItemsError>(
            (item_tree_text(s, root), pos + flat(s).len()),
        ),
    decreases s, 1int,
{
    let f = flat(s);
    assert(items[pos] == items.subrange(pos, pos + f.len())[0]);
    match s {
        SavedSearch::Rule { .. } => {},
        SavedSearch::All(v) => {
            lemma_group(s, v@, items, pos, root, d);
        },
        SavedSearch::Any(v) => {
            lemma_group(s, v@, items, pos, root, d);
        },
        SavedSearch::Not(v) => {
            lemma_group(s, v@, items, pos, root, d);
        },
    }
}

proof fn lemma_group(s: SavedSearch, v: Seq<SavedSearch>, items: Seq<ItemView>, pos: int, root: bool, d: int)
    requires
        s !is Rule,
        v == children_of(s),
        d <= 64,
        v.len() <= u32::MAX,
        fits_all(v, d + 1),
        0 <= d,
        0 <= pos,
        pos + flat(s).len() <= items.len(),
        items.subrange(pos, pos + flat(s).len()) == flat(s),
    ensures
        render_at(items, pos, root, d) == Ok::<(Seq<char>, int), crate::rules::ItemsError>(
            (item_tree_text(s, root), pos + flat(s).len()),
        ),
    decreases v, 2int,
{
    let f = flat(s);
    let g = f[0];
    assert(items[pos] == f[0]);
    assert(f == seq![g] + flat_all(v));
    assert(items.subrange(pos + 1, pos + 1 + flat_all(v).len()) =~= flat_all(v)) by {
        assert forall|k: int| 0 <= k < flat_all(v).len() implies items.subrange(
            pos + 1,
            pos + 1 + flat_all(v).len(),
        )[k] == flat_all(v)[k] by {
            assert(items[pos + 1 + k] == items.subrange(pos, pos + f.len())[1 + k]);
        }
    }
    lemma_flat_all_renders(v, items, pos + 1, d + 1);
}

proof fn lemma_flat_all_renders(v: Seq<SavedSearch>, items: Seq<ItemView>, pos: int, d: int)
    requires
        fits_all(v, d),
        1 <= d,
        0 <= pos,
        pos + flat_all(v).len() <= items.len(),
        items.subrange(pos, pos + flat_all(v).len()) == flat_all(v),
    ensures
        children_at(items, pos, v.len() as int, d) == Ok::<
            (Seq<Seq<char>>, int),
            crate::rules::ItemsError,
        >((item_tree_texts(v), pos + flat_all(v).len())),
    decreases v, 1int,
{
    if v.len() > 0 {
        let a = flat(v[0]);
        let b = flat_all(v.drop_first());
        assert(flat_all(v) == a + b);
        assert(items.subrange(pos, pos + a.len()) =~= a) by {
            assert forall|k: int| 0 <= k < a.len() implies items.subrange(pos, pos + a.len())[k] == a[k] by {
                assert(items[pos + k] == items.subrange(pos, pos + flat_all(v).len())[k]);
            }
        }
        assert(items.subrange(pos + a.len(), pos + a.len() + b.len()) =~= b) by {
            assert forall|k: int| 0 <= k < b.len() implies items.subrange(
                pos + a.len(),
                pos + a.len() + b.len(),
            )[k] == b[k] by {
                assert(items[pos + a.len() + k] == items.subrange(pos, pos + flat_all(v).len())[a.len() + k]);
            }
        }
        lemma_flat_renders(v[0], items, pos, false, d);
        lemma_flat_all_renders(v.drop_first(), items, pos + a.len(), d);
        assert(v.drop_first().len() == v.len() - 1);
    }
}

/// Flattening a saved search into editor items and rendering the items
/// gives the tree's text: the item list is exactly one tree in preorder, for
/// every search whose nodes are at most 64 deep.
pub proof fn flattened_search_renders(s: SavedSearch)
    requires
        fits(s, 0),
    ensures
        crate::rules::items_text(flat(s)) == Ok::<Seq<char>, crate::rules::ItemsError>(
            item_tree_text(s, true),
        ),
{
    lemma_flat_len(s);
    assert(flat(s).subrange(0, flat(s).len() as int) =~= flat(s));
    lemma_flat_renders(s, flat(s), 0, true, 0);
}

// ─────────────────────────────── exec ───────────────────────────────

pub(crate) proof fn lemma_texts_index(v: Seq<SavedSearch>)
    ensures
        search_texts(v).len() == v.len(),
        forall|k: int| 0 <= k < v.len() ==> #[trigger] search_texts(v)[k] == search_text(v[k], false),
    decreases v.len(),
{
    if v.len() > 0 {
        lemma_texts_index(v.drop_first());
        assert forall|k: int| 0 <= k < v.len() implies #[trigger] search_texts(v)[k] == search_text(
            v[k],
            false,
        ) by {
            if k > 0 {
                assert(search_texts(v)[k] == search_texts(v.drop_first())[k - 1]);
            }
        }
    }
}

proof fn lemma_flat_all_push(v: Seq<SavedSearch>, x: SavedSearch)
    ensures
        flat_all(v.push(x)) == flat_all(v) + flat(x),
    decreases v.len(),
{
    if v.len() == 0 {
        assert(v.push(x).drop_first() =~= Seq::<SavedSearch>::empty());
        assert(v.push(x)[0] == x);
        assert(flat_all(Seq::<SavedSearch>::empty()) == Seq::<ItemView>::empty());
        assert(flat_all(v) == Seq::<ItemView>::empty());
        assert(flat_all(v.push(x)) == flat(x) + flat_all(v.push(x).drop_first()));
        assert(flat(x) + Seq::<ItemView>::empty() =~= flat(x));
        assert(Seq::<ItemView>::empty() + flat(x) =~= flat(x));
    } else {
        assert(v.push(x).drop_first() =~= v.drop_first().push(x));
        assert(v.push(x)[0] == v[0]);
        lemma_flat_all_push(v.drop_first(), x);
        assert(flat(v[0]) + (flat_all(v.drop_first()) + flat(x)) =~= (flat(v[0]) + flat_all(
            v.drop_first(),
        )) + flat(x));
    }
}

fn leaf_render(criteria: &String, operation: &String, value: &RuleValue) -> (r: String)
    ensures
        r@ == rule_leaf_text(criteria@, operation@, *value),
{
    let v = match value {
        RuleValue::Text(s) => quote(s.as_str()),
        RuleValue::Literal(s) => s.clone(),
    };
    let c = criteria.as_str();
    let o = operation.as_str();
    if crate::text::same_text(c, "text") && (crate::text::same_text(o, ":") || crate::text::same_text(
        o,
        "=",
    )) {
        v
    } else {
        let s = concat_str(criteria, o);
        concat_str(&s, v.as_str())
    }
}

fn join_rendered(v: &Vec<SavedSearch>, sep: &str) -> (r: String)
    ensures
        r@ == join(search_texts(v@), sep@),
    decreases v@, 0int,
{
    proof {
        lemma_texts_index(v@);
    }
    let mut body = String::new();
    let mut i: usize = 0;
    while i < v.len()
        invariant
            i <= v.len(),
            search_texts(v@).len() == v.len(),
            forall|k: int| 0 <= k < v.len() ==> #[trigger] search_texts(v@)[k] == search_text(v@[k], false),
            body@ == join(search_texts(v@).take(i as int), sep@),
        decreases v.len() - i,
    {
        let t = render(&v[i], false);
        proof {
            let ts = search_texts(v@);
            assert(ts.take(i + 1) =~= ts.take(i as int).push(t@));
            assert(ts.take(i + 1).drop_last() =~= ts.take(i as int));
        }
        if i > 0 {
            body.append(sep);
        }
        body.append(t.as_str());
        proof {
            if i == 0 {
                assert(body@ =~= t@);
            }
        }
        i = i + 1;
    }
    proof {
        assert(search_texts(v@).take(v.len() as int) =~= search_texts(v@));
    }
    body
}

/// The text a saved search is shown and stored as: its readable text
/// ([`search_text`]) when that parses back to the same search, else its
/// exact grammar form. The grammar belongs to the catalog, so `canonical`
/// tells what it finds: `Some` of the exact form when the readable text
/// does not parse back to the search, `None` when it does.
pub fn rule_text(search: &SavedSearch, canonical: Option<String>) -> (r: String)
    ensures
        r@ == match canonical {
            Some(c) => c@,
            None => search_text(*search, true),
        },
{
    match canonical {
        Some(c) => c,
        None => render(search, true),
    }
}

/// The readable rule text of a saved search (see [`search_text`]).
pub fn render(node: &SavedSearch, root: bool) -> (r: String)
    ensures
        r@ == search_text(*node, root),
    decreases *node, 1int,
{
    match node {
        SavedSearch::Rule { criteria, operation, value } => leaf_render(criteria, operation, value),
        SavedSearch::All(v) => {
            let body = join_rendered(v, " AND ");
            if root {
                body
            } else {
                let s = concat_str(&String::from_str("("), body.as_str());
                concat_str(&s, ")")
            }
        },
        SavedSearch::Any(v) => {
            let body = join_rendered(v, " OR ");
            if root {
                body
            } else {
                let s = concat_str(&String::from_str("("), body.as_str());
                concat_str(&s, ")")
            }
        },
        SavedSearch::Not(v) => {
            if v.len() == 1 {
                let t = render(&v[0], false);
                concat_str(&String::from_str("NOT "), t.as_str())
            } else {
                let body = join_rendered(v, " OR ");
                let s = concat_str(&String::from_str("NOT ("), body.as_str());
                concat_str(&s, ")")
            }
        },
    }
}

/// A copy of a saved search: the same rules in the same groups.
pub fn copy_search(node: &SavedSearch) -> (r: SavedSearch)
    ensures
        search_text(r, true) == search_text(*node, true),
        search_text(r, false) == search_text(*node, false),
        flat(r) == flat(*node),
    decreases *node, 1int,
{
    match node {
        SavedSearch::Rule { criteria, operation, value } => SavedSearch::Rule {
            criteria: criteria.clone(),
            operation: operation.clone(),
            value: match value {
                RuleValue::Text(t) => RuleValue::Text(t.clone()),
                RuleValue::Literal(t) => RuleValue::Literal(t.clone()),
            },
        },
        SavedSearch::All(v) => SavedSearch::All(copy_all(v)),
        SavedSearch::Any(v) => SavedSearch::Any(copy_all(v)),
        SavedSearch::Not(v) => {
            let c = copy_all(v);
            proof {
                lemma_texts_index(v@);
                lemma_texts_index(c@);
                if v@.len() == 1 {
                    assert(search_text(c@[0], false) == search_texts(c@)[0]);
                }
            }
            SavedSearch::Not(c)
        },
    }
}

fn copy_all(v: &Vec<SavedSearch>) -> (r: Vec<SavedSearch>)
    ensures
        r@.len() == v@.len(),
        search_texts(r@) == search_texts(v@),
        flat_all(r@) == flat_all(v@),
    decreases v@, 0int,
{
    let mut out: Vec<SavedSearch> = Vec::new();
    let mut i: usize = 0;
    while i < v.len()
        invariant
            i <= v.len(),
            out@.len() == i,
            forall|k: int| 0 <= k < i ==> search_text(#[trigger] out@[k], false) == search_text(v@[k], false),
            forall|k: int| 0 <= k < i ==> flat(#[trigger] out@[k]) == flat(v@[k]),
        decreases v.len() - i,
    {
        let c = copy_search(&v[i]);
        out.push(c);
        i = i + 1;
    }
    proof {
        lemma_texts_index(v@);
        lemma_texts_index(out@);
        assert(search_texts(out@) =~= search_texts(v@));
        lemma_flat_all_eq(out@, v@);
    }
    out
}

proof fn lemma_flat_all_eq(a: Seq<SavedSearch>, b: Seq<SavedSearch>)
    requires
        a.len() == b.len(),
        forall|k: int| 0 <= k < a.len() ==> flat(#[trigger] a[k]) == flat(b[k]),
    ensures
        flat_all(a) == flat_all(b),
    decreases a.len(),
{
    if a.len() > 0 {
        assert(flat(a[0]) == flat(b[0]));
        assert forall|k: int| 0 <= k < a.drop_first().len() implies flat(#[trigger] a.drop_first()[k]) == flat(b.drop_first()[k]) by {
            assert(a.drop_first()[k] == a[k + 1] && b.drop_first()[k] == b[k + 1]);
        }
        lemma_flat_all_eq(a.drop_first(), b.drop_first());
    }
}

/// Appends the preorder item list of `node` (see [`flat`]) to `out`.
pub fn flatten(node: &SavedSearch, out: &mut Vec<RuleItem>)
    ensures
        item_views(final(out)@) == item_views(old(out)@) + flat(*node),
    decreases *node, 1int,
{
    match node {
        SavedSearch::Rule { criteria, operation, value } => {
            let v = match value {
                RuleValue::Text(s) => s.clone(),
                RuleValue::Literal(s) => s.clone(),
            };
            let ghost before = out@;
            out.push(
                RuleItem {
                    kind: RuleItemKind::Rule,
                    children: 0,
                    field: criteria.clone(),
                    op: operation.clone(),
                    value: v,
                },
            );
            proof {
                assert(item_views(out@) =~= item_views(before) + flat(*node));
            }
        },
        SavedSearch::All(v) => flatten_group(RuleItemKind::All, v, node, out),
        SavedSearch::Any(v) => flatten_group(RuleItemKind::Any, v, node, out),
        SavedSearch::Not(v) => flatten_group(RuleItemKind::Not, v, node, out),
    }
}

fn flatten_group(kind: RuleItemKind, v: &Vec<SavedSearch>, node: &SavedSearch, out: &mut Vec<RuleItem>)
    requires
        *node !is Rule,
        kind == group_kind(*node),
        v@ == children_of(*node),
    ensures
        item_views(final(out)@) == item_views(old(out)@) + flat(*node),
    decreases v@, 0int,
{
    let ghost before = out@;
    #[verifier::truncate]
    let n = v.len() as u32;
    out.push(
        RuleItem {
            kind,
            children: n,
            field: String::new(),
            op: String::new(),
            value: String::new(),
        },
    );
    let ghost head = item_views(out@);
    proof {
        assert(head =~= item_views(before) + flat(*node).take(1));
        assert(v@.take(0) =~= Seq::<SavedSearch>::empty());
        assert(head + flat_all(v@.take(0)) =~= head);
    }
    let mut i: usize = 0;
    while i < v.len()
        invariant
            i <= v.len(),
            item_views(out@) == head + flat_all(v@.take(i as int)),
        decreases v.len() - i,
    {
        let ghost mid = out@;
        flatten(&v[i], out);
        proof {
            assert(v@.take(i + 1) =~= v@.take(i as int).push(v@[i as int]));
            lemma_flat_all_push(v@.take(i as int), v@[i as int]);
            assert(item_views(out@) =~= head + flat_all(v@.take(i + 1)));
        }
        i = i + 1;
    }
    proof {
        assert(v@.take(v.len() as int) =~= v@);
        assert(flat(*node) =~= flat(*node).take(1) + flat_all(v@));
    }
}

} // verus!
