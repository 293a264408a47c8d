//! Saved-search rules in the smart-album editor: the item list (a tree in
//! preorder) rendered back to rule text.
use vstd::prelude::*;
use vstd::string::*;
use crate::ids::{BridgeError, failure};
use crate::lexical::{quote, quoted, float_text, is_float_text};
use crate::text::{chars_of, same_text, concat_str};

verus! {

#[derive(Clone, Copy, Debug, PartialEq, Eq, Structural)]
pub enum RuleItemKind {
    /// AND group
    All,
    /// OR group
    Any,
    /// NOT (none of the children)
    Not,
    Rule,
}

/// A saved-search AST node in preorder. Groups carry their child count;
/// rules carry field, operator and value (numbers as their decimal text).
#[derive(Clone, Debug)]
pub struct RuleItem {
    pub kind: RuleItemKind,
    pub children: u32,
    pub field: String,
    pub op: String,
    pub value: String,
}

/// A rule item as plain values.
pub struct ItemView {
    pub kind: RuleItemKind,
    pub children: u32,
    pub field: Seq<char>,
    pub op: Seq<char>,
    pub value: Seq<char>,
}

impl View for RuleItem {
    type V = ItemView;

    open spec fn view(&self) -> ItemView {
        ItemView {
            kind: self.kind,
            children: self.children,
            field: self.field@,
            op: self.op@,
            value: self.value@,
        }
    }
}

pub open spec fn item_views(items: Seq<RuleItem>) -> Seq<ItemView> {
    items.map_values(|i: RuleItem| i@)
}

/// Why items do not form one rule tree.
#[derive(Clone, Copy, Debug, PartialEq, Eq, Structural)]
pub enum ItemsError {
    /// Groups nest deeper than 64 levels.
    TooDeep,
    /// A group announces more children than follow.
    Incomplete,
    /// Items are left after the first tree.
    Trailing,
}

pub open spec fn items_error_message(e: ItemsError) -> Seq<char> {
    match e {
        ItemsError::TooDeep => "rule nesting is too deep"@,
        ItemsError::Incomplete => "incomplete rule items"@,
        ItemsError::Trailing => "trailing rule items"@,
    }
}

/// Fields whose values the grammar takes as numbers.
pub open spec fn numeric_field(f: Seq<char>) -> bool {
    f == "rating"@ || f == "grade"@ || f == "focus"@
}

/// A rule's text: `field`, operator and value; free text (`text:` / `text=`)
/// is the value alone. Numeric fields keep number text bare.
pub open spec fn leaf_text(field: Seq<char>, op: Seq<char>, value: Seq<char>) -> Seq<char> {
    let v = if numeric_field(field) && is_float_text(value) {
        value
    } else {
        quoted(value)
    };
    if field == "text"@ && (op == ":"@ || op == "="@) {
        v
    } else {
        field + op + v
    }
}

/// Texts joined by `sep`.
pub open spec fn join(parts: Seq<Seq<char>>, sep: Seq<char>) -> Seq<char>
    decreases parts.len(),
{
    if parts.len() == 0 {
        Seq::empty()
    } else if parts.len() == 1 {
        parts[0]
    } else {
        join(parts.drop_last(), sep) + sep + parts.last()
    }
}

/// A group's text from its children's texts: NOT binds tightest, nested
/// groups of two or more are parenthesized.
pub open spec fn group_text(kind: RuleItemKind, children: Seq<Seq<char>>, root: bool) -> Seq<char> {
    if kind == RuleItemKind::Not {
        if children.len() == 1 {
            "NOT "@ + children[0]
        } else {
            "NOT ("@ + join(children, " OR "@) + ")"@
        }
    } else {
        let body = join(children, if kind == RuleItemKind::All { " AND "@ } else { " OR "@ });
        if root || children.len() < 2 {
            body
        } else {
            "("@ + body + ")"@
        }
    }
}

/// The text of the tree starting at `pos`, and the position after it.
pub open spec fn render_at(items: Seq<ItemView>, pos: int, root: bool, depth: int) -> Result<
    (Seq<char>, int),
    ItemsError,
>
    decreases 65 - depth, 1int, 0int,
{
    if depth > 64 {
        Err(ItemsError::TooDeep)
    } else if pos < 0 || pos >= items.len() {
        Err(ItemsError::Incomplete)
    } else {
        let it = items[pos];
        if it.kind == RuleItemKind::Rule {
            Ok((leaf_text(it.field, it.op, it.value), pos + 1))
        } else {
            match children_at(items, pos + 1, it.children as int, depth + 1) {
                Err(e) => Err(e),
                Ok((texts, next)) => Ok((group_text(it.kind, texts, root), next)),
            }
        }
    }
}

/// The texts of `n` consecutive sibling trees at depth `depth`.
pub open spec fn children_at(items: Seq<ItemView>, pos: int, n: int, depth: int) -> Result<
    (Seq<Seq<char>>, int),
    ItemsError,
>
    decreases 66 - depth, 0int, n,
{
    if n <= 0 {
        Ok((Seq::empty(), pos))
    } else if depth > 64 {
        Err(ItemsError::TooDeep)
    } else {
        match render_at(items, pos, false, depth) {
            Err(e) => Err(e),
            Ok((t, p)) => match children_at(items, p, n - 1, depth) {
                Err(e) => Err(e),
                Ok((ts, q)) => Ok((seq![t] + ts, q)),
            },
        }
    }
}

/// The rule text of an item list: empty for no items, else the one tree
/// they spell in preorder.
pub open spec fn items_text(items: Seq<ItemView>) -> Result<Seq<char>, ItemsError> {
    if items.len() == 0 {
        Ok(Seq::empty())
    } else {
        match render_at(items, 0, true, 0) {
            Err(e) => Err(e),
            Ok((t, p)) => if p < items.len() {
                Err(ItemsError::Trailing)
            } else {
                Ok(t)
            },
        }
    }
}

pub open spec fn prepend_texts(
    done: Seq<Seq<char>>,
    r: Result<(Seq<Seq<char>>, int), ItemsError>,
) -> Result<(Seq<Seq<char>>, int), ItemsError> {
    match r {
        Err(e) => Err(e),
        Ok((ts, q)) => Ok((done + ts, q)),
    }
}

proof fn lemma_join_push(parts: Seq<Seq<char>>, t: Seq<char>, sep: Seq<char>)
    ensures
        join(parts.push(t), sep) == if parts.len() == 0 {
            t
        } else {
            join(parts, sep) + sep + t
        },
{
    assert(parts.push(t).drop_last() =~= parts);
    if parts.len() == 0 {
        assert(parts.push(t).len() == 1);
    }
}

fn leaf(item: &RuleItem) -> (r: String)
    ensures
        r@ == leaf_text(item.field@, item.op@, item.value@),
{
    let field = item.field.as_str();
    let op = item.op.as_str();
    let value = item.value.as_str();
    let numeric = (same_text(field, "rating") || same_text(field, "grade") || same_text(
        field,
        "focus",
    )) && float_text(&chars_of(value));
    let v = if numeric {
        String::from_str(value)
    } else {
        quote(value)
    };
    if same_text(field, "text") && (same_text(op, ":") || same_text(op, "=")) {
        v
    } else {
        let s = concat_str(&String::from_str(field), op);
        concat_str(&s, v.as_str())
    }
}

fn render_tree(items: &Vec<RuleItem>, pos: usize, root: bool, depth: usize) -> (r: Result<
    (String, usize),
    ItemsError,
>)
    ensures
        match render_at(item_views(items@), pos as int, root, depth as int) {
            Ok((t, p)) => r is Ok && r->Ok_0.0@ == t && r->Ok_0.1 == p,
            Err(e) => r == Err::<(String, usize), ItemsError>(e),
        },
        r matches Ok((_, q)) ==> q <= items.len(),
    decreases 65 - depth,
{
    if depth > 64 {
        return Err(ItemsError::TooDeep);
    }
    if pos >= items.len() {
        return Err(ItemsError::Incomplete);
    }
    let item = &items[pos];
    if item.kind == RuleItemKind::Rule {
        return Ok((leaf(item), pos + 1));
    }
    let n = item.children;
    let sep = if item.kind == RuleItemKind::All {
        " AND "
    } else {
        " OR "
    };
    let ghost total = children_at(item_views(items@), pos + 1, n as int, depth + 1);
    let ghost mut texts: Seq<Seq<char>> = Seq::empty();
    let mut body = String::new();
    let mut first = String::new();
    let mut p = pos + 1;
    let mut k: u32 = 0;
    proof {
        assert(texts + Seq::<Seq<char>>::empty() =~= Seq::<Seq<char>>::empty());
        match children_at(item_views(items@), pos + 1, n as int, depth + 1) {
            Ok((ts, q)) => {
                assert(texts + ts =~= ts);
            },
            Err(_) => {},
        }
    }
    while k < n
        invariant
            depth <= 64,
            pos < items.len(),
            item@ == item_views(items@)[pos as int],
            item.kind != RuleItemKind::Rule,
            n == item.children,
            total == children_at(item_views(items@), pos + 1, n as int, depth + 1),
            k <= n,
            p <= items.len(),
            texts.len() == k,
            total == prepend_texts(texts, children_at(item_views(items@), p as int, (n - k) as int, depth + 1)),
            body@ == join(texts, if item.kind == RuleItemKind::All { " AND "@ } else { " OR "@ }),
            sep@ == if item.kind == RuleItemKind::All { " AND "@ } else { " OR "@ },
            k >= 1 ==> first@ == texts[0],
        decreases n - k,
    {
        let child = render_tree(items, p, false, depth + 1);
        match child {
            Err(e) => {
                proof {
                    assert(children_at(item_views(items@), p as int, (n - k) as int, depth + 1) == Err::<
                        (Seq<Seq<char>>, int),
                        ItemsError,
                    >(e));
                    assert(total == Err::<(Seq<Seq<char>>, int), ItemsError>(e));
                    assert(render_at(item_views(items@), pos as int, root, depth as int) == Err::<
                        (Seq<char>, int),
                        ItemsError,
                    >(e));
                }
                return Err(e);
            },
            Ok((t, q)) => {
                let ghost old_texts = texts;
                proof {
                    lemma_join_push(texts, t@, sep@);
                    texts = texts.push(t@);
                    match children_at(item_views(items@), q as int, (n - k - 1) as int, depth + 1) {
                        Ok((ts, q2)) => {
                            assert(old_texts + (seq![t@] + ts) =~= texts + ts);
                        },
                        Err(_) => {},
                    }
                }
                if k == 0 {
                    first = t.clone();
                    body = t;
                } else {
                    body.append(sep);
                    body.append(t.as_str());
                }
                p = q;
                k = k + 1;
            },
        }
    }
    proof {
        assert(texts + Seq::<Seq<char>>::empty() =~= texts);
    }
    let text = if item.kind == RuleItemKind::Not {
        if n == 1 {
            concat_str(&String::from_str("NOT "), first.as_str())
        } else {
            let s = concat_str(&String::from_str("NOT ("), body.as_str());
            concat_str(&s, ")")
        }
    } else if root || n < 2 {
        body
    } else {
        let s = concat_str(&String::from_str("("), body.as_str());
        concat_str(&s, ")")
    };
    Ok((text, p))
}

/// The spec view of an item-list result.
pub open spec fn render_items_result(items: Seq<RuleItem>, r: Result<String, BridgeError>) -> bool {
    match items_text(item_views(items)) {
        Ok(t) => r is Ok && r->Ok_0@ == t,
        Err(e) => r is Err && r->Err_0.message() == items_error_message(e),
    }
}

/// Renders editor items to text without validating leaves (so the parser can
/// locate their errors in the rendered text). Numeric fields keep numbers bare.
pub fn render_items(items: &Vec<RuleItem>) -> (r: Result<String, BridgeError>)
    ensures
        render_items_result(items@, r),
{
    if items.len() == 0 {
        return Ok(String::new());
    }
    match render_tree(items, 0, true, 0) {
        Err(e) => Err(
            match e {
                ItemsError::TooDeep => failure("rule nesting is too deep"),
                ItemsError::Incomplete => failure("incomplete rule items"),
                ItemsError::Trailing => failure("trailing rule items"),
            },
        ),
        Ok((t, p)) => {
            if p < items.len() {
                Err(failure("trailing rule items"))
            } else {
                Ok(t)
            }
        },
    }
}

/// Where the tree starting at `pos` ends, by shape alone: a rule is one
/// item, a group is followed by exactly as many trees as it has children;
/// `None` when items run out or groups nest deeper than 64 levels.
pub open spec fn tree_end(items: Seq<ItemView>, pos: int, depth: int) -> Option<int>
    decreases 65 - depth, 1int, 0int,
{
    if depth > 64 {
        None
    } else if pos < 0 || pos >= items.len() {
        None
    } else if items[pos].kind == RuleItemKind::Rule {
        Some(pos + 1)
    } else {
        forest_end(items, pos + 1, items[pos].children as int, depth + 1)
    }
}

/// Where `n` consecutive sibling trees starting at `pos` end.
pub open spec fn forest_end(items: Seq<ItemView>, pos: int, n: int, depth: int) -> Option<int>
    decreases 66 - depth, 0int, n,
{
    if n <= 0 {
        Some(pos)
    } else if depth > 64 {
        None
    } else {
        match tree_end(items, pos, depth) {
            None => None,
            Some(p) => forest_end(items, p, n - 1, depth),
        }
    }
}

proof fn lemma_render_shape(items: Seq<ItemView>, pos: int, root: bool, depth: int)
    ensures
        match render_at(items, pos, root, depth) {
            Ok((_, p)) => tree_end(items, pos, depth) == Some(p),
            Err(_) => tree_end(items, pos, depth) is None,
        },
    decreases 65 - depth, 1int, 0int,
{
    if depth <= 64 && 0 <= pos < items.len() && items[pos].kind != RuleItemKind::Rule {
        lemma_children_shape(items, pos + 1, items[pos].children as int, depth + 1);
    }
}

proof fn lemma_children_shape(items: Seq<ItemView>, pos: int, n: int, depth: int)
    ensures
        match children_at(items, pos, n, depth) {
            Ok((_, p)) => forest_end(items, pos, n, depth) == Some(p),
            Err(_) => forest_end(items, pos, n, depth) is None,
        },
    decreases 66 - depth, 0int, n,
{
    if n > 0 && depth <= 64 {
        lemma_render_shape(items, pos, false, depth);
        match render_at(items, pos, false, depth) {
            Err(_) => {},
            Ok((_, p)) => {
                lemma_children_shape(items, p, n - 1, depth);
            },
        }
    }
}

/// An item list renders exactly when it is empty or spells exactly one
/// tree in preorder: each group followed by exactly as many subtrees as it
/// has children, nested at most 64 deep, with no items left over.
pub proof fn items_are_one_preorder_tree(items: Seq<ItemView>)
    ensures
        items_text(items) is Ok <==> (items.len() == 0 || tree_end(items, 0, 0) == Some(
            items.len() as int,
        )),
{
    if items.len() > 0 {
        lemma_render_shape(items, 0, true, 0);
        lemma_tree_end_bounded(items, 0, 0);
    }
}

proof fn lemma_tree_end_bounded(items: Seq<ItemView>, pos: int, depth: int)
    ensures
        tree_end(items, pos, depth) matches Some(p) ==> pos < p <= items.len(),
    decreases 65 - depth, 1int, 0int,
{
    if depth <= 64 && 0 <= pos < items.len() && items[pos].kind != RuleItemKind::Rule {
        lemma_forest_end_bounded(items, pos + 1, items[pos].children as int, depth + 1);
    }
}

proof fn lemma_forest_end_bounded(items: Seq<ItemView>, pos: int, n: int, depth: int)
    ensures
        forest_end(items, pos, n, depth) matches Some(p) ==> pos <= p && (n > 0 ==> p
            <= items.len()),
    decreases 66 - depth, 0int, n,
{
    if n > 0 && depth <= 64 {
        lemma_tree_end_bounded(items, pos, depth);
        if let Some(p) = tree_end(items, pos, depth) {
            lemma_forest_end_bounded(items, p, n - 1, depth);
        }
    }
}

} // verus!
