//! The library sidebar and faceted search as records, and the pieces of a
//! search that are decided here: facet counts, facet clauses and the search
//! scope.
use vstd::prelude::*;
use vstd::string::*;
use crate::ids::{BridgeError, failure};
use crate::order::{lex_lt, text_less, lemma_lex_asymmetric, lemma_lex_transitive};
use crate::search::{RuleValue, SavedSearch, search_text, search_texts, lemma_texts_index, copy_search, render, rule_text};
use crate::lexical::{quoted, trimmed, trim};
use crate::rules::join;
use crate::text::chars_of;

verus! {

broadcast use vstd::seq_lib::group_to_multiset_ensures;

#[derive(Clone, Copy, Debug, PartialEq, Eq, Structural)]
pub enum LibraryNodeKind {
    Group,
    Album,
    SmartAlbum,
}

/// One sidebar entry, listed depth-first in sidebar order.
#[derive(Clone, Debug)]
pub struct LibraryNode {
    pub id: i64,
    pub kind: LibraryNodeKind,
    pub name: String,
    pub parent: Option<i64>,
    pub depth: u32,
    /// Album map key (the basket handle); None for groups and smart albums.
    pub handle: Option<String>,
    /// Manual album members; zero otherwise.
    pub image_count: u32,
    /// Smart album rule in the text grammar.
    pub rule: Option<String>,
    /// Smart album inside a group searches only that group's albums.
    pub scoped: bool,
}

/// UTF-8 byte range into the checked text. `start == end` marks a position.
#[derive(Clone, Debug)]
pub struct RuleDiagnostic {
    pub start: u32,
    pub end: u32,
    pub message: String,
}

#[derive(Clone, Debug)]
pub struct RuleCheck {
    /// Text for the rule: normalized when it came from items, else the input.
    pub text: String,
    pub diagnostic: Option<RuleDiagnostic>,
    /// Parsed tree (empty when the text does not parse or is empty).
    pub items: Vec<crate::rules::RuleItem>,
}

#[derive(Clone, Copy, Debug, PartialEq, Eq, Structural)]
pub enum SearchScope {
    All,
    Album { id: i64 },
    SmartAlbum { id: i64 },
    Group { id: i64 },
}

#[derive(Clone, Copy, Debug, PartialEq, Eq, Structural)]
pub enum FacetField {
    Decision,
    /// Keep grade "1".."3".
    Grade,
    Mark,
    Camera,
    Lens,
    Keyword,
    /// "none" (in no album), "any", or an album handle.
    Album,
    /// `YYYY[-MM[-DD]]` or an inclusive range `from..to`.
    Date,
}

/// Values of one field are ORed; fields are ANDed with each other and the text.
#[derive(Clone, Debug)]
pub struct FacetFilter {
    pub field: FacetField,
    pub values: Vec<String>,
}

#[derive(Clone, Debug)]
pub struct SearchRequest {
    /// Free text in the saved-search grammar (may be empty).
    pub text: String,
    pub filters: Vec<FacetFilter>,
    pub scope: SearchScope,
    /// Limit to images under this folder (recursive); None for the whole catalog.
    pub folder: Option<String>,
}

#[derive(Clone, Debug)]
pub struct FacetCount {
    pub value: String,
    pub count: u32,
}

/// Each facet counts over the result of every *other* active filter.
#[derive(Clone, Debug)]
pub struct SearchFacets {
    pub decisions: Vec<FacetCount>,
    pub grades: Vec<FacetCount>,
    pub marks: Vec<FacetCount>,
    pub cameras: Vec<FacetCount>,
    pub lenses: Vec<FacetCount>,
    pub keywords: Vec<FacetCount>,
    pub in_any_album: u32,
    pub in_no_album: u32,
}

#[derive(Clone, Debug)]
pub struct SearchResult {
    /// Matching images: album order for an album scope, else capture time.
    pub image_ids: Vec<String>,
    pub facets: SearchFacets,
    /// Problem with `text`; the rest of the request still applied.
    pub diagnostic: Option<RuleDiagnostic>,
    /// Grammar text equivalent to text + filters + album/smart-album scope.
    pub rule: String,
    /// Group to place (and scope) a saved smart album in.
    pub group: Option<i64>,
}

// ─────────────────────────────── facet counts ───────────────────────────────

pub type FacetKey = (Seq<char>, u32);

/// Facet rows sort by count, largest first, then by value.
pub open spec fn facet_before(a: FacetKey, b: FacetKey) -> bool {
    a.1 > b.1 || (a.1 == b.1 && lex_lt(a.0, b.0))
}

pub open spec fn facet_key(f: FacetCount) -> FacetKey {
    (f.value@, f.count)
}

pub open spec fn capped(c: u64) -> u32 {
    if c > u32::MAX {
        u32::MAX
    } else {
        c as u32
    }
}

pub open spec fn input_key(p: (String, u64)) -> FacetKey {
    (p.0@, capped(p.1))
}

pub open spec fn facet_sorted(s: Seq<FacetKey>) -> bool {
    forall|i: int, j: int| 0 <= i < j < s.len() ==> !facet_before(#[trigger] s[j], #[trigger] s[i])
}

pub open spec fn keys_of(v: Seq<FacetCount>) -> Seq<FacetKey> {
    v.map_values(|f: FacetCount| facet_key(f))
}

proof fn lemma_before_asymmetric(a: FacetKey, b: FacetKey)
    ensures
        !(facet_before(a, b) && facet_before(b, a)),
{
    lemma_lex_asymmetric(a.0, b.0);
}

proof fn lemma_before_transitive(a: FacetKey, b: FacetKey, c: FacetKey)
    requires
        facet_before(a, b),
        facet_before(b, c),
    ensures
        facet_before(a, c),
{
    if a.1 == b.1 && b.1 == c.1 {
        lemma_lex_transitive(a.0, b.0, c.0);
    }
}

fn before_exec(a: &FacetCount, b: &FacetCount) -> (r: bool)
    ensures
        r == facet_before(facet_key(*a), facet_key(*b)),
{
    a.count > b.count || (a.count == b.count && text_less(a.value.as_str(), b.value.as_str()))
}

/// Facet values with their counts (capped at `u32::MAX`), largest count
/// first, ties by value.
pub fn counts(values: Vec<(String, u64)>) -> (r: Vec<FacetCount>)
    ensures
        keys_of(r@).to_multiset() == values@.map_values(|p: (String, u64)| input_key(p)).to_multiset(),
        facet_sorted(keys_of(r@)),
{
    let ghost ins = values@.map_values(|p: (String, u64)| input_key(p));
    let mut out: Vec<FacetCount> = Vec::new();
    let mut i: usize = 0;
    proof {
        assert(keys_of(out@) =~= ins.take(0));
    }
    while i < values.len()
        invariant
            i <= values.len(),
            ins == values@.map_values(|p: (String, u64)| input_key(p)),
            keys_of(out@).to_multiset() == ins.take(i as int).to_multiset(),
            facet_sorted(keys_of(out@)),
        decreases values.len() - i,
    {
        let count: u32 = if values[i].1 > 0xffff_ffffu64 {
            0xffff_ffffu32
        } else {
            values[i].1 as u32
        };
        let fc = FacetCount { value: values[i].0.clone(), count };
        assert(facet_key(fc) == ins[i as int]);
        let mut k: usize = 0;
        while k < out.len() && !before_exec(&fc, &out[k])
            invariant
                k <= out.len(),
                forall|m: int| 0 <= m < k ==> !facet_before(facet_key(fc), #[trigger] keys_of(out@)[m]),
            decreases out.len() - k,
        {
            k = k + 1;
        }
        let ghost old_keys = keys_of(out@);
        out.insert(k, fc);
        proof {
            let nk = keys_of(out@);
            let x = facet_key(fc);
            assert(nk =~= old_keys.insert(k as int, x));
            assert(ins.take(i + 1) =~= ins.take(i as int).push(x));
            assert forall|p: int, q: int| 0 <= p < q < nk.len() implies !facet_before(
                #[trigger] nk[q],
                #[trigger] nk[p],
            ) by {
                if q < k {
                    assert(nk[q] == old_keys[q] && nk[p] == old_keys[p]);
                } else if q == k {
                    assert(nk[p] == old_keys[p]);
                } else if p < k {
                    assert(nk[q] == old_keys[q - 1] && nk[p] == old_keys[p]);
                    if k < old_keys.len() {
                        if facet_before(old_keys[q - 1], old_keys[p]) {
                        }
                    }
                } else if p == k {
                    assert(nk[q] == old_keys[q - 1]);
                    assert(k < old_keys.len());
                    assert(facet_before(x, old_keys[k as int]));
                    if facet_before(old_keys[q - 1], x) {
                        lemma_before_transitive(old_keys[q - 1], x, old_keys[k as int]);
                        if q - 1 == k {
                            lemma_before_asymmetric(x, old_keys[k as int]);
                        }
                    }
                } else {
                    assert(nk[q] == old_keys[q - 1] && nk[p] == old_keys[p - 1]);
                }
            }
        }
        i = i + 1;
    }
    proof {
        assert(ins.take(values.len() as int) =~= ins);
    }
    out
}

// ─────────────────────────────── clauses ───────────────────────────────

/// One clause for several: nothing for none, the clause itself for one,
/// else their AND.
pub fn all_of(mut clauses: Vec<SavedSearch>) -> (r: Option<SavedSearch>)
    ensures
        clauses@.len() == 0 ==> r is None,
        clauses@.len() == 1 ==> r == Some(clauses@[0]),
        clauses@.len() >= 2 ==> (r matches Some(SavedSearch::All(v)) && v@ == clauses@),
{
    if clauses.len() == 0 {
        None
    } else if clauses.len() == 1 {
        clauses.pop()
    } else {
        Some(SavedSearch::All(clauses))
    }
}

/// The rule criterion a facet filters on.
pub open spec fn facet_criteria(field: FacetField) -> Seq<char> {
    match field {
        FacetField::Decision => "decision"@,
        FacetField::Grade => "rating"@,
        FacetField::Mark => "mark"@,
        FacetField::Camera => "camera"@,
        FacetField::Lens => "lens"@,
        FacetField::Keyword => "keyword"@,
        FacetField::Album => "album"@,
        FacetField::Date => "date"@,
    }
}

/// Text `str::parse::<u8>` accepts: an optional `+`, then one or more
/// digits whose value is at most 255.
pub open spec fn u8_text(s: Seq<char>) -> Option<u8> {
    let start = if s.len() > 0 && s[0] == '+' { 1int } else { 0int };
    if s.len() - start >= 1 && (forall|i: int| start <= i < s.len() ==> '0' <= #[trigger] s[i] <= '9')
        && decimal_value(s.subrange(start, s.len() as int)) <= 255 {
        Some(decimal_value(s.subrange(start, s.len() as int)) as u8)
    } else {
        None
    }
}

pub open spec fn decimal_value(s: Seq<char>) -> nat
    decreases s.len(),
{
    if s.len() == 0 {
        0
    } else {
        (decimal_value(s.drop_last()) * 10 + (s.last() as int - '0' as int)) as nat
    }
}

/// `str::parse::<u8>` (see [`u8_text`]).
pub fn parse_u8(s: &str) -> (r: Option<u8>)
    ensures
        r == u8_text(s@),
{
    let cs = chars_of(s);
    let start: usize = if cs.len() > 0 && cs[0] == '+' { 1 } else { 0 };
    if cs.len() - start < 1 {
        return None;
    }
    let mut v: u32 = 0;
    let mut i = start;
    while i < cs.len()
        invariant
            cs@ == s@,
            start <= i <= cs.len(),
            start == (if cs@.len() > 0 && cs@[0] == '+' { 1int } else { 0int }),
            forall|j: int| start <= j < i ==> '0' <= #[trigger] cs@[j] <= '9',
            v == decimal_value(cs@.subrange(start as int, i as int)),
            v <= 255,
        decreases cs.len() - i,
    {
        let c = cs[i];
        if !('0' <= c && c <= '9') {
            return None;
        }
        let d = (c as u32) - ('0' as u32);
        proof {
            assert(cs@.subrange(start as int, i + 1).drop_last() =~= cs@.subrange(start as int, i as int));
        }
        if v * 10 + d > 255 {
            proof {
                let all = cs@.subrange(start as int, cs@.len() as int);
                if forall|j: int| start <= j < cs@.len() ==> '0' <= #[trigger] cs@[j] <= '9' {
                    assert forall|j: int| 0 <= j < all.len() implies '0' <= #[trigger] all[j] <= '9' by {
                        assert(all[j] == cs@[start + j]);
                    }
                    lemma_decimal_grows(all, (i + 1 - start) as int);
                    assert(all.take((i + 1 - start) as int) =~= cs@.subrange(start as int, i + 1));
                }
            }
            return None;
        }
        v = v * 10 + d;
        i = i + 1;
    }
    Some(v as u8)
}

proof fn lemma_decimal_grows(s: Seq<char>, k: int)
    requires
        0 <= k <= s.len(),
        forall|i: int| 0 <= i < s.len() ==> '0' <= #[trigger] s[i] <= '9',
    ensures
        decimal_value(s) >= decimal_value(s.take(k)),
    decreases s.len(),
{
    if k < s.len() {
        assert(s.drop_last().take(k) =~= s.take(k));
        lemma_decimal_grows(s.drop_last(), k);
    } else {
        assert(s.take(k) =~= s);
    }
}

/// The rule for one facet value: `criteria:value`, the grade as a number.
pub fn facet_clause(field: FacetField, value: &str) -> (r: Result<SavedSearch, BridgeError>)
    ensures
        field == FacetField::Grade && u8_text(value@) is None ==> r is Err && r->Err_0.message()
            == "grade filter must be 1, 2 or 3"@,
        field == FacetField::Grade && u8_text(value@) is Some ==> (r matches Ok(
            SavedSearch::Rule { criteria, operation, value: RuleValue::Literal(n) },
        ) && criteria@ == "rating"@ && operation@ == ":"@ && n@ == crate::text::decimal_text(
            u8_text(value@)->0 as nat,
        )),
        field != FacetField::Grade ==> (r matches Ok(
            SavedSearch::Rule { criteria, operation, value: RuleValue::Text(t) },
        ) && criteria@ == facet_criteria(field) && operation@ == ":"@ && t@ == value@),
{
    let (criteria, v) = match field {
        FacetField::Decision => ("decision", RuleValue::Text(String::from_str(value))),
        FacetField::Grade => match parse_u8(value) {
            Some(n) => ("rating", RuleValue::Literal(crate::text::u8_decimal(n))),
            None => {
                return Err(failure("grade filter must be 1, 2 or 3"));
            },
        },
        FacetField::Mark => ("mark", RuleValue::Text(String::from_str(value))),
        FacetField::Camera => ("camera", RuleValue::Text(String::from_str(value))),
        FacetField::Lens => ("lens", RuleValue::Text(String::from_str(value))),
        FacetField::Keyword => ("keyword", RuleValue::Text(String::from_str(value))),
        FacetField::Album => ("album", RuleValue::Text(String::from_str(value))),
        FacetField::Date => ("date", RuleValue::Text(String::from_str(value))),
    };
    Ok(SavedSearch::Rule { criteria: String::from_str(criteria), operation: String::from_str(":"), value: v })
}

/// The text of the rule one facet value gives; `None` for a grade that
/// does not parse.
pub open spec fn facet_text(field: FacetField, value: Seq<char>) -> Option<Seq<char>> {
    if field == FacetField::Grade {
        match u8_text(value) {
            Some(n) => Some("rating:"@ + crate::text::decimal_text(n as nat)),
            None => None,
        }
    } else {
        Some(facet_criteria(field) + ":"@ + quoted(value))
    }
}

proof fn lemma_facet_clause_text(field: FacetField, value: Seq<char>, c: SavedSearch)
    requires
        field == FacetField::Grade ==> (c matches SavedSearch::Rule { criteria, operation, value: RuleValue::Literal(n) }
            && criteria@ == "rating"@ && operation@ == ":"@ && n@ == crate::text::decimal_text(u8_text(value)->0 as nat)),
        field == FacetField::Grade ==> u8_text(value) is Some,
        field != FacetField::Grade ==> (c matches SavedSearch::Rule { criteria, operation, value: RuleValue::Text(t) }
            && criteria@ == facet_criteria(field) && operation@ == ":"@ && t@ == value),
    ensures
        facet_text(field, value) == Some(search_text(c, false)),
        c is Rule,
{
    reveal_strlit("text");
    reveal_strlit("rating");
    reveal_strlit("decision");
    reveal_strlit("mark");
    reveal_strlit("camera");
    reveal_strlit("lens");
    reveal_strlit("keyword");
    reveal_strlit("album");
    reveal_strlit("date");
    reveal_strlit(":");
    reveal_strlit("rating:");
    if field == FacetField::Grade {
        assert("rating"@ + ":"@ =~= "rating:"@);
    } else {
        let c = facet_criteria(field);
        assert(c.len() != 4 || c[0] != 't');
        assert(c != "text"@) by {
            if c.len() == 4 {
                assert(c[0] != "text"@[0]);
            }
        }
    }
}

/// The values of a filter that are not blank, in order.
pub open spec fn nonblank(values: Seq<Seq<char>>) -> Seq<Seq<char>>
    decreases values.len(),
{
    if values.len() == 0 {
        Seq::empty()
    } else {
        let before = nonblank(values.drop_last());
        if trimmed(values.last()).len() > 0 {
            before.push(values.last())
        } else {
            before
        }
    }
}

pub open spec fn value_texts(v: Seq<String>) -> Seq<Seq<char>> {
    v.map_values(|s: String| s@)
}

/// Every value gives a rule.
pub open spec fn all_parse(field: FacetField, values: Seq<Seq<char>>) -> bool {
    forall|k: int| 0 <= k < values.len() ==> (#[trigger] facet_text(field, values[k])) is Some
}

/// The OR of the rules of the values (the rule itself for one value).
pub open spec fn clause_text(field: FacetField, values: Seq<Seq<char>>) -> Seq<char> {
    join(values.map_values(|v: Seq<char>| facet_text(field, v)->0), " OR "@)
}

/// The clause of each filter with values, in order, as (field, rule text);
/// `None` when a value does not give a rule.
pub open spec fn filter_outcome(filters: Seq<FacetFilter>) -> Option<Seq<(FacetField, Seq<char>)>>
    decreases filters.len(),
{
    if filters.len() == 0 {
        Some(Seq::empty())
    } else {
        match filter_outcome(filters.drop_last()) {
            None => None,
            Some(before) => {
                let f = filters.last();
                let vals = nonblank(value_texts(f.values@));
                if !all_parse(f.field, vals) {
                    None
                } else if vals.len() == 0 {
                    Some(before)
                } else {
                    Some(before.push((f.field, clause_text(f.field, vals))))
                }
            },
        }
    }
}

/// A filter's clause: its non-blank values as rules, ORed when several.
fn filter_clause(filter: &FacetFilter) -> (r: Result<Option<SavedSearch>, BridgeError>)
    ensures
        ({
            let vals = nonblank(value_texts(filter.values@));
            if !all_parse(filter.field, vals) {
                r matches Err(e) && e.message() == "grade filter must be 1, 2 or 3"@
            } else if vals.len() == 0 {
                r matches Ok(None)
            } else {
                r matches Ok(Some(c)) && search_text(c, true) == clause_text(filter.field, vals)
                    && (vals.len() == 1 ==> c is Rule)
                    && (vals.len() > 1 ==> (c matches SavedSearch::Any(v) && v@.len() == vals.len()))
            }
        }),
{
    let field = filter.field;
    let mut rules: Vec<SavedSearch> = Vec::new();
    let ghost texts = value_texts(filter.values@);
    let mut i: usize = 0;
    while i < filter.values.len()
        invariant
            i <= filter.values.len(),
            texts == value_texts(filter.values@),
            field == filter.field,
            all_parse(field, nonblank(texts.take(i as int))),
            rules@.len() == nonblank(texts.take(i as int)).len(),
            forall|k: int| 0 <= k < rules@.len() ==> (#[trigger] rules@[k]) is Rule
                && facet_text(field, nonblank(texts.take(i as int))[k]) == Some(search_text(rules@[k], false)),
        decreases filter.values.len() - i,
    {
        let v = &filter.values[i];
        let ghost before = nonblank(texts.take(i as int));
        proof {
            assert(texts.take(i + 1).drop_last() =~= texts.take(i as int));
            assert(texts.take(i + 1).last() == v@);
        }
        let t = trim(v.as_str());
        if t.unicode_len() > 0 {
            let c = match facet_clause(field, v.as_str()) {
                Ok(c) => c,
                Err(e) => {
                    proof {
                        let now = nonblank(texts.take(i + 1));
                        assert(now == before.push(v@));
                        assert(facet_text(field, now[now.len() - 1]) is None);
                        assert(nonblank(texts) == nonblank(texts.take(i + 1)) + nonblank(texts.skip(i + 1))) by {
                            lemma_nonblank_split(texts, i + 1);
                        }
                        assert(nonblank(texts)[now.len() - 1] == now[now.len() - 1]);
                    }
                    return Err(e);
                },
            };
            proof {
                lemma_facet_clause_text(field, v@, c);
            }
            rules.push(c);
        }
        i = i + 1;
    }
    proof {
        assert(texts.take(texts.len() as int) =~= texts);
    }
    let ghost vals = nonblank(texts);
    if rules.len() == 0 {
        return Ok(None);
    }
    if rules.len() == 1 {
        let c = rules.pop().unwrap();
        proof {
            assert(vals.map_values(|v: Seq<char>| facet_text(field, v)->0) =~= seq![search_text(c, false)]);
        }
        return Ok(Some(c));
    }
    let ghost rs = rules@;
    proof {
        lemma_texts_index(rs);
        assert(search_texts(rs) =~= vals.map_values(|v: Seq<char>| facet_text(field, v)->0));
    }
    Ok(Some(SavedSearch::Any(rules)))
}

proof fn lemma_nonblank_split(s: Seq<Seq<char>>, k: int)
    requires
        0 <= k <= s.len(),
    ensures
        nonblank(s) == nonblank(s.take(k)) + nonblank(s.skip(k)),
    decreases s.len() - k,
{
    if k == s.len() {
        assert(s.take(k) =~= s);
        assert(s.skip(k) =~= Seq::<Seq<char>>::empty());
        assert(nonblank(s) + Seq::<Seq<char>>::empty() =~= nonblank(s));
    } else {
        lemma_nonblank_split(s, k + 1);
        assert(s.take(k + 1).drop_last() =~= s.take(k));
        assert(s.take(k + 1).last() == s[k]);
        lemma_nonblank_prepend(s.skip(k), s[k]);
        assert(s.skip(k) =~= seq![s[k]] + s.skip(k + 1));
        assert(s.skip(k).drop_first() =~= s.skip(k + 1));
        if trimmed(s[k]).len() > 0 {
            assert(nonblank(s.take(k + 1)) == nonblank(s.take(k)).push(s[k]));
            assert(nonblank(s.take(k)).push(s[k]) + nonblank(s.skip(k + 1)) =~= nonblank(s.take(k)) + (seq![s[k]] + nonblank(s.skip(k + 1))));
        } else {
            assert(nonblank(s.take(k + 1)) == nonblank(s.take(k)));
        }
    }
}

proof fn lemma_nonblank_prepend(s: Seq<Seq<char>>, x: Seq<char>)
    requires
        s.len() > 0,
        x == s[0],
    ensures
        nonblank(s) == (if trimmed(x).len() > 0 { seq![x] + nonblank(s.drop_first()) } else { nonblank(s.drop_first()) }),
    decreases s.len(),
{
    if s.len() == 1 {
        assert(s.drop_first() =~= Seq::<Seq<char>>::empty());
        assert(s.drop_last() =~= Seq::<Seq<char>>::empty());
        if trimmed(x).len() > 0 {
            assert(seq![x] + Seq::<Seq<char>>::empty() =~= seq![x]);
            assert(Seq::<Seq<char>>::empty().push(x) =~= seq![x]);
        }
    } else {
        let p = s.drop_last();
        lemma_nonblank_prepend(p, x);
        assert(p.drop_first() =~= s.drop_first().drop_last());
        assert(s.drop_first().last() == s.last());
        if trimmed(x).len() > 0 {
            if trimmed(s.last()).len() > 0 {
                assert((seq![x] + nonblank(p.drop_first())).push(s.last()) =~= seq![x] + nonblank(p.drop_first()).push(s.last()));
            }
        }
    }
}

/// The clauses of a search's facet filters, each with its field: the
/// non-blank values of a filter ORed, filters without values left out.
pub fn filter_clauses(filters: &Vec<FacetFilter>) -> (r: Result<Vec<(FacetField, SavedSearch)>, BridgeError>)
    ensures
        match filter_outcome(filters@) {
            Some(expected) => r matches Ok(v) && v@.len() == expected.len() && forall|k: int|
                0 <= k < expected.len() ==> (#[trigger] v@[k]).0 == expected[k].0 && search_text(v@[k].1, true)
                    == expected[k].1,
            None => r matches Err(e) && e.message() == "grade filter must be 1, 2 or 3"@,
        },
{
    let mut out: Vec<(FacetField, SavedSearch)> = Vec::new();
    let mut i: usize = 0;
    while i < filters.len()
        invariant
            i <= filters.len(),
            filter_outcome(filters@.take(i as int)) matches Some(expected) && out@.len() == expected.len()
                && forall|k: int| 0 <= k < expected.len() ==> (#[trigger] out@[k]).0 == expected[k].0
                    && search_text(out@[k].1, true) == expected[k].1,
        decreases filters.len() - i,
    {
        proof {
            assert(filters@.take(i + 1).drop_last() =~= filters@.take(i as int));
            assert(filters@.take(i + 1).last() == filters@[i as int]);
        }
        match filter_clause(&filters[i]) {
            Err(e) => {
                proof {
                    assert(filter_outcome(filters@.take(i + 1)) is None);
                    lemma_outcome_fails(filters@, i + 1);
                }
                return Err(e);
            },
            Ok(None) => {},
            Ok(Some(c)) => {
                out.push((filters[i].field, c));
            },
        }
        i = i + 1;
    }
    proof {
        assert(filters@.take(filters.len() as int) =~= filters@);
    }
    Ok(out)
}

proof fn lemma_outcome_fails(filters: Seq<FacetFilter>, k: int)
    requires
        0 <= k <= filters.len(),
        filter_outcome(filters.take(k)) is None,
    ensures
        filter_outcome(filters) is None,
    decreases filters.len() - k,
{
    if k < filters.len() {
        assert(filters.take(k + 1).drop_last() =~= filters.take(k));
        lemma_outcome_fails(filters, k + 1);
    } else {
        assert(filters.take(k) =~= filters);
    }
}

/// The texts of clauses, each as a root or a nested search.
pub open spec fn texts_at(v: Seq<SavedSearch>, root: bool) -> Seq<Seq<char>> {
    v.map_values(|c: SavedSearch| search_text(c, root))
}

/// The texts of the filter clauses, without those of field `skip`.
pub open spec fn filter_texts(filters: Seq<(FacetField, SavedSearch)>, skip: Option<FacetField>, root: bool) -> Seq<Seq<char>>
    decreases filters.len(),
{
    if filters.len() == 0 {
        Seq::empty()
    } else {
        let before = filter_texts(filters.drop_last(), skip, root);
        if skip == Some(filters.last().0) {
            before
        } else {
            before.push(search_text(filters.last().1, root))
        }
    }
}

pub open spec fn optional_text(c: Option<SavedSearch>, root: bool) -> Seq<Seq<char>> {
    match c {
        Some(s) => seq![search_text(s, root)],
        None => Seq::empty(),
    }
}

/// The texts of a request's clauses: the scope's, the text's, then the
/// filters' but those of field `skip`.
pub open spec fn clause_texts(
    scope: Option<SavedSearch>,
    text: Option<SavedSearch>,
    filters: Seq<(FacetField, SavedSearch)>,
    skip: Option<FacetField>,
    root: bool,
) -> Seq<Seq<char>> {
    optional_text(scope, root) + optional_text(text, root) + filter_texts(filters, skip, root)
}

/// The clauses a search runs: the scope's, the text's, then each filter's
/// (each facet counts over all clauses but its own field's).
pub fn request_clauses(
    scope: &Option<SavedSearch>,
    text: &Option<SavedSearch>,
    filters: &Vec<(FacetField, SavedSearch)>,
    skip: Option<FacetField>,
) -> (r: Vec<SavedSearch>)
    ensures
        r@.len() == clause_texts(*scope, *text, filters@, skip, false).len(),
        forall|root: bool| #[trigger] clause_texts(*scope, *text, filters@, skip, root).len() == r@.len(),
        forall|k: int, root: bool|
            0 <= k < r@.len() ==> search_text(#[trigger] r@[k], root) == #[trigger] clause_texts(
                *scope,
                *text,
                filters@,
                skip,
                root,
            )[k],
{
    let mut out: Vec<SavedSearch> = Vec::new();
    match scope {
        Some(c) => out.push(copy_search(c)),
        None => {},
    }
    match text {
        Some(c) => out.push(copy_search(c)),
        None => {},
    }
    let ghost head = out@;
    assert forall|root: bool| optional_text(*scope, root) + optional_text(*text, root) =~= texts_at(head, root) by {}
    let mut i: usize = 0;
    while i < filters.len()
        invariant
            i <= filters.len(),
            forall|root: bool|
                #[trigger] texts_at(out@, root) == optional_text(*scope, root)
                    + optional_text(*text, root) + filter_texts(filters@.take(i as int), skip, root),
        decreases filters.len() - i,
    {
        proof {
            assert(filters@.take(i + 1).drop_last() =~= filters@.take(i as int));
            assert(filters@.take(i + 1).last() == filters@[i as int]);
        }
        let keep = match skip {
            Some(f) => f != filters[i].0,
            None => true,
        };
        if keep {
            let c = copy_search(&filters[i].1);
            let ghost before = out@;
            out.push(c);
            proof {
                assert forall|root: bool| #[trigger] texts_at(out@, root)
                    == optional_text(*scope, root) + optional_text(*text, root) + filter_texts(
                    filters@.take(i + 1),
                    skip,
                    root,
                ) by {
                    assert(texts_at(out@, root) =~= texts_at(before, root).push(search_text(filters@[i as int].1, root)));
                }
            }
        }
        i = i + 1;
    }
    proof {
        assert(filters@.take(filters.len() as int) =~= filters@);
        assert forall|k: int, root: bool| 0 <= k < out@.len() implies search_text(#[trigger] out@[k], root)
            == #[trigger] clause_texts(*scope, *text, filters@, skip, root)[k] by {
            assert(texts_at(out@, root)[k] == search_text(out@[k], root));
        }
        assert forall|root: bool| #[trigger] clause_texts(*scope, *text, filters@, skip, root).len() == out@.len() by {
            assert(texts_at(out@, root).len() == out@.len());
        }
    }
    out
}

/// The grammar text equivalent to a request: its clauses ANDed; empty
/// without any.
pub open spec fn request_rule_of(
    scope: Option<SavedSearch>,
    text: Option<SavedSearch>,
    filters: Seq<(FacetField, SavedSearch)>,
) -> Seq<char> {
    let parts = clause_texts(scope, text, filters, None, false);
    if parts.len() == 0 {
        Seq::empty()
    } else if parts.len() == 1 {
        clause_texts(scope, text, filters, None, true)[0]
    } else {
        join(parts, " AND "@)
    }
}

/// The rule a request shows: empty without clauses; else the text of its
/// clauses ANDed ([`rule_text`]): readable, or the canonical form
/// `canonical` when the readable text does not parse back.
pub fn request_rule(
    scope: &Option<SavedSearch>,
    text: &Option<SavedSearch>,
    filters: &Vec<(FacetField, SavedSearch)>,
    canonical: Option<String>,
) -> (r: String)
    ensures
        r@ == (if clause_texts(*scope, *text, filters@, None, false).len() == 0 {
            Seq::<char>::empty()
        } else {
            match canonical {
                Some(c) => c@,
                None => request_rule_of(*scope, *text, filters@),
            }
        }),
{
    let clauses = request_clauses(scope, text, filters, None);
    let ghost cs = clauses@;
    proof {
        assert(clause_texts(*scope, *text, filters@, None, true).len() == cs.len());
        if cs.len() >= 2 {
            lemma_texts_index(cs);
            assert(search_texts(cs) =~= clause_texts(*scope, *text, filters@, None, false));
        }
    }
    match all_of(clauses) {
        Some(c) => rule_text(&c, canonical),
        None => String::new(),
    }
}

// ─────────────────────────────── scope ───────────────────────────────

/// A smart album as the scope lookup needs it.
#[derive(Clone, Copy, Debug)]
pub struct SmartAlbumRef {
    pub id: i64,
    pub scoped: bool,
    pub parent: Option<i64>,
}

/// The first smart album with id `id` and the scoped flag.
pub open spec fn first_scoped(albums: Seq<SmartAlbumRef>, id: i64) -> Option<SmartAlbumRef>
    decreases albums.len(),
{
    if albums.len() == 0 {
        None
    } else if albums[0].id == id && albums[0].scoped {
        Some(albums[0])
    } else {
        first_scoped(albums.drop_first(), id)
    }
}

/// The group a search is scoped to: the group itself, or the parent of a
/// scoped smart album.
pub fn scope_group(smart_albums: &Vec<SmartAlbumRef>, scope: SearchScope) -> (r: Option<i64>)
    ensures
        r == match scope {
            SearchScope::Group { id } => Some(id),
            SearchScope::SmartAlbum { id } => match first_scoped(smart_albums@, id) {
                Some(a) => a.parent,
                None => None,
            },
            _ => None,
        },
{
    match scope {
        SearchScope::Group { id } => Some(id),
        SearchScope::SmartAlbum { id } => {
            let mut i: usize = 0;
            proof {
                assert(smart_albums@.skip(0) =~= smart_albums@);
            }
            while i < smart_albums.len()
                invariant
                    i <= smart_albums.len(),
                    scope == (SearchScope::SmartAlbum { id }),
                    first_scoped(smart_albums@, id) == first_scoped(smart_albums@.skip(i as int), id),
                decreases smart_albums.len() - i,
            {
                proof {
                    assert(smart_albums@.skip(i as int).drop_first() =~= smart_albums@.skip(i + 1));
                }
                assert(smart_albums@.skip(i as int)[0] == smart_albums@[i as int]);
                if smart_albums[i].id == id && smart_albums[i].scoped {
                    assert(first_scoped(smart_albums@.skip(i as int), id) == Some(smart_albums@[i as int]));
                    return smart_albums[i].parent;
                }
                i = i + 1;
            }
            None
        },
        _ => None,
    }
}

// ─────────────────────────────── album order ───────────────────────────────

/// An image's place in an album (its last position there), `usize::MAX`
/// when the album does not hold it.
pub open spec fn album_rank(album: Seq<u128>, id: u128) -> int
    decreases album.len(),
{
    if album.len() == 0 {
        usize::MAX as int
    } else if album.last() == id {
        album.len() - 1
    } else {
        album_rank(album.drop_last(), id)
    }
}

fn album_rank_exec(album: &Vec<u128>, id: u128) -> (r: usize)
    ensures
        r == album_rank(album@, id),
{
    let mut end = album.len();
    assert(album@.take(end as int) =~= album@);
    while end > 0
        invariant
            end <= album.len(),
            album_rank(album@, id) == album_rank(album@.take(end as int), id),
        decreases end,
    {
        proof {
            assert(album@.take(end as int).drop_last() =~= album@.take(end - 1));
        }
        if album[end - 1] == id {
            return end - 1;
        }
        end = end - 1;
    }
    usize::MAX
}

pub open spec fn rank_before(a: (int, int), b: (int, int)) -> bool {
    a.0 < b.0 || (a.0 == b.0 && a.1 < b.1)
}

/// `out` lists `found` in `order`, which sorts it by album rank, keeping the
/// search's order among equal ranks.
pub open spec fn album_sorted(out: Seq<u128>, found: Seq<u128>, album: Seq<u128>, order: Seq<usize>) -> bool {
    &&& out.len() == found.len()
    &&& order.len() == found.len()
    &&& forall|n: int| 0 <= n < order.len() ==> #[trigger] order[n] < found.len()
    &&& forall|n: int, m: int|
        0 <= n < m < order.len() ==> rank_before(
            (album_rank(album, found[#[trigger] order[n] as int]), order[n] as int),
            (album_rank(album, found[#[trigger] order[m] as int]), order[m] as int),
        )
    &&& forall|n: int| 0 <= n < order.len() ==> #[trigger] out[n] == found[order[n] as int]
}

/// Search results of an album scope in album order; images the album does
/// not hold come last, in the search's order.
pub fn in_album_order(found: &Vec<u128>, album: &Vec<u128>) -> (r: Vec<u128>)
    ensures
        exists|order: Seq<usize>| #[trigger] album_sorted(r@, found@, album@, order),
{
    let m = found.len();
    let mut ranks: Vec<usize> = Vec::new();
    let mut i: usize = 0;
    while i < m
        invariant
            m == found.len(),
            i <= m,
            ranks.len() == i,
            forall|j: int| 0 <= j < i ==> #[trigger] ranks@[j] == album_rank(album@, found@[j]),
        decreases m - i,
    {
        ranks.push(album_rank_exec(album, found[i]));
        i = i + 1;
    }
    let mut order: Vec<usize> = Vec::new();
    let mut i: usize = 0;
    while i < m
        invariant
            m == found.len(),
            ranks.len() == m,
            forall|j: int| 0 <= j < m ==> #[trigger] ranks@[j] == album_rank(album@, found@[j]),
            i <= m,
            order.len() == i,
            forall|n: int| 0 <= n < order.len() ==> #[trigger] order@[n] < i,
            forall|n: int, q: int|
                0 <= n < q < order.len() ==> rank_before(
                    (album_rank(album@, found@[#[trigger] order@[n] as int]), order@[n] as int),
                    (album_rank(album@, found@[#[trigger] order@[q] as int]), order@[q] as int),
                ),
        decreases m - i,
    {
        let mut k: usize = 0;
        while k < order.len() && !(ranks[i] < ranks[order[k]])
            invariant
                m == found.len(),
                ranks.len() == m,
                forall|j: int| 0 <= j < m ==> #[trigger] ranks@[j] == album_rank(album@, found@[j]),
                i < m,
                k <= order.len(),
                forall|n: int| 0 <= n < order.len() ==> #[trigger] order@[n] < i,
                forall|n: int|
                    0 <= n < k ==> rank_before(
                        (album_rank(album@, found@[#[trigger] order@[n] as int]), order@[n] as int),
                        (album_rank(album@, found@[i as int]), i as int),
                    ),
            decreases order.len() - k,
        {
            assert(ranks@[order@[k as int] as int] == album_rank(album@, found@[order@[k as int] as int]));
            k = k + 1;
        }
        let ghost before = order@;
        proof {
            if k < order.len() {
                assert(ranks@[order@[k as int] as int] == album_rank(album@, found@[order@[k as int] as int]));
            }
        }
        order.insert(k, i);
        proof {
            let now = order@;
            assert(now =~= before.insert(k as int, i));
            assert forall|n: int, q: int|
                0 <= n < q < now.len() implies rank_before(
                    (album_rank(album@, found@[#[trigger] now[n] as int]), now[n] as int),
                    (album_rank(album@, found@[#[trigger] now[q] as int]), now[q] as int),
                ) by {
                if q < k {
                    assert(now[n] == before[n] && now[q] == before[q]);
                } else if q == k {
                    assert(now[n] == before[n]);
                } else if n < k {
                    assert(now[q] == before[q - 1] && now[n] == before[n]);
                } else if n == k {
                    assert(now[q] == before[q - 1]);
                } else {
                    assert(now[q] == before[q - 1] && now[n] == before[n - 1]);
                }
            }
        }
        i = i + 1;
    }
    let mut out: Vec<u128> = Vec::new();
    let mut n: usize = 0;
    while n < m
        invariant
            m == found.len(),
            order.len() == m,
            forall|q: int| 0 <= q < order.len() ==> #[trigger] order@[q] < m,
            n <= m,
            out.len() == n,
            forall|q: int| 0 <= q < n ==> #[trigger] out@[q] == found@[order@[q] as int],
        decreases m - n,
    {
        out.push(found[order[n]]);
        n = n + 1;
    }
    proof {
        assert(album_sorted(out@, found@, album@, order@));
    }
    out
}

} // verus!
