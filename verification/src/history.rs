//! Develop history as the History panel shows it: step toggles replayed
//! along the lineage, step titles from the controls they set, the redo path,
//! and the viewport's surface ring and pyramid levels.
use vstd::prelude::*;
use vstd::string::*;
use crate::text::{chars_of, push_char, string_of, same_text, concat_str, u64_decimal, decimal_text};
use crate::ids::{BridgeError, failure};

verus! {

broadcast use vstd::std_specs::btree::group_btree_axioms;

/// Who recorded a history step.
#[derive(Clone, Debug)]
pub enum Author {
    User,
    Agent { name: String },
    Import { source: String },
    Preset { style: String },
    Sync { from: String },
}

/// A recorded develop step: its id and parent, label, author, group,
/// rationale and the settings paths it changes (`/tone/exposure`, …).
#[derive(Clone, Debug)]
pub struct HistoryEntry {
    pub id: u64,
    pub parent: Option<u64>,
    pub label: String,
    pub author: Author,
    pub group: Option<u32>,
    pub rationale: Option<String>,
    pub timestamp_ms: i64,
    pub change_paths: Vec<String>,
}

// ─────────────────────────────── numbers ───────────────────────────────

pub open spec fn digits_value(s: Seq<char>) -> nat
    decreases s.len(),
{
    if s.len() == 0 {
        0
    } else {
        (digits_value(s.drop_last()) * 10 + (s.last() as int - '0' as int)) as nat
    }
}

/// Text `str::parse::<u64>` accepts: an optional `+`, then one or more
/// digits whose value fits in 64 bits.
pub open spec fn u64_text(s: Seq<char>) -> Option<u64> {
    let start = if s.len() > 0 && s[0] == '+' { 1int } else { 0int };
    if s.len() - start >= 1 && (forall|i: int| start <= i < s.len() ==> '0' <= #[trigger] s[i] <= '9')
        && digits_value(s.subrange(start, s.len() as int)) <= u64::MAX {
        Some(digits_value(s.subrange(start, s.len() as int)) as u64)
    } else {
        None
    }
}

proof fn lemma_digits_grow(s: Seq<char>, k: int)
    requires
        0 <= k <= s.len(),
        forall|i: int| 0 <= i < s.len() ==> '0' <= #[trigger] s[i] <= '9',
    ensures
        digits_value(s) >= digits_value(s.take(k)),
    decreases s.len(),
{
    if k < s.len() {
        assert(s.drop_last().take(k) =~= s.take(k));
        lemma_digits_grow(s.drop_last(), k);
    } else {
        assert(s.take(k) =~= s);
    }
}

/// `str::parse::<u64>` on the characters `cs` (see [`u64_text`]).
pub fn parse_u64(cs: &Vec<char>) -> (r: Option<u64>)
    ensures
        r == u64_text(cs@),
{
    let start: usize = if cs.len() > 0 && cs[0] == '+' { 1 } else { 0 };
    if cs.len() - start < 1 {
        return None;
    }
    let mut v: u64 = 0;
    let mut i = start;
    while i < cs.len()
        invariant
            start <= i <= cs.len(),
            start == (if cs@.len() > 0 && cs@[0] == '+' { 1int } else { 0int }),
            forall|j: int| start <= j < i ==> '0' <= #[trigger] cs@[j] <= '9',
            v == digits_value(cs@.subrange(start as int, i as int)),
        decreases cs.len() - i,
    {
        let c = cs[i];
        if !('0' <= c && c <= '9') {
            return None;
        }
        let d = (c as u64) - ('0' as u64);
        proof {
            assert(cs@.subrange(start as int, i + 1).drop_last() =~= cs@.subrange(start as int, i as int));
        }
        if v > (0xffff_ffff_ffff_ffffu64 - d) / 10 {
            proof {
                assert(v * 10 + d > u64::MAX) by (nonlinear_arith)
                    requires
                        v > (0xffff_ffff_ffff_ffffu64 - d) / 10,
                        d <= 9,
                ;
                let all = cs@.subrange(start as int, cs@.len() as int);
                if forall|j: int| start <= j < cs@.len() ==> '0' <= #[trigger] cs@[j] <= '9' {
                    assert forall|j: int| 0 <= j < all.len() implies '0' <= #[trigger] all[j] <= '9' by {
                        assert(all[j] == cs@[start + j]);
                    }
                    lemma_digits_grow(all, (i + 1 - start) as int);
                    assert(all.take((i + 1 - start) as int) =~= cs@.subrange(start as int, i + 1));
                }
            }
            return None;
        }
        v = v * 10 + d;
        i = i + 1;
    }
    Some(v)
}

// ─────────────────────────────── step toggles ───────────────────────────────

/// The rationale prefix of a step that turns another step off or on.
pub open spec fn toggle_marker() -> Seq<char> {
    "tessera:step-toggle"@
}

/// Position of the first `c` in `s` at or after `from`, or `s.len()`.
pub open spec fn find_from(s: Seq<char>, from: int, c: char) -> int
    decreases s.len() - from,
{
    if from >= s.len() || from < 0 {
        s.len() as int
    } else if s[from] == c {
        from
    } else {
        find_from(s, from + 1, c)
    }
}

/// Position of the first character of `s` that is not `c`, or `s.len()`.
pub open spec fn skip_char(s: Seq<char>, from: int, c: char) -> int
    decreases s.len() - from,
{
    if from >= s.len() || from < 0 {
        s.len() as int
    } else if s[from] != c {
        from
    } else {
        skip_char(s, from + 1, c)
    }
}

/// `(step, enabled)` of a toggle step: the rationale is the marker, any
/// colons, the step id, `:` and `on` or `off` (anything after a further `:`
/// is ignored).
pub open spec fn toggle_of_rationale(r: Seq<char>) -> Option<(u64, bool)> {
    let m = toggle_marker();
    if r.len() < m.len() || r.take(m.len() as int) != m {
        None
    } else {
        let a = skip_char(r, m.len() as int, ':');
        let b = find_from(r, a, ':');
        if b >= r.len() {
            None
        } else {
            let c = find_from(r, b + 1, ':');
            let state = r.subrange(b + 1, c);
            match u64_text(r.subrange(a, b)) {
                None => None,
                Some(id) => if state == "on"@ {
                    Some((id, true))
                } else if state == "off"@ {
                    Some((id, false))
                } else {
                    None
                },
            }
        }
    }
}

pub open spec fn toggle_of_entry(e: HistoryEntry) -> Option<(u64, bool)> {
    match e.rationale {
        Some(r) => toggle_of_rationale(r@),
        None => None,
    }
}

fn find_exec(s: &Vec<char>, from: usize, c: char) -> (r: usize)
    requires
        from <= s.len(),
    ensures
        r == find_from(s@, from as int, c),
        from <= r <= s.len(),
{
    let mut i = from;
    while i < s.len() && s[i] != c
        invariant
            from <= i <= s.len(),
            find_from(s@, from as int, c) == find_from(s@, i as int, c),
        decreases s.len() - i,
    {
        i = i + 1;
    }
    i
}

fn skip_exec(s: &Vec<char>, from: usize, c: char) -> (r: usize)
    requires
        from <= s.len(),
    ensures
        r == skip_char(s@, from as int, c),
        from <= r <= s.len(),
{
    let mut i = from;
    while i < s.len() && s[i] == c
        invariant
            from <= i <= s.len(),
            skip_char(s@, from as int, c) == skip_char(s@, i as int, c),
        decreases s.len() - i,
    {
        i = i + 1;
    }
    i
}

fn slice_chars(s: &Vec<char>, a: usize, b: usize) -> (r: Vec<char>)
    requires
        a <= b <= s.len(),
    ensures
        r@ == s@.subrange(a as int, b as int),
{
    let mut r: Vec<char> = Vec::new();
    let mut i = a;
    while i < b
        invariant
            a <= i <= b,
            b <= s.len(),
            r@ == s@.subrange(a as int, i as int),
        decreases b - i,
    {
        r.push(s[i]);
        i = i + 1;
        assert(r@ =~= s@.subrange(a as int, i as int));
    }
    r
}

/// The step a toggle entry turns off or on, and which.
pub fn toggle_of(e: &HistoryEntry) -> (r: Option<(u64, bool)>)
    ensures
        r == toggle_of_entry(*e),
{
    let rationale = match &e.rationale {
        Some(r) => r,
        None => {
            return None;
        },
    };
    assert(e.rationale == Some(*rationale));
    let r = chars_of(rationale.as_str());
    assert(toggle_of_entry(*e) == toggle_of_rationale(r@));
    let m = chars_of("tessera:step-toggle");
    assert(m@ == toggle_marker());
    if r.len() < m.len() {
        return None;
    }
    let mut k: usize = 0;
    while k < m.len()
        invariant
            m.len() <= r.len(),
            m@ == toggle_marker(),
            toggle_of_entry(*e) == toggle_of_rationale(r@),
            k <= m.len(),
            forall|j: int| 0 <= j < k ==> r@[j] == m@[j],
        decreases m.len() - k,
    {
        if r[k] != m[k] {
            assert(r@.take(m.len() as int)[k as int] != m@[k as int]);
            return None;
        }
        k = k + 1;
    }
    assert(r@.take(m.len() as int) =~= m@);
    let a = skip_exec(&r, m.len(), ':');
    let b = find_exec(&r, a, ':');
    if b >= r.len() {
        return None;
    }
    let c = find_exec(&r, b + 1, ':');
    let state = slice_chars(&r, b + 1, c);
    let id = match parse_u64(&slice_chars(&r, a, b)) {
        Some(id) => id,
        None => {
            return None;
        },
    };
    let on = chars_of("on");
    let off = chars_of("off");
    let st = string_of(&state);
    if same_text(st.as_str(), string_of(&on).as_str()) {
        Some((id, true))
    } else if same_text(st.as_str(), string_of(&off).as_str()) {
        Some((id, false))
    } else {
        None
    }
}

/// Steps turned off after replaying the toggles of `lineage` in order.
pub open spec fn disabled_after(lineage: Seq<HistoryEntry>) -> Set<u64>
    decreases lineage.len(),
{
    if lineage.len() == 0 {
        Set::empty()
    } else {
        let before = disabled_after(lineage.drop_last());
        match toggle_of_entry(lineage.last()) {
            Some((id, true)) => before.remove(id),
            Some((id, false)) => before.insert(id),
            None => before,
        }
    }
}

/// `e` turns `step` off or on.
pub open spec fn toggles(e: HistoryEntry, step: u64) -> bool {
    toggle_of_entry(e) matches Some((s, _)) && s == step
}

/// Entry `k` of `lineage` turns `step` off and no later entry toggles it.
pub open spec fn last_turned_off_at(lineage: Seq<HistoryEntry>, step: u64, k: int) -> bool {
    &&& 0 <= k < lineage.len()
    &&& toggle_of_entry(lineage[k]) == Some((step, false))
    &&& forall|j: int| k < j < lineage.len() ==> !toggles(#[trigger] lineage[j], step)
}

/// A step is off exactly when its latest toggle on the lineage turned it
/// off: replaying the toggles in order, the last one of a step decides.
pub proof fn latest_toggle_decides(lineage: Seq<HistoryEntry>, step: u64)
    ensures
        disabled_after(lineage).contains(step) <==> exists|k: int| #[trigger] last_turned_off_at(lineage, step, k),
    decreases lineage.len(),
{
    if lineage.len() > 0 {
        let p = lineage.drop_last();
        let e = lineage.last();
        let n = lineage.len() - 1;
        latest_toggle_decides(p, step);
        assert(lineage[n] == e);
        if toggles(e, step) {
            match toggle_of_entry(e) {
                Some((s, false)) => {
                    assert(last_turned_off_at(lineage, step, n));
                },
                _ => {
                    assert forall|k: int| !last_turned_off_at(lineage, step, k) by {
                        if 0 <= k < n {
                            assert(toggles(lineage[n], step));
                        }
                    }
                },
            }
        } else {
            assert(disabled_after(lineage).contains(step) == disabled_after(p).contains(step));
            if disabled_after(p).contains(step) {
                let k = choose|k: int| #[trigger] last_turned_off_at(p, step, k);
                assert(lineage[k] == p[k]);
                assert forall|j: int| k < j < lineage.len() implies !toggles(#[trigger] lineage[j], step) by {
                    if j < n {
                        assert(lineage[j] == p[j]);
                    }
                }
                assert(last_turned_off_at(lineage, step, k));
            } else {
                assert forall|k: int| !last_turned_off_at(lineage, step, k) by {
                    if 0 <= k < n && last_turned_off_at(lineage, step, k) {
                        assert(lineage[k] == p[k]);
                        assert forall|j: int| k < j < p.len() implies !toggles(#[trigger] p[j], step) by {
                            assert(lineage[j] == p[j]);
                        }
                        assert(last_turned_off_at(p, step, k));
                    }
                }
            }
        }
    }
}

/// Steps turned off along `lineage` (toggle entries replayed in order).
pub fn disabled_steps(lineage: &Vec<HistoryEntry>) -> (r: std::collections::BTreeSet<u64>)
    ensures
        r@ == disabled_after(lineage@),
{
    let mut off: std::collections::BTreeSet<u64> = std::collections::BTreeSet::new();
    let mut i: usize = 0;
    while i < lineage.len()
        invariant
            i <= lineage.len(),
            off@ == disabled_after(lineage@.take(i as int)),
        decreases lineage.len() - i,
    {
        proof {
            assert(lineage@.take(i + 1).drop_last() =~= lineage@.take(i as int));
            assert(lineage@.take(i + 1).last() == lineage@[i as int]);
        }
        match toggle_of(&lineage[i]) {
            Some((id, enabled)) => {
                if enabled {
                    off.remove(&id);
                } else {
                    off.insert(id);
                }
            },
            None => {},
        }
        i = i + 1;
    }
    proof {
        assert(lineage@.take(lineage.len() as int) =~= lineage@);
    }
    off
}

// ─────────────────────────────── step titles ───────────────────────────────

/// Position of the last `c` in `s` before `end`, or -1.
pub open spec fn last_of(s: Seq<char>, end: int, c: char) -> int
    decreases end,
{
    if end <= 0 {
        -1
    } else if s[end - 1] == c {
        end - 1
    } else {
        last_of(s, end - 1, c)
    }
}

/// The last segment of a settings path (`/tone/exposure` → `exposure`).
pub open spec fn path_token(p: Seq<char>) -> Seq<char> {
    p.skip(last_of(p, p.len() as int, '/') + 1)
}

pub open spec fn underscore_to_space(t: Seq<char>) -> Seq<char> {
    t.map_values(|c: char| if c == '_' { ' ' } else { c })
}

/// The control name a settings path reads as: `temperature` is
/// "Temperature", `mode` switches are implied (none), else the token with
/// spaces for underscores and its first letter in upper case.
pub open spec fn control_name(p: Seq<char>) -> Option<Seq<char>> {
    let t = path_token(p);
    if t == "temperature"@ {
        Some("Temperature"@)
    } else if t == "mode"@ {
        None
    } else {
        let u = underscore_to_space(t);
        if u.len() == 0 {
            Some(u)
        } else {
            Some(seq![crate::text::upper_char(u[0])] + u.drop_first())
        }
    }
}

/// Control names of `paths`, first occurrence first, without empty names.
pub open spec fn control_names(paths: Seq<Seq<char>>) -> Seq<Seq<char>>
    decreases paths.len(),
{
    if paths.len() == 0 {
        Seq::empty()
    } else {
        let before = control_names(paths.drop_last());
        match control_name(paths.last()) {
            Some(n) => if n.len() > 0 && !before.contains(n) {
                before.push(n)
            } else {
                before
            },
            None => before,
        }
    }
}

/// "Exposure, Contrast": the controls a step sets; "No change" for none.
pub open spec fn changes_title_of(paths: Seq<Seq<char>>) -> Seq<char> {
    let names = control_names(paths);
    if names.len() == 0 {
        "No change"@
    } else {
        crate::rules::join(names, ", "@)
    }
}

pub open spec fn texts_of(v: Seq<String>) -> Seq<Seq<char>> {
    v.map_values(|s: String| s@)
}

fn control_name_exec(p: &String) -> (r: Option<String>)
    ensures
        match control_name(p@) {
            Some(n) => r is Some && r->0@ == n,
            None => r is None,
        },
{
    let cs = chars_of(p.as_str());
    let mut i = cs.len();
    while i > 0 && cs[i - 1] != '/'
        invariant
            i <= cs.len(),
            last_of(cs@, cs@.len() as int, '/') == last_of(cs@, i as int, '/'),
        decreases i,
    {
        i = i - 1;
    }
    let t = slice_chars(&cs, i, cs.len());
    proof {
        assert(t@ =~= path_token(p@));
    }
    let ts = string_of(&t);
    if same_text(ts.as_str(), "temperature") {
        return Some(String::from_str("Temperature"));
    }
    if same_text(ts.as_str(), "mode") {
        return None;
    }
    let mut u: Vec<char> = Vec::new();
    let mut k: usize = 0;
    while k < t.len()
        invariant
            k <= t.len(),
            u@ == underscore_to_space(t@.take(k as int)),
        decreases t.len() - k,
    {
        u.push(if t[k] == '_' { ' ' } else { t[k] });
        k = k + 1;
        assert(u@ =~= underscore_to_space(t@.take(k as int)));
    }
    assert(t@.take(t.len() as int) =~= t@);
    if u.len() == 0 {
        return Some(String::new());
    }
    let first = crate::text::ascii_upper(u[0]);
    let mut out = String::new();
    push_char(&mut out, first);
    let rest = slice_chars(&u, 1, u.len());
    out.append(string_of(&rest).as_str());
    proof {
        assert(out@ =~= seq![crate::text::upper_char(u@[0])] + u@.drop_first());
    }
    Some(out)
}

fn contains_text(v: &Vec<String>, s: &String) -> (r: bool)
    ensures
        r == texts_of(v@).contains(s@),
{
    let mut i: usize = 0;
    while i < v.len()
        invariant
            i <= v.len(),
            forall|j: int| 0 <= j < i ==> v@[j]@ != s@,
        decreases v.len() - i,
    {
        if same_text(v[i].as_str(), s.as_str()) {
            assert(texts_of(v@)[i as int] == s@);
            return true;
        }
        i = i + 1;
    }
    proof {
        if texts_of(v@).contains(s@) {
            let j = choose|j: int| 0 <= j < texts_of(v@).len() && texts_of(v@)[j] == s@;
            assert(v@[j]@ == s@);
        }
    }
    false
}

/// "Exposure, Contrast": the controls a step's changes set (agent steps are
/// labelled with tool names such as `set_tone`).
pub fn changes_title(paths: &Vec<String>) -> (r: String)
    ensures
        r@ == changes_title_of(texts_of(paths@)),
{
    let mut names: Vec<String> = Vec::new();
    let mut i: usize = 0;
    while i < paths.len()
        invariant
            i <= paths.len(),
            texts_of(names@) == control_names(texts_of(paths@).take(i as int)),
        decreases paths.len() - i,
    {
        proof {
            assert(texts_of(paths@).take(i + 1).drop_last() =~= texts_of(paths@).take(i as int));
            assert(texts_of(paths@).take(i + 1).last() == paths@[i as int]@);
        }
        match control_name_exec(&paths[i]) {
            Some(name) => {
                if name.unicode_len() > 0 && !contains_text(&names, &name) {
                    let ghost before = names@;
                    names.push(name);
                    proof {
                        assert(texts_of(names@) =~= texts_of(before).push(name@));
                    }
                }
            },
            None => {},
        }
        i = i + 1;
    }
    proof {
        assert(texts_of(paths@).take(paths.len() as int) =~= texts_of(paths@));
    }
    if names.len() == 0 {
        return String::from_str("No change");
    }
    let mut out = String::new();
    let mut k: usize = 0;
    while k < names.len()
        invariant
            k <= names.len(),
            out@ == crate::rules::join(texts_of(names@).take(k as int), ", "@),
        decreases names.len() - k,
    {
        proof {
            let ts = texts_of(names@);
            assert(ts.take(k + 1) =~= ts.take(k as int).push(names@[k as int]@));
            assert(ts.take(k + 1).drop_last() =~= ts.take(k as int));
        }
        if k > 0 {
            out.append(", ");
        }
        out.append(names[k].as_str());
        proof {
            if k == 0 {
                assert(out@ =~= names@[0]@);
            }
        }
        k = k + 1;
    }
    proof {
        assert(texts_of(names@).take(names.len() as int) =~= texts_of(names@));
    }
    out
}

/// A label made only of lower-case ASCII letters and `_` names an engine tool.
pub open spec fn is_tool_label(l: Seq<char>) -> bool {
    l.len() > 0 && forall|i: int| 0 <= i < l.len() ==> ('a' <= #[trigger] l[i] <= 'z' || l[i] == '_')
}

/// History label: agent steps named after an engine tool read as their controls.
pub open spec fn display_label_of(e: HistoryEntry) -> Seq<char> {
    if e.author is Agent && is_tool_label(e.label@) && e.change_paths@.len() > 0 {
        changes_title_of(texts_of(e.change_paths@))
    } else {
        e.label@
    }
}

pub fn display_label(e: &HistoryEntry) -> (r: String)
    ensures
        r@ == display_label_of(*e),
{
    let l = chars_of(e.label.as_str());
    let mut tool = l.len() > 0;
    let mut i: usize = 0;
    while i < l.len()
        invariant
            i <= l.len(),
            tool == (l@.len() > 0 && forall|j: int| 0 <= j < i ==> ('a' <= #[trigger] l@[j] <= 'z' || l@[j] == '_')),
        decreases l.len() - i,
    {
        if !(('a' <= l[i] && l[i] <= 'z') || l[i] == '_') {
            tool = false;
        }
        i = i + 1;
    }
    let agent = match &e.author {
        Author::Agent { .. } => true,
        _ => false,
    };
    if agent && tool && e.change_paths.len() > 0 {
        changes_title(&e.change_paths)
    } else {
        e.label.clone()
    }
}

/// Who recorded a step, as the History panel shows it.
pub open spec fn author_text_of(a: Author) -> Seq<char> {
    match a {
        Author::User => "user"@,
        Author::Agent { name } => "agent:"@ + name@,
        Author::Import { source } => "import:"@ + source@,
        Author::Preset { style } => "preset:"@ + style@,
        Author::Sync { from } => "sync:"@ + from@,
    }
}

pub fn author_text(a: &Author) -> (r: String)
    ensures
        r@ == author_text_of(*a),
{
    match a {
        Author::User => String::from_str("user"),
        Author::Agent { name } => concat_str(&String::from_str("agent:"), name.as_str()),
        Author::Import { source } => concat_str(&String::from_str("import:"), source.as_str()),
        Author::Preset { style } => concat_str(&String::from_str("preset:"), style.as_str()),
        Author::Sync { from } => concat_str(&String::from_str("sync:"), from.as_str()),
    }
}

// ─────────────────────────────── redo path ───────────────────────────────

/// Index of the newest entry whose parent is `cursor`.
pub open spec fn newest_child(entries: Seq<HistoryEntry>, cursor: Option<u64>, end: int) -> Option<int>
    decreases end,
{
    if end <= 0 {
        None
    } else if entries[end - 1].parent == cursor {
        Some(end - 1)
    } else {
        newest_child(entries, cursor, end - 1)
    }
}

/// The steps redo would reapply from `cursor`, newest child first at each
/// step, while the listed items (`listed` so far) do not exceed the entries.
pub open spec fn redo_path(entries: Seq<HistoryEntry>, cursor: Option<u64>, listed: nat) -> Seq<int>
    decreases entries.len() + 1 - listed,
{
    if listed > entries.len() {
        Seq::empty()
    } else {
        match newest_child(entries, cursor, entries.len() as int) {
            None => Seq::empty(),
            Some(i) => seq![i] + redo_path(entries, Some(entries[i].id), listed + 1),
        }
    }
}

proof fn lemma_newest_child_bound(entries: Seq<HistoryEntry>, cursor: Option<u64>, end: int)
    requires
        end <= entries.len(),
    ensures
        newest_child(entries, cursor, end) matches Some(i) ==> 0 <= i < end,
    decreases end,
{
    if end > 0 {
        lemma_newest_child_bound(entries, cursor, end - 1);
    }
}

fn newest_child_exec(entries: &Vec<HistoryEntry>, cursor: Option<u64>) -> (r: Option<usize>)
    ensures
        match newest_child(entries@, cursor, entries@.len() as int) {
            Some(i) => r == Some(i as usize),
            None => r is None,
        },
        r matches Some(i) ==> i < entries.len() && newest_child(entries@, cursor, entries@.len() as int)
            == Some(i as int),
{
    let mut end = entries.len();
    proof {
        lemma_newest_child_bound(entries@, cursor, entries@.len() as int);
    }
    while end > 0
        invariant
            end <= entries.len(),
            newest_child(entries@, cursor, entries@.len() as int) == newest_child(entries@, cursor, end as int),
        decreases end,
    {
        if entries[end - 1].parent == cursor {
            return Some(end - 1);
        }
        end = end - 1;
    }
    None
}

/// Entries (by index) that redo would reapply after the `applied` steps of
/// the current lineage, starting from `head`.
pub fn redo_chain(entries: &Vec<HistoryEntry>, head: Option<u64>, applied: usize) -> (r: Vec<usize>)
    ensures
        r@.map_values(|i: usize| i as int) == redo_path(entries@, head, applied as nat),
{
    let mut out: Vec<usize> = Vec::new();
    let mut cursor = head;
    let mut listed: u128 = applied as u128;
    let ghost total = redo_path(entries@, head, applied as nat);
    proof {
        assert(out@.map_values(|i: usize| i as int) + redo_path(entries@, cursor, listed as nat) =~= total);
    }
    while listed <= entries.len() as u128
        invariant
            total == redo_path(entries@, head, applied as nat),
            out@.map_values(|i: usize| i as int) + redo_path(entries@, cursor, listed as nat) == total,
        decreases entries.len() + 1 - listed,
    {
        match newest_child_exec(entries, cursor) {
            None => {
                proof {
                    assert(out@.map_values(|i: usize| i as int) + Seq::<int>::empty() =~= out@.map_values(|i: usize| i as int));
                }
                return out;
            },
            Some(i) => {
                let ghost before = out@;
                assert(redo_path(entries@, cursor, listed as nat) == seq![i as int] + redo_path(
                    entries@,
                    Some(entries@[i as int].id),
                    (listed + 1) as nat,
                ));
                out.push(i);
                proof {
                    assert(out@.map_values(|i: usize| i as int) =~= before.map_values(|i: usize| i as int).push(i as int));
                    assert(before.map_values(|i: usize| i as int) + (seq![i as int] + redo_path(entries@, Some(entries@[i as int].id), (listed + 1) as nat))
                        =~= out@.map_values(|i: usize| i as int) + redo_path(entries@, Some(entries@[i as int].id), (listed + 1) as nat));
                }
                cursor = Some(entries[i].id);
                listed = listed + 1;
            },
        }
    }
    proof {
        assert(out@.map_values(|i: usize| i as int) + Seq::<int>::empty() =~= out@.map_values(|i: usize| i as int));
    }
    out
}

// ─────────────────────────────── step toggles ───────────────────────────────

/// Index of the first entry of `lineage` from `from` on with id `id`, or -1.
pub open spec fn step_at(lineage: Seq<HistoryEntry>, id: u64, from: int) -> int
    decreases lineage.len() - from,
{
    if from < 0 || from >= lineage.len() {
        -1
    } else if lineage[from].id == id {
        from
    } else {
        step_at(lineage, id, from + 1)
    }
}

/// The rationale that marks a toggle of step `id`.
pub open spec fn toggle_rationale(id: u64, enabled: bool) -> Seq<char> {
    toggle_marker() + ":"@ + decimal_text(id as nat) + if enabled {
        ":on"@
    } else {
        ":off"@
    }
}

/// What turning step `id` of `lineage` on or off records: refused unless it
/// is an applied step that is neither a toggle nor a group-amount step
/// (`amount_step`); nothing when it already is as asked; else the History
/// label ("Turn On …"/"Turn Off …" and the step's label) and the toggle's
/// rationale.
pub open spec fn step_toggle_of(
    lineage: Seq<HistoryEntry>,
    id: u64,
    enabled: bool,
    amount_step: bool,
) -> Result<Option<(Seq<char>, Seq<char>)>, Seq<char>> {
    let k = step_at(lineage, id, 0);
    if k < 0 {
        Err("only applied history steps can be toggled"@)
    } else if toggle_of_entry(lineage[k]) is Some {
        Err("a step toggle cannot itself be toggled"@)
    } else if amount_step {
        Err("a group amount step cannot be toggled"@)
    } else if disabled_after(lineage).contains(id) != enabled {
        Ok(None)
    } else {
        Ok(
            Some(
                (
                    (if enabled {
                        "Turn On "@
                    } else {
                        "Turn Off "@
                    }) + display_label_of(lineage[k]),
                    toggle_rationale(id, enabled),
                ),
            ),
        )
    }
}

/// Whether `r` is what [`step_toggle_of`] gives.
pub open spec fn step_toggle_result(
    lineage: Seq<HistoryEntry>,
    id: u64,
    enabled: bool,
    amount_step: bool,
    r: Result<Option<(String, String)>, BridgeError>,
) -> bool {
    match step_toggle_of(lineage, id, enabled, amount_step) {
        Err(m) => r matches Err(e) && e.message() == m,
        Ok(None) => r matches Ok(None),
        Ok(Some((label, rationale))) => r matches Ok(Some((l, t))) && l@ == label && t@ == rationale,
    }
}

fn find_step(lineage: &Vec<HistoryEntry>, id: u64) -> (r: Option<usize>)
    ensures
        match r {
            Some(k) => k < lineage@.len() && k as int == step_at(lineage@, id, 0),
            None => step_at(lineage@, id, 0) == -1,
        },
{
    let mut k: usize = 0;
    while k < lineage.len()
        invariant
            k <= lineage@.len(),
            step_at(lineage@, id, 0) == step_at(lineage@, id, k as int),
        decreases lineage.len() - k,
    {
        if lineage[k].id == id {
            return Some(k);
        }
        k = k + 1;
    }
    None
}

/// Turns step `id` of `lineage` (the applied history, oldest first) on or
/// off: what the new History entry records, as [`step_toggle_of`] says.
/// `amount_step` tells whether step `id` is a group-amount step (its amount
/// is a floating-point number the host reads).
pub fn step_toggle(lineage: &Vec<HistoryEntry>, id: u64, enabled: bool, amount_step: bool) -> (r:
    Result<Option<(String, String)>, BridgeError>)
    ensures
        step_toggle_result(lineage@, id, enabled, amount_step, r),
{
    let k = match find_step(lineage, id) {
        Some(k) => k,
        None => return Err(failure("only applied history steps can be toggled")),
    };
    if toggle_of(&lineage[k]).is_some() {
        return Err(failure("a step toggle cannot itself be toggled"));
    }
    if amount_step {
        return Err(failure("a group amount step cannot be toggled"));
    }
    let off = disabled_steps(lineage);
    if off.contains(&id) != enabled {
        return Ok(None);
    }
    let head = if enabled {
        String::from_str("Turn On ")
    } else {
        String::from_str("Turn Off ")
    };
    let shown = display_label(&lineage[k]);
    let label = concat_str(&head, shown.as_str());
    let marker = concat_str(&String::from_str("tessera:step-toggle"), ":");
    let number = u64_decimal(id);
    let with_id = concat_str(&marker, number.as_str());
    let rationale = if enabled {
        concat_str(&with_id, ":on")
    } else {
        concat_str(&with_id, ":off")
    };
    Ok(Some((label, rationale)))
}

} // verus!
