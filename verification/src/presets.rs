//! Export presets: their names, the file a preset is stored in, how a
//! preset is found by name, and the picker's order (the shipped presets in
//! their order, then the user's alphabetically).
use vstd::prelude::*;
use vstd::string::*;
use crate::ids::{BridgeError, failure, failure_owned};
use crate::lexical::{is_alphanumeric, unicode_alphanumeric, trim, trimmed, trim_chars};
use crate::order::{lex_lt, lemma_lex_total, lemma_lex_transitive, text_less};
use crate::text::{chars_of, string_of, same_text, concat_str, u64_decimal, decimal_text};

verus! {

#[derive(Clone, Debug)]
pub struct ExportPreset {
    pub name: String,
    /// Export settings JSON.
    pub settings_json: String,
}

impl View for ExportPreset {
    type V = (Seq<char>, Seq<char>);

    open spec fn view(&self) -> (Seq<char>, Seq<char>) {
        (self.name@, self.settings_json@)
    }
}

// ─────────────────────────────── outside calls ───────────────────────────────

/// A control character (as `char::is_control`): the general category Cc,
/// which is U+0000–U+001F and U+007F–U+009F.
fn is_control(c: char) -> (r: bool)
    ensures
        r == (c <= '\u{1f}' || ('\u{7f}' <= c && c <= '\u{9f}')),
{
    c <= '\u{1f}' || ('\u{7f}' <= c && c <= '\u{9f}')
}

pub open spec fn control_char(c: char) -> bool {
    c <= '\u{1f}' || ('\u{7f}' <= c && c <= '\u{9f}')
}

/// What `str::to_lowercase` gives for a text (Unicode lower-case mapping).
pub uninterp spec fn lowercase(s: Seq<char>) -> Seq<char>;

/// `str::to_lowercase`.
#[verifier::external_body]
pub(crate) fn to_lowercase(s: &str) -> (r: String)
    ensures
        r@ == lowercase(s@),
{
    s.to_lowercase()
}

// ─────────────────────────────── names ───────────────────────────────

/// Shipped presets, in picker order.
pub open spec fn shipped_names() -> Seq<Seq<char>> {
    seq!["Web 2048 sRGB"@, "Full-size JPEG"@, "16-bit TIFF ProPhoto"@, "Print 300 dpi"@]
}

/// The shipped preset names, in picker order.
pub fn default_preset_names() -> (r: Vec<String>)
    ensures
        r@.map_values(|s: String| s@) == shipped_names(),
{
    let r = vec![
        String::from_str("Web 2048 sRGB"),
        String::from_str("Full-size JPEG"),
        String::from_str("16-bit TIFF ProPhoto"),
        String::from_str("Print 300 dpi"),
    ];
    assert(r@.map_values(|s: String| s@) =~= shipped_names());
    r
}

/// A preset name: the text trimmed, 1–80 characters, none of them a control
/// character.
pub open spec fn valid_preset_name(t: Seq<char>) -> bool {
    &&& 1 <= t.len() <= 80
    &&& forall|i: int| 0 <= i < t.len() ==> !control_char(#[trigger] t[i])
}

/// The preset name a user typed: trimmed, 1–80 characters, no control
/// characters.
pub fn preset_name(name: &str) -> (r: Result<String, BridgeError>)
    ensures
        valid_preset_name(trimmed(name@)) ==> (r matches Ok(t) && t@ == trimmed(name@)),
        !valid_preset_name(trimmed(name@)) ==> (r matches Err(e) && e.message() == "preset names are 1–80 characters"@),
{
    let t = trim(name);
    let cs = chars_of(t.as_str());
    if cs.len() == 0 || cs.len() > 80 {
        return Err(failure("preset names are 1–80 characters"));
    }
    let mut i: usize = 0;
    while i < cs.len()
        invariant
            i <= cs.len(),
            cs@ == t@,
            t@ == trimmed(name@),
            forall|j: int| 0 <= j < i ==> !control_char(#[trigger] cs@[j]),
        decreases cs.len() - i,
    {
        if is_control(cs[i]) {
            assert(control_char(cs@[i as int]));
            return Err(failure("preset names are 1–80 characters"));
        }
        i = i + 1;
    }
    Ok(t)
}

/// A file-name character of a preset stem: letters, digits, space, `-`,
/// `_` and `.` stay, anything else becomes `_`.
pub open spec fn stem_char(c: char) -> char {
    if unicode_alphanumeric(c) || c == ' ' || c == '-' || c == '_' || c == '.' {
        c
    } else {
        '_'
    }
}

/// `s` without its leading dots.
pub open spec fn without_leading_dots(s: Seq<char>) -> Seq<char>
    decreases s.len(),
{
    if s.len() > 0 && s[0] == '.' {
        without_leading_dots(s.drop_first())
    } else {
        s
    }
}

/// The file stem of a preset: the name's characters made safe, leading dots
/// dropped, at most 64 characters; `preset` when nothing but spaces is left.
pub open spec fn preset_stem_of(name: Seq<char>) -> Seq<char> {
    let safe = without_leading_dots(name.map_values(|c: char| stem_char(c)));
    let cut = if safe.len() > 64 { safe.take(64) } else { safe };
    if trimmed(cut).len() == 0 {
        "preset"@
    } else {
        cut
    }
}

pub fn preset_stem(name: &str) -> (r: String)
    ensures
        r@ == preset_stem_of(name@),
{
    let cs = chars_of(name);
    let mut safe: Vec<char> = Vec::new();
    let mut i: usize = 0;
    while i < cs.len()
        invariant
            i <= cs.len(),
            cs@ == name@,
            safe@ == cs@.take(i as int).map_values(|c: char| stem_char(c)),
        decreases cs.len() - i,
    {
        let c = cs[i];
        let keep = is_alphanumeric(c) || c == ' ' || c == '-' || c == '_' || c == '.';
        safe.push(if keep { c } else { '_' });
        i = i + 1;
        assert(safe@ =~= cs@.take(i as int).map_values(|c: char| stem_char(c)));
    }
    assert(cs@.take(cs.len() as int) =~= cs@);
    let ghost mapped = safe@;
    assert(safe@.skip(0) =~= safe@);
    let mut a: usize = 0;
    while a < safe.len() && safe[a] == '.'
        invariant
            a <= safe.len(),
            without_leading_dots(mapped) == without_leading_dots(safe@.skip(a as int)),
            safe@ == mapped,
        decreases safe.len() - a,
    {
        assert(safe@.skip(a as int).drop_first() =~= safe@.skip(a + 1));
        a = a + 1;
    }
    assert(without_leading_dots(safe@.skip(a as int)) == safe@.skip(a as int));
    let end = if safe.len() - a > 64 { a + 64 } else { safe.len() };
    let mut cut: Vec<char> = Vec::new();
    let mut k = a;
    while k < end
        invariant
            a <= k <= end,
            end <= safe.len(),
            cut@ == safe@.subrange(a as int, k as int),
        decreases end - k,
    {
        cut.push(safe[k]);
        k = k + 1;
        assert(cut@ =~= safe@.subrange(a as int, k as int));
    }
    proof {
        let s = safe@.skip(a as int);
        if s.len() > 64 {
            assert(cut@ =~= s.take(64));
        } else {
            assert(cut@ =~= s);
        }
    }
    let t = trim_chars(&cut);
    if t.len() == 0 {
        String::from_str("preset")
    } else {
        string_of(&cut)
    }
}

/// The file a preset is written to: `<stem>.json`, or `<stem> <n>.json` for
/// the `n`-th candidate when earlier ones are taken.
pub open spec fn preset_file_of(stem: Seq<char>, n: nat) -> Seq<char> {
    if n <= 1 {
        stem + ".json"@
    } else {
        stem + " "@ + decimal_text(n) + ".json"@
    }
}

pub fn preset_file_name(stem: &str, n: u64) -> (r: String)
    ensures
        r@ == preset_file_of(stem@, n as nat),
{
    let head = String::from_str(stem);
    if n <= 1 {
        concat_str(&head, ".json")
    } else {
        let spaced = concat_str(&head, " ");
        let digits = u64_decimal(n);
        let numbered = concat_str(&spaced, digits.as_str());
        concat_str(&numbered, ".json")
    }
}

/// Which of the preset files (given by their preset names, in directory
/// order) is the preset called `name`: the first one so named.
pub fn find_preset(names: &Vec<String>, name: &str) -> (r: Option<usize>)
    ensures
        match r {
            Some(i) => i < names.len() && names@[i as int]@ == name@ && forall|j: int| 0 <= j < i ==> names@[j]@ != name@,
            None => forall|j: int| 0 <= j < names.len() ==> names@[j]@ != name@,
        },
{
    let mut i: usize = 0;
    while i < names.len()
        invariant
            i <= names.len(),
            forall|j: int| 0 <= j < i ==> names@[j]@ != name@,
        decreases names.len() - i,
    {
        if same_text(names[i].as_str(), name) {
            return Some(i);
        }
        i = i + 1;
    }
    None
}

/// "no export preset named “name”".
pub open spec fn missing_preset(name: Seq<char>) -> Seq<char> {
    "no export preset named “"@ + name + "”"@
}

fn quoted_message(head: &str, name: &str, tail: &str) -> (r: String)
    ensures
        r@ == head@ + name@ + tail@,
{
    let h = String::from_str(head);
    let with_name = concat_str(&h, name);
    concat_str(&with_name, tail)
}

/// Which preset file to delete: the first called `name`.
pub fn preset_to_delete(names: &Vec<String>, name: &str) -> (r: Result<usize, BridgeError>)
    ensures
        match r {
            Ok(i) => i < names.len() && names@[i as int]@ == name@ && forall|j: int| 0 <= j < i ==> names@[j]@ != name@,
            Err(e) => e.message() == missing_preset(name@) && forall|j: int| 0 <= j < names.len() ==> names@[j]@ != name@,
        },
{
    match find_preset(names, name) {
        Some(i) => Ok(i),
        None => Err(failure_owned(quoted_message("no export preset named “", name, "”"))),
    }
}

/// Renaming preset `name` to `new_name`: the new name must be a valid preset
/// name, `name` must exist, and no other preset may already have the new
/// name. Gives the file of the preset and its new name.
pub fn preset_to_rename(names: &Vec<String>, name: &str, new_name: &str) -> (r: Result<(usize, String), BridgeError>)
    ensures
        !valid_preset_name(trimmed(new_name@)) ==> (r matches Err(e) && e.message() == "preset names are 1–80 characters"@),
        valid_preset_name(trimmed(new_name@)) && (forall|j: int| 0 <= j < names.len() ==> names@[j]@ != name@) ==> (r matches Err(e)
            && e.message() == missing_preset(name@)),
        valid_preset_name(trimmed(new_name@)) && (exists|j: int| 0 <= j < names.len() && names@[j]@ == name@) ==> {
            let t = trimmed(new_name@);
            if t != name@ && exists|j: int| 0 <= j < names.len() && names@[j]@ == t {
                r matches Err(e) && e.message() == "a preset named “"@ + t + "” exists"@
            } else {
                r matches Ok((i, n)) && n@ == t && i < names.len() && names@[i as int]@ == name@ && forall|j: int|
                    0 <= j < i ==> names@[j]@ != name@
            }
        },
{
    let t = match preset_name(new_name) {
        Ok(t) => t,
        Err(e) => return Err(e),
    };
    let i = match find_preset(names, name) {
        Some(i) => i,
        None => {
            return Err(failure_owned(quoted_message("no export preset named “", name, "”")));
        },
    };
    if !same_text(t.as_str(), name) {
        match find_preset(names, t.as_str()) {
            Some(k) => {
                assert(names@[k as int]@ == trimmed(new_name@));
                return Err(failure_owned(quoted_message("a preset named “", t.as_str(), "” exists")));
            },
            None => {},
        }
    }
    Ok((i, t))
}

// ─────────────────────────────── order ───────────────────────────────

/// A preset's place among the shipped ones, `usize::MAX` for the user's.
pub open spec fn rank_of(name: Seq<char>) -> int {
    if name == "Web 2048 sRGB"@ {
        0
    } else if name == "Full-size JPEG"@ {
        1
    } else if name == "16-bit TIFF ProPhoto"@ {
        2
    } else if name == "Print 300 dpi"@ {
        3
    } else {
        usize::MAX as int
    }
}

pub fn preset_rank(name: &str) -> (r: usize)
    ensures
        r == rank_of(name@),
{
    if same_text(name, "Web 2048 sRGB") {
        0
    } else if same_text(name, "Full-size JPEG") {
        1
    } else if same_text(name, "16-bit TIFF ProPhoto") {
        2
    } else if same_text(name, "Print 300 dpi") {
        3
    } else {
        usize::MAX
    }
}

/// The picker's key of preset `i`: its rank, its lower-cased name, then its
/// place in the directory listing.
pub open spec fn preset_key(presets: Seq<(Seq<char>, Seq<char>)>, i: int) -> (int, Seq<char>, int) {
    (rank_of(presets[i].0), lowercase(presets[i].0), i)
}

pub open spec fn preset_before(a: (int, Seq<char>, int), b: (int, Seq<char>, int)) -> bool {
    a.0 < b.0 || (a.0 == b.0 && (lex_lt(a.1, b.1) || (a.1 == b.1 && a.2 < b.2)))
}

proof fn lemma_preset_before_transitive(a: (int, Seq<char>, int), b: (int, Seq<char>, int), c: (int, Seq<char>, int))
    requires
        preset_before(a, b),
        preset_before(b, c),
    ensures
        preset_before(a, c),
{
    if a.0 == b.0 && b.0 == c.0 {
        if lex_lt(a.1, b.1) && lex_lt(b.1, c.1) {
            lemma_lex_transitive(a.1, b.1, c.1);
        }
    }
}

pub open spec fn preset_views(v: Seq<ExportPreset>) -> Seq<(Seq<char>, Seq<char>)> {
    v.map_values(|p: ExportPreset| p@)
}

/// `out` lists the presets in `order`, which sorts them by `preset_key`.
pub open spec fn ordered_presets(
    out: Seq<(Seq<char>, Seq<char>)>,
    presets: Seq<(Seq<char>, Seq<char>)>,
    order: Seq<usize>,
) -> bool {
    &&& out.len() == presets.len()
    &&& order.len() == presets.len()
    &&& forall|n: int| 0 <= n < order.len() ==> #[trigger] order[n] < presets.len()
    &&& forall|n: int, m: int|
        0 <= n < m < order.len() ==> preset_before(
            preset_key(presets, #[trigger] order[n] as int),
            preset_key(presets, #[trigger] order[m] as int),
        )
    &&& forall|n: int| 0 <= n < order.len() ==> #[trigger] out[n] == presets[order[n] as int]
}

fn key_less(rank_a: usize, lower_a: &String, rank_b: usize, lower_b: &String) -> (r: bool)
    ensures
        r == (rank_a < rank_b || (rank_a == rank_b && lex_lt(lower_a@, lower_b@))),
{
    rank_a < rank_b || (rank_a == rank_b && text_less(lower_a.as_str(), lower_b.as_str()))
}

/// The picker's order: the shipped presets in their order, then the others
/// by lower-cased name; presets with equal keys keep the listing's order.
pub fn order_presets(presets: &Vec<ExportPreset>) -> (r: Vec<ExportPreset>)
    ensures
        exists|order: Seq<usize>| #[trigger] ordered_presets(preset_views(r@), preset_views(presets@), order),
{
    let ghost ps = preset_views(presets@);
    let m = presets.len();
    let mut ranks: Vec<usize> = Vec::new();
    let mut lowers: Vec<String> = Vec::new();
    let mut i: usize = 0;
    while i < m
        invariant
            m == presets.len(),
            ps == preset_views(presets@),
            i <= m,
            ranks.len() == i,
            lowers.len() == i,
            forall|j: int| 0 <= j < i ==> #[trigger] ranks@[j] == preset_key(ps, j).0,
            forall|j: int| 0 <= j < i ==> (#[trigger] lowers@[j])@ == preset_key(ps, j).1,
        decreases m - i,
    {
        ranks.push(preset_rank(presets[i].name.as_str()));
        lowers.push(to_lowercase(presets[i].name.as_str()));
        i = i + 1;
    }
    let mut order: Vec<usize> = Vec::new();
    let mut i: usize = 0;
    while i < m
        invariant
            m == presets.len(),
            ps == preset_views(presets@),
            ranks.len() == m,
            lowers.len() == m,
            forall|j: int| 0 <= j < m ==> #[trigger] ranks@[j] == preset_key(ps, j).0,
            forall|j: int| 0 <= j < m ==> (#[trigger] lowers@[j])@ == preset_key(ps, j).1,
            i <= m,
            order.len() == i,
            forall|n: int| 0 <= n < order.len() ==> #[trigger] order@[n] < i,
            forall|n: int, q: int|
                0 <= n < q < order.len() ==> preset_before(
                    preset_key(ps, #[trigger] order@[n] as int),
                    preset_key(ps, #[trigger] order@[q] as int),
                ),
        decreases m - i,
    {
        let ghost ki = preset_key(ps, i as int);
        let mut k: usize = 0;
        while k < order.len() && !key_less(ranks[i], &lowers[i], ranks[order[k]], &lowers[order[k]])
            invariant
                m == presets.len(),
                ps == preset_views(presets@),
                ranks.len() == m,
                lowers.len() == m,
                forall|j: int| 0 <= j < m ==> #[trigger] ranks@[j] == preset_key(ps, j).0,
                forall|j: int| 0 <= j < m ==> (#[trigger] lowers@[j])@ == preset_key(ps, j).1,
                i < m,
                ki == preset_key(ps, i as int),
                k <= order.len(),
                forall|n: int| 0 <= n < order.len() ==> #[trigger] order@[n] < i,
                forall|n: int| 0 <= n < k ==> preset_before(preset_key(ps, #[trigger] order@[n] as int), ki),
            decreases order.len() - k,
        {
            let ghost o = order@[k as int];
            let ghost ko = preset_key(ps, o as int);
            proof {
                lemma_lex_total(ko.1, ki.1);
            }
            assert(preset_before(ko, ki));
            k = k + 1;
        }
        let ghost before = order@;
        proof {
            if k < order.len() {
                assert(preset_before(ki, preset_key(ps, order@[k as int] as int)));
            }
        }
        order.insert(k, i);
        proof {
            let now = order@;
            assert(now =~= before.insert(k as int, i));
            assert forall|n: int, q: int|
                0 <= n < q < now.len() implies preset_before(
                    preset_key(ps, #[trigger] now[n] as int),
                    preset_key(ps, #[trigger] now[q] as int),
                ) by {
                if q < k {
                    assert(now[n] == before[n] && now[q] == before[q]);
                } else if q == k {
                    assert(now[n] == before[n]);
                } else if n < k {
                    assert(now[q] == before[q - 1] && now[n] == before[n]);
                } else if n == k {
                    assert(now[q] == before[q - 1]);
                    let kk = preset_key(ps, before[k as int] as int);
                    let kq = preset_key(ps, before[q - 1] as int);
                    if q - 1 > k {
                        lemma_preset_before_transitive(ki, kk, kq);
                    }
                } else {
                    assert(now[q] == before[q - 1] && now[n] == before[n - 1]);
                }
            }
        }
        i = i + 1;
    }
    let mut out: Vec<ExportPreset> = Vec::new();
    let mut n: usize = 0;
    while n < m
        invariant
            m == presets.len(),
            ps == preset_views(presets@),
            order.len() == m,
            forall|q: int| 0 <= q < order.len() ==> #[trigger] order@[q] < m,
            n <= m,
            out.len() == n,
            forall|q: int| 0 <= q < n ==> #[trigger] out@[q]@ == ps[order@[q] as int],
        decreases m - n,
    {
        let p = &presets[order[n]];
        out.push(ExportPreset { name: p.name.clone(), settings_json: p.settings_json.clone() });
        n = n + 1;
    }
    proof {
        assert(ordered_presets(preset_views(out@), ps, order@)) by {
            assert forall|q: int| 0 <= q < order@.len() implies #[trigger] preset_views(out@)[q] == ps[order@[q] as int] by {
                assert(preset_views(out@)[q] == out@[q]@);
            }
        }
    }
    out
}

} // verus!
