//! Layered documents: the records the document tools exchange, default
//! layer names, history labels of the painting tools, what a file name says
//! about how a document opens and saves, and the viewport surface plan.
use vstd::prelude::*;
use vstd::string::*;
use crate::ids::{BridgeError, failure, failure_owned};
use crate::text::{chars_of, string_of, concat_str, u64_decimal, decimal_text, lower_chars, lower_text, same_text};
use crate::history::{parse_u64, u64_text, digits_value};
use crate::text::digit_char;
use crate::viewport::{plan_surface, coarsest_covering};

verus! {

// ─────────────────────────────── records ───────────────────────────────

/// Bits per channel of a document.
#[derive(Clone, Copy, Debug, PartialEq, Eq, Structural)]
pub enum DocDepth {
    U8,
    U16,
    F32,
}

/// What a layer is.
#[derive(Clone, Copy, Debug, PartialEq, Eq, Structural)]
pub enum DocLayerKind {
    Pixel,
    Adjustment,
    Fill,
    Group,
    SmartObject,
    Text,
}

/// How a group composites its children.
#[derive(Clone, Copy, Debug, PartialEq, Eq, Structural)]
pub enum DocGroupMode {
    /// Children blend straight into the backdrop (Photoshop "Pass Through").
    PassThrough,
    /// Children composite into their own buffer, blended with the group's mode.
    Isolated,
}

/// A pixel rectangle `x, y, width × height` (level 0 unless stated).
#[derive(Clone, Copy, Debug, PartialEq, Eq, Structural)]
pub struct DocRect {
    pub x: i64,
    pub y: i64,
    pub width: i64,
    pub height: i64,
}

/// Layer lock flags (edit ops enforce them; the compositor ignores them).
#[derive(Clone, Copy, Debug, PartialEq, Eq, Structural)]
pub struct LayerLocks {
    pub transparency: bool,
    pub pixels: bool,
    pub position: bool,
    pub all: bool,
}

/// New layer content.
#[derive(Clone, Debug)]
pub enum NewLayer {
    /// A transparent pixel layer.
    Pixel,
    /// An empty group.
    Group { mode: DocGroupMode },
    /// An adjustment layer from adjustment JSON.
    Adjustment { json: String },
    /// A fill layer from fill JSON.
    Fill { json: String },
}

/// Initial content of a new layer mask.
#[derive(Clone, Copy, Debug, PartialEq, Eq, Structural)]
pub enum MaskInit {
    RevealAll,
    HideAll,
    /// The current selection (fails without one).
    FromSelection,
}

/// What one edit did.
#[derive(Clone, Debug)]
pub struct DocumentUpdate {
    /// Layers whose row may have changed.
    pub layers_changed: Vec<u64>,
    /// Layers the edit created (added, duplicated, merged).
    pub created: Vec<u64>,
    /// Current history node (unchanged by interactive edits).
    pub history_head: u64,
    /// Level-0 region whose composite may have changed (`None`: nothing).
    pub dirty_rect: Option<DocRect>,
    /// Document epoch after the edit (every mutation increments it).
    pub epoch: u64,
    /// Unsaved changes.
    pub dirty: bool,
}

/// Document summary.
#[derive(Clone, Debug)]
pub struct DocumentInfo {
    /// `doc#N`: this session's document id.
    pub id: String,
    /// Where `save` writes; `None` for new documents and flat images.
    pub path: Option<String>,
    pub title: String,
    pub width: u32,
    pub height: u32,
    pub depth: DocDepth,
    /// Profile description (`None`: untagged, treated as sRGB).
    pub profile_name: Option<String>,
    pub dirty: bool,
    pub history_head: u64,
    pub can_undo: bool,
    pub can_redo: bool,
    /// Layers selected in the Layers panel.
    pub selected_layer_ids: Vec<u64>,
    /// Bounds of the selection (`None`: no selection, i.e. select all).
    pub selection_bounds: Option<DocRect>,
    /// Library image this document was made from.
    pub source_image_id: Option<String>,
    pub layer_count: u32,
    pub epoch: u64,
    /// "Metal (<adapter>)" or "CPU".
    pub backend: String,
}

/// One history state, as the History panel lists it.
#[derive(Clone, Debug)]
pub struct DocHistoryItem {
    pub id: u64,
    pub label: String,
    /// Parent state (`None` for the opened state or after pruning).
    pub parent: Option<u64>,
    pub is_current: bool,
    /// "user" (agents and imports arrive with the document tools).
    pub author: String,
}

/// Surface size to allocate for a fit-to-window viewport: the extent of
/// `level`, the coarsest level covering it.
#[derive(Clone, Copy, Debug, PartialEq, Eq, Structural)]
pub struct DocSurfacePlan {
    pub level: u8,
    pub width: u32,
    pub height: u32,
}

/// File format of a flat export.
#[derive(Clone, Copy, Debug, PartialEq, Eq, Structural)]
pub enum ExportFormat {
    Png,
    Jpeg,
    Tiff,
}

/// Colour space of a flat export.
#[derive(Clone, Copy, Debug, PartialEq, Eq, Structural)]
pub enum ExportColor {
    /// The document's own profile (no conversion).
    Document,
    Srgb,
    DisplayP3,
    AdobeRgb,
    ProPhoto,
    Rec2020,
}

/// What a stroke paints.
#[derive(Clone, Copy, Debug, PartialEq, Eq, Structural)]
pub enum StrokeTarget {
    /// The layer's pixels (pixel layers).
    Pixels,
    /// The layer mask (created revealing all when the layer has none).
    Mask,
}

/// The painting tool.
#[derive(Clone, Copy, Debug, PartialEq, Eq, Structural)]
pub enum StrokeTool {
    Brush,
    /// Removes alpha (on a mask: paints black, hiding).
    Eraser,
    /// Clone Stamp from the clone source.
    Clone,
    /// Healing Brush: clone, then blend each dab into its surroundings.
    Heal,
}

/// Paint symmetry.
#[derive(Clone, Copy, Debug, PartialEq, Eq, Structural)]
pub enum PaintSymmetry {
    NoSymmetry,
    Vertical,
    Horizontal,
    Dual,
    Diagonal,
    Radial,
    Mandala,
}

/// How a new selection combines with the current one.
#[derive(Clone, Copy, Debug, PartialEq, Eq, Structural)]
pub enum SelectionOp {
    Replace,
    Add,
    Subtract,
    Intersect,
}

/// Marquee shapes.
#[derive(Clone, Copy, Debug, PartialEq, Eq, Structural)]
pub enum MarqueeShape {
    Rect,
    Ellipse,
    /// Single row at `y` (height ignored).
    Row,
    /// Single column at `x` (width ignored).
    Column,
}

/// Lasso kinds.
#[derive(Clone, Copy, Debug, PartialEq, Eq, Structural)]
pub enum LassoKind {
    Free,
    Polygon,
    /// Live-wire between the anchor points (edge-snapping).
    Magnetic,
}

/// Select ▸ Modify.
#[derive(Clone, Copy, Debug, PartialEq, Eq, Structural)]
pub enum SelectionModify {
    Border,
    Smooth,
    Expand,
    Contract,
    Feather,
}

/// Resampling of a transform.
#[derive(Clone, Copy, Debug, PartialEq, Eq, Structural)]
pub enum TransformInterpolation {
    Nearest,
    Bilinear,
    Bicubic,
}

/// What a transform captured.
#[derive(Clone, Debug)]
pub struct TransformInfo {
    pub layers: Vec<u64>,
    /// Pixel-exact bounds of the layers' content (`None`: empty layers).
    pub bounds: Option<DocRect>,
}

/// A grey tip preview (`0` = no paint, `255` = full paint), row-major.
#[derive(Clone, Debug)]
pub struct BrushTipImage {
    pub width: u32,
    pub height: u32,
    pub pixels: Vec<u8>,
}

/// One Filter menu entry.
#[derive(Clone, Debug)]
pub struct FilterInfo {
    /// Stable id used in filter JSON (`gaussian_blur`).
    pub id: String,
    /// `Blur`, `Sharpen`, `Noise`, `Distort`, `Stylize`, `Render` or `Other`.
    pub group: String,
    /// Menu title (`Gaussian Blur`).
    pub name: String,
    /// The filter's parameter schema as JSON.
    pub params_schema_json: String,
}

/// A 1:1 filter detail crop written into an RGBA8 surface.
#[derive(Clone, Copy, Debug, PartialEq, Eq, Structural)]
pub struct FilterDetail {
    pub surface_id: u32,
    pub width: u32,
    pub height: u32,
    /// Pyramid level the crop was filtered at.
    pub level: u8,
}

// ─────────────────────────────── names ───────────────────────────────

/// The number `name` carries after `prefix`, when the rest parses as `u64`.
pub open spec fn number_after(name: Seq<char>, prefix: Seq<char>) -> Option<u64> {
    if prefix.is_prefix_of(name) {
        u64_text(name.skip(prefix.len() as int))
    } else {
        None
    }
}

/// The highest number after `prefix` among `names`, 0 when none has one.
pub open spec fn highest_number(names: Seq<Seq<char>>, prefix: Seq<char>) -> nat
    decreases names.len(),
{
    if names.len() == 0 {
        0
    } else {
        let m = highest_number(names.drop_last(), prefix);
        match number_after(names.last(), prefix) {
            Some(v) => if v > m { v as nat } else { m },
            None => m,
        }
    }
}

pub open spec fn texts(v: Seq<String>) -> Seq<Seq<char>> {
    v.map_values(|s: String| s@)
}

/// Photoshop's default name: `<base> <n>`, one above the highest
/// `<base> <n>` in the document.
pub open spec fn numbered_name_of(names: Seq<Seq<char>>, base: Seq<char>) -> Seq<char> {
    base + " "@ + decimal_text(highest_number(names, base + " "@) + 1)
}

fn number_after_exec(name: &String, prefix: &Vec<char>) -> (r: Option<u64>)
    ensures
        r == number_after(name@, prefix@),
{
    let cs = chars_of(name.as_str());
    if cs.len() < prefix.len() {
        return None;
    }
    let mut i: usize = 0;
    while i < prefix.len()
        invariant
            i <= prefix.len() <= cs.len(),
            cs@ == name@,
            forall|j: int| 0 <= j < i ==> cs@[j] == prefix@[j],
        decreases prefix.len() - i,
    {
        if cs[i] != prefix[i] {
            return None;
        }
        i = i + 1;
    }
    assert(prefix@.is_prefix_of(name@)) by {
        assert(name@.subrange(0, prefix@.len() as int) =~= prefix@);
    }
    let mut rest: Vec<char> = Vec::new();
    let mut k = prefix.len();
    while k < cs.len()
        invariant
            prefix.len() <= k <= cs.len(),
            rest@ == cs@.subrange(prefix.len() as int, k as int),
        decreases cs.len() - k,
    {
        rest.push(cs[k]);
        k = k + 1;
        assert(rest@ =~= cs@.subrange(prefix.len() as int, k as int));
    }
    assert(rest@ =~= name@.skip(prefix@.len() as int));
    parse_u64(&rest)
}

/// Photoshop's default names: `<base> <n>` numbered per base, one above the
/// highest `<base> <n>` in the document ("Levels 1", "Levels 2", "Layer 2").
pub fn numbered_name(names: &Vec<String>, base: &str) -> (r: String)
    requires
        highest_number(texts(names@), base@ + " "@) < u64::MAX,
    ensures
        r@ == numbered_name_of(texts(names@), base@),
        !texts(names@).contains(r@),
{
    proof {
        numbered_name_is_new(texts(names@), base@);
    }
    let head = String::from_str(base);
    let prefix_text = concat_str(&head, " ");
    let prefix = chars_of(prefix_text.as_str());
    let mut n: u64 = 0;
    let mut i: usize = 0;
    while i < names.len()
        invariant
            i <= names.len(),
            prefix@ == base@ + " "@,
            highest_number(texts(names@), prefix@) < u64::MAX,
            n == highest_number(texts(names@).take(i as int), prefix@),
        decreases names.len() - i,
    {
        proof {
            let t = texts(names@).take(i + 1);
            assert(t.drop_last() =~= texts(names@).take(i as int));
            assert(t.last() == names@[i as int]@);
        }
        match number_after_exec(&names[i], &prefix) {
            Some(v) => {
                if v > n {
                    n = v;
                }
            },
            None => {},
        }
        i = i + 1;
    }
    proof {
        assert(texts(names@).take(names.len() as int) =~= texts(names@));
    }
    let digits = u64_decimal(n + 1);
    concat_str(&prefix_text, digits.as_str())
}

proof fn lemma_decimal_digits(n: nat)
    ensures
        forall|i: int| 0 <= i < decimal_text(n).len() ==> '0' <= #[trigger] decimal_text(n)[i] <= '9',
        decimal_text(n).len() >= 1,
        digits_value(decimal_text(n)) == n,
    decreases n,
{
    let d = n % 10;
    assert((digit_char(d) as int) - ('0' as int) == d);
    if n < 10 {
        let t = decimal_text(n);
        assert(t.drop_last() =~= Seq::<char>::empty());
        assert(t.last() == digit_char(d));
        assert(digits_value(t.drop_last()) == 0);
        assert(digits_value(t) == digits_value(t.drop_last()) * 10 + d);
    } else {
        lemma_decimal_digits(n / 10);
        let t = decimal_text(n);
        let p = decimal_text(n / 10);
        assert(t == p + seq![digit_char(n % 10)]);
        assert(t.drop_last() =~= p);
        assert(t.last() == digit_char(d));
        assert(digits_value(t) == digits_value(p) * 10 + d);
        assert(n == (n / 10) * 10 + d);
        assert forall|i: int| 0 <= i < t.len() implies '0' <= #[trigger] t[i] <= '9' by {
            if i < p.len() {
                assert(t[i] == p[i]);
            }
        }
    }
}

proof fn lemma_decimal_parses(n: nat)
    requires
        n <= u64::MAX,
    ensures
        u64_text(decimal_text(n)) == Some(n as u64),
{
    lemma_decimal_digits(n);
    let t = decimal_text(n);
    assert(t[0] != '+');
    assert(t.subrange(0, t.len() as int) =~= t);
}

proof fn lemma_highest_bounds(names: Seq<Seq<char>>, prefix: Seq<char>, i: int)
    requires
        0 <= i < names.len(),
    ensures
        number_after(names[i], prefix) matches Some(v) ==> v <= highest_number(names, prefix),
    decreases names.len(),
{
    if i < names.len() - 1 {
        lemma_highest_bounds(names.drop_last(), prefix, i);
        assert(names.drop_last()[i] == names[i]);
    }
}

/// The default name is new: no layer of the document already has it, since
/// its number is above every `<base> <n>` there.
pub proof fn numbered_name_is_new(names: Seq<Seq<char>>, base: Seq<char>)
    requires
        highest_number(names, base + " "@) < u64::MAX,
    ensures
        !names.contains(numbered_name_of(names, base)),
{
    let prefix = base + " "@;
    let h = highest_number(names, prefix);
    let name = numbered_name_of(names, base);
    assert(name == prefix + decimal_text(h + 1));
    assert(prefix.is_prefix_of(name)) by {
        assert(name.subrange(0, prefix.len() as int) =~= prefix);
    }
    assert(name.skip(prefix.len() as int) =~= decimal_text(h + 1));
    lemma_decimal_parses(h + 1);
    if names.contains(name) {
        let i = choose|i: int| 0 <= i < names.len() && names[i] == name;
        lemma_highest_bounds(names, prefix, i);
    }
}

pub open spec fn history_label_of(tool: StrokeTool) -> Seq<char> {
    match tool {
        StrokeTool::Brush => "Brush Tool"@,
        StrokeTool::Eraser => "Eraser"@,
        StrokeTool::Clone => "Clone Stamp"@,
        StrokeTool::Heal => "Healing Brush"@,
    }
}

/// The History panel's label of a stroke with `tool`.
pub fn history_label(tool: StrokeTool) -> (r: &'static str)
    ensures
        r@ == history_label_of(tool),
{
    match tool {
        StrokeTool::Brush => "Brush Tool",
        StrokeTool::Eraser => "Eraser",
        StrokeTool::Clone => "Clone Stamp",
        StrokeTool::Heal => "Healing Brush",
    }
}

// ─────────────────────────────── file names ───────────────────────────────

/// What `Path::extension` gives for a path text, on the platform the library
/// is built for (separators and roots differ between Unix and Windows).
pub uninterp spec fn path_extension(p: Seq<char>) -> Option<Seq<char>>;

/// What `Path::file_name` gives for a path text, on the platform the library
/// is built for (separators and roots differ between Unix and Windows).
pub uninterp spec fn path_file_name(p: Seq<char>) -> Option<Seq<char>>;

/// What `Path::file_stem` gives for a path text, on the platform the library
/// is built for (separators and roots differ between Unix and Windows).
pub uninterp spec fn path_file_stem(p: Seq<char>) -> Option<Seq<char>>;

pub open spec fn text_option(o: Option<String>) -> Option<Seq<char>> {
    match o {
        Some(s) => Some(s@),
        None => None,
    }
}

/// `Path::extension` of a path text.
#[verifier::external_body]
pub(crate) fn extension_of(path: &str) -> (r: Option<String>)
    ensures
        text_option(r) == path_extension(path@),
{
    match std::path::Path::new(path).extension() {
        Some(e) => Some(e.to_string_lossy().into_owned()),
        None => None,
    }
}

/// `Path::file_name` of a path text.
#[verifier::external_body]
pub(crate) fn file_name_of(path: &str) -> (r: Option<String>)
    ensures
        text_option(r) == path_file_name(path@),
{
    match std::path::Path::new(path).file_name() {
        Some(e) => Some(e.to_string_lossy().into_owned()),
        None => None,
    }
}

/// `Path::file_stem` of a path text.
#[verifier::external_body]
pub(crate) fn file_stem_of(path: &str) -> (r: Option<String>)
    ensures
        text_option(r) == path_file_stem(path@),
{
    match std::path::Path::new(path).file_stem() {
        Some(e) => Some(e.to_string_lossy().into_owned()),
        None => None,
    }
}

/// The extension of a path, ASCII letters lower-cased; empty without one.
pub open spec fn ext_of(path: Seq<char>) -> Seq<char> {
    match path_extension(path) {
        Some(e) => lower_text(e),
        None => Seq::empty(),
    }
}

pub fn ext(path: &str) -> (r: String)
    ensures
        r@ == ext_of(path@),
{
    match extension_of(path) {
        Some(e) => {
            let cs = chars_of(e.as_str());
            string_of(&lower_chars(&cs))
        },
        None => String::new(),
    }
}

/// A document's title: the file name, `Untitled` without one.
pub fn file_title(path: &str) -> (r: String)
    ensures
        r@ == (match path_file_name(path@) {
            Some(n) => n,
            None => "Untitled"@,
        }),
{
    match file_name_of(path) {
        Some(n) => n,
        None => String::from_str("Untitled"),
    }
}

/// A layer's name from a file: its stem, `Layer` without one.
pub fn stem(path: &str) -> (r: String)
    ensures
        r@ == (match path_file_stem(path@) {
            Some(n) => n,
            None => "Layer"@,
        }),
{
    match file_stem_of(path) {
        Some(n) => n,
        None => String::from_str("Layer"),
    }
}

/// How a document is saved.
#[derive(Clone, Copy, Debug, PartialEq, Eq, Structural)]
pub enum SaveKind {
    Native,
    Psd,
    Psb,
}

pub open spec fn save_kind_of(path: Seq<char>) -> Option<SaveKind> {
    let e = ext_of(path);
    if e == "tessera-doc"@ {
        Some(SaveKind::Native)
    } else if e == "psd"@ {
        Some(SaveKind::Psd)
    } else if e == "psb"@ {
        Some(SaveKind::Psb)
    } else {
        None
    }
}

/// How a document is saved at `path`, by its extension.
pub fn save_kind(path: &str) -> (r: Result<SaveKind, BridgeError>)
    ensures
        match save_kind_of(path@) {
            Some(k) => r == Ok::<SaveKind, BridgeError>(k),
            None => r matches Err(e) && e.message()
                == "documents are saved as .tessera-doc, .psd or .psb, not ."@ + ext_of(path@),
        },
{
    let e = ext(path);
    if same_text(e.as_str(), "tessera-doc") {
        Ok(SaveKind::Native)
    } else if same_text(e.as_str(), "psd") {
        Ok(SaveKind::Psd)
    } else if same_text(e.as_str(), "psb") {
        Ok(SaveKind::Psb)
    } else {
        let head = String::from_str("documents are saved as .tessera-doc, .psd or .psb, not .");
        Err(failure_owned(concat_str(&head, e.as_str())))
    }
}

// ─────────────────────────────── viewport ───────────────────────────────

/// Surface size for a fit-to-window viewport of `width × height` device
/// pixels, given the canvas extent of each view level (level 0 first): the
/// coarsest level whose extent covers it (level 0 when the canvas is smaller).
pub fn plan_document_surface(extents: &Vec<(u32, u32)>, width: u32, height: u32) -> (r: DocSurfacePlan)
    requires
        1 <= extents.len() <= 256,
    ensures
        r.level == coarsest_covering(extents@, width, height, extents@.len() - 1),
        (r.width, r.height) == extents@[r.level as int],
{
    let p = plan_surface(extents, width, height);
    DocSurfacePlan { level: p.level, width: p.width, height: p.height }
}

/// A viewport names a view level below `max_level` and a non-empty region.
pub fn check_viewport(level: u8, max_level: u8, width: u32, height: u32) -> (r: Result<(), BridgeError>)
    ensures
        level >= max_level ==> (r matches Err(e) && e.message() == "level must be below "@ + decimal_text(max_level as nat)),
        level < max_level && (width == 0 || height == 0) ==> (r matches Err(e) && e.message() == "viewport must not be empty"@),
        level < max_level && width > 0 && height > 0 ==> r is Ok,
{
    if level >= max_level {
        let head = String::from_str("level must be below ");
        let digits = u64_decimal(max_level as u64);
        return Err(failure_owned(concat_str(&head, digits.as_str())));
    }
    if width == 0 || height == 0 {
        return Err(failure("viewport must not be empty"));
    }
    Ok(())
}

// ─────────────────────────────── rendering ───────────────────────────────

/// What is waiting for the renderer: a frame, changed layers, or history.
pub struct Signal {
    pub frame: bool,
    pub layers: Vec<u64>,
    pub history: bool,
}

impl Signal {
    /// Work is pending.
    pub fn pending(&self) -> (r: bool)
        ensures
            r == (self.frame || self.history || self.layers@.len() > 0),
    {
        self.frame || self.history || self.layers.len() > 0
    }
}

/// Filter effects as the filter crate names them.
#[derive(Clone, Copy, Debug, PartialEq, Eq, Structural)]
pub enum Effect {
    Gaussian,
    Box,
    Motion,
    RadialSpin,
    RadialZoom,
    Distort,
    /// Any effect that does not resample.
    Other,
}

/// Resampling filters average colours: they run on premultiplied pixels so
/// transparent neighbours do not darken edges.
pub fn premultiplied(e: Effect) -> (r: bool)
    ensures
        r == !(e is Other),
{
    match e {
        Effect::Other => false,
        _ => true,
    }
}

} // verus!
