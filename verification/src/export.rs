//! Export settings, presets, batch naming and print requests: what the
//! Export sheet and the print dialog decide before any pixel is rendered.
use vstd::prelude::*;
use vstd::string::*;
use crate::ids::{BridgeError, failure, failure_owned};
use crate::selection::ImageQuery;
use crate::presets::{lowercase, to_lowercase};
use crate::text::{same_text, concat_str, u64_decimal, decimal_text};
use crate::document::{file_stem_of, file_name_of, path_file_stem, path_file_name};
use crate::lexical::{trim, trimmed};

verus! {

// ───────────────────────────── settings ─────────────────────────────

#[derive(Clone, Copy, Debug, PartialEq, Eq, Structural)]
pub enum FileFormat {
    Jpeg,
    Png,
    Tiff,
}

#[derive(Clone, Copy, Debug, PartialEq, Eq, Structural)]
pub enum DocumentSpace {
    Srgb,
    DisplayP3,
    Rec2020,
    Prophoto,
}

#[derive(Clone, Copy, Debug, PartialEq, Eq, Structural)]
pub enum ResizeMode {
    NoResize,
    /// Long edge = `long_edge` units.
    LongEdge,
    /// Fit within `width` × `height` units (never crops).
    Fit,
    /// `percent` of the rendered size (100 = original).
    Percent,
}

#[derive(Clone, Copy, Debug, PartialEq, Eq, Structural)]
pub enum SizeUnit {
    Px,
    In,
    Cm,
}

#[derive(Clone, Copy, Debug, PartialEq, Eq, Structural)]
pub enum OutputSharpening {
    NoSharpening,
    Screen,
    Matte,
    Glossy,
}

#[derive(Clone, Copy, Debug, PartialEq, Eq, Structural)]
pub enum MetadataPolicy {
    All,
    Copyright,
    NoMetadata,
}

/// What happens when an output file already exists.
#[derive(Clone, Copy, Debug, PartialEq, Eq, Structural)]
pub enum OnConflict {
    /// Append `-2`, `-3`, … to the name (never overwrites).
    Unique,
    /// Report the image as failed and leave the existing file alone.
    Skip,
}

pub open spec fn extension_of(format: FileFormat) -> Seq<char> {
    match format {
        FileFormat::Jpeg => "jpg"@,
        FileFormat::Png => "png"@,
        FileFormat::Tiff => "tif"@,
    }
}

impl FileFormat {
    /// The file extension the format writes.
    pub fn extension(self) -> (r: &'static str)
        ensures
            r@ == extension_of(self),
    {
        match self {
            FileFormat::Jpeg => "jpg",
            FileFormat::Png => "png",
            FileFormat::Tiff => "tif",
        }
    }
}

/// The whole-number export settings: format, JPEG quality, bit depth,
/// resolution and upscale factor.
#[derive(Clone, Copy, Debug, PartialEq, Eq, Structural)]
pub struct OutputSettings {
    pub format: FileFormat,
    /// JPEG quality 1–100.
    pub quality: u8,
    /// TIFF 8 or 16 (PNG and JPEG are 8-bit).
    pub bit_depth: u8,
    /// Recorded in the file; converts inch/cm sizes to pixels.
    pub dpi: u32,
    /// 1 (off), 2 or 4.
    pub upscale: u8,
}

/// The first rule the settings break, if any, as its message.
pub open spec fn settings_problem(s: OutputSettings) -> Option<Seq<char>> {
    if !(1 <= s.quality <= 100) {
        Some("JPEG quality must be 1–100"@)
    } else if !(s.bit_depth == 8 || s.bit_depth == 16) {
        Some("bit depth must be 8 or 16"@)
    } else if s.bit_depth == 16 && s.format != FileFormat::Tiff {
        Some("16-bit output needs TIFF"@)
    } else if !(1 <= s.dpi <= 9600) {
        Some("resolution must be 1–9600 dpi"@)
    } else if !(s.upscale == 1 || s.upscale == 2 || s.upscale == 4) {
        Some("upscale must be 1, 2 or 4"@)
    } else {
        None
    }
}

impl OutputSettings {
    /// Checks the settings in order; the first broken rule is the error.
    pub fn validate(&self) -> (r: Result<(), BridgeError>)
        ensures
            match settings_problem(*self) {
                None => r is Ok,
                Some(m) => r matches Err(e) && e.message() == m,
            },
    {
        if !(1 <= self.quality && self.quality <= 100) {
            return Err(failure("JPEG quality must be 1–100"));
        }
        if !(self.bit_depth == 8 || self.bit_depth == 16) {
            return Err(failure("bit depth must be 8 or 16"));
        }
        if self.bit_depth == 16 && self.format != FileFormat::Tiff {
            return Err(failure("16-bit output needs TIFF"));
        }
        if !(1 <= self.dpi && self.dpi <= 9600) {
            return Err(failure("resolution must be 1–9600 dpi"));
        }
        if !(self.upscale == 1 || self.upscale == 2 || self.upscale == 4) {
            return Err(failure("upscale must be 1, 2 or 4"));
        }
        Ok(())
    }
}

// ───────────────────────────── batch records ─────────────────────────────

#[derive(Clone, Debug)]
pub enum ExportTarget {
    Images { image_ids: Vec<String> },
    /// A manual album of `library.json`, in album order.
    Album { library_path: String, album_id: i64 },
    Query { query: ImageQuery },
}

#[derive(Clone, Debug)]
pub struct ExportProgress {
    /// Images finished (written or failed) so far.
    pub done: u32,
    pub total: u32,
    pub exported: u32,
    pub failed: u32,
    /// Source file name being rendered next (empty when finished).
    pub current: String,
}

/// Called on the exporting thread before each image and after the last.
pub trait ExportProgressListener {
    fn on_progress(&self, progress: ExportProgress);
}

#[derive(Clone, Debug)]
pub struct ExportItemResult {
    pub image_id: String,
    /// Source file name.
    pub name: String,
    pub output_path: Option<String>,
    pub error: Option<String>,
}

// ───────────────────────────── printing ─────────────────────────────

#[derive(Clone, Debug)]
pub struct PrinterProfile {
    pub name: String,
    pub path: String,
    /// "RGB", "CMYK" or "Gray".
    pub color_space: String,
}

#[derive(Clone, Copy, Debug, PartialEq, Eq, Structural)]
pub enum RenderingIntent {
    Perceptual,
    RelativeColorimetric,
    Saturation,
    AbsoluteColorimetric,
}

#[derive(Clone, Copy, Debug, PartialEq, Eq, Structural)]
pub enum PrintSharpening {
    NoSharpening,
    Matte,
    Glossy,
}

/// Application-managed colour: convert into the printer profile's device space.
#[derive(Clone, Debug)]
pub struct PrintProfile {
    pub path: String,
    pub intent: RenderingIntent,
    pub black_point_compensation: bool,
}

#[derive(Clone, Debug)]
pub struct PrintRenderRequest {
    pub image_id: String,
    /// The picture is scaled to fit this box (pixels at the print resolution),
    /// keeping its aspect.
    pub max_width: u32,
    pub max_height: u32,
    pub sharpening: PrintSharpening,
    /// None: printer-managed colour (Display P3 pixels, matched by the driver).
    pub profile: Option<PrintProfile>,
}

/// Interleaved 8-bit device pixels plus the ICC profile that describes them.
#[derive(Clone, Debug)]
pub struct PrintImage {
    pub width: u32,
    pub height: u32,
    /// 3 (RGB), 4 (CMYK) or 1 (gray).
    pub channels: u32,
    pub data: Vec<u8>,
    pub icc: Vec<u8>,
}

/// The print box a render may fill: at least one pixel each way and at most
/// 200 megapixels.
pub fn check_print_box(max_width: u32, max_height: u32) -> (r: Result<(), BridgeError>)
    ensures
        (max_width == 0 || max_height == 0) ==> (r matches Err(e) && e.message() == "print box must be at least 1 × 1 pixel"@),
        (max_width > 0 && max_height > 0 && max_width * max_height > 200_000_000) ==> (r matches Err(e)
            && e.message() == "print box exceeds 200 megapixels"@),
        (max_width > 0 && max_height > 0 && max_width * max_height <= 200_000_000) ==> r is Ok,
{
    if max_width == 0 || max_height == 0 {
        return Err(failure("print box must be at least 1 × 1 pixel"));
    }
    let w = max_width as u64;
    let h = max_height as u64;
    assert(w * h <= 0xffff_ffff * 0xffff_ffff) by (nonlinear_arith)
        requires
            w <= 0xffff_ffff,
            h <= 0xffff_ffff,
    ;
    let area = w * h;
    if area > 200_000_000 {
        return Err(failure("print box exceeds 200 megapixels"));
    }
    Ok(())
}

// ───────────────────────────── batch targets ─────────────────────────────

/// `ids` with every repeat after the first occurrence left out.
pub open spec fn first_occurrences_of(ids: Seq<Seq<char>>) -> Seq<Seq<char>>
    decreases ids.len(),
{
    if ids.len() == 0 {
        Seq::empty()
    } else {
        let kept = first_occurrences_of(ids.drop_last());
        if ids.drop_last().contains(ids.last()) {
            kept
        } else {
            kept.push(ids.last())
        }
    }
}

/// A batch holds each image once, and exactly the images asked for.
pub proof fn batches_hold_each_image_once(ids: Seq<Seq<char>>)
    ensures
        no_repeats(first_occurrences_of(ids)),
        forall|x: Seq<char>| first_occurrences_of(ids).contains(x) <==> ids.contains(x),
    decreases ids.len(),
{
    if ids.len() > 0 {
        let p = ids.drop_last();
        let x = ids.last();
        batches_hold_each_image_once(p);
        let kept = first_occurrences_of(p);
        assert forall|y: Seq<char>| ids.contains(y) <==> (p.contains(y) || y == x) by {
            if ids.contains(y) {
                let k = choose|k: int| 0 <= k < ids.len() && ids[k] == y;
                if k < p.len() {
                    assert(p[k] == y);
                }
            }
            if p.contains(y) {
                let k = choose|k: int| 0 <= k < p.len() && p[k] == y;
                assert(ids[k] == y);
            }
            if y == x {
                assert(ids[ids.len() - 1] == y);
            }
        }
        if !p.contains(x) {
            let out = kept.push(x);
            assert(first_occurrences_of(ids) == out);
            assert forall|y: Seq<char>| out.contains(y) <==> (kept.contains(y) || y == x) by {
                if out.contains(y) {
                    let k = choose|k: int| 0 <= k < out.len() && out[k] == y;
                    if k < kept.len() {
                        assert(kept[k] == y);
                    }
                }
                if kept.contains(y) {
                    let k = choose|k: int| 0 <= k < kept.len() && kept[k] == y;
                    assert(out[k] == y);
                }
                if y == x {
                    assert(out[out.len() - 1] == y);
                }
            }
            assert forall|i: int, j: int| 0 <= i < j < out.len() implies out[i] != out[j] by {
                if j == out.len() - 1 {
                    assert(kept.contains(out[i]));
                } else {
                    assert(out[i] == kept[i] && out[j] == kept[j]);
                }
            }
        }
    }
}

/// Whether a sequence has no repeats.
pub open spec fn no_repeats(s: Seq<Seq<char>>) -> bool {
    forall|i: int, j: int| 0 <= i < j < s.len() ==> s[i] != s[j]
}

pub open spec fn texts(v: Seq<String>) -> Seq<Seq<char>> {
    v.map_values(|s: String| s@)
}

fn seen_before(ids: &Vec<String>, i: usize) -> (r: bool)
    requires
        i < ids.len(),
    ensures
        r == texts(ids@).take(i as int).contains(ids@[i as int]@),
{
    let mut j: usize = 0;
    while j < i
        invariant
            j <= i < ids.len(),
            forall|k: int| 0 <= k < j ==> ids@[k]@ != ids@[i as int]@,
        decreases i - j,
    {
        if same_text(ids[j].as_str(), ids[i].as_str()) {
            assert(texts(ids@).take(i as int)[j as int] == ids@[i as int]@);
            return true;
        }
        j = j + 1;
    }
    proof {
        assert forall|k: int| 0 <= k < i implies texts(ids@).take(i as int)[k] != ids@[i as int]@ by {
            assert(texts(ids@).take(i as int)[k] == ids@[k]@);
        }
    }
    false
}

/// The images of a batch in the given order, each once: the first
/// occurrence stays, so sequence numbers follow the given order.
pub fn first_occurrences(ids: Vec<String>) -> (r: Vec<String>)
    ensures
        texts(r@) == first_occurrences_of(texts(ids@)),
{
    let mut out: Vec<String> = Vec::new();
    let mut i: usize = 0;
    while i < ids.len()
        invariant
            i <= ids.len(),
            texts(out@) == first_occurrences_of(texts(ids@).take(i as int)),
        decreases ids.len() - i,
    {
        let seen = seen_before(&ids, i);
        proof {
            let t = texts(ids@).take(i + 1);
            assert(t.drop_last() =~= texts(ids@).take(i as int));
            assert(t.last() == ids@[i as int]@);
        }
        if !seen {
            let ghost before = out@;
            out.push(ids[i].clone());
            proof {
                assert(texts(out@) =~= texts(before).push(ids@[i as int]@));
            }
        }
        i = i + 1;
    }
    proof {
        assert(texts(ids@).take(ids.len() as int) =~= texts(ids@));
    }
    out
}

// ───────────────────────────── batch naming ─────────────────────────────

/// What the planner answers for one candidate file name.
#[derive(Debug)]
pub enum NameStep {
    /// The name is free and now planned for this image.
    Take,
    /// Try again with the template `naming`: attempt `attempt`.
    Retry { naming: String, attempt: u32 },
    /// This image fails (its file exists); the others go on.
    Exists { message: String },
}

/// The outcome the planner gives: `Ok` with its step, or the message of a
/// failure of the whole batch.
pub enum StepView {
    Take,
    Retry(Seq<char>, u32),
    Exists(Seq<char>),
    Fails(Seq<char>),
}

pub open spec fn step_of(taken: Seq<Seq<char>>, file: Seq<char>, exists: bool, on_conflict: OnConflict, base: Seq<char>, attempt: u32) -> StepView {
    let clash = taken.contains(lowercase(file));
    if !exists && !clash {
        StepView::Take
    } else {
        match on_conflict {
            OnConflict::Skip => if clash {
                StepView::Fails("the name template gives “"@ + file + "” for more than one photo; add {seq}"@)
            } else {
                StepView::Exists(file + " already exists"@)
            },
            OnConflict::Unique => StepView::Retry(base + "-"@ + decimal_text((attempt + 1) as nat), (attempt + 1) as u32),
        }
    }
}

pub open spec fn step_view(r: Result<NameStep, BridgeError>) -> StepView {
    match r {
        Ok(NameStep::Take) => StepView::Take,
        Ok(NameStep::Retry { naming, attempt }) => StepView::Retry(naming@, attempt),
        Ok(NameStep::Exists { message }) => StepView::Exists(message@),
        Err(e) => StepView::Fails(e.message()),
    }
}

/// Output names planned so far in a batch, lower-cased: no two images are
/// given one file, whatever the case of its letters.
pub struct NamePlan {
    taken: Vec<String>,
}

impl NamePlan {
    pub closed spec fn keys(self) -> Seq<Seq<char>> {
        texts(self.taken@)
    }

    #[verifier::type_invariant]
    spec fn planned_once(self) -> bool {
        no_repeats(texts(self.taken@))
    }

    pub fn new() -> (r: NamePlan)
        ensures
            r.keys() == Seq::<Seq<char>>::empty(),
            no_repeats(r.keys()),
    {
        let r = NamePlan { taken: Vec::new() };
        assert(texts(r.taken@) =~= Seq::<Seq<char>>::empty());
        r
    }

    fn holds(&self, key: &String) -> (r: bool)
        ensures
            r == self.keys().contains(key@),
    {
        let mut i: usize = 0;
        while i < self.taken.len()
            invariant
                i <= self.taken.len(),
                forall|j: int| 0 <= j < i ==> self.taken@[j]@ != key@,
            decreases self.taken.len() - i,
        {
            if same_text(self.taken[i].as_str(), key.as_str()) {
                assert(self.keys()[i as int] == key@);
                return true;
            }
            i = i + 1;
        }
        proof {
            assert forall|j: int| 0 <= j < self.keys().len() implies self.keys()[j] != key@ by {
                assert(self.keys()[j] == self.taken@[j]@);
            }
        }
        false
    }

    /// One candidate output name of an image: `file` is what the template
    /// `base` (attempt `attempt`) gives, `exists` whether that file (or its
    /// sidecar) is already on disk. A free name is planned; otherwise the
    /// conflict rule decides: a unique name retries with `-2`, `-3`, …
    /// appended to the template, skip fails the image, or the whole batch
    /// when two images of it would share the name.
    pub fn step(&mut self, file: &str, exists: bool, on_conflict: OnConflict, base: &str, attempt: u32) -> (r: Result<NameStep, BridgeError>)
        requires
            attempt < 0x7fff_ffff,
        ensures
            step_view(r) == step_of(old(self).keys(), file@, exists, on_conflict, base@, attempt),
            final(self).keys() == (if step_view(r) is Take {
                old(self).keys().push(lowercase(file@))
            } else {
                old(self).keys()
            }),
            no_repeats(final(self).keys()),
    {
        proof {
            use_type_invariant(&*self);
        }
        let key = to_lowercase(file);
        let clash = self.holds(&key);
        if !exists && !clash {
            let ghost before = texts(self.taken@);
            let mut taken = copy_texts(&self.taken);
            taken.push(key);
            proof {
                assert(texts(taken@) =~= before.push(lowercase(file@)));
                assert(no_repeats(texts(taken@))) by {
                    assert forall|i: int, j: int| 0 <= i < j < texts(taken@).len() implies texts(taken@)[i] != texts(taken@)[j] by {
                        if j == before.len() {
                            assert(before[i] == texts(taken@)[i]);
                        }
                    }
                }
            }
            self.taken = taken;
            return Ok(NameStep::Take);
        }
        match on_conflict {
            OnConflict::Skip => {
                if clash {
                    let head = String::from_str("the name template gives “");
                    let named = concat_str(&head, file);
                    let message = concat_str(&named, "” for more than one photo; add {seq}");
                    Err(failure_owned(message))
                } else {
                    let head = String::from_str(file);
                    Ok(NameStep::Exists { message: concat_str(&head, " already exists") })
                }
            },
            OnConflict::Unique => {
                let next = attempt + 1;
                let head = String::from_str(base);
                let dashed = concat_str(&head, "-");
                let digits = u64_decimal(next as u64);
                Ok(NameStep::Retry { naming: concat_str(&dashed, digits.as_str()), attempt: next })
            },
        }
    }
}

fn copy_texts(v: &Vec<String>) -> (r: Vec<String>)
    ensures
        texts(r@) == texts(v@),
{
    let mut r: Vec<String> = Vec::new();
    let mut i: usize = 0;
    while i < v.len()
        invariant
            i <= v.len(),
            texts(r@) == texts(v@.take(i as int)),
        decreases v.len() - i,
    {
        let t = v[i].clone();
        let ghost before = r@;
        r.push(t);
        proof {
            assert(v@.take(i + 1) =~= v@.take(i as int).push(v@[i as int]));
            assert(texts(r@) =~= texts(before).push(t@));
            assert(texts(v@.take(i + 1)) =~= texts(v@.take(i as int)).push(v@[i as int]@));
        }
        i = i + 1;
    }
    assert(v@.take(v.len() as int) =~= v@);
    r
}

// ───────────────────────────── source names ─────────────────────────────

/// The stem of a source file, which names its output.
pub fn stem(path: &str) -> (r: Result<String, BridgeError>)
    ensures
        match path_file_stem(path@) {
            Some(n) => r matches Ok(t) && t@ == n,
            None => r matches Err(e) && e.message() == "file names must be UTF-8"@,
        },
{
    match file_stem_of(path) {
        Some(n) => Ok(n),
        None => Err(failure("file names must be UTF-8")),
    }
}

/// The file name of a source, empty without one.
pub fn file_name(path: &str) -> (r: String)
    ensures
        r@ == (match path_file_name(path@) {
            Some(n) => n,
            None => Seq::<char>::empty(),
        }),
{
    match file_name_of(path) {
        Some(n) => n,
        None => String::new(),
    }
}

// ───────────────────────────── destination ─────────────────────────────

/// What `Path::is_absolute` answers for a path text, on the platform the
/// library is built for (roots differ between Unix and Windows).
pub uninterp spec fn path_absolute(p: Seq<char>) -> bool;

/// `Path::is_absolute` of a path text.
#[verifier::external_body]
fn is_absolute(path: &str) -> (r: bool)
    ensures
        r == path_absolute(path@),
{
    std::path::Path::new(path).is_absolute()
}

/// Where a batch writes and that it writes something: the destination,
/// trimmed, must be an absolute path, and the batch must hold an image.
pub fn check_batch(destination: &str, images: usize) -> (r: Result<String, BridgeError>)
    ensures
        !path_absolute(trimmed(destination@)) ==> (r matches Err(e) && e.message()
            == "choose an export folder (an absolute path)"@),
        path_absolute(trimmed(destination@)) && images == 0 ==> (r matches Err(e) && e.message() == "nothing to export"@),
        path_absolute(trimmed(destination@)) && images > 0 ==> (r matches Ok(d) && d@ == trimmed(destination@)),
{
    let d = trim(destination);
    if !is_absolute(d.as_str()) {
        return Err(failure("choose an export folder (an absolute path)"));
    }
    if images == 0 {
        return Err(failure("nothing to export"));
    }
    Ok(d)
}

} // verus!
