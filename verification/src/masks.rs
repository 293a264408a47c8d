//! Smart filter masks as the document stores them: an 8-bit grey PNG of the
//! whole canvas, base64.
use vstd::prelude::*;
use vstd::string::*;
use crate::base64::{base64_decode, base64_encode, decode_bytes, encoded};
use crate::ids::{BridgeError, failure, failure_owned};
use vstd::arithmetic::power2::pow2;
use vstd::bits::{lemma_u64_pow2_no_overflow, lemma_u64_shl_is_mul};

verus! {

/// The PNG the `png` crate writes for `levels` as an 8-bit grey image of
/// `width × height` with fast compression.
pub uninterp spec fn grey_png(width: u32, height: u32, levels: Seq<u8>) -> Seq<u8>;

/// `png::Encoder` writing `levels` as an 8-bit grey image with fast
/// compression. It fails exactly when the image is empty or `levels` does
/// not hold one byte per pixel; the message is the encoder's.
#[verifier::external_body]
fn encode_grey_png(width: u32, height: u32, levels: &[u8]) -> (r: Result<Vec<u8>, String>)
    requires
        width * height <= usize::MAX,
    ensures
        r is Ok <==> (width > 0 && height > 0 && levels@.len() == width * height),
        r matches Ok(b) ==> b@ == grey_png(width, height, levels@),
{
    let mut out = Vec::new();
    let mut enc = png::Encoder::new(&mut out, width, height);
    enc.set_color(png::ColorType::Grayscale);
    enc.set_depth(png::BitDepth::Eight);
    enc.set_compression(png::Compression::Fast);
    let mut writer = enc.write_header().map_err(|e| e.to_string())?;
    writer.write_image_data(levels).map_err(|e| e.to_string())?;
    drop(writer);
    Ok(out)
}

/// The first frame the `png` crate decodes from `bytes`: width, height,
/// colour type and bit depth (as the PNG format numbers them), the byte
/// length of a row, and the rows.
pub uninterp spec fn png_frame(bytes: Seq<u8>) -> Option<(u32, u32, u8, u8, usize, Seq<u8>)>;

/// The PNG colour type of grey images without alpha.
pub const GRAYSCALE: u8 = 0;

/// The bit depth of one byte per sample.
pub const EIGHT_BITS: u8 = 8;

/// Whether a decoded frame is what a mask is stored as: 8-bit grey.
pub open spec fn is_grey_8(color: u8, depth: u8) -> bool {
    color == GRAYSCALE && depth == EIGHT_BITS
}

/// `png::Decoder` reading the first frame of `bytes`; the colour type and
/// bit depth come as the `u8` numbers of `png::ColorType` and
/// `png::BitDepth`, and the message of a failure is the decoder's.
#[verifier::external_body]
fn decode_png(bytes: Vec<u8>) -> (r: Result<(u32, u32, u8, u8, usize, Vec<u8>), String>)
    ensures
        match r {
            Ok((w, h, color, depth, line, rows)) => png_frame(bytes@) == Some(
                (w, h, color, depth, line, rows@),
            ),
            Err(_) => png_frame(bytes@) is None,
        },
{
    let mut reader = png::Decoder::new(std::io::Cursor::new(bytes)).read_info().map_err(|e| e.to_string())?;
    let size = reader.output_buffer_size().ok_or_else(|| png::DecodingError::LimitsExceeded.to_string())?;
    let mut rows = vec![0u8; size];
    let info = reader.next_frame(&mut rows).map_err(|e| e.to_string())?;
    Ok((info.width, info.height, info.color_type as u8, info.bit_depth as u8, info.line_size, rows))
}

/// A selection as a stored mask: its levels (0 hidden … 255 shown, one byte
/// per canvas pixel, row by row) as a grey PNG, base64.
pub fn mask_png(width: u32, height: u32, levels: &Vec<u8>) -> (r: Result<String, BridgeError>)
    requires
        width * height <= usize::MAX,
    ensures
        r is Ok <==> (width > 0 && height > 0 && levels@.len() == width * height),
        r matches Ok(t) ==> t@ == encoded(grey_png(width, height, levels@)),
{
    match encode_grey_png(width, height, levels.as_slice()) {
        Ok(bytes) => Ok(base64_encode(bytes.as_slice())),
        Err(message) => Err(failure_owned(message)),
    }
}

/// A stored mask read back for a canvas of `width × height`: the decoded
/// row length and rows. Refused when the text is not base64, the PNG does
/// not decode, or it is not an 8-bit grey image of the canvas's size.
pub fn mask_levels(mask: &str, width: u32, height: u32) -> (r: Result<(usize, Vec<u8>), BridgeError>)
    ensures
        match decode_bytes(mask.spec_bytes()) {
            None => r matches Err(e) && e.message() == "smart filter mask: bad base64"@,
            Some(bytes) => match png_frame(bytes) {
                None => r is Err,
                Some((w, h, color, depth, line, rows)) => if w == width && h == height && is_grey_8(
                    color,
                    depth,
                ) {
                    r matches Ok((l, v)) && l == line && v@ == rows
                } else {
                    r matches Err(e) && e.message() == "smart filter mask does not match the canvas"@
                },
            },
        },
{
    let bytes = match base64_decode(mask) {
        Some(b) => b,
        None => return Err(failure("smart filter mask: bad base64")),
    };
    let (w, h, color, depth, line, rows) = match decode_png(bytes) {
        Ok(frame) => frame,
        Err(message) => return Err(failure_owned(message)),
    };
    if w != width || h != height || color != GRAYSCALE || depth != EIGHT_BITS {
        return Err(failure("smart filter mask does not match the canvas"));
    }
    Ok((line, rows))
}

/// Sum of the levels `rows[start + x]` for `x` in `xs..xe`.
pub open spec fn row_sum(rows: Seq<u8>, start: int, xs: int, xe: int) -> int
    decreases xe - xs,
{
    if xe <= xs {
        0
    } else {
        row_sum(rows, start, xs, xe - 1) + rows[start + xe - 1] as int
    }
}

/// Sum of the levels in columns `xs..xe` of the rows `ys..ye`, rows lying
/// `line` bytes apart.
pub open spec fn block_sum(rows: Seq<u8>, line: int, xs: int, xe: int, ys: int, ye: int) -> int
    decreases ye - ys,
{
    if ye <= ys {
        0
    } else {
        block_sum(rows, line, xs, xe, ys, ye - 1) + row_sum(rows, (ye - 1) * line, xs, xe)
    }
}

fn row_total(rows: &Vec<u8>, start: usize, xs: usize, xe: usize) -> (s: u64)
    requires
        xs < xe,
        start + xe <= rows@.len(),
        255 * rows@.len() <= u64::MAX,
    ensures
        s == row_sum(rows@, start as int, xs as int, xe as int),
        s <= 255 * (xe - xs),
{
    let len = rows.len();
    let mut sum: u64 = 0;
    let mut xx = xs;
    while xx < xe
        invariant
            xs <= xx <= xe,
            len == rows@.len(),
            start + xe <= rows@.len(),
            255 * rows@.len() <= u64::MAX,
            sum == row_sum(rows@, start as int, xs as int, xx as int),
            sum <= 255 * (xx - xs),
        decreases xe - xx,
    {
        sum = sum + rows[start + xx] as u64;
        xx = xx + 1;
    }
    sum
}

fn block_total(rows: &Vec<u8>, line: usize, xs: usize, xe: usize, ys: usize, ye: usize) -> (s: u64)
    requires
        xs < xe <= line,
        ys < ye,
        ye * line <= rows@.len(),
        255 * rows@.len() <= u64::MAX,
    ensures
        s == block_sum(rows@, line as int, xs as int, xe as int, ys as int, ye as int),
{
    let len = rows.len();
    let mut sum: u64 = 0;
    let mut yy = ys;
    while yy < ye
        invariant
            ys <= yy <= ye,
            len == rows@.len(),
            xs < xe <= line,
            ye * line <= rows@.len(),
            255 * rows@.len() <= u64::MAX,
            sum == block_sum(rows@, line as int, xs as int, xe as int, ys as int, yy as int),
            sum <= 255 * (yy * line),
        decreases ye - yy,
    {
        assert((yy + 1) * line <= ye * line && (yy + 1) * line == yy * line + line) by (nonlinear_arith)
            requires
                yy < ye,
        ;
        let part = row_total(rows, yy * line, xs, xe);
        sum = sum + part;
        yy = yy + 1;
    }
    sum
}

proof fn lemma_empty_block(rows: Seq<u8>, line: int, xs: int, xe: int, ys: int, ye: int)
    requires
        ye <= ys || xe <= xs,
    ensures
        block_sum(rows, line, xs, xe, ys, ye) == 0,
    decreases ye - ys,
{
    if ys < ye {
        lemma_empty_block(rows, line, xs, xe, ys, ye - 1);
    }
}

/// Where a span of `scale` pixels starting at `cell · scale` ends, cut at
/// `limit`.
pub open spec fn span_end(cell: int, scale: int, limit: int) -> int {
    if cell * scale + scale < limit {
        cell * scale + scale
    } else {
        limit
    }
}

/// How many pixels of that span lie before `limit`.
pub open spec fn span_len(cell: int, scale: int, limit: int) -> int {
    if cell * scale < span_end(cell, scale, limit) {
        span_end(cell, scale, limit) - cell * scale
    } else {
        0
    }
}

/// The levels summed over the box of cell `(cx, cy)`: `scale × scale`
/// pixels at `(cx · scale, cy · scale)`, cut at the canvas edge.
pub open spec fn cell_sum(
    rows: Seq<u8>,
    line: int,
    width: int,
    height: int,
    scale: int,
    cx: int,
    cy: int,
) -> int {
    block_sum(
        rows,
        line,
        cx * scale,
        span_end(cx, scale, width),
        cy * scale,
        span_end(cy, scale, height),
    )
}

/// For each cell of a region of `cols × lines` cells at (`left`, `top`) on
/// pyramid level `level`, the sum of the mask levels under it at full
/// resolution (a box of 2^level × 2^level pixels, cut at the canvas edge)
/// and how many pixels the box holds; the cell's share of the mask is the
/// sum over 255 times the count, and a cell whose box lies off the canvas
/// has a count of 0. `rows` are the decoded rows, `line` bytes apart.
pub fn mask_box_sums(
    line: usize,
    rows: &Vec<u8>,
    width: u32,
    height: u32,
    level: u8,
    left: u64,
    top: u64,
    cols: u32,
    lines: u32,
) -> (r: Vec<Vec<(u64, u64)>>)
    requires
        width <= line,
        height * line <= rows@.len(),
        255 * rows@.len() <= u64::MAX,
        level < 64,
        cols > 0 ==> (left + cols) * pow2(level as nat) <= i64::MAX,
        lines > 0 ==> (top + lines) * pow2(level as nat) <= i64::MAX,
    ensures
        r@.len() == lines,
        forall|y: int| 0 <= y < lines ==> (#[trigger] r@[y])@.len() == cols,
        forall|y: int, x: int|
            0 <= y < lines && 0 <= x < cols ==> {
                let scale = pow2(level as nat) as int;
                let cell = #[trigger] r@[y]@[x];
                &&& cell.0 == cell_sum(
                    rows@,
                    line as int,
                    width as int,
                    height as int,
                    scale,
                    left + x,
                    top + y,
                )
                &&& cell.1 == span_len(left + x, scale, width as int) * span_len(
                    top + y,
                    scale,
                    height as int,
                )
            },
{
    proof {
        lemma_u64_pow2_no_overflow(level as nat);
        lemma_u64_shl_is_mul(1, level as u64);
    }
    let d: u64 = 1u64 << (level as u64);
    let ghost scale = pow2(level as nat) as int;
    let mut out: Vec<Vec<(u64, u64)>> = Vec::new();
    let mut y: u32 = 0;
    while y < lines
        invariant
            y <= lines,
            d == scale,
            scale > 0,
            scale == pow2(level as nat) as int,
            width <= line,
            height * line <= rows@.len(),
            255 * rows@.len() <= u64::MAX,
            cols > 0 ==> (left + cols) * scale <= i64::MAX,
            lines > 0 ==> (top + lines) * scale <= i64::MAX,
            out@.len() == y,
            forall|j: int| 0 <= j < y ==> (#[trigger] out@[j])@.len() == cols,
            forall|j: int, x: int|
                0 <= j < y && 0 <= x < cols ==> {
                    let cell = #[trigger] out@[j]@[x];
                    &&& cell.0 == cell_sum(
                        rows@,
                        line as int,
                        width as int,
                        height as int,
                        scale,
                        left + x,
                        top + j,
                    )
                    &&& cell.1 == span_len(left + x, scale, width as int) * span_len(
                        top + j,
                        scale,
                        height as int,
                    )
                },
        decreases lines - y,
    {
        assert(top + lines <= (top + lines) * scale) by (nonlinear_arith)
            requires
                scale >= 1,
                top + lines >= 0,
        ;
        let cy = top + y as u64;
        assert((cy + 1) * scale <= (top + lines) * scale && (cy + 1) * scale == cy * scale + scale)
            by (nonlinear_arith)
            requires
                cy < top + lines,
                scale > 0,
        ;
        let ys = cy * d;
        let ye = if ys + d < height as u64 {
            ys + d
        } else {
            height as u64
        };
        let row = cell_row(line, rows, width, height, d, Ghost(scale), left, cols, cy, ys, ye);
        out.push(row);
        y = y + 1;
    }
    out
}

fn cell_row(
    line: usize,
    rows: &Vec<u8>,
    width: u32,
    height: u32,
    d: u64,
    scale: Ghost<int>,
    left: u64,
    cols: u32,
    cy: u64,
    ys: u64,
    ye: u64,
) -> (row: Vec<(u64, u64)>)
    requires
        d == scale@,
        scale@ > 0,
        width <= line,
        height * line <= rows@.len(),
        255 * rows@.len() <= u64::MAX,
        cols > 0 ==> (left + cols) * scale@ <= i64::MAX,
        ys == cy * scale@,
        ye == span_end(cy as int, scale@, height as int),
    ensures
        row@.len() == cols,
        forall|x: int|
            0 <= x < cols ==> {
                let cell = #[trigger] row@[x];
                &&& cell.0 == cell_sum(
                    rows@,
                    line as int,
                    width as int,
                    height as int,
                    scale@,
                    left + x,
                    cy as int,
                )
                &&& cell.1 == span_len(left + x, scale@, width as int) * span_len(
                    cy as int,
                    scale@,
                    height as int,
                )
            },
{
    let mut row: Vec<(u64, u64)> = Vec::new();
    let mut x: u32 = 0;
    while x < cols
        invariant
            x <= cols,
            d == scale@,
            scale@ > 0,
            width <= line,
            height * line <= rows@.len(),
            255 * rows@.len() <= u64::MAX,
            cols > 0 ==> (left + cols) * scale@ <= i64::MAX,
            ys == cy * scale@,
            ye == span_end(cy as int, scale@, height as int),
            row@.len() == x,
            forall|i: int|
                0 <= i < x ==> {
                    let cell = #[trigger] row@[i];
                    &&& cell.0 == cell_sum(
                        rows@,
                        line as int,
                        width as int,
                        height as int,
                        scale@,
                        left + i,
                        cy as int,
                    )
                    &&& cell.1 == span_len(left + i, scale@, width as int) * span_len(
                        cy as int,
                        scale@,
                        height as int,
                    )
                },
        decreases cols - x,
    {
        assert(left + cols <= (left + cols) * scale@) by (nonlinear_arith)
            requires
                scale@ >= 1,
                left + cols >= 0,
        ;
        let cx = left + x as u64;
        assert((cx + 1) * scale@ <= (left + cols) * scale@ && (cx + 1) * scale@ == cx * scale@
            + scale@) by (nonlinear_arith)
            requires
                cx < left + cols,
                scale@ > 0,
        ;
        let xs = cx * d;
        let xe = if xs + d < width as u64 {
            xs + d
        } else {
            width as u64
        };
        let cell = if xs < xe && ys < ye {
            assert(ye * line <= height * line && (xe - xs) * (ye - ys) <= height * line)
                by (nonlinear_arith)
                requires
                    ye <= height,
                    xe - xs <= width,
                    width <= line,
                    ys < ye,
            ;
            let sum = block_total(rows, line, xs as usize, xe as usize, ys as usize, ye as usize);
            (sum, (xe - xs) * (ye - ys))
        } else {
            proof {
                lemma_empty_block(rows@, line as int, xs as int, xe as int, ys as int, ye as int);
            }
            (0u64, 0u64)
        };
        row.push(cell);
        x = x + 1;
    }
    row
}

} // verus!
