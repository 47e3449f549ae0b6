//! The size-constrained re-encoding loop: trial-encode, and while the bytes
//! exceed the budget, shrink both dimensions by `sqrt(budget / size)` and try
//! again.
use vstd::prelude::*;
use crate::codec::{encode_jpeg, jpeg_of, lanczos_of, resize_lanczos, JPEG_MAX_DIM};
use crate::error::CompressError;
use crate::naming::{names_file, output_path, output_path_of};
use crate::pixels::PixelBuffer;
use crate::scale::{lemma_rounds_to_at_most_dim, lemma_rounds_to_unique, next_dimension, rounds_to};

verus! {

/// What to do after a trial encode.
#[derive(Debug, Clone, Copy, PartialEq, Eq, Structural)]
pub enum Step {
    /// The trial encoding fits the budget: it is the result.
    Fits,
    /// Resample to these dimensions and encode again.
    Resize { width: u16, height: u16 },
    /// Another shrink would leave a dimension below one pixel.
    Degenerate,
}

/// A raster together with its JPEG encoding.
#[derive(Debug, Clone, PartialEq, Eq)]
pub struct Compressed {
    pub pixels: PixelBuffer,
    pub encoded: Vec<u8>,
}

/// `dim * sqrt(budget / size)` rounded half up.
pub open spec fn scaled_dim(dim: int, budget: int, size: int) -> int {
    choose|n: int| rounds_to(n, dim, budget, size)
}

/// The dimension after one shrink: the rounded scaled dimension, held at
/// least one pixel below the current one so that every iteration makes
/// progress.
pub open spec fn shrunk_dim(dim: int, budget: int, size: int) -> int {
    let n = scaled_dim(dim, budget, size);
    if n < dim { n } else { dim - 1 }
}

/// The step taken for a raster of `width` by `height` whose trial encode took
/// `size` bytes.
pub open spec fn step_of(width: int, height: int, size: int, budget: int) -> Step {
    if size <= budget {
        Step::Fits
    } else {
        let w = shrunk_dim(width, budget, size);
        let h = shrunk_dim(height, budget, size);
        if w < 1 || h < 1 {
            Step::Degenerate
        } else {
            Step::Resize { width: w as u16, height: h as u16 }
        }
    }
}

proof fn lemma_scaled_dim(n: int, dim: int, budget: int, size: int)
    requires
        0 < size,
        rounds_to(n, dim, budget, size),
    ensures
        scaled_dim(dim, budget, size) == n,
{
    lemma_rounds_to_unique(scaled_dim(dim, budget, size), n, dim, budget, size);
}

/// A zero budget rounds every dimension down to zero.
proof fn lemma_zero_budget_rounds_to_zero(n: int, dim: int, size: int)
    requires
        0 < size,
        rounds_to(n, dim, 0, size),
    ensures
        n == 0,
{
    if n > 0 {
        assert((2 * n - 1) * (2 * n - 1) * size > 0) by (nonlinear_arith)
            requires n > 0, size > 0;
    }
}

/// Decides the step after a trial encode of `size` bytes.
pub fn plan_step(width: u16, height: u16, size: u64, budget: u64) -> (r: Step)
    ensures
        r == step_of(width as int, height as int, size as int, budget as int),
        r is Fits <==> size <= budget,
        r matches Step::Resize { width: w, height: h } ==> 1 <= w < width && 1 <= h < height,
        budget == 0 && size > 0 ==> r is Degenerate,
{
    if size <= budget {
        return Step::Fits;
    }
    let sw = next_dimension(width, budget, size);
    let sh = next_dimension(height, budget, size);
    proof {
        lemma_scaled_dim(sw as int, width as int, budget as int, size as int);
        lemma_scaled_dim(sh as int, height as int, budget as int, size as int);
        if budget == 0 {
            lemma_zero_budget_rounds_to_zero(sw as int, width as int, size as int);
            lemma_zero_budget_rounds_to_zero(sh as int, height as int, size as int);
        }
    }
    let w: u16 = if sw < width { sw } else if width > 0 { width - 1 } else { 0 };
    let h: u16 = if sh < height { sh } else if height > 0 { height - 1 } else { 0 };
    if w < 1 || h < 1 {
        Step::Degenerate
    } else {
        Step::Resize { width: w, height: h }
    }
}

/// Where the loop ends for a raster of `width` by `height` holding `data`:
/// the raster whose encoding is returned, or the error.
pub open spec fn outcome(data: Seq<u8>, width: u32, height: u32, budget: u64) -> Result<
    (Seq<u8>, u32, u32),
    CompressError,
>
    decreases width + height,
{
    if width > JPEG_MAX_DIM || height > JPEG_MAX_DIM {
        Err(CompressError::Encode)
    } else {
        let size = jpeg_of(data, width, height).len() as int;
        match step_of(width as int, height as int, size, budget as int) {
            Step::Fits => Ok((data, width, height)),
            Step::Degenerate => Err(CompressError::Resize),
            Step::Resize { width: w, height: h } => {
                if (w as u32) < width && (h as u32) < height {
                    outcome(lanczos_of(data, width, height, w as u32, h as u32), w as u32, h as u32, budget)
                } else {
                    Err(CompressError::Resize)
                }
            },
        }
    }
}

/// A raster whose encoding already fits the budget is the result, unchanged.
pub proof fn lemma_fitting_raster_unchanged(data: Seq<u8>, width: u32, height: u32, budget: u64)
    requires
        width <= JPEG_MAX_DIM,
        height <= JPEG_MAX_DIM,
        jpeg_of(data, width, height).len() <= budget,
    ensures
        outcome(data, width, height, budget) == Ok::<(Seq<u8>, u32, u32), CompressError>((data, width, height)),
{
}

/// Whatever raster the loop ends on, its encoding fits the budget.
pub proof fn lemma_outcome_within_budget(data: Seq<u8>, width: u32, height: u32, budget: u64)
    ensures
        outcome(data, width, height, budget) matches Ok((d, w, h)) ==> jpeg_of(d, w, h).len() <= budget,
    decreases width + height,
{
    if width <= JPEG_MAX_DIM && height <= JPEG_MAX_DIM {
        let size = jpeg_of(data, width, height).len() as int;
        if let Step::Resize { width: w, height: h } = step_of(width as int, height as int, size, budget as int) {
            if (w as u32) < width && (h as u32) < height {
                lemma_outcome_within_budget(lanczos_of(data, width, height, w as u32, h as u32), w as u32, h as u32, budget);
            }
        }
    }
}

/// The loop never grows a dimension, and once a trial encoding exceeds the
/// budget, the raster it ends on is strictly smaller in both dimensions.
pub proof fn lemma_outcome_shrinks(data: Seq<u8>, width: u32, height: u32, budget: u64)
    ensures
        outcome(data, width, height, budget) matches Ok((d, w, h)) ==> w <= width && h <= height
            && (jpeg_of(data, width, height).len() > budget ==> w < width && h < height),
    decreases width + height,
{
    if width <= JPEG_MAX_DIM && height <= JPEG_MAX_DIM {
        let size = jpeg_of(data, width, height).len() as int;
        if let Step::Resize { width: w, height: h } = step_of(width as int, height as int, size, budget as int) {
            if (w as u32) < width && (h as u32) < height {
                lemma_outcome_shrinks(lanczos_of(data, width, height, w as u32, h as u32), w as u32, h as u32, budget);
            }
        }
    }
}

/// Each shrink step scales both dimensions by `sqrt(budget / size)`, rounded
/// to the nearest pixel, whenever that rounding lands strictly below the
/// current dimension and at one pixel or more.
pub proof fn lemma_step_follows_scale(width: int, height: int, size: int, budget: int, w: int, h: int)
    requires
        0 <= budget < size,
        rounds_to(w, width, budget, size),
        rounds_to(h, height, budget, size),
        1 <= w < width,
        1 <= h < height,
    ensures
        step_of(width, height, size, budget) == (Step::Resize { width: w as u16, height: h as u16 }),
{
    lemma_scaled_dim(w, width, budget, size);
    lemma_scaled_dim(h, height, budget, size);
}

/// Re-encodes `buf` as JPEG, shrinking it until the encoding takes at most
/// `budget` bytes. A raster that already fits comes back untouched.
pub fn compress_pixels(buf: PixelBuffer, budget: usize) -> (r: Result<Compressed, CompressError>)
    requires
        buf.wf(),
    ensures
        match outcome(buf.data@, buf.width, buf.height, budget as u64) {
            Ok((data, width, height)) => r matches Ok(c) && c.pixels.wf() && c.pixels.data@ == data
                && c.pixels.width == width && c.pixels.height == height
                && c.encoded@ == jpeg_of(data, width, height),
            Err(e) => r == Err::<Compressed, CompressError>(e),
        },
        r matches Ok(c) ==> c.encoded@.len() <= budget && c.pixels.width <= buf.width
            && c.pixels.height <= buf.height,
        budget == 0 ==> r is Err,
{
    let mut pixels = buf;
    loop
        invariant
            pixels.wf(),
            pixels.width <= buf.width,
            pixels.height <= buf.height,
            outcome(pixels.data@, pixels.width, pixels.height, budget as u64)
                == outcome(buf.data@, buf.width, buf.height, budget as u64),
        decreases pixels.width + pixels.height,
    {
        let encoded = match encode_jpeg(&pixels.data, pixels.width, pixels.height) {
            Ok(bytes) => bytes,
            Err(_) => return Err(CompressError::Encode),
        };
        let size = encoded.len() as u64;
        match plan_step(pixels.width as u16, pixels.height as u16, size, budget as u64) {
            Step::Fits => {
                return Ok(Compressed { pixels, encoded });
            },
            Step::Degenerate => {
                return Err(CompressError::Resize);
            },
            Step::Resize { width, height } => {
                let (w, h) = (pixels.width, pixels.height);
                let samples: usize = pixels.data.len();
                assert(samples == 3 * (w as int) * (h as int));
                assert(3 * (width as int) * (height as int) <= 3 * (w as int) * (h as int)) by (nonlinear_arith)
                    requires width < w, height < h;
                let data = resize_lanczos(pixels.data, w, h, width as u32, height as u32);
                pixels = PixelBuffer { width: width as u32, height: height as u32, data };
            },
        }
    }
}

/// The result of re-encoding an image read from `source`: where it goes and
/// what is written there.
#[derive(Debug, Clone, PartialEq, Eq)]
pub struct Output {
    pub path: Vec<u8>,
    pub compressed: Compressed,
}

/// Re-encodes the raster decoded from the file at `source` (UTF-8 bytes) to
/// fit `budget`, and names its destination: `compressed_<stem>.jpg` in the
/// source's directory. A source path that names no file is an `Io` error.
pub fn compress_to_path(source: &[u8], buf: PixelBuffer, budget: usize) -> (r: Result<Output, CompressError>)
    requires
        buf.wf(),
    ensures
        match outcome(buf.data@, buf.width, buf.height, budget as u64) {
            Ok((data, width, height)) => if names_file(source@) {
                r matches Ok(o) && o.path@ == output_path_of(source@) && o.compressed.pixels.wf()
                    && o.compressed.pixels.data@ == data && o.compressed.pixels.width == width
                    && o.compressed.pixels.height == height && o.compressed.encoded@ == jpeg_of(data, width, height)
            } else {
                r == Err::<Output, CompressError>(CompressError::Io)
            },
            Err(e) => r == Err::<Output, CompressError>(e),
        },
        r matches Ok(o) ==> o.compressed.encoded@.len() <= budget,
{
    let compressed = compress_pixels(buf, budget)?;
    match output_path(source) {
        Some(path) => Ok(Output { path, compressed }),
        None => Err(CompressError::Io),
    }
}

} // verus!
