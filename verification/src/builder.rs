//! The grid builder: from the bytes of an image to an occupancy grid.
//!
//! The image is decoded, reduced to luminance, resampled to the size of the
//! grid with a triangle filter and cut at a fixed luminance: a cell is
//! passable where the resampled luminance reaches [`LUMA_THRESHOLD`].

use vstd::prelude::*;
use crate::error::VisibilityError;
use crate::grid::{GridView, OccupancyGrid, MAX_GRID_SIDE};

verus! {

/// The luminance from which a cell is passable.
pub const LUMA_THRESHOLD: u8 = 128;

/// The longest side of a raster that is resampled, and of the grid it is
/// resampled to. Resampling places the centre of every pixel in a 32-bit
/// floating-point number; up to this side every centre is held exactly, with
/// room for the rounding of the scale between the two rasters.
pub const MAX_SIDE: u32 = 1_048_576;

/// Bytes of working memory for each sample of the raster that resampling
/// builds between its two passes: four channels of four bytes.
pub const WORKING_BYTES: u64 = 16;

/// A raster `src_width` wide can be resampled to `width` by `height` on this
/// machine: the raster between the two passes, `src_width` by `height`, and
/// the result can each be held in one allocation.
pub open spec fn fits_memory(src_width: int, width: int, height: int) -> bool {
    WORKING_BYTES * src_width * height <= isize::MAX && width * height <= isize::MAX
}

/// A grid of these sides can be asked for: each side is at least one and at
/// most [`MAX_SIDE`], and its cells can be held in one allocation.
pub open spec fn valid_target(width: int, height: int) -> bool {
    1 <= width <= MAX_SIDE && 1 <= height <= MAX_SIDE && width * height <= isize::MAX
}

/// What a raster of luminance is: its sides and its samples, row by row from
/// the top.
pub struct Raster {
    pub width: int,
    pub height: int,
    pub pixels: Seq<u8>,
}

impl Raster {
    /// There is one sample for each pixel.
    pub open spec fn wf(self) -> bool {
        0 <= self.width && 0 <= self.height && self.pixels.len() == self.width * self.height
    }

    /// The raster can be resampled: it is well formed and each side is at
    /// least one and at most [`MAX_SIDE`].
    pub open spec fn usable(self) -> bool {
        self.wf() && 1 <= self.width <= MAX_SIDE && 1 <= self.height <= MAX_SIDE
    }

    /// The raster can be cut into a grid: it is well formed and each side is
    /// at least one and at most [`MAX_GRID_SIDE`].
    pub open spec fn fits_grid(self) -> bool {
        self.wf() && 1 <= self.width <= MAX_GRID_SIDE && 1 <= self.height <= MAX_GRID_SIDE
    }

    /// The grid that the raster gives when cut at [`LUMA_THRESHOLD`].
    pub open spec fn binarized(self) -> GridView {
        GridView {
            width: self.width,
            height: self.height,
            cells: Seq::new(self.pixels.len(), |i: int| self.pixels[i] >= LUMA_THRESHOLD),
        }
    }
}

/// A raster of 8-bit luminance, row by row from the top.
#[derive(Clone, Debug)]
pub struct LumaImage {
    pub width: u32,
    pub height: u32,
    pub pixels: Vec<u8>,
}

impl View for LumaImage {
    type V = Raster;

    open spec fn view(&self) -> Raster {
        Raster { width: self.width as int, height: self.height as int, pixels: self.pixels@ }
    }
}

impl LumaImage {
    /// Whether there is one sample for each pixel and each side is at least
    /// one and at most `longest`.
    fn fits(&self, longest: u32) -> (r: bool)
        requires
            longest <= MAX_GRID_SIDE,
        ensures
            r == (self@.wf() && 1 <= self.width <= longest && 1 <= self.height <= longest),
    {
        if self.width == 0 || self.height == 0 || self.width > longest || self.height > longest {
            return false;
        }
        assert(self.width * self.height <= 0x7fff_ffff * 0x7fff_ffff) by (nonlinear_arith)
            requires
                0 <= self.width <= 0x7fff_ffff,
                0 <= self.height <= 0x7fff_ffff,
        ;
        self.pixels.len() as u64 == (self.width as u64) * (self.height as u64)
    }

    /// Whether the raster can be resampled: see [`Raster::usable`].
    pub fn is_usable(&self) -> (r: bool)
        ensures
            r == self@.usable(),
    {
        self.fits(MAX_SIDE)
    }

    /// Whether the raster can be cut into a grid: see [`Raster::fits_grid`].
    pub fn fits_grid(&self) -> (r: bool)
        ensures
            r == self@.fits_grid(),
    {
        self.fits(MAX_GRID_SIDE)
    }
}

/// `image::DynamicImage`, a decoded image of any pixel format. Nothing is
/// known of what it holds but through [`luma_raster`].
#[verifier::external_type_specification]
#[verifier::external_body]
pub struct ExDynamicImage(image::DynamicImage);

/// `image::ImageError`, why an image could not be decoded. Nothing is read
/// from it.
#[verifier::external_type_specification]
#[verifier::external_body]
pub struct ExImageError(image::ImageError);

/// The image holds its samples as floating-point numbers.
pub uninterp spec fn float_samples(img: image::DynamicImage) -> bool;

/// The luminance of a decoded image.
pub uninterp spec fn luma_raster(img: image::DynamicImage) -> Raster;

/// The samples of a raster resampled to the given sides with a triangle filter.
pub uninterp spec fn resampled(src: Raster, width: int, height: int) -> Seq<u8>;

/// Calls `image::load_from_memory`, which guesses the format of the bytes and
/// decodes them. Nothing is assumed of what it returns: some decoders choose
/// their routines by the processor they run on, so the same bytes need not
/// give the same samples on every machine.
#[verifier::external_body]
fn decode(bytes: &[u8]) -> (r: Result<image::DynamicImage, image::ImageError>) {
    image::load_from_memory(bytes)
}

/// Tells the two variants of `image::DynamicImage` that hold 32-bit
/// floating-point samples, `ImageRgb32F` and `ImageRgba32F`, from the others.
#[verifier::external_body]
fn has_float_samples(img: &image::DynamicImage) -> (r: bool)
    ensures
        r == float_samples(*img),
{
    matches!(img, image::DynamicImage::ImageRgb32F(_) | image::DynamicImage::ImageRgba32F(_))
}

/// Calls `image::DynamicImage::to_luma8`, which copies the image as 8-bit
/// luminance. Assumed: the copy holds one sample for each pixel, and is the
/// same for the same image. Images with floating-point samples are left out:
/// on a sample that is no number the outside function does not return.
#[verifier::external_body]
fn luma_of(img: &image::DynamicImage) -> (luma: LumaImage)
    requires
        !float_samples(*img),
    ensures
        luma@ == luma_raster(*img),
        luma@.wf(),
{
    let gray = img.to_luma8();
    LumaImage { width: gray.width(), height: gray.height(), pixels: gray.into_raw() }
}

/// Calls `image::imageops::resize` with `FilterType::Triangle` on a raster of
/// luminance. Assumed: the result has the sides asked for, one sample for each
/// pixel, and depends on the source and the sides alone. Left out are sides
/// of zero, of which the outside function reads pixels that are not there;
/// sides beyond [`MAX_SIDE`], where its rounded pixel centres can leave a
/// pixel of the result without any weight; and sizes that do not fit the
/// memory of the machine, see [`fits_memory`].
#[verifier::external_body]
fn resample(src: &LumaImage, width: u32, height: u32) -> (out: LumaImage)
    requires
        src@.usable(),
        valid_target(width as int, height as int),
        fits_memory(src.width as int, width as int, height as int),
    ensures
        out.width == width,
        out.height == height,
        out@.wf(),
        out.pixels@ == resampled(src@, width as int, height as int),
{
    let img = image::GrayImage::from_raw(src.width, src.height, src.pixels.clone()).unwrap();
    let scaled = image::imageops::resize(&img, width, height, image::imageops::FilterType::Triangle);
    LumaImage { width: scaled.width(), height: scaled.height(), pixels: scaled.into_raw() }
}

/// Calls `imageproc::contrast::threshold`, which sets every sample that is at
/// most `level` to 0 and every other sample to 255, and keeps the sides.
#[verifier::external_body]
fn threshold_luma(src: &LumaImage, level: u8) -> (out: LumaImage)
    requires
        src@.wf(),
    ensures
        out.width == src.width,
        out.height == src.height,
        out.pixels@.len() == src.pixels@.len(),
        forall|i: int|
            0 <= i < src.pixels@.len() ==> #[trigger] out.pixels@[i] == if src.pixels@[i]
                <= level {
                0u8
            } else {
                255u8
            },
{
    let img = image::GrayImage::from_raw(src.width, src.height, src.pixels.clone()).unwrap();
    let cut = imageproc::contrast::threshold(&img, level);
    LumaImage { width: cut.width(), height: cut.height(), pixels: cut.into_raw() }
}

/// The grid of a raster of luminance: a cell is passable where the luminance
/// reaches [`LUMA_THRESHOLD`], and blocked elsewhere. Fails where the raster
/// has not one sample for each pixel, or a side is zero or beyond
/// [`MAX_GRID_SIDE`].
pub fn grid_from_luma(luma: &LumaImage) -> (r: Result<OccupancyGrid, VisibilityError>)
    ensures
        r is Ok <==> luma@.fits_grid(),
        r matches Ok(g) ==> g.wf() && g@ == luma@.binarized(),
        r matches Err(e) ==> e == VisibilityError::InvalidDimensions,
{
    if !luma.fits_grid() {
        return Err(VisibilityError::InvalidDimensions);
    }
    let cut = threshold_luma(luma, LUMA_THRESHOLD - 1);
    let mut cells: Vec<bool> = Vec::new();
    let mut i: usize = 0;
    while i < cut.pixels.len()
        invariant
            i <= cut.pixels.len(),
            cut.pixels@.len() == luma.pixels@.len(),
            forall|k: int|
                0 <= k < luma.pixels@.len() ==> #[trigger] cut.pixels@[k] == if luma.pixels@[k]
                    <= LUMA_THRESHOLD - 1 {
                    0u8
                } else {
                    255u8
                },
            cells@ == Seq::new(i as nat, |k: int| luma.pixels@[k] >= LUMA_THRESHOLD),
        decreases cut.pixels.len() - i,
    {
        cells.push(cut.pixels[i] == 255);
        assert(cells@ =~= Seq::new((i + 1) as nat, |k: int| luma.pixels@[k] >= LUMA_THRESHOLD));
        i += 1;
    }
    match OccupancyGrid::from_cells(luma.width, luma.height, cells) {
        Ok(g) => {
            assert(g@ =~= luma@.binarized());
            Ok(g)
        },
        Err(_) => Err(VisibilityError::InvalidDimensions),
    }
}

/// The grid of a decoded raster of luminance, resampled to `width` by
/// `height` and cut at [`LUMA_THRESHOLD`]. It is `InvalidDimensions` where no
/// grid of these sides can be asked for, and `ImageLoadError` where the
/// raster cannot be resampled to them: it lacks samples, a side of it is zero
/// or beyond [`MAX_SIDE`], or it is too wide for the memory of the machine.
pub open spec fn grid_of_raster(src: Raster, width: int, height: int) -> Result<
    GridView,
    VisibilityError,
> {
    if !valid_target(width, height) {
        Err(VisibilityError::InvalidDimensions)
    } else if !src.usable() || !fits_memory(src.width, width, height) {
        Err(VisibilityError::ImageLoadError)
    } else {
        Ok((Raster { width, height, pixels: resampled(src, width, height) }).binarized())
    }
}

/// Whether a grid of these sides can be asked for.
fn is_valid_target(width: u32, height: u32) -> (r: bool)
    ensures
        r == valid_target(width as int, height as int),
{
    if width == 0 || height == 0 || width > MAX_SIDE || height > MAX_SIDE {
        return false;
    }
    assert(width * height <= 1_048_576 * 1_048_576) by (nonlinear_arith)
        requires
            0 <= width <= 1_048_576,
            0 <= height <= 1_048_576,
    ;
    (width as u64) * (height as u64) <= isize::MAX as u64
}

/// Whether the raster between the two passes of resampling can be held.
fn working_raster_fits(src_width: u32, height: u32) -> (r: bool)
    requires
        src_width <= MAX_SIDE,
        height <= MAX_SIDE,
    ensures
        r == (WORKING_BYTES * src_width * height <= isize::MAX),
{
    assert(src_width * height <= 1_048_576 * 1_048_576) by (nonlinear_arith)
        requires
            0 <= src_width <= 1_048_576,
            0 <= height <= 1_048_576,
    ;
    assert(WORKING_BYTES * src_width * height == 16 * (src_width * height)) by (nonlinear_arith);
    WORKING_BYTES * ((src_width as u64) * (height as u64)) <= isize::MAX as u64
}

/// The occupancy grid of a decoded raster of luminance: the raster resampled
/// to `target_width` by `target_height` with a triangle filter and cut at
/// [`LUMA_THRESHOLD`]. See [`grid_of_raster`] for when it fails.
pub fn grid_from_decoded(luma: &LumaImage, target_width: u32, target_height: u32) -> (r: Result<
    OccupancyGrid,
    VisibilityError,
>)
    ensures
        match r {
            Ok(g) => g.wf() && grid_of_raster(luma@, target_width as int, target_height as int)
                == Ok::<GridView, VisibilityError>(g@),
            Err(e) => grid_of_raster(luma@, target_width as int, target_height as int) == Err::<
                GridView,
                VisibilityError,
            >(e),
        },
{
    if !is_valid_target(target_width, target_height) {
        return Err(VisibilityError::InvalidDimensions);
    }
    if !luma.is_usable() || !working_raster_fits(luma.width, target_height) {
        return Err(VisibilityError::ImageLoadError);
    }
    let scaled = resample(luma, target_width, target_height);
    grid_from_luma(&scaled)
}

/// The occupancy grid of an image: the image decoded from `image_bytes`,
/// reduced to luminance, resampled to `target_width` by `target_height` with a
/// triangle filter, and cut at [`LUMA_THRESHOLD`].
///
/// Fails with `InvalidDimensions` exactly where no grid of these sides can be
/// asked for: a side is zero or beyond [`MAX_SIDE`], or the grid does not fit
/// the memory of the machine. Otherwise fails with `ImageLoadError` where the
/// bytes do not decode, or decode to an image with floating-point samples or
/// to one that cannot be resampled, see [`grid_of_raster`].
///
/// What the bytes decode to is the decoder's to say, and may differ from one
/// machine to another; the grid is that of [`grid_from_decoded`] on it.
pub fn build_grid(image_bytes: &[u8], target_width: u32, target_height: u32) -> (r: Result<
    OccupancyGrid,
    VisibilityError,
>)
    ensures
        r matches Err(VisibilityError::InvalidDimensions) <==> !valid_target(
            target_width as int,
            target_height as int,
        ),
        r matches Err(e) ==> e == VisibilityError::InvalidDimensions || e
            == VisibilityError::ImageLoadError,
        r matches Ok(g) ==> g.wf() && g@.width == target_width && g@.height == target_height
            && exists|src: Raster| #[trigger]
            grid_of_raster(src, target_width as int, target_height as int) == Ok::<
                GridView,
                VisibilityError,
            >(g@),
{
    if !is_valid_target(target_width, target_height) {
        return Err(VisibilityError::InvalidDimensions);
    }
    let img = match decode(image_bytes) {
        Ok(img) => img,
        Err(_) => {
            return Err(VisibilityError::ImageLoadError);
        },
    };
    if has_float_samples(&img) {
        return Err(VisibilityError::ImageLoadError);
    }
    let luma = luma_of(&img);
    grid_from_decoded(&luma, target_width, target_height)
}

} // verus!
