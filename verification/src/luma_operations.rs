use crate::arith::round_ratio;
use crate::error::FilterError;
use crate::raster::{
    gray_get, gray_new, gray_pixels, gray_put, rgb_dimensions, rgb_get, GrayGrid, GrayPlane, Rgb8,
    RgbGrid, RgbPlane,
};
use vstd::prelude::*;

verus! {

/// The perceptual luma of a pixel: `0.2125 R + 0.7154 G + 0.0721 B`, rounded
/// to the nearest integer.  The weights are taken in ten-thousandths, so the
/// value is exact.
pub open spec fn luma_of(px: Rgb8) -> int {
    round_ratio(2125 * px.0 + 7154 * px.1 + 721 * px.2, 10000)
}

/// The luma of every pixel of an RGB plane.
pub open spec fn luma_plane(pixels: RgbPlane) -> GrayPlane {
    Map::total(|at: (int, int)| luma_of(pixels[at]) as u8)
}

/// The horizontal Sobel gradient of the 3x3 window whose top-left corner is
/// `(i, j)`: the right column minus the left one, the middle row counted
/// twice.
pub open spec fn gradient_x(plane: GrayPlane, i: int, j: int) -> int {
    -(plane[(i, j)] as int) - 2 * plane[(i, j + 1)] - plane[(i, j + 2)] + plane[(i + 2, j)] + 2
        * plane[(i + 2, j + 1)] + plane[(i + 2, j + 2)]
}

/// The vertical Sobel gradient of the 3x3 window whose top-left corner is
/// `(i, j)`: the bottom row minus the top one, the middle column counted
/// twice.
pub open spec fn gradient_y(plane: GrayPlane, i: int, j: int) -> int {
    -(plane[(i, j)] as int) - 2 * plane[(i + 1, j)] - plane[(i + 2, j)] + plane[(i, j + 2)] + 2
        * plane[(i + 1, j + 2)] + plane[(i + 2, j + 2)]
}

/// The distance of `v` from zero.
pub open spec fn magnitude(v: int) -> int {
    if v < 0 {
        -v
    } else {
        v
    }
}

/// The edge magnitude of the window at `(i, j)`: the sum of the absolute
/// gradients, capped at 255.
pub open spec fn edge_magnitude(plane: GrayPlane, i: int, j: int) -> int {
    let sum = magnitude(gradient_x(plane, i, j)) + magnitude(gradient_y(plane, i, j));
    if sum > 255 {
        255
    } else {
        sum
    }
}

/// What edge detection over an extent of `width` by `height` leaves at
/// `(x, y)`: the edge magnitude where a whole window starts, and the luma
/// itself in the last two columns and rows.
pub open spec fn edge_sample(plane: GrayPlane, width: int, height: int, x: int, y: int) -> int {
    if x < width - 2 && y < height - 2 {
        edge_magnitude(plane, x, y)
    } else {
        plane[(x, y)] as int
    }
}

/// The luma of a pixel is a sample.
pub proof fn lemma_luma_is_sample(px: Rgb8)
    ensures
        0 <= luma_of(px) <= 255,
{
}

/// An edge magnitude is a sample.
pub proof fn lemma_edge_magnitude_is_sample(plane: GrayPlane, i: int, j: int)
    ensures
        0 <= edge_magnitude(plane, i, j) <= 255,
{
}

/// A grid of one colour has one luma: where every pixel of the extent is
/// `colour`, the luma plane holds the luma of `colour` at every place of it.
pub proof fn lemma_uniform_grid_has_uniform_luma(
    pixels: RgbPlane,
    width: int,
    height: int,
    colour: Rgb8,
    x: int,
    y: int,
)
    requires
        forall|a: int, b: int|
            0 <= a < width && 0 <= b < height ==> #[trigger] pixels[(a, b)] == colour,
        0 <= x < width,
        0 <= y < height,
    ensures
        luma_plane(pixels)[(x, y)] == luma_of(colour),
{
    assert(pixels[(x, y)] == colour);
    lemma_luma_is_sample(colour);
}

/// A grid of one colour has no edges: where every pixel of the extent is
/// `colour`, the edge magnitude of every window that lies in the extent is
/// zero.
pub proof fn lemma_uniform_grid_has_no_edges(
    pixels: RgbPlane,
    width: int,
    height: int,
    colour: Rgb8,
    x: int,
    y: int,
)
    requires
        forall|a: int, b: int|
            0 <= a < width && 0 <= b < height ==> #[trigger] pixels[(a, b)] == colour,
        0 <= x < width - 2,
        0 <= y < height - 2,
    ensures
        edge_sample(luma_plane(pixels), width, height, x, y) == 0,
{
    let plane = luma_plane(pixels);
    assert forall|a: int, b: int| x <= a <= x + 2 && y <= b <= y + 2 implies #[trigger] plane[(
        a,
        b,
    )] == plane[(x, y)] by {
        lemma_uniform_grid_has_uniform_luma(pixels, width, height, colour, a, b);
        lemma_uniform_grid_has_uniform_luma(pixels, width, height, colour, x, y);
    }
    assert(plane[(x, y + 1)] == plane[(x, y)]);
    assert(plane[(x, y + 2)] == plane[(x, y)]);
    assert(plane[(x + 1, y)] == plane[(x, y)]);
    assert(plane[(x + 1, y + 2)] == plane[(x, y)]);
    assert(plane[(x + 2, y)] == plane[(x, y)]);
    assert(plane[(x + 2, y + 1)] == plane[(x, y)]);
    assert(plane[(x + 2, y + 2)] == plane[(x, y)]);
}

/// The luma of one pixel.
pub fn luma(px: Rgb8) -> (sample: u8)
    ensures
        sample == luma_of(px),
{
    let weighted: u32 = 2125 * (px.0 as u32) + 7154 * (px.1 as u32) + 721 * (px.2 as u32);
    ((2 * weighted + 10000) / 20000) as u8
}

/// The greyscale image of the top-left `width` by `height` pixels of `data`.
///
/// Fails with `DimensionTooSmall` exactly when `data` is narrower than
/// `width` or shorter than `height`.  Otherwise the result has that extent
/// and each of its samples is the luma of the pixel at the same place.
pub fn greyscaling(width: u32, height: u32, data: &RgbGrid) -> (result: Result<
    GrayGrid,
    FilterError,
>)
    ensures
        result.is_ok() <==> width <= data.cols() && height <= data.rows(),
        result.is_err() ==> result == Err::<GrayGrid, FilterError>(FilterError::DimensionTooSmall),
        result.is_ok() ==> {
            let img = result.unwrap();
            &&& img.cols() == width
            &&& img.rows() == height
            &&& forall|x: int, y: int|
                0 <= x < width && 0 <= y < height ==> #[trigger] img@[(x, y)] == luma_of(
                    data@[(x, y)],
                )
        },
{
    let (full_width, full_height) = rgb_dimensions(data);
    if width > full_width || height > full_height {
        return Err(FilterError::DimensionTooSmall);
    }
    assert(width * height <= isize::MAX) by (nonlinear_arith)
        requires
            width <= full_width,
            height <= full_height,
            3 * full_width * full_height <= isize::MAX,
    ;
    let mut img = gray_new(width, height);
    let mut w: u32 = 0;
    while w < width
        invariant
            w <= width,
            width <= data.cols(),
            height <= data.rows(),
            img.cols() == width,
            img.rows() == height,
            forall|x: int, y: int|
                0 <= x < w && 0 <= y < height ==> #[trigger] img@[(x, y)] == luma_of(data@[(x, y)]),
        decreases width - w,
    {
        let mut h: u32 = 0;
        while h < height
            invariant
                w < width,
                h <= height,
                width <= data.cols(),
                height <= data.rows(),
                img.cols() == width,
                img.rows() == height,
                forall|x: int, y: int|
                    0 <= x < w && 0 <= y < height ==> #[trigger] img@[(x, y)] == luma_of(
                        data@[(x, y)],
                    ),
                forall|y: int| 0 <= y < h ==> #[trigger] img@[(w as int, y)] == luma_of(
                    data@[(w as int, y)],
                ),
            decreases height - h,
        {
            let sample = luma(rgb_get(data, w, h));
            let ghost before = img@;
            gray_put(&mut img, w, h, sample);
            assert(img@ == before.insert((w as int, h as int), sample));
            h += 1;
        }
        w += 1;
    }
    Ok(img)
}

/// The horizontal gradient of the window at `(i, j)`.
fn x_gradient(i: u32, j: u32, data: &GrayGrid) -> (g: i32)
    requires
        i + 2 < data.cols() <= u32::MAX,
        j + 2 < data.rows() <= u32::MAX,
    ensures
        g == gradient_x(data@, i as int, j as int),
{
    -(gray_get(data, i, j) as i32) - 2 * (gray_get(data, i, j + 1) as i32) - (gray_get(
        data,
        i,
        j + 2,
    ) as i32) + gray_get(data, i + 2, j) as i32 + 2 * (gray_get(data, i + 2, j + 1) as i32) + (
    gray_get(data, i + 2, j + 2) as i32)
}

/// The vertical gradient of the window at `(i, j)`.
fn y_gradient(i: u32, j: u32, data: &GrayGrid) -> (g: i32)
    requires
        i + 2 < data.cols() <= u32::MAX,
        j + 2 < data.rows() <= u32::MAX,
    ensures
        g == gradient_y(data@, i as int, j as int),
{
    -(gray_get(data, i, j) as i32) - 2 * (gray_get(data, i + 1, j) as i32) - (gray_get(
        data,
        i + 2,
        j,
    ) as i32) + gray_get(data, i, j + 2) as i32 + 2 * (gray_get(data, i + 1, j + 2) as i32) + (
    gray_get(data, i + 2, j + 2) as i32)
}

/// Whether the window at `(x, y)` has been replaced by its edge magnitude
/// once the sweep, column by column, has reached `(i, j)`.
spec fn swept(width: int, height: int, i: int, j: int, x: int, y: int) -> bool {
    x < width - 2 && y < height - 2 && (x < i || (x == i && y < j))
}

/// Sobel edge detection on the top-left `width` by `height` pixels of
/// `data`.
///
/// Fails with `DimensionTooSmall` exactly when the extent is under 3x3 or
/// `data` does not cover it.  Otherwise the result has that extent; where a
/// whole 3x3 window starts, that is in all but the last two columns and rows,
/// its sample is the edge magnitude of the luma window there, and in those
/// last columns and rows it is the luma itself.
pub fn edge_detection(width: u32, height: u32, data: &RgbGrid) -> (result: Result<
    GrayGrid,
    FilterError,
>)
    ensures
        result.is_ok() <==> 3 <= width <= data.cols() && 3 <= height <= data.rows(),
        result.is_err() ==> result == Err::<GrayGrid, FilterError>(FilterError::DimensionTooSmall),
        result.is_ok() ==> {
            let img = result.unwrap();
            &&& img.cols() == width
            &&& img.rows() == height
            &&& forall|x: int, y: int|
                0 <= x < width && 0 <= y < height ==> #[trigger] img@[(x, y)] == edge_sample(
                    luma_plane(data@),
                    width as int,
                    height as int,
                    x,
                    y,
                )
        },
{
    if width < 3 || height < 3 {
        return Err(FilterError::DimensionTooSmall);
    }
    let mut grey_img = match greyscaling(width, height, data) {
        Ok(img) => img,
        Err(e) => {
            return Err(e);
        },
    };
    let ghost luma = luma_plane(data@);
    assert forall|x: int, y: int| 0 <= x < width && 0 <= y < height implies #[trigger] grey_img@[(
        x,
        y,
    )] == luma[(x, y)] by {
        lemma_luma_is_sample(data@[(x, y)]);
    }
    let mut i: u32 = 0;
    while i < width - 2
        invariant
            3 <= width,
            3 <= height,
            i <= width - 2,
            luma == luma_plane(data@),
            grey_img.cols() == width,
            grey_img.rows() == height,
            forall|x: int, y: int|
                0 <= x < width && 0 <= y < height ==> #[trigger] grey_img@[(x, y)] == if swept(
                    width as int,
                    height as int,
                    i as int,
                    0,
                    x,
                    y,
                ) {
                    edge_magnitude(luma, x, y)
                } else {
                    luma[(x, y)] as int
                },
        decreases width - i,
    {
        let mut j: u32 = 0;
        while j < height - 2
            invariant
                3 <= width,
                3 <= height,
                i < width - 2,
                j <= height - 2,
                luma == luma_plane(data@),
                grey_img.cols() == width,
                grey_img.rows() == height,
                forall|x: int, y: int|
                    0 <= x < width && 0 <= y < height ==> #[trigger] grey_img@[(x, y)] == if swept(
                        width as int,
                        height as int,
                        i as int,
                        j as int,
                        x,
                        y,
                    ) {
                        edge_magnitude(luma, x, y)
                    } else {
                        luma[(x, y)] as int
                    },
            decreases height - j,
        {
            let gx = x_gradient(i, j, &grey_img);
            let gy = y_gradient(i, j, &grey_img);
            proof {
                let (a, b) = (i as int, j as int);
                assert(grey_img@[(a, b)] == luma[(a, b)]);
                assert(grey_img@[(a, b + 1)] == luma[(a, b + 1)]);
                assert(grey_img@[(a, b + 2)] == luma[(a, b + 2)]);
                assert(grey_img@[(a + 1, b)] == luma[(a + 1, b)]);
                assert(grey_img@[(a + 1, b + 2)] == luma[(a + 1, b + 2)]);
                assert(grey_img@[(a + 2, b)] == luma[(a + 2, b)]);
                assert(grey_img@[(a + 2, b + 1)] == luma[(a + 2, b + 1)]);
                assert(grey_img@[(a + 2, b + 2)] == luma[(a + 2, b + 2)]);
            }
            let ax: i32 = if gx < 0 {
                -gx
            } else {
                gx
            };
            let ay: i32 = if gy < 0 {
                -gy
            } else {
                gy
            };
            let mut sum: i32 = ax + ay;
            if sum > 255 {
                sum = 255;
            }
            gray_put(&mut grey_img, i, j, sum as u8);
            j += 1;
        }
        i += 1;
    }
    Ok(grey_img)
}

} // verus!
