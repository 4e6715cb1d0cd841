use crate::arith::{clamp_ratio, clamp_sample, lemma_clamp_ratio_exact};
use crate::error::FilterError;
use crate::kernel::{Kernel1D, Kernel2D};
use crate::raster::{channel, rgb_dimensions, rgb_get, rgb_put, Rgb8, RgbGrid, RgbPlane};
use vstd::prelude::*;

verus! {

/// The largest magnitude of one sample times one kernel numerator.
pub const TERM_BOUND: i128 = 2351959869397967831040;

/// The weighted sum of channel `c` over one row of the 3x3 neighbourhood of
/// `(x, y)`: kernel row `row` meets the pixels at height `y + row - 1`.
pub open spec fn window_row(
    pixels: RgbPlane,
    kernel: Kernel2D,
    x: int,
    y: int,
    row: int,
    c: int,
) -> int {
    channel(pixels[(x - 1, y + row - 1)], c) * kernel.tap(row, 0) + channel(
        pixels[(x, y + row - 1)],
        c,
    ) * kernel.tap(row, 1) + channel(pixels[(x + 1, y + row - 1)], c) * kernel.tap(row, 2)
}

/// The weighted sum of channel `c` over the 3x3 neighbourhood of `(x, y)`,
/// in units of `1 / kernel.unit()`.
pub open spec fn window_sum(pixels: RgbPlane, kernel: Kernel2D, x: int, y: int, c: int) -> int {
    window_row(pixels, kernel, x, y, 0, c) + window_row(pixels, kernel, x, y, 1, c) + window_row(
        pixels,
        kernel,
        x,
        y,
        2,
        c,
    )
}

/// The pixel that the kernel makes of the neighbourhood of `(x, y)`: each
/// channel's weighted sum, clamped to a sample and cut towards zero.
pub open spec fn convolved(pixels: RgbPlane, kernel: Kernel2D, x: int, y: int) -> Rgb8 {
    (
        clamp_ratio(window_sum(pixels, kernel, x, y, 0), kernel.unit()) as u8,
        clamp_ratio(window_sum(pixels, kernel, x, y, 1), kernel.unit()) as u8,
        clamp_ratio(window_sum(pixels, kernel, x, y, 2), kernel.unit()) as u8,
    )
}

/// What the 2D convolution over an extent of `width` by `height` leaves at
/// `(x, y)`: the convolved pixel where the whole neighbourhood lies inside
/// the extent, and the pixel as it was on the one-pixel border.
pub open spec fn filtered_2d(
    pixels: RgbPlane,
    kernel: Kernel2D,
    width: int,
    height: int,
    x: int,
    y: int,
) -> Rgb8 {
    if 1 <= x < width - 1 && 1 <= y < height - 1 {
        convolved(pixels, kernel, x, y)
    } else {
        pixels[(x, y)]
    }
}

/// Cell `i` of the line that starts at `(x0, y0)` and runs downwards or to
/// the right.
pub open spec fn cell(x0: int, y0: int, down: bool, i: int) -> (int, int) {
    if down {
        (x0, y0 + i)
    } else {
        (x0 + i, y0)
    }
}

/// The weighted sum of channel `c` over the first `n` cells of the line from
/// `(x0, y0)`, cell `i` weighed with `taps[i]`.
pub open spec fn line_sum(
    pixels: RgbPlane,
    taps: Seq<i64>,
    x0: int,
    y0: int,
    down: bool,
    n: nat,
    c: int,
) -> int
    decreases n,
{
    if n == 0 {
        0
    } else {
        line_sum(pixels, taps, x0, y0, down, (n - 1) as nat, c) + channel(
            pixels[cell(x0, y0, down, n - 1)],
            c,
        ) * taps[n - 1]
    }
}

/// Half the kernel's length, rounded down: how far the window reaches back
/// from the pixel it is centred on.
pub open spec fn half_span(kernel: Kernel1D) -> int {
    kernel.taps().len() as int / 2
}

/// What one pass of the 1D convolution leaves at `(x, y)`.  The pass runs
/// down the columns (`down`) or along the rows of an extent that measures
/// `extent` in that direction.  With `half` for `half_span(kernel)`, a pixel
/// at least `half` from both ends becomes the weighted sum of the `2 * half`
/// pixels that start `half` before it, clamped to a sample and cut towards
/// zero; a pixel nearer to an end stays as it is.
pub open spec fn blurred(
    pixels: RgbPlane,
    kernel: Kernel1D,
    extent: int,
    x: int,
    y: int,
    down: bool,
) -> Rgb8 {
    let half = half_span(kernel);
    let pos = if down {
        y
    } else {
        x
    };
    let (x0, y0) = if down {
        (x, y - half)
    } else {
        (x - half, y)
    };
    if half <= pos < extent - half {
        (
            clamp_ratio(
                line_sum(pixels, kernel.taps(), x0, y0, down, (2 * half) as nat, 0),
                kernel.unit(),
            ) as u8,
            clamp_ratio(
                line_sum(pixels, kernel.taps(), x0, y0, down, (2 * half) as nat, 1),
                kernel.unit(),
            ) as u8,
            clamp_ratio(
                line_sum(pixels, kernel.taps(), x0, y0, down, (2 * half) as nat, 2),
                kernel.unit(),
            ) as u8,
        )
    } else {
        pixels[(x, y)]
    }
}

/// The plane after the vertical pass over an extent `height` rows high.
pub open spec fn vertical_pass(pixels: RgbPlane, kernel: Kernel1D, height: int) -> RgbPlane {
    Map::total(|at: (int, int)| blurred(pixels, kernel, height, at.0, at.1, true))
}

/// What the separable convolution over an extent of `width` by `height`
/// leaves at `(x, y)`: the horizontal pass applied to the outcome of the
/// vertical pass.
pub open spec fn filtered_1d(
    pixels: RgbPlane,
    kernel: Kernel1D,
    width: int,
    height: int,
    x: int,
    y: int,
) -> Rgb8 {
    blurred(vertical_pass(pixels, kernel, height), kernel, width, x, y, false)
}

/// Two planes that hold the same pixels on the first `n` cells of a line
/// have the same weighted sum there.
proof fn lemma_line_sum_agrees(
    p: RgbPlane,
    q: RgbPlane,
    taps: Seq<i64>,
    x0: int,
    y0: int,
    down: bool,
    n: nat,
    c: int,
)
    requires
        forall|i: int| 0 <= i < n ==> p[#[trigger] cell(x0, y0, down, i)] == q[cell(x0, y0, down, i)],
    ensures
        line_sum(p, taps, x0, y0, down, n, c) == line_sum(q, taps, x0, y0, down, n, c),
    decreases n,
{
    if n > 0 {
        lemma_line_sum_agrees(p, q, taps, x0, y0, down, (n - 1) as nat, c);
        assert(p[cell(x0, y0, down, n - 1)] == q[cell(x0, y0, down, n - 1)]);
    }
}

/// Two planes that hold the same pixels on an extent of `width` by `height`
/// are blurred to the same pixel at every place of that extent.
proof fn lemma_blurred_agrees(
    p: RgbPlane,
    q: RgbPlane,
    kernel: Kernel1D,
    width: int,
    height: int,
    x: int,
    y: int,
    down: bool,
)
    requires
        0 <= x < width,
        0 <= y < height,
        forall|a: int, b: int| 0 <= a < width && 0 <= b < height ==> #[trigger] p[(a, b)] == q[(a, b)],
    ensures
        blurred(p, kernel, if down { height } else { width }, x, y, down) == blurred(
            q,
            kernel,
            if down { height } else { width },
            x,
            y,
            down,
        ),
{
    let half = half_span(kernel);
    let extent = if down { height } else { width };
    let pos = if down { y } else { x };
    assert(p[(x, y)] == q[(x, y)]);
    if half <= pos < extent - half {
        let (x0, y0) = if down { (x, y - half) } else { (x - half, y) };
        assert forall|i: int| 0 <= i < 2 * half implies p[#[trigger] cell(x0, y0, down, i)] == q[cell(
            x0,
            y0,
            down,
            i,
        )] by {
            let at = cell(x0, y0, down, i);
            assert(0 <= at.0 < width && 0 <= at.1 < height);
            assert(p[(at.0, at.1)] == q[(at.0, at.1)]);
        }
        lemma_line_sum_agrees(p, q, kernel.taps(), x0, y0, down, (2 * half) as nat, 0);
        lemma_line_sum_agrees(p, q, kernel.taps(), x0, y0, down, (2 * half) as nat, 1);
        lemma_line_sum_agrees(p, q, kernel.taps(), x0, y0, down, (2 * half) as nat, 2);
    }
}

/// The identity kernel changes nothing: where the centre weighs one (its
/// numerator is the unit) and the eight taps around it weigh nothing, the
/// 2D convolution leaves at every place the pixel that was there.
pub proof fn lemma_identity_kernel_keeps_pixels(
    pixels: RgbPlane,
    kernel: Kernel2D,
    width: int,
    height: int,
    x: int,
    y: int,
)
    requires
        kernel.unit() > 0,
        forall|r: int, c: int|
            0 <= r < 3 && 0 <= c < 3 ==> #[trigger] kernel.tap(r, c) == if r == 1 && c == 1 {
                kernel.unit()
            } else {
                0
            },
    ensures
        filtered_2d(pixels, kernel, width, height, x, y) == pixels[(x, y)],
{
    let unit = kernel.unit();
    assert(kernel.tap(0, 0) == 0 && kernel.tap(0, 1) == 0 && kernel.tap(0, 2) == 0);
    assert(kernel.tap(1, 0) == 0 && kernel.tap(1, 1) == unit && kernel.tap(1, 2) == 0);
    assert(kernel.tap(2, 0) == 0 && kernel.tap(2, 1) == 0 && kernel.tap(2, 2) == 0);
    assert forall|c: int| 0 <= c < 3 implies clamp_ratio(
        #[trigger] window_sum(pixels, kernel, x, y, c),
        unit,
    ) == channel(pixels[(x, y)], c) by {
        let v = channel(pixels[(x, y)], c);
        assert(forall|s: int| #[trigger] (s * 0) == 0);
        assert(window_sum(pixels, kernel, x, y, c) == v * unit);
        lemma_clamp_ratio_exact(v, unit);
    }
    assert(clamp_ratio(window_sum(pixels, kernel, x, y, 0), unit) == pixels[(x, y)].0);
    assert(clamp_ratio(window_sum(pixels, kernel, x, y, 1), unit) == pixels[(x, y)].1);
    assert(clamp_ratio(window_sum(pixels, kernel, x, y, 2), unit) == pixels[(x, y)].2);
}

/// One sample times one numerator, for each channel of a pixel.
fn weigh(px: Rgb8, weight: i64) -> (terms: (i128, i128, i128))
    ensures
        terms.0 == channel(px, 0) * weight,
        terms.1 == channel(px, 1) * weight,
        terms.2 == channel(px, 2) * weight,
        -TERM_BOUND <= terms.0 <= TERM_BOUND,
        -TERM_BOUND <= terms.1 <= TERM_BOUND,
        -TERM_BOUND <= terms.2 <= TERM_BOUND,
{
    let w: i128 = weight as i128;
    assert(forall|s: u8|
        -2351959869397967831040 <= #[trigger] (s as int * w as int) <= 2351959869397967831040)
        by (nonlinear_arith)
        requires
            -9223372036854775808 <= w <= 9223372036854775807,
    ;
    assert(-TERM_BOUND <= px.0 as int * w as int <= TERM_BOUND);
    assert(-TERM_BOUND <= px.1 as int * w as int <= TERM_BOUND);
    assert(-TERM_BOUND <= px.2 as int * w as int <= TERM_BOUND);
    ((px.0 as i128) * w, (px.1 as i128) * w, (px.2 as i128) * w)
}

/// The weighted sums of one kernel row over the neighbourhood of `(x, y)`.
fn window_row_sums(source: &RgbGrid, kernel: &Kernel2D, x: u32, y: u32, row: u8) -> (sums: (
    i128,
    i128,
    i128,
))
    requires
        1 <= x,
        x + 1 < source.cols() <= u32::MAX,
        1 <= y,
        y + 1 < source.rows() <= u32::MAX,
        row < 3,
    ensures
        sums.0 == window_row(source@, *kernel, x as int, y as int, row as int, 0),
        sums.1 == window_row(source@, *kernel, x as int, y as int, row as int, 1),
        sums.2 == window_row(source@, *kernel, x as int, y as int, row as int, 2),
        -3 * TERM_BOUND <= sums.0 <= 3 * TERM_BOUND,
        -3 * TERM_BOUND <= sums.1 <= 3 * TERM_BOUND,
        -3 * TERM_BOUND <= sums.2 <= 3 * TERM_BOUND,
{
    let yy: u32 = y - 1 + row as u32;
    let left = weigh(rgb_get(source, x - 1, yy), kernel.tap_at(row as usize, 0));
    let mid = weigh(rgb_get(source, x, yy), kernel.tap_at(row as usize, 1));
    let right = weigh(rgb_get(source, x + 1, yy), kernel.tap_at(row as usize, 2));
    (left.0 + mid.0 + right.0, left.1 + mid.1 + right.1, left.2 + mid.2 + right.2)
}

/// The pixel that the kernel makes of the neighbourhood of `(x, y)`.
fn convolve_at(source: &RgbGrid, kernel: &Kernel2D, x: u32, y: u32) -> (px: Rgb8)
    requires
        1 <= x,
        x + 1 < source.cols() <= u32::MAX,
        1 <= y,
        y + 1 < source.rows() <= u32::MAX,
    ensures
        px == convolved(source@, *kernel, x as int, y as int),
{
    let top = window_row_sums(source, kernel, x, y, 0);
    let mid = window_row_sums(source, kernel, x, y, 1);
    let bottom = window_row_sums(source, kernel, x, y, 2);
    let scale = kernel.scale();
    (
        clamp_sample(top.0 + mid.0 + bottom.0, scale),
        clamp_sample(top.1 + mid.1 + bottom.1, scale),
        clamp_sample(top.2 + mid.2 + bottom.2, scale),
    )
}

/// Convolves the top-left `width` by `height` pixels of `data` with a 3x3
/// kernel.
///
/// Fails with `DimensionTooSmall`, and leaves `data` as it is, exactly when
/// the extent is under 3x3 or `data` does not cover it.  Otherwise every
/// pixel whose 3x3 neighbourhood lies inside the extent becomes the weighted
/// sum of that neighbourhood in the grid as it was before the call, each
/// channel clamped to `[0, 255]` and cut towards zero; the one-pixel border
/// of the extent and all pixels outside it keep their value.
pub fn apply2_dconvulution(width: u32, height: u32, data: &mut RgbGrid, kernel: Kernel2D) -> (result:
    Result<(), FilterError>)
    ensures
        result.is_ok() <==> 3 <= width <= old(data).cols() && 3 <= height <= old(data).rows(),
        result.is_err() ==> result == Err::<(), FilterError>(FilterError::DimensionTooSmall)
            && *final(data) == *old(data),
        final(data).cols() == old(data).cols(),
        final(data).rows() == old(data).rows(),
        result.is_ok() ==> forall|x: int, y: int|
            0 <= x < old(data).cols() && 0 <= y < old(data).rows() ==> #[trigger] final(data)@[(
                x,
                y,
            )] == if x < width && y < height {
                filtered_2d(old(data)@, kernel, width as int, height as int, x, y)
            } else {
                old(data)@[(x, y)]
            },
{
    let (full_width, full_height) = rgb_dimensions(data);
    if width < 3 || height < 3 || width > full_width || height > full_height {
        return Err(FilterError::DimensionTooSmall);
    }
    let source = data.duplicate();
    let mut y: u32 = 1;
    while y < height - 1
        invariant
            3 <= width <= full_width,
            3 <= height <= full_height,
            1 <= y <= height - 1,
            data.cols() == full_width,
            data.rows() == full_height,
            source.cols() == full_width,
            source.rows() == full_height,
            forall|a: int, b: int|
                0 <= a < full_width && 0 <= b < full_height ==> #[trigger] data@[(a, b)] == if 1
                    <= a < width - 1 && 1 <= b < y {
                    convolved(source@, kernel, a, b)
                } else {
                    source@[(a, b)]
                },
        decreases height - y,
    {
        let mut x: u32 = 1;
        while x < width - 1
            invariant
                3 <= width <= full_width,
                3 <= height <= full_height,
                1 <= y < height - 1,
                1 <= x <= width - 1,
                data.cols() == full_width,
                data.rows() == full_height,
                source.cols() == full_width,
                source.rows() == full_height,
                forall|a: int, b: int|
                    0 <= a < full_width && 0 <= b < full_height ==> #[trigger] data@[(a, b)] == if 1
                        <= a < width - 1 && 1 <= b < height - 1 && (b < y || (b == y && a < x)) {
                        convolved(source@, kernel, a, b)
                    } else {
                        source@[(a, b)]
                    },
            decreases width - x,
        {
            let px = convolve_at(&source, &kernel, x, y);
            let ghost before = data@;
            rgb_put(data, x, y, px);
            assert(data@ == before.insert((x as int, y as int), px));
            x += 1;
        }
        y += 1;
    }
    proof {
        assert forall|a: int, b: int|
            0 <= a < full_width && 0 <= b < full_height implies #[trigger] data@[(a, b)] == if a
            < width && b < height {
            filtered_2d(old(data)@, kernel, width as int, height as int, a, b)
        } else {
            old(data)@[(a, b)]
        } by {
            assert(source@[(a, b)] == old(data)@[(a, b)]);
            if 1 <= a < width - 1 && 1 <= b < height - 1 {
                assert(source@[(a - 1, b - 1)] == old(data)@[(a - 1, b - 1)]);
                assert(source@[(a, b - 1)] == old(data)@[(a, b - 1)]);
                assert(source@[(a + 1, b - 1)] == old(data)@[(a + 1, b - 1)]);
                assert(source@[(a - 1, b)] == old(data)@[(a - 1, b)]);
                assert(source@[(a + 1, b)] == old(data)@[(a + 1, b)]);
                assert(source@[(a - 1, b + 1)] == old(data)@[(a - 1, b + 1)]);
                assert(source@[(a, b + 1)] == old(data)@[(a, b + 1)]);
                assert(source@[(a + 1, b + 1)] == old(data)@[(a + 1, b + 1)]);
            }
        }
    }
    Ok(())
}

/// The weighted sums of the first `n` cells of the line from `(x0, y0)`.
fn line_sums(source: &RgbGrid, kernel: &Kernel1D, x0: u32, y0: u32, down: bool, n: u32) -> (sums: (
    i128,
    i128,
    i128,
))
    requires
        n <= kernel.taps().len(),
        source.cols() <= u32::MAX,
        source.rows() <= u32::MAX,
        down ==> x0 < source.cols() && y0 + n <= source.rows(),
        !down ==> x0 + n <= source.cols() && y0 < source.rows(),
    ensures
        sums.0 == line_sum(source@, kernel.taps(), x0 as int, y0 as int, down, n as nat, 0),
        sums.1 == line_sum(source@, kernel.taps(), x0 as int, y0 as int, down, n as nat, 1),
        sums.2 == line_sum(source@, kernel.taps(), x0 as int, y0 as int, down, n as nat, 2),
{
    let mut red: i128 = 0;
    let mut green: i128 = 0;
    let mut blue: i128 = 0;
    let mut i: u32 = 0;
    while i < n
        invariant
            i <= n <= kernel.taps().len(),
            source.cols() <= u32::MAX,
            source.rows() <= u32::MAX,
            down ==> x0 < source.cols() && y0 + n <= source.rows(),
            !down ==> x0 + n <= source.cols() && y0 < source.rows(),
            red == line_sum(source@, kernel.taps(), x0 as int, y0 as int, down, i as nat, 0),
            green == line_sum(source@, kernel.taps(), x0 as int, y0 as int, down, i as nat, 1),
            blue == line_sum(source@, kernel.taps(), x0 as int, y0 as int, down, i as nat, 2),
            -i * TERM_BOUND <= red <= i * TERM_BOUND,
            -i * TERM_BOUND <= green <= i * TERM_BOUND,
            -i * TERM_BOUND <= blue <= i * TERM_BOUND,
        decreases n - i,
    {
        let px = if down {
            rgb_get(source, x0, y0 + i)
        } else {
            rgb_get(source, x0 + i, y0)
        };
        assert(px == source@[cell(x0 as int, y0 as int, down, i as int)]);
        let terms = weigh(px, kernel.tap_at(i as usize));
        red = red + terms.0;
        green = green + terms.1;
        blue = blue + terms.2;
        i += 1;
    }
    (red, green, blue)
}

/// One pass of the 1D convolution over the top-left `width` by `height`
/// pixels of `data`, down the columns or along the rows.
fn blur_pass(width: u32, height: u32, data: &mut RgbGrid, kernel: &Kernel1D, down: bool)
    requires
        kernel.taps().len() <= width <= old(data).cols(),
        kernel.taps().len() <= height <= old(data).rows(),
    ensures
        final(data).cols() == old(data).cols(),
        final(data).rows() == old(data).rows(),
        forall|x: int, y: int|
            0 <= x < old(data).cols() && 0 <= y < old(data).rows() ==> #[trigger] final(data)@[(
                x,
                y,
            )] == if x < width && y < height {
                blurred(
                    old(data)@,
                    *kernel,
                    if down {
                        height as int
                    } else {
                        width as int
                    },
                    x,
                    y,
                    down,
                )
            } else {
                old(data)@[(x, y)]
            },
{
    let (full_width, full_height) = rgb_dimensions(data);
    let source = data.duplicate();
    let half: u32 = (kernel.len() / 2) as u32;
    let extent: u32 = if down {
        height
    } else {
        width
    };
    let scale = kernel.scale();
    let mut x: u32 = 0;
    while x < width
        invariant
            x <= width <= full_width,
            height <= full_height,
            kernel.taps().len() <= width,
            kernel.taps().len() <= height,
            half == half_span(*kernel),
            extent == if down {
                height
            } else {
                width
            },
            scale == kernel.unit(),
            scale > 0,
            data.cols() == full_width,
            data.rows() == full_height,
            source.cols() == full_width,
            source.rows() == full_height,
            forall|a: int, b: int|
                0 <= a < full_width && 0 <= b < full_height ==> #[trigger] data@[(a, b)] == if a < x
                    && b < height {
                    blurred(source@, *kernel, extent as int, a, b, down)
                } else {
                    source@[(a, b)]
                },
        decreases width - x,
    {
        let mut y: u32 = 0;
        while y < height
            invariant
                x < width <= full_width,
                y <= height <= full_height,
                kernel.taps().len() <= width,
                kernel.taps().len() <= height,
                half == half_span(*kernel),
                extent == if down {
                    height
                } else {
                    width
                },
                scale == kernel.unit(),
                scale > 0,
                data.cols() == full_width,
                data.rows() == full_height,
                source.cols() == full_width,
                source.rows() == full_height,
                forall|a: int, b: int|
                    0 <= a < full_width && 0 <= b < full_height ==> #[trigger] data@[(a, b)] == if b
                        < height && (a < x || (a == x && b < y)) {
                        blurred(source@, *kernel, extent as int, a, b, down)
                    } else {
                        source@[(a, b)]
                    },
            decreases height - y,
        {
            let pos: u32 = if down {
                y
            } else {
                x
            };
            if half <= pos && pos < extent - half {
                let sums = if down {
                    line_sums(&source, kernel, x, y - half, true, 2 * half)
                } else {
                    line_sums(&source, kernel, x - half, y, false, 2 * half)
                };
                let px = (
                    clamp_sample(sums.0, scale),
                    clamp_sample(sums.1, scale),
                    clamp_sample(sums.2, scale),
                );
                let ghost before = data@;
                rgb_put(data, x, y, px);
                assert(data@ == before.insert((x as int, y as int), px));
            }
            y += 1;
        }
        x += 1;
    }
    proof {
        assert forall|a: int, b: int|
            0 <= a < full_width && 0 <= b < full_height implies #[trigger] data@[(a, b)] == if a
            < width && b < height {
            blurred(old(data)@, *kernel, extent as int, a, b, down)
        } else {
            old(data)@[(a, b)]
        } by {
            assert(source@[(a, b)] == old(data)@[(a, b)]);
            if a < width && b < height {
                lemma_blurred_agrees(
                    source@,
                    old(data)@,
                    *kernel,
                    width as int,
                    height as int,
                    a,
                    b,
                    down,
                );
            }
        }
    }
}

/// Blurs the top-left `width` by `height` pixels of `data` with a 1D kernel
/// in two passes, first down the columns and then along the rows of what the
/// first pass left.
///
/// Fails with `DimensionTooSmall`, and leaves `data` as it is, exactly when
/// the extent is narrower or lower than the kernel is long, or `data` does
/// not cover it.  Otherwise, with `half` for half the kernel's length
/// rounded down, each pass replaces every pixel that lies at least `half`
/// from both ends of its column (then row) by the weighted sum of the
/// `2 * half` pixels that start `half` before it, tap `i` weighing the
/// `i`-th of them; each channel is clamped to `[0, 255]` and cut towards
/// zero.  Each pass reads the grid as it was when the pass began.  Pixels
/// nearer to an end, and pixels outside the extent, keep their value.
pub fn apply1_dconvulution(width: i32, height: i32, data: &mut RgbGrid, kernel: Kernel1D) -> (result:
    Result<(), FilterError>)
    ensures
        result.is_ok() <==> kernel.taps().len() <= width <= old(data).cols() && kernel.taps().len()
            <= height <= old(data).rows(),
        result.is_err() ==> result == Err::<(), FilterError>(FilterError::DimensionTooSmall)
            && *final(data) == *old(data),
        final(data).cols() == old(data).cols(),
        final(data).rows() == old(data).rows(),
        result.is_ok() ==> forall|x: int, y: int|
            0 <= x < old(data).cols() && 0 <= y < old(data).rows() ==> #[trigger] final(data)@[(
                x,
                y,
            )] == if x < width && y < height {
                filtered_1d(old(data)@, kernel, width as int, height as int, x, y)
            } else {
                old(data)@[(x, y)]
            },
{
    let (full_width, full_height) = rgb_dimensions(data);
    let len = kernel.len();
    if width < 0 || height < 0 {
        return Err(FilterError::DimensionTooSmall);
    }
    let w: u32 = width as u32;
    let h: u32 = height as u32;
    if (w as usize) < len || (h as usize) < len || w > full_width || h > full_height {
        return Err(FilterError::DimensionTooSmall);
    }
    blur_pass(w, h, data, &kernel, true);
    let ghost mid = data@;
    blur_pass(w, h, data, &kernel, false);
    proof {
        let after_first = vertical_pass(old(data)@, kernel, h as int);
        assert forall|a: int, b: int| 0 <= a < w && 0 <= b < h implies #[trigger] mid[(a, b)]
            == after_first[(a, b)] by {}
        assert forall|a: int, b: int|
            0 <= a < full_width && 0 <= b < full_height implies #[trigger] data@[(a, b)] == if a
            < width && b < height {
            filtered_1d(old(data)@, kernel, width as int, height as int, a, b)
        } else {
            old(data)@[(a, b)]
        } by {
            if a < w && b < h {
                lemma_blurred_agrees(mid, after_first, kernel, w as int, h as int, a, b, false);
            }
        }
    }
    Ok(())
}

} // verus!
