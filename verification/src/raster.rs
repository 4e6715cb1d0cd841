use vstd::prelude::*;

verus! {

/// An RGB pixel: its red, green and blue samples.
pub type Rgb8 = (u8, u8, u8);

/// The pixels of an RGB grid by coordinate `(x, y)`.
pub type RgbPlane = Map<(int, int), Rgb8>;

/// The samples of a single-channel grid by coordinate `(x, y)`.
pub type GrayPlane = Map<(int, int), u8>;

/// Sample `c` of a pixel: 0 is red, 1 is green, anything else is blue.
pub open spec fn channel(px: Rgb8, c: int) -> int {
    if c == 0 {
        px.0 as int
    } else if c == 1 {
        px.1 as int
    } else {
        px.2 as int
    }
}

/// Where sample `c` of the pixel at `(x, y)` lies in a buffer that holds a
/// grid `width` pixels wide row by row, three samples to a pixel.
pub open spec fn sample_index(width: int, x: int, y: int, c: int) -> int {
    3 * (y * width + x) + c
}

/// A whole row lies between the start of row `b` and the start of any later
/// row `y`.
proof fn lemma_row_order(b: int, y: int, width: int)
    requires
        0 <= b < y,
        0 <= width,
    ensures
        0 <= b * width,
        b * width + width <= y * width,
{
    assert(0 <= b * width && b * width + width <= y * width) by (nonlinear_arith)
        requires
            0 <= b < y,
            0 <= width,
    ;
}

/// A rectangular grid of RGB pixels.  It keeps its samples in an
/// `image::ImageBuffer<Rgb<u8>, Vec<u8>>`, which the verifier does not look
/// into: what the buffer holds is named by `rgb_extent` and `rgb_pixels`.
#[verifier::external_body]
pub struct RgbGrid {
    buffer: image::ImageBuffer<image::Rgb<u8>, Vec<u8>>,
}

/// A rectangular grid of single samples (luma or edge magnitude), kept in an
/// `image::ImageBuffer<Luma<u8>, Vec<u8>>` that the verifier does not look
/// into: what the buffer holds is named by `gray_extent` and `gray_pixels`.
#[verifier::external_body]
pub struct GrayGrid {
    buffer: image::ImageBuffer<image::Luma<u8>, Vec<u8>>,
}

/// The width and the height of the buffer inside an `RgbGrid`.
pub uninterp spec fn rgb_extent(grid: RgbGrid) -> (nat, nat);

/// The pixel that the buffer inside an `RgbGrid` holds at each coordinate.
pub uninterp spec fn rgb_pixels(grid: RgbGrid) -> Map<(int, int), (u8, u8, u8)>;

/// The width and the height of the buffer inside a `GrayGrid`.
pub uninterp spec fn gray_extent(grid: GrayGrid) -> (nat, nat);

/// The sample that the buffer inside a `GrayGrid` holds at each coordinate.
pub uninterp spec fn gray_pixels(grid: GrayGrid) -> Map<(int, int), u8>;

/// Calls `ImageBuffer::new`, which allocates a zeroed buffer of the given
/// width and height.  It panics when the sample count overflows or exceeds
/// what a `Vec` can hold, so those extents are left out.  Trusted: the new
/// buffer has that extent and every pixel of it is `(0, 0, 0)`.
#[verifier::external_body]
pub(crate) fn rgb_new(width: u32, height: u32) -> (grid: RgbGrid)
    requires
        3 * width * height <= isize::MAX,
    ensures
        rgb_extent(grid) == (width as nat, height as nat),
        forall|x: int, y: int|
            0 <= x < width && 0 <= y < height ==> #[trigger] rgb_pixels(grid)[(x, y)] == (
                0u8,
                0u8,
                0u8,
            ),
{
    RgbGrid { buffer: image::ImageBuffer::new(width, height) }
}

/// Calls `ImageBuffer::dimensions`.  Trusted: it returns the buffer's width
/// and height, and the three samples per pixel of a buffer that exists fit
/// in a `Vec`, whose length never exceeds `isize::MAX`.
#[verifier::external_body]
pub(crate) fn rgb_dimensions(grid: &RgbGrid) -> (dims: (u32, u32))
    ensures
        (dims.0 as nat, dims.1 as nat) == rgb_extent(*grid),
        3 * dims.0 * dims.1 <= isize::MAX,
{
    grid.buffer.dimensions()
}

/// Calls `ImageBuffer::get_pixel`, which panics outside the buffer's extent.
/// Trusted: inside it, the result is the pixel held at `(x, y)`.
#[verifier::external_body]
pub(crate) fn rgb_get(grid: &RgbGrid, x: u32, y: u32) -> (px: Rgb8)
    requires
        x < rgb_extent(*grid).0,
        y < rgb_extent(*grid).1,
    ensures
        px == rgb_pixels(*grid)[(x as int, y as int)],
{
    let p = grid.buffer.get_pixel(x, y);
    (p.0[0], p.0[1], p.0[2])
}

/// Calls `ImageBuffer::put_pixel`, which panics outside the buffer's extent.
/// Trusted: inside it, the pixel at `(x, y)` becomes `px`, and the extent
/// and every other pixel stay as they were.
#[verifier::external_body]
pub(crate) fn rgb_put(grid: &mut RgbGrid, x: u32, y: u32, px: Rgb8)
    requires
        x < rgb_extent(*old(grid)).0,
        y < rgb_extent(*old(grid)).1,
    ensures
        rgb_extent(*final(grid)) == rgb_extent(*old(grid)),
        rgb_pixels(*final(grid)) == rgb_pixels(*old(grid)).insert((x as int, y as int), px),
{
    grid.buffer.put_pixel(x, y, image::Rgb([px.0, px.1, px.2]));
}

/// Calls `ImageBuffer::new` for a single-channel buffer; see `rgb_new`.
/// Trusted: the new buffer has the given extent and every sample is 0.
#[verifier::external_body]
pub(crate) fn gray_new(width: u32, height: u32) -> (grid: GrayGrid)
    requires
        width * height <= isize::MAX,
    ensures
        gray_extent(grid) == (width as nat, height as nat),
        forall|x: int, y: int|
            0 <= x < width && 0 <= y < height ==> #[trigger] gray_pixels(grid)[(x, y)] == 0u8,
{
    GrayGrid { buffer: image::ImageBuffer::new(width, height) }
}

/// Calls `ImageBuffer::dimensions`.  Trusted: it returns the buffer's width
/// and height, and the samples of a buffer that exists fit in a `Vec`.
#[verifier::external_body]
pub(crate) fn gray_dimensions(grid: &GrayGrid) -> (dims: (u32, u32))
    ensures
        (dims.0 as nat, dims.1 as nat) == gray_extent(*grid),
        dims.0 * dims.1 <= isize::MAX,
{
    grid.buffer.dimensions()
}

/// Calls `ImageBuffer::get_pixel`, which panics outside the buffer's extent.
/// Trusted: inside it, the result is the sample held at `(x, y)`.
#[verifier::external_body]
pub(crate) fn gray_get(grid: &GrayGrid, x: u32, y: u32) -> (sample: u8)
    requires
        x < gray_extent(*grid).0,
        y < gray_extent(*grid).1,
    ensures
        sample == gray_pixels(*grid)[(x as int, y as int)],
{
    grid.buffer.get_pixel(x, y).0[0]
}

/// Calls `ImageBuffer::put_pixel`, which panics outside the buffer's extent.
/// Trusted: inside it, the sample at `(x, y)` becomes `sample`, and the
/// extent and every other sample stay as they were.
#[verifier::external_body]
pub(crate) fn gray_put(grid: &mut GrayGrid, x: u32, y: u32, sample: u8)
    requires
        x < gray_extent(*old(grid)).0,
        y < gray_extent(*old(grid)).1,
    ensures
        gray_extent(*final(grid)) == gray_extent(*old(grid)),
        gray_pixels(*final(grid)) == gray_pixels(*old(grid)).insert((x as int, y as int), sample),
{
    grid.buffer.put_pixel(x, y, image::Luma([sample]));
}

impl View for RgbGrid {
    type V = Map<(int, int), Rgb8>;

    /// The grid's pixels by coordinate.
    open spec fn view(&self) -> Map<(int, int), Rgb8> {
        rgb_pixels(*self)
    }
}

impl View for GrayGrid {
    type V = Map<(int, int), u8>;

    /// The grid's samples by coordinate.
    open spec fn view(&self) -> Map<(int, int), u8> {
        gray_pixels(*self)
    }
}

impl RgbGrid {
    /// The number of columns.
    pub open spec fn cols(&self) -> nat {
        rgb_extent(*self).0
    }

    /// The number of rows.
    pub open spec fn rows(&self) -> nat {
        rgb_extent(*self).1
    }

    /// A black grid of the given extent, or `None` when its samples would
    /// not fit in one buffer.
    pub fn new(width: u32, height: u32) -> (grid: Option<RgbGrid>)
        ensures
            grid.is_some() <==> 3 * width * height <= isize::MAX,
            grid.is_some() ==> {
                let g = grid.unwrap();
                &&& g.cols() == width
                &&& g.rows() == height
                &&& forall|x: int, y: int|
                    0 <= x < width && 0 <= y < height ==> #[trigger] g@[(x, y)] == (0u8, 0u8, 0u8)
            },
    {
        assert(3 * width * height <= 3 * 0xffff_ffff * 0xffff_ffff) by (nonlinear_arith);
        let samples: u128 = 3 * (width as u128) * (height as u128);
        if samples <= isize::MAX as u128 {
            Some(rgb_new(width, height))
        } else {
            None
        }
    }

    /// The grid of the given extent whose pixels are read from `samples`
    /// row by row, three samples to a pixel.  `None` unless `samples` holds
    /// exactly three samples for each pixel.
    pub fn from_samples(width: u32, height: u32, samples: &Vec<u8>) -> (grid: Option<RgbGrid>)
        ensures
            grid.is_some() <==> samples@.len() == 3 * width * height && 3 * width * height
                <= isize::MAX,
            grid.is_some() ==> {
                let g = grid.unwrap();
                &&& g.cols() == width
                &&& g.rows() == height
                &&& forall|x: int, y: int|
                    0 <= x < width && 0 <= y < height ==> #[trigger] g@[(x, y)] == (
                        samples@[sample_index(width as int, x, y, 0)],
                        samples@[sample_index(width as int, x, y, 1)],
                        samples@[sample_index(width as int, x, y, 2)],
                    )
            },
    {
        let mut grid = match RgbGrid::new(width, height) {
            Some(grid) => grid,
            None => {
                return None;
            },
        };
        assert(3 * width * height == 3 * (height * width)) by (nonlinear_arith);
        let expected: u128 = 3 * (width as u128) * (height as u128);
        let len: usize = samples.len();
        if len as u128 != expected {
            return None;
        }
        let mut base: usize = 0;
        let mut y: u32 = 0;
        while y < height
            invariant
                y <= height,
                grid.cols() == width,
                grid.rows() == height,
                samples@.len() == len,
                len == 3 * (height * width),
                base == 3 * (y * width),
                forall|a: int, b: int|
                    0 <= a < width && 0 <= b < y ==> #[trigger] grid@[(a, b)] == (
                        samples@[sample_index(width as int, a, b, 0)],
                        samples@[sample_index(width as int, a, b, 1)],
                        samples@[sample_index(width as int, a, b, 2)],
                    ),
            decreases height - y,
        {
            let mut x: u32 = 0;
            while x < width
                invariant
                    y < height,
                    x <= width,
                    grid.cols() == width,
                    grid.rows() == height,
                    samples@.len() == len,
                    len == 3 * (height * width),
                    base == 3 * (y * width + x),
                    forall|a: int, b: int|
                        0 <= a < width && 0 <= b < height && (b < y || (b == y && a < x))
                            ==> #[trigger] grid@[(a, b)] == (
                            samples@[sample_index(width as int, a, b, 0)],
                            samples@[sample_index(width as int, a, b, 1)],
                            samples@[sample_index(width as int, a, b, 2)],
                        ),
                decreases width - x,
            {
                proof {
                    lemma_row_order(y as int, height as int, width as int);
                    assert(base + 3 <= len);
                }
                let px = (samples[base], samples[base + 1], samples[base + 2]);
                let ghost before = grid@;
                rgb_put(&mut grid, x, y, px);
                assert(grid@ == before.insert((x as int, y as int), px));
                base += 3;
                x += 1;
            }
            assert((y + 1) * width == y * width + width) by (nonlinear_arith);
            y += 1;
        }
        Some(grid)
    }

    /// Sets the pixel at `(x, y)` and returns `true`, or returns `false` and
    /// changes nothing when the place lies outside the grid.
    pub fn put_pixel(&mut self, x: u32, y: u32, px: Rgb8) -> (done: bool)
        ensures
            done <==> x < old(self).cols() && y < old(self).rows(),
            final(self).cols() == old(self).cols(),
            final(self).rows() == old(self).rows(),
            final(self)@ == if done {
                old(self)@.insert((x as int, y as int), px)
            } else {
                old(self)@
            },
    {
        let (w, h) = rgb_dimensions(self);
        if x < w && y < h {
            rgb_put(self, x, y, px);
            true
        } else {
            false
        }
    }

    /// The samples of the grid row by row, three to a pixel.
    pub fn to_samples(&self) -> (samples: Vec<u8>)
        ensures
            samples@.len() == 3 * self.cols() * self.rows(),
            forall|x: int, y: int, c: int|
                0 <= x < self.cols() && 0 <= y < self.rows() && 0 <= c < 3 ==> #[trigger] samples@[sample_index(
                    self.cols() as int,
                    x,
                    y,
                    c,
                )] == channel(self@[(x, y)], c),
    {
        let (width, height) = rgb_dimensions(self);
        let mut samples: Vec<u8> = Vec::new();
        let mut y: u32 = 0;
        while y < height
            invariant
                y <= height,
                self.cols() == width,
                self.rows() == height,
                samples@.len() == 3 * (y * width),
                forall|a: int, b: int, c: int|
                    0 <= a < width && 0 <= b < y && 0 <= c < 3 ==> #[trigger] samples@[sample_index(
                        width as int,
                        a,
                        b,
                        c,
                    )] == channel(self@[(a, b)], c),
            decreases height - y,
        {
            let mut x: u32 = 0;
            while x < width
                invariant
                    y < height,
                    x <= width,
                    self.cols() == width,
                    self.rows() == height,
                    samples@.len() == 3 * (y * width + x),
                    forall|a: int, b: int, c: int|
                        0 <= a < width && 0 <= b < height && 0 <= c < 3 && (b < y || (b == y && a
                            < x)) ==> #[trigger] samples@[sample_index(width as int, a, b, c)]
                            == channel(self@[(a, b)], c),
                decreases width - x,
            {
                let px = rgb_get(self, x, y);
                let ghost before = samples@;
                samples.push(px.0);
                samples.push(px.1);
                samples.push(px.2);
                assert forall|a: int, b: int, c: int|
                    0 <= a < width && 0 <= b < height && 0 <= c < 3 && (b < y || (b == y && a < x
                        + 1)) implies #[trigger] samples@[sample_index(width as int, a, b, c)]
                    == channel(self@[(a, b)], c) by {
                    if b < y {
                        lemma_row_order(b, y as int, width as int);
                    }
                    if b < y || a < x {
                        assert(samples@[sample_index(width as int, a, b, c)] == before[sample_index(
                            width as int,
                            a,
                            b,
                            c,
                        )]);
                    }
                }
                x += 1;
            }
            assert((y + 1) * width == y * width + width) by (nonlinear_arith);
            y += 1;
        }
        assert(3 * (height * width) == 3 * width * height) by (nonlinear_arith);
        samples
    }

    /// A grid of the same extent with the same pixels.
    pub fn duplicate(&self) -> (copy: RgbGrid)
        ensures
            copy.cols() == self.cols(),
            copy.rows() == self.rows(),
            forall|x: int, y: int|
                0 <= x < self.cols() && 0 <= y < self.rows() ==> #[trigger] copy@[(x, y)] == self@[(
                    x,
                    y,
                )],
    {
        let (width, height) = rgb_dimensions(self);
        let mut copy = rgb_new(width, height);
        let mut y: u32 = 0;
        while y < height
            invariant
                y <= height,
                self.cols() == width,
                self.rows() == height,
                copy.cols() == width,
                copy.rows() == height,
                forall|a: int, b: int|
                    0 <= a < width && 0 <= b < y ==> #[trigger] copy@[(a, b)] == self@[(a, b)],
            decreases height - y,
        {
            let mut x: u32 = 0;
            while x < width
                invariant
                    y < height,
                    x <= width,
                    self.cols() == width,
                    self.rows() == height,
                    copy.cols() == width,
                    copy.rows() == height,
                    forall|a: int, b: int|
                        0 <= a < width && 0 <= b < y ==> #[trigger] copy@[(a, b)] == self@[(a, b)],
                    forall|a: int| 0 <= a < x ==> #[trigger] copy@[(a, y as int)] == self@[(a, y as int)],
                decreases width - x,
            {
                let px = rgb_get(self, x, y);
                let ghost before = copy@;
                rgb_put(&mut copy, x, y, px);
                assert(copy@ == before.insert((x as int, y as int), px));
                x += 1;
            }
            y += 1;
        }
        copy
    }

    /// The width of the grid in pixels.
    pub fn width(&self) -> (w: u32)
        ensures
            w == self.cols(),
    {
        rgb_dimensions(self).0
    }

    /// The height of the grid in pixels.
    pub fn height(&self) -> (h: u32)
        ensures
            h == self.rows(),
    {
        rgb_dimensions(self).1
    }

    /// The pixel at `(x, y)`, or `None` outside the grid.
    pub fn get_pixel(&self, x: u32, y: u32) -> (px: Option<Rgb8>)
        ensures
            px == if x < self.cols() && y < self.rows() {
                Some(self@[(x as int, y as int)])
            } else {
                None
            },
    {
        let (w, h) = rgb_dimensions(self);
        if x < w && y < h {
            Some(rgb_get(self, x, y))
        } else {
            None
        }
    }
}

impl GrayGrid {
    /// The number of columns.
    pub open spec fn cols(&self) -> nat {
        gray_extent(*self).0
    }

    /// The number of rows.
    pub open spec fn rows(&self) -> nat {
        gray_extent(*self).1
    }

    /// The samples of the grid row by row.
    pub fn to_samples(&self) -> (samples: Vec<u8>)
        ensures
            samples@.len() == self.cols() * self.rows(),
            forall|x: int, y: int|
                0 <= x < self.cols() && 0 <= y < self.rows() ==> #[trigger] samples@[y * self.cols()
                    + x] == self@[(x, y)],
    {
        let (width, height) = gray_dimensions(self);
        let mut samples: Vec<u8> = Vec::new();
        let mut y: u32 = 0;
        while y < height
            invariant
                y <= height,
                self.cols() == width,
                self.rows() == height,
                samples@.len() == y * width,
                forall|a: int, b: int|
                    0 <= a < width && 0 <= b < y ==> #[trigger] samples@[b * width + a] == self@[(
                        a,
                        b,
                    )],
            decreases height - y,
        {
            let mut x: u32 = 0;
            while x < width
                invariant
                    y < height,
                    x <= width,
                    self.cols() == width,
                    self.rows() == height,
                    samples@.len() == y * width + x,
                    forall|a: int, b: int|
                        0 <= a < width && 0 <= b < height && (b < y || (b == y && a < x))
                            ==> #[trigger] samples@[b * width + a] == self@[(a, b)],
                decreases width - x,
            {
                let sample = gray_get(self, x, y);
                let ghost before = samples@;
                samples.push(sample);
                assert forall|a: int, b: int|
                    0 <= a < width && 0 <= b < height && (b < y || (b == y && a < x + 1))
                    implies #[trigger] samples@[b * width + a] == self@[(a, b)] by {
                    if b < y {
                        lemma_row_order(b, y as int, width as int);
                    }
                    if b < y || a < x {
                        assert(samples@[b * width + a] == before[b * width + a]);
                    }
                }
                x += 1;
            }
            assert((y + 1) * width == y * width + width) by (nonlinear_arith);
            y += 1;
        }
        assert(height * width == width * height) by (nonlinear_arith);
        samples
    }

    /// The width of the grid in pixels.
    pub fn width(&self) -> (w: u32)
        ensures
            w == self.cols(),
    {
        gray_dimensions(self).0
    }

    /// The height of the grid in pixels.
    pub fn height(&self) -> (h: u32)
        ensures
            h == self.rows(),
    {
        gray_dimensions(self).1
    }

    /// The sample at `(x, y)`, or `None` outside the grid.
    pub fn get_pixel(&self, x: u32, y: u32) -> (sample: Option<u8>)
        ensures
            sample == if x < self.cols() && y < self.rows() {
                Some(self@[(x as int, y as int)])
            } else {
                None
            },
    {
        let (w, h) = gray_dimensions(self);
        if x < w && y < h {
            Some(gray_get(self, x, y))
        } else {
            None
        }
    }
}

} // verus!
