use crate::arith::{clamp_ratio, clamp_sample, round_ratio};
use crate::error::FilterError;
use crate::raster::{rgb_dimensions, rgb_get, rgb_put, Rgb8, RgbGrid, RgbPlane};
use vstd::prelude::*;

verus! {

/// The luma `Y = 16 + 0.257 R + 0.504 G + 0.098 B` of a pixel, rounded to the
/// nearest integer.  The weights are taken in thousandths, so the value is
/// exact.
pub open spec fn luma_y(px: Rgb8) -> int {
    round_ratio(16000 + 257 * px.0 + 504 * px.1 + 98 * px.2, 1000)
}

/// The blue chroma `Cb = 128 - 0.148 R - 0.291 G + 0.439 B` of a pixel,
/// rounded to the nearest integer.
pub open spec fn chroma_b(px: Rgb8) -> int {
    round_ratio(128000 - 148 * px.0 - 291 * px.1 + 439 * px.2, 1000)
}

/// The red chroma `Cr = 128 + 0.439 R - 0.368 G - 0.071 B` of a pixel,
/// rounded to the nearest integer.
pub open spec fn chroma_r(px: Rgb8) -> int {
    round_ratio(128000 + 439 * px.0 - 368 * px.1 - 71 * px.2, 1000)
}

/// The RGB pixel of a luma and two chroma values: with `Yd = Y - 16`,
/// `Cbd = Cb - 128` and `Crd = Cr - 128`, red is `1.164 Yd + 1.596 Crd`,
/// green is `1.164 Yd - 0.392 Cbd - 0.813 Crd` and blue is
/// `1.164 Yd + 2.017 Cbd`, each clamped to `[0, 255]` and cut towards zero.
pub open spec fn from_ycbcr(y: int, cb: int, cr: int) -> Rgb8 {
    (
        clamp_ratio(1164 * (y - 16) + 1596 * (cr - 128), 1000) as u8,
        clamp_ratio(1164 * (y - 16) - 392 * (cb - 128) - 813 * (cr - 128), 1000) as u8,
        clamp_ratio(1164 * (y - 16) + 2017 * (cb - 128), 1000) as u8,
    )
}

/// How many of the first `n` pixels of column `x` have luma `v`.
pub open spec fn column_count(pixels: RgbPlane, x: int, n: int, v: int) -> int
    decreases n,
{
    if n <= 0 {
        0
    } else {
        column_count(pixels, x, n - 1, v) + if luma_y(pixels[(x, n - 1)]) == v {
            1int
        } else {
            0int
        }
    }
}

/// How many pixels in the first `cols` columns, each `height` pixels high,
/// have luma `v`.
pub open spec fn luma_count(pixels: RgbPlane, cols: int, height: int, v: int) -> int
    decreases cols,
{
    if cols <= 0 {
        0
    } else {
        luma_count(pixels, cols - 1, height, v) + column_count(pixels, cols - 1, height, v)
    }
}

/// The luma histogram of the top-left `width` by `height` pixels: bucket `v`
/// counts the pixels whose luma is `v`.
pub open spec fn histogram_of(pixels: RgbPlane, width: int, height: int) -> Seq<u64> {
    Seq::new(256, |v: int| luma_count(pixels, width, height, v) as u64)
}

/// The sum of the buckets `0..=v`.
pub open spec fn cumulative(hist: Seq<u64>, v: int) -> int
    decreases v + 1,
{
    if v < 0 {
        0
    } else {
        cumulative(hist, v - 1) + hist[v]
    }
}

/// The first bucket at or after `from` that is not empty, or the number of
/// buckets if there is none.
pub open spec fn first_populated(hist: Seq<u64>, from: int) -> int
    decreases hist.len() - from,
{
    if from >= hist.len() || hist[from] != 0 {
        from
    } else {
        first_populated(hist, from + 1)
    }
}

/// The count of the darkest bucket that is not empty; 0 for an empty
/// histogram.
pub open spec fn darkest_count(hist: Seq<u64>) -> int {
    let first = first_populated(hist, 0);
    if first < hist.len() {
        hist[first] as int
    } else {
        0
    }
}

/// The number of pixels counted outside the darkest populated bucket: the
/// denominator of the tone scale.
pub open spec fn spread(hist: Seq<u64>) -> int {
    cumulative(hist, hist.len() - 1) - darkest_count(hist)
}

/// The equalised luma for luma `v`: the cumulative count up to `v` times
/// `255 / spread`, rounded to the nearest integer and capped at 255.  Where
/// every pixel lies in one bucket the spread is zero and nothing can be
/// equalised: the luma stays as it is.
pub open spec fn tone(hist: Seq<u64>, v: int) -> int {
    let d = spread(hist);
    if d == 0 {
        v
    } else {
        let r = round_ratio(255 * cumulative(hist, v), d);
        if r > 255 {
            255
        } else {
            r
        }
    }
}

/// The tone curve of a histogram: entry `v` is the equalised luma for `v`.
pub open spec fn tone_curve(hist: Seq<u64>) -> Seq<u8> {
    Seq::new(256, |v: int| tone(hist, v) as u8)
}

/// The pixel that a tone curve makes of `px`: its luma mapped through the
/// curve, its chroma kept, and the three turned back into RGB.
pub open spec fn remapped(curve: Seq<u8>, px: Rgb8) -> Rgb8 {
    from_ycbcr(curve[luma_y(px)] as int, chroma_b(px), chroma_r(px))
}

/// The pixel that equalisation over the top-left `width` by `height` pixels
/// makes of `px`: `px` remapped by the tone curve of that extent's luma
/// histogram.
pub open spec fn equalized(pixels: RgbPlane, width: int, height: int, px: Rgb8) -> Rgb8 {
    remapped(tone_curve(histogram_of(pixels, width, height)), px)
}

/// A luma histogram: 256 counts, one for each luma value.
pub struct Histogram {
    counts: Vec<u64>,
}

/// A tone curve: 256 luma values, one for each luma value it replaces.
pub struct LookupTable {
    entries: Vec<u8>,
}

impl View for Histogram {
    type V = Seq<u64>;

    closed spec fn view(&self) -> Seq<u64> {
        self.counts@
    }
}

impl View for LookupTable {
    type V = Seq<u8>;

    closed spec fn view(&self) -> Seq<u8> {
        self.entries@
    }
}

/// The luma and the two chroma values of a pixel lie in `[16, 240]`.
pub proof fn lemma_ycbcr_range(px: Rgb8)
    ensures
        16 <= luma_y(px) <= 235,
        16 <= chroma_b(px) <= 240,
        16 <= chroma_r(px) <= 240,
{
    let y = 16000 + 257 * px.0 + 504 * px.1 + 98 * px.2;
    let cb = 128000 - 148 * px.0 - 291 * px.1 + 439 * px.2;
    let cr = 128000 + 439 * px.0 - 368 * px.1 - 71 * px.2;
    assert(16000 <= y <= 235045);
    assert(16055 <= cb <= 239945);
    assert(16055 <= cr <= 239945);
    assert(luma_y(px) == (2 * y + 1000) / 2000);
    assert(chroma_b(px) == (2 * cb + 1000) / 2000);
    assert(chroma_r(px) == (2 * cr + 1000) / 2000);
}

/// An equalised luma is a sample.
pub proof fn lemma_tone_is_sample(hist: Seq<u64>, v: int)
    requires
        0 <= v <= 255,
    ensures
        0 <= tone(hist, v) <= 255,
{
    lemma_cumulative_bounds(hist, v, 0);
    lemma_first_populated_ahead(hist, 0);
    let first = first_populated(hist, 0);
    if first < hist.len() {
        lemma_cumulative_bounds(hist, hist.len() - 1, first);
    } else {
        lemma_cumulative_bounds(hist, hist.len() - 1, 0);
    }
    let d = spread(hist);
    let num = 255 * cumulative(hist, v);
    if d != 0 {
        assert(0 <= (2 * num + d) / (2 * d)) by (nonlinear_arith)
            requires
                0 <= num,
                0 < d,
        ;
    }
}

/// The first populated bucket from `from` on does not lie before `from`.
proof fn lemma_first_populated_ahead(hist: Seq<u64>, from: int)
    ensures
        from <= first_populated(hist, from),
    decreases hist.len() - from,
{
    if from < hist.len() && hist[from] == 0 {
        lemma_first_populated_ahead(hist, from + 1);
    }
}

/// A cumulative count is not negative, and not less than any bucket that
/// it covers.
proof fn lemma_cumulative_bounds(hist: Seq<u64>, v: int, i: int)
    ensures
        0 <= cumulative(hist, v),
        0 <= i <= v ==> hist[i] <= cumulative(hist, v),
    decreases v + 1,
{
    if v >= 0 {
        lemma_cumulative_bounds(hist, v - 1, i);
    }
}

/// In a column of one colour every pixel falls into the bucket of that
/// colour's luma.
proof fn lemma_uniform_column_count(pixels: RgbPlane, x: int, n: int, colour: Rgb8, v: int)
    requires
        0 <= n,
        forall|b: int| 0 <= b < n ==> #[trigger] pixels[(x, b)] == colour,
    ensures
        column_count(pixels, x, n, v) == if luma_y(colour) == v {
            n
        } else {
            0
        },
    decreases n,
{
    if n > 0 {
        lemma_uniform_column_count(pixels, x, n - 1, colour, v);
        assert(pixels[(x, n - 1)] == colour);
    }
}

/// In an extent of one colour only the bucket of that colour's luma is
/// populated.
proof fn lemma_uniform_luma_count(
    pixels: RgbPlane,
    cols: int,
    height: int,
    colour: Rgb8,
    v: int,
)
    requires
        0 <= cols,
        0 <= height,
        forall|a: int, b: int|
            0 <= a < cols && 0 <= b < height ==> #[trigger] pixels[(a, b)] == colour,
    ensures
        luma_y(colour) != v ==> luma_count(pixels, cols, height, v) == 0,
    decreases cols,
{
    if cols > 0 {
        lemma_uniform_luma_count(pixels, cols - 1, height, colour, v);
        assert forall|b: int| 0 <= b < height implies #[trigger] pixels[(cols - 1, b)]
            == colour by {}
        lemma_uniform_column_count(pixels, cols - 1, height, colour, v);
    }
}

/// Where only bucket `only` can hold anything, the cumulative count is that
/// bucket's count from `only` on and zero before it.
proof fn lemma_single_bucket_cumulative(hist: Seq<u64>, only: int, v: int)
    requires
        hist.len() == 256,
        0 <= only < 256,
        v < 256,
        forall|u: int| 0 <= u < 256 && u != only ==> #[trigger] hist[u] == 0,
    ensures
        cumulative(hist, v) == if v >= only {
            hist[only] as int
        } else {
            0
        },
    decreases v + 1,
{
    if v >= 0 {
        lemma_single_bucket_cumulative(hist, only, v - 1);
    }
}

/// Where only bucket `only` can hold anything, the first populated bucket
/// from `from` on is `only` if it lies ahead and holds something.
proof fn lemma_single_bucket_first(hist: Seq<u64>, only: int, from: int)
    requires
        hist.len() == 256,
        0 <= only < 256,
        0 <= from <= 256,
        forall|u: int| 0 <= u < 256 && u != only ==> #[trigger] hist[u] == 0,
    ensures
        first_populated(hist, from) == if from <= only && hist[only] != 0 {
            only
        } else {
            256
        },
    decreases 256 - from,
{
    if from < 256 {
        lemma_single_bucket_first(hist, only, from + 1);
    }
}

/// Where every counted pixel lies in one bucket, there is nothing to spread
/// and the tone curve keeps every luma.
pub proof fn lemma_single_bucket_keeps_luma(hist: Seq<u64>, only: int, v: int)
    requires
        hist.len() == 256,
        0 <= only < 256,
        forall|u: int| 0 <= u < 256 && u != only ==> #[trigger] hist[u] == 0,
    ensures
        spread(hist) == 0,
        tone(hist, v) == v,
{
    lemma_single_bucket_cumulative(hist, only, 255);
    lemma_single_bucket_first(hist, only, 0);
}

/// A grid of one colour stays a grid of one colour: where every pixel of a
/// non-empty extent is `colour`, equalisation makes of each of them the same
/// pixel, namely `colour` taken to luma and chroma and back.
pub proof fn lemma_uniform_grid_stays_uniform(
    pixels: RgbPlane,
    width: int,
    height: int,
    colour: Rgb8,
    x: int,
    y: int,
)
    requires
        forall|a: int, b: int|
            0 <= a < width && 0 <= b < height ==> #[trigger] pixels[(a, b)] == colour,
        0 <= x < width,
        0 <= y < height,
    ensures
        equalized(pixels, width, height, pixels[(x, y)]) == from_ycbcr(
            luma_y(colour),
            chroma_b(colour),
            chroma_r(colour),
        ),
{
    let hist = histogram_of(pixels, width, height);
    let only = luma_y(colour);
    lemma_ycbcr_range(colour);
    assert forall|u: int| 0 <= u < 256 && u != only implies #[trigger] hist[u] == 0 by {
        lemma_uniform_luma_count(pixels, width, height, colour, u);
    }
    lemma_single_bucket_keeps_luma(hist, only, only);
    assert(pixels[(x, y)] == colour);
    assert(tone_curve(hist)[only] == only);
}

/// Converts a pixel to luma, blue chroma and red chroma.
pub fn rgb_to_ycbcr(px: Rgb8) -> (ycc: (u8, u8, u8))
    ensures
        ycc.0 == luma_y(px),
        ycc.1 == chroma_b(px),
        ycc.2 == chroma_r(px),
{
    let r: i32 = px.0 as i32;
    let g: i32 = px.1 as i32;
    let b: i32 = px.2 as i32;
    let y: i32 = (2 * (16000 + 257 * r + 504 * g + 98 * b) + 1000) / 2000;
    let cb: i32 = (2 * (128000 - 148 * r - 291 * g + 439 * b) + 1000) / 2000;
    let cr: i32 = (2 * (128000 + 439 * r - 368 * g - 71 * b) + 1000) / 2000;
    (y as u8, cb as u8, cr as u8)
}

/// Converts luma, blue chroma and red chroma to a pixel.
pub fn ycbcr_to_rgb(y: u8, cb: u8, cr: u8) -> (px: Rgb8)
    ensures
        px == from_ycbcr(y as int, cb as int, cr as int),
{
    let yd: i128 = y as i128 - 16;
    let cbd: i128 = cb as i128 - 128;
    let crd: i128 = cr as i128 - 128;
    (
        clamp_sample(1164 * yd + 1596 * crd, 1000),
        clamp_sample(1164 * yd - 392 * cbd - 813 * crd, 1000),
        clamp_sample(1164 * yd + 2017 * cbd, 1000),
    )
}

impl Histogram {
    #[verifier::type_invariant]
    spec fn well_formed(self) -> bool {
        self.counts@.len() == 256
    }

    /// The histogram with the given counts, or `None` unless there are 256.
    pub fn from_counts(counts: Vec<u64>) -> (hist: Option<Histogram>)
        ensures
            hist.is_some() <==> counts@.len() == 256,
            hist.is_some() ==> hist.unwrap()@ == counts@,
    {
        if counts.len() == 256 {
            Some(Histogram { counts })
        } else {
            None
        }
    }

    /// The number of pixels counted with luma `luma`.
    pub fn count(&self, luma: u8) -> (n: u64)
        ensures
            self@.len() == 256,
            n == self@[luma as int],
    {
        proof {
            use_type_invariant(self);
        }
        self.counts[luma as usize]
    }

    /// The tone curve of this histogram.
    pub fn lookup_table(&self) -> (table: LookupTable)
        ensures
            self@.len() == 256,
            table@ == tone_curve(self@),
    {
        proof {
            use_type_invariant(self);
        }
        let ghost hist = self@;
        let mut first: usize = 0;
        while first < 256 && self.counts[first] == 0
            invariant
                first <= 256,
                hist == self.counts@,
                hist.len() == 256,
                first_populated(hist, 0) == first_populated(hist, first as int),
            decreases 256 - first,
        {
            first += 1;
        }
        let darkest: u128 = if first < 256 {
            self.counts[first] as u128
        } else {
            0
        };
        let mut total: u128 = 0;
        let mut i: usize = 0;
        while i < 256
            invariant
                i <= 256,
                hist == self.counts@,
                hist.len() == 256,
                total == cumulative(hist, i as int - 1),
                total <= i * u64::MAX,
                first < i ==> total >= darkest,
                first < 256 ==> darkest == hist[first as int],
                first >= 256 ==> darkest == 0,
            decreases 256 - i,
        {
            total = total + self.counts[i] as u128;
            i += 1;
        }
        let d: u128 = total - darkest;
        assert(d == spread(hist));
        let mut entries: Vec<u8> = Vec::new();
        let mut running: u128 = 0;
        let mut pos: usize = 0;
        while pos < 256
            invariant
                pos <= 256,
                hist == self.counts@,
                hist.len() == 256,
                d == spread(hist),
                d <= 256 * u64::MAX,
                running == cumulative(hist, pos as int - 1),
                running <= pos * u64::MAX,
                entries@.len() == pos,
                forall|v: int| 0 <= v < pos ==> #[trigger] entries@[v] == tone(hist, v),
            decreases 256 - pos,
        {
            running = running + self.counts[pos] as u128;
            let entry: u8 = if d == 0 {
                pos as u8
            } else {
                let rounded: u128 = (2 * (255 * running) + d) / (2 * d);
                if rounded > 255 {
                    255
                } else {
                    rounded as u8
                }
            };
            entries.push(entry);
            pos += 1;
        }
        assert(entries@ =~= tone_curve(hist));
        LookupTable { entries }
    }
}

impl LookupTable {
    #[verifier::type_invariant]
    spec fn well_formed(self) -> bool {
        self.entries@.len() == 256
    }

    /// The luma that replaces `luma`.
    pub fn entry(&self, luma: u8) -> (mapped: u8)
        ensures
            self@.len() == 256,
            mapped == self@[luma as int],
    {
        proof {
            use_type_invariant(self);
        }
        self.entries[luma as usize]
    }
}

/// The luma histogram of the top-left `width` by `height` pixels of `data`.
///
/// Fails with `DimensionTooSmall` exactly when `data` does not cover that
/// extent.  Otherwise bucket `v` of the result counts the pixels of the
/// extent whose luma is `v`.
pub fn luma_histogram(width: u32, height: u32, data: &RgbGrid) -> (result: Result<
    Histogram,
    FilterError,
>)
    ensures
        result.is_ok() <==> width <= data.cols() && height <= data.rows(),
        result.is_err() ==> result == Err::<Histogram, FilterError>(FilterError::DimensionTooSmall),
        result.is_ok() ==> result.unwrap()@ == histogram_of(data@, width as int, height as int),
{
    let (full_width, full_height) = rgb_dimensions(data);
    if width > full_width || height > full_height {
        return Err(FilterError::DimensionTooSmall);
    }
    let mut counts: Vec<u64> = Vec::new();
    while counts.len() < 256
        invariant
            counts@.len() <= 256,
            forall|v: int| 0 <= v < counts@.len() ==> #[trigger] counts@[v] == 0,
        decreases 256 - counts@.len(),
    {
        counts.push(0);
    }
    let mut x: u32 = 0;
    while x < width
        invariant
            x <= width <= data.cols(),
            height <= data.rows(),
            counts@.len() == 256,
            forall|v: int|
                0 <= v < 256 ==> #[trigger] counts@[v] == luma_count(
                    data@,
                    x as int,
                    height as int,
                    v,
                ),
            forall|v: int| 0 <= v < 256 ==> #[trigger] counts@[v] <= x * 0x1_0000_0000,
        decreases width - x,
    {
        let mut y: u32 = 0;
        while y < height
            invariant
                x < width <= data.cols(),
                y <= height <= data.rows(),
                counts@.len() == 256,
                forall|v: int|
                    0 <= v < 256 ==> #[trigger] counts@[v] == luma_count(
                        data@,
                        x as int,
                        height as int,
                        v,
                    ) + column_count(data@, x as int, y as int, v),
                forall|v: int| 0 <= v < 256 ==> #[trigger] counts@[v] <= x * 0x1_0000_0000 + y,
            decreases height - y,
        {
            let luma = rgb_to_ycbcr(rgb_get(data, x, y)).0;
            let seen = counts[luma as usize];
            counts.set(luma as usize, seen + 1);
            y += 1;
        }
        x += 1;
    }
    assert(counts@ =~= histogram_of(data@, width as int, height as int));
    Ok(Histogram { counts })
}

/// The pixel that the tone curve makes of `px`.
fn remap(look_up: &LookupTable, px: Rgb8) -> (mapped: Rgb8)
    ensures
        mapped == remapped(look_up@, px),
{
    let ycc = rgb_to_ycbcr(px);
    ycbcr_to_rgb(look_up.entry(ycc.0), ycc.1, ycc.2)
}

/// Equalises the luma histogram of the top-left `width` by `height` pixels
/// of `data`.
///
/// Fails with `DimensionTooSmall`, and leaves `data` as it is, exactly when
/// the extent is empty or `data` does not cover it.  Otherwise every pixel
/// of the extent is taken to luma and chroma, its luma is replaced by the
/// tone curve of the extent's luma histogram, and the result is taken back
/// to RGB; pixels outside the extent keep their value.
pub fn equalization(width: u32, height: u32, data: &mut RgbGrid) -> (result: Result<
    (),
    FilterError,
>)
    ensures
        result.is_ok() <==> 1 <= width <= old(data).cols() && 1 <= height <= old(data).rows(),
        result.is_err() ==> result == Err::<(), FilterError>(FilterError::DimensionTooSmall)
            && *final(data) == *old(data),
        final(data).cols() == old(data).cols(),
        final(data).rows() == old(data).rows(),
        result.is_ok() ==> forall|x: int, y: int|
            0 <= x < old(data).cols() && 0 <= y < old(data).rows() ==> #[trigger] final(data)@[(
                x,
                y,
            )] == if x < width && y < height {
                equalized(old(data)@, width as int, height as int, old(data)@[(x, y)])
            } else {
                old(data)@[(x, y)]
            },
{
    if width == 0 || height == 0 {
        return Err(FilterError::DimensionTooSmall);
    }
    let hist = match luma_histogram(width, height, data) {
        Ok(hist) => hist,
        Err(e) => {
            return Err(e);
        },
    };
    let look_up = hist.lookup_table();
    let (full_width, full_height) = rgb_dimensions(data);
    let ghost curve = look_up@;
    let mut w: u32 = 0;
    while w < width
        invariant
            w <= width <= full_width,
            height <= full_height,
            data.cols() == full_width,
            data.rows() == full_height,
            curve == look_up@,
            forall|a: int, b: int|
                0 <= a < full_width && 0 <= b < full_height ==> #[trigger] data@[(a, b)] == if a < w
                    && b < height {
                    remapped(curve, old(data)@[(a, b)])
                } else {
                    old(data)@[(a, b)]
                },
        decreases width - w,
    {
        let mut h: u32 = 0;
        while h < height
            invariant
                w < width <= full_width,
                h <= height <= full_height,
                data.cols() == full_width,
                data.rows() == full_height,
                curve == look_up@,
                forall|a: int, b: int|
                    0 <= a < full_width && 0 <= b < full_height ==> #[trigger] data@[(a, b)] == if b
                        < height && (a < w || (a == w && b < h)) {
                        remapped(curve, old(data)@[(a, b)])
                    } else {
                        old(data)@[(a, b)]
                    },
            decreases height - h,
        {
            let new_px = remap(&look_up, rgb_get(data, w, h));
            let ghost before = data@;
            rgb_put(data, w, h, new_px);
            assert(data@ == before.insert((w as int, h as int), new_px));
            h += 1;
        }
        w += 1;
    }
    Ok(())
}

} // verus!
