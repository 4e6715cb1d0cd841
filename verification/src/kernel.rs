use crate::error::FilterError;
use vstd::prelude::*;

verus! {

/// A one-dimensional kernel with rational weights: tap `i` weighs
/// `taps()[i] / unit()`.  The unit is never zero.
pub struct Kernel1D {
    weights: Vec<i64>,
    scale: u64,
}

/// A 3x3 kernel with rational weights: the tap in row `r` and column `c`
/// weighs `tap(r, c) / unit()`.  The unit is never zero.
pub struct Kernel2D {
    weights: Vec<Vec<i64>>,
    scale: u64,
}

/// Whether `rows` is three rows of three coefficients.
pub open spec fn is_three_by_three(rows: Seq<Vec<i64>>) -> bool {
    rows.len() == 3 && rows[0].len() == 3 && rows[1].len() == 3 && rows[2].len() == 3
}

/// The sum of the first `n` numerators of `taps`.
pub open spec fn tap_sum(taps: Seq<i64>, n: int) -> int
    decreases n,
{
    if n <= 0 {
        0
    } else {
        tap_sum(taps, n - 1) + taps[n - 1]
    }
}

impl Kernel1D {
    #[verifier::type_invariant]
    spec fn well_formed(self) -> bool {
        self.scale > 0
    }

    /// The numerators of the weights, in order.
    pub closed spec fn taps(&self) -> Seq<i64> {
        self.weights@
    }

    /// The common denominator of the weights.
    pub closed spec fn unit(&self) -> int {
        self.scale as int
    }

    /// Whether the weights sum to one: the numerators sum to the unit.
    pub open spec fn is_normalised(&self) -> bool {
        tap_sum(self.taps(), self.taps().len() as int) == self.unit()
    }

    /// A kernel of the given numerators over `scale`.
    ///
    /// Fails with `InvalidKernelParameters` exactly when `scale` is zero.
    pub fn new(weights: Vec<i64>, scale: u64) -> (result: Result<Kernel1D, FilterError>)
        ensures
            result.is_ok() <==> scale > 0,
            result.is_err() ==> result == Err::<Kernel1D, FilterError>(
                FilterError::InvalidKernelParameters,
            ),
            result.is_ok() ==> result.unwrap().taps() == weights@ && result.unwrap().unit()
                == scale,
    {
        if scale == 0 {
            Err(FilterError::InvalidKernelParameters)
        } else {
            Ok(Kernel1D { weights, scale })
        }
    }

    /// The number of taps.
    pub fn len(&self) -> (n: usize)
        ensures
            n == self.taps().len(),
    {
        self.weights.len()
    }

    /// The numerator of tap `i`.
    pub(crate) fn tap_at(&self, i: usize) -> (w: i64)
        requires
            i < self.taps().len(),
        ensures
            w == self.taps()[i as int],
    {
        self.weights[i]
    }

    /// The numerator of tap `i`, or `None` past the last tap.
    pub fn weight(&self, i: usize) -> (w: Option<i64>)
        ensures
            w == if i < self.taps().len() {
                Some(self.taps()[i as int])
            } else {
                None
            },
    {
        if i < self.weights.len() {
            Some(self.weights[i])
        } else {
            None
        }
    }

    /// The common denominator.
    pub fn scale(&self) -> (s: u64)
        ensures
            s == self.unit(),
            s > 0,
    {
        proof {
            use_type_invariant(self);
        }
        self.scale
    }
}

impl Kernel2D {
    #[verifier::type_invariant]
    spec fn well_formed(self) -> bool {
        self.scale > 0 && is_three_by_three(self.weights@)
    }

    /// The numerator of the weight in row `row` and column `col`, both
    /// counted from zero.
    pub closed spec fn tap(&self, row: int, col: int) -> i64 {
        self.weights@[row]@[col]
    }

    /// The common denominator of the weights.
    pub closed spec fn unit(&self) -> int {
        self.scale as int
    }

    /// A kernel of the given rows of numerators over `scale`.
    ///
    /// Fails with `MalformedCustomKernel` exactly when `scale` is zero or
    /// `rows` is not three rows of three coefficients.
    pub fn new(rows: Vec<Vec<i64>>, scale: u64) -> (result: Result<Kernel2D, FilterError>)
        ensures
            result.is_ok() <==> scale > 0 && is_three_by_three(rows@),
            result.is_err() ==> result == Err::<Kernel2D, FilterError>(
                FilterError::MalformedCustomKernel,
            ),
            result.is_ok() ==> {
                let kernel = result.unwrap();
                &&& kernel.unit() == scale
                &&& forall|r: int, c: int|
                    0 <= r < 3 && 0 <= c < 3 ==> #[trigger] kernel.tap(r, c) == rows@[r]@[c]
            },
    {
        if scale == 0 || rows.len() != 3 {
            return Err(FilterError::MalformedCustomKernel);
        }
        if rows[0].len() != 3 || rows[1].len() != 3 || rows[2].len() != 3 {
            return Err(FilterError::MalformedCustomKernel);
        }
        Ok(Kernel2D { weights: rows, scale })
    }

    /// The numerator in row `row` and column `col`.
    pub(crate) fn tap_at(&self, row: usize, col: usize) -> (w: i64)
        requires
            row < 3,
            col < 3,
        ensures
            w == self.tap(row as int, col as int),
    {
        proof {
            use_type_invariant(self);
        }
        self.weights[row][col]
    }

    /// The numerator in row `row` and column `col`, or `None` outside the
    /// 3x3 square.
    pub fn weight(&self, row: usize, col: usize) -> (w: Option<i64>)
        ensures
            w == if row < 3 && col < 3 {
                Some(self.tap(row as int, col as int))
            } else {
                None
            },
    {
        proof {
            use_type_invariant(self);
        }
        if row < 3 && col < 3 {
            Some(self.weights[row][col])
        } else {
            None
        }
    }

    /// The common denominator.
    pub fn scale(&self) -> (s: u64)
        ensures
            s == self.unit(),
            s > 0,
    {
        proof {
            use_type_invariant(self);
        }
        self.scale
    }
}

} // verus!
