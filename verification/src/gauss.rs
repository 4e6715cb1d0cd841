use crate::error::FilterError;
use crate::kernel::{tap_sum, Kernel1D};
use crate::luma_operations::magnitude;
use vstd::prelude::*;

verus! {

/// How many distinct samples a kernel of `samples` entries takes on each
/// side of its centre: half of what is left once the centre, taken once for
/// an odd count and twice for an even one, is set aside.
pub open spec fn side_steps(samples: int) -> int {
    if samples % 2 == 0 {
        (samples - 2) / 2
    } else {
        (samples - 1) / 2
    }
}

/// The offset from the centre at which entry `i` of a kernel of `samples`
/// entries is sampled: the negative offsets from the farthest to the
/// nearest, then the centre (twice for an even count), then the positive
/// offsets from the nearest to the farthest.
pub open spec fn offset_at(samples: int, i: int) -> int {
    let steps = side_steps(samples);
    if i < steps {
        i - steps
    } else if i >= samples - steps {
        i - (samples - steps) + 1
    } else {
        0
    }
}

/// The sum of the densities at the offsets of the first `n` entries.
pub open spec fn layout_sum(samples: int, density: Seq<u32>, n: int) -> int
    decreases n,
{
    if n <= 0 {
        0
    } else {
        layout_sum(samples, density, n - 1) + density[magnitude(offset_at(samples, n - 1))]
    }
}

/// Entry `i` and its mirror image lie at opposite offsets.
pub proof fn lemma_offsets_mirror(samples: int, i: int)
    requires
        1 <= samples,
        0 <= i < samples,
    ensures
        offset_at(samples, samples - 1 - i) == -offset_at(samples, i),
        magnitude(offset_at(samples, i)) <= side_steps(samples),
{
}

/// Numerators laid out after `density` sum to the layout sum.
proof fn lemma_tap_sum_is_layout_sum(samples: int, density: Seq<u32>, taps: Seq<i64>, n: int)
    requires
        0 <= n <= taps.len(),
        forall|i: int|
            0 <= i < n ==> #[trigger] taps[i] == density[magnitude(offset_at(samples, i))],
    ensures
        tap_sum(taps, n) == layout_sum(samples, density, n),
    decreases n,
{
    if n > 0 {
        lemma_tap_sum_is_layout_sum(samples, density, taps, n - 1);
    }
}

/// How many densities a kernel of `samples` entries is made from: one for
/// the centre and one for each step to a side.
///
/// Fails with `InvalidKernelParameters` exactly when `samples` is not
/// positive.
pub fn density_count(samples: i8) -> (result: Result<usize, FilterError>)
    ensures
        result.is_ok() <==> samples >= 1,
        result.is_err() ==> result == Err::<usize, FilterError>(
            FilterError::InvalidKernelParameters,
        ),
        result.is_ok() ==> result.unwrap() == side_steps(samples as int) + 1,
{
    if samples < 1 {
        return Err(FilterError::InvalidKernelParameters);
    }
    let steps: i8 = (if samples % 2 == 0 {
        samples - 2
    } else {
        samples - 1
    }) / 2;
    Ok(steps as usize + 1)
}

/// The normalised Gaussian kernel of `samples` entries.  `density[k]` is
/// the Gaussian density at the distance `k` from the centre, for `k` from
/// zero to the number of steps to a side, in any one unit.
///
/// Fails with `InvalidKernelParameters` exactly when `samples` is not
/// positive, `density` has not one entry for the centre and one for each
/// step, or the densities laid out sum to zero.  Otherwise the kernel has
/// `samples` taps, tap `i` weighs the density at the distance of
/// `offset_at(samples, i)` over the sum of them all, so that the weights sum
/// to one, and the kernel reads the same from both ends.
pub fn gaussian_kernel1_d(samples: i8, density: &Vec<u32>) -> (result: Result<
    Kernel1D,
    FilterError,
>)
    ensures
        result.is_ok() <==> samples >= 1 && density@.len() == side_steps(samples as int) + 1
            && layout_sum(samples as int, density@, samples as int) > 0,
        result.is_err() ==> result == Err::<Kernel1D, FilterError>(
            FilterError::InvalidKernelParameters,
        ),
        result.is_ok() ==> {
            let kernel = result.unwrap();
            &&& kernel.taps().len() == samples
            &&& forall|i: int|
                0 <= i < samples ==> #[trigger] kernel.taps()[i] == density@[magnitude(
                    offset_at(samples as int, i),
                )]
            &&& kernel.unit() == layout_sum(samples as int, density@, samples as int)
            &&& kernel.is_normalised()
            &&& forall|i: int|
                0 <= i < samples ==> #[trigger] kernel.taps()[i] == kernel.taps()[samples - 1 - i]
        },
{
    let count = match density_count(samples) {
        Ok(count) => count,
        Err(e) => {
            return Err(e);
        },
    };
    if density.len() != count {
        return Err(FilterError::InvalidKernelParameters);
    }
    let steps: usize = count - 1;
    let ghost n = samples as int;
    let mut kernel: Vec<i64> = Vec::new();
    let mut sum: u64 = 0;
    let mut i: usize = 0;
    while i < steps
        invariant
            1 <= n <= 127,
            steps == side_steps(n),
            density@.len() == steps + 1,
            i <= steps,
            kernel@.len() == i,
            forall|j: int|
                0 <= j < i ==> #[trigger] kernel@[j] == density@[magnitude(offset_at(n, j))],
            sum == layout_sum(n, density@, i as int),
            sum <= i * u32::MAX,
        decreases steps - i,
    {
        let g = density[steps - i];
        sum = sum + g as u64;
        kernel.push(g as i64);
        i += 1;
    }
    let centre = density[0];
    kernel.push(centre as i64);
    sum = sum + centre as u64;
    assert(sum == layout_sum(n, density@, steps + 1));
    if samples % 2 == 0 {
        kernel.push(centre as i64);
        sum = sum + centre as u64;
        assert(sum == layout_sum(n, density@, steps + 2));
    }
    let mut k: usize = 1;
    while k < steps + 1
        invariant
            1 <= n <= 127,
            steps == side_steps(n),
            density@.len() == steps + 1,
            1 <= k <= steps + 1,
            kernel@.len() == n - steps + k - 1,
            forall|j: int|
                0 <= j < kernel@.len() ==> #[trigger] kernel@[j] == density@[magnitude(
                    offset_at(n, j),
                )],
            sum == layout_sum(n, density@, kernel@.len() as int),
            sum <= kernel@.len() * u32::MAX,
        decreases steps + 1 - k,
    {
        let g = density[k];
        sum = sum + g as u64;
        kernel.push(g as i64);
        k += 1;
    }
    proof {
        lemma_tap_sum_is_layout_sum(n, density@, kernel@, n);
        assert forall|j: int| 0 <= j < n implies #[trigger] kernel@[j] == kernel@[n - 1 - j] by {
            lemma_offsets_mirror(n, j);
        }
    }
    Kernel1D::new(kernel, sum)
}

} // verus!
