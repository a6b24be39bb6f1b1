//! What the estimation of a sample decides before any number is computed:
//! which tests apply to a sample, and with how many degrees of freedom.

use vstd::prelude::*;

verus! {

/// The chi-squared test fits a normal distribution, which takes three
/// degrees of freedom from the bins; it needs more bins than that.
pub const FITTED_FREEDOM: usize = 3;

/// The Kolmogorov-Smirnov test rests on an approximation that holds for
/// samples larger than this.
pub const SMALL_SAMPLE: usize = 40;

/// The degrees of freedom of the chi-squared test over `bin_count` bins, or
/// nothing where the bins are too few for the test.
pub fn chi_squared_freedom(bin_count: usize) -> (freedom: Option<usize>)
    ensures
        freedom == if bin_count > FITTED_FREEDOM {
            Some((bin_count - FITTED_FREEDOM) as usize)
        } else {
            None
        },
{
    if bin_count > FITTED_FREEDOM {
        Some(bin_count - FITTED_FREEDOM)
    } else {
        None
    }
}

/// Whether the Kolmogorov-Smirnov test applies to a sample of this size.
pub fn kolmogorov_smirnov_applies(sample_size: usize) -> (applies: bool)
    ensures
        applies == (sample_size > SMALL_SAMPLE),
{
    sample_size > SMALL_SAMPLE
}

/// The degrees of freedom of the confidence interval of the mean of a
/// sample: one less than its size, or nothing for a sample that has no
/// deviation to estimate.
pub fn interval_freedom(sample_size: usize) -> (freedom: Option<usize>)
    ensures
        freedom == if sample_size >= 2 {
            Some((sample_size - 1) as usize)
        } else {
            None
        },
{
    if sample_size >= 2 {
        Some(sample_size - 1)
    } else {
        None
    }
}

} // verus!
