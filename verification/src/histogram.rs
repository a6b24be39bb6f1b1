//! The number of bins of a histogram.

use vstd::arithmetic::logarithm::{lemma_log0, lemma_log_is_ordered, lemma_log_nonnegative, lemma_log_s, log};
use vstd::prelude::*;

verus! {

/// The bin count for `y_count` observations: `3.222 * d + 1` rounded down,
/// where `d` is the decimal order of magnitude of `y_count`, and no bin at
/// all for an empty sample.
pub open spec fn best_bins(y_count: nat) -> nat {
    if y_count == 0 {
        0
    } else {
        ((3222 * log(10, y_count as int) + 1000) / 1000) as nat
    }
}

/// The largest 64-bit number has twenty decimal digits.
proof fn lemma_order_of_u64_max()
    ensures
        log(10, 18446744073709551615) == 19,
{
    lemma_log_s(10, 18446744073709551615);
    lemma_log_s(10, 1844674407370955161);
    lemma_log_s(10, 184467440737095516);
    lemma_log_s(10, 18446744073709551);
    lemma_log_s(10, 1844674407370955);
    lemma_log_s(10, 184467440737095);
    lemma_log_s(10, 18446744073709);
    lemma_log_s(10, 1844674407370);
    lemma_log_s(10, 184467440737);
    lemma_log_s(10, 18446744073);
    lemma_log_s(10, 1844674407);
    lemma_log_s(10, 184467440);
    lemma_log_s(10, 18446744);
    lemma_log_s(10, 1844674);
    lemma_log_s(10, 184467);
    lemma_log_s(10, 18446);
    lemma_log_s(10, 1844);
    lemma_log_s(10, 184);
    lemma_log_s(10, 18);
    lemma_log0(10, 1);
}

/// Computes [`best_bins`].
pub fn find_best_bins(y_count: usize) -> (bins: usize)
    ensures
        bins == best_bins(y_count as nat),
{
    if y_count == 0 {
        return 0;
    }
    proof {
        lemma_order_of_u64_max();
        lemma_log_is_ordered(10, y_count as int, 18446744073709551615);
    }
    let mut rest: usize = y_count;
    let mut order: usize = 0;
    while rest >= 10
        invariant
            rest >= 1,
            order + log(10, rest as int) == log(10, y_count as int),
            log(10, y_count as int) <= 19,
        decreases rest,
    {
        proof {
            lemma_log_s(10, rest as int);
            lemma_log_nonnegative(10, rest as int / 10);
        }
        rest = rest / 10;
        order = order + 1;
    }
    proof {
        lemma_log0(10, rest as int);
    }
    (3222 * order + 1000) / 1000
}

} // verus!
