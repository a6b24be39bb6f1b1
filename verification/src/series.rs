//! A series of samples with its running total, and the fixed-point mean.

use vstd::prelude::*;

verus! {

/// The fixed-point unit: a metric of value `m` stands for `m / SCALE`.
pub const SCALE: u64 = 1_000_000;

/// The sum of the samples.
pub open spec fn total(samples: Seq<u32>) -> nat
    decreases samples.len(),
{
    if samples.len() == 0 {
        0
    } else {
        total(samples.drop_last()) + samples.last() as nat
    }
}

/// The mean of the samples in units of `1 / SCALE`, rounded down. The mean
/// of no samples is zero.
pub open spec fn mean(samples: Seq<u32>) -> nat {
    if samples.len() == 0 {
        0
    } else {
        (total(samples) * SCALE as nat) / samples.len()
    }
}

/// No sample exceeds `u32::MAX`, so the sum is at most that many times the
/// number of samples.
pub proof fn lemma_total_bounded(samples: Seq<u32>)
    ensures
        total(samples) <= samples.len() * u32::MAX,
    decreases samples.len(),
{
    if samples.len() > 0 {
        lemma_total_bounded(samples.drop_last());
        assert(samples.len() * u32::MAX == (samples.len() - 1) * u32::MAX + u32::MAX)
            by (nonlinear_arith);
    }
}

/// Where every sample is at most `limit`, so is the mean.
pub proof fn lemma_mean_bounded(samples: Seq<u32>, limit: nat)
    requires
        forall|i: int| 0 <= i < samples.len() ==> samples[i] <= limit,
    ensures
        total(samples) <= samples.len() * limit,
        mean(samples) <= limit * SCALE as nat,
    decreases samples.len(),
{
    if samples.len() > 0 {
        let front = samples.drop_last();
        lemma_mean_bounded(front, limit);
        let n = samples.len();
        assert(n * limit == (n - 1) * limit + limit) by (nonlinear_arith);
        let sum = total(samples);
        assert((sum * SCALE as nat) / n <= limit * SCALE as nat) by (nonlinear_arith)
            requires
                sum <= n * limit,
                n > 0,
        {
            assert(sum * SCALE as nat <= (limit * SCALE as nat) * n);
            vstd::arithmetic::div_mod::lemma_div_is_ordered(
                (sum * SCALE as nat) as int,
                ((limit * SCALE as nat) * n) as int,
                n as int,
            );
            vstd::arithmetic::div_mod::lemma_div_multiples_vanish(
                (limit * SCALE as nat) as int,
                n as int,
            );
        }
    }
}

/// The samples of one metric, in the order in which they were taken.
#[derive(Debug)]
pub struct Series {
    samples: Vec<u32>,
    sum: u128,
}

impl View for Series {
    type V = Seq<u32>;

    closed spec fn view(&self) -> Seq<u32> {
        self.samples@
    }
}

impl Series {
    /// The running total is the sum of the samples.
    pub closed spec fn wf(&self) -> bool {
        self.sum == total(self.samples@)
    }

    /// A series without samples.
    pub fn new() -> (series: Series)
        ensures
            series.wf(),
            series@ == Seq::<u32>::empty(),
    {
        Series { samples: Vec::new(), sum: 0 }
    }

    /// Appends a sample.
    pub fn push(&mut self, sample: u32)
        requires
            old(self).wf(),
        ensures
            final(self).wf(),
            final(self)@ == old(self)@.push(sample),
    {
        self.samples.push(sample);
        proof {
            assert(self.samples@.drop_last() == old(self).samples@);
            lemma_total_bounded(old(self).samples@);
            let count = old(self).samples@.len();
            assert(count == old(self).samples.len());
            assert(count * u32::MAX <= 0xffff_ffff_ffff_ffff * 0xffff_ffff) by (nonlinear_arith)
                requires
                    count <= 0xffff_ffff_ffff_ffff,
            ;
        }
        self.sum = self.sum + sample as u128;
    }

    /// Forgets every sample.
    pub fn clear(&mut self)
        ensures
            final(self).wf(),
            final(self)@ == Seq::<u32>::empty(),
    {
        self.samples.clear();
        self.sum = 0;
    }

    /// The number of samples.
    pub fn len(&self) -> (count: usize)
        ensures
            count == self@.len(),
    {
        self.samples.len()
    }

    /// The samples.
    pub fn samples(&self) -> (samples: &Vec<u32>)
        ensures
            samples@ == self@,
    {
        &self.samples
    }

    /// The fixed-point mean of the samples, zero where there is none.
    pub fn mean(&self) -> (mean: u64)
        requires
            self.wf(),
        ensures
            mean == self::mean(self@),
    {
        let count = self.samples.len();
        if count == 0 {
            return 0;
        }
        proof {
            lemma_total_bounded(self.samples@);
            lemma_mean_bounded(self.samples@, u32::MAX as nat);
            let length = self.samples@.len();
            assert(length * u32::MAX <= 0xffff_ffff_ffff_ffff * 0xffff_ffff) by (nonlinear_arith)
                requires
                    length <= 0xffff_ffff_ffff_ffff,
            ;
        }
        let scaled: u128 = self.sum * (SCALE as u128);
        (scaled / (count as u128)) as u64
    }
}

} // verus!
