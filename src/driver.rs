use vstd::prelude::*;
use crate::percentile::{percentiles, PercentileError, summary_of, has_nan};

verus! {

/// Elements in each of the three arrays of a trial.
pub const ARRAY_LEN: usize = 10000000;

/// Trials in one run.
pub const TRIAL_COUNT: usize = 1000;

/// Seed of the random source that fills the arrays.
pub const SEED: u64 = 19140148;

/// Bytes that one triad moves over arrays of `len` elements of `elem_bytes`
/// bytes each: two arrays read and one written.
pub open spec fn transfer_bytes(len: nat, elem_bytes: nat) -> nat {
    3 * len * elem_bytes
}

/// The byte volume of one triad, or `None` where it does not fit in a `u64`.
pub fn bytes_moved(len: usize, elem_bytes: usize) -> (r: Option<u64>)
    ensures
        transfer_bytes(len as nat, elem_bytes as nat) <= u64::MAX ==> r == Some(
            transfer_bytes(len as nat, elem_bytes as nat) as u64,
        ),
        transfer_bytes(len as nat, elem_bytes as nat) > u64::MAX ==> r is None,
{
    let per_array = (len as u64).checked_mul(elem_bytes as u64);
    match per_array {
        Some(n) => {
            let r = n.checked_mul(3);
            proof {
                assert(3 * len * elem_bytes == 3 * (len * elem_bytes)) by (nonlinear_arith);
            }
            r
        },
        None => {
            proof {
                assert(3 * len * elem_bytes >= len * elem_bytes) by (nonlinear_arith);
            }
            None
        },
    }
}

/// The throughput samples of a run, in the order the trials produced them,
/// each an IEEE-754 binary64 value held as its bit pattern.
pub struct SampleLog {
    samples: Vec<u64>,
    target: usize,
}

impl SampleLog {
    /// The samples recorded so far.
    pub closed spec fn view(&self) -> Seq<u64> {
        self.samples@
    }

    /// The number of trials the run is made of.
    pub closed spec fn target(&self) -> nat {
        self.target as nat
    }

    /// Never more samples than trials.
    pub closed spec fn wf(&self) -> bool {
        self.samples@.len() <= self.target
    }

    /// An empty log for a run of `target` trials.
    pub fn new(target: usize) -> (r: SampleLog)
        ensures
            r.wf(),
            r@ == Seq::<u64>::empty(),
            r.target() == target,
    {
        SampleLog { samples: Vec::new(), target }
    }

    /// All trials of the run have been recorded.
    pub fn is_full(&self) -> (r: bool)
        requires
            self.wf(),
        ensures
            r == (self@.len() == self.target()),
    {
        self.samples.len() == self.target
    }

    /// The number of samples recorded so far.
    pub fn len(&self) -> (r: usize)
        ensures
            r == self@.len(),
    {
        self.samples.len()
    }

    /// Appends the sample of the trial that just ended.
    pub fn record(&mut self, sample: u64)
        requires
            old(self).wf(),
            old(self)@.len() < old(self).target(),
        ensures
            final(self).wf(),
            final(self)@ == old(self)@.push(sample),
            final(self).target() == old(self).target(),
    {
        self.samples.push(sample);
    }

    /// The samples recorded so far, in order.
    pub fn samples(&self) -> (r: &Vec<u64>)
        ensures
            r@ == self@,
    {
        &self.samples
    }

    /// The percentile summary of a complete run.
    pub fn summary(&self) -> (r: Result<(u64, u64, u64, u64, u64, u64), PercentileError>)
        requires
            self.wf(),
            self@.len() == self.target(),
        ensures
            self@.len() == 0 ==> r == Err::<(u64, u64, u64, u64, u64, u64), PercentileError>(
                PercentileError::EmptyInput,
            ),
            self@.len() > 0 && has_nan(self@) ==> r == Err::<(u64, u64, u64, u64, u64, u64), PercentileError>(
                PercentileError::InvalidValue,
            ),
            self@.len() > 0 && !has_nan(self@) ==> r == Ok::<(u64, u64, u64, u64, u64, u64), PercentileError>(
                summary_of(self@),
            ),
    {
        percentiles(&self.samples)
    }
}

} // verus!
