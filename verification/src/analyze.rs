//! What the analyzer takes from the capture ring, and where a displayed
//! window starts in it.

use vstd::prelude::*;
use vstd::arithmetic::div_mod::{
    lemma_add_mod_noop, lemma_fundamental_div_mod, lemma_fundamental_div_mod_converse,
    lemma_mod_add_multiples_vanish, lemma_mod_bound, lemma_small_mod,
};
use vstd::arithmetic::mul::{lemma_mul_is_commutative, lemma_mul_is_distributive_add};
use crate::scalar::Scalar;

verus! {

/// Which plot the observer shows.
#[derive(Clone, Copy, Debug, PartialEq, Eq, Structural)]
pub enum PlotView {
    TimeSeries,
    Spectrum,
    Window,
}

/// How the time-series plot is aligned.
#[derive(Clone, Copy, Debug, PartialEq, Eq, Structural)]
pub enum TimeSeriesTracking {
    /// The window starts at the oldest captured sample.
    Static,
    /// The window starts a tracked number of samples before the newest one.
    Following,
}

/// The slot reached from `start` after `step` slots of a ring of `size`.
pub open spec fn ring_slot(start: int, step: int, size: int) -> int {
    (start + step) % size
}

/// A step shorter than the ring wraps at most once: the slot reached is the
/// start's own slot plus the step, less the ring's size where that runs
/// past the end.
pub proof fn lemma_ring_slot(start: int, step: int, size: int)
    requires
        0 <= start,
        0 <= step < size,
    ensures
        ring_slot(start, step, size) == if start % size + step < size {
            start % size + step
        } else {
            start % size + step - size
        },
{
    let q = start / size;
    let r = start % size;
    lemma_fundamental_div_mod(start, size);
    lemma_mod_bound(start, size);
    lemma_mul_is_commutative(size, q);
    if r + step < size {
        lemma_fundamental_div_mod_converse(start + step, size, q, r + step);
    } else {
        lemma_mul_is_distributive_add(size, q, 1);
        lemma_mul_is_commutative(size, q + 1);
        lemma_fundamental_div_mod_converse(start + step, size, q + 1, r + step - size);
    }
}

/// Stepping on from a position or from the slot it falls in reaches the
/// same slot.
pub proof fn lemma_ring_slot_from_slot(start: int, step: int, size: int)
    requires
        0 <= start,
        0 <= step,
        0 < size,
    ensures
        ring_slot(start % size, step, size) == ring_slot(start, step, size),
{
    lemma_mod_bound(start, size);
    lemma_small_mod((start % size) as nat, size as nat);
    lemma_add_mod_noop(start, step, size);
    lemma_add_mod_noop(start % size, step, size);
}

/// Two positions less than a ring's size apart fall in different slots.
pub proof fn lemma_slots_differ(earlier: int, later: int, size: int)
    requires
        0 <= earlier < later,
        later - earlier < size,
    ensures
        earlier % size != later % size,
{
    let qe = earlier / size;
    let ql = later / size;
    lemma_fundamental_div_mod(earlier, size);
    lemma_fundamental_div_mod(later, size);
    if earlier % size == later % size {
        assert(later - earlier == size * (ql - qe)) by (nonlinear_arith)
            requires
                later == size * ql + later % size,
                earlier == size * qe + earlier % size,
                earlier % size == later % size,
        ;
        assert(false) by (nonlinear_arith)
            requires
                0 < later - earlier < size,
                later - earlier == size * (ql - qe),
        ;
    }
}

/// A double-precision magnitude carried by its IEEE-754 bit pattern.
#[derive(Clone, Copy, Debug, PartialEq, Eq, Structural)]
pub struct Magnitude {
    pub bits: u64,
}

/// The bit pattern of positive infinity, the largest pattern of a value
/// above zero.
pub const INFINITY_BITS: u64 = 0x7FF0_0000_0000_0000;

impl Magnitude {
    /// Where the magnitude stands among the values above zero. The bit
    /// patterns of such values grow as the values do, so the rank of one is
    /// its pattern; whatever is not above zero (zero of either sign, a
    /// negative value, or no number at all) has rank 0.
    pub open spec fn spec_rank(self) -> u64 {
        if 0 < self.bits <= INFINITY_BITS {
            self.bits
        } else {
            0
        }
    }

    /// Wraps a bit pattern.
    pub fn from_bits(bits: u64) -> (m: Magnitude)
        ensures
            m.bits == bits,
    {
        Magnitude { bits }
    }

    /// Where the magnitude stands among the values above zero.
    #[verifier::when_used_as_spec(spec_rank)]
    pub fn rank(self) -> (r: u64)
        ensures
            r == self.spec_rank(),
    {
        if 0 < self.bits && self.bits <= INFINITY_BITS {
            self.bits
        } else {
            0
        }
    }
}

/// Whether `peak` is the first bin that holds the largest magnitude, that
/// magnitude being above zero.
pub open spec fn is_peak(magnitudes: Seq<Magnitude>, peak: int) -> bool {
    &&& 0 <= peak < magnitudes.len()
    &&& magnitudes[peak].rank() > 0
    &&& forall|i: int| 0 <= i < magnitudes.len() ==> (#[trigger] magnitudes[i]).rank() <= magnitudes[peak].rank()
    &&& forall|i: int| 0 <= i < peak ==> (#[trigger] magnitudes[i]).rank() < magnitudes[peak].rank()
}

/// Whether no bin holds a magnitude above zero.
pub open spec fn is_silent(magnitudes: Seq<Magnitude>) -> bool {
    forall|i: int| 0 <= i < magnitudes.len() ==> (#[trigger] magnitudes[i]).rank() == 0
}

/// The bin of the spectrum's peak: the first bin that holds the largest
/// magnitude. A spectrum with nothing above zero has no peak, and is not to
/// be normalized.
pub fn peak_bin<const SIZE: usize>(magnitudes: &[Magnitude; SIZE]) -> (peak: Option<usize>)
    ensures
        match peak {
            Some(bin) => is_peak(magnitudes@, bin as int),
            None => is_silent(magnitudes@),
        },
{
    let mut best: usize = 0;
    let mut best_rank: u64 = 0;
    let mut i: usize = 0;
    while i < SIZE
        invariant
            i <= SIZE,
            best_rank == 0 ==> best == 0,
            best_rank > 0 ==> best < i && magnitudes@[best as int].rank() == best_rank,
            forall|k: int| 0 <= k < i ==> (#[trigger] magnitudes@[k]).rank() <= best_rank,
            forall|k: int| 0 <= k < best ==> (#[trigger] magnitudes@[k]).rank() < best_rank,
        decreases SIZE - i,
    {
        let rank = magnitudes[i].rank();
        if rank > best_rank {
            best = i;
            best_rank = rank;
        }
        i += 1;
    }
    if best_rank > 0 {
        Some(best)
    } else {
        None
    }
}

/// A copy of one output channel of the capture ring, taken in one piece.
#[derive(Clone, Copy, Debug)]
pub struct Snapshot<const SIZE: usize> {
    /// The channel's samples, slot by slot.
    pub samples: [Scalar; SIZE],
    /// The slot that the next frame will overwrite: the oldest sample.
    pub write_index: usize,
    /// Frames recorded since the snapshot before this one.
    pub elapsed: usize,
}

impl<const SIZE: usize> Snapshot<SIZE> {
    /// The write index names a slot of the ring.
    pub open spec fn wf(self) -> bool {
        self.write_index < SIZE
    }

    /// The slot that lies `lag` samples before the write position.
    pub open spec fn spec_lagged_start(self, lag: int) -> int {
        (self.write_index + SIZE - lag % (SIZE as int)) % (SIZE as int)
    }

    /// The slot at which the displayed time series starts.
    pub open spec fn spec_series_start(self, tracking: TimeSeriesTracking, lag: int) -> int {
        match tracking {
            TimeSeriesTracking::Static => self.write_index as int,
            TimeSeriesTracking::Following => self.spec_lagged_start(lag),
        }
    }

    /// How many unwrap candidates a frequency refinement may look at.
    /// With no frame elapsed there is nothing to refine and the number is
    /// 0. Otherwise the candidates rise by one cycle per elapsed window, so
    /// of `elapsed + 2` of them one lies above any estimate below one cycle
    /// per frame; the number is that, held to what a `usize` takes.
    pub open spec fn spec_unwrap_limit(self) -> int {
        if self.elapsed == 0 {
            0
        } else if self.elapsed + 2 <= usize::MAX {
            self.elapsed + 2
        } else {
            usize::MAX as int
        }
    }

    /// How many unwrap candidates a frequency refinement may look at: none
    /// when no frame has elapsed, else two more than the frames elapsed.
    pub fn unwrap_limit(&self) -> (limit: usize)
        ensures
            limit == self.spec_unwrap_limit(),
    {
        if self.elapsed == 0 {
            0
        } else if self.elapsed <= usize::MAX - 2 {
            self.elapsed + 2
        } else {
            usize::MAX
        }
    }

    /// The ring read once around from `start`: sample `i` of the result is
    /// the one in slot `(start + i) mod SIZE`.
    pub fn window(&self, start: usize) -> (w: [Scalar; SIZE])
        ensures
            forall|i: int| 0 <= i < SIZE ==> w@[i] == self.samples@[ring_slot(start as int, i, SIZE as int)],
    {
        let mut w = [Scalar::zero(); SIZE];
        if SIZE == 0 {
            return w;
        }
        let base: usize = start % SIZE;
        let mut i: usize = 0;
        while i < SIZE
            invariant
                0 < SIZE,
                i <= SIZE,
                base == start % SIZE,
                forall|k: int| 0 <= k < i ==> w@[k] == self.samples@[ring_slot(start as int, k, SIZE as int)],
            decreases SIZE - i,
        {
            proof {
                lemma_ring_slot(start as int, i as int, SIZE as int);
            }
            let slot: usize = if i < SIZE - base {
                base + i
            } else {
                i - (SIZE - base)
            };
            w[i] = self.samples[slot];
            i += 1;
        }
        w
    }

    /// The slot `lag` samples before the write position, around the ring.
    pub fn lagged_start(&self, lag: usize) -> (start: usize)
        requires
            self.wf(),
        ensures
            start == self.spec_lagged_start(lag as int),
            start < SIZE,
    {
        let back: usize = lag % SIZE;
        proof {
            let size = SIZE as int;
            let sum = self.write_index + size - back;
            if back <= self.write_index {
                lemma_fundamental_div_mod_converse(sum, size, 1, self.write_index - back);
            } else {
                lemma_fundamental_div_mod_converse(sum, size, 0, sum);
            }
        }
        if back <= self.write_index {
            self.write_index - back
        } else {
            SIZE - (back - self.write_index)
        }
    }

    /// Where the displayed time series starts: at the oldest sample when the
    /// view is static, `lag` samples before the write position when it
    /// follows the signal.
    pub fn series_start(&self, tracking: TimeSeriesTracking, lag: usize) -> (start: usize)
        requires
            self.wf(),
        ensures
            start == self.spec_series_start(tracking, lag as int),
            start < SIZE,
    {
        match tracking {
            TimeSeriesTracking::Static => self.write_index,
            TimeSeriesTracking::Following => self.lagged_start(lag),
        }
    }
}

/// The lagged start is `lag` samples before the write position: stepping
/// on from it by the lag, taken around the ring, reaches the write index.
pub proof fn lemma_lagged_start_precedes_write_index<const SIZE: usize>(snapshot: Snapshot<SIZE>, lag: int)
    requires
        snapshot.wf(),
        0 <= lag,
    ensures
        0 <= snapshot.spec_lagged_start(lag) < SIZE,
        ring_slot(snapshot.spec_lagged_start(lag), lag % (SIZE as int), SIZE as int) == snapshot.write_index,
{
    let size = SIZE as int;
    let back = lag % size;
    let written = snapshot.write_index as int;
    lemma_mod_bound(lag, size);
    lemma_mod_bound(written + size - back, size);
    lemma_ring_slot_from_slot(written + size - back, back, size);
    lemma_mod_add_multiples_vanish(written, size);
    lemma_small_mod(written as nat, size as nat);
}

} // verus!
