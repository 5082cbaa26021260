//! The window of one channel: a ring of squared samples with their running sum.

use crate::math::{
    floor_sqrt, is_floor_sqrt, isqrt, lemma_sum_bounds, lemma_sum_drop_first, lemma_sum_prepend,
    lemma_sum_push, mean_of, sum_of,
};
use crate::settings::{Level, Wave};
use std::collections::VecDeque;
use vstd::prelude::*;

verus! {

/// A window of `n` slots that has heard nothing yet.
pub open spec fn silence(n: nat) -> Seq<int> {
    Seq::new(n, |i: int| 0int)
}

/// The level of a window: the square root of the mean of its slots, rounded down.
pub open spec fn rms_of(s: Seq<int>) -> int {
    floor_sqrt(mean_of(s))
}

/// The slots after the sample `x` has entered: the oldest slot leaves, the square of `x`
/// becomes the newest. A window without slots stays as it is.
pub open spec fn pushed(s: Seq<int>, x: int) -> Seq<int> {
    if s.len() == 0 {
        s
    } else {
        s.drop_first().push(x * x)
    }
}

/// The slots after the samples `xs` have entered, first to last.
pub open spec fn fed(s: Seq<int>, xs: Seq<int>) -> Seq<int>
    decreases xs.len(),
{
    if xs.len() == 0 {
        s
    } else {
        pushed(fed(s, xs.drop_last()), xs.last())
    }
}

/// The square of each sample of `xs`.
pub open spec fn squares(xs: Seq<int>) -> Seq<int> {
    Seq::new(xs.len(), |i: int| xs[i] * xs[i])
}

/// The slots after a change of the window's length to `n`. A shorter window keeps its `n`
/// newest slots. A longer one gets new slots in front of its oldest, each holding the mean
/// square of the window as it was.
pub open spec fn resized(s: Seq<int>, n: nat) -> Seq<int> {
    if n <= s.len() {
        s.subrange(s.len() - n, s.len() as int)
    } else {
        Seq::new((n - s.len()) as nat, |i: int| mean_of(s)) + s
    }
}

/// Letting one more sample in after `xs` is one more step.
pub proof fn lemma_fed_push(s: Seq<int>, xs: Seq<int>, x: int)
    ensures
        fed(s, xs.push(x)) == pushed(fed(s, xs), x),
{
    assert(xs.push(x).drop_last() =~= xs);
}

/// Putting the mean square of a window in front of it leaves the mean square as it was.
pub proof fn lemma_padding_keeps_mean(s: Seq<int>)
    ensures
        mean_of(seq![mean_of(s)] + s) == mean_of(s),
{
    lemma_sum_prepend(mean_of(s), s);
    if s.len() > 0 {
        let n = s.len() as int;
        let total = sum_of(s);
        assert((total + total / n) / (n + 1) == total / n) by (nonlinear_arith)
            requires
                n > 0,
        ;
    }
}

/// The ring of squared samples of one channel, oldest first, and their sum.
#[derive(Debug)]
pub struct Window {
    /// The squares of the samples in the window, the oldest at the front.
    sample_squares: VecDeque<u64>,
    /// The sum of all of `sample_squares`.
    sum: u128,
}

impl View for Window {
    type V = Seq<int>;

    /// The slots, oldest first.
    closed spec fn view(&self) -> Seq<int> {
        self.sample_squares@.map_values(|v: u64| v as int)
    }
}

impl Clone for Window {
    /// A window with the same slots.
    fn clone(&self) -> (w: Self)
        ensures
            w@ == self@,
            w.wf() == self.wf(),
    {
        Window { sample_squares: self.sample_squares.clone(), sum: self.sum }
    }
}

impl Window {
    /// The running sum is the sum of the slots.
    pub closed spec fn wf(&self) -> bool {
        self.sum as int == sum_of(self@)
    }

    /// Every slot is a natural number that a `u64` holds, and so is their mean.
    pub proof fn lemma_slots_are_bounded(&self)
        ensures
            forall|i: int| 0 <= i < self@.len() ==> 0 <= #[trigger] self@[i] <= u64::MAX,
            0 <= sum_of(self@) <= self@.len() * u64::MAX,
            0 <= mean_of(self@) <= u64::MAX,
    {
        lemma_sum_bounds(self@, 0, u64::MAX as int);
        if self@.len() > 0 {
            let total = sum_of(self@);
            let n = self@.len() as int;
            assert(0 <= total / n <= u64::MAX) by (nonlinear_arith)
                requires
                    0 <= total <= n * u64::MAX,
                    n > 0,
            ;
        }
    }

    /// A window of `n_window_samples` slots, all zero.
    pub fn new(n_window_samples: usize) -> (w: Self)
        ensures
            w.wf(),
            w@ == silence(n_window_samples as nat),
    {
        let mut w = Window { sample_squares: VecDeque::new(), sum: 0 };
        w.fill_with_silence(n_window_samples);
        w
    }

    fn fill_with_silence(&mut self, n: usize)
        requires
            old(self)@.len() == 0,
            old(self).sum == 0,
        ensures
            final(self).wf(),
            final(self)@ == silence(n as nat),
    {
        for i in 0..n
            invariant
                self.sum == 0,
                self@ == silence(i as nat),
        {
            let ghost before = self@;
            self.sample_squares.push_back(0);
            assert(self@ =~= before.push(0));
        }
        proof {
            lemma_sum_bounds(self@, 0, 0);
        }
    }

    /// The number of slots.
    pub fn len(&self) -> (n: usize)
        ensures
            n == self@.len(),
    {
        self.sample_squares.len()
    }

    /// Sets every slot and the sum to zero. The length stays.
    pub fn reset(&mut self)
        ensures
            final(self).wf(),
            final(self)@ == silence(old(self)@.len()),
    {
        let n = self.sample_squares.len();
        self.sample_squares.clear();
        self.sum = 0;
        self.fill_with_silence(n);
    }

    /// Changes the number of slots to `n_window_samples`: takes the oldest slots away, or
    /// puts slots that hold the current mean square in front of the oldest.
    pub fn set_len(&mut self, n_window_samples: usize)
        requires
            old(self).wf(),
        ensures
            final(self).wf(),
            final(self)@ == resized(old(self)@, n_window_samples as nat),
            final(self)@.len() == n_window_samples,
            n_window_samples == old(self)@.len() ==> final(self)@ == old(self)@,
    {
        let len = self.sample_squares.len();
        let ghost before = self@;
        if len > n_window_samples {
            let diff = len - n_window_samples;
            for i in 0..diff
                invariant
                    self.wf(),
                    before.len() == len,
                    diff <= len,
                    self@ == before.subrange(i as int, len as int),
            {
                self.pop_front();
            }
        } else if len < n_window_samples {
            let diff = n_window_samples - len;
            for i in 0..diff
                invariant
                    self.wf(),
                    before.len() == len,
                    len + diff == n_window_samples,
                    self@ == Seq::new(i as nat, |k: int| mean_of(before)) + before,
                    mean_of(self@) == mean_of(before),
            {
                let ghost cur = self@;
                let mean = self.calc_mean_square();
                proof {
                    self.lemma_slots_are_bounded();
                    lemma_sum_prepend(mean as int, cur);
                    lemma_padding_keeps_mean(cur);
                    assert(cur.len() * u64::MAX + u64::MAX <= u128::MAX) by (nonlinear_arith)
                        requires
                            cur.len() <= usize::MAX,
                    ;
                }
                self.sample_squares.push_front(mean);
                self.sum = self.sum + mean as u128;
                assert(self@ =~= seq![mean as int] + cur);
            }
        }
    }

    /// Takes the oldest slot away and its value off the sum.
    fn pop_front(&mut self)
        requires
            old(self).wf(),
            old(self)@.len() > 0,
        ensures
            final(self).wf(),
            final(self)@ == old(self)@.drop_first(),
    {
        proof {
            lemma_sum_drop_first(self@);
            self.lemma_slots_are_bounded();
        }
        let ghost before = self@;
        let removed_sample_square = self.sample_squares.pop_front().unwrap();
        assert(self@ =~= before.drop_first());
        proof {
            lemma_sum_bounds(self@, 0, u64::MAX as int);
        }
        self.sum = self.sum - removed_sample_square as u128;
    }

    /// Squares the sample, makes the square the newest slot and adds it to the sum.
    fn push_back(&mut self, new_sample: Wave)
        requires
            old(self).wf(),
            old(self)@.len() < usize::MAX,
        ensures
            final(self).wf(),
            final(self)@ == old(self)@.push(new_sample * new_sample),
    {
        let wide = new_sample as i64;
        assert(0 <= wide * wide <= 0x4000_0000_0000_0000) by (nonlinear_arith)
            requires
                -0x8000_0000 <= wide <= 0x7FFF_FFFF,
        ;
        let new_sample_square = (wide * wide) as u64;
        let ghost before = self@;
        proof {
            self.lemma_slots_are_bounded();
            lemma_sum_push(before, new_sample_square as int);
            assert(before.len() * u64::MAX + u64::MAX <= u128::MAX) by (nonlinear_arith)
                requires
                    before.len() <= usize::MAX,
            ;
        }
        self.sample_squares.push_back(new_sample_square);
        self.sum = self.sum + new_sample_square as u128;
        assert(self@ =~= before.push(new_sample * new_sample));
    }

    /// The mean of the slots, rounded down; 0 where there is no slot.
    fn calc_mean_square(&self) -> (mean: u64)
        requires
            self.wf(),
        ensures
            mean == mean_of(self@),
    {
        let len = self.sample_squares.len();
        if len == 0 {
            return 0;
        }
        proof {
            self.lemma_slots_are_bounded();
        }
        (self.sum / len as u128) as u64
    }

    /// The level of the window as it is.
    fn calc_rms(&self) -> (rms: Level)
        requires
            self.wf(),
        ensures
            rms == rms_of(self@),
            is_floor_sqrt(rms as int, mean_of(self@)),
    {
        isqrt(self.calc_mean_square())
    }

    /// Lets the next sample in and returns the level of the window with it: the oldest slot
    /// leaves, the square of `new_sample` enters as the newest, and the level is the square
    /// root of the mean of the slots, rounded down. A window without slots stays as it is
    /// and the level is 0.
    pub fn next_rms(&mut self, new_sample: Wave) -> (rms: Level)
        requires
            old(self).wf(),
        ensures
            final(self).wf(),
            final(self)@ == pushed(old(self)@, new_sample as int),
            rms == rms_of(final(self)@),
            is_floor_sqrt(rms as int, mean_of(final(self)@)),
            old(self)@.len() == 0 ==> rms == 0,
    {
        if self.sample_squares.len() == 0 {
            proof {
                crate::math::lemma_floor_sqrt_of_square(0);
            }
            return 0;
        }
        self.pop_front();
        self.push_back(new_sample);
        self.calc_rms()
    }
}

} // verus!
