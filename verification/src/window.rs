//! Bounded FIFO window of telemetry samples and its stability test.

use crate::stats::deviations;
use crate::stats::int_seq;
use crate::stats::is_stable_window;
use crate::stats::lemma_scaled_variance_by_deviations;
use crate::stats::lemma_sum_deviations;
use crate::stats::lemma_sum_sq_ge_elem;
use crate::stats::scaled_variance;
use crate::stats::sum;
use crate::stats::sum_sq;
use vstd::arithmetic::div_mod::lemma_fundamental_div_mod;
use vstd::prelude::*;

verus! {

/// Capacity of the sliding window: once this many samples are held,
/// each push evicts the oldest sample first.
pub const WINDOW_CAPACITY: usize = 30;

/// A deviation from the truncated mean beyond this bound already forces
/// the population variance above one, so the exact computation only
/// ever squares small numbers.
pub const SPREAD_LIMIT: u64 = 100;

/// What one push does to the model of the window: append, evicting the
/// oldest sample first when the window is at capacity.
pub open spec fn spec_push(w: Seq<u64>, x: u64) -> Seq<u64> {
    if w.len() < WINDOW_CAPACITY as int {
        w.push(x)
    } else {
        w.subrange(1, w.len() as int).push(x)
    }
}

/// The window that results from pushing a whole history of samples into
/// an initially empty window: the most recent `WINDOW_CAPACITY` of them.
pub open spec fn window_of(history: Seq<u64>) -> Seq<u64> {
    if history.len() <= WINDOW_CAPACITY as int {
        history
    } else {
        history.subrange(history.len() - WINDOW_CAPACITY as int, history.len() as int)
    }
}

/// For every history of pushes, the window holds exactly the most recent
/// `WINDOW_CAPACITY` samples: its length never exceeds the capacity, and
/// once the capacity is exceeded the earliest samples are gone.
pub proof fn lemma_window_of_push(history: Seq<u64>, x: u64)
    ensures
        window_of(history.push(x)) == spec_push(window_of(history), x),
        window_of(history.push(x)).len() <= WINDOW_CAPACITY as int,
{
    if history.len() < WINDOW_CAPACITY as int {
        assert(window_of(history.push(x)) =~= window_of(history).push(x));
    } else {
        assert(window_of(history.push(x)) =~= window_of(history).subrange(
            1,
            window_of(history).len() as int,
        ).push(x));
    }
}

/// Ordered, bounded sequence of samples; insertion order is
/// chronological order.
pub struct SlidingWindow {
    samples: Vec<u64>,
}

impl View for SlidingWindow {
    type V = Seq<u64>;

    closed spec fn view(&self) -> Seq<u64> {
        self.samples@
    }
}

impl SlidingWindow {
    /// The window never holds more than `WINDOW_CAPACITY` samples.
    pub open spec fn wf(&self) -> bool {
        self@.len() <= WINDOW_CAPACITY as int
    }

    /// An empty window.
    pub fn new() -> (w: Self)
        ensures
            w@ == Seq::<u64>::empty(),
            w.wf(),
    {
        SlidingWindow { samples: Vec::new() }
    }

    /// How many samples are currently held.
    pub fn len(&self) -> (n: usize)
        ensures
            n == self@.len(),
    {
        self.samples.len()
    }

    /// Whether the window is at capacity.
    pub fn is_full(&self) -> (r: bool)
        ensures
            r == (self@.len() == WINDOW_CAPACITY as int),
    {
        self.samples.len() == WINDOW_CAPACITY
    }

    /// The sample at position `i`, oldest first.
    pub fn sample_at(&self, i: usize) -> (x: u64)
        requires
            i < self@.len(),
        ensures
            x == self@[i as int],
    {
        self.samples[i]
    }

    /// Append a sample; when the window is full the oldest sample is
    /// evicted first, preserving the chronological order of the rest.
    pub fn push(&mut self, x: u64)
        requires
            old(self).wf(),
        ensures
            final(self).wf(),
            final(self)@ == spec_push(old(self)@, x),
    {
        if self.samples.len() == WINDOW_CAPACITY {
            self.samples.remove(0);
            assert(self.samples@ =~= old(self)@.subrange(1, old(self)@.len() as int));
        }
        self.samples.push(x);
    }

    /// Empty the window.
    pub fn clear(&mut self)
        ensures
            final(self)@ == Seq::<u64>::empty(),
            final(self).wf(),
    {
        self.samples.clear();
    }

    /// The exact scaled variance of the held samples, as a pair
    /// `(a, b)` with `a - b == n^2 * variance`, or `None` when the
    /// samples are spread so widely that the variance certainly exceeds
    /// one. `Some` is always returned for a stable window.
    pub fn variance_parts(&self) -> (r: Option<(u64, u64)>)
        requires
            self.wf(),
            self@.len() > 0,
        ensures
            match r {
                Some(parts) => parts.0 - parts.1 == scaled_variance(self@) && parts.0 <= 9000000
                    && parts.1 < 900,
                None => !is_stable_window(self@),
            },
    {
        let n = self.samples.len();
        let ghost w = self@;

        // First pass: the exact sum of the samples.
        let mut total: u128 = 0;
        let mut i: usize = 0;
        while i < n
            invariant
                i <= n,
                n == w.len(),
                n <= WINDOW_CAPACITY,
                self@ == w,
                n == self.samples@.len(),
                total as int == sum(int_seq(w.take(i as int))),
                total as int <= (i as int) * 0xffff_ffff_ffff_ffff,
            decreases n - i,
        {
            proof {
                assert(int_seq(w.take(i as int + 1)).drop_last() =~= int_seq(w.take(i as int)));
                assert(int_seq(w.take(i as int + 1)).last() == w[i as int] as int);
            }
            total = total + self.samples[i] as u128;
            i = i + 1;
        }
        proof {
            assert(w.take(n as int) =~= w);
        }

        // The truncated mean: every sample of a stable window lies
        // within `SPREAD_LIMIT` of it.
        let q: u128 = total / (n as u128);
        let r: u128 = total % (n as u128);
        let ghost qi = q as int;
        proof {
            lemma_fundamental_div_mod(total as int, n as int);
            lemma_sum_deviations(w, qi);
            assert(sum(deviations(w, qi)) == r as int);
            assert(r < n);
        }

        // Second pass: the exact sum of squared deviations, unless one
        // deviation alone already rules stability out.
        let mut sq_acc: u64 = 0;
        let mut j: usize = 0;
        while j < n
            invariant
                j <= n,
                n == w.len(),
                0 < n <= WINDOW_CAPACITY,
                self@ == w,
                n == self.samples@.len(),
                q as int == qi,
                sum(deviations(w, qi)) == r as int,
                r < n,
                sq_acc as int == sum_sq(deviations(w, qi).take(j as int)),
                sq_acc as int <= (j as int) * 10000,
            decreases n - j,
        {
            let x = self.samples[j] as u128;
            let d: u128 = if x >= q {
                x - q
            } else {
                q - x
            };
            let ghost dev = deviations(w, qi);
            let ghost di = dev[j as int];
            proof {
                assert(di == w[j as int] - qi);
                assert(d as int == if di >= 0 {
                    di
                } else {
                    -di
                });
            }
            if d > SPREAD_LIMIT as u128 {
                // One sample deviates by more than SPREAD_LIMIT from the
                // truncated mean: the scaled variance exceeds n * n.
                proof {
                    lemma_sum_sq_ge_elem(dev, j as int);
                    assert(di * di > 10000) by (nonlinear_arith)
                        requires
                            di > 100 || di < -100,
                    ;
                    lemma_scaled_variance_by_deviations(w, qi);
                    let nn = n as int;
                    assert(nn * sum_sq(dev) - (r as int) * (r as int) >= nn * nn)
                        by (nonlinear_arith)
                        requires
                            1 <= nn <= 30,
                            sum_sq(dev) > 10000,
                            0 <= r < nn,
                    ;
                }
                return None;
            }
            proof {
                assert(dev.take(j as int + 1).drop_last() =~= dev.take(j as int));
                assert(dev.take(j as int + 1).last() == di);
                assert(di * di == (d as int) * (d as int) && di * di <= 10000)
                    by (nonlinear_arith)
                    requires
                        0 <= d <= 100,
                        d as int == if di >= 0 {
                            di
                        } else {
                            -di
                        },
                ;
                assert((d * d) as u64 as int == di * di);
            }
            sq_acc = sq_acc + (d * d) as u64;
            j = j + 1;
        }
        proof {
            let dev = deviations(w, qi);
            assert(dev.take(n as int) =~= dev);
            lemma_scaled_variance_by_deviations(w, qi);
            assert((n as int) * (sq_acc as int) <= 9000000) by (nonlinear_arith)
                requires
                    0 <= sq_acc as int <= 300000,
                    0 < n <= 30,
            ;
            assert((r as int) * (r as int) < 900) by (nonlinear_arith)
                requires
                    0 <= r < n <= 30,
            ;
        }
        let a: u64 = (n as u64) * sq_acc;
        let b: u64 = (r as u64) * (r as u64);
        Some((a, b))
    }

    /// The stability test: population standard deviation of the held
    /// samples strictly below one.
    pub fn is_stable(&self) -> (r: bool)
        requires
            self.wf(),
            self@.len() > 0,
        ensures
            r == is_stable_window(self@),
    {
        let n = self.samples.len() as u64;
        proof {
            assert((n as int) * (n as int) <= 900) by (nonlinear_arith)
                requires
                    0 < n <= 30,
            ;
        }
        let nn: u64 = n * n;
        match self.variance_parts() {
            None => false,
            Some((a, b)) => a < b + nn,
        }
    }
}

} // verus!
