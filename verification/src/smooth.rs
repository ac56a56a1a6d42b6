//! Linear ramp generator used for every time-varying control value.
//!
//! The value converges linearly to the target over exactly
//! `smooth_length` calls to [`SmoothedValue::next`] after a new target is
//! set; with no steps remaining, `next` returns the value unchanged.

use vstd::prelude::*;

use crate::fixed::{div_trunc, SAT};

verus! {

#[derive(Clone, Copy, Debug)]
pub struct SmoothedValue {
    pub value: i64,
    pub target: i64,
    pub remaining_steps_to_target: usize,
    pub smooth_length: usize,
}

impl SmoothedValue {
    /// The value and the target stay within the engine's saturation
    /// range, and the ramp length is bounded.
    pub open spec fn wf(self) -> bool {
        &&& -SAT <= self.value <= SAT
        &&& -SAT <= self.target <= SAT
        &&& self.remaining_steps_to_target <= self.smooth_length
        &&& self.smooth_length <= 4294967295
    }

    /// A ramp at rest at `initial`.
    pub open spec fn fresh(initial: i64, smooth_length: usize) -> SmoothedValue {
        SmoothedValue {
            value: initial,
            target: initial,
            remaining_steps_to_target: 0,
            smooth_length: smooth_length,
        }
    }

    /// A ramp restarted from its current value toward `target`.
    pub open spec fn retargeted(s: SmoothedValue, target: i64) -> SmoothedValue {
        SmoothedValue {
            value: s.value,
            target: target,
            remaining_steps_to_target: s.smooth_length,
            smooth_length: s.smooth_length,
        }
    }

    /// The value returned by one call to [`Self::next`]: one truncating
    /// step of `(target - value) / remaining` toward the target, or the
    /// value unchanged when no steps remain.
    pub open spec fn next_value(s: SmoothedValue) -> int {
        if s.remaining_steps_to_target == 0 {
            s.value as int
        } else {
            s.value + div_trunc(s.target - s.value, s.remaining_steps_to_target as int)
        }
    }

    /// The whole state after one call to [`Self::next`].
    pub open spec fn stepped(s: SmoothedValue) -> SmoothedValue {
        SmoothedValue {
            value: Self::next_value(s) as i64,
            target: s.target,
            remaining_steps_to_target: if s.remaining_steps_to_target == 0 {
                0
            } else {
                (s.remaining_steps_to_target - 1) as usize
            },
            smooth_length: s.smooth_length,
        }
    }

    /// The state after `n` calls to [`Self::next`].
    pub open spec fn iterated(s: SmoothedValue, n: nat) -> SmoothedValue
        decreases n,
    {
        if n == 0 {
            s
        } else {
            Self::iterated(Self::stepped(s), (n - 1) as nat)
        }
    }

    /// One step lands between the current value and the target.
    pub proof fn lemma_next_value_bounds(s: SmoothedValue)
        requires
            s.wf(),
        ensures
            s.value <= s.target ==> s.value <= Self::next_value(s) <= s.target,
            s.target <= s.value ==> s.target <= Self::next_value(s) <= s.value,
            -SAT <= Self::next_value(s) <= SAT,
            Self::stepped(s).wf(),
    {
        if s.remaining_steps_to_target != 0 {
            let d: int = s.target - s.value;
            let n: int = s.remaining_steps_to_target as int;
            crate::fixed::lemma_div_trunc_bounds(d, n);
        }
    }

    pub fn new(initial: i64, smooth_length: usize) -> (r: Self)
        requires
            -SAT <= initial <= SAT,
            smooth_length <= 4294967295,
        ensures
            r == (SmoothedValue {
                value: initial,
                target: initial,
                remaining_steps_to_target: 0,
                smooth_length: smooth_length,
            }),
            r.wf(),
    {
        Self { value: initial, target: initial, remaining_steps_to_target: 0, smooth_length }
    }

    /// Restart the ramp from the current value toward `target`, over the
    /// configured number of steps.
    pub fn set_target(&mut self, target: i64)
        requires
            old(self).wf(),
            -SAT <= target <= SAT,
        ensures
            *final(self) == (SmoothedValue {
                value: old(self).value,
                target: target,
                remaining_steps_to_target: old(self).smooth_length,
                smooth_length: old(self).smooth_length,
            }),
            final(self).wf(),
    {
        self.target = target;
        self.remaining_steps_to_target = self.smooth_length;
    }

    /// Advance the ramp one step and return the updated value.
    pub fn next(&mut self) -> (r: i64)
        requires
            old(self).wf(),
        ensures
            r == Self::next_value(*old(self)),
            *final(self) == Self::stepped(*old(self)),
            final(self).wf(),
    {
        proof {
            Self::lemma_next_value_bounds(*old(self));
        }
        if self.remaining_steps_to_target == 0 {
            return self.value;
        }
        let diff: i64 = self.target - self.value;
        let n: i64 = self.remaining_steps_to_target as i64;
        let step: i64 = diff / n;
        self.value = self.value + step;
        self.remaining_steps_to_target = self.remaining_steps_to_target - 1;
        self.value
    }

    /// The ramp law: from any well-formed state with steps remaining,
    /// iterating [`Self::next`] that many times lands exactly on the
    /// target, because the final step divides the leftover distance by
    /// one.
    pub proof fn lemma_ramp_reaches_target(s: SmoothedValue)
        requires
            s.wf(),
            s.remaining_steps_to_target > 0,
        ensures
            Self::iterated(s, s.remaining_steps_to_target as nat).value == s.target,
        decreases s.remaining_steps_to_target,
    {
        Self::lemma_next_value_bounds(s);
        let t: SmoothedValue = Self::stepped(s);
        if s.remaining_steps_to_target == 1 {
            let d: int = s.target - s.value;
            vstd::arithmetic::div_mod::lemma_div_multiples_vanish(d, 1);
            vstd::arithmetic::div_mod::lemma_div_multiples_vanish(-d, 1);
            assert(div_trunc(d, 1) == d);
            assert(Self::iterated(s, 1) == Self::iterated(t, 0));
        } else {
            Self::lemma_ramp_reaches_target(t);
        }
    }
}

} // verus!
