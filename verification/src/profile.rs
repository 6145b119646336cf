//! The load-profile scheduler: a pure function from elapsed test time to the
//! target number of concurrent virtual users, for each curve shape.
//!
//! Time is in nanoseconds throughout. Boundaries are half-open: at the exact
//! end of a segment the later segment's value holds.

use crate::duration::HumanDuration;
use crate::model::DurationNanos;
use crate::scenario::{LoadProfile, LoadStep};
use vstd::arithmetic::div_mod::{lemma_div_by_multiple, lemma_div_is_ordered};
use vstd::arithmetic::mul::{lemma_mul_inequality, lemma_mul_is_commutative};
use vstd::prelude::*;

verus! {

/// The total planned duration of a profile, in nanoseconds.
pub open spec fn spec_total_duration(p: LoadProfile) -> int {
    match p {
        LoadProfile::Constant { duration, .. } => duration.0.nanos as int,
        LoadProfile::Ramp { duration, .. } => duration.0.nanos as int,
        LoadProfile::Stepped { steps } => spec_steps_duration(steps@),
        LoadProfile::Spike { total_duration, .. } => total_duration.0.nanos as int,
    }
}

/// Sum of the durations of a stepped profile's levels.
pub open spec fn spec_steps_duration(steps: Seq<LoadStep>) -> int
    decreases steps.len(),
{
    if steps.len() == 0 {
        0
    } else {
        spec_steps_duration(steps.drop_last()) + steps.last().duration.0.nanos
    }
}

/// The target concurrency of a stepped profile at time `t`: the level whose
/// window contains `t`, and zero past the last window.
pub open spec fn spec_stepped_at(steps: Seq<LoadStep>, t: int) -> int
    decreases steps.len(),
{
    if steps.len() == 0 {
        0
    } else if t < steps.first().duration.0.nanos {
        steps.first().users as int
    } else {
        spec_stepped_at(steps.drop_first(), t - steps.first().duration.0.nanos)
    }
}

/// The target concurrency of a profile at time `t`.
pub open spec fn spec_users_at(p: LoadProfile, t: int) -> int {
    match p {
        LoadProfile::Constant { users, duration, ramp_up } => if t >= duration.0.nanos {
            0
        } else {
            match ramp_up {
                Some(r) => if t < r.0.nanos {
                    users * t / r.0.nanos as int
                } else {
                    users as int
                },
                None => users as int,
            }
        },
        LoadProfile::Ramp { from, to, duration } => if t >= duration.0.nanos {
            to as int
        } else if to >= from {
            from + (to - from) * t / duration.0.nanos as int
        } else {
            from - (from - to) * t / duration.0.nanos as int
        },
        LoadProfile::Stepped { steps } => spec_stepped_at(steps@, t),
        LoadProfile::Spike { baseline, peak, spike_duration, total_duration } => if t
            >= total_duration.0.nanos {
            0
        } else if t < spike_duration.0.nanos {
            peak as int
        } else {
            baseline as int
        },
    }
}

/// Floored linear interpolation `users * t / r`, for `t < r`.
fn scale_users(users: usize, t: u64, r: u64) -> (v: usize)
    requires
        t < r,
    ensures
        v == users * t / r as int,
        v <= users,
{
    proof {
        lemma_mul_inequality(t as int, r as int, users as int);
        assert(users as int * t as int == t as int * users as int);
        assert(users as int * r as int == r as int * users as int);
        lemma_div_is_ordered(users as int * t as int, users as int * r as int, r as int);
        lemma_div_by_multiple(users as int, r as int);
        vstd::arithmetic::mul::lemma_mul_nonnegative(users as int, t as int);
        vstd::arithmetic::div_mod::lemma_div_pos_is_pos(users as int * t as int, r as int);
        lemma_mul_inequality(users as int, u64::MAX as int, t as int);
        lemma_mul_inequality(t as int, u64::MAX as int, u64::MAX as int);
        assert(users as int * t as int == t as int * users as int);
    }
    let wide = (users as u128) * (t as u128) / (r as u128);
    wide as usize
}

impl LoadProfile {
    /// The target number of virtual users at elapsed time `elapsed`; pure,
    /// total, and stable beyond the profile's end.
    pub fn virtual_users_at(&self, elapsed: DurationNanos) -> (r: usize)
        ensures
            r == spec_users_at(*self, elapsed.nanos as int),
    {
        let t = elapsed.nanos;
        match self {
            LoadProfile::Constant { users, duration, ramp_up } => {
                if t >= duration.0.nanos {
                    0
                } else {
                    match ramp_up {
                        Some(r) => {
                            if t < r.0.nanos {
                                scale_users(*users, t, r.0.nanos)
                            } else {
                                *users
                            }
                        },
                        None => *users,
                    }
                }
            },
            LoadProfile::Ramp { from, to, duration } => {
                if t >= duration.0.nanos {
                    *to
                } else if *to >= *from {
                    let d = scale_users(*to - *from, t, duration.0.nanos);
                    proof {
                        assert((*to - *from) * t as int / duration.0.nanos as int <= *to - *from);
                    }
                    *from + d
                } else {
                    let d = scale_users(*from - *to, t, duration.0.nanos);
                    *from - d
                }
            },
            LoadProfile::Stepped { steps } => stepped_users_at(steps, t),
            LoadProfile::Spike { baseline, peak, spike_duration, total_duration } => {
                if t >= total_duration.0.nanos {
                    0
                } else if t < spike_duration.0.nanos {
                    *peak
                } else {
                    *baseline
                }
            },
        }
    }

    /// The total planned duration of the profile.
    pub fn duration(&self) -> (r: DurationNanos)
        requires
            spec_total_duration(*self) <= u64::MAX,
        ensures
            r.nanos == spec_total_duration(*self),
    {
        match self {
            LoadProfile::Constant { duration, .. } => duration.0,
            LoadProfile::Ramp { duration, .. } => duration.0,
            LoadProfile::Stepped { steps } => {
                let n = steps.len();
                let mut total: u64 = 0;
                let mut i: usize = 0;
                proof {
                    lemma_steps_duration_bounds(steps@, n as int);
                    assert(steps@.subrange(0, n as int) =~= steps@);
                }
                while i < n
                    invariant
                        i <= n,
                        n == steps@.len(),
                        total == spec_steps_duration(steps@.subrange(0, i as int)),
                        spec_steps_duration(steps@.subrange(0, n as int)) <= u64::MAX,
                    decreases n - i,
                {
                    proof {
                        lemma_steps_duration_bounds(steps@, i + 1);
                        lemma_steps_duration_prefix(steps@, i + 1, n as int);
                        assert(steps@.subrange(0, i + 1).drop_last() =~= steps@.subrange(
                            0,
                            i as int,
                        ));
                        assert(steps@.subrange(0, i + 1).last() == steps@[i as int]);
                    }
                    total = total + steps[i].duration.0.nanos;
                    i += 1;
                }
                proof {
                    assert(steps@.subrange(0, n as int) =~= steps@);
                }
                DurationNanos { nanos: total }
            },
            LoadProfile::Spike { total_duration, .. } => total_duration.0,
        }
    }
}

/// The target concurrency of a stepped profile at time `t`.
fn stepped_users_at(steps: &Vec<LoadStep>, t: u64) -> (r: usize)
    ensures
        r == spec_stepped_at(steps@, t as int),
{
    let n = steps.len();
    let mut i: usize = 0;
    let mut rem = t;
    proof {
        assert(steps@.subrange(0, n as int) =~= steps@);
    }
    while i < n
        invariant
            i <= n,
            n == steps@.len(),
            rem <= t,
            spec_stepped_at(steps@, t as int) == spec_stepped_at(
                steps@.subrange(i as int, n as int),
                rem as int,
            ),
        decreases n - i,
    {
        proof {
            assert(steps@.subrange(i as int, n as int).first() == steps@[i as int]);
            assert(steps@.subrange(i as int, n as int).drop_first() =~= steps@.subrange(
                i + 1,
                n as int,
            ));
        }
        if rem < steps[i].duration.0.nanos {
            return steps[i].users;
        }
        rem = rem - steps[i].duration.0.nanos;
        i += 1;
    }
    proof {
        assert(steps@.subrange(n as int, n as int).len() == 0);
    }
    0
}

/// A constant profile is over once its duration has elapsed: the target is
/// zero from that point on, and never exceeds `users` before it.
pub proof fn lemma_constant_profile_terminal(
    users: usize,
    duration: HumanDuration,
    ramp_up: Option<HumanDuration>,
    t: int,
)
    requires
        t >= 0,
    ensures
        t >= duration.0.nanos ==> spec_users_at(
            LoadProfile::Constant { users, duration, ramp_up },
            t,
        ) == 0,
        spec_users_at(LoadProfile::Constant { users, duration, ramp_up }, t) <= users,
{
    let p = LoadProfile::Constant { users, duration, ramp_up };
    if t < duration.0.nanos {
        match ramp_up {
            Some(r) => {
                if t < r.0.nanos {
                    lemma_mul_inequality(t, r.0.nanos as int, users as int);
                    assert(users as int * t == t * users as int);
                    assert(users as int * r.0.nanos as int == r.0.nanos as int * users as int);
                    lemma_div_is_ordered(
                        users as int * t,
                        users as int * r.0.nanos as int,
                        r.0.nanos as int,
                    );
                    lemma_div_by_multiple(users as int, r.0.nanos as int);
                }
            },
            None => {},
        }
    }
}

/// During a constant profile's ramp-up window the target is non-decreasing.
pub proof fn lemma_constant_profile_ramp_monotone(
    users: usize,
    duration: HumanDuration,
    ramp: HumanDuration,
    t1: int,
    t2: int,
)
    requires
        0 <= t1 <= t2 < ramp.0.nanos,
        t2 < duration.0.nanos,
    ensures
        spec_users_at(LoadProfile::Constant { users, duration, ramp_up: Some(ramp) }, t1)
            <= spec_users_at(LoadProfile::Constant { users, duration, ramp_up: Some(ramp) }, t2),
{
    let r = ramp.0.nanos as int;
    lemma_mul_inequality(t1, t2, users as int);
    assert(users as int * t1 == t1 * users as int);
    assert(users as int * t2 == t2 * users as int);
    lemma_div_is_ordered(users as int * t1, users as int * t2, r);
}

/// A ramp profile starts at `from`, reaches `to` exactly at its end and holds
/// there, and is non-decreasing throughout when `from <= to`.
pub proof fn lemma_ramp_profile(from: usize, to: usize, duration: HumanDuration, t1: int, t2: int)
    requires
        duration.0.nanos > 0,
        0 <= t1 <= t2,
    ensures
        spec_users_at(LoadProfile::Ramp { from, to, duration }, 0) == from,
        spec_users_at(LoadProfile::Ramp { from, to, duration }, duration.0.nanos as int) == to,
        from <= to ==> spec_users_at(LoadProfile::Ramp { from, to, duration }, t1)
            <= spec_users_at(LoadProfile::Ramp { from, to, duration }, t2),
{
    let d = duration.0.nanos as int;
    let delta = if to >= from {
        to - from
    } else {
        from - to
    };
    assert(delta * 0 == 0);
    vstd::arithmetic::div_mod::lemma_div_of0(d);
    if from <= to {
        let delta = to - from;
        if t2 < d {
            lemma_mul_inequality(t1, t2, delta);
            lemma_mul_is_commutative(delta, t1);
            lemma_mul_is_commutative(delta, t2);
            lemma_div_is_ordered(delta * t1, delta * t2, d);
        } else if t1 < d {
            lemma_mul_inequality(t1, d, delta);
            lemma_mul_is_commutative(delta, t1);
            lemma_mul_is_commutative(delta, d);
            lemma_div_is_ordered(delta * t1, delta * d, d);
            lemma_div_by_multiple(delta, d);
        }
    }
}

/// Prefix sums of step durations are non-negative and monotone.
proof fn lemma_steps_duration_bounds(steps: Seq<LoadStep>, i: int)
    requires
        0 <= i <= steps.len(),
    ensures
        0 <= spec_steps_duration(steps.subrange(0, i)),
    decreases i,
{
    if i > 0 {
        assert(steps.subrange(0, i).drop_last() =~= steps.subrange(0, i - 1));
        lemma_steps_duration_bounds(steps, i - 1);
    }
}

/// A prefix's duration sum never exceeds a longer prefix's.
proof fn lemma_steps_duration_prefix(steps: Seq<LoadStep>, i: int, j: int)
    requires
        0 <= i <= j <= steps.len(),
    ensures
        spec_steps_duration(steps.subrange(0, i)) <= spec_steps_duration(steps.subrange(0, j)),
    decreases j - i,
{
    if i < j {
        lemma_steps_duration_prefix(steps, i, j - 1);
        assert(steps.subrange(0, j).drop_last() =~= steps.subrange(0, j - 1));
    }
}

} // verus!
