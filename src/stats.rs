//! The samples a run collects, and the reducers over them.

use vstd::prelude::*;
use crate::tasks_pipe::{PipeMod, Resolution};

verus! {

/// Which samples a run collects.
#[derive(Debug, PartialEq, Eq, Structural, Clone, Copy)]
pub struct StatsConfig {
    /// Collect the elapsed time of each sampled step.
    pub time: bool,
    /// Collect the outcome of each sampled step.
    pub percentage: bool,
}

/// The samples of one run; each sequence is present only when it was asked for.
#[derive(Debug, PartialEq, Eq)]
pub struct CollectedStats {
    pub times_secs: Option<Vec<u64>>,
    pub pos_negs: Option<Vec<bool>>,
}

/// How many answers were right and how many wrong.
#[derive(Debug, PartialEq, Eq, Structural, Clone, Copy)]
pub struct PosNeg {
    pub positive: u8,
    pub negative: u8,
}

/// A resolved step is sampled when the policy skips on, or when it was right.
pub open spec fn is_sampled(pipe_mod: PipeMod, r: Resolution) -> bool {
    pipe_mod == PipeMod::Skip || r.correct
}

/// The times of the sampled steps among the first `n` resolved steps, where
/// `times[i]` is the time at which step `i` was resolved.
pub open spec fn time_samples(pipe_mod: PipeMod, rs: Seq<Resolution>, times: Seq<u64>, n: int) -> Seq<u64>
    decreases n,
{
    if n <= 0 {
        Seq::empty()
    } else if is_sampled(pipe_mod, rs[n - 1]) {
        time_samples(pipe_mod, rs, times, n - 1).push(times[n - 1])
    } else {
        time_samples(pipe_mod, rs, times, n - 1)
    }
}

/// The outcomes of the sampled steps among the first `n` resolved steps.
pub open spec fn outcome_samples(pipe_mod: PipeMod, rs: Seq<Resolution>, n: int) -> Seq<bool>
    decreases n,
{
    if n <= 0 {
        Seq::empty()
    } else if is_sampled(pipe_mod, rs[n - 1]) {
        outcome_samples(pipe_mod, rs, n - 1).push(rs[n - 1].correct)
    } else {
        outcome_samples(pipe_mod, rs, n - 1)
    }
}

/// The samples of a run from its resolved steps and the time at which each
/// was resolved: a step is sampled when the policy skips on or when it was
/// right, and each sequence is there only when `stats_config` asks for it.
pub fn collect_stats(
    pipe_mod: &PipeMod,
    resolved: &Vec<Resolution>,
    times: &Vec<u64>,
    stats_config: &StatsConfig,
) -> (r: CollectedStats)
    requires
        times@.len() == resolved@.len(),
    ensures
        match r.times_secs {
            Some(t) => stats_config.time
                && t@ == time_samples(*pipe_mod, resolved@, times@, resolved@.len() as int),
            None => !stats_config.time,
        },
        match r.pos_negs {
            Some(p) => stats_config.percentage
                && p@ == outcome_samples(*pipe_mod, resolved@, resolved@.len() as int),
            None => !stats_config.percentage,
        },
{
    let mut kept_times: Vec<u64> = Vec::new();
    let mut kept_outcomes: Vec<bool> = Vec::new();
    let mut i: usize = 0;
    while i < resolved.len()
        invariant
            i <= resolved@.len(),
            times@.len() == resolved@.len(),
            kept_times@ == time_samples(*pipe_mod, resolved@, times@, i as int),
            kept_outcomes@ == outcome_samples(*pipe_mod, resolved@, i as int),
        decreases resolved@.len() - i,
    {
        let step = resolved[i];
        if *pipe_mod == PipeMod::Skip || step.correct {
            kept_times.push(times[i]);
            kept_outcomes.push(step.correct);
        }
        i = i + 1;
    }
    CollectedStats {
        times_secs: if stats_config.time { Some(kept_times) } else { None },
        pos_negs: if stats_config.percentage { Some(kept_outcomes) } else { None },
    }
}

/// The average time per sampled step: the last cumulative sample divided by
/// the number of samples, truncated.
pub fn calculate_average_time_millis(times: Vec<u64>) -> (r: u64)
    requires
        times@.len() > 0,
    ensures
        r as int == (times@.last() as int) / (times@.len() as int),
{
    let length: usize = times.len();
    times[length - 1] / (length as u64)
}

/// How many entries of `s` equal `b`.
pub open spec fn count_of(s: Seq<bool>, b: bool) -> nat
    decreases s.len(),
{
    if s.len() == 0 {
        0
    } else {
        count_of(s.drop_last(), b) + if s.last() == b { 1nat } else { 0nat }
    }
}

/// Counts the right and the wrong outcomes.
pub fn calculate_total_pos_neg(pos_negs: Vec<bool>) -> (r: PosNeg)
    requires
        count_of(pos_negs@, true) <= u8::MAX,
        count_of(pos_negs@, false) <= u8::MAX,
    ensures
        r.positive == count_of(pos_negs@, true),
        r.negative == count_of(pos_negs@, false),
{
    let mut pos: u8 = 0;
    let mut neg: u8 = 0;
    let mut i: usize = 0;
    while i < pos_negs.len()
        invariant
            i <= pos_negs@.len(),
            pos == count_of(pos_negs@.take(i as int), true),
            neg == count_of(pos_negs@.take(i as int), false),
            count_of(pos_negs@, true) <= u8::MAX,
            count_of(pos_negs@, false) <= u8::MAX,
        decreases pos_negs@.len() - i,
    {
        proof {
            let s = pos_negs@;
            assert(s.take(i + 1).drop_last() =~= s.take(i as int));
            lemma_count_prefix(s, i + 1, true);
            lemma_count_prefix(s, i + 1, false);
        }
        if pos_negs[i] {
            pos = pos + 1;
        } else {
            neg = neg + 1;
        }
        i = i + 1;
    }
    assert(pos_negs@.take(i as int) =~= pos_negs@);
    PosNeg { positive: pos, negative: neg }
}

/// A count over a prefix is at most the count over the whole.
proof fn lemma_count_prefix(s: Seq<bool>, n: int, b: bool)
    requires
        0 <= n <= s.len(),
    ensures
        count_of(s.take(n), b) <= count_of(s, b),
    decreases s.len() - n,
{
    if n < s.len() {
        assert(s.take(n + 1).drop_last() =~= s.take(n));
        lemma_count_prefix(s, n + 1, b);
    } else {
        assert(s.take(n) =~= s);
    }
}

} // verus!
