//! Difficulty estimation: the work each block must carry, retargeted every
//! `interval` blocks from how long those blocks actually took.
use vstd::prelude::*;

verus! {

/// Largest value a difficulty may take.
pub open spec fn max_difficulty() -> int {
    u64::MAX as int
}

/// Lowest difficulty a retarget of `d` may give with adjustment factor `f`.
pub open spec fn lower_bound(d: int, f: int) -> int {
    if d / f >= 1 { d / f } else { 1 }
}

/// Highest difficulty a retarget of `d` may give with adjustment factor `f`.
pub open spec fn upper_bound(d: int, f: int) -> int {
    if d * f <= max_difficulty() { d * f } else { max_difficulty() }
}

/// The difficulty that keeps the block rate on target, before clamping:
/// `d * expected / actual`; blocks that took no time at all push it to the top.
pub open spec fn unclamped(d: int, expected: int, actual: int, f: int) -> int {
    if actual == 0 { upper_bound(d, f) } else { d * expected / actual }
}

/// The difficulty after one retarget of `d`: the unclamped value held
/// within `[lower_bound, upper_bound]`.
pub open spec fn retarget_spec(d: int, expected: int, actual: int, f: int) -> int {
    let raw = unclamped(d, expected, actual, f);
    if raw < lower_bound(d, f) {
        lower_bound(d, f)
    } else if raw > upper_bound(d, f) {
        upper_bound(d, f)
    } else {
        raw
    }
}

/// Computes the difficulty that follows `d` when `expected` time units were
/// planned for the last window of blocks and `actual` ones passed.
pub fn retarget(d: u64, expected: u64, actual: u64, factor: u64) -> (r: u64)
    requires
        factor >= 1,
    ensures
        r == retarget_spec(d as int, expected as int, actual as int, factor as int),
{
    let lo: u64 = if d / factor >= 1 { d / factor } else { 1 };
    proof {
        assert((d as int) * (factor as int) <= (u64::MAX as int) * (u64::MAX as int)) by (nonlinear_arith)
            requires d <= u64::MAX, factor <= u64::MAX;
    }
    let wide: u128 = (d as u128) * (factor as u128);
    let hi: u64 = if wide <= u64::MAX as u128 { wide as u64 } else { u64::MAX };
    let raw: u128 = if actual == 0 {
        hi as u128
    } else {
        proof {
            assert((d as int) * (expected as int) <= (u64::MAX as int) * (u64::MAX as int)) by (nonlinear_arith)
                requires d <= u64::MAX, expected <= u64::MAX;
        }
        ((d as u128) * (expected as u128)) / (actual as u128)
    };
    if raw < lo as u128 {
        lo
    } else if raw > hi as u128 {
        hi
    } else {
        raw as u64
    }
}

/// A retarget stays within the clamp bounds around the old difficulty, and
/// leaves it unchanged when the blocks took exactly the time planned.
pub proof fn lemma_retarget_bounded(d: int, expected: int, actual: int, f: int)
    requires
        1 <= d <= max_difficulty(),
        1 <= expected,
        0 <= actual,
        f >= 1,
    ensures
        lower_bound(d, f) <= retarget_spec(d, expected, actual, f) <= upper_bound(d, f),
        actual == expected ==> retarget_spec(d, expected, actual, f) == d,
{
    assert(d / f <= d) by (nonlinear_arith)
        requires d >= 1, f >= 1;
    assert(d * f >= d) by (nonlinear_arith)
        requires d >= 1, f >= 1;
    if actual == expected && actual > 0 {
        assert(d * expected / actual == d) by (nonlinear_arith)
            requires actual == expected, actual > 0;
    }
}

/// A retarget moves the difficulty whenever the blocks were off schedule:
/// down when they were slow, up when they were fast, unless the exact
/// ratio rounds back to the old difficulty. With a factor of 1, a
/// difficulty of 1 (for slow blocks) or the largest difficulty (for fast
/// ones) there is no room to move, so those are left out.
pub proof fn lemma_retarget_moves(d: int, expected: int, actual: int, f: int)
    requires
        2 <= d,
        1 <= expected,
        0 <= actual,
        f >= 2,
    ensures
        actual > expected ==> retarget_spec(d, expected, actual, f) < d,
        actual < expected && d < max_difficulty() && d * expected >= (d + 1) * actual
            ==> retarget_spec(d, expected, actual, f) > d,
{
    assert(d / f < d) by (nonlinear_arith)
        requires d >= 2, f >= 2;
    assert(d * f >= d + 1) by (nonlinear_arith)
        requires d >= 2, f >= 2;
    if actual > expected {
        assert(d * expected / actual < d) by (nonlinear_arith)
            requires actual > expected, expected >= 1, d >= 2;
    }
    if actual < expected && actual > 0 && d * expected >= (d + 1) * actual {
        assert(d * expected / actual >= d + 1) by (nonlinear_arith)
            requires actual > 0, d * expected >= (d + 1) * actual;
    }
}

/// The estimator's state: the current difficulty, the retarget settings and
/// how far the current window of blocks has got.
#[derive(Clone, Copy, Debug, PartialEq, Eq, Structural)]
pub struct DifficultyState {
    pub difficulty: u64,
    /// Blocks between two retargets.
    pub interval: u64,
    /// Time units planned for one block.
    pub target_block_time: u64,
    /// A retarget changes the difficulty by at most this factor either way.
    pub max_factor: u64,
    /// Blocks recorded since the last retarget.
    pub since_retarget: u64,
    /// Timestamp of the block that closed the last window.
    pub window_start: u64,
}

/// Replaces a setting below `min` by `min`.
pub open spec fn at_least(v: int, min: int) -> int {
    if v < min { min } else { v }
}

/// The estimator `s` after one more block, made at `timestamp`.
pub open spec fn after_block(s: DifficultyState, timestamp: u64) -> DifficultyState {
    if s.since_retarget + 1 < s.interval {
        DifficultyState { since_retarget: (s.since_retarget + 1) as u64, ..s }
    } else {
        DifficultyState {
            difficulty: retarget_spec(
                s.difficulty as int,
                s.expected_elapsed(),
                if timestamp >= s.window_start { timestamp - s.window_start } else { 0 },
                s.max_factor as int,
            ) as u64,
            since_retarget: 0,
            window_start: timestamp,
            ..s
        }
    }
}

impl DifficultyState {
    /// Every setting is in range, and a window's planned time fits in a `u64`.
    pub open spec fn wf(&self) -> bool {
        &&& self.difficulty >= 1
        &&& self.interval >= 1
        &&& self.target_block_time >= 1
        &&& self.max_factor >= 1
        &&& self.since_retarget < self.interval
        &&& self.interval * self.target_block_time <= u64::MAX
    }

    /// Time planned for one full window of blocks.
    pub open spec fn expected_elapsed(&self) -> int {
        self.interval * self.target_block_time
    }

    /// Builds the estimator from settings, replacing each setting that is
    /// out of range by the nearest allowed value: difficulty, interval, block
    /// time and factor are at least 1, and the block time is lowered until a
    /// window's planned time fits in a `u64`.
    pub fn new(difficulty: u64, interval: u64, target_block_time: u64, max_factor: u64, start: u64) -> (r: Self)
        ensures
            r.wf(),
            r.difficulty == at_least(difficulty as int, 1),
            r.interval == at_least(interval as int, 1),
            r.max_factor == at_least(max_factor as int, 1),
            r.target_block_time == (if at_least(target_block_time as int, 1) * r.interval <= u64::MAX {
                at_least(target_block_time as int, 1)
            } else {
                (u64::MAX / r.interval) as int
            }),
            r.since_retarget == 0,
            r.window_start == start,
    {
        let difficulty: u64 = if difficulty < 1 { 1 } else { difficulty };
        let interval: u64 = if interval < 1 { 1 } else { interval };
        let max_factor: u64 = if max_factor < 1 { 1 } else { max_factor };
        let time: u64 = if target_block_time < 1 { 1 } else { target_block_time };
        let cap: u64 = u64::MAX / interval;
        proof {
            assert(cap * interval <= u64::MAX) by (nonlinear_arith)
                requires cap == u64::MAX / interval, interval >= 1;
            assert(cap >= 1) by (nonlinear_arith)
                requires cap == u64::MAX / interval, interval >= 1, interval <= u64::MAX;
            assert(time <= cap ==> time * interval <= u64::MAX) by (nonlinear_arith)
                requires cap * interval <= u64::MAX, interval >= 1;
            assert(time > cap ==> time * interval > u64::MAX) by (nonlinear_arith)
                requires cap == u64::MAX / interval, interval >= 1;
        }
        let target_block_time: u64 = if time <= cap { time } else { cap };
        proof {
            assert(interval * target_block_time <= u64::MAX) by (nonlinear_arith)
                requires target_block_time * interval <= u64::MAX || target_block_time == cap,
                    cap * interval <= u64::MAX;
        }
        DifficultyState { difficulty, interval, target_block_time, max_factor, since_retarget: 0, window_start: start }
    }

    /// Records one more block on the chain, made at `timestamp`. The block
    /// that completes a window retargets the difficulty from the time since
    /// the window began (none, if the clock went back) and opens a new window.
    pub fn record_block(&mut self, timestamp: u64)
        requires
            old(self).wf(),
        ensures
            final(self).wf(),
            *final(self) == after_block(*old(self), timestamp),
            final(self).interval == old(self).interval,
            final(self).target_block_time == old(self).target_block_time,
            final(self).max_factor == old(self).max_factor,
            old(self).since_retarget + 1 < old(self).interval ==> {
                &&& final(self).difficulty == old(self).difficulty
                &&& final(self).since_retarget == old(self).since_retarget + 1
                &&& final(self).window_start == old(self).window_start
            },
            old(self).since_retarget + 1 == old(self).interval ==> {
                &&& final(self).difficulty == retarget_spec(
                    old(self).difficulty as int,
                    old(self).expected_elapsed(),
                    if timestamp >= old(self).window_start { timestamp - old(self).window_start } else { 0 },
                    old(self).max_factor as int,
                )
                &&& final(self).since_retarget == 0
                &&& final(self).window_start == timestamp
            },
    {
        if self.since_retarget + 1 < self.interval {
            self.since_retarget = self.since_retarget + 1;
        } else {
            let actual: u64 = if timestamp >= self.window_start { timestamp - self.window_start } else { 0 };
            let expected: u64 = self.interval * self.target_block_time;
            proof {
                assert(expected >= 1) by (nonlinear_arith)
                    requires expected == self.interval * self.target_block_time,
                        self.interval >= 1, self.target_block_time >= 1;
                lemma_retarget_bounded(self.difficulty as int, expected as int, actual as int, self.max_factor as int);
            }
            self.difficulty = retarget(self.difficulty, expected, actual, self.max_factor);
            self.since_retarget = 0;
            self.window_start = timestamp;
        }
    }
}

} // verus!
