//! Adaptive compass search for the rectangle that best lowers the error of
//! a canvas against a target.
//!
//! Each of the five shape parameters has its own step size, kept in
//! thousandths of a unit. A round visits the parameters in order; for each
//! it tries the step scaled by every candidate multiplier
//! `-a, -1/a, 0, 1/a, a` (with `a` the acceleration), keeps the first
//! candidate of least error, and then either moves the parameter and scales
//! the step by that multiplier, or, when the zero multiplier wins, divides
//! the step by `a`. Offsets truncate toward zero.
use vstd::prelude::*;
use crate::buffer::{ApproxError, PixelBuffer, Raster};
use crate::raster::{clamp_int, draw, rendered, Shape, ALPHA_SCALE};
use crate::score::{squared_error, sse};

verus! {

/// Step sizes are kept in thousandths of a unit.
pub const STEP_SCALE: i64 = 1000;

/// Largest magnitude a step size may reach; larger ones saturate here.
pub const STEP_LIMIT: i64 = 1_000_000_000_000;

/// Number of shape parameters and of candidate multipliers.
pub const PARAM_COUNT: usize = 5;

/// Index of the zero multiplier among the candidates.
pub const ZERO_CANDIDATE: usize = 2;

/// When a run of the search ends before its round cap.
#[derive(Clone, Copy, Debug, PartialEq, Eq, Structural)]
pub enum StopRule {
    /// End as soon as one round lowers the mean squared error by more than
    /// epsilon: the run is taken while it is improving quickly.
    EarlyAccept,
    /// End as soon as one round fails to lower the mean squared error by
    /// more than epsilon: the run has stagnated.
    Stagnation,
}

/// Settings of one search run.
#[derive(Clone, Copy, Debug)]
pub struct SearchConfig {
    /// Blend weight of the rectangle, in thousandths (`ALPHA_SCALE` is opaque).
    pub alpha: u32,
    /// The acceleration is `accel_num / accel_den`.
    pub accel_num: u32,
    pub accel_den: u32,
    /// Initial step size of each parameter, in thousandths of a unit.
    pub initial_steps: [i64; 5],
    /// Largest number of rounds of one run.
    pub round_cap: u32,
    /// Threshold on the change of the mean squared error over one round.
    pub epsilon: u64,
    pub stop_rule: StopRule,
}

/// The shape a run ends on, and how many rounds it took.
#[derive(Clone, Copy, Debug, PartialEq, Eq, Structural)]
pub struct Optimized {
    pub shape: Shape,
    pub rounds: u32,
}

impl SearchConfig {
    pub open spec fn wf(self) -> bool {
        &&& self.alpha <= ALPHA_SCALE
        &&& 1 <= self.accel_num <= 1000
        &&& 1 <= self.accel_den <= 1000
        &&& steps_in_range(self.initial_steps@)
        &&& self.round_cap >= 1
    }

    /// Acceleration 1.2, steps of ten units, at most 200 rounds, ending a
    /// run at the first round that brings no improvement.
    pub fn standard(alpha: u32) -> (c: SearchConfig)
        requires
            alpha <= ALPHA_SCALE,
        ensures
            c.wf(),
            c.alpha == alpha,
            c.accel_num == 6 && c.accel_den == 5,
            c.initial_steps@ == seq![10000i64, 10000, 10000, 10000, 10000],
            c.round_cap == 200,
            c.epsilon == 0,
            c.stop_rule == StopRule::Stagnation,
    {
        let c = SearchConfig {
            alpha,
            accel_num: 6,
            accel_den: 5,
            initial_steps: [10000, 10000, 10000, 10000, 10000],
            round_cap: 200,
            epsilon: 0,
            stop_rule: StopRule::Stagnation,
        };
        assert(c.initial_steps@ =~= seq![10000i64, 10000, 10000, 10000, 10000]);
        c
    }
}

pub open spec fn steps_in_range(steps: Seq<i64>) -> bool {
    &&& steps.len() == PARAM_COUNT
    &&& forall|k: int| 0 <= k < steps.len() ==> -STEP_LIMIT <= #[trigger] steps[k] <= STEP_LIMIT
}

/// Parameter `i` of a shape: `x1, y1, x2, y2, color` in that order.
pub open spec fn param(s: Shape, i: int) -> int {
    if i == 0 {
        s.x1 as int
    } else if i == 1 {
        s.y1 as int
    } else if i == 2 {
        s.x2 as int
    } else if i == 3 {
        s.y2 as int
    } else {
        s.color as int
    }
}

/// `s` with parameter `i` set to `v`.
pub open spec fn with_param(s: Shape, i: int, v: i32) -> Shape {
    if i == 0 {
        Shape { x1: v, ..s }
    } else if i == 1 {
        Shape { y1: v, ..s }
    } else if i == 2 {
        Shape { x2: v, ..s }
    } else if i == 3 {
        Shape { y2: v, ..s }
    } else {
        Shape { color: v, ..s }
    }
}

/// Numerator of candidate multiplier `j`.
pub open spec fn mult_num(c: SearchConfig, j: int) -> int {
    if j == 0 {
        -(c.accel_num as int)
    } else if j == 1 {
        -(c.accel_den as int)
    } else if j == 2 {
        0
    } else if j == 3 {
        c.accel_den as int
    } else {
        c.accel_num as int
    }
}

/// Denominator of candidate multiplier `j`.
pub open spec fn mult_den(c: SearchConfig, j: int) -> int {
    if j == 0 || j == 4 {
        c.accel_den as int
    } else if j == 2 {
        1
    } else {
        c.accel_num as int
    }
}

/// Division rounding toward zero.
pub open spec fn trunc_div(n: int, d: int) -> int {
    if n >= 0 {
        n / d
    } else {
        -((-n) / d)
    }
}

/// The offset, in whole units, that candidate `j` applies to a parameter
/// whose step size is `step`.
pub open spec fn offset(c: SearchConfig, step: int, j: int) -> int {
    trunc_div(step * mult_num(c, j), mult_den(c, j) * STEP_SCALE)
}

/// `s` with parameter `i` moved by candidate `j`, saturating at the bounds
/// of `i32`.
pub open spec fn trial(c: SearchConfig, s: Shape, step: int, i: int, j: int) -> Shape {
    with_param(s, i, clamp_int(param(s, i) + offset(c, step, j), i32::MIN as int, i32::MAX as int) as i32)
}

/// The error against `target` of `base` with `s` rendered onto it.
pub open spec fn objective(base: Raster, target: Raster, alpha: int, s: Shape) -> int {
    sse(rendered(s, base, alpha).samples, target.samples)
}

pub open spec fn trial_error(
    base: Raster,
    target: Raster,
    c: SearchConfig,
    s: Shape,
    step: int,
    i: int,
    j: int,
) -> int {
    objective(base, target, c.alpha as int, trial(c, s, step, i, j))
}

/// The first of candidates `0 .. k` of least error.
pub open spec fn best_among(
    base: Raster,
    target: Raster,
    c: SearchConfig,
    s: Shape,
    step: int,
    i: int,
    k: int,
) -> int
    decreases k,
{
    if k <= 1 {
        0
    } else {
        let b = best_among(base, target, c, s, step, i, k - 1);
        if trial_error(base, target, c, s, step, i, k - 1) < trial_error(base, target, c, s, step, i, b) {
            k - 1
        } else {
            b
        }
    }
}

/// The new step size after candidate `j` won: divided by the acceleration
/// for the zero candidate, else scaled by the candidate's multiplier.
pub open spec fn rescaled(c: SearchConfig, step: int, j: int) -> int {
    if j == ZERO_CANDIDATE {
        clamp_int(trunc_div(step * c.accel_den, c.accel_num as int), -STEP_LIMIT, STEP_LIMIT as int)
    } else {
        clamp_int(trunc_div(step * mult_num(c, j), mult_den(c, j)), -STEP_LIMIT, STEP_LIMIT as int)
    }
}

/// Tunes parameters `i .. 5` in order, each seeing the earlier updates.
pub open spec fn sweep(
    base: Raster,
    target: Raster,
    c: SearchConfig,
    s: Shape,
    steps: Seq<i64>,
    i: int,
) -> (Shape, Seq<i64>)
    decreases PARAM_COUNT - i,
{
    if i >= PARAM_COUNT || i < 0 {
        (s, steps)
    } else {
        let b = best_among(base, target, c, s, steps[i] as int, i, PARAM_COUNT as int);
        sweep(
            base,
            target,
            c,
            trial(c, s, steps[i] as int, i, b),
            steps.update(i, rescaled(c, steps[i] as int, b) as i64),
            i + 1,
        )
    }
}

/// Whether a round from error `before` to error `after`, on `n` pixels,
/// ends the run.
pub open spec fn stops(c: SearchConfig, before: int, after: int, n: int) -> bool {
    match c.stop_rule {
        StopRule::EarlyAccept => before - after > c.epsilon * n,
        StopRule::Stagnation => before - after <= c.epsilon * n,
    }
}

/// The shape and round count that a run reaches from `s` with `remaining`
/// rounds left after `done` rounds.
pub open spec fn search(
    base: Raster,
    target: Raster,
    c: SearchConfig,
    s: Shape,
    steps: Seq<i64>,
    remaining: int,
    done: int,
) -> (Shape, int)
    decreases remaining,
{
    if remaining <= 0 {
        (s, done)
    } else {
        let (s2, steps2) = sweep(base, target, c, s, steps, 0);
        if stops(
            c,
            objective(base, target, c.alpha as int, s),
            objective(base, target, c.alpha as int, s2),
            target.samples.len() as int,
        ) {
            (s2, done + 1)
        } else {
            search(base, target, c, s2, steps2, remaining - 1, done + 1)
        }
    }
}

fn get_param(s: &Shape, i: usize) -> (v: i32)
    ensures
        v == param(*s, i as int),
{
    if i == 0 {
        s.x1
    } else if i == 1 {
        s.y1
    } else if i == 2 {
        s.x2
    } else if i == 3 {
        s.y2
    } else {
        s.color
    }
}

fn set_param(s: Shape, i: usize, v: i32) -> (r: Shape)
    ensures
        r == with_param(s, i as int, v),
{
    if i == 0 {
        Shape { x1: v, ..s }
    } else if i == 1 {
        Shape { y1: v, ..s }
    } else if i == 2 {
        Shape { x2: v, ..s }
    } else if i == 3 {
        Shape { y2: v, ..s }
    } else {
        Shape { color: v, ..s }
    }
}

/// Candidate multiplier `j` as a numerator and a denominator.
pub fn multiplier(c: &SearchConfig, j: usize) -> (r: (i64, i64))
    requires
        j < PARAM_COUNT,
    ensures
        r.0 == mult_num(*c, j as int),
        r.1 == mult_den(*c, j as int),
{
    if j == 0 {
        (-(c.accel_num as i64), c.accel_den as i64)
    } else if j == 1 {
        (-(c.accel_den as i64), c.accel_num as i64)
    } else if j == 2 {
        (0, 1)
    } else if j == 3 {
        (c.accel_den as i64, c.accel_num as i64)
    } else {
        (c.accel_num as i64, c.accel_den as i64)
    }
}

fn trunc_div_exec(n: i64, d: i64) -> (q: i64)
    requires
        d > 0,
        n > i64::MIN,
    ensures
        q == trunc_div(n as int, d as int),
{
    if n >= 0 {
        n / d
    } else {
        -((-n) / d)
    }
}

/// A candidate with offset zero leaves the shape as it is.
proof fn lemma_zero_trial(c: SearchConfig, s: Shape, step: int, i: int)
    ensures
        trial(c, s, step, i, ZERO_CANDIDATE as int) == s,
{
    assert(offset(c, step, ZERO_CANDIDATE as int) == 0);
}

/// The chosen candidate has the least error of candidates `0 .. k`, and
/// every earlier candidate has a larger one.
pub proof fn lemma_best_among(
    base: Raster,
    target: Raster,
    c: SearchConfig,
    s: Shape,
    step: int,
    i: int,
    k: int,
)
    requires
        k >= 1,
    ensures
        0 <= best_among(base, target, c, s, step, i, k) < k,
        forall|j: int|
            0 <= j < k ==> trial_error(base, target, c, s, step, i, best_among(base, target, c, s, step, i, k))
                <= #[trigger] trial_error(base, target, c, s, step, i, j),
        forall|j: int|
            0 <= j < best_among(base, target, c, s, step, i, k) ==> #[trigger] trial_error(base, target, c, s, step, i, j)
                > trial_error(base, target, c, s, step, i, best_among(base, target, c, s, step, i, k)),
    decreases k,
{
    if k > 1 {
        lemma_best_among(base, target, c, s, step, i, k - 1);
    }
}

/// One step of tuning never raises the error of the rendered shape.
proof fn lemma_tune_monotone(base: Raster, target: Raster, c: SearchConfig, s: Shape, step: int, i: int)
    ensures
        objective(base, target, c.alpha as int, trial(c, s, step, i, best_among(base, target, c, s, step, i, 5)))
            <= objective(base, target, c.alpha as int, s),
{
    lemma_best_among(base, target, c, s, step, i, 5);
    lemma_zero_trial(c, s, step, i);
    assert(trial_error(base, target, c, s, step, i, 2) == objective(base, target, c.alpha as int, s));
}

/// A sweep over the parameters never raises the error of the rendered shape.
pub proof fn lemma_sweep_monotone(
    base: Raster,
    target: Raster,
    c: SearchConfig,
    s: Shape,
    steps: Seq<i64>,
    i: int,
)
    ensures
        objective(base, target, c.alpha as int, sweep(base, target, c, s, steps, i).0)
            <= objective(base, target, c.alpha as int, s),
    decreases PARAM_COUNT - i,
{
    if 0 <= i < PARAM_COUNT {
        let b = best_among(base, target, c, s, steps[i] as int, i, PARAM_COUNT as int);
        lemma_tune_monotone(base, target, c, s, steps[i] as int, i);
        lemma_sweep_monotone(
            base,
            target,
            c,
            trial(c, s, steps[i] as int, i, b),
            steps.update(i, rescaled(c, steps[i] as int, b) as i64),
            i + 1,
        );
    }
}

/// A run of at least one round takes at least one round and at most the
/// rounds it was given, and ends on a shape no worse than its start.
pub proof fn lemma_search_bounds(
    base: Raster,
    target: Raster,
    c: SearchConfig,
    s: Shape,
    steps: Seq<i64>,
    remaining: int,
    done: int,
)
    requires
        remaining >= 1,
    ensures
        done + 1 <= search(base, target, c, s, steps, remaining, done).1 <= done + remaining,
        objective(base, target, c.alpha as int, search(base, target, c, s, steps, remaining, done).0)
            <= objective(base, target, c.alpha as int, s),
    decreases remaining,
{
    let sw = sweep(base, target, c, s, steps, 0);
    lemma_sweep_monotone(base, target, c, s, steps, 0);
    let alpha = c.alpha as int;
    if !stops(c, objective(base, target, alpha, s), objective(base, target, alpha, sw.0), target.samples.len() as int) {
        assert(search(base, target, c, s, steps, remaining, done) == search(
            base,
            target,
            c,
            sw.0,
            sw.1,
            remaining - 1,
            done + 1,
        ));
        if remaining > 1 {
            lemma_search_bounds(base, target, c, sw.0, sw.1, remaining - 1, done + 1);
        } else {
            assert(search(base, target, c, sw.0, sw.1, 0, done + 1) == (sw.0, done + 1));
        }
    }
}

/// The error against `target` of `base` with `s` rendered onto it.
fn error_of(base: &PixelBuffer, target: &PixelBuffer, alpha: u32, s: Shape) -> (e: u128)
    requires
        base.wf(),
        target.wf(),
        base@.same_dims(target@),
        alpha <= ALPHA_SCALE,
    ensures
        e == objective(base@, target@, alpha as int, s),
{
    let img = draw(s, base, alpha);
    match squared_error(&img, target) {
        Ok(v) => v,
        Err(_) => 0,
    }
}

fn trial_shape(c: &SearchConfig, s: Shape, step: i64, i: usize, j: usize) -> (r: Shape)
    requires
        c.wf(),
        -STEP_LIMIT <= step <= STEP_LIMIT,
        i < PARAM_COUNT,
        j < PARAM_COUNT,
    ensures
        r == trial(*c, s, step as int, i as int, j as int),
{
    let (num, den) = multiplier(c, j);
    proof {
        assert(-1_000_000_000_000_000 <= step * num <= 1_000_000_000_000_000) by (nonlinear_arith)
            requires
                -STEP_LIMIT <= step <= STEP_LIMIT,
                -1000 <= num <= 1000,
        ;
    }
    let off: i64 = trunc_div_exec(step * num, den * STEP_SCALE);
    let v: i64 = get_param(&s, i) as i64 + off;
    let clamped: i32 = if v < i32::MIN as i64 {
        i32::MIN
    } else if v > i32::MAX as i64 {
        i32::MAX
    } else {
        v as i32
    };
    set_param(s, i, clamped)
}

fn rescale(c: &SearchConfig, step: i64, j: usize) -> (r: i64)
    requires
        c.wf(),
        -STEP_LIMIT <= step <= STEP_LIMIT,
        j < PARAM_COUNT,
    ensures
        r == rescaled(*c, step as int, j as int),
        -STEP_LIMIT <= r <= STEP_LIMIT,
{
    let (num, den) = if j == ZERO_CANDIDATE {
        (c.accel_den as i64, c.accel_num as i64)
    } else {
        multiplier(c, j)
    };
    proof {
        assert(-1_000_000_000_000_000 <= step * num <= 1_000_000_000_000_000) by (nonlinear_arith)
            requires
                -STEP_LIMIT <= step <= STEP_LIMIT,
                -1000 <= num <= 1000,
        ;
    }
    let q: i64 = trunc_div_exec(step * num, den);
    if q < -STEP_LIMIT {
        -STEP_LIMIT
    } else if q > STEP_LIMIT {
        STEP_LIMIT
    } else {
        q
    }
}

/// Tunes parameter `i` of `s`: tries every candidate multiplier of `step`
/// and returns the shape moved by the first best one, with the new step.
pub fn tune_parameter(
    base: &PixelBuffer,
    target: &PixelBuffer,
    c: &SearchConfig,
    s: Shape,
    step: i64,
    i: usize,
) -> (r: (Shape, i64))
    requires
        base.wf(),
        target.wf(),
        base@.same_dims(target@),
        c.wf(),
        -STEP_LIMIT <= step <= STEP_LIMIT,
        i < PARAM_COUNT,
    ensures
        ({
            let b = best_among(base@, target@, *c, s, step as int, i as int, PARAM_COUNT as int);
            &&& r.0 == trial(*c, s, step as int, i as int, b)
            &&& r.1 == rescaled(*c, step as int, b)
        }),
        -STEP_LIMIT <= r.1 <= STEP_LIMIT,
{
    let mut best: usize = 0;
    let mut best_err: u128 = error_of(base, target, c.alpha, trial_shape(c, s, step, i, 0));
    let mut j: usize = 1;
    while j < PARAM_COUNT
        invariant
            base.wf(),
            target.wf(),
            base@.same_dims(target@),
            c.wf(),
            -STEP_LIMIT <= step <= STEP_LIMIT,
            i < PARAM_COUNT,
            1 <= j <= PARAM_COUNT,
            best == best_among(base@, target@, *c, s, step as int, i as int, j as int),
            best_err == trial_error(base@, target@, *c, s, step as int, i as int, best as int),
        decreases PARAM_COUNT - j,
    {
        proof {
            lemma_best_among(base@, target@, *c, s, step as int, i as int, j as int);
        }
        let e: u128 = error_of(base, target, c.alpha, trial_shape(c, s, step, i, j));
        if e < best_err {
            best = j;
            best_err = e;
        }
        j = j + 1;
    }
    proof {
        lemma_best_among(base@, target@, *c, s, step as int, i as int, PARAM_COUNT as int);
    }
    (trial_shape(c, s, step, i, best), rescale(c, step, best))
}

/// One round of the search: tunes the five parameters in order.
pub fn search_round(
    base: &PixelBuffer,
    target: &PixelBuffer,
    c: &SearchConfig,
    s: Shape,
    steps: Vec<i64>,
) -> (r: (Shape, Vec<i64>))
    requires
        base.wf(),
        target.wf(),
        base@.same_dims(target@),
        c.wf(),
        steps_in_range(steps@),
    ensures
        (r.0, r.1@) == sweep(base@, target@, *c, s, steps@, 0),
        steps_in_range(r.1@),
{
    let mut cur: Shape = s;
    let mut st: Vec<i64> = steps;
    let mut i: usize = 0;
    while i < PARAM_COUNT
        invariant
            base.wf(),
            target.wf(),
            base@.same_dims(target@),
            c.wf(),
            i <= PARAM_COUNT,
            steps_in_range(st@),
            sweep(base@, target@, *c, s, steps@, 0) == sweep(base@, target@, *c, cur, st@, i as int),
        decreases PARAM_COUNT - i,
    {
        let (next, next_step) = tune_parameter(base, target, c, cur, st[i], i);
        cur = next;
        st[i] = next_step;
        i = i + 1;
    }
    (cur, st)
}

fn stops_exec(c: &SearchConfig, before: u128, after: u128, n: usize) -> (r: bool)
    ensures
        r == stops(*c, before as int, after as int, n as int),
{
    proof {
        assert(c.epsilon * n <= 0xFFFF_FFFF_FFFF_FFFFint * 0xFFFF_FFFF_FFFF_FFFFint) by (nonlinear_arith)
            requires
                c.epsilon <= 0xFFFF_FFFF_FFFF_FFFFint,
                n <= 0xFFFF_FFFF_FFFF_FFFFint,
        ;
    }
    let bound: u128 = c.epsilon as u128 * n as u128;
    let large: bool = before > after && before - after > bound;
    match c.stop_rule {
        StopRule::EarlyAccept => large,
        StopRule::Stagnation => !large,
    }
}

/// Runs the search from `start` against `target` on the canvas `base`.
///
/// Fails when the two buffers differ in size. The result takes between one
/// round and the round cap, and renders to an error no larger than that of
/// `start`.
pub fn optimize(base: &PixelBuffer, target: &PixelBuffer, start: Shape, c: &SearchConfig) -> (r: Result<
    Optimized,
    ApproxError,
>)
    requires
        base.wf(),
        target.wf(),
        c.wf(),
    ensures
        base@.same_dims(target@) <==> r is Ok,
        r matches Err(e) ==> e == ApproxError::DimensionMismatch,
        r matches Ok(o) ==> {
            &&& (o.shape, o.rounds as int) == search(
                base@,
                target@,
                *c,
                start,
                c.initial_steps@,
                c.round_cap as int,
                0,
            )
            &&& 1 <= o.rounds <= c.round_cap
            &&& objective(base@, target@, c.alpha as int, o.shape) <= objective(
                base@,
                target@,
                c.alpha as int,
                start,
            )
        },
{
    if base.width() != target.width() || base.height() != target.height() {
        return Err(ApproxError::DimensionMismatch);
    }
    let n: usize = target.samples().len();
    let mut steps: Vec<i64> = Vec::new();
    let mut k: usize = 0;
    while k < PARAM_COUNT
        invariant
            k <= PARAM_COUNT,
            c.wf(),
            steps@ == c.initial_steps@.take(k as int),
        decreases PARAM_COUNT - k,
    {
        steps.push(c.initial_steps[k]);
        k = k + 1;
        assert(steps@ =~= c.initial_steps@.take(k as int));
    }
    assert(steps@ =~= c.initial_steps@);
    let mut cur: Shape = start;
    let mut rounds: u32 = 0;
    while rounds < c.round_cap
        invariant
            base.wf(),
            target.wf(),
            base@.same_dims(target@),
            c.wf(),
            n == target@.samples.len(),
            rounds <= c.round_cap,
            steps_in_range(steps@),
            search(base@, target@, *c, start, c.initial_steps@, c.round_cap as int, 0) == search(
                base@,
                target@,
                *c,
                cur,
                steps@,
                c.round_cap - rounds,
                rounds as int,
            ),
        decreases c.round_cap - rounds,
    {
        let before: u128 = error_of(base, target, c.alpha, cur);
        let (next, next_steps) = search_round(base, target, c, cur, steps);
        let after: u128 = error_of(base, target, c.alpha, next);
        rounds = rounds + 1;
        if stops_exec(c, before, after, n) {
            assert(search(base@, target@, *c, cur, steps@, c.round_cap - rounds + 1, rounds - 1) == (
            next, rounds as int));
            proof {
                lemma_search_bounds(base@, target@, *c, start, c.initial_steps@, c.round_cap as int, 0);
            }
            return Ok(Optimized { shape: next, rounds });
        }
        cur = next;
        steps = next_steps;
    }
    proof {
        lemma_search_bounds(base@, target@, *c, start, c.initial_steps@, c.round_cap as int, 0);
    }
    Ok(Optimized { shape: cur, rounds })
}

} // verus!
