//! The cross-entropy optimizer: a population search over the network's
//! flat parameter vector. Each generation samples candidates from a
//! diagonal distribution, scores them with rollouts, keeps an elite
//! fraction and refits the distribution to it.
//!
//! All randomness flows through an explicit seedable generator, so a run
//! is a pure function of its seed.

use vstd::prelude::*;
use crate::fixed::{
    clamp_i64, clamp_s, div_trunc, fmul, fmul_s, isqrt, lemma_fmul_s_bound, lemma_mul_bound,
    lemma_tdiv_bound, sqrt_floor_s, tdiv, L_MAX, N_MAX, ORIGIN_LIM, Q_LIM, SCALE,
};
use crate::chain::{clamp_ok, clamps_ok, clip_q_s, count_ok, eff_hi, eff_lo, lengths_ok,
    origin_ok, step_ok, Chain, DELTA_IN_LIM, STEP_MAX};
use crate::fcn::{eval_s, ints_of, params_bounded, Activation, CAP, FCN, P_MAX};
use crate::plan::{com_s, comx_delta_s, jt_delta_s, midpoint_comx_ik, midpoint_comx_target_s,
    shifted_s, vertices_s, Vec2, V2, BAL_DELTA_LIM, GOAL_LIM, REACH_DELTA_LIM};
use crate::ConfigError;

verus! {

/// Multiplier of the linear congruential generator.
pub const RNG_MUL: u64 = 6364136223846793005;

/// Increment of the linear congruential generator.
pub const RNG_INC: u64 = 1442695040888963407;

/// One generator step.
#[verifier::opaque]
pub open spec fn rng_next_s(s: u64) -> u64 {
    s.wrapping_mul(RNG_MUL).wrapping_add(RNG_INC)
}

/// The state after `k` generator steps.
pub open spec fn rng_iter_s(s: u64, k: nat) -> u64
    decreases k,
{
    if k == 0 {
        s
    } else {
        rng_next_s(rng_iter_s(s, (k - 1) as nat))
    }
}

/// Iterating `a + b` steps is iterating `a`, then `b`.
pub proof fn lemma_rng_iter_add(s: u64, a: nat, b: nat)
    ensures
        rng_iter_s(s, a + b) == rng_iter_s(rng_iter_s(s, a), b),
    decreases b,
{
    if b > 0 {
        lemma_rng_iter_add(s, a, (b - 1) as nat);
        assert(a + b == (a + (b - 1) as nat) + 1);
    }
}

/// The draw a fresh state yields in `[0, m)`: the high bits, reduced.
#[verifier::opaque]
pub open spec fn draw_s(s: u64, m: u64) -> u64 {
    (s >> 11) % m
}

/// A seedable pseudo-random generator: a linear congruential step with
/// draws taken from the high bits. Every draw is a pure function of the
/// seed, so runs and tests are reproducible.
pub struct Rng {
    /// Current generator state.
    pub state: u64,
}

impl Rng {
    /// A generator starting at `seed`.
    pub fn new(seed: u64) -> (r: Rng)
        ensures
            r.state == seed,
    {
        Rng { state: seed }
    }

    /// Advances one step and returns a draw below `m`.
    pub fn below(&mut self, m: u64) -> (r: u64)
        requires
            m > 0,
        ensures
            final(self).state == rng_next_s(old(self).state),
            r == draw_s(rng_next_s(old(self).state), m),
            r < m,
    {
        proof {
            reveal(rng_next_s);
            reveal(draw_s);
        }
        let next = self.state.wrapping_mul(RNG_MUL).wrapping_add(RNG_INC);
        self.state = next;
        (next >> 11) % m
    }
}

/// Draw below a positive fixed-point bound, as an `i64`.
pub fn below_i64(rng: &mut Rng, m: i64) -> (r: i64)
    requires
        m > 0,
    ensures
        final(rng).state == rng_next_s(old(rng).state),
        0 <= r < m,
        r == draw_s(rng_next_s(old(rng).state), m as u64),
        draw_s(rng_next_s(old(rng).state), m as u64) < m as u64,
{
    let u = rng.below(m as u64);
    u as i64
}

/// Sum of the first `k` of the twelve unit draws a normal-like sample
/// takes, each uniform below `SCALE`.
pub open spec fn z_sum_s(s: u64, k: nat) -> int
    decreases k,
{
    if k == 0 {
        0
    } else {
        z_sum_s(s, (k - 1) as nat) + draw_s(rng_iter_s(s, k), SCALE as u64)
    }
}

/// One centered sample: twelve uniform unit draws summed, less their mean,
/// giving approximately a standard normal value in fixed point.
pub open spec fn z_s(s: u64) -> int {
    z_sum_s(s, 12) - 6 * SCALE
}

/// Element `d` of a candidate parameter vector sampled from the diagonal
/// distribution `(mean, std)` starting at generator state `s`.
pub open spec fn cand_elem_s(s: u64, mean: Seq<i64>, std: Seq<i64>, d: int) -> int {
    clamp_s(
        mean[d] + fmul_s(std[d] as int, z_s(rng_iter_s(s, (12 * d) as nat))),
        -P_MAX as int,
        P_MAX as int,
    )
}

/// Draws one centered, approximately normal value in fixed point: twelve
/// uniform draws summed and centered.
pub fn sample_z(rng: &mut Rng) -> (r: i64)
    ensures
        final(rng).state == rng_iter_s(old(rng).state, 12),
        r == z_s(old(rng).state),
        -6 * SCALE <= r <= 6 * SCALE,
{
    let ghost s0 = rng.state;
    let mut acc: i64 = 0;
    let mut k: usize = 0;
    while k < 12
        invariant
            0 <= k <= 12,
            rng.state == rng_iter_s(s0, k as nat),
            acc == z_sum_s(s0, k as nat),
            0 <= acc <= (k as int) * SCALE,
        decreases 12 - k,
    {
        let u = rng.below(SCALE as u64);
        acc = acc + (u as i64);
        k = k + 1;
    }
    acc - 6 * SCALE
}

/// Samples one candidate parameter vector: per dimension, the mean plus
/// the standard deviation scaled by a fresh centered draw, clamped into
/// the representable parameter range.
pub fn sample_candidate(rng: &mut Rng, mean: &Vec<i64>, std: &Vec<i64>) -> (r: Vec<i64>)
    requires
        mean@.len() == std@.len(),
        params_bounded(mean@),
        params_bounded(std@),
    ensures
        r@.len() == mean@.len(),
        forall|d: int|
            0 <= d < r@.len() ==> #[trigger] r@[d] == cand_elem_s(old(rng).state, mean@, std@, d),
        params_bounded(r@),
        final(rng).state == rng_iter_s(old(rng).state, (12 * mean@.len()) as nat),
    {
    let ghost s0 = rng.state;
    let mut r: Vec<i64> = Vec::new();
    let mut d: usize = 0;
    while d < mean.len()
        invariant
            mean@.len() == std@.len(),
            params_bounded(mean@),
            params_bounded(std@),
            0 <= d <= mean@.len(),
            r@.len() == d,
            forall|t: int| 0 <= t < d ==> #[trigger] r@[t] == cand_elem_s(s0, mean@, std@, t),
            forall|t: int| 0 <= t < d ==> -P_MAX <= #[trigger] r@[t] <= P_MAX,
            rng.state == rng_iter_s(s0, (12 * d) as nat),
        decreases mean@.len() - d,
    {
        proof {
            lemma_rng_iter_add(s0, (12 * d) as nat, 12);
        }
        let z = sample_z(rng);
        proof {
            lemma_mul_bound(std@[d as int] as int, z as int, P_MAX as int, 6 * SCALE as int);
            lemma_fmul_s_bound(std@[d as int] as int, z as int, 600_000_000);
        }
        let v = mean[d] + fmul(std[d], z);
        r.push(clamp_i64(v, -P_MAX, P_MAX));
        d = d + 1;
    }
    r
}

/// Count of `true` entries among the first `i` flags.
pub open spec fn count_true_s(s: Seq<bool>, i: int) -> int
    decreases i,
{
    if i <= 0 {
        0
    } else {
        count_true_s(s, i - 1) + if s[i - 1] {
            1int
        } else {
            0int
        }
    }
}

/// If every flag is set, the count is the length.
proof fn lemma_count_true_all(s: Seq<bool>, i: int)
    requires
        0 <= i <= s.len(),
        forall|j: int| 0 <= j < s.len() ==> #[trigger] s[j],
    ensures
        count_true_s(s, i) == i,
    decreases i,
{
    if i > 0 {
        lemma_count_true_all(s, i - 1);
    }
}

/// Setting one clear flag raises the count over any prefix containing it
/// by one.
proof fn lemma_count_true_update(s: Seq<bool>, j: int, i: int)
    requires
        0 <= j < s.len(),
        !s[j],
        0 <= i <= s.len(),
    ensures
        count_true_s(s.update(j, true), i) == count_true_s(s, i) + if j < i {
            1int
        } else {
            0int
        },
    decreases i,
{
    if i > 0 {
        lemma_count_true_update(s, j, i - 1);
    }
}

/// The unpicked index with the greatest score among the first `j`,
/// earliest first on ties; the length itself when all are picked.
pub open spec fn scan_best_s(scores: Seq<i64>, picked: Seq<usize>, j: int) -> int
    decreases j,
{
    if j <= 0 {
        scores.len() as int
    } else {
        let prev = scan_best_s(scores, picked, j - 1);
        if picked.contains((j - 1) as usize) {
            prev
        } else if prev == scores.len() || scores[j - 1] > scores[prev] {
            j - 1
        } else {
            prev
        }
    }
}

/// The first `e` elite indices, best first: repeated first-maximum scans.
pub open spec fn picks_s(scores: Seq<i64>, e: int) -> Seq<usize>
    decreases e,
{
    if e <= 0 {
        Seq::empty()
    } else {
        let prev = picks_s(scores, e - 1);
        prev.push(scan_best_s(scores, prev, scores.len() as int) as usize)
    }
}

/// Picks the indices of the `k` best-scoring candidates, best first:
/// distinct, and every selected score at least every unselected score.
/// The order is fully pinned: ties go to the earlier index.
#[verifier::loop_isolation(false)]
pub fn select_elites(scores: &Vec<i64>, k: usize) -> (r: Vec<usize>)
    requires
        1 <= k <= scores@.len(),
    ensures
        r@ == picks_s(scores@, k as int),
        r@.len() == k,
        forall|a: int| 0 <= a < k ==> #[trigger] r@[a] < scores@.len(),
        forall|a: int, b: int| 0 <= a < b < k ==> r@[a] != r@[b],
        forall|a: int, b: int|
            0 <= a <= b < k ==> scores@[#[trigger] r@[a] as int] >= scores@[#[trigger] r@[b] as int],
        forall|a: int, j: int|
            0 <= a < k && 0 <= j < scores@.len() && (forall|b: int| 0 <= b < k ==> r@[b] != j)
                ==> scores@[#[trigger] r@[a] as int] >= #[trigger] scores@[j],
{
    let n = scores.len();
    let mut used: Vec<bool> = Vec::new();
    let mut i: usize = 0;
    while i < n
        invariant
            0 <= i <= n,
            used@.len() == i,
            forall|t: int| 0 <= t < i ==> !(#[trigger] used@[t]),
        decreases n - i,
    {
        used.push(false);
        i = i + 1;
    }
    proof {
        lemma_count_true_zero(used@, n as int);
    }
    let mut r: Vec<usize> = Vec::new();
    let mut e: usize = 0;
    while e < k
        invariant
            used@.len() == n,
            r@.len() == e,
            0 <= e <= k,
            count_true_s(used@, n as int) == e,
            forall|a: int| 0 <= a < e ==> #[trigger] r@[a] < n,
            forall|a: int, b: int| 0 <= a < b < e ==> r@[a] != r@[b],
            forall|j: int|
                0 <= j < n ==> ((#[trigger] used@[j]) <==> (exists|a: int|
                    0 <= a < e && r@[a] == j)),
            forall|a: int, b: int|
                0 <= a <= b < e ==> scores@[#[trigger] r@[a] as int] >= scores@[
                    #[trigger] r@[b] as int
                ],
            forall|a: int, j: int|
                0 <= a < e && 0 <= j < n && !used@[j] ==> scores@[#[trigger] r@[a] as int]
                    >= #[trigger] scores@[j],
            r@ == picks_s(scores@, e as int),
        decreases k - e,
    {
        proof {
            assert forall|t: int| 0 <= t < n implies ((#[trigger] used@[t]) <==> r@.contains(
                t as usize,
            )) by {
                if used@[t] {
                    let a = choose|a: int| 0 <= a < e && r@[a] == t;
                    assert(r@[a] == t as usize);
                }
                if r@.contains(t as usize) {
                    let i = choose|i: int| 0 <= i < r@.len() && r@[i] == t as usize;
                    assert(0 <= i < e && r@[i] == t);
                }
            }
        }
        let mut best: usize = 0;
        let mut found: bool = false;
        let mut j: usize = 0;
        while j < n
            invariant
                0 <= j <= n,
                forall|t: int| 0 <= t < n ==> ((#[trigger] used@[t]) <==> r@.contains(t as usize)),
                found ==> best < n && !used@[best as int],
                found ==> (forall|t: int|
                    0 <= t < j && !used@[t] ==> scores@[best as int] >= #[trigger] scores@[t]),
                !found ==> (forall|t: int| 0 <= t < j ==> #[trigger] used@[t]),
                !found <==> scan_best_s(scores@, r@, j as int) == n,
                found ==> best == scan_best_s(scores@, r@, j as int),
            decreases n - j,
        {
            if !used[j] {
                if !found {
                    best = j;
                    found = true;
                } else if scores[j] > scores[best] {
                    best = j;
                }
            }
            j = j + 1;
        }
        proof {
            if !found {
                lemma_count_true_all(used@, n as int);
                assert(false);
            }
        }
        let ghost old_used = used@;
        let ghost old_r = r@;
        used.set(best, true);
        r.push(best);
        proof {
            lemma_count_true_update(old_used, best as int, n as int);
            assert(r@[e as int] == best);
            assert(forall|a: int| 0 <= a < e ==> #[trigger] r@[a] == old_r[a]);
            assert(!old_used[best as int]);
            assert(forall|a: int| 0 <= a < e ==> #[trigger] old_r[a] != best) by {
                assert(!(exists|a: int| 0 <= a < e && old_r[a] == best));
            }
            assert forall|jj: int| 0 <= jj < n implies ((#[trigger] used@[jj]) <==> (exists|a: int|
                0 <= a < e + 1 && r@[a] == jj)) by {
                if jj == best {
                    assert(used@[jj]);
                    assert(0 <= e < e + 1 && r@[e as int] == jj);
                } else {
                    assert(used@[jj] == old_used[jj]);
                    if old_used[jj] {
                        let a = choose|a: int| 0 <= a < e && old_r[a] == jj;
                        assert(0 <= a < e + 1 && r@[a] == jj);
                    }
                    if exists|a: int| 0 <= a < e + 1 && r@[a] == jj {
                        let a = choose|a: int| 0 <= a < e + 1 && r@[a] == jj;
                        assert(a != e);
                        assert(old_r[a] == jj);
                        assert(old_used[jj]);
                    }
                }
            }
        }
        e = e + 1;
    }
    r
}

/// A freshly filled flag list counts zero.
proof fn lemma_count_true_zero(s: Seq<bool>, i: int)
    requires
        0 <= i <= s.len(),
        forall|t: int| 0 <= t < s.len() ==> !(#[trigger] s[t]),
    ensures
        count_true_s(s, i) == 0,
    decreases i,
{
    if i > 0 {
        lemma_count_true_zero(s, i - 1);
    }
}

/// The element sequences of a vector of elite vectors.
pub open spec fn rows_s(es: Seq<Vec<i64>>) -> Seq<Seq<i64>> {
    Seq::new(es.len(), |e: int| es[e]@)
}

/// Sum of column `d` over the first `e` elite rows.
pub open spec fn col_sum_s(es: Seq<Seq<i64>>, d: int, e: int) -> int
    decreases e,
{
    if e <= 0 {
        0
    } else {
        col_sum_s(es, d, e - 1) + es[e - 1][d]
    }
}

/// The refit mean of dimension `d`: the elite average, truncated.
pub open spec fn mean_elem_s(es: Seq<Seq<i64>>, d: int) -> int {
    tdiv(col_sum_s(es, d, es.len() as int), es.len() as int)
}

/// Sum of squared deviations of column `d` from `m` over the first `e`
/// elite rows.
pub open spec fn var_sum_s(es: Seq<Seq<i64>>, d: int, m: int, e: int) -> int
    decreases e,
{
    if e <= 0 {
        0
    } else {
        var_sum_s(es, d, m, e - 1) + (es[e - 1][d] - m) * (es[e - 1][d] - m)
    }
}

/// The refit variance of dimension `d`: the average squared deviation from
/// the refit mean, truncated.
pub open spec fn var_elem_s(es: Seq<Seq<i64>>, d: int) -> int {
    tdiv(var_sum_s(es, d, mean_elem_s(es, d), es.len() as int), es.len() as int)
}

/// The refit standard deviation of dimension `d`: the square root of the
/// variance, inflated by the noise term, kept in the parameter range.
pub open spec fn std_elem_s(es: Seq<Seq<i64>>, d: int, noise: int) -> int {
    clamp_s(sqrt_floor_s(var_elem_s(es, d)) + noise, 0, P_MAX as int)
}

/// Refits the diagonal distribution to the elite vectors: per dimension,
/// the new mean is the elite average and the new standard deviation the
/// elite deviation inflated by `noise`, to keep the search from collapsing.
#[verifier::loop_isolation(false)]
pub fn refit(elites: &Vec<Vec<i64>>, noise: i64) -> (r: (Vec<i64>, Vec<i64>))
    requires
        1 <= elites@.len() <= 128,
        forall|e: int|
            0 <= e < elites@.len() ==> (#[trigger] elites@[e])@.len() == elites@[0]@.len(),
        forall|e: int| 0 <= e < elites@.len() ==> params_bounded((#[trigger] elites@[e])@),
        0 <= noise <= P_MAX,
    ensures
        r.0@.len() == elites@[0]@.len(),
        r.1@.len() == elites@[0]@.len(),
        forall|d: int|
            0 <= d < r.0@.len() ==> #[trigger] r.0@[d] == mean_elem_s(rows_s(elites@), d),
        forall|d: int|
            0 <= d < r.1@.len() ==> #[trigger] r.1@[d] == std_elem_s(
                rows_s(elites@),
                d,
                noise as int,
            ),
        params_bounded(r.0@),
        params_bounded(r.1@),
        forall|d: int| 0 <= d < r.1@.len() ==> 0 <= #[trigger] r.1@[d],
{
    let count = elites.len();
    let dim = elites[0].len();
    let mut mean: Vec<i64> = Vec::new();
    let mut std: Vec<i64> = Vec::new();
    let mut d: usize = 0;
    while d < dim
        invariant
            0 <= d <= dim,
            mean@.len() == d,
            std@.len() == d,
            forall|t: int|
                0 <= t < d ==> #[trigger] mean@[t] == mean_elem_s(rows_s(elites@), t),
            forall|t: int|
                0 <= t < d ==> #[trigger] std@[t] == std_elem_s(rows_s(elites@), t, noise as int),
            forall|t: int| 0 <= t < d ==> -P_MAX <= #[trigger] mean@[t] <= P_MAX,
            forall|t: int| 0 <= t < d ==> 0 <= #[trigger] std@[t] <= P_MAX,
        decreases dim - d,
    {
        let mut sum: i64 = 0;
        let mut e: usize = 0;
        while e < count
            invariant
                0 <= e <= count,
                0 <= d < dim,
                sum == col_sum_s(rows_s(elites@), d as int, e as int),
                -(e as int) * P_MAX <= sum <= (e as int) * P_MAX,
            decreases count - e,
        {
            sum = sum + elites[e][d];
            e = e + 1;
        }
        proof {
            lemma_tdiv_bound(sum as int, count as int, P_MAX as int);
        }
        let m = div_trunc(sum, count as i64);
        let mut vsum: i64 = 0;
        let mut e: usize = 0;
        while e < count
            invariant
                0 <= e <= count,
                0 <= d < dim,
                -P_MAX <= m <= P_MAX,
                m == mean_elem_s(rows_s(elites@), d as int),
                vsum == var_sum_s(rows_s(elites@), d as int, m as int, e as int),
                0 <= vsum <= (e as int) * 40_000_000_000_000_000,
            decreases count - e,
        {
            let diff = elites[e][d] - m;
            proof {
                lemma_mul_bound(diff as int, diff as int, 200_000_000, 200_000_000);
                assert(diff as int * diff as int >= 0) by (nonlinear_arith);
            }
            let sq = diff * diff;
            vsum = vsum + sq;
            e = e + 1;
        }
        proof {
            lemma_tdiv_bound(vsum as int, count as int, 40_000_000_000_000_000);
            assert(tdiv(vsum as int, count as int) >= 0) by {
                vstd::arithmetic::div_mod::lemma_div_pos_is_pos(vsum as int, count as int);
            }
        }
        let var = div_trunc(vsum, count as i64);
        let sd = isqrt(var);
        mean.push(m);
        std.push(clamp_i64(sd + noise, 0, P_MAX));
        d = d + 1;
    }
    (mean, std)
}

/// Most candidates per generation.
pub const B_MAX: usize = 128;

/// Most episodes per candidate.
pub const E_MAX: usize = 128;

/// Most ticks per episode.
pub const T_MAX: usize = 10_000;

/// Most generations per run.
pub const G_MAX: usize = 10_000;

/// Worst per-tick reward: the squared reach error, scaled down by `SCALE`,
/// can cost at most this much.
pub const TICK_COST_LIM: i64 = 600_000_000_000;

/// The x coordinate of the goal drawn from generator state `s`: the first
/// draw, offset into the rectangle.
pub open spec fn goal_x_s(w: &World, s: u64) -> int {
    w.goal_min.x + draw_s(rng_iter_s(s, 1), (w.goal_max.x - w.goal_min.x + 1) as u64)
}

/// The y coordinate of the goal: the second draw.
pub open spec fn goal_y_s(w: &World, s: u64) -> int {
    w.goal_min.y + draw_s(rng_iter_s(s, 2), (w.goal_max.y - w.goal_min.y + 1) as u64)
}

/// Joint `j`'s starting angle drawn from generator state `s`: the
/// `j + 1`-th draw, offset into the joint's clamp range.
pub open spec fn start_q_s(w: &World, s: u64, j: int) -> int {
    let c = w.q_clamps@[j];
    eff_lo(c) + draw_s(rng_iter_s(s, (j + 1) as nat), (eff_hi(c) - eff_lo(c) + 1) as u64)
}

/// The task descriptor: the chain to build each episode and the rectangle
/// goals are drawn from.
pub struct World {
    /// Chain anchor.
    pub origin: Vec2,
    /// Link lengths.
    pub ls: Vec<i64>,
    /// Per-joint angle clamps.
    pub q_clamps: Vec<(Option<i64>, Option<i64>)>,
    /// Lower corner of the goal region.
    pub goal_min: Vec2,
    /// Upper corner of the goal region.
    pub goal_max: Vec2,
    /// Per-tick step scale handed to the chain.
    pub step: i64,
}

impl World {
    /// Valid task: a well-formed chain description and a non-empty goal
    /// rectangle inside the reachable region.
    pub open spec fn wf(&self) -> bool {
        &&& count_ok(self.ls@)
        &&& lengths_ok(self.ls@)
        &&& self.q_clamps@.len() == self.ls@.len()
        &&& clamps_ok(self.q_clamps@)
        &&& origin_ok(self.origin)
        &&& step_ok(self.step)
        &&& -GOAL_LIM <= self.goal_min.x <= self.goal_max.x <= GOAL_LIM
        &&& -GOAL_LIM <= self.goal_min.y <= self.goal_max.y <= GOAL_LIM
    }

    /// Checks the task descriptor against every rule `wf` states, so that
    /// unverified callers can establish it at run time. Each error comes
    /// exactly on the inputs its variant names, in the order written here.
    #[verifier::loop_isolation(false)]
    pub fn check(&self) -> (r: Result<(), ConfigError>)
        ensures
            r == Result::<(), ConfigError>::Err(ConfigError::DimensionMismatch) <==> self.q_clamps@.len() != self.ls@.len(),
            r == Result::<(), ConfigError>::Err(ConfigError::LinkCount) <==> (self.q_clamps@.len()
                == self.ls@.len() && !count_ok(self.ls@)),
            r == Result::<(), ConfigError>::Err(ConfigError::LinkLength) <==> (self.q_clamps@.len()
                == self.ls@.len() && count_ok(self.ls@) && !lengths_ok(self.ls@)),
            r == Result::<(), ConfigError>::Err(ConfigError::ClampRange) <==> (self.q_clamps@.len()
                == self.ls@.len() && count_ok(self.ls@) && lengths_ok(self.ls@) && !clamps_ok(
                self.q_clamps@,
            )),
            r == Result::<(), ConfigError>::Err(ConfigError::OriginRange) <==> (self.q_clamps@.len()
                == self.ls@.len() && count_ok(self.ls@) && lengths_ok(self.ls@) && clamps_ok(
                self.q_clamps@,
            ) && !origin_ok(self.origin)),
            r == Result::<(), ConfigError>::Err(ConfigError::RateRange) <==> (self.q_clamps@.len()
                == self.ls@.len() && count_ok(self.ls@) && lengths_ok(self.ls@) && clamps_ok(
                self.q_clamps@,
            ) && origin_ok(self.origin) && !step_ok(self.step)),
            r == Result::<(), ConfigError>::Err(ConfigError::GoalRange) <==> (self.q_clamps@.len()
                == self.ls@.len() && count_ok(self.ls@) && lengths_ok(self.ls@) && clamps_ok(
                self.q_clamps@,
            ) && origin_ok(self.origin) && step_ok(self.step) && !(-GOAL_LIM <= self.goal_min.x
                <= self.goal_max.x <= GOAL_LIM && -GOAL_LIM <= self.goal_min.y <= self.goal_max.y
                <= GOAL_LIM)),
            r is Ok <==> self.wf(),
    {
        if self.q_clamps.len() != self.ls.len() {
            return Err(ConfigError::DimensionMismatch);
        }
        if self.ls.len() < 1 || self.ls.len() > N_MAX {
            return Err(ConfigError::LinkCount);
        }
        let mut j: usize = 0;
        while j < self.ls.len()
            invariant
                0 <= j <= self.ls@.len(),
                forall|t: int| 0 <= t < j ==> 0 < #[trigger] self.ls@[t] <= L_MAX,
            decreases self.ls@.len() - j,
        {
            if self.ls[j] <= 0 || self.ls[j] > L_MAX {
                return Err(ConfigError::LinkLength);
            }
            j = j + 1;
        }
        let mut j: usize = 0;
        while j < self.q_clamps.len()
            invariant
                0 <= j <= self.q_clamps@.len(),
                forall|t: int| 0 <= t < j ==> clamp_ok(#[trigger] self.q_clamps@[t]),
            decreases self.q_clamps@.len() - j,
        {
            let c = self.q_clamps[j];
            let lo: i64 = match c.0 {
                Some(lo) => lo,
                None => -Q_LIM,
            };
            let hi: i64 = match c.1 {
                Some(hi) => hi,
                None => Q_LIM,
            };
            if lo < -Q_LIM || hi > Q_LIM || lo > hi {
                return Err(ConfigError::ClampRange);
            }
            j = j + 1;
        }
        if self.origin.x < -ORIGIN_LIM || self.origin.x > ORIGIN_LIM || self.origin.y
            < -ORIGIN_LIM || self.origin.y > ORIGIN_LIM {
            return Err(ConfigError::OriginRange);
        }
        if self.step <= 0 || self.step > STEP_MAX {
            return Err(ConfigError::RateRange);
        }
        if self.goal_min.x < -GOAL_LIM || self.goal_max.x > GOAL_LIM || self.goal_min.x
            > self.goal_max.x || self.goal_min.y < -GOAL_LIM || self.goal_max.y > GOAL_LIM
            || self.goal_min.y > self.goal_max.y {
            return Err(ConfigError::GoalRange);
        }
        Ok(())
    }

    /// Draws a goal uniformly from the configured rectangle: one draw per
    /// axis, each a pure function of the generator state.
    pub fn sample_goal(&self, rng: &mut Rng) -> (g: Vec2)
        requires
            self.wf(),
        ensures
            g.x == goal_x_s(self, old(rng).state),
            g.y == goal_y_s(self, old(rng).state),
            self.goal_min.x <= g.x <= self.goal_max.x,
            self.goal_min.y <= g.y <= self.goal_max.y,
            final(rng).state == rng_iter_s(old(rng).state, 2),
    {
        let ghost s0 = rng.state;
        let dx = below_i64(rng, self.goal_max.x - self.goal_min.x + 1);
        proof {
            reveal_with_fuel(rng_iter_s, 3);
            assert(rng.state == rng_iter_s(s0, 1));
        }
        let dy = below_i64(rng, self.goal_max.y - self.goal_min.y + 1);
        proof {
            reveal_with_fuel(rng_iter_s, 3);
            assert(rng.state == rng_iter_s(s0, 2));
        }
        Vec2 { x: self.goal_min.x + dx, y: self.goal_min.y + dy }
    }

    /// Draws starting joint angles uniformly within each clamp: one draw
    /// per joint, each a pure function of the generator state.
    pub fn sample_qs(&self, rng: &mut Rng) -> (qs: Vec<i64>)
        requires
            self.wf(),
        ensures
            qs@.len() == self.ls@.len(),
            forall|j: int|
                0 <= j < qs@.len() ==> #[trigger] qs@[j] == start_q_s(self, old(rng).state, j),
            forall|j: int|
                0 <= j < qs@.len() ==> eff_lo(self.q_clamps@[j]) <= #[trigger] qs@[j] <= eff_hi(
                    self.q_clamps@[j],
                ),
            final(rng).state == rng_iter_s(old(rng).state, self.ls@.len() as nat),
    {
        let ghost s0 = rng.state;
        let mut qs: Vec<i64> = Vec::new();
        let mut j: usize = 0;
        while j < self.ls.len()
            invariant
                self.wf(),
                0 <= j <= self.ls@.len(),
                qs@.len() == j,
                forall|t: int|
                    0 <= t < j ==> #[trigger] qs@[t] == start_q_s(self, s0, t),
                forall|t: int|
                    0 <= t < j ==> eff_lo(self.q_clamps@[t]) <= #[trigger] qs@[t] <= eff_hi(
                        self.q_clamps@[t],
                    ),
                rng.state == rng_iter_s(s0, j as nat),
            decreases self.ls@.len() - j,
        {
            let c = self.q_clamps[j];
            let lo: i64 = match c.0 {
                Some(lo) => lo,
                None => -Q_LIM,
            };
            let hi: i64 = match c.1 {
                Some(hi) => hi,
                None => Q_LIM,
            };
            let u = below_i64(rng, hi - lo + 1);
            proof {
                reveal_with_fuel(rng_iter_s, 2);
                assert(rng.state == rng_iter_s(s0, (j + 1) as nat));
            }
            qs.push(lo + u);
            j = j + 1;
        }
        qs
    }
}

/// The network input a tick encodes: the joint angles, then the goal's
/// offset from the origin.
pub open spec fn tick_input_s(w: &World, goal: V2, qs: Seq<i64>) -> Seq<int> {
    Seq::new(
        qs.len() + 2,
        |u: int|
            if u < qs.len() {
                qs[u] as int
            } else if u == qs.len() {
                goal.x - w.origin.x
            } else {
                goal.y - w.origin.y
            },
    )
}

/// The reach target a tick derives: the goal nudged by the network's first
/// two outputs, clamped into the goal window.
pub open spec fn tick_target_s(
    layers: Seq<(usize, Activation)>,
    params: Seq<i64>,
    w: &World,
    goal: V2,
    qs: Seq<i64>,
) -> V2 {
    let out = eval_s(layers, params, tick_input_s(w, goal, qs));
    V2 {
        x: clamp_s(goal.x + out[0], -GOAL_LIM as int, GOAL_LIM as int),
        y: clamp_s(goal.y + out[1], -GOAL_LIM as int, GOAL_LIM as int),
    }
}

/// Joint `i` after one tick: the summed reach and balance deltas, scaled
/// by the chain's step and clipped into the joint's clamp.
pub open spec fn tick_q_s(
    layers: Seq<(usize, Activation)>,
    params: Seq<i64>,
    w: &World,
    goal: V2,
    qs: Seq<i64>,
    i: int,
) -> i64 {
    let vs = vertices_s(w.origin@, w.ls@, qs);
    let tgt = tick_target_s(layers, params, w, goal, qs);
    let jt = jt_delta_s(vs, tgt, i);
    let bal = comx_delta_s(
        shifted_s(vs),
        com_s(w.origin@, w.ls@, qs).x - midpoint_comx_target_s(w.origin@, tgt),
        i,
    );
    clip_q_s(w.q_clamps@[i], qs[i] + fmul_s(w.step as int, jt + bal)) as i64
}

/// All joints after one tick.
pub open spec fn tick_qs_s(
    layers: Seq<(usize, Activation)>,
    params: Seq<i64>,
    w: &World,
    goal: V2,
    qs: Seq<i64>,
) -> Seq<i64> {
    Seq::new(qs.len(), |i: int| tick_q_s(layers, params, w, goal, qs, i))
}

/// The joint angles after `t` ticks from the start `qs0`.
pub open spec fn run_qs_s(
    layers: Seq<(usize, Activation)>,
    params: Seq<i64>,
    w: &World,
    goal: V2,
    qs0: Seq<i64>,
    t: int,
) -> Seq<i64>
    decreases t,
{
    if t <= 0 {
        qs0
    } else {
        tick_qs_s(layers, params, w, goal, run_qs_s(layers, params, w, goal, qs0, t - 1))
    }
}

/// The squared reach error a tick charges, scaled down by `SCALE`.
pub open spec fn tick_cost_s(w: &World, goal: V2, qs: Seq<i64>) -> int {
    let e = vertices_s(w.origin@, w.ls@, qs)[qs.len() as int];
    tdiv((goal.x - e.x) * (goal.x - e.x) + (goal.y - e.y) * (goal.y - e.y), SCALE as int)
}

/// The accumulated reward after `t` ticks: each tick's cost subtracted.
pub open spec fn run_reward_s(
    layers: Seq<(usize, Activation)>,
    params: Seq<i64>,
    w: &World,
    goal: V2,
    qs0: Seq<i64>,
    t: int,
) -> int
    decreases t,
{
    if t <= 0 {
        0
    } else {
        run_reward_s(layers, params, w, goal, qs0, t - 1) - tick_cost_s(
            w,
            goal,
            run_qs_s(layers, params, w, goal, qs0, t),
        )
    }
}

/// The goal of the episode begun at generator state `s`.
pub open spec fn ep_goal_s(w: &World, s: u64) -> V2 {
    V2 { x: goal_x_s(w, s), y: goal_y_s(w, s) }
}

/// The starting angles of the episode begun at state `s`: the per-joint
/// draws after the goal's two, as the chain clips them.
pub open spec fn start_qs_s(w: &World, s: u64) -> Seq<i64> {
    Seq::new(
        w.ls@.len(),
        |j: int| clip_q_s(w.q_clamps@[j], start_q_s(w, rng_iter_s(s, 2), j)) as i64,
    )
}

/// The reward of the whole episode begun at generator state `s`.
pub open spec fn rollout_s(
    layers: Seq<(usize, Activation)>,
    params: Seq<i64>,
    w: &World,
    ticks: int,
    s: u64,
) -> int {
    run_reward_s(layers, params, w, ep_goal_s(w, s), start_qs_s(w, s), ticks)
}

/// Scores one episode: builds a fresh chain for the sampled start, then
/// for each tick asks the network for a reach target, applies the summed
/// reach and balance deltas, and charges the squared distance from the
/// free end to the goal. The reward is never positive and is the exact
/// fold `rollout_s` of the tick recurrence over the entry generator state.
#[verifier::loop_isolation(false)]
#[verifier::rlimit(100)]
pub fn rollout(fcn: &FCN, world: &World, ticks: usize, rng: &mut Rng) -> (r: i64)
    requires
        fcn.wf(),
        world.wf(),
        fcn.in_size() == world.ls@.len() + 2,
        fcn.out_size() >= 2,
        1 <= ticks <= T_MAX,
    ensures
        r == rollout_s(fcn.layers@, fcn.params@, world, ticks as int, old(rng).state),
        final(rng).state == rng_iter_s(old(rng).state, (world.ls@.len() + 2) as nat),
        -(ticks as int) * TICK_COST_LIM <= r <= 0,
{
    let ghost s0 = rng.state;
    let ghost g = ep_goal_s(world, s0);
    let ghost q0 = start_qs_s(world, s0);
    let goal = world.sample_goal(rng);
    let qs = world.sample_qs(rng);
    proof {
        lemma_rng_iter_add(s0, 2, world.ls@.len() as nat);
        assert(goal@ == g);
    }
    let mut ls: Vec<i64> = Vec::new();
    let mut i: usize = 0;
    while i < world.ls.len()
        invariant
            0 <= i <= world.ls@.len(),
            ls@.len() == i,
            forall|t: int| 0 <= t < i ==> #[trigger] ls@[t] == world.ls@[t],
        decreases world.ls@.len() - i,
    {
        ls.push(world.ls[i]);
        i = i + 1;
    }
    let mut cs: Vec<(Option<i64>, Option<i64>)> = Vec::new();
    let mut i: usize = 0;
    while i < world.q_clamps.len()
        invariant
            0 <= i <= world.q_clamps@.len(),
            cs@.len() == i,
            forall|t: int| 0 <= t < i ==> #[trigger] cs@[t] == world.q_clamps@[t],
        decreases world.q_clamps@.len() - i,
    {
        cs.push(world.q_clamps[i]);
        i = i + 1;
    }
    proof {
        assert(ls@ =~= world.ls@);
        assert(cs@ =~= world.q_clamps@);
    }
    let chain = match Chain::new(world.origin, ls, qs, cs, world.step) {
        Ok(c) => c,
        Err(_) => vstd::pervasive::unreached(),
    };
    let mut chain = chain;
    proof {
        assert forall|j: int| 0 <= j < world.ls@.len() implies #[trigger] chain.qs@[j] == q0[j] by {
            assert(chain.qs@[j] == clip_q_s(world.q_clamps@[j], qs@[j] as int));
            assert(qs@[j] == start_q_s(world, rng_iter_s(s0, 2), j));
        }
        assert(chain.qs@ =~= q0);
    }
    let n = chain.qs.len();
    let mut reward: i64 = 0;
    let mut t: usize = 0;
    while t < ticks
        invariant
            chain.wf(),
            chain.ls@ == world.ls@,
            chain.origin == world.origin,
            chain.q_clamps@ == world.q_clamps@,
            chain.step == world.step,
            n == chain.qs@.len(),
            n == world.ls@.len(),
            fcn.wf(),
            fcn.in_size() == n + 2,
            fcn.out_size() >= 2,
            goal@ == g,
            goal_in_window_s(world, goal),
            0 <= t <= ticks,
            chain.qs@ == run_qs_s(fcn.layers@, fcn.params@, world, g, q0, t as int),
            reward == run_reward_s(fcn.layers@, fcn.params@, world, g, q0, t as int),
            -(t as int) * TICK_COST_LIM <= reward <= 0,
        decreases ticks - t,
    {
        let ghost pre_qs = chain.qs@;
        let mut input: Vec<i64> = Vec::new();
        let mut j: usize = 0;
        while j < n
            invariant
                chain.wf(),
                n == chain.qs@.len(),
                0 <= j <= n,
                input@.len() == j,
                forall|u: int| 0 <= u < j ==> #[trigger] input@[u] == chain.qs@[u],
                forall|u: int| 0 <= u < j ==> -CAP <= #[trigger] input@[u] <= CAP,
            decreases n - j,
        {
            input.push(chain.qs[j]);
            j = j + 1;
        }
        input.push(goal.x - chain.origin.x);
        input.push(goal.y - chain.origin.y);
        proof {
            assert(ints_of(input@) =~= tick_input_s(world, g, pre_qs));
        }
        let out = fcn.at(&input);
        let ghost tgt = tick_target_s(fcn.layers@, fcn.params@, world, g, pre_qs);
        proof {
            assert(ints_of(out@)[0] == out@[0] as int);
            assert(ints_of(out@)[1] == out@[1] as int);
        }
        let target = Vec2 {
            x: clamp_i64(goal.x + out[0], -GOAL_LIM, GOAL_LIM),
            y: clamp_i64(goal.y + out[1], -GOAL_LIM, GOAL_LIM),
        };
        proof {
            assert(target@ == tgt);
        }
        let (jt, bal) = midpoint_comx_ik(chain.origin, &chain.ls, &chain.qs, target);
        let mut delta: Vec<i64> = Vec::new();
        let mut j: usize = 0;
        while j < n
            invariant
                0 <= j <= n,
                delta@.len() == j,
                jt@.len() == n,
                bal@.len() == n,
                forall|u: int|
                    0 <= u < n ==> -REACH_DELTA_LIM <= #[trigger] jt@[u] <= REACH_DELTA_LIM,
                forall|u: int|
                    0 <= u < n ==> -BAL_DELTA_LIM <= #[trigger] bal@[u] <= BAL_DELTA_LIM,
                forall|u: int| 0 <= u < j ==> #[trigger] delta@[u] == jt@[u] + bal@[u],
                forall|u: int|
                    0 <= u < j ==> -DELTA_IN_LIM <= #[trigger] delta@[u] <= DELTA_IN_LIM,
            decreases n - j,
        {
            delta.push(jt[j] + bal[j]);
            j = j + 1;
        }
        chain.update(&delta);
        proof {
            assert forall|u: int| 0 <= u < n implies #[trigger] chain.qs@[u] == tick_q_s(
                fcn.layers@,
                fcn.params@,
                world,
                g,
                pre_qs,
                u,
            ) by {
                assert(chain.qs@[u] == clip_q_s(
                    world.q_clamps@[u],
                    pre_qs[u] + fmul_s(world.step as int, delta@[u] as int),
                ));
                assert(delta@[u] == jt@[u] + bal@[u]);
            }
            assert(chain.qs@ =~= tick_qs_s(fcn.layers@, fcn.params@, world, g, pre_qs));
            assert(chain.qs@ == run_qs_s(fcn.layers@, fcn.params@, world, g, q0, t + 1));
        }
        let (verts, _com) = chain.vertices_and_com();
        let e = verts[n];
        let dx = goal.x - e.x;
        let dy = goal.y - e.y;
        proof {
            lemma_mul_bound(dx as int, dx as int, 502_000_000, 502_000_000);
            lemma_mul_bound(dy as int, dy as int, 502_000_000, 502_000_000);
            assert(dx as int * dx as int >= 0) by (nonlinear_arith);
            assert(dy as int * dy as int >= 0) by (nonlinear_arith);
            lemma_tdiv_bound(
                dx as int * dx as int + dy as int * dy as int,
                SCALE as int,
                TICK_COST_LIM as int,
            );
            vstd::arithmetic::div_mod::lemma_div_pos_is_pos(
                dx as int * dx as int + dy as int * dy as int,
                SCALE as int,
            );
            assert(e@ == vertices_s(world.origin@, world.ls@, chain.qs@)[n as int]);
        }
        let d2 = dx * dx + dy * dy;
        let cost = div_trunc(d2, SCALE);
        proof {
            assert(cost == tick_cost_s(world, g, chain.qs@));
        }
        reward = reward - cost;
        t = t + 1;
    }
    reward
}

/// The goal lies inside the reachable window.
pub open spec fn goal_in_window_s(world: &World, goal: Vec2) -> bool {
    -GOAL_LIM <= goal.x <= GOAL_LIM && -GOAL_LIM <= goal.y <= GOAL_LIM
}

/// Copies a scalar vector.
pub fn copy_vec(v: &Vec<i64>) -> (r: Vec<i64>)
    ensures
        r@ == v@,
{
    let mut r: Vec<i64> = Vec::new();
    let mut i: usize = 0;
    while i < v.len()
        invariant
            0 <= i <= v@.len(),
            r@.len() == i,
            forall|t: int| 0 <= t < i ==> #[trigger] r@[t] == v@[t],
        decreases v@.len() - i,
    {
        r.push(v[i]);
        i = i + 1;
    }
    proof {
        assert(r@ =~= v@);
    }
    r
}

/// Generator steps one candidate consumes: twelve per sampled dimension,
/// then `n + 2` per episode.
pub open spec fn gen_stride_s(dim: int, n: int, episodes: int) -> int {
    12 * dim + episodes * (n + 2)
}

/// Candidate `b` of a generation begun at state `s` over `(mean, std)`.
pub open spec fn gen_cand_s(
    s: u64,
    mean: Seq<i64>,
    std: Seq<i64>,
    w: &World,
    episodes: int,
    b: int,
) -> Seq<i64> {
    let sb = rng_iter_s(
        s,
        (b * gen_stride_s(mean.len() as int, w.ls@.len() as int, episodes)) as nat,
    );
    Seq::new(mean.len(), |d: int| cand_elem_s(sb, mean, std, d) as i64)
}

/// Sum of the first `e` episode rewards of one candidate, its episodes
/// starting at generator state `s`.
pub open spec fn ep_sum_s(
    layers: Seq<(usize, Activation)>,
    params: Seq<i64>,
    w: &World,
    ticks: int,
    e: int,
    s: u64,
) -> int
    decreases e,
{
    if e <= 0 {
        0
    } else {
        ep_sum_s(layers, params, w, ticks, e - 1, s) + rollout_s(
            layers,
            params,
            w,
            ticks,
            rng_iter_s(s, ((e - 1) * (w.ls@.len() + 2)) as nat),
        )
    }
}

/// Candidate `b`'s score: its episode rewards averaged, truncated.
pub open spec fn gen_score_s(
    layers: Seq<(usize, Activation)>,
    s: u64,
    mean: Seq<i64>,
    std: Seq<i64>,
    w: &World,
    episodes: int,
    ticks: int,
    b: int,
) -> int {
    let dim = mean.len() as int;
    let sb = rng_iter_s(s, (b * gen_stride_s(dim, w.ls@.len() as int, episodes)) as nat);
    let se = rng_iter_s(sb, (12 * dim) as nat);
    tdiv(
        ep_sum_s(layers, gen_cand_s(s, mean, std, w, episodes, b), w, ticks, episodes, se),
        episodes,
    )
}

/// All scores of one generation.
pub open spec fn gen_scores_s(
    layers: Seq<(usize, Activation)>,
    s: u64,
    mean: Seq<i64>,
    std: Seq<i64>,
    w: &World,
    episodes: int,
    ticks: int,
    batch: int,
) -> Seq<i64> {
    Seq::new(
        batch as nat,
        |b: int| gen_score_s(layers, s, mean, std, w, episodes, ticks, b) as i64,
    )
}

/// The elite rows of one generation: the picked candidates, best first.
pub open spec fn gen_elites_s(
    layers: Seq<(usize, Activation)>,
    s: u64,
    mean: Seq<i64>,
    std: Seq<i64>,
    w: &World,
    episodes: int,
    ticks: int,
    batch: int,
    k: int,
) -> Seq<Seq<i64>> {
    let scores = gen_scores_s(layers, s, mean, std, w, episodes, ticks, batch);
    let idx = picks_s(scores, k);
    Seq::new(k as nat, |a: int| gen_cand_s(s, mean, std, w, episodes, idx[a] as int))
}

/// The optimizer's state after `g` generations: the distribution mean and
/// deviation, the last generation's best score, and the generator state.
/// Every later value of a run is this pure function of the configuration,
/// the starting parameters, the task and the seed.
pub open spec fn opt_state_s(
    layers: Seq<(usize, Activation)>,
    w: &World,
    c: CEO,
    mean0: Seq<i64>,
    seed: u64,
    g: int,
) -> (Seq<i64>, Seq<i64>, i64, u64)
    decreases g,
{
    if g <= 0 {
        (mean0, Seq::new(mean0.len(), |d: int| c.initial_std), 0, seed)
    } else {
        let prev = opt_state_s(layers, w, c, mean0, seed, g - 1);
        let episodes = c.num_episodes as int;
        let ticks = c.num_episode_ticks as int;
        let batch = c.batch_size as int;
        let k = c.n_elite_s();
        let es = gen_elites_s(layers, prev.3, prev.0, prev.1, w, episodes, ticks, batch, k);
        let scores = gen_scores_s(layers, prev.3, prev.0, prev.1, w, episodes, ticks, batch);
        let noise = tdiv(c.noise_factor as int, g);
        (
            Seq::new(prev.0.len(), |d: int| mean_elem_s(es, d) as i64),
            Seq::new(prev.0.len(), |d: int| std_elem_s(es, d, noise) as i64),
            scores[picks_s(scores, k)[0] as int],
            rng_iter_s(
                prev.3,
                (batch * gen_stride_s(prev.0.len() as int, w.ls@.len() as int, episodes)) as nat,
            ),
        )
    }
}

/// Cross-entropy optimizer configuration: immutable once a run starts.
pub struct CEO {
    /// Generations to run.
    pub generations: usize,
    /// Candidates per generation.
    pub batch_size: usize,
    /// Episodes averaged per candidate.
    pub num_episodes: usize,
    /// Ticks per episode.
    pub num_episode_ticks: usize,
    /// Fraction of the batch kept as elites, in fixed point, in `(0, 1]`.
    pub elite_frac: i64,
    /// Starting standard deviation, broadcast to all dimensions.
    pub initial_std: i64,
    /// Noise added to the refit deviation, decaying by generation.
    pub noise_factor: i64,
}

impl CEO {
    /// Every scalar within its permitted range.
    pub open spec fn ranges_ok(&self) -> bool {
        &&& 1 <= self.generations <= G_MAX
        &&& 1 <= self.batch_size <= B_MAX
        &&& 1 <= self.num_episodes <= E_MAX
        &&& 1 <= self.num_episode_ticks <= T_MAX
        &&& 0 < self.elite_frac <= SCALE
        &&& 0 <= self.initial_std <= P_MAX
        &&& 0 <= self.noise_factor <= P_MAX
    }

    /// How many elites a generation keeps.
    pub open spec fn n_elite_s(&self) -> int {
        (self.batch_size as int * self.elite_frac as int) / (SCALE as int)
    }

    /// A valid configuration keeps at least one elite.
    pub open spec fn ok(&self) -> bool {
        self.ranges_ok() && self.n_elite_s() >= 1
    }

    /// Checks the configuration. A batch size and elite fraction that
    /// yield no elite candidate are a fatal configuration error.
    pub fn validate(&self) -> (r: Result<(), ConfigError>)
        ensures
            r == Result::<(), ConfigError>::Err(ConfigError::RateRange) <==> !self.ranges_ok(),
            r == Result::<(), ConfigError>::Err(ConfigError::EliteCount) <==> (self.ranges_ok()
                && self.n_elite_s() < 1),
            r is Ok <==> self.ok(),
    {
        if self.generations < 1 || self.generations > G_MAX || self.batch_size < 1
            || self.batch_size > B_MAX || self.num_episodes < 1 || self.num_episodes > E_MAX
            || self.num_episode_ticks < 1 || self.num_episode_ticks > T_MAX || self.elite_frac
            <= 0 || self.elite_frac > SCALE || self.initial_std < 0 || self.initial_std > P_MAX
            || self.noise_factor < 0 || self.noise_factor > P_MAX {
            return Err(ConfigError::RateRange);
        }
        proof {
            lemma_mul_bound(self.batch_size as int, self.elite_frac as int, B_MAX as int,
                SCALE as int);
        }
        let ne = div_trunc((self.batch_size as i64) * self.elite_frac, SCALE);
        if ne < 1 {
            return Err(ConfigError::EliteCount);
        }
        Ok(())
    }

    /// The elite count of a valid configuration, at least one and at most
    /// the batch.
    fn n_elite(&self) -> (k: usize)
        requires
            self.ok(),
        ensures
            k == self.n_elite_s(),
            1 <= k <= self.batch_size,
    {
        proof {
            lemma_mul_bound(self.batch_size as int, self.elite_frac as int, B_MAX as int,
                SCALE as int);
            assert(self.batch_size as int * self.elite_frac as int <= self.batch_size as int
                * SCALE as int) by (nonlinear_arith)
                requires
                    0 <= self.batch_size,
                    0 < self.elite_frac <= SCALE,
            ;
            lemma_tdiv_bound(self.batch_size as int * self.elite_frac as int, SCALE as int,
                self.batch_size as int);
        }
        let ne = div_trunc((self.batch_size as i64) * self.elite_frac, SCALE);
        ne as usize
    }

    /// Runs the optimization: per generation, samples a batch of parameter
    /// vectors from the diagonal distribution, scores each by averaged
    /// rollouts, keeps the elite fraction, and refits the distribution.
    /// The whole run is the pure fold `opt_state_s` of the generation step
    /// over the seed: on success the network holds that fold's final mean,
    /// and the returned score and deviation are its last generation's best
    /// and final deviation. Fails exactly on an invalid configuration or a
    /// network that does not fit the task.
    #[verifier::loop_isolation(false)]
    #[verifier::rlimit(100)]
    pub fn optimize(&self, fcn: &mut FCN, world: &World, seed: u64) -> (r: Result<
        (i64, Vec<i64>),
        ConfigError,
    >)
        requires
            old(fcn).wf(),
            world.wf(),
        ensures
            final(fcn).wf(),
            final(fcn).layers@ == old(fcn).layers@,
            r == Result::<(i64, Vec<i64>), ConfigError>::Err(ConfigError::RateRange) <==> !self.ranges_ok(),
            r == Result::<(i64, Vec<i64>), ConfigError>::Err(ConfigError::EliteCount) <==> (
            self.ranges_ok() && self.n_elite_s() < 1),
            r == Result::<(i64, Vec<i64>), ConfigError>::Err(ConfigError::DimensionMismatch)
                <==> (self.ok() && !(old(fcn).in_size() == world.ls@.len() + 2 && old(
                fcn,
            ).out_size() >= 2)),
            r is Ok <==> (self.ok() && old(fcn).in_size() == world.ls@.len() + 2 && old(
                fcn,
            ).out_size() >= 2),
            r is Ok ==> final(fcn).params@ == opt_state_s(
                old(fcn).layers@,
                world,
                *self,
                old(fcn).params@,
                seed,
                self.generations as int,
            ).0,
            r is Ok ==> (r->Ok_0).0 == opt_state_s(
                old(fcn).layers@,
                world,
                *self,
                old(fcn).params@,
                seed,
                self.generations as int,
            ).2,
            r is Ok ==> (r->Ok_0).1@ == opt_state_s(
                old(fcn).layers@,
                world,
                *self,
                old(fcn).params@,
                seed,
                self.generations as int,
            ).1,
            r is Ok ==> (r->Ok_0).0 <= 0,
            r is Ok ==> (r->Ok_0).1@.len() == old(fcn).params@.len() && params_bounded(
                (r->Ok_0).1@,
            ),
            !(r is Ok) ==> final(fcn).params@ == old(fcn).params@,
    {
        match self.validate() {
            Ok(u) => u,
            Err(e) => {
                return Err(e);
            },
        };
        let n_in = fcn.layers[0].0;
        let n_out = fcn.layers[fcn.layers.len() - 1].0;
        if n_in != world.ls.len() + 2 || n_out < 2 {
            return Err(ConfigError::DimensionMismatch);
        }
        let ghost layers0 = fcn.layers@;
        let ghost mean0 = fcn.params@;
        let dim = fcn.params.len();
        let mut rng = Rng::new(seed);
        let mut mean: Vec<i64> = copy_vec(&fcn.params);
        let mut std: Vec<i64> = Vec::new();
        let mut i: usize = 0;
        while i < dim
            invariant
                0 <= i <= dim,
                std@.len() == i,
                forall|t: int| 0 <= t < i ==> #[trigger] std@[t] == self.initial_std,
            decreases dim - i,
        {
            std.push(self.initial_std);
            i = i + 1;
        }
        proof {
            assert(std@ =~= Seq::new(mean0.len(), |d: int| self.initial_std));
        }
        let mut best: i64 = 0;
        let mut g: usize = 0;
        while g < self.generations
            invariant
                fcn.wf(),
                fcn.layers@ == layers0,
                0 <= g <= self.generations,
                mean@.len() == dim,
                std@.len() == dim,
                params_bounded(mean@),
                params_bounded(std@),
                best <= 0,
                mean@ == opt_state_s(layers0, world, *self, mean0, seed, g as int).0,
                std@ == opt_state_s(layers0, world, *self, mean0, seed, g as int).1,
                best == opt_state_s(layers0, world, *self, mean0, seed, g as int).2,
                rng.state == opt_state_s(layers0, world, *self, mean0, seed, g as int).3,
            decreases self.generations - g,
        {
            let ghost gs = rng.state;
            let ghost gm = mean@;
            let ghost gsd = std@;
            let ghost eps = self.num_episodes as int;
            let ghost tks = self.num_episode_ticks as int;
            let ghost nl = world.ls@.len() as int;
            let ghost stride = gen_stride_s(dim as int, nl, eps);
            proof {
                assert(12 * (dim as int) >= 0 && eps * (nl + 2) >= 0) by (nonlinear_arith)
                    requires
                        dim >= 0,
                        eps >= 0,
                        nl >= 0,
                ;
                assert(stride == 12 * (dim as int) + eps * (nl + 2));
                assert(stride >= 0);
            }
            let mut cands: Vec<Vec<i64>> = Vec::new();
            let mut scores: Vec<i64> = Vec::new();
            let mut b: usize = 0;
            while b < self.batch_size
                invariant
                    fcn.wf(),
                    fcn.layers@ == layers0,
                    mean@.len() == dim,
                    std@.len() == dim,
                    mean@ == gm,
                    std@ == gsd,
                    params_bounded(mean@),
                    params_bounded(std@),
                    stride == gen_stride_s(dim as int, nl, eps),
                    stride >= 0,
                    0 <= b <= self.batch_size,
                    cands@.len() == b,
                    scores@.len() == b,
                    forall|t: int|
                        0 <= t < b ==> (#[trigger] cands@[t])@.len() == dim && params_bounded(
                            cands@[t]@,
                        ),
                    forall|t: int|
                        0 <= t < b ==> (#[trigger] cands@[t])@ == gen_cand_s(
                            gs,
                            gm,
                            gsd,
                            world,
                            eps,
                            t,
                        ),
                    forall|t: int|
                        0 <= t < b ==> #[trigger] scores@[t] == gen_score_s(
                            layers0,
                            gs,
                            gm,
                            gsd,
                            world,
                            eps,
                            tks,
                            t,
                        ),
                    forall|t: int|
                        0 <= t < b ==> -6_000_000_000_000_000 <= #[trigger] scores@[t] <= 0,
                    rng.state == rng_iter_s(gs, (b * stride) as nat),
                decreases self.batch_size - b,
            {
                proof {
                    assert(b * stride >= 0) by (nonlinear_arith)
                        requires
                            b >= 0,
                            stride >= 0,
                    ;
                }
                let ghost sb = rng.state;
                let cand = sample_candidate(&mut rng, &mean, &std);
                proof {
                    assert forall|d: int| 0 <= d < dim implies #[trigger] cand@[d] == gen_cand_s(
                        gs,
                        gm,
                        gsd,
                        world,
                        eps,
                        b as int,
                    )[d] by {
                        assert(cand@[d] == cand_elem_s(sb, gm, gsd, d));
                        assert(-P_MAX <= cand@[d] <= P_MAX);
                    }
                    assert(cand@ =~= gen_cand_s(gs, gm, gsd, world, eps, b as int));
                }
                let cp = copy_vec(&cand);
                match fcn.set_params(cp) {
                    Ok(u) => u,
                    Err(_) => vstd::pervasive::unreached(),
                };
                let ghost se0 = rng.state;
                let mut ep_sum: i64 = 0;
                let mut e: usize = 0;
                while e < self.num_episodes
                    invariant
                        fcn.wf(),
                        fcn.layers@ == layers0,
                        fcn.params@ == cand@,
                        0 <= e <= self.num_episodes,
                        -(e as int) * 6_000_000_000_000_000 <= ep_sum <= 0,
                        ep_sum == ep_sum_s(layers0, cand@, world, tks, e as int, se0),
                        rng.state == rng_iter_s(se0, (e * (nl + 2)) as nat),
                    decreases self.num_episodes - e,
                {
                    proof {
                        assert(e * (nl + 2) >= 0 && (e + 1) * (nl + 2) == e * (nl + 2) + (nl
                            + 2)) by (nonlinear_arith)
                            requires
                                e >= 0,
                                nl >= 0,
                        ;
                        lemma_rng_iter_add(se0, (e * (nl + 2)) as nat, (nl + 2) as nat);
                    }
                    let rew = rollout(fcn, world, self.num_episode_ticks, &mut rng);
                    ep_sum = ep_sum + rew;
                    e = e + 1;
                }
                proof {
                    lemma_tdiv_bound(ep_sum as int, self.num_episodes as int,
                        6_000_000_000_000_000);
                    vstd::arithmetic::div_mod::lemma_div_pos_is_pos(
                        -(ep_sum as int),
                        self.num_episodes as int,
                    );
                }
                let avg = div_trunc(ep_sum, self.num_episodes as i64);
                proof {
                    assert(avg == gen_score_s(layers0, gs, gm, gsd, world, eps, tks, b as int));
                    assert((12 * dim as int) + eps * (nl + 2) == stride);
                    lemma_rng_iter_add(sb, (12 * dim as int) as nat, (eps * (nl + 2)) as nat);
                    lemma_rng_iter_add(gs, (b * stride) as nat, stride as nat);
                    assert((b + 1) * stride == b * stride + stride) by (nonlinear_arith);
                    assert(rng.state == rng_iter_s(gs, ((b + 1) * stride) as nat));
                }
                scores.push(avg);
                cands.push(cand);
                b = b + 1;
            }
            proof {
                assert(scores@ =~= gen_scores_s(
                    layers0,
                    gs,
                    gm,
                    gsd,
                    world,
                    eps,
                    tks,
                    self.batch_size as int,
                ));
            }
            let k = self.n_elite();
            let idx = select_elites(&scores, k);
            let mut elites: Vec<Vec<i64>> = Vec::new();
            let mut a: usize = 0;
            while a < k
                invariant
                    0 <= a <= k,
                    k <= idx@.len(),
                    elites@.len() == a,
                    forall|t: int|
                        0 <= t < a ==> (#[trigger] elites@[t])@.len() == dim && params_bounded(
                            elites@[t]@,
                        ),
                    forall|t: int|
                        0 <= t < a ==> (#[trigger] elites@[t])@ == gen_cand_s(
                            gs,
                            gm,
                            gsd,
                            world,
                            eps,
                            idx@[t] as int,
                        ),
                decreases k - a,
            {
                let picked = idx[a];
                elites.push(copy_vec(&cands[picked]));
                a = a + 1;
            }
            proof {
                assert(rows_s(elites@) =~= gen_elites_s(
                    layers0,
                    gs,
                    gm,
                    gsd,
                    world,
                    eps,
                    tks,
                    self.batch_size as int,
                    k as int,
                ));
                lemma_tdiv_bound(self.noise_factor as int, g as int + 1, P_MAX as int);
                vstd::arithmetic::div_mod::lemma_div_pos_is_pos(
                    self.noise_factor as int,
                    g as int + 1,
                );
            }
            let noise_g = div_trunc(self.noise_factor, (g + 1) as i64);
            let (m2, s2) = refit(&elites, noise_g);
            proof {
                let ghost nxt = opt_state_s(layers0, world, *self, mean0, seed, g as int + 1);
                assert(m2@ =~= nxt.0);
                assert(s2@ =~= nxt.1);
            }
            mean = m2;
            std = s2;
            best = scores[idx[0]];
            g = g + 1;
        }
        let mp = copy_vec(&mean);
        match fcn.set_params(mp) {
            Ok(u) => u,
            Err(_) => vstd::pervasive::unreached(),
        };
        Ok((best, std))
    }
}

} // verus!
