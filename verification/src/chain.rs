//! The articulated chain: origin, link lengths, joint angles, joint clamps
//! and a per-tick step scale. Construction validates every machine limit;
//! `update` applies scaled angle deltas and clips each joint into its clamp.

use vstd::prelude::*;
use crate::fixed::{
    clamp_i64, clamp_s, fmul, fmul_s, lemma_fmul_s_bound, lemma_mul_bound, L_MAX, N_MAX,
    ORIGIN_LIM, Q_LIM, VERT_LIM,
};
use crate::plan::{chain_dims_ok, com_s, get_all_vertices_and_com, vertex_s, Vec2};
use crate::ConfigError;

verus! {

/// Largest per-tick step scale a chain may be built with.
pub const STEP_MAX: i64 = 400_000;

/// Largest single joint delta `update` accepts: the reach and balance
/// delta bounds summed.
pub const DELTA_IN_LIM: i64 = 19_000_000_000_000;

/// The lower angle a clamp admits; an unconstrained joint saturates at the
/// representable angle range.
pub open spec fn eff_lo(c: (Option<i64>, Option<i64>)) -> int {
    match c.0 {
        Option::Some(lo) => lo as int,
        Option::None => -Q_LIM as int,
    }
}

/// The upper angle a clamp admits.
pub open spec fn eff_hi(c: (Option<i64>, Option<i64>)) -> int {
    match c.1 {
        Option::Some(hi) => hi as int,
        Option::None => Q_LIM as int,
    }
}

/// A clamp pair admits at least one angle and stays representable.
pub open spec fn clamp_ok(c: (Option<i64>, Option<i64>)) -> bool {
    -Q_LIM <= eff_lo(c) && eff_lo(c) <= eff_hi(c) && eff_hi(c) <= Q_LIM
}

/// An angle clipped into a clamp pair.
pub open spec fn clip_q_s(c: (Option<i64>, Option<i64>), q: int) -> int {
    clamp_s(q, eff_lo(c), eff_hi(c))
}

/// The sequences all have one entry per link.
pub open spec fn dims_match(
    ls: Seq<i64>,
    qs: Seq<i64>,
    cs: Seq<(Option<i64>, Option<i64>)>,
) -> bool {
    qs.len() == ls.len() && cs.len() == ls.len()
}

/// At least one link and at most `N_MAX`.
pub open spec fn count_ok(ls: Seq<i64>) -> bool {
    1 <= ls.len() <= N_MAX
}

/// Every link length positive and at most `L_MAX`.
pub open spec fn lengths_ok(ls: Seq<i64>) -> bool {
    forall|j: int| 0 <= j < ls.len() ==> 0 < #[trigger] ls[j] <= L_MAX
}

/// Every clamp pair valid.
pub open spec fn clamps_ok(cs: Seq<(Option<i64>, Option<i64>)>) -> bool {
    forall|j: int| 0 <= j < cs.len() ==> clamp_ok(#[trigger] cs[j])
}

/// The origin within the representable region.
pub open spec fn origin_ok(o: Vec2) -> bool {
    -ORIGIN_LIM <= o.x <= ORIGIN_LIM && -ORIGIN_LIM <= o.y <= ORIGIN_LIM
}

/// A positive per-tick step scale no larger than `STEP_MAX`.
pub open spec fn step_ok(step: i64) -> bool {
    0 < step <= STEP_MAX
}

/// An open planar chain anchored at a fixed origin.
pub struct Chain {
    /// Anchor of the chain's first joint.
    pub origin: Vec2,
    /// Link lengths.
    pub ls: Vec<i64>,
    /// Joint angles, kept inside the clamps at all times.
    pub qs: Vec<i64>,
    /// Optional per-joint angle bounds.
    pub q_clamps: Vec<(Option<i64>, Option<i64>)>,
    /// Per-tick scale applied to incoming angle deltas.
    pub step: i64,
}

impl Chain {
    /// Well-formed chain: valid dimensions, lengths, clamps, origin and
    /// step scale, with every joint angle inside its clamp.
    pub open spec fn wf(&self) -> bool {
        &&& chain_dims_ok(self.ls@, self.qs@)
        &&& dims_match(self.ls@, self.qs@, self.q_clamps@)
        &&& clamps_ok(self.q_clamps@)
        &&& (forall|j: int|
            0 <= j < self.qs@.len() ==> eff_lo(self.q_clamps@[j]) <= #[trigger] self.qs@[j]
                <= eff_hi(self.q_clamps@[j]))
        &&& origin_ok(self.origin)
        &&& step_ok(self.step)
    }

    /// Builds a chain after validating every configuration rule, clipping
    /// each starting angle into its clamp. Each error comes exactly on the
    /// inputs its variant names, checked in the order written here.
    #[verifier::loop_isolation(false)]
    pub fn new(
        origin: Vec2,
        ls: Vec<i64>,
        qs: Vec<i64>,
        q_clamps: Vec<(Option<i64>, Option<i64>)>,
        step: i64,
    ) -> (r: Result<Chain, ConfigError>)
        ensures
            r == Result::<Chain, ConfigError>::Err(ConfigError::DimensionMismatch) <==> !dims_match(
                ls@,
                qs@,
                q_clamps@,
            ),
            r == Result::<Chain, ConfigError>::Err(ConfigError::LinkCount) <==> (dims_match(
                ls@,
                qs@,
                q_clamps@,
            ) && !count_ok(ls@)),
            r == Result::<Chain, ConfigError>::Err(ConfigError::LinkLength) <==> (dims_match(
                ls@,
                qs@,
                q_clamps@,
            ) && count_ok(ls@) && !lengths_ok(ls@)),
            r == Result::<Chain, ConfigError>::Err(ConfigError::ClampRange) <==> (dims_match(
                ls@,
                qs@,
                q_clamps@,
            ) && count_ok(ls@) && lengths_ok(ls@) && !clamps_ok(q_clamps@)),
            r == Result::<Chain, ConfigError>::Err(ConfigError::OriginRange) <==> (dims_match(
                ls@,
                qs@,
                q_clamps@,
            ) && count_ok(ls@) && lengths_ok(ls@) && clamps_ok(q_clamps@) && !origin_ok(origin)),
            r == Result::<Chain, ConfigError>::Err(ConfigError::RateRange) <==> (dims_match(
                ls@,
                qs@,
                q_clamps@,
            ) && count_ok(ls@) && lengths_ok(ls@) && clamps_ok(q_clamps@) && origin_ok(origin)
                && !step_ok(step)),
            r is Ok <==> (dims_match(ls@, qs@, q_clamps@) && count_ok(ls@) && lengths_ok(ls@)
                && clamps_ok(q_clamps@) && origin_ok(origin) && step_ok(step)),
            r is Ok ==> {
                let c = r->Ok_0;
                &&& c.wf()
                &&& c.origin == origin
                &&& c.ls@ == ls@
                &&& c.q_clamps@ == q_clamps@
                &&& c.step == step
                &&& c.qs@.len() == qs@.len()
                &&& (forall|j: int|
                    0 <= j < qs@.len() ==> c.qs@[j] == clip_q_s(q_clamps@[j], qs@[j] as int))
            },
    {
        if qs.len() != ls.len() || q_clamps.len() != ls.len() {
            return Err(ConfigError::DimensionMismatch);
        }
        if ls.len() < 1 || ls.len() > N_MAX {
            return Err(ConfigError::LinkCount);
        }
        let mut j: usize = 0;
        while j < ls.len()
            invariant
                0 <= j <= ls@.len(),
                forall|k: int| 0 <= k < j ==> 0 < #[trigger] ls@[k] <= L_MAX,
            decreases ls@.len() - j,
        {
            if ls[j] <= 0 || ls[j] > L_MAX {
                return Err(ConfigError::LinkLength);
            }
            j = j + 1;
        }
        let mut j: usize = 0;
        while j < q_clamps.len()
            invariant
                0 <= j <= q_clamps@.len(),
                forall|k: int| 0 <= k < j ==> clamp_ok(#[trigger] q_clamps@[k]),
            decreases q_clamps@.len() - j,
        {
            let c = q_clamps[j];
            let lo: i64 = match c.0 {
                Some(lo) => lo,
                None => -Q_LIM,
            };
            let hi: i64 = match c.1 {
                Some(hi) => hi,
                None => Q_LIM,
            };
            if lo < -Q_LIM || hi > Q_LIM || lo > hi {
                return Err(ConfigError::ClampRange);
            }
            j = j + 1;
        }
        if origin.x < -ORIGIN_LIM || origin.x > ORIGIN_LIM || origin.y < -ORIGIN_LIM || origin.y
            > ORIGIN_LIM {
            return Err(ConfigError::OriginRange);
        }
        if step <= 0 || step > STEP_MAX {
            return Err(ConfigError::RateRange);
        }
        let mut clipped: Vec<i64> = Vec::new();
        let mut j: usize = 0;
        while j < qs.len()
            invariant
                qs@.len() == q_clamps@.len(),
                clamps_ok(q_clamps@),
                0 <= j <= qs@.len(),
                clipped@.len() == j,
                forall|k: int|
                    0 <= k < j ==> clipped@[k] == clip_q_s(q_clamps@[k], qs@[k] as int),
                forall|k: int|
                    0 <= k < j ==> eff_lo(q_clamps@[k]) <= #[trigger] clipped@[k] <= eff_hi(
                        q_clamps@[k],
                    ),
            decreases qs@.len() - j,
        {
            let c = q_clamps[j];
            let lo: i64 = match c.0 {
                Some(lo) => lo,
                None => -Q_LIM,
            };
            let hi: i64 = match c.1 {
                Some(hi) => hi,
                None => Q_LIM,
            };
            clipped.push(clamp_i64(qs[j], lo, hi));
            j = j + 1;
        }
        Ok(Chain { origin, ls, qs: clipped, q_clamps, step })
    }

    /// Applies one vector of angle deltas: each delta is scaled by the
    /// chain's per-tick step and the new angle clipped into its clamp, so
    /// that after any update every joint lies inside its configured range.
    pub fn update(&mut self, delta_qs: &Vec<i64>)
        requires
            old(self).wf(),
            delta_qs@.len() == old(self).ls@.len(),
            forall|i: int|
                0 <= i < delta_qs@.len() ==> -DELTA_IN_LIM <= #[trigger] delta_qs@[i]
                    <= DELTA_IN_LIM,
        ensures
            final(self).wf(),
            final(self).origin == old(self).origin,
            final(self).ls == old(self).ls,
            final(self).q_clamps == old(self).q_clamps,
            final(self).step == old(self).step,
            final(self).qs@.len() == old(self).qs@.len(),
            forall|i: int|
                0 <= i < old(self).qs@.len() ==> final(self).qs@[i] == clip_q_s(
                    old(self).q_clamps@[i],
                    old(self).qs@[i] + fmul_s(old(self).step as int, delta_qs@[i] as int),
                ),
            forall|i: int|
                0 <= i < old(self).qs@.len() ==> eff_lo(old(self).q_clamps@[i])
                    <= #[trigger] final(self).qs@[i] <= eff_hi(old(self).q_clamps@[i]),
    {
        let n = self.qs.len();
        let mut i: usize = 0;
        while i < n
            invariant
                old(self).wf(),
                n == old(self).qs@.len(),
                self.origin == old(self).origin,
                self.ls == old(self).ls,
                self.q_clamps == old(self).q_clamps,
                self.step == old(self).step,
                self.qs@.len() == n,
                delta_qs@.len() == n,
                forall|k: int|
                    0 <= k < delta_qs@.len() ==> -DELTA_IN_LIM <= #[trigger] delta_qs@[k]
                        <= DELTA_IN_LIM,
                0 <= i <= n,
                forall|k: int|
                    i <= k < n ==> #[trigger] self.qs@[k] == old(self).qs@[k],
                forall|k: int|
                    0 <= k < i ==> #[trigger] self.qs@[k] == clip_q_s(
                        old(self).q_clamps@[k],
                        old(self).qs@[k] + fmul_s(old(self).step as int, delta_qs@[k] as int),
                    ),
                forall|k: int|
                    0 <= k < i ==> eff_lo(old(self).q_clamps@[k]) <= #[trigger] self.qs@[k]
                        <= eff_hi(old(self).q_clamps@[k]),
            decreases n - i,
        {
            let c = self.q_clamps[i];
            let lo: i64 = match c.0 {
                Some(lo) => lo,
                None => -Q_LIM,
            };
            let hi: i64 = match c.1 {
                Some(hi) => hi,
                None => Q_LIM,
            };
            proof {
                lemma_mul_bound(
                    self.step as int,
                    delta_qs@[i as int] as int,
                    STEP_MAX as int,
                    DELTA_IN_LIM as int,
                );
                lemma_fmul_s_bound(
                    self.step as int,
                    delta_qs@[i as int] as int,
                    7_600_000_000_000,
                );
            }
            let scaled = fmul(self.step, delta_qs[i]);
            let q = self.qs[i] + scaled;
            let nq = clamp_i64(q, lo, hi);
            self.qs.set(i, nq);
            i = i + 1;
        }
    }

    /// The chain's vertex list and center of mass: a pure function of the
    /// current origin, lengths and angles.
    pub fn vertices_and_com(&self) -> (r: (Vec<Vec2>, Vec2))
        requires
            self.wf(),
        ensures
            r.0@.len() == self.ls@.len() + 1,
            forall|j: int|
                0 <= j <= self.ls@.len() ==> r.0@[j]@ == vertex_s(
                    self.origin@,
                    self.ls@,
                    self.qs@,
                    j,
                ),
            forall|j: int|
                #![trigger r.0@[j]]
                0 <= j <= self.ls@.len() ==> -VERT_LIM <= r.0@[j].x <= VERT_LIM && -VERT_LIM
                    <= r.0@[j].y <= VERT_LIM,
            r.1@ == com_s(self.origin@, self.ls@, self.qs@),
            -VERT_LIM <= r.1.x <= VERT_LIM,
            -VERT_LIM <= r.1.y <= VERT_LIM,
    {
        get_all_vertices_and_com(self.origin, &self.ls, &self.qs)
    }
}

} // verus!
