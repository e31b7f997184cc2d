//! Planar chain geometry and the two inverse-kinematics step generators:
//! the Jacobian-transpose reach step and the center-of-mass balance step.
//!
//! All quantities are fixed-point scalars (see `fixed`). Every function's
//! result is pinned to a spec function that states the computation over
//! mathematical integers.

use vstd::prelude::*;
use crate::fixed::{
    clamp_s, cos_fp, cos_s, div_trunc, fdiv, fdiv_s, fmul, fmul_s, lemma_fmul_s_bound,
    lemma_mul_bound, lemma_tdiv_bound, lemma_tdiv_shrinks, sin_fp, sin_s, tdiv, wrap_pi_s,
    HALF_SCALE, L_MAX, N_MAX, ORIGIN_LIM, PI_FP, Q_LIM, SCALE, TRIG_LIM, TWO_PI_FP, VERT_LIM,
};

verus! {

/// Mathematical image of a planar point: unbounded integer coordinates
/// in fixed-point units.
pub ghost struct V2 {
    pub x: int,
    pub y: int,
}

/// A planar point or vector in fixed-point coordinates.
#[derive(Clone, Copy, PartialEq, Eq, Structural, Debug)]
pub struct Vec2 {
    pub x: i64,
    pub y: i64,
}

impl View for Vec2 {
    type V = V2;

    open spec fn view(&self) -> V2 {
        V2 { x: self.x as int, y: self.y as int }
    }
}

/// The views of a sequence of points.
pub open spec fn pts(s: Seq<Vec2>) -> Seq<V2> {
    Seq::new(s.len(), |i: int| s[i]@)
}

/// Joint angles summed over the first `i` joints: the heading of link `i`.
pub open spec fn cum_q_s(qs: Seq<i64>, i: int) -> int
    decreases i,
{
    if i <= 0 {
        0
    } else {
        cum_q_s(qs, i - 1) + qs[i - 1]
    }
}

/// Vertex `i` of the chain: the origin advanced link by link, each link
/// rotated by the cumulative joint angle.
pub open spec fn vertex_s(o: V2, ls: Seq<i64>, qs: Seq<i64>, i: int) -> V2
    decreases i,
{
    if i <= 0 {
        o
    } else {
        let p = vertex_s(o, ls, qs, i - 1);
        let c = cum_q_s(qs, i);
        V2 {
            x: p.x + fmul_s(cos_s(c), ls[i - 1] as int),
            y: p.y + fmul_s(sin_s(c), ls[i - 1] as int),
        }
    }
}

/// The whole vertex list, as a sequence of `N + 1` points.
pub open spec fn vertices_s(o: V2, ls: Seq<i64>, qs: Seq<i64>) -> Seq<V2> {
    Seq::new(ls.len() + 1, |i: int| vertex_s(o, ls, qs, i))
}

/// Sum of the first `i` link lengths.
pub open spec fn sum_ls(ls: Seq<i64>, i: int) -> int
    decreases i,
{
    if i <= 0 {
        0
    } else {
        sum_ls(ls, i - 1) + ls[i - 1]
    }
}

/// Running length-weighted sum of link midpoints, the numerator of the
/// center of mass.
pub open spec fn com_acc_s(o: V2, ls: Seq<i64>, qs: Seq<i64>, i: int) -> V2
    decreases i,
{
    if i <= 0 {
        V2 { x: 0, y: 0 }
    } else {
        let p = com_acc_s(o, ls, qs, i - 1);
        let e1 = vertex_s(o, ls, qs, i - 1);
        let e2 = vertex_s(o, ls, qs, i);
        V2 {
            x: p.x + tdiv(fmul_s(ls[i - 1] as int, e1.x + e2.x), 2),
            y: p.y + tdiv(fmul_s(ls[i - 1] as int, e1.y + e2.y), 2),
        }
    }
}

/// The chain's center of mass: the weighted midpoint sum divided by the
/// total link length.
pub open spec fn com_s(o: V2, ls: Seq<i64>, qs: Seq<i64>) -> V2 {
    let a = com_acc_s(o, ls, qs, ls.len() as int);
    let total = sum_ls(ls, ls.len() as int);
    V2 { x: fdiv_s(a.x, total), y: fdiv_s(a.y, total) }
}

/// Valid chain dimensions: as many angles as links, at least one link and
/// at most `N_MAX`, each length positive and at most `L_MAX`, each angle
/// within `Q_LIM`. These are the machine limits under which every
/// intermediate product below fits in an `i64`.
pub open spec fn chain_dims_ok(ls: Seq<i64>, qs: Seq<i64>) -> bool {
    &&& ls.len() == qs.len()
    &&& 1 <= ls.len() <= N_MAX
    &&& (forall|j: int| 0 <= j < ls.len() ==> 0 < #[trigger] ls[j] <= L_MAX)
    &&& (forall|j: int| 0 <= j < qs.len() ==> -Q_LIM <= #[trigger] qs[j] <= Q_LIM)
}

/// Computes the chain's vertices and center of mass from the origin, the
/// link lengths and the joint angles: a pure function of its arguments.
pub fn get_all_vertices_and_com(origin: Vec2, ls: &Vec<i64>, qs: &Vec<i64>) -> (r: (Vec<Vec2>, Vec2))
    requires
        chain_dims_ok(ls@, qs@),
        -ORIGIN_LIM <= origin.x <= ORIGIN_LIM,
        -ORIGIN_LIM <= origin.y <= ORIGIN_LIM,
    ensures
        r.0@.len() == ls@.len() + 1,
        forall|j: int| 0 <= j <= ls@.len() ==> r.0@[j]@ == vertex_s(origin@, ls@, qs@, j),
        forall|j: int|
            #![trigger r.0@[j]]
            0 <= j <= ls@.len() ==> -VERT_LIM <= r.0@[j].x <= VERT_LIM && -VERT_LIM <= r.0@[j].y
                <= VERT_LIM,
        r.1@ == com_s(origin@, ls@, qs@),
        -VERT_LIM <= r.1.x <= VERT_LIM,
        -VERT_LIM <= r.1.y <= VERT_LIM,
    {
    let n = ls.len();
    let mut vertices: Vec<Vec2> = Vec::new();
    vertices.push(origin);
    let mut com_x: i64 = 0;
    let mut com_y: i64 = 0;
    let mut sum_l: i64 = 0;
    let mut e1 = origin;
    let mut cum: i64 = 0;
    let mut i: usize = 0;
    while i < n
        invariant
            chain_dims_ok(ls@, qs@),
            -ORIGIN_LIM <= origin.x <= ORIGIN_LIM,
            -ORIGIN_LIM <= origin.y <= ORIGIN_LIM,
            n == ls@.len(),
            0 <= i <= n,
            vertices@.len() == i + 1,
            forall|j: int| 0 <= j <= i ==> vertices@[j]@ == vertex_s(origin@, ls@, qs@, j),
            forall|j: int|
                #![trigger vertices@[j]]
                0 <= j <= i ==> -VERT_LIM <= vertices@[j].x <= VERT_LIM && -VERT_LIM
                    <= vertices@[j].y <= VERT_LIM,
            e1 == vertices@[i as int],
            -ORIGIN_LIM - i * TRIG_LIM <= e1.x <= ORIGIN_LIM + i * TRIG_LIM,
            -ORIGIN_LIM - i * TRIG_LIM <= e1.y <= ORIGIN_LIM + i * TRIG_LIM,
            cum == cum_q_s(qs@, i as int),
            -(i as int) * Q_LIM <= cum <= (i as int) * Q_LIM,
            com_x == com_acc_s(origin@, ls@, qs@, i as int).x,
            com_y == com_acc_s(origin@, ls@, qs@, i as int).y,
            -(sum_ls(ls@, i as int) * VERT_LIM) <= com_x * SCALE <= sum_ls(ls@, i as int)
                * VERT_LIM,
            -(sum_ls(ls@, i as int) * VERT_LIM) <= com_y * SCALE <= sum_ls(ls@, i as int)
                * VERT_LIM,
            sum_l == sum_ls(ls@, i as int),
            i <= sum_l <= i * L_MAX,
        decreases n - i,
    {
        cum = cum + qs[i];
        let c = cos_fp(cum);
        let s = sin_fp(cum);
        let l = ls[i];
        proof {
            lemma_mul_bound(c as int, l as int, TRIG_LIM as int, L_MAX as int);
            lemma_fmul_s_bound(c as int, l as int, TRIG_LIM as int);
            lemma_mul_bound(s as int, l as int, TRIG_LIM as int, L_MAX as int);
            lemma_fmul_s_bound(s as int, l as int, TRIG_LIM as int);
        }
        let dx = fmul(c, l);
        let dy = fmul(s, l);
        let e2 = Vec2 { x: e1.x + dx, y: e1.y + dy };
        vertices.push(e2);
        let sx = e1.x + e2.x;
        let sy = e1.y + e2.y;
        proof {
            lemma_mul_bound(sx as int, l as int, 2 * VERT_LIM as int, L_MAX as int);
            lemma_mul_bound(sy as int, l as int, 2 * VERT_LIM as int, L_MAX as int);
            lemma_mul_bound(sx as int, l as int, 2 * VERT_LIM as int, l as int);
            lemma_mul_bound(sy as int, l as int, 2 * VERT_LIM as int, l as int);
            lemma_tdiv_shrinks(sx as int * l as int, SCALE as int);
            lemma_tdiv_shrinks(sy as int * l as int, SCALE as int);
            lemma_fmul_s_bound(sx as int, l as int, 2 * VERT_LIM as int);
            lemma_fmul_s_bound(sy as int, l as int, 2 * VERT_LIM as int);
            lemma_tdiv_shrinks(fmul_s(l as int, sx as int), 2);
            lemma_tdiv_shrinks(fmul_s(l as int, sy as int), 2);
            assert(fmul_s(l as int, sx as int) == fmul_s(sx as int, l as int)) by {
                assert(l as int * sx as int == sx as int * l as int) by (nonlinear_arith);
            }
            assert(fmul_s(l as int, sy as int) == fmul_s(sy as int, l as int)) by {
                assert(l as int * sy as int == sy as int * l as int) by (nonlinear_arith);
            }
        }
        let tx = div_trunc(fmul(l, sx), 2);
        let ty = div_trunc(fmul(l, sy), 2);
        com_x = com_x + tx;
        com_y = com_y + ty;
        sum_l = sum_l + l;
        e1 = e2;
        i = i + 1;
    }
    proof {
        lemma_tdiv_bound(com_x as int * SCALE as int, sum_l as int, VERT_LIM as int);
        lemma_tdiv_bound(com_y as int * SCALE as int, sum_l as int, VERT_LIM as int);
    }
    let cx = fdiv(com_x, sum_l);
    let cy = fdiv(com_y, sum_l);
    (vertices, Vec2 { x: cx, y: cy })
}

/// Bound on the point coordinates and balance targets the step generators
/// accept; chain vertices stay well inside it.
pub const PT_LIM: i64 = 500_000_000;

/// Largest goal coordinate the reach planners accept.
pub const GOAL_LIM: i64 = 300_000_000;

/// Magnitude bound on each reach-step delta.
pub const REACH_DELTA_LIM: i64 = 2_000_000_000_000;

/// Magnitude bound on each balance-step delta.
pub const BAL_DELTA_LIM: i64 = 17_000_000_000_000;

/// The reach-step delta for joint `i`: the Jacobian-transpose column
/// `(-dy, dx)` of the vector from joint `i` to the free end, dotted with
/// the Cartesian error `goal - free_end`.
pub open spec fn jt_delta_s(vs: Seq<V2>, goal: V2, i: int) -> int {
    let e = vs[vs.len() - 1];
    fmul_s(-(e.y - vs[i].y), goal.x - e.x) + fmul_s(e.x - vs[i].x, goal.y - e.y)
}

/// One Jacobian-transpose reach step: for each joint, the angle delta that
/// locally moves the free end toward the goal. A single proportional step,
/// not an iterative solve: the caller scales and re-applies it every tick.
pub fn jacobian_transpose_step(vertices: &Vec<Vec2>, goal: Vec2) -> (r: Vec<i64>)
    requires
        2 <= vertices@.len() <= N_MAX + 1,
        forall|j: int|
            #![trigger vertices@[j]]
            0 <= j < vertices@.len() ==> -PT_LIM <= vertices@[j].x <= PT_LIM && -PT_LIM
                <= vertices@[j].y <= PT_LIM,
        -PT_LIM <= goal.x <= PT_LIM,
        -PT_LIM <= goal.y <= PT_LIM,
    ensures
        r@.len() == vertices@.len() - 1,
        forall|i: int| 0 <= i < r@.len() ==> r@[i] == jt_delta_s(pts(vertices@), goal@, i),
        forall|i: int|
            0 <= i < r@.len() ==> -REACH_DELTA_LIM <= #[trigger] r@[i] <= REACH_DELTA_LIM,
{
    let n = vertices.len() - 1;
    let e = vertices[n];
    let ex = goal.x - e.x;
    let ey = goal.y - e.y;
    let mut r: Vec<i64> = Vec::new();
    let mut i: usize = 0;
    while i < n
        invariant
            n == vertices@.len() - 1,
            2 <= vertices@.len() <= N_MAX + 1,
            forall|j: int|
                #![trigger vertices@[j]]
                0 <= j < vertices@.len() ==> -PT_LIM <= vertices@[j].x <= PT_LIM && -PT_LIM
                    <= vertices@[j].y <= PT_LIM,
            -PT_LIM <= goal.x <= PT_LIM,
            -PT_LIM <= goal.y <= PT_LIM,
            e == vertices@[n as int],
            ex == goal.x - e.x,
            ey == goal.y - e.y,
            0 <= i <= n,
            r@.len() == i,
            forall|k: int| 0 <= k < i ==> r@[k] == jt_delta_s(pts(vertices@), goal@, k),
            forall|k: int|
                0 <= k < i ==> -REACH_DELTA_LIM <= #[trigger] r@[k] <= REACH_DELTA_LIM,
        decreases n - i,
    {
        let v = vertices[i];
        let jx = -(e.y - v.y);
        let jy = e.x - v.x;
        proof {
            lemma_mul_bound(jx as int, ex as int, 2 * PT_LIM as int, 2 * PT_LIM as int);
            lemma_fmul_s_bound(jx as int, ex as int, 1_000_000_000_000);
            lemma_mul_bound(jy as int, ey as int, 2 * PT_LIM as int, 2 * PT_LIM as int);
            lemma_fmul_s_bound(jy as int, ey as int, 1_000_000_000_000);
        }
        let d = fmul(jx, ex) + fmul(jy, ey);
        r.push(d);
        i = i + 1;
    }
    r
}

/// Sum of the heights of the first `i` vertices.
pub open spec fn sum_y_s(vs: Seq<V2>, i: int) -> int
    decreases i,
{
    if i <= 0 {
        0
    } else {
        sum_y_s(vs, i - 1) + vs[i - 1].y
    }
}

/// The height term of the balance gradient: all vertex heights summed,
/// with the free end counted at half weight.
pub open spec fn second_term_s(vs: Seq<V2>) -> int {
    sum_y_s(vs, vs.len() as int) - tdiv(vs[vs.len() - 1].y, 2)
}

/// The per-chain gain of the balance gradient: twice the horizontal
/// center-of-mass error over the link count.
pub open spec fn comx_gain_s(comx: int, n: int) -> int {
    tdiv(2 * comx, n)
}

/// The balance-step delta for joint `i`, propagated from the base: joint
/// `i` takes joint `i - 1`'s delta, less a term for its own height and
/// chain-position weight, discounted by its one-based index.
pub open spec fn comx_delta_s(vs: Seq<V2>, comx: int, i: int) -> int
    decreases i,
{
    let n = vs.len() - 1;
    if i <= 0 {
        fmul_s(comx_gain_s(comx, n), second_term_s(vs))
    } else {
        let w = (n - i) * SCALE + HALF_SCALE;
        tdiv(
            comx_delta_s(vs, comx, i - 1) - fmul_s(comx_gain_s(comx, n), fmul_s(vs[i].y, w)),
            i,
        )
    }
}

/// One center-of-mass balance step: the negative gradient of the squared
/// horizontal center-of-mass error with respect to each joint angle,
/// with responsibility discounted away from the base.
pub fn comx_step(vertices: &Vec<Vec2>, comx: i64) -> (r: Vec<i64>)
    requires
        2 <= vertices@.len() <= N_MAX + 1,
        forall|j: int|
            #![trigger vertices@[j]]
            0 <= j < vertices@.len() ==> -PT_LIM <= vertices@[j].x <= PT_LIM && -PT_LIM
                <= vertices@[j].y <= PT_LIM,
        -PT_LIM <= comx <= PT_LIM,
    ensures
        r@.len() == vertices@.len() - 1,
        forall|i: int| 0 <= i < r@.len() ==> r@[i] == comx_delta_s(pts(vertices@), comx as int, i),
        forall|i: int|
            0 <= i < r@.len() ==> -BAL_DELTA_LIM <= #[trigger] r@[i] <= BAL_DELTA_LIM,
{
    let n = vertices.len() - 1;
    let mut sum_y: i64 = 0;
    let mut j: usize = 0;
    while j < vertices.len()
        invariant
            vertices@.len() <= N_MAX + 1,
            forall|k: int|
                #![trigger vertices@[k]]
                0 <= k < vertices@.len() ==> -PT_LIM <= vertices@[k].y <= PT_LIM,
            0 <= j <= vertices@.len(),
            sum_y == sum_y_s(pts(vertices@), j as int),
            -(j as int) * PT_LIM <= sum_y <= (j as int) * PT_LIM,
        decreases vertices@.len() - j,
    {
        sum_y = sum_y + vertices[j].y;
        j = j + 1;
    }
    let last_y = vertices[n].y;
    let second = sum_y - div_trunc(last_y, 2);
    proof {
        lemma_tdiv_bound(last_y as int, 2, PT_LIM as int);
        lemma_tdiv_bound(2 * comx as int, n as int, 2 * PT_LIM as int);
    }
    let g = div_trunc(2 * comx, n as i64);
    proof {
        lemma_mul_bound(g as int, second as int, 2 * PT_LIM as int, 18 * PT_LIM as int);
        lemma_fmul_s_bound(g as int, second as int, 9_000_000_000_000);
    }
    let mut delta_prev = fmul(g, second);
    let mut r: Vec<i64> = Vec::new();
    r.push(delta_prev);
    let mut i: usize = 1;
    while i < n
        invariant
            n == vertices@.len() - 1,
            2 <= vertices@.len() <= N_MAX + 1,
            forall|k: int|
                #![trigger vertices@[k]]
                0 <= k < vertices@.len() ==> -PT_LIM <= vertices@[k].x <= PT_LIM && -PT_LIM
                    <= vertices@[k].y <= PT_LIM,
            -PT_LIM <= comx <= PT_LIM,
            g == comx_gain_s(comx as int, n as int),
            -(2 * PT_LIM as int) <= g <= 2 * PT_LIM as int,
            1 <= i <= n,
            r@.len() == i,
            forall|k: int|
                0 <= k < i ==> r@[k] == comx_delta_s(pts(vertices@), comx as int, k),
            forall|k: int| 0 <= k < i ==> -BAL_DELTA_LIM <= #[trigger] r@[k] <= BAL_DELTA_LIM,
            delta_prev == comx_delta_s(pts(vertices@), comx as int, i - 1),
            -BAL_DELTA_LIM <= delta_prev <= BAL_DELTA_LIM,
            i == 1 ==> -9_000_000_000_000 <= delta_prev <= 9_000_000_000_000,
        decreases n - i,
    {
        let w: i64 = ((n - i) as i64) * SCALE + HALF_SCALE;
        proof {
            lemma_mul_bound(vertices@[i as int].y as int, w as int, PT_LIM as int, 15_500_000);
            lemma_fmul_s_bound(vertices@[i as int].y as int, w as int, 7_750_000_000);
        }
        let t = fmul(vertices[i].y, w);
        proof {
            lemma_mul_bound(g as int, t as int, 2 * PT_LIM as int, 7_750_000_000);
            lemma_fmul_s_bound(g as int, t as int, 7_750_000_000_000);
            lemma_tdiv_bound(
                delta_prev as int - fmul_s(g as int, t as int),
                i as int,
                BAL_DELTA_LIM as int,
            );
        }
        let u = fmul(g, t);
        let delta_curr = div_trunc(delta_prev - u, i as i64);
        r.push(delta_curr);
        delta_prev = delta_curr;
        i = i + 1;
    }
    r
}

/// Every vertex re-expressed relative to the base vertex.
pub open spec fn shifted_s(vs: Seq<V2>) -> Seq<V2> {
    Seq::new(vs.len(), |i: int| V2 { x: vs[i].x - vs[0].x, y: vs[i].y - vs[0].y })
}

/// The balance target of the midpoint policy: the horizontal midpoint of
/// origin and goal.
pub open spec fn midpoint_comx_target_s(o: V2, g: V2) -> int {
    tdiv(o.x + g.x, 2)
}

/// Re-origin a vertex list so its base vertex is at zero.
fn shift_to_base(vertices: &Vec<Vec2>) -> (r: Vec<Vec2>)
    requires
        1 <= vertices@.len() <= N_MAX + 1,
        forall|j: int|
            #![trigger vertices@[j]]
            0 <= j < vertices@.len() ==> -VERT_LIM <= vertices@[j].x <= VERT_LIM && -VERT_LIM
                <= vertices@[j].y <= VERT_LIM,
    ensures
        r@.len() == vertices@.len(),
        pts(r@) == shifted_s(pts(vertices@)),
        forall|j: int|
            #![trigger r@[j]]
            0 <= j < r@.len() ==> -2 * VERT_LIM <= r@[j].x <= 2 * VERT_LIM && -2 * VERT_LIM
                <= r@[j].y <= 2 * VERT_LIM,
{
    let base = vertices[0];
    let mut r: Vec<Vec2> = Vec::new();
    let mut i: usize = 0;
    while i < vertices.len()
        invariant
            1 <= vertices@.len() <= N_MAX + 1,
            forall|j: int|
                #![trigger vertices@[j]]
                0 <= j < vertices@.len() ==> -VERT_LIM <= vertices@[j].x <= VERT_LIM && -VERT_LIM
                    <= vertices@[j].y <= VERT_LIM,
            base == vertices@[0],
            0 <= i <= vertices@.len(),
            r@.len() == i,
            forall|j: int|
                0 <= j < i ==> #[trigger] r@[j]@ == shifted_s(pts(vertices@))[j],
            forall|j: int|
                #![trigger r@[j]]
                0 <= j < i ==> -2 * VERT_LIM <= r@[j].x <= 2 * VERT_LIM && -2 * VERT_LIM
                    <= r@[j].y <= 2 * VERT_LIM,
        decreases vertices@.len() - i,
    {
        let v = vertices[i];
        r.push(Vec2 { x: v.x - base.x, y: v.y - base.y });
        i = i + 1;
    }
    proof {
        assert(pts(r@) =~= shifted_s(pts(vertices@)));
    }
    r
}

/// Reach and balance deltas for one tick, with the balance target set to
/// the horizontal midpoint of origin and goal: the policy for a chain that
/// must stay balanced between its hold and its objective.
pub fn midpoint_comx_ik(origin: Vec2, ls: &Vec<i64>, qs: &Vec<i64>, goal: Vec2) -> (r: (
    Vec<i64>,
    Vec<i64>,
))
    requires
        chain_dims_ok(ls@, qs@),
        -ORIGIN_LIM <= origin.x <= ORIGIN_LIM,
        -ORIGIN_LIM <= origin.y <= ORIGIN_LIM,
        -GOAL_LIM <= goal.x <= GOAL_LIM,
        -GOAL_LIM <= goal.y <= GOAL_LIM,
    ensures
        r.0@.len() == ls@.len(),
        r.1@.len() == ls@.len(),
        forall|i: int|
            0 <= i < ls@.len() ==> r.0@[i] == jt_delta_s(
                vertices_s(origin@, ls@, qs@),
                goal@,
                i,
            ),
        forall|i: int|
            0 <= i < ls@.len() ==> r.1@[i] == comx_delta_s(
                shifted_s(vertices_s(origin@, ls@, qs@)),
                com_s(origin@, ls@, qs@).x - midpoint_comx_target_s(origin@, goal@),
                i,
            ),
        forall|i: int|
            0 <= i < ls@.len() ==> -REACH_DELTA_LIM <= #[trigger] r.0@[i] <= REACH_DELTA_LIM,
        forall|i: int|
            0 <= i < ls@.len() ==> -BAL_DELTA_LIM <= #[trigger] r.1@[i] <= BAL_DELTA_LIM,
{
    let (vertices, com) = get_all_vertices_and_com(origin, ls, qs);
    proof {
        assert(pts(vertices@) =~= vertices_s(origin@, ls@, qs@));
    }
    let jt = jacobian_transpose_step(&vertices, goal);
    let shifted = shift_to_base(&vertices);
    proof {
        lemma_tdiv_bound(origin.x as int + goal.x as int, 2, 155_000_000);
    }
    let target = div_trunc(origin.x + goal.x, 2);
    let comx = com.x - target;
    let bal = comx_step(&shifted, comx);
    (jt, bal)
}

/// Reach and balance deltas for one tick, with the balance target set to
/// the origin itself: the policy for a chain that must keep its mass over
/// its hold.
pub fn origin_comx_ik(origin: Vec2, ls: &Vec<i64>, qs: &Vec<i64>, goal: Vec2) -> (r: (
    Vec<i64>,
    Vec<i64>,
))
    requires
        chain_dims_ok(ls@, qs@),
        -ORIGIN_LIM <= origin.x <= ORIGIN_LIM,
        -ORIGIN_LIM <= origin.y <= ORIGIN_LIM,
        -GOAL_LIM <= goal.x <= GOAL_LIM,
        -GOAL_LIM <= goal.y <= GOAL_LIM,
    ensures
        r.0@.len() == ls@.len(),
        r.1@.len() == ls@.len(),
        forall|i: int|
            0 <= i < ls@.len() ==> r.0@[i] == jt_delta_s(
                vertices_s(origin@, ls@, qs@),
                goal@,
                i,
            ),
        forall|i: int|
            0 <= i < ls@.len() ==> r.1@[i] == comx_delta_s(
                shifted_s(vertices_s(origin@, ls@, qs@)),
                com_s(origin@, ls@, qs@).x - origin@.x,
                i,
            ),
        forall|i: int|
            0 <= i < ls@.len() ==> -REACH_DELTA_LIM <= #[trigger] r.0@[i] <= REACH_DELTA_LIM,
        forall|i: int|
            0 <= i < ls@.len() ==> -BAL_DELTA_LIM <= #[trigger] r.1@[i] <= BAL_DELTA_LIM,
{
    let (vertices, com) = get_all_vertices_and_com(origin, ls, qs);
    proof {
        assert(pts(vertices@) =~= vertices_s(origin@, ls@, qs@));
    }
    let jt = jacobian_transpose_step(&vertices, goal);
    let shifted = shift_to_base(&vertices);
    let comx = com.x - origin.x;
    let bal = comx_step(&shifted, comx);
    (jt, bal)
}

/// The cumulative heading of a chain whose joint angles are all zero is zero.
pub proof fn lemma_cum_q_zero(qs: Seq<i64>, i: int)
    requires
        0 <= i <= qs.len(),
        forall|j: int| 0 <= j < qs.len() ==> #[trigger] qs[j] == 0,
    ensures
        cum_q_s(qs, i) == 0,
    decreases i,
{
    if i > 0 {
        lemma_cum_q_zero(qs, i - 1);
    }
}

/// At angle zero the sine is exactly zero and the cosine exactly one unit.
pub proof fn lemma_trig_at_zero()
    ensures
        sin_s(0) == 0,
        cos_s(0) == SCALE,
{
    vstd::arithmetic::div_mod::lemma_small_mod(PI_FP as nat, TWO_PI_FP as nat);
    assert(wrap_pi_s(0) == 0);
    vstd::arithmetic::div_mod::lemma_div_of0(SCALE as int);
    vstd::arithmetic::div_mod::lemma_div_of0(6);
    vstd::arithmetic::div_mod::lemma_div_of0(120);
    vstd::arithmetic::div_mod::lemma_div_of0(5040);
    vstd::arithmetic::div_mod::lemma_div_of0(2);
    vstd::arithmetic::div_mod::lemma_div_of0(24);
    vstd::arithmetic::div_mod::lemma_div_of0(720);
}

/// With every joint angle zero the chain lies straight along its initial
/// heading: vertex `i` sits the first `i` link lengths from the origin
/// along the x axis, so the free end lies the total link length away.
pub proof fn lemma_zero_angles_free_end(o: V2, ls: Seq<i64>, qs: Seq<i64>, i: int)
    requires
        ls.len() == qs.len(),
        0 <= i <= ls.len(),
        forall|j: int| 0 <= j < ls.len() ==> 0 < #[trigger] ls[j] <= L_MAX,
        forall|j: int| 0 <= j < qs.len() ==> #[trigger] qs[j] == 0,
    ensures
        vertex_s(o, ls, qs, i).x == o.x + sum_ls(ls, i),
        vertex_s(o, ls, qs, i).y == o.y,
    decreases i,
{
    if i > 0 {
        lemma_zero_angles_free_end(o, ls, qs, i - 1);
        lemma_cum_q_zero(qs, i);
        lemma_trig_at_zero();
        vstd::arithmetic::div_mod::lemma_div_multiples_vanish(ls[i - 1] as int, SCALE as int);
        vstd::arithmetic::div_mod::lemma_div_of0(SCALE as int);
        assert(fmul_s(cos_s(0), ls[i - 1] as int) == ls[i - 1]);
        assert(fmul_s(sin_s(0), ls[i - 1] as int) == 0);
    }
}

/// For a single-link chain based at height zero the balance step is the
/// closed form `2 * comx * (y1 - y1 / 2)` in fixed point: one scalar
/// proportional to the target error and to the link's own vertical offset.
pub proof fn lemma_single_link_balance(vs: Seq<V2>, comx: int)
    requires
        vs.len() == 2,
        vs[0].y == 0,
    ensures
        comx_delta_s(vs, comx, 0) == fmul_s(2 * comx, vs[1].y - tdiv(vs[1].y, 2)),
{
    vstd::arithmetic::div_mod::lemma_div_multiples_vanish(2 * comx, 1);
    vstd::arithmetic::div_mod::lemma_div_multiples_vanish(-2 * comx, 1);
    assert(comx_gain_s(comx, 1) == 2 * comx);
    assert(sum_y_s(vs, 0) == 0);
    assert(sum_y_s(vs, 1) == vs[0].y);
    assert(sum_y_s(vs, 2) == vs[1].y);
}

} // verus!
