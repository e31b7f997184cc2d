//! The fixed-topology feed-forward network: a stack of dense layers, each
//! with an activation, evaluated forward only. Parameters live in one flat
//! vector laid out layer by layer, row-major, weights before biases.

use vstd::prelude::*;
use crate::fixed::{clamp_i64, clamp_s, fmul, fmul_s, lemma_fmul_s_bound, lemma_mul_bound, SCALE};
use crate::ConfigError;

verus! {

/// Widest layer a network may declare.
pub const W_MAX: usize = 64;

/// Most layer descriptors a network may declare, the input row included.
pub const D_MAX: usize = 8;

/// Largest parameter magnitude.
pub const P_MAX: i64 = 100_000_000;

/// Neuron values saturate at this magnitude after every layer.
pub const CAP: i64 = 10_000_000_000;

/// Largest leaky-rectifier slope.
pub const SLOPE_MAX: i64 = 100_000;

/// The activation applied to a layer's pre-activation values.
#[derive(Clone, Copy, PartialEq, Eq, Structural, Debug)]
pub enum Activation {
    /// Pass-through.
    Linear,
    /// `x` for non-negative `x`, else `slope * x`, slope in fixed point.
    LeakyReLu(i64),
}

/// An activation applied to one value.
pub open spec fn act_s(a: Activation, x: int) -> int {
    match a {
        Activation::Linear => x,
        Activation::LeakyReLu(s) => if x >= 0 {
            x
        } else {
            fmul_s(s as int, x)
        },
    }
}

/// A slope within its permitted range.
pub open spec fn act_ok(a: Activation) -> bool {
    match a {
        Activation::Linear => true,
        Activation::LeakyReLu(s) => 0 <= s <= SLOPE_MAX,
    }
}

/// The views of a vector of scalars, as unbounded integers.
pub open spec fn ints_of(s: Seq<i64>) -> Seq<int> {
    Seq::new(s.len(), |i: int| s[i] as int)
}

/// Parameters a layer owns: one weight per input and output pair, then one
/// bias per output.
pub open spec fn layer_params(ins: int, outs: int) -> int {
    ins * outs + outs
}

/// Parameters the first `k` layer descriptors demand; the first descriptor
/// only names the input width and owns none.
pub open spec fn params_needed(layers: Seq<(usize, Activation)>, k: int) -> int
    decreases k,
{
    if k <= 1 {
        0
    } else {
        params_needed(layers, k - 1) + layer_params(
            layers[k - 2].0 as int,
            layers[k - 1].0 as int,
        )
    }
}

/// Dot product of `ins` weights starting at `base` with the vector `x`,
/// in fixed point.
pub open spec fn dot_s(params: Seq<i64>, base: int, x: Seq<int>, t: int) -> int
    decreases t,
{
    if t <= 0 {
        0
    } else {
        dot_s(params, base, x, t - 1) + fmul_s(params[base + t - 1] as int, x[t - 1])
    }
}

/// Pre-activation value of output `j` of a layer whose block starts at
/// `base`: row `j` of the weights dotted with `x`, plus bias `j`.
pub open spec fn pre_s(params: Seq<i64>, base: int, ins: int, outs: int, x: Seq<int>, j: int) -> int {
    dot_s(params, base + j * ins, x, ins) + params[base + ins * outs + j]
}

/// A full layer: each output activated and saturated at `CAP`.
pub open spec fn layer_out_s(
    params: Seq<i64>,
    base: int,
    ins: int,
    outs: int,
    a: Activation,
    x: Seq<int>,
) -> Seq<int> {
    Seq::new(outs as nat, |j: int| clamp_s(act_s(a, pre_s(params, base, ins, outs, x, j)), -CAP as int, CAP as int))
}

/// The values after the first `k` layer descriptors: the input itself for
/// `k <= 1`, else the previous values pushed through layer `k`.
pub open spec fn eval_to_s(
    layers: Seq<(usize, Activation)>,
    params: Seq<i64>,
    x: Seq<int>,
    k: int,
) -> Seq<int>
    decreases k,
{
    if k <= 1 {
        x
    } else {
        layer_out_s(
            params,
            params_needed(layers, k - 1),
            layers[k - 2].0 as int,
            layers[k - 1].0 as int,
            layers[k - 1].1,
            eval_to_s(layers, params, x, k - 1),
        )
    }
}

/// The network's output values for the input `x`.
pub open spec fn eval_s(layers: Seq<(usize, Activation)>, params: Seq<i64>, x: Seq<int>) -> Seq<int> {
    eval_to_s(layers, params, x, layers.len() as int)
}

/// Valid layer descriptors: between two and `D_MAX` rows, each width in
/// `1 ..= W_MAX`, each slope in range.
pub open spec fn layers_ok(layers: Seq<(usize, Activation)>) -> bool {
    &&& 2 <= layers.len() <= D_MAX
    &&& (forall|k: int| 0 <= k < layers.len() ==> 1 <= (#[trigger] layers[k]).0 <= W_MAX)
    &&& (forall|k: int| 0 <= k < layers.len() ==> act_ok((#[trigger] layers[k]).1))
}

/// Every parameter within `P_MAX`.
pub open spec fn params_bounded(params: Seq<i64>) -> bool {
    forall|p: int| 0 <= p < params.len() ==> -P_MAX <= #[trigger] params[p] <= P_MAX
}

/// A fixed-topology feed-forward network.
pub struct FCN {
    /// Layer descriptors: width and activation; the first row declares the
    /// input width and carries no parameters.
    pub layers: Vec<(usize, Activation)>,
    /// All weights and biases, flat, layer by layer.
    pub params: Vec<i64>,
}

impl FCN {
    /// Well-formed network: valid descriptors, a parameter vector of
    /// exactly the demanded length, every parameter bounded.
    pub open spec fn wf(&self) -> bool {
        &&& layers_ok(self.layers@)
        &&& self.params@.len() == params_needed(self.layers@, self.layers@.len() as int)
        &&& params_bounded(self.params@)
    }

    /// The declared input width.
    pub open spec fn in_size(&self) -> int {
        self.layers@[0].0 as int
    }

    /// The declared output width.
    pub open spec fn out_size(&self) -> int {
        self.layers@[self.layers@.len() - 1].0 as int
    }

    /// Builds a network from layer descriptors, all parameters zero.
    /// Fails exactly on an invalid descriptor list.
    #[verifier::loop_isolation(false)]
    pub fn new(layers: Vec<(usize, Activation)>) -> (r: Result<FCN, ConfigError>)
        ensures
            r is Ok <==> layers_ok(layers@),
            !(r is Ok) ==> r == Result::<FCN, ConfigError>::Err(ConfigError::LayerSize),
            r is Ok ==> {
                let f = r->Ok_0;
                &&& f.wf()
                &&& f.layers@ == layers@
                &&& (forall|p: int| 0 <= p < f.params@.len() ==> #[trigger] f.params@[p] == 0)
            },
    {
        if layers.len() < 2 || layers.len() > D_MAX {
            return Err(ConfigError::LayerSize);
        }
        let mut k: usize = 0;
        while k < layers.len()
            invariant
                0 <= k <= layers@.len(),
                forall|t: int| 0 <= t < k ==> 1 <= (#[trigger] layers@[t]).0 <= W_MAX,
                forall|t: int| 0 <= t < k ==> act_ok((#[trigger] layers@[t]).1),
            decreases layers@.len() - k,
        {
            let (w, a) = layers[k];
            if w < 1 || w > W_MAX {
                return Err(ConfigError::LayerSize);
            }
            let slope_bad: bool = match a {
                Activation::Linear => false,
                Activation::LeakyReLu(s) => s < 0 || s > SLOPE_MAX,
            };
            if slope_bad {
                return Err(ConfigError::LayerSize);
            }
            k = k + 1;
        }
        let mut needed: usize = 0;
        let mut k: usize = 1;
        while k < layers.len()
            invariant
                1 <= k <= layers@.len(),
                needed == params_needed(layers@, k as int),
                needed <= (k - 1) * 4160,
            decreases layers@.len() - k,
        {
            let ins = layers[k - 1].0;
            let outs = layers[k].0;
            proof {
                assert(1 <= ins <= W_MAX);
                assert(1 <= outs <= W_MAX);
                lemma_mul_bound(ins as int, outs as int, W_MAX as int, W_MAX as int);
                assert(ins as int * outs as int >= 0) by (nonlinear_arith)
                    requires
                        ins >= 1,
                        outs >= 1,
                ;
            }
            needed = needed + (ins * outs + outs);
            k = k + 1;
        }
        let mut params: Vec<i64> = Vec::new();
        let mut p: usize = 0;
        while p < needed
            invariant
                params@.len() == p,
                0 <= p <= needed,
                forall|t: int| 0 <= t < p ==> #[trigger] params@[t] == 0,
            decreases needed - p,
        {
            params.push(0);
            p = p + 1;
        }
        Ok(FCN { layers, params })
    }

    /// Installs a flat parameter vector. Fails exactly on a length that
    /// does not match the declared layers, or a parameter out of range;
    /// the network is unchanged on failure, never truncated or padded.
    #[verifier::loop_isolation(false)]
    pub fn set_params(&mut self, params: Vec<i64>) -> (r: Result<(), ConfigError>)
        requires
            old(self).wf(),
        ensures
            r == Result::<(), ConfigError>::Err(ConfigError::ParamLen) <==> params@.len()
                != params_needed(old(self).layers@, old(self).layers@.len() as int),
            r == Result::<(), ConfigError>::Err(ConfigError::RateRange) <==> (params@.len()
                == params_needed(old(self).layers@, old(self).layers@.len() as int)
                && !params_bounded(params@)),
            r is Ok <==> (params@.len() == params_needed(
                old(self).layers@,
                old(self).layers@.len() as int,
            ) && params_bounded(params@)),
            r is Ok ==> final(self).params@ == params@,
            !(r is Ok) ==> final(self).params@ == old(self).params@,
            final(self).layers@ == old(self).layers@,
            final(self).wf(),
    {
        if params.len() != self.params.len() {
            return Err(ConfigError::ParamLen);
        }
        let mut p: usize = 0;
        while p < params.len()
            invariant
                0 <= p <= params@.len(),
                forall|t: int| 0 <= t < p ==> -P_MAX <= #[trigger] params@[t] <= P_MAX,
            decreases params@.len() - p,
        {
            if params[p] < -P_MAX || params[p] > P_MAX {
                return Err(ConfigError::RateRange);
            }
            p = p + 1;
        }
        self.params = params;
        Ok(())
    }

    /// Forward pass: each layer's weights dotted with the previous values,
    /// the bias added, the activation applied, the result saturated at
    /// `CAP`. A pure function of the parameters and the input; the input
    /// width must match the first descriptor.
    #[verifier::loop_isolation(false)]
    pub fn at(&self, x: &Vec<i64>) -> (r: Vec<i64>)
        requires
            self.wf(),
            x@.len() == self.in_size(),
            forall|i: int| 0 <= i < x@.len() ==> -CAP <= #[trigger] x@[i] <= CAP,
        ensures
            r@.len() == self.out_size(),
            ints_of(r@) == eval_s(self.layers@, self.params@, ints_of(x@)),
            forall|j: int| 0 <= j < r@.len() ==> -CAP <= #[trigger] r@[j] <= CAP,
    {
        // Binding the length to a machine word bounds every block offset.
        let plen: usize = self.params.len();
        proof {
            assert(self.params@.len() == plen);
        }
        let mut cur: Vec<i64> = Vec::new();
        let mut i: usize = 0;
        while i < x.len()
            invariant
                0 <= i <= x@.len(),
                cur@.len() == i,
                forall|t: int| 0 <= t < i ==> #[trigger] cur@[t] == x@[t],
            decreases x@.len() - i,
        {
            cur.push(x[i]);
            i = i + 1;
        }
        proof {
            assert(ints_of(cur@) =~= ints_of(x@));
            assert(ints_of(cur@) == eval_to_s(self.layers@, self.params@, ints_of(x@), 1));
        }
        let mut base: usize = 0;
        let mut k: usize = 1;
        while k < self.layers.len()
            invariant
                1 <= k <= self.layers@.len(),
                base == params_needed(self.layers@, k as int),
                base <= self.params@.len(),
                cur@.len() == self.layers@[k - 1].0,
                ints_of(cur@) == eval_to_s(self.layers@, self.params@, ints_of(x@), k as int),
                forall|t: int| 0 <= t < cur@.len() ==> -CAP <= #[trigger] cur@[t] <= CAP,
            decreases self.layers@.len() - k,
        {
            let ins = self.layers[k - 1].0;
            let outs = self.layers[k].0;
            let a = self.layers[k].1;
            proof {
                lemma_params_needed_mono(self.layers@, (k + 1) as int, self.layers@.len() as int);
                lemma_mul_bound(ins as int, outs as int, W_MAX as int, W_MAX as int);
                assert(ins as int * outs as int >= 0) by (nonlinear_arith)
                    requires
                        ins >= 1,
                        outs >= 1,
                ;
                assert(params_needed(self.layers@, (k + 1) as int) == base + ins as int * outs
                    as int + outs as int);
            }
            let mut next: Vec<i64> = Vec::new();
            let mut j: usize = 0;
            while j < outs
                invariant
                    0 <= j <= outs,
                    next@.len() == j,
                    forall|u: int|
                        0 <= u < j ==> #[trigger] next@[u] as int == layer_out_s(
                            self.params@,
                            base as int,
                            ins as int,
                            outs as int,
                            a,
                            ints_of(cur@),
                        )[u],
                    forall|u: int| 0 <= u < j ==> -CAP <= #[trigger] next@[u] <= CAP,
                decreases outs - j,
            {
                proof {
                    assert(j * ins >= 0 && j * ins + ins <= outs * ins) by (nonlinear_arith)
                        requires
                            0 <= j < outs,
                            ins >= 1,
                    ;
                    assert(outs as int * ins as int == ins as int * outs as int)
                        by (nonlinear_arith);
                    assert(base + j * ins <= self.params@.len());
                }
                let row = base + j * ins;
                let mut acc: i64 = 0;
                let mut t: usize = 0;
                while t < ins
                    invariant
                        0 <= t <= ins,
                        row == base + j * ins,
                        j < outs,
                        acc == dot_s(self.params@, row as int, ints_of(cur@), t as int),
                        -(t as int) * 1_000_000_000_000 <= acc <= (t as int) * 1_000_000_000_000,
                    decreases ins - t,
                {
                    let w = self.params[row + t];
                    let xv = cur[t];
                    proof {
                        lemma_mul_bound(w as int, xv as int, P_MAX as int, CAP as int);
                        lemma_fmul_s_bound(w as int, xv as int, 1_000_000_000_000);
                    }
                    acc = acc + fmul(w, xv);
                    t = t + 1;
                }
                let bias = self.params[base + ins * outs + j];
                let pre = acc + bias;
                let v: i64 = match a {
                    Activation::Linear => pre,
                    Activation::LeakyReLu(s) => {
                        if pre >= 0 {
                            pre
                        } else {
                            proof {
                                lemma_mul_bound(
                                    s as int,
                                    pre as int,
                                    SLOPE_MAX as int,
                                    64_000_100_000_000,
                                );
                                lemma_fmul_s_bound(s as int, pre as int, 6_400_010_000_000);
                            }
                            fmul(s, pre)
                        }
                    },
                };
                let nv = clamp_i64(v, -CAP, CAP);
                next.push(nv);
                j = j + 1;
            }
            proof {
                assert(ints_of(next@) =~= layer_out_s(
                    self.params@,
                    base as int,
                    ins as int,
                    outs as int,
                    a,
                    ints_of(cur@),
                ));
            }
            cur = next;
            base = base + (ins * outs + outs);
            k = k + 1;
        }
        cur
    }
}

/// The parameter demand grows with the layer index.
pub proof fn lemma_params_needed_mono(layers: Seq<(usize, Activation)>, a: int, b: int)
    requires
        layers_ok(layers),
        1 <= a <= b <= layers.len(),
    ensures
        params_needed(layers, a) <= params_needed(layers, b),
    decreases b,
{
    if a < b {
        lemma_params_needed_mono(layers, a, b - 1);
        let ins = layers[b - 2].0 as int;
        let outs = layers[b - 1].0 as int;
        assert(ins * outs >= 0) by (nonlinear_arith)
            requires
                ins >= 0,
                outs >= 0,
        ;
    }
}

/// Pre-activation values of one layer without saturation: the affine map
/// `W * x + b` in fixed point.
pub open spec fn affine_layer_s(params: Seq<i64>, base: int, ins: int, outs: int, x: Seq<int>) -> Seq<int> {
    Seq::new(outs as nat, |j: int| pre_s(params, base, ins, outs, x, j))
}

/// The affine chain through the first `k` descriptors: every layer applied
/// with no activation and no saturation.
pub open spec fn affine_to_s(
    layers: Seq<(usize, Activation)>,
    params: Seq<i64>,
    x: Seq<int>,
    k: int,
) -> Seq<int>
    decreases k,
{
    if k <= 1 {
        x
    } else {
        affine_layer_s(
            params,
            params_needed(layers, k - 1),
            layers[k - 2].0 as int,
            layers[k - 1].0 as int,
            affine_to_s(layers, params, x, k - 1),
        )
    }
}

/// Every affine value through the first `k` descriptors stays within `CAP`.
pub open spec fn affine_in_cap_s(
    layers: Seq<(usize, Activation)>,
    params: Seq<i64>,
    x: Seq<int>,
    k: int,
) -> bool
    decreases k,
{
    if k <= 1 {
        true
    } else {
        affine_in_cap_s(layers, params, x, k - 1) && (forall|j: int|
            0 <= j < layers[k - 1].0 ==> -CAP <= #[trigger] affine_to_s(layers, params, x, k)[j]
                <= CAP)
    }
}

/// Evaluating a network is pure: equal descriptors, parameters and input
/// give equal output values, with nothing else entering the result.
pub proof fn lemma_eval_deterministic(
    l1: Seq<(usize, Activation)>,
    p1: Seq<i64>,
    x1: Seq<int>,
    l2: Seq<(usize, Activation)>,
    p2: Seq<i64>,
    x2: Seq<int>,
)
    requires
        l1 == l2,
        p1 == p2,
        x1 == x2,
    ensures
        eval_s(l1, p1, x1) == eval_s(l2, p2, x2),
{
}

/// A network whose activations are all pass-through computes exactly the
/// chained affine maps `W_n * (... (W_1 * x + b_1) ...) + b_n`, on every
/// input whose intermediate values stay inside the saturation cap.
pub proof fn lemma_linear_network_affine(
    layers: Seq<(usize, Activation)>,
    params: Seq<i64>,
    x: Seq<int>,
    k: int,
)
    requires
        forall|t: int| 0 <= t < layers.len() ==> (#[trigger] layers[t]).1 == Activation::Linear,
        affine_in_cap_s(layers, params, x, k),
        1 <= k <= layers.len(),
    ensures
        eval_to_s(layers, params, x, k) == affine_to_s(layers, params, x, k),
    decreases k,
{
    if k > 1 {
        lemma_linear_network_affine(layers, params, x, k - 1);
        let base = params_needed(layers, k - 1);
        let ins = layers[k - 2].0 as int;
        let outs = layers[k - 1].0 as int;
        let prev = affine_to_s(layers, params, x, k - 1);
        assert forall|j: int| 0 <= j < outs implies #[trigger] eval_to_s(layers, params, x, k)[j]
            == affine_to_s(layers, params, x, k)[j] by {
            assert(-CAP <= affine_to_s(layers, params, x, k)[j] <= CAP);
            assert(layers[k - 1].1 == Activation::Linear);
        }
        assert(eval_to_s(layers, params, x, k) =~= affine_to_s(layers, params, x, k));
    }
}

} // verus!
