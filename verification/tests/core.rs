//! Behavioural tests of the chain geometry, the step generators, the
//! network and the optimizer, on concrete fixed-point values.

use stick_solo::chain::Chain;
use stick_solo::fcn::{Activation, FCN};
use stick_solo::fixed::{cos_fp, fmul, isqrt, sin_fp, SCALE, TWO_PI_FP};
use stick_solo::plan::{
    comx_step, get_all_vertices_and_com, jacobian_transpose_step, midpoint_comx_ik,
    origin_comx_ik, Vec2,
};
use stick_solo::ConfigError;

#[test]
fn fixed_point_products_truncate_toward_zero() {
    assert_eq!(fmul(2_000_000, 3_000_000), 6_000_000);
    assert_eq!(fmul(-1_500_000, 1_000_000), -1_500_000);
    assert_eq!(fmul(1, 1), 0);
    assert_eq!(fmul(-1, 999_999), 0);
}

#[test]
fn trig_at_zero_and_full_turn() {
    assert_eq!(sin_fp(0), 0);
    assert_eq!(cos_fp(0), SCALE);
    assert_eq!(sin_fp(TWO_PI_FP), 0);
    assert_eq!(cos_fp(TWO_PI_FP), SCALE);
}

#[test]
fn sine_peaks_near_one_unit_at_quarter_turn() {
    let s = sin_fp(1_570_796);
    assert!((s - SCALE).abs() < 10_000, "sin at quarter turn was {}", s);
    let c = cos_fp(1_570_796);
    assert!(c.abs() < 10_000, "cos at quarter turn was {}", c);
}

#[test]
fn isqrt_exact_values() {
    assert_eq!(isqrt(0), 0);
    assert_eq!(isqrt(24), 4);
    assert_eq!(isqrt(25), 5);
    assert_eq!(isqrt(1_000_000_000_000), 1_000_000);
}

#[test]
fn straight_chain_free_end_lies_total_length_along_heading() {
    // With all joint angles zero the free end sits sum(lengths) along x.
    let origin = Vec2 { x: 0, y: 0 };
    let ls: Vec<i64> = vec![200_000, 300_000];
    let qs: Vec<i64> = vec![0, 0];
    let (verts, _com) = get_all_vertices_and_com(origin, &ls, &qs);
    assert_eq!(verts.len(), 3);
    assert_eq!(verts[2].x, 500_000);
    assert_eq!(verts[2].y, 0);
}

#[test]
fn single_link_center_of_mass_is_link_midpoint() {
    let origin = Vec2 { x: 0, y: 0 };
    let ls: Vec<i64> = vec![200_000];
    let qs: Vec<i64> = vec![0];
    let (verts, com) = get_all_vertices_and_com(origin, &ls, &qs);
    assert_eq!(verts.len(), 2);
    assert_eq!(verts[1].x, 200_000);
    assert_eq!(com.x, 100_000);
    assert_eq!(com.y, 0);
}

#[test]
fn jacobian_transpose_exact_single_link() {
    // Free end at (0.2, 0), goal at (0.1, -0.1): the only column is
    // (-dy, dx) = (0, 0.2), so the delta is 0.2 * (-0.1) = -0.02.
    let verts = vec![Vec2 { x: 0, y: 0 }, Vec2 { x: 200_000, y: 0 }];
    let goal = Vec2 { x: 100_000, y: -100_000 };
    let delta = jacobian_transpose_step(&verts, goal);
    assert_eq!(delta.len(), 1);
    assert_eq!(delta[0], -20_000);
}

#[test]
fn balance_step_length_always_matches_links() {
    for n in 1..5usize {
        let mut verts = vec![Vec2 { x: 0, y: 0 }];
        for i in 0..n {
            verts.push(Vec2 { x: (i as i64 + 1) * 100_000, y: -50_000 });
        }
        let delta = comx_step(&verts, 30_000);
        assert_eq!(delta.len(), n);
    }
}

#[test]
fn balance_step_single_link_closed_form() {
    // One link hanging down: delta = 2 * comx * (y1 - y1 / 2).
    let verts = vec![Vec2 { x: 0, y: 0 }, Vec2 { x: 0, y: -200_000 }];
    let comx: i64 = 50_000;
    let delta = comx_step(&verts, comx);
    assert_eq!(delta.len(), 1);
    let y1: i64 = -200_000;
    let expected = fmul(2 * comx, y1 - y1 / 2);
    assert_eq!(delta[0], expected);
    assert_eq!(delta[0], -10_000);
}

#[test]
fn both_ik_policies_return_one_delta_per_joint() {
    let origin = Vec2 { x: 0, y: -100_000 };
    let ls: Vec<i64> = vec![200_000, 200_000];
    let qs: Vec<i64> = vec![1_000_000, -500_000];
    let goal = Vec2 { x: 100_000, y: -100_000 };
    let (jt, bal) = midpoint_comx_ik(origin, &ls, &qs, goal);
    assert_eq!(jt.len(), 2);
    assert_eq!(bal.len(), 2);
    let (jt2, bal2) = origin_comx_ik(origin, &ls, &qs, goal);
    assert_eq!(jt2.len(), 2);
    assert_eq!(bal2.len(), 2);
    // The reach step does not depend on the balance policy, but the
    // balance target differs, so the balance deltas do.
    assert_eq!(jt, jt2);
    assert_ne!(bal, bal2);
}

#[test]
fn reach_step_converges_on_reachable_goal() {
    // From a straight two-link arm, repeated small reach steps must drive
    // the free end toward a goal inside the reach disc.
    let chain = Chain::new(
        Vec2 { x: 0, y: 0 },
        vec![200_000, 200_000],
        vec![0, 0],
        vec![(None, None), (None, None)],
        400_000,
    );
    let mut chain = chain.unwrap();
    let goal = Vec2 { x: 100_000, y: -100_000 };
    let d2 = |c: &Chain| -> i64 {
        let (verts, _) = c.vertices_and_com();
        let e = verts[2];
        let dx = goal.x - e.x;
        let dy = goal.y - e.y;
        dx * dx + dy * dy
    };
    let start = d2(&chain);
    let mut prev = start;
    for _ in 0..1000 {
        let (verts, _) = chain.vertices_and_com();
        let delta = jacobian_transpose_step(&verts, goal);
        chain.update(&delta);
        let now = d2(&chain);
        assert!(now <= prev, "distance to the goal grew during a reach step");
        prev = now;
    }
    assert!(prev < start / 10, "free end did not approach the goal: start {} end {}", start, prev);
}

#[test]
fn joint_angles_stay_inside_clamps_after_any_update() {
    let chain = Chain::new(
        Vec2 { x: 0, y: 0 },
        vec![200_000, 200_000],
        vec![0, 0],
        vec![(Some(-1_000_000), Some(1_000_000)), (None, Some(0))],
        400_000,
    );
    let mut chain = chain.unwrap();
    // A huge positive and a huge negative delta must both be clipped.
    chain.update(&vec![19_000_000_000_000, 19_000_000_000_000]);
    assert_eq!(chain.qs[0], 1_000_000);
    assert_eq!(chain.qs[1], 0);
    chain.update(&vec![-19_000_000_000_000, -19_000_000_000_000]);
    assert_eq!(chain.qs[0], -1_000_000);
    assert_eq!(chain.qs[1], -8_000_000);
}

#[test]
fn chain_construction_rejects_each_bad_configuration() {
    let ok_clamps = vec![(None, None)];
    assert!(matches!(
        Chain::new(Vec2 { x: 0, y: 0 }, vec![100_000], vec![0, 0], ok_clamps.clone(), 10_000),
        Err(ConfigError::DimensionMismatch)
    ));
    assert!(matches!(
        Chain::new(Vec2 { x: 0, y: 0 }, vec![], vec![], vec![], 10_000),
        Err(ConfigError::LinkCount)
    ));
    assert!(matches!(
        Chain::new(Vec2 { x: 0, y: 0 }, vec![0], vec![0], ok_clamps.clone(), 10_000),
        Err(ConfigError::LinkLength)
    ));
    assert!(matches!(
        Chain::new(
            Vec2 { x: 0, y: 0 },
            vec![100_000],
            vec![0],
            vec![(Some(500_000), Some(-500_000))],
            10_000
        ),
        Err(ConfigError::ClampRange)
    ));
    assert!(matches!(
        Chain::new(Vec2 { x: 99_000_000, y: 0 }, vec![100_000], vec![0], ok_clamps.clone(), 10_000),
        Err(ConfigError::OriginRange)
    ));
    assert!(matches!(
        Chain::new(Vec2 { x: 0, y: 0 }, vec![100_000], vec![0], ok_clamps.clone(), 0),
        Err(ConfigError::RateRange)
    ));
    assert!(Chain::new(Vec2 { x: 0, y: 0 }, vec![100_000], vec![0], ok_clamps, 10_000).is_ok());
}

#[test]
fn chain_construction_clips_starting_angles() {
    let chain = Chain::new(
        Vec2 { x: 0, y: 0 },
        vec![100_000],
        vec![7_000_000],
        vec![(Some(-1_000_000), Some(1_000_000))],
        10_000,
    )
    .unwrap();
    assert_eq!(chain.qs[0], 1_000_000);
}

#[test]
fn network_forward_pass_is_exact_affine_map_for_identity_activations() {
    // Identity weights with biases (10, 20): output is input plus bias.
    let mut fcn = FCN::new(vec![(2, Activation::Linear), (2, Activation::Linear)]).unwrap();
    fcn.set_params(vec![1_000_000, 0, 0, 1_000_000, 10, 20]).unwrap();
    let out = fcn.at(&vec![300_000, -40_000]);
    assert_eq!(out, vec![300_010, -39_980]);
    // Evaluating is pure: a second call is bit-identical.
    let again = fcn.at(&vec![300_000, -40_000]);
    assert_eq!(out, again);
    // Output length always equals the last declared size.
    assert_eq!(out.len(), 2);
}

#[test]
fn leaky_rectifier_scales_negative_values_only() {
    let mut fcn = FCN::new(vec![(1, Activation::Linear), (1, Activation::LeakyReLu(100_000))])
        .unwrap();
    fcn.set_params(vec![1_000_000, 0]).unwrap();
    assert_eq!(fcn.at(&vec![2_000_000]), vec![2_000_000]);
    assert_eq!(fcn.at(&vec![-2_000_000]), vec![-200_000]);
}

#[test]
fn network_rejects_wrong_parameter_vector_length() {
    let mut fcn = FCN::new(vec![(2, Activation::Linear), (2, Activation::Linear)]).unwrap();
    // One short and one long: both must fail, never truncate or pad.
    assert!(matches!(fcn.set_params(vec![0; 5]), Err(ConfigError::ParamLen)));
    assert!(matches!(fcn.set_params(vec![0; 7]), Err(ConfigError::ParamLen)));
    assert!(fcn.set_params(vec![0; 6]).is_ok());
}

#[test]
fn network_rejects_bad_layer_descriptors() {
    assert!(matches!(
        FCN::new(vec![(2, Activation::Linear)]),
        Err(ConfigError::LayerSize)
    ));
    assert!(matches!(
        FCN::new(vec![(0, Activation::Linear), (2, Activation::Linear)]),
        Err(ConfigError::LayerSize)
    ));
    assert!(matches!(
        FCN::new(vec![(2, Activation::Linear), (2, Activation::LeakyReLu(-1))]),
        Err(ConfigError::LayerSize)
    ));
}
