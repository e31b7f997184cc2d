//! Tests of the cross-entropy optimizer: configuration validation, elite
//! selection, distribution refit, reproducible sampling, and a small
//! end-to-end run.

use stick_solo::ceo::{refit, sample_candidate, select_elites, Rng, World, CEO};
use stick_solo::fcn::{Activation, FCN};
use stick_solo::plan::Vec2;
use stick_solo::ConfigError;

fn small_ceo() -> CEO {
    CEO {
        generations: 2,
        batch_size: 4,
        num_episodes: 2,
        num_episode_ticks: 5,
        elite_frac: 500_000,
        initial_std: 1_000_000,
        noise_factor: 1_000_000,
    }
}

fn small_world() -> World {
    World {
        origin: Vec2 { x: 0, y: -100_000 },
        ls: vec![200_000, 200_000],
        q_clamps: vec![(None, None), (Some(-3_141_593), Some(0))],
        goal_min: Vec2 { x: -300_000, y: -300_000 },
        goal_max: Vec2 { x: 100_000, y: 300_000 },
        step: 10_000,
    }
}

#[test]
fn world_validator_accepts_good_tasks_and_names_the_fault() {
    assert!(small_world().check().is_ok());
    let mut w = small_world();
    w.goal_min.x = 200_000; // above goal_max.x
    assert!(matches!(w.check(), Err(ConfigError::GoalRange)));
    let mut w = small_world();
    w.ls = vec![];
    w.q_clamps = vec![];
    assert!(matches!(w.check(), Err(ConfigError::LinkCount)));
    let mut w = small_world();
    w.step = 0;
    assert!(matches!(w.check(), Err(ConfigError::RateRange)));
}

#[test]
fn too_small_elite_fraction_is_a_configuration_error() {
    let mut ceo = small_ceo();
    ceo.elite_frac = 1_000; // 4 * 0.001 < 1 elite
    assert!(matches!(ceo.validate(), Err(ConfigError::EliteCount)));
}

#[test]
fn out_of_range_rates_are_configuration_errors() {
    let mut ceo = small_ceo();
    ceo.generations = 0;
    assert!(matches!(ceo.validate(), Err(ConfigError::RateRange)));
    let mut ceo = small_ceo();
    ceo.elite_frac = 2_000_000;
    assert!(matches!(ceo.validate(), Err(ConfigError::RateRange)));
    assert!(small_ceo().validate().is_ok());
}

#[test]
fn elite_selection_picks_best_scores_first() {
    let scores: Vec<i64> = vec![5, -3, 10, 0];
    let idx = select_elites(&scores, 2);
    assert_eq!(idx, vec![2, 0]);
    let all = select_elites(&scores, 4);
    assert_eq!(all, vec![2, 0, 3, 1]);
}

#[test]
fn refit_takes_elite_mean_and_deviation_plus_noise() {
    let elites: Vec<Vec<i64>> = vec![vec![10], vec![20]];
    let (mean, std) = refit(&elites, 0);
    assert_eq!(mean, vec![15]);
    assert_eq!(std, vec![5]);
    let (_, noisy) = refit(&elites, 7);
    assert_eq!(noisy, vec![12]);
}

#[test]
fn sampling_is_reproducible_from_the_seed() {
    let mean: Vec<i64> = vec![0, 1_000_000, -500_000];
    let std: Vec<i64> = vec![1_000_000, 2_000_000, 500_000];
    let mut r1 = Rng::new(42);
    let mut r2 = Rng::new(42);
    let c1 = sample_candidate(&mut r1, &mean, &std);
    let c2 = sample_candidate(&mut r2, &mean, &std);
    assert_eq!(c1, c2);
    let mut r3 = Rng::new(43);
    let c3 = sample_candidate(&mut r3, &mean, &std);
    assert_eq!(c3.len(), 3);
    assert!(c1 != c3, "different seeds drew identical candidates");
}

#[test]
fn goal_samples_stay_inside_the_configured_rectangle() {
    let world = small_world();
    let mut rng = Rng::new(7);
    for _ in 0..50 {
        let g = world.sample_goal(&mut rng);
        assert!(world.goal_min.x <= g.x && g.x <= world.goal_max.x);
        assert!(world.goal_min.y <= g.y && g.y <= world.goal_max.y);
    }
}

#[test]
fn optimizer_runs_and_reports_nonpositive_reward() {
    let mut fcn = FCN::new(vec![
        (4, Activation::Linear),
        (4, Activation::LeakyReLu(100_000)),
        (2, Activation::Linear),
    ])
    .unwrap();
    let world = small_world();
    let ceo = small_ceo();
    let (reward, std) = ceo.optimize(&mut fcn, &world, 1).unwrap();
    assert!(reward <= 0);
    assert_eq!(std.len(), fcn.params.len());
}

#[test]
fn optimizer_runs_are_reproducible_from_the_seed() {
    let layers = vec![
        (4, Activation::Linear),
        (4, Activation::LeakyReLu(100_000)),
        (2, Activation::Linear),
    ];
    let world = small_world();
    let ceo = small_ceo();
    let mut f1 = FCN::new(layers.clone()).unwrap();
    let mut f2 = FCN::new(layers).unwrap();
    let (r1, s1) = ceo.optimize(&mut f1, &world, 9).unwrap();
    let (r2, s2) = ceo.optimize(&mut f2, &world, 9).unwrap();
    assert_eq!(r1, r2);
    assert_eq!(s1, s2);
    assert_eq!(f1.params, f2.params);
}

#[test]
fn optimizer_rejects_a_network_that_does_not_fit_the_task() {
    let mut fcn = FCN::new(vec![(3, Activation::Linear), (2, Activation::Linear)]).unwrap();
    let world = small_world();
    let ceo = small_ceo();
    assert!(matches!(
        ceo.optimize(&mut fcn, &world, 1),
        Err(ConfigError::DimensionMismatch)
    ));
}
