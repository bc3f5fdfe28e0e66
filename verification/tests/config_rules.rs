//! The configuration surface: validation, rejection, and the auto-heal of
//! the population size.

use genevofra::{ConfigError, Optimizer, Score, ThreadRandom, GEF};

fn score(v: f64) -> Score {
    Score { bits: v.to_bits() }
}

#[derive(Clone)]
struct Unit {}

impl GEF for Unit {
    fn breed(&self, _other: &Self) -> Self {
        Unit {  }
    }

    fn mutate(&mut self) {}

    fn evaluate(&self) -> Score {
        score(0.0)
    }

    fn smooth(_prev: Score, _age: u32, fresh: Score) -> Score {
        fresh
    }
}

fn fresh() -> Optimizer<Unit, ThreadRandom> {
    Optimizer::new(ThreadRandom::new())
}

#[test]
fn defaults_are_valid() {
    let opt = fresh();
    let (population, survive, bad_survive, prob, deterministic, window) = opt.get_params();
    assert_eq!(population, 200);
    assert_eq!(survive, 7);
    assert_eq!(bad_survive, 3);
    assert_eq!(prob.bits, 0.9f64.to_bits());
    assert!(deterministic);
    assert_eq!(window, 0);
    assert!(opt.get_items().is_empty());
}

#[test]
fn population_must_exceed_survivors() {
    let mut opt = fresh();
    assert_eq!(opt.set_population(10), Err(ConfigError::PopulationTooSmall));
    assert_eq!(opt.set_population(5), Err(ConfigError::PopulationTooSmall));
    assert_eq!(opt.get_params().0, 200);
    assert_eq!(opt.set_population(11), Ok(()));
    assert_eq!(opt.get_params().0, 11);
}

#[test]
fn survivor_counts_must_be_positive() {
    let mut opt = fresh();
    assert_eq!(opt.set_survive(0), Err(ConfigError::SurviveTooSmall));
    assert_eq!(opt.set_bad_survive(0), Err(ConfigError::BadSurviveTooSmall));
    let (population, survive, bad_survive, _, _, _) = opt.get_params();
    assert_eq!((population, survive, bad_survive), (200, 7, 3));
}

#[test]
fn raising_survivors_heals_the_population() {
    let mut opt = fresh();
    opt.set_population(11).unwrap();
    // 11 <= 9 + 3, so the population is raised to 13, never the survivors cut
    opt.set_survive(9).unwrap();
    let (population, survive, bad_survive, _, _, _) = opt.get_params();
    assert_eq!((population, survive, bad_survive), (13, 9, 3));
    // 13 <= 9 + 5, so the population is raised again, to 15
    opt.set_bad_survive(5).unwrap();
    let (population, survive, bad_survive, _, _, _) = opt.get_params();
    assert_eq!((population, survive, bad_survive), (15, 9, 5));
}

#[test]
fn survivor_counts_cannot_overflow() {
    let mut opt = fresh();
    assert_eq!(opt.set_survive(u32::MAX), Err(ConfigError::SurvivorsTooMany));
    assert_eq!(opt.set_bad_survive(u32::MAX - 5), Err(ConfigError::SurvivorsTooMany));
    let (population, survive, bad_survive, _, _, _) = opt.get_params();
    assert_eq!((population, survive, bad_survive), (200, 7, 3));
}

#[test]
fn mutation_probability_rejects_out_of_range_and_nan() {
    let mut opt = fresh();
    assert_eq!(opt.set_prob_mutate(score(1.5)), Err(ConfigError::ProbabilityInvalid));
    assert_eq!(opt.set_prob_mutate(score(f64::NAN)), Err(ConfigError::ProbabilityInvalid));
    assert_eq!(opt.set_prob_mutate(score(-0.25)), Err(ConfigError::ProbabilityInvalid));
    // the stored probability is untouched by the rejections
    assert_eq!(opt.get_params().3.bits, 0.9f64.to_bits());
    assert_eq!(opt.set_prob_mutate(score(0.25)), Ok(()));
    assert_eq!(opt.set_prob_mutate(score(2.5)), Err(ConfigError::ProbabilityInvalid));
    assert_eq!(opt.get_params().3.bits, 0.25f64.to_bits());
    assert_eq!(opt.set_prob_mutate(score(1.0)), Ok(()));
    assert_eq!(opt.set_prob_mutate(score(0.0)), Ok(()));
    assert_eq!(opt.get_params().3.bits, 0.0f64.to_bits());
}

#[test]
fn negative_zero_counts_as_a_valid_probability() {
    // negative zero is not below zero, so the original rule admits it
    let mut opt = fresh();
    assert_eq!(opt.set_prob_mutate(score(-0.0)), Ok(()));
    assert_eq!(opt.get_params().3.bits, (-0.0f64).to_bits());
}

#[test]
fn averaging_window_rejects_zero() {
    let mut opt = fresh();
    assert_eq!(opt.set_mean_avg(0), Err(ConfigError::WindowTooSmall));
    assert_eq!(opt.get_params().5, 0);
    assert_eq!(opt.set_mean_avg(1), Ok(()));
    assert_eq!(opt.get_params().5, 0);
    assert_eq!(opt.set_mean_avg(4), Ok(()));
    assert_eq!(opt.get_params().5, 3);
}

#[test]
fn strategy_flag_is_stored() {
    let mut opt = fresh();
    assert!(opt.get_params().4);
    opt.set_selection_strat(false);
    assert!(!opt.get_params().4);
    opt.set_selection_strat(true);
    assert!(opt.get_params().4);
}
