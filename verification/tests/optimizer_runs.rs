//! The generational loop end to end: population sizes, ordering, elitism,
//! smoothing, and the two survival strategies.

use genevofra::{CycleRandom, Optimizer, Score, ThreadRandom, GEF};

fn score(v: f64) -> Score {
    Score { bits: v.to_bits() }
}

fn running_average(prev: Score, age: u32, fresh: Score) -> Score {
    let p = f64::from_bits(prev.bits);
    let f = f64::from_bits(fresh.bits);
    Score { bits: ((p * age as f64 + f) / (age as f64 + 1.0)).to_bits() }
}

/// A candidate with a fixed fitness; breeding averages, mutation only sets
/// a mark.
#[derive(Clone)]
struct Fixed {
    v: f64,
    mutated: bool,
}

impl Fixed {
    fn new(v: f64) -> Fixed {
        Fixed { v, mutated: false }
    }
}

impl GEF for Fixed {
    fn breed(&self, other: &Self) -> Self {
        Fixed { v: (self.v + other.v) / 2.0, mutated: false }
    }

    fn mutate(&mut self) {
        self.mutated = true;
    }

    fn evaluate(&self) -> Score {
        score(self.v)
    }

    fn smooth(prev: Score, age: u32, fresh: Score) -> Score {
        running_average(prev, age, fresh)
    }
}

/// A candidate whose fitness climbs when it is mutated.
#[derive(Clone)]
struct Climber {
    v: f64,
}

impl GEF for Climber {
    fn breed(&self, other: &Self) -> Self {
        Climber { v: (self.v + other.v) / 2.0 }
    }

    fn mutate(&mut self) {
        self.v += 1.0;
    }

    fn evaluate(&self) -> Score {
        score(self.v)
    }

    fn smooth(prev: Score, age: u32, fresh: Score) -> Score {
        running_average(prev, age, fresh)
    }
}

fn sorted_by_the_rule(scores: &[Score]) -> bool {
    for w in scores.windows(2) {
        if !w[0].ranks_before(&w[1]) {
            return false;
        }
    }
    true
}

#[test]
fn one_seed_elitism_scenario() {
    // one seed of score -100; population 10, survive 2, bad_survive 1,
    // mutation certain, deterministic strategy
    let mut opt = Optimizer::new(ThreadRandom::new());
    opt.set_survive(2).unwrap();
    opt.set_bad_survive(1).unwrap();
    opt.set_population(10).unwrap();
    opt.set_prob_mutate(score(1.0)).unwrap();
    opt.set_selection_strat(true);
    opt.add_item(Fixed::new(-100.0));
    let best = opt.optimize(1);
    assert_eq!(opt.get_items().len(), 3);
    assert_eq!(best.bits, (-100.0f64).to_bits());
    assert_eq!(opt.get_score().bits, (-100.0f64).to_bits());
    let scores: Vec<Score> = opt.get_items().iter().map(|r| r.score).collect();
    assert!(sorted_by_the_rule(&scores));
    // every score ties, so the sort is stable and the unmutated seed stays
    // in front; every bred record was mutated
    assert!(!opt.get_best_ref().mutated);
    for r in opt.get_items().iter().skip(1) {
        assert!(r.candidate.mutated);
    }
}

#[test]
fn population_settles_at_the_survivor_count() {
    let mut opt = Optimizer::new(ThreadRandom::new());
    opt.set_survive(3).unwrap();
    opt.set_bad_survive(2).unwrap();
    opt.set_population(12).unwrap();
    opt.add_item(Fixed::new(1.0));
    opt.add_item(Fixed::new(2.0));
    for _ in 0..3 {
        opt.optimize(1);
        assert_eq!(opt.get_items().len(), 5);
    }
    opt.optimize(2);
    assert_eq!(opt.get_items().len(), 5);
}

#[test]
fn stochastic_survival_keeps_the_top_ranks() {
    // survive 1 + bad_survive 1: ranks floor(0.1^3 * 2) = 0, then
    // floor(0.9^3 * 2) = 1 — distinct after exactly two draws
    let u1 = ((0.1 * (1u64 << 21) as f64) as u64) << 43;
    let u2 = ((0.9 * (1u64 << 21) as f64) as u64) << 43;
    let mut opt = Optimizer::new(CycleRandom::new(vec![u1, u2]));
    opt.set_survive(1).unwrap();
    opt.set_bad_survive(1).unwrap();
    opt.set_population(3).unwrap();
    opt.set_selection_strat(false);
    opt.add_item(Fixed::new(5.0));
    opt.add_item(Fixed::new(1.0));
    opt.add_item(Fixed::new(3.0));
    // the population is already full, so no draws are spent on breeding
    let best = opt.optimize(1);
    assert_eq!(opt.get_items().len(), 2);
    assert_eq!(best.bits, 5.0f64.to_bits());
    assert_eq!(opt.get_worst_score().bits, 3.0f64.to_bits());
}

#[test]
fn nan_scores_sort_after_comparable_ones() {
    let mut opt = Optimizer::new(ThreadRandom::new());
    opt.set_survive(2).unwrap();
    opt.set_bad_survive(2).unwrap();
    opt.set_population(6).unwrap();
    opt.add_item(Fixed::new(f64::NAN));
    opt.add_item(Fixed::new(5.0));
    opt.add_item(Fixed::new(3.0));
    opt.optimize(1);
    assert_eq!(opt.get_items().len(), 4);
    let scores: Vec<Score> = opt.get_items().iter().map(|r| r.score).collect();
    assert!(sorted_by_the_rule(&scores));
    let mut seen_nan = false;
    for s in &scores {
        if s.is_nan() {
            seen_nan = true;
        } else {
            assert!(!seen_nan, "a comparable score stood after a NaN one");
        }
    }
    // breeding only averages 5 and 3 (or NaN), so the best stays 5
    assert_eq!(opt.get_score().bits, 5.0f64.to_bits());
}

#[test]
fn best_score_is_monotone_without_smoothing() {
    let draws: Vec<u64> = (0..64u64).map(|i| i.wrapping_mul(0x9e3779b97f4a7c15)).collect();
    let mut opt = Optimizer::new(CycleRandom::new(draws));
    opt.set_survive(2).unwrap();
    opt.set_bad_survive(1).unwrap();
    opt.set_population(8).unwrap();
    opt.add_item(Climber { v: 0.0 });
    let mut last = f64::from_bits(opt.optimize(1).bits);
    for _ in 0..6 {
        let next = f64::from_bits(opt.optimize(1).bits);
        assert!(next >= last);
        last = next;
    }
}

#[test]
fn repeated_reads_are_idempotent() {
    let mut opt = Optimizer::new(ThreadRandom::new());
    opt.add_item(Fixed::new(2.5));
    opt.add_item(Fixed::new(7.5));
    opt.optimize(1);
    let a = opt.get_best();
    let b = opt.get_best();
    assert_eq!(a.v.to_bits(), b.v.to_bits());
    assert_eq!(a.mutated, b.mutated);
    assert_eq!(opt.get_best_ref().v.to_bits(), opt.get_best_ref().v.to_bits());
    assert_eq!(opt.get_score(), opt.get_score());
    assert_eq!(opt.get_worst_score(), opt.get_worst_score());
}

#[test]
fn add_item_evaluates_but_does_not_sort() {
    let mut opt: Optimizer<Fixed, ThreadRandom> = Optimizer::new(ThreadRandom::new());
    opt.add_item(Fixed::new(5.0));
    opt.add_item(Fixed::new(7.0));
    let items = opt.get_items();
    assert_eq!(items.len(), 2);
    assert_eq!(items[0].score.bits, 5.0f64.to_bits());
    assert_eq!(items[1].score.bits, 7.0f64.to_bits());
    assert_eq!(items[0].age, 1);
    assert_eq!(opt.get_score().bits, 5.0f64.to_bits());
    assert_eq!(opt.get_worst_score().bits, 7.0f64.to_bits());
}

#[test]
fn mutation_probability_zero_never_mutates() {
    let mut opt = Optimizer::new(ThreadRandom::new());
    opt.set_survive(2).unwrap();
    opt.set_bad_survive(1).unwrap();
    opt.set_population(6).unwrap();
    opt.set_prob_mutate(score(0.0)).unwrap();
    opt.add_item(Fixed::new(4.0));
    opt.optimize(2);
    for r in opt.get_items().iter() {
        assert!(!r.candidate.mutated);
    }
}

/// A candidate whose fitness is sampled from a noisy sequence, to watch the
/// running average.
#[derive(Clone)]
struct Sampled {
    seed: bool,
    samples: std::cell::Cell<u32>,
}

impl GEF for Sampled {
    fn breed(&self, _other: &Self) -> Self {
        Sampled { seed: false, samples: std::cell::Cell::new(0) }
    }

    fn mutate(&mut self) {}

    fn evaluate(&self) -> Score {
        if self.seed {
            let n = self.samples.get();
            self.samples.set(n + 1);
            // the seed measures 4.0 on its first sample and 8.0 on its second
            if n == 0 {
                score(4.0)
            } else {
                score(8.0)
            }
        } else {
            score(1.0)
        }
    }

    fn smooth(prev: Score, age: u32, fresh: Score) -> Score {
        running_average(prev, age, fresh)
    }
}

#[test]
fn smoothing_averages_over_the_window() {
    let draws: Vec<u64> = vec![7, 13, 29];
    let mut opt = Optimizer::new(CycleRandom::new(draws));
    opt.set_survive(1).unwrap();
    opt.set_bad_survive(1).unwrap();
    opt.set_population(3).unwrap();
    opt.set_mean_avg(5).unwrap();
    opt.add_item(Sampled { seed: true, samples: std::cell::Cell::new(0) });
    opt.optimize(1);
    // the seed's score is the running average (4.0 * 1 + 8.0) / 2, ahead of
    // the bred records' 1.0, and its age advanced to two rounds
    assert_eq!(opt.get_score().bits, 6.0f64.to_bits());
    assert_eq!(opt.get_items()[0].age, 2);
    assert_eq!(opt.get_items()[1].age, 1);
    assert_eq!(opt.get_worst_score().bits, 1.0f64.to_bits());
}
