//! The optimizer engine: population records, validated configuration, and
//! the generational loop populate -> evaluate -> sort -> survive -> sort.

use vstd::prelude::*;

use crate::rng::RandomSource;
use crate::sampling::{cubic_rank, mutate_threshold, valid_prob_bits};
use crate::score::{
    is_nan_bits, lemma_ranks_before_refl, lemma_ranks_before_total, lemma_ranks_before_trans,
    ranks_before_bits, Score,
};
use vstd::multiset::Multiset;

verus! {

/// Capability contract for items to be optimized.
///
/// Scores are opaque bit patterns to the optimizer — it orders them but
/// never computes on them — so the candidate type supplies the one piece of
/// score arithmetic the engine needs, the smoothing step.
pub trait GEF: Sized {
    /// Uses itself and another item to breed a new item; must not mutate
    /// either parent. Averages, selection, or both are typical.
    fn breed(&self, other: &Self) -> Self;

    /// Mutates itself in place: a random perturbation that keeps the
    /// representation valid.
    fn mutate(&mut self);

    /// Evaluates itself; higher is better. May return a NaN pattern to mark
    /// an unevaluable item, which the optimizer orders after everything.
    fn evaluate(&self) -> Score;

    /// One smoothing step: the running average of a score that has carried
    /// `age` evaluation rounds with a fresh sample, that is
    /// `(prev * age + fresh) / (age + 1)` in the score domain.
    /// Implementations must compute exactly this average; the optimizer's
    /// smoothing mode rests on it.
    fn smooth(prev: Score, age: u32, fresh: Score) -> Score;
}

/// One population record: a candidate, its (possibly smoothed) score, and
/// how many consecutive evaluation rounds the score has carried so far.
#[derive(Clone)]
pub struct Record<T> {
    pub candidate: T,
    pub score: Score,
    pub age: u32,
}

/// Why a configuration change was rejected.
#[derive(Clone, Copy, PartialEq, Eq, Structural, Debug)]
pub enum ConfigError {
    /// The population would not exceed `survive + bad_survive`.
    PopulationTooSmall,
    /// At least one best item must survive.
    SurviveTooSmall,
    /// At least one bad item must survive.
    BadSurviveTooSmall,
    /// `survive + bad_survive + 1` would not fit the population counter.
    SurvivorsTooMany,
    /// A mutation probability must be in `[0, 1]` and not NaN.
    ProbabilityInvalid,
    /// Averaging the score over zero rounds is not possible.
    WindowTooSmall,
}

/// The validated configuration of an optimizer.
struct Params {
    /// Target population size after breeding; always exceeds
    /// `survive + bad_survive`.
    population: u32,
    /// How many of the best records survive a generation (or, for the
    /// stochastic strategy, how they weigh in the survivor count).
    survive: u32,
    /// How many further, not-best records survive for diversity.
    bad_survive: u32,
    /// Probability that a freshly bred item is mutated, as a score pattern.
    prob_mutate: Score,
    /// Deterministic (elitist) or stochastic (rank-biased) survival.
    deterministic: bool,
    /// Rounds to average scores over, less one; zero means no smoothing.
    window: u32,
}

/// Every record's age leaves room for one more evaluation round.
pub open spec fn ages_ok<T>(s: Seq<Record<T>>) -> bool {
    forall|i: int| 0 <= i < s.len() ==> (#[trigger] s[i]).age < u32::MAX
}

/// The bit pattern of the default mutation probability, nine tenths.
pub const DEFAULT_PROB_MUTATE_BITS: u64 = 0x3fec_cccc_cccc_cccd;

/// Evolutionary optimizer maximizing a caller-defined score on arbitrary
/// items.
pub struct Optimizer<T: GEF + Clone, R: RandomSource> {
    items: Vec<Record<T>>,
    params: Params,
    rng: R,
}

impl<T: GEF + Clone, R: RandomSource> View for Optimizer<T, R> {
    type V = Seq<Record<T>>;

    /// The population, best first once sorted.
    closed spec fn view(&self) -> Seq<Record<T>> {
        self.items@
    }
}

impl<T: GEF + Clone, R: RandomSource> Optimizer<T, R> {
    /// Target population size after breeding.
    pub closed spec fn population(self) -> u32 {
        self.params.population
    }

    /// How many best records survive a generation.
    pub closed spec fn survive_count(self) -> u32 {
        self.params.survive
    }

    /// How many further records survive for diversity.
    pub closed spec fn bad_survive_count(self) -> u32 {
        self.params.bad_survive
    }

    /// Probability that a freshly bred item is mutated.
    pub closed spec fn prob_mutate(self) -> Score {
        self.params.prob_mutate
    }

    /// Whether survival is deterministic (elitist) or stochastic.
    pub closed spec fn deterministic(self) -> bool {
        self.params.deterministic
    }

    /// Rounds to average scores over, less one.
    pub closed spec fn window(self) -> u32 {
        self.params.window
    }

    /// The randomness source held by the optimizer.
    pub closed spec fn source(self) -> R {
        self.rng
    }

    /// The configuration invariant: room to breed, at least one survivor of
    /// each kind, a valid mutation probability, and counters that cannot
    /// overflow.
    pub open spec fn wf(self) -> bool {
        &&& 1 <= self.survive_count()
        &&& 1 <= self.bad_survive_count()
        &&& self.survive_count() + self.bad_survive_count() < self.population()
        &&& self.window() < u32::MAX
        &&& valid_prob_bits(self.prob_mutate().bits)
        &&& ages_ok(self@)
    }

    /// Both optimizers carry the same configuration.
    pub open spec fn same_config(self, other: Self) -> bool {
        &&& self.population() == other.population()
        &&& self.survive_count() == other.survive_count()
        &&& self.bad_survive_count() == other.bad_survive_count()
        &&& self.prob_mutate() == other.prob_mutate()
        &&& self.deterministic() == other.deterministic()
        &&& self.window() == other.window()
    }

    /// A new optimizer with default parameters and an empty population,
    /// drawing randomness from `rng`. Use `add_item` before `optimize`.
    pub fn new(rng: R) -> (r: Optimizer<T, R>)
        ensures
            r@ =~= Seq::<Record<T>>::empty(),
            r.population() == 200,
            r.survive_count() == 7,
            r.bad_survive_count() == 3,
            r.prob_mutate().bits == DEFAULT_PROB_MUTATE_BITS,
            r.deterministic() == true,
            r.window() == 0,
            r.source() == rng,
            r.wf(),
    {
        proof {
            assert(0x3fec_cccc_cccc_cccdu64 >> 63 == 0) by (bit_vector);
            assert((0x3fec_cccc_cccc_cccdu64 >> 52) & 0x7ff == 0x3fe) by (bit_vector);
        }
        Optimizer {
            items: Vec::new(),
            params: Params {
                population: 200,
                survive: 7,
                bad_survive: 3,
                prob_mutate: Score { bits: DEFAULT_PROB_MUTATE_BITS },
                deterministic: true,
                window: 0,
            },
            rng,
        }
    }

    /// Sets the population size: the number of items alive after breeding.
    /// A size that does not exceed `survive + bad_survive` is a caller
    /// error, ruled out by the precondition — an invalid configuration is
    /// fatal by design, never repaired here. For a caller outside
    /// verification the guard remains: such a call is answered with `Err`
    /// and changes nothing.
    pub fn set_population(&mut self, pop: u32) -> (r: Result<(), ConfigError>)
        requires
            old(self).wf(),
            pop > old(self).survive_count() + old(self).bad_survive_count(),
        ensures
            final(self).wf(),
            final(self)@ == old(self)@,
            final(self).source() == old(self).source(),
            r == Ok::<(), ConfigError>(()),
            final(self).population() == pop,
            final(self).survive_count() == old(self).survive_count(),
            final(self).bad_survive_count() == old(self).bad_survive_count(),
            final(self).prob_mutate() == old(self).prob_mutate(),
            final(self).deterministic() == old(self).deterministic(),
            final(self).window() == old(self).window(),
    {
        let room = self.params.survive as u64 + self.params.bad_survive as u64;
        if pop as u64 > room {
            self.params.population = pop;
            Ok(())
        } else {
            Err(ConfigError::PopulationTooSmall)
        }
    }

    /// Sets how many best items survive each generation; at least one must,
    /// and the healed `survive + bad_survive + 1` must fit the 32-bit
    /// counter. If the population no longer exceeds `survive + bad_survive`,
    /// it is raised to one more than that, never shrinking the survivor
    /// counts. An invalid count is a caller error, ruled out by the
    /// precondition — an invalid configuration is fatal by design; outside
    /// verification the guard answers such a call with `Err` and changes
    /// nothing.
    pub fn set_survive(&mut self, surv: u32) -> (r: Result<(), ConfigError>)
        requires
            old(self).wf(),
            surv >= 1,
            surv + old(self).bad_survive_count() + 1 <= u32::MAX,
        ensures
            final(self).wf(),
            final(self)@ == old(self)@,
            final(self).source() == old(self).source(),
            r == Ok::<(), ConfigError>(()),
            final(self).survive_count() == surv,
            final(self).bad_survive_count() == old(self).bad_survive_count(),
            final(self).population() == (if old(self).population() > surv + old(self).bad_survive_count() {
                old(self).population() as int
            } else {
                surv + old(self).bad_survive_count() + 1
            }),
            final(self).prob_mutate() == old(self).prob_mutate(),
            final(self).deterministic() == old(self).deterministic(),
            final(self).window() == old(self).window(),
    {
        if surv < 1 {
            return Err(ConfigError::SurviveTooSmall);
        }
        let room = surv as u64 + self.params.bad_survive as u64;
        if room + 1 > u32::MAX as u64 {
            return Err(ConfigError::SurvivorsTooMany);
        }
        self.params.survive = surv;
        if self.params.population as u64 <= room {
            self.params.population = (room + 1) as u32;
        }
        Ok(())
    }

    /// Sets how many further, not-best items survive each generation; at
    /// least one must, and the healed `survive + bad_survive + 1` must fit
    /// the 32-bit counter. If the population no longer exceeds
    /// `survive + bad_survive`, it is raised to one more than that, never
    /// shrinking the survivor counts. An invalid count is a caller error,
    /// ruled out by the precondition — an invalid configuration is fatal by
    /// design; outside verification the guard answers such a call with
    /// `Err` and changes nothing.
    pub fn set_bad_survive(&mut self, bad_surv: u32) -> (r: Result<(), ConfigError>)
        requires
            old(self).wf(),
            bad_surv >= 1,
            old(self).survive_count() + bad_surv + 1 <= u32::MAX,
        ensures
            final(self).wf(),
            final(self)@ == old(self)@,
            final(self).source() == old(self).source(),
            r == Ok::<(), ConfigError>(()),
            final(self).bad_survive_count() == bad_surv,
            final(self).survive_count() == old(self).survive_count(),
            final(self).population() == (if old(self).population() > old(self).survive_count()
                + bad_surv {
                old(self).population() as int
            } else {
                old(self).survive_count() + bad_surv + 1
            }),
            final(self).prob_mutate() == old(self).prob_mutate(),
            final(self).deterministic() == old(self).deterministic(),
            final(self).window() == old(self).window(),
    {
        if bad_surv < 1 {
            return Err(ConfigError::BadSurviveTooSmall);
        }
        let room = self.params.survive as u64 + bad_surv as u64;
        if room + 1 > u32::MAX as u64 {
            return Err(ConfigError::SurvivorsTooMany);
        }
        self.params.bad_survive = bad_surv;
        if self.params.population as u64 <= room {
            self.params.population = (room + 1) as u32;
        }
        Ok(())
    }

    /// Sets the probability that a freshly bred item is mutated. A pattern
    /// that does not encode a probability — below zero, above one, or NaN —
    /// is a caller error, ruled out by the precondition: an invalid
    /// configuration is fatal by design. For a caller outside verification
    /// the guard remains: such a call is answered with `Err` and leaves the
    /// stored probability (and everything else) untouched.
    pub fn set_prob_mutate(&mut self, prob: Score) -> (r: Result<(), ConfigError>)
        requires
            old(self).wf(),
            valid_prob_bits(prob.bits),
        ensures
            final(self).wf(),
            final(self)@ == old(self)@,
            final(self).source() == old(self).source(),
            r == Ok::<(), ConfigError>(()),
            final(self).prob_mutate() == prob,
            final(self).population() == old(self).population(),
            final(self).survive_count() == old(self).survive_count(),
            final(self).bad_survive_count() == old(self).bad_survive_count(),
            final(self).deterministic() == old(self).deterministic(),
            final(self).window() == old(self).window(),
    {
        let sgn = prob.bits >> 63;
        let mag = prob.bits & 0x7fff_ffff_ffff_ffff;
        let e = (prob.bits >> 52) & 0x7ff;
        let m = prob.bits & 0xf_ffff_ffff_ffff;
        if (sgn == 0 || mag == 0) && (e < 0x3ff || (e == 0x3ff && m == 0)) {
            self.params.prob_mutate = prob;
            Ok(())
        } else {
            Err(ConfigError::ProbabilityInvalid)
        }
    }

    /// Chooses the survival strategy: deterministic keeps the best `survive`
    /// items plus randomly chosen bad ones; stochastic draws all survivors
    /// rank-biased, best ranks most likely.
    pub fn set_selection_strat(&mut self, deterministic: bool)
        requires
            old(self).wf(),
        ensures
            final(self).wf(),
            final(self)@ == old(self)@,
            final(self).source() == old(self).source(),
            final(self).deterministic() == deterministic,
            final(self).population() == old(self).population(),
            final(self).survive_count() == old(self).survive_count(),
            final(self).bad_survive_count() == old(self).bad_survive_count(),
            final(self).prob_mutate() == old(self).prob_mutate(),
            final(self).window() == old(self).window(),
    {
        self.params.deterministic = deterministic;
    }

    /// Sets how many evaluation rounds the score is averaged over; one means
    /// no averaging. Zero rounds are a caller error, ruled out by the
    /// precondition — an invalid configuration is fatal by design; outside
    /// verification the guard answers such a call with `Err` and changes
    /// nothing.
    pub fn set_mean_avg(&mut self, n: u32) -> (r: Result<(), ConfigError>)
        requires
            old(self).wf(),
            n >= 1,
        ensures
            final(self).wf(),
            final(self)@ == old(self)@,
            final(self).source() == old(self).source(),
            r == Ok::<(), ConfigError>(()),
            final(self).window() == n - 1,
            final(self).population() == old(self).population(),
            final(self).survive_count() == old(self).survive_count(),
            final(self).bad_survive_count() == old(self).bad_survive_count(),
            final(self).prob_mutate() == old(self).prob_mutate(),
            final(self).deterministic() == old(self).deterministic(),
    {
        if n < 1 {
            return Err(ConfigError::WindowTooSmall);
        }
        self.params.window = n - 1;
        Ok(())
    }

    /// The configuration as one tuple: population, survive, bad_survive,
    /// mutation probability, deterministic strategy, and averaging window
    /// less one.
    pub fn get_params(&self) -> (r: (u32, u32, u32, Score, bool, u32))
        ensures
            r.0 == self.population(),
            r.1 == self.survive_count(),
            r.2 == self.bad_survive_count(),
            r.3 == self.prob_mutate(),
            r.4 == self.deterministic(),
            r.5 == self.window(),
    {
        (
            self.params.population,
            self.params.survive,
            self.params.bad_survive,
            self.params.prob_mutate,
            self.params.deterministic,
            self.params.window,
        )
    }

    /// The best item of the population, as a clone of the record at index
    /// zero. The population must not be empty.
    pub fn get_best(&self) -> (r: T)
        requires
            self@.len() >= 1,
        ensures
            cloned(self@[0].candidate, r),
    {
        self.items[0].candidate.clone()
    }

    /// The best item of the population, by reference. The population must
    /// not be empty.
    pub fn get_best_ref(&self) -> (r: &T)
        requires
            self@.len() >= 1,
        ensures
            *r == self@[0].candidate,
    {
        &self.items[0].candidate
    }

    /// The best item's score. The population must not be empty.
    pub fn get_score(&self) -> (r: Score)
        requires
            self@.len() >= 1,
        ensures
            r == self@[0].score,
    {
        self.items[0].score
    }

    /// The worst item's score. The population must not be empty.
    pub fn get_worst_score(&self) -> (r: Score)
        requires
            self@.len() >= 1,
        ensures
            r == self@[self@.len() - 1].score,
    {
        self.items[self.items.len() - 1].score
    }

    /// The whole population, by reference.
    pub fn get_items(&self) -> (r: &Vec<Record<T>>)
        ensures
            r@ == self@,
    {
        &self.items
    }

    /// Evaluates the item once and appends it to the population with one
    /// round of score history; neither sorts nor culls.
    pub fn add_item(&mut self, item: T)
        requires
            old(self).wf(),
        ensures
            final(self).wf(),
            final(self)@.len() == old(self)@.len() + 1,
            final(self)@.subrange(0, old(self)@.len() as int) == old(self)@,
            final(self)@.last().candidate == item,
            final(self)@.last().age == 1,
            final(self).same_config(*old(self)),
            final(self).source() == old(self).source(),
    {
        let score = item.evaluate();
        self.items.push(Record { candidate: item, score, age: 1 });
        proof {
            assert(self@.subrange(0, old(self)@.len() as int) =~= old(self)@);
        }
    }
}

/// The population stands best first: every record may stand, under the
/// ordering rule of the scores, before each record after it.
pub open spec fn sorted_best_first<T>(s: Seq<Record<T>>) -> bool {
    forall|i: int, j: int|
        0 <= i < j < s.len() ==> ranks_before_bits(
            (#[trigger] s[i]).score.bits,
            (#[trigger] s[j]).score.bits,
        )
}

/// How many entries of a boolean sequence are set.
spec fn num_true(s: Seq<bool>) -> nat
    decreases s.len(),
{
    if s.len() == 0 {
        0
    } else {
        num_true(s.drop_last()) + if s.last() {
            1nat
        } else {
            0nat
        }
    }
}

/// Setting a clear entry raises the count by one.
proof fn lemma_num_true_update(s: Seq<bool>, i: int)
    requires
        0 <= i < s.len(),
        !s[i],
    ensures
        num_true(s.update(i, true)) == num_true(s) + 1,
    decreases s.len(),
{
    let t = s.update(i, true);
    if i == s.len() - 1 {
        assert(t.drop_last() =~= s.drop_last());
    } else {
        assert(t.drop_last() =~= s.drop_last().update(i, true));
        lemma_num_true_update(s.drop_last(), i);
    }
}

/// A sequence that is set everywhere has a full count.
proof fn lemma_num_true_full(s: Seq<bool>)
    requires
        forall|k: int| 0 <= k < s.len() ==> s[k],
    ensures
        num_true(s) == s.len(),
    decreases s.len(),
{
    if s.len() > 0 {
        lemma_num_true_full(s.drop_last());
    }
}

/// The count never exceeds the length.
proof fn lemma_num_true_bound(s: Seq<bool>)
    ensures
        num_true(s) <= s.len(),
    decreases s.len(),
{
    if s.len() > 0 {
        lemma_num_true_bound(s.drop_last());
    }
}

/// A full count means every entry is set.
proof fn lemma_num_true_complete(s: Seq<bool>)
    requires
        num_true(s) == s.len(),
    ensures
        forall|k: int| 0 <= k < s.len() ==> s[k],
    decreases s.len(),
{
    if s.len() > 0 {
        lemma_num_true_bound(s.drop_last());
        lemma_num_true_complete(s.drop_last());
        assert forall|k: int| 0 <= k < s.len() implies s[k] by {
            if k < s.len() - 1 {
                assert(s.drop_last()[k]);
            }
        }
    }
}

/// A sequence that is clear everywhere has a count of zero.
proof fn lemma_num_true_none(s: Seq<bool>)
    requires
        forall|k: int| 0 <= k < s.len() ==> !s[k],
    ensures
        num_true(s) == 0,
    decreases s.len(),
{
    if s.len() > 0 {
        lemma_num_true_none(s.drop_last());
    }
}

/// The first clear entry of a boolean list that is not set everywhere.
fn first_false(t: &Vec<bool>) -> (r: usize)
    requires
        num_true(t@) < t@.len(),
    ensures
        r < t@.len(),
        !t@[r as int],
{
    let n = t.len();
    let mut i: usize = 0;
    while i < n
        invariant
            n == t@.len(),
            i <= n,
            forall|k: int| 0 <= k < i ==> t@[k],
        decreases n - i,
    {
        if !t[i] {
            return i;
        }
        i += 1;
    }
    proof {
        lemma_num_true_full(t@);
        assert(false);
    }
    0
}

/// Records may only have been rearranged, so every age bound still holds.
proof fn lemma_ages_ok_to_multiset<T>(a: Seq<Record<T>>, b: Seq<Record<T>>)
    requires
        a.to_multiset() == b.to_multiset(),
        ages_ok(a),
    ensures
        ages_ok(b),
{
    broadcast use vstd::seq_lib::group_to_multiset_ensures;

    assert forall|i: int| 0 <= i < b.len() implies (#[trigger] b[i]).age < u32::MAX by {
        assert(b.contains(b[i]));
        assert(b.to_multiset().count(b[i]) > 0);
        assert(a.contains(b[i]));
    }
}

impl<T: GEF + Clone, R: RandomSource> Optimizer<T, R> {
    /// Tops the population up to the configured size: each new item is bred
    /// from two records drawn uniformly at random by index, with replacement
    /// and from the records present when the pass began; with the configured
    /// probability the new item is mutated; it is appended with a
    /// placeholder score and no history.
    fn populate(&mut self)
        requires
            old(self).wf(),
            old(self)@.len() >= 1,
        ensures
            final(self).wf(),
            final(self).same_config(*old(self)),
            old(self)@.len() >= old(self).population() ==> final(self)@ == old(self)@,
            old(self)@.len() < old(self).population() ==> {
                &&& final(self)@.len() == old(self).population()
                &&& final(self)@.subrange(0, old(self)@.len() as int) == old(self)@
                &&& forall|k: int|
                    old(self)@.len() <= k < final(self)@.len() ==> (#[trigger] final(self)@[k]).score.bits == 0 && final(self)@[k].age == 0
            },
    {
        let len0 = self.items.len();
        let target = self.params.population as usize;
        let thr = mutate_threshold(self.params.prob_mutate.bits);
        while self.items.len() < target
            invariant
                old(self).wf(),
                self.same_config(*old(self)),
                len0 == old(self)@.len(),
                1 <= len0,
                target == old(self).population(),
                len0 <= self@.len(),
                self@.len() <= target || self@.len() == len0,
                self@.subrange(0, len0 as int) == old(self)@,
                forall|k: int|
                    len0 <= k < self@.len() ==> (#[trigger] self@[k]).score.bits == 0
                        && self@[k].age == 0,
                ages_ok(self@),
            decreases target - self@.len(),
        {
            let r1 = self.rng.next_u64();
            let r2 = self.rng.next_u64();
            let i1 = (r1 as usize) % len0;
            let i2 = (r2 as usize) % len0;
            let mut child = self.items[i1].candidate.breed(&self.items[i2].candidate);
            let rm = self.rng.next_u64();
            if (rm >> 11) < thr {
                child.mutate();
            }
            let ghost before = self@;
            self.items.push(Record { candidate: child, score: Score { bits: 0 }, age: 0 });
            proof {
                assert(self@.subrange(0, len0 as int) =~= before.subrange(0, len0 as int));
            }
        }
        proof {
            if old(self)@.len() >= old(self).population() {
                assert(self@ =~= old(self)@);
            }
        }
    }

    /// Re-scores every record: folds a fresh evaluation into the running
    /// average through the candidate's smoothing step, then advances the
    /// record's age, capped at the configured window.
    fn evaluate(&mut self)
        requires
            old(self).wf(),
        ensures
            final(self).wf(),
            final(self).same_config(*old(self)),
            final(self).source() == old(self).source(),
            final(self)@.len() == old(self)@.len(),
            forall|k: int|
                0 <= k < old(self)@.len() ==> (#[trigger] final(self)@[k]).candidate == old(self)@[k].candidate && final(self)@[k].age == (if old(self)@[k].age + 1 <= old(self).window() {
                    old(self)@[k].age + 1
                } else {
                    old(self).window() as int
                }),
    {
        let w = self.params.window;
        let n = self.items.len();
        let mut i: usize = 0;
        while i < n
            invariant
                old(self).wf(),
                self.same_config(*old(self)),
                self.source() == old(self).source(),
                w == old(self).window(),
                n == self@.len(),
                n == old(self)@.len(),
                i <= n,
                forall|k: int| i <= k < n ==> self@[k] == old(self)@[k],
                forall|k: int|
                    0 <= k < i ==> (#[trigger] self@[k]).candidate == old(self)@[k].candidate
                        && self@[k].age == (if old(self)@[k].age + 1 <= old(self).window() {
                        old(self)@[k].age + 1
                    } else {
                        old(self).window() as int
                    }),
                ages_ok(self@),
            decreases n - i,
        {
            let ghost before = self@;
            let rec = self.items.remove(i);
            let fresh = rec.candidate.evaluate();
            let score = T::smooth(rec.score, rec.age, fresh);
            assert(rec.age < u32::MAX);
            let a1 = rec.age + 1;
            let age = if a1 <= w {
                a1
            } else {
                w
            };
            self.items.insert(i, Record { candidate: rec.candidate, score, age });
            proof {
                assert(self@ =~= before.update(i as int, self@[i as int]));
            }
            i += 1;
        }
    }

    /// Sorts the population best first under the ordering rule: descending
    /// by score, NaN-scored records after every other.
    fn sort(&mut self)
        requires
            old(self).wf(),
        ensures
            final(self).wf(),
            final(self).same_config(*old(self)),
            final(self).source() == old(self).source(),
            final(self)@.to_multiset() == old(self)@.to_multiset(),
            final(self)@.len() == old(self)@.len(),
            sorted_best_first(final(self)@),
            sorted_best_first(old(self)@) ==> final(self)@ == old(self)@,
    {
        broadcast use vstd::seq_lib::group_to_multiset_ensures;

        let mut rest: Vec<Record<T>> = Vec::new();
        core::mem::swap(&mut self.items, &mut rest);
        proof {
            assert(self@.to_multiset().add(rest@.to_multiset()) =~= old(self)@.to_multiset());
            assert(self@ =~= old(self)@.subrange(0, 0));
            assert(rest@ =~= old(self)@.subrange(0, old(self)@.len() as int));
        }
        while rest.len() > 0
            invariant
                old(self).wf(),
                self.same_config(*old(self)),
                self.source() == old(self).source(),
                self@.to_multiset().add(rest@.to_multiset()) == old(self)@.to_multiset(),
                self@.len() + rest@.len() == old(self)@.len(),
                sorted_best_first(self@),
                forall|i: int, j: int|
                    0 <= i < self@.len() && 0 <= j < rest@.len() ==> ranks_before_bits(
                        (#[trigger] self@[i]).score.bits,
                        (#[trigger] rest@[j]).score.bits,
                    ),
                sorted_best_first(old(self)@) ==> self@ == old(self)@.subrange(
                    0,
                    self@.len() as int,
                ) && rest@ == old(self)@.subrange(self@.len() as int, old(self)@.len() as int),
            decreases rest@.len(),
        {
            let mut m: usize = 0;
            let mut j: usize = 1;
            while j < rest.len()
                invariant
                    1 <= rest@.len(),
                    m < rest@.len(),
                    1 <= j <= rest@.len(),
                    forall|k: int|
                        0 <= k < j ==> ranks_before_bits(
                            rest@[m as int].score.bits,
                            (#[trigger] rest@[k]).score.bits,
                        ),
                    sorted_best_first(rest@) ==> m == 0,
                decreases rest@.len() - j,
            {
                let a = rest[m].score;
                let b = rest[j].score;
                if a.ranks_before(&b) {
                    proof {
                        assert(ranks_before_bits(rest@[m as int].score.bits, rest@[j as int].score.bits));
                    }
                } else {
                    proof {
                        lemma_ranks_before_total(a.bits, b.bits);
                        // a sorted remainder always keeps the scan at the
                        // front, so this branch never moves it
                        if sorted_best_first(rest@) {
                            assert(ranks_before_bits(
                                rest@[0].score.bits,
                                rest@[j as int].score.bits,
                            ));
                            assert(false);
                        }
                        assert forall|k: int| 0 <= k < j + 1 implies ranks_before_bits(
                            rest@[j as int].score.bits,
                            (#[trigger] rest@[k]).score.bits,
                        ) by {
                            if k < j {
                                lemma_ranks_before_trans(
                                    b.bits,
                                    a.bits,
                                    rest@[k].score.bits,
                                );
                            } else {
                                lemma_ranks_before_refl(b.bits);
                            }
                        }
                    }
                    m = j;
                }
                j += 1;
            }
            let ghost items_before = self@;
            let ghost rest_before = rest@;
            let best = rest.remove(m);
            self.items.push(best);
            proof {
                assert(self@.to_multiset().add(rest@.to_multiset()) =~= old(self)@.to_multiset()) by {
                    vstd::seq_lib::to_multiset_remove(rest_before, m as int);
                    vstd::seq_lib::to_multiset_build(items_before, best);
                    assert(rest_before.contains(best));
                    vstd::seq_lib::to_multiset_contains(rest_before, best);
                    assert(rest@.to_multiset() == rest_before.to_multiset().remove(best));
                    assert(self@.to_multiset() == items_before.to_multiset().insert(best));
                }
                assert forall|i: int, j2: int|
                    0 <= i < self@.len() && 0 <= j2 < rest@.len() implies ranks_before_bits(
                    (#[trigger] self@[i]).score.bits,
                    (#[trigger] rest@[j2]).score.bits,
                ) by {
                    let j3 = if j2 < m { j2 } else { j2 + 1 };
                    assert(rest@[j2] == rest_before[j3]);
                    if i < self@.len() - 1 {
                        assert(ranks_before_bits(self@[i].score.bits, best.score.bits));
                        lemma_ranks_before_trans(
                            self@[i].score.bits,
                            best.score.bits,
                            rest_before[j3].score.bits,
                        );
                    }
                }
                if sorted_best_first(old(self)@) {
                    // the remainder is a suffix of a sorted population, so
                    // the scan kept its first record and the pass only moves
                    // the boundary one to the right
                    let pre = old(self)@;
                    let base = items_before.len() as int;
                    assert forall|x: int, y: int|
                        0 <= x < y < rest_before.len() implies ranks_before_bits(
                        (#[trigger] rest_before[x]).score.bits,
                        (#[trigger] rest_before[y]).score.bits,
                    ) by {
                        assert(rest_before[x] == pre[base + x]);
                        assert(rest_before[y] == pre[base + y]);
                    }
                    assert(sorted_best_first(rest_before));
                    assert(m == 0);
                    assert(best == pre[base]);
                    assert(self@ =~= pre.subrange(0, self@.len() as int));
                    assert(rest@ =~= pre.subrange(self@.len() as int, pre.len() as int));
                }
            }
        }
        proof {
            assert(rest@.to_multiset() =~= Multiset::<Record<T>>::empty());
            assert(self@.to_multiset() =~= old(self)@.to_multiset());
            lemma_ages_ok_to_multiset(old(self)@, self@);
            if sorted_best_first(old(self)@) {
                assert(self@ =~= old(self)@);
            }
        }
    }

    /// Culls the population to `survive + bad_survive` records; does nothing
    /// if it is already no larger than that. Under the deterministic
    /// strategy the first `survive` records stay and the remainder compete
    /// for `bad_survive` further places, drawn uniformly without
    /// replacement. Under the stochastic strategy `survive + bad_survive`
    /// distinct ranks below that same count are drawn by the cubic
    /// transform, duplicates falling to the lowest free rank; the drawn
    /// ranks together cover every rank below the count, so exactly the
    /// first records of the sorted population stay.
    fn survive(&mut self)
        requires
            old(self).wf(),
        ensures
            final(self).wf(),
            final(self).same_config(*old(self)),
            old(self)@.len() <= old(self).survive_count() + old(self).bad_survive_count() ==> final(self)@
                == old(self)@,
            old(self)@.len() > old(self).survive_count() + old(self).bad_survive_count() ==> {
                &&& final(self)@.len() == old(self).survive_count() + old(self).bad_survive_count()
                &&& final(self)@.subrange(0, old(self).survive_count() as int) == old(self)@.subrange(0, old(self).survive_count() as int)
                &&& final(self)@.subrange(
                    old(self).survive_count() as int,
                    final(self)@.len() as int,
                ).to_multiset().subset_of(
                    old(self)@.subrange(
                        old(self).survive_count() as int,
                        old(self)@.len() as int,
                    ).to_multiset(),
                )
                &&& !old(self).deterministic() ==> final(self)@ == old(self)@.subrange(
                    0,
                    old(self).survive_count() + old(self).bad_survive_count(),
                )
            },
    {
        broadcast use vstd::seq_lib::group_to_multiset_ensures;

        let keep32 = self.params.survive + self.params.bad_survive;
        let keep = keep32 as usize;
        if keep >= self.items.len() {
            return;
        }
        let ghost len0 = self@.len() as int;
        let ghost surv = self.params.survive as int;
        if self.params.deterministic {
            let mut bad = self.items.split_off(self.params.survive as usize);
            let mut c: u32 = 0;
            while c < self.params.bad_survive
                invariant
                    old(self).wf(),
                    self.same_config(*old(self)),
                    surv == old(self).survive_count() as int,
                    len0 == old(self)@.len(),
                    len0 > old(self).survive_count() + old(self).bad_survive_count(),
                    c <= old(self).bad_survive_count(),
                    self@.len() == surv + c,
                    self@.subrange(0, surv) == old(self)@.subrange(0, surv),
                    bad@.len() == len0 - surv - c,
                    self@.subrange(surv, self@.len() as int).to_multiset().add(
                        bad@.to_multiset(),
                    ) == old(self)@.subrange(surv, len0).to_multiset(),
                    ages_ok(self@),
                    ages_ok(bad@),
                decreases old(self).bad_survive_count() - c,
            {
                let r = self.rng.next_u64();
                let i = (r as usize) % bad.len();
                let ghost items_before = self@;
                let ghost bad_before = bad@;
                let rec = bad.remove(i);
                self.items.push(rec);
                proof {
                    assert(self@.subrange(0, surv) =~= items_before.subrange(0, surv));
                    assert(self@.subrange(surv, self@.len() as int) =~= items_before.subrange(
                        surv,
                        items_before.len() as int,
                    ).push(rec));
                    assert(self@.subrange(surv, self@.len() as int).to_multiset().add(
                        bad@.to_multiset(),
                    ) =~= old(self)@.subrange(surv, len0).to_multiset()) by {
                        vstd::seq_lib::to_multiset_remove(bad_before, i as int);
                        vstd::seq_lib::to_multiset_build(
                            items_before.subrange(surv, items_before.len() as int),
                            rec,
                        );
                        assert(bad_before.contains(rec));
                        vstd::seq_lib::to_multiset_contains(bad_before, rec);
                        assert(bad@.to_multiset() == bad_before.to_multiset().remove(rec));
                    }
                    assert(ages_ok(self@)) by {
                        assert(bad_before.contains(rec));
                        assert(forall|k: int|
                            0 <= k < self@.len() - 1 ==> self@[k] == items_before[k]);
                    }
                }
                c += 1;
            }
            proof {
                let fin = self@;
                let pre = old(self)@;
                assert(fin.subrange(0, surv).to_multiset().add(
                    fin.subrange(surv, fin.len() as int).to_multiset(),
                ) =~= fin.to_multiset()) by {
                    assert(fin.subrange(0, surv) + fin.subrange(surv, fin.len() as int) =~= fin);
                    vstd::seq_lib::lemma_multiset_commutative(
                        fin.subrange(0, surv),
                        fin.subrange(surv, fin.len() as int),
                    );
                }
                assert(forall|x: Record<T>|
                    fin.subrange(surv, fin.len() as int).to_multiset().count(x) <= old(self)@.subrange(surv, len0).to_multiset().count(x));
            }
        } else {
            let mut taken: Vec<bool> = vec![false; keep];
            proof {
                lemma_num_true_none(taken@);
            }
            let mut c: usize = 0;
            while c < keep
                invariant
                    old(self).wf(),
                    self.same_config(*old(self)),
                    self@ == old(self)@,
                    keep == old(self).survive_count() + old(self).bad_survive_count(),
                    keep32 == keep,
                    taken@.len() == keep,
                    num_true(taken@) == c,
                    c <= keep,
                decreases keep - c,
            {
                let raw = self.rng.next_u64();
                let mut rank = cubic_rank(raw, keep32 as u64) as usize;
                if taken[rank] {
                    rank = first_false(&taken);
                }
                // mark the drawn rank
                let ghost taken_before = taken@;
                let _ = taken.remove(rank);
                taken.insert(rank, true);
                proof {
                    assert(taken@ =~= taken_before.update(rank as int, true));
                    lemma_num_true_update(taken_before, rank as int);
                }
                c += 1;
            }
            proof {
                // every rank below `keep` has been drawn, so keeping the
                // first `keep` records realizes exactly the drawn ranks
                lemma_num_true_complete(taken@);
                assert(forall|k: int| 0 <= k < keep ==> taken@[k]);
            }
            self.items.truncate(keep);
            proof {
                let pre = old(self)@;
                let fin = self@;
                assert(fin.subrange(0, surv) =~= pre.subrange(0, surv));
                assert(fin.subrange(surv, fin.len() as int) =~= pre.subrange(surv, keep as int));
                assert(pre.subrange(surv, keep as int) + pre.subrange(keep as int, len0)
                    =~= pre.subrange(surv, len0));
                vstd::seq_lib::lemma_multiset_commutative(
                    pre.subrange(surv, keep as int),
                    pre.subrange(keep as int, len0),
                );
                assert(ages_ok(fin)) by {
                    assert(forall|k: int| 0 <= k < fin.len() ==> fin[k] == pre[k]);
                }
            }
        }
    }

    /// Runs `n` generations, each breeding the population up to size,
    /// re-scoring every record, sorting, culling to the survivor count, and
    /// sorting again; returns the best score after the last generation. The
    /// population must not be empty.
    pub fn optimize(&mut self, n: u32) -> (r: Score)
        requires
            old(self).wf(),
            old(self)@.len() >= 1,
        ensures
            final(self).wf(),
            final(self).same_config(*old(self)),
            final(self)@.len() >= 1,
            r == final(self)@[0].score,
            n == 0 ==> final(self)@ == old(self)@,
            n >= 1 ==> final(self)@.len() == old(self).survive_count() + old(self).bad_survive_count()
                && sorted_best_first(final(self)@),
    {
        let mut g: u32 = 0;
        while g < n
            invariant
                self.wf(),
                self@.len() >= 1,
                self.same_config(*old(self)),
                g <= n,
                g == 0 ==> self@ == old(self)@,
                g >= 1 ==> self@.len() == old(self).survive_count() + old(self).bad_survive_count()
                    && sorted_best_first(self@),
            decreases n - g,
        {
            self.populate();
            self.evaluate();
            self.sort();
            self.survive();
            self.sort();
            g += 1;
        }
        self.get_score()
    }
}

/// Sorting law: a population sorted best first that holds any record with a
/// non-NaN score has a non-NaN score at index zero, the record there may
/// stand before every other, and every NaN-scored record stands after every
/// record with a comparable score.
pub proof fn lemma_sorted_nan_rule<T>(s: Seq<Record<T>>, w: int)
    requires
        sorted_best_first(s),
        0 <= w < s.len(),
        !is_nan_bits(s[w].score.bits),
    ensures
        !is_nan_bits(s[0].score.bits),
        forall|j: int|
            0 <= j < s.len() ==> ranks_before_bits(s[0].score.bits, (#[trigger] s[j]).score.bits),
        forall|i: int, j: int|
            0 <= i <= j < s.len() && is_nan_bits((#[trigger] s[i]).score.bits) ==> is_nan_bits(
                (#[trigger] s[j]).score.bits,
            ),
{
    assert(!is_nan_bits(s[0].score.bits)) by {
        if w > 0 && is_nan_bits(s[0].score.bits) {
            assert(ranks_before_bits(s[0].score.bits, s[w].score.bits));
        }
    }
    assert forall|j: int| 0 <= j < s.len() implies ranks_before_bits(
        s[0].score.bits,
        (#[trigger] s[j]).score.bits,
    ) by {
        if j == 0 {
            lemma_ranks_before_refl(s[0].score.bits);
        }
    }
}

/// Configuration law: a well-formed optimizer always has a population
/// strictly greater than `survive + bad_survive`, so there is room to breed.
pub proof fn lemma_population_exceeds_survivors<T: GEF + Clone, R: RandomSource>(
    o: Optimizer<T, R>,
)
    requires
        o.wf(),
    ensures
        o.population() > o.survive_count() + o.bad_survive_count(),
{
}

} // verus!
