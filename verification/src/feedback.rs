//! Retrospective decision-outcome statistics.
//!
//! Outcome records classify earlier decisions as successes or failures
//! and may carry a reward. The statistics here aggregate them exactly:
//! counts as integers, rewards as micro-unit totals, and rates as
//! micro-unit fractions (floor-rounded).

use vstd::prelude::*;

use crate::fixed::{Fixed, MAX_REWARD_MICROS, MICROS_PER_UNIT};
use crate::json::JsonValue;

verus! {

/// Classification of a decision outcome.
#[derive(Debug, Clone, Copy, PartialEq, Eq, Structural)]
pub enum OutcomeType {
    Success,
    Failure,
    Partial,
    Unknown,
}

/// Status of a weight adjustment proposal.
#[derive(Debug, Clone, Copy, PartialEq, Eq, Structural)]
pub enum ProposalStatus {
    Proposed,
    Accepted,
    Rejected,
    Superseded,
}

impl Default for ProposalStatus {
    /// A fresh proposal starts out proposed.
    fn default() -> (r: Self)
        ensures
            r == ProposalStatus::Proposed,
    {
        ProposalStatus::Proposed
    }
}

/// The recorded outcome of one earlier decision.
#[derive(Debug)]
pub struct DecisionOutcome {
    /// Reference to the original decision.
    pub decision_id: String,
    /// When the outcome was recorded.
    pub ts: String,
    /// Policy that made the decision.
    pub policy_id: Option<String>,
    /// Action that was taken.
    pub action: Option<String>,
    /// Classification of the outcome.
    pub outcome: OutcomeType,
    /// Success flag; it decides for partial and unknown outcomes.
    pub success: bool,
    /// Reward signal; absent or non-finite rewards are `None`.
    pub reward: Option<Fixed>,
    /// Context in which the decision was made.
    pub context: Option<JsonValue>,
    /// Additional metadata.
    pub metadata: Option<JsonValue>,
}

/// Whether an outcome counts as a success: its classification decides,
/// and the success flag breaks the tie for partial and unknown outcomes.
pub open spec fn outcome_success_spec(o: &DecisionOutcome) -> bool {
    match o.outcome {
        OutcomeType::Success => true,
        OutcomeType::Failure => false,
        OutcomeType::Partial => o.success,
        OutcomeType::Unknown => o.success,
    }
}

/// Whether an outcome counts as a success.
pub fn outcome_is_success(outcome: &DecisionOutcome) -> (r: bool)
    ensures
        r == outcome_success_spec(outcome),
{
    match outcome.outcome {
        OutcomeType::Success => true,
        OutcomeType::Failure => false,
        OutcomeType::Partial => outcome.success,
        OutcomeType::Unknown => outcome.success,
    }
}

/// The reward an outcome contributes to a total: zero when absent,
/// non-finite, or outside the engine's reward domain.
pub open spec fn counted_reward(o: &DecisionOutcome) -> int {
    match o.reward {
        Some(f) => if -(MAX_REWARD_MICROS as int) <= f.as_int() <= MAX_REWARD_MICROS as int {
            f.as_int()
        } else {
            0
        },
        None => 0,
    }
}

/// Successes among the outcomes.
pub open spec fn success_count(os: Seq<DecisionOutcome>) -> int
    decreases os.len(),
{
    if os.len() == 0 {
        0
    } else {
        success_count(os.drop_last()) + if outcome_success_spec(&os.last()) {
            1int
        } else {
            0int
        }
    }
}

/// Sum of the counted rewards of the outcomes, in micro-units.
pub open spec fn reward_sum(os: Seq<DecisionOutcome>) -> int
    decreases os.len(),
{
    if os.len() == 0 {
        0
    } else {
        reward_sum(os.drop_last()) + counted_reward(&os.last())
    }
}

/// Counted successes never exceed the number of outcomes.
pub proof fn lemma_success_count_le_len(os: Seq<DecisionOutcome>)
    ensures
        0 <= success_count(os) <= os.len(),
    decreases os.len(),
{
    if os.len() > 0 {
        lemma_success_count_le_len(os.drop_last());
    }
}

/// The reward sum is bounded by the number of outcomes times the largest
/// reward, in either direction.
pub proof fn lemma_reward_sum_bound(os: Seq<DecisionOutcome>)
    ensures
        -(os.len() as int) * (MAX_REWARD_MICROS as int) <= reward_sum(os) <= (os.len() as int) * (
        MAX_REWARD_MICROS as int),
    decreases os.len(),
{
    if os.len() > 0 {
        lemma_reward_sum_bound(os.drop_last());
        assert((os.len() as int) * (MAX_REWARD_MICROS as int) == (os.len() - 1) * (
        MAX_REWARD_MICROS as int) + MAX_REWARD_MICROS) by (nonlinear_arith);
    }
}

/// Statistics aggregated from decision outcomes. The reward total is a
/// micro-unit sum held exactly.
#[derive(Debug, Clone)]
pub struct OutcomeStatistics {
    /// Total number of outcomes counted.
    pub total: usize,
    pub successes: usize,
    pub failures: usize,
    pub total_reward: i128,
}

impl Default for OutcomeStatistics {
    /// Empty statistics: all counts and the reward total at zero.
    fn default() -> (r: Self)
        ensures
            r.total == 0,
            r.successes == 0,
            r.failures == 0,
            r.total_reward == 0,
    {
        OutcomeStatistics { total: 0, successes: 0, failures: 0, total_reward: 0 }
    }
}

impl OutcomeStatistics {
    /// The statistics are internally consistent: successes and failures
    /// partition the total, and the reward total is within the domain
    /// bound for that many outcomes.
    pub open spec fn consistent(&self) -> bool {
        &&& self.successes + self.failures == self.total
        &&& -(self.total as int) * (MAX_REWARD_MICROS as int) <= self.total_reward as int <= (
        self.total as int) * (MAX_REWARD_MICROS as int)
    }

    /// Success rate in micro-units of one: the floor of
    /// `successes / total`, zero for an empty set.
    pub fn success_rate(&self) -> (r: Fixed)
        requires
            self.successes <= self.total,
        ensures
            r.as_int() == (if self.total == 0 {
                0int
            } else {
                (self.successes as int) * (MICROS_PER_UNIT as int) / (self.total as int)
            }),
            0 <= r.as_int() <= MICROS_PER_UNIT as int,
    {
        if self.total == 0 {
            return Fixed::zero();
        }
        let num: u128 = (self.successes as u128) * 1_000_000;
        let q: u128 = num / (self.total as u128);
        proof {
            assert((self.successes as int) * 1_000_000 <= (self.total as int) * 1_000_000)
                by (nonlinear_arith)
                requires
                    self.successes <= self.total,
            ;
            vstd::arithmetic::div_mod::lemma_div_is_ordered(
                (self.successes as int) * 1_000_000,
                (self.total as int) * 1_000_000,
                self.total as int,
            );
            vstd::arithmetic::div_mod::lemma_div_by_multiple(1_000_000, self.total as int);
            assert((self.total as int) * 1_000_000 == 1_000_000 * (self.total as int))
                by (nonlinear_arith);
            vstd::arithmetic::div_mod::lemma_div_pos_is_pos(
                (self.successes as int) * 1_000_000,
                self.total as int,
            );
        }
        Fixed::new(q as i64)
    }

    /// Failure rate in micro-units of one: the complement of the success
    /// rate, zero for an empty set.
    pub fn failure_rate(&self) -> (r: Fixed)
        requires
            self.successes <= self.total,
        ensures
            r.as_int() == (if self.total == 0 {
                0int
            } else {
                (MICROS_PER_UNIT as int) - (self.successes as int) * (MICROS_PER_UNIT as int) / (
                self.total as int)
            }),
            0 <= r.as_int() <= MICROS_PER_UNIT as int,
    {
        if self.total == 0 {
            return Fixed::zero();
        }
        let sr = self.success_rate();
        Fixed::new(MICROS_PER_UNIT - sr.micros)
    }

    /// Average reward in micro-units: the floor of
    /// `total_reward / total`, zero for an empty set.
    pub fn average_reward(&self) -> (r: Fixed)
        requires
            self.consistent(),
        ensures
            r.as_int() == (if self.total == 0 {
                0int
            } else {
                self.total_reward as int / self.total as int
            }),
    {
        if self.total == 0 {
            return Fixed::zero();
        }
        let q = crate::fixed::div_floor_total(self.total_reward, self.total as u64);
        proof {
            let t = self.total_reward as int;
            let n = self.total as int;
            let m = MAX_REWARD_MICROS as int;
            vstd::arithmetic::div_mod::lemma_div_is_ordered(t, n * m, n);
            vstd::arithmetic::div_mod::lemma_div_is_ordered(-n * m, t, n);
            vstd::arithmetic::div_mod::lemma_div_multiples_vanish(m, n);
            vstd::arithmetic::div_mod::lemma_div_multiples_vanish(-m, n);
            assert(n * m == m * n) by (nonlinear_arith);
            assert(-n * m == n * -m) by (nonlinear_arith);
            assert(n * -m == -m * n) by (nonlinear_arith);
        }
        Fixed::new(q as i64)
    }
}

/// Summarize a list of outcomes: every record counts toward the total,
/// the success flag or classification decides the side, and in-domain
/// rewards accumulate exactly.
pub fn summarize_outcomes(outcomes: &[DecisionOutcome]) -> (r: OutcomeStatistics)
    ensures
        r.total == outcomes@.len(),
        r.successes == success_count(outcomes@),
        r.failures == outcomes@.len() - success_count(outcomes@),
        r.total_reward == reward_sum(outcomes@),
        r.consistent(),
{
    let n = outcomes.len();
    let mut total: usize = 0;
    let mut successes: usize = 0;
    let mut failures: usize = 0;
    let mut total_reward: i128 = 0;
    let mut i: usize = 0;
    while i < n
        invariant
            i <= n,
            n == outcomes@.len(),
            total == i,
            successes == success_count(outcomes@.take(i as int)),
            failures == i - successes,
            total_reward == reward_sum(outcomes@.take(i as int)),
        decreases n - i,
    {
        proof {
            lemma_success_count_le_len(outcomes@.take(i as int));
            lemma_reward_sum_bound(outcomes@.take(i as int));
            assert((i as int) * (MAX_REWARD_MICROS as int) <= (n as int) * (
            MAX_REWARD_MICROS as int)) by (nonlinear_arith)
                requires
                    0 <= i <= n,
            ;
            assert(outcomes@.take(i as int + 1).drop_last() =~= outcomes@.take(i as int));
            assert(outcomes@.take(i as int + 1).last() == outcomes@[i as int]);
        }
        let o = &outcomes[i];
        total = total + 1;
        if outcome_is_success(o) {
            successes = successes + 1;
        } else {
            failures = failures + 1;
        }
        match &o.reward {
            Some(f) => {
                if -MAX_REWARD_MICROS <= f.micros && f.micros <= MAX_REWARD_MICROS {
                    total_reward = total_reward + f.micros as i128;
                }
            },
            None => {},
        }
        i += 1;
    }
    proof {
        assert(outcomes@.take(n as int) =~= outcomes@);
        lemma_success_count_le_len(outcomes@);
        lemma_reward_sum_bound(outcomes@);
    }
    OutcomeStatistics { total, successes, failures, total_reward }
}

/// A numeric weight delta: absolute, or relative in a named unit.
#[derive(Debug)]
pub enum DeltaValue {
    Absolute { value: Fixed },
    Relative { value: Fixed, unit: String },
}

/// Evidence supporting a weight adjustment proposal.
#[derive(Debug)]
pub struct Evidence {
    pub decisions_analyzed: usize,
    pub failure_rate_before: Option<Fixed>,
    pub failure_rate_after_sim: Option<Fixed>,
    pub simulation_method: Option<String>,
    pub patterns: Option<Vec<String>>,
}

/// A proposed set of weight adjustments derived from outcome analysis.
#[derive(Debug)]
pub struct WeightAdjustmentProposal {
    pub version: String,
    pub basis_policy: String,
    pub ts: String,
    pub deltas: Vec<(String, DeltaValue)>,
    pub confidence: Fixed,
    pub evidence: Evidence,
    pub reasoning: Option<Vec<String>>,
    pub status: ProposalStatus,
}

/// Analyzes decision outcomes against its thresholds.
#[derive(Debug)]
pub struct FeedbackAnalyzer {
    min_decisions: usize,
    min_confidence: Fixed,
}

impl Default for FeedbackAnalyzer {
    /// Default thresholds: ten decisions, confidence one half.
    fn default() -> (r: Self)
        ensures
            r.spec_min_decisions() == 10,
            r.spec_min_confidence() == 500_000int,
    {
        FeedbackAnalyzer { min_decisions: 10, min_confidence: Fixed::new(500_000) }
    }
}

impl FeedbackAnalyzer {
    /// The fewest analyzed decisions a proposal needs.
    pub closed spec fn spec_min_decisions(&self) -> int {
        self.min_decisions as int
    }

    /// The least confidence a proposal needs, in micro-units of one.
    pub closed spec fn spec_min_confidence(&self) -> int {
        self.min_confidence.as_int()
    }

    /// An analyzer with custom thresholds; the confidence threshold is
    /// clamped into `[0, 1]`.
    pub fn new(min_decisions: usize, min_confidence: Fixed) -> (r: Self)
        ensures
            r.spec_min_decisions() == min_decisions as int,
            r.spec_min_confidence() == crate::fixed::clamp_unit_micros(min_confidence.as_int()),
    {
        FeedbackAnalyzer { min_decisions, min_confidence: crate::fixed::clamp_unit(min_confidence) }
    }

    /// The fewest analyzed decisions a proposal needs.
    pub fn min_decisions(&self) -> (r: usize)
        ensures
            r as int == self.spec_min_decisions(),
    {
        self.min_decisions
    }

    /// The least confidence a proposal needs.
    pub fn min_confidence(&self) -> (r: Fixed)
        ensures
            r.as_int() == self.spec_min_confidence(),
    {
        self.min_confidence
    }

    /// Estimate the success rate after applying a proposal: the baseline
    /// success rate of the outcomes plus a fixed fifteen-percent
    /// improvement allowance, capped at one.
    pub fn simulate_adjustment(
        &self,
        _proposal: &WeightAdjustmentProposal,
        outcomes: &[DecisionOutcome],
    ) -> (r: Fixed)
        ensures
            r.as_int() == (if outcomes@.len() == 0 {
                0int
            } else {
                let baseline = success_count(outcomes@) * (MICROS_PER_UNIT as int)
                    / (outcomes@.len() as int);
                if baseline + 150_000 > MICROS_PER_UNIT as int {
                    MICROS_PER_UNIT as int
                } else {
                    baseline + 150_000
                }
            }),
    {
        if outcomes.len() == 0 {
            return Fixed::zero();
        }
        let stats = summarize_outcomes(outcomes);
        let baseline = stats.success_rate();
        let lifted = baseline.micros + 150_000;
        if lifted > MICROS_PER_UNIT {
            Fixed::new(MICROS_PER_UNIT)
        } else {
            Fixed::new(lifted)
        }
    }
}

} // verus!
