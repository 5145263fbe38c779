use heimlern::feedback::{
    outcome_is_success, summarize_outcomes, DecisionOutcome, Evidence, FeedbackAnalyzer,
    OutcomeStatistics, OutcomeType, ProposalStatus, WeightAdjustmentProposal,
};
use heimlern::fixed::Fixed;

fn create_outcome(decision_id: &str, action: &str, success: bool, reward_micros: i64)
    -> DecisionOutcome {
    DecisionOutcome {
        decision_id: decision_id.to_string(),
        ts: "2026-01-04T12:00:00Z".to_string(),
        policy_id: Some("test-policy".to_string()),
        action: Some(action.to_string()),
        outcome: if success { OutcomeType::Success } else { OutcomeType::Failure },
        success,
        reward: Some(Fixed::new(reward_micros)),
        context: None,
        metadata: None,
    }
}

#[test]
fn outcome_statistics_calculates_rates_correctly() {
    let stats = OutcomeStatistics {
        total: 10,
        successes: 7,
        failures: 3,
        total_reward: 5_000_000,
    };

    assert_eq!(stats.success_rate().micros, 700_000);
    assert_eq!(stats.failure_rate().micros, 300_000);
    assert_eq!(stats.average_reward().micros, 500_000);
}

#[test]
fn outcome_statistics_handles_empty_set() {
    let stats = OutcomeStatistics::default();

    assert_eq!(stats.success_rate().micros, 0);
    assert_eq!(stats.failure_rate().micros, 0);
    assert_eq!(stats.average_reward().micros, 0);
}

#[test]
fn simulation_returns_reasonable_improvement() {
    let analyzer = FeedbackAnalyzer::default();
    let outcomes: Vec<DecisionOutcome> = (0..20)
        .map(|i| {
            let success = i % 2 == 0; // 50% success rate
            create_outcome(
                &i.to_string(),
                "action",
                success,
                if success { 1_000_000 } else { 0 },
            )
        })
        .collect();

    let proposal = WeightAdjustmentProposal {
        version: "0.1.0".to_string(),
        basis_policy: "test".to_string(),
        ts: "2026-01-04T12:00:00Z".to_string(),
        deltas: vec![],
        confidence: Fixed::new(700_000),
        evidence: Evidence {
            decisions_analyzed: 20,
            failure_rate_before: None,
            failure_rate_after_sim: None,
            simulation_method: None,
            patterns: None,
        },
        reasoning: None,
        status: ProposalStatus::Proposed,
    };

    let simulated_rate = analyzer.simulate_adjustment(&proposal, &outcomes);
    assert!(simulated_rate.micros > 500_000); // shows improvement
    assert!(simulated_rate.micros <= 1_000_000);
    // exactly the 50% baseline plus the fixed fifteen-percent allowance
    assert_eq!(simulated_rate.micros, 650_000);
}

#[test]
fn summarize_counts_successes_failures_and_rewards() {
    let outcomes = vec![
        create_outcome("1", "remind.morning", true, 1_000_000),
        create_outcome("2", "remind.morning", false, 0),
        create_outcome("3", "remind.evening", true, 500_000),
        DecisionOutcome {
            decision_id: "4".to_string(),
            ts: "2026-01-04T12:00:00Z".to_string(),
            policy_id: None,
            action: None,
            outcome: OutcomeType::Unknown,
            success: true,
            reward: None,
            context: None,
            metadata: None,
        },
    ];

    let stats = summarize_outcomes(&outcomes);
    assert_eq!(stats.total, 4);
    assert_eq!(stats.successes, 3);
    assert_eq!(stats.failures, 1);
    assert_eq!(stats.total_reward, 1_500_000);
}

#[test]
fn outcome_classification_drives_success() {
    let mut o = create_outcome("1", "a", true, 0);
    assert!(outcome_is_success(&o));
    o.outcome = OutcomeType::Failure;
    o.success = false;
    assert!(!outcome_is_success(&o));
    o.outcome = OutcomeType::Partial;
    o.success = true;
    assert!(outcome_is_success(&o));
    o.outcome = OutcomeType::Unknown;
    o.success = false;
    assert!(!outcome_is_success(&o));
}

#[test]
fn analyzer_clamps_confidence_threshold() {
    let analyzer = FeedbackAnalyzer::new(5, Fixed::new(7_000_000));
    assert_eq!(analyzer.min_decisions(), 5);
    assert_eq!(analyzer.min_confidence().micros, 1_000_000);
}
