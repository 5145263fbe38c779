use heimlern::bandit::{default_slots, RemindBandit};
use heimlern::fixed::Fixed;
use heimlern::json::JsonValue;
use heimlern::policy::{Context, Policy};

fn micros(m: i64) -> Option<Fixed> {
    Some(Fixed::new(m))
}

fn test_context() -> Context {
    Context {
        kind: "test".to_string(),
        features: JsonValue::Obj(vec![("x".to_string(), JsonValue::Num(Fixed::new(1_000_000)))]),
    }
}

#[test]
fn bandit_learns_and_exploits_best_slot() {
    let mut bandit = RemindBandit::default();
    bandit.epsilon = Fixed::new(0); // no exploration, so the test is deterministic
    assert_eq!(
        bandit.slots,
        vec!["morning".to_string(), "afternoon".to_string(), "evening".to_string()]
    );
    let ctx = test_context();

    // afternoon collects the best rewards
    bandit.feedback(&ctx, "remind.morning", micros(100_000));
    bandit.feedback(&ctx, "remind.afternoon", micros(900_000));
    bandit.feedback(&ctx, "remind.evening", micros(300_000));
    bandit.feedback(&ctx, "remind.afternoon", micros(800_000));

    let decision = bandit.decide(&ctx);
    assert_eq!(decision.action, "remind.afternoon");
    assert!(decision.score.micros > 500_000);
}

#[test]
fn snapshot_roundtrip_retains_state() {
    let mut bandit = RemindBandit::default();
    bandit.epsilon = Fixed::new(330_000);
    bandit.slots = vec!["a".to_string(), "b".to_string()];
    let ctx = Context {
        kind: "test".to_string(),
        features: JsonValue::Obj(vec![("k".to_string(), JsonValue::Bool(true))]),
    };
    bandit.feedback(&ctx, "remind.b", micros(1_000_000));

    let snapshot = bandit.snapshot();

    let mut restored = RemindBandit::default();
    restored.load(snapshot);

    assert_eq!(restored.epsilon.micros, 330_000);
    assert_eq!(restored.slots, vec!["a".to_string(), "b".to_string()]);
    assert_eq!(restored.arm_statistics("b"), Some((1, 1_000_000)));

    restored.epsilon = Fixed::new(0);
    let d = restored.decide(&ctx);
    assert_eq!(d.action, "remind.b");
}

#[test]
fn load_clamps_epsilon_and_restores_slots() {
    let mut bandit = RemindBandit::default();
    bandit.epsilon = Fixed::new(42_000_000);
    bandit.slots = vec![];
    let snapshot = bandit.snapshot();

    let mut restored = RemindBandit::default();
    restored.load(snapshot);

    assert_eq!(restored.epsilon.micros, 1_000_000);
    assert_eq!(restored.slots, default_slots());
}

#[test]
fn decisions_have_remind_prefix() {
    let mut bandit = RemindBandit::default();
    let ctx = Context { kind: "test".to_string(), features: JsonValue::Obj(vec![]) };

    let decision = bandit.decide(&ctx);
    assert!(decision.action.starts_with("remind."));
}

#[test]
fn nan_rewards_are_ignored_in_exploit() {
    let mut bandit = RemindBandit::default();
    bandit.epsilon = Fixed::new(0); // exploit only
    bandit.slots = vec!["a".to_string(), "b".to_string()];
    let ctx = Context { kind: "t".to_string(), features: JsonValue::Obj(vec![]) };
    bandit.feedback(&ctx, "remind.b", micros(500_000));
    // a non-finite reward for a is absorbed and leaves a without statistics
    bandit.feedback(&ctx, "remind.a", None);

    let decision = bandit.decide(&ctx);
    assert!(decision.action.ends_with(".b"));
}

#[test]
fn feedback_without_prefix_is_ignored_but_warns() {
    let mut bandit = RemindBandit::default();
    let ctx = Context { kind: "t".to_string(), features: JsonValue::Obj(vec![]) };

    bandit.feedback(&ctx, "afternoon", micros(900_000));
    assert!(bandit.arm_statistics("afternoon").is_none());
    assert!(bandit.arm_statistics("morning").is_none());
}

#[test]
fn feedback_with_nan_reward_is_ignored() {
    let mut bandit = RemindBandit::default();
    bandit.epsilon = Fixed::new(0);
    bandit.slots = vec!["a".to_string()];
    let ctx = Context { kind: "t".to_string(), features: JsonValue::Obj(vec![]) };

    bandit.feedback(&ctx, "remind.a", None);
    let decision = bandit.decide(&ctx);

    assert_eq!(decision.action, "remind.a");
    assert_eq!(decision.score.micros, 0);
    assert!(bandit.arm_statistics("a").is_none());
}

#[test]
fn contract_snapshot_roundtrip_structure() {
    let mut bandit = RemindBandit::default();
    bandit.epsilon = Fixed::new(400_000);
    bandit.slots = vec!["m".to_string(), "a".to_string()];
    let ctx = Context { kind: "t".to_string(), features: JsonValue::Obj(vec![]) };
    bandit.feedback(&ctx, "remind.m", micros(1_000_000));
    bandit.feedback(&ctx, "remind.m", micros(0));
    bandit.feedback(&ctx, "remind.a", micros(500_000));

    let snap = bandit.snapshot();
    for key in ["version", "policy_id", "ts", "arms", "counts", "values", "epsilon"] {
        assert!(snap.get(key).is_some(), "missing key {}", key);
    }
    match snap.get("arms") {
        Some(JsonValue::Arr(array)) => assert_eq!(array.len(), 2),
        _ => panic!("the arms field is not an array"),
    }
    match snap.get("counts") {
        Some(JsonValue::Arr(array)) => assert_eq!(array.len(), 2),
        _ => panic!("the counts field is not an array"),
    }
    match snap.get("values") {
        Some(JsonValue::Arr(array)) => assert_eq!(array.len(), 2),
        _ => panic!("the values field is not an array"),
    }

    let mut restored = RemindBandit::default();
    restored.load(snap);
    assert_eq!(restored.epsilon.micros, 400_000);
    assert_eq!(restored.slots, vec!["m".to_string(), "a".to_string()]);
    restored.epsilon = Fixed::new(0);
    let _ = restored.decide(&ctx);
}

#[test]
fn contract_snapshot_semantics_counts_values() {
    let mut bandit = RemindBandit::default();
    bandit.epsilon = Fixed::new(300_000);
    bandit.slots = vec!["x".to_string(), "y".to_string(), "z".to_string()];
    let ctx = Context { kind: "t".to_string(), features: JsonValue::Obj(vec![]) };
    // x: three rewards summing to 1.2 -> n=3, avg=0.4
    bandit.feedback(&ctx, "remind.x", micros(200_000));
    bandit.feedback(&ctx, "remind.x", micros(500_000));
    bandit.feedback(&ctx, "remind.x", micros(500_000));
    // y: two zero rewards -> n=2, avg=0.0
    bandit.feedback(&ctx, "remind.y", micros(0));
    bandit.feedback(&ctx, "remind.y", micros(0));
    // z: nothing -> n=0, avg=0.0

    let snap = bandit.to_contract_snapshot();
    let arms = match snap.get("arms") {
        Some(JsonValue::Arr(array)) => array,
        _ => panic!("the arms field is not an array"),
    };
    let counts = match snap.get("counts") {
        Some(JsonValue::Arr(array)) => array,
        _ => panic!("the counts field is not an array"),
    };
    let values = match snap.get("values") {
        Some(JsonValue::Arr(array)) => array,
        _ => panic!("the values field is not an array"),
    };
    assert_eq!(
        arms,
        &vec![
            JsonValue::Str("x".to_string()),
            JsonValue::Str("y".to_string()),
            JsonValue::Str("z".to_string()),
        ]
    );
    // counts are whole units on the wire
    assert_eq!(
        counts,
        &vec![
            JsonValue::Num(Fixed::new(3_000_000)),
            JsonValue::Num(Fixed::new(2_000_000)),
            JsonValue::Num(Fixed::new(0)),
        ]
    );
    // averages: 0.4, 0.0, 0.0 - exactly
    assert_eq!(
        values,
        &vec![
            JsonValue::Num(Fixed::new(400_000)),
            JsonValue::Num(Fixed::new(0)),
            JsonValue::Num(Fixed::new(0)),
        ]
    );
}

#[test]
fn load_rejects_snapshot_with_wrong_policy_id() {
    let mut bandit = RemindBandit::default();
    let original_epsilon = bandit.epsilon;

    let mut snapshot_json = bandit.snapshot();
    if let JsonValue::Obj(fields) = &mut snapshot_json {
        for pair in fields.iter_mut() {
            if pair.0 == "policy_id" {
                pair.1 = JsonValue::Str("wrong-policy".to_string());
            }
        }
    } else {
        panic!("snapshot is not an object");
    }

    bandit.load(snapshot_json);

    assert_eq!(bandit.epsilon, original_epsilon);
    assert_eq!(bandit.slots, default_slots());
}

#[test]
fn unknown_arm_feedback_self_registers() {
    let mut bandit = RemindBandit::default();
    bandit.epsilon = Fixed::new(0);
    bandit.slots = vec!["morning".to_string(), "evening".to_string()];
    let ctx = Context { kind: "t".to_string(), features: JsonValue::Obj(vec![]) };

    bandit.feedback(&ctx, "remind.night", micros(800_000));

    assert_eq!(
        bandit.slots,
        vec!["morning".to_string(), "evening".to_string(), "night".to_string()]
    );
    let decision = bandit.decide(&ctx);
    assert_eq!(decision.action, "remind.night");
}

#[test]
fn decision_echoes_context_and_chosen_action() {
    let mut bandit = RemindBandit::default();
    bandit.epsilon = Fixed::new(0);
    let ctx = test_context();

    let decision = bandit.decide(&ctx);

    assert_eq!(decision.why, vec!["exploit".to_string()]);
    assert_eq!(decision.chosen, Some(decision.action.clone()));
    let echoed = decision.context.expect("the context echo is always present");
    assert_eq!(
        echoed,
        JsonValue::Obj(vec![
            ("kind".to_string(), JsonValue::Str("test".to_string())),
            (
                "features".to_string(),
                JsonValue::Obj(vec![(
                    "x".to_string(),
                    JsonValue::Num(Fixed::new(1_000_000))
                )]),
            ),
        ])
    );
}

#[test]
fn out_of_domain_rewards_are_ignored() {
    let mut bandit = RemindBandit::default();
    let ctx = test_context();

    bandit.feedback(&ctx, "remind.morning", micros(i64::MAX));
    assert!(bandit.arm_statistics("morning").is_none());

    bandit.feedback(&ctx, "remind.morning", micros(1_000_000_000_000_000));
    assert_eq!(bandit.arm_statistics("morning"), Some((1, 1_000_000_000_000_000)));
}

#[test]
fn exploration_still_names_a_known_slot() {
    let mut bandit = RemindBandit::default();
    bandit.epsilon = Fixed::new(1_000_000); // always explore
    let ctx = test_context();

    for _ in 0..20 {
        let d = bandit.decide(&ctx);
        let slot = d.action.strip_prefix("remind.").expect("namespaced action");
        assert!(bandit.slots.iter().any(|s| s == slot));
        assert_eq!(d.why, vec!["explore \u{03b5}".to_string()]);
    }
}

#[test]
fn negative_epsilon_is_clamped_to_exploit() {
    let mut bandit = RemindBandit::default();
    bandit.epsilon = Fixed::new(-500_000);
    let ctx = test_context();
    bandit.feedback(&ctx, "remind.evening", micros(700_000));

    let decision = bandit.decide(&ctx);
    assert_eq!(decision.action, "remind.evening");
    assert_eq!(decision.why, vec!["exploit".to_string()]);
    // decide sanitized the exploration probability
    assert_eq!(bandit.epsilon.micros, 0);
}

#[test]
fn exploit_ties_resolve_to_earliest_slot() {
    let mut bandit = RemindBandit::default();
    bandit.epsilon = Fixed::new(0);
    bandit.slots = vec!["first".to_string(), "second".to_string()];
    let ctx = test_context();
    // both arms end up with the same exact average
    bandit.feedback(&ctx, "remind.second", micros(400_000));
    bandit.feedback(&ctx, "remind.first", micros(400_000));

    let decision = bandit.decide(&ctx);
    assert_eq!(decision.action, "remind.first");
}

#[test]
fn round_trip_preserves_arm_ranking() {
    let mut bandit = RemindBandit::default();
    bandit.epsilon = Fixed::new(0);
    bandit.slots = vec!["a".to_string(), "b".to_string(), "c".to_string()];
    let ctx = test_context();
    // averages: a = 0.25 over 4 pulls, b = 0.4 over 5 pulls, c = 0.1
    for _ in 0..4 {
        bandit.feedback(&ctx, "remind.a", micros(250_000));
    }
    for _ in 0..5 {
        bandit.feedback(&ctx, "remind.b", micros(400_000));
    }
    bandit.feedback(&ctx, "remind.c", micros(100_000));

    let mut restored = RemindBandit::default();
    restored.load(bandit.snapshot());
    restored.epsilon = Fixed::new(0);

    // the averages came through exactly, so the ranking is unchanged
    assert_eq!(restored.get_average_reward("a").micros, 250_000);
    assert_eq!(restored.get_average_reward("b").micros, 400_000);
    assert_eq!(restored.get_average_reward("c").micros, 100_000);
    let decision = restored.decide(&ctx);
    assert_eq!(decision.action, "remind.b");
}
