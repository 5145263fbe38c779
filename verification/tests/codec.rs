use heimlern::bandit::{default_slots, RemindBandit};
use heimlern::fixed::Fixed;
use heimlern::json::JsonValue;
use heimlern::policy::Policy;

fn str_field(key: &str, value: &str) -> (String, JsonValue) {
    (key.to_string(), JsonValue::Str(value.to_string()))
}

fn num_field(key: &str, micros: i64) -> (String, JsonValue) {
    (key.to_string(), JsonValue::Num(Fixed::new(micros)))
}

fn snapshot_object(
    arms: Vec<JsonValue>,
    counts: Vec<JsonValue>,
    values: Vec<JsonValue>,
) -> JsonValue {
    JsonValue::Obj(vec![
        str_field("version", "0.1.0"),
        str_field("policy_id", "remind-bandit"),
        str_field("ts", "2026-01-01T00:00:00Z"),
        ("arms".to_string(), JsonValue::Arr(arms)),
        ("counts".to_string(), JsonValue::Arr(counts)),
        ("values".to_string(), JsonValue::Arr(values)),
        num_field("epsilon", 200_000),
    ])
}

#[test]
fn load_rejects_empty_arms_in_full() {
    let mut bandit = RemindBandit::default();
    let ctx_slots = bandit.slots.clone();

    bandit.load(snapshot_object(vec![], vec![], vec![]));

    assert_eq!(bandit.epsilon.micros, 200_000);
    assert_eq!(bandit.slots, ctx_slots);
}

#[test]
fn load_rejects_length_mismatch_in_full() {
    let mut bandit = RemindBandit::default();

    // counts shorter than arms
    bandit.load(snapshot_object(
        vec![JsonValue::Str("a".to_string())],
        vec![],
        vec![JsonValue::Num(Fixed::new(0))],
    ));
    assert_eq!(bandit.epsilon.micros, 200_000);
    assert_eq!(bandit.slots, default_slots());
    assert!(bandit.arm_statistics("a").is_none());

    // values shorter than arms
    bandit.load(snapshot_object(
        vec![JsonValue::Str("a".to_string())],
        vec![JsonValue::Num(Fixed::new(1_000_000))],
        vec![],
    ));
    assert_eq!(bandit.epsilon.micros, 200_000);
    assert_eq!(bandit.slots, default_slots());
}

#[test]
fn load_accepts_valid_contract_snapshot() {
    let mut bandit = RemindBandit::default();

    bandit.load(snapshot_object(
        vec![JsonValue::Str("a".to_string()), JsonValue::Str("b".to_string())],
        vec![JsonValue::Num(Fixed::new(3_000_000)), JsonValue::Num(Fixed::new(0))],
        vec![JsonValue::Num(Fixed::new(400_000)), JsonValue::Num(Fixed::new(0))],
    ));

    assert_eq!(bandit.slots, vec!["a".to_string(), "b".to_string()]);
    // totals come back as average times pull count
    assert_eq!(bandit.arm_statistics("a"), Some((3, 1_200_000)));
    assert_eq!(bandit.arm_statistics("b"), Some((0, 0)));
}

#[test]
fn load_accepts_legacy_direct_state() {
    let mut bandit = RemindBandit::default();

    let legacy = JsonValue::Obj(vec![
        num_field("epsilon", 500_000),
        (
            "slots".to_string(),
            JsonValue::Arr(vec![JsonValue::Str("a".to_string())]),
        ),
        (
            "values".to_string(),
            JsonValue::Obj(vec![(
                "a".to_string(),
                JsonValue::Arr(vec![
                    JsonValue::Num(Fixed::new(2_000_000)),
                    JsonValue::Num(Fixed::new(1_500_000)),
                ]),
            )]),
        ),
    ]);
    bandit.load(legacy);

    assert_eq!(bandit.epsilon.micros, 500_000);
    assert_eq!(bandit.slots, vec!["a".to_string()]);
    // legacy values carry totals directly
    assert_eq!(bandit.arm_statistics("a"), Some((2, 1_500_000)));
}

#[test]
fn load_ignores_unparseable_values() {
    let mut bandit = RemindBandit::default();

    bandit.load(JsonValue::Null);
    bandit.load(JsonValue::Str("not a snapshot".to_string()));
    bandit.load(JsonValue::Obj(vec![str_field("policy_id", "remind-bandit")]));

    assert_eq!(bandit.epsilon.micros, 200_000);
    assert_eq!(bandit.slots, default_slots());
}

#[test]
fn snapshot_carries_a_timestamp_string() {
    let bandit = RemindBandit::default();
    let snap = bandit.snapshot();
    match snap.get("ts") {
        Some(JsonValue::Str(ts)) => assert!(!ts.is_empty()),
        _ => panic!("the ts field is not a string"),
    }
}

#[test]
fn snapshot_clamps_epsilon_on_export() {
    let mut bandit = RemindBandit::default();
    bandit.epsilon = Fixed::new(-500_000);
    let snap = bandit.snapshot();
    match snap.get("epsilon") {
        Some(JsonValue::Num(f)) => assert_eq!(f.micros, 0),
        _ => panic!("the epsilon field is not a number"),
    }
}
