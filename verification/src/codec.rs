//! The versioned snapshot contract: encoding and decoding.
//!
//! A snapshot is a JSON object with `version`, `policy_id`, `ts`, three
//! parallel arrays `arms`, `counts` and `values` (values holds per-arm
//! *averages*, not totals), an `epsilon`, and an optional `seed`. This
//! module holds the pure codec: building the object from plain data and
//! the strict structural parse back. A legacy direct-state form is
//! recognised as a fallback.

use vstd::prelude::*;

use crate::bandit::{ArmV, BanditV};
use crate::fixed::{Fixed, MAX_REWARD_MICROS, MICROS_PER_UNIT};
use crate::json::{arr_model, fields_model, obj_get, JsonV, JsonValue};
use crate::policy::strs_model;

verus! {

broadcast use vstd::std_specs::vec::group_vec_axioms;

/// The schema version every exported snapshot carries.
pub const SNAPSHOT_VERSION: &'static str = "0.1.0";

/// The policy identifier a snapshot must carry to be loaded.
pub const POLICY_ID: &'static str = "remind-bandit";

/// The plain contents of a contract snapshot: three parallel arrays over
/// the arms, the exploration probability, and the header strings.
#[derive(Debug)]
pub struct ContractSnapshot {
    pub version: String,
    pub policy_id: String,
    pub ts: String,
    pub arms: Vec<String>,
    pub counts: Vec<u32>,
    pub values: Vec<Fixed>,
    pub epsilon: Fixed,
}

/// The mathematical shape of a contract snapshot; counts and values in
/// micro-units where numeric.
pub struct SnapV {
    pub version: Seq<char>,
    pub policy_id: Seq<char>,
    pub ts: Seq<char>,
    pub arms: Seq<Seq<char>>,
    pub counts: Seq<int>,
    pub values: Seq<int>,
    pub epsilon: int,
}

/// The whole-unit values of a list of counts.
pub open spec fn counts_model(counts: Seq<u32>) -> Seq<int> {
    Seq::new(counts.len(), |i: int| counts[i] as int)
}

/// The micro-unit values of a list of fixed-point numbers.
pub open spec fn fixeds_model(values: Seq<Fixed>) -> Seq<int> {
    Seq::new(values.len(), |i: int| values[i].as_int())
}

impl View for ContractSnapshot {
    type V = SnapV;

    open spec fn view(&self) -> SnapV {
        SnapV {
            version: self.version@,
            policy_id: self.policy_id@,
            ts: self.ts@,
            arms: strs_model(self.arms@),
            counts: counts_model(self.counts@),
            values: fixeds_model(self.values@),
            epsilon: self.epsilon.as_int(),
        }
    }
}

/// The JSON object a snapshot serializes to: counts are whole units on
/// the wire, so each count appears as its value times one million
/// micro-units; `seed` is absent, as nothing sets it.
pub open spec fn snap_json(s: SnapV) -> JsonV {
    JsonV::Obj(
        seq![
            ("version"@, JsonV::Str(s.version)),
            ("policy_id"@, JsonV::Str(s.policy_id)),
            ("ts"@, JsonV::Str(s.ts)),
            ("arms"@, JsonV::Arr(Seq::new(s.arms.len(), |i: int| JsonV::Str(s.arms[i])))),
            (
                "counts"@,
                JsonV::Arr(
                    Seq::new(
                        s.counts.len(),
                        |i: int| JsonV::Num(s.counts[i] * (MICROS_PER_UNIT as int)),
                    ),
                ),
            ),
            ("values"@, JsonV::Arr(Seq::new(s.values.len(), |i: int| JsonV::Num(s.values[i])))),
            ("epsilon"@, JsonV::Num(s.epsilon)),
        ],
    )
}

/// Build the JSON object of a snapshot.
pub fn contract_json(s: &ContractSnapshot) -> (v: JsonValue)
    ensures
        v@ == snap_json(s@),
{
    let mut arms: Vec<JsonValue> = Vec::new();
    let mut i: usize = 0;
    while i < s.arms.len()
        invariant
            i <= s.arms@.len(),
            arms@.len() == i,
            forall|j: int| 0 <= j < i ==> arms@[j]@ == JsonV::Str(s.arms@[j]@),
        decreases s.arms@.len() - i,
    {
        arms.push(JsonValue::Str(s.arms[i].clone()));
        i += 1;
    }
    let mut counts: Vec<JsonValue> = Vec::new();
    let mut i: usize = 0;
    while i < s.counts.len()
        invariant
            i <= s.counts@.len(),
            counts@.len() == i,
            forall|j: int|
                0 <= j < i ==> counts@[j]@ == JsonV::Num(
                    s.counts@[j] * (MICROS_PER_UNIT as int),
                ),
        decreases s.counts@.len() - i,
    {
        let c: i64 = (s.counts[i] as i64) * MICROS_PER_UNIT;
        counts.push(JsonValue::Num(Fixed::new(c)));
        i += 1;
    }
    let mut values: Vec<JsonValue> = Vec::new();
    let mut i: usize = 0;
    while i < s.values.len()
        invariant
            i <= s.values@.len(),
            values@.len() == i,
            forall|j: int| 0 <= j < i ==> values@[j]@ == JsonV::Num(s.values@[j].as_int()),
        decreases s.values@.len() - i,
    {
        values.push(JsonValue::Num(s.values[i]));
        i += 1;
    }
    let fields: Vec<(String, JsonValue)> = vec![
        ("version".to_owned(), JsonValue::Str(s.version.clone())),
        ("policy_id".to_owned(), JsonValue::Str(s.policy_id.clone())),
        ("ts".to_owned(), JsonValue::Str(s.ts.clone())),
        ("arms".to_owned(), JsonValue::Arr(arms)),
        ("counts".to_owned(), JsonValue::Arr(counts)),
        ("values".to_owned(), JsonValue::Arr(values)),
        ("epsilon".to_owned(), JsonValue::Num(s.epsilon)),
    ];
    let v = JsonValue::Obj(fields);
    proof {
        assert(arr_model(arms@) =~= Seq::new(s@.arms.len(), |i: int| JsonV::Str(s@.arms[i])));
        assert(arr_model(counts@) =~= Seq::new(
            s@.counts.len(),
            |i: int| JsonV::Num(s@.counts[i] * (MICROS_PER_UNIT as int)),
        ));
        assert(arr_model(values@) =~= Seq::new(
            s@.values.len(),
            |i: int| JsonV::Num(s@.values[i]),
        ));
        assert(fields_model(fields@) =~= snap_json(s@)->Obj_0);
    }
    v
}

/// A wire number that is a valid pull count: a non-negative whole number
/// of units that fits a 32-bit counter.
pub open spec fn count_ok(m: int) -> bool {
    &&& 0 <= m
    &&& m % (MICROS_PER_UNIT as int) == 0
    &&& m / (MICROS_PER_UNIT as int) <= u32::MAX as int
}

/// A wire number inside the engine's reward domain.
pub open spec fn value_ok(m: int) -> bool {
    -(MAX_REWARD_MICROS as int) <= m <= MAX_REWARD_MICROS as int
}

/// Every element is a string.
pub open spec fn all_strs(items: Seq<JsonV>) -> bool {
    forall|i: int| 0 <= i < items.len() ==> (#[trigger] items[i]) is Str
}

/// The character sequences of a list of string values.
pub open spec fn strs_of(items: Seq<JsonV>) -> Seq<Seq<char>> {
    Seq::new(items.len(), |i: int| items[i]->Str_0)
}

/// Every element is a valid pull count.
pub open spec fn all_counts(items: Seq<JsonV>) -> bool {
    forall|i: int|
        0 <= i < items.len() ==> ((#[trigger] items[i]) matches JsonV::Num(m) && count_ok(m))
}

/// The whole-unit counts of a list of count values.
pub open spec fn counts_of(items: Seq<JsonV>) -> Seq<int> {
    Seq::new(items.len(), |i: int| items[i]->Num_0 / (MICROS_PER_UNIT as int))
}

/// Every element is a number in the reward domain.
pub open spec fn all_values(items: Seq<JsonV>) -> bool {
    forall|i: int|
        0 <= i < items.len() ==> ((#[trigger] items[i]) matches JsonV::Num(m) && value_ok(m))
}

/// The micro-unit values of a list of numbers.
pub open spec fn values_of(items: Seq<JsonV>) -> Seq<int> {
    Seq::new(items.len(), |i: int| items[i]->Num_0)
}

/// An acceptable `seed` field: absent, null, or a non-negative whole
/// number.
pub open spec fn seed_ok(s: Option<JsonV>) -> bool {
    match s {
        None => true,
        Some(JsonV::Null) => true,
        Some(JsonV::Num(m)) => 0 <= m && m % (MICROS_PER_UNIT as int) == 0,
        Some(_) => false,
    }
}

/// The strict structural parse of a contract snapshot: an object whose
/// seven required fields carry the right shapes, numbers within the
/// engine's domain. Anything else fails.
pub open spec fn parse_contract(v: JsonV) -> Option<SnapV> {
    if !(v is Obj) {
        None
    } else {
        let fs = v->Obj_0;
        let version = obj_get(fs, "version"@);
        let policy = obj_get(fs, "policy_id"@);
        let ts = obj_get(fs, "ts"@);
        let arms = obj_get(fs, "arms"@);
        let counts = obj_get(fs, "counts"@);
        let values = obj_get(fs, "values"@);
        let eps = obj_get(fs, "epsilon"@);
        let seed = obj_get(fs, "seed"@);
        if ({
            &&& version matches Some(JsonV::Str(_))
            &&& policy matches Some(JsonV::Str(_))
            &&& ts matches Some(JsonV::Str(_))
            &&& arms matches Some(JsonV::Arr(a)) && all_strs(a)
            &&& counts matches Some(JsonV::Arr(c)) && all_counts(c)
            &&& values matches Some(JsonV::Arr(w)) && all_values(w)
            &&& eps matches Some(JsonV::Num(_))
            &&& seed_ok(seed)
        }) {
            Some(
                SnapV {
                    version: version->0->Str_0,
                    policy_id: policy->0->Str_0,
                    ts: ts->0->Str_0,
                    arms: strs_of(arms->0->Arr_0),
                    counts: counts_of(counts->0->Arr_0),
                    values: values_of(values->0->Arr_0),
                    epsilon: eps->0->Num_0,
                },
            )
        } else {
            None
        }
    }
}

/// Parse a list of string values.
fn parse_strs(items: &Vec<JsonValue>) -> (r: Option<Vec<String>>)
    ensures
        match r {
            Some(out) => all_strs(arr_model(items@)) && strs_model(out@) == strs_of(
                arr_model(items@),
            ),
            None => !all_strs(arr_model(items@)),
        },
{
    let mut out: Vec<String> = Vec::new();
    let n = items.len();
    let mut i: usize = 0;
    while i < n
        invariant
            i <= n,
            n == items@.len(),
            out@.len() == i,
            forall|j: int| 0 <= j < i ==> (#[trigger] arr_model(items@)[j]) is Str,
            forall|j: int| 0 <= j < i ==> out@[j]@ == arr_model(items@)[j]->Str_0,
        decreases n - i,
    {
        match &items[i] {
            JsonValue::Str(s) => {
                out.push(s.clone());
            },
            _ => {
                proof {
                    crate::json::lemma_view_variant(items@[i as int]);
                    assert(!((arr_model(items@)[i as int]) is Str));
                    assert(!all_strs(arr_model(items@)));
                }
                return None;
            },
        }
        i += 1;
    }
    proof {
        assert(strs_model(out@) =~= strs_of(arr_model(items@)));
    }
    Some(out)
}

/// Parse a list of pull counts.
fn parse_counts(items: &Vec<JsonValue>) -> (r: Option<Vec<u32>>)
    ensures
        match r {
            Some(out) => all_counts(arr_model(items@)) && counts_model(out@) == counts_of(
                arr_model(items@),
            ),
            None => !all_counts(arr_model(items@)),
        },
{
    let mut out: Vec<u32> = Vec::new();
    let n = items.len();
    let mut i: usize = 0;
    while i < n
        invariant
            i <= n,
            n == items@.len(),
            out@.len() == i,
            forall|j: int|
                0 <= j < i ==> ((#[trigger] arr_model(items@)[j]) matches JsonV::Num(m)
                    && count_ok(m)),
            forall|j: int|
                0 <= j < i ==> out@[j] as int == arr_model(items@)[j]->Num_0 / (
                MICROS_PER_UNIT as int),
        decreases n - i,
    {
        match &items[i] {
            JsonValue::Num(f) => {
                let ghost m = f.as_int();
                proof {
                    assert(arr_model(items@)[i as int] == JsonV::Num(m));
                }
                if f.micros < 0 {
                    proof {
                        assert(!count_ok(m));
                        assert(!all_counts(arr_model(items@)));
                    }
                    return None;
                }
                let um: u64 = f.micros as u64;
                if um % 1_000_000 != 0 {
                    proof {
                        assert(um as int == m);
                        assert(!count_ok(m));
                        assert(!all_counts(arr_model(items@)));
                    }
                    return None;
                }
                let units: u64 = um / 1_000_000;
                if units > u32::MAX as u64 {
                    proof {
                        assert(units as int == m / (MICROS_PER_UNIT as int));
                        assert(!count_ok(m));
                        assert(!all_counts(arr_model(items@)));
                    }
                    return None;
                }
                out.push(units as u32);
            },
            _ => {
                proof {
                    crate::json::lemma_view_variant(items@[i as int]);
                    assert(!((arr_model(items@)[i as int]) is Num));
                    assert(!all_counts(arr_model(items@)));
                }
                return None;
            },
        }
        i += 1;
    }
    proof {
        assert(counts_model(out@) =~= counts_of(arr_model(items@)));
    }
    Some(out)
}

/// Parse a list of reward-domain numbers.
fn parse_values(items: &Vec<JsonValue>) -> (r: Option<Vec<Fixed>>)
    ensures
        match r {
            Some(out) => all_values(arr_model(items@)) && fixeds_model(out@) == values_of(
                arr_model(items@),
            ),
            None => !all_values(arr_model(items@)),
        },
{
    let mut out: Vec<Fixed> = Vec::new();
    let n = items.len();
    let mut i: usize = 0;
    while i < n
        invariant
            i <= n,
            n == items@.len(),
            out@.len() == i,
            forall|j: int|
                0 <= j < i ==> ((#[trigger] arr_model(items@)[j]) matches JsonV::Num(m)
                    && value_ok(m)),
            forall|j: int| 0 <= j < i ==> out@[j].as_int() == arr_model(items@)[j]->Num_0,
        decreases n - i,
    {
        match &items[i] {
            JsonValue::Num(f) => {
                if f.micros > MAX_REWARD_MICROS || f.micros < -MAX_REWARD_MICROS {
                    proof {
                        assert(arr_model(items@)[i as int] == JsonV::Num(f.as_int()));
                        assert(!all_values(arr_model(items@)));
                    }
                    return None;
                }
                out.push(*f);
            },
            _ => {
                proof {
                    crate::json::lemma_view_variant(items@[i as int]);
                    assert(!((arr_model(items@)[i as int]) is Num));
                    assert(!all_values(arr_model(items@)));
                }
                return None;
            },
        }
        i += 1;
    }
    proof {
        assert(fixeds_model(out@) =~= values_of(arr_model(items@)));
    }
    Some(out)
}

/// Parse a wire number as a pull count.
fn parse_count(f: &Fixed) -> (r: Option<u32>)
    ensures
        match r {
            Some(c) => count_ok(f.as_int()) && c as int == f.as_int() / (MICROS_PER_UNIT as int),
            None => !count_ok(f.as_int()),
        },
{
    if f.micros < 0 {
        return None;
    }
    let um: u64 = f.micros as u64;
    if um % 1_000_000 != 0 {
        return None;
    }
    let units: u64 = um / 1_000_000;
    if units > u32::MAX as u64 {
        return None;
    }
    Some(units as u32)
}

/// Parse a contract snapshot from a JSON value; `None` exactly when the
/// strict structural parse fails.
pub fn parse_contract_snapshot(v: &JsonValue) -> (r: Option<ContractSnapshot>)
    ensures
        match r {
            Some(s) => {
                &&& parse_contract(v@) == Some(s@)
                &&& forall|j: int| 0 <= j < s@.values.len() ==> value_ok(#[trigger] s@.values[j])
            },
            None => parse_contract(v@) == None::<SnapV>,
        },
{
    if !(matches!(v, JsonValue::Obj(_))) {
        return None;
    }
    let version = match v.get("version") {
        Some(JsonValue::Str(s)) => s.clone(),
        _ => {
            return None;
        },
    };
    let policy_id = match v.get("policy_id") {
        Some(JsonValue::Str(s)) => s.clone(),
        _ => {
            return None;
        },
    };
    let ts = match v.get("ts") {
        Some(JsonValue::Str(s)) => s.clone(),
        _ => {
            return None;
        },
    };
    let arms = match v.get("arms") {
        Some(JsonValue::Arr(items)) => match parse_strs(items) {
            Some(out) => out,
            None => {
                return None;
            },
        },
        _ => {
            return None;
        },
    };
    let counts = match v.get("counts") {
        Some(JsonValue::Arr(items)) => match parse_counts(items) {
            Some(out) => out,
            None => {
                return None;
            },
        },
        _ => {
            return None;
        },
    };
    let values = match v.get("values") {
        Some(JsonValue::Arr(items)) => match parse_values(items) {
            Some(out) => out,
            None => {
                return None;
            },
        },
        _ => {
            return None;
        },
    };
    let epsilon = match v.get("epsilon") {
        Some(JsonValue::Num(f)) => *f,
        _ => {
            return None;
        },
    };
    match v.get("seed") {
        None => {},
        Some(JsonValue::Null) => {},
        Some(JsonValue::Num(f)) => {
            if f.micros < 0 {
                return None;
            }
            if (f.micros as u64) % 1_000_000 != 0 {
                return None;
            }
        },
        Some(_) => {
            return None;
        },
    }
    Some(ContractSnapshot { version, policy_id, ts, arms, counts, values, epsilon })
}

/// A legacy per-arm entry: a two-element array of a pull count and a
/// bounded cumulative total.
pub open spec fn arm_entry_ok(v: JsonV) -> bool {
    &&& v is Arr
    &&& v->Arr_0.len() == 2
    &&& v->Arr_0[0] is Num
    &&& v->Arr_0[1] is Num
    &&& count_ok(v->Arr_0[0]->Num_0)
    &&& crate::bandit::arm_in_range(
        v->Arr_0[0]->Num_0 / (MICROS_PER_UNIT as int),
        v->Arr_0[1]->Num_0,
    )
}

/// Every object field holds a legacy per-arm entry.
pub open spec fn all_arm_entries(w: Seq<(Seq<char>, JsonV)>) -> bool {
    forall|j: int| 0 <= j < w.len() ==> arm_entry_ok((#[trigger] w[j]).1)
}

/// The arm read from the legacy entry at index `j`.
pub open spec fn legacy_arm(w: Seq<(Seq<char>, JsonV)>, j: int) -> ArmV {
    ArmV {
        label: w[j].0,
        pulls: w[j].1->Arr_0[0]->Num_0 / (MICROS_PER_UNIT as int),
        total: w[j].1->Arr_0[1]->Num_0,
    }
}

/// The arms of a legacy state, in reverse field order: statistics look
/// up the first match, so a repeated label reads through its last
/// occurrence, as map insertion order implies.
pub open spec fn legacy_arms(w: Seq<(Seq<char>, JsonV)>) -> Seq<ArmV> {
    Seq::new(w.len(), |i: int| legacy_arm(w, w.len() - 1 - i))
}

/// The structural parse of the legacy direct-state form: an object with
/// an `epsilon` number, a `slots` string array, and a `values` object of
/// per-arm entries.
pub open spec fn parse_legacy(v: JsonV) -> Option<BanditV> {
    if !(v is Obj) {
        None
    } else {
        let fs = v->Obj_0;
        let eps = obj_get(fs, "epsilon"@);
        let slots = obj_get(fs, "slots"@);
        let values = obj_get(fs, "values"@);
        if ({
            &&& eps matches Some(JsonV::Num(_))
            &&& slots matches Some(JsonV::Arr(a)) && all_strs(a)
            &&& values matches Some(JsonV::Obj(w)) && all_arm_entries(w)
        }) {
            Some(
                BanditV {
                    epsilon: eps->0->Num_0,
                    slots: strs_of(slots->0->Arr_0),
                    arms: legacy_arms(values->0->Obj_0),
                },
            )
        } else {
            None
        }
    }
}

/// A parsed legacy state in plain values: each arm as its label, pull
/// count and total in micro-units.
#[derive(Debug)]
pub struct LegacyState {
    pub epsilon: Fixed,
    pub slots: Vec<String>,
    pub arms: Vec<(String, u32, i64)>,
}

/// The arms of a list of label, pull-count and total triples.
pub open spec fn triples_model(ts: Seq<(String, u32, i64)>) -> Seq<ArmV> {
    Seq::new(
        ts.len(),
        |i: int| ArmV { label: ts[i].0@, pulls: ts[i].1 as int, total: ts[i].2 as int },
    )
}

impl View for LegacyState {
    type V = BanditV;

    open spec fn view(&self) -> BanditV {
        BanditV {
            epsilon: self.epsilon.as_int(),
            slots: strs_model(self.slots@),
            arms: triples_model(self.arms@),
        }
    }
}

/// Parse the legacy direct-state form; `None` exactly when the
/// structural parse fails. Every parsed arm lies in the engine's range.
#[verifier::loop_isolation(false)]
pub fn parse_legacy_state(v: &JsonValue) -> (r: Option<LegacyState>)
    ensures
        match r {
            Some(st) => {
                &&& parse_legacy(v@) == Some(st@)
                &&& forall|i: int|
                    0 <= i < st.arms@.len() ==> crate::bandit::arm_in_range(
                        (#[trigger] st.arms@[i]).1 as int,
                        st.arms@[i].2 as int,
                    )
            },
            None => parse_legacy(v@) == None::<BanditV>,
        },
{
    if !(matches!(v, JsonValue::Obj(_))) {
        return None;
    }
    let epsilon = match v.get("epsilon") {
        Some(JsonValue::Num(f)) => *f,
        Some(other) => {
            proof {
                crate::json::lemma_view_variant(*other);
            }
            return None;
        },
        None => {
            return None;
        },
    };
    let slots = match v.get("slots") {
        Some(JsonValue::Arr(items)) => match parse_strs(items) {
            Some(out) => out,
            None => {
                return None;
            },
        },
        Some(other) => {
            proof {
                crate::json::lemma_view_variant(*other);
            }
            return None;
        },
        None => {
            return None;
        },
    };
    let mut arms: Vec<(String, u32, i64)> = Vec::new();
    match v.get("values") {
        Some(JsonValue::Obj(w)) => {
            let n = w.len();
            let ghost wm = fields_model(w@);
            let mut i: usize = 0;
            while i < n
                invariant
                    i <= n,
                    n == w@.len(),
                    wm == fields_model(w@),
                    arms@.len() == i,
                    forall|jj: int| n - i <= jj < n ==> arm_entry_ok((#[trigger] wm[jj]).1),
                    forall|k: int|
                        0 <= k < i ==> #[trigger] triples_model(arms@)[k] == legacy_arm(
                            wm,
                            n - 1 - k,
                        ),
                    forall|k: int|
                        0 <= k < i ==> crate::bandit::arm_in_range(
                            (#[trigger] arms@[k]).1 as int,
                            arms@[k].2 as int,
                        ),
                decreases n - i,
            {
                let j = n - 1 - i;
                let pair = &w[j];
                match &pair.1 {
                    JsonValue::Arr(e) => {
                        proof {
                            assert(wm[j as int].1 == w@[j as int].1@);
                            assert(wm[j as int].1->Arr_0 == arr_model(e@));
                        }
                        if e.len() != 2 {
                            proof {
                                assert(!arm_entry_ok(wm[j as int].1));
                            }
                            return None;
                        }
                        match (&e[0], &e[1]) {
                            (JsonValue::Num(p), JsonValue::Num(t)) => {
                                let pulls = match parse_count(p) {
                                    Some(c) => c,
                                    None => {
                                        proof {
                                            assert(!arm_entry_ok(wm[j as int].1));
                                        }
                                        return None;
                                    },
                                };
                                let bound: i128 = (pulls as i128) * (MAX_REWARD_MICROS as i128);
                                if (t.micros as i128) > bound || (t.micros as i128) < -bound {
                                    proof {
                                        assert(!arm_entry_ok(wm[j as int].1));
                                    }
                                    return None;
                                }
                                let ghost prev = arms@;
                                arms.push((pair.0.clone(), pulls, t.micros));
                                proof {
                                    assert(arm_entry_ok(wm[j as int].1));
                                    assert forall|k: int| 0 <= k < i + 1 implies #[trigger]
                                        triples_model(arms@)[k] == legacy_arm(wm, n - 1 - k) by {
                                        if k < i {
                                            assert(arms@[k] == prev[k]);
                                            assert(triples_model(prev)[k] == legacy_arm(
                                                wm,
                                                n - 1 - k,
                                            ));
                                            assert(triples_model(arms@)[k] == triples_model(
                                                prev,
                                            )[k]);
                                        } else {
                                            assert(triples_model(arms@)[k] == legacy_arm(
                                                wm,
                                                j as int,
                                            ));
                                        }
                                    }
                                }
                            },
                            _ => {
                                proof {
                                    crate::json::lemma_view_variant(e@[0]);
                                    crate::json::lemma_view_variant(e@[1]);
                                    assert(!arm_entry_ok(wm[j as int].1));
                                }
                                return None;
                            },
                        }
                    },
                    _ => {
                        proof {
                            crate::json::lemma_view_variant(w@[j as int].1);
                            assert(!arm_entry_ok(wm[j as int].1));
                        }
                        return None;
                    },
                }
                i += 1;
            }
            proof {
                assert(triples_model(arms@) =~= legacy_arms(wm));
            }
        },
        Some(other) => {
            proof {
                crate::json::lemma_view_variant(*other);
            }
            return None;
        },
        None => {
            return None;
        },
    }
    Some(LegacyState { epsilon, slots, arms })
}

/// The arm labels a snapshot exports: the live slots, or the default
/// slots when the list was left empty.
pub open spec fn export_arms(b: BanditV) -> Seq<Seq<char>> {
    if b.slots.len() == 0 {
        crate::bandit::default_slots_spec()
    } else {
        b.slots
    }
}

/// The snapshot a bandit state exports at timestamp `ts`: arms in slot
/// order, pull counts and floor averages read per label, epsilon clamped.
pub open spec fn snapshot_spec(b: BanditV, ts: Seq<char>) -> SnapV {
    SnapV {
        version: SNAPSHOT_VERSION@,
        policy_id: POLICY_ID@,
        ts,
        arms: export_arms(b),
        counts: Seq::new(
            export_arms(b).len(),
            |i: int| crate::bandit::arm_stats(b.arms, export_arms(b)[i]).0,
        ),
        values: Seq::new(
            export_arms(b).len(),
            |i: int| crate::bandit::arm_avg(b.arms, export_arms(b)[i]),
        ),
        epsilon: crate::fixed::clamp_unit_micros(b.epsilon),
    }
}

/// A snapshot passes validation when it names this policy and its three
/// arrays are parallel and name at least one arm.
pub open spec fn contract_valid(s: SnapV) -> bool {
    &&& s.policy_id == POLICY_ID@
    &&& s.arms.len() > 0
    &&& s.counts.len() == s.arms.len()
    &&& s.values.len() == s.arms.len()
}

/// The arm reconstructed from snapshot position `j`: the total is the
/// average scaled back by the pull count, zero for a never-pulled arm.
pub open spec fn loaded_arm(s: SnapV, j: int) -> ArmV {
    ArmV {
        label: s.arms[j],
        pulls: s.counts[j],
        total: if s.counts[j] > 0 {
            s.values[j] * s.counts[j]
        } else {
            0
        },
    }
}

/// The arms a valid snapshot loads, in reverse order: statistics look up
/// the first match, so a repeated label reads through its last
/// occurrence.
pub open spec fn loaded_arms(s: SnapV) -> Seq<ArmV> {
    Seq::new(s.arms.len(), |i: int| loaded_arm(s, s.arms.len() - 1 - i))
}

/// The state a valid snapshot loads: epsilon clamped, the snapshot's
/// arms adopted as the slots verbatim, totals reconstructed.
pub open spec fn apply_contract(s: SnapV) -> BanditV {
    BanditV {
        epsilon: crate::fixed::clamp_unit_micros(s.epsilon),
        slots: s.arms,
        arms: loaded_arms(s),
    }
}

/// What loading `v` into state `b` yields: a valid contract snapshot
/// replaces the state wholesale; a legacy state is adopted and
/// sanitized; anything else leaves the state untouched.
pub open spec fn load_result(b: BanditV, v: JsonV) -> BanditV {
    match parse_contract(v) {
        Some(s) => if contract_valid(s) {
            apply_contract(s)
        } else {
            b
        },
        None => match parse_legacy(v) {
            Some(lb) => crate::bandit::spec_sanitize(lb),
            None => b,
        },
    }
}

/// Relies on time's `OffsetDateTime::now_utc` and the `Rfc3339` format:
/// the current instant as an RFC 3339 timestamp string; a fixed epoch
/// string if formatting fails.
#[verifier::external_body]
pub(crate) fn now_rfc3339() -> String {
    let now = time::OffsetDateTime::now_utc();
    match now.format(&time::format_description::well_known::Rfc3339) {
        Ok(s) => s,
        Err(_) => "1970-01-01T00:00:00Z".to_string(),
    }
}

} // verus!
