//! The library's laws: properties proved once, for every state.
//!
//! These public proof functions state what the engine guarantees across
//! calls: deterministic exploitation, a snapshot/load round trip that
//! preserves pull counts and average rewards exactly and totals within a
//! floor-reconstruction bound, and that foreign or malformed snapshots
//! never touch live state.

use vstd::prelude::*;

use crate::bandit::{arm_avg, arm_in_range, arm_stats, bandit_wf, decide_ensures,
    exploit_choice_ok, exploit_shape, has_slot, remind_action, slot_gt, spec_sanitize, ArmV,
    BanditV};
use crate::codec::{all_counts, all_strs, all_values, apply_contract, contract_valid, count_ok,
    export_arms, load_result, loaded_arm, loaded_arms, parse_contract, snap_json, snapshot_spec,
    value_ok, SnapV, POLICY_ID};
use crate::fixed::{clamp_unit_micros, MAX_REWARD_MICROS, MICROS_PER_UNIT};
use crate::json::{lemma_obj_get_first_match, lemma_obj_get_no_match, JsonV};
use crate::policy::{CtxV, DecV};

verus! {

/// Looking up a label that some arm carries reads the statistics of one
/// of the arms carrying it.
pub proof fn lemma_arm_stats_some_match(arms: Seq<ArmV>, l: Seq<char>)
    requires
        exists|i: int| 0 <= i < arms.len() && (#[trigger] arms[i]).label == l,
    ensures
        exists|i: int|
            0 <= i < arms.len() && (#[trigger] arms[i]).label == l && arm_stats(arms, l) == (
            arms[i].pulls,
            arms[i].total,
            ),
    decreases arms.len(),
{
    if arms[0].label == l {
        assert(0 <= 0 < arms.len() && arms[0].label == l && arm_stats(arms, l) == (
            arms[0].pulls,
            arms[0].total,
        ));
    } else {
        let i0 = choose|i: int| 0 <= i < arms.len() && (#[trigger] arms[i]).label == l;
        assert(arms.drop_first()[i0 - 1].label == l);
        lemma_arm_stats_some_match(arms.drop_first(), l);
        let i1 = choose|i: int|
            0 <= i < arms.drop_first().len() && (#[trigger] arms.drop_first()[i]).label == l
                && arm_stats(arms.drop_first(), l) == (
            arms.drop_first()[i].pulls,
            arms.drop_first()[i].total,
            );
        assert(arms[i1 + 1].label == l && arm_stats(arms, l) == (
            arms[i1 + 1].pulls,
            arms[i1 + 1].total,
        ));
    }
}

/// Statistics looked up in a list of in-range arms are in range.
pub proof fn lemma_arm_stats_in_range(arms: Seq<ArmV>, l: Seq<char>)
    requires
        forall|i: int|
            0 <= i < arms.len() ==> arm_in_range((#[trigger] arms[i]).pulls, arms[i].total),
    ensures
        arm_in_range(arm_stats(arms, l).0, arm_stats(arms, l).1),
    decreases arms.len(),
{
    if arms.len() == 0 {
    } else if arms[0].label == l {
        assert(arms[0] == arms[0]);
    } else {
        assert forall|i: int| 0 <= i < arms.drop_first().len() implies arm_in_range(
            (#[trigger] arms.drop_first()[i]).pulls,
            arms.drop_first()[i].total,
        ) by {
            assert(arms.drop_first()[i] == arms[i + 1]);
        }
        lemma_arm_stats_in_range(arms.drop_first(), l);
    }
}

/// Parsing a snapshot's JSON form gives back the snapshot: the codec's
/// encoder and strict parser are inverse, for snapshots whose counts fit
/// the counter and whose values lie in the reward domain.
pub proof fn lemma_parse_of_encode(s: SnapV)
    requires
        forall|j: int| 0 <= j < s.counts.len() ==> 0 <= #[trigger] s.counts[j] <= u32::MAX,
        forall|j: int| 0 <= j < s.values.len() ==> value_ok(#[trigger] s.values[j]),
    ensures
        parse_contract(snap_json(s)) == Some(s),
{
    reveal_strlit("version");
    reveal_strlit("policy_id");
    reveal_strlit("ts");
    reveal_strlit("arms");
    reveal_strlit("counts");
    reveal_strlit("values");
    reveal_strlit("epsilon");
    reveal_strlit("seed");
    assert("version"@.len() == 7 && "policy_id"@.len() == 9 && "ts"@.len() == 2
        && "arms"@.len() == 4 && "counts"@.len() == 6 && "values"@.len() == 6
        && "epsilon"@.len() == 7 && "seed"@.len() == 4);
    assert("version"@ != "epsilon"@ && "counts"@ != "values"@ && "arms"@ != "seed"@) by {
        assert("version"@[0] == 'v' && "epsilon"@[0] == 'e' && "counts"@[0] == 'c'
            && "values"@[0] == 'v' && "arms"@[0] == 'a' && "seed"@[0] == 's');
        assert("counts"@[1] == 'o' && "values"@[1] == 'a');
    }
    let v = snap_json(s);
    let fs = v->Obj_0;
    lemma_obj_get_first_match(fs, "version"@, 0);
    lemma_obj_get_first_match(fs, "policy_id"@, 1);
    lemma_obj_get_first_match(fs, "ts"@, 2);
    lemma_obj_get_first_match(fs, "arms"@, 3);
    lemma_obj_get_first_match(fs, "counts"@, 4);
    lemma_obj_get_first_match(fs, "values"@, 5);
    lemma_obj_get_first_match(fs, "epsilon"@, 6);
    lemma_obj_get_no_match(fs, "seed"@);
    let arms_js = Seq::new(s.arms.len(), |i: int| JsonV::Str(s.arms[i]));
    let counts_js = Seq::new(s.counts.len(), |i: int| JsonV::Num(s.counts[i] * (
    MICROS_PER_UNIT as int)));
    let values_js = Seq::new(s.values.len(), |i: int| JsonV::Num(s.values[i]));
    assert forall|j: int| 0 <= j < counts_js.len() implies ((#[trigger] counts_js[j])
        matches JsonV::Num(m) && count_ok(m)) by {
        let m = s.counts[j] * (MICROS_PER_UNIT as int);
        vstd::arithmetic::div_mod::lemma_mod_multiples_basic(s.counts[j], MICROS_PER_UNIT as int);
        vstd::arithmetic::div_mod::lemma_div_by_multiple(s.counts[j], MICROS_PER_UNIT as int);
    }
    assert(all_counts(counts_js));
    assert(all_strs(arms_js));
    assert(all_values(values_js));
    assert(crate::codec::strs_of(arms_js) =~= s.arms);
    assert forall|j: int| 0 <= j < s.counts.len() implies #[trigger] crate::codec::counts_of(
        counts_js,
    )[j] == s.counts[j] by {
        vstd::arithmetic::div_mod::lemma_div_by_multiple(s.counts[j], MICROS_PER_UNIT as int);
    }
    assert(crate::codec::counts_of(counts_js) =~= s.counts);
    assert(crate::codec::values_of(values_js) =~= s.values);
    assert(parse_contract(v) == Some(s));
}

/// Exploitation is deterministic: two exploit decisions over the same
/// state name the same action and score, so ties resolve by slot order,
/// never at random.
pub proof fn lemma_exploit_deterministic(st: BanditV, c: CtxV, d1: DecV, d2: DecV)
    requires
        exploit_shape(st, c, d1),
        exploit_shape(st, c, d2),
    ensures
        d1.action == d2.action,
        d1.score == d2.score,
{
    let i1 = choose|i: int|
        #![auto]
        exploit_choice_ok(st.slots, st.arms, i) && crate::policy::decision_shape(
            d1,
            remind_action(st.slots[i]),
            arm_avg(st.arms, st.slots[i]),
            "exploit"@,
            c,
        );
    let i2 = choose|i: int|
        #![auto]
        exploit_choice_ok(st.slots, st.arms, i) && crate::policy::decision_shape(
            d2,
            remind_action(st.slots[i]),
            arm_avg(st.arms, st.slots[i]),
            "exploit"@,
            c,
        );
    if i1 < i2 {
        assert(slot_gt(st.arms, st.slots[i2], st.slots[i1]));
        assert(!slot_gt(st.arms, st.slots[i2], st.slots[i1]));
    }
    if i2 < i1 {
        assert(slot_gt(st.arms, st.slots[i1], st.slots[i2]));
        assert(!slot_gt(st.arms, st.slots[i1], st.slots[i2]));
    }
}

/// When one slot's exact average reward strictly beats every slot with a
/// different label, exploitation decides that slot's action with that
/// slot's average as its score.
pub proof fn lemma_exploit_picks_strictly_highest(st: BanditV, c: CtxV, d: DecV, k: int)
    requires
        exploit_shape(st, c, d),
        0 <= k < st.slots.len(),
        forall|j: int|
            0 <= j < st.slots.len() && st.slots[j] != st.slots[k] ==> slot_gt(
                st.arms,
                st.slots[k],
                #[trigger] st.slots[j],
            ),
    ensures
        d.action == remind_action(st.slots[k]),
        d.score == arm_avg(st.arms, st.slots[k]),
{
    let i = choose|i: int|
        #![auto]
        exploit_choice_ok(st.slots, st.arms, i) && crate::policy::decision_shape(
            d,
            remind_action(st.slots[i]),
            arm_avg(st.arms, st.slots[i]),
            "exploit"@,
            c,
        );
    assert(!slot_gt(st.arms, st.slots[k], st.slots[i]));
    assert(st.slots[i] == st.slots[k]);
}

/// With zero exploration probability after sanitizing, deciding is
/// fully deterministic: any two decisions the contract of `decide`
/// allows from the same state name the same action with the same score,
/// and leave the same state behind.
pub proof fn lemma_zero_epsilon_decides_deterministically(
    b: BanditV,
    b2a: BanditV,
    b2b: BanditV,
    c: CtxV,
    d1: DecV,
    d2: DecV,
)
    requires
        spec_sanitize(b).epsilon == 0,
        decide_ensures(b, b2a, c, d1),
        decide_ensures(b, b2b, c, d2),
    ensures
        d1.action == d2.action,
        d1.score == d2.score,
        b2a == b2b,
{
    lemma_exploit_deterministic(spec_sanitize(b), c, d1, d2);
}

/// The statistics a label reads after a snapshot/load round trip: the
/// pull count survives exactly, and the total is the floor average
/// scaled back by the pull count.
pub proof fn lemma_loaded_stats(b: BanditV, ts: Seq<char>, l: Seq<char>)
    requires
        has_slot(export_arms(b), l),
    ensures
        ({
            let s = snapshot_spec(b, ts);
            let p = arm_stats(b.arms, l).0;
            let t = arm_stats(b.arms, l).1;
            &&& arm_stats(loaded_arms(s), l).0 == p
            &&& arm_stats(loaded_arms(s), l).1 == (if p > 0 {
                (t / p) * p
            } else {
                0
            })
        }),
{
    let s = snapshot_spec(b, ts);
    let n = s.arms.len();
    let la = loaded_arms(s);
    let j0 = choose|k: int| 0 <= k < export_arms(b).len() && export_arms(b)[k] == l;
    assert(la[n - 1 - j0] == loaded_arm(s, j0));
    assert(la[n - 1 - j0].label == l);
    lemma_arm_stats_some_match(la, l);
    let i = choose|i: int|
        0 <= i < la.len() && (#[trigger] la[i]).label == l && arm_stats(la, l) == (
        la[i].pulls,
        la[i].total,
        );
    assert(la[i] == loaded_arm(s, n - 1 - i));
    assert(s.arms[n - 1 - i] == l);
    assert(s.counts[n - 1 - i] == arm_stats(b.arms, l).0);
    assert(s.values[n - 1 - i] == arm_avg(b.arms, l));
}

/// Round trip: loading the snapshot of a well-formed state, into any
/// prior state, reproduces the clamped epsilon, the exported slot list,
/// every arm's pull count and floor average exactly, and every total
/// within one pull's worth of floor rounding below the original.
pub proof fn lemma_snapshot_load_round_trip(b: BanditV, b0: BanditV, ts: Seq<char>)
    requires
        bandit_wf(b),
    ensures
        ({
            let b2 = load_result(b0, snap_json(snapshot_spec(b, ts)));
            &&& b2 == apply_contract(snapshot_spec(b, ts))
            &&& b2.epsilon == clamp_unit_micros(b.epsilon)
            &&& b2.slots == export_arms(b)
            &&& forall|l: Seq<char>|
                has_slot(export_arms(b), l) ==> {
                    let p = arm_stats(b.arms, l).0;
                    let t = arm_stats(b.arms, l).1;
                    let t2 = arm_stats(b2.arms, l).1;
                    &&& (#[trigger] arm_stats(b2.arms, l)).0 == p
                    &&& 0 <= t - t2 < (if p > 0 {
                        p
                    } else {
                        1
                    })
                    &&& arm_avg(b2.arms, l) == arm_avg(b.arms, l)
                }
        }),
{
    let s = snapshot_spec(b, ts);
    assert forall|j: int| 0 <= j < s.counts.len() implies 0 <= #[trigger] s.counts[j]
        <= u32::MAX by {
        lemma_arm_stats_in_range(b.arms, s.arms[j]);
    }
    assert forall|j: int| 0 <= j < s.values.len() implies value_ok(#[trigger] s.values[j]) by {
        lemma_arm_stats_in_range(b.arms, s.arms[j]);
        let p = arm_stats(b.arms, s.arms[j]).0;
        let t = arm_stats(b.arms, s.arms[j]).1;
        if p > 0 {
            crate::bandit::lemma_avg_in_reward_range(p, t);
        }
    }
    lemma_parse_of_encode(s);
    assert(contract_valid(s));
    let b2 = apply_contract(s);
    assert forall|l: Seq<char>| has_slot(export_arms(b), l) implies {
        let p = arm_stats(b.arms, l).0;
        let t = arm_stats(b.arms, l).1;
        let t2 = arm_stats(b2.arms, l).1;
        &&& (#[trigger] arm_stats(b2.arms, l)).0 == p
        &&& 0 <= t - t2 < (if p > 0 {
            1int * p
        } else {
            1
        })
        &&& arm_avg(b2.arms, l) == arm_avg(b.arms, l)
    } by {
        lemma_loaded_stats(b, ts, l);
        lemma_arm_stats_in_range(b.arms, l);
        let p = arm_stats(b.arms, l).0;
        let t = arm_stats(b.arms, l).1;
        if p > 0 {
            vstd::arithmetic::div_mod::lemma_fundamental_div_mod(t, p);
            vstd::arithmetic::div_mod::lemma_mod_division_less_than_divisor(t, p);
            assert(p * (t / p) == (t / p) * p) by (nonlinear_arith);
            vstd::arithmetic::div_mod::lemma_div_multiples_vanish(t / p, p);
            assert(arm_stats(b2.arms, l).1 == (t / p) * p);
            assert(((t / p) * p) / p == t / p);
        } else {
            assert(-p * (MAX_REWARD_MICROS as int) == 0);
            assert(t == 0);
        }
    }
}

/// Ranking survives the round trip: for any two exported labels, their
/// floor average rewards are reproduced exactly, so their order after
/// the round trip is their order before it.
pub proof fn lemma_round_trip_preserves_ranking(
    b: BanditV,
    b0: BanditV,
    ts: Seq<char>,
    la: Seq<char>,
    lb: Seq<char>,
)
    requires
        bandit_wf(b),
        has_slot(export_arms(b), la),
        has_slot(export_arms(b), lb),
    ensures
        ({
            let b2 = load_result(b0, snap_json(snapshot_spec(b, ts)));
            &&& arm_avg(b2.arms, la) == arm_avg(b.arms, la)
            &&& arm_avg(b2.arms, lb) == arm_avg(b.arms, lb)
            &&& (arm_avg(b2.arms, la) > arm_avg(b2.arms, lb) <==> arm_avg(b.arms, la) > arm_avg(
                b.arms,
                lb,
            ))
        }),
{
    lemma_snapshot_load_round_trip(b, b0, ts);
}

/// A snapshot naming a foreign policy identifier never touches live
/// state.
pub proof fn lemma_load_foreign_policy_no_op(b: BanditV, v: JsonV)
    requires
        parse_contract(v) matches Some(s) && s.policy_id != POLICY_ID@,
    ensures
        load_result(b, v) == b,
{
}

/// A snapshot without arms, or whose parallel arrays disagree in length,
/// is rejected in full: the live state survives intact.
pub proof fn lemma_load_invalid_shape_no_op(b: BanditV, v: JsonV)
    requires
        parse_contract(v) matches Some(s) && (s.arms.len() == 0 || s.counts.len() != s.arms.len()
            || s.values.len() != s.arms.len()),
    ensures
        load_result(b, v) == b,
{
}

/// A value that neither format parses never touches live state.
pub proof fn lemma_load_unparseable_no_op(b: BanditV, v: JsonV)
    requires
        parse_contract(v) is None,
        crate::codec::parse_legacy(v) is None,
    ensures
        load_result(b, v) == b,
{
}

} // verus!
