//! The epsilon-greedy reminder bandit.
//!
//! A [`RemindBandit`] keeps a list of known time slots (arms), per-arm pull
//! counts and exact cumulative reward totals, and an exploration
//! probability `epsilon`. With probability `epsilon` a decision explores (a
//! uniformly random slot); otherwise it exploits: the slot whose exact
//! average reward `total / pulls` is highest, ties resolving to the
//! earliest slot in `slots` order.

use vstd::prelude::*;

use crate::fixed::{clamp_unit, clamp_unit_micros, div_floor_total, Fixed, MAX_REWARD_MICROS};
use crate::json::JsonValue;
use crate::policy::{strs_model, Context, Decision};

verus! {

broadcast use vstd::std_specs::vec::group_vec_axioms;

/// Pull count and exact cumulative reward total for one arm. The total is
/// held in micro-units at full precision: accumulation never rounds.
#[derive(Debug)]
pub struct ArmStats {
    label: String,
    pulls: u32,
    total_micros: i128,
}

/// The mathematical shape of one arm's statistics.
pub struct ArmV {
    pub label: Seq<char>,
    pub pulls: int,
    pub total: int,
}

impl ArmStats {
    /// Each recorded reward is bounded, so the total is bounded by the pull
    /// count; in particular an arm without pulls has total zero.
    #[verifier::type_invariant]
    spec fn bounded(self) -> bool {
        -(self.pulls as int) * (MAX_REWARD_MICROS as int) <= self.total_micros as int
            <= (self.pulls as int) * (MAX_REWARD_MICROS as int)
    }
}

impl View for ArmStats {
    type V = ArmV;

    closed spec fn view(&self) -> ArmV {
        ArmV {
            label: self.label@,
            pulls: self.pulls as int,
            total: self.total_micros as int,
        }
    }
}

/// The shapes of a list of arm statistics.
pub open spec fn arms_model(arms: Seq<ArmStats>) -> Seq<ArmV> {
    Seq::new(arms.len(), |i: int| arms[i]@)
}

/// Statistics `(pulls, total)` of the first arm labelled `label`; an
/// unknown arm reads as zero pulls and zero total.
pub open spec fn arm_stats(arms: Seq<ArmV>, label: Seq<char>) -> (int, int)
    decreases arms.len(),
{
    if arms.len() == 0 {
        (0, 0)
    } else if arms[0].label == label {
        (arms[0].pulls, arms[0].total)
    } else {
        arm_stats(arms.drop_first(), label)
    }
}

/// The bound every reachable arm obeys: the total is at most the pull
/// count times the largest accepted reward, in either direction.
pub open spec fn arm_in_range(pulls: int, total: int) -> bool {
    &&& 0 <= pulls <= u32::MAX
    &&& -pulls * (MAX_REWARD_MICROS as int) <= total <= pulls * (MAX_REWARD_MICROS as int)
}

/// Average reward in micro-units: the floor of `total / pulls`, zero for
/// an arm that was never pulled.
pub open spec fn avg_micros(pulls: int, total: int) -> int {
    if pulls <= 0 {
        0
    } else {
        total / pulls
    }
}

/// Average reward of the arm labelled `label`.
pub open spec fn arm_avg(arms: Seq<ArmV>, label: Seq<char>) -> int {
    avg_micros(arm_stats(arms, label).0, arm_stats(arms, label).1)
}

/// Numerator of an arm's average as an exact rational: zero when the arm
/// was never pulled.
pub open spec fn eff_num(pulls: int, total: int) -> int {
    if pulls <= 0 {
        0
    } else {
        total
    }
}

/// Denominator of an arm's average as an exact rational: one when the arm
/// was never pulled.
pub open spec fn eff_den(pulls: int) -> int {
    if pulls <= 0 {
        1
    } else {
        pulls
    }
}

/// The exact average reward of the arm labelled `la` is strictly greater
/// than that of the arm labelled `lb` (compared as rationals by cross
/// multiplication, with never-pulled arms reading as zero).
pub open spec fn slot_gt(arms: Seq<ArmV>, la: Seq<char>, lb: Seq<char>) -> bool {
    let (pa, ta) = arm_stats(arms, la);
    let (pb, tb) = arm_stats(arms, lb);
    eff_num(pa, ta) * eff_den(pb) > eff_num(pb, tb) * eff_den(pa)
}

/// Index `i` is the exploit choice: no slot has a strictly greater exact
/// average, and `i` is the earliest such slot.
pub open spec fn exploit_choice_ok(slots: Seq<Seq<char>>, arms: Seq<ArmV>, i: int) -> bool {
    &&& 0 <= i < slots.len()
    &&& forall|j: int| 0 <= j < slots.len() ==> !slot_gt(arms, #[trigger] slots[j], slots[i])
    &&& forall|j: int| 0 <= j < i ==> slot_gt(arms, slots[i], #[trigger] slots[j])
}

/// The labels of the three default slots.
pub open spec fn default_slots_spec() -> Seq<Seq<char>> {
    seq!["morning"@, "afternoon"@, "evening"@]
}

/// The default slot list: morning, afternoon and evening.
pub fn default_slots() -> (r: Vec<String>)
    ensures
        strs_model(r@) == default_slots_spec(),
{
    let r: Vec<String> = vec![
        "morning".to_owned(),
        "afternoon".to_owned(),
        "evening".to_owned(),
    ];
    proof {
        assert(strs_model(r@) =~= default_slots_spec());
    }
    r
}

/// Epsilon-greedy policy over reminder time slots.
#[derive(Debug)]
pub struct RemindBandit {
    /// Exploration probability, clamped into `[0, 1]` by `sanitize`.
    pub epsilon: Fixed,
    /// Known time slots (arms), in decision order.
    pub slots: Vec<String>,
    /// Per-slot statistics, keyed by slot label.
    values: Vec<ArmStats>,
}

/// The mathematical shape of a bandit's state.
pub struct BanditV {
    pub epsilon: int,
    pub slots: Seq<Seq<char>>,
    pub arms: Seq<ArmV>,
}

impl View for RemindBandit {
    type V = BanditV;

    closed spec fn view(&self) -> BanditV {
        BanditV {
            epsilon: self.epsilon.as_int(),
            slots: strs_model(self.slots@),
            arms: arms_model(self.values@),
        }
    }
}

/// Sanitizing clamps epsilon into `[0, 1]` and restores the default slots
/// when the slot list is empty; statistics are untouched.
pub open spec fn spec_sanitize(b: BanditV) -> BanditV {
    BanditV {
        epsilon: clamp_unit_micros(b.epsilon),
        slots: if b.slots.len() == 0 {
            default_slots_spec()
        } else {
            b.slots
        },
        arms: b.arms,
    }
}

impl Default for RemindBandit {
    /// A fresh bandit: epsilon `0.2`, the default slots, no statistics.
    fn default() -> (r: Self)
        ensures
            r@.epsilon == 200_000int,
            r@.slots == default_slots_spec(),
            r@.arms == Seq::<ArmV>::empty(),
    {
        let r = RemindBandit {
            epsilon: Fixed::new(200_000),
            slots: default_slots(),
            values: Vec::new(),
        };
        proof {
            assert(arms_model(r.values@) =~= Seq::<ArmV>::empty());
        }
        r
    }
}

impl RemindBandit {
    /// Index of the first arm labelled `label` in the statistics list.
    fn find_index(&self, label: &str) -> (r: Option<usize>)
        ensures
            match r {
                Some(i) => {
                    &&& i < self.values@.len()
                    &&& self@.arms[i as int].label == label@
                    &&& forall|j: int| 0 <= j < i ==> self@.arms[j].label != label@
                    &&& arm_stats(self@.arms, label@) == (
                        self@.arms[i as int].pulls,
                        self@.arms[i as int].total,
                    )
                },
                None => {
                    &&& forall|j: int|
                        0 <= j < self@.arms.len() ==> self@.arms[j].label != label@
                    &&& arm_stats(self@.arms, label@) == (0int, 0int)
                },
            },
    {
        let k: String = label.to_owned();
        let n = self.values.len();
        let mut i: usize = 0;
        while i < n
            invariant
                i <= n,
                n == self.values@.len(),
                k@ == label@,
                forall|j: int| 0 <= j < i ==> self@.arms[j].label != label@,
            decreases n - i,
        {
            if self.values[i].label == k {
                proof {
                    lemma_arm_stats_first_match(self@.arms, label@, i as int);
                }
                return Some(i);
            }
            i += 1;
        }
        proof {
            lemma_arm_stats_no_match(self@.arms, label@);
        }
        None
    }

    /// Pulls and exact total of the arm labelled `slot`, if it is known.
    pub fn arm_statistics(&self, slot: &str) -> (r: Option<(u32, i128)>)
        ensures
            match r {
                Some((p, t)) => arm_stats(self@.arms, slot@) == (p as int, t as int),
                None => arm_stats(self@.arms, slot@) == (0int, 0int),
            },
    {
        match self.find_index(slot) {
            Some(i) => {
                let arm = &self.values[i];
                Some((arm.pulls, arm.total_micros))
            },
            None => None,
        }
    }

    /// Average reward for `slot`: the floor of `total / pulls` in
    /// micro-units, zero for an unknown or never-pulled arm.
    pub fn get_average_reward(&self, slot: &str) -> (r: Fixed)
        ensures
            r.as_int() == arm_avg(self@.arms, slot@),
            -(MAX_REWARD_MICROS as int) <= r.as_int() <= MAX_REWARD_MICROS as int,
    {
        match self.find_index(slot) {
            Some(i) => {
                let arm = &self.values[i];
                proof {
                    use_type_invariant(arm);
                }
                if arm.pulls > 0 {
                    let q = div_floor_total(arm.total_micros, arm.pulls as u64);
                    proof {
                        lemma_avg_in_reward_range(
                            arm.pulls as int,
                            arm.total_micros as int,
                        );
                    }
                    Fixed::new(q as i64)
                } else {
                    Fixed::zero()
                }
            },
            None => Fixed::zero(),
        }
    }

    /// Clamp epsilon into `[0, 1]` and restore the default slots if the
    /// slot list was left empty.
    fn sanitize(&mut self)
        ensures
            final(self)@ == spec_sanitize(old(self)@),
    {
        self.epsilon = clamp_unit(self.epsilon);
        if self.slots.len() == 0 {
            self.slots = default_slots();
        }
    }
}

/// An action with the `"remind."` namespace prefix.
pub open spec fn has_remind_prefix(a: Seq<char>) -> bool {
    a.len() >= 7 && a.subrange(0, 7) == "remind."@
}

/// The arm label of a prefixed action: what follows `"remind."`.
pub open spec fn remind_label(a: Seq<char>) -> Seq<char> {
    a.skip(7)
}

/// The action name for an arm label: `"remind."` followed by the label.
pub open spec fn remind_action(label: Seq<char>) -> Seq<char> {
    "remind."@ + label
}

/// Split the `"remind."` prefix off an action name.
fn strip_remind_prefix(action: &str) -> (r: Option<String>)
    ensures
        match r {
            Some(l) => has_remind_prefix(action@) && l@ == remind_label(action@),
            None => !has_remind_prefix(action@),
        },
{
    proof {
        reveal_strlit("remind.");
    }
    let n = action.unicode_len();
    if n < 7 {
        return None;
    }
    let ok = action.get_char(0) == 'r' && action.get_char(1) == 'e' && action.get_char(2) == 'm'
        && action.get_char(3) == 'i' && action.get_char(4) == 'n' && action.get_char(5) == 'd'
        && action.get_char(6) == '.';
    if ok {
        let label = action.substring_char(7, n).to_owned();
        proof {
            assert(action@.subrange(0, 7) =~= "remind."@);
            assert(label@ =~= remind_label(action@));
        }
        Some(label)
    } else {
        proof {
            assert(action@.subrange(0, 7) != "remind."@) by {
                if action@.subrange(0, 7) == "remind."@ {
                    assert(forall|i: int|
                        0 <= i < 7 ==> action@.subrange(0, 7)[i] == action@[i]);
                }
            }
        }
        None
    }
}

/// Prefix an arm label with the `"remind."` namespace.
fn prefixed_action(label: &str) -> (r: String)
    ensures
        r@ == remind_action(label@),
{
    let mut s: String = "remind.".to_owned();
    s.append(label);
    s
}

/// The slot list already carries the label.
pub open spec fn has_slot(slots: Seq<Seq<char>>, l: Seq<char>) -> bool {
    exists|k: int| 0 <= k < slots.len() && slots[k] == l
}

/// Whether the slot list carries `label`.
fn slot_known(slots: &Vec<String>, label: &str) -> (r: bool)
    ensures
        r == has_slot(strs_model(slots@), label@),
{
    let k: String = label.to_owned();
    let n = slots.len();
    let mut i: usize = 0;
    while i < n
        invariant
            i <= n,
            n == slots@.len(),
            k@ == label@,
            forall|j: int| 0 <= j < i ==> strs_model(slots@)[j] != label@,
        decreases n - i,
    {
        if slots[i] == k {
            assert(strs_model(slots@)[i as int] == label@);
            return true;
        }
        i += 1;
    }
    false
}

/// The arm list after recording one reward for `l`: the first arm labelled
/// `l` gains a pull and the reward; an unknown label is appended as a new
/// arm with one pull.
pub open spec fn record_arms(arms: Seq<ArmV>, l: Seq<char>, r: int) -> Seq<ArmV>
    decreases arms.len(),
{
    if arms.len() == 0 {
        seq![ArmV { label: l, pulls: 1, total: r }]
    } else if arms[0].label == l {
        seq![
            ArmV { label: arms[0].label, pulls: arms[0].pulls + 1, total: arms[0].total + r },
        ] + arms.drop_first()
    } else {
        seq![arms[0]] + record_arms(arms.drop_first(), l, r)
    }
}

/// Recording on the first matching index is a point update.
proof fn lemma_record_arms_update(arms: Seq<ArmV>, l: Seq<char>, r: int, i: int)
    requires
        0 <= i < arms.len(),
        arms[i].label == l,
        forall|j: int| 0 <= j < i ==> arms[j].label != l,
    ensures
        record_arms(arms, l, r) == arms.update(
            i,
            ArmV { label: arms[i].label, pulls: arms[i].pulls + 1, total: arms[i].total + r },
        ),
    decreases arms.len(),
{
    let u = ArmV { label: arms[i].label, pulls: arms[i].pulls + 1, total: arms[i].total + r };
    if i == 0 {
        assert(record_arms(arms, l, r) =~= arms.update(0, u));
    } else {
        lemma_record_arms_update(arms.drop_first(), l, r, i - 1);
        assert(seq![arms[0]] + arms.drop_first().update(i - 1, u) =~= arms.update(i, u));
    }
}

/// Recording an unknown label appends a fresh arm.
proof fn lemma_record_arms_append(arms: Seq<ArmV>, l: Seq<char>, r: int)
    requires
        forall|j: int| 0 <= j < arms.len() ==> arms[j].label != l,
    ensures
        record_arms(arms, l, r) == arms.push(ArmV { label: l, pulls: 1, total: r }),
    decreases arms.len(),
{
    let a = ArmV { label: l, pulls: 1, total: r };
    if arms.len() == 0 {
        assert(record_arms(arms, l, r) =~= arms.push(a));
    } else {
        lemma_record_arms_append(arms.drop_first(), l, r);
        assert(seq![arms[0]] + arms.drop_first().push(a) =~= arms.push(a));
    }
}

/// A higher exact average than one candidate, which in turn is no lower
/// than a third, is a higher exact average than the third: the cross
/// products order like the underlying ratios because denominators are
/// positive.
proof fn lemma_ratio_trans(nk: int, dk: int, nb: int, db: int, nj: int, dj: int)
    requires
        dk >= 1,
        db >= 1,
        dj >= 1,
        nk * db > nb * dk,
        nj * db <= nb * dj,
    ensures
        nk * dj > nj * dk,
{
    assert(nk * dj > nj * dk) by (nonlinear_arith)
        requires
            dk >= 1,
            db >= 1,
            dj >= 1,
            nk * db > nb * dk,
            nj * db <= nb * dj,
    ;
}

/// Relies on rand's `thread_rng` and `Rng::gen_range`: a draw from the
/// range `0..1_000_000` lies in that range.
#[verifier::external_body]
fn draw_micros() -> (r: u64)
    ensures
        r < 1_000_000,
{
    rand::Rng::gen_range(&mut rand::thread_rng(), 0..1_000_000u64)
}

/// Relies on rand's `thread_rng` and `Rng::gen_range`: a draw from the
/// range `0..n` lies below `n`.
#[verifier::external_body]
fn draw_index(n: usize) -> (r: usize)
    requires
        n > 0,
    ensures
        r < n,
{
    rand::Rng::gen_range(&mut rand::thread_rng(), 0..n)
}

/// Every arm of a reachable state lies in the engine's range.
pub open spec fn bandit_wf(b: BanditV) -> bool {
    forall|i: int|
        0 <= i < b.arms.len() ==> arm_in_range(
            (#[trigger] b.arms[i]).pulls,
            b.arms[i].total,
        )
}

impl RemindBandit {
    /// Every bandit state one can hold is well formed: its arm statistics
    /// respect the per-arm bound. This observer surfaces that fact, which
    /// rests on a type invariant, to callers.
    #[verifier::loop_isolation(false)]
    pub fn well_formed(&self) -> (r: bool)
        ensures
            r,
            bandit_wf(self@),
    {
        let n = self.values.len();
        let mut i: usize = 0;
        while i < n
            invariant
                i <= n,
                forall|j: int|
                    0 <= j < i ==> arm_in_range(
                        (#[trigger] self@.arms[j]).pulls,
                        self@.arms[j].total,
                    ),
            decreases n - i,
        {
            let arm = &self.values[i];
            proof {
                use_type_invariant(arm);
                assert(self@.arms[i as int] == self.values@[i as int]@);
            }
            i += 1;
        }
        true
    }
}

/// `arm_stats` reads the statistics at index `i` when `i` is the first
/// index carrying the label.
pub proof fn lemma_arm_stats_first_match(arms: Seq<ArmV>, label: Seq<char>, i: int)
    requires
        0 <= i < arms.len(),
        arms[i].label == label,
        forall|j: int| 0 <= j < i ==> arms[j].label != label,
    ensures
        arm_stats(arms, label) == (arms[i].pulls, arms[i].total),
    decreases arms.len(),
{
    if i > 0 {
        lemma_arm_stats_first_match(arms.drop_first(), label, i - 1);
    }
}

/// `arm_stats` reads zero when no arm carries the label.
pub proof fn lemma_arm_stats_no_match(arms: Seq<ArmV>, label: Seq<char>)
    requires
        forall|j: int| 0 <= j < arms.len() ==> arms[j].label != label,
    ensures
        arm_stats(arms, label) == (0int, 0int),
    decreases arms.len(),
{
    if arms.len() > 0 {
        lemma_arm_stats_no_match(arms.drop_first(), label);
    }
}

/// Micro-unit values of an optional reward; `None` models a non-finite
/// input.
pub open spec fn opt_micros(r: Option<Fixed>) -> Option<int> {
    match r {
        Some(f) => Some(f.as_int()),
        None => None,
    }
}

/// Feedback is applied exactly when the reward is a number within the
/// engine's domain, the action carries the `"remind."` prefix, and the
/// arm's pull counter has room.
pub open spec fn feedback_accepted(b: BanditV, action: Seq<char>, reward: Option<int>) -> bool {
    &&& reward matches Some(r)
    &&& -(MAX_REWARD_MICROS as int) <= reward->0 <= MAX_REWARD_MICROS as int
    &&& has_remind_prefix(action)
    &&& arm_stats(b.arms, remind_label(action)).0 < u32::MAX
}

/// The state after accepted feedback: epsilon unchanged, the label
/// appended to the slots if it was unknown, the reward recorded.
pub open spec fn feedback_spec(b: BanditV, l: Seq<char>, r: int) -> BanditV {
    BanditV {
        epsilon: b.epsilon,
        slots: if has_slot(b.slots, l) {
            b.slots
        } else {
            b.slots.push(l)
        },
        arms: record_arms(b.arms, l, r),
    }
}

/// What `feedback` guarantees: accepted feedback is recorded, anything
/// else leaves the state untouched.
pub open spec fn feedback_ensures(
    b: BanditV,
    b2: BanditV,
    action: Seq<char>,
    reward: Option<int>,
) -> bool {
    if feedback_accepted(b, action, reward) {
        b2 == feedback_spec(b, remind_label(action), reward->0)
    } else {
        b2 == b
    }
}

/// The decision explores: its action names some known slot, its score is
/// that slot's average, and the rationale says so.
pub open spec fn explore_shape(st: BanditV, c: crate::policy::CtxV, d: crate::policy::DecV) -> bool {
    exists|i: int|
        #![auto]
        0 <= i < st.slots.len() && crate::policy::decision_shape(
            d,
            remind_action(st.slots[i]),
            arm_avg(st.arms, st.slots[i]),
            "explore ε"@,
            c,
        )
}

/// The decision exploits: its action names the earliest slot of highest
/// exact average reward, its score is that slot's average.
pub open spec fn exploit_shape(st: BanditV, c: crate::policy::CtxV, d: crate::policy::DecV) -> bool {
    exists|i: int|
        #![auto]
        exploit_choice_ok(st.slots, st.arms, i) && crate::policy::decision_shape(
            d,
            remind_action(st.slots[i]),
            arm_avg(st.arms, st.slots[i]),
            "exploit"@,
            c,
        )
}

/// What `decide` guarantees: the state is sanitized and otherwise
/// untouched, the decision either explores or exploits, and with a zero
/// exploration probability it always exploits.
pub open spec fn decide_ensures(
    b: BanditV,
    b2: BanditV,
    c: crate::policy::CtxV,
    d: crate::policy::DecV,
) -> bool {
    &&& b2 == spec_sanitize(b)
    &&& (explore_shape(b2, c, d) || exploit_shape(b2, c, d))
    &&& (b2.epsilon == 0 ==> exploit_shape(b2, c, d))
}

impl ArmStats {
    /// A fresh arm with one pull and the given reward as its total.
    fn new_arm(label: String, reward: i64) -> (r: Self)
        requires
            -MAX_REWARD_MICROS <= reward <= MAX_REWARD_MICROS,
        ensures
            r@ == (ArmV { label: label@, pulls: 1, total: reward as int }),
    {
        ArmStats { label, pulls: 1, total_micros: reward as i128 }
    }

    /// The arm after one more pull with the given reward.
    fn recorded(&self, reward: i64) -> (r: Self)
        requires
            -MAX_REWARD_MICROS <= reward <= MAX_REWARD_MICROS,
            self@.pulls < u32::MAX,
        ensures
            r@ == (ArmV {
                label: self@.label,
                pulls: self@.pulls + 1,
                total: self@.total + reward,
            }),
    {
        proof {
            use_type_invariant(self);
        }
        ArmStats {
            label: self.label.clone(),
            pulls: self.pulls + 1,
            total_micros: self.total_micros + reward as i128,
        }
    }
}

impl RemindBandit {
    /// Pulls and total of the arm labelled `label`, zero when unknown,
    /// together with the range every reachable arm obeys.
    fn lookup_stats(&self, label: &str) -> (r: (u32, i128))
        ensures
            arm_stats(self@.arms, label@) == (r.0 as int, r.1 as int),
            arm_in_range(r.0 as int, r.1 as int),
    {
        match self.find_index(label) {
            Some(i) => {
                let arm = &self.values[i];
                proof {
                    use_type_invariant(arm);
                }
                (arm.pulls, arm.total_micros)
            },
            None => (0, 0),
        }
    }

    /// Whether the slot at index `a` has a strictly greater exact average
    /// reward than the slot at index `b`.
    fn slot_better(&self, a: usize, b: usize) -> (r: bool)
        requires
            a < self@.slots.len(),
            b < self@.slots.len(),
        ensures
            r == slot_gt(self@.arms, self@.slots[a as int], self@.slots[b as int]),
    {
        let sa = self.lookup_stats(self.slots[a].as_str());
        let sb = self.lookup_stats(self.slots[b].as_str());
        let na: i128 = if sa.0 == 0 {
            0
        } else {
            sa.1
        };
        let da: i128 = if sa.0 == 0 {
            1
        } else {
            sa.0 as i128
        };
        let nb: i128 = if sb.0 == 0 {
            0
        } else {
            sb.1
        };
        let db: i128 = if sb.0 == 0 {
            1
        } else {
            sb.0 as i128
        };
        proof {
            lemma_cross_mul_in_i128(na as int, db as int);
            lemma_cross_mul_in_i128(nb as int, da as int);
        }
        na * db > nb * da
    }

    /// The index of the earliest slot with the highest exact average
    /// reward.
    #[verifier::loop_isolation(false)]
    fn best_slot_index(&self) -> (r: usize)
        requires
            self@.slots.len() > 0,
        ensures
            exploit_choice_ok(self@.slots, self@.arms, r as int),
    {
        let n = self.slots.len();
        let mut best: usize = 0;
        let mut k: usize = 1;
        while k < n
            invariant
                1 <= k <= n,
                best < k,
                forall|j: int|
                    0 <= j < k ==> !slot_gt(
                        self@.arms,
                        #[trigger] self@.slots[j],
                        self@.slots[best as int],
                    ),
                forall|j: int|
                    0 <= j < best ==> slot_gt(
                        self@.arms,
                        self@.slots[best as int],
                        #[trigger] self@.slots[j],
                    ),
            decreases n - k,
        {
            if self.slot_better(k, best) {
                proof {
                    let arms = self@.arms;
                    let slots = self@.slots;
                    assert forall|j: int| 0 <= j < k implies slot_gt(
                        arms,
                        slots[k as int],
                        #[trigger] slots[j],
                    ) by {
                        let sk = arm_stats(arms, slots[k as int]);
                        let sb = arm_stats(arms, slots[best as int]);
                        let sj = arm_stats(arms, slots[j]);
                        lemma_ratio_trans(
                            eff_num(sk.0, sk.1),
                            eff_den(sk.0),
                            eff_num(sb.0, sb.1),
                            eff_den(sb.0),
                            eff_num(sj.0, sj.1),
                            eff_den(sj.0),
                        );
                    }
                }
                best = k;
            }
            k += 1;
        }
        best
    }
}

impl RemindBandit {
    /// Choose a slot: sanitize, then explore with probability epsilon
    /// (uniform over the slots) and exploit otherwise (earliest slot of
    /// highest exact average reward). Never fails: a fallback decision
    /// covers the empty-slot case, though sanitizing rules it out.
    pub fn decide(&mut self, ctx: &Context) -> (d: Decision)
        ensures
            decide_ensures(old(self)@, final(self)@, ctx@, d@),
    {
        self.sanitize();
        if self.slots.len() == 0 {
            return crate::policy::fallback_decision("no slots available", ctx);
        }
        let roll = draw_micros();
        let explore = (roll as i64) < self.epsilon.micros;
        let idx: usize;
        let why: &str;
        if explore {
            idx = draw_index(self.slots.len());
            why = "explore ε";
        } else {
            idx = self.best_slot_index();
            why = "exploit";
        }
        let label: String = self.slots[idx].clone();
        let score = self.get_average_reward(label.as_str());
        let action = prefixed_action(label.as_str());
        let d = crate::policy::make_decision(action, score, why, ctx);
        proof {
            let st = self@;
            assert(label@ == st.slots[idx as int]);
            if explore {
                assert(0 <= idx < st.slots.len() && crate::policy::decision_shape(
                    d@,
                    remind_action(st.slots[idx as int]),
                    arm_avg(st.arms, st.slots[idx as int]),
                    "explore ε"@,
                    ctx@,
                ));
            } else {
                assert(exploit_choice_ok(st.slots, st.arms, idx as int)
                    && crate::policy::decision_shape(
                    d@,
                    remind_action(st.slots[idx as int]),
                    arm_avg(st.arms, st.slots[idx as int]),
                    "exploit"@,
                    ctx@,
                ));
            }
        }
        d
    }

    /// Record a reward for an action. Malformed input is absorbed: a
    /// non-finite or out-of-domain reward, an action without the
    /// `"remind."` prefix, or a pull counter at capacity leave the state
    /// untouched. A reward for an unknown arm registers it.
    pub fn feedback(&mut self, _ctx: &Context, action: &str, reward: Option<Fixed>)
        ensures
            feedback_ensures(old(self)@, final(self)@, action@, opt_micros(reward)),
    {
        let f = match reward {
            Some(f) => f,
            None => {
                return ;
            },
        };
        if f.micros > MAX_REWARD_MICROS || f.micros < -MAX_REWARD_MICROS {
            return ;
        }
        let label: String = match strip_remind_prefix(action) {
            Some(l) => l,
            None => {
                return ;
            },
        };
        let ghost b = self@;
        let ghost l = label@;
        match self.find_index(label.as_str()) {
            Some(i) => {
                if self.values[i].pulls == u32::MAX {
                    return ;
                }
                let updated = self.values[i].recorded(f.micros);
                self.values.set(i, updated);
                proof {
                    lemma_record_arms_update(b.arms, l, f.as_int(), i as int);
                    assert(arms_model(self.values@) =~= record_arms(b.arms, l, f.as_int()));
                }
            },
            None => {
                let arm = ArmStats::new_arm(label.clone(), f.micros);
                self.values.push(arm);
                proof {
                    lemma_record_arms_append(b.arms, l, f.as_int());
                    assert(arms_model(self.values@) =~= record_arms(b.arms, l, f.as_int()));
                }
            },
        }
        if !slot_known(&self.slots, label.as_str()) {
            self.slots.push(label);
            proof {
                assert(strs_model(self.slots@) =~= b.slots.push(l));
            }
        }
    }
}

impl RemindBandit {
    /// Export the current state as a contract snapshot object, stamped
    /// with the current time.
    pub fn to_contract_snapshot(&self) -> (v: JsonValue)
        ensures
            exists|ts: Seq<char>|
                #![auto]
                v@ == crate::codec::snap_json(crate::codec::snapshot_spec(self@, ts)),
    {
        let mut arms: Vec<String>;
        if self.slots.len() == 0 {
            arms = default_slots();
        } else {
            arms = Vec::new();
            let mut i: usize = 0;
            while i < self.slots.len()
                invariant
                    i <= self.slots@.len(),
                    arms@.len() == i,
                    forall|j: int| 0 <= j < i ==> arms@[j]@ == self@.slots[j],
                decreases self.slots@.len() - i,
            {
                arms.push(self.slots[i].clone());
                i += 1;
            }
        }
        proof {
            assert(strs_model(arms@) =~= crate::codec::export_arms(self@));
        }
        let n = arms.len();
        let mut counts: Vec<u32> = Vec::new();
        let mut values: Vec<Fixed> = Vec::new();
        let mut i: usize = 0;
        while i < n
            invariant
                i <= n,
                n == arms@.len(),
                strs_model(arms@) == crate::codec::export_arms(self@),
                counts@.len() == i,
                values@.len() == i,
                forall|j: int|
                    0 <= j < i ==> #[trigger] counts@[j] as int == arm_stats(
                        self@.arms,
                        strs_model(arms@)[j],
                    ).0,
                forall|j: int|
                    0 <= j < i ==> (#[trigger] values@[j]).as_int() == arm_avg(
                        self@.arms,
                        strs_model(arms@)[j],
                    ),
            decreases n - i,
        {
            let st = self.lookup_stats(arms[i].as_str());
            counts.push(st.0);
            values.push(self.get_average_reward(arms[i].as_str()));
            i += 1;
        }
        let snap = crate::codec::ContractSnapshot {
            version: crate::codec::SNAPSHOT_VERSION.to_owned(),
            policy_id: crate::codec::POLICY_ID.to_owned(),
            ts: crate::codec::now_rfc3339(),
            arms,
            counts,
            values,
            epsilon: clamp_unit(self.epsilon),
        };
        proof {
            let sv = crate::codec::snapshot_spec(self@, snap.ts@);
            assert(crate::codec::counts_model(snap.counts@) =~= sv.counts);
            assert(crate::codec::fixeds_model(snap.values@) =~= sv.values);
            assert(snap@ == sv);
        }
        crate::codec::contract_json(&snap)
    }

    /// Import a snapshot. A valid contract snapshot replaces the state
    /// wholesale; a legacy direct-state form is adopted and sanitized;
    /// anything else leaves the state untouched.
    pub fn load(&mut self, v: JsonValue)
        ensures
            final(self)@ == crate::codec::load_result(old(self)@, v@),
    {
        match crate::codec::parse_contract_snapshot(&v) {
            Some(snap) => {
                let pid: String = crate::codec::POLICY_ID.to_owned();
                if !(snap.policy_id == pid) {
                    return ;
                }
                if snap.arms.len() == 0 {
                    return ;
                }
                if snap.counts.len() != snap.arms.len() {
                    return ;
                }
                if snap.values.len() != snap.arms.len() {
                    return ;
                }
                assert(crate::codec::contract_valid(snap@));
                self.epsilon = clamp_unit(snap.epsilon);
                let n = snap.arms.len();
                let mut values: Vec<ArmStats> = Vec::new();
                let mut i: usize = 0;
                while i < n
                    invariant
                        i <= n,
                        n == snap.arms@.len(),
                        snap.counts@.len() == n,
                        snap.values@.len() == n,
                        forall|j: int|
                            0 <= j < snap@.values.len() ==> crate::codec::value_ok(
                                #[trigger] snap@.values[j],
                            ),
                        values@.len() == i,
                        forall|k: int|
                            0 <= k < i ==> #[trigger] arms_model(values@)[k]
                                == crate::codec::loaded_arm(snap@, n - 1 - k),
                    decreases n - i,
                {
                    let j = n - 1 - i;
                    let label = snap.arms[j].clone();
                    let pulls = snap.counts[j];
                    let avg = snap.values[j];
                    proof {
                        assert(snap@.values[j as int] == avg.as_int());
                        assert(crate::codec::value_ok(snap@.values[j as int]));
                        assert(snap@.counts[j as int] == pulls as int);
                    }
                    let total: i128 = if pulls > 0 {
                        proof {
                            lemma_scaled_total_in_range(pulls as int, avg.as_int());
                        }
                        (avg.micros as i128) * (pulls as i128)
                    } else {
                        0
                    };
                    proof {
                        lemma_scaled_total_in_range(pulls as int, avg.as_int());
                    }
                    let ghost prev = values@;
                    values.push(ArmStats { label, pulls, total_micros: total });
                    proof {
                        assert forall|k: int| 0 <= k < i + 1 implies #[trigger]
                            arms_model(values@)[k] == crate::codec::loaded_arm(
                            snap@,
                            n - 1 - k,
                        ) by {
                            if k < i {
                                assert(values@[k] == prev[k]);
                                assert(arms_model(prev)[k] == crate::codec::loaded_arm(
                                    snap@,
                                    n - 1 - k,
                                ));
                                assert(arms_model(values@)[k] == arms_model(prev)[k]);
                            } else {
                                assert(arms_model(values@)[k] == values@[k]@);
                            }
                        }
                    }
                    i += 1;
                }
                self.values = values;
                self.slots = snap.arms;
                proof {
                    assert(arms_model(self.values@) =~= crate::codec::loaded_arms(snap@));
                    assert(self@ == crate::codec::apply_contract(snap@));
                }
            },
            None => {
                match crate::codec::parse_legacy_state(&v) {
                    Some(st) => {
                        let ghost lb = st@;
                        self.epsilon = st.epsilon;
                        let n = st.arms.len();
                        let mut values: Vec<ArmStats> = Vec::new();
                        let mut i: usize = 0;
                        while i < n
                            invariant
                                i <= n,
                                n == st.arms@.len(),
                                forall|j: int|
                                    0 <= j < st.arms@.len() ==> arm_in_range(
                                        (#[trigger] st.arms@[j]).1 as int,
                                        st.arms@[j].2 as int,
                                    ),
                                values@.len() == i,
                                forall|k: int|
                                    0 <= k < i ==> #[trigger] arms_model(values@)[k]
                                        == crate::codec::triples_model(st.arms@)[k],
                            decreases n - i,
                        {
                            let triple = &st.arms[i];
                            let ghost prev = values@;
                            values.push(
                                ArmStats {
                                    label: triple.0.clone(),
                                    pulls: triple.1,
                                    total_micros: triple.2 as i128,
                                },
                            );
                            proof {
                                assert forall|k: int| 0 <= k < i + 1 implies #[trigger]
                                    arms_model(values@)[k] == crate::codec::triples_model(
                                    st.arms@,
                                )[k] by {
                                    if k < i {
                                        assert(values@[k] == prev[k]);
                                        assert(arms_model(prev)[k]
                                            == crate::codec::triples_model(st.arms@)[k]);
                                        assert(arms_model(values@)[k] == arms_model(prev)[k]);
                                    } else {
                                        assert(arms_model(values@)[k] == values@[k]@);
                                    }
                                }
                            }
                            i += 1;
                        }
                        self.values = values;
                        self.slots = st.slots;
                        proof {
                            assert(arms_model(self.values@) =~= crate::codec::triples_model(
                                st.arms@,
                            ));
                            assert(self@ == lb);
                        }
                        self.sanitize();
                    },
                    None => {},
                }
            },
        }
    }
}

impl crate::policy::Policy for RemindBandit {
    /// Choose a slot by the epsilon-greedy rule; see the inherent method.
    fn decide(&mut self, ctx: &Context) -> (d: Decision)
        ensures
            decide_ensures(old(self)@, final(self)@, ctx@, d@),
    {
        self.decide(ctx)
    }

    /// Record a reward; see the inherent method.
    fn feedback(&mut self, ctx: &Context, action: &str, reward: Option<Fixed>)
        ensures
            feedback_ensures(old(self)@, final(self)@, action@, opt_micros(reward)),
    {
        self.feedback(ctx, action, reward)
    }

    /// Export the state as a contract snapshot.
    fn snapshot(&self) -> (v: JsonValue)
        ensures
            exists|ts: Seq<char>|
                #![auto]
                v@ == crate::codec::snap_json(crate::codec::snapshot_spec(self@, ts)),
    {
        self.to_contract_snapshot()
    }

    /// Import a snapshot; see the inherent method.
    fn load(&mut self, snapshot: JsonValue)
        ensures
            final(self)@ == crate::codec::load_result(old(self)@, snapshot@),
    {
        self.load(snapshot)
    }
}

/// A value in the reward domain scaled by a pull count stays within the
/// range every reachable arm obeys.
proof fn lemma_scaled_total_in_range(p: int, a: int)
    requires
        0 <= p <= u32::MAX as int,
        -(MAX_REWARD_MICROS as int) <= a <= MAX_REWARD_MICROS as int,
    ensures
        arm_in_range(p, a * p),
{
    assert(-p * (MAX_REWARD_MICROS as int) <= a * p <= p * (MAX_REWARD_MICROS as int))
        by (nonlinear_arith)
        requires
            0 <= p,
            -(MAX_REWARD_MICROS as int) <= a <= MAX_REWARD_MICROS as int,
    ;
}

/// A product of a bounded total and a pull-count denominator stays far
/// inside the `i128` range.
proof fn lemma_cross_mul_in_i128(n: int, d: int)
    requires
        -(u32::MAX as int) * (MAX_REWARD_MICROS as int) <= n <= (u32::MAX as int) * (
        MAX_REWARD_MICROS as int),
        1 <= d <= u32::MAX as int,
    ensures
        i128::MIN <= n * d <= i128::MAX,
{
    assert(i128::MIN <= n * d <= i128::MAX) by (nonlinear_arith)
        requires
            -(u32::MAX as int) * (MAX_REWARD_MICROS as int) <= n <= (u32::MAX as int) * (
            MAX_REWARD_MICROS as int),
            1 <= d <= u32::MAX as int,
    ;
}

/// A bounded total keeps its floor average within the reward bound.
pub proof fn lemma_avg_in_reward_range(pulls: int, total: int)
    requires
        0 < pulls,
        arm_in_range(pulls, total),
    ensures
        -(MAX_REWARD_MICROS as int) <= total / pulls <= MAX_REWARD_MICROS as int,
{
    let m = MAX_REWARD_MICROS as int;
    vstd::arithmetic::div_mod::lemma_div_is_ordered(total, pulls * m, pulls);
    vstd::arithmetic::div_mod::lemma_div_is_ordered(-pulls * m, total, pulls);
    vstd::arithmetic::div_mod::lemma_div_multiples_vanish(m, pulls);
    vstd::arithmetic::div_mod::lemma_div_multiples_vanish(-m, pulls);
    assert(pulls * m == m * pulls) by (nonlinear_arith);
    assert(-pulls * m == pulls * -m) by (nonlinear_arith);
    assert(pulls * -m == -m * pulls) by (nonlinear_arith);
}

} // verus!
