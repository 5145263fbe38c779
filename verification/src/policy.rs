//! The request/response contract between a caller and a decision policy.
//!
//! A [`Context`] describes the situation a decision is wanted for; a
//! [`Decision`] is the policy's answer. The [`Policy`] trait is the
//! capability any decision strategy must expose: decide, accept feedback,
//! and export or import persisted state.

use vstd::prelude::*;

use crate::fixed::Fixed;
use crate::json::{fields_model, JsonV, JsonValue};

verus! {

broadcast use vstd::std_specs::vec::group_vec_axioms;

/// Situational input for one decision. The policy never branches on
/// `features`; it only echoes the value back for audit.
#[derive(Debug)]
pub struct Context {
    /// Free-form category of the situation (for example `"reminder"`).
    pub kind: String,
    /// Arbitrary structured payload, carried through untouched.
    pub features: JsonValue,
}

/// The mathematical shape of a [`Context`].
pub struct CtxV {
    pub kind: Seq<char>,
    pub features: JsonV,
}

impl View for Context {
    type V = CtxV;

    open spec fn view(&self) -> CtxV {
        CtxV { kind: self.kind@, features: self.features@ }
    }
}

/// The serialized form of a context: an object with its `kind` and
/// `features` fields.
pub open spec fn context_json(c: CtxV) -> JsonV {
    JsonV::Obj(seq![("kind"@, JsonV::Str(c.kind)), ("features"@, c.features)])
}

/// Serialize a context for the audit echo of a decision. In this model
/// serialization cannot fail, so the result is always present.
pub(crate) fn serialize_context(ctx: &Context) -> (r: Option<JsonValue>)
    ensures
        r matches Some(v) && v@ == context_json(ctx@),
{
    let fields: Vec<(String, JsonValue)> = vec![
        ("kind".to_owned(), JsonValue::Str(ctx.kind.clone())),
        ("features".to_owned(), ctx.features.duplicate()),
    ];
    let v = JsonValue::Obj(fields);
    proof {
        assert(fields_model(fields@) =~= seq![
            ("kind"@, JsonV::Str(ctx.kind@)),
            ("features"@, ctx.features@),
        ]);
    }
    Some(v)
}

/// The shapes of a list of strings.
pub open spec fn strs_model(items: Seq<String>) -> Seq<Seq<char>> {
    Seq::new(items.len(), |i: int| items[i]@)
}

/// A policy's answer for one context.
#[derive(Debug)]
pub struct Decision {
    /// The chosen action, namespaced as `"remind.<slot>"`.
    pub action: String,
    /// The policy's value estimate for the chosen action.
    pub score: Fixed,
    /// Ordered human-readable rationale entries.
    pub why: Vec<String>,
    /// Best-effort serialized copy of the input context.
    pub context: Option<JsonValue>,
    /// Echo of the action, kept for schema compliance.
    pub chosen: Option<String>,
}

/// The mathematical shape of a [`Decision`].
pub struct DecV {
    pub action: Seq<char>,
    pub score: int,
    pub why: Seq<Seq<char>>,
    pub context: Option<JsonV>,
    pub chosen: Option<Seq<char>>,
}

impl View for Decision {
    type V = DecV;

    open spec fn view(&self) -> DecV {
        DecV {
            action: self.action@,
            score: self.score.as_int(),
            why: strs_model(self.why@),
            context: match self.context {
                Some(v) => Some(v@),
                None => None,
            },
            chosen: match self.chosen {
                Some(s) => Some(s@),
                None => None,
            },
        }
    }
}

/// A decision with action `action`, score `score`, a single rationale entry
/// `why`, the serialized echo of `ctx`, and the action echoed in `chosen`.
pub open spec fn decision_shape(d: DecV, action: Seq<char>, score: int, why: Seq<char>, ctx: CtxV) -> bool {
    &&& d.action == action
    &&& d.score == score
    &&& d.why == seq![why]
    &&& d.context == Some(context_json(ctx))
    &&& d.chosen == Some(action)
}

/// Build a decision from its parts, echoing the action in `chosen`.
pub(crate) fn make_decision(action: String, score: Fixed, why: &str, ctx: &Context) -> (d: Decision)
    ensures
        decision_shape(d@, action@, score.as_int(), why@, ctx@),
{
    let chosen = action.clone();
    let why_list: Vec<String> = vec![why.to_owned()];
    let d = Decision {
        action,
        score,
        why: why_list,
        context: serialize_context(ctx),
        chosen: Some(chosen),
    };
    proof {
        assert(strs_model(d.why@) =~= seq![why@]);
    }
    d
}

/// The stable fallback decision: action `"remind.none"`, score zero, and
/// the reason for falling back as the single rationale entry.
pub fn fallback_decision(reason: &str, ctx: &Context) -> (d: Decision)
    ensures
        decision_shape(d@, "remind.none"@, 0, reason@, ctx@),
{
    make_decision("remind.none".to_owned(), Fixed::zero(), reason, ctx)
}

/// The capability any decision strategy must expose. A policy never fails
/// outward: `decide` always returns a decision, malformed feedback and
/// malformed snapshots are absorbed, and `load` either replaces the state
/// as a whole or leaves it untouched.
pub trait Policy {
    /// Choose an action for the given context.
    fn decide(&mut self, ctx: &Context) -> Decision;

    /// Record the reward observed for an earlier action. `None` stands for
    /// a non-finite reward, which is ignored.
    fn feedback(&mut self, ctx: &Context, action: &str, reward: Option<Fixed>);

    /// Export the current state as a versioned snapshot value.
    fn snapshot(&self) -> JsonValue;

    /// Import a snapshot, replacing the state wholesale; invalid input
    /// leaves the state unchanged.
    fn load(&mut self, snapshot: JsonValue);
}

} // verus!
