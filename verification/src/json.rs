//! A closed model of JSON-like structured values.
//!
//! The engine exchanges snapshots and context payloads as structured values:
//! a closed sum of null, boolean, number, string, array and object. Numbers
//! are carried as micro-unit fixed-point values ([`Fixed`]), the engine's
//! numeric domain. Object fields keep their order, and lookup takes the
//! first field with a matching key.

use vstd::prelude::*;

use crate::fixed::Fixed;

verus! {

broadcast use vstd::std_specs::vec::group_vec_axioms;

/// The mathematical shape of a structured value: strings become character
/// sequences and numbers their micro-unit count.
pub enum JsonV {
    Null,
    Bool(bool),
    Num(int),
    Str(Seq<char>),
    Arr(Seq<JsonV>),
    Obj(Seq<(Seq<char>, JsonV)>),
}

/// A JSON-like structured value, the engine's wire currency.
#[derive(Debug, PartialEq)]
pub enum JsonValue {
    Null,
    Bool(bool),
    Num(Fixed),
    Str(String),
    Arr(Vec<JsonValue>),
    Obj(Vec<(String, JsonValue)>),
}

/// The shapes of an array's elements.
pub open spec fn arr_model(items: Seq<JsonValue>) -> Seq<JsonV>
    decreases items,
{
    Seq::new(
        items.len(),
        |i: int|
            if 0 <= i < items.len() {
                items[i]@
            } else {
                JsonV::Null
            },
    )
}

/// The shapes of an object's fields.
pub open spec fn fields_model(fields: Seq<(String, JsonValue)>) -> Seq<(Seq<char>, JsonV)>
    decreases fields,
{
    Seq::new(
        fields.len(),
        |i: int|
            if 0 <= i < fields.len() {
                (fields[i].0@, fields[i].1@)
            } else {
                (Seq::empty(), JsonV::Null)
            },
    )
}

impl View for JsonValue {
    type V = JsonV;

    open spec fn view(&self) -> JsonV
        decreases self,
    {
        match self {
            JsonValue::Null => JsonV::Null,
            JsonValue::Bool(b) => JsonV::Bool(*b),
            JsonValue::Num(f) => JsonV::Num(f.as_int()),
            JsonValue::Str(s) => JsonV::Str(s@),
            JsonValue::Arr(items) => JsonV::Arr(arr_model(items@)),
            JsonValue::Obj(fields) => JsonV::Obj(fields_model(fields@)),
        }
    }
}

/// A value's shape has the same variant as the value.
pub proof fn lemma_view_variant(v: JsonValue)
    ensures
        v@ is Null <==> v is Null,
        v@ is Bool <==> v is Bool,
        v@ is Num <==> v is Num,
        v@ is Str <==> v is Str,
        v@ is Arr <==> v is Arr,
        v@ is Obj <==> v is Obj,
{
    match v {
        JsonValue::Null => {},
        JsonValue::Bool(_) => {},
        JsonValue::Num(_) => {},
        JsonValue::Str(_) => {},
        JsonValue::Arr(_) => {},
        JsonValue::Obj(_) => {},
    }
}

/// First field of `fields` whose key is `key`, if any.
pub open spec fn obj_get(fields: Seq<(Seq<char>, JsonV)>, key: Seq<char>) -> Option<JsonV>
    decreases fields.len(),
{
    if fields.len() == 0 {
        None
    } else if fields[0].0 == key {
        Some(fields[0].1)
    } else {
        obj_get(fields.drop_first(), key)
    }
}

/// `obj_get` hits index `i` exactly when `i` is the first match.
pub proof fn lemma_obj_get_first_match(fields: Seq<(Seq<char>, JsonV)>, key: Seq<char>, i: int)
    requires
        0 <= i < fields.len(),
        fields[i].0 == key,
        forall|j: int| 0 <= j < i ==> fields[j].0 != key,
    ensures
        obj_get(fields, key) == Some(fields[i].1),
    decreases fields.len(),
{
    if i > 0 {
        lemma_obj_get_first_match(fields.drop_first(), key, i - 1);
    }
}

/// `obj_get` misses when no field carries the key.
pub proof fn lemma_obj_get_no_match(fields: Seq<(Seq<char>, JsonV)>, key: Seq<char>)
    requires
        forall|j: int| 0 <= j < fields.len() ==> fields[j].0 != key,
    ensures
        obj_get(fields, key) == None::<JsonV>,
    decreases fields.len(),
{
    if fields.len() > 0 {
        lemma_obj_get_no_match(fields.drop_first(), key);
    }
}

impl JsonValue {
    /// Value of the first object field named `key`; `None` when `self` is
    /// not an object or has no such field.
    #[verifier::loop_isolation(false)]
    pub fn get<'a>(&'a self, key: &str) -> (r: Option<&'a JsonValue>)
        ensures
            match self@ {
                JsonV::Obj(fs) => match r {
                    Some(v) => obj_get(fs, key@) == Some(v@),
                    None => obj_get(fs, key@) == None::<JsonV>,
                },
                _ => r is None,
            },
    {
        match self {
            JsonValue::Obj(fields) => {
                let k: String = key.to_owned();
                let mut i: usize = 0;
                while i < fields.len()
                    invariant
                        i <= fields.len(),
                        k@ == key@,
                        forall|j: int| 0 <= j < i ==> fields@[j].0@ != key@,
                    decreases fields.len() - i,
                {
                    let pair = &fields[i];
                    if pair.0 == k {
                        proof {
                            lemma_obj_get_first_match(fields_model(fields@), key@, i as int);
                        }
                        return Some(&pair.1);
                    }
                    i += 1;
                }
                proof {
                    lemma_obj_get_no_match(fields_model(fields@), key@);
                }
                None
            },
            _ => None,
        }
    }

    /// A structurally equal copy.
    #[verifier::loop_isolation(false)]
    pub fn duplicate(&self) -> (r: Self)
        ensures
            r@ == self@,
        decreases *self,
    {
        match self {
            JsonValue::Null => JsonValue::Null,
            JsonValue::Bool(b) => JsonValue::Bool(*b),
            JsonValue::Num(f) => JsonValue::Num(*f),
            JsonValue::Str(s) => JsonValue::Str(s.clone()),
            JsonValue::Arr(items) => {
                let mut out: Vec<JsonValue> = Vec::new();
                let mut i: usize = 0;
                while i < items.len()
                    invariant
                        i <= items.len(),
                        out@.len() == i,
                        forall|j: int| 0 <= j < i ==> out@[j]@ == items@[j]@,
                    decreases items.len() - i,
                {
                    out.push(items[i].duplicate());
                    i += 1;
                }
                let r = JsonValue::Arr(out);
                proof {
                    assert(arr_model(out@) =~= arr_model(items@));
                }
                r
            },
            JsonValue::Obj(fields) => {
                let mut out: Vec<(String, JsonValue)> = Vec::new();
                let mut i: usize = 0;
                while i < fields.len()
                    invariant
                        i <= fields.len(),
                        out@.len() == i,
                        forall|j: int| 0 <= j < i ==> out@[j].0@ == fields@[j].0@
                            && out@[j].1@ == fields@[j].1@,
                    decreases fields.len() - i,
                {
                    let pair = &fields[i];
                    out.push((pair.0.clone(), pair.1.duplicate()));
                    i += 1;
                }
                let r = JsonValue::Obj(out);
                proof {
                    assert(fields_model(out@) =~= fields_model(fields@));
                }
                r
            },
        }
    }
}

} // verus!
