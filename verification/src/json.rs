//! The JSON value model that the frame projection, the schema catalogue, the
//! wire codec and the tool arguments share.  Numbers are restricted to signed
//! 64-bit integers: every number the control plane itself produces (sequence
//! counters, timestamps, exit codes, byte counts) fits there, and the codec
//! rejects anything else rather than lose precision.

use vstd::prelude::*;

verus! {

broadcast use vstd::std_specs::vec::group_vec_axioms, vstd::seq::group_seq_axioms;

/// An owned JSON value.  Object fields keep their insertion order.
#[derive(Debug)]
pub enum Json {
    Null,
    Bool(bool),
    Int(i64),
    Str(String),
    Arr(Vec<Json>),
    Obj(Vec<(String, Json)>),
}

/// The mathematical model of a [`Json`] value.
pub enum JsonV {
    Null,
    Bool(bool),
    Int(int),
    Str(Seq<char>),
    Arr(Seq<JsonV>),
    Obj(Seq<(Seq<char>, JsonV)>),
}

/// Model of a sequence of JSON values, element by element.
pub open spec fn json_seq_view(items: Seq<Json>) -> Seq<JsonV>
    decreases items,
{
    if items.len() == 0 {
        Seq::empty()
    } else {
        seq![items[0].view()] + json_seq_view(items.drop_first())
    }
}

/// Model of a sequence of JSON object fields, element by element.
pub open spec fn json_fields_view(fields: Seq<(String, Json)>) -> Seq<(Seq<char>, JsonV)>
    decreases fields,
{
    if fields.len() == 0 {
        Seq::empty()
    } else {
        seq![(fields[0].0.view(), fields[0].1.view())] + json_fields_view(fields.drop_first())
    }
}

impl View for Json {
    type V = JsonV;

    open spec fn view(&self) -> JsonV
        decreases self,
    {
        match self {
            Json::Null => JsonV::Null,
            Json::Bool(b) => JsonV::Bool(*b),
            Json::Int(i) => JsonV::Int(*i as int),
            Json::Str(s) => JsonV::Str(s@),
            Json::Arr(items) => JsonV::Arr(json_seq_view(items@)),
            Json::Obj(fields) => JsonV::Obj(json_fields_view(fields@)),
        }
    }
}

/// The element models of a sequence of values line up one to one.
pub broadcast proof fn lemma_json_seq_view(items: Seq<Json>)
    ensures
        #[trigger] json_seq_view(items).len() == items.len(),
        forall|i: int|
            0 <= i < items.len() ==> #[trigger] json_seq_view(items)[i] == items[i]@,
    decreases items.len(),
{
    if items.len() > 0 {
        lemma_json_seq_view(items.drop_first());
        let head = seq![items[0]@];
        let tail = json_seq_view(items.drop_first());
        assert(json_seq_view(items) == head + tail);
        assert(json_seq_view(items).len() == items.len());
        assert forall|i: int| 0 <= i < items.len() implies #[trigger] json_seq_view(items)[i]
            == items[i]@ by {
            if i > 0 {
                assert((head + tail)[i] == tail[i - 1]);
                assert(items.drop_first()[i - 1] == items[i]);
            }
        }
    }
}

/// The field models of a sequence of object fields line up one to one.
pub broadcast proof fn lemma_json_fields_view(fields: Seq<(String, Json)>)
    ensures
        #[trigger] json_fields_view(fields).len() == fields.len(),
        forall|i: int|
            0 <= i < fields.len() ==> #[trigger] json_fields_view(fields)[i] == (
            fields[i].0@,
            fields[i].1@,
            ),
    decreases fields.len(),
{
    if fields.len() > 0 {
        lemma_json_fields_view(fields.drop_first());
        let head = seq![(fields[0].0@, fields[0].1@)];
        let tail = json_fields_view(fields.drop_first());
        assert(json_fields_view(fields) == head + tail);
        assert(json_fields_view(fields).len() == fields.len());
        assert forall|i: int| 0 <= i < fields.len() implies #[trigger] json_fields_view(fields)[i]
            == (fields[i].0@, fields[i].1@) by {
            if i > 0 {
                assert((head + tail)[i] == tail[i - 1]);
                assert(fields.drop_first()[i - 1] == fields[i]);
            }
        }
    }
}

/// The value under `key` among `fields`, taking the first field with that
/// name, as an object lookup does.
pub open spec fn field_lookup(fields: Seq<(Seq<char>, JsonV)>, key: Seq<char>) -> Option<JsonV>
    decreases fields,
{
    if fields.len() == 0 {
        None
    } else if fields[0].0 == key {
        Some(fields[0].1)
    } else {
        field_lookup(fields.drop_first(), key)
    }
}

/// The value under `key` when `v` is an object holding that key.
pub open spec fn obj_get(v: JsonV, key: Seq<char>) -> Option<JsonV> {
    match v {
        JsonV::Obj(fields) => field_lookup(fields, key),
        _ => None,
    }
}

/// Some entry of the list reads exactly `m`.
pub open spec fn has_msg(errs: Seq<String>, m: Seq<char>) -> bool {
    exists|k: int| 0 <= k < errs.len() && (#[trigger] errs[k])@ == m
}

/// Copies a string, keeping its characters.
pub fn clone_string(s: &String) -> (r: String)
    ensures
        r@ == s@,
{
    String::from_str(s.as_str())
}

/// Compares two string slices by their characters.
pub fn str_eq(a: &str, b: &str) -> (r: bool)
    ensures
        r == (a@ == b@),
{
    let sa: String = String::from_str(a);
    let sb: String = String::from_str(b);
    sa == sb
}

/// Compares a string value with a literal by characters.
pub fn string_is(s: &String, lit: &str) -> (r: bool)
    ensures
        r == (s@ == lit@),
{
    str_eq(s.as_str(), lit)
}

impl Clone for Json {
    /// Copies the value, keeping its model.
    fn clone(&self) -> (res: Self)
        ensures
            res@ == self@,
    {
        self.duplicate()
    }
}

impl Json {
    /// Copies the value, keeping its model.
    #[verifier::loop_isolation(false)]
    pub fn duplicate(&self) -> (r: Json)
        ensures
            r@ == self@,
        decreases self,
    {
        match self {
            Json::Null => Json::Null,
            Json::Bool(b) => Json::Bool(*b),
            Json::Int(i) => Json::Int(*i),
            Json::Str(s) => Json::Str(clone_string(s)),
            Json::Arr(items) => {
                let n = items.len();
                let mut out: Vec<Json> = Vec::new();
                let mut i: usize = 0;
                while i < n
                    invariant
                        0 <= i <= n,
                        out@.len() == i,
                        json_seq_view(out@) =~= json_seq_view(items@.take(i as int)),
                    decreases n - i,
                {
                    let ghost pre = out@;
                    let d = items[i].duplicate();
                    out.push(d);
                    proof {
                        lemma_json_seq_view(pre);
                        lemma_json_seq_view(out@);
                        lemma_json_seq_view(items@.take(i as int));
                        lemma_json_seq_view(items@.take(i + 1));
                        assert forall|k: int| 0 <= k < i + 1 implies #[trigger] json_seq_view(
                            out@,
                        )[k] == json_seq_view(items@.take(i + 1))[k] by {
                            if k < i {
                                assert(out@[k] == pre[k]);
                                assert(json_seq_view(pre)[k] == json_seq_view(
                                    items@.take(i as int),
                                )[k]);
                            } else {
                                assert(out@[k] == d);
                            }
                        }
                        assert(json_seq_view(out@) =~= json_seq_view(items@.take(i + 1)));
                    }
                    i = i + 1;
                }
                proof {
                    assert(items@.take(n as int) =~= items@);
                }
                Json::Arr(out)
            },
            Json::Obj(fields) => {
                let n = fields.len();
                let mut out: Vec<(String, Json)> = Vec::new();
                let mut i: usize = 0;
                while i < n
                    invariant
                        0 <= i <= n,
                        out@.len() == i,
                        json_fields_view(out@) =~= json_fields_view(fields@.take(i as int)),
                    decreases n - i,
                {
                    let ghost pre = out@;
                    let key = clone_string(&fields[i].0);
                    let val = fields[i].1.duplicate();
                    out.push((key, val));
                    proof {
                        lemma_json_fields_view(pre);
                        lemma_json_fields_view(out@);
                        lemma_json_fields_view(fields@.take(i as int));
                        lemma_json_fields_view(fields@.take(i + 1));
                        assert forall|k: int| 0 <= k < i + 1 implies #[trigger] json_fields_view(
                            out@,
                        )[k] == json_fields_view(fields@.take(i + 1))[k] by {
                            if k < i {
                                assert(out@[k] == pre[k]);
                                assert(json_fields_view(pre)[k] == json_fields_view(
                                    fields@.take(i as int),
                                )[k]);
                            } else {
                                assert(out@[k] == (key, val));
                            }
                        }
                        assert(json_fields_view(out@) =~= json_fields_view(fields@.take(i + 1)));
                    }
                    i = i + 1;
                }
                proof {
                    assert(fields@.take(n as int) =~= fields@);
                }
                Json::Obj(out)
            },
        }
    }

    /// Wraps a string slice as a JSON string.
    pub fn str(s: &str) -> (r: Json)
        ensures
            r@ == JsonV::Str(s@),
    {
        Json::Str(String::from_str(s))
    }

    /// True when the value is a string.
    pub fn is_string(&self) -> (r: bool)
        ensures
            r == (self@ is Str),
    {
        match self {
            Json::Str(_) => true,
            _ => false,
        }
    }

    /// The characters of the value when it is a string.
    pub fn as_str(&self) -> (r: Option<&String>)
        ensures
            match r {
                Some(s) => self@ == JsonV::Str(s@),
                None => !(self@ is Str),
            },
    {
        match self {
            Json::Str(s) => Some(s),
            _ => None,
        }
    }

    /// Looks a key up when the value is an object, taking the first field
    /// with that name.
    pub fn get(&self, key: &str) -> (r: Option<&Json>)
        ensures
            match r {
                Some(v) => obj_get(self@, key@) == Some(v@),
                None => obj_get(self@, key@) is None,
            },
    {
        match self {
            Json::Obj(fields) => {
                let n = fields.len();
                let mut i: usize = 0;
                proof {
                    assert(fields@.skip(0) =~= fields@);
                }
                while i < n
                    invariant
                        n == fields.len(),
                        0 <= i <= n,
                        self@ == JsonV::Obj(json_fields_view(fields@)),
                        field_lookup(json_fields_view(fields@), key@) == field_lookup(
                            json_fields_view(fields@.skip(i as int)),
                            key@,
                        ),
                    decreases n - i,
                {
                    proof {
                        lemma_json_fields_view(fields@.skip(i as int));
                        assert(fields@.skip(i as int)[0] == fields@[i as int]);
                    }
                    if string_is(&fields[i].0, key) {
                        proof {
                            let s = fields@.skip(i as int);
                            assert(json_fields_view(s)[0] == (
                                fields@[i as int].0@,
                                fields@[i as int].1@,
                            ));
                            assert(field_lookup(json_fields_view(s), key@) == Some(
                                fields@[i as int].1@,
                            ));
                            assert(obj_get(self@, key@) == field_lookup(
                                json_fields_view(fields@),
                                key@,
                            ));
                        }
                        return Some(&fields[i].1);
                    }
                    proof {
                        let s = fields@.skip(i as int);
                        let s2 = fields@.skip(i + 1);
                        lemma_json_fields_view(s2);
                        assert(json_fields_view(s).drop_first() =~= json_fields_view(s2));
                    }
                    i = i + 1;
                }
                proof {
                    assert(fields@.skip(n as int) =~= Seq::<(String, Json)>::empty());
                    lemma_json_fields_view(fields@.skip(n as int));
                    assert(json_fields_view(fields@.skip(n as int)) =~= Seq::<(
                        Seq<char>,
                        JsonV,
                    )>::empty());
                }
                None
            },
            _ => None,
        }
    }
}

} // verus!
