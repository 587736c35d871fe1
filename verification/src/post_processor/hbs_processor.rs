//! The template-substitution stage: renders mustache-style placeholders over
//! a mergeable dictionary of rules.

use vstd::prelude::*;

use crate::dict::lookup;
use crate::dict::merge_model;
use crate::dict::merge_val;
use crate::dict::DictValue;
use crate::dict::ValueModel;
use crate::post_processor::PostProcessor;
use crate::post_processor::StageFailure;
use crate::text::str_to_chars;

verus! {

/// A key the template language can address: free of the path separator and
/// of every whitespace character.
pub open spec fn valid_rule_key(k: Seq<char>) -> bool {
    forall|t: int| 0 <= t < k.len() ==> k[t] != '.' && !crate::text::is_ws(k[t])
}

} // verus!

verus! {

/// The mathematical shape of a JSON tree handed to the template engine.
/// Every JSON value has exactly one shape here, so that naming the tree a
/// value holds identifies the value: machine integers are `Int`, any other
/// number is `NumText` under its canonical rendering, and arrays are `Arr`.
/// The dictionary itself only ever produces the other five shapes.
pub enum JsonModel {
    Null,
    Bool(bool),
    Int(int),
    NumText(Seq<char>),
    Str(Seq<char>),
    Arr(Seq<JsonModel>),
    Obj(Map<Seq<char>, JsonModel>),
}

#[verifier::external_type_specification]
#[verifier::external_body]
pub struct ExJsonValue(serde_json::Value);

/// The JSON tree that a `serde_json` value holds; two values hold the same
/// tree exactly when they are the same JSON document.
pub uninterp spec fn json_of(v: serde_json::Value) -> JsonModel;

/// What the template engine renders from a template and a data tree, or
/// nothing when the template is malformed or a placeholder path cannot be
/// resolved; a function of the two alone.
pub uninterp spec fn render_of(template: Seq<char>, data: JsonModel) -> Option<Seq<char>>;

/// Relies on `serde_json::Value::Null`: the null tree.
#[verifier::external_body]
fn json_null() -> (r: serde_json::Value)
    ensures
        json_of(r) == JsonModel::Null,
{
    serde_json::Value::Null
}

/// Relies on `serde_json::Value::Bool`: a boolean leaf.
#[verifier::external_body]
fn json_bool(b: bool) -> (r: serde_json::Value)
    ensures
        json_of(r) == JsonModel::Bool(b),
{
    serde_json::Value::Bool(b)
}

/// Relies on `serde_json::Number::from`: an integer leaf.
#[verifier::external_body]
fn json_int(i: i64) -> (r: serde_json::Value)
    ensures
        json_of(r) == JsonModel::Int(i as int),
{
    serde_json::Value::Number(serde_json::Number::from(i))
}

/// Relies on `serde_json::Value::String`: a string leaf.
#[verifier::external_body]
fn json_str(s: &String) -> (r: serde_json::Value)
    ensures
        json_of(r) == JsonModel::Str(s@),
{
    serde_json::Value::String(s.clone())
}

/// Relies on `serde_json::Map::new`: an object with no entries.
#[verifier::external_body]
fn json_empty_obj() -> (r: serde_json::Value)
    ensures
        json_of(r) == JsonModel::Obj(Map::<Seq<char>, JsonModel>::empty()),
{
    serde_json::Value::Object(serde_json::Map::new())
}

/// Relies on `serde_json::Map::insert`: adds the binding or replaces the
/// value already bound to an equal key.
#[verifier::external_body]
fn json_obj_insert(obj: &mut serde_json::Value, key: String, val: serde_json::Value)
    requires
        json_of(*old(obj)) is Obj,
    ensures
        json_of(*final(obj)) == JsonModel::Obj(
            json_of(*old(obj))->Obj_0.insert(key@, json_of(val)),
        ),
{
    if let serde_json::Value::Object(m) = obj {
        m.insert(key, val);
    }
}

/// Relies on `handlebars::Handlebars::render_template` on a fresh registry
/// in strict mode: the rendered text, or the failure, is a function of the
/// template string and the serialized data tree alone, and an unresolvable
/// placeholder path is a failure, never an empty substitution.
#[verifier::external_body]
fn hbs_render(template: &str, data: &serde_json::Value) -> (r: Result<String, String>)
    ensures
        match r {
            Ok(out) => render_of(template@, json_of(*data)) == Some(out@),
            Err(_) => render_of(template@, json_of(*data)) is None,
        },
{
    let mut registry = handlebars::Handlebars::new();
    registry.set_strict_mode(true);
    registry.render_template(template, data).map_err(|e| e.to_string())
}

/// The JSON tree that a dictionary value stands for.
pub open spec fn json_model_of(m: ValueModel) -> JsonModel
    decreases m,
{
    match m {
        ValueModel::Null => JsonModel::Null,
        ValueModel::Bool(b) => JsonModel::Bool(b),
        ValueModel::Int(i) => JsonModel::Int(i),
        ValueModel::Str(s) => JsonModel::Str(s),
        ValueModel::Obj(es) => JsonModel::Obj(entries_json_model(es)),
    }
}

/// The JSON object built from dictionary entries, first to last.
pub open spec fn entries_json_model(es: Seq<(Seq<char>, ValueModel)>) -> Map<Seq<char>, JsonModel>
    decreases es,
{
    if es.len() == 0 {
        Map::empty()
    } else {
        entries_json_model(es.drop_last()).insert(es.last().0, json_model_of(es.last().1))
    }
}

/// Serialize a dictionary value into the external JSON representation.
fn dict_to_json(d: &DictValue) -> (r: serde_json::Value)
    ensures
        json_of(r) == json_model_of(d@),
    decreases *d,
{
    match d {
        DictValue::Null => json_null(),
        DictValue::Bool(b) => json_bool(*b),
        DictValue::Int(i) => json_int(*i),
        DictValue::Str(s) => json_str(s),
        DictValue::Obj(es) => {
            let mut obj = json_empty_obj();
            let n = es.len();
            let mut i: usize = 0;
            proof {
                crate::dict::lemma_entries_model(es@);
                assert(DictValue::entries_model(es@).subrange(0, 0) =~= Seq::<(
                    Seq<char>,
                    ValueModel,
                )>::empty());
            }
            while i < n
                invariant
                    *d == DictValue::Obj(*es),
                    n == es@.len(),
                    i <= n,
                    DictValue::entries_model(es@).len() == es@.len(),
                    forall|t: int|
                        0 <= t < es@.len() ==> DictValue::entries_model(es@)[t] == (
                            es@[t].0@,
                            es@[t].1.model(),
                        ),
                    json_of(obj) == JsonModel::Obj(
                        entries_json_model(DictValue::entries_model(es@).subrange(0, i as int)),
                    ),
                decreases n - i,
            {
                let key = es[i].0.clone();
                proof {
                    assert(decreases_to!(*d => (*d)->Obj_0));
                    assert((*d)->Obj_0 == *es);
                    assert(decreases_to!(*es => es@));
                    assert(decreases_to!(es@ => es@[i as int]));
                    assert(decreases_to!(es@[i as int] => es@[i as int].1));
                }
                let val = dict_to_json(&es[i].1);
                json_obj_insert(&mut obj, key, val);
                proof {
                    let em = DictValue::entries_model(es@);
                    assert(em.subrange(0, i + 1).drop_last() =~= em.subrange(0, i as int));
                    assert(em.subrange(0, i + 1).last() == em[i as int]);
                }
                i += 1;
            }
            proof {
                assert(DictValue::entries_model(es@).subrange(
                    0,
                    DictValue::entries_model(es@).len() as int,
                ) =~= DictValue::entries_model(es@));
            }
            obj
        },
    }
}

/// Post-processor using handlebars: substitutes template placeholders in a
/// page against the dictionary built so far.
pub struct HbsProcessor {
    /// The rule dictionary built so far.
    pub dict: DictValue,
}

impl HbsProcessor {
    /// The dictionary this processor renders against.
    pub open spec fn dict_model(&self) -> ValueModel {
        self.dict@
    }

    /// An empty dictionary.
    pub fn new() -> (r: Self)
        ensures
            r.dict_model() == ValueModel::Obj(Seq::<(Seq<char>, ValueModel)>::empty()),
    {
        let r = HbsProcessor { dict: DictValue::Obj(Vec::new()) };
        proof {
            assert(DictValue::entries_model(Seq::<(String, DictValue)>::empty()) =~= Seq::<(
                Seq<char>,
                ValueModel,
            )>::empty());
            assert(r.dict@->Obj_0 =~= Seq::<(Seq<char>, ValueModel)>::empty());
        }
        r
    }

    /// Merge new rules into the dictionary. Used for adding and loading
    /// rules; nested dictionaries merge key by key, anything else on the
    /// right replaces what the left held at the same place.
    pub fn merge(&mut self, other: &DictValue)
        ensures
            final(self).dict_model() == merge_model(old(self).dict_model(), other@),
    {
        self.dict = merge_val(&self.dict, other);
    }

    /// Add a simple key-value rule; nesting is not permitted. A key holding
    /// a path separator (a dot or any whitespace) is rejected and the
    /// dictionary is left untouched.
    pub fn add_rule(&mut self, k: &str, v: &str) -> (r: Result<(), StageFailure>)
        ensures
            r is Ok <==> valid_rule_key(k@),
            r is Err ==> final(self).dict_model() == old(self).dict_model(),
            r is Ok ==> final(self).dict_model() == merge_model(
                old(self).dict_model(),
                ValueModel::Obj(seq![(k@, ValueModel::Str(v@))]),
            ),
    {
        let kc = str_to_chars(k);
        let n = kc.len();
        let mut i: usize = 0;
        while i < n
            invariant
                n == kc@.len(),
                kc@ == k@,
                i <= n,
                forall|t: int| 0 <= t < i ==> k@[t] != '.' && !crate::text::is_ws(k@[t]),
            decreases n - i,
        {
            if kc[i] == '.' || crate::text::ws_check(kc[i]) {
                return Err(
                    StageFailure {
                        message: String::from_str("the key cannot contain a dot or whitespace"),
                    },
                );
            }
            i += 1;
        }
        let mut entries: Vec<(String, DictValue)> = Vec::new();
        entries.push((String::from_str(k), DictValue::Str(String::from_str(v))));
        let rule = DictValue::Obj(entries);
        proof {
            crate::dict::lemma_entries_model(rule->Obj_0@);
            assert(rule@->Obj_0 =~= seq![(k@, ValueModel::Str(v@))]);
        }
        self.merge(&rule);
        Ok(())
    }

    /// The value bound to `k` at the top level of the dictionary, if the
    /// dictionary is an object binding `k`.
    pub fn get_rule<'a>(&'a self, k: &String) -> (r: Option<&'a DictValue>)
        ensures
            match r {
                Some(v) => self.dict_model() is Obj && lookup(self.dict_model()->Obj_0, k@)
                    == Some(v@),
                None => !(self.dict_model() is Obj) || lookup(self.dict_model()->Obj_0, k@)
                    is None,
            },
    {
        match &self.dict {
            DictValue::Obj(es) => {
                proof {
                    crate::dict::lemma_entries_model(es@);
                }
                let n = es.len();
                let mut i: usize = 0;
                while i < n
                    invariant
                        n == es@.len(),
                        i <= n,
                        self.dict == DictValue::Obj(*es),
                        DictValue::entries_model(es@).len() == es@.len(),
                        forall|t: int|
                            0 <= t < es@.len() ==> DictValue::entries_model(es@)[t] == (
                                es@[t].0@,
                                es@[t].1.model(),
                            ),
                        forall|t: int| 0 <= t < i ==> es@[t].0@ != k@,
                    decreases n - i,
                {
                    if es[i].0 == *k {
                        proof {
                            crate::dict::lemma_lookup_at(
                                DictValue::entries_model(es@),
                                k@,
                                i as int,
                            );
                        }
                        return Some(&es[i].1);
                    }
                    i += 1;
                }
                proof {
                    crate::dict::lemma_lookup_none(DictValue::entries_model(es@), k@);
                }
                None
            },
            _ => None,
        }
    }
}

impl Default for HbsProcessor {
    /// Default initializer: an empty dictionary.
    fn default() -> (r: Self)
        ensures
            r.dict_model() == ValueModel::Obj(Seq::<(Seq<char>, ValueModel)>::empty()),
    {
        HbsProcessor::new()
    }
}

impl PostProcessor for HbsProcessor {
    /// The page with every placeholder substituted from the dictionary, or
    /// nothing when the template engine rejects the page.
    open spec fn transform_spec(&self, html: Seq<char>) -> Option<Seq<char>> {
        render_of(html, json_model_of(self.dict_model()))
    }

    fn execute(&self, html: &str) -> (r: Result<String, StageFailure>) {
        let data = dict_to_json(&self.dict);
        match hbs_render(html, &data) {
            Ok(s) => Ok(s),
            Err(m) => Err(StageFailure { message: m }),
        }
    }
}

} // verus!
