//! The form's JSON encoding: one object whose members are the text fields
//! (as strings) and the ticked boxes (as `true`).

use vstd::prelude::*;
use serde_json::Value;
use crate::report::ReportData;
use crate::pairs::{pairs_map, names_set, distinct_keys, lemma_pairs_map, set_pair};

verus! {

/// What a member of a JSON object holds, as far as the form reads it.
pub enum JsonValue {
    Str(String),
    Bool(bool),
    /// Any other JSON value (null, a number, an array or an object).
    Other,
}

/// The mathematical value of a [`JsonValue`].
pub enum JsonVal {
    Str(Seq<char>),
    Bool(bool),
    Other,
}

impl View for JsonValue {
    type V = JsonVal;

    open spec fn view(&self) -> JsonVal {
        match self {
            JsonValue::Str(s) => JsonVal::Str(s@),
            JsonValue::Bool(b) => JsonVal::Bool(*b),
            JsonValue::Other => JsonVal::Other,
        }
    }
}

/// A JSON object: its members as (name, value) pairs.
pub struct JsonObject {
    pub members: Vec<(String, JsonValue)>,
}

impl View for JsonObject {
    type V = Map<Seq<char>, JsonVal>;

    open spec fn view(&self) -> Map<Seq<char>, JsonVal> {
        pairs_map(self.members@)
    }
}

impl JsonObject {
    /// No member name occurs twice.
    pub open spec fn wf(&self) -> bool {
        distinct_keys(self.members@)
    }
}

/// The compact JSON text that `serde_json` writes for an object with these members.
pub uninterp spec fn spec_json_text(obj: Map<Seq<char>, JsonVal>) -> Seq<char>;

/// The members of the JSON object that `serde_json` reads from this text, or
/// `None` where the text is not valid JSON or not an object.
pub uninterp spec fn spec_parse_json_object(text: Seq<char>) -> Option<Map<Seq<char>, JsonVal>>;

/// Writes an object with `serde_json` (`Value::Object(..).to_string()`).
///
/// Trusted: the text is the one `serde_json` writes for these members (no
/// name twice), and `serde_json::from_str` reads back exactly these members
/// from it. The crate keeps an object's members in a `BTreeMap` (its
/// `preserve_order` feature is off), so the text depends on the members
/// alone. `Other` is written as `null`.
#[verifier::external_body]
fn write_json_object(obj: &JsonObject) -> (text: String)
    requires
        obj.wf(),
    ensures
        text@ == spec_json_text(obj@),
        spec_parse_json_object(text@) == Some(obj@),
{
    let members: serde_json::Map<String, Value> = obj.members.iter().map(|(k, v)| match v {
        JsonValue::Str(s) => (k.clone(), Value::String(s.clone())),
        JsonValue::Bool(b) => (k.clone(), Value::Bool(*b)),
        JsonValue::Other => (k.clone(), Value::Null),
    }).collect();
    Value::Object(members).to_string()
}

/// Reads text with `serde_json::from_str::<Value>` and keeps it where it is an object.
///
/// Trusted: the members are those `serde_json` read, each name once (they
/// come out of a `serde_json::Map`); strings and booleans keep their value,
/// every other kind of value becomes `Other`.
#[verifier::external_body]
fn read_json_object(text: &str) -> (obj: Option<JsonObject>)
    ensures
        match obj {
            Some(o) => o.wf() && spec_parse_json_object(text@) == Some(o@),
            None => spec_parse_json_object(text@) is None,
        },
{
    match serde_json::from_str::<Value>(text) {
        Ok(Value::Object(map)) => Some(JsonObject {
            members: map.into_iter().map(|(k, v)| match v {
                Value::String(s) => (k, JsonValue::Str(s)),
                Value::Bool(b) => (k, JsonValue::Bool(b)),
                Value::Null | Value::Number(_) | Value::Array(_) | Value::Object(_) => (k, JsonValue::Other),
            }).collect(),
        }),
        Ok(_) | Err(_) => None,
    }
}

/// The JSON members of a form: each text field as a string, each ticked box
/// as `true`; a box and a field of the same name give one member, the box.
pub open spec fn report_members(text: Map<Seq<char>, Seq<char>>, checks: Set<Seq<char>>) -> Map<Seq<char>, JsonVal> {
    Map::new(
        |k: Seq<char>| text.contains_key(k) || checks.contains(k),
        |k: Seq<char>| if checks.contains(k) { JsonVal::Bool(true) } else { JsonVal::Str(text[k]) },
    )
}

/// The text fields that a JSON object gives a form: its string members.
pub open spec fn text_of_members(m: Map<Seq<char>, JsonVal>) -> Map<Seq<char>, Seq<char>> {
    Map::new(
        |k: Seq<char>| m.contains_key(k) && m[k] is Str,
        |k: Seq<char>| m[k]->Str_0,
    )
}

/// The ticked boxes that a JSON object gives a form: its members that are `true`.
pub open spec fn checks_of_members(m: Map<Seq<char>, JsonVal>) -> Set<Seq<char>> {
    Set::new(|k: Seq<char>| m.contains_key(k) && m[k] == JsonVal::Bool(true))
}

/// The JSON text of a form.
pub open spec fn spec_to_json(text: Map<Seq<char>, Seq<char>>, checks: Set<Seq<char>>) -> Seq<char> {
    spec_json_text(report_members(text, checks))
}

/// The text fields read from JSON text: none where it is not an object.
pub open spec fn spec_text_from_json(s: Seq<char>) -> Map<Seq<char>, Seq<char>> {
    match spec_parse_json_object(s) {
        Some(m) => text_of_members(m),
        None => Map::empty(),
    }
}

/// The ticked boxes read from JSON text: none where it is not an object.
pub open spec fn spec_checks_from_json(s: Seq<char>) -> Set<Seq<char>> {
    match spec_parse_json_object(s) {
        Some(m) => checks_of_members(m),
        None => Set::empty(),
    }
}

/// What the form's JSON object holds under each name: `true` for a ticked
/// box (whether or not a text field has the same name), the field's text as
/// a string for any other text field, nothing for any other name; never
/// `false`, null or another kind of value.
pub proof fn lemma_report_members(text: Map<Seq<char>, Seq<char>>, checks: Set<Seq<char>>, k: Seq<char>)
    ensures
        checks.contains(k) ==> report_members(text, checks).contains_key(k)
            && report_members(text, checks)[k] == JsonVal::Bool(true),
        text.contains_key(k) && !checks.contains(k) ==> report_members(text, checks).contains_key(k)
            && report_members(text, checks)[k] == JsonVal::Str(text[k]),
        !text.contains_key(k) && !checks.contains(k) ==> !report_members(text, checks).contains_key(k),
        report_members(text, checks).contains_key(k) ==> report_members(text, checks)[k] != JsonVal::Bool(false)
            && report_members(text, checks)[k] != JsonVal::Other,
{
}

/// What a JSON object's member gives the form: a string is a text field with
/// that text, `true` a ticked box; `false`, null, numbers, arrays and objects
/// give nothing, and neither does a name the object lacks.
pub proof fn lemma_member_meaning(m: Map<Seq<char>, JsonVal>, k: Seq<char>, s: Seq<char>)
    ensures
        m.contains_key(k) && m[k] == JsonVal::Str(s) ==> text_of_members(m).contains_key(k)
            && text_of_members(m)[k] == s && !checks_of_members(m).contains(k),
        m.contains_key(k) && m[k] == JsonVal::Bool(true) ==> checks_of_members(m).contains(k)
            && !text_of_members(m).contains_key(k),
        m.contains_key(k) && (m[k] == JsonVal::Bool(false) || m[k] == JsonVal::Other)
            ==> !checks_of_members(m).contains(k) && !text_of_members(m).contains_key(k),
        !m.contains_key(k) ==> !checks_of_members(m).contains(k) && !text_of_members(m).contains_key(k),
{
}

/// Reading back the members of a form gives its text fields, less those that
/// share a name with a ticked box, and all its ticked boxes.
pub proof fn lemma_members_round_trip(text: Map<Seq<char>, Seq<char>>, checks: Set<Seq<char>>)
    ensures
        text_of_members(report_members(text, checks)) == text.remove_keys(checks),
        checks_of_members(report_members(text, checks)) == checks,
{
    assert(text_of_members(report_members(text, checks)) =~= text.remove_keys(checks));
    assert(checks_of_members(report_members(text, checks)) =~= checks);
}

/// The members of the form's JSON object: each text field as a string, each
/// ticked box as `true` (a box wins over a field of the same name).
pub fn report_object(data: &ReportData) -> (obj: JsonObject)
    ensures
        obj.wf(),
        obj@ == report_members(data.text_view(), data.checks_view()),
{
    let text = data.text_pairs();
    let checks = data.check_names();
    let mut members: Vec<(String, JsonValue)> = Vec::new();
    let mut i: usize = 0;
    while i < text.len()
        invariant
            i <= text@.len(),
            members@.len() == i,
            forall|j: int| 0 <= j < i ==> #[trigger] members@[j].0@ == text@[j].0@ && members@[j].1@ == JsonVal::Str(text@[j].1@),
        decreases text@.len() - i,
    {
        let (k, v) = &text[i];
        members.push((k.clone(), JsonValue::Str(v.clone())));
        i = i + 1;
    }
    proof {
        lemma_pairs_map(text@);
        assert(distinct_keys(members@));
        lemma_pairs_map(members@);
        assert(names_set(checks@.take(0)) =~= Set::<Seq<char>>::empty());
        let want = report_members(data.text_view(), Set::<Seq<char>>::empty());
        assert(pairs_map(members@) =~= want) by {
            assert forall|q: Seq<char>| #[trigger] pairs_map(members@).dom().contains(q) == want.dom().contains(q) by {
                if pairs_map(members@).contains_key(q) {
                    let j = choose|j: int| 0 <= j < members@.len() && members@[j].0@ == q;
                    assert(text@[j].0@ == q);
                    assert(pairs_map(text@).contains_key(q));
                }
                if pairs_map(text@).contains_key(q) {
                    let j = choose|j: int| 0 <= j < text@.len() && text@[j].0@ == q;
                    assert(members@[j].0@ == q);
                    assert(pairs_map(members@).contains_key(q));
                }
            }
            assert forall|q: Seq<char>| pairs_map(text@).contains_key(q) implies pairs_map(members@).contains_key(q) && pairs_map(members@)[q] == JsonVal::Str(pairs_map(text@)[q]) by {
                let j = choose|j: int| 0 <= j < text@.len() && text@[j].0@ == q;
                assert(members@[j].0@ == q);
                assert(pairs_map(members@)[members@[j].0@] == members@[j].1@);
                assert(pairs_map(text@)[text@[j].0@] == text@[j].1@);
            }
        }
    }
    let mut obj = JsonObject { members };
    let mut i: usize = 0;
    while i < checks.len()
        invariant
            i <= checks@.len(),
            obj.wf(),
            obj@ == report_members(data.text_view(), names_set(checks@.take(i as int))),
        decreases checks@.len() - i,
    {
        set_pair(&mut obj.members, checks[i].clone(), JsonValue::Bool(true));
        proof {
            let before = names_set(checks@.take(i as int));
            let after = names_set(checks@.take(i + 1));
            assert(after =~= before.insert(checks@[i as int]@)) by {
                assert forall|q: Seq<char>| after.contains(q) implies before.insert(checks@[i as int]@).contains(q) by {
                    let j = choose|j: int| 0 <= j < i + 1 && #[trigger] checks@.take(i + 1)[j]@ == q;
                    if j < i {
                        assert(checks@.take(i as int)[j] == checks@[j]);
                    }
                }
                assert forall|q: Seq<char>| before.insert(checks@[i as int]@).contains(q) implies after.contains(q) by {
                    if q == checks@[i as int]@ {
                        assert(checks@.take(i + 1)[i as int] == checks@[i as int]);
                    } else {
                        let j = choose|j: int| 0 <= j < i && #[trigger] checks@.take(i as int)[j]@ == q;
                        assert(checks@.take(i + 1)[j] == checks@[j]);
                    }
                }
            }
            assert(obj@ =~= report_members(data.text_view(), after));
        }
        i = i + 1;
    }
    proof {
        assert(checks@.take(checks@.len() as int) =~= checks@);
    }
    obj
}

/// The form as compact JSON text: one object whose members are the text
/// fields (strings) and the ticked boxes (`true`). Reading it back with
/// [`from_json`] gives the same form, but for a text field that shares its
/// name with a ticked box.
pub fn to_json(data: &ReportData) -> (s: String)
    ensures
        s@ == spec_to_json(data.text_view(), data.checks_view()),
        spec_parse_json_object(s@) == Some(report_members(data.text_view(), data.checks_view())),
        spec_text_from_json(s@) == data.text_view().remove_keys(data.checks_view()),
        spec_checks_from_json(s@) == data.checks_view(),
{
    let obj = report_object(data);
    proof {
        lemma_members_round_trip(data.text_view(), data.checks_view());
    }
    write_json_object(&obj)
}

/// The form that JSON text describes: its string members become text
/// fields, its members that are `true` ticked boxes, and everything else is
/// left out; text that is not a JSON object gives an empty form.
pub fn from_json(s: &str) -> (d: ReportData)
    ensures
        d.text_view() == spec_text_from_json(s@),
        d.checks_view() == spec_checks_from_json(s@),
{
    match read_json_object(s) {
        None => {
            let data = ReportData::new();
            proof {
                assert(data.text_view() =~= spec_text_from_json(s@));
                assert(data.checks_view() =~= spec_checks_from_json(s@));
            }
            data
        },
        Some(obj) => report_from_object(&obj),
    }
}

/// The form that a JSON object describes: its string members become text
/// fields, its members that are `true` ticked boxes; other members are left out.
pub fn report_from_object(obj: &JsonObject) -> (d: ReportData)
    requires
        obj.wf(),
    ensures
        d.text_view() == text_of_members(obj@),
        d.checks_view() == checks_of_members(obj@),
{
    let mut data = ReportData::new();
    let members = &obj.members;
    let mut i: usize = 0;
    proof {
        assert(text_of_members(pairs_map(members@.take(0))) =~= data.text_view());
        assert(checks_of_members(pairs_map(members@.take(0))) =~= data.checks_view());
    }
    while i < members.len()
        invariant
            i <= members@.len(),
            distinct_keys(members@),
            data.text_view() == text_of_members(pairs_map(members@.take(i as int))),
            data.checks_view() == checks_of_members(pairs_map(members@.take(i as int))),
        decreases members@.len() - i,
    {
        let ghost before = pairs_map(members@.take(i as int));
        let ghost k = members@[i as int].0@;
        let ghost v = members@[i as int].1@;
        proof {
            assert(members@.take(i + 1).drop_last() =~= members@.take(i as int));
            assert(distinct_keys(members@.take(i as int)));
            lemma_pairs_map(members@.take(i as int));
            assert(!before.contains_key(k)) by {
                if before.contains_key(k) {
                    let j = choose|j: int| 0 <= j < i && members@.take(i as int)[j].0@ == k;
                    assert(members@[j].0@ == k);
                }
            }
        }
        let (name, value) = &members[i];
        match value {
            JsonValue::Str(text) => {
                data.insert_text(name.clone(), text.clone());
            },
            JsonValue::Bool(b) => {
                if *b {
                    data.insert_check(name.clone());
                }
            },
            JsonValue::Other => {},
        }
        proof {
            let after = pairs_map(members@.take(i + 1));
            assert(after == before.insert(k, v));
            assert(data.text_view() =~= text_of_members(after));
            assert(data.checks_view() =~= checks_of_members(after));
        }
        i = i + 1;
    }
    proof {
        assert(members@.take(members@.len() as int) =~= members@);
    }
    data
}

} // verus!
