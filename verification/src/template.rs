//! The sheet template: the merged ranges, cell borders and label texts of the
//! original spreadsheet, read from its JSON description.
//!
//! The description is one object with three arrays: `merges`, each
//! `[r0, c0, r1, c1]`; `borders`, each `[r, c, left, top, right, bottom]`;
//! and `texts`, each an object with `r`, `c` and optionally `text`, `bold`,
//! `h` (alignment) and `size`. The font size is floating point and is read
//! by the renderer; everything else is read here.

use vstd::prelude::*;
use vstd::string::StrSliceExecFns;
use serde_json::Value;
use crate::layout::{Merge, halign_spec, halign_code};

verus! {

#[verifier::external_type_specification]
#[verifier::external_body]
pub struct ExJsonValue(Value);

/// A JSON value as `serde_json` reads it. Integers keep their value; any
/// other number is `Float`, without it.
pub enum JsonTree {
    Null,
    Bool(bool),
    /// An integer that does not fit `u64` (a negative one).
    Int(i64),
    /// An integer that fits `u64`.
    Uint(u64),
    Float,
    Str(String),
    Array(Vec<JsonTree>),
    /// An object's members, as (name, value) pairs.
    Object(Vec<(String, JsonTree)>),
}

/// The JSON value that `serde_json::from_str` reads from this text, or `None`
/// where the text is not valid JSON.
pub uninterp spec fn spec_parse_json_tree(text: Seq<char>) -> Option<JsonTree>;

/// Reads text with `serde_json::from_str::<Value>`.
///
/// Trusted: the result is what `serde_json` reads from the text, as a
/// [`JsonTree`]; what that is, is `serde_json`'s and is only named here.
#[verifier::external_body]
fn read_json_tree(text: &str) -> (t: Option<JsonTree>)
    ensures
        t == spec_parse_json_tree(text@),
{
    match serde_json::from_str::<Value>(text) {
        Ok(v) => Some(json_tree(&v)),
        Err(_) => None,
    }
}

/// A `serde_json::Value` as a [`JsonTree`], value for value.
#[verifier::external_body]
fn json_tree(v: &Value) -> JsonTree {
    match v {
        Value::Null => JsonTree::Null,
        Value::Bool(b) => JsonTree::Bool(*b),
        Value::Number(n) => match (n.as_u64(), n.as_i64()) {
            (Some(u), _) => JsonTree::Uint(u),
            (None, Some(i)) => JsonTree::Int(i),
            (None, None) => JsonTree::Float,
        },
        Value::String(s) => JsonTree::Str(s.clone()),
        Value::Array(a) => JsonTree::Array(a.iter().map(json_tree).collect()),
        Value::Object(m) => JsonTree::Object(m.iter().map(|(k, x)| (k.clone(), json_tree(x))).collect()),
    }
}

/// The value of the first member named `key`.
pub open spec fn member_of(ms: Seq<(String, JsonTree)>, key: Seq<char>) -> Option<JsonTree>
    decreases ms.len(),
{
    if ms.len() == 0 {
        None
    } else if ms[0].0@ == key {
        Some(ms[0].1)
    } else {
        member_of(ms.drop_first(), key)
    }
}

/// `v[key]` as `serde_json` indexes a value: the member named `key` of an
/// object, and null where there is none or `v` is not an object.
pub open spec fn get(v: JsonTree, key: Seq<char>) -> JsonTree {
    match v {
        JsonTree::Object(ms) => match member_of(ms@, key) {
            Some(x) => x,
            None => JsonTree::Null,
        },
        _ => JsonTree::Null,
    }
}

/// `as_i64`: an integer that fits `i64`.
pub open spec fn as_i64(v: JsonTree) -> Option<i64> {
    match v {
        JsonTree::Int(i) => Some(i),
        JsonTree::Uint(u) => if u <= i64::MAX { Some(u as i64) } else { None },
        _ => None,
    }
}

/// `as_u64`: an integer that fits `u64`.
pub open spec fn as_u64(v: JsonTree) -> Option<u64> {
    match v {
        JsonTree::Int(i) => if i >= 0 { Some(i as u64) } else { None },
        JsonTree::Uint(u) => Some(u),
        _ => None,
    }
}

/// `as_str`: the text of a string.
pub open spec fn as_str(v: JsonTree) -> Option<Seq<char>> {
    match v {
        JsonTree::Str(s) => Some(s@),
        _ => None,
    }
}

/// `as_bool`: a boolean's value.
pub open spec fn as_bool(v: JsonTree) -> Option<bool> {
    match v {
        JsonTree::Bool(b) => Some(b),
        _ => None,
    }
}

/// The integer at index `i` of an array, where there is one.
pub open spec fn int_at(a: Seq<JsonTree>, i: int) -> Option<i64> {
    if 0 <= i < a.len() { as_i64(a[i]) } else { None }
}

/// The border width at index `i` of an array: a `u64` cut to its low byte,
/// as `as u8` does.
pub open spec fn width_at(a: Seq<JsonTree>, i: int) -> Option<u8> {
    if 0 <= i < a.len() {
        match as_u64(a[i]) {
            Some(n) => Some((n % 256) as u8),
            None => None,
        }
    } else {
        None
    }
}

/// A cell border of the template: (row, column, left, top, right, bottom),
/// each side's width 0 for none.
pub type Border = (i64, i64, u8, u8, u8, u8);

/// A label text of the template: (row, column, text, bold, alignment code).
pub type TemplateLabel = (i64, i64, String, bool, u8);

/// A merge `[r0, c0, r1, c1]`.
pub open spec fn merge_of(m: JsonTree) -> Option<Merge> {
    match m {
        JsonTree::Array(a) => {
            let a = a@;
            if int_at(a, 0) is Some && int_at(a, 1) is Some && int_at(a, 2) is Some && int_at(a, 3) is Some {
                Some((int_at(a, 0)->0, int_at(a, 1)->0, int_at(a, 2)->0, int_at(a, 3)->0))
            } else {
                None
            }
        },
        _ => None,
    }
}

/// A border `[r, c, left, top, right, bottom]`.
pub open spec fn border_of(b: JsonTree) -> Option<Border> {
    match b {
        JsonTree::Array(a) => {
            let a = a@;
            if int_at(a, 0) is Some && int_at(a, 1) is Some && width_at(a, 2) is Some && width_at(a, 3) is Some
                && width_at(a, 4) is Some && width_at(a, 5) is Some {
                Some((int_at(a, 0)->0, int_at(a, 1)->0, width_at(a, 2)->0, width_at(a, 3)->0,
                    width_at(a, 4)->0, width_at(a, 5)->0))
            } else {
                None
            }
        },
        _ => None,
    }
}

/// A label text: `r` and `c` are needed; a missing `text` is empty, a
/// missing `bold` is false, a missing `h` is left alignment.
pub open spec fn label_of(t: JsonTree) -> Option<(i64, i64, Seq<char>, bool, u8)> {
    let r = as_i64(get(t, "r"@));
    let c = as_i64(get(t, "c"@));
    if r is Some && c is Some {
        Some((
            r->0,
            c->0,
            match as_str(get(t, "text"@)) { Some(s) => s, None => Seq::empty() },
            match as_bool(get(t, "bold"@)) { Some(b) => b, None => false },
            match as_str(get(t, "h"@)) { Some(h) => halign_spec(h), None => 0 },
        ))
    } else {
        None
    }
}

/// The merges of an array, where each element is one.
pub open spec fn merges_of(a: Seq<JsonTree>) -> Option<Seq<Merge>> {
    if forall|i: int| 0 <= i < a.len() ==> #[trigger] merge_of(a[i]) is Some {
        Some(Seq::new(a.len(), |i: int| merge_of(a[i])->0))
    } else {
        None
    }
}

/// The borders of an array, where each element is one.
pub open spec fn borders_of(a: Seq<JsonTree>) -> Option<Seq<Border>> {
    if forall|i: int| 0 <= i < a.len() ==> #[trigger] border_of(a[i]) is Some {
        Some(Seq::new(a.len(), |i: int| border_of(a[i])->0))
    } else {
        None
    }
}

/// The label texts of an array, where each element is one.
pub open spec fn labels_of(a: Seq<JsonTree>) -> Option<Seq<(i64, i64, Seq<char>, bool, u8)>> {
    if forall|i: int| 0 <= i < a.len() ==> #[trigger] label_of(a[i]) is Some {
        Some(Seq::new(a.len(), |i: int| label_of(a[i])->0))
    } else {
        None
    }
}

/// The template as its mathematical value.
#[verifier::ext_equal]
pub struct TemplateView {
    pub merges: Seq<Merge>,
    pub borders: Seq<Border>,
    pub texts: Seq<(i64, i64, Seq<char>, bool, u8)>,
}

/// The template that a JSON value describes: its `merges`, `borders` and
/// `texts` arrays, each element read as above; `None` where one of the three
/// is not an array or one of their elements does not read.
pub open spec fn template_of_tree(v: JsonTree) -> Option<TemplateView> {
    match (get(v, "merges"@), get(v, "borders"@), get(v, "texts"@)) {
        (JsonTree::Array(m), JsonTree::Array(b), JsonTree::Array(t)) => {
            match (merges_of(m@), borders_of(b@), labels_of(t@)) {
                (Some(ms), Some(bs), Some(ts)) => Some(TemplateView { merges: ms, borders: bs, texts: ts }),
                _ => None,
            }
        },
        _ => None,
    }
}

/// The template that a JSON text describes, or `None` where the text is not
/// JSON or does not describe one.
pub open spec fn spec_parse_template(json: Seq<char>) -> Option<TemplateView> {
    match spec_parse_json_tree(json) {
        Some(v) => template_of_tree(v),
        None => None,
    }
}

/// A label's mathematical value.
pub open spec fn label_view(t: TemplateLabel) -> (i64, i64, Seq<char>, bool, u8) {
    (t.0, t.1, t.2@, t.3, t.4)
}

/// The sheet template: merged ranges, cell borders and label texts.
pub struct TemplateModel {
    pub merges: Vec<Merge>,
    pub borders: Vec<Border>,
    pub texts: Vec<TemplateLabel>,
}

impl View for TemplateModel {
    type V = TemplateView;

    open spec fn view(&self) -> TemplateView {
        TemplateView {
            merges: self.merges@,
            borders: self.borders@,
            texts: self.texts@.map_values(|t: TemplateLabel| label_view(t)),
        }
    }
}

/// `v[key]` is the value of a member named `key` where the object has one,
/// and null where it has none or `v` is not an object.
pub proof fn lemma_get(v: JsonTree, key: Seq<char>)
    ensures
        (v matches JsonTree::Object(ms) && exists|i: int| 0 <= i < ms@.len() && #[trigger] ms@[i].0@ == key)
            ==> (v matches JsonTree::Object(ms) && exists|i: int| 0 <= i < ms@.len() && #[trigger] ms@[i].0@ == key
                && get(v, key) == ms@[i].1),
        (v matches JsonTree::Object(ms) && forall|i: int| 0 <= i < ms@.len() ==> #[trigger] ms@[i].0@ != key)
            ==> get(v, key) == JsonTree::Null,
        !(v is Object) ==> get(v, key) == JsonTree::Null,
{
    if let JsonTree::Object(ms) = v {
        lemma_member_of(ms@, key);
    }
}

proof fn lemma_member_of(ms: Seq<(String, JsonTree)>, key: Seq<char>)
    ensures
        (exists|i: int| 0 <= i < ms.len() && #[trigger] ms[i].0@ == key) ==> exists|i: int| 0 <= i < ms.len()
            && #[trigger] ms[i].0@ == key && member_of(ms, key) == Some(ms[i].1),
        (forall|i: int| 0 <= i < ms.len() ==> #[trigger] ms[i].0@ != key) ==> member_of(ms, key) is None,
    decreases ms.len(),
{
    if ms.len() > 0 {
        let d = ms.drop_first();
        lemma_member_of(d, key);
        if ms[0].0@ != key {
            if exists|i: int| 0 <= i < ms.len() && #[trigger] ms[i].0@ == key {
                let i = choose|i: int| 0 <= i < ms.len() && #[trigger] ms[i].0@ == key;
                assert(d[i - 1] == ms[i]);
                let w = choose|w: int| 0 <= w < d.len() && #[trigger] d[w].0@ == key && member_of(d, key) == Some(d[w].1);
                assert(ms[w + 1] == d[w]);
            }
            if forall|i: int| 0 <= i < ms.len() ==> #[trigger] ms[i].0@ != key {
                assert forall|i: int| 0 <= i < d.len() implies #[trigger] d[i].0@ != key by {
                    assert(d[i] == ms[i + 1]);
                }
            }
        }
    }
}

/// Integers read back as themselves: an integer fits `i64` where it is one,
/// and `u64` where it is not negative; strings, booleans, null, other
/// numbers, arrays and objects are no integer.
pub proof fn lemma_json_ints(x: i64, u: u64, t: JsonTree)
    ensures
        as_i64(json_int(x)) == Some(x),
        x >= 0 ==> as_u64(json_int(x)) == Some(x as u64),
        x < 0 ==> as_u64(json_int(x)) is None,
        as_u64(JsonTree::Uint(u)) == Some(u),
        u > i64::MAX ==> as_i64(JsonTree::Uint(u)) is None,
        !(t is Int || t is Uint) ==> as_i64(t) is None && as_u64(t) is None,
{
}

/// How `serde_json` holds an integer: as a `u64` where it is not negative,
/// as an `i64` otherwise.
pub open spec fn json_int(x: i64) -> JsonTree {
    if x >= 0 { JsonTree::Uint(x as u64) } else { JsonTree::Int(x) }
}

/// A merge array `[r0, c0, r1, c1]` of integers reads as (r0, c0, r1, c1), in
/// that order; an array of fewer than four elements, or anything but an
/// array, is no merge.
pub proof fn lemma_merge_fields(m: JsonTree, r0: i64, c0: i64, r1: i64, c1: i64)
    ensures
        (m matches JsonTree::Array(a) && a@.len() >= 4 && a@[0] == json_int(r0) && a@[1] == json_int(c0)
            && a@[2] == json_int(r1) && a@[3] == json_int(c1)) ==> merge_of(m) == Some((r0, c0, r1, c1)),
        !(m is Array) ==> merge_of(m) is None,
        (m matches JsonTree::Array(a) && a@.len() < 4) ==> merge_of(m) is None,
{
}

/// A border array `[r, c, left, top, right, bottom]` reads as
/// (r, c, left, top, right, bottom), in that order: index 2 is the left
/// width, 3 the top, 4 the right and 5 the bottom, each cut to its low byte
/// as `as u8` cuts it; an array of fewer than six elements, a negative
/// width, or anything but an array, is no border.
pub proof fn lemma_border_fields(b: JsonTree, r: i64, c: i64, l: u64, t: u64, rt: u64, bt: u64, k: int, x: i64)
    ensures
        (b matches JsonTree::Array(a) && a@.len() >= 6 && a@[0] == json_int(r) && a@[1] == json_int(c)
            && a@[2] == JsonTree::Uint(l) && a@[3] == JsonTree::Uint(t)
            && a@[4] == JsonTree::Uint(rt) && a@[5] == JsonTree::Uint(bt))
            ==> border_of(b) == Some((r, c, (l % 256) as u8, (t % 256) as u8, (rt % 256) as u8, (bt % 256) as u8)),
        (b matches JsonTree::Array(a) && a@.len() >= 6 && l < 256 && t < 256 && rt < 256 && bt < 256
            && a@[0] == json_int(r) && a@[1] == json_int(c)
            && a@[2] == JsonTree::Uint(l) && a@[3] == JsonTree::Uint(t)
            && a@[4] == JsonTree::Uint(rt) && a@[5] == JsonTree::Uint(bt))
            ==> border_of(b) == Some((r, c, l as u8, t as u8, rt as u8, bt as u8)),
        !(b is Array) ==> border_of(b) is None,
        (b matches JsonTree::Array(a) && a@.len() < 6) ==> border_of(b) is None,
        (b matches JsonTree::Array(a) && a@.len() >= 6 && 2 <= k < 6 && a@[k] == JsonTree::Int(x) && x < 0)
            ==> border_of(b) is None,
{
}

/// A label text reads its row from `r` and its column from `c` (both needed),
/// its text from `text` (empty where there is no string), its boldness from
/// `bold` (false where there is no boolean), and its alignment from `h`:
/// 1 for `center`, 2 for `right`, 0 for anything else or nothing.
pub proof fn lemma_label_fields(t: JsonTree, r: i64, c: i64)
    ensures
        (as_i64(get(t, "r"@)) is None || as_i64(get(t, "c"@)) is None) ==> label_of(t) is None,
        get(t, "r"@) == json_int(r) && get(t, "c"@) == json_int(c) ==> label_of(t) is Some && ({
            let l = label_of(t)->0;
            l.0 == r && l.1 == c
        }),
        label_of(t) is Some ==> ({
            let l = label_of(t)->0;
            &&& Some(l.0) == as_i64(get(t, "r"@))
            &&& Some(l.1) == as_i64(get(t, "c"@))
            &&& (get(t, "text"@) matches JsonTree::Str(s) ==> l.2 == s@)
            &&& (!(get(t, "text"@) is Str) ==> l.2 == Seq::<char>::empty())
            &&& (get(t, "bold"@) matches JsonTree::Bool(b) ==> l.3 == b)
            &&& (!(get(t, "bold"@) is Bool) ==> !l.3)
            &&& (get(t, "h"@) matches JsonTree::Str(h) ==> l.4 == (if h@ == "center"@ { 1u8 } else if h@ == "right"@ { 2u8 } else { 0u8 }))
            &&& (!(get(t, "h"@) is Str) ==> l.4 == 0)
        }),
{
}

/// The template holds, in order, one merge per element of `merges`, one
/// border per element of `borders` and one label per element of `texts`; it
/// is read exactly when the three are arrays whose every element reads.
pub proof fn lemma_template_lists(v: JsonTree)
    ensures
        template_of_tree(v) matches Some(tv) ==> ({
            &&& get(v, "merges"@) matches JsonTree::Array(m) && tv.merges.len() == m@.len()
                && forall|i: int| 0 <= i < m@.len() ==> merge_of(#[trigger] m@[i]) == Some(tv.merges[i])
            &&& get(v, "borders"@) matches JsonTree::Array(b) && tv.borders.len() == b@.len()
                && forall|i: int| 0 <= i < b@.len() ==> border_of(#[trigger] b@[i]) == Some(tv.borders[i])
            &&& get(v, "texts"@) matches JsonTree::Array(t) && tv.texts.len() == t@.len()
                && forall|i: int| 0 <= i < t@.len() ==> label_of(#[trigger] t@[i]) == Some(tv.texts[i])
        }),
        (get(v, "merges"@) matches JsonTree::Array(m) && get(v, "borders"@) matches JsonTree::Array(b)
            && get(v, "texts"@) matches JsonTree::Array(t)
            && (forall|i: int| 0 <= i < m@.len() ==> #[trigger] merge_of(m@[i]) is Some)
            && (forall|i: int| 0 <= i < b@.len() ==> #[trigger] border_of(b@[i]) is Some)
            && (forall|i: int| 0 <= i < t@.len() ==> #[trigger] label_of(t@[i]) is Some))
            ==> template_of_tree(v) is Some,
        !(get(v, "merges"@) is Array) || !(get(v, "borders"@) is Array) || !(get(v, "texts"@) is Array)
            ==> template_of_tree(v) is None,
{
}

/// `v[key]`: the member named `key` of an object, or `None` where `v[key]`
/// is null for want of one.
fn get_member<'a>(v: &'a JsonTree, key: &str) -> (r: Option<&'a JsonTree>)
    ensures
        match r {
            Some(x) => get(*v, key@) == *x,
            None => get(*v, key@) == JsonTree::Null,
        },
{
    match v {
        JsonTree::Object(ms) => {
            let k = key.to_owned();
            let mut i: usize = 0;
            proof {
                assert(ms@.skip(0) =~= ms@);
            }
            while i < ms.len()
                invariant
                    *v == JsonTree::Object(*ms),
                    k@ == key@,
                    i <= ms@.len(),
                    member_of(ms@, key@) == member_of(ms@.skip(i as int), key@),
                decreases ms@.len() - i,
            {
                proof {
                    assert(ms@.skip(i as int)[0] == ms@[i as int]);
                    assert(ms@.skip(i as int).drop_first() =~= ms@.skip(i + 1));
                }
                if ms[i].0 == k {
                    return Some(&ms[i].1);
                }
                i = i + 1;
            }
            proof {
                assert(ms@.skip(i as int).len() == 0);
            }
            None
        },
        _ => None,
    }
}

/// `as_i64` of a value.
fn int_of(t: &JsonTree) -> (r: Option<i64>)
    ensures
        r == as_i64(*t),
{
    match t {
        JsonTree::Int(i) => Some(*i),
        JsonTree::Uint(u) => if *u <= i64::MAX as u64 { Some(*u as i64) } else { None },
        _ => None,
    }
}

/// `as_u64` of a value.
fn uint_of(t: &JsonTree) -> (r: Option<u64>)
    ensures
        r == as_u64(*t),
{
    match t {
        JsonTree::Int(i) => if *i >= 0 { Some(*i as u64) } else { None },
        JsonTree::Uint(u) => Some(*u),
        _ => None,
    }
}

/// The integer at index `i` of an array.
fn int_in(a: &Vec<JsonTree>, i: usize) -> (r: Option<i64>)
    ensures
        r == int_at(a@, i as int),
{
    if i < a.len() { int_of(&a[i]) } else { None }
}

/// The border width at index `i` of an array.
fn width_in(a: &Vec<JsonTree>, i: usize) -> (r: Option<u8>)
    ensures
        r == width_at(a@, i as int),
{
    if i < a.len() {
        match uint_of(&a[i]) {
            Some(n) => Some((n % 256) as u8),
            None => None,
        }
    } else {
        None
    }
}

/// Reads one merge.
fn merge_from(m: &JsonTree) -> (r: Option<Merge>)
    ensures
        r == merge_of(*m),
{
    match m {
        JsonTree::Array(a) => {
            match (int_in(a, 0), int_in(a, 1), int_in(a, 2), int_in(a, 3)) {
                (Some(r0), Some(c0), Some(r1), Some(c1)) => Some((r0, c0, r1, c1)),
                _ => None,
            }
        },
        _ => None,
    }
}

/// Reads one border.
fn border_from(b: &JsonTree) -> (r: Option<Border>)
    ensures
        r == border_of(*b),
{
    match b {
        JsonTree::Array(a) => {
            match (int_in(a, 0), int_in(a, 1), width_in(a, 2), width_in(a, 3), width_in(a, 4), width_in(a, 5)) {
                (Some(row), Some(col), Some(l), Some(t), Some(rt), Some(bt)) => Some((row, col, l, t, rt, bt)),
                _ => None,
            }
        },
        _ => None,
    }
}

/// Reads one label text.
fn label_from(t: &JsonTree) -> (r: Option<TemplateLabel>)
    ensures
        match r {
            Some(l) => label_of(*t) == Some(label_view(l)),
            None => label_of(*t) is None,
        },
{
    let row = match get_member(t, "r") {
        Some(x) => int_of(x),
        None => None,
    };
    let col = match get_member(t, "c") {
        Some(x) => int_of(x),
        None => None,
    };
    match (row, col) {
        (Some(row), Some(col)) => {
            let text = match get_member(t, "text") {
                Some(JsonTree::Str(s)) => s.clone(),
                _ => String::new(),
            };
            let bold = match get_member(t, "bold") {
                Some(JsonTree::Bool(b)) => *b,
                _ => false,
            };
            let h = match get_member(t, "h") {
                Some(JsonTree::Str(s)) => halign_code(s.as_str()),
                _ => 0,
            };
            Some((row, col, text, bold, h))
        },
        _ => None,
    }
}

/// Reads every merge of an array.
fn merges_from(a: &Vec<JsonTree>) -> (r: Option<Vec<Merge>>)
    ensures
        match r {
            Some(v) => merges_of(a@) == Some(v@),
            None => merges_of(a@) is None,
        },
{
    let mut out: Vec<Merge> = Vec::new();
    let mut i: usize = 0;
    while i < a.len()
        invariant
            i <= a@.len(),
            out@.len() == i,
            forall|j: int| 0 <= j < i ==> #[trigger] merge_of(a@[j]) == Some(out@[j]),
        decreases a@.len() - i,
    {
        match merge_from(&a[i]) {
            Some(m) => out.push(m),
            None => {
                assert(!(merge_of(a@[i as int]) is Some));
                return None;
            },
        }
        i = i + 1;
    }
    assert(out@ =~= Seq::new(a@.len(), |j: int| merge_of(a@[j])->0));
    Some(out)
}

/// Reads every border of an array.
fn borders_from(a: &Vec<JsonTree>) -> (r: Option<Vec<Border>>)
    ensures
        match r {
            Some(v) => borders_of(a@) == Some(v@),
            None => borders_of(a@) is None,
        },
{
    let mut out: Vec<Border> = Vec::new();
    let mut i: usize = 0;
    while i < a.len()
        invariant
            i <= a@.len(),
            out@.len() == i,
            forall|j: int| 0 <= j < i ==> #[trigger] border_of(a@[j]) == Some(out@[j]),
        decreases a@.len() - i,
    {
        match border_from(&a[i]) {
            Some(b) => out.push(b),
            None => {
                assert(!(border_of(a@[i as int]) is Some));
                return None;
            },
        }
        i = i + 1;
    }
    assert(out@ =~= Seq::new(a@.len(), |j: int| border_of(a@[j])->0));
    Some(out)
}

/// Reads every label text of an array.
fn labels_from(a: &Vec<JsonTree>) -> (r: Option<Vec<TemplateLabel>>)
    ensures
        match r {
            Some(v) => labels_of(a@) == Some(v@.map_values(|t: TemplateLabel| label_view(t))),
            None => labels_of(a@) is None,
        },
{
    let mut out: Vec<TemplateLabel> = Vec::new();
    let mut i: usize = 0;
    while i < a.len()
        invariant
            i <= a@.len(),
            out@.len() == i,
            forall|j: int| 0 <= j < i ==> #[trigger] label_of(a@[j]) == Some(label_view(out@[j])),
        decreases a@.len() - i,
    {
        match label_from(&a[i]) {
            Some(l) => out.push(l),
            None => {
                assert(!(label_of(a@[i as int]) is Some));
                return None;
            },
        }
        i = i + 1;
    }
    assert(out@.map_values(|t: TemplateLabel| label_view(t)) =~= Seq::new(a@.len(), |j: int| label_of(a@[j])->0));
    Some(out)
}

/// The array that `v[key]` is, where it is one.
fn array_member<'a>(v: &'a JsonTree, key: &str) -> (r: Option<&'a Vec<JsonTree>>)
    ensures
        match r {
            Some(a) => get(*v, key@) == JsonTree::Array(*a),
            None => !(get(*v, key@) is Array),
        },
{
    match get_member(v, key) {
        Some(JsonTree::Array(a)) => Some(a),
        _ => None,
    }
}

/// The template that a JSON value describes (see [`template_of_tree`]), or
/// `None` where it describes none.
pub fn template_from_tree(v: &JsonTree) -> (m: Option<TemplateModel>)
    ensures
        match m {
            Some(t) => template_of_tree(*v) == Some(t@),
            None => template_of_tree(*v) is None,
        },
{
    let m = match array_member(v, "merges") {
        Some(a) => a,
        None => return None,
    };
    let b = match array_member(v, "borders") {
        Some(a) => a,
        None => return None,
    };
    let t = match array_member(v, "texts") {
        Some(a) => a,
        None => return None,
    };
    let merges = match merges_from(m) {
        Some(x) => x,
        None => return None,
    };
    let borders = match borders_from(b) {
        Some(x) => x,
        None => return None,
    };
    let texts = match labels_from(t) {
        Some(x) => x,
        None => return None,
    };
    let model = TemplateModel { merges, borders, texts };
    assert(template_of_tree(*v) =~= Some(model@));
    Some(model)
}

/// Reads the sheet template from its JSON description (see
/// [`template_of_tree`]), or `None` where the text is not JSON or does not
/// describe a template.
pub fn parse_template_model(json: &str) -> (m: Option<TemplateModel>)
    ensures
        match m {
            Some(t) => spec_parse_template(json@) == Some(t@),
            None => spec_parse_template(json@) is None,
        },
{
    match read_json_tree(json) {
        Some(v) => template_from_tree(&v),
        None => None,
    }
}

} // verus!
