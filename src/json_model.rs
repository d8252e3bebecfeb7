use vstd::prelude::*;

use json::JsonValue;

use crate::text::{chars_of, text_eq};

verus! {

/// A JSON value as plain data: numbers are kept as the sign, mantissa and
/// decimal exponent that the text gives, and object members in order.
#[derive(Debug)]
pub enum JsonModel {
    Null,
    Bool(bool),
    Number(bool, u64, i16),
    Text(String),
    Array(Vec<JsonModel>),
    Object(Vec<(String, JsonModel)>),
}

/// The value that a JSON text reads as; `None` when the text is not JSON.
pub uninterp spec fn json_doc_of(text: Seq<char>) -> Option<JsonModel>;

/// A JSON value as the json crate builds it.
#[verifier::external_type_specification]
#[verifier::external_body]
pub struct ExJsonValue(json::JsonValue);

/// Relies on the variants of `JsonValue` (and `Number::as_parts`,
/// `Object::iter`): the same value as plain data.
#[verifier::external_body]
fn model_of(v: &JsonValue) -> JsonModel {
    match v {
        JsonValue::Null => JsonModel::Null,
        JsonValue::Short(s) => JsonModel::Text(s.as_str().to_string()),
        JsonValue::String(s) => JsonModel::Text(s.clone()),
        JsonValue::Number(n) => {
            let (p, m, e) = n.as_parts();
            JsonModel::Number(p, m, e)
        },
        JsonValue::Boolean(b) => JsonModel::Bool(*b),
        JsonValue::Object(o) => JsonModel::Object(o.iter().map(|(k, x)| (k.to_string(), model_of(x))).collect()),
        JsonValue::Array(a) => JsonModel::Array(a.iter().map(model_of).collect()),
    }
}

/// The longest run of digits after a decimal point that the json crate
/// reads: each such digit lowers an `i16` exponent that starts at zero or above.
pub const FRACTION_LIMIT: usize = 32767;

pub open spec fn is_digit_char(c: char) -> bool {
    48 <= (c as u32) <= 57
}

/// Whether `s` holds `n` digits from index `i` on.
pub open spec fn digit_run(s: Seq<char>, i: int, n: int) -> bool {
    &&& 0 <= i
    &&& i + n <= s.len()
    &&& forall|k: int| i <= k < i + n ==> is_digit_char(#[trigger] s[k])
}

/// Whether no decimal point in `s` is followed by more than `FRACTION_LIMIT` digits.
pub open spec fn fractions_bounded(s: Seq<char>) -> bool {
    forall|i: int| 0 <= i < s.len() && s[i] == '.' ==> !digit_run(s, i + 1, FRACTION_LIMIT + 1)
}

fn is_digit(c: char) -> (r: bool)
    ensures
        r == is_digit_char(c),
{
    let v = c as u32;
    48 <= v && v <= 57
}

/// Whether no decimal point in the text is followed by more than `FRACTION_LIMIT` digits.
fn check_fractions(text: &str) -> (r: bool)
    ensures
        r == fractions_bounded(text@),
{
    let cs = chars_of(text);
    let n = cs.len();
    let mut i: usize = 0;
    while i < n
        invariant
            n == cs@.len(),
            cs@ == text@,
            i <= n,
            forall|p: int| 0 <= p < i && cs@[p] == '.' ==> !digit_run(cs@, p + 1, FRACTION_LIMIT + 1),
        decreases n - i,
    {
        if cs[i] == '.' {
            let mut k: usize = 0;
            while k <= FRACTION_LIMIT && k < n - i - 1 && is_digit(cs[i + 1 + k])
                invariant
                    i < n,
                    n == cs@.len(),
                    k <= FRACTION_LIMIT + 1,
                    i + 1 + k <= n,
                    forall|j: int| i + 1 <= j < i + 1 + k ==> is_digit_char(#[trigger] cs@[j]),
                decreases FRACTION_LIMIT + 1 - k,
            {
                k = k + 1;
            }
            if k > FRACTION_LIMIT {
                assert(digit_run(cs@, i + 1, FRACTION_LIMIT + 1));
                return false;
            }
            if k < n - i - 1 {
                assert(!is_digit_char(cs@[i + 1 + k]));
            }
        }
        i = i + 1;
    }
    true
}

/// Relies on `json::parse`, and on the `Display` of its error for the
/// description of what is wrong with the text. The parser lowers an `i16`
/// exponent once for each digit after a decimal point, without a check, so
/// longer runs of such digits are left out.
#[verifier::external_body]
fn parse_json(text: &str) -> (r: Result<JsonModel, String>)
    requires
        fractions_bounded(text@),
    ensures
        r is Ok <==> json_doc_of(text@) is Some,
        r is Ok ==> r->Ok_0 == json_doc_of(text@)->Some_0,
{
    match json::parse(text) {
        Ok(v) => Ok(model_of(&v)),
        Err(e) => Err(e.to_string()),
    }
}

/// Whether the text is JSON that this library reads: no decimal point is
/// followed by more than `FRACTION_LIMIT` digits, and the json crate reads it.
pub open spec fn readable_json(text: Seq<char>) -> bool {
    fractions_bounded(text) && json_doc_of(text) is Some
}

/// Reads a JSON text; the error describes what is wrong with it. A text in
/// which a decimal point is followed by more than `FRACTION_LIMIT` digits is
/// refused.
pub fn parse_document(text: &str) -> (r: Result<JsonModel, String>)
    ensures
        r is Ok <==> readable_json(text@),
        r is Ok ==> r->Ok_0 == json_doc_of(text@)->Some_0,
{
    if !check_fractions(text) {
        return Err(String::from_str("a number has too many digits after its decimal point"));
    }
    parse_json(text)
}

/// The member `key` of an object from index `i` on: the first with that key.
pub open spec fn member_from(members: Seq<(String, JsonModel)>, key: Seq<char>, i: int) -> Option<JsonModel>
    decreases members.len() - i,
{
    if i < 0 || i >= members.len() {
        None
    } else if members[i].0@ == key {
        Some(members[i].1)
    } else {
        member_from(members, key, i + 1)
    }
}

/// The member `key` of a value; `None` when it is not an object or has no such member.
pub open spec fn field_of(v: JsonModel, key: Seq<char>) -> Option<JsonModel> {
    match v {
        JsonModel::Object(members) => member_from(members@, key, 0),
        _ => None,
    }
}

/// The text of a string value.
pub open spec fn text_at(f: Option<JsonModel>) -> Option<Seq<char>> {
    match f {
        Some(JsonModel::Text(s)) => Some(s@),
        _ => None,
    }
}

/// The parts of a number value.
pub open spec fn number_at(f: Option<JsonModel>) -> Option<(bool, u64, i16)> {
    match f {
        Some(JsonModel::Number(p, m, e)) => Some((p, m, e)),
        _ => None,
    }
}

/// Whether a value is an array of strings.
pub open spec fn labels_at(f: Option<JsonModel>) -> bool {
    match f {
        Some(JsonModel::Array(items)) => forall|i: int| 0 <= i < items@.len() ==> (#[trigger] items@[i]) is Text,
        _ => false,
    }
}

/// The strings of an array value, as a set.
pub open spec fn label_set_at(f: Option<JsonModel>) -> Set<Seq<char>> {
    match f {
        Some(JsonModel::Array(items)) => Set::new(
            |t: Seq<char>|
                exists|i: int| 0 <= i < items@.len() && (#[trigger] items@[i]) is Text && items@[i]->Text_0@ == t,
        ),
        _ => Set::empty(),
    }
}

/// The value that an optional reference points to.
pub open spec fn deref_opt(f: Option<&JsonModel>) -> Option<JsonModel> {
    match f {
        Some(x) => Some(*x),
        None => None,
    }
}

/// The member `key` of a value.
pub fn json_field<'a>(v: &'a JsonModel, key: &str) -> (r: Option<&'a JsonModel>)
    ensures
        deref_opt(r) == field_of(*v, key@),
{
    match v {
        JsonModel::Object(members) => {
            let mut i: usize = 0;
            while i < members.len()
                invariant
                    i <= members@.len(),
                    *v == JsonModel::Object(*members),
                    member_from(members@, key@, 0) == member_from(members@, key@, i as int),
                decreases members@.len() - i,
            {
                if text_eq(members[i].0.as_str(), key) {
                    assert(members@[i as int].0@ == key@);
                    assert(member_from(members@, key@, i as int) == Some(members@[i as int].1));
                    let found = &members[i].1;
                    assert(*found == members@[i as int].1);
                    assert(field_of(*v, key@) == member_from(members@, key@, 0));
                    return Some(found);
                }
                i = i + 1;
            }
            None
        },
        _ => None,
    }
}

/// The text of a string value.
pub fn json_text(f: Option<&JsonModel>) -> (r: Option<String>)
    ensures
        r is Some <==> text_at(deref_opt(f)) is Some,
        r is Some ==> r->Some_0@ == text_at(deref_opt(f))->Some_0,
{
    match f {
        Some(JsonModel::Text(s)) => Some(s.clone()),
        _ => None,
    }
}

/// The parts of a number value.
pub fn json_number(f: Option<&JsonModel>) -> (r: Option<(bool, u64, i16)>)
    ensures
        r == number_at(deref_opt(f)),
{
    match f {
        Some(JsonModel::Number(p, m, e)) => Some((*p, *m, *e)),
        _ => None,
    }
}

/// The members of an array value, each as its text where it is a string;
/// `None` when the value is not an array.
pub fn json_string_list(f: Option<&JsonModel>) -> (r: Option<Vec<Option<String>>>)
    ensures
        r is Some <==> f is Some && *f->Some_0 is Array,
        r is Some ==> {
            let items = f->Some_0->Array_0@;
            &&& r->Some_0@.len() == items.len()
            &&& forall|i: int| 0 <= i < items.len() ==> ((#[trigger] r->Some_0@[i]) is Some <==> items[i] is Text)
            &&& forall|i: int| 0 <= i < items.len() && items[i] is Text ==> (#[trigger] r->Some_0@[i])->Some_0@ == items[i]->Text_0@
        },
{
    match f {
        Some(JsonModel::Array(items)) => {
            let mut out: Vec<Option<String>> = Vec::new();
            let mut i: usize = 0;
            while i < items.len()
                invariant
                    i <= items@.len(),
                    out@.len() == i,
                    forall|k: int| 0 <= k < i ==> ((#[trigger] out@[k]) is Some <==> items@[k] is Text),
                    forall|k: int| 0 <= k < i && items@[k] is Text ==> (#[trigger] out@[k])->Some_0@ == items@[k]->Text_0@,
                decreases items@.len() - i,
            {
                let t = match &items[i] {
                    JsonModel::Text(s) => Some(s.clone()),
                    _ => None,
                };
                out.push(t);
                i = i + 1;
            }
            Some(out)
        },
        _ => None,
    }
}

} // verus!
