//! Matching documents against filters.
use vstd::prelude::*;

use crate::document::Document;
use crate::json::{chars_of, get_field, get_field_value, json_equal, JsonSpec, JsonValue};
use crate::query::Filter;

verus! {

/// `t` occurs in `s` as a run of consecutive characters.
pub open spec fn has_substring(s: Seq<char>, t: Seq<char>) -> bool {
    exists|i: int| 0 <= i && i + t.len() <= s.len() && #[trigger] s.subrange(i, i + t.len()) == t
}

/// `s` begins with `t`.
pub open spec fn has_prefix(s: Seq<char>, t: Seq<char>) -> bool {
    t.len() <= s.len() && s.subrange(0, t.len() as int) == t
}

/// `s` ends with `t`.
pub open spec fn has_suffix(s: Seq<char>, t: Seq<char>) -> bool {
    t.len() <= s.len() && s.subrange(s.len() - t.len(), s.len() as int) == t
}

/// The rank of a number's double value, with a number that has none taken as `0.0`.
pub open spec fn rank_or_zero(r: Option<i64>) -> i64 {
    match r {
        Some(x) => x,
        None => 0,
    }
}

/// For a numeric filter: the ranks of the field's number and of the filter's number,
/// when both are numbers.
pub open spec fn numeric_operands(data: JsonSpec, field: Seq<char>, value: JsonSpec) -> Option<(i64, i64)> {
    match value {
        JsonSpec::Number(_, rv) => match get_field(data, field) {
            Some(JsonSpec::Number(_, rn)) => Some((rank_or_zero(rn), rank_or_zero(rv))),
            _ => None,
        },
        _ => None,
    }
}

/// Whether a value is a string containing the text.
pub open spec fn string_has_text(v: JsonSpec, t: Seq<char>) -> bool {
    match v {
        JsonSpec::String(s) => has_substring(s, t),
        _ => false,
    }
}

/// Whether a string, or some string element of an array, contains the text.
pub open spec fn contains_text(v: Option<JsonSpec>, t: Seq<char>) -> bool {
    match v {
        Some(JsonSpec::String(s)) => has_substring(s, t),
        Some(JsonSpec::Array(a)) => exists|i: int| 0 <= i < a.len() && string_has_text(#[trigger] a[i], t),
        _ => false,
    }
}

/// Whether data satisfies one filter.
pub open spec fn filter_holds(data: JsonSpec, f: Filter) -> bool
    decreases f,
{
    match f {
        Filter::Equals(field, value) => get_field(data, field@) == Some(value@),
        Filter::GreaterThan(field, value) => match numeric_operands(data, field@, value@) {
            Some((n, v)) => n > v,
            None => false,
        },
        Filter::LessThan(field, value) => match numeric_operands(data, field@, value@) {
            Some((n, v)) => n < v,
            None => false,
        },
        Filter::GreaterOrEqual(field, value) => match numeric_operands(data, field@, value@) {
            Some((n, v)) => n >= v,
            None => false,
        },
        Filter::LessOrEqual(field, value) => match numeric_operands(data, field@, value@) {
            Some((n, v)) => n <= v,
            None => false,
        },
        Filter::In(field, values) => match get_field(data, field@) {
            Some(x) => exists|i: int| 0 <= i < values@.len() && #[trigger] values@[i]@ == x,
            None => false,
        },
        Filter::Contains(field, text) => contains_text(get_field(data, field@), text@),
        Filter::StartsWith(field, text) => match get_field(data, field@) {
            Some(JsonSpec::String(s)) => has_prefix(s, text@),
            _ => false,
        },
        Filter::EndsWith(field, text) => match get_field(data, field@) {
            Some(JsonSpec::String(s)) => has_suffix(s, text@),
            _ => false,
        },
        Filter::Exists(field, exists) => (get_field(data, field@) is Some) == exists,
        Filter::And(l, r) => filter_holds(data, *l) && filter_holds(data, *r),
        Filter::Or(l, r) => filter_holds(data, *l) || filter_holds(data, *r),
    }
}

/// Whether data satisfies every filter of the list.
pub open spec fn all_filters_hold(data: JsonSpec, filters: Seq<&Filter>) -> bool {
    forall|i: int| 0 <= i < filters.len() ==> filter_holds(data, *#[trigger] filters[i])
}

// ---------------------------------------------------------------------------
// Executable string tests
// ---------------------------------------------------------------------------

/// Whether `t` occurs in `s` at position `at`.
fn occurs_at(s: &Vec<char>, t: &Vec<char>, at: usize) -> (r: bool)
    requires
        at + t@.len() <= s@.len(),
    ensures
        r == (s@.subrange(at as int, at + t@.len()) == t@),
{
    let mut j: usize = 0;
    let n = s.len();
    while j < t.len()
        invariant
            j <= t@.len(),
            n == s@.len(),
            at + t@.len() <= s@.len(),
            forall|k: int| 0 <= k < j ==> s@[at + k] == t@[k],
        decreases t@.len() - j,
    {
        if s[at + j] != t[j] {
            assert(s@.subrange(at as int, at + t@.len())[j as int] != t@[j as int]);
            return false;
        }
        j += 1;
    }
    assert(s@.subrange(at as int, at + t@.len()) =~= t@);
    true
}

/// Whether `t` occurs anywhere in `s`.
pub fn contains_chars(s: &Vec<char>, t: &Vec<char>) -> (r: bool)
    ensures
        r == has_substring(s@, t@),
{
    if t.len() > s.len() {
        return false;
    }
    let last = s.len() - t.len();
    let mut i: usize = 0;
    loop
        invariant
            i <= last,
            last + t@.len() == s@.len(),
            forall|k: int| 0 <= k < i ==> #[trigger] s@.subrange(k, k + t@.len()) != t@,
        decreases last - i,
    {
        if occurs_at(s, t, i) {
            return true;
        }
        if i == last {
            assert forall|k: int| 0 <= k && k + t@.len() <= s@.len() implies #[trigger] s@.subrange(
                k,
                k + t@.len(),
            ) != t@ by {
                assert(k <= i);
            }
            return false;
        }
        i += 1;
    }
}

/// Whether `s` begins with `t`.
pub fn starts_with_chars(s: &Vec<char>, t: &Vec<char>) -> (r: bool)
    ensures
        r == has_prefix(s@, t@),
{
    if t.len() > s.len() {
        return false;
    }
    occurs_at(s, t, 0)
}

/// Whether `s` ends with `t`.
pub fn ends_with_chars(s: &Vec<char>, t: &Vec<char>) -> (r: bool)
    ensures
        r == has_suffix(s@, t@),
{
    if t.len() > s.len() {
        return false;
    }
    occurs_at(s, t, s.len() - t.len())
}

// ---------------------------------------------------------------------------
// Filter evaluation
// ---------------------------------------------------------------------------

/// The ranks of the field's number and of the filter's number, when both are numbers.
fn numeric_operands_of(data: &JsonValue, field: &str, value: &JsonValue) -> (r: Option<(i64, i64)>)
    ensures
        r == numeric_operands(data@, field@, value@),
{
    match value {
        JsonValue::Number(v) => match get_field_value(data, field) {
            Some(JsonValue::Number(n)) => {
                let rn = match n.float_rank {
                    Some(x) => x,
                    None => 0,
                };
                let rv = match v.float_rank {
                    Some(x) => x,
                    None => 0,
                };
                Some((rn, rv))
            },
            _ => None,
        },
        _ => None,
    }
}

fn text_in_field(field_value: Option<&JsonValue>, text: &str) -> (r: bool)
    ensures
        r == contains_text(
            match field_value {
                Some(x) => Some(x@),
                None => None,
            },
            text@,
        ),
{
    let t = chars_of(text);
    match field_value {
        Some(JsonValue::String(s)) => {
            let sc = chars_of(s.as_str());
            contains_chars(&sc, &t)
        },
        Some(JsonValue::Array(arr)) => {
            let ghost av = match field_value {
                Some(x) => x@,
                None => JsonSpec::Null,
            };
            assert(av == JsonSpec::Array(av->Array_0));
            let mut i: usize = 0;
            while i < arr.len()
                invariant
                    i <= arr@.len(),
                    t@ == text@,
                    av is Array,
                    match field_value {
                        Some(x) => x@ == av,
                        None => false,
                    },
                    av->Array_0.len() == arr@.len(),
                    forall|k: int| 0 <= k < arr@.len() ==> av->Array_0[k] == (#[trigger] arr@[k])@,
                    forall|k: int| 0 <= k < i ==> !string_has_text(#[trigger] av->Array_0[k], t@),
                decreases arr@.len() - i,
            {
                if let JsonValue::String(s) = &arr[i] {
                    let sc = chars_of(s.as_str());
                    if contains_chars(&sc, &t) {
                        assert(string_has_text(av->Array_0[i as int], t@));
                        return true;
                    }
                }
                i += 1;
            }
            false
        },
        _ => false,
    }
}

/// Whether the data satisfies one filter.
pub fn filter_matches(data: &JsonValue, filter: &Filter) -> (r: bool)
    ensures
        r == filter_holds(data@, *filter),
    decreases filter,
{
    match filter {
        Filter::Equals(field, value) => match get_field_value(data, field.as_str()) {
            Some(x) => json_equal(x, value),
            None => false,
        },
        Filter::GreaterThan(field, value) => match numeric_operands_of(data, field.as_str(), value) {
            Some((n, v)) => n > v,
            None => false,
        },
        Filter::LessThan(field, value) => match numeric_operands_of(data, field.as_str(), value) {
            Some((n, v)) => n < v,
            None => false,
        },
        Filter::GreaterOrEqual(field, value) => match numeric_operands_of(data, field.as_str(), value) {
            Some((n, v)) => n >= v,
            None => false,
        },
        Filter::LessOrEqual(field, value) => match numeric_operands_of(data, field.as_str(), value) {
            Some((n, v)) => n <= v,
            None => false,
        },
        Filter::In(field, values) => match get_field_value(data, field.as_str()) {
            Some(x) => {
                let mut i: usize = 0;
                while i < values.len()
                    invariant
                        i <= values@.len(),
                        *filter == Filter::In(*field, *values),
                        get_field(data@, field@) == Some(x@),
                        forall|k: int| 0 <= k < i ==> (#[trigger] values@[k])@ != x@,
                    decreases values@.len() - i,
                {
                    if json_equal(&values[i], x) {
                        proof {
                            assert(values@[i as int]@ == x@);
                        }
                        return true;
                    }
                    i += 1;
                }
                false
            },
            None => false,
        },
        Filter::Contains(field, text) => text_in_field(get_field_value(data, field.as_str()), text.as_str()),
        Filter::StartsWith(field, text) => match get_field_value(data, field.as_str()) {
            Some(JsonValue::String(s)) => {
                let sc = chars_of(s.as_str());
                let tc = chars_of(text.as_str());
                starts_with_chars(&sc, &tc)
            },
            _ => false,
        },
        Filter::EndsWith(field, text) => match get_field_value(data, field.as_str()) {
            Some(JsonValue::String(s)) => {
                let sc = chars_of(s.as_str());
                let tc = chars_of(text.as_str());
                ends_with_chars(&sc, &tc)
            },
            _ => false,
        },
        Filter::Exists(field, exists) => {
            let present = get_field_value(data, field.as_str()).is_some();
            present == *exists
        },
        Filter::And(l, r) => filter_matches(data, l) && filter_matches(data, r),
        Filter::Or(l, r) => filter_matches(data, l) || filter_matches(data, r),
    }
}

/// Checks if a document matches all the given filters.
pub fn matches_filters(doc: &Document, filters: &[&Filter]) -> (r: bool)
    ensures
        r == all_filters_hold(doc.data@, filters@),
{
    let mut i: usize = 0;
    while i < filters.len()
        invariant
            i <= filters@.len(),
            forall|k: int| 0 <= k < i ==> filter_holds(doc.data@, *#[trigger] filters@[k]),
        decreases filters@.len() - i,
    {
        if !filter_matches(&doc.data, filters[i]) {
            return false;
        }
        i += 1;
    }
    true
}

/// `Contains` on a string field holds exactly when the text occurs in the string
/// at some position, anywhere in it (not only at its start).
pub proof fn lemma_contains_text_anywhere(data: JsonSpec, field: String, text: String, s: Seq<char>)
    requires
        get_field(data, field@) == Some(JsonSpec::String(s)),
    ensures
        filter_holds(data, Filter::Contains(field, text)) <==> exists|i: int|
            0 <= i && i + text@.len() <= s.len() && #[trigger] s.subrange(i, i + text@.len()) == text@,
{
}

/// `Contains` on an array field holds whenever one string element of the array
/// has the text at some position, not only at its start.
pub proof fn lemma_contains_text_in_array(
    data: JsonSpec,
    field: String,
    text: String,
    a: Seq<JsonSpec>,
    j: int,
    s: Seq<char>,
    i: int,
)
    requires
        get_field(data, field@) == Some(JsonSpec::Array(a)),
        0 <= j < a.len(),
        a[j] == JsonSpec::String(s),
        0 <= i,
        i + text@.len() <= s.len(),
        s.subrange(i, i + text@.len()) == text@,
    ensures
        filter_holds(data, Filter::Contains(field, text)),
{
    let v = JsonSpec::Array(a);
    assert(has_substring(s, text@));
    assert(string_has_text(v->Array_0[j], text@));
}

} // verus!
