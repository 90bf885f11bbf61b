//! Ordering of JSON values for sorting.
use std::cmp::Ordering;

use vstd::prelude::*;

use crate::json::{
    chars_equal, chars_less, chars_of, drop_first_char, lemma_str_lt_asymmetric, lemma_str_lt_irreflexive,
    lemma_str_lt_lexicographic, lemma_str_lt_total, lemma_str_lt_transitive, str_lt, JsonNumber, JsonSpec, JsonValue,
};

verus! {

/// Rank of a value's type: null < bool < number < string < array < object.
pub open spec fn type_order(v: JsonSpec) -> nat {
    match v {
        JsonSpec::Null => 0,
        JsonSpec::Bool(_) => 1,
        JsonSpec::Number(_, _) => 2,
        JsonSpec::String(_) => 3,
        JsonSpec::Array(_) => 4,
        JsonSpec::Object(_) => 5,
    }
}

pub open spec fn nat_order(a: nat, b: nat) -> Ordering {
    if a < b {
        Ordering::Less
    } else if a == b {
        Ordering::Equal
    } else {
        Ordering::Greater
    }
}

pub open spec fn rank_order(a: i64, b: i64) -> Ordering {
    if a < b {
        Ordering::Less
    } else if a == b {
        Ordering::Equal
    } else {
        Ordering::Greater
    }
}

pub open spec fn bool_order(a: bool, b: bool) -> Ordering {
    if a == b {
        Ordering::Equal
    } else if !a {
        Ordering::Less
    } else {
        Ordering::Greater
    }
}

/// Lexicographic order of strings.
pub open spec fn str_order(a: Seq<char>, b: Seq<char>) -> Ordering {
    if str_lt(a, b) {
        Ordering::Less
    } else if a == b {
        Ordering::Equal
    } else {
        Ordering::Greater
    }
}

pub open spec fn reversed(o: Ordering) -> Ordering {
    match o {
        Ordering::Less => Ordering::Greater,
        Ordering::Equal => Ordering::Equal,
        Ordering::Greater => Ordering::Less,
    }
}

pub open spec fn starts_with_minus(s: Seq<char>) -> bool {
    s.len() > 0 && s[0] == '-'
}

/// Order of two numbers by their text alone: a negative number is below a
/// non-negative one; otherwise the shorter digit string is nearer zero and
/// equal lengths go by the characters, the order reversed for two negatives.
pub open spec fn number_text_order(sa: Seq<char>, sb: Seq<char>) -> Ordering {
    let na = starts_with_minus(sa);
    let nb = starts_with_minus(sb);
    if na && !nb {
        Ordering::Less
    } else if !na && nb {
        Ordering::Greater
    } else {
        let x = if na { sa.drop_first() } else { sa };
        let y = if na { sb.drop_first() } else { sb };
        let by_len = nat_order(x.len(), y.len());
        let by_chars = str_order(x, y);
        let o = if by_len == Ordering::Equal { by_chars } else { by_len };
        if na { reversed(o) } else { o }
    }
}

/// Order of two numbers: by their double values where both have one, else by text.
pub open spec fn number_order(a: (Seq<char>, Option<i64>), b: (Seq<char>, Option<i64>)) -> Ordering {
    match (a.1, b.1) {
        (Some(fa), Some(fb)) => rank_order(fa, fb),
        _ => number_text_order(a.0, b.0),
    }
}

/// The sorting order of JSON values: first by type, then within the type by
/// value (booleans, numbers, strings) or by size (arrays, objects).
pub open spec fn json_order(a: JsonSpec, b: JsonSpec) -> Ordering {
    if type_order(a) != type_order(b) {
        nat_order(type_order(a), type_order(b))
    } else {
        match (a, b) {
            (JsonSpec::Bool(x), JsonSpec::Bool(y)) => bool_order(x, y),
            (JsonSpec::Number(ta, ra), JsonSpec::Number(tb, rb)) => number_order((ta, ra), (tb, rb)),
            (JsonSpec::String(x), JsonSpec::String(y)) => str_order(x, y),
            (JsonSpec::Array(x), JsonSpec::Array(y)) => nat_order(x.len(), y.len()),
            (JsonSpec::Object(x), JsonSpec::Object(y)) => nat_order(x.len(), y.len()),
            _ => Ordering::Equal,
        }
    }
}

/// The sorting order of possibly missing values: a missing value comes first.
pub open spec fn optional_order(a: Option<JsonSpec>, b: Option<JsonSpec>) -> Ordering {
    match (a, b) {
        (None, None) => Ordering::Equal,
        (None, Some(_)) => Ordering::Less,
        (Some(_), None) => Ordering::Greater,
        (Some(x), Some(y)) => json_order(x, y),
    }
}

/// A value whose order does not rest on the text of a number: it is no number,
/// or a number with a double value.
pub open spec fn has_float_rank(v: JsonSpec) -> bool {
    match v {
        JsonSpec::Number(_, r) => r is Some,
        _ => true,
    }
}

/// The view of a possibly missing value.
pub open spec fn optional_view(a: Option<&JsonValue>) -> Option<JsonSpec> {
    match a {
        Some(x) => Some(x@),
        None => None,
    }
}

/// `a` sorts strictly after `b`.
pub open spec fn sorts_after(a: Option<JsonSpec>, b: Option<JsonSpec>) -> bool {
    optional_order(a, b) == Ordering::Greater
}

/// A possibly missing value whose order does not rest on the text of a number.
pub open spec fn optional_has_float_rank(a: Option<JsonSpec>) -> bool {
    match a {
        Some(x) => has_float_rank(x),
        None => true,
    }
}

// ---------------------------------------------------------------------------
// Laws of the order
// ---------------------------------------------------------------------------

proof fn lemma_str_order_antisymmetric(a: Seq<char>, b: Seq<char>)
    ensures
        str_order(a, b) == reversed(str_order(b, a)),
{
    lemma_str_lt_asymmetric(a, b);
    lemma_str_lt_asymmetric(b, a);
    lemma_str_lt_total(a, b);
    lemma_str_lt_irreflexive(a);
}

proof fn lemma_number_order_antisymmetric(a: (Seq<char>, Option<i64>), b: (Seq<char>, Option<i64>))
    ensures
        number_order(a, b) == reversed(number_order(b, a)),
{
    let na = starts_with_minus(a.0);
    let nb = starts_with_minus(b.0);
    if na == nb {
        let x = if na { a.0.drop_first() } else { a.0 };
        let y = if na { b.0.drop_first() } else { b.0 };
        lemma_str_order_antisymmetric(x, y);
    }
}

/// Every value is equal to itself in the sorting order.
pub proof fn lemma_json_order_reflexive(a: JsonSpec)
    ensures
        json_order(a, a) == Ordering::Equal,
{
    match a {
        JsonSpec::Number(t, _) => {
            if starts_with_minus(t) {
                lemma_str_lt_irreflexive(t.drop_first());
            } else {
                lemma_str_lt_irreflexive(t);
            }
        },
        JsonSpec::String(t) => {
            lemma_str_lt_irreflexive(t);
        },
        _ => {},
    }
}

/// Swapping the two values reverses their order.
pub proof fn lemma_json_order_antisymmetric(a: JsonSpec, b: JsonSpec)
    ensures
        json_order(a, b) == reversed(json_order(b, a)),
{
    match (a, b) {
        (JsonSpec::Number(ta, ra), JsonSpec::Number(tb, rb)) => {
            lemma_number_order_antisymmetric((ta, ra), (tb, rb));
        },
        (JsonSpec::String(x), JsonSpec::String(y)) => {
            lemma_str_order_antisymmetric(x, y);
        },
        _ => {},
    }
}

/// A missing value is equal to a missing one and below a present one; two present
/// values keep their order; swapping the arguments reverses the result.
pub proof fn lemma_optional_order_antisymmetric(a: Option<JsonSpec>, b: Option<JsonSpec>)
    ensures
        optional_order(a, b) == reversed(optional_order(b, a)),
{
    if let (Some(x), Some(y)) = (a, b) {
        lemma_json_order_antisymmetric(x, y);
    }
}

proof fn lemma_str_order_transitive(a: Seq<char>, b: Seq<char>, c: Seq<char>)
    requires
        str_order(a, b) != Ordering::Greater,
        str_order(b, c) != Ordering::Greater,
    ensures
        str_order(a, c) != Ordering::Greater,
        str_order(a, b) == Ordering::Less || str_order(b, c) == Ordering::Less ==> str_order(a, c)
            == Ordering::Less,
{
    if str_lt(a, b) && str_lt(b, c) {
        lemma_str_lt_transitive(a, b, c);
    }
    lemma_str_lt_irreflexive(a);
}

/// Order of two digit strings: by length, then by characters.
spec fn len_chars_order(x: Seq<char>, y: Seq<char>) -> Ordering {
    if nat_order(x.len(), y.len()) == Ordering::Equal {
        str_order(x, y)
    } else {
        nat_order(x.len(), y.len())
    }
}

proof fn lemma_len_chars_antisymmetric(x: Seq<char>, y: Seq<char>)
    ensures
        len_chars_order(x, y) == reversed(len_chars_order(y, x)),
{
    lemma_str_order_antisymmetric(x, y);
}

proof fn lemma_len_chars_transitive(x: Seq<char>, y: Seq<char>, z: Seq<char>)
    requires
        len_chars_order(x, y) != Ordering::Greater,
        len_chars_order(y, z) != Ordering::Greater,
    ensures
        len_chars_order(x, z) != Ordering::Greater,
        len_chars_order(x, y) == Ordering::Less || len_chars_order(y, z) == Ordering::Less ==> len_chars_order(x, z)
            == Ordering::Less,
{
    if x.len() == y.len() && y.len() == z.len() {
        lemma_str_order_transitive(x, y, z);
    }
}

/// The order of numbers by their text is transitive.
proof fn lemma_number_text_order_transitive(a: Seq<char>, b: Seq<char>, c: Seq<char>)
    requires
        number_text_order(a, b) != Ordering::Greater,
        number_text_order(b, c) != Ordering::Greater,
    ensures
        number_text_order(a, c) != Ordering::Greater,
        number_text_order(a, b) == Ordering::Less || number_text_order(b, c) == Ordering::Less ==> number_text_order(
            a,
            c,
        ) == Ordering::Less,
{
    let (na, nb, nc) = (starts_with_minus(a), starts_with_minus(b), starts_with_minus(c));
    if na == nb && nb == nc {
        if na {
            let (x, y, z) = (a.drop_first(), b.drop_first(), c.drop_first());
            assert(number_text_order(a, b) == reversed(len_chars_order(x, y)));
            assert(number_text_order(b, c) == reversed(len_chars_order(y, z)));
            assert(number_text_order(a, c) == reversed(len_chars_order(x, z)));
            lemma_len_chars_antisymmetric(x, y);
            lemma_len_chars_antisymmetric(y, z);
            lemma_len_chars_antisymmetric(x, z);
            lemma_len_chars_transitive(z, y, x);
        } else {
            assert(number_text_order(a, b) == len_chars_order(a, b));
            assert(number_text_order(b, c) == len_chars_order(b, c));
            assert(number_text_order(a, c) == len_chars_order(a, c));
            lemma_len_chars_transitive(a, b, c);
        }
    }
}

/// A number with a double value.
pub open spec fn is_ranked_number(v: JsonSpec) -> bool {
    v matches JsonSpec::Number(_, Some(_))
}

/// A number without a double value (its text denotes no finite double).
pub open spec fn is_rankless_number(v: JsonSpec) -> bool {
    v matches JsonSpec::Number(_, None)
}

/// Among three values, two numbers with a double value meet a number without
/// one: the one case in which the order is not transitive.
pub open spec fn mixes_ranks(a: JsonSpec, b: JsonSpec, c: JsonSpec) -> bool {
    let two_ranked = (is_ranked_number(a) && is_ranked_number(b)) || (is_ranked_number(b) && is_ranked_number(c)) || (
    is_ranked_number(a) && is_ranked_number(c));
    two_ranked && (is_rankless_number(a) || is_rankless_number(b) || is_rankless_number(c))
}

/// The order is transitive, `a <= b` and `b <= c` giving `a <= c` (strictly if
/// either step is strict), except where two numbers with a double value meet a
/// number without one among the three values (`5 < 1e400 < 0.000001 < 5`).
pub proof fn lemma_json_order_transitive(a: JsonSpec, b: JsonSpec, c: JsonSpec)
    requires
        !mixes_ranks(a, b, c),
        json_order(a, b) != Ordering::Greater,
        json_order(b, c) != Ordering::Greater,
    ensures
        json_order(a, c) != Ordering::Greater,
        json_order(a, b) == Ordering::Less || json_order(b, c) == Ordering::Less ==> json_order(a, c)
            == Ordering::Less,
{
    if type_order(a) == type_order(b) && type_order(b) == type_order(c) {
        match (a, b, c) {
            (JsonSpec::String(x), JsonSpec::String(y), JsonSpec::String(z)) => {
                lemma_str_order_transitive(x, y, z);
            },
            (JsonSpec::Number(x, rx), JsonSpec::Number(y, ry), JsonSpec::Number(z, rz)) => {
                if !(rx is Some && ry is Some && rz is Some) {
                    lemma_number_text_order_transitive(x, y, z);
                }
            },
            _ => {},
        }
    }
}

/// Among possibly missing values whose order does not rest on the text of a
/// number, "not after" is transitive.
pub proof fn lemma_sorts_after_transitive(a: Option<JsonSpec>, b: Option<JsonSpec>, c: Option<JsonSpec>)
    requires
        optional_has_float_rank(a),
        optional_has_float_rank(b),
        optional_has_float_rank(c),
        !sorts_after(a, b),
        !sorts_after(b, c),
    ensures
        !sorts_after(a, c),
{
    if let (Some(x), Some(y), Some(z)) = (a, b, c) {
        lemma_json_order_transitive(x, y, z);
    }
}

/// If `a` sorts after `b`, `b` does not sort after `a`.
pub proof fn lemma_sorts_after_asymmetric(a: Option<JsonSpec>, b: Option<JsonSpec>)
    ensures
        sorts_after(a, b) ==> !sorts_after(b, a),
{
    lemma_optional_order_antisymmetric(a, b);
}

// ---------------------------------------------------------------------------
// Executable comparison
// ---------------------------------------------------------------------------

fn order_of_lengths(a: usize, b: usize) -> (r: Ordering)
    ensures
        r == Ordering::Less <==> a < b,
        r == Ordering::Equal <==> a == b,
        r == Ordering::Greater <==> a > b,
{
    if a < b {
        Ordering::Less
    } else if a == b {
        Ordering::Equal
    } else {
        Ordering::Greater
    }
}

fn order_of_ranks(a: i64, b: i64) -> (r: Ordering)
    ensures
        r == rank_order(a, b),
{
    if a < b {
        Ordering::Less
    } else if a == b {
        Ordering::Equal
    } else {
        Ordering::Greater
    }
}

fn reverse_order(o: Ordering) -> (r: Ordering)
    ensures
        r == reversed(o),
{
    match o {
        Ordering::Less => Ordering::Greater,
        Ordering::Equal => Ordering::Equal,
        Ordering::Greater => Ordering::Less,
    }
}

/// Lexicographic order of two character sequences.
fn order_of_chars(a: &Vec<char>, b: &Vec<char>) -> (r: Ordering)
    ensures
        r == str_order(a@, b@),
{
    if chars_less(a, b) {
        Ordering::Less
    } else if chars_equal(a, b) {
        Ordering::Equal
    } else {
        Ordering::Greater
    }
}

/// Lexicographic order of two strings.
pub fn order_of_strings(a: &str, b: &str) -> (r: Ordering)
    ensures
        r == str_order(a@, b@),
{
    let x = chars_of(a);
    let y = chars_of(b);
    order_of_chars(&x, &y)
}

fn order_of_number_texts(sa: &str, sb: &str) -> (r: Ordering)
    ensures
        r == number_text_order(sa@, sb@),
{
    let a = chars_of(sa);
    let b = chars_of(sb);
    let na = a.len() > 0 && a[0] == '-';
    let nb = b.len() > 0 && b[0] == '-';
    if na && !nb {
        return Ordering::Less;
    }
    if !na && nb {
        return Ordering::Greater;
    }
    let (x, y) = if na {
        (drop_first_char(&a), drop_first_char(&b))
    } else {
        (a, b)
    };
    let by_len = order_of_lengths(x.len(), y.len());
    let o = match by_len {
        Ordering::Equal => order_of_chars(&x, &y),
        _ => by_len,
    };
    if na {
        reverse_order(o)
    } else {
        o
    }
}

fn order_of_numbers(a: &JsonNumber, b: &JsonNumber) -> (r: Ordering)
    ensures
        r == number_order(a@, b@),
{
    match (a.float_rank, b.float_rank) {
        (Some(fa), Some(fb)) => order_of_ranks(fa, fb),
        _ => order_of_number_texts(a.text.as_str(), b.text.as_str()),
    }
}

fn type_rank(v: &JsonValue) -> (r: usize)
    ensures
        r == type_order(v@),
{
    match v {
        JsonValue::Null => 0,
        JsonValue::Bool(_) => 1,
        JsonValue::Number(_) => 2,
        JsonValue::String(_) => 3,
        JsonValue::Array(_) => 4,
        JsonValue::Object(_) => 5,
    }
}

/// Compares two JSON values for sorting purposes.
pub fn compare_json_values(a: &JsonValue, b: &JsonValue) -> (r: Ordering)
    ensures
        r == json_order(a@, b@),
{
    let ta = type_rank(a);
    let tb = type_rank(b);
    if ta != tb {
        return order_of_lengths(ta, tb);
    }
    match (a, b) {
        (JsonValue::Null, JsonValue::Null) => Ordering::Equal,
        (JsonValue::Bool(x), JsonValue::Bool(y)) => {
            if *x == *y {
                Ordering::Equal
            } else if !*x {
                Ordering::Less
            } else {
                Ordering::Greater
            }
        },
        (JsonValue::Number(x), JsonValue::Number(y)) => order_of_numbers(x, y),
        (JsonValue::String(x), JsonValue::String(y)) => order_of_strings(x.as_str(), y.as_str()),
        (JsonValue::Array(x), JsonValue::Array(y)) => order_of_lengths(x.len(), y.len()),
        (JsonValue::Object(x), JsonValue::Object(y)) => order_of_lengths(x.len(), y.len()),
        _ => Ordering::Equal,
    }
}

/// Compares two optional values for sorting purposes.
pub fn compare_values(a: Option<&JsonValue>, b: Option<&JsonValue>) -> (r: Ordering)
    ensures
        r == optional_order(
            match a {
                Some(x) => Some(x@),
                None => None,
            },
            match b {
                Some(x) => Some(x@),
                None => None,
            },
        ),
{
    match (a, b) {
        (None, None) => Ordering::Equal,
        (None, Some(_)) => Ordering::Less,
        (Some(_), None) => Ordering::Greater,
        (Some(x), Some(y)) => compare_json_values(x, y),
    }
}

/// Whether the first possibly missing value sorts strictly after the second.
pub fn value_sorts_after(a: Option<&JsonValue>, b: Option<&JsonValue>) -> (r: bool)
    ensures
        r == sorts_after(optional_view(a), optional_view(b)),
{
    match compare_values(a, b) {
        Ordering::Greater => true,
        _ => false,
    }
}

/// Two strings compare by their characters in lexicographic order, whatever
/// their lengths: the first comes before the second exactly when, after a
/// common prefix, it ends while the second goes on or has the smaller
/// character; they are equal only when identical; otherwise the first comes
/// after.
pub proof fn lemma_string_order_lexicographic(a: Seq<char>, b: Seq<char>)
    ensures
        json_order(JsonSpec::String(a), JsonSpec::String(b)) == Ordering::Less <==> exists|k: int|
            0 <= k <= a.len() && k < b.len() && #[trigger] a.subrange(0, k) == b.subrange(0, k) && (k
                == a.len() || a[k] < b[k]),
        json_order(JsonSpec::String(a), JsonSpec::String(b)) == Ordering::Equal <==> a == b,
        json_order(JsonSpec::String(a), JsonSpec::String(b)) == Ordering::Greater <==> exists|k: int|
            0 <= k <= b.len() && k < a.len() && #[trigger] b.subrange(0, k) == a.subrange(0, k) && (k
                == b.len() || b[k] < a[k]),
{
    lemma_str_lt_lexicographic(a, b);
    lemma_str_lt_lexicographic(b, a);
    lemma_str_order_antisymmetric(a, b);
    lemma_str_lt_irreflexive(a);
}

} // verus!
