//! Rules for document IDs.
use vstd::prelude::*;

use crate::error::SentinelError;
use crate::json::chars_of;

verus! {

/// A character that may appear in a document ID: an ASCII letter or digit, `-` or `_`.
pub open spec fn is_id_char(c: char) -> bool {
    ('a' <= c && c <= 'z') || ('A' <= c && c <= 'Z') || ('0' <= c && c <= '9') || c == '-' || c == '_'
}

/// A control character (general category Cc).
pub open spec fn is_control_char(c: char) -> bool {
    c <= '\u{1f}' || ('\u{7f}' <= c && c <= '\u{9f}')
}

/// A character that Windows reserves in file names.
pub open spec fn is_reserved_char(c: char) -> bool {
    c == '<' || c == '>' || c == ':' || c == '"' || c == '|' || c == '?' || c == '*'
}

/// Whether `c`, upper-cased as ASCII, is the upper-case character `u`.
pub open spec fn upper_matches(c: char, u: char) -> bool {
    c == u || ('A' <= u && u <= 'Z' && (c as u32) == (u as u32) + 32)
}

/// The names that Windows reserves for devices.
pub open spec fn reserved_names() -> Seq<Seq<char>> {
    seq![
        seq!['C', 'O', 'N'],
        seq!['P', 'R', 'N'],
        seq!['A', 'U', 'X'],
        seq!['N', 'U', 'L'],
        seq!['C', 'O', 'M', '1'],
        seq!['C', 'O', 'M', '2'],
        seq!['C', 'O', 'M', '3'],
        seq!['C', 'O', 'M', '4'],
        seq!['C', 'O', 'M', '5'],
        seq!['C', 'O', 'M', '6'],
        seq!['C', 'O', 'M', '7'],
        seq!['C', 'O', 'M', '8'],
        seq!['C', 'O', 'M', '9'],
        seq!['L', 'P', 'T', '1'],
        seq!['L', 'P', 'T', '2'],
        seq!['L', 'P', 'T', '3'],
        seq!['L', 'P', 'T', '4'],
        seq!['L', 'P', 'T', '5'],
        seq!['L', 'P', 'T', '6'],
        seq!['L', 'P', 'T', '7'],
        seq!['L', 'P', 'T', '8'],
        seq!['L', 'P', 'T', '9']
    ]
}

/// `s`, upper-cased as ASCII, equals the upper-case name `n`.
pub open spec fn upper_equals(s: Seq<char>, n: Seq<char>) -> bool {
    s.len() == n.len() && forall|i: int| 0 <= i < n.len() ==> upper_matches(#[trigger] s[i], n[i])
}

/// `s`, upper-cased as ASCII, is the reserved name `n` or `n` followed by a dot and more.
pub open spec fn matches_reserved(s: Seq<char>, n: Seq<char>) -> bool {
    upper_equals(s, n) || (s.len() > n.len() && upper_equals(s.subrange(0, n.len() as int), n) && s[n.len() as int] == '.')
}

/// A Windows reserved device name, in any case, possibly with an extension.
pub open spec fn is_reserved_name(s: Seq<char>) -> bool {
    exists|i: int| 0 <= i < reserved_names().len() && matches_reserved(s, #[trigger] reserved_names()[i])
}

/// The rules a document ID must follow: not empty; no path separator; no control
/// character; no Windows reserved character; not a Windows reserved device name;
/// and only ASCII letters, digits, `-` and `_`.
pub open spec fn valid_document_id(s: Seq<char>) -> bool {
    &&& s.len() > 0
    &&& forall|i: int| 0 <= i < s.len() ==> #[trigger] s[i] != '/' && s[i] != '\\'
    &&& forall|i: int| 0 <= i < s.len() ==> !is_control_char(#[trigger] s[i])
    &&& forall|i: int| 0 <= i < s.len() ==> !is_reserved_char(#[trigger] s[i])
    &&& !is_reserved_name(s)
    &&& forall|i: int| 0 <= i < s.len() ==> is_id_char(#[trigger] s[i])
}

fn reserved_name_list() -> (r: Vec<Vec<char>>)
    ensures
        r@.len() == reserved_names().len(),
        forall|i: int| 0 <= i < r@.len() ==> (#[trigger] r@[i])@ == reserved_names()[i],
{
    let r = vec![
        vec!['C', 'O', 'N'],
        vec!['P', 'R', 'N'],
        vec!['A', 'U', 'X'],
        vec!['N', 'U', 'L'],
        vec!['C', 'O', 'M', '1'],
        vec!['C', 'O', 'M', '2'],
        vec!['C', 'O', 'M', '3'],
        vec!['C', 'O', 'M', '4'],
        vec!['C', 'O', 'M', '5'],
        vec!['C', 'O', 'M', '6'],
        vec!['C', 'O', 'M', '7'],
        vec!['C', 'O', 'M', '8'],
        vec!['C', 'O', 'M', '9'],
        vec!['L', 'P', 'T', '1'],
        vec!['L', 'P', 'T', '2'],
        vec!['L', 'P', 'T', '3'],
        vec!['L', 'P', 'T', '4'],
        vec!['L', 'P', 'T', '5'],
        vec!['L', 'P', 'T', '6'],
        vec!['L', 'P', 'T', '7'],
        vec!['L', 'P', 'T', '8'],
        vec!['L', 'P', 'T', '9']
    ];
    assert forall|i: int| 0 <= i < r@.len() implies (#[trigger] r@[i])@ == reserved_names()[i] by {
        assert(r@[i]@ =~= reserved_names()[i]);
    }
    r
}

fn char_upper_matches(c: char, u: char) -> (r: bool)
    ensures
        r == upper_matches(c, u),
{
    c == u || ('A' <= u && u <= 'Z' && (c as u32) == (u as u32) + 32)
}

/// Whether the first `n.len()` characters of `s`, upper-cased as ASCII, spell `n`.
fn prefix_upper_equals(s: &Vec<char>, n: &Vec<char>) -> (r: bool)
    requires
        n@.len() <= s@.len(),
    ensures
        r == upper_equals(s@.subrange(0, n@.len() as int), n@),
{
    let mut i: usize = 0;
    while i < n.len()
        invariant
            i <= n@.len(),
            n@.len() <= s@.len(),
            forall|j: int| 0 <= j < i ==> upper_matches(s@[j], n@[j]),
        decreases n@.len() - i,
    {
        if !char_upper_matches(s[i], n[i]) {
            assert(s@.subrange(0, n@.len() as int)[i as int] == s@[i as int]);
            return false;
        }
        i += 1;
    }
    assert forall|j: int| 0 <= j < n@.len() implies upper_matches(#[trigger] s@.subrange(0, n@.len() as int)[j], n@[j]) by {
        assert(s@.subrange(0, n@.len() as int)[j] == s@[j]);
    }
    true
}

fn reserved_match(s: &Vec<char>, n: &Vec<char>) -> (r: bool)
    ensures
        r == matches_reserved(s@, n@),
{
    if s.len() == n.len() {
        let eq = prefix_upper_equals(s, n);
        assert(s@.subrange(0, n@.len() as int) =~= s@);
        eq
    } else if s.len() > n.len() {
        prefix_upper_equals(s, n) && s[n.len()] == '.'
    } else {
        false
    }
}

/// Whether the ID is a Windows reserved device name.
pub fn is_reserved_id(id: &str) -> (r: bool)
    ensures
        r == is_reserved_name(id@),
{
    let s = chars_of(id);
    let names = reserved_name_list();
    let mut i: usize = 0;
    while i < names.len()
        invariant
            i <= names@.len(),
            s@ == id@,
            names@.len() == reserved_names().len(),
            forall|k: int| 0 <= k < names@.len() ==> (#[trigger] names@[k])@ == reserved_names()[k],
            forall|k: int| 0 <= k < i ==> !matches_reserved(id@, #[trigger] reserved_names()[k]),
        decreases names@.len() - i,
    {
        if reserved_match(&s, &names[i]) {
            assert(matches_reserved(id@, reserved_names()[i as int]));
            return true;
        }
        i += 1;
    }
    false
}

/// Whether every character of the ID is an ASCII letter or digit, `-` or `_`.
pub fn is_valid_document_id_chars(id: &str) -> (r: bool)
    ensures
        r == forall|i: int| 0 <= i < id@.len() ==> is_id_char(#[trigger] id@[i]),
{
    let s = chars_of(id);
    let mut i: usize = 0;
    while i < s.len()
        invariant
            i <= s@.len(),
            s@ == id@,
            forall|k: int| 0 <= k < i ==> is_id_char(#[trigger] s@[k]),
        decreases s@.len() - i,
    {
        let c = s[i];
        if !(('a' <= c && c <= 'z') || ('A' <= c && c <= 'Z') || ('0' <= c && c <= '9') || c == '-' || c == '_') {
            assert(!is_id_char(id@[i as int]));
            return false;
        }
        i += 1;
    }
    true
}

/// Whether some character of the ID satisfies one of the forbidden-character tests.
fn has_forbidden_char(s: &Vec<char>, which: u8) -> (r: bool)
    ensures
        which == 0 ==> r == exists|i: int| 0 <= i < s@.len() && (#[trigger] s@[i] == '/' || s@[i] == '\\'),
        which == 1 ==> r == exists|i: int| 0 <= i < s@.len() && is_control_char(#[trigger] s@[i]),
        which >= 2 ==> r == exists|i: int| 0 <= i < s@.len() && is_reserved_char(#[trigger] s@[i]),
{
    let mut i: usize = 0;
    while i < s.len()
        invariant
            i <= s@.len(),
            which == 0 ==> forall|k: int| 0 <= k < i ==> !(#[trigger] s@[k] == '/' || s@[k] == '\\'),
            which == 1 ==> forall|k: int| 0 <= k < i ==> !is_control_char(#[trigger] s@[k]),
            which >= 2 ==> forall|k: int| 0 <= k < i ==> !is_reserved_char(#[trigger] s@[k]),
        decreases s@.len() - i,
    {
        let c = s[i];
        let bad = if which == 0 {
            c == '/' || c == '\\'
        } else if which == 1 {
            c <= '\u{1f}' || ('\u{7f}' <= c && c <= '\u{9f}')
        } else {
            c == '<' || c == '>' || c == ':' || c == '"' || c == '|' || c == '?' || c == '*'
        };
        if bad {
            return true;
        }
        i += 1;
    }
    false
}

/// Validates a document ID: `Ok` exactly when the ID follows every rule of
/// `valid_document_id`, and otherwise `InvalidDocumentId` carrying the ID.
pub fn validate_document_id(id: &str) -> (r: Result<(), SentinelError>)
    ensures
        r is Ok <==> valid_document_id(id@),
        r matches Err(e) ==> e matches SentinelError::InvalidDocumentId { id: x } && x@ == id@,
{
    let s = chars_of(id);
    let invalid = if s.len() == 0 {
        true
    } else if has_forbidden_char(&s, 0) {
        true
    } else if has_forbidden_char(&s, 1) {
        true
    } else if has_forbidden_char(&s, 2) {
        true
    } else if is_reserved_id(id) {
        true
    } else {
        !is_valid_document_id_chars(id)
    };
    if invalid {
        Err(SentinelError::InvalidDocumentId { id: id.to_owned() })
    } else {
        Ok(())
    }
}

/// A valid document ID is a plain file name inside the collection's directory:
/// not empty, with no path separator and no dot (so it is neither `.` nor `..`,
/// and `<id>.json` has exactly one extension).
pub proof fn lemma_valid_id_is_plain_file_name(s: Seq<char>)
    requires
        valid_document_id(s),
    ensures
        s.len() > 0,
        forall|i: int| 0 <= i < s.len() ==> #[trigger] s[i] != '/' && s[i] != '\\' && s[i] != '.',
{
    assert forall|i: int| 0 <= i < s.len() implies #[trigger] s[i] != '/' && s[i] != '\\' && s[i] != '.' by {
        assert(is_id_char(s[i]));
    }
}

/// An ID made only of ASCII letters, digits, `-` and `_` is valid exactly when,
/// upper-cased, it is not itself one of the reserved device names: a name that
/// merely begins with one (such as `config` or `auxiliary`) is valid, and so
/// is every such ID longer than four characters.
pub proof fn lemma_reserved_names_are_whole_names(s: Seq<char>)
    requires
        s.len() > 0,
        forall|i: int| 0 <= i < s.len() ==> is_id_char(#[trigger] s[i]),
    ensures
        valid_document_id(s) <==> !exists|k: int|
            0 <= k < reserved_names().len() && s.len() == (#[trigger] reserved_names()[k]).len() && forall|j: int|
                0 <= j < s.len() ==> upper_matches(#[trigger] s[j], reserved_names()[k][j]),
        s.len() > 4 ==> valid_document_id(s),
{
    assert forall|i: int| 0 <= i < s.len() implies #[trigger] s[i] != '/' && s[i] != '\\' && !is_control_char(s[i])
        && !is_reserved_char(s[i]) && s[i] != '.' by {
        assert(is_id_char(s[i]));
    }
    assert forall|k: int| 0 <= k < reserved_names().len() implies matches_reserved(
        s,
        #[trigger] reserved_names()[k],
    ) == upper_equals(s, reserved_names()[k]) by {
        let n = reserved_names()[k];
        if s.len() > n.len() {
            assert(s[n.len() as int] != '.');
        }
    }
    assert(forall|k: int| 0 <= k < reserved_names().len() ==> (#[trigger] reserved_names()[k]).len() <= 4);
}

} // verus!
