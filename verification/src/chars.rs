//! Character classes for the textual form.
//!
//! Names, attribute texts and file names are constrained at construction time
//! so that the printed form of a graph can be read back unambiguously.

use vstd::prelude::*;

verus! {

/// Characters allowed in operation names and attribute keys.
pub open spec fn is_ident_char(c: char) -> bool {
    ('a' <= c && c <= 'z') || ('A' <= c && c <= 'Z') || ('0' <= c && c <= '9') || c == '_' || c
        == '.' || c == '$' || c == '-'
}

/// An identifier: nonempty, made of identifier characters only.
pub open spec fn ident_ok(s: Seq<char>) -> bool {
    s.len() >= 1 && forall|i: int| 0 <= i < s.len() ==> is_ident_char(#[trigger] s[i])
}

/// Characters allowed in an attribute's textual value: printable, and none of
/// the delimiters that close an attribute dictionary.
pub open spec fn is_attr_char(c: char) -> bool {
    ' ' <= c && c <= '~' && c != '{' && c != '}' && c != ','
}

/// An attribute value text: nonempty, made of attribute characters only.
pub open spec fn attr_text_ok(s: Seq<char>) -> bool {
    s.len() >= 1 && forall|i: int| 0 <= i < s.len() ==> is_attr_char(#[trigger] s[i])
}

/// Characters allowed in a file name within a location: printable, no quote.
pub open spec fn is_filename_char(c: char) -> bool {
    ' ' <= c && c <= '~' && c != '"'
}

/// A file name: possibly empty, made of file name characters only.
pub open spec fn filename_ok(s: Seq<char>) -> bool {
    forall|i: int| 0 <= i < s.len() ==> is_filename_char(#[trigger] s[i])
}

pub(crate) fn ident_char_pub(c: char) -> (r: bool)
    ensures
        r == is_ident_char(c),
{
    ('a' <= c && c <= 'z') || ('A' <= c && c <= 'Z') || ('0' <= c && c <= '9') || c == '_' || c
        == '.' || c == '$' || c == '-'
}

fn attr_char(c: char) -> (r: bool)
    ensures
        r == is_attr_char(c),
{
    ' ' <= c && c <= '~' && c != '{' && c != '}' && c != ','
}

fn filename_char(c: char) -> (r: bool)
    ensures
        r == is_filename_char(c),
{
    ' ' <= c && c <= '~' && c != '"'
}

/// Checks that a character sequence is an identifier.
pub fn check_ident(s: &Vec<char>) -> (r: bool)
    ensures
        r == ident_ok(s@),
{
    if s.len() == 0 {
        return false;
    }
    let mut i: usize = 0;
    while i < s.len()
        invariant
            0 <= i <= s@.len(),
            forall|j: int| 0 <= j < i ==> is_ident_char(#[trigger] s@[j]),
        decreases s@.len() - i,
    {
        if !ident_char_pub(s[i]) {
            return false;
        }
        i = i + 1;
    }
    true
}

/// Checks that a character sequence is a well-formed attribute value text.
pub fn check_attr_text(s: &Vec<char>) -> (r: bool)
    ensures
        r == attr_text_ok(s@),
{
    if s.len() == 0 {
        return false;
    }
    let mut i: usize = 0;
    while i < s.len()
        invariant
            0 <= i <= s@.len(),
            forall|j: int| 0 <= j < i ==> is_attr_char(#[trigger] s@[j]),
        decreases s@.len() - i,
    {
        if !attr_char(s[i]) {
            return false;
        }
        i = i + 1;
    }
    true
}

/// Checks that a character sequence is a well-formed file name.
pub fn check_filename(s: &Vec<char>) -> (r: bool)
    ensures
        r == filename_ok(s@),
{
    let mut i: usize = 0;
    while i < s.len()
        invariant
            0 <= i <= s@.len(),
            forall|j: int| 0 <= j < i ==> is_filename_char(#[trigger] s@[j]),
        decreases s@.len() - i,
    {
        if !filename_char(s[i]) {
            return false;
        }
        i = i + 1;
    }
    true
}

/// Relies on std's `Iterator::collect` for `String`: collecting characters
/// yields the string with exactly those characters, in order.
#[verifier::external_body]
pub fn chars_to_string(v: &Vec<char>) -> (s: String)
    ensures
        s@ == v@,
{
    v.iter().collect()
}

/// Relies on std's `str::chars`: iterating a string yields exactly its
/// characters, in order.
#[verifier::external_body]
pub fn string_to_chars(s: &str) -> (v: Vec<char>)
    ensures
        v@ == s@,
{
    s.chars().collect()
}

} // verus!
