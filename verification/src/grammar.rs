//! The textual grammar of a request file: the token rules for methods,
//! header names and header values, and the header-line pattern that decides
//! where the header zone ends and the body begins.

use vstd::prelude::*;

verus! {

/// An HTTP token character: digits, letters, and
/// `! # $ % & ' * + - . ^ _ ` | ~`.
pub open spec fn is_token_char(c: char) -> bool {
    let u = c as u32;
    (48 <= u && u <= 57) || (65 <= u && u <= 90) || (97 <= u && u <= 122) || u == 33 || (35 <= u
        && u <= 39) || u == 42 || u == 43 || u == 45 || u == 46 || u == 94 || u == 95 || u == 96
        || u == 124 || u == 126
}

/// A valid HTTP method name: one or more token characters.
pub open spec fn method_token_ok(s: Seq<char>) -> bool {
    0 < s.len() && forall|i: int| 0 <= i < s.len() ==> is_token_char(#[trigger] s[i])
}

/// A valid header-name token: one to 65535 token characters.
pub open spec fn header_name_ok(s: Seq<char>) -> bool {
    0 < s.len() <= 65535 && forall|i: int| 0 <= i < s.len() ==> is_token_char(#[trigger] s[i])
}

/// ASCII uppercase folded to lowercase; all else unchanged.
pub open spec fn lower_char(c: char) -> char {
    if 65 <= c as u32 && c as u32 <= 90 {
        ((c as u8) + 32) as char
    } else {
        c
    }
}

/// A header name as it is kept: every character folded by `lower_char`.
pub open spec fn lower_header(s: Seq<char>) -> Seq<char> {
    Seq::new(s.len(), |i: int| lower_char(s[i]))
}

/// A valid header-value character: horizontal tab, or any character other
/// than the control characters below space and delete.
pub open spec fn header_value_char_ok(c: char) -> bool {
    c == '\t' || (32 <= c as u32 && c as u32 != 127)
}

/// A valid header-value token; the empty value is allowed.
pub open spec fn header_value_ok(s: Seq<char>) -> bool {
    forall|i: int| 0 <= i < s.len() ==> header_value_char_ok(#[trigger] s[i])
}

/// A character of the header-line name class: letters, digits and hyphen.
pub open spec fn is_field_char(c: char) -> bool {
    let u = c as u32;
    (48 <= u && u <= 57) || (65 <= u && u <= 90) || (97 <= u && u <= 122) || u == 45
}

/// Length of the longest prefix of `l` made of name-class characters.
pub open spec fn field_prefix_len(l: Seq<char>) -> int
    decreases l.len(),
{
    if l.len() == 0 {
        0
    } else if !is_field_char(l[0]) {
        0
    } else {
        1 + field_prefix_len(l.skip(1))
    }
}

pub proof fn lemma_field_prefix_len(l: Seq<char>)
    ensures
        0 <= field_prefix_len(l) <= l.len(),
        forall|k: int| 0 <= k < field_prefix_len(l) ==> is_field_char(#[trigger] l[k]),
        field_prefix_len(l) < l.len() ==> !is_field_char(l[field_prefix_len(l)]),
    decreases l.len(),
{
    if l.len() == 0 {
    } else if !is_field_char(l[0]) {
    } else {
        lemma_field_prefix_len(l.skip(1));
        assert forall|k: int| 0 <= k < field_prefix_len(l) implies is_field_char(
            #[trigger] l[k],
        ) by {
            if k > 0 {
                assert(l.skip(1)[k - 1] == l[k]);
            }
        }
        if field_prefix_len(l) < l.len() {
            assert(l.skip(1)[field_prefix_len(l) - 1] == l[field_prefix_len(l)]);
        }
    }
}

/// The name-class prefix is pinned down by its characterization.
pub proof fn lemma_field_prefix_len_is(l: Seq<char>, j: int)
    requires
        0 <= j <= l.len(),
        forall|k: int| 0 <= k < j ==> is_field_char(#[trigger] l[k]),
        j < l.len() ==> !is_field_char(l[j]),
    ensures
        field_prefix_len(l) == j,
{
    lemma_field_prefix_len(l);
    if field_prefix_len(l) < j {
        assert(is_field_char(l[field_prefix_len(l)]));
    }
    if j < field_prefix_len(l) {
        assert(is_field_char(l[j]));
    }
}

/// Whether a line matches the header pattern: one or more name-class
/// characters, a colon, then at least one further character.
pub open spec fn is_header_line(l: Seq<char>) -> bool {
    let j = field_prefix_len(l);
    0 < j && j + 1 < l.len() && l[j] == ':'
}

/// Index of the first `": "` occurrence in `l`, or `l.len()` if none.
pub open spec fn first_cs(l: Seq<char>) -> int
    decreases l.len(),
{
    if l.len() < 2 {
        l.len() as int
    } else if l[0] == ':' && l[1] == ' ' {
        0
    } else {
        1 + first_cs(l.skip(1))
    }
}

pub proof fn lemma_first_cs(l: Seq<char>)
    ensures
        0 <= first_cs(l) <= l.len(),
        first_cs(l) < l.len() ==> first_cs(l) + 1 < l.len() && l[first_cs(l)] == ':'
            && l[first_cs(l) + 1] == ' ',
        forall|k: int|
            0 <= k && k + 1 < l.len() && k < first_cs(l) ==> !(#[trigger] l[k] == ':' && l[k + 1]
                == ' '),
    decreases l.len(),
{
    if l.len() < 2 {
    } else if l[0] == ':' && l[1] == ' ' {
    } else {
        lemma_first_cs(l.skip(1));
        assert forall|k: int|
            0 <= k && k + 1 < l.len() && k < first_cs(l) implies !(#[trigger] l[k] == ':' && l[k
            + 1] == ' ') by {
            if k > 0 {
                assert(l.skip(1)[k - 1] == l[k]);
                assert(l.skip(1)[k] == l[k + 1]);
            }
        }
        if first_cs(l) < l.len() {
            assert(l.skip(1)[first_cs(l) - 1] == l[first_cs(l)]);
            assert(l.skip(1)[first_cs(l)] == l[first_cs(l) + 1]);
        }
    }
}

/// The first `": "` occurrence is pinned down by its characterization.
pub proof fn lemma_first_cs_is(l: Seq<char>, j: int)
    requires
        0 <= j <= l.len(),
        forall|k: int|
            0 <= k && k + 1 < l.len() && k < j ==> !(#[trigger] l[k] == ':' && l[k + 1] == ' '),
        j < l.len() ==> j + 1 < l.len() && l[j] == ':' && l[j + 1] == ' ',
    ensures
        first_cs(l) == j,
{
    lemma_first_cs(l);
    if first_cs(l) < j {
        assert(!(l[first_cs(l)] == ':' && l[first_cs(l) + 1] == ' '));
    }
    if j < first_cs(l) {
        assert(!(l[j] == ':' && l[j + 1] == ' '));
    }
}

/// The name part of a header line: the text before the first `": "`, or the
/// whole line when it has no `": "` separator.
pub open spec fn header_name_of(l: Seq<char>) -> Seq<char> {
    if first_cs(l) < l.len() {
        l.take(first_cs(l))
    } else {
        l
    }
}

/// The value part of a header line: the text after the first `": "`,
/// verbatim, so later colons are preserved.
pub open spec fn header_value_of(l: Seq<char>) -> Seq<char> {
    if first_cs(l) < l.len() {
        l.skip(first_cs(l) + 2)
    } else {
        Seq::empty()
    }
}

/// Whether the text contains a `{{` placeholder opener anywhere.
pub open spec fn has_placeholder_open(s: Seq<char>) -> bool {
    exists|i: int| 0 <= i && i + 1 < s.len() && #[trigger] s[i] == '{' && s[i + 1] == '{'
}

/// Executable test for `is_field_char`.
pub fn field_char(c: char) -> (r: bool)
    ensures
        r == is_field_char(c),
{
    let u = c as u32;
    (48 <= u && u <= 57) || (65 <= u && u <= 90) || (97 <= u && u <= 122) || u == 45
}

} // verus!
