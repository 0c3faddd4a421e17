//! Cleaning texts that come from outside: fields of a report, descriptions,
//! texts cut to a width.

use crate::text::{
    alphanumeric, blank, chars_of, control, is_alphanumeric, is_blank, is_control, string_of,
    to_uppercase, trim_bounds, trimmed, uppercase,
};
use vstd::prelude::*;
use vstd::string::StringExecFns;
use vstd::string::StringSliceAdditionalSpecFns;
use vstd::utf8::{decode_utf8, encode_utf8};

verus! {

/// The description of what has none.
pub open spec fn default_description() -> Seq<char> {
    "No Description Provided"@
}

/// The length of `text` in bytes, as `str::len` counts it.
pub open spec fn byte_len(text: Seq<char>) -> usize {
    encode_utf8(text).len() as usize
}

/// A character that may stay in a field: no backtick, dollar sign or
/// backslash, and no control code.
pub open spec fn harmless(c: char) -> bool {
    c != '`' && c != '$' && c != '\\' && !control(c)
}

/// The harmless characters of `text`, in their order.
pub open spec fn only_harmless(text: Seq<char>) -> Seq<char>
    decreases text.len(),
{
    if text.len() == 0 {
        Seq::empty()
    } else {
        let head = only_harmless(text.drop_last());
        if harmless(text.last()) {
            head.push(text.last())
        } else {
            head
        }
    }
}

/// A field made safe: trimmed, without its harmful characters, and trimmed
/// again.
pub open spec fn spec_sanitize_field(input: Seq<char>) -> Seq<char> {
    trimmed(only_harmless(trimmed(input)))
}

/// `text` with its first character in upper case.
pub open spec fn spec_capitalize(text: Seq<char>) -> Seq<char> {
    if text.len() == 0 {
        Seq::empty()
    } else {
        uppercase(text[0]) + text.drop_first()
    }
}

/// The place of the first letter or number at or after `from`, or the length
/// of `text` when there is none.
pub open spec fn first_alphanumeric(text: Seq<char>, from: int) -> int
    decreases text.len() - from,
{
    if from < 0 || from >= text.len() {
        text.len() as int
    } else if alphanumeric(text[from]) {
        from
    } else {
        first_alphanumeric(text, from + 1)
    }
}

/// The place right after the last letter or number before `upto`, or 0 when
/// there is none.
pub open spec fn after_last_alphanumeric(text: Seq<char>, upto: int) -> int
    decreases upto,
{
    if upto <= 0 || upto > text.len() {
        0
    } else if alphanumeric(text[upto - 1]) {
        upto
    } else {
        after_last_alphanumeric(text, upto - 1)
    }
}

/// A description made presentable: the field made safe, cut to what lies
/// between its first and its last letter or number, with a capital at its
/// start; the default where nothing of at least two bytes is left.
pub open spec fn spec_description(input: Seq<char>) -> Seq<char> {
    let field = spec_sanitize_field(input);
    let from = first_alphanumeric(field, 0);
    if blank(field) || from >= field.len() {
        default_description()
    } else {
        let core = field.subrange(from, after_last_alphanumeric(field, field.len() as int));
        if byte_len(trimmed(core)) < 2 {
            default_description()
        } else {
            spec_capitalize(core)
        }
    }
}

/// What `truncate_string` gives for a text of these bytes.
pub open spec fn spec_truncate(text: Seq<char>, max_len: int) -> Seq<char> {
    if byte_len(text) <= max_len {
        text
    } else {
        decode_utf8(encode_utf8(text).subrange(0, max_len - 3)) + "..."@
    }
}

proof fn lemma_first_alphanumeric(text: Seq<char>, from: int, at: int)
    requires
        0 <= from <= at <= text.len(),
        forall|k: int| from <= k < at ==> !alphanumeric(#[trigger] text[k]),
        at < text.len() ==> alphanumeric(text[at]),
    ensures
        first_alphanumeric(text, from) == at,
    decreases at - from,
{
    if from < at {
        lemma_first_alphanumeric(text, from + 1, at);
    }
}

proof fn lemma_after_last_alphanumeric(text: Seq<char>, upto: int, at: int)
    requires
        0 <= at <= upto <= text.len(),
        forall|k: int| at <= k < upto ==> !alphanumeric(#[trigger] text[k]),
        at > 0 ==> alphanumeric(text[at - 1]),
    ensures
        after_last_alphanumeric(text, upto) == at,
    decreases upto - at,
{
    if at < upto {
        lemma_after_last_alphanumeric(text, upto - 1, at);
    }
}

/// Cuts `s` to at most `max_len` bytes; a longer text keeps its first
/// `max_len - 3` bytes and ends in three dots.
pub fn truncate_string(s: &str, max_len: usize) -> (cut: String)
    requires
        byte_len(s@) > max_len ==> max_len >= 3 && s.is_char_boundary((max_len - 3) as usize),
    ensures
        cut@ == spec_truncate(s@, max_len as int),
{
    if s.len() <= max_len {
        String::from_str(s)
    } else {
        let parts = s.split_at(max_len - 3);
        proof {
            vstd::utf8::encode_utf8_decode_utf8(parts.0@);
            assert(parts.0.spec_bytes() == s.spec_bytes().subrange(0, max_len - 3));
        }
        let mut cut = String::from_str(parts.0);
        cut.append("...");
        cut
    }
}

/// Sanitize a field by removing dangerous characters and trimming white
/// space.
pub fn sanitize_field(input: &str) -> (field: String)
    ensures
        field@ == spec_sanitize_field(input@),
{
    let chars = chars_of(input);
    let bounds = trim_bounds(&chars);
    let mut kept: Vec<char> = Vec::new();
    let mut i: usize = bounds.0;
    let ghost inner = trimmed(input@);
    assert(inner.subrange(0, 0) =~= Seq::empty());
    while i < bounds.1
        invariant
            chars@ == input@,
            bounds.0 <= i <= bounds.1 <= chars@.len(),
            inner == chars@.subrange(bounds.0 as int, bounds.1 as int),
            kept@ == only_harmless(inner.subrange(0, i - bounds.0)),
        decreases bounds.1 - i,
    {
        let c = chars[i];
        proof {
            let done = inner.subrange(0, i + 1 - bounds.0);
            assert(done.drop_last() =~= inner.subrange(0, i - bounds.0));
            assert(done.last() == c);
        }
        if c != '`' && c != '$' && c != '\\' && !is_control(c) {
            kept.push(c);
        }
        i += 1;
    }
    assert(inner.subrange(0, i - bounds.0) =~= inner);
    let outer = trim_bounds(&kept);
    string_of(&kept, outer.0, outer.1)
}

/// Capitalize the first letter of a string.
pub fn capitalize_first_letter(s: &str) -> (text: String)
    ensures
        text@ == spec_capitalize(s@),
{
    let chars = chars_of(s);
    if chars.len() == 0 {
        return String::new();
    }
    let upper = to_uppercase(chars[0]);
    let mut text = string_of(&upper, 0, upper.len());
    let rest = string_of(&chars, 1, chars.len());
    assert(upper@.subrange(0, upper@.len() as int) =~= upper@);
    assert(chars@.subrange(1, chars@.len() as int) =~= s@.drop_first());
    text.append(rest.as_str());
    text
}

/// Sanitize and validate a description: it starts and ends with a letter or
/// a number and starts with a capital, or it is the default.
pub fn sanitize_and_validate_description(input: &str) -> (description: String)
    ensures
        description@ == spec_description(input@),
{
    let sanitized = sanitize_field(input);
    if is_blank(sanitized.as_str()) {
        return String::from_str("No Description Provided");
    }
    let chars = chars_of(sanitized.as_str());
    let mut from: usize = 0;
    while from < chars.len() && !is_alphanumeric(chars[from])
        invariant
            from <= chars@.len(),
            forall|k: int| 0 <= k < from ==> !alphanumeric(#[trigger] chars@[k]),
        decreases chars@.len() - from,
    {
        from += 1;
    }
    proof {
        lemma_first_alphanumeric(chars@, 0, from as int);
    }
    if from == chars.len() {
        return String::from_str("No Description Provided");
    }
    let mut upto: usize = chars.len();
    while upto > from + 1 && !is_alphanumeric(chars[upto - 1])
        invariant
            from < upto <= chars@.len(),
            alphanumeric(chars@[from as int]),
            forall|k: int| upto <= k < chars@.len() ==> !alphanumeric(#[trigger] chars@[k]),
        decreases upto - from,
    {
        upto -= 1;
    }
    proof {
        lemma_after_last_alphanumeric(chars@, chars@.len() as int, upto as int);
    }
    let core = string_of(&chars, from, upto);
    let core_chars = chars_of(core.as_str());
    let bounds = trim_bounds(&core_chars);
    let inner = string_of(&core_chars, bounds.0, bounds.1);
    if inner.as_str().len() < 2 {
        String::from_str("No Description Provided")
    } else {
        capitalize_first_letter(core.as_str())
    }
}

} // verus!
