//! JSON records, read through `serde_json`.
//!
//! A record is kept as the `serde_json::Value` that the parser made. The
//! rules of this library read only one thing in it: the members of a JSON
//! object whose value is a string.

use vstd::prelude::*;

verus! {

/// `serde_json::Value`, held as it is: this library sees of it only its
/// string members.
#[verifier::external_type_specification]
#[verifier::external_body]
pub struct ExValue(serde_json::Value);

/// The members of `value` that hold a string, by name. A value that is no
/// JSON object has none.
pub uninterp spec fn string_members(value: serde_json::Value) -> Map<Seq<char>, Seq<char>>;

/// What parsing `line` as one JSON value gives: `None` where it is no JSON,
/// else the string members of the value.
pub uninterp spec fn parsed_members(line: Seq<char>) -> Option<Map<Seq<char>, Seq<char>>>;

/// `serde_json::from_str` to a `Value`: fails exactly where `parsed_members`
/// is `None`, and else gives a value with the string members that
/// `parsed_members` names. The parser's error is dropped.
#[verifier::external_body]
pub(crate) fn parse_value(line: &str) -> (parsed: Option<serde_json::Value>)
    ensures
        match parsed {
            Some(value) => parsed_members(line@) == Some(string_members(value)),
            None => parsed_members(line@).is_none(),
        },
{
    serde_json::from_str::<serde_json::Value>(line).ok()
}

/// `Value::get` with a name: the member's text where `value` is an object
/// with a member `name` that holds a string, else `None`.
#[verifier::external_body]
pub(crate) fn string_member(value: &serde_json::Value, name: &str) -> (found: Option<String>)
    ensures
        match found {
            Some(text) => string_members(*value).contains_key(name@) && string_members(
                *value,
            )[name@] == text@,
            None => !string_members(*value).contains_key(name@),
        },
{
    match value.get(name) {
        Some(serde_json::Value::String(text)) => Some(text.clone()),
        _ => None,
    }
}

/// The first of `names` that `members` holds, by its value.
pub open spec fn first_member(members: Map<Seq<char>, Seq<char>>, names: Seq<Seq<char>>) -> Option<
    Seq<char>,
>
    decreases names.len(),
{
    if names.len() == 0 {
        None
    } else if members.contains_key(names[0]) {
        Some(members[names[0]])
    } else {
        first_member(members, names.drop_first())
    }
}

/// The names of a slice of string slices.
pub open spec fn names_of(variants: Seq<&str>) -> Seq<Seq<char>> {
    variants.map_values(|s: &str| s@)
}

/// Looks a field up under each of `variants` in turn: the first one that
/// `obj` holds with a string value wins.
pub fn extract_field(obj: &serde_json::Value, variants: &[&str]) -> (found: Option<String>)
    ensures
        match found {
            Some(text) => first_member(string_members(*obj), names_of(variants@)) == Some(text@),
            None => first_member(string_members(*obj), names_of(variants@)).is_none(),
        },
{
    let ghost members = string_members(*obj);
    let ghost names = names_of(variants@);
    let mut i: usize = 0;
    assert(names.subrange(0, names.len() as int) =~= names);
    while i < variants.len()
        invariant
            i <= variants@.len(),
            members == string_members(*obj),
            names == names_of(variants@),
            first_member(members, names) == first_member(
                members,
                names.subrange(i as int, names.len() as int),
            ),
        decreases variants@.len() - i,
    {
        let ghost rest = names.subrange(i as int, names.len() as int);
        proof {
            assert(rest.drop_first() =~= names.subrange(i + 1, names.len() as int));
            assert(rest[0] == variants@[i as int]@);
        }
        let found = string_member(obj, variants[i]);
        if found.is_some() {
            return found;
        }
        i += 1;
    }
    proof {
        assert(names.subrange(i as int, names.len() as int).len() == 0);
    }
    None
}

} // verus!
