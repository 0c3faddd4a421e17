use harvest::sanitize::{
    capitalize_first_letter, sanitize_and_validate_description, sanitize_field, truncate_string,
};
use harvest::text::trim_bounds;

const DEFAULT: &str = "No Description Provided";

#[test]
fn sanitize_field_trims_and_drops_harmful_characters() {
    assert_eq!(sanitize_field("  hello `world` $x \\ \n"), "hello world x");
    assert_eq!(sanitize_field("\tabc\u{7}def "), "abcdef");
    assert_eq!(sanitize_field("` x"), "x");
    assert_eq!(sanitize_field("a\u{9f}b\u{7f}c\u{0}"), "abc");
    assert_eq!(sanitize_field("caf\u{e9} (v1.2) | a&b;"), "caf\u{e9} (v1.2) | a&b;");
}

#[test]
fn sanitize_field_of_nothing_is_empty() {
    assert_eq!(sanitize_field(""), "");
    assert_eq!(sanitize_field("   "), "");
    assert_eq!(sanitize_field("`$\\"), "");
    assert_eq!(sanitize_field(" \u{1} "), "");
}

#[test]
fn capitalize_first_letter_raises_the_first_character_only() {
    assert_eq!(capitalize_first_letter("hello world"), "Hello world");
    assert_eq!(capitalize_first_letter(""), "");
    assert_eq!(capitalize_first_letter("Already"), "Already");
    assert_eq!(capitalize_first_letter("1abc"), "1abc");
    assert_eq!(capitalize_first_letter("\u{e9}lan"), "\u{c9}lan");
    assert_eq!(capitalize_first_letter("\u{df}a"), "SSa");
    assert_eq!(capitalize_first_letter("x"), "X");
}

#[test]
fn descriptions_start_and_end_with_a_letter_or_number() {
    assert_eq!(sanitize_and_validate_description("  a tool for things.  "), "A tool for things");
    assert_eq!(sanitize_and_validate_description("-- ok!"), "Ok");
    assert_eq!(sanitize_and_validate_description("(go) client, v2"), "Go) client, v2");
    assert_eq!(sanitize_and_validate_description("`fast` $HOME parser"), "Fast HOME parser");
    assert_eq!(sanitize_and_validate_description("\u{e9}"), "\u{c9}");
    assert_eq!(sanitize_and_validate_description("42"), "42");
}

#[test]
fn descriptions_without_substance_are_the_default() {
    assert_eq!(sanitize_and_validate_description(""), DEFAULT);
    assert_eq!(sanitize_and_validate_description("   "), DEFAULT);
    assert_eq!(sanitize_and_validate_description("..."), DEFAULT);
    assert_eq!(sanitize_and_validate_description("$$$"), DEFAULT);
    assert_eq!(sanitize_and_validate_description("- x -"), DEFAULT);
    assert_eq!(sanitize_and_validate_description("7"), DEFAULT);
}

#[test]
fn truncate_string_cuts_to_the_width() {
    assert_eq!(truncate_string("hello", 10), "hello");
    assert_eq!(truncate_string("abcdef", 6), "abcdef");
    assert_eq!(truncate_string("abcdefg", 6), "abc...");
    assert_eq!(truncate_string("hello world", 8), "hello...");
    assert_eq!(truncate_string("abcd", 3), "...");
    assert_eq!(truncate_string("", 0), "");
    assert_eq!(truncate_string("h\u{e9}llo w\u{f6}rld", 8), "h\u{e9}ll...");
    let long = "https://example.com/a/very/long/path/that/does/not/fit/into/the/column";
    let cut = truncate_string(long, 48);
    assert_eq!(cut.len(), 48);
    assert_eq!(cut, format!("{}...", &long[..45]));
}

#[test]
fn trim_bounds_agree_with_the_standard_library() {
    for sample in ["", " ", "a", " a", "a ", "  a b  ", "\t\n", "\u{a0}x\u{2003}", " \u{200b} "] {
        let chars: Vec<char> = sample.chars().collect();
        let (from, upto) = trim_bounds(&chars);
        let cut: String = chars[from..upto].iter().collect();
        assert_eq!(cut, sample.trim(), "{:?}", sample);
    }
}
