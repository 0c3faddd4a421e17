use harvest::text::{count_lines, is_blank, split_lines, take_before};

fn std_lines(text: &str) -> Vec<String> {
    text.lines().map(String::from).collect()
}

#[test]
fn split_lines_cuts_at_line_feeds() {
    assert_eq!(split_lines("a\nb\n"), vec!["a", "b"]);
    assert_eq!(split_lines("a\nb"), vec!["a", "b"]);
    assert_eq!(split_lines("a\n\nb"), vec!["a", "", "b"]);
    assert_eq!(split_lines("\n"), vec![""]);
    assert_eq!(split_lines(""), Vec::<String>::new());
}

#[test]
fn split_lines_drops_a_return_before_a_line_feed_only() {
    assert_eq!(split_lines("a\r\nb\r\n"), vec!["a", "b"]);
    assert_eq!(split_lines("a\r"), vec!["a\r"]);
    assert_eq!(split_lines("a\rb\n"), vec!["a\rb"]);
    assert_eq!(split_lines("a\r\r\n"), vec!["a\r"]);
    assert_eq!(split_lines("\r\n"), vec![""]);
}

#[test]
fn split_lines_agrees_with_the_standard_library() {
    let samples = [
        "",
        "\n",
        "\r",
        "\r\n",
        "\n\n",
        "one",
        "one\n",
        "one\r\ntwo",
        "one\ntwo\r",
        "\u{e9}t\u{e9}\n\u{4e16}\u{754c}\r\n",
        "{\"Path\":\"a\"}\n{\"Path\":\"b\"}\n",
        " \n\t\n x \n",
        "\r\r\n\r",
    ];
    for sample in samples {
        assert_eq!(split_lines(sample), std_lines(sample), "{:?}", sample);
        assert_eq!(count_lines(sample), sample.lines().count(), "{:?}", sample);
    }
}

#[test]
fn count_lines_counts() {
    assert_eq!(count_lines(""), 0);
    assert_eq!(count_lines("a"), 1);
    assert_eq!(count_lines("a\n"), 1);
    assert_eq!(count_lines("a\nb\nc\n"), 3);
    assert_eq!(count_lines("\n\n\n"), 3);
}

#[test]
fn is_blank_knows_white_space() {
    assert!(is_blank(""));
    assert!(is_blank("   "));
    assert!(is_blank(" \t\r\n"));
    assert!(is_blank("\u{a0}\u{2003}"));
    assert!(!is_blank(" a "));
    assert!(!is_blank("{}"));
    assert!(!is_blank("\u{200b}"));
    for sample in ["", " ", "x", "\n x", "\u{3000}", "_"] {
        assert_eq!(is_blank(sample), sample.trim().is_empty());
    }
}

#[test]
fn take_before_stops_at_the_first_mark() {
    assert_eq!(take_before("2019-04-10T12:30:00Z", 'T'), "2019-04-10");
    assert_eq!(take_before("2019-04-10", 'T'), "2019-04-10");
    assert_eq!(take_before("T", 'T'), "");
    assert_eq!(take_before("", 'T'), "");
    assert_eq!(take_before("aTbTc", 'T'), "a");
    for sample in ["2019-04-10T1", "", "TT", "x"] {
        assert_eq!(take_before(sample, 'T'), sample.split('T').next().unwrap_or(""));
    }
}
