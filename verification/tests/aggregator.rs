use harvest::aggregator::{
    process_output, remove_duplicates_preserve_order, Aggregator, GroupedResult,
};
use harvest::json::extract_field;

fn group(source: &str, versions: &[&str]) -> GroupedResult {
    GroupedResult {
        source: source.to_string(),
        versions: versions.iter().map(|v| v.to_string()).collect(),
    }
}

fn strings(items: &[&str]) -> Vec<String> {
    items.iter().map(|v| v.to_string()).collect()
}

#[test]
fn aggregator_groups_sorts_and_removes_repetitions() {
    let mut agg = Aggregator::new();
    agg.feed_line("{\"Path\":\"a\",\"Version\":\"1\"}");
    agg.feed_line("{\"Path\":\"b\",\"Version\":\"2\"}");
    agg.feed_line("{\"path\":\"a\",\"version\":\"1\"}");
    agg.feed_line("{\"Path\":\"a\",\"Version\":\"3\"}");
    let report = agg.finish();
    assert_eq!(report.groups, vec![group("a", &["1", "3"]), group("b", &["2"])]);
    assert_eq!(report.unique_sources, 2);
    assert_eq!(report.total_versions, 3);
    assert_eq!(report.errors, 0);
    assert_eq!(agg.processed, 4);
    assert_eq!(agg.lines, 4);
}

#[test]
fn a_malformed_line_is_an_error_and_in_no_group() {
    let mut agg = Aggregator::new();
    agg.feed_line("{\"Path\":\"a\",\"Version\":\"1\"}");
    agg.feed_line("{\"Path\":\"c\"");
    assert_eq!(agg.errors, 1);
    assert_eq!(agg.processed, 1);
    let report = agg.finish();
    assert_eq!(report.groups, vec![group("a", &["1"])]);
    assert_eq!(report.errors, 1);
    assert!(report.groups.iter().all(|g| g.source != "c"));
}

#[test]
fn lines_without_source_or_version_are_errors() {
    let mut agg = Aggregator::new();
    agg.feed_line("{\"Path\":\"a\"}");
    agg.feed_line("{\"Version\":\"1\"}");
    agg.feed_line("{\"Path\":1,\"Version\":\"1\"}");
    agg.feed_line("[\"Path\",\"Version\"]");
    agg.feed_line("17");
    assert_eq!(agg.errors, 5);
    assert_eq!(agg.processed, 0);
    assert_eq!(agg.lines, 5);
    assert!(agg.finish().groups.is_empty());
}

#[test]
fn blank_lines_are_passed_over() {
    let mut agg = Aggregator::new();
    agg.feed_line("");
    agg.feed_line("   ");
    agg.feed_line("\t");
    assert_eq!((agg.lines, agg.processed, agg.errors), (3, 0, 0));
}

#[test]
fn the_report_does_not_depend_on_the_order_of_the_sources() {
    let lines = [
        "{\"Path\":\"golang.org/x/net\",\"Version\":\"v0.1.0\"}",
        "{\"Path\":\"github.com/b/c\",\"Version\":\"v2.0.0\"}",
        "{\"Path\":\"github.com/a/b\",\"Version\":\"v1.0.0\"}",
        "{\"Path\":\"github.com/b/c\",\"Version\":\"v2.1.0\"}",
        "{\"Path\":\"Zeta\",\"Version\":\"v9\"}",
        "{\"Path\":\"github.com/a\",\"Version\":\"v0\"}",
    ];
    let mut forward = Aggregator::new();
    for line in lines {
        forward.feed_line(line);
    }
    let mut other = Aggregator::new();
    for index in [4usize, 2, 5, 0, 1, 3] {
        other.feed_line(lines[index]);
    }
    let report = forward.finish();
    assert_eq!(report.groups, other.finish().groups);
    let sources: Vec<&str> = report.groups.iter().map(|g| g.source.as_str()).collect();
    assert_eq!(
        sources,
        vec!["Zeta", "github.com/a", "github.com/a/b", "github.com/b/c", "golang.org/x/net"]
    );
    let mut sorted = sources.clone();
    sorted.sort();
    assert_eq!(sources, sorted);
    assert_eq!(report.groups[3].versions, strings(&["v2.0.0", "v2.1.0"]));
}

#[test]
fn the_first_name_that_holds_a_string_wins() {
    let mut agg = Aggregator::new();
    agg.feed_line("{\"path\":\"lower\",\"Path\":\"upper\",\"version\":\"l\",\"Version\":\"u\"}");
    agg.feed_line("{\"Path\":7,\"path\":\"lower\",\"Version\":null,\"version\":\"l\"}");
    let report = agg.finish();
    assert_eq!(report.groups, vec![group("lower", &["l"]), group("upper", &["u"])]);
}

#[test]
fn add_keeps_versions_in_the_order_seen() {
    let mut agg = Aggregator::new();
    agg.add("m".to_string(), "v2".to_string());
    agg.add("k".to_string(), "v1".to_string());
    agg.add("m".to_string(), "v1".to_string());
    agg.add("m".to_string(), "v2".to_string());
    agg.reject();
    assert_eq!(agg.groups, vec![group("k", &["v1"]), group("m", &["v2", "v1", "v2"])]);
    assert_eq!((agg.lines, agg.processed, agg.errors), (5, 4, 1));
    let report = agg.finish();
    assert_eq!(report.groups, vec![group("k", &["v1"]), group("m", &["v2", "v1"])]);
    assert_eq!(report.total_versions, 3);
    assert_eq!(report.unique_sources, 2);
}

#[test]
fn sources_are_ordered_by_code_point() {
    let mut agg = Aggregator::new();
    for source in ["b", "a", "B", "ab", "", "\u{e9}", "z", "a\u{0}"] {
        agg.add(source.to_string(), "v".to_string());
    }
    let sources: Vec<String> = agg.finish().groups.into_iter().map(|g| g.source).collect();
    assert_eq!(sources, strings(&["", "B", "a", "a\u{0}", "ab", "b", "z", "\u{e9}"]));
}

#[test]
fn remove_duplicates_keeps_the_first_of_each() {
    assert_eq!(
        remove_duplicates_preserve_order(strings(&["1", "3", "1", "2", "3", "1"])),
        strings(&["1", "3", "2"])
    );
    assert_eq!(remove_duplicates_preserve_order(Vec::new()), Vec::<String>::new());
    assert_eq!(remove_duplicates_preserve_order(strings(&["x", "x"])), strings(&["x"]));
    assert_eq!(
        remove_duplicates_preserve_order(strings(&["b", "a", "c"])),
        strings(&["b", "a", "c"])
    );
}

#[test]
fn extract_field_tries_the_names_in_order() {
    let value: serde_json::Value =
        serde_json::from_str("{\"path\":\"p\",\"Path\":\"P\",\"n\":3,\"s\":\"t\"}").unwrap();
    assert_eq!(extract_field(&value, &["Path", "path"]), Some("P".to_string()));
    assert_eq!(extract_field(&value, &["path", "Path"]), Some("p".to_string()));
    assert_eq!(extract_field(&value, &["n", "s"]), Some("t".to_string()));
    assert_eq!(extract_field(&value, &["n", "missing"]), None);
    assert_eq!(extract_field(&value, &[]), None);
    let list: serde_json::Value = serde_json::from_str("[\"Path\"]").unwrap();
    assert_eq!(extract_field(&list, &["Path", "0"]), None);
}

#[test]
fn process_output_reports_a_whole_log() {
    let text = "{\"Path\":\"b\",\"Version\":\"2\"}\n\n{\"Path\":\"a\",\"Version\":\"1\"}\r\n{\"Path\":\"c\"\n{\"path\":\"a\",\"version\":\"1\"}\n{\"Path\":\"a\",\"Version\":\"3\"}";
    let report = process_output(text);
    assert_eq!(report.groups, vec![group("a", &["1", "3"]), group("b", &["2"])]);
    assert_eq!(report.unique_sources, 2);
    assert_eq!(report.total_versions, 3);
    assert_eq!(report.errors, 1);
    let empty = process_output("");
    assert!(empty.groups.is_empty());
    assert_eq!((empty.unique_sources, empty.total_versions, empty.errors), (0, 0, 0));
}
