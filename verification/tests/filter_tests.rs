use cargo_chrono::data::Measurement;
use cargo_chrono::filter::parse_filter;
use cargo_chrono::filter::parse_filters;
use cargo_chrono::filter::passes_filters;
use cargo_chrono::filter::select;
use cargo_chrono::filter::Filter;
use cargo_chrono::filter::InvalidFilter;

fn m(commit: &str, test: &str) -> Measurement {
    Measurement::new(commit.to_string(), test.to_string(), 1, 1)
}

fn filters(texts: &[&str]) -> Vec<Filter> {
    let texts: Vec<String> = texts.iter().map(|t| t.to_string()).collect();
    parse_filters(&texts).unwrap()
}

#[test]
fn parse_filter_reads_the_exclusion_marker() {
    assert_eq!(parse_filter("foo"), Filter { inverted: false, pattern: "foo".to_string() });
    assert_eq!(parse_filter("!foo"), Filter { inverted: true, pattern: "foo".to_string() });
    assert_eq!(parse_filter("!!foo"), Filter { inverted: true, pattern: "!foo".to_string() });
    assert_eq!(parse_filter("!"), Filter { inverted: true, pattern: "".to_string() });
    assert_eq!(parse_filter(""), Filter { inverted: false, pattern: "".to_string() });
    assert_eq!(parse_filter("a!b"), Filter { inverted: false, pattern: "a!b".to_string() });
}

#[test]
fn parse_filters_keeps_the_order() {
    assert_eq!(
        filters(&["foo", "!bar"]),
        vec![
            Filter { inverted: false, pattern: "foo".to_string() },
            Filter { inverted: true, pattern: "bar".to_string() },
        ]
    );
    assert_eq!(filters(&[]), vec![]);
}

#[test]
fn parse_filters_reports_the_first_invalid_pattern() {
    let texts = vec!["ok".to_string(), "!(".to_string(), "[".to_string()];
    assert_eq!(parse_filters(&texts), Err(InvalidFilter { filter: "!(".to_string() }));
    let one = vec!["a(b".to_string()];
    assert_eq!(parse_filters(&one), Err(InvalidFilter { filter: "a(b".to_string() }));
}

#[test]
fn no_filter_keeps_everything() {
    assert!(passes_filters(&[], &m("abc", "foo")));
    assert!(passes_filters(&[], &m("", "")));
}

#[test]
fn a_plain_filter_keeps_what_matches_commit_or_test() {
    let only = filters(&["foo"]);
    assert!(passes_filters(&only, &m("abc", "foo::bar")));
    assert!(passes_filters(&only, &m("foo1", "t")));
    assert!(!passes_filters(&only, &m("abc", "bar")));
}

#[test]
fn an_inverted_filter_drops_what_matches_commit_or_test() {
    let only = filters(&["!foo"]);
    assert!(!passes_filters(&only, &m("abc", "foo::bar")));
    assert!(!passes_filters(&only, &m("foo1", "t")));
    assert!(!passes_filters(&only, &m("foo", "foo")));
    assert!(passes_filters(&only, &m("abc", "bar")));
    assert!(passes_filters(&only, &m("", "")));
}

#[test]
fn several_filters_are_a_disjunction() {
    let both = filters(&["foo", "!bar"]);
    assert!(passes_filters(&both, &m("c", "foo")));
    assert!(passes_filters(&both, &m("c", "foobar")));
    assert!(passes_filters(&both, &m("c", "other")));
    assert!(!passes_filters(&both, &m("c", "bar")));
    let swapped = filters(&["!bar", "foo"]);
    for one in [m("c", "foo"), m("c", "foobar"), m("c", "other"), m("c", "bar")] {
        assert_eq!(passes_filters(&both, &one), passes_filters(&swapped, &one));
    }
}

#[test]
fn patterns_are_regular_expressions() {
    let anchored = filters(&["^ab+c$"]);
    assert!(passes_filters(&anchored, &m("abbbc", "t")));
    assert!(!passes_filters(&anchored, &m("xabc", "t")));
    assert!(!passes_filters(&anchored, &m("^ab+c$", "t")));
    let dot = filters(&["a.c"]);
    assert!(passes_filters(&dot, &m("t", "abc")));
    assert!(!passes_filters(&dot, &m("t", "ac")));
    let empty = filters(&[""]);
    assert!(passes_filters(&empty, &m("any", "thing")));
}

#[test]
fn a_pattern_that_does_not_compile_matches_nothing() {
    let broken = vec![Filter { inverted: false, pattern: "(".to_string() }];
    assert!(!passes_filters(&broken, &m("(", "(")));
    let inverted = vec![Filter { inverted: true, pattern: "(".to_string() }];
    assert!(passes_filters(&inverted, &m("(", "(")));
}

#[test]
fn select_keeps_the_order_of_what_passes() {
    let all = vec![m("v1", "foo"), m("v1", "bar"), m("v2", "foo"), m("v2", "baz"), m("v1", "foo")];
    let kept = select(&filters(&["!ba"]), all.clone());
    assert_eq!(kept, vec![m("v1", "foo"), m("v2", "foo"), m("v1", "foo")]);
    assert_eq!(select(&filters(&[]), all.clone()), all);
    assert_eq!(select(&filters(&["nothing"]), all.clone()), vec![]);
    assert_eq!(select(&filters(&["v2"]), all), vec![m("v2", "foo"), m("v2", "baz")]);
}
