use cargo_chrono::bench::bench;
use cargo_chrono::bench::resolve_all;
use cargo_chrono::bench::split_revisions;
use cargo_chrono::bench::BenchmarkPlan;
use cargo_chrono::bench::ResolveError;
use cargo_chrono::bench::ResolvedObject;
use cargo_chrono::bench::Revision;
use cargo_chrono::orchestrate::Action;
use cargo_chrono::orchestrate::Phase;

fn texts(all: &[&str]) -> Vec<String> {
    all.iter().map(|t| t.to_string()).collect()
}

fn commit(token: &str, short_id: &str) -> Revision {
    Revision {
        token: token.to_string(),
        object: Some(ResolvedObject { short_id: short_id.to_string(), is_commit: true }),
    }
}

fn other(token: &str, short_id: &str) -> Revision {
    Revision {
        token: token.to_string(),
        object: Some(ResolvedObject { short_id: short_id.to_string(), is_commit: false }),
    }
}

fn unknown(token: &str) -> Revision {
    Revision { token: token.to_string(), object: None }
}

#[test]
fn options_part_into_flags_and_names() {
    let plan = BenchmarkPlan::parse(&texts(&["--release", "nbody", "-v", "quick_sort", "--", ""]));
    assert_eq!(plan.flags, texts(&["--release", "-v", "--"]));
    assert_eq!(plan.names, texts(&["nbody", "quick_sort", ""]));
}

#[test]
fn no_name_stands_for_every_benchmark() {
    assert_eq!(BenchmarkPlan::parse(&[]).names, texts(&[""]));
    assert_eq!(BenchmarkPlan::parse(&[]).flags, texts(&[]));
    let flags_only = BenchmarkPlan::parse(&texts(&["--release"]));
    assert_eq!(flags_only.flags, texts(&["--release"]));
    assert_eq!(flags_only.names, texts(&[""]));
}

#[test]
fn a_dash_makes_a_flag_only_at_the_start() {
    let plan = BenchmarkPlan::parse(&texts(&["a-b", "-", "x-"]));
    assert_eq!(plan.flags, texts(&["-"]));
    assert_eq!(plan.names, texts(&["a-b", "x-"]));
}

#[test]
fn build_args_ask_not_to_run() {
    let plan = BenchmarkPlan::parse(&texts(&["--release", "nbody", "-v"]));
    assert_eq!(plan.build_args(), texts(&["bench", "--release", "-v", "--no-run"]));
    assert_eq!(BenchmarkPlan::parse(&[]).build_args(), texts(&["bench", "--no-run"]));
}

#[test]
fn run_args_name_the_benchmark() {
    let plan = BenchmarkPlan::parse(&texts(&["--release", "nbody", "-v", "sort"]));
    assert_eq!(plan.run_args(0), texts(&["bench", "--release", "-v", "nbody"]));
    assert_eq!(plan.run_args(1), texts(&["bench", "--release", "-v", "sort"]));
}

#[test]
fn run_args_leave_out_the_empty_name() {
    let plan = BenchmarkPlan::parse(&texts(&["--release"]));
    assert_eq!(plan.run_args(0), texts(&["bench", "--release"]));
}

#[test]
fn runs_per_commit_counts_the_build() {
    let plan = BenchmarkPlan::parse(&texts(&["a", "b", "c"]));
    assert_eq!(plan.runs_per_commit(2), Some(7));
    assert_eq!(plan.runs_per_commit(0), Some(1));
    assert_eq!(BenchmarkPlan::parse(&[]).runs_per_commit(5), Some(6));
    assert_eq!(plan.runs_per_commit(usize::MAX), None);
    assert_eq!(BenchmarkPlan::parse(&[]).runs_per_commit(usize::MAX), None);
    assert_eq!(BenchmarkPlan::parse(&[]).runs_per_commit(usize::MAX - 1), Some(usize::MAX));
}

#[test]
fn revisions_part_at_commas_and_white_space() {
    assert_eq!(split_revisions("a,b"), texts(&["a", "b"]));
    assert_eq!(split_revisions("a b"), texts(&["a", "b"]));
    assert_eq!(split_revisions(" v1.0 ,, HEAD~2\tmaster\n"), texts(&["v1.0", "HEAD~2", "master"]));
    assert_eq!(split_revisions("one"), texts(&["one"]));
    assert_eq!(split_revisions("a\u{a0}b\u{3000}c"), texts(&["a", "b", "c"]));
}

#[test]
fn a_list_without_names_is_empty() {
    assert_eq!(split_revisions(""), texts(&[]));
    assert_eq!(split_revisions(" , ,"), texts(&[]));
}

#[test]
fn revisions_part_as_the_standard_library_parts_them() {
    for list in ["a,b c", "  x", "x  ", ",", "a,,b", "a\r\nb", "a\u{2028}b", "a\u{200b}b", "é ü"] {
        let expected: Vec<String> =
            list.split(",").flat_map(|s| s.split_whitespace()).map(|s| s.to_string()).collect();
        assert_eq!(split_revisions(list), expected);
    }
}

#[test]
fn resolve_all_gives_the_short_identifiers_in_order() {
    let all = vec![commit("v1", "abc1234"), commit("HEAD", "def5678"), commit("v1", "abc1234")];
    assert_eq!(resolve_all(&all), Ok(texts(&["abc1234", "def5678", "abc1234"])));
    assert_eq!(resolve_all(&vec![]), Ok(vec![]));
}

#[test]
fn resolve_all_reports_the_first_name_that_stands_for_nothing() {
    let all = vec![commit("v1", "abc"), unknown("nope"), unknown("neither")];
    assert_eq!(resolve_all(&all), Err(ResolveError::InvalidRevision { token: "nope".to_string() }));
}

#[test]
fn resolve_all_reports_the_first_object_that_is_no_commit() {
    let all = vec![commit("v1", "abc"), other("tree", "fed"), other("blob", "cba")];
    assert_eq!(resolve_all(&all), Err(ResolveError::NotACommit { short_id: "fed".to_string() }));
}

#[test]
fn resolve_all_reports_an_unknown_name_before_an_object_that_is_no_commit() {
    let all = vec![other("tree", "fed"), unknown("nope")];
    assert_eq!(resolve_all(&all), Err(ResolveError::InvalidRevision { token: "nope".to_string() }));
}

#[test]
fn bench_opens_a_session_on_a_list_of_revisions() {
    let list = vec![commit("v1", "abc"), commit("v2", "def")];
    let (session, first) = bench(2, Some(list), &texts(&["--release", "nbody"]), "0123".to_string()).unwrap();
    assert_eq!(first, Action::Checkout { revision: 0 });
    assert_eq!(session.plan.flags, texts(&["--release"]));
    assert_eq!(session.plan.names, texts(&["nbody"]));
    assert_eq!(session.repeat, 2);
    assert_eq!(session.revisions, Some(texts(&["abc", "def"])));
    assert_eq!(session.head, "0123");
    assert_eq!(session.progress.phase, Phase::CheckingOut);
    assert!(session.progress.moved);
}

#[test]
fn bench_opens_a_session_on_the_working_tree() {
    let (session, first) = bench(1, None, &[], "0123".to_string()).unwrap();
    assert_eq!(first, Action::Build);
    assert_eq!(session.revisions, None);
    assert_eq!(session.plan.names, texts(&[""]));
    assert_eq!(session.current_label(), "0123");
    assert!(!session.progress.moved);
}

#[test]
fn bench_refuses_a_list_that_cannot_be_visited() {
    let list = vec![commit("v1", "abc"), unknown("v9")];
    assert_eq!(
        bench(1, Some(list), &[], "0123".to_string()),
        Err(ResolveError::InvalidRevision { token: "v9".to_string() })
    );
    let list = vec![other("v1^{tree}", "abc")];
    assert_eq!(
        bench(1, Some(list), &[], "0123".to_string()),
        Err(ResolveError::NotACommit { short_id: "abc".to_string() })
    );
}
