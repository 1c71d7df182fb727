use cargo_chrono::bench::BenchmarkPlan;
use cargo_chrono::data::Measurement;
use cargo_chrono::extract::ExtractError;
use cargo_chrono::orchestrate::Action;
use cargo_chrono::orchestrate::Event;
use cargo_chrono::orchestrate::Exit;
use cargo_chrono::orchestrate::Fault;
use cargo_chrono::orchestrate::FaultKind;
use cargo_chrono::orchestrate::Orchestrator;
use cargo_chrono::orchestrate::Phase;

const LINE: &str = "test fixed ... bench: 1,000 ns/iter (+/- 10)\n";

fn texts(all: &[&str]) -> Vec<String> {
    all.iter().map(|t| t.to_string()).collect()
}

fn plan(options: &[&str]) -> BenchmarkPlan {
    BenchmarkPlan::parse(&texts(options))
}

fn ran(output: &str) -> Event {
    Event::Exited { exit: Exit::Success, output: Some(output.to_string()) }
}

fn built() -> Event {
    Event::Exited { exit: Exit::Success, output: Some(String::new()) }
}

/// What a session did to its surroundings.
struct World {
    head: String,
    store: Vec<Measurement>,
    log: Vec<String>,
}

/// Runs a session to its end. `run` answers the n-th run of a benchmark.
fn drive(
    mut session: Orchestrator,
    first: Action,
    run: &dyn Fn(usize, &Orchestrator) -> Event,
) -> (Orchestrator, World, Option<Fault>, bool) {
    let mut world = World { head: "refs/heads/main".to_string(), store: vec![], log: vec![] };
    let mut runs = 0;
    let mut action = first;
    for _ in 0..1000 {
        let event = match action {
            Action::Checkout { revision } => {
                let label = session.revisions.as_ref().unwrap()[revision].clone();
                world.log.push(format!("checkout {}", label));
                world.head = label;
                Event::Done
            }
            Action::Build => {
                world.log.push(format!("build {}", session.plan.build_args().join(" ")));
                built()
            }
            Action::Run { name } => {
                world.log.push(format!("run {}", session.plan.run_args(name).join(" ")));
                runs += 1;
                run(runs, &session)
            }
            Action::Append { measurements } => {
                world.store.extend(measurements);
                Event::Done
            }
            Action::Restore => {
                world.log.push("restore".to_string());
                world.head = "refs/heads/main".to_string();
                Event::Done
            }
            Action::Finish { fault, restore_failed } => {
                return (session, world, fault, restore_failed);
            }
        };
        action = session.step(event);
    }
    panic!("the session does not end");
}

#[test]
fn two_revisions_twice_give_four_measurements_in_commit_order() {
    let (session, first) =
        Orchestrator::start(plan(&[]), 2, Some(texts(&["v1", "v2"])), "main".to_string());
    let (session, world, fault, restore_failed) = drive(session, first, &|_, _| ran(LINE));
    assert_eq!(fault, None);
    assert!(!restore_failed);
    let commits: Vec<&str> = world.store.iter().map(|m| m.commit.as_str()).collect();
    assert_eq!(commits, vec!["v1", "v1", "v2", "v2"]);
    for one in &world.store {
        assert_eq!(one.test, "fixed");
        assert_eq!(one.time, 1000);
        assert_eq!(one.variance, 10);
    }
    assert_eq!(world.head, "refs/heads/main");
    assert_eq!(
        world.log,
        texts(&[
            "checkout v1",
            "build bench --no-run",
            "run bench",
            "run bench",
            "checkout v2",
            "build bench --no-run",
            "run bench",
            "run bench",
            "restore",
        ])
    );
    assert_eq!(session.progress.phase, Phase::Finished);
    assert!(!session.progress.moved);
}

#[test]
fn a_failure_on_the_second_revision_still_restores_the_head() {
    let (session, first) =
        Orchestrator::start(plan(&[]), 2, Some(texts(&["v1", "v2", "v3"])), "main".to_string());
    let (session, world, fault, restore_failed) = drive(session, first, &|n, _| {
        if n == 3 {
            Event::Exited { exit: Exit::Code { code: 101 }, output: Some("boom".to_string()) }
        } else {
            ran(LINE)
        }
    });
    let fault = fault.unwrap();
    assert_eq!(fault, Fault { kind: FaultKind::Exit { code: 101 }, revision: 1 });
    assert_eq!(session.revisions.as_ref().unwrap()[fault.revision], "v2");
    assert_eq!(session.current_label(), "v2");
    assert!(!restore_failed);
    assert_eq!(world.head, "refs/heads/main");
    assert_eq!(world.log.last().unwrap(), "restore");
    assert!(!world.log.contains(&"checkout v3".to_string()));
    let commits: Vec<&str> = world.store.iter().map(|m| m.commit.as_str()).collect();
    assert_eq!(commits, vec!["v1", "v1"]);
}

#[test]
fn each_name_is_run_on_its_own() {
    let (session, first) = Orchestrator::start(
        plan(&["--release", "alpha", "beta"]),
        2,
        Some(texts(&["v1"])),
        "main".to_string(),
    );
    let (_, world, fault, _) = drive(session, first, &|_, _| ran(LINE));
    assert_eq!(fault, None);
    assert_eq!(
        world.log,
        texts(&[
            "checkout v1",
            "build bench --release --no-run",
            "run bench --release alpha",
            "run bench --release alpha",
            "run bench --release beta",
            "run bench --release beta",
            "restore",
        ])
    );
    assert_eq!(world.store.len(), 4);
}

#[test]
fn without_a_list_nothing_is_checked_out_or_restored() {
    let (session, first) = Orchestrator::start(plan(&["nbody"]), 3, None, "abc1234".to_string());
    assert_eq!(first, Action::Build);
    let (session, world, fault, restore_failed) = drive(session, first, &|_, _| ran(LINE));
    assert_eq!(fault, None);
    assert!(!restore_failed);
    assert_eq!(
        world.log,
        texts(&["build bench --no-run", "run bench nbody", "run bench nbody", "run bench nbody"])
    );
    let commits: Vec<&str> = world.store.iter().map(|m| m.commit.as_str()).collect();
    assert_eq!(commits, vec!["abc1234", "abc1234", "abc1234"]);
    assert_eq!(session.progress.phase, Phase::Finished);
}

#[test]
fn without_a_list_a_failure_ends_the_session_at_once() {
    let (mut session, first) = Orchestrator::start(plan(&[]), 1, None, "abc".to_string());
    assert_eq!(first, Action::Build);
    let action = session.step(Event::Exited { exit: Exit::Code { code: 2 }, output: None });
    assert_eq!(
        action,
        Action::Finish {
            fault: Some(Fault { kind: FaultKind::Exit { code: 2 }, revision: 0 }),
            restore_failed: false,
        }
    );
}

#[test]
fn an_empty_list_leaves_nothing_to_do() {
    let (session, first) = Orchestrator::start(plan(&[]), 2, Some(vec![]), "abc".to_string());
    assert_eq!(first, Action::Finish { fault: None, restore_failed: false });
    assert_eq!(session.progress.phase, Phase::Finished);
    assert!(!session.progress.moved);
}

#[test]
fn repeating_zero_times_builds_and_runs_nothing() {
    let (session, first) =
        Orchestrator::start(plan(&[]), 0, Some(texts(&["v1", "v2"])), "abc".to_string());
    let (_, world, fault, _) = drive(session, first, &|_, _| ran(LINE));
    assert_eq!(fault, None);
    assert_eq!(
        world.log,
        texts(&["checkout v1", "build bench --no-run", "checkout v2", "build bench --no-run", "restore"])
    );
    assert!(world.store.is_empty());
}

#[test]
fn a_failed_checkout_asks_for_the_head_back() {
    let (mut session, first) =
        Orchestrator::start(plan(&[]), 1, Some(texts(&["v1", "v2"])), "abc".to_string());
    assert_eq!(first, Action::Checkout { revision: 0 });
    assert_eq!(session.step(Event::Failed), Action::Restore);
    assert_eq!(
        session.step(Event::Done),
        Action::Finish {
            fault: Some(Fault { kind: FaultKind::Checkout, revision: 0 }),
            restore_failed: false,
        }
    );
}

#[test]
fn a_failed_restore_is_reported_beside_the_earlier_failure() {
    let (mut session, _) =
        Orchestrator::start(plan(&[]), 1, Some(texts(&["v1"])), "abc".to_string());
    assert_eq!(session.step(Event::Done), Action::Build);
    assert_eq!(session.step(Event::Failed), Action::Restore);
    assert_eq!(
        session.step(Event::Failed),
        Action::Finish {
            fault: Some(Fault { kind: FaultKind::Launch, revision: 0 }),
            restore_failed: true,
        }
    );
    assert!(session.progress.moved);
    assert_eq!(
        session.step(Event::Done),
        Action::Finish {
            fault: Some(Fault { kind: FaultKind::Launch, revision: 0 }),
            restore_failed: true,
        }
    );
}

#[test]
fn a_failed_restore_alone_is_reported() {
    let (mut session, _) =
        Orchestrator::start(plan(&[]), 1, Some(texts(&["v1"])), "abc".to_string());
    assert_eq!(session.step(Event::Done), Action::Build);
    assert_eq!(session.step(built()), Action::Run { name: 0 });
    assert_eq!(session.step(ran("")), Action::Append { measurements: vec![] });
    assert_eq!(session.step(Event::Done), Action::Restore);
    assert_eq!(session.step(Event::Failed), Action::Finish { fault: None, restore_failed: true });
}

#[test]
fn output_that_is_no_text_is_a_failure() {
    let (mut session, _) = Orchestrator::start(plan(&[]), 1, None, "abc".to_string());
    assert_eq!(session.step(built()), Action::Run { name: 0 });
    assert_eq!(
        session.step(Event::Exited { exit: Exit::Success, output: None }),
        Action::Finish {
            fault: Some(Fault { kind: FaultKind::Encoding, revision: 0 }),
            restore_failed: false,
        }
    );
}

#[test]
fn a_build_needs_no_readable_output() {
    let (mut session, _) = Orchestrator::start(plan(&[]), 1, None, "abc".to_string());
    assert_eq!(
        session.step(Event::Exited { exit: Exit::Success, output: None }),
        Action::Run { name: 0 }
    );
}

#[test]
fn a_run_that_ends_without_a_code_is_a_failure() {
    let (mut session, _) = Orchestrator::start(plan(&[]), 1, None, "abc".to_string());
    assert_eq!(session.step(built()), Action::Run { name: 0 });
    assert_eq!(
        session.step(Event::Exited { exit: Exit::Killed, output: Some(LINE.to_string()) }),
        Action::Finish {
            fault: Some(Fault { kind: FaultKind::Killed, revision: 0 }),
            restore_failed: false,
        }
    );
}

#[test]
fn what_was_read_before_a_bad_line_is_stored_before_the_session_ends() {
    let (mut session, _) =
        Orchestrator::start(plan(&[]), 2, Some(texts(&["v1"])), "abc".to_string());
    assert_eq!(session.step(Event::Done), Action::Build);
    assert_eq!(session.step(built()), Action::Run { name: 0 });
    let output = format!("{}test odd ... bench: , ns/iter (+/- 1)\n{}", LINE, LINE);
    assert_eq!(
        session.step(ran(&output)),
        Action::Append {
            measurements: vec![Measurement::new("v1".to_string(), "fixed".to_string(), 1000, 10)],
        }
    );
    assert_eq!(session.step(Event::Done), Action::Restore);
    assert_eq!(
        session.step(Event::Done),
        Action::Finish {
            fault: Some(Fault {
                kind: FaultKind::Extract { error: ExtractError::Time },
                revision: 0,
            }),
            restore_failed: false,
        }
    );
}

#[test]
fn a_store_that_cannot_be_written_is_a_failure() {
    let (mut session, _) =
        Orchestrator::start(plan(&[]), 2, Some(texts(&["v1"])), "abc".to_string());
    assert_eq!(session.step(Event::Done), Action::Build);
    assert_eq!(session.step(built()), Action::Run { name: 0 });
    assert!(matches!(session.step(ran(LINE)), Action::Append { .. }));
    assert_eq!(session.step(Event::Failed), Action::Restore);
    assert_eq!(
        session.step(Event::Done),
        Action::Finish {
            fault: Some(Fault { kind: FaultKind::Store, revision: 0 }),
            restore_failed: false,
        }
    );
}

#[test]
fn a_report_that_answers_no_request_is_a_failure() {
    let (mut session, _) =
        Orchestrator::start(plan(&[]), 1, Some(texts(&["v1"])), "abc".to_string());
    assert_eq!(session.step(built()), Action::Restore);
    assert_eq!(
        session.step(Event::Done),
        Action::Finish {
            fault: Some(Fault { kind: FaultKind::Protocol, revision: 0 }),
            restore_failed: false,
        }
    );
    let (mut session, _) = Orchestrator::start(plan(&[]), 1, None, "abc".to_string());
    assert_eq!(
        session.step(Event::Done),
        Action::Finish {
            fault: Some(Fault { kind: FaultKind::Protocol, revision: 0 }),
            restore_failed: false,
        }
    );
}

#[test]
fn the_label_follows_the_revision_at_work() {
    let (mut session, _) =
        Orchestrator::start(plan(&[]), 1, Some(texts(&["v1", "v2"])), "abc".to_string());
    assert_eq!(session.current_label(), "v1");
    assert_eq!(session.step(Event::Done), Action::Build);
    assert_eq!(session.step(built()), Action::Run { name: 0 });
    assert!(matches!(session.step(ran(LINE)), Action::Append { .. }));
    assert_eq!(session.step(Event::Done), Action::Checkout { revision: 1 });
    assert_eq!(session.current_label(), "v2");
}

#[test]
fn a_session_knows_whether_it_stands_where_it_can() {
    let (mut session, _) =
        Orchestrator::start(plan(&[]), 1, Some(texts(&["v1", "v2"])), "abc".to_string());
    assert!(session.is_well_formed());
    assert_eq!(session.step(Event::Done), Action::Build);
    assert!(session.is_well_formed());
    session.progress.revision = 2;
    assert!(!session.is_well_formed());
    session.progress.revision = 1;
    assert!(session.is_well_formed());
    session.progress.moved = false;
    assert!(!session.is_well_formed());
    let (mut alone, _) = Orchestrator::start(plan(&[]), 1, None, "abc".to_string());
    assert!(alone.is_well_formed());
    alone.progress.moved = true;
    assert!(!alone.is_well_formed());
    alone.progress.moved = false;
    alone.progress.phase = Phase::Running;
    alone.progress.repetition = 1;
    assert!(!alone.is_well_formed());
    alone.progress.repetition = 0;
    assert!(alone.is_well_formed());
    alone.progress.name = 1;
    assert!(!alone.is_well_formed());
}
