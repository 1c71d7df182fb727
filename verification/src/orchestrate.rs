//! The session as a state machine. The machine decides what is done next:
//! check out a revision, build, run a benchmark, append what the run
//! reported, restore the head it started from, leave. Its caller does each of these
//! and reports back how it went.

use crate::bench::BenchmarkPlan;
use crate::data::samples;
use crate::data::Measurement;
use crate::data::Sample;
use crate::extract::extract_measurements;
use crate::extract::law_samples_carry_commit;
use crate::extract::lines_samples;
use crate::extract::ExtractError;
use crate::text::lines_of;
use vstd::prelude::*;

verus! {

/// What the machine waits for.
#[derive(Clone, Copy, Debug, PartialEq, Eq, Structural)]
pub enum Phase {
    /// A revision is being checked out.
    CheckingOut,
    /// The benchmarks are being built.
    Building,
    /// A benchmark is running.
    Running,
    /// The measurements of a run are being appended to the store.
    Storing,
    /// The head that the session started from is being restored.
    Restoring,
    /// The session is over.
    Finished,
}

/// How the benchmark command ended.
#[derive(Clone, Copy, Debug, PartialEq, Eq, Structural)]
pub enum Exit {
    /// It reported success.
    Success,
    /// It returned this code, which reports a failure.
    Code { code: i32 },
    /// It ended without a code.
    Killed,
}

/// What went wrong.
#[derive(Clone, Copy, Debug, PartialEq, Eq, Structural)]
pub enum FaultKind {
    /// The revision could not be checked out.
    Checkout,
    /// The benchmark command could not be started.
    Launch,
    /// The benchmark command returned this code.
    Exit { code: i32 },
    /// The benchmark command ended without a code.
    Killed,
    /// The output of the benchmark command is no valid text.
    Encoding,
    /// A line of the output matches the pattern and states no timing.
    Extract { error: ExtractError },
    /// The measurements could not be appended to the store.
    Store,
    /// The caller reported something that answers no request of the machine.
    Protocol,
}

/// A failure, with the revision on which it happened: its position in the
/// list of revisions, or 0 where the session has no such list.
#[derive(Clone, Copy, Debug, PartialEq, Eq, Structural)]
pub struct Fault {
    pub kind: FaultKind,
    pub revision: usize,
}

/// How much there is to do: the number of revisions, where the session
/// visits a list of them; the number of benchmark names; and how often each
/// is run.
#[derive(Clone, Copy, Debug, PartialEq, Eq)]
pub struct Sizes {
    pub revisions: Option<usize>,
    pub names: usize,
    pub repeat: usize,
}

/// Where the session stands.
#[derive(Clone, Copy, Debug, PartialEq, Eq)]
pub struct Progress {
    pub phase: Phase,
    /// The revision at work.
    pub revision: usize,
    /// The benchmark name at work.
    pub name: usize,
    /// How many runs of that name are complete on this revision.
    pub repetition: usize,
    /// Whether a checkout was asked for and the head not restored since.
    pub moved: bool,
    /// The first failure of the session.
    pub fault: Option<Fault>,
    /// Whether restoring the head failed.
    pub restore_failed: bool,
}

/// What the caller reports.
#[derive(Debug, PartialEq, Eq)]
pub enum Event {
    /// The checkout, the append or the restore succeeded.
    Done,
    /// What was asked for could not be done.
    Failed,
    /// The benchmark command ran and ended; `output` is what it printed,
    /// where that is valid text.
    Exited { exit: Exit, output: Option<String> },
}

/// What the caller is asked to do next.
#[derive(Debug, PartialEq, Eq)]
pub enum Action {
    /// Check out the revision at this position of the list.
    Checkout { revision: usize },
    /// Build the benchmarks.
    Build,
    /// Run the benchmark with the name at this position of the plan.
    Run { name: usize },
    /// Append these measurements to the store, in this order.
    Append { measurements: Vec<Measurement> },
    /// Restore the head that the session started from.
    Restore,
    /// Leave. `fault` is the first failure of the session, if there was one;
    /// `restore_failed` says whether restoring the head failed.
    Finish { fault: Option<Fault>, restore_failed: bool },
}

/// An event as the machine reads it: the output of a run stands for the
/// measurements found in it, and for the failure that ended the reading.
pub enum Signal {
    Done,
    Failed,
    Exited { exit: Exit, output: Option<(Seq<Sample>, Option<ExtractError>)> },
}

/// An action with its measurements taken by their views.
pub enum Step {
    Checkout { revision: usize },
    Build,
    Run { name: usize },
    Append { measurements: Seq<Sample> },
    Restore,
    Finish { fault: Option<Fault>, restore_failed: bool },
}

impl View for Action {
    type V = Step;

    open spec fn view(&self) -> Step {
        match *self {
            Action::Checkout { revision } => Step::Checkout { revision },
            Action::Build => Step::Build,
            Action::Run { name } => Step::Run { name },
            Action::Append { measurements } => Step::Append {
                measurements: samples(measurements@),
            },
            Action::Restore => Step::Restore,
            Action::Finish { fault, restore_failed } => Step::Finish { fault, restore_failed },
        }
    }
}

/// How the machine reads `event` while the revision `label` is at work.
pub open spec fn signal_of(label: Seq<char>, event: Event) -> Signal {
    match event {
        Event::Done => Signal::Done,
        Event::Failed => Signal::Failed,
        Event::Exited { exit, output } => Signal::Exited {
            exit,
            output: match output {
                Some(text) => Some(lines_samples(label, lines_of(text@))),
                None => None,
            },
        },
    }
}

/// The first request of a session. With a list of revisions the first of
/// them is checked out; an empty list leaves nothing to do. Without a list
/// the benchmarks are built where the working tree stands.
pub open spec fn begin(sizes: Sizes) -> (Progress, Step) {
    let fresh = Progress {
        phase: Phase::Building,
        revision: 0,
        name: 0,
        repetition: 0,
        moved: false,
        fault: None,
        restore_failed: false,
    };
    match sizes.revisions {
        None => (fresh, Step::Build),
        Some(count) => if count == 0 {
            (
                Progress { phase: Phase::Finished, ..fresh },
                Step::Finish { fault: None, restore_failed: false },
            )
        } else {
            (
                Progress { phase: Phase::CheckingOut, moved: true, ..fresh },
                Step::Checkout { revision: 0 },
            )
        },
    }
}

/// Ends the work on the revisions after `fault`: the head is restored where
/// a checkout was asked for, and the session is left at once where none was.
pub open spec fn leave(p: Progress, fault: Fault) -> (Progress, Step) {
    if p.moved {
        (Progress { phase: Phase::Restoring, fault: Some(fault), ..p }, Step::Restore)
    } else {
        (
            Progress { phase: Phase::Finished, fault: Some(fault), ..p },
            Step::Finish { fault: Some(fault), restore_failed: false },
        )
    }
}

/// Ends the work on the revision at work with a failure of this kind.
pub open spec fn fail(p: Progress, kind: FaultKind) -> (Progress, Step) {
    leave(p, Fault { kind, revision: p.revision })
}

/// Goes on after the last run on a revision: to the next revision of the
/// list, or, after the last one, to restoring the head. A session without a
/// list is over.
pub open spec fn next_revision(sizes: Sizes, p: Progress) -> (Progress, Step) {
    let revision = (p.revision + 1) as usize;
    let q = Progress { revision, name: 0, repetition: 0, ..p };
    match sizes.revisions {
        None => (
            Progress { phase: Phase::Finished, ..q },
            Step::Finish { fault: None, restore_failed: false },
        ),
        Some(count) => if revision < count {
            (Progress { phase: Phase::CheckingOut, ..q }, Step::Checkout { revision })
        } else {
            (Progress { phase: Phase::Restoring, ..q }, Step::Restore)
        },
    }
}

/// Goes on after a run that was stored: to the next run of the same name,
/// then to the next name, then to the next revision.
pub open spec fn next_run(sizes: Sizes, p: Progress) -> (Progress, Step) {
    if p.repetition + 1 < sizes.repeat {
        (
            Progress { phase: Phase::Running, repetition: (p.repetition + 1) as usize, ..p },
            Step::Run { name: p.name },
        )
    } else if p.name + 1 < sizes.names {
        (
            Progress {
                phase: Phase::Running,
                name: (p.name + 1) as usize,
                repetition: 0,
                ..p
            },
            Step::Run { name: (p.name + 1) as usize },
        )
    } else {
        next_revision(sizes, p)
    }
}

/// The failure that a run which did not succeed stands for.
pub open spec fn exit_fault(exit: Exit) -> FaultKind {
    match exit {
        Exit::Code { code } => FaultKind::Exit { code },
        _ => FaultKind::Killed,
    }
}

/// The machine's answer to `signal` where it stands at `p`: where it stands
/// afterwards, and what it asks for.
pub open spec fn next(sizes: Sizes, p: Progress, signal: Signal) -> (Progress, Step) {
    match p.phase {
        Phase::CheckingOut => match signal {
            Signal::Done => (Progress { phase: Phase::Building, ..p }, Step::Build),
            Signal::Failed => fail(p, FaultKind::Checkout),
            Signal::Exited { .. } => fail(p, FaultKind::Protocol),
        },
        Phase::Building => match signal {
            Signal::Exited { exit: Exit::Success, .. } => if sizes.names == 0 || sizes.repeat == 0 {
                next_revision(sizes, p)
            } else {
                (
                    Progress { phase: Phase::Running, name: 0, repetition: 0, ..p },
                    Step::Run { name: 0 },
                )
            },
            Signal::Exited { exit, .. } => fail(p, exit_fault(exit)),
            Signal::Failed => fail(p, FaultKind::Launch),
            Signal::Done => fail(p, FaultKind::Protocol),
        },
        Phase::Running => match signal {
            Signal::Exited { exit: Exit::Success, output: Some((measurements, failure)) } => (
                Progress {
                    phase: Phase::Storing,
                    fault: match failure {
                        Some(error) => Some(
                            Fault { kind: FaultKind::Extract { error }, revision: p.revision },
                        ),
                        None => None,
                    },
                    ..p
                },
                Step::Append { measurements },
            ),
            Signal::Exited { exit: Exit::Success, output: None } => fail(p, FaultKind::Encoding),
            Signal::Exited { exit, .. } => fail(p, exit_fault(exit)),
            Signal::Failed => fail(p, FaultKind::Launch),
            Signal::Done => fail(p, FaultKind::Protocol),
        },
        Phase::Storing => match signal {
            Signal::Done => match p.fault {
                Some(fault) => leave(p, fault),
                None => next_run(sizes, p),
            },
            Signal::Failed => fail(p, FaultKind::Store),
            Signal::Exited { .. } => fail(p, FaultKind::Protocol),
        },
        Phase::Restoring => match signal {
            Signal::Done => (
                Progress { phase: Phase::Finished, moved: false, ..p },
                Step::Finish { fault: p.fault, restore_failed: false },
            ),
            _ => (
                Progress { phase: Phase::Finished, restore_failed: true, ..p },
                Step::Finish { fault: p.fault, restore_failed: true },
            ),
        },
        Phase::Finished => (p, Step::Finish { fault: p.fault, restore_failed: p.restore_failed }),
    }
}

/// Whether `p` is a place where a session of these sizes can stand.
pub open spec fn consistent(sizes: Sizes, p: Progress) -> bool {
    let count: int = match sizes.revisions {
        Some(count) => count as int,
        None => 1,
    };
    &&& p.moved ==> sizes.revisions is Some
    &&& p.phase is Restoring ==> p.moved
    &&& p.revision <= count
    &&& (p.phase is CheckingOut || p.phase is Building || p.phase is Running || p.phase
        is Storing) ==> p.revision < count
    &&& (p.phase is Running || p.phase is Storing) ==> p.name < sizes.names && p.repetition
        < sizes.repeat
    &&& p.phase is CheckingOut ==> p.moved
    &&& sizes.revisions is Some && (p.phase is Building || p.phase is Running || p.phase
        is Storing) ==> p.moved
}

fn leave_with(p: Progress, fault: Fault) -> (r: (Progress, Action))
    ensures
        (r.0, r.1@) == leave(p, fault),
{
    if p.moved {
        (Progress { phase: Phase::Restoring, fault: Some(fault), ..p }, Action::Restore)
    } else {
        (
            Progress { phase: Phase::Finished, fault: Some(fault), ..p },
            Action::Finish { fault: Some(fault), restore_failed: false },
        )
    }
}

fn fail_with(p: Progress, kind: FaultKind) -> (r: (Progress, Action))
    ensures
        (r.0, r.1@) == fail(p, kind),
{
    leave_with(p, Fault { kind, revision: p.revision })
}

fn fault_of(exit: Exit) -> (kind: FaultKind)
    ensures
        kind == exit_fault(exit),
{
    match exit {
        Exit::Code { code } => FaultKind::Exit { code },
        _ => FaultKind::Killed,
    }
}

fn to_next_revision(sizes: Sizes, p: Progress) -> (r: (Progress, Action))
    requires
        p.revision < usize::MAX,
    ensures
        (r.0, r.1@) == next_revision(sizes, p),
{
    let revision = p.revision + 1;
    let q = Progress { revision, name: 0, repetition: 0, ..p };
    match sizes.revisions {
        None => (
            Progress { phase: Phase::Finished, ..q },
            Action::Finish { fault: None, restore_failed: false },
        ),
        Some(count) => if revision < count {
            (Progress { phase: Phase::CheckingOut, ..q }, Action::Checkout { revision })
        } else {
            (Progress { phase: Phase::Restoring, ..q }, Action::Restore)
        },
    }
}

fn to_next_run(sizes: Sizes, p: Progress) -> (r: (Progress, Action))
    requires
        p.revision < usize::MAX,
        p.name < sizes.names,
        p.repetition < sizes.repeat,
    ensures
        (r.0, r.1@) == next_run(sizes, p),
{
    if p.repetition + 1 < sizes.repeat {
        (
            Progress { phase: Phase::Running, repetition: p.repetition + 1, ..p },
            Action::Run { name: p.name },
        )
    } else if p.name + 1 < sizes.names {
        (
            Progress { phase: Phase::Running, name: p.name + 1, repetition: 0, ..p },
            Action::Run { name: p.name + 1 },
        )
    } else {
        to_next_revision(sizes, p)
    }
}

/// A session: what is to be run on which revisions, and how far it has come.
#[derive(Debug, PartialEq, Eq)]
pub struct Orchestrator {
    /// The flags and names of the benchmark runs.
    pub plan: BenchmarkPlan,
    /// How often each name is run on each revision.
    pub repeat: usize,
    /// The short identifiers of the commits to visit, in order; `None` where
    /// the session runs on the working tree as it stands.
    pub revisions: Option<Vec<String>>,
    /// The short identifier of the commit on which the working tree stands
    /// at the start.
    pub head: String,
    /// Where the session stands.
    pub progress: Progress,
}

impl Orchestrator {
    /// How much the session has to do.
    pub open spec fn sizes(&self) -> Sizes {
        Sizes {
            revisions: match self.revisions {
                Some(list) => Some(list@.len() as usize),
                None => None,
            },
            names: self.plan.names@.len() as usize,
            repeat: self.repeat,
        }
    }

    /// The short identifier of the revision at work: the measurements of a
    /// run are recorded under it.
    pub open spec fn label(&self) -> Seq<char> {
        match self.revisions {
            Some(list) => if self.progress.revision < list@.len() {
                list@[self.progress.revision as int]@
            } else {
                Seq::empty()
            },
            None => self.head@,
        }
    }

    /// Whether the session stands at a place that its sizes allow.
    pub open spec fn wf(&self) -> bool {
        consistent(self.sizes(), self.progress)
    }

    /// Tells whether the session stands at a place that its sizes allow.
    pub fn is_well_formed(&self) -> (r: bool)
        ensures
            r == self.wf(),
    {
        let sizes = self.measure();
        let p = self.progress;
        let count: usize = match sizes.revisions {
            Some(count) => count,
            None => 1,
        };
        let working = match p.phase {
            Phase::CheckingOut | Phase::Building | Phase::Running | Phase::Storing => true,
            _ => false,
        };
        let running = match p.phase {
            Phase::Running | Phase::Storing => true,
            _ => false,
        };
        let listed = sizes.revisions.is_some();
        (!p.moved || listed) && (!matches!(p.phase, Phase::Restoring) || p.moved) && p.revision
            <= count && (!working || p.revision < count) && (!running || (p.name < sizes.names
            && p.repetition < sizes.repeat)) && (!matches!(p.phase, Phase::CheckingOut) || p.moved)
            && (!(listed && working && !matches!(p.phase, Phase::CheckingOut)) || p.moved)
    }

    fn measure(&self) -> (sizes: Sizes)
        ensures
            sizes == self.sizes(),
    {
        Sizes {
            revisions: match &self.revisions {
                Some(list) => Some(list.len()),
                None => None,
            },
            names: self.plan.names.len(),
            repeat: self.repeat,
        }
    }

    /// The short identifier of the revision at work.
    pub fn current_label(&self) -> (label: String)
        ensures
            label@ == self.label(),
    {
        match &self.revisions {
            Some(list) => if self.progress.revision < list.len() {
                list[self.progress.revision].clone()
            } else {
                String::new()
            },
            None => self.head.clone(),
        }
    }

    /// Opens a session and gives its first request.
    pub fn start(
        plan: BenchmarkPlan,
        repeat: usize,
        revisions: Option<Vec<String>>,
        head: String,
    ) -> (r: (Orchestrator, Action))
        ensures
            r.0.plan == plan,
            r.0.repeat == repeat,
            r.0.revisions == revisions,
            r.0.head == head,
            r.0.wf(),
            (r.0.progress, r.1@) == begin(r.0.sizes()),
    {
        let fresh = Progress {
            phase: Phase::Building,
            revision: 0,
            name: 0,
            repetition: 0,
            moved: false,
            fault: None,
            restore_failed: false,
        };
        let (progress, action) = match &revisions {
            None => (fresh, Action::Build),
            Some(list) => if list.len() == 0 {
                (
                    Progress { phase: Phase::Finished, ..fresh },
                    Action::Finish { fault: None, restore_failed: false },
                )
            } else {
                (
                    Progress { phase: Phase::CheckingOut, moved: true, ..fresh },
                    Action::Checkout { revision: 0 },
                )
            },
        };
        let session = Orchestrator { plan, repeat, revisions, head, progress };
        proof {
            lemma_begin_consistent(session.sizes());
        }
        (session, action)
    }

    /// Takes the caller's report on the last request and gives the next
    /// request. The plan and the revisions stay as they are.
    pub fn step(&mut self, event: Event) -> (action: Action)
        requires
            old(self).wf(),
        ensures
            final(self).wf(),
            final(self).plan == old(self).plan,
            final(self).repeat == old(self).repeat,
            final(self).revisions == old(self).revisions,
            final(self).head == old(self).head,
            (final(self).progress, action@) == next(
                old(self).sizes(),
                old(self).progress,
                signal_of(old(self).label(), event),
            ),
    {
        let sizes = self.measure();
        let p = self.progress;
        proof {
            lemma_next_consistent(sizes, p, signal_of(self.label(), event));
        }
        let (q, action) = match p.phase {
            Phase::CheckingOut => match event {
                Event::Done => (Progress { phase: Phase::Building, ..p }, Action::Build),
                Event::Failed => fail_with(p, FaultKind::Checkout),
                Event::Exited { .. } => fail_with(p, FaultKind::Protocol),
            },
            Phase::Building => match event {
                Event::Exited { exit: Exit::Success, .. } => if sizes.names == 0 || sizes.repeat
                    == 0 {
                    to_next_revision(sizes, p)
                } else {
                    (
                        Progress { phase: Phase::Running, name: 0, repetition: 0, ..p },
                        Action::Run { name: 0 },
                    )
                },
                Event::Exited { exit, .. } => fail_with(p, fault_of(exit)),
                Event::Failed => fail_with(p, FaultKind::Launch),
                Event::Done => fail_with(p, FaultKind::Protocol),
            },
            Phase::Running => match event {
                Event::Exited { exit: Exit::Success, output: Some(text) } => {
                    let label = self.current_label();
                    let found = extract_measurements(label.as_str(), text.as_str());
                    (
                        Progress {
                            phase: Phase::Storing,
                            fault: match found.failure {
                                Some(error) => Some(
                                    Fault {
                                        kind: FaultKind::Extract { error },
                                        revision: p.revision,
                                    },
                                ),
                                None => None,
                            },
                            ..p
                        },
                        Action::Append { measurements: found.measurements },
                    )
                },
                Event::Exited { exit: Exit::Success, output: None } => fail_with(
                    p,
                    FaultKind::Encoding,
                ),
                Event::Exited { exit, .. } => fail_with(p, fault_of(exit)),
                Event::Failed => fail_with(p, FaultKind::Launch),
                Event::Done => fail_with(p, FaultKind::Protocol),
            },
            Phase::Storing => match event {
                Event::Done => match p.fault {
                    Some(fault) => leave_with(p, fault),
                    None => to_next_run(sizes, p),
                },
                Event::Failed => fail_with(p, FaultKind::Store),
                Event::Exited { .. } => fail_with(p, FaultKind::Protocol),
            },
            Phase::Restoring => match event {
                Event::Done => (
                    Progress { phase: Phase::Finished, moved: false, ..p },
                    Action::Finish { fault: p.fault, restore_failed: false },
                ),
                _ => (
                    Progress { phase: Phase::Finished, restore_failed: true, ..p },
                    Action::Finish { fault: p.fault, restore_failed: true },
                ),
            },
            Phase::Finished => (
                p,
                Action::Finish { fault: p.fault, restore_failed: p.restore_failed },
            ),
        };
        self.progress = q;
        action
    }
}

/// The first request leaves the session at a place that its sizes allow.
pub proof fn lemma_begin_consistent(sizes: Sizes)
    ensures
        consistent(sizes, begin(sizes).0),
{
}

/// Every answer of the machine leaves the session at a place that its sizes
/// allow.
pub proof fn lemma_next_consistent(sizes: Sizes, p: Progress, signal: Signal)
    requires
        consistent(sizes, p),
    ensures
        consistent(sizes, next(sizes, p, signal).0),
{
}

/// While a checkout stands and the head was not asked back, the machine
/// does not leave: whatever is reported, it goes on with the revisions or
/// asks for the head to be restored.
pub proof fn law_no_leave_while_moved(sizes: Sizes, p: Progress, signal: Signal)
    requires
        consistent(sizes, p),
        p.moved,
        !(p.phase is Restoring),
        !(p.phase is Finished),
    ensures
        !(next(sizes, p, signal).1 is Finish),
        next(sizes, p, signal).0.moved,
        next(sizes, p, signal).0.phase is Restoring <==> next(sizes, p, signal).1 is Restore,
        !(next(sizes, p, signal).0.phase is Finished),
{
}

/// A request to check out leaves the machine waiting for that checkout.
pub proof fn law_checkout_moves(sizes: Sizes, p: Progress, signal: Signal)
    requires
        consistent(sizes, p),
        next(sizes, p, signal).1 is Checkout,
    ensures
        next(sizes, p, signal).0.moved,
        next(sizes, p, signal).0.phase is CheckingOut,
{
}

/// Whether `signal` reports that what was asked for in `phase` failed.
pub open spec fn reports_failure(phase: Phase, signal: Signal) -> bool {
    match phase {
        Phase::CheckingOut | Phase::Storing => !(signal is Done),
        Phase::Building => !(signal matches Signal::Exited { exit: Exit::Success, .. }),
        Phase::Running => !(signal matches Signal::Exited {
            exit: Exit::Success,
            output: Some(_),
        }),
        _ => false,
    }
}

/// A failure on a revision ends the work on the revisions at once, and is
/// kept under the revision at work: where a checkout stands the head is
/// asked back, else the session is left with that failure.
pub proof fn law_failure_names_revision(sizes: Sizes, p: Progress, signal: Signal)
    requires
        consistent(sizes, p),
        reports_failure(p.phase, signal),
    ensures
        ({
            let (q, step) = next(sizes, p, signal);
            &&& q.fault is Some
            &&& q.fault->0.revision == p.revision
            &&& q.revision == p.revision
            &&& if p.moved {
                step is Restore
            } else {
                step == (Step::Finish { fault: q.fault, restore_failed: false })
            }
        }),
{
}

/// Restoring the head ends the session, and a failure to restore hides no
/// earlier failure: the machine leaves with the failure it held, and says
/// beside it whether the head came back.
pub proof fn law_restore_keeps_failure(sizes: Sizes, p: Progress, signal: Signal)
    requires
        consistent(sizes, p),
        p.phase is Restoring,
    ensures
        next(sizes, p, signal).1 == (Step::Finish {
            fault: p.fault,
            restore_failed: !(signal is Done),
        }),
        next(sizes, p, signal).0.fault == p.fault,
        next(sizes, p, signal).0.moved == !(signal is Done),
{
}

/// The machine never turns back to an earlier revision: the revisions are
/// visited in the order of the list.
pub proof fn law_revisions_in_order(sizes: Sizes, p: Progress, signal: Signal)
    requires
        consistent(sizes, p),
    ensures
        next(sizes, p, signal).0.revision >= p.revision,
{
}

/// What the machine asks to append is what the run on the revision at work
/// reported: every measurement is recorded under the label of that revision.
pub proof fn law_append_is_of_revision(sizes: Sizes, p: Progress, label: Seq<char>, event: Event)
    ensures
        next(sizes, p, signal_of(label, event)).1 matches Step::Append { measurements }
            ==> forall|i: int|
            0 <= i < measurements.len() ==> (#[trigger] measurements[i]).commit == label,
{
    if let Event::Exited { exit, output: Some(text) } = event {
        law_samples_carry_commit(label, lines_of(text@));
    }
}

/// How many runs are complete at `p`, over all revisions.
pub open spec fn runs_done(sizes: Sizes, p: Progress) -> int {
    (p.revision * sizes.names + p.name) * sizes.repeat + p.repetition
}

/// Each run that was read and stored without a failure counts once, and the
/// machine turns from the runs to restoring or leaving exactly when every
/// name was run `repeat` times on every revision.
pub proof fn law_runs_counted(sizes: Sizes, p: Progress)
    requires
        consistent(sizes, p),
        p.phase is Storing,
        p.fault is None,
    ensures
        ({
            let (q, step) = next(sizes, p, Signal::Done);
            let count: int = match sizes.revisions {
                Some(count) => count as int,
                None => 1,
            };
            &&& q.fault is None
            &&& runs_done(sizes, q) == runs_done(sizes, p) + 1
            &&& (step is Restore || step is Finish) <==> runs_done(sizes, q) == count * sizes.names
                * sizes.repeat
            &&& step is Run || step is Checkout || step is Restore || step is Finish
        }),
{
    let (q, step) = next(sizes, p, Signal::Done);
    let r = p.revision as int;
    let n = p.name as int;
    let k = p.repetition as int;
    let names = sizes.names as int;
    let repeat = sizes.repeat as int;
    let count: int = match sizes.revisions {
        Some(count) => count as int,
        None => 1,
    };
    assert((r * names + n + 1) * repeat == (r * names + n) * repeat + repeat)
        by (nonlinear_arith);
    assert((r + 1) * names == r * names + names) by (nonlinear_arith);
    assert(runs_done(sizes, q) == runs_done(sizes, p) + 1);
    if step is Restore || step is Finish {
        assert(q.revision == count);
        assert(runs_done(sizes, q) == count * names * repeat);
    } else {
        assert(runs_done(sizes, q) < count * names * repeat) by {
            let qr = q.revision as int;
            let qn = q.name as int;
            let qk = q.repetition as int;
            assert(qr < count && qn < names && qk < repeat);
            assert((qr * names + qn) * repeat + qk < count * names * repeat) by (nonlinear_arith)
                requires
                    0 <= qr < count,
                    0 <= qn < names,
                    0 <= qk < repeat,
            ;
        }
    }
}

/// The session that answers the reports `signals`, one after the other:
/// where it stands at the end, and every request it made, the first one
/// included.
pub open spec fn replay(sizes: Sizes, signals: Seq<Signal>) -> (Progress, Seq<Step>)
    decreases signals.len(),
{
    if signals.len() == 0 {
        (begin(sizes).0, seq![begin(sizes).1])
    } else {
        let (p, steps) = replay(sizes, signals.drop_last());
        let (q, step) = next(sizes, p, signals.last());
        (q, steps.push(step))
    }
}

/// Whether the last checkout among `steps` has no request to restore the
/// head after it.
pub open spec fn outstanding(steps: Seq<Step>) -> bool
    decreases steps.len(),
{
    if steps.len() == 0 {
        false
    } else {
        match steps.last() {
            Step::Checkout { .. } => true,
            Step::Restore => false,
            _ => outstanding(steps.drop_last()),
        }
    }
}

/// Whatever is reported, in whatever order: when the machine leaves, every
/// checkout it asked for was followed by a request to restore the head.
pub proof fn law_restore_follows_checkout(sizes: Sizes, signals: Seq<Signal>)
    ensures
        consistent(sizes, replay(sizes, signals).0),
        outstanding(replay(sizes, signals).1) ==> {
            let p = replay(sizes, signals).0;
            p.moved && !(p.phase is Restoring) && !(p.phase is Finished)
        },
        replay(sizes, signals).1.last() is Finish ==> !outstanding(replay(sizes, signals).1),
    decreases signals.len(),
{
    if signals.len() == 0 {
        let steps = seq![begin(sizes).1];
        assert(steps.drop_last() =~= Seq::<Step>::empty());
        assert(steps.last() == begin(sizes).1);
        assert(!outstanding(steps.drop_last()));
    } else {
        law_restore_follows_checkout(sizes, signals.drop_last());
        let (p, steps) = replay(sizes, signals.drop_last());
        let (q, step) = next(sizes, p, signals.last());
        lemma_next_consistent(sizes, p, signals.last());
        assert(steps.push(step).drop_last() =~= steps);
        assert(steps.push(step).last() == step);
        if step is Checkout {
            law_checkout_moves(sizes, p, signals.last());
        } else if outstanding(steps) {
            law_no_leave_while_moved(sizes, p, signals.last());
        }
    }
}

} // verus!
