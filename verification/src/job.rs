//! One run of the archiver program, as a state machine.
//!
//! A job knows which program to start, with which arguments, and which paths
//! are to be removed once the program has done its work. The caller performs
//! each [`Directive`] and reports what happened as an [`Event`]; the job
//! answers with the next directive. Nothing is removed before the archiver
//! has exited with success, and the job finishes only after every path has
//! been removed.

use vstd::prelude::*;

verus! {

/// What a job is run for.
#[derive(Clone, Copy, Debug, PartialEq, Eq)]
pub enum Purpose {
    /// Files are packed into a new artifact.
    Pack,
    /// An artifact is unpacked.
    Load,
}

/// Where a job stands.
#[derive(Clone, Copy, Debug, PartialEq, Eq)]
pub enum Phase {
    /// Nothing has happened yet.
    Ready,
    /// The archiver is being started.
    Spawning,
    /// The password is being written to the archiver's input.
    Feeding,
    /// The archiver is running.
    Waiting,
    /// The archiver succeeded; the path with this index is being removed.
    Removing(usize),
    /// Every path has been removed.
    Done,
    /// The job was given up.
    Failed,
}

/// What the caller observed after carrying out a directive.
#[derive(Clone, Copy, Debug, PartialEq, Eq)]
pub enum Event {
    /// The caller is ready to run the job.
    Begin,
    /// The archiver was started; `stdin` tells whether its input can be
    /// written to.
    Spawned { stdin: bool },
    /// The password was written and the input closed.
    Fed,
    /// The archiver exited.
    Exited { success: bool, code: Option<i32> },
    /// The path named by the last directive was removed.
    Removed,
    /// The last directive could not be carried out.
    Broke,
}

/// Why a job was given up.
#[derive(Clone, Copy, Debug, PartialEq, Eq)]
pub enum JobError {
    /// The archiver's input could not be obtained.
    NoStdin,
    /// Starting, feeding, awaiting the archiver or removing a path failed.
    Io,
    /// The archiver gave up while packing and wrote no usable artifact; its
    /// exit code is kept if it had one.
    Encode(Option<i32>),
    /// The archiver gave up while unpacking: the password is wrong or the
    /// artifact is damaged, which is all that its exit tells. Its exit code
    /// is kept if it had one.
    Authentication(Option<i32>),
    /// An event arrived that does not answer the last directive.
    OutOfTurn,
}

/// What the caller is to do next.
#[derive(Clone, Copy, Debug, PartialEq, Eq)]
pub enum Directive {
    /// Start the program with the job's arguments, its input piped.
    Spawn,
    /// Write the password to the program's input, flush and close it.
    Feed,
    /// Wait for the program to exit.
    Wait,
    /// Remove the path with this index among the job's doomed paths.
    Remove(usize),
    /// The job is complete.
    Finish,
    /// The job has failed; nothing more is to be done for it.
    Abort(JobError),
}

/// The step taken once the paths before index `next` are gone, when `n` are
/// to be removed in all.
pub open spec fn removal(next: int, n: nat) -> (Phase, Directive) {
    if 0 <= next < n && next <= usize::MAX {
        (Phase::Removing(next as usize), Directive::Remove(next as usize))
    } else {
        (Phase::Done, Directive::Finish)
    }
}

/// The error that stands for an archiver which exited without success.
pub open spec fn refusal(purpose: Purpose, code: Option<i32>) -> JobError {
    match purpose {
        Purpose::Pack => JobError::Encode(code),
        Purpose::Load => JobError::Authentication(code),
    }
}

/// The transition relation: the phase entered and the directive given when
/// `event` arrives in `phase`, for a job with this purpose and `n` paths to
/// remove.
pub open spec fn step(purpose: Purpose, phase: Phase, event: Event, n: nat) -> (Phase, Directive) {
    match (phase, event) {
        (Phase::Done, _) => (Phase::Done, Directive::Abort(JobError::OutOfTurn)),
        (Phase::Failed, _) => (Phase::Failed, Directive::Abort(JobError::OutOfTurn)),
        (Phase::Ready, Event::Begin) => (Phase::Spawning, Directive::Spawn),
        (Phase::Ready, _) => (Phase::Failed, Directive::Abort(JobError::OutOfTurn)),
        (_, Event::Broke) => (Phase::Failed, Directive::Abort(JobError::Io)),
        (Phase::Spawning, Event::Spawned { stdin }) => if stdin {
            (Phase::Feeding, Directive::Feed)
        } else {
            (Phase::Failed, Directive::Abort(JobError::NoStdin))
        },
        (Phase::Feeding, Event::Fed) => (Phase::Waiting, Directive::Wait),
        (Phase::Waiting, Event::Exited { success, code }) => if success {
            removal(0, n)
        } else {
            (Phase::Failed, Directive::Abort(refusal(purpose, code)))
        },
        (Phase::Removing(i), Event::Removed) => removal(i + 1, n),
        _ => (Phase::Failed, Directive::Abort(JobError::OutOfTurn)),
    }
}

/// The phase reached from [`Phase::Ready`] after `events`.
pub open spec fn phase_after(purpose: Purpose, events: Seq<Event>, n: nat) -> Phase
    decreases events.len(),
{
    if events.len() == 0 {
        Phase::Ready
    } else {
        step(purpose, phase_after(purpose, events.drop_last(), n), events.last(), n).0
    }
}

/// The directive given in answer to the event with index `i` of `events`.
pub open spec fn directive_at(purpose: Purpose, events: Seq<Event>, i: int, n: nat) -> Directive
    recommends
        0 <= i < events.len(),
{
    step(purpose, phase_after(purpose, events.take(i), n), events[i], n).1
}

/// The event says that the archiver exited with success.
pub open spec fn reports_success(event: Event) -> bool {
    match event {
        Event::Exited { success, .. } => success,
        _ => false,
    }
}

/// The archiver has reported success somewhere among `events`.
pub open spec fn succeeded_within(events: Seq<Event>) -> bool {
    exists|j: int| 0 <= j < events.len() && reports_success(#[trigger] events[j])
}

/// The removal of the path with index `k` was ordered in answer to one of
/// the first `upto` events.
pub open spec fn removal_ordered(
    purpose: Purpose,
    events: Seq<Event>,
    n: nat,
    k: int,
    upto: int,
) -> bool {
    exists|j: int|
        0 <= j < upto && j < events.len() && #[trigger] directive_at(purpose, events, j, n)
            == Directive::Remove(k as usize)
}

/// The events of a run in which nothing goes wrong: the archiver starts,
/// takes the password, exits with success, and `removed` removals succeed.
pub open spec fn smooth_run(code: Option<i32>, removed: nat) -> Seq<Event> {
    seq![
        Event::Begin,
        Event::Spawned { stdin: true },
        Event::Fed,
        Event::Exited { success: true, code },
    ] + Seq::new(removed, |i: int| Event::Removed)
}

/// One archiver run together with the removals that follow its success.
#[derive(Debug)]
pub struct Job {
    purpose: Purpose,
    program: String,
    args: Vec<String>,
    doomed: Vec<String>,
    phase: Phase,
}

/// What a job is made of, as plain values.
pub struct JobView {
    pub purpose: Purpose,
    pub program: Seq<char>,
    pub args: Seq<Seq<char>>,
    pub doomed: Seq<Seq<char>>,
    pub phase: Phase,
}

impl View for Job {
    type V = JobView;

    closed spec fn view(&self) -> JobView {
        JobView {
            purpose: self.purpose,
            program: self.program@,
            args: self.args.deep_view(),
            doomed: self.doomed.deep_view(),
            phase: self.phase,
        }
    }
}

impl Job {
    /// A job that has not begun.
    pub fn new(purpose: Purpose, program: String, args: Vec<String>, doomed: Vec<String>) -> (job:
        Job)
        ensures
            job@.purpose == purpose,
            job@.program == program@,
            job@.args == args.deep_view(),
            job@.doomed == doomed.deep_view(),
            job@.phase == Phase::Ready,
    {
        Job { purpose, program, args, doomed, phase: Phase::Ready }
    }

    /// What the job is run for.
    pub fn purpose(&self) -> (purpose: Purpose)
        ensures
            purpose == self@.purpose,
    {
        self.purpose
    }

    /// The program to start.
    pub fn program(&self) -> (program: &String)
        ensures
            program@ == self@.program,
    {
        &self.program
    }

    /// The arguments to start it with.
    pub fn args(&self) -> (args: &Vec<String>)
        ensures
            args.deep_view() == self@.args,
    {
        &self.args
    }

    /// The paths that are removed once the archiver has succeeded.
    pub fn doomed(&self) -> (doomed: &Vec<String>)
        ensures
            doomed.deep_view() == self@.doomed,
    {
        &self.doomed
    }

    /// Where the job stands.
    pub fn phase(&self) -> (phase: Phase)
        ensures
            phase == self@.phase,
    {
        self.phase
    }

    /// Takes in what happened and says what to do next.
    pub fn advance(&mut self, event: Event) -> (directive: Directive)
        ensures
            final(self)@.purpose == old(self)@.purpose,
            final(self)@.program == old(self)@.program,
            final(self)@.args == old(self)@.args,
            final(self)@.doomed == old(self)@.doomed,
            (final(self)@.phase, directive) == step(
                old(self)@.purpose,
                old(self)@.phase,
                event,
                old(self)@.doomed.len(),
            ),
    {
        let n: usize = self.doomed.len();
        proof {
            assert(self.doomed.deep_view().len() == self.doomed@.len());
        }
        let (phase, directive) = match (self.phase, event) {
            (Phase::Done, _) => (Phase::Done, Directive::Abort(JobError::OutOfTurn)),
            (Phase::Failed, _) => (Phase::Failed, Directive::Abort(JobError::OutOfTurn)),
            (Phase::Ready, Event::Begin) => (Phase::Spawning, Directive::Spawn),
            (Phase::Ready, _) => (Phase::Failed, Directive::Abort(JobError::OutOfTurn)),
            (_, Event::Broke) => (Phase::Failed, Directive::Abort(JobError::Io)),
            (Phase::Spawning, Event::Spawned { stdin }) => if stdin {
                (Phase::Feeding, Directive::Feed)
            } else {
                (Phase::Failed, Directive::Abort(JobError::NoStdin))
            },
            (Phase::Feeding, Event::Fed) => (Phase::Waiting, Directive::Wait),
            (Phase::Waiting, Event::Exited { success, code }) => if success {
                if n > 0 {
                    (Phase::Removing(0), Directive::Remove(0))
                } else {
                    (Phase::Done, Directive::Finish)
                }
            } else {
                match self.purpose {
                    Purpose::Pack => (Phase::Failed, Directive::Abort(JobError::Encode(code))),
                    Purpose::Load => (
                        Phase::Failed,
                        Directive::Abort(JobError::Authentication(code)),
                    ),
                }
            },
            (Phase::Removing(i), Event::Removed) => if n > 0 && i < n - 1 {
                (Phase::Removing(i + 1), Directive::Remove(i + 1))
            } else {
                (Phase::Done, Directive::Finish)
            },
            _ => (Phase::Failed, Directive::Abort(JobError::OutOfTurn)),
        };
        self.phase = phase;
        directive
    }
}

/// A removal always names one of the job's paths.
pub proof fn lemma_removal_in_bounds(purpose: Purpose, phase: Phase, event: Event, n: nat, k: usize)
    requires
        step(purpose, phase, event, n).1 == Directive::Remove(k),
    ensures
        k < n,
{
}

/// Once a job is removing paths or is done, the archiver has reported
/// success at some point before.
pub proof fn lemma_progress_needs_success(purpose: Purpose, events: Seq<Event>, n: nat)
    requires
        phase_after(purpose, events, n) is Removing || phase_after(purpose, events, n) is Done,
    ensures
        succeeded_within(events),
    decreases events.len(),
{
    if events.len() > 0 {
        let before = events.drop_last();
        let last = events.len() - 1;
        if reports_success(events[last]) {
        } else {
            let reached = phase_after(purpose, before, n);
            assert(reached is Removing || reached is Done);
            lemma_progress_needs_success(purpose, before, n);
            let j = choose|j: int| 0 <= j < before.len() && reports_success(#[trigger] before[j]);
            assert(reports_success(events[j]));
        }
    }
}

/// Nothing is removed before the archiver has exited with success: if the
/// answer to the event with index `i` is a removal, then that event or an
/// earlier one reported the success, whatever events the caller sends.
pub proof fn lemma_no_removal_before_success(purpose: Purpose, events: Seq<Event>, i: int, n: nat)
    requires
        0 <= i < events.len(),
        directive_at(purpose, events, i, n) is Remove,
    ensures
        succeeded_within(events.take(i + 1)),
{
    let upto = events.take(i + 1);
    let before = events.take(i);
    if reports_success(events[i]) {
        assert(reports_success(upto[i]));
    } else {
        assert(phase_after(purpose, before, n) is Removing);
        lemma_progress_needs_success(purpose, before, n);
        let j = choose|j: int| 0 <= j < before.len() && reports_success(#[trigger] before[j]);
        assert(reports_success(upto[j]));
    }
}

/// While a job is removing the path with index `m`, every path up to `m`
/// has had its removal ordered.
proof fn lemma_removals_so_far(purpose: Purpose, events: Seq<Event>, n: nat, m: usize)
    requires
        phase_after(purpose, events, n) == Phase::Removing(m),
    ensures
        m < n,
        forall|k: int|
            0 <= k <= m ==> #[trigger] removal_ordered(purpose, events, n, k, events.len() as int),
    decreases events.len(),
{
    if events.len() > 0 {
        let before = events.drop_last();
        let last = events.len() - 1;
        assert(before =~= events.take(last));
        assert(directive_at(purpose, events, last, n) == Directive::Remove(m));
        if m > 0 {
            let prev: usize = (m - 1) as usize;
            assert(phase_after(purpose, before, n) == Phase::Removing(prev));
            lemma_removals_so_far(purpose, before, n, prev);
        }
        assert forall|k: int| 0 <= k <= m implies #[trigger] removal_ordered(
            purpose,
            events,
            n,
            k,
            events.len() as int,
        ) by {
            if k < m {
                assert(removal_ordered(purpose, before, n, k, before.len() as int));
                let j = choose|j: int|
                    0 <= j < before.len() && #[trigger] directive_at(purpose, before, j, n)
                        == Directive::Remove(k as usize);
                assert(before.take(j) =~= events.take(j));
                assert(directive_at(purpose, events, j, n) == Directive::Remove(k as usize));
            }
        }
    }
}

/// A job finishes only after the removal of each of its paths has been
/// ordered: if the answer to the event with index `i` is to finish, then for
/// every path an earlier answer was its removal.
pub proof fn lemma_finish_after_all_removed(purpose: Purpose, events: Seq<Event>, i: int, n: nat)
    requires
        n <= usize::MAX,
        0 <= i < events.len(),
        directive_at(purpose, events, i, n) == Directive::Finish,
    ensures
        forall|k: int| 0 <= k < n ==> #[trigger] removal_ordered(purpose, events, n, k, i),
{
    let before = events.take(i);
    if n > 0 {
        let m: usize = (n - 1) as usize;
        assert(phase_after(purpose, before, n) == Phase::Removing(m));
        lemma_removals_so_far(purpose, before, n, m);
        assert forall|k: int| 0 <= k < n implies #[trigger] removal_ordered(
            purpose,
            events,
            n,
            k,
            i,
        ) by {
            assert(removal_ordered(purpose, before, n, k, before.len() as int));
            let j = choose|j: int|
                0 <= j < before.len() && #[trigger] directive_at(purpose, before, j, n)
                    == Directive::Remove(k as usize);
            assert(before.take(j) =~= events.take(j));
            assert(directive_at(purpose, events, j, n) == Directive::Remove(k as usize));
        }
    }
}

/// The archiver has not been seen to exit yet.
pub open spec fn early(phase: Phase) -> bool {
    phase is Ready || phase is Spawning || phase is Feeding || phase is Waiting
}

/// As long as the archiver has not been seen to exit, no removal has been
/// ordered.
pub proof fn lemma_early_means_untouched(purpose: Purpose, events: Seq<Event>, n: nat)
    requires
        early(phase_after(purpose, events, n)),
    ensures
        forall|j: int|
            0 <= j < events.len() ==> !(#[trigger] directive_at(purpose, events, j, n) is Remove),
    decreases events.len(),
{
    if events.len() > 0 {
        let before = events.drop_last();
        let last = events.len() - 1;
        assert(before =~= events.take(last));
        assert(early(phase_after(purpose, before, n)));
        lemma_early_means_untouched(purpose, before, n);
        assert forall|j: int| 0 <= j < events.len() implies !(#[trigger] directive_at(
            purpose,
            events,
            j,
            n,
        ) is Remove) by {
            if j < last {
                assert(before.take(j) =~= events.take(j));
                assert(directive_at(purpose, before, j, n) == directive_at(purpose, events, j, n));
            }
        }
    }
}

/// A job that is given up because the archiver exited without success has
/// ordered no removal: after a wrong password the artifact is still there,
/// and after a failed pack so are the files.
pub proof fn lemma_refusal_removes_nothing(
    purpose: Purpose,
    events: Seq<Event>,
    i: int,
    n: nat,
    code: Option<i32>,
)
    requires
        0 <= i < events.len(),
        directive_at(purpose, events, i, n) == Directive::Abort(refusal(purpose, code)),
    ensures
        phase_after(purpose, events.take(i + 1), n) == Phase::Failed,
        forall|j: int|
            0 <= j <= i ==> !(#[trigger] directive_at(purpose, events, j, n) is Remove),
{
    let before = events.take(i);
    let upto = events.take(i + 1);
    assert(upto.drop_last() =~= before);
    assert(upto.last() == events[i]);
    assert(phase_after(purpose, before, n) == Phase::Waiting);
    lemma_early_means_untouched(purpose, before, n);
    assert forall|j: int| 0 <= j <= i implies !(#[trigger] directive_at(purpose, events, j, n)
        is Remove) by {
        if j < i {
            assert(before.take(j) =~= events.take(j));
            assert(directive_at(purpose, before, j, n) == directive_at(purpose, events, j, n));
        }
    }
}

/// When nothing goes wrong the job removes its paths one after the other
/// and is done after the last: after the archiver's success and `removed`
/// removals it is removing the next path, or done if none is left.
pub proof fn lemma_smooth_run(purpose: Purpose, code: Option<i32>, removed: nat, n: nat)
    requires
        removed <= n <= usize::MAX,
    ensures
        phase_after(purpose, smooth_run(code, removed), n) == if removed < n {
            Phase::Removing(removed as usize)
        } else {
            Phase::Done
        },
    decreases removed,
{
    let events = smooth_run(code, removed);
    if removed == 0 {
        let e3 = events.drop_last();
        let e2 = e3.drop_last();
        let e1 = e2.drop_last();
        let e0 = e1.drop_last();
        assert(events.len() == 4);
        assert(e0.len() == 0);
        assert(phase_after(purpose, e0, n) == Phase::Ready);
        assert(e1.last() == Event::Begin);
        assert(phase_after(purpose, e1, n) == Phase::Spawning);
        assert(e2.last() == Event::Spawned { stdin: true });
        assert(phase_after(purpose, e2, n) == Phase::Feeding);
        assert(phase_after(purpose, e3, n) == Phase::Waiting);
    } else {
        let fewer: nat = (removed - 1) as nat;
        assert(events.drop_last() =~= smooth_run(code, fewer));
        lemma_smooth_run(purpose, code, fewer, n);
    }
}

} // verus!
