//! The decisions of the solve loop: what follows from a sweep over the
//! opcodes, and when the resolver may be asked again.

use vstd::prelude::*;
use vstd::string::*;
use crate::error::ExecutionError;

verus! {

/// What one sweep over the unresolved opcodes did.
#[derive(Clone, Copy, Debug, PartialEq, Eq, Structural)]
pub struct PassReport {
    /// Opcodes that the sweep resolved.
    pub resolved: usize,
    /// Opcodes other than foreign calls that are still unresolved.
    pub unresolved_local: usize,
    /// Foreign calls that wait for the resolver.
    pub unresolved_foreign: usize,
}

/// What a sweep means for the loop.
#[derive(Clone, Copy, Debug, PartialEq, Eq, Structural)]
pub enum Verdict {
    /// Nothing is left.
    Solved,
    /// Something was resolved and local opcodes are left: sweep again.
    Repeat,
    /// Foreign calls are left, and another sweep would resolve nothing
    /// before the resolver has answered them.
    Blocked,
    /// Nothing was resolved, local opcodes are left, and no foreign call
    /// is waiting whose answer could help.
    Stalled,
}

/// The verdict on a sweep.
pub open spec fn verdict_spec(report: PassReport) -> Verdict {
    if report.unresolved_local == 0 && report.unresolved_foreign == 0 {
        Verdict::Solved
    } else if report.unresolved_local > 0 && report.resolved > 0 {
        Verdict::Repeat
    } else if report.unresolved_foreign > 0 {
        Verdict::Blocked
    } else {
        Verdict::Stalled
    }
}

/// The verdict on a sweep.
pub fn verdict(report: &PassReport) -> (v: Verdict)
    ensures
        v == verdict_spec(*report),
{
    if report.unresolved_local == 0 && report.unresolved_foreign == 0 {
        Verdict::Solved
    } else if report.unresolved_local > 0 && report.resolved > 0 {
        Verdict::Repeat
    } else if report.unresolved_foreign > 0 {
        Verdict::Blocked
    } else {
        Verdict::Stalled
    }
}

/// Where an execution stands.
#[derive(Debug, PartialEq, Eq)]
pub enum SolveState {
    /// The next thing to do is a sweep.
    Running,
    /// Every opcode is resolved.
    Solved,
    /// Only foreign calls are left: the resolver has to answer them.
    Blocked,
    /// The execution has failed for good.
    Failed(ExecutionError),
}

/// Why a solver that sweeps on its own gave up.
#[derive(Debug, PartialEq, Eq)]
pub enum SolverFailure {
    /// It stalled on an opcode that nothing could resolve.
    OpcodeNotSolvable,
    /// Assigned values violate a constraint.
    UnsatisfiedConstraint,
    /// The circuit calls a primitive that is not supported.
    UnsupportedBlackBoxFunction { name: String },
    /// A primitive rejected its inputs.
    BlackBoxFunctionFailed { name: String, reason: String },
    /// Code that runs between two foreign calls failed.
    ForeignCodeFailed { reason: String },
}

/// What a solver that sweeps on its own reports when it halts.
#[derive(Debug, PartialEq, Eq)]
pub enum SolverStatus {
    /// Every opcode is resolved.
    Solved,
    /// It halted with work left that it can go on with.
    InProgress,
    /// It waits for the answer to a foreign call.
    RequiresForeignCall,
    /// It gave up.
    Failure(SolverFailure),
}

/// The name under which a failure of the code between foreign calls is filed.
pub open spec fn foreign_code_name() -> Seq<char> {
    "brillig"@
}

/// `e` is the failure of an execution that a failure of the solver stands for.
pub open spec fn is_failure_of(e: ExecutionError, f: SolverFailure) -> bool {
    match f {
        SolverFailure::OpcodeNotSolvable => e == ExecutionError::UnresolvedConstraint,
        SolverFailure::UnsatisfiedConstraint => e == ExecutionError::UnsatisfiedConstraint,
        SolverFailure::UnsupportedBlackBoxFunction { name } => e
            == (ExecutionError::UnsupportedBlackBoxFunction { name }),
        SolverFailure::BlackBoxFunctionFailed { name, reason } => e
            == (ExecutionError::BlackBoxFunctionFailed { name, reason }),
        SolverFailure::ForeignCodeFailed { reason } => (e
            matches ExecutionError::BlackBoxFunctionFailed { name, reason: given } && name@
            == foreign_code_name() && given == reason),
    }
}

/// The failure of an execution that a failure of the solver stands for.
pub fn failure_of(f: SolverFailure) -> (e: ExecutionError)
    ensures
        is_failure_of(e, f),
{
    match f {
        SolverFailure::OpcodeNotSolvable => ExecutionError::UnresolvedConstraint,
        SolverFailure::UnsatisfiedConstraint => ExecutionError::UnsatisfiedConstraint,
        SolverFailure::UnsupportedBlackBoxFunction { name } => {
            ExecutionError::UnsupportedBlackBoxFunction { name }
        },
        SolverFailure::BlackBoxFunctionFailed { name, reason } => {
            ExecutionError::BlackBoxFunctionFailed { name, reason }
        },
        SolverFailure::ForeignCodeFailed { reason } => {
            ExecutionError::BlackBoxFunctionFailed { name: "brillig".to_owned(), reason }
        },
    }
}

/// What the caller has to do next.
#[derive(Clone, Copy, Debug, PartialEq, Eq, Structural)]
pub enum Action {
    /// Sweep over the unresolved opcodes and report.
    RunPass,
    /// Hand the blocked foreign calls to the resolver, write the answers
    /// into the witness map, and resume.
    ResolveForeignCalls,
    /// Hand out the solved witness map.
    Finish,
    /// Give up and return the error.
    Abort,
}

/// One execution of a circuit: its state, and how often the resolver has
/// been asked, against a limit set at the start.
#[derive(Debug)]
pub struct Execution {
    pub state: SolveState,
    pub rounds: u32,
    pub limit: u32,
}

impl Execution {
    /// The resolver has not been asked more often than the limit allows.
    pub open spec fn wf(&self) -> bool {
        self.rounds <= self.limit
    }

    /// The execution is over: solved or failed.
    pub open spec fn is_terminal(&self) -> bool {
        self.state is Solved || self.state is Failed
    }

    /// A fresh execution that may ask the resolver at most `limit` times.
    pub fn new(limit: u32) -> (r: Execution)
        ensures
            r.wf(),
            r.state is Running,
            r.rounds == 0,
            r.limit == limit,
    {
        Execution { state: SolveState::Running, rounds: 0, limit }
    }

    /// What the caller has to do in the present state.
    pub fn next_action(&self) -> (a: Action)
        ensures
            a == (match self.state {
                SolveState::Running => Action::RunPass,
                SolveState::Blocked => Action::ResolveForeignCalls,
                SolveState::Solved => Action::Finish,
                SolveState::Failed(_) => Action::Abort,
            }),
    {
        match &self.state {
            SolveState::Running => Action::RunPass,
            SolveState::Blocked => Action::ResolveForeignCalls,
            SolveState::Solved => Action::Finish,
            SolveState::Failed(_) => Action::Abort,
        }
    }

    /// Takes in what a sweep did. While running, the execution becomes
    /// solved, stays running, becomes blocked, or fails because solving
    /// stalled, as `verdict_spec` says. In any other state nothing changes.
    pub fn after_pass(&mut self, report: &PassReport)
        requires
            old(self).wf(),
        ensures
            final(self).wf(),
            final(self).rounds == old(self).rounds,
            final(self).limit == old(self).limit,
            !(old(self).state is Running) ==> final(self).state == old(self).state,
            old(self).state is Running ==> final(self).state == (match verdict_spec(*report) {
                Verdict::Solved => SolveState::Solved,
                Verdict::Repeat => SolveState::Running,
                Verdict::Blocked => SolveState::Blocked,
                Verdict::Stalled => SolveState::Failed(ExecutionError::UnresolvedConstraint),
            }),
    {
        if let SolveState::Running = &self.state {
            match verdict(report) {
                Verdict::Solved => {
                    self.state = SolveState::Solved;
                },
                Verdict::Repeat => {},
                Verdict::Blocked => {
                    self.state = SolveState::Blocked;
                },
                Verdict::Stalled => {
                    self.state = SolveState::Failed(ExecutionError::UnresolvedConstraint);
                },
            }
        }
    }

    /// Takes in what a solver that sweeps on its own reported when it
    /// halted. While running, the execution becomes solved, becomes blocked
    /// on a foreign call, fails with the failure that the solver's stands
    /// for, or stays running if the solver can go on. In any other state
    /// nothing changes.
    pub fn after_solve(&mut self, status: SolverStatus)
        requires
            old(self).wf(),
        ensures
            final(self).wf(),
            final(self).rounds == old(self).rounds,
            final(self).limit == old(self).limit,
            !(old(self).state is Running) ==> final(self).state == old(self).state,
            old(self).state is Running ==> (match status {
                SolverStatus::Solved => final(self).state == SolveState::Solved,
                SolverStatus::InProgress => final(self).state == SolveState::Running,
                SolverStatus::RequiresForeignCall => final(self).state == SolveState::Blocked,
                SolverStatus::Failure(f) => (final(self).state matches SolveState::Failed(e)
                    && is_failure_of(e, f)),
            }),
    {
        if let SolveState::Running = &self.state {
            match status {
                SolverStatus::Solved => {
                    self.state = SolveState::Solved;
                },
                SolverStatus::InProgress => {},
                SolverStatus::RequiresForeignCall => {
                    self.state = SolveState::Blocked;
                },
                SolverStatus::Failure(f) => {
                    self.state = SolveState::Failed(failure_of(f));
                },
            }
        }
    }

    /// Goes on after the resolver's answers were written into the witness
    /// map. From the blocked state the execution runs again if the limit
    /// allows one more round, and fails otherwise. In any other state
    /// nothing changes.
    pub fn resume(&mut self)
        requires
            old(self).wf(),
        ensures
            final(self).wf(),
            final(self).limit == old(self).limit,
            !(old(self).state is Blocked) ==> final(self).state == old(self).state
                && final(self).rounds == old(self).rounds,
            old(self).state is Blocked && old(self).rounds < old(self).limit ==> final(self).state
                == SolveState::Running && final(self).rounds == old(self).rounds + 1,
            old(self).state is Blocked && old(self).rounds >= old(self).limit ==> final(self).state
                == SolveState::Failed(ExecutionError::TooManyResolutionRounds)
                && final(self).rounds == old(self).rounds,
    {
        if let SolveState::Blocked = &self.state {
            if self.rounds < self.limit {
                self.rounds = self.rounds + 1;
                self.state = SolveState::Running;
            } else {
                self.state = SolveState::Failed(ExecutionError::TooManyResolutionRounds);
            }
        }
    }

    /// Records a failure that the solver or the bridge reported. An
    /// execution that is already over stays as it is.
    pub fn fail(&mut self, error: ExecutionError)
        requires
            old(self).wf(),
        ensures
            final(self).wf(),
            final(self).rounds == old(self).rounds,
            final(self).limit == old(self).limit,
            old(self).is_terminal() ==> final(self).state == old(self).state,
            !old(self).is_terminal() ==> final(self).state == SolveState::Failed(error),
    {
        match &self.state {
            SolveState::Running => {
                self.state = SolveState::Failed(error);
            },
            SolveState::Blocked => {
                self.state = SolveState::Failed(error);
            },
            _ => {},
        }
    }
}

/// A sweep that leaves no foreign call behind never blocks the loop: it ends
/// it, asks for another sweep after progress, or counts as stalled.
pub proof fn lemma_no_foreign_call_never_blocks(report: PassReport)
    requires
        report.unresolved_foreign == 0,
    ensures
        verdict_spec(report) != Verdict::Blocked,
        report.unresolved_local == 0 ==> verdict_spec(report) == Verdict::Solved,
{
}

/// The reports of successive sweeps over `n` opcodes of a circuit without
/// foreign calls: every sweep accounts for exactly the opcodes that the one
/// before it left unresolved.
pub open spec fn sweeps_conserve(reports: Seq<PassReport>, n: nat) -> bool {
    &&& forall|i: int| 0 <= i < reports.len() ==> (#[trigger] reports[i]).unresolved_foreign == 0
    &&& reports.len() > 0 ==> reports[0].resolved + reports[0].unresolved_local == n
    &&& forall|i: int|
        0 < i < reports.len() ==> (#[trigger] reports[i]).resolved + reports[i].unresolved_local
            == reports[i - 1].unresolved_local
}

/// Every one of the sweeps asked for another one.
pub open spec fn all_repeat(reports: Seq<PassReport>) -> bool {
    forall|i: int| 0 <= i < reports.len() ==> verdict_spec(#[trigger] reports[i]) == Verdict::Repeat
}

/// Without foreign calls the loop is bounded: over `n` opcodes fewer than
/// `n` sweeps in a row can ask for another one, so the loop is solved or
/// has failed after `n` sweeps at the latest.
pub proof fn lemma_sweeps_are_bounded(reports: Seq<PassReport>, n: nat)
    requires
        sweeps_conserve(reports, n),
        all_repeat(reports),
    ensures
        reports.len() > 0 ==> reports.last().unresolved_local + reports.len() <= n,
        reports.len() > 0 ==> reports.len() < n,
    decreases reports.len(),
{
    if reports.len() > 1 {
        let front = reports.drop_last();
        assert forall|i: int| 0 <= i < front.len() implies (#[trigger] front[i]).unresolved_foreign
            == 0 by {
            assert(front[i] == reports[i]);
        }
        assert(front[0] == reports[0]);
        assert forall|i: int| 0 < i < front.len() implies (#[trigger] front[i]).resolved
            + front[i].unresolved_local == front[i - 1].unresolved_local by {
            assert(front[i] == reports[i]);
            assert(front[i - 1] == reports[i - 1]);
        }
        assert forall|i: int| 0 <= i < front.len() implies verdict_spec(#[trigger] front[i])
            == Verdict::Repeat by {
            assert(front[i] == reports[i]);
        }
        lemma_sweeps_are_bounded(front, n);
        let k = reports.len() - 1;
        assert(front.last() == reports[k - 1]);
        assert(reports[k].resolved + reports[k].unresolved_local == reports[k - 1].unresolved_local);
        assert(verdict_spec(reports[k]) == Verdict::Repeat);
    } else if reports.len() == 1 {
        assert(verdict_spec(reports[0]) == Verdict::Repeat);
    }
}

/// Another sweep is asked for only after a sweep that resolved something.
pub proof fn lemma_repeat_needs_progress(report: PassReport)
    ensures
        verdict_spec(report) == Verdict::Repeat ==> report.resolved > 0,
        verdict_spec(report) == Verdict::Stalled ==> report.resolved == 0
            && report.unresolved_local > 0 && report.unresolved_foreign == 0,
        verdict_spec(report) == Verdict::Blocked ==> report.unresolved_foreign > 0,
{
}

} // verus!
