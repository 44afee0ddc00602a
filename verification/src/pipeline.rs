//! The deployment pipeline: a state machine that walks one job from the
//! arrival of its request to a terminal phase, emitting one entry and one
//! exit event per phase on the status bus.
//!
//! The machine decides; it performs no outside work itself. The
//! surrounding shell asks `advance` what to do next, performs that action
//! (fetch, build, publish, query or mutate the manifest, reconcile), and
//! reports the outcome back. Failures are terminal: no phase is retried,
//! and a failed job must be resubmitted.

use vstd::prelude::*;

verus! {

use vstd::string::StringExecFns;
use crate::bus::EventBus;
use crate::metadata::AppMetadata;
use crate::status::DeploymentSummary;
use crate::status::Phase;
use crate::status::Severity;
use crate::status::StatusEvent;
use crate::status::event_matches;
use crate::status::event_matches_with_summary;
use crate::text::check_line_safe;
use crate::text::check_valid_name;
use crate::text::line_safe;
use crate::text::str_eq;
use crate::text::valid_name;

/// A deployment request: the application profile handed in by the caller.
pub struct ApplicationSpec {
    pub name: String,
    pub kind: String,
    pub source_url: String,
    pub install_command: String,
    pub build_command: String,
    pub run_command: String,
    pub workdir: String,
    pub env: Vec<(String, String)>,
}

/// Rejections decided synchronously at submission, before any side
/// effect.
#[derive(Clone, Copy, PartialEq, Eq, Structural, Debug)]
pub enum ValidationError {
    /// The source URL is empty.
    EmptySourceUrl,
    /// The name is empty or not a DNS-label-safe key.
    InvalidName,
    /// The kind or the source URL holds a line break and cannot stand in
    /// the manifest.
    UnsafeField,
}

/// One running deployment job: the request, the metadata derived from it,
/// and the phase the job is in.
pub struct DeploymentJob {
    pub request: ApplicationSpec,
    pub metadata: AppMetadata,
    pub phase: Phase,
}

/// What the shell reports back after performing the current phase's work.
pub enum StepOutcome {
    /// The work of the current phase succeeded.
    Success,
    /// The work failed; the message explains why. The job becomes
    /// terminal.
    Failure(String),
    /// The answer of the manifest query made while `Resolving`.
    Exists(bool),
}

/// What the shell must do next.
#[derive(Clone, Copy, PartialEq, Eq, Structural, Debug)]
pub enum NextAction {
    FetchSource,
    PrepareBuildSpec,
    BuildImage,
    PublishImage,
    QueryManifest,
    AddToManifest,
    ApplyStack,
    Finished,
    Aborted,
}

/// The outcomes that may be reported for a phase: the manifest answer
/// only while `Resolving`, success or failure elsewhere, and nothing once
/// the job is terminal.
pub open spec fn outcome_fits(phase: Phase, outcome: StepOutcome) -> bool {
    match phase {
        Phase::Received => outcome matches StepOutcome::Success,
        Phase::Resolving => outcome matches StepOutcome::Exists(_) || outcome
            matches StepOutcome::Failure(_),
        Phase::Completed => false,
        Phase::Failed => false,
        Phase::Validating => false,
        _ => outcome matches StepOutcome::Success || outcome matches StepOutcome::Failure(_),
    }
}

/// The transition relation: phases advance in their fixed order; any
/// failure is terminal; the manifest answer decides between the update
/// path, which goes straight to reconciliation, and the create path,
/// which first mutates the manifest.
pub open spec fn next_phase(phase: Phase, outcome: StepOutcome) -> Phase {
    match outcome {
        StepOutcome::Failure(_) => Phase::Failed,
        StepOutcome::Exists(true) => Phase::Reconciling,
        StepOutcome::Exists(false) => Phase::MutatingManifest,
        StepOutcome::Success => match phase {
            Phase::Received => Phase::FetchingSource,
            Phase::FetchingSource => Phase::PreparingBuildSpec,
            Phase::PreparingBuildSpec => Phase::Building,
            Phase::Building => Phase::Publishing,
            Phase::Publishing => Phase::Resolving,
            Phase::MutatingManifest => Phase::Reconciling,
            Phase::Reconciling => Phase::Completed,
            _ => Phase::Failed,
        },
    }
}

/// The action the shell performs while the job sits in a phase.
pub open spec fn action_for(phase: Phase) -> NextAction {
    match phase {
        Phase::FetchingSource => NextAction::FetchSource,
        Phase::PreparingBuildSpec => NextAction::PrepareBuildSpec,
        Phase::Building => NextAction::BuildImage,
        Phase::Publishing => NextAction::PublishImage,
        Phase::Resolving => NextAction::QueryManifest,
        Phase::MutatingManifest => NextAction::AddToManifest,
        Phase::Reconciling => NextAction::ApplyStack,
        Phase::Completed => NextAction::Finished,
        _ => NextAction::Aborted,
    }
}

/// The message of a phase's entry and exit events.
pub open spec fn phase_message(phase: Phase) -> Seq<char> {
    match phase {
        Phase::Received => "Received"@,
        Phase::Validating => "Validating request"@,
        Phase::FetchingSource => "Cloning repository"@,
        Phase::PreparingBuildSpec => "Generating build specification"@,
        Phase::Building => "Building Docker image"@,
        Phase::Publishing => "Pushing Docker image"@,
        Phase::Resolving => "Resolving deployment target"@,
        Phase::MutatingManifest => "Adding app to deploy file"@,
        Phase::Reconciling => "Starting deployment"@,
        Phase::Completed => "deployed_info"@,
        Phase::Failed => "Failed"@,
    }
}

fn phase_message_exec(phase: Phase) -> (r: &'static str)
    ensures
        r@ == phase_message(phase),
{
    match phase {
        Phase::Received => "Received",
        Phase::Validating => "Validating request",
        Phase::FetchingSource => "Cloning repository",
        Phase::PreparingBuildSpec => "Generating build specification",
        Phase::Building => "Building Docker image",
        Phase::Publishing => "Pushing Docker image",
        Phase::Resolving => "Resolving deployment target",
        Phase::MutatingManifest => "Adding app to deploy file",
        Phase::Reconciling => "Starting deployment",
        Phase::Completed => "deployed_info",
        Phase::Failed => "Failed",
    }
}

/// A submission is accepted when the source URL is non-empty, the name is
/// a valid key, and the fields written into the manifest hold no line
/// break.
pub open spec fn accepted_submission(name: Seq<char>, kind: Seq<char>, url: Seq<char>) -> bool {
    &&& url.len() > 0
    &&& valid_name(name)
    &&& line_safe(kind)
    &&& line_safe(url)
}

/// Validates a request and opens a job for it. An invalid request is
/// rejected synchronously, with no side effect beyond a single `Failed`
/// event on the bus; an accepted one yields a job in its initial phase,
/// with the derived metadata stamped, and emits nothing — progress is
/// observable through the bus once the shell starts driving the job.
pub fn submit(request: ApplicationSpec, bus: &mut EventBus) -> (r: Result<
    DeploymentJob,
    ValidationError,
>)
    requires
        old(bus).wf(),
        old(bus).history().len() + 1 <= usize::MAX,
    ensures
        final(bus).wf(),
        final(bus).capacity() == old(bus).capacity(),
        match r {
            Ok(job) => {
                &&& accepted_submission(request.name@, request.kind@, request.source_url@)
                &&& final(bus).history() == old(bus).history()
                &&& job.phase == Phase::Received
                &&& job.request == request
                &&& job.metadata.app_name@ == request.name@
                &&& job.metadata.app_type@ == request.kind@
                &&& job.metadata.github_url@ == request.source_url@
                &&& job.metadata.domain@ == request.name@ + ".localhost"@
                &&& line_safe(job.metadata.created_at@)
            },
            Err(e) => {
                &&& !accepted_submission(request.name@, request.kind@, request.source_url@)
                &&& (e == ValidationError::EmptySourceUrl <==> request.source_url@.len() == 0)
                &&& (e == ValidationError::InvalidName <==> (request.source_url@.len() > 0
                    && !valid_name(request.name@)))
                &&& (e == ValidationError::UnsafeField <==> (request.source_url@.len() > 0
                    && valid_name(request.name@) && !(line_safe(request.kind@) && line_safe(
                    request.source_url@,
                ))))
                &&& final(bus).history().len() == old(bus).history().len() + 1
                &&& (forall|i: int|
                    0 <= i < old(bus).history().len() ==> final(bus).history()[i] == old(
                        bus,
                    ).history()[i])
                &&& event_matches(
                    final(bus).history().last(),
                    request.name@,
                    Phase::Failed,
                    Severity::Error,
                    validation_message(e),
                )
            },
        },
{
    let verdict: Option<ValidationError> = if request.source_url.as_str().is_empty() {
        Some(ValidationError::EmptySourceUrl)
    } else if !check_valid_name(request.name.as_str()) {
        Some(ValidationError::InvalidName)
    } else if !check_line_safe(request.kind.as_str()) || !check_line_safe(request.source_url.as_str()) {
        Some(ValidationError::UnsafeField)
    } else {
        None
    };
    match verdict {
        Some(e) => {
            let ev = StatusEvent::new(
                request.name.as_str(),
                Phase::Failed,
                Severity::Error,
                validation_message_exec(e),
            );
            bus.emit(ev);
            Err(e)
        },
        None => {
            let metadata = AppMetadata::new(
                request.name.clone(),
                request.kind.clone(),
                request.source_url.clone(),
            );
            Ok(DeploymentJob { request, metadata, phase: Phase::Received })
        },
    }
}

/// The message of the event emitted for a rejected submission.
pub open spec fn validation_message(e: ValidationError) -> Seq<char> {
    match e {
        ValidationError::EmptySourceUrl => "sourceURL is required"@,
        ValidationError::InvalidName => "name must be a DNS-label-safe key"@,
        ValidationError::UnsafeField => "fields must not span lines"@,
    }
}

fn validation_message_exec(e: ValidationError) -> (r: &'static str)
    ensures
        r@ == validation_message(e),
{
    match e {
        ValidationError::EmptySourceUrl => "sourceURL is required",
        ValidationError::InvalidName => "name must be a DNS-label-safe key",
        ValidationError::UnsafeField => "fields must not span lines",
    }
}

/// Drives one transition of a job's state machine: records the reported
/// outcome, moves the job to its next phase, emits the exit event of the
/// finished phase and the entry event of the next (a single error event
/// on failure, and the terminal summary event on completion), and names
/// the action the shell must perform next.
pub fn advance(job: &mut DeploymentJob, outcome: StepOutcome, bus: &mut EventBus) -> (a:
    NextAction)
    requires
        outcome_fits(old(job).phase, outcome),
        old(bus).wf(),
        old(bus).history().len() + 2 <= usize::MAX,
    ensures
        final(bus).wf(),
        final(bus).capacity() == old(bus).capacity(),
        final(job).request == old(job).request,
        final(job).metadata == old(job).metadata,
        final(job).phase == next_phase(old(job).phase, outcome),
        a == action_for(final(job).phase),
        forall|i: int|
            0 <= i < old(bus).history().len() ==> final(bus).history()[i] == old(
                bus,
            ).history()[i],
        match outcome {
            StepOutcome::Failure(msg) => {
                &&& final(bus).history().len() == old(bus).history().len() + 1
                &&& event_matches(
                    final(bus).history().last(),
                    old(job).metadata.app_name@,
                    old(job).phase,
                    Severity::Error,
                    msg@,
                )
            },
            _ => {
                &&& final(bus).history().len() == old(bus).history().len() + 2
                &&& event_matches(
                    final(bus).history()[old(bus).history().len() as int],
                    old(job).metadata.app_name@,
                    old(job).phase,
                    Severity::Success,
                    phase_message(old(job).phase),
                )
                &&& (final(job).phase != Phase::Completed ==> event_matches(
                    final(bus).history().last(),
                    old(job).metadata.app_name@,
                    final(job).phase,
                    Severity::InProgress,
                    phase_message(final(job).phase),
                ))
                &&& (final(job).phase == Phase::Completed ==> event_matches_with_summary(
                    final(bus).history().last(),
                    old(job).metadata.app_name@,
                    Phase::Completed,
                    Severity::Terminal,
                    phase_message(Phase::Completed),
                    old(job).metadata.domain@,
                    old(job).metadata.created_at@,
                    "deployed"@,
                ))
            },
        },
{
    match outcome {
        StepOutcome::Failure(msg) => {
            let ev = StatusEvent::new(
                job.metadata.app_name.as_str(),
                job.phase,
                Severity::Error,
                msg.as_str(),
            );
            bus.emit(ev);
            job.phase = Phase::Failed;
            NextAction::Aborted
        },
        StepOutcome::Exists(present) => {
            let exit = StatusEvent::new(
                job.metadata.app_name.as_str(),
                job.phase,
                Severity::Success,
                phase_message_exec(job.phase),
            );
            bus.emit(exit);
            let next = if present {
                Phase::Reconciling
            } else {
                Phase::MutatingManifest
            };
            let entry = StatusEvent::new(
                job.metadata.app_name.as_str(),
                next,
                Severity::InProgress,
                phase_message_exec(next),
            );
            bus.emit(entry);
            job.phase = next;
            action_for_exec(next)
        },
        StepOutcome::Success => {
            let exit = StatusEvent::new(
                job.metadata.app_name.as_str(),
                job.phase,
                Severity::Success,
                phase_message_exec(job.phase),
            );
            bus.emit(exit);
            let next = match job.phase {
                Phase::Received => Phase::FetchingSource,
                Phase::FetchingSource => Phase::PreparingBuildSpec,
                Phase::PreparingBuildSpec => Phase::Building,
                Phase::Building => Phase::Publishing,
                Phase::Publishing => Phase::Resolving,
                Phase::MutatingManifest => Phase::Reconciling,
                Phase::Reconciling => Phase::Completed,
                _ => Phase::Failed,
            };
            if next == Phase::Completed {
                let summary = DeploymentSummary {
                    domain: job.metadata.domain.clone(),
                    created_at: job.metadata.created_at.clone(),
                    status: String::from_str("deployed"),
                };
                let entry = StatusEvent::with_summary(
                    job.metadata.app_name.as_str(),
                    Phase::Completed,
                    Severity::Terminal,
                    phase_message_exec(Phase::Completed),
                    summary,
                );
                bus.emit(entry);
                job.phase = next;
                NextAction::Finished
            } else {
                let entry = StatusEvent::new(
                    job.metadata.app_name.as_str(),
                    next,
                    Severity::InProgress,
                    phase_message_exec(next),
                );
                bus.emit(entry);
                job.phase = next;
                action_for_exec(next)
            }
        },
    }
}

fn action_for_exec(phase: Phase) -> (a: NextAction)
    ensures
        a == action_for(phase),
{
    match phase {
        Phase::FetchingSource => NextAction::FetchSource,
        Phase::PreparingBuildSpec => NextAction::PrepareBuildSpec,
        Phase::Building => NextAction::BuildImage,
        Phase::Publishing => NextAction::PublishImage,
        Phase::Resolving => NextAction::QueryManifest,
        Phase::MutatingManifest => NextAction::AddToManifest,
        Phase::Reconciling => NextAction::ApplyStack,
        Phase::Completed => NextAction::Finished,
        _ => NextAction::Aborted,
    }
}

/// A job that succeeds at every step walks the phases in their fixed
/// order and ends `Completed`; at `Resolving`, an already-declared name
/// takes the update path straight to `Reconciling`, a new name passes
/// through `MutatingManifest` first; and any failure is terminal.
pub proof fn law_pipeline_order()
    ensures
        next_phase(Phase::Received, StepOutcome::Success) == Phase::FetchingSource,
        next_phase(Phase::FetchingSource, StepOutcome::Success) == Phase::PreparingBuildSpec,
        next_phase(Phase::PreparingBuildSpec, StepOutcome::Success) == Phase::Building,
        next_phase(Phase::Building, StepOutcome::Success) == Phase::Publishing,
        next_phase(Phase::Publishing, StepOutcome::Success) == Phase::Resolving,
        next_phase(Phase::Resolving, StepOutcome::Exists(true)) == Phase::Reconciling,
        next_phase(Phase::Resolving, StepOutcome::Exists(false)) == Phase::MutatingManifest,
        next_phase(Phase::MutatingManifest, StepOutcome::Success) == Phase::Reconciling,
        next_phase(Phase::Reconciling, StepOutcome::Success) == Phase::Completed,
        forall|p: Phase, m: String| next_phase(p, StepOutcome::Failure(m)) == Phase::Failed,
{
}

/// The registry of running jobs, keyed by application name: the
/// per-name mutual exclusion that serializes manifest mutation and
/// reconciliation. A name can be held at most once; jobs for distinct
/// names run concurrently.
pub struct JobRegistry {
    names: Vec<String>,
}

impl JobRegistry {
    /// The name is currently held by a running job.
    pub closed spec fn holds(&self, name: Seq<char>) -> bool {
        exists|i: int| 0 <= i < self.names@.len() && self.names@[i]@ == name
    }

    /// Each name is held at most once.
    pub closed spec fn wf(&self) -> bool {
        forall|i: int, j: int|
            0 <= i < self.names@.len() && 0 <= j < self.names@.len() && i != j ==> self.names@[i]@
                != self.names@[j]@
    }

    /// An empty registry.
    pub fn new() -> (r: Self)
        ensures
            r.wf(),
            forall|n: Seq<char>| !r.holds(n),
    {
        JobRegistry { names: Vec::new() }
    }

    /// Claims a name for a job. Fails exactly when the name is already
    /// held; no other name's claim changes either way.
    pub fn try_acquire(&mut self, name: &str) -> (ok: bool)
        requires
            old(self).wf(),
        ensures
            final(self).wf(),
            ok == !old(self).holds(name@),
            final(self).holds(name@),
            forall|n: Seq<char>| n != name@ ==> final(self).holds(n) == old(self).holds(n),
    {
        let count = self.names.len();
        let mut i: usize = 0;
        while i < count
            invariant
                0 <= i <= count,
                count == self.names@.len(),
                old(self) == self,
                old(self).wf(),
                forall|k: int| 0 <= k < i ==> self.names@[k]@ != name@,
            decreases count - i,
        {
            if str_eq(self.names[i].as_str(), name) {
                proof {
                    assert(self.names@[i as int]@ == name@);
                }
                return false;
            }
            i += 1;
        }
        self.names.push(name.to_owned());
        proof {
            assert(self.names@[self.names@.len() - 1]@ == name@);
            assert forall|n: Seq<char>| n != name@ implies self.holds(n) == old(self).holds(n) by {
                if old(self).holds(n) {
                    let k = choose|k: int|
                        0 <= k < old(self).names@.len() && old(self).names@[k]@ == n;
                    assert(self.names@[k]@ == n);
                }
                if self.holds(n) {
                    let k = choose|k: int| 0 <= k < self.names@.len() && self.names@[k]@ == n;
                    assert(k < old(self).names@.len());
                    assert(old(self).names@[k]@ == n);
                }
            }
        }
        true
    }

    /// Releases a name when its job reaches a terminal phase.
    pub fn release(&mut self, name: &str)
        requires
            old(self).wf(),
        ensures
            final(self).wf(),
            !final(self).holds(name@),
            forall|n: Seq<char>| n != name@ ==> final(self).holds(n) == old(self).holds(n),
    {
        let count = self.names.len();
        let mut i: usize = 0;
        while i < count
            invariant
                0 <= i <= count,
                count == self.names@.len(),
                old(self) == self,
                old(self).wf(),
                forall|k: int| 0 <= k < i ==> self.names@[k]@ != name@,
            decreases count - i,
        {
            if str_eq(self.names[i].as_str(), name) {
                self.names.remove(i);
                proof {
                    assert forall|n: Seq<char>|
                        n != name@ implies self.holds(n) == old(self).holds(n) by {
                        if old(self).holds(n) {
                            let k = choose|k: int|
                                0 <= k < old(self).names@.len() && old(self).names@[k]@ == n;
                            if k < i {
                                assert(self.names@[k]@ == n);
                            } else {
                                assert(k != i);
                                assert(self.names@[k - 1]@ == n);
                            }
                        }
                        if self.holds(n) {
                            let k = choose|k: int|
                                0 <= k < self.names@.len() && self.names@[k]@ == n;
                            if k < i {
                                assert(old(self).names@[k]@ == n);
                            } else {
                                assert(old(self).names@[k + 1]@ == n);
                            }
                        }
                    }
                    assert forall|k: int|
                        0 <= k < self.names@.len() implies self.names@[k]@ != name@ by {
                        if k < i {
                        } else {
                            assert(self.names@[k] == old(self).names@[k + 1]);
                        }
                    }
                }
                return ;
            }
            i += 1;
        }
    }
}

} // verus!
