//! Status events: the immutable records of pipeline progress that producers
//! emit onto the event bus and observers consume.

use vstd::prelude::*;

verus! {

use crate::metadata::now_rfc3339;
use crate::text::line_safe;

/// One step of the deployment pipeline's state machine.
#[derive(Clone, Copy, PartialEq, Eq, Structural, Debug)]
pub enum Phase {
    Received,
    Validating,
    FetchingSource,
    PreparingBuildSpec,
    Building,
    Publishing,
    Resolving,
    MutatingManifest,
    Reconciling,
    Completed,
    Failed,
}

/// How an event relates to its phase: entering it, leaving it well or
/// badly, or closing the whole job.
#[derive(Clone, Copy, PartialEq, Eq, Structural, Debug)]
pub enum Severity {
    InProgress,
    Success,
    Error,
    Terminal,
}

/// The summary carried by a job's final event.
pub struct DeploymentSummary {
    pub domain: String,
    pub created_at: String,
    pub status: String,
}

impl DeploymentSummary {
    /// A field-wise copy.
    pub fn duplicate(&self) -> (r: Self)
        ensures
            r == *self,
    {
        DeploymentSummary {
            domain: self.domain.clone(),
            created_at: self.created_at.clone(),
            status: self.status.clone(),
        }
    }
}

/// One progress event. Immutable once constructed; owned by the bus after
/// emission.
pub struct StatusEvent {
    pub app_name: String,
    pub phase: Phase,
    pub severity: Severity,
    pub message: String,
    pub timestamp: String,
    pub payload: Option<DeploymentSummary>,
}

/// The event's descriptive fields, everything except the clock reading
/// taken at construction time.
pub open spec fn event_matches(
    e: StatusEvent,
    app_name: Seq<char>,
    phase: Phase,
    severity: Severity,
    message: Seq<char>,
) -> bool {
    &&& e.app_name@ == app_name
    &&& e.phase == phase
    &&& e.severity == severity
    &&& e.message@ == message
    &&& e.payload is None
}

/// As `event_matches`, for the terminal event that carries the deployment
/// summary.
pub open spec fn event_matches_with_summary(
    e: StatusEvent,
    app_name: Seq<char>,
    phase: Phase,
    severity: Severity,
    message: Seq<char>,
    domain: Seq<char>,
    created_at: Seq<char>,
    status: Seq<char>,
) -> bool {
    &&& e.app_name@ == app_name
    &&& e.phase == phase
    &&& e.severity == severity
    &&& e.message@ == message
    &&& e.payload matches Some(p) && p.domain@ == domain && p.created_at@ == created_at
        && p.status@ == status
}

impl StatusEvent {
    /// A payload-free event stamped with the current time.
    pub fn new(app_name: &str, phase: Phase, severity: Severity, message: &str) -> (e: Self)
        ensures
            event_matches(e, app_name@, phase, severity, message@),
            line_safe(e.timestamp@),
    {
        StatusEvent {
            app_name: app_name.to_owned(),
            phase,
            severity,
            message: message.to_owned(),
            timestamp: now_rfc3339(),
            payload: None,
        }
    }

    /// An event carrying the final deployment summary.
    pub fn with_summary(
        app_name: &str,
        phase: Phase,
        severity: Severity,
        message: &str,
        summary: DeploymentSummary,
    ) -> (e: Self)
        ensures
            event_matches_with_summary(
                e,
                app_name@,
                phase,
                severity,
                message@,
                summary.domain@,
                summary.created_at@,
                summary.status@,
            ),
            line_safe(e.timestamp@),
    {
        StatusEvent {
            app_name: app_name.to_owned(),
            phase,
            severity,
            message: message.to_owned(),
            timestamp: now_rfc3339(),
            payload: Some(summary),
        }
    }

    /// A field-wise copy.
    pub fn duplicate(&self) -> (r: Self)
        ensures
            r == *self,
    {
        let payload = match &self.payload {
            Some(p) => Some(p.duplicate()),
            None => None,
        };
        StatusEvent {
            app_name: self.app_name.clone(),
            phase: self.phase,
            severity: self.severity,
            message: self.message.clone(),
            timestamp: self.timestamp.clone(),
            payload,
        }
    }
}

} // verus!
