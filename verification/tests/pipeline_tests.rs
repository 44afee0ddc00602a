use nephelios::bus::{EventBus, RecvOutcome, Subscription};
use nephelios::manifest::ManifestDocument;
use nephelios::pipeline::{
    advance, submit, ApplicationSpec, DeploymentJob, JobRegistry, NextAction, StepOutcome,
    ValidationError,
};
use nephelios::status::{Phase, Severity, StatusEvent};

fn request(name: &str, kind: &str, url: &str) -> ApplicationSpec {
    ApplicationSpec {
        name: name.to_string(),
        kind: kind.to_string(),
        source_url: url.to_string(),
        install_command: String::new(),
        build_command: String::new(),
        run_command: String::new(),
        workdir: "/app".to_string(),
        env: Vec::new(),
    }
}

fn drain(bus: &EventBus, sub: &mut Subscription) -> Vec<StatusEvent> {
    let mut events = Vec::new();
    loop {
        match bus.recv(sub) {
            RecvOutcome::Event(e) => events.push(e),
            RecvOutcome::Lagged(_) => continue,
            RecvOutcome::Empty => return events,
        }
    }
}

/// Drives a job through the pipeline, answering every action with the
/// given manifest and reporting success for the outside work.
fn run_to_completion(job: &mut DeploymentJob, bus: &mut EventBus, doc: &mut ManifestDocument) {
    let mut outcome = StepOutcome::Success;
    loop {
        let action = advance(job, outcome, bus);
        outcome = match action {
            NextAction::FetchSource
            | NextAction::PrepareBuildSpec
            | NextAction::BuildImage
            | NextAction::PublishImage
            | NextAction::ApplyStack => StepOutcome::Success,
            NextAction::QueryManifest => StepOutcome::Exists(doc.exists_app(&job.metadata.app_name)),
            NextAction::AddToManifest => {
                doc.add(&job.metadata, "3000", 1).unwrap();
                StepOutcome::Success
            }
            NextAction::Finished | NextAction::Aborted => return,
        };
    }
}

#[test]
fn empty_source_url_is_rejected_with_one_error_event() {
    let mut bus = EventBus::new(32);
    let mut sub = bus.subscribe();
    let r = submit(request("demo", "node", ""), &mut bus);
    assert_eq!(r.err().unwrap(), ValidationError::EmptySourceUrl);
    let events = drain(&bus, &mut sub);
    // Exactly one event, terminal for the job, with error severity.
    assert_eq!(events.len(), 1);
    assert_eq!(events[0].severity, Severity::Error);
    assert_eq!(events[0].phase, Phase::Failed);
    assert_eq!(events[0].app_name, "demo");
}

#[test]
fn invalid_name_is_rejected() {
    let mut bus = EventBus::new(32);
    let r = submit(request("Demo App", "node", "https://example.com/demo.git"), &mut bus);
    assert_eq!(r.err().unwrap(), ValidationError::InvalidName);
    let r = submit(request("", "node", "https://example.com/demo.git"), &mut bus);
    assert_eq!(r.err().unwrap(), ValidationError::InvalidName);
}

#[test]
fn multi_line_fields_are_rejected() {
    let mut bus = EventBus::new(32);
    let r = submit(request("demo", "node\njs", "https://example.com/demo.git"), &mut bus);
    assert_eq!(r.err().unwrap(), ValidationError::UnsafeField);
    let r = submit(request("demo", "node", "https://example.com\n/demo.git"), &mut bus);
    assert_eq!(r.err().unwrap(), ValidationError::UnsafeField);
}

#[test]
fn accepted_submission_emits_nothing_and_derives_metadata() {
    let mut bus = EventBus::new(32);
    let mut sub = bus.subscribe();
    let job = submit(request("demo", "node", "https://example.com/demo.git"), &mut bus).unwrap();
    assert!(drain(&bus, &mut sub).is_empty());
    assert_eq!(job.phase, Phase::Received);
    assert_eq!(job.metadata.app_name, "demo");
    assert_eq!(job.metadata.domain, "demo.localhost");
    assert_eq!(job.metadata.github_url, "https://example.com/demo.git");
}

#[test]
fn fresh_deployment_ends_terminal_with_domain_payload() {
    let mut bus = EventBus::new(64);
    let mut sub = bus.subscribe();
    let mut doc = ManifestDocument::new();
    let mut job = submit(request("demo", "node", "https://example.com/demo.git"), &mut bus).unwrap();
    run_to_completion(&mut job, &mut bus, &mut doc);
    assert_eq!(job.phase, Phase::Completed);
    let events = drain(&bus, &mut sub);
    let last = events.last().unwrap();
    assert_eq!(last.phase, Phase::Completed);
    assert_eq!(last.severity, Severity::Terminal);
    let payload = last.payload.as_ref().unwrap();
    assert_eq!(payload.domain, "demo.localhost");
    assert_eq!(payload.status, "deployed");
    // The long-running phases were each observable: entry and exit.
    for phase in [Phase::FetchingSource, Phase::Building, Phase::Reconciling] {
        assert!(events.iter().any(|e| e.phase == phase && e.severity == Severity::InProgress));
        assert!(events.iter().any(|e| e.phase == phase && e.severity == Severity::Success));
    }
    // The manifest now holds exactly one demo block with one replica.
    assert!(doc.exists_app("demo"));
    let text = doc.text();
    assert_eq!(text.lines().filter(|l| *l == "  demo:").count(), 1);
    assert!(text.contains("        replicas: 1\n"));
}

#[test]
fn resubmission_takes_update_path_without_conflict() {
    let mut bus = EventBus::new(64);
    let mut doc = ManifestDocument::new();
    let mut job = submit(request("demo", "node", "https://example.com/demo.git"), &mut bus).unwrap();
    run_to_completion(&mut job, &mut bus, &mut doc);

    // Same submission again: the name is already declared, so the job
    // must skip manifest mutation and still reconcile.
    let mut sub = bus.subscribe();
    let mut job2 = submit(request("demo", "node", "https://example.com/demo.git"), &mut bus).unwrap();
    run_to_completion(&mut job2, &mut bus, &mut doc);
    assert_eq!(job2.phase, Phase::Completed);
    let events = drain(&bus, &mut sub);
    assert!(events.iter().all(|e| e.severity != Severity::Error));
    assert!(events.iter().any(|e| e.phase == Phase::Reconciling));
    assert!(events.iter().all(|e| e.phase != Phase::MutatingManifest));
    assert_eq!(doc.text().lines().filter(|l| *l == "  demo:").count(), 1);
}

#[test]
fn failure_is_terminal_with_one_error_event() {
    let mut bus = EventBus::new(64);
    let mut sub = bus.subscribe();
    let mut job = submit(request("demo", "node", "https://example.com/demo.git"), &mut bus).unwrap();
    let action = advance(&mut job, StepOutcome::Success, &mut bus);
    assert_eq!(action, NextAction::FetchSource);
    let action = advance(
        &mut job,
        StepOutcome::Failure("Failed to clone repository".to_string()),
        &mut bus,
    );
    assert_eq!(action, NextAction::Aborted);
    assert_eq!(job.phase, Phase::Failed);
    let events = drain(&bus, &mut sub);
    let errors: Vec<_> = events.iter().filter(|e| e.severity == Severity::Error).collect();
    assert_eq!(errors.len(), 1);
    assert_eq!(errors[0].phase, Phase::FetchingSource);
    assert_eq!(errors[0].message, "Failed to clone repository");
}

#[test]
fn registry_serializes_jobs_per_name() {
    let mut registry = JobRegistry::new();
    assert!(registry.try_acquire("demo"));
    assert!(!registry.try_acquire("demo"));
    assert!(registry.try_acquire("other"));
    registry.release("demo");
    assert!(registry.try_acquire("demo"));
    registry.release("other");
    registry.release("demo");
    assert!(registry.try_acquire("demo"));
}
