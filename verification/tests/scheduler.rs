use site_watch::classifier::{ProbeOutcome, SpecificKind, TransportFailure, Verdict};
use site_watch::registry::WatchRegistry;
use site_watch::scheduler::{plan_tick, process_outcome, run_tick};

// Owner 42 watches a.test and b.test; a tick in which a.test returns 200
// and b.test returns 503 notifies owner 42 exactly once, for b.test, with
// the 503-specific message.
#[test]
fn tick_notifies_only_the_failing_link() {
    let mut reg = WatchRegistry::new();
    reg.add_link(42, "https://a.test".to_string());
    reg.add_link(42, "https://b.test".to_string());

    let snap = reg.snapshot();
    let jobs = plan_tick(&snap);
    assert_eq!(jobs.len(), 2);
    assert_eq!(jobs[0].url, "https://a.test");
    assert_eq!(jobs[1].url, "https://b.test");

    let outcomes = vec![ProbeOutcome::Status(200, 12), ProbeOutcome::Status(503, 30)];
    let notes = run_tick(&jobs, &outcomes);

    assert_eq!(notes.len(), 1);
    assert_eq!(notes[0].owner, 42);
    assert_eq!(notes[0].url, "https://b.test");
    assert_eq!(
        notes[0].verdict,
        Verdict::SpecificFailure { code: 503, kind: SpecificKind::ServiceUnavailable }
    );
    assert_eq!(SpecificKind::ServiceUnavailable.message(), "service unavailable");
}

// A tick in which a.test times out classifies it as a generic transport
// failure and still processes b.test normally in the same tick.
#[test]
fn timeout_does_not_stall_the_tick() {
    let mut reg = WatchRegistry::new();
    reg.add_link(42, "https://a.test".to_string());
    reg.add_link(42, "https://b.test".to_string());

    let snap = reg.snapshot();
    let jobs = plan_tick(&snap);
    assert_eq!(jobs.len(), 2);

    let outcomes =
        vec![ProbeOutcome::Transport(TransportFailure::Timeout), ProbeOutcome::Status(200, 8)];
    let notes = run_tick(&jobs, &outcomes);

    assert_eq!(notes.len(), 1);
    assert_eq!(notes[0].owner, 42);
    assert_eq!(notes[0].url, "https://a.test");
    assert_eq!(notes[0].verdict, Verdict::GenericTransport { failure: TransportFailure::Timeout });
}

// After a whole-owner removal a subsequent cycle issues no probe and
// hence no notification for that owner, while others are still probed.
#[test]
fn removed_owner_is_not_probed_again() {
    let mut reg = WatchRegistry::new();
    reg.add_link(1, "https://one.test".to_string());
    reg.add_link(2, "https://two.test".to_string());

    reg.remove_owner(1);

    let snap = reg.snapshot();
    let jobs = plan_tick(&snap);
    assert_eq!(jobs.len(), 1);
    assert_eq!(jobs[0].owner, 2);

    let outcomes = vec![ProbeOutcome::Status(500, 3)];
    let notes = run_tick(&jobs, &outcomes);
    assert_eq!(notes.len(), 1);
    assert_eq!(notes[0].owner, 2);
    assert!(notes.iter().all(|n| n.owner != 1));
}

// Notifications keep job order, so reports for one owner arrive in the
// order their links are watched.
#[test]
fn notifications_keep_per_owner_order() {
    let mut reg = WatchRegistry::new();
    reg.add_link(5, "https://x.test".to_string());
    reg.add_link(5, "https://y.test".to_string());
    reg.add_link(5, "https://z.test".to_string());

    let snap = reg.snapshot();
    let jobs = plan_tick(&snap);
    let outcomes = vec![
        ProbeOutcome::Status(404, 1),
        ProbeOutcome::Status(200, 1),
        ProbeOutcome::Status(502, 1),
    ];
    let notes = run_tick(&jobs, &outcomes);

    assert_eq!(notes.len(), 2);
    assert_eq!(notes[0].url, "https://x.test");
    assert_eq!(notes[1].url, "https://z.test");
}

#[test]
fn silent_outcome_routes_to_nothing() {
    let none = process_outcome(3, "https://ok.test".to_string(), &ProbeOutcome::Status(204, 2));
    assert!(none.is_none());

    let some = process_outcome(3, "https://bad.test".to_string(), &ProbeOutcome::Status(404, 2));
    let n = some.expect("a failing status must notify");
    assert_eq!(n.owner, 3);
    assert_eq!(n.url, "https://bad.test");
    assert_eq!(n.verdict, Verdict::SpecificFailure { code: 404, kind: SpecificKind::NotFound });
}
