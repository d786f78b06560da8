use crimesim_bridge::project::default_metadata;
use crimesim_bridge::results::{
    applied_update, failed_safely, join_strings, rejected_by_validation, nothing_to_roll_back, parse_revision, rejected_update, rollback_rejected,
    rollback_target, rollback_unavailable, rolled_back,
};
use crimesim_bridge::status::{status_from, StatusFacts};
use crimesim_bridge::validation::ValidationReport;

#[test]
fn action_results() {
    let r = rejected_update(&vec![], "q.zip".into());
    assert!(!r.ok);
    assert_eq!(r.detail, "Staged project failed validation");
    let r = rejected_update(&vec!["a".into(), "b".into()], "q.zip".into());
    assert_eq!(r.detail, "a | b");
    assert_eq!(r.path.as_deref(), Some("q.zip"));
    let r = applied_update("Add clock.", 3, Some("rev_0003_CrimeSim_Update_0003.zip".into()), "/w".into());
    assert_eq!(r.title, "Revision 3 applied");
    assert_eq!(r.detail, "Add clock. Update archived as rev_0003_CrimeSim_Update_0003.zip.");
    let r = applied_update("Add clock.", 3, None, "/w".into());
    assert_eq!(r.detail, "Add clock. Source/build committed; update archive cleanup will be retried if needed.");
    let r = failed_safely("Base revision mismatch", Some("Recovery completed: Restored".into()), None);
    assert_eq!(r.detail, "Base revision mismatch. Recovery completed: Restored");
    assert_eq!(failed_safely("x", None, Some("q".into())).detail, "x");
    assert_eq!(join_strings(&vec![], " | "), "");
}

#[test]
fn rollback_results() {
    assert_eq!(rollback_target(0), None);
    assert_eq!(rollback_target(5), Some(4));
    assert_eq!(nothing_to_roll_back().title, "Nothing to roll back");
    assert_eq!(rollback_unavailable(4).detail, "No source snapshot exists for revision 4.");
    assert_eq!(rollback_rejected(&vec!["e1".into(), "e2".into()]).detail, "e1 | e2");
    let r = rolled_back(4);
    assert!(r.ok);
    assert_eq!(r.title, "Rolled back to revision 4");
}

#[test]
fn revision_marker_parsing() {
    assert_eq!(parse_revision("7\n"), Some(7));
    assert_eq!(parse_revision("  +12 "), Some(12));
    assert_eq!(parse_revision("0007"), Some(7));
    assert_eq!(parse_revision("18446744073709551615"), Some(u64::MAX));
    assert_eq!(parse_revision("18446744073709551616"), None);
    assert_eq!(parse_revision(""), None);
    assert_eq!(parse_revision("+"), None);
    assert_eq!(parse_revision("-1"), None);
    assert_eq!(parse_revision("1 2"), None);
}

fn facts() -> StatusFacts {
    StatusFacts {
        bridge_version: "0.25.0".into(), workspace_root: "/w".into(), project_present: true,
        meta: Some(default_metadata()), playable_revision: Some(0), runtime_present: true, runtime_ok: true,
        runtime_detail: "Godot 4.7.2 runtime verified (2 files)".into(), latest_update: None,
        last_validation: Some(ValidationReport { passed: true, revision: 0, created_at: "t".into(), steps: vec![], errors: vec![] }),
        last_recovery: None, journal_pending: false, worker_pending: false, recovery_error: None, executable_present: true,
    }
}

#[test]
fn pipeline_ready_needs_every_condition() {
    let s = status_from(facts());
    assert!(s.pipeline_ready);
    assert!(s.last_validation.as_ref().map_or(false, |r| r.passed));
    assert_eq!(s.godot_runtime_integrity, "verified · Godot 4.7.2 runtime verified (2 files)");
    assert_eq!(s.source_revision, Some(0));
    let mut f = facts();
    f.playable_revision = Some(1);
    assert!(!status_from(f).pipeline_ready);
    let mut f = facts();
    f.worker_pending = true;
    let s = status_from(f);
    assert!(!s.pipeline_ready);
    assert!(s.recovery_required);
    assert_eq!(s.recovery_error.as_deref(), Some("Worker cleanup must complete before project recovery."));
    let mut f = facts();
    f.runtime_ok = false;
    let s = status_from(f);
    assert!(!s.pipeline_ready);
    assert!(s.godot_runtime_integrity.starts_with("invalid · "));
    let mut f = facts();
    f.last_validation = None;
    assert!(!status_from(f).pipeline_ready);
    let mut f = facts();
    f.recovery_error = Some("boom".into());
    assert!(!status_from(f).pipeline_ready);
}

#[test]
fn only_a_failed_report_of_the_candidate_revision_rejects() {
    let report = |passed: bool, revision: u64| Some(ValidationReport { passed, revision, created_at: "t".into(),
        steps: vec![], errors: vec!["e".into()] });
    assert!(rejected_by_validation(&report(false, 4), 4));
    assert!(!rejected_by_validation(&report(true, 4), 4));
    assert!(!rejected_by_validation(&report(false, 3), 4));
    assert!(!rejected_by_validation(&None, 4));
}
