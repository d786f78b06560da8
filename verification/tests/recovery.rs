use crimesim_bridge::digest::{sha256_bytes, snapshot_excluded, FileHasher, TreeHasher, TreeWalk};
use crimesim_bridge::journal::{valid_id, Fingerprint, Journal, JournalError, Kind, Phase, Receipt};
use crimesim_bridge::recovery::{
    check_before_images, check_clean, check_finalize, check_restore, check_unstarted, new_journal, plan_recovery,
    promotion_phases, restore_steps, route, should_remove_original, identity_gate, validation_gate, CandidateFacts, Recovery,
    RecoveryError, ReportFacts, RestoreSteps, Route,
};
use crimesim_bridge::journal::Package;

fn fp(present: bool, h: &str) -> Fingerprint {
    Fingerprint { present, sha256: h.into() }
}

fn journal(phase: Phase) -> Journal {
    let mut j = new_journal("t-18ab-4-0".into(), Kind::Update, "crime_sim".into(), 1, fp(true, "s0"), fp(true, "b0"), None, None);
    j.phase = phase;
    j.after_source = Some(fp(true, "s1"));
    j.after_build = Some(fp(true, "b1"));
    j
}

#[test]
fn sha256_known_values() {
    assert_eq!(sha256_bytes(b""), "e3b0c44298fc1c149afbf4c8996fb92427ae41e4649b934ca495991b7852b855");
    assert_eq!(sha256_bytes(b"abc"), "ba7816bf8f01cfea414140de5dae2223b00361a396177a9cb410ff61f20015ad");
    let mut f = FileHasher::new();
    f.update(b"a");
    f.update(b"bc");
    assert_eq!(f.finish(), sha256_bytes(b"abc"));
}

#[test]
fn tree_fingerprint_binds_kind_path_size_and_bytes() {
    let mut t = TreeHasher::new();
    t.add_dir("game");
    t.begin_file("game/main.gd", 3);
    t.add_bytes(b"ab");
    t.add_bytes(b"c");
    t.end_file();
    let f = t.finish();
    assert!(f.present);
    let mut stream = b"bridge-tree-v1\0".to_vec();
    stream.push(b'D');
    stream.extend_from_slice(&4u64.to_le_bytes());
    stream.extend_from_slice(b"game");
    stream.push(b'F');
    stream.extend_from_slice(&12u64.to_le_bytes());
    stream.extend_from_slice(b"game/main.gd");
    stream.extend_from_slice(&3u64.to_le_bytes());
    stream.extend_from_slice(b"abc");
    assert_eq!(f.sha256, sha256_bytes(&stream));
}

#[test]
fn snapshot_exclusions() {
    assert!(snapshot_excluded(".godot/cache.tmp", true));
    assert!(snapshot_excluded("Logs/x", true));
    assert!(!snapshot_excluded(".godot/cache.tmp", false));
    assert!(!snapshot_excluded("game/.godot", true));
    assert!(!snapshot_excluded("game/main.gd.uid", true));
}

#[test]
fn journal_identity_and_completeness() {
    assert_eq!(valid_id("t-18ab-4-0"), Ok(()));
    assert_eq!(valid_id("t-1"), Err(JournalError::InvalidIdentity));
    assert_eq!(valid_id("x-18ab-4-0"), Err(JournalError::InvalidIdentity));
    assert_eq!(journal(Phase::SourcePromoted).validate(), Ok(()));
    let mut j = journal(Phase::SourcePromoted);
    j.schema = 1;
    assert_eq!(j.validate(), Err(JournalError::UnsupportedJournal));
    let mut j = journal(Phase::SourcePromoted);
    j.after_build = None;
    assert_eq!(j.validate(), Err(JournalError::IncompleteFingerprints));
    let mut j = journal(Phase::Preparing);
    j.after_build = None;
    assert_eq!(j.validate(), Ok(()));
    let mut j = journal(Phase::Ready);
    j.project_id = String::new();
    assert_eq!(j.validate(), Err(JournalError::EmptyProject));
    let r = Receipt { schema: 2, transaction_id: "t-18ab-4-0".into(), project_id: "p".into(), revision: 1, source: fp(true, "s"), build: fp(true, "b") };
    assert_eq!(r.validate(), Err(JournalError::UnsupportedReceipt));
}

#[test]
fn recovery_routes() {
    assert_eq!(route(Phase::Committed), Route::Finalize);
    assert_eq!(route(Phase::Preparing), Route::Unstarted);
    assert_eq!(route(Phase::Recovered), Route::Unstarted);
    assert_eq!(route(Phase::PairPromoted), Route::Restore);
    assert_eq!(route(Phase::Ready), Route::Restore);
    assert_eq!(check_clean(true), Err(RecoveryError::RecoveryPending));
    assert_eq!(check_clean(false), Ok(()));
    assert_eq!(promotion_phases(), vec![Phase::Ready, Phase::SourcePromoting, Phase::SourcePromoted, Phase::BuildPromoting, Phase::PairPromoted, Phase::Committed]);
}

#[test]
fn restore_requires_intact_snapshots_and_known_live_trees() {
    let j = journal(Phase::SourcePromoted);
    assert_eq!(check_restore(&j, &fp(true, "s1"), &fp(true, "b0"), &fp(true, "s0"), &fp(true, "b0")), Ok(()));
    assert_eq!(check_restore(&j, &fp(true, "s1"), &fp(true, "b0"), &fp(false, ""), &fp(true, "b0")), Err(RecoveryError::SnapshotCorrupt));
    assert_eq!(check_restore(&j, &fp(true, "other"), &fp(true, "b0"), &fp(true, "s0"), &fp(true, "b0")), Err(RecoveryError::UnexpectedLive));
    assert_eq!(check_restore(&j, &fp(false, ""), &fp(true, "b1"), &fp(true, "s0"), &fp(true, "b0")), Ok(()));
    let steps = restore_steps(&fp(true, "s1"), &fp(true, "s0"));
    assert!(steps.replace && steps.install_snapshot);
    let steps = restore_steps(&fp(true, "s1"), &fp(false, ""));
    assert!(steps.replace && !steps.install_snapshot);
    let steps = restore_steps(&fp(true, "s0"), &fp(true, "s0"));
    assert!(!steps.replace);
    assert_eq!(check_unstarted(&j, &fp(true, "s0"), &fp(true, "b0")), Ok(()));
    assert_eq!(check_unstarted(&j, &fp(true, "s1"), &fp(true, "b0")), Err(RecoveryError::FingerprintMismatch));
    assert_eq!(check_before_images(&j, &fp(true, "s0"), &fp(true, "bX")), Err(RecoveryError::BeforeImageFailed));
}

#[test]
fn committed_pair_is_finalized_and_download_kept_if_replaced() {
    let j = journal(Phase::Committed);
    assert_eq!(check_finalize(&j, &fp(true, "s1"), &fp(true, "b1")), Ok(()));
    assert!(check_finalize(&j, &fp(true, "s0"), &fp(true, "b1")).is_err());
    let pack = Package { original: "/d/CrimeSim_Update_0008.zip".into(), sha256: "h".into() };
    assert!(should_remove_original(&pack, &Some("h".into())));
    assert!(!should_remove_original(&pack, &Some("different download".into())));
    assert!(!should_remove_original(&pack, &None));
}

#[test]
fn recovery_plans_follow_the_route() {
    let absent = Fingerprint::absent();
    let p = plan_recovery(&None, &fp(true, "x"), &fp(true, "y"), &absent, &absent).unwrap();
    assert_eq!(p.outcome, Recovery::Clean);
    assert!(!p.restoring);
    let j = journal(Phase::Committed);
    let p = plan_recovery(&Some(j.clone()), &fp(true, "s1"), &fp(true, "b1"), &absent, &absent).unwrap();
    assert_eq!(p.outcome, Recovery::Finalized);
    assert_eq!(plan_recovery(&Some(j), &fp(true, "s0"), &fp(true, "b0"), &absent, &absent).err(),
        Some(RecoveryError::FingerprintMismatch));
    let j = journal(Phase::BuildPromoting);
    let p = plan_recovery(&Some(j.clone()), &fp(true, "s1"), &fp(true, "b0"), &fp(true, "s0"), &fp(true, "b0")).unwrap();
    assert_eq!(p.outcome, Recovery::Restored);
    assert!(p.restoring);
    assert_eq!(p.source, RestoreSteps { replace: true, install_snapshot: true });
    assert_eq!(p.build, RestoreSteps { replace: false, install_snapshot: false });
    assert_eq!(plan_recovery(&Some(j.clone()), &fp(true, "s1"), &fp(true, "b0"), &fp(true, "zz"), &fp(true, "b0")).err(),
        Some(RecoveryError::SnapshotCorrupt));
    assert_eq!(plan_recovery(&Some(j), &fp(true, "other"), &fp(true, "b0"), &fp(true, "s0"), &fp(true, "b0")).err(),
        Some(RecoveryError::UnexpectedLive));
}

#[test]
fn recovery_can_itself_be_interrupted_and_repeated() {
    let snap = (fp(true, "s0"), fp(true, "b0"));
    let mut j = journal(Phase::PairPromoted);
    j.phase = Phase::Restoring;
    // Source already restored, build removed mid-swap: the next recovery restores the build.
    let p = plan_recovery(&Some(j.clone()), &fp(true, "s0"), &Fingerprint::absent(), &snap.0, &snap.1).unwrap();
    assert_eq!(p.outcome, Recovery::Restored);
    assert_eq!(p.source, RestoreSteps { replace: false, install_snapshot: false });
    assert_eq!(p.build, RestoreSteps { replace: true, install_snapshot: true });
    j.phase = Phase::Recovered;
    let p = plan_recovery(&Some(j), &fp(true, "s0"), &fp(true, "b0"), &Fingerprint::absent(), &Fingerprint::absent()).unwrap();
    assert_eq!(p.outcome, Recovery::Restored);
    assert!(!p.restoring);
}

fn walk(source: bool, extra: bool, content: &[u8]) -> Fingerprint {
    let mut w = TreeWalk::new(source);
    if extra {
        assert!(w.skip_excluded(".godot"));
        assert!(w.skip_excluded("Build"));
    }
    assert!(!w.skip_excluded("game"));
    assert!(w.dir("game"));
    assert!(w.file("game/main.gd", content.len() as u64));
    w.add_bytes(content);
    w.end_file();
    w.finish()
}

#[test]
fn fingerprint_ignores_excluded_top_level_trees() {
    assert_eq!(walk(true, true, b"abc").sha256, walk(true, false, b"abc").sha256);
    assert_ne!(walk(true, false, b"abc").sha256, walk(true, false, b"abd").sha256);
    let mut t = TreeHasher::new();
    t.add_dir("game");
    t.begin_file("game/main.gd", 3);
    t.add_bytes(b"abc");
    t.end_file();
    assert_eq!(walk(true, true, b"abc").sha256, t.finish().sha256);
    let mut w = TreeWalk::new(false);
    assert!(!w.skip_excluded(".godot"));
    assert!(w.dir(".godot"));
}

fn report(passed: Option<bool>, revision: Option<u64>, steps: Option<Vec<bool>>, errors: Option<usize>) -> ReportFacts {
    ReportFacts { passed, revision, step_failed: steps, error_count: errors }
}

#[test]
fn failed_reports_never_pass_the_promotion_gate() {
    assert!(validation_gate(&report(Some(true), Some(1), Some(vec![false, false]), Some(0)), 1));
    assert!(!validation_gate(&report(Some(false), Some(1), Some(vec![false, false]), Some(0)), 1));
    assert!(!validation_gate(&report(Some(true), Some(1), Some(vec![false, true]), Some(0)), 1));
    assert!(!validation_gate(&report(Some(true), Some(1), Some(vec![false]), Some(2)), 1));
    assert!(!validation_gate(&report(Some(true), Some(2), Some(vec![false]), Some(0)), 1));
    assert!(!validation_gate(&report(Some(true), Some(1), Some(vec![]), Some(0)), 1));
    assert!(!validation_gate(&report(None, None, None, None), 1));
}

fn candidate(id: &str, revision: u64, project: bool, exe: bool) -> CandidateFacts {
    CandidateFacts { project_id: Some(id.into()), revision: Some(revision), has_project_file: project, has_executable: exe }
}

#[test]
fn candidate_identity_gate_refuses_mismatches() {
    let j = journal(Phase::Ready);
    assert!(identity_gate(&candidate("crime_sim", 1, true, true), &j));
    assert!(!identity_gate(&candidate("crime_sim", 1, true, false), &j));
    assert!(!identity_gate(&candidate("other", 1, true, true), &j));
    assert!(!identity_gate(&candidate("crime_sim", 2, true, true), &j));
    assert!(!identity_gate(&candidate("crime_sim", 1, false, true), &j));
}
