//! Decisions of the restartable source/build promotion: which recovery an interrupted
//! transaction gets, what must hold before live trees change, which gates promotion
//! passes, and what a rollback may use. The caller performs the file operations.
use vstd::prelude::*;
use crate::journal::{Fingerprint, Journal, JournalError, Kind, Package, Phase, Receipt, spec_journal_valid};

verus! {

/// Result of one recovery run.
#[derive(Debug, Clone, Copy, PartialEq, Eq, Structural)]
pub enum Recovery {
    Clean,
    Restored,
    Finalized,
}

/// Why an operation or a recovery is refused. Nothing is discarded on any of them.
#[derive(Debug, Clone, Copy, PartialEq, Eq, Structural)]
pub enum RecoveryError {
    Journal(JournalError),
    RecoveryPending,
    FingerprintMismatch,
    SnapshotCorrupt,
    UnexpectedLive,
    MissingCommittedSource,
    MissingCommittedBuild,
    RetainedPackageMismatch,
    ArchiveMismatch,
    RollbackMismatch,
    RollbackSnapshotCorrupt,
    ValidationFailed,
    CandidateIdentity,
    BeforeImageFailed,
}

impl RecoveryError {
    /// The text that `message` gives for this error.
    pub open spec fn message_text(self) -> Seq<char> {
        match self {
            RecoveryError::Journal(e) => e.message_text(),
            RecoveryError::RecoveryPending => "Recovery pending; operation blocked"@,
            RecoveryError::FingerprintMismatch => "Source/build fingerprint mismatch; retained data left intact"@,
            RecoveryError::SnapshotCorrupt => "Recovery snapshot missing or corrupt; mutations blocked"@,
            RecoveryError::UnexpectedLive => "Unexpected live contents during recovery; refusing to overwrite"@,
            RecoveryError::MissingCommittedSource => "Missing committed source fingerprint"@,
            RecoveryError::MissingCommittedBuild => "Missing committed build fingerprint"@,
            RecoveryError::RetainedPackageMismatch => "Retained package hash mismatch; cleanup pending"@,
            RecoveryError::ArchiveMismatch => "Applied archive hash mismatch; cleanup pending"@,
            RecoveryError::RollbackMismatch => "Rollback receipt mismatch"@,
            RecoveryError::RollbackSnapshotCorrupt => "Rollback snapshot failed integrity check"@,
            RecoveryError::ValidationFailed => "Required validation did not pass for the target revision"@,
            RecoveryError::CandidateIdentity => "Validated candidate identity or executable is missing"@,
            RecoveryError::BeforeImageFailed => "Before-image verification failed"@,
        }
    }

    pub fn message(&self) -> (s: &'static str)
        ensures
            s@ == self.message_text(),
    {
        match self {
            RecoveryError::Journal(e) => e.message(),
            RecoveryError::RecoveryPending => "Recovery pending; operation blocked",
            RecoveryError::FingerprintMismatch => "Source/build fingerprint mismatch; retained data left intact",
            RecoveryError::SnapshotCorrupt => "Recovery snapshot missing or corrupt; mutations blocked",
            RecoveryError::UnexpectedLive => "Unexpected live contents during recovery; refusing to overwrite",
            RecoveryError::MissingCommittedSource => "Missing committed source fingerprint",
            RecoveryError::MissingCommittedBuild => "Missing committed build fingerprint",
            RecoveryError::RetainedPackageMismatch => "Retained package hash mismatch; cleanup pending",
            RecoveryError::ArchiveMismatch => "Applied archive hash mismatch; cleanup pending",
            RecoveryError::RollbackMismatch => "Rollback receipt mismatch",
            RecoveryError::RollbackSnapshotCorrupt => "Rollback snapshot failed integrity check",
            RecoveryError::ValidationFailed => "Required validation did not pass for the target revision",
            RecoveryError::CandidateIdentity => "Validated candidate identity or executable is missing",
            RecoveryError::BeforeImageFailed => "Before-image verification failed",
        }
    }
}

/// How recovery treats an interrupted transaction.
#[derive(Debug, Clone, Copy, PartialEq, Eq, Structural)]
pub enum Route {
    /// Committed: keep and verify the new pair, then finish archive and cleanup.
    Finalize,
    /// Promotion never started (or recovery already finished): live trees must be untouched.
    Unstarted,
    /// Promotion may be half done: restore both before-images.
    Restore,
}

pub open spec fn spec_route(p: Phase) -> Route {
    if p == Phase::Committed {
        Route::Finalize
    } else if p == Phase::Preparing || p == Phase::Recovered {
        Route::Unstarted
    } else {
        Route::Restore
    }
}

pub fn route(phase: Phase) -> (r: Route)
    ensures
        r == spec_route(phase),
{
    match phase {
        Phase::Committed => Route::Finalize,
        Phase::Preparing | Phase::Recovered => Route::Unstarted,
        _ => Route::Restore,
    }
}

/// A new operation may begin only when no journal is pending.
pub fn check_clean(journal_present: bool) -> (r: Result<(), RecoveryError>)
    ensures
        r is Ok <==> !journal_present,
        r is Err ==> r == Err::<(), RecoveryError>(RecoveryError::RecoveryPending),
{
    if journal_present {
        Err(RecoveryError::RecoveryPending)
    } else {
        Ok(())
    }
}

/// The journal written before any snapshot is taken.
pub fn new_journal(
    transaction_id: String,
    kind: Kind,
    project_id: String,
    target_revision: u64,
    before_source: Fingerprint,
    before_build: Fingerprint,
    before_receipt: Option<Receipt>,
    package: Option<Package>,
) -> (j: Journal)
    ensures
        j.schema == 2,
        j.phase == Phase::Preparing,
        j.transaction_id == transaction_id,
        j.kind == kind,
        j.project_id == project_id,
        j.target_revision == target_revision,
        j.before_source == before_source,
        j.before_build == before_build,
        j.after_source is None,
        j.after_build is None,
        j.before_receipt == before_receipt,
        j.package == package,
{
    Journal {
        schema: 2,
        transaction_id,
        kind,
        phase: Phase::Preparing,
        project_id,
        target_revision,
        before_source,
        before_build,
        after_source: None,
        after_build: None,
        before_receipt,
        package,
    }
}

pub open spec fn opt_view(f: Option<Fingerprint>) -> Option<(bool, Seq<char>)> {
    match f {
        Some(x) => Some(x@),
        None => None,
    }
}

/// Live trees of a transaction that never reached Ready must equal its before-images.
pub fn check_unstarted(j: &Journal, live_source: &Fingerprint, live_build: &Fingerprint) -> (r: Result<
    (),
    RecoveryError,
>)
    ensures
        r is Ok <==> (live_source@ == j.before_source@ && live_build@ == j.before_build@),
        r is Err ==> r == Err::<(), RecoveryError>(RecoveryError::FingerprintMismatch),
{
    if !live_source.same(&j.before_source) || !live_build.same(&j.before_build) {
        return Err(RecoveryError::FingerprintMismatch);
    }
    Ok(())
}

/// A live tree is something recovery may replace: absent, the before-image, or the
/// after-image this transaction produced.
pub open spec fn expected_live(live: (bool, Seq<char>), before: (bool, Seq<char>), after: Option<
    (bool, Seq<char>),
>) -> bool {
    !live.0 || live == before || after == Some(live)
}

pub open spec fn spec_restore_allowed(
    j: Journal,
    live_source: (bool, Seq<char>),
    live_build: (bool, Seq<char>),
    snap_source: (bool, Seq<char>),
    snap_build: (bool, Seq<char>),
) -> bool {
    &&& snap_source == j.before_source@
    &&& snap_build == j.before_build@
    &&& expected_live(live_source, j.before_source@, opt_view(j.after_source))
    &&& expected_live(live_build, j.before_build@, opt_view(j.after_build))
}

/// Validates BOTH before-images before either live tree changes, and refuses to
/// overwrite live contents that neither side of the transaction produced.
pub fn check_restore(
    j: &Journal,
    live_source: &Fingerprint,
    live_build: &Fingerprint,
    snap_source: &Fingerprint,
    snap_build: &Fingerprint,
) -> (r: Result<(), RecoveryError>)
    ensures
        r is Ok <==> spec_restore_allowed(*j, live_source@, live_build@, snap_source@, snap_build@),
        !(snap_source@ == j.before_source@ && snap_build@ == j.before_build@) ==> r == Err::<
            (),
            RecoveryError,
        >(RecoveryError::SnapshotCorrupt),
        (snap_source@ == j.before_source@ && snap_build@ == j.before_build@) && r is Err ==> r
            == Err::<(), RecoveryError>(RecoveryError::UnexpectedLive),
{
    if !snap_source.same(&j.before_source) || !snap_build.same(&j.before_build) {
        return Err(RecoveryError::SnapshotCorrupt);
    }
    if !live_ok(live_source, &j.before_source, &j.after_source) || !live_ok(
        live_build,
        &j.before_build,
        &j.after_build,
    ) {
        return Err(RecoveryError::UnexpectedLive);
    }
    Ok(())
}

fn live_ok(live: &Fingerprint, before: &Fingerprint, after: &Option<Fingerprint>) -> (b: bool)
    ensures
        b == expected_live(live@, before@, opt_view(*after)),
{
    if !live.present || live.same(before) {
        return true;
    }
    match after {
        Some(a) => a.same(live),
        None => false,
    }
}

/// File steps that restore one tree: whether the live tree is replaced at all, and
/// whether the snapshot is installed (otherwise the tree ends absent).
#[derive(Debug, Clone, Copy, PartialEq, Eq, Structural)]
pub struct RestoreSteps {
    pub replace: bool,
    pub install_snapshot: bool,
}

pub fn restore_steps(current: &Fingerprint, before: &Fingerprint) -> (s: RestoreSteps)
    ensures
        s.replace == (current@ != before@),
        s.install_snapshot == (s.replace && before.present),
{
    let replace = !current.same(before);
    RestoreSteps { replace, install_snapshot: replace && before.present }
}

/// The fingerprint of a missing tree.
pub open spec fn absent_view() -> (bool, Seq<char>) {
    (false, Seq::<char>::empty())
}

/// A fingerprint as the tree hasher produces it: an absent tree has no digest.
pub open spec fn canonical(f: (bool, Seq<char>)) -> bool {
    f.0 || f.1.len() == 0
}

/// The tree a restore leaves behind.
pub open spec fn after_restore(
    current: (bool, Seq<char>),
    before: (bool, Seq<char>),
    snapshot: (bool, Seq<char>),
) -> (bool, Seq<char>) {
    if current == before {
        current
    } else if before.0 {
        snapshot
    } else {
        absent_view()
    }
}

/// Finalization keeps only the exact committed pair.
pub fn check_finalize(j: &Journal, live_source: &Fingerprint, live_build: &Fingerprint) -> (r: Result<
    (),
    RecoveryError,
>)
    ensures
        r is Ok <==> (j.after_source matches Some(a) && a@ == live_source@) && (
        j.after_build matches Some(b) && b@ == live_build@),
        j.after_source is None ==> r == Err::<(), RecoveryError>(RecoveryError::MissingCommittedSource),
        j.after_source is Some && j.after_build is None ==> r == Err::<(), RecoveryError>(
            RecoveryError::MissingCommittedBuild,
        ),
        j.after_source is Some && j.after_build is Some && r is Err ==> r == Err::<(), RecoveryError>(
            RecoveryError::FingerprintMismatch,
        ),
{
    let source = match &j.after_source {
        Some(s) => s,
        None => return Err(RecoveryError::MissingCommittedSource),
    };
    let build = match &j.after_build {
        Some(b) => b,
        None => return Err(RecoveryError::MissingCommittedBuild),
    };
    if !live_source.same(source) || !live_build.same(build) {
        return Err(RecoveryError::FingerprintMismatch);
    }
    Ok(())
}

/// The current receipt a finalized transaction leaves.
pub fn receipt_for(j: &Journal) -> (r: Receipt)
    requires
        j.after_source is Some,
        j.after_build is Some,
    ensures
        r.schema == 1,
        r.transaction_id@ == j.transaction_id@,
        r.project_id@ == j.project_id@,
        r.revision == j.target_revision,
        r.source@ == j.after_source.unwrap()@,
        r.build@ == j.after_build.unwrap()@,
{
    let source = match &j.after_source {
        Some(s) => s.copy(),
        None => Fingerprint::absent(),
    };
    let build = match &j.after_build {
        Some(b) => b.copy(),
        None => Fingerprint::absent(),
    };
    Receipt {
        schema: 1,
        transaction_id: j.transaction_id.clone(),
        project_id: j.project_id.clone(),
        revision: j.target_revision,
        source,
        build,
    }
}

/// The retained copy of the consumed package must still be the package.
pub fn check_retained(pack: &Package, retained_sha256: &String) -> (r: Result<(), RecoveryError>)
    ensures
        r is Ok <==> retained_sha256@ == pack.sha256@,
        r is Err ==> r == Err::<(), RecoveryError>(RecoveryError::RetainedPackageMismatch),
{
    if *retained_sha256 != pack.sha256 {
        Err(RecoveryError::RetainedPackageMismatch)
    } else {
        Ok(())
    }
}

/// The applied archive must hold the package bytes.
pub fn check_archived(pack: &Package, archived_sha256: &String) -> (r: Result<(), RecoveryError>)
    ensures
        r is Ok <==> archived_sha256@ == pack.sha256@,
        r is Err ==> r == Err::<(), RecoveryError>(RecoveryError::ArchiveMismatch),
{
    if *archived_sha256 != pack.sha256 {
        Err(RecoveryError::ArchiveMismatch)
    } else {
        Ok(())
    }
}

/// The downloaded original is removed only while it still holds the consumed bytes:
/// a different file later downloaded to the same path is never deleted.
pub fn should_remove_original(pack: &Package, original_sha256: &Option<String>) -> (b: bool)
    ensures
        b == (original_sha256 matches Some(h) && h@ == pack.sha256@),
{
    match original_sha256 {
        Some(h) => *h == pack.sha256,
        None => false,
    }
}

/// What promotion reads of a validation report.
pub struct ReportFacts {
    /// `passed`, when it is a boolean.
    pub passed: Option<bool>,
    /// `revision`, when it is an unsigned integer.
    pub revision: Option<u64>,
    /// For each entry of `steps`, whether its `status` is the string `failed`;
    /// `None` when `steps` is missing or not an array.
    pub step_failed: Option<Vec<bool>>,
    /// Length of `errors`, when it is an array.
    pub error_count: Option<usize>,
}

pub open spec fn spec_validation_passes(r: ReportFacts, target: u64) -> bool {
    &&& r.passed == Some(true)
    &&& r.revision == Some(target)
    &&& (r.step_failed matches Some(steps) && steps@.len() > 0 && forall|i: int|
        0 <= i < steps@.len() ==> !#[trigger] steps@[i])
    &&& !(r.error_count matches Some(n) && n > 0)
}

/// Promotion requires a passing report for exactly the target revision, with at least
/// one step, no failed step and no error.
pub fn validation_gate(r: &ReportFacts, target: u64) -> (b: bool)
    ensures
        b == spec_validation_passes(*r, target),
{
    if r.passed != Some(true) || r.revision != Some(target) {
        return false;
    }
    match &r.error_count {
        Some(n) => if *n > 0 {
            return false;
        },
        None => {},
    }
    match &r.step_failed {
        None => false,
        Some(steps) => {
            if steps.len() == 0 {
                return false;
            }
            let mut i: usize = 0;
            while i < steps.len()
                invariant
                    r.step_failed is Some,
                    steps@ == r.step_failed.unwrap()@,
                    i <= steps@.len(),
                    forall|k: int| 0 <= k < i ==> !#[trigger] steps@[k],
                decreases steps@.len() - i,
            {
                if steps[i] {
                    proof {
                        assert(r.step_failed.unwrap()@[i as int]);
                    }
                    return false;
                }
                i = i + 1;
            }
            true
        },
    }
}

/// What promotion reads of the candidate source and build.
pub struct CandidateFacts {
    /// `project_id` of the candidate's Bridge metadata, when it is a string.
    pub project_id: Option<String>,
    /// `revision` of the candidate's Bridge metadata, when it is an unsigned integer.
    pub revision: Option<u64>,
    pub has_project_file: bool,
    pub has_executable: bool,
}

pub open spec fn spec_identity_ok(c: CandidateFacts, j: Journal) -> bool {
    &&& (c.project_id matches Some(p) && p@ == j.project_id@)
    &&& c.revision == Some(j.target_revision)
    &&& c.has_project_file
    &&& c.has_executable
}

pub fn identity_gate(c: &CandidateFacts, j: &Journal) -> (b: bool)
    ensures
        b == spec_identity_ok(*c, *j),
{
    let same_project = match &c.project_id {
        Some(p) => *p == j.project_id,
        None => false,
    };
    same_project && c.revision == Some(j.target_revision) && c.has_project_file && c.has_executable
}

/// The journal phases promotion records, in order, after the candidate is assembled.
pub open spec fn promotion_sequence() -> Seq<Phase> {
    seq![
        Phase::Ready,
        Phase::SourcePromoting,
        Phase::SourcePromoted,
        Phase::BuildPromoting,
        Phase::PairPromoted,
        Phase::Committed,
    ]
}

pub fn promotion_phases() -> (v: Vec<Phase>)
    ensures
        v@ == promotion_sequence(),
{
    let v = vec![
        Phase::Ready,
        Phase::SourcePromoting,
        Phase::SourcePromoted,
        Phase::BuildPromoting,
        Phase::PairPromoted,
        Phase::Committed,
    ];
    proof {
        assert(v@ =~= promotion_sequence());
    }
    v
}

/// A pending journal blocks every operation, and a committed journal is never rolled
/// back: restarting at any promotion phase before Committed restores both before-images,
/// at Committed it keeps the new pair.
pub proof fn law_interrupted_promotion_route(i: int)
    requires
        0 <= i < promotion_sequence().len(),
    ensures
        promotion_sequence()[i] == Phase::Committed <==> i == promotion_sequence().len() - 1,
        i < promotion_sequence().len() - 1 ==> spec_route(promotion_sequence()[i]) == Route::Restore,
        i == promotion_sequence().len() - 1 ==> spec_route(promotion_sequence()[i]) == Route::Finalize,
{
}

/// Rollback uses the before-image of the transaction named by the current receipt.
pub fn check_rollback(
    receipt: &Receipt,
    live_source: &Fingerprint,
    live_build: &Fingerprint,
    stored: &Journal,
) -> (r: Result<bool, RecoveryError>)
    ensures
        r is Ok <==> (live_source@ == receipt.source@ && live_build@ == receipt.build@
            && spec_journal_valid(*stored) && stored.transaction_id@ == receipt.transaction_id@
            && stored.phase == Phase::Committed),
        r matches Ok(has_before) ==> has_before == stored.before_source.present,
        !(live_source@ == receipt.source@ && live_build@ == receipt.build@) ==> r == Err::<
            bool,
            RecoveryError,
        >(RecoveryError::FingerprintMismatch),
{
    if !live_source.same(&receipt.source) || !live_build.same(&receipt.build) {
        return Err(RecoveryError::FingerprintMismatch);
    }
    match stored.validate() {
        Err(e) => return Err(RecoveryError::Journal(e)),
        Ok(()) => {},
    }
    if stored.transaction_id != receipt.transaction_id || stored.phase != Phase::Committed {
        return Err(RecoveryError::RollbackMismatch);
    }
    Ok(stored.before_source.present)
}

pub fn check_rollback_snapshot(snapshot: &Fingerprint, stored: &Journal) -> (r: Result<(), RecoveryError>)
    ensures
        r is Ok <==> snapshot@ == stored.before_source@,
        r is Err ==> r == Err::<(), RecoveryError>(RecoveryError::RollbackSnapshotCorrupt),
{
    if !snapshot.same(&stored.before_source) {
        Err(RecoveryError::RollbackSnapshotCorrupt)
    } else {
        Ok(())
    }
}

/// Before Ready, the snapshots and the live trees must still match the before-images.
pub fn check_before_images(
    j: &Journal,
    snap_source: &Fingerprint,
    snap_build: &Fingerprint,
) -> (r: Result<(), RecoveryError>)
    ensures
        r is Ok <==> (snap_source@ == j.before_source@ && snap_build@ == j.before_build@),
        r is Err ==> r == Err::<(), RecoveryError>(RecoveryError::BeforeImageFailed),
{
    if !snap_source.same(&j.before_source) || !snap_build.same(&j.before_build) {
        Err(RecoveryError::BeforeImageFailed)
    } else {
        Ok(())
    }
}

/// Recovery as a whole, over tree fingerprints: `Ok` carries the outcome and the live
/// source and build fingerprints afterwards; the journal is gone after any `Ok`.
pub open spec fn spec_recover(
    journal: Option<Journal>,
    live_source: (bool, Seq<char>),
    live_build: (bool, Seq<char>),
    snap_source: (bool, Seq<char>),
    snap_build: (bool, Seq<char>),
) -> Option<(Recovery, (bool, Seq<char>), (bool, Seq<char>))> {
    match journal {
        None => Some((Recovery::Clean, live_source, live_build)),
        Some(j) => if !spec_journal_valid(j) {
            None
        } else {
            match spec_route(j.phase) {
                Route::Finalize => if opt_view(j.after_source) == Some(live_source) && opt_view(
                    j.after_build,
                ) == Some(live_build) {
                    Some((Recovery::Finalized, live_source, live_build))
                } else {
                    None
                },
                Route::Unstarted => if live_source == j.before_source@ && live_build
                    == j.before_build@ {
                    Some((Recovery::Restored, live_source, live_build))
                } else {
                    None
                },
                Route::Restore => if spec_restore_allowed(
                    j,
                    live_source,
                    live_build,
                    snap_source,
                    snap_build,
                ) {
                    let s = after_restore(live_source, j.before_source@, snap_source);
                    let b = after_restore(live_build, j.before_build@, snap_build);
                    // Restored trees are re-verified against the before-images.
                    if s == j.before_source@ && b == j.before_build@ {
                        Some((Recovery::Restored, s, b))
                    } else {
                        None
                    }
                } else {
                    None
                },
            }
        },
    }
}

/// What one recovery does: its outcome, whether the journal is first marked Restoring,
/// and the file steps for each live tree. The journal is removed after the plan runs.
#[derive(Debug, Clone, Copy, PartialEq, Eq, Structural)]
pub struct RecoveryPlan {
    pub outcome: Recovery,
    pub restoring: bool,
    pub source: RestoreSteps,
    pub build: RestoreSteps,
}

/// The tree that `steps` leave behind when the live tree was `live`.
pub open spec fn after_steps(live: (bool, Seq<char>), steps: RestoreSteps, snapshot: (bool, Seq<char>)) -> (
    bool,
    Seq<char>,
) {
    if !steps.replace {
        live
    } else if steps.install_snapshot {
        snapshot
    } else {
        absent_view()
    }
}

pub open spec fn no_steps() -> RestoreSteps {
    RestoreSteps { replace: false, install_snapshot: false }
}

/// Decides a whole recovery from the journal and the fingerprints of the live trees
/// and of the stored before-image snapshots (only read when the journal's route is
/// Restore). It succeeds exactly when `spec_recover` does, and its steps leave exactly
/// the trees `spec_recover` names; the journal is marked Restoring before any tree is
/// touched.
pub fn plan_recovery(
    journal: &Option<Journal>,
    live_source: &Fingerprint,
    live_build: &Fingerprint,
    snap_source: &Fingerprint,
    snap_build: &Fingerprint,
) -> (r: Result<RecoveryPlan, RecoveryError>)
    ensures
        r is Ok <==> spec_recover(*journal, live_source@, live_build@, snap_source@, snap_build@) is Some,
        r matches Ok(p) ==> {
            let (outcome, s, b) = spec_recover(
                *journal,
                live_source@,
                live_build@,
                snap_source@,
                snap_build@,
            ).unwrap();
            &&& p.outcome == outcome
            &&& after_steps(live_source@, p.source, snap_source@) == s
            &&& after_steps(live_build@, p.build, snap_build@) == b
            &&& p.restoring == (journal matches Some(j) && spec_route(j.phase) == Route::Restore)
            &&& !p.restoring ==> p.source == no_steps() && p.build == no_steps()
        },
{
    let none = RestoreSteps { replace: false, install_snapshot: false };
    let j = match journal {
        None => {
            return Ok(RecoveryPlan { outcome: Recovery::Clean, restoring: false, source: none, build: none });
        },
        Some(j) => j,
    };
    match j.validate() {
        Err(e) => return Err(RecoveryError::Journal(e)),
        Ok(()) => {},
    }
    match route(j.phase) {
        Route::Finalize => {
            check_finalize(j, live_source, live_build)?;
            Ok(RecoveryPlan { outcome: Recovery::Finalized, restoring: false, source: none, build: none })
        },
        Route::Unstarted => {
            check_unstarted(j, live_source, live_build)?;
            Ok(RecoveryPlan { outcome: Recovery::Restored, restoring: false, source: none, build: none })
        },
        Route::Restore => {
            check_restore(j, live_source, live_build, snap_source, snap_build)?;
            let source = restore_steps(live_source, &j.before_source);
            let build = restore_steps(live_build, &j.before_build);
            // A tree restored to absence must be what the before-image records.
            let absent = Fingerprint::absent();
            if (source.replace && !source.install_snapshot && !j.before_source.same(&absent)) || (build.replace
                && !build.install_snapshot && !j.before_build.same(&absent)) {
                return Err(RecoveryError::FingerprintMismatch);
            }
            proof {
                assert(absent_view() =~= (false, Seq::<char>::empty()));
            }
            Ok(RecoveryPlan { outcome: Recovery::Restored, restoring: true, source, build })
        },
    }
}

/// A recovery can itself be interrupted and repeated: once a permitted restore has
/// marked the journal Restoring, any mix of trees left by an interruption (each tree
/// still as it was, removed, or already restored) recovers to both before-images, and
/// so does a journal already marked Recovered over the restored pair; the next recovery
/// after that finds no journal and keeps the pair.
pub proof fn law_interrupted_recovery_repeats(
    j: Journal,
    live_source: (bool, Seq<char>),
    live_build: (bool, Seq<char>),
    snap_source: (bool, Seq<char>),
    snap_build: (bool, Seq<char>),
    left_source: (bool, Seq<char>),
    left_build: (bool, Seq<char>),
)
    requires
        spec_journal_valid(j),
        spec_route(j.phase) == Route::Restore,
        canonical(j.before_source@),
        canonical(j.before_build@),
        spec_restore_allowed(j, live_source, live_build, snap_source, snap_build),
        left_source == live_source || left_source == absent_view() || left_source == j.before_source@,
        left_build == live_build || left_build == absent_view() || left_build == j.before_build@,
    ensures
        spec_recover(
            Some(Journal { phase: Phase::Restoring, ..j }),
            left_source,
            left_build,
            snap_source,
            snap_build,
        ) == Some((Recovery::Restored, j.before_source@, j.before_build@)),
        spec_recover(
            Some(Journal { phase: Phase::Recovered, ..j }),
            j.before_source@,
            j.before_build@,
            snap_source,
            snap_build,
        ) == Some((Recovery::Restored, j.before_source@, j.before_build@)),
        spec_recover(None, j.before_source@, j.before_build@, snap_source, snap_build) == Some(
            (Recovery::Clean, j.before_source@, j.before_build@),
        ),
{
    let k = Journal { phase: Phase::Restoring, ..j };
    assert(spec_journal_valid(k));
    assert(spec_restore_allowed(k, left_source, left_build, snap_source, snap_build));
    law_restore_reaches_before_images(k, left_source, left_build, snap_source, snap_build);
    let m = Journal { phase: Phase::Recovered, ..j };
    assert(spec_journal_valid(m));
}

/// A committed transaction is never rolled back: its recovery succeeds exactly when the
/// live pair is the committed pair, then finishes it without touching either tree; when
/// finishing fails (an archive that cannot be written, say) the journal stays
/// committed and the same recovery is simply tried again.
pub proof fn law_committed_is_retried_never_rolled_back(
    j: Journal,
    live_source: (bool, Seq<char>),
    live_build: (bool, Seq<char>),
    snap_source: (bool, Seq<char>),
    snap_build: (bool, Seq<char>),
)
    requires
        spec_journal_valid(j),
        j.phase == Phase::Committed,
    ensures
        spec_recover(Some(j), live_source, live_build, snap_source, snap_build) is Some <==> (opt_view(
            j.after_source,
        ) == Some(live_source) && opt_view(j.after_build) == Some(live_build)),
        spec_recover(Some(j), live_source, live_build, snap_source, snap_build) is Some ==> spec_recover(
            Some(j),
            live_source,
            live_build,
            snap_source,
            snap_build,
        ) == Some((Recovery::Finalized, live_source, live_build)),
{
}

/// Recovery keeps a committed pair and otherwise returns BOTH before-images, including
/// the initial absence of a tree.
pub proof fn law_recovery_outcome(
    j: Journal,
    live_source: (bool, Seq<char>),
    live_build: (bool, Seq<char>),
    snap_source: (bool, Seq<char>),
    snap_build: (bool, Seq<char>),
)
    requires
        spec_recover(Some(j), live_source, live_build, snap_source, snap_build) is Some,
    ensures
        ({
            let (outcome, s, b) = spec_recover(
                Some(j),
                live_source,
                live_build,
                snap_source,
                snap_build,
            ).unwrap();
            &&& j.phase == Phase::Committed ==> outcome == Recovery::Finalized && Some(s) == opt_view(
                j.after_source,
            ) && Some(b) == opt_view(j.after_build)
            &&& j.phase != Phase::Committed ==> outcome == Recovery::Restored && s == j.before_source@
                && b == j.before_build@
        }),
{
}

/// With canonical before-images and matching snapshots, a permitted restore always
/// reaches the before-images: the final re-verification cannot fail.
pub proof fn law_restore_reaches_before_images(
    j: Journal,
    live_source: (bool, Seq<char>),
    live_build: (bool, Seq<char>),
    snap_source: (bool, Seq<char>),
    snap_build: (bool, Seq<char>),
)
    requires
        spec_journal_valid(j),
        spec_route(j.phase) == Route::Restore,
        canonical(j.before_source@),
        canonical(j.before_build@),
        spec_restore_allowed(j, live_source, live_build, snap_source, snap_build),
    ensures
        spec_recover(Some(j), live_source, live_build, snap_source, snap_build) == Some(
            (Recovery::Restored, j.before_source@, j.before_build@),
        ),
{
    assert(absent_view() =~= (false, Seq::<char>::empty()));
    if !j.before_source@.0 {
        assert(j.before_source@.1 =~= Seq::<char>::empty());
    }
    if !j.before_build@.0 {
        assert(j.before_build@.1 =~= Seq::<char>::empty());
    }
}

} // verus!
