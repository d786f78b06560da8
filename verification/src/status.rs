//! The Bridge's status report: what it found on disk, and when the pipeline is ready
//! to apply an update (no pending recovery, a verified runtime, and source, playable
//! build and last validation all at the same revision).
use vstd::prelude::*;
use vstd::string::StringExecFns;
use crate::project::BridgeProject;
use crate::text::push_str;
use crate::validation::ValidationReport;

verus! {

#[derive(Debug, Clone)]
pub struct BridgeStatus {
    pub bridge_version: String,
    pub workspace_root: String,
    pub project_present: bool,
    pub project_name: Option<String>,
    pub source_revision: Option<u64>,
    pub playable_revision: Option<u64>,
    pub engine_version: Option<String>,
    pub godot_runtime_present: bool,
    pub godot_runtime_integrity: String,
    pub pipeline_ready: bool,
    pub latest_update: Option<String>,
    pub last_validation: Option<ValidationReport>,
    pub last_recovery: Option<String>,
    pub recovery_required: bool,
    pub recovery_error: Option<String>,
}

/// What the status probe read from the workspace.
pub struct StatusFacts {
    pub bridge_version: String,
    pub workspace_root: String,
    /// `project.godot` exists in the current project.
    pub project_present: bool,
    /// The project metadata, when present and readable.
    pub meta: Option<BridgeProject>,
    /// The playable build's revision marker, when readable.
    pub playable_revision: Option<u64>,
    pub runtime_present: bool,
    /// The runtime integrity verdict and its detail.
    pub runtime_ok: bool,
    pub runtime_detail: String,
    pub latest_update: Option<String>,
    pub last_validation: Option<ValidationReport>,
    pub last_recovery: Option<String>,
    /// A transaction journal is pending.
    pub journal_pending: bool,
    /// A worker guard is pending.
    pub worker_pending: bool,
    /// The recorded recovery error, when one was written.
    pub recovery_error: Option<String>,
    /// The playable build's executable exists.
    pub executable_present: bool,
}

pub open spec fn spec_source_revision(f: StatusFacts) -> Option<u64> {
    match f.meta {
        Some(m) => Some(m.revision),
        None => None,
    }
}

/// Recovery is required while a journal or a worker guard is pending.
pub open spec fn spec_recovery_required(f: StatusFacts) -> bool {
    f.journal_pending || f.worker_pending
}

/// The pipeline is ready only with no recovery pending or failed, a present project,
/// a verified runtime, source and playable build at the same known revision, a last
/// validation that passed and a playable executable.
pub open spec fn spec_pipeline_ready(f: StatusFacts) -> bool {
    &&& !spec_recovery_required(f)
    &&& f.recovery_error is None
    &&& f.project_present
    &&& f.runtime_ok
    &&& spec_source_revision(f) is Some
    &&& spec_source_revision(f) == f.playable_revision
    &&& (f.last_validation matches Some(r) && r.passed)
    &&& f.executable_present
}

fn opt_eq(a: Option<u64>, b: Option<u64>) -> (r: bool)
    ensures
        r == (a == b),
{
    match (a, b) {
        (None, None) => true,
        (Some(x), Some(y)) => x == y,
        _ => false,
    }
}

/// The status report from what was found.
pub fn status_from(f: StatusFacts) -> (s: BridgeStatus)
    ensures
        s.recovery_required == spec_recovery_required(f),
        s.recovery_required == (f.journal_pending || f.worker_pending),
        f.journal_pending || f.worker_pending ==> !s.pipeline_ready,
        s.source_revision == spec_source_revision(f),
        s.playable_revision == f.playable_revision,
        s.pipeline_ready == spec_pipeline_ready(f),
        s.project_present == f.project_present,
        s.godot_runtime_present == f.runtime_present,
        f.runtime_ok ==> s.godot_runtime_integrity@ == "verified · "@ + f.runtime_detail@,
        !f.runtime_ok ==> s.godot_runtime_integrity@ == "invalid · "@ + f.runtime_detail@,
        f.recovery_error is Some ==> s.recovery_error == f.recovery_error,
        f.recovery_error is None && f.worker_pending ==> (s.recovery_error matches Some(e) && e@
            == "Worker cleanup must complete before project recovery."@),
        f.recovery_error is None && !f.worker_pending ==> s.recovery_error is None,
        s.project_name == (match f.meta {
            Some(m) => Some(m.project_name),
            None => None,
        }),
        s.engine_version == (match f.meta {
            Some(m) => Some(m.engine_version),
            None => None,
        }),
        s.latest_update == f.latest_update,
        s.last_validation == f.last_validation,
        s.pipeline_ready ==> {
            &&& !s.recovery_required
            &&& s.recovery_error is None
            &&& s.project_present
            &&& s.source_revision is Some
            &&& s.source_revision == s.playable_revision
            &&& (s.last_validation matches Some(r) && r.passed)
        },
        s.last_recovery == f.last_recovery,
        s.bridge_version == f.bridge_version,
        s.workspace_root == f.workspace_root,
{
    let recovery_required = f.journal_pending || f.worker_pending;
    let recovery_error = match f.recovery_error {
        Some(e) => Some(e),
        None => if f.worker_pending {
            Some(String::from_str("Worker cleanup must complete before project recovery."))
        } else {
            None
        },
    };
    let (project_name, engine_version, source_revision) = match f.meta {
        Some(m) => (Some(m.project_name), Some(m.engine_version), Some(m.revision)),
        None => (None, None, None),
    };
    let validation_ok = match &f.last_validation {
        Some(r) => r.passed,
        None => false,
    };
    let pipeline_ready = !recovery_required && recovery_error.is_none() && f.project_present && f.runtime_ok
        && source_revision.is_some() && opt_eq(source_revision, f.playable_revision) && validation_ok
        && f.executable_present;
    let mut integrity = if f.runtime_ok {
        String::from_str("verified · ")
    } else {
        String::from_str("invalid · ")
    };
    push_str(&mut integrity, f.runtime_detail.as_str());
    BridgeStatus {
        bridge_version: f.bridge_version,
        workspace_root: f.workspace_root,
        project_present: f.project_present,
        project_name,
        source_revision,
        playable_revision: f.playable_revision,
        engine_version,
        godot_runtime_present: f.runtime_present,
        godot_runtime_integrity: integrity,
        pipeline_ready,
        latest_update: f.latest_update,
        last_validation: f.last_validation,
        last_recovery: f.last_recovery,
        recovery_required,
        recovery_error,
    }
}

/// Pending work blocks the pipeline: recovery is required exactly while a transaction
/// journal or a worker guard is pending, and while either is, the pipeline is never
/// ready, whatever else the workspace holds.
pub proof fn law_pending_work_blocks_pipeline(f: StatusFacts)
    ensures
        spec_recovery_required(f) <==> (f.journal_pending || f.worker_pending),
        f.journal_pending ==> !spec_pipeline_ready(f),
        f.worker_pending ==> !spec_pipeline_ready(f),
{
}

/// Whether a validation report describes the given source revision. A report of another
/// revision (a failed candidate, say) is shown with this flag false, never as the
/// current game's health.
pub fn same_source_revision(report: &ValidationReport, meta: &BridgeProject) -> (b: bool)
    ensures
        b == (report.revision == meta.revision),
{
    report.revision == meta.revision
}

/// The installed acceptance probe's final condition: a ready pipeline with source and
/// playable build both at revision 1.
pub fn converged_at_first_revision(s: &BridgeStatus) -> (b: bool)
    ensures
        b == (s.pipeline_ready && s.source_revision == Some(1u64) && s.playable_revision == Some(1u64)),
{
    s.pipeline_ready && opt_eq(s.source_revision, Some(1)) && opt_eq(s.playable_revision, Some(1))
}

} // verus!
