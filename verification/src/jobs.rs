//! The single gateway for short-lived Godot work: per-phase deadlines, the persisted
//! worker guard that blocks recovery until a prior job is confirmed gone, the fixed
//! log file name, and what a finished run means for the caller.
use vstd::prelude::*;
use vstd::string::StringExecFns;
use crate::text::{decimal, push_str, u64_decimal};
use crate::worker::{Elapsed, Outcome};

verus! {

/// Where the guard of a pending worker is persisted, under the workspace root.
pub const PENDING_WORKER: &'static str = "state/worker_guard.json";

/// The kinds of Godot work, each with its own deadline.
#[derive(Debug, Clone, Copy, PartialEq, Eq, Structural)]
pub enum Phase {
    Version,
    Import,
    Harness,
    Export,
    Smoke,
}

pub open spec fn spec_timeout_secs(p: Phase) -> u64 {
    match p {
        Phase::Version => 15,
        Phase::Import => 180,
        Phase::Harness => 60,
        Phase::Export => 300,
        Phase::Smoke => 30,
    }
}

pub open spec fn phase_text(p: Phase) -> Seq<char> {
    match p {
        Phase::Version => "Version"@,
        Phase::Import => "Import"@,
        Phase::Harness => "Harness"@,
        Phase::Export => "Export"@,
        Phase::Smoke => "Smoke"@,
    }
}

impl Phase {
    /// The phase's deadline in seconds.
    pub fn timeout_secs(self) -> (s: u64)
        ensures
            s == spec_timeout_secs(self),
    {
        match self {
            Phase::Version => 15,
            Phase::Import => 180,
            Phase::Harness => 60,
            Phase::Export => 300,
            Phase::Smoke => 30,
        }
    }

    /// The phase's deadline.
    pub fn timeout(self) -> (e: Elapsed)
        ensures
            e.secs == spec_timeout_secs(self),
            e.nanos == 0,
    {
        Elapsed { secs: self.timeout_secs(), nanos: 0 }
    }

    /// The phase's name, as recorded in the guard and the log.
    pub fn name(self) -> (s: &'static str)
        ensures
            s@ == phase_text(self),
    {
        match self {
            Phase::Version => "Version",
            Phase::Import => "Import",
            Phase::Harness => "Harness",
            Phase::Export => "Export",
            Phase::Smoke => "Smoke",
        }
    }
}

/// The persisted record of a worker that may still own processes.
#[derive(Debug, Clone)]
pub struct Guard {
    pub schema: u32,
    pub job_name: String,
    pub phase: String,
}

/// Why the gateway refuses to go on.
#[derive(Debug, Clone, Copy, PartialEq, Eq, Structural)]
pub enum GatewayError {
    GuardOversized,
    GuardSchema,
    LogName,
}

impl GatewayError {
    /// The text that `message` gives for this error.
    pub open spec fn message_text(self) -> Seq<char> {
        match self {
            GatewayError::GuardOversized => "Worker guard is oversized; retained for inspection"@,
            GatewayError::GuardSchema => "Unknown worker guard schema; operations blocked"@,
            GatewayError::LogName => "Worker log must be a fixed filename"@,
        }
    }

    pub fn message(&self) -> (s: &'static str)
        ensures
            s@ == self.message_text(),
    {
        match self {
            GatewayError::GuardOversized => "Worker guard is oversized; retained for inspection",
            GatewayError::GuardSchema => "Unknown worker guard schema; operations blocked",
            GatewayError::LogName => "Worker log must be a fixed filename",
        }
    }
}

/// A guard file of at most 4096 bytes, checked before it is parsed.
pub fn check_guard_size(len: u64) -> (r: Result<(), GatewayError>)
    ensures
        len > 4096 ==> r == Err::<(), GatewayError>(GatewayError::GuardOversized),
        len <= 4096 ==> r is Ok,
{
    if len > 4096 {
        Err(GatewayError::GuardOversized)
    } else {
        Ok(())
    }
}

/// Only schema 1 guards are understood; any other blocks operations.
pub fn check_guard(guard: &Guard) -> (r: Result<(), GatewayError>)
    ensures
        guard.schema != 1 ==> r == Err::<(), GatewayError>(GatewayError::GuardSchema),
        guard.schema == 1 ==> r is Ok,
{
    if guard.schema != 1 {
        Err(GatewayError::GuardSchema)
    } else {
        Ok(())
    }
}

/// The guard written before a worker of `phase` is spawned as `job_name`.
pub fn new_guard(job_name: String, phase: Phase) -> (g: Guard)
    ensures
        g.schema == 1,
        g.job_name@ == job_name@,
        g.phase@ == phase_text(phase),
{
    Guard { schema: 1, job_name, phase: String::from_str(phase.name()) }
}

/// A log name is a file name, never a path.
pub fn check_log_name(name: &str) -> (r: Result<(), GatewayError>)
    ensures
        r is Ok <==> !name@.contains('/') && !name@.contains('\\'),
        r is Err ==> r == Err::<(), GatewayError>(GatewayError::LogName),
{
    let mut i: usize = 0;
    let v = crate::text::chars_of(name);
    while i < v.len()
        invariant
            i <= v@.len(),
            v@ == name@,
            forall|k: int| 0 <= k < i ==> v@[k] != '/' && v@[k] != '\\',
        decreases v@.len() - i,
    {
        if v[i] == '/' || v[i] == '\\' {
            proof {
                assert(name@[i as int] == v@[i as int]);
            }
            return Err(GatewayError::LogName);
        }
        i = i + 1;
    }
    Ok(())
}

/// The log line written before a worker starts.
pub fn starting_line(phase: Phase) -> (s: String)
    ensures
        s@ == "Worker "@ + phase_text(phase) + " starting; deadline="@ + decimal(spec_timeout_secs(phase) as nat)
            + "s. Result pending.\n"@,
{
    let mut s = String::from_str("Worker ");
    push_str(&mut s, phase.name());
    push_str(&mut s, " starting; deadline=");
    let d = u64_decimal(phase.timeout_secs());
    push_str(&mut s, d.as_str());
    push_str(&mut s, "s. Result pending.\n");
    s
}

/// A finished run may release its guard only after the owned tree was confirmed
/// stopped; otherwise the caller keeps the guard and reports this message.
pub fn cleanup_required(outcome: &Outcome) -> (r: Option<String>)
    ensures
        outcome.cleanup_confirmed ==> r is None,
        !outcome.cleanup_confirmed ==> (r matches Some(m) && m@ == "WORKER CLEANUP REQUIRED. "@ + outcome.spec_summary()),
{
    if outcome.cleanup_confirmed {
        None
    } else {
        let mut m = String::from_str("WORKER CLEANUP REQUIRED. ");
        let s = outcome.summary();
        push_str(&mut m, s.as_str());
        Some(m)
    }
}

} // verus!
