use crimesim_bridge::capture::Capture;
use crimesim_bridge::jobs::{check_guard, check_guard_size, check_log_name, cleanup_required, new_guard, starting_line, GatewayError, Phase};
use crimesim_bridge::worker::{
    cancelled_before_spawn, check_request, cleanup_note, cleanup_verdict, contains_text, job_name, job_wait_verdict, poll_verdict, reap_note_needed,
    recover_owned_job, validate_job_name, Cleanup, Elapsed, Failure, JobWait, Outcome, Reason, Verdict, WorkerError,
};

fn outcome(reason: Reason, code: Option<i32>, cleanup_confirmed: bool) -> Outcome {
    Outcome { reason, code, cleanup_confirmed, elapsed: Elapsed { secs: 1, nanos: 234_000_000 },
        stdout: Capture::new(1024), stderr: Capture::new(1024), detail: "done".into() }
}

#[test]
fn job_names_are_bridge_owned() {
    assert_eq!(validate_job_name("Local\\CrimeSimBridgeWorker_12_34_5"), Ok(()));
    assert_eq!(validate_job_name("Global\\Other_1"), Err(WorkerError::JobPrefix));
    assert_eq!(validate_job_name("Local\\CrimeSimBridgeWorker_"), Err(WorkerError::JobIdentity));
    assert_eq!(validate_job_name("Local\\CrimeSimBridgeWorker_a-b"), Err(WorkerError::JobIdentity));
    let long = format!("Local\\CrimeSimBridgeWorker_{}", "a".repeat(101));
    assert_eq!(validate_job_name(&long), Err(WorkerError::JobIdentity));
    let max = format!("Local\\CrimeSimBridgeWorker_{}", "a".repeat(100));
    assert_eq!(validate_job_name(&max), Ok(()));
    assert_eq!(recover_owned_job("external-job", true), Err(WorkerError::JobPrefix));
    assert_eq!(recover_owned_job("Local\\CrimeSimBridgeWorker_1_2_3", true), Ok(()));
    assert_eq!(recover_owned_job("Local\\CrimeSimBridgeWorker_1_2_3", false), Err(WorkerError::NotRecoverable));
    assert_eq!(recover_owned_job("external-job", false), Err(WorkerError::JobPrefix));
}

#[test]
fn generated_job_name_always_validates() {
    let n = job_name(4242, 1_700_000_000_123_456_789, 7);
    assert_eq!(n, "Local\\CrimeSimBridgeWorker_4242_1700000000123456789_7");
    assert_eq!(validate_job_name(&n), Ok(()));
    let big = job_name(u32::MAX, u128::MAX, u64::MAX);
    assert_eq!(validate_job_name(&big), Ok(()));
}

#[test]
fn request_limits() {
    let name = "Local\\CrimeSimBridgeWorker_1";
    let t = Elapsed { secs: 60, nanos: 0 };
    let c = Elapsed { secs: 5, nanos: 0 };
    assert_eq!(check_request(name, true, true, t, c, 256 * 1024), Ok(()));
    assert_eq!(check_request(name, true, true, Elapsed { secs: 0, nanos: 0 }, c, 4096), Err(WorkerError::Limits));
    assert_eq!(check_request(name, true, true, Elapsed { secs: 3600, nanos: 1 }, c, 4096), Err(WorkerError::Limits));
    assert_eq!(check_request(name, true, true, Elapsed { secs: 3600, nanos: 0 }, c, 4096), Ok(()));
    assert_eq!(check_request(name, true, true, t, Elapsed { secs: 31, nanos: 0 }, 4096), Err(WorkerError::Limits));
    assert_eq!(check_request(name, false, true, t, c, 4096), Err(WorkerError::Limits));
    assert_eq!(check_request(name, true, true, t, c, 1023), Err(WorkerError::Limits));
    assert_eq!(check_request(name, true, true, t, c, 2 * 1024 * 1024 + 1), Err(WorkerError::Limits));
    assert_eq!(check_request("external-job", true, true, t, c, 4096), Err(WorkerError::JobPrefix));
}

#[test]
fn exit_needs_code_quiet_tree_and_closed_pipes() {
    let mut code = None;
    assert_eq!(poll_verdict(true, Some(Some(0)), Some(true), true, false, false, &mut code), Verdict::Stop(Reason::Exited));
    assert_eq!(code, Some(0));
    let mut code = None;
    assert_eq!(poll_verdict(true, Some(Some(0)), Some(true), false, false, false, &mut code), Verdict::Continue);
    let mut code = None;
    assert_eq!(poll_verdict(true, Some(Some(0)), Some(false), true, false, true, &mut code), Verdict::Stop(Reason::TimedOut));
    let mut code = None;
    assert_eq!(poll_verdict(true, Some(None), Some(true), true, true, true, &mut code), Verdict::Stop(Reason::Cancelled));
    let mut code = Some(3);
    assert_eq!(poll_verdict(false, Some(Some(0)), Some(true), true, false, false, &mut code), Verdict::Failed(Failure::Read));
    assert_eq!(code, Some(3));
    assert_eq!(poll_verdict(true, None, Some(true), true, false, false, &mut code), Verdict::Failed(Failure::Status));
    assert_eq!(poll_verdict(true, Some(Some(1)), None, true, false, false, &mut code), Verdict::Failed(Failure::Ownership));
    assert_eq!(code, Some(1));
}

#[test]
fn cleanup_is_confirmed_only_with_code_and_quiet_tree() {
    let mut code = Some(0);
    assert_eq!(cleanup_verdict(Some(Some(9)), Some(true), false, &mut code), Cleanup::Confirmed);
    assert_eq!(code, Some(0));
    let mut code = None;
    assert_eq!(cleanup_verdict(Some(None), Some(true), false, &mut code), Cleanup::Wait);
    assert_eq!(cleanup_verdict(None, Some(true), true, &mut code), Cleanup::Overdue);
    assert_eq!(cleanup_verdict(Some(Some(-9)), Some(true), true, &mut code), Cleanup::Confirmed);
    assert_eq!(code, Some(-9));
    assert_eq!(job_wait_verdict(0, true), JobWait::Stopped);
    assert_eq!(job_wait_verdict(2, true), JobWait::Overdue);
    assert_eq!(job_wait_verdict(2, false), JobWait::Wait);
}

#[test]
fn reap_and_cleanup_notes() {
    assert!(reap_note_needed("Tree termination failed: x."));
    assert!(!reap_note_needed(" Reap failed: gone."));
    assert!(contains_text("abc", ""));
    assert!(!contains_text("", "a"));
    assert_eq!(cleanup_note(true), "");
    assert_eq!(cleanup_note(false), " Cleanup deadline exceeded; preserve staging and block recovery.");
}

#[test]
fn success_and_summary() {
    let o = outcome(Reason::Exited, Some(0), true);
    assert!(o.success());
    assert_eq!(o.summary(), "Exited; exit=Some(0); 1.23s; worker tree stopped=true. done");
    assert!(!outcome(Reason::Exited, Some(7), true).success());
    assert!(!outcome(Reason::TimedOut, Some(0), true).success());
    assert!(!outcome(Reason::Exited, Some(0), false).success());
    let mut o = outcome(Reason::TimedOut, None, false);
    o.elapsed = Elapsed { secs: 0, nanos: 5_000_000 };
    assert_eq!(o.summary(), "TimedOut; exit=None; 0.01s; worker tree stopped=false. done");
    let mut o = outcome(Reason::IoFailure, Some(-9), true);
    o.elapsed = Elapsed { secs: 9, nanos: 999_999_999 };
    assert_eq!(o.summary(), "IoFailure; exit=Some(-9); 10.00s; worker tree stopped=true. done");
}

#[test]
fn log_lists_streams() {
    let mut o = outcome(Reason::Exited, Some(0), true);
    o.stdout.push(b"ready\n");
    o.stderr.push(b"diagnostic");
    assert_eq!(o.log(), "Exited; exit=Some(0); 1.23s; worker tree stopped=true. done\nstdout observed=6 omitted=0\nstderr observed=10 omitted=0\n--- STDOUT ---\nready\n\n--- STDERR ---\ndiagnostic");
}

#[test]
fn gateway_rules() {
    assert_eq!(Phase::Import.timeout_secs(), 180);
    assert_eq!(Phase::Version.timeout().secs, 15);
    assert_eq!(Phase::Export.timeout_secs(), 300);
    assert_eq!(starting_line(Phase::Smoke), "Worker Smoke starting; deadline=30s. Result pending.\n");
    assert_eq!(check_guard_size(4097), Err(GatewayError::GuardOversized));
    assert_eq!(check_guard_size(4096), Ok(()));
    let mut g = new_guard("Local\\CrimeSimBridgeWorker_1".into(), Phase::Harness);
    assert_eq!(g.phase, "Harness");
    assert_eq!(check_guard(&g), Ok(()));
    g.schema = 2;
    assert_eq!(check_guard(&g), Err(GatewayError::GuardSchema));
    assert_eq!(check_log_name("godot-import.log"), Ok(()));
    assert_eq!(check_log_name("../x.log"), Err(GatewayError::LogName));
    assert_eq!(check_log_name("a\\b.log"), Err(GatewayError::LogName));
    assert_eq!(cleanup_required(&outcome(Reason::Exited, Some(0), true)), None);
    assert_eq!(cleanup_required(&outcome(Reason::TimedOut, None, false)).unwrap(),
        "WORKER CLEANUP REQUIRED. TimedOut; exit=None; 1.23s; worker tree stopped=false. done");
}

#[test]
fn flooded_streams_keep_the_log_bounded() {
    let mut o = outcome(Reason::TimedOut, None, true);
    o.stdout = Capture::new(4096);
    o.stderr = Capture::new(4096);
    for _ in 0..100 {
        o.stdout.push(&[b'o'; 1000]);
        o.stderr.push(&[0xffu8; 1000]);
    }
    for c in [&o.stdout, &o.stderr] {
        assert!(c.observed() > 4096);
        assert!(c.retained_bytes() <= 4096);
        assert_eq!(c.omitted_bytes(), c.observed() - c.retained_bytes() as u64);
    }
    let log = o.log();
    assert!(log.len() <= o.summary().len() + 3 * (4096 + 4096) + 310);
    assert!(o.stdout.text().len() < 4096 + 73);
}

#[test]
fn cancelled_before_spawn_does_not_start() {
    let o = cancelled_before_spawn(true, 4096, Elapsed { secs: 0, nanos: 5 }).unwrap();
    assert_eq!(o.reason, Reason::Cancelled);
    assert_eq!(o.code, None);
    assert_eq!(o.stdout.observed(), 0);
    assert!(o.cleanup_confirmed);
    assert_eq!(o.detail, "Cancelled before spawn");
    assert!(cancelled_before_spawn(false, 4096, Elapsed { secs: 0, nanos: 5 }).is_none());
}
