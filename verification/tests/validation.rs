use crimesim_bridge::validation::{report, summarize_errors, Validation, ValidationStep};

fn step(status: &str) -> ValidationStep {
    ValidationStep { name: "x".into(), status: status.into(), detail: String::new() }
}

#[test]
fn summary_keeps_distinct_flagged_lines() {
    let log = "ok line\n  ERROR: missing thing  \r\nFailed to load\nERROR: missing thing\nparse trouble\n\n";
    assert_eq!(summarize_errors(log), vec!["ERROR: missing thing", "Failed to load", "parse trouble"]);
    assert!(summarize_errors("").is_empty());
    assert!(summarize_errors("all good\n").is_empty());
}

#[test]
fn summary_is_capped_and_truncated() {
    let mut log = String::new();
    for i in 0..10 {
        log.push_str(&format!("error {i}\n"));
    }
    assert_eq!(summarize_errors(&log).len(), 6);
    let long = format!("error {}", "x".repeat(300));
    let out = summarize_errors(&format!("{long}\n{long}\n"));
    assert_eq!(out.len(), 2);
    assert_eq!(out[0].chars().count(), 220);
}

#[test]
fn report_passes_unless_a_step_failed() {
    assert!(report(1, "t".into(), vec![step("passed"), step("skipped")], vec![]).passed);
    assert!(!report(1, "t".into(), vec![step("passed"), step("failed")], vec![]).passed);
    assert!(report(1, "t".into(), vec![], vec![]).passed);
}

#[test]
fn gates_run_in_order_and_stop_at_first_failure() {
    let mut v = Validation::new();
    assert!(v.structure(true));
    v.preset(false, "Windows Desktop");
    assert!(v.runtime(true, "Godot 4.7.2 runtime verified (3 files)"));
    assert!(v.engine(true, "Godot executable reports 4.7.2.stable"));
    assert!(v.import(true, ""));
    assert!(v.smoke(false, false, ""));
    assert!(!v.export(true, Some(65536), "", "Windows Desktop"));
    let r = v.finish(1, "now".into());
    assert!(!r.passed);
    assert_eq!(r.steps.len(), 7);
    assert_eq!(r.steps[1].detail, "Using export preset: Windows Desktop");
    assert_eq!(r.steps[5].status, "skipped");
    assert_eq!(r.steps[6].name, "Windows build");
    assert_eq!(r.steps[6].status, "failed");
    assert_eq!(r.errors, vec!["Godot did not produce a valid Windows executable"]);
}

#[test]
fn failed_import_keeps_error_lines() {
    let mut v = Validation::new();
    assert!(!v.structure(false));
    let r = v.finish(3, "now".into());
    assert_eq!(r.errors, vec!["Project structure is incomplete"]);
    assert_eq!(r.steps[0].detail, "Missing project.godot or configured main scene");
    let mut v = Validation::new();
    v.structure(true);
    v.preset(true, "Windows Desktop");
    v.runtime(true, "ok");
    v.engine(true, "ok");
    assert!(!v.import(false, "SCRIPT ERROR: Parse Error\nfine\n"));
    let r = v.finish(3, "now".into());
    assert_eq!(r.steps[1].detail, "Bridge created the default Windows Desktop export preset");
    assert_eq!(r.errors, vec!["SCRIPT ERROR: Parse Error"]);
    assert!(!r.passed);
}

#[test]
fn full_run_passes() {
    let mut v = Validation::new();
    assert!(v.structure(true));
    v.preset(false, "Windows Desktop");
    assert!(v.runtime(true, "ok"));
    assert!(v.engine(true, "ok"));
    assert!(v.import(true, "noise"));
    assert!(v.smoke(true, true, ""));
    assert!(v.export(true, Some(65537), "", "Windows Desktop"));
    assert!(v.launch(true, ""));
    let r = v.finish(2, "now".into());
    assert!(r.passed);
    assert_eq!(r.steps.len(), 8);
    assert!(r.errors.is_empty());
}
