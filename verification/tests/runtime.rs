use crimesim_bridge::package::{catalog_entry, is_generated, is_update_pack_name, latest_candidate, LARGE_ASSET_LIMIT};
use crimesim_bridge::runtime::{
    check_runtime_file, check_runtime_schema, has_commit_provenance, select_worker, verified_detail, verify_engine_version,
    version_line, RuntimeFile, RuntimeManifest, WorkerChoice,
};
use crimesim_bridge::worker::Elapsed;

#[test]
fn worker_selection() {
    let names: Vec<String> = vec!["godot.exe".into(), "Godot_v4.7_B_console.exe".into(), "Godot_v4.7_A_CONSOLE.EXE".into()];
    assert_eq!(select_worker(&names), WorkerChoice::Console(2));
    assert_eq!(select_worker(&vec!["godot.exe".into()]), WorkerChoice::Legacy);
}

#[test]
fn engine_version_matching() {
    assert_eq!(verify_engine_version("4.7.2", "4.7.2.stable.official"), (true, "Godot executable reports 4.7.2.stable.official".into()));
    assert_eq!(verify_engine_version("4.7.2", "4.7.2-rc1").0, true);
    assert_eq!(verify_engine_version("4.7.2", "4.7.2"), (true, "Godot executable reports 4.7.2".into()));
    assert_eq!(verify_engine_version("4.7.2", "4.7.20"),
        (false, "Godot executable reports 4.7.20; project requires 4.7.2".into()));
    assert_eq!(version_line("  4.7.2.stable\n"), Some("4.7.2.stable".into()));
    assert_eq!(version_line(" \n"), None);
}

#[test]
fn runtime_manifest_checks() {
    let m = RuntimeManifest { schema: 2, engine_version: "4.7.2".into(), files: vec![] };
    assert_eq!(check_runtime_schema(&m), Some("Unsupported runtime manifest schema 2".into()));
    let f = RuntimeFile { path: "godot_console.exe".into(), sha256: "aa".into() };
    assert_eq!(check_runtime_file(&f, false, &String::new()), Some("Runtime file missing: godot_console.exe".into()));
    assert_eq!(check_runtime_file(&f, true, &"bb".into()), Some("Runtime hash mismatch: godot_console.exe".into()));
    assert_eq!(check_runtime_file(&f, true, &"aa".into()), None);
    let m = RuntimeManifest { schema: 1, engine_version: "4.7.2".into(), files: vec![f.clone(), f] };
    assert_eq!(check_runtime_schema(&m), None);
    assert_eq!(verified_detail(&m), "Godot 4.7.2 runtime verified (2 files)");
}

#[test]
fn commit_provenance() {
    assert!(has_commit_provenance(&"a1".repeat(20)));
    assert!(!has_commit_provenance(&"g1".repeat(20)));
    assert!(!has_commit_provenance("abc"));
}

#[test]
fn chat_pack_rules() {
    assert!(is_generated(".godot"));
    assert!(is_generated(".GODOT/imported/x"));
    assert!(is_generated("logs\\godot.log"));
    assert!(is_generated("builds/current"));
    assert!(!is_generated("buildings/a.gd"));
    assert!(!is_generated("game/main.gd"));
    let big = catalog_entry("assets/music.OGG", LARGE_ASSET_LIMIT + 1, "h".into());
    assert!(!big.included);
    assert_eq!(big.reason.as_deref(), Some("large binary represented by catalog only"));
    let small = catalog_entry("assets\\icon.png", 10, "h".into());
    assert!(small.included);
    assert_eq!(small.path, "assets/icon.png");
    assert!(catalog_entry("data/world.json", LARGE_ASSET_LIMIT + 1, "h".into()).included);
    assert!(is_update_pack_name("CrimeSim_Update_0001.zip"));
    assert!(!is_update_pack_name("CrimeSim_Update_0001.zip.part"));
    assert!(!is_update_pack_name("crimesim_update_0001.zip"));
}

#[test]
fn latest_pack_is_last_of_the_newest() {
    let t = |s: u64| Some(Elapsed { secs: s, nanos: 0 });
    assert_eq!(latest_candidate(&vec![]), None);
    assert_eq!(latest_candidate(&vec![t(5), t(9), None, t(9), t(1)]), Some(3));
    assert_eq!(latest_candidate(&vec![None, None]), Some(1));
}
