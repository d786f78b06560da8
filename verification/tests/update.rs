use crimesim_bridge::project::default_metadata;
use crimesim_bridge::update::{
    change_entry_name, check_drift, check_header, check_identity, check_payload, check_target, expected_base, needs_payload,
    normalize_relative, FileOperation, OperationKind, UpdateError, UpdateManifest,
};

fn manifest() -> UpdateManifest {
    UpdateManifest { schema: 1, package_type: "update".into(), project_id: "crime_sim".into(), engine_version: "4.7.2".into(),
        base_revision: 0, target_revision: 1, created_at: "2024-01-01T00:00:00Z".into(), summary: "Add clock".into(),
        operations: vec![op(OperationKind::Create, None, Some("aa"))] }
}

fn op(kind: OperationKind, base: Option<&str>, new: Option<&str>) -> FileOperation {
    FileOperation { op: kind, path: "game/clock.gd".into(), base_sha256: base.map(String::from), new_sha256: new.map(String::from) }
}

#[test]
fn relative_paths_are_cleaned_or_refused() {
    assert_eq!(normalize_relative("game/main.gd"), Ok("game/main.gd".to_string()));
    assert_eq!(normalize_relative("game//./main.gd/"), Ok("game/main.gd".to_string()));
    assert_eq!(normalize_relative("/etc/passwd"), Err(UpdateError::UnsafeOrEmptyPath));
    assert_eq!(normalize_relative("   "), Err(UpdateError::UnsafeOrEmptyPath));
    assert_eq!(normalize_relative(""), Err(UpdateError::UnsafeOrEmptyPath));
    assert_eq!(normalize_relative("./game/main.gd"), Err(UpdateError::UnsafePath));
    assert_eq!(normalize_relative("game/../x"), Err(UpdateError::UnsafePath));
    assert_eq!(normalize_relative(".git"), Err(UpdateError::ManagedPath));
    assert_eq!(normalize_relative(".GODOT/imported"), Err(UpdateError::ManagedPath));
    assert_eq!(normalize_relative("Builds/current/CrimeSim.exe"), Err(UpdateError::ManagedPath));
    assert_eq!(normalize_relative("logs\\x.log"), Err(UpdateError::ManagedPath));
    assert_eq!(normalize_relative("project_control/Bridge_Project.json"), Err(UpdateError::BridgeMetadata));
    assert_eq!(normalize_relative("build/export.gd"), Err(UpdateError::ManagedPath));
    assert_eq!(normalize_relative("BUILD"), Err(UpdateError::ManagedPath));
    assert_eq!(normalize_relative("runtime"), Err(UpdateError::ManagedPath));
    assert_eq!(normalize_relative("game/build/x.gd"), Ok("game/build/x.gd".to_string()));
    assert_eq!(normalize_relative("buildings/x.gd"), Ok("buildings/x.gd".to_string()));
    assert_eq!(normalize_relative("..\\x"), Err(UpdateError::UnsafePath));
    assert_eq!(normalize_relative("a\\..\\..\\b"), Err(UpdateError::UnsafePath));
    assert_eq!(normalize_relative("C:\\x"), Err(UpdateError::UnsafePath));
    assert_eq!(normalize_relative("C:x"), Err(UpdateError::UnsafePath));
    assert_eq!(normalize_relative("\\x"), Err(UpdateError::UnsafeOrEmptyPath));
    assert_eq!(normalize_relative("game\\ui\\panel.gd"), Ok("game/ui/panel.gd".to_string()));
    assert_eq!(normalize_relative("workspace"), Ok("workspace".to_string()));
    assert_eq!(normalize_relative("builds"), Ok("builds".to_string()));
    assert_eq!(normalize_relative("workspace/x"), Err(UpdateError::ManagedPath));
}

#[test]
fn manifest_identity_must_match_current_game() {
    let meta = default_metadata();
    let m = manifest();
    assert_eq!(check_header(&m), Ok(()));
    assert_eq!(check_identity(&m, &meta), Ok(()));
    let mut bad = manifest();
    bad.package_type = "context".into();
    assert_eq!(check_header(&bad), Err(UpdateError::UnsupportedSchema));
    let mut bad = manifest();
    bad.project_id = "other".into();
    assert_eq!(check_identity(&bad, &meta), Err(UpdateError::ProjectMismatch));
    let mut bad = manifest();
    bad.engine_version = "4.6".into();
    assert_eq!(check_identity(&bad, &meta), Err(UpdateError::EngineMismatch));
    let mut bad = manifest();
    bad.base_revision = 3;
    assert_eq!(check_identity(&bad, &meta), Err(UpdateError::BaseRevisionMismatch));
    let mut bad = manifest();
    bad.target_revision = 2;
    assert_eq!(check_identity(&bad, &meta), Err(UpdateError::TargetRevision));
    let mut bad = manifest();
    bad.operations.clear();
    assert_eq!(check_identity(&bad, &meta), Err(UpdateError::NoOperations));
}

#[test]
fn operation_preconditions() {
    let create = op(OperationKind::Create, None, Some("aa"));
    assert_eq!(check_target(&create, true, true), Err(UpdateError::CreateExists));
    assert_eq!(check_target(&create, false, false), Ok(()));
    assert_eq!(expected_base(&create), Ok(None));
    assert!(needs_payload(&create));
    assert_eq!(check_payload(&create, &"aa".to_string()), Ok(()));
    assert_eq!(check_payload(&create, &"bb".to_string()), Err(UpdateError::PayloadMismatch));
    assert_eq!(check_payload(&op(OperationKind::Create, None, None), &"aa".to_string()), Err(UpdateError::CreateMissingNew));
    let replace = op(OperationKind::Replace, Some("b0"), Some("b1"));
    assert_eq!(check_target(&replace, true, false), Err(UpdateError::ReplaceMissing));
    assert_eq!(expected_base(&replace), Ok(Some("b0".to_string())));
    assert_eq!(expected_base(&op(OperationKind::Replace, None, Some("x"))), Err(UpdateError::ReplaceMissingBase));
    assert_eq!(check_drift(&"b0".to_string(), &"zz".to_string()), Err(UpdateError::Drift));
    assert_eq!(check_payload(&replace, &"b2".to_string()), Err(UpdateError::ReplacementMismatch));
    assert_eq!(check_payload(&op(OperationKind::Replace, Some("b0"), None), &"b2".to_string()), Err(UpdateError::ReplaceMissingNew));
    let delete = op(OperationKind::Delete, None, None);
    assert_eq!(check_target(&delete, false, false), Err(UpdateError::DeleteMissing));
    assert_eq!(expected_base(&delete), Err(UpdateError::DeleteMissingBase));
    assert!(!needs_payload(&delete));
    assert_eq!(change_entry_name("game\\clock.gd"), "changes/game/clock.gd");
}
