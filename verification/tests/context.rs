use crimesim_bridge::context::budget::{confirm, pack_summary, plan_export, Budget, Step};
use crimesim_bridge::context::errors::ContextError;
use crimesim_bridge::context::index::{generated_identity_ok, index_hash, GeneratedIdentity};
use crimesim_bridge::context::select::check_output_outside;
use crimesim_bridge::status::same_source_revision;
use crimesim_bridge::validation::ValidationReport;
use crimesim_bridge::context::plan::{Entry, EntryKind, FileRequest, Inventory, Request};
use crimesim_bridge::context::policy::{excluded, safe_path, text_file, PathError, FILE_LIMIT, REQUEST_BUDGET};
use crimesim_bridge::context::registry::{card, defaults, Registry};
use crimesim_bridge::digest::sha256_bytes;
use crimesim_bridge::project::{default_metadata, BridgeProject};

struct Fixture {
    meta: BridgeProject,
    registry: Registry,
    entries: Vec<Entry>,
    files: Vec<(String, Vec<u8>)>,
}

/// What an export captured: the inventory after capture decisions, and the bytes of
/// every file placed in the pack.
struct Export {
    entries: Vec<Entry>,
    captured: Vec<(String, Vec<u8>)>,
}

impl Export {
    fn names(&self) -> Vec<String> {
        self.captured.iter().map(|(p, _)| p.clone()).collect()
    }
    fn bytes(&self, path: &str) -> Vec<u8> {
        self.captured.iter().find(|(p, _)| p == path).unwrap().1.clone()
    }
}

fn fixture_files() -> Vec<(&'static str, Vec<u8>)> {
    let mut files: Vec<(&'static str, Vec<u8>)> = vec![
        ("project.godot", b"config_version=5\n".to_vec()),
        ("game/main.tscn", b"[gd_scene format=3]\n[node name=\"Main\" type=\"Node\"]\n".to_vec()),
        ("game/main.gd", b"extends Node\n".to_vec()),
        ("project_control/bridge_project.json", b"{\"schema\":1}".to_vec()),
        ("AGENTS.md", b"# Criminal Simulation: game source\n".to_vec()),
        ("project_control/UI_THESIS.md", b"# Game thesis\n".to_vec()),
        ("project_control/game_context.json", b"{}".to_vec()),
        ("ui/panel.gd", b"extends Control\n".to_vec()),
        ("simulation/clock.gd", b"extends RefCounted\n".to_vec()),
        ("assets/portrait.png", b"binary-portrait".to_vec()),
        ("assets/portrait.png.import", b"[remap]\n".to_vec()),
    ];
    for id in ["foundation", "ui", "map", "simulation", "data"] {
        let path: &'static str = Box::leak(format!("project_control/modules/{id}.md").into_boxed_str());
        files.push((path, card(id).into_bytes()));
    }
    files
}

const OPTIONAL: [&str; 5] = ["AGENTS.md", "project_control/PROJECT.md", "project_control/CURRENT_STATE.md",
    "project_control/UI_THESIS.md", "game/main.gd"];

impl Fixture {
    fn new() -> Self {
        Self::with(fixture_files())
    }
    fn with(files: Vec<(&'static str, Vec<u8>)>) -> Self {
        Self::build(files).unwrap()
    }
    /// Walks the files as the exporter walks a game: every directory, then the file;
    /// an excluded directory or file is skipped with everything under it.
    fn build(files: Vec<(&'static str, Vec<u8>)>) -> Result<Self, ContextError> {
        let meta = default_metadata();
        let registry = defaults(&meta);
        let mut inv = Inventory::new();
        let mut dirs: Vec<String> = Vec::new();
        'files: for (path, bytes) in &files {
            let parts: Vec<&str> = path.split('/').collect();
            for k in 1..parts.len() {
                let dir = parts[..k].join("/");
                if dirs.contains(&dir) {
                    continue;
                }
                if inv.enter(&dir, false, true, false)? == EntryKind::Excluded {
                    continue 'files;
                }
                dirs.push(dir);
            }
            if inv.enter(path, false, false, true)? == EntryKind::File {
                inv.add_file(path, bytes.len() as u64, sha256_bytes(bytes), &registry)?;
            }
        }
        let files = files.into_iter().map(|(p, b)| (p.to_string(), b)).collect();
        Ok(Fixture { meta, registry, entries: inv.into_entries(), files })
    }
    fn request(&self, id: &str) -> Request {
        Request { module_id: id.into(), task: "Improve the selected game area".into(), file_requests: Vec::new() }
    }
    fn present(&self) -> [bool; 5] {
        let mut present = [false; 5];
        for (k, p) in OPTIONAL.iter().enumerate() {
            present[k] = self.files.iter().any(|(f, _)| f == p);
        }
        present
    }
    fn plan(&self, r: &Request) -> Result<crimesim_bridge::context::budget::ExportPlan, ContextError> {
        plan_export(&self.entries, r, &self.registry, false, &self.meta, &self.present())
    }
    /// Plans and captures an export as the exporter does, reading at most one byte more
    /// than each bound from the fixture's files.
    fn export(&self, r: &Request) -> Result<Export, ContextError> {
        let mut entries = self.entries.clone();
        let plan = self.plan(r)?;
        let mut budget = Budget::new();
        let mut captured = Vec::new();
        for &i in &plan.order {
            let e = &mut entries[i];
            let must = plan.required.contains(&e.path);
            let explicit = plan.requested.contains(&e.path);
            match budget.consider(e, must, explicit, &r.module_id)? {
                Step::Skip => continue,
                Step::Read(limit) => {
                    let all = &self.files.iter().find(|(p, _)| *p == e.path).unwrap().1;
                    let bytes = all[..all.len().min(limit as usize + 1)].to_vec();
                    confirm(e, &bytes, limit, must, explicit)?;
                    captured.push((e.path.clone(), bytes));
                }
            }
        }
        captured.sort_by(|a, b| a.0.cmp(&b.0));
        Ok(Export { entries, captured })
    }
}

#[test]
fn unknown_area_does_not_fall_back_to_entire_project() {
    let f = Fixture::new();
    let r = f.plan(&f.request("typo"));
    assert!(r.is_err());
    assert_eq!(r.err(), Some(ContextError::UnknownArea));
}

#[test]
fn stale_or_missing_requested_file_rejects_whole_export() {
    let f = Fixture::new();
    let mut r = f.request("ui");
    r.file_requests.push(FileRequest { path: "assets/portrait.png".into(), sha256: "0".repeat(64) });
    assert!(f.plan(&r).is_err());
    assert_eq!(f.plan(&r).err(), Some(ContextError::RequestChanged));
    r.file_requests[0].path = "assets/missing.png".into();
    assert!(f.plan(&r).is_err());
    assert_eq!(f.plan(&r).err(), Some(ContextError::RequestMissing));
}

#[test]
fn inventory_is_sorted_by_path_and_owned_by_areas() {
    let f = Fixture::new();
    let paths: Vec<&str> = f.entries.iter().map(|e| e.path.as_str()).collect();
    let mut sorted = paths.clone();
    sorted.sort();
    assert_eq!(paths, sorted);
    let panel = f.entries.iter().find(|e| e.path == "ui/panel.gd").unwrap();
    assert_eq!(panel.module.as_deref(), Some("ui"));
    assert_eq!(panel.reason, "outside_selected_area");
    assert!(!panel.included);
    let agents = f.entries.iter().find(|e| e.path == "AGENTS.md").unwrap();
    assert_eq!(agents.module, None);
}

#[test]
fn case_alias_link_and_special_file_are_refused() {
    let meta = default_metadata();
    let registry = defaults(&meta);
    let mut inv = Inventory::new();
    assert_eq!(inv.enter("ui", false, true, false), Ok(EntryKind::Directory));
    assert_eq!(inv.enter("ui/panel.gd", false, false, true), Ok(EntryKind::File));
    inv.add_file("ui/panel.gd", 3, sha256_bytes(b"abc"), &registry).unwrap();
    assert_eq!(inv.enter("ui/PANEL.gd", false, false, true), Err(ContextError::CaseAlias));
    assert_eq!(inv.enter("ui/link.gd", true, false, true), Err(ContextError::LinkedPath));
    assert_eq!(inv.enter("ui/fifo", false, false, false), Err(ContextError::NonRegular));
    assert_eq!(inv.enter("ui/bad\\name.gd", false, false, true), Err(ContextError::UnsafePath(PathError::NotSafe)));
}

#[test]
fn excluded_names_are_skipped_before_any_other_check() {
    let mut inv = Inventory::new();
    assert_eq!(inv.enter("ui/.env", true, false, false), Ok(EntryKind::Excluded));
    assert_eq!(inv.enter(".godot", false, true, false), Ok(EntryKind::Excluded));
    assert_eq!(inv.enter("ui", false, true, false), Ok(EntryKind::Directory));
}

#[test]
fn selected_plan_orders_required_then_requested_then_rest() {
    let f = Fixture::new();
    let mut r = f.request("ui");
    r.file_requests.push(FileRequest { path: "assets/portrait.png".into(), sha256: sha256_bytes(b"binary-portrait") });
    let plan = f.plan(&r).unwrap();
    assert!(plan.requested.contains(&"assets/portrait.png".to_string()));
    assert!(plan.requested.contains(&"assets/portrait.png.import".to_string()));
    assert!(plan.required.contains(&"project_control/modules/ui.md".to_string()));
    assert!(plan.required.contains(&"project_control/modules/foundation.md".to_string()));
    assert!(plan.required.contains(&"game/main.tscn".to_string()));
    assert!(!plan.required.contains(&"project_control/modules/map.md".to_string()));
    assert_eq!(plan.order.len(), f.entries.len());
    let rank = |i: usize| {
        let p = &f.entries[i].path;
        if plan.required.contains(p) { 0 } else if plan.requested.contains(p) { 1 } else { 2 }
    };
    for w in plan.order.windows(2) {
        assert!((rank(w[0]), w[0]) < (rank(w[1]), w[1]));
    }
}

#[test]
fn invalid_and_duplicate_file_requests_are_rejected() {
    let f = Fixture::new();
    for path in ["../escape", "C:/escape", "/absolute", "ui\\panel.gd", "ui/NUL.txt", "ui/bad:stream", "ui/../x"] {
        let mut r = f.request("ui");
        r.file_requests.push(FileRequest { path: path.into(), sha256: "0".repeat(64) });
        assert!(f.export(&r).is_err(), "{path}");
        assert!(matches!(f.plan(&r), Err(ContextError::UnsafePath(_))), "{path}");
    }
    let mut r = f.request("ui");
    let req = FileRequest { path: "assets/portrait.png".into(), sha256: sha256_bytes(b"binary-portrait") };
    r.file_requests = vec![req.clone(), req];
    assert!(f.export(&r).is_err());
    assert_eq!(f.plan(&r).err(), Some(ContextError::DuplicateOrExcludedRequest));
}

#[test]
fn requests_cannot_bypass_privacy_filter() {
    let mut files = fixture_files();
    files.push(("ui/.env", b"secret".to_vec()));
    let f = Fixture::with(files);
    let mut r = f.request("ui");
    r.file_requests.push(FileRequest { path: "ui/.env".into(), sha256: sha256_bytes(b"secret") });
    assert!(f.export(&r).is_err());
    assert_eq!(f.plan(&r).err(), Some(ContextError::DuplicateOrExcludedRequest));
}

#[test]
fn selected_area_capture_keeps_only_area_and_contracts() {
    let f = Fixture::new();
    let x = f.export(&f.request("ui")).unwrap();
    let n = x.names();
    assert!(n.contains(&"ui/panel.gd".to_string()));
    assert!(!n.contains(&"simulation/clock.gd".to_string()));
    assert!(n.contains(&"project_control/modules/foundation.md".to_string()));
    let p = pack_summary(&x.entries, "out.zip".into(), false, index_hash(&x.entries));
    assert!(p.omitted > 0);
    assert_eq!(p.included, n.len());
}

#[test]
fn exported_bytes_match_every_included_hash() {
    let f = Fixture::new();
    let x = f.export(&f.request("ui")).unwrap();
    for e in &x.entries {
        if e.included {
            let b = x.bytes(&e.path);
            assert_eq!(sha256_bytes(&b), e.sha256);
        }
    }
}

#[test]
fn capture_leaves_the_source_index_unchanged() {
    let f = Fixture::new();
    let before = index_hash(&f.entries);
    let a = f.export(&f.request("ui")).unwrap();
    let b = f.export(&f.request("ui")).unwrap();
    assert_eq!(index_hash(&a.entries), before);
    assert_eq!(index_hash(&b.entries), before);
}

#[test]
fn binary_asset_is_catalog_only_until_requested() {
    let f = Fixture::new();
    let x = f.export(&f.request("data")).unwrap();
    assert!(!x.names().contains(&"assets/portrait.png".to_string()));
    assert!(x.entries.iter().any(|e| e.path == "assets/portrait.png" && e.reason == "asset_available_on_request"));
}

#[test]
fn hash_bound_asset_request_includes_import_companion() {
    let f = Fixture::new();
    let mut r = f.request("ui");
    r.file_requests.push(FileRequest { path: "assets/portrait.png".into(), sha256: sha256_bytes(b"binary-portrait") });
    let x = f.export(&r).unwrap();
    assert_eq!(x.bytes("assets/portrait.png"), b"binary-portrait");
    assert!(x.names().contains(&"assets/portrait.png.import".to_string()));
}

#[test]
fn large_source_is_omitted_whole_never_truncated() {
    let mut files = fixture_files();
    files.push(("ui/large.gd", vec![b'a'; FILE_LIMIT as usize + 1]));
    let f = Fixture::with(files);
    let x = f.export(&f.request("ui")).unwrap();
    assert!(!x.names().contains(&"ui/large.gd".to_string()));
    assert!(x.entries.iter().any(|e| e.path == "ui/large.gd" && e.reason == "text_budget_omitted_complete_file"));
}

#[test]
fn oversized_required_context_rejects_pack() {
    let files: Vec<_> = fixture_files()
        .into_iter()
        .map(|(p, b)| if p == "AGENTS.md" { (p, vec![b'a'; FILE_LIMIT as usize + 1]) } else { (p, b) })
        .collect();
    let f = Fixture::with(files);
    assert!(f.export(&f.request("ui")).is_err());
}

#[test]
fn saves_caches_and_sensitive_filenames_never_enter_inventory() {
    let mut files = fixture_files();
    for p in ["saves/player.json", ".godot/cache", "ui/.env", "ui/credentials.json"] {
        files.push((p, b"do-not-export".to_vec()));
    }
    let f = Fixture::with(files);
    let x = f.export(&f.request("ui")).unwrap();
    let payload_names = x.names();
    for forbidden in ["saves/player.json", ".godot/cache", "ui/.env", "ui/credentials.json"] {
        assert!(!x.entries.iter().any(|e| e.path == forbidden), "Excluded inventory path: {forbidden}");
        assert!(!payload_names.contains(&forbidden.to_string()), "Excluded payload path: {forbidden}");
    }
    assert!(!x.entries.iter().any(|e| e.path.split('/').any(|part| part == ".godot")));
    assert!(x.entries.iter().any(|e| e.path == "project.godot" && e.included));
}

#[test]
fn ordinary_game_secrecy_filename_is_not_a_secret_credential() {
    let mut files = fixture_files();
    files.push(("ui/secretive.gd", b"extends Node\n".to_vec()));
    let f = Fixture::with(files);
    let x = f.export(&f.request("ui")).unwrap();
    assert!(x.names().contains(&"ui/secretive.gd".to_string()));
}

#[test]
fn uid_companions_remain_source() {
    let mut files = fixture_files();
    files.push(("ui/panel.gd.uid", b"uid://fixture".to_vec()));
    let f = Fixture::with(files);
    let x = f.export(&f.request("ui")).unwrap();
    assert!(x.names().contains(&"ui/panel.gd.uid".to_string()));
}

#[test]
fn bridge_registry_cannot_masquerade_as_game_memory() {
    let f = Fixture::new();
    let mut r = defaults(&f.meta);
    r.project_kind = "bridge".into();
    assert!(r.validate(&f.meta.project_id).is_err());
}

#[test]
fn broken_cards_cycles_and_ambiguous_ownership_are_errors() {
    let f = Fixture::new();
    let mut r = defaults(&f.meta);
    r.modules[1].depends_on = vec!["ui".into()];
    assert!(r.validate(&f.meta.project_id).is_err());
    let mut r = defaults(&f.meta);
    r.modules[1].paths.push("game/".into());
    assert!(r.owner("game/main.gd").is_err());
    let files: Vec<_> = fixture_files().into_iter().filter(|(p, _)| *p != "project_control/modules/ui.md").collect();
    let f = Fixture::with(files);
    assert!(f.export(&f.request("ui")).is_err());
}

#[test]
fn task_and_explicit_byte_budgets_are_enforced() {
    let f = Fixture::new();
    let mut r = f.request("ui");
    r.task = "a".repeat(4097);
    assert!(f.export(&r).is_err());
    let asset = vec![3u8; REQUEST_BUDGET as usize + 1];
    let mut files = fixture_files();
    files.push(("assets/large.bin", asset.clone()));
    let f = Fixture::with(files);
    let mut r = f.request("ui");
    r.file_requests.push(FileRequest { path: "assets/large.bin".into(), sha256: sha256_bytes(&asset) });
    assert!(f.export(&r).is_err());
}

#[test]
fn unix_literal_backslash_is_not_reinterpreted_as_a_directory() {
    let mut files = fixture_files();
    files.push(("ui/bad\\name.gd", b"extends Node\n".to_vec()));
    assert!(Fixture::build(files).is_err());
}

#[test]
fn oversized_task_is_refused() {
    let f = Fixture::new();
    let mut r = f.request("ui");
    r.task = "a".repeat(4097);
    assert_eq!(f.plan(&r).err(), Some(ContextError::RequestTooLarge));
    r.task = "a".repeat(4096);
    assert!(f.plan(&r).is_ok());
}

#[test]
fn missing_card_is_refused() {
    let files: Vec<_> = fixture_files().into_iter().filter(|(p, _)| *p != "project_control/modules/ui.md").collect();
    let f = Fixture::with(files);
    assert_eq!(f.plan(&f.request("ui")).err(), Some(ContextError::RequiredMissing));
}

#[test]
fn budget_decisions_follow_the_reading_rules() {
    let mut b = Budget::new();
    let mut e = Entry { path: "assets/portrait.png".into(), bytes: 15, sha256: sha256_bytes(b"binary-portrait"),
        module: Some("data".into()), included: false, reason: "outside_selected_area".into() };
    assert_eq!(b.consider(&mut e, false, false, "data"), Ok(Step::Skip));
    assert_eq!(e.reason, "asset_available_on_request");
    let mut e = Entry { path: "simulation/clock.gd".into(), bytes: 10, sha256: String::new(),
        module: Some("simulation".into()), included: false, reason: "outside_selected_area".into() };
    assert_eq!(b.consider(&mut e, false, false, "ui"), Ok(Step::Skip));
    assert_eq!(e.reason, "outside_selected_area");
    let mut e = Entry { path: "notes.txt".into(), bytes: 10, sha256: String::new(), module: None,
        included: false, reason: "outside_selected_area".into() };
    assert_eq!(b.consider(&mut e, false, false, "ui"), Ok(Step::Skip));
    assert_eq!(e.reason, "unregistered_source");
    let mut e = Entry { path: "ui/large.gd".into(), bytes: FILE_LIMIT + 1, sha256: String::new(),
        module: Some("ui".into()), included: false, reason: "outside_selected_area".into() };
    assert_eq!(b.consider(&mut e, false, false, "ui"), Ok(Step::Skip));
    assert_eq!(e.reason, "text_budget_omitted_complete_file");
    let mut e = Entry { path: "AGENTS.md".into(), bytes: FILE_LIMIT + 1, sha256: String::new(), module: None,
        included: false, reason: "outside_selected_area".into() };
    assert_eq!(b.consider(&mut e, true, false, "ui"), Err(ContextError::RequiredOverBudget));
    let mut e = Entry { path: "assets/large.bin".into(), bytes: REQUEST_BUDGET + 1, sha256: String::new(),
        module: None, included: false, reason: "outside_selected_area".into() };
    assert_eq!(b.consider(&mut e, false, true, "ui"), Err(ContextError::RequestBudget));
    let mut e = Entry { path: "ui/panel.gd".into(), bytes: 16, sha256: sha256_bytes(b"extends Control\n"),
        module: Some("ui".into()), included: false, reason: "outside_selected_area".into() };
    assert_eq!(b.consider(&mut e, false, false, "ui"), Ok(Step::Read(FILE_LIMIT)));
    assert_eq!(confirm(&mut e, b"extends Control\n", FILE_LIMIT, false, false), Ok(()));
    assert!(e.included);
    assert_eq!(e.reason, "selected_area_source");
}

#[test]
fn changed_or_binary_bytes_are_refused_at_capture() {
    let mut e = Entry { path: "ui/panel.gd".into(), bytes: 16, sha256: sha256_bytes(b"extends Control\n"),
        module: Some("ui".into()), included: false, reason: "outside_selected_area".into() };
    assert_eq!(confirm(&mut e, b"extends Control!", FILE_LIMIT, false, false), Err(ContextError::SourceChanged));
    assert!(!e.included);
    let bad = vec![0xffu8, 0xfe];
    let mut e = Entry { path: "ui/odd.gd".into(), bytes: 2, sha256: sha256_bytes(&bad), module: Some("ui".into()),
        included: false, reason: "outside_selected_area".into() };
    assert_eq!(confirm(&mut e, &bad, FILE_LIMIT, false, false), Err(ContextError::NotUtf8));
    assert_eq!(confirm(&mut e, &bad, FILE_LIMIT, false, true), Ok(()));
    assert_eq!(e.reason, "explicit_hash_bound_request");
    assert_eq!(confirm(&mut e, &bad, 1, false, true), Err(ContextError::ReadBound));
}

#[test]
fn pack_counts_included_and_omitted_files() {
    let mut f = Fixture::new();
    f.entries[0].included = true;
    f.entries[2].included = true;
    let p = pack_summary(&f.entries, "out.zip".into(), true, "abc".into());
    assert_eq!(p.included, 2);
    assert_eq!(p.omitted, f.entries.len() - 2);
    assert_eq!(p.memory_origin, "read_only_legacy_routes");
}

#[test]
fn index_hash_is_sha256_of_json_rows() {
    let e = Entry { path: "a".into(), bytes: 1, sha256: "x".into(), module: None, included: false, reason: String::new() };
    let h = index_hash(&vec![e]);
    assert_eq!(h, sha256_bytes(br#"[["a",1,"x"]]"#));
    assert_eq!(index_hash(&Vec::new()), sha256_bytes(b"[]"));
}

#[test]
fn policy_examples() {
    assert!(excluded("ui/.env"));
    assert!(excluded("saves/player.json"));
    assert!(excluded(".godot/cache"));
    assert!(excluded("ui/credentials.json"));
    assert!(!excluded("ui/secretive.gd"));
    assert!(text_file("ui/panel.gd.uid"));
    assert!(!text_file("assets/portrait.png"));
    assert!(safe_path("game/main.gd").is_ok());
    assert_eq!(safe_path("ui/NUL.txt"), Err(PathError::ReservedName));
}

fn parts(p: &str) -> Vec<String> {
    p.split('/').map(String::from).collect()
}

#[test]
fn cannot_export_inside_source() {
    let source = parts("/tmp/bridge/source");
    assert_eq!(check_output_outside(&source, &parts("/tmp/bridge/source/out")), Err(ContextError::OutputInsideSource));
    assert_eq!(check_output_outside(&source, &parts("/tmp/bridge/source")), Err(ContextError::OutputInsideSource));
    assert_eq!(check_output_outside(&source, &parts("/tmp/bridge/out")), Ok(()));
    assert_eq!(check_output_outside(&source, &parts("/tmp/bridge/source-alias/new-folder")), Ok(()));
    assert_eq!(check_output_outside(&source, &parts("/tmp/bridge")), Ok(()));
}

#[test]
fn failed_candidate_report_is_not_presented_as_current_health() {
    let f = Fixture::new();
    let report = ValidationReport { passed: false, revision: 99, created_at: "fixture".into(), steps: vec![],
        errors: vec!["candidate failed".into()] };
    assert!(!same_source_revision(&report, &f.meta));
    assert!(!report.passed);
    let current = ValidationReport { passed: true, revision: f.meta.revision, created_at: "fixture".into(), steps: vec![],
        errors: vec![] };
    assert!(same_source_revision(&current, &f.meta));
}

#[test]
fn generated_archive_acceptance_checks_actual_payloads() {
    let f = Fixture::new();
    let fingerprint = index_hash(&f.entries);
    let x = f.export(&f.request("ui")).unwrap();
    let identity = GeneratedIdentity { schema: Some(2), project_kind: Some("game".into()),
        project_id: Some(f.meta.project_id.clone()), revision: Some(f.meta.revision), module_id: Some("ui".into()) };
    assert!(generated_identity_ok(&identity, &f.meta, "ui"));
    assert!(!generated_identity_ok(&identity, &f.meta, "simulation"));
    assert_eq!(index_hash(&x.entries), fingerprint);
    for e in x.entries.iter().filter(|e| e.included) {
        let b = x.bytes(&e.path);
        assert_eq!(b.len() as u64, e.bytes);
        assert_eq!(sha256_bytes(&b), e.sha256);
    }
}

#[test]
fn dependency_errors_follow_the_visit_order() {
    let meta = default_metadata();
    let ids: Vec<String> = defaults(&meta).modules.iter().map(|m| m.id.clone()).collect();
    assert_eq!(ids, vec!["foundation", "ui", "map", "simulation", "data"]);
    let mut r = defaults(&meta);
    r.modules[1].depends_on = vec!["map".into()];
    r.modules[2].depends_on = vec!["ui".into()];
    r.modules[4].depends_on = vec!["zzz".into()];
    assert_eq!(r.validate(&meta.project_id), Err(ContextError::CyclicDependency));
    let mut r = defaults(&meta);
    r.modules[1].depends_on = vec!["data".into()];
    r.modules[4].depends_on = vec!["zzz".into()];
    assert_eq!(r.validate(&meta.project_id), Err(ContextError::UnknownArea));
    let mut r = defaults(&meta);
    r.modules[0].depends_on = vec!["zzz".into()];
    r.modules[1].depends_on = vec!["ui".into()];
    assert_eq!(r.validate(&meta.project_id), Err(ContextError::UnknownDependency));
    assert_eq!(defaults(&meta).validate(&meta.project_id), Ok(()));
}

#[test]
fn handoff_names_the_game_area_and_counts() {
    let meta = default_metadata();
    let r = Request { module_id: "ui".into(), task: "t".into(), file_requests: Vec::new() };
    let text = crimesim_bridge::context::handoff::start_here(&meta, &r, true, 3, 12);
    assert!(text.starts_with("# Criminal Simulation game handoff\n"));
    assert!(text.contains("Project: Criminal Simulation. Source revision: 0. Area: ui.\nMemory origin: read_only_legacy_routes.\n3 source files included; 12 eligible files omitted.\n\n1. Read task.json"));
    assert!(text.ends_with("Update concise game memory with deliberate design changes.\n"));
}
