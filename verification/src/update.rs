//! Incoming update packages: the manifest, safe relative paths, the identity checks
//! against the current game, and each file operation's preconditions. The caller
//! reads the archive and the files; every decision is made here.
use vstd::prelude::*;
use vstd::string::StringExecFns;
use crate::context::policy::{contains_char, split_chars, split_on, views};
use crate::project::BridgeProject;
use crate::text::{chars_of, push_char, lowercase, starts_with, to_lowercase, vec_eq_str, vec_starts_with};
use crate::validation::{trim, trim_chars};

verus! {

#[derive(Debug, Clone, Copy, PartialEq, Eq, Structural)]
pub enum OperationKind {
    Create,
    Replace,
    Delete,
}

#[derive(Debug, Clone)]
pub struct FileOperation {
    pub op: OperationKind,
    pub path: String,
    pub base_sha256: Option<String>,
    pub new_sha256: Option<String>,
}

#[derive(Debug, Clone)]
pub struct UpdateManifest {
    pub schema: u32,
    pub package_type: String,
    pub project_id: String,
    pub engine_version: String,
    pub base_revision: u64,
    pub target_revision: u64,
    pub created_at: String,
    pub summary: String,
    pub operations: Vec<FileOperation>,
}

/// Why an update is refused.
#[derive(Debug, Clone, Copy, PartialEq, Eq, Structural)]
pub enum UpdateError {
    UnsafeOrEmptyPath,
    UnsafePath,
    ManagedPath,
    BridgeMetadata,
    UnsupportedSchema,
    ProjectMismatch,
    EngineMismatch,
    BaseRevisionMismatch,
    TargetRevision,
    NoOperations,
    CreateExists,
    CreateMissingNew,
    PayloadMismatch,
    ReplaceMissing,
    ReplaceMissingBase,
    ReplaceMissingNew,
    ReplacementMismatch,
    DeleteMissing,
    DeleteMissingBase,
    Drift,
}

impl UpdateError {
    /// The text that `message` gives for this error.
    pub open spec fn message_text(self) -> Seq<char> {
        match self {
            UpdateError::UnsafeOrEmptyPath => "Unsafe or empty path"@,
            UpdateError::UnsafePath => "Unsafe path"@,
            UpdateError::ManagedPath => "Path is Bridge-managed or generated"@,
            UpdateError::BridgeMetadata => "bridge_project.json is Bridge-owned metadata"@,
            UpdateError::UnsupportedSchema => "Unsupported or invalid update package schema"@,
            UpdateError::ProjectMismatch => "Update is for a different project than the current one"@,
            UpdateError::EngineMismatch => "Engine version mismatch between package and project"@,
            UpdateError::BaseRevisionMismatch => "Base revision mismatch"@,
            UpdateError::TargetRevision => "Target revision must be exactly current revision + 1"@,
            UpdateError::NoOperations => "Update contains no file operations"@,
            UpdateError::CreateExists => "Create target already exists"@,
            UpdateError::CreateMissingNew => "Create missing new_sha256"@,
            UpdateError::PayloadMismatch => "Payload hash mismatch"@,
            UpdateError::ReplaceMissing => "Replace target missing"@,
            UpdateError::ReplaceMissingBase => "Replace missing base_sha256"@,
            UpdateError::ReplaceMissingNew => "Replace missing new_sha256"@,
            UpdateError::ReplacementMismatch => "Replacement payload hash mismatch"@,
            UpdateError::DeleteMissing => "Delete target missing"@,
            UpdateError::DeleteMissingBase => "Delete missing base_sha256"@,
            UpdateError::Drift => "Current file drift detected"@,
        }
    }

    pub fn message(&self) -> (s: &'static str)
        ensures
            s@ == self.message_text(),
    {
        match self {
            UpdateError::UnsafeOrEmptyPath => "Unsafe or empty path",
            UpdateError::UnsafePath => "Unsafe path",
            UpdateError::ManagedPath => "Path is Bridge-managed or generated",
            UpdateError::BridgeMetadata => "bridge_project.json is Bridge-owned metadata",
            UpdateError::UnsupportedSchema => "Unsupported or invalid update package schema",
            UpdateError::ProjectMismatch => "Update is for a different project than the current one",
            UpdateError::EngineMismatch => "Engine version mismatch between package and project",
            UpdateError::BaseRevisionMismatch => "Base revision mismatch",
            UpdateError::TargetRevision => "Target revision must be exactly current revision + 1",
            UpdateError::NoOperations => "Update contains no file operations",
            UpdateError::CreateExists => "Create target already exists",
            UpdateError::CreateMissingNew => "Create missing new_sha256",
            UpdateError::PayloadMismatch => "Payload hash mismatch",
            UpdateError::ReplaceMissing => "Replace target missing",
            UpdateError::ReplaceMissingBase => "Replace missing base_sha256",
            UpdateError::ReplaceMissingNew => "Replace missing new_sha256",
            UpdateError::ReplacementMismatch => "Replacement payload hash mismatch",
            UpdateError::DeleteMissing => "Delete target missing",
            UpdateError::DeleteMissingBase => "Delete missing base_sha256",
            UpdateError::Drift => "Current file drift detected",
        }
    }
}

/// The normal components of a relative path, `\` separating them as `/` does on
/// Windows: `Path::components` drops empty parts and `.` parts after the first.
pub open spec fn normal_parts(input: Seq<char>) -> Seq<Seq<char>> {
    split_on(slashes(input), '/').filter(|p: Seq<char>| p.len() > 0 && p != seq!['.'])
}

/// Parts joined by `/`, as `PathBuf::push` of relative parts does.
pub open spec fn join(parts: Seq<Seq<char>>) -> Seq<char>
    decreases parts.len(),
{
    if parts.len() == 0 {
        Seq::empty()
    } else if parts.len() == 1 {
        parts[0]
    } else {
        join(parts.drop_last()) + seq!['/'] + parts.last()
    }
}

/// `s` with every `\` turned into `/`.
pub open spec fn slashes(s: Seq<char>) -> Seq<char> {
    s.map_values(|c: char| if c == '\\' { '/' } else { c })
}

/// The clean relative path an update names.
pub open spec fn clean_path(input: Seq<char>) -> Seq<char> {
    join(normal_parts(input))
}

/// Generated or Bridge-managed locations, compared lower-cased.
pub open spec fn managed(lower: Seq<char>) -> bool {
    ||| lower == ".git"@
    ||| lower == ".godot"@
    ||| starts_with(lower, ".git/"@)
    ||| starts_with(lower, ".godot/"@)
    ||| lower == "build"@
    ||| lower == "history"@
    ||| lower == "runtime"@
    ||| lower == "logs"@
    ||| starts_with(lower, "build/"@)
    ||| starts_with(lower, "builds/"@)
    ||| starts_with(lower, "history/"@)
    ||| starts_with(lower, "runtime/"@)
    ||| starts_with(lower, "logs/"@)
    ||| starts_with(lower, "workspace/"@)
}

/// Why `input` is not a path an update may write. `\` separates components as `/`
/// does (as on Windows): a path starting at a separator is absolute, and a `:` (a drive
/// or stream prefix) is refused anywhere, as is a `.` first component or any `..`.
pub open spec fn path_error(input: Seq<char>) -> Option<UpdateError> {
    let s = slashes(input);
    let parts = split_on(s, '/');
    if (s.len() > 0 && s[0] == '/') || trim(input).len() == 0 {
        Some(UpdateError::UnsafeOrEmptyPath)
    } else if input.contains(':') || parts[0] == seq!['.'] || parts.contains(seq!['.', '.']) {
        Some(UpdateError::UnsafePath)
    } else {
        let lower = lowercase(slashes(clean_path(input)));
        if managed(lower) {
            Some(UpdateError::ManagedPath)
        } else if lower == "project_control/bridge_project.json"@ {
            Some(UpdateError::BridgeMetadata)
        } else {
            None
        }
    }
}

fn is_dot(p: &Vec<char>) -> (b: bool)
    ensures
        b == (p@ == seq!['.']),
{
    if p.len() == 1 && p[0] == '.' {
        proof {
            assert(p@ =~= seq!['.']);
        }
        true
    } else {
        false
    }
}

fn is_dot_dot(p: &Vec<char>) -> (b: bool)
    ensures
        b == (p@ == seq!['.', '.']),
{
    if p.len() == 2 && p[0] == '.' && p[1] == '.' {
        proof {
            assert(p@ =~= seq!['.', '.']);
        }
        true
    } else {
        false
    }
}

proof fn lemma_filter_push(s: Seq<Seq<char>>, x: Seq<char>)
    ensures
        s.push(x).filter(|p: Seq<char>| p.len() > 0 && p != seq!['.']) == if x.len() > 0 && x != seq!['.'] {
            s.filter(|p: Seq<char>| p.len() > 0 && p != seq!['.']).push(x)
        } else {
            s.filter(|p: Seq<char>| p.len() > 0 && p != seq!['.'])
        },
{
    let f = |p: Seq<char>| p.len() > 0 && p != seq!['.'];
    assert(s.push(x).drop_last() =~= s);
    s.lemma_filter_push(x, f);
}

/// A safe relative path for an update operation: relative, not blank, without `.`
/// or `..` components, outside generated and Bridge-managed locations, and never the
/// Bridge metadata file. Returns the clean path.
pub fn normalize_relative(input: &str) -> (r: Result<String, UpdateError>)
    ensures
        match path_error(input@) {
            Some(e) => r == Err::<String, UpdateError>(e),
            None => r matches Ok(p) && p@ == clean_path(input@),
        },
{
    let raw = chars_of(input);
    let t = trim_chars(&raw);
    let mut v: Vec<char> = Vec::new();
    let mut q: usize = 0;
    while q < raw.len()
        invariant
            q <= raw@.len(),
            raw@ == input@,
            v@ == slashes(raw@).take(q as int),
        decreases raw@.len() - q,
    {
        v.push(if raw[q] == '\\' { '/' } else { raw[q] });
        proof {
            assert(slashes(raw@).take(q + 1) =~= slashes(raw@).take(q as int).push(slashes(raw@)[q as int]));
        }
        q = q + 1;
    }
    proof {
        assert(slashes(raw@).take(q as int) =~= slashes(raw@));
    }
    if (v.len() > 0 && v[0] == '/') || t.len() == 0 {
        return Err(UpdateError::UnsafeOrEmptyPath);
    }
    if contains_char(&raw, ':') {
        return Err(UpdateError::UnsafePath);
    }
    let parts = split_chars(&v, '/');
    proof {
        crate::context::policy::lemma_split_nonempty(v@, '/');
    }
    proof {
        assert(views(parts@)[0] == parts@[0]@);
    }
    if is_dot(&parts[0]) {
        return Err(UpdateError::UnsafePath);
    }
    let mut clean: Vec<char> = Vec::new();
    let mut count: usize = 0;
    let mut i: usize = 0;
    while i < parts.len()
        invariant
            i <= parts@.len(),
            views(parts@) == split_on(slashes(input@), '/'),
            v@ == slashes(input@),
            !(v@.len() > 0 && v@[0] == '/'),
            trim(input@).len() != 0,
            !input@.contains(':'),
            split_on(slashes(input@), '/')[0] != seq!['.'],
            forall|k: int| 0 <= k < i ==> views(parts@)[k] != seq!['.', '.'],
            normal_parts(input@) == views(parts@).filter(|p: Seq<char>| p.len() > 0 && p != seq!['.']),
            count == views(parts@).take(i as int).filter(|p: Seq<char>| p.len() > 0 && p != seq!['.']).len(),
            clean@ == join(views(parts@).take(i as int).filter(|p: Seq<char>| p.len() > 0 && p != seq!['.'])),
        decreases parts@.len() - i,
    {
        let p = &parts[i];
        proof {
            assert(views(parts@)[i as int] == p@);
            lemma_filter_push(views(parts@).take(i as int), p@);
            assert(views(parts@).take(i + 1) =~= views(parts@).take(i as int).push(p@));
        }
        if is_dot_dot(p) {
            proof {
                assert(split_on(slashes(input@), '/').contains(seq!['.', '.']));
            }
            return Err(UpdateError::UnsafePath);
        }
        if p.len() > 0 && !is_dot(p) {
            let ghost before = views(parts@).take(i as int).filter(|q: Seq<char>| q.len() > 0 && q != seq!['.']);
            if count > 0 {
                clean.push('/');
            }
            let mut j: usize = 0;
            let ghost base = clean@;
            while j < p.len()
                invariant
                    j <= p@.len(),
                    clean@ == base + p@.take(j as int),
                decreases p@.len() - j,
            {
                clean.push(p[j]);
                proof {
                    assert(p@.take(j + 1) =~= p@.take(j as int).push(p@[j as int]));
                }
                j = j + 1;
            }
            proof {
                assert(p@.take(j as int) =~= p@);
                let after = before.push(p@);
                assert(after.drop_last() =~= before);
                if count == 0 {
                    assert(before.len() == 0);
                    assert(clean@ =~= join(after));
                } else {
                    assert(clean@ =~= join(before) + seq!['/'] + p@);
                }
            }
            count = count + 1;
        }
        i = i + 1;
    }
    proof {
        assert(views(parts@).take(i as int) =~= views(parts@));
        assert(!split_on(slashes(input@), '/').contains(seq!['.', '.']));
        assert(clean@ == clean_path(input@));
    }
    let mut shown = String::new();
    let mut k: usize = 0;
    while k < clean.len()
        invariant
            k <= clean@.len(),
            shown@ == slashes(clean@).take(k as int),
        decreases clean@.len() - k,
    {
        let c = clean[k];
        push_char(&mut shown, if c == '\\' { '/' } else { c });
        proof {
            assert(slashes(clean@).take(k + 1) =~= slashes(clean@).take(k as int).push(slashes(clean@)[k as int]));
        }
        k = k + 1;
    }
    proof {
        assert(slashes(clean@).take(k as int) =~= slashes(clean@));
    }
    let lower = chars_of(to_lowercase(shown.as_str()).as_str());
    if vec_eq_str(&lower, ".git") || vec_eq_str(&lower, ".godot") || vec_starts_with(&lower, ".git/")
        || vec_starts_with(&lower, ".godot/") || vec_eq_str(&lower, "build")
        || vec_eq_str(&lower, "history") || vec_eq_str(&lower, "runtime") || vec_eq_str(&lower, "logs")
        || vec_starts_with(&lower, "build/") || vec_starts_with(&lower, "builds/") || vec_starts_with(&lower, "history/")
        || vec_starts_with(&lower, "runtime/") || vec_starts_with(&lower, "logs/") || vec_starts_with(
        &lower,
        "workspace/",
    ) {
        return Err(UpdateError::ManagedPath);
    }
    if vec_eq_str(&lower, "project_control/bridge_project.json") {
        return Err(UpdateError::BridgeMetadata);
    }
    let mut out = String::new();
    let mut m: usize = 0;
    while m < clean.len()
        invariant
            m <= clean@.len(),
            out@ == clean@.take(m as int),
        decreases clean@.len() - m,
    {
        push_char(&mut out, clean[m]);
        proof {
            assert(clean@.take(m + 1) =~= clean@.take(m as int).push(clean@[m as int]));
        }
        m = m + 1;
    }
    proof {
        assert(clean@.take(m as int) =~= clean@);
    }
    Ok(out)
}

/// Every path an update may write is relative and clean: it does not start at a
/// separator (`/` or `\`), holds no `:`, none of its components is empty, `.` or `..`,
/// and lower-cased it is neither a generated or Bridge-managed location nor the Bridge
/// metadata file.
pub proof fn law_accepted_path_is_clean(input: Seq<char>)
    requires
        path_error(input) is None,
    ensures
        !(slashes(input).len() > 0 && slashes(input)[0] == '/'),
        !input.contains(':'),
        forall|i: int|
            0 <= i < normal_parts(input).len() ==> {
                let p = #[trigger] normal_parts(input)[i];
                p.len() > 0 && p != seq!['.'] && p != seq!['.', '.']
            },
        !managed(lowercase(slashes(clean_path(input)))),
        lowercase(slashes(clean_path(input))) != "project_control/bridge_project.json"@,
{
    let parts = split_on(slashes(input), '/');
    let f = |p: Seq<char>| p.len() > 0 && p != seq!['.'];
    assert forall|i: int| 0 <= i < normal_parts(input).len() implies {
        let p = #[trigger] normal_parts(input)[i];
        p.len() > 0 && p != seq!['.'] && p != seq!['.', '.']
    } by {
        parts.lemma_filter_pred(f, i);
        let p = normal_parts(input)[i];
        assert(parts.filter(f).contains(p));
        parts.lemma_filter_contains_rev(f, p);
    }
}

/// Only schema 1 update packages are read.
pub fn check_header(m: &UpdateManifest) -> (r: Result<(), UpdateError>)
    ensures
        r is Ok <==> m.schema == 1 && m.package_type@ == "update"@,
        r is Err ==> r == Err::<(), UpdateError>(UpdateError::UnsupportedSchema),
{
    if m.schema != 1 || m.package_type != String::from_str("update") {
        return Err(UpdateError::UnsupportedSchema);
    }
    Ok(())
}

/// Why a manifest does not apply to the current game: another project, another
/// engine version, another base revision, a target that is not the next revision,
/// or no operations.
pub open spec fn identity_error(m: UpdateManifest, current: BridgeProject) -> Option<UpdateError> {
    if m.project_id@ != current.project_id@ {
        Some(UpdateError::ProjectMismatch)
    } else if m.engine_version@ != current.engine_version@ {
        Some(UpdateError::EngineMismatch)
    } else if m.base_revision != current.revision {
        Some(UpdateError::BaseRevisionMismatch)
    } else if m.target_revision != current.revision + 1 {
        Some(UpdateError::TargetRevision)
    } else if m.operations@.len() == 0 {
        Some(UpdateError::NoOperations)
    } else {
        None
    }
}

/// Checks that an update was made for exactly this game and revision.
pub fn check_identity(m: &UpdateManifest, current: &BridgeProject) -> (r: Result<(), UpdateError>)
    ensures
        match identity_error(*m, *current) {
            Some(e) => r == Err::<(), UpdateError>(e),
            None => r is Ok,
        },
{
    if m.project_id != current.project_id {
        return Err(UpdateError::ProjectMismatch);
    }
    if m.engine_version != current.engine_version {
        return Err(UpdateError::EngineMismatch);
    }
    if m.base_revision != current.revision {
        return Err(UpdateError::BaseRevisionMismatch);
    }
    if current.revision == u64::MAX || m.target_revision != current.revision + 1 {
        return Err(UpdateError::TargetRevision);
    }
    if m.operations.len() == 0 {
        return Err(UpdateError::NoOperations);
    }
    Ok(())
}

/// The live target of an operation: a creation must not overwrite, a replacement or
/// deletion needs an existing regular file.
pub fn check_target(op: &FileOperation, exists: bool, is_file: bool) -> (r: Result<(), UpdateError>)
    ensures
        r == match op.op {
            OperationKind::Create => if exists {
                Err::<(), UpdateError>(UpdateError::CreateExists)
            } else {
                Ok(())
            },
            OperationKind::Replace => if !is_file {
                Err(UpdateError::ReplaceMissing)
            } else {
                Ok(())
            },
            OperationKind::Delete => if !is_file {
                Err(UpdateError::DeleteMissing)
            } else {
                Ok(())
            },
        },
{
    match op.op {
        OperationKind::Create => if exists {
            Err(UpdateError::CreateExists)
        } else {
            Ok(())
        },
        OperationKind::Replace => if !is_file {
            Err(UpdateError::ReplaceMissing)
        } else {
            Ok(())
        },
        OperationKind::Delete => if !is_file {
            Err(UpdateError::DeleteMissing)
        } else {
            Ok(())
        },
    }
}

/// The hash the live file must have before the operation: none for a creation; a
/// replacement or deletion must name one.
pub fn expected_base(op: &FileOperation) -> (r: Result<Option<String>, UpdateError>)
    ensures
        op.op == OperationKind::Create ==> r == Ok::<Option<String>, UpdateError>(None),
        op.op != OperationKind::Create && op.base_sha256 is None ==> r == Err::<Option<String>, UpdateError>(
            if op.op == OperationKind::Replace {
                UpdateError::ReplaceMissingBase
            } else {
                UpdateError::DeleteMissingBase
            },
        ),
        op.op != OperationKind::Create && op.base_sha256 is Some ==> (r matches Ok(Some(b)) && b@
            == op.base_sha256->0@),
{
    match op.op {
        OperationKind::Create => Ok(None),
        OperationKind::Replace => match &op.base_sha256 {
            None => Err(UpdateError::ReplaceMissingBase),
            Some(b) => Ok(Some(b.clone())),
        },
        OperationKind::Delete => match &op.base_sha256 {
            None => Err(UpdateError::DeleteMissingBase),
            Some(b) => Ok(Some(b.clone())),
        },
    }
}

/// The live file still has the hash the update was made against.
pub fn check_drift(expected: &String, actual: &String) -> (r: Result<(), UpdateError>)
    ensures
        r is Ok <==> expected@ == actual@,
        r is Err ==> r == Err::<(), UpdateError>(UpdateError::Drift),
{
    if *actual != *expected {
        Err(UpdateError::Drift)
    } else {
        Ok(())
    }
}

/// Whether an operation carries new bytes in the package.
pub fn needs_payload(op: &FileOperation) -> (b: bool)
    ensures
        b == (op.op != OperationKind::Delete),
{
    match op.op {
        OperationKind::Delete => false,
        _ => true,
    }
}

/// The packaged bytes, hashed as `payload_sha256`, are the ones the manifest names.
pub fn check_payload(op: &FileOperation, payload_sha256: &String) -> (r: Result<(), UpdateError>)
    requires
        op.op != OperationKind::Delete,
    ensures
        op.new_sha256 is None ==> r == Err::<(), UpdateError>(
            if op.op == OperationKind::Create {
                UpdateError::CreateMissingNew
            } else {
                UpdateError::ReplaceMissingNew
            },
        ),
        op.new_sha256 matches Some(n) ==> if n@ == payload_sha256@ {
            r is Ok
        } else {
            r == Err::<(), UpdateError>(
                if op.op == OperationKind::Create {
                    UpdateError::PayloadMismatch
                } else {
                    UpdateError::ReplacementMismatch
                },
            )
        },
{
    let create = match op.op {
        OperationKind::Create => true,
        _ => false,
    };
    match &op.new_sha256 {
        None => if create {
            Err(UpdateError::CreateMissingNew)
        } else {
            Err(UpdateError::ReplaceMissingNew)
        },
        Some(n) => if *payload_sha256 != *n {
            if create {
                Err(UpdateError::PayloadMismatch)
            } else {
                Err(UpdateError::ReplacementMismatch)
            }
        } else {
            Ok(())
        },
    }
}

/// The archive entry holding an operation's new bytes.
pub fn change_entry_name(relative: &str) -> (s: String)
    ensures
        s@ == "changes/"@ + slashes(relative@),
{
    let mut s = String::from_str("changes/");
    let v = chars_of(relative);
    let ghost base = s@;
    let mut i: usize = 0;
    while i < v.len()
        invariant
            i <= v@.len(),
            v@ == relative@,
            base == "changes/"@,
            s@ == base + slashes(v@).take(i as int),
        decreases v@.len() - i,
    {
        let c = v[i];
        push_char(&mut s, if c == '\\' { '/' } else { c });
        proof {
            assert(slashes(v@).take(i + 1) =~= slashes(v@).take(i as int).push(slashes(v@)[i as int]));
        }
        i = i + 1;
    }
    proof {
        assert(slashes(v@).take(i as int) =~= slashes(v@));
    }
    s
}

} // verus!
