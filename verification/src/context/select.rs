//! What a context pack must carry (startup files and the selected area's cards),
//! what it was explicitly asked for (hash-bound requests and their Godot companions),
//! and the order in which files are considered for capture.
use vstd::prelude::*;
use vstd::string::StringExecFns;
use crate::context::errors::ContextError;
use crate::context::plan::{has_path, Entry, Request};
use crate::context::policy::{excluded, safe_path, spec_excluded, spec_path_error};
use crate::context::registry::{byte_len, is_module_id, Module, Registry};
use crate::project::BridgeProject;
use crate::text::{chars_of, push_str, starts_with, string_of, vec_starts_with};

verus! {

/// The set of texts held by a list of strings.
pub open spec fn path_set(v: Seq<String>) -> Set<Seq<char>> {
    Set::new(|p: Seq<char>| exists|i: int| 0 <= i < v.len() && #[trigger] v[i]@ == p)
}

pub open spec fn distinct_strings(v: Seq<String>) -> bool {
    forall|i: int, j: int| 0 <= i < j < v.len() ==> v[i]@ != v[j]@
}

/// Whether `v` holds the text of `p`.
pub fn contains_string(v: &Vec<String>, p: &String) -> (b: bool)
    ensures
        b == path_set(v@).contains(p@),
{
    let mut i: usize = 0;
    while i < v.len()
        invariant
            i <= v@.len(),
            forall|k: int| 0 <= k < i ==> v@[k]@ != p@,
        decreases v@.len() - i,
    {
        if v[i] == *p {
            proof {
                assert(path_set(v@).contains(p@));
            }
            return true;
        }
        i = i + 1;
    }
    false
}

/// `path` lies at or under `root`, comparing path components in order, as
/// `Path::starts_with` does.
pub open spec fn under_root(root: Seq<String>, path: Seq<String>) -> bool {
    &&& root.len() <= path.len()
    &&& forall|k: int| 0 <= k < root.len() ==> #[trigger] path[k]@ == root[k]@
}

/// A context pack is never written at or under the game source: given the components
/// of the source root and of an output location, refuses the output when it lies under
/// the root.
pub fn check_output_outside(root: &Vec<String>, output: &Vec<String>) -> (r: Result<(), ContextError>)
    ensures
        under_root(root@, output@) ==> r == Err::<(), ContextError>(ContextError::OutputInsideSource),
        !under_root(root@, output@) ==> r is Ok,
{
    if root.len() > output.len() {
        return Ok(());
    }
    let mut i: usize = 0;
    while i < root.len()
        invariant
            i <= root@.len(),
            root@.len() <= output@.len(),
            forall|k: int| 0 <= k < i ==> #[trigger] output@[k]@ == root@[k]@,
        decreases root@.len() - i,
    {
        if !(output[i] == root[i]) {
            return Ok(());
        }
        i = i + 1;
    }
    Err(ContextError::OutputInsideSource)
}

/// Adds `p` to a list of distinct strings unless it is already there.
pub fn insert_string(v: &mut Vec<String>, p: String)
    requires
        distinct_strings(old(v)@),
    ensures
        distinct_strings(final(v)@),
        path_set(final(v)@) == path_set(old(v)@).insert(p@),
{
    if !contains_string(v, &p) {
        let ghost before = v@;
        let ghost pv = p@;
        v.push(p);
        proof {
            assert(v@ == before.push(p));
            assert forall|q: Seq<char>| #[trigger] path_set(v@).contains(q) == path_set(before).insert(pv).contains(q) by {
                if path_set(before).contains(q) {
                    let k = choose|k: int| 0 <= k < before.len() && before[k]@ == q;
                    assert(v@[k]@ == q);
                }
                if q == pv {
                    assert(v@[before.len() as int]@ == q);
                }
                if path_set(v@).contains(q) {
                    let k = choose|k: int| 0 <= k < v@.len() && v@[k]@ == q;
                    if k < before.len() {
                        assert(before[k]@ == q);
                    }
                }
            }
            assert(path_set(v@) =~= path_set(before).insert(pv));
        }
    } else {
        proof {
            assert(path_set(v@) =~= path_set(v@).insert(p@));
        }
    }
}

/// `str::len`: the length in bytes.
pub open spec fn request_too_large(r: Request) -> bool {
    byte_len(r.task@) > 4096 || r.file_requests@.len() > 16
}

/// A task of at most 4096 bytes and at most 16 file requests.
pub fn check_request(request: &Request) -> (r: Result<(), ContextError>)
    ensures
        request_too_large(*request) ==> r == Err::<(), ContextError>(ContextError::RequestTooLarge),
        !request_too_large(*request) ==> r is Ok,
{
    if request.task.as_str().len() > 4096 || request.file_requests.len() > 16 {
        Err(ContextError::RequestTooLarge)
    } else {
        Ok(())
    }
}

/// The first entry with path `p`.
pub open spec fn first_with_path(es: Seq<Entry>, p: Seq<char>) -> int {
    choose|i: int| 0 <= i < es.len() && es[i].path@ == p && forall|j: int| 0 <= j < i ==> #[trigger] es[j].path@ != p
}

proof fn lemma_first_with_path(es: Seq<Entry>, p: Seq<char>, i: int)
    requires
        0 <= i < es.len(),
        es[i].path@ == p,
        forall|j: int| 0 <= j < i ==> #[trigger] es[j].path@ != p,
    ensures
        first_with_path(es, p) == i,
{
    let k = first_with_path(es, p);
    assert(0 <= k < es.len() && es[k].path@ == p && forall|j: int| 0 <= j < k ==> #[trigger] es[j].path@ != p);
    if k < i {
        assert(es[k].path@ != p);
    }
    if i < k {
        assert(es[i].path@ != p);
    }
}

/// The position of the first entry named `p`, if any.
pub fn find_entry(entries: &Vec<Entry>, p: &String) -> (r: Option<usize>)
    ensures
        match r {
            Some(i) => i < entries@.len() && entries@[i as int].path@ == p@ && first_with_path(entries@, p@) == i,
            None => !has_path(entries@, p@),
        },
{
    let mut i: usize = 0;
    while i < entries.len()
        invariant
            i <= entries@.len(),
            forall|k: int| 0 <= k < i ==> #[trigger] entries@[k].path@ != p@,
        decreases entries@.len() - i,
    {
        if entries[i].path == *p {
            proof {
                lemma_first_with_path(entries@, p@, i as int);
            }
            return Some(i);
        }
        i = i + 1;
    }
    None
}

/// Why the request at position `i` is refused, given that those before it were accepted.
#[verifier::opaque]
pub open spec fn request_entry_error(es: Seq<Entry>, reqs: Seq<crate::context::plan::FileRequest>, i: int) -> Option<
    ContextError,
> {
    let r = reqs[i];
    match spec_path_error(r.path@) {
        Some(e) => Some(ContextError::UnsafePath(e)),
        None => if spec_excluded(r.path@) || exists|j: int| 0 <= j < i && #[trigger] reqs[j].path@ == r.path@ {
            Some(ContextError::DuplicateOrExcludedRequest)
        } else if !has_path(es, r.path@) {
            Some(ContextError::RequestMissing)
        } else if byte_len(r.sha256@) != 64 || r.sha256@ != es[first_with_path(es, r.path@)].sha256@ {
            Some(ContextError::RequestChanged)
        } else {
            None
        },
    }
}

/// The first refusal among the first `n` requests.
pub open spec fn requests_error(es: Seq<Entry>, reqs: Seq<crate::context::plan::FileRequest>, n: int) -> Option<
    ContextError,
>
    decreases n,
{
    if n <= 0 {
        None
    } else {
        match requests_error(es, reqs, n - 1) {
            Some(e) => Some(e),
            None => request_entry_error(es, reqs, n - 1),
        }
    }
}

/// `q` is the requested path `p` or one of its companions present in the inventory.
pub open spec fn companion_of(es: Seq<Entry>, p: Seq<char>, q: Seq<char>) -> bool {
    q == p || (q == p + ".uid"@ && has_path(es, q)) || (q == p + ".import"@ && has_path(es, q))
}

/// What the first `k` requests bring into the pack.
pub open spec fn requested_prefix(es: Seq<Entry>, reqs: Seq<crate::context::plan::FileRequest>, k: int) -> Set<
    Seq<char>,
> {
    Set::new(|q: Seq<char>| exists|m: int| 0 <= m < k && #[trigger] companion_of(es, reqs[m].path@, q))
}

/// The requested paths, and each one's `.uid` and `.import` companion where the
/// inventory holds it.
pub open spec fn requested_set(es: Seq<Entry>, reqs: Seq<crate::context::plan::FileRequest>) -> Set<Seq<char>> {
    requested_prefix(es, reqs, reqs.len() as int)
}

proof fn lemma_requests_error_stable(
    es: Seq<Entry>,
    reqs: Seq<crate::context::plan::FileRequest>,
    n: int,
    m: int,
)
    requires
        0 <= n <= m,
        requests_error(es, reqs, n) is Some,
    ensures
        requests_error(es, reqs, m) == requests_error(es, reqs, n),
    decreases m - n,
{
    if n < m {
        lemma_requests_error_stable(es, reqs, n, m - 1);
    }
}

proof fn lemma_requested_step(
    es: Seq<Entry>,
    reqs: Seq<crate::context::plan::FileRequest>,
    k: int,
    with_uid: bool,
    with_import: bool,
)
    requires
        0 <= k < reqs.len(),
        with_uid == has_path(es, reqs[k].path@ + ".uid"@),
        with_import == has_path(es, reqs[k].path@ + ".import"@),
    ensures
        requested_prefix(es, reqs, k + 1) == ({
            let p = reqs[k].path@;
            let a = requested_prefix(es, reqs, k).insert(p);
            let b = if with_uid { a.insert(p + ".uid"@) } else { a };
            if with_import { b.insert(p + ".import"@) } else { b }
        }),
{
    let p = reqs[k].path@;
    let a = requested_prefix(es, reqs, k).insert(p);
    let b = if with_uid { a.insert(p + ".uid"@) } else { a };
    let c = if with_import { b.insert(p + ".import"@) } else { b };
    assert forall|q: Seq<char>| #[trigger] requested_prefix(es, reqs, k + 1).contains(q) == c.contains(q) by {
        if requested_prefix(es, reqs, k + 1).contains(q) {
            let m = choose|m: int| 0 <= m < k + 1 && #[trigger] companion_of(es, reqs[m].path@, q);
            if m < k {
                assert(requested_prefix(es, reqs, k).contains(q));
            }
        }
        if requested_prefix(es, reqs, k).contains(q) {
            let m = choose|m: int| 0 <= m < k && #[trigger] companion_of(es, reqs[m].path@, q);
            assert(companion_of(es, reqs[m].path@, q));
        }
        if q == p || (with_uid && q == p + ".uid"@) || (with_import && q == p + ".import"@) {
            assert(companion_of(es, reqs[k].path@, q));
        }
    }
    assert(requested_prefix(es, reqs, k + 1) =~= c);
}

/// The refusal, if any, of request `i`, given the paths accepted before it.
fn check_one(entries: &Vec<Entry>, request: &Request, i: usize, direct: &Vec<String>) -> (r: Result<(), ContextError>)
    requires
        i < request.file_requests@.len(),
        direct@.len() == i,
        forall|k: int| 0 <= k < i ==> #[trigger] direct@[k]@ == request.file_requests@[k].path@,
    ensures
        match request_entry_error(entries@, request.file_requests@, i as int) {
            Some(e) => r == Err::<(), ContextError>(e),
            None => r is Ok,
        },
{
    let reqs = &request.file_requests;
    let r = &reqs[i];
    proof {
        reveal(request_entry_error);
    }
    match safe_path(r.path.as_str()) {
        Err(e) => return Err(ContextError::UnsafePath(e)),
        Ok(()) => {},
    }
    let dup = contains_string(direct, &r.path);
    proof {
        if dup {
            let k = choose|k: int| 0 <= k < direct@.len() && direct@[k]@ == r.path@;
            assert(reqs@[k].path@ == r.path@);
        }
        if exists|j: int| 0 <= j < i && #[trigger] reqs@[j].path@ == r.path@ {
            let j = choose|j: int| 0 <= j < i && #[trigger] reqs@[j].path@ == r.path@;
            assert(direct@[j]@ == r.path@);
            assert(path_set(direct@).contains(r.path@));
        }
    }
    if excluded(r.path.as_str()) || dup {
        return Err(ContextError::DuplicateOrExcludedRequest);
    }
    let idx = match find_entry(entries, &r.path) {
        None => return Err(ContextError::RequestMissing),
        Some(k) => k,
    };
    if r.sha256.as_str().len() != 64 || r.sha256 != entries[idx].sha256 {
        return Err(ContextError::RequestChanged);
    }
    Ok(())
}

/// Checks every file request against the inventory: a canonical, non-excluded path
/// requested once, present, and with the SHA-256 it has now. Then adds companions.
pub fn resolve_requests(entries: &Vec<Entry>, request: &Request) -> (r: Result<Vec<String>, ContextError>)
    ensures
        match requests_error(entries@, request.file_requests@, request.file_requests@.len() as int) {
            Some(e) => r == Err::<Vec<String>, ContextError>(e),
            None => r is Ok,
        },
        r matches Ok(v) ==> distinct_strings(v@) && path_set(v@) == requested_set(entries@, request.file_requests@),
{
    let reqs = &request.file_requests;
    let ghost rs = request.file_requests@;
    let mut direct: Vec<String> = Vec::new();
    let mut i: usize = 0;
    while i < reqs.len()
        invariant
            i <= reqs@.len(),
            reqs@ == rs,
            rs == request.file_requests@,
            requests_error(entries@, reqs@, i as int) is None,
            direct@.len() == i,
            forall|k: int| 0 <= k < i ==> #[trigger] direct@[k]@ == reqs@[k].path@,
        decreases reqs@.len() - i,
    {
        match check_one(entries, request, i, &direct) {
            Err(e) => {
                proof {
                    assert(requests_error(entries@, reqs@, i + 1) == request_entry_error(entries@, reqs@, i as int));
                    lemma_requests_error_stable(entries@, reqs@, i + 1, reqs@.len() as int);
                }
                return Err(e);
            },
            Ok(()) => {},
        }
        direct.push(reqs[i].path.clone());
        i = i + 1;
    }
    let mut out: Vec<String> = Vec::new();
    let mut k: usize = 0;
    proof {
        assert(path_set(out@) =~= requested_prefix(entries@, reqs@, 0));
    }
    while k < direct.len()
        invariant
            k <= direct@.len(),
            reqs@ == request.file_requests@,
            direct@.len() == reqs@.len(),
            forall|m: int| 0 <= m < direct@.len() ==> #[trigger] direct@[m]@ == reqs@[m].path@,
            distinct_strings(out@),
            path_set(out@) == requested_prefix(entries@, reqs@, k as int),
        decreases direct@.len() - k,
    {
        let p = direct[k].clone();
        insert_string(&mut out, p.clone());
        let mut uid = p.clone();
        push_str(&mut uid, ".uid");
        let has_uid = find_entry(entries, &uid).is_some();
        if has_uid {
            insert_string(&mut out, uid);
        }
        let mut imp = p.clone();
        push_str(&mut imp, ".import");
        let has_imp = find_entry(entries, &imp).is_some();
        if has_imp {
            insert_string(&mut out, imp);
        }
        proof {
            assert(p@ == reqs@[k as int].path@);
            lemma_requested_step(entries@, reqs@, k as int, has_uid, has_imp);
        }
        k = k + 1;
    }
    Ok(out)
}

/// The first module whose id is `id`.
pub open spec fn first_module(ms: Seq<Module>, id: Seq<char>) -> int {
    choose|i: int| 0 <= i < ms.len() && ms[i].id@ == id && forall|j: int| 0 <= j < i ==> #[trigger] ms[j].id@ != id
}

proof fn lemma_first_module(ms: Seq<Module>, id: Seq<char>, i: int)
    requires
        0 <= i < ms.len(),
        ms[i].id@ == id,
        forall|j: int| 0 <= j < i ==> #[trigger] ms[j].id@ != id,
    ensures
        first_module(ms, id) == i,
{
    let k = first_module(ms, id);
    assert(0 <= k < ms.len() && ms[k].id@ == id && forall|j: int| 0 <= j < k ==> #[trigger] ms[j].id@ != id);
    if k < i {
        assert(ms[k].id@ != id);
    }
    if i < k {
        assert(ms[i].id@ != id);
    }
}

/// The game-relative main scene: `main_scene` without its `res://` scheme.
pub open spec fn main_path(meta: BridgeProject) -> Seq<char> {
    meta.main_scene@.skip(6)
}

/// Startup documents a pack carries when the game has them.
pub open spec fn optional_context() -> Seq<Seq<char>> {
    seq![
        "AGENTS.md"@,
        "project_control/PROJECT.md"@,
        "project_control/CURRENT_STATE.md"@,
        "project_control/UI_THESIS.md"@,
        "game/main.gd"@,
    ]
}

/// Why the required file list cannot be formed.
pub open spec fn required_error(meta: BridgeProject, r: Registry, legacy: bool, module_id: Seq<char>) -> Option<
    ContextError,
> {
    let ms = r.modules@;
    if !starts_with(meta.main_scene@, "res://"@) {
        Some(ContextError::MainSceneNotResource)
    } else {
        match spec_path_error(main_path(meta)) {
            Some(e) => Some(ContextError::UnsafePath(e)),
            None => if legacy {
                None
            } else if !is_module_id(ms, module_id) {
                Some(ContextError::UnknownArea)
            } else if exists|k: int|
                0 <= k < ms[first_module(ms, module_id)].depends_on@.len() && !is_module_id(
                    ms,
                    #[trigger] ms[first_module(ms, module_id)].depends_on@[k]@,
                ) {
                Some(ContextError::UnknownArea)
            } else {
                None
            },
        }
    }
}

/// The card of the module a dependency id names.
pub open spec fn dep_card(ms: Seq<Module>, d: Seq<char>) -> Seq<char> {
    ms[first_module(ms, d)].card@
}

/// Files every pack must carry: project file, Bridge metadata, main scene, the optional
/// startup documents present, and for a registry game the registry, the selected card
/// and its dependencies' cards.
pub open spec fn required_set(
    meta: BridgeProject,
    r: Registry,
    legacy: bool,
    module_id: Seq<char>,
    present: Seq<bool>,
) -> Set<Seq<char>> {
    let ms = r.modules@;
    let m = ms[first_module(ms, module_id)];
    Set::new(
        |p: Seq<char>|
            p == "project.godot"@ || p == "project_control/bridge_project.json"@ || p == main_path(meta) || (
            exists|k: int| 0 <= k < 5 && present[k] && #[trigger] optional_context()[k] == p) || (!legacy && (p
                == "project_control/game_context.json"@ || p == m.card@ || exists|k: int|
                0 <= k < m.depends_on@.len() && p == dep_card(ms, #[trigger] m.depends_on@[k]@))),
    )
}

/// The cards of the first `k` dependencies.
pub open spec fn dep_cards(ms: Seq<Module>, deps: Seq<String>, k: int) -> Set<Seq<char>> {
    Set::new(|p: Seq<char>| exists|j: int| 0 <= j < k && p == dep_card(ms, #[trigger] deps[j]@))
}

proof fn lemma_dep_cards_step(ms: Seq<Module>, deps: Seq<String>, k: int)
    requires
        0 <= k < deps.len(),
    ensures
        dep_cards(ms, deps, k + 1) == dep_cards(ms, deps, k).insert(dep_card(ms, deps[k]@)),
{
    assert forall|p: Seq<char>| #[trigger] dep_cards(ms, deps, k + 1).contains(p) == dep_cards(ms, deps, k).insert(
        dep_card(ms, deps[k]@),
    ).contains(p) by {
        if dep_cards(ms, deps, k + 1).contains(p) {
            let j = choose|j: int| 0 <= j < k + 1 && p == dep_card(ms, #[trigger] deps[j]@);
            if j < k {
                assert(dep_cards(ms, deps, k).contains(p));
            }
        }
        if dep_cards(ms, deps, k).contains(p) {
            let j = choose|j: int| 0 <= j < k && p == dep_card(ms, #[trigger] deps[j]@);
            assert(0 <= j < k + 1);
        }
    }
    assert(dep_cards(ms, deps, k + 1) =~= dep_cards(ms, deps, k).insert(dep_card(ms, deps[k]@)));
}

/// The files that must be in the pack, from metadata, the registry and which optional
/// startup documents exist (`present`, in the order of `optional_context`).
pub fn required_files(
    meta: &BridgeProject,
    registry: &Registry,
    legacy: bool,
    module_id: &str,
    present: &[bool; 5],
) -> (r: Result<Vec<String>, ContextError>)
    ensures
        match required_error(*meta, *registry, legacy, module_id@) {
            Some(e) => r == Err::<Vec<String>, ContextError>(e),
            None => r is Ok,
        },
        r matches Ok(v) ==> distinct_strings(v@) && path_set(v@) == required_set(
            *meta,
            *registry,
            legacy,
            module_id@,
            present@,
        ),
{
    let scene = chars_of(meta.main_scene.as_str());
    if !vec_starts_with(&scene, "res://") {
        return Err(ContextError::MainSceneNotResource);
    }
    proof {
        reveal_strlit("res://");
    }
    let main = string_of(&scene, 6, scene.len());
    proof {
        assert(main@ =~= main_path(*meta));
    }
    match safe_path(main.as_str()) {
        Err(e) => return Err(ContextError::UnsafePath(e)),
        Ok(()) => {},
    }
    let mut files: Vec<String> = Vec::new();
    insert_string(&mut files, String::from_str("project.godot"));
    insert_string(&mut files, String::from_str("project_control/bridge_project.json"));
    insert_string(&mut files, main);
    if present[0] {
        insert_string(&mut files, String::from_str("AGENTS.md"));
    }
    if present[1] {
        insert_string(&mut files, String::from_str("project_control/PROJECT.md"));
    }
    if present[2] {
        insert_string(&mut files, String::from_str("project_control/CURRENT_STATE.md"));
    }
    if present[3] {
        insert_string(&mut files, String::from_str("project_control/UI_THESIS.md"));
    }
    if present[4] {
        insert_string(&mut files, String::from_str("game/main.gd"));
    }
    let ghost base = path_set(files@);
    proof {
        let target = required_set(*meta, *registry, true, module_id@, present@);
        assert forall|p: Seq<char>| #[trigger] base.contains(p) == target.contains(p) by {
            if target.contains(p) && exists|k: int| 0 <= k < 5 && present@[k] && #[trigger] optional_context()[k] == p {
                let k = choose|k: int| 0 <= k < 5 && present@[k] && #[trigger] optional_context()[k] == p;
                assert(k == 0 || k == 1 || k == 2 || k == 3 || k == 4);
            }
            if base.contains(p) {
                if p == "AGENTS.md"@ {
                    assert(optional_context()[0] == p);
                } else if p == "project_control/PROJECT.md"@ {
                    assert(optional_context()[1] == p);
                } else if p == "project_control/CURRENT_STATE.md"@ {
                    assert(optional_context()[2] == p);
                } else if p == "project_control/UI_THESIS.md"@ {
                    assert(optional_context()[3] == p);
                } else if p == "game/main.gd"@ {
                    assert(optional_context()[4] == p);
                }
            }
        }
        assert(base =~= target);
    }
    if legacy {
        return Ok(files);
    }
    insert_string(&mut files, String::from_str("project_control/game_context.json"));
    let mi = match registry.module(module_id) {
        Err(e) => return Err(e),
        Ok(i) => i,
    };
    let ghost ms = registry.modules@;
    proof {
        lemma_first_module(ms, module_id@, mi as int);
    }
    let m = &registry.modules[mi];
    proof {
        assert(is_module_id(ms, module_id@));
    }
    insert_string(&mut files, m.card.clone());
    let ghost with_card = path_set(files@);
    let mut k: usize = 0;
    proof {
        assert(with_card.union(dep_cards(ms, m.depends_on@, 0)) =~= with_card);
    }
    while k < m.depends_on.len()
        invariant
            k <= m.depends_on@.len(),
            ms == registry.modules@,
            starts_with(meta.main_scene@, "res://"@),
            spec_path_error(main_path(*meta)) is None,
            !legacy,
            is_module_id(ms, module_id@),
            0 <= first_module(ms, module_id@) < ms.len(),
            *m == ms[first_module(ms, module_id@)],
            distinct_strings(files@),
            path_set(files@) == with_card.union(dep_cards(ms, m.depends_on@, k as int)),
            forall|j: int| 0 <= j < k ==> is_module_id(ms, #[trigger] m.depends_on@[j]@),
        decreases m.depends_on@.len() - k,
    {
        let di = match registry.module(m.depends_on[k].as_str()) {
            Err(e) => {
                proof {
                    assert(!is_module_id(ms, m.depends_on@[k as int]@));
                    assert(exists|j: int|
                        0 <= j < ms[first_module(ms, module_id@)].depends_on@.len() && !is_module_id(
                            ms,
                            #[trigger] ms[first_module(ms, module_id@)].depends_on@[j]@,
                        ));
                }
                return Err(e);
            },
            Ok(i) => i,
        };
        proof {
            lemma_first_module(ms, m.depends_on@[k as int]@, di as int);
        }
        insert_string(&mut files, registry.modules[di].card.clone());
        proof {
            lemma_dep_cards_step(ms, m.depends_on@, k as int);
            assert(path_set(files@) =~= with_card.union(dep_cards(ms, m.depends_on@, k + 1)));
        }
        k = k + 1;
    }
    proof {
        let target = required_set(*meta, *registry, false, module_id@, present@);
        assert forall|p: Seq<char>| #[trigger] path_set(files@).contains(p) == target.contains(p) by {
            if base.contains(p) {
                assert(required_set(*meta, *registry, true, module_id@, present@).contains(p));
            }
            if target.contains(p) && !(p == "project_control/game_context.json"@ || p == m.card@ || exists|j: int|
                0 <= j < m.depends_on@.len() && p == dep_card(ms, #[trigger] m.depends_on@[j]@)) {
                assert(required_set(*meta, *registry, true, module_id@, present@).contains(p));
            }
        }
        assert(path_set(files@) =~= target);
        assert(!(exists|j: int|
            0 <= j < m.depends_on@.len() && !is_module_id(ms, #[trigger] m.depends_on@[j]@)));
    }
    Ok(files)
}

} // verus!
