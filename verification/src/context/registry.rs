//! The game-authored module registry: areas, owned paths, cards and dependencies.
use vstd::prelude::*;
use vstd::string::StringExecFns;
use crate::context::errors::ContextError;
use crate::context::policy::{excluded, safe_path, spec_excluded, spec_path_error};
use crate::project::BridgeProject;
use crate::validation::string_views;
use crate::text::{chars_of, char_is_white, ends_with, is_digit, is_white, push_str, starts_with, string_of, vec_ends_with, vec_starts_with};

verus! {

pub const REGISTRY_PATH: &'static str = "project_control/game_context.json";

#[derive(Debug, Clone)]
pub struct Module {
    pub id: String,
    pub title: String,
    pub paths: Vec<String>,
    pub card: String,
    pub depends_on: Vec<String>,
}

#[derive(Debug, Clone)]
pub struct Registry {
    pub schema: u32,
    pub project_kind: String,
    pub project_id: String,
    pub modules: Vec<Module>,
}

pub open spec fn id_char_ok(c: char) -> bool {
    ('a' <= c && c <= 'z') || is_digit(c) || c == '-'
}

/// 1 to 48 of lower-case ASCII letters, digits and `-`.
pub open spec fn id_ok(id: Seq<char>) -> bool {
    &&& 0 < id.len() <= 48
    &&& forall|i: int| 0 <= i < id.len() ==> #[trigger] id_char_ok(id[i])
}

pub open spec fn all_white(s: Seq<char>) -> bool {
    forall|i: int| 0 <= i < s.len() ==> #[trigger] is_white(s[i])
}

pub open spec fn byte_len(s: Seq<char>) -> usize {
    vstd::utf8::encode_utf8(s).len() as usize
}

pub open spec fn module_limits_ok(ms: Seq<Module>, i: int) -> bool {
    let m = ms[i];
    &&& id_ok(m.id@)
    &&& !(exists|j: int| 0 <= j < i && #[trigger] ms[j].id@ == m.id@)
    &&& !all_white(m.title@)
    &&& byte_len(m.title@) <= 100
    &&& m.paths@.len() <= 32
    &&& m.depends_on@.len() <= 32
}

/// `s` without its trailing `/` characters.
pub open spec fn trim_slash(s: Seq<char>) -> Seq<char>
    decreases s.len(),
{
    if s.len() > 0 && s.last() == '/' {
        trim_slash(s.drop_last())
    } else {
        s
    }
}

/// The first error among owned path prefixes, in order.
pub open spec fn prefixes_error(paths: Seq<String>) -> Option<ContextError>
    decreases paths.len(),
{
    if paths.len() == 0 {
        None
    } else {
        match prefixes_error(paths.drop_last()) {
            Some(e) => Some(e),
            None => match spec_path_error(trim_slash(paths.last()@)) {
                Some(e) => Some(ContextError::UnsafePath(e)),
                None => if spec_excluded(paths.last()@) {
                    Some(ContextError::OwnershipExcluded)
                } else {
                    None
                },
            },
        }
    }
}

pub open spec fn module_error(ms: Seq<Module>, i: int) -> Option<ContextError> {
    if !module_limits_ok(ms, i) {
        Some(ContextError::InvalidModule)
    } else {
        match spec_path_error(ms[i].card@) {
            Some(e) => Some(ContextError::UnsafePath(e)),
            None => if spec_excluded(ms[i].card@) {
                Some(ContextError::CardExcluded)
            } else {
                prefixes_error(ms[i].paths@)
            },
        }
    }
}

/// The first module error among the first `k` modules.
pub open spec fn modules_error(ms: Seq<Module>, k: int) -> Option<ContextError>
    decreases k,
{
    if k <= 0 {
        None
    } else {
        match modules_error(ms, k - 1) {
            Some(e) => Some(e),
            None => module_error(ms, k - 1),
        }
    }
}

pub open spec fn is_module_id(ms: Seq<Module>, d: Seq<char>) -> bool {
    exists|j: int| 0 <= j < ms.len() && #[trigger] ms[j].id@ == d
}

pub open spec fn deps_known(ms: Seq<Module>) -> bool {
    forall|i: int, k: int|
        0 <= i < ms.len() && 0 <= k < ms[i].depends_on@.len() ==> is_module_id(
            ms,
            #[trigger] ms[i].depends_on@[k]@,
        )
}

/// Some ranking of areas puts every dependency strictly below its dependent: no area
/// depends on itself through any chain.
pub open spec fn acyclic(ms: Seq<Module>) -> bool {
    exists|rank: spec_fn(Seq<char>) -> int| ranks_deps(ms, rank)
}

pub open spec fn ranks_deps(ms: Seq<Module>, rank: spec_fn(Seq<char>) -> int) -> bool {
    forall|i: int, k: int|
        0 <= i < ms.len() && 0 <= k < ms[i].depends_on@.len() ==> rank(#[trigger] ms[i].depends_on@[k]@)
            < rank(ms[i].id@)
}

/// The first reason a registry is refused for the game `project_id`, if any.
pub open spec fn registry_error(r: Registry, project_id: Seq<char>) -> Option<ContextError> {
    let ms = r.modules@;
    if r.schema != 1 || r.project_kind@ != "game"@ || r.project_id@ != project_id {
        Some(ContextError::IdentityMismatch)
    } else if ms.len() == 0 || ms.len() > 32 {
        Some(ContextError::ModuleCount)
    } else if modules_error(ms, ms.len() as int) is Some {
        modules_error(ms, ms.len() as int)
    } else if visit_error(ms, ms.len() as int) is Some {
        visit_error(ms, ms.len() as int)
    } else if !deps_known(ms) || !acyclic(ms) {
        Some(ContextError::CyclicDependency)
    } else {
        None
    }
}

/// `j` is the first area named `id`.
pub open spec fn first_with_id(ms: Seq<Module>, id: Seq<char>, j: int) -> bool {
    &&& 0 <= j < ms.len()
    &&& ms[j].id@ == id
    &&& forall|x: int| 0 <= x < j ==> ms[x].id@ != id
}

/// The dependencies of the first area named `id`, when there is one.
pub open spec fn deps_of(ms: Seq<Module>, id: Seq<char>) -> Option<Seq<String>> {
    if exists|j: int| first_with_id(ms, id, j) {
        Some(ms[choose|j: int| first_with_id(ms, id, j)].depends_on@)
    } else {
        None
    }
}

/// A depth-first visit of the area `id`, with the areas on the current path in `stack`
/// and the areas already finished in `done`: the first error met (an area reached again
/// on its own path is a cycle; a name that is no area is unknown) and the finished
/// areas afterwards.
pub open spec fn dfs_visit(ms: Seq<Module>, id: Seq<char>, stack: Seq<Seq<char>>, done: Seq<Seq<char>>) -> (
    Option<ContextError>,
    Seq<Seq<char>>,
)
    decreases ms.len() - stack.len(), 0int,
{
    if done.contains(id) {
        (None, done)
    } else if stack.contains(id) {
        (Some(ContextError::CyclicDependency), done)
    } else {
        match deps_of(ms, id) {
            None => (Some(ContextError::UnknownArea), done),
            Some(deps) => if stack.len() >= ms.len() {
                (None, done)
            } else {
                let (e, after) = dfs_deps(ms, deps, 0, stack.push(id), done);
                match e {
                    Some(x) => (Some(x), after),
                    None => (None, after.push(id)),
                }
            },
        }
    }
}

/// The visits of `deps[k..]` in order, stopping at the first error.
pub open spec fn dfs_deps(
    ms: Seq<Module>,
    deps: Seq<String>,
    k: int,
    stack: Seq<Seq<char>>,
    done: Seq<Seq<char>>,
) -> (Option<ContextError>, Seq<Seq<char>>)
    decreases ms.len() - stack.len(), deps.len() - k,
{
    if k < 0 || k >= deps.len() {
        (None, done)
    } else {
        let (e, after) = dfs_visit(ms, deps[k]@, stack, done);
        match e {
            Some(x) => (Some(x), after),
            None => dfs_deps(ms, deps, k + 1, stack, after),
        }
    }
}

/// Whether area `i` names a dependency that is no area.
pub open spec fn has_unknown_dep(ms: Seq<Module>, i: int) -> bool {
    exists|k: int| 0 <= k < ms[i].depends_on@.len() && !is_module_id(ms, #[trigger] ms[i].depends_on@[k]@)
}

/// The dependency check of the first `i` areas, in order: each area's own dependencies
/// must be areas, then a fresh depth-first visit from it must meet no cycle and no
/// unknown area. The first error met.
pub open spec fn visit_error(ms: Seq<Module>, i: int) -> Option<ContextError>
    decreases i,
{
    if i <= 0 {
        None
    } else {
        match visit_error(ms, i - 1) {
            Some(e) => Some(e),
            None => if has_unknown_dep(ms, i - 1) {
                Some(ContextError::UnknownDependency)
            } else {
                dfs_visit(ms, ms[i - 1].id@, Seq::empty(), Seq::empty()).0
            },
        }
    }
}

pub proof fn lemma_visit_error_prefix(ms: Seq<Module>, k: int, n: int)
    requires
        0 <= k <= n,
        visit_error(ms, k) is Some,
    ensures
        visit_error(ms, n) == visit_error(ms, k),
    decreases n - k,
{
    if k < n {
        lemma_visit_error_prefix(ms, k, n - 1);
    }
}

/// Whether `v` holds a string equal to `id`.
fn has_name(v: &Vec<String>, id: &String) -> (b: bool)
    ensures
        b == string_views(v@).contains(id@),
{
    let mut i: usize = 0;
    while i < v.len()
        invariant
            i <= v@.len(),
            forall|k: int| 0 <= k < i ==> v@[k]@ != id@,
        decreases v@.len() - i,
    {
        if v[i] == *id {
            proof {
                assert(string_views(v@)[i as int] == id@);
            }
            return true;
        }
        i = i + 1;
    }
    proof {
        if string_views(v@).contains(id@) {
            let k = choose|k: int| 0 <= k < string_views(v@).len() && string_views(v@)[k] == id@;
            assert(v@[k]@ == id@);
        }
    }
    false
}

proof fn lemma_first_with_id(ms: Seq<Module>, id: Seq<char>, j: int)
    requires
        first_with_id(ms, id, j),
    ensures
        deps_of(ms, id) == Some(ms[j].depends_on@),
{
    let c = choose|x: int| first_with_id(ms, id, x);
    assert(first_with_id(ms, id, c));
    if c < j {
        assert(ms[c].id@ != id);
    } else if j < c {
        assert(ms[j].id@ != id);
    }
}

/// The depth-first visit of `dfs_visit`.
fn visit(ms: &Vec<Module>, id: &String, stack: &mut Vec<String>, done: &mut Vec<String>) -> (r: Option<ContextError>)
    ensures
        final(stack)@ == old(stack)@,
        (r, string_views(final(done)@)) == dfs_visit(ms@, id@, string_views(old(stack)@), string_views(old(done)@)),
    decreases ms@.len() - old(stack)@.len(), 0int,
{
    if has_name(done, id) {
        return None;
    }
    if has_name(stack, id) {
        return Some(ContextError::CyclicDependency);
    }
    let n = ms.len();
    let j = match find_id(ms, n, id) {
        None => {
            proof {
                assert(!exists|j: int| first_with_id(ms@, id@, j));
            }
            return Some(ContextError::UnknownArea);
        },
        Some(j) => j,
    };
    proof {
        lemma_first_with_id(ms@, id@, j as int);
    }
    if stack.len() >= n {
        return None;
    }
    let ghost s0 = stack@;
    stack.push(id.clone());
    proof {
        assert(string_views(stack@) =~= string_views(s0).push(id@));
    }
    let e = visit_deps(ms, &ms[j].depends_on, 0, stack, done);
    stack.pop();
    proof {
        assert(stack@ =~= s0);
    }
    match e {
        Some(x) => Some(x),
        None => {
            let ghost d0 = done@;
            done.push(id.clone());
            proof {
                assert(string_views(done@) =~= string_views(d0).push(id@));
            }
            None
        },
    }
}

/// The visits of `deps[k..]` of `dfs_deps`.
fn visit_deps(ms: &Vec<Module>, deps: &Vec<String>, k: usize, stack: &mut Vec<String>, done: &mut Vec<String>) -> (r: Option<
    ContextError,
>)
    requires
        old(stack)@.len() <= ms@.len(),
    ensures
        final(stack)@ == old(stack)@,
        (r, string_views(final(done)@)) == dfs_deps(
            ms@,
            deps@,
            k as int,
            string_views(old(stack)@),
            string_views(old(done)@),
        ),
    decreases ms@.len() - old(stack)@.len(), deps@.len() - k,
{
    if k >= deps.len() {
        return None;
    }
    let e = visit(ms, &deps[k], stack, done);
    match e {
        Some(x) => Some(x),
        None => visit_deps(ms, deps, k + 1, stack, done),
    }
}

/// Whether every dependency of area `i` is an area.
fn deps_are_areas(ms: &Vec<Module>, i: usize) -> (b: bool)
    requires
        i < ms@.len(),
    ensures
        b == !has_unknown_dep(ms@, i as int),
{
    let deps = &ms[i].depends_on;
    let mut k: usize = 0;
    while k < deps.len()
        invariant
            i < ms@.len(),
            *deps == ms@[i as int].depends_on,
            k <= deps@.len(),
            forall|x: int| 0 <= x < k ==> is_module_id(ms@, #[trigger] deps@[x]@),
        decreases deps@.len() - k,
    {
        match find_id(ms, ms.len(), &deps[k]) {
            None => {
                proof {
                    assert(!is_module_id(ms@, deps@[k as int]@));
                }
                return false;
            },
            Some(v) => {
                proof {
                    assert(ms@[v as int].id@ == deps@[k as int]@);
                }
            },
        }
        k = k + 1;
    }
    true
}

pub proof fn lemma_modules_error_prefix(ms: Seq<Module>, k: int, n: int)
    requires
        0 <= k <= n,
        modules_error(ms, k) is Some,
    ensures
        modules_error(ms, n) == modules_error(ms, k),
    decreases n - k,
{
    if k < n {
        lemma_modules_error_prefix(ms, k, n - 1);
    }
}

pub proof fn lemma_prefixes_error_prefix(paths: Seq<String>, k: int)
    requires
        0 <= k <= paths.len(),
        prefixes_error(paths.take(k)) is Some,
    ensures
        prefixes_error(paths) == prefixes_error(paths.take(k)),
    decreases paths.len() - k,
{
    if k < paths.len() {
        assert(paths.take(k + 1).drop_last() =~= paths.take(k));
        lemma_prefixes_error_prefix(paths, k + 1);
    } else {
        assert(paths.take(k) =~= paths);
    }
}

fn id_valid(id: &String) -> (b: bool)
    ensures
        b == id_ok(id@),
{
    let v = chars_of(id.as_str());
    if v.len() == 0 || v.len() > 48 {
        return false;
    }
    let mut i: usize = 0;
    while i < v.len()
        invariant
            v@ == id@,
            i <= v@.len(),
            forall|k: int| 0 <= k < i ==> #[trigger] id_char_ok(v@[k]),
        decreases v@.len() - i,
    {
        let c = v[i];
        if !(('a' <= c && c <= 'z') || ('0' <= c && c <= '9') || c == '-') {
            proof {
                assert(!id_char_ok(id@[i as int]));
            }
            return false;
        }
        i = i + 1;
    }
    true
}

fn blank(s: &String) -> (b: bool)
    ensures
        b == all_white(s@),
{
    let v = chars_of(s.as_str());
    let mut i: usize = 0;
    while i < v.len()
        invariant
            v@ == s@,
            i <= v@.len(),
            forall|k: int| 0 <= k < i ==> #[trigger] is_white(v@[k]),
        decreases v@.len() - i,
    {
        if !char_is_white(v[i]) {
            return false;
        }
        i = i + 1;
    }
    true
}

fn trim_trailing_slashes(s: &String) -> (t: String)
    ensures
        t@ == trim_slash(s@),
{
    let v = chars_of(s.as_str());
    let mut n = v.len();
    proof {
        assert(v@.take(v@.len() as int) =~= v@);
    }
    while n > 0 && v[n - 1] == '/'
        invariant
            n <= v@.len(),
            v@ == s@,
            trim_slash(v@.take(n as int)) == trim_slash(s@),
        decreases n,
    {
        proof {
            assert(v@.take(n as int).drop_last() =~= v@.take(n - 1));
        }
        n = n - 1;
    }
    proof {
        assert(v@.take(n as int).subrange(0, n as int) =~= v@.take(n as int));
        assert(trim_slash(v@.take(n as int)) == v@.take(n as int));
    }
    let t = string_of(&v, 0, n);
    proof {
        assert(v@.subrange(0, n as int) =~= v@.take(n as int));
    }
    t
}

fn prefixes_check(paths: &Vec<String>) -> (r: Result<(), ContextError>)
    ensures
        r is Ok <==> prefixes_error(paths@) is None,
        r is Err ==> Some(r->Err_0) == prefixes_error(paths@),
{
    let mut i: usize = 0;
    while i < paths.len()
        invariant
            i <= paths@.len(),
            prefixes_error(paths@.take(i as int)) is None,
        decreases paths@.len() - i,
    {
        let p = &paths[i];
        proof {
            assert(paths@.take(i + 1).drop_last() =~= paths@.take(i as int));
            assert(paths@.take(i + 1).last() == *p);
        }
        let trimmed = trim_trailing_slashes(p);
        match safe_path(trimmed.as_str()) {
            Err(e) => {
                proof {
                    lemma_prefixes_error_prefix(paths@, i + 1);
                }
                return Err(ContextError::UnsafePath(e));
            },
            Ok(()) => {},
        }
        if excluded(p.as_str()) {
            proof {
                lemma_prefixes_error_prefix(paths@, i + 1);
            }
            return Err(ContextError::OwnershipExcluded);
        }
        i = i + 1;
    }
    proof {
        assert(paths@.take(i as int) =~= paths@);
    }
    Ok(())
}

/// The first index below `n` whose module id is `d`, when there is one.
fn find_id(ms: &Vec<Module>, n: usize, d: &String) -> (r: Option<usize>)
    requires
        n <= ms@.len(),
    ensures
        match r {
            Some(j) => j < n && ms@[j as int].id@ == d@ && forall|x: int| 0 <= x < j ==> ms@[x].id@ != d@,
            None => forall|x: int| 0 <= x < n ==> #[trigger] ms@[x].id@ != d@,
        },
{
    let mut j: usize = 0;
    while j < n
        invariant
            j <= n <= ms@.len(),
            forall|x: int| 0 <= x < j ==> #[trigger] ms@[x].id@ != d@,
        decreases n - j,
    {
        if ms[j].id == *d {
            return Some(j);
        }
        j = j + 1;
    }
    None
}

fn module_check(ms: &Vec<Module>, i: usize) -> (r: Result<(), ContextError>)
    requires
        i < ms@.len(),
    ensures
        r is Ok <==> module_error(ms@, i as int) is None,
        r is Err ==> Some(r->Err_0) == module_error(ms@, i as int),
{
    let m = &ms[i];
    let dup = find_id(ms, i, &m.id);
    let limits = id_valid(&m.id) && dup.is_none() && !blank(&m.title) && m.title.as_str().len() <= 100
        && m.paths.len() <= 32 && m.depends_on.len() <= 32;
    proof {
        if dup is None {
            assert(!(exists|j: int| 0 <= j < i && #[trigger] ms@[j].id@ == ms@[i as int].id@));
        }
    }
    if !limits {
        return Err(ContextError::InvalidModule);
    }
    match safe_path(m.card.as_str()) {
        Err(e) => return Err(ContextError::UnsafePath(e)),
        Ok(()) => {},
    }
    if excluded(m.card.as_str()) {
        return Err(ContextError::CardExcluded);
    }
    prefixes_check(&m.paths)
}

/// Resolves every dependency to the index of the area it names, or reports the
/// first unknown one.
fn resolve_edges(ms: &Vec<Module>) -> (r: Option<Vec<Vec<usize>>>)
    ensures
        r is None <==> !deps_known(ms@),
        r matches Some(edges) ==> edges_resolve(ms@, edges@),
{
    let n = ms.len();
    let mut edges: Vec<Vec<usize>> = Vec::new();
    let mut i: usize = 0;
    while i < n
        invariant
            n == ms@.len(),
            i <= n,
            edges@.len() == i,
            forall|u: int| 0 <= u < i ==> edge_row_ok(ms@, u, #[trigger] edges@[u]@),
            forall|u: int, k: int|
                0 <= u < i && 0 <= k < ms@[u].depends_on@.len() ==> is_module_id(
                    ms@,
                    #[trigger] ms@[u].depends_on@[k]@,
                ),
        decreases n - i,
    {
        let deps = &ms[i].depends_on;
        let mut row: Vec<usize> = Vec::new();
        let mut k: usize = 0;
        while k < deps.len()
            invariant
                n == ms@.len(),
                i < n,
                *deps == ms@[i as int].depends_on,
                k <= deps@.len(),
                row@.len() == k,
                forall|x: int|
                    0 <= x < k ==> #[trigger] row@[x] < n && ms@[row@[x] as int].id@ == deps@[x]@,
                forall|x: int| 0 <= x < k ==> is_module_id(ms@, #[trigger] deps@[x]@),
            decreases deps@.len() - k,
        {
            match find_id(ms, n, &deps[k]) {
                None => {
                    proof {
                        assert(!is_module_id(ms@, ms@[i as int].depends_on@[k as int]@));
                    }
                    return None;
                },
                Some(v) => {
                    row.push(v);
                    proof {
                        assert(ms@[v as int].id@ == deps@[k as int]@);
                        assert(is_module_id(ms@, deps@[k as int]@));
                    }
                },
            }
            k = k + 1;
        }
        edges.push(row);
        i = i + 1;
    }
    Some(edges)
}

pub open spec fn edge_row_ok(ms: Seq<Module>, u: int, row: Seq<usize>) -> bool {
    &&& row.len() == ms[u].depends_on@.len()
    &&& forall|k: int|
        0 <= k < row.len() ==> #[trigger] row[k] < ms.len() && ms[row[k] as int].id@
            == ms[u].depends_on@[k]@
}

pub open spec fn edges_resolve(ms: Seq<Module>, edges: Seq<Vec<usize>>) -> bool {
    &&& edges.len() == ms.len()
    &&& forall|u: int| 0 <= u < ms.len() ==> edge_row_ok(ms, u, #[trigger] edges[u]@)
}

pub open spec fn ids_unique(ms: Seq<Module>) -> bool {
    forall|a: int, b: int| 0 <= a < ms.len() && 0 <= b < ms.len() && a != b ==> ms[a].id@ != ms[b].id@
}

/// Every area whose dependencies are all ranked gets the next rank, until no more
/// can be ranked. All ranked: acyclic. Otherwise the unranked areas form a cycle.
fn dependencies_acyclic(ms: &Vec<Module>, edges: &Vec<Vec<usize>>) -> (b: bool)
    requires
        edges_resolve(ms@, edges@),
        ids_unique(ms@),
        ms@.len() <= 32,
    ensures
        b == acyclic(ms@),
{
    let n = ms.len();
    let mut done: Vec<bool> = Vec::new();
    let mut ord: Vec<u64> = Vec::new();
    let mut i: usize = 0;
    while i < n
        invariant
            i <= n == ms@.len(),
            done@.len() == i,
            ord@.len() == i,
            forall|u: int| 0 <= u < i ==> !#[trigger] done@[u],
        decreases n - i,
    {
        done.push(false);
        ord.push(0);
        i = i + 1;
    }
    let mut count: u64 = 0;
    let mut progressed = true;
    proof {
        lemma_done_count_zero(done@, n as int);
    }
    while progressed
        invariant
            n == ms@.len(),
            n <= 32,
            edges_resolve(ms@, edges@),
            done@.len() == n,
            ord@.len() == n,
            count <= n,
            count == done_count(done@, n as int),
            forall|u: int| 0 <= u < n && #[trigger] done@[u] ==> ord@[u] < count,
            forall|u: int, k: int|
                0 <= u < n && done@[u] && 0 <= k < edges@[u]@.len() ==> done@[#[trigger] edges@[u]@[k] as int]
                    && ord@[edges@[u]@[k] as int] < ord@[u],
            !progressed ==> forall|u: int| 0 <= u < n && !#[trigger] done@[u] ==> has_open_dep(edges@[u]@, done@),
        decreases n - count, if progressed { 1int } else { 0int },
    {
        progressed = false;
        let mut u: usize = 0;
        let ghost start_count = count;
        while u < n
            invariant
                n == ms@.len(),
                n <= 32,
                edges_resolve(ms@, edges@),
                done@.len() == n,
                ord@.len() == n,
                u <= n,
                count <= n,
                count == done_count(done@, n as int),
                start_count <= count,
                progressed == (count > start_count),
                forall|x: int| 0 <= x < n && #[trigger] done@[x] ==> ord@[x] < count,
                forall|x: int, k: int|
                    0 <= x < n && done@[x] && 0 <= k < edges@[x]@.len() ==> done@[
                        #[trigger] edges@[x]@[k] as int
                    ] && ord@[edges@[x]@[k] as int] < ord@[x],
                !progressed ==> forall|x: int| 0 <= x < u && !#[trigger] done@[x] ==> has_open_dep(
                    edges@[x]@,
                    done@,
                ),
            decreases n - u,
        {
            if !done[u] {
                let row = &edges[u];
                let mut ready = true;
                let mut k: usize = 0;
                while k < row.len()
                    invariant
                        done@.len() == n,
                        *row == edges@[u as int],
                        edge_row_ok(ms@, u as int, row@),
                        n == ms@.len(),
                        k <= row@.len(),
                        ready == (forall|y: int| 0 <= y < k ==> done@[#[trigger] row@[y] as int]),
                    decreases row@.len() - k,
                {
                    if !done[row[k]] {
                        ready = false;
                    }
                    k = k + 1;
                }
                if ready {
                    proof {
                        lemma_done_count_set(done@, n as int, u as int);
                    }
                    done.set(u, true);
                    ord.set(u, count);
                    count = count + 1;
                    progressed = true;
                    proof {
                        assert forall|x: int, k2: int|
                            0 <= x < n && done@[x] && 0 <= k2 < edges@[x]@.len() implies done@[
                                #[trigger] edges@[x]@[k2] as int
                            ] && ord@[edges@[x]@[k2] as int] < ord@[x] by {
                            if x == u {
                                assert(done@[edges@[x]@[k2] as int]);
                            }
                        }
                    }
                } else {
                    proof {
                        assert(has_open_dep(edges@[u as int]@, done@));
                    }
                }
            }
            u = u + 1;
        }
    }
    if count == n as u64 {
        proof {
            lemma_all_done(done@, n as int);
            let rank = |s: Seq<char>|
                if is_module_id(ms@, s) {
                    ord@[choose|j: int| 0 <= j < ms@.len() && #[trigger] ms@[j].id@ == s] as int
                } else {
                    0
                };
            assert forall|x: int, k: int|
                0 <= x < ms@.len() && 0 <= k < ms@[x].depends_on@.len() implies rank(
                    #[trigger] ms@[x].depends_on@[k]@,
                ) < rank(ms@[x].id@) by {
                let v = edges@[x]@[k] as int;
                assert(ms@[v].id@ == ms@[x].depends_on@[k]@);
                assert(is_module_id(ms@, ms@[v].id@));
                assert(is_module_id(ms@, ms@[x].id@));
                let cv = choose|j: int| 0 <= j < ms@.len() && #[trigger] ms@[j].id@ == ms@[v].id@;
                let cx = choose|j: int| 0 <= j < ms@.len() && #[trigger] ms@[j].id@ == ms@[x].id@;
                assert(cv == v);
                assert(cx == x);
                assert(done@[x]);
            }
            assert(ranks_deps(ms@, rank));
        }
        true
    } else {
        proof {
            lemma_some_undone(done@, n as int);
            lemma_stuck_is_cyclic(ms@, edges@, done@);
        }
        false
    }
}

pub open spec fn has_open_dep(row: Seq<usize>, done: Seq<bool>) -> bool {
    exists|k: int| 0 <= k < row.len() && !done[#[trigger] row[k] as int]
}

/// Number of set flags among the first `n`.
pub open spec fn done_count(done: Seq<bool>, n: int) -> int
    decreases n,
{
    if n <= 0 {
        0
    } else {
        done_count(done, n - 1) + if done[n - 1] {
            1int
        } else {
            0int
        }
    }
}

proof fn lemma_done_count_set(done: Seq<bool>, n: int, u: int)
    requires
        0 <= u < n <= done.len(),
        !done[u],
    ensures
        done_count(done.update(u, true), n) == done_count(done, n) + 1,
        done_count(done, n) < n,
    decreases n,
{
    lemma_done_count_bound(done, n);
    if n - 1 == u {
        lemma_done_count_same(done, done.update(u, true), n - 1);
        lemma_done_count_bound(done, n - 1);
    } else {
        lemma_done_count_set(done, n - 1, u);
    }
}

proof fn lemma_done_count_zero(done: Seq<bool>, n: int)
    requires
        0 <= n <= done.len(),
        forall|u: int| 0 <= u < n ==> !#[trigger] done[u],
    ensures
        done_count(done, n) == 0,
    decreases n,
{
    if n > 0 {
        lemma_done_count_zero(done, n - 1);
    }
}

proof fn lemma_done_count_same(a: Seq<bool>, b: Seq<bool>, n: int)
    requires
        0 <= n <= a.len(),
        n <= b.len(),
        forall|i: int| 0 <= i < n ==> a[i] == b[i],
    ensures
        done_count(a, n) == done_count(b, n),
    decreases n,
{
    if n > 0 {
        lemma_done_count_same(a, b, n - 1);
    }
}

proof fn lemma_done_count_bound(done: Seq<bool>, n: int)
    requires
        0 <= n <= done.len(),
    ensures
        0 <= done_count(done, n) <= n,
        done_count(done, n) == n ==> forall|i: int| 0 <= i < n ==> done[i],
    decreases n,
{
    if n > 0 {
        lemma_done_count_bound(done, n - 1);
    }
}

proof fn lemma_all_done(done: Seq<bool>, n: int)
    requires
        0 <= n <= done.len(),
        done_count(done, n) == n,
    ensures
        forall|i: int| 0 <= i < n ==> done[i],
{
    lemma_done_count_bound(done, n);
}

proof fn lemma_some_undone(done: Seq<bool>, n: int)
    requires
        0 <= n <= done.len(),
        done_count(done, n) != n,
    ensures
        exists|i: int| 0 <= i < n && !done[i],
    decreases n,
{
    lemma_done_count_bound(done, n);
    if n > 0 {
        if done[n - 1] {
            lemma_some_undone(done, n - 1);
        }
    }
}

/// Some index satisfying `p` has a minimal `f` among all that do.
proof fn lemma_min_index(n: int, p: spec_fn(int) -> bool, f: spec_fn(int) -> int) -> (m: int)
    requires
        exists|i: int| 0 <= i < n && #[trigger] p(i),
    ensures
        0 <= m < n,
        p(m),
        forall|j: int| 0 <= j < n && #[trigger] p(j) ==> f(m) <= f(j),
    decreases n,
{
    if exists|i: int| 0 <= i < n - 1 && #[trigger] p(i) {
        let m1 = lemma_min_index(n - 1, p, f);
        if p(n - 1) && f(n - 1) < f(m1) {
            n - 1
        } else {
            m1
        }
    } else {
        n - 1
    }
}

/// When every unranked area depends on an unranked area, no ranking exists.
proof fn lemma_stuck_is_cyclic(ms: Seq<Module>, edges: Seq<Vec<usize>>, done: Seq<bool>)
    requires
        edges_resolve(ms, edges),
        done.len() == ms.len(),
        exists|i: int| 0 <= i < ms.len() && !done[i],
        forall|u: int| 0 <= u < ms.len() && !#[trigger] done[u] ==> has_open_dep(edges[u]@, done),
    ensures
        !acyclic(ms),
{
    if acyclic(ms) {
        let rank = choose|rank: spec_fn(Seq<char>) -> int| ranks_deps(ms, rank);
        let p = |i: int| !done[i];
        let f = |i: int| rank(ms[i].id@);
        let w = choose|i: int| 0 <= i < ms.len() && !done[i];
        assert(p(w));
        let m = lemma_min_index(ms.len() as int, p, f);
        assert(!done[m]);
        assert(has_open_dep(edges[m]@, done));
        let k = choose|k: int| 0 <= k < edges[m]@.len() && !done[#[trigger] edges[m]@[k] as int];
        let v = edges[m]@[k] as int;
        assert(ms[v].id@ == ms[m].depends_on@[k]@);
        assert(rank(ms[m].depends_on@[k]@) < rank(ms[m].id@));
        assert(p(v));
        assert(f(m) <= f(v));
        assert(false);
    }
}

impl Registry {
    /// Checks identity, limits, card and ownership paths, dependencies and acyclicity.
    pub fn validate(&self, project_id: &str) -> (r: Result<(), ContextError>)
        ensures
            r is Ok <==> registry_error(*self, project_id@) is None,
            r is Err ==> Some(r->Err_0) == registry_error(*self, project_id@),
    {
        let kind = chars_of(self.project_kind.as_str());
        let kind_game = crate::text::vec_eq_str(&kind, "game");
        let own_id = chars_of(self.project_id.as_str());
        let same_id = crate::text::vec_eq_str(&own_id, project_id);
        if self.schema != 1 || !kind_game || !same_id {
            return Err(ContextError::IdentityMismatch);
        }
        let n = self.modules.len();
        if n == 0 || n > 32 {
            return Err(ContextError::ModuleCount);
        }
        let mut i: usize = 0;
        while i < n
            invariant
                n == self.modules@.len(),
                0 < n <= 32,
                self.schema == 1,
                self.project_kind@ == "game"@,
                self.project_id@ == project_id@,
                i <= n,
                modules_error(self.modules@, i as int) is None,
            decreases n - i,
        {
            match module_check(&self.modules, i) {
                Err(e) => {
                    proof {
                        assert(modules_error(self.modules@, i + 1) == module_error(self.modules@, i as int));
                        lemma_modules_error_prefix(self.modules@, i + 1, n as int);
                    }
                    return Err(e);
                },
                Ok(()) => {},
            }
            i = i + 1;
        }
        proof {
            lemma_no_module_error_unique(self.modules@);
        }
        let mut i: usize = 0;
        while i < n
            invariant
                n == self.modules@.len(),
                0 < n <= 32,
                self.schema == 1,
                self.project_kind@ == "game"@,
                self.project_id@ == project_id@,
                i <= n,
                modules_error(self.modules@, n as int) is None,
                visit_error(self.modules@, i as int) is None,
            decreases n - i,
        {
            if !deps_are_areas(&self.modules, i) {
                proof {
                    lemma_visit_error_prefix(self.modules@, i + 1, n as int);
                }
                return Err(ContextError::UnknownDependency);
            }
            let mut stack: Vec<String> = Vec::new();
            let mut done: Vec<String> = Vec::new();
            proof {
                assert(string_views(stack@) =~= Seq::<Seq<char>>::empty());
                assert(string_views(done@) =~= Seq::<Seq<char>>::empty());
            }
            match visit(&self.modules, &self.modules[i].id, &mut stack, &mut done) {
                Some(e) => {
                    proof {
                        lemma_visit_error_prefix(self.modules@, i + 1, n as int);
                    }
                    return Err(e);
                },
                None => {},
            }
            i = i + 1;
        }
        let edges = match resolve_edges(&self.modules) {
            None => return Err(ContextError::CyclicDependency),
            Some(e) => e,
        };
        if !dependencies_acyclic(&self.modules, &edges) {
            return Err(ContextError::CyclicDependency);
        }
        Ok(())
    }

    /// The area named `id`; no broad fallback.
    pub fn module(&self, id: &str) -> (r: Result<usize, ContextError>)
        ensures
            match r {
                Ok(i) => i < self.modules@.len() && self.modules@[i as int].id@ == id@ && forall|j: int|
                    0 <= j < i ==> self.modules@[j].id@ != id@,
                Err(e) => e == ContextError::UnknownArea && !is_module_id(self.modules@, id@),
            },
    {
        let target = String::from_str(id);
        match find_id(&self.modules, self.modules.len(), &target) {
            Some(i) => Ok(i),
            None => Err(ContextError::UnknownArea),
        }
    }

    /// The single area that owns `path`, if any; two owners are an error.
    pub fn owner(&self, path: &str) -> (r: Result<Option<usize>, ContextError>)
        ensures
            match r {
                Ok(None) => forall|i: int| 0 <= i < self.modules@.len() ==> !#[trigger] owns(self.modules@[i], path@),
                Ok(Some(i)) => i < self.modules@.len() && owns(self.modules@[i as int], path@) && forall|j: int|
                    0 <= j < self.modules@.len() && j != i ==> !#[trigger] owns(self.modules@[j], path@),
                Err(e) => e == ContextError::AmbiguousOwnership && exists|a: int, b: int|
                    0 <= a < b < self.modules@.len() && #[trigger] owns(self.modules@[a], path@) && #[trigger] owns(
                        self.modules@[b],
                        path@,
                    ),
            },
    {
        let pv = chars_of(path);
        let mut found: Option<usize> = None;
        let mut i: usize = 0;
        while i < self.modules.len()
            invariant
                pv@ == path@,
                i <= self.modules@.len(),
                match found {
                    None => forall|x: int| 0 <= x < i ==> !#[trigger] owns(self.modules@[x], path@),
                    Some(f) => f < i && owns(self.modules@[f as int], path@) && forall|x: int|
                        0 <= x < i && x != f ==> !#[trigger] owns(self.modules@[x], path@),
                },
            decreases self.modules@.len() - i,
        {
            if module_owns(&self.modules[i], &pv) {
                match found {
                    Some(f) => {
                        proof {
                            assert(owns(self.modules@[f as int], path@));
                        }
                        return Err(ContextError::AmbiguousOwnership);
                    },
                    None => {
                        found = Some(i);
                    },
                }
            }
            i = i + 1;
        }
        Ok(found)
    }
}

proof fn lemma_no_module_error_unique(ms: Seq<Module>)
    requires
        modules_error(ms, ms.len() as int) is None,
    ensures
        ids_unique(ms),
{
    assert forall|a: int, b: int|
        0 <= a < ms.len() && 0 <= b < ms.len() && a != b implies ms[a].id@ != ms[b].id@ by {
        let hi = if a < b {
            b
        } else {
            a
        };
        let lo = if a < b {
            a
        } else {
            b
        };
        lemma_module_ok_before(ms, hi, ms.len() as int);
        assert(module_limits_ok(ms, hi));
        if ms[lo].id@ == ms[hi].id@ {
            assert(exists|j: int| 0 <= j < hi && #[trigger] ms[j].id@ == ms[hi].id@);
        }
    }
}

proof fn lemma_module_ok_before(ms: Seq<Module>, i: int, n: int)
    requires
        0 <= i < n,
        modules_error(ms, n) is None,
    ensures
        module_error(ms, i) is None,
    decreases n,
{
    if i < n - 1 {
        lemma_module_ok_before(ms, i, n - 1);
    }
}

/// A module owns a path named by one of its rules, that path's `.uid` or `.import`
/// companion, or anything under a rule that ends in `/`.
pub open spec fn rule_owns(rule: Seq<char>, path: Seq<char>) -> bool {
    ||| path == rule
    ||| path == rule + ".uid"@
    ||| path == rule + ".import"@
    ||| (ends_with(rule, "/"@) && starts_with(path, rule))
}

pub open spec fn owns(m: Module, path: Seq<char>) -> bool {
    exists|i: int| 0 <= i < m.paths@.len() && rule_owns(#[trigger] m.paths@[i]@, path)
}

fn rule_matches(rule: &String, path: &Vec<char>) -> (b: bool)
    ensures
        b == rule_owns(rule@, path@),
{
    let r = chars_of(rule.as_str());
    let mut with_uid = String::from_str(rule.as_str());
    push_str(&mut with_uid, ".uid");
    let mut with_import = String::from_str(rule.as_str());
    push_str(&mut with_import, ".import");
    let uid_v = chars_of(with_uid.as_str());
    let import_v = chars_of(with_import.as_str());
    let dir = vec_ends_with(&r, "/") && starts_with_vec(path, &r);
    crate::text::vec_eq(path, &r) || crate::text::vec_eq(path, &uid_v) || crate::text::vec_eq(path, &import_v)
        || dir
}

fn starts_with_vec(s: &Vec<char>, p: &Vec<char>) -> (b: bool)
    ensures
        b == starts_with(s@, p@),
{
    if p.len() > s.len() {
        return false;
    }
    let mut i: usize = 0;
    while i < p.len()
        invariant
            p@.len() <= s@.len(),
            i <= p@.len(),
            forall|k: int| 0 <= k < i ==> s@[k] == p@[k],
        decreases p@.len() - i,
    {
        if s[i] != p[i] {
            proof {
                assert(s@.take(p@.len() as int)[i as int] != p@[i as int]);
            }
            return false;
        }
        i = i + 1;
    }
    proof {
        assert(s@.take(p@.len() as int) =~= p@);
    }
    true
}

fn module_owns(m: &Module, path: &Vec<char>) -> (b: bool)
    ensures
        b == owns(*m, path@),
{
    let mut i: usize = 0;
    while i < m.paths.len()
        invariant
            i <= m.paths@.len(),
            forall|k: int| 0 <= k < i ==> !rule_owns(#[trigger] m.paths@[k]@, path@),
        decreases m.paths@.len() - i,
    {
        if rule_matches(&m.paths[i], path) {
            return true;
        }
        i = i + 1;
    }
    false
}

/// Which label a pack carries for the origin of its routes.
pub fn origin(legacy: bool) -> (s: &'static str)
    ensures
        legacy ==> s@ == "read_only_legacy_routes"@,
        !legacy ==> s@ == "game_authored_registry"@,
{
    if legacy {
        "read_only_legacy_routes"
    } else {
        "game_authored_registry"
    }
}

pub open spec fn card_body() -> Seq<char> {
    "\n\nThis module is a source-reading route, not proof that its systems exist.\nUse game_context.json for owned paths and dependencies. Read actual source and tests\nbefore changing behavior. Source outside this pack remains discoverable in the inventory.\nKeep simulation state outside UI nodes; preserve physical location, time and update contracts.\nWhen responsibilities change, update this card and relevant tests together.\n"@
}

/// The generated reading card of an area.
pub fn card(id: &str) -> (s: String)
    ensures
        s@ == "# "@ + id@ + card_body(),
{
    let mut s = String::from_str("# ");
    push_str(&mut s, id);
    push_str(
        &mut s,
        "\n\nThis module is a source-reading route, not proof that its systems exist.\nUse game_context.json for owned paths and dependencies. Read actual source and tests\nbefore changing behavior. Source outside this pack remains discoverable in the inventory.\nKeep simulation state outside UI nodes; preserve physical location, time and update contracts.\nWhen responsibilities change, update this card and relevant tests together.\n",
    );
    s
}

fn strings(items: &[&str]) -> (v: Vec<String>)
    ensures
        v@.len() == items@.len(),
        forall|i: int| 0 <= i < items@.len() ==> #[trigger] v@[i]@ == items@[i]@,
{
    let mut v: Vec<String> = Vec::new();
    let mut i: usize = 0;
    while i < items.len()
        invariant
            i <= items@.len(),
            v@.len() == i,
            forall|k: int| 0 <= k < i ==> #[trigger] v@[k]@ == items@[k]@,
        decreases items@.len() - i,
    {
        v.push(String::from_str(items[i]));
        i = i + 1;
    }
    v
}

fn default_module(id: &str, title: &str, paths: &[&str], deps: &[&str]) -> (m: Module)
    ensures
        m.id@ == id@,
        m.title@ == title@,
        m.card@ == "project_control/modules/"@ + id@ + ".md"@,
        m.paths@.len() == paths@.len(),
        forall|i: int| 0 <= i < paths@.len() ==> #[trigger] m.paths@[i]@ == paths@[i]@,
        m.depends_on@.len() == deps@.len(),
        forall|i: int| 0 <= i < deps@.len() ==> #[trigger] m.depends_on@[i]@ == deps@[i]@,
{
    let mut card = String::from_str("project_control/modules/");
    push_str(&mut card, id);
    push_str(&mut card, ".md");
    Module {
        id: String::from_str(id),
        title: String::from_str(title),
        paths: strings(paths),
        card,
        depends_on: strings(deps),
    }
}

/// The five read-only routes used when a game has no registry of its own.
pub fn defaults(meta: &BridgeProject) -> (r: Registry)
    ensures
        r.schema == 1,
        r.project_kind@ == "game"@,
        r.project_id@ == meta.project_id@,
        r.modules@.len() == 5,
        r.modules@[0].id@ == "foundation"@,
        r.modules@[0].title@ == "Game foundation"@,
        r.modules@[0].paths@.len() == 4,
        r.modules@[0].paths@[0]@ == "game/"@,
        r.modules@[0].paths@[1]@ == "tests/bridge_smoke.gd"@,
        r.modules@[0].paths@[2]@ == "project.godot"@,
        r.modules@[0].paths@[3]@ == "export_presets.cfg"@,
        r.modules@[0].depends_on@.len() == 0,
        r.modules@[1].id@ == "ui"@,
        r.modules@[1].title@ == "Interface"@,
        r.modules@[1].paths@.len() == 2,
        r.modules@[1].paths@[0]@ == "ui/"@,
        r.modules@[1].paths@[1]@ == "tests/ui/"@,
        r.modules@[1].depends_on@.len() == 1,
        r.modules@[1].depends_on@[0]@ == "foundation"@,
        r.modules@[2].id@ == "map"@,
        r.modules@[2].title@ == "City and map"@,
        r.modules@[2].paths@.len() == 3,
        r.modules@[2].paths@[0]@ == "map/"@,
        r.modules@[2].paths@[1]@ == "world/"@,
        r.modules@[2].paths@[2]@ == "tests/map/"@,
        r.modules@[2].depends_on@.len() == 1,
        r.modules@[2].depends_on@[0]@ == "foundation"@,
        r.modules@[3].id@ == "simulation"@,
        r.modules@[3].title@ == "Simulation"@,
        r.modules@[3].paths@.len() == 2,
        r.modules@[3].paths@[0]@ == "simulation/"@,
        r.modules@[3].paths@[1]@ == "tests/simulation/"@,
        r.modules@[3].depends_on@.len() == 3,
        r.modules@[3].depends_on@[0]@ == "foundation"@,
        r.modules@[3].depends_on@[1]@ == "map"@,
        r.modules@[3].depends_on@[2]@ == "data"@,
        r.modules@[4].id@ == "data"@,
        r.modules@[4].title@ == "Game data and assets"@,
        r.modules@[4].paths@.len() == 3,
        r.modules@[4].paths@[0]@ == "data/"@,
        r.modules@[4].paths@[1]@ == "assets/"@,
        r.modules@[4].paths@[2]@ == "tests/data/"@,
        r.modules@[4].depends_on@.len() == 1,
        r.modules@[4].depends_on@[0]@ == "foundation"@,
        forall|i: int| 0 <= i < 5 ==> #[trigger] r.modules@[i].card@ == "project_control/modules/"@
            + r.modules@[i].id@ + ".md"@,
{
    let foundation = default_module(
        "foundation",
        "Game foundation",
        &["game/", "tests/bridge_smoke.gd", "project.godot", "export_presets.cfg"],
        &[],
    );
    let ui = default_module("ui", "Interface", &["ui/", "tests/ui/"], &["foundation"]);
    let map = default_module("map", "City and map", &["map/", "world/", "tests/map/"], &["foundation"]);
    let simulation = default_module(
        "simulation",
        "Simulation",
        &["simulation/", "tests/simulation/"],
        &["foundation", "map", "data"],
    );
    let data = default_module(
        "data",
        "Game data and assets",
        &["data/", "assets/", "tests/data/"],
        &["foundation"],
    );
    let modules = vec![foundation, ui, map, simulation, data];
    Registry {
        schema: 1,
        project_kind: String::from_str("game"),
        project_id: meta.project_id.clone(),
        modules,
    }
}

} // verus!
