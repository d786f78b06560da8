//! Capture under the reading budgets: the order in which files are considered
//! (required, then requested, then the rest, each in path order), what each file gets,
//! the checks on the bytes read, and the identity of the eligible-file index.
use vstd::prelude::*;
use vstd::string::StringExecFns;
use crate::context::errors::ContextError;
use crate::context::plan::{has_path, Entry, Pack};
use crate::context::policy::{spec_text_file, text_file, FILE_LIMIT, REQUEST_BUDGET, TEXT_BUDGET};
use crate::context::plan::Request;
use crate::context::registry::{is_module_id, Registry};
use crate::context::select::{
    check_request, contains_string, distinct_strings, find_entry, path_set, request_too_large, requested_set,
    required_error, required_files, required_set, requests_error, resolve_requests,
};
use crate::project::BridgeProject;
use crate::digest::{sha256_bytes, sha256_hex};
use crate::text::is_utf8;

verus! {

/// Every required file is in the inventory.
pub fn check_required(entries: &Vec<Entry>, required: &Vec<String>) -> (r: Result<(), ContextError>)
    ensures
        r is Ok <==> forall|i: int| 0 <= i < required@.len() ==> has_path(entries@, #[trigger] required@[i]@),
        r is Err ==> r == Err::<(), ContextError>(ContextError::RequiredMissing),
{
    let mut i: usize = 0;
    while i < required.len()
        invariant
            i <= required@.len(),
            forall|k: int| 0 <= k < i ==> has_path(entries@, #[trigger] required@[k]@),
        decreases required@.len() - i,
    {
        if find_entry(entries, &required[i]).is_none() {
            return Err(ContextError::RequiredMissing);
        }
        i = i + 1;
    }
    Ok(())
}

/// Capture class of an entry: required files first, explicit requests second,
/// ordinary selected source last.
pub open spec fn rank(es: Seq<Entry>, required: Set<Seq<char>>, requested: Set<Seq<char>>, i: int) -> int {
    if required.contains(es[i].path@) {
        0
    } else if requested.contains(es[i].path@) {
        1
    } else {
        2
    }
}

/// `a` comes before `b` in capture order: by class, then by position.
pub open spec fn before(es: Seq<Entry>, required: Set<Seq<char>>, requested: Set<Seq<char>>, a: int, b: int) -> bool {
    rank(es, required, requested, a) < rank(es, required, requested, b) || (rank(es, required, requested, a) == rank(
        es,
        required,
        requested,
        b,
    ) && a < b)
}

fn rank_of(entries: &Vec<Entry>, required: &Vec<String>, requested: &Vec<String>, i: usize) -> (c: u8)
    requires
        i < entries@.len(),
    ensures
        c == rank(entries@, path_set(required@), path_set(requested@), i as int),
{
    if contains_string(required, &entries[i].path) {
        0
    } else if contains_string(requested, &entries[i].path) {
        1
    } else {
        2
    }
}

/// Position `i` occurs in `order`.
pub open spec fn listed(order: Seq<usize>, i: int) -> bool {
    exists|k: int| 0 <= k < order.len() && order[k] == i
}

/// The positions of `entries` in capture order. With entries in path order this is
/// the order of (class, path).
pub fn capture_order(entries: &Vec<Entry>, required: &Vec<String>, requested: &Vec<String>) -> (order: Vec<usize>)
    ensures
        forall|k: int| 0 <= k < order@.len() ==> #[trigger] order@[k] < entries@.len(),
        forall|i: int| 0 <= i < entries@.len() ==> #[trigger] listed(order@, i),
        forall|a: int, b: int|
            0 <= a < b < order@.len() ==> before(
                entries@,
                path_set(required@),
                path_set(requested@),
                #[trigger] order@[a] as int,
                #[trigger] order@[b] as int,
            ),
{
    let ghost rq = path_set(required@);
    let ghost ask = path_set(requested@);
    let mut order: Vec<usize> = Vec::new();
    let mut c: u8 = 0;
    while c < 3
        invariant
            c <= 3,
            rq == path_set(required@),
            ask == path_set(requested@),
            forall|k: int| 0 <= k < order@.len() ==> #[trigger] order@[k] < entries@.len(),
            forall|k: int| 0 <= k < order@.len() ==> rank(entries@, rq, ask, #[trigger] order@[k] as int) < c,
            forall|i: int| 0 <= i < entries@.len() && rank(entries@, rq, ask, i) < c ==> #[trigger] listed(order@, i),
            forall|a: int, b: int|
                0 <= a < b < order@.len() ==> before(entries@, rq, ask, #[trigger] order@[a] as int, #[trigger] order@[b] as int),
        decreases 3 - c,
    {
        let mut i: usize = 0;
        let ghost start = order@.len();
        while i < entries.len()
            invariant
                c < 3,
                i <= entries@.len(),
                start <= order@.len(),
                rq == path_set(required@),
                ask == path_set(requested@),
                forall|k: int| 0 <= k < order@.len() ==> #[trigger] order@[k] < entries@.len(),
                forall|k: int| 0 <= k < start ==> rank(entries@, rq, ask, #[trigger] order@[k] as int) < c,
                forall|k: int|
                    start <= k < order@.len() ==> rank(entries@, rq, ask, #[trigger] order@[k] as int) == c
                        && order@[k] < i,
                forall|j: int|
                    0 <= j < entries@.len() && (rank(entries@, rq, ask, j) < c || (rank(entries@, rq, ask, j) == c && j
                        < i)) ==> #[trigger] listed(order@, j),
                forall|a: int, b: int|
                    0 <= a < b < order@.len() ==> before(
                        entries@,
                        rq,
                        ask,
                        #[trigger] order@[a] as int,
                        #[trigger] order@[b] as int,
                    ),
            decreases entries@.len() - i,
        {
            if rank_of(entries, required, requested, i) == c {
                let ghost prev = order@;
                order.push(i);
                proof {
                    assert forall|a: int, b: int| 0 <= a < b < order@.len() implies before(
                        entries@,
                        rq,
                        ask,
                        #[trigger] order@[a] as int,
                        #[trigger] order@[b] as int,
                    ) by {
                        if b == prev.len() {
                            assert(order@[a] == prev[a]);
                        } else {
                            assert(order@[a] == prev[a] && order@[b] == prev[b]);
                        }
                    }
                    assert forall|j: int|
                        0 <= j < entries@.len() && (rank(entries@, rq, ask, j) < c || (rank(entries@, rq, ask, j) == c
                            && j < i + 1)) implies #[trigger] listed(order@, j) by {
                        if j == i {
                            assert(order@[prev.len() as int] == j);
                        } else {
                            assert(listed(prev, j));
                            let k = choose|k: int| 0 <= k < prev.len() && prev[k] == j;
                            assert(order@[k] == j);
                        }
                    }
                }
            }
            i = i + 1;
        }
        c = c + 1;
    }
    order
}

/// Bytes used so far from the reading budgets.
pub struct Budget {
    text_used: u64,
    requested_used: u64,
}

/// What to do with one considered file.
#[derive(Debug, Clone, Copy, PartialEq, Eq, Structural)]
pub enum Step {
    /// Leave it out; its inventory row records why.
    Skip,
    /// Read it with at most this many bytes.
    Read(u64),
}

impl Budget {
    pub closed spec fn text_used(self) -> u64 {
        self.text_used
    }

    pub closed spec fn requested_used(self) -> u64 {
        self.requested_used
    }

    pub closed spec fn wf(self) -> bool {
        self.text_used <= TEXT_BUDGET && self.requested_used <= REQUEST_BUDGET
    }

    pub fn new() -> (b: Self)
        ensures
            b.wf(),
            b.text_used() == 0,
            b.requested_used() == 0,
    {
        Budget { text_used: 0, requested_used: 0 }
    }

    /// Decides one file of the selected `area`: `must` for a required file, `explicit`
    /// for a requested one. Required files that cannot be read whole are errors;
    /// other files are omitted whole, never truncated, and say why.
    pub fn consider(&mut self, e: &mut Entry, must: bool, explicit: bool, area: &str) -> (r: Result<Step, ContextError>)
        requires
            old(self).wf(),
        ensures
            final(self).wf(),
            final(e).path == old(e).path,
            final(e).bytes == old(e).bytes,
            final(e).sha256 == old(e).sha256,
            final(e).module == old(e).module,
            final(e).included == old(e).included,
            ({
                let selected = old(e).module matches Some(m) && m@ == area@;
                let b = old(e).bytes;
                if !must && !explicit && !selected {
                    &&& r == Ok::<Step, ContextError>(Step::Skip)
                    &&& *final(self) == *old(self)
                    &&& (old(e).module is None ==> final(e).reason@ == "unregistered_source"@)
                    &&& (old(e).module is Some ==> final(e).reason == old(e).reason)
                } else if explicit {
                    if old(self).requested_used() + b > u64::MAX {
                        r == Err::<Step, ContextError>(ContextError::SizeOverflow) && *final(e) == *old(e)
                    } else if old(self).requested_used() + b > REQUEST_BUDGET {
                        r == Err::<Step, ContextError>(ContextError::RequestBudget) && *final(e) == *old(e)
                    } else {
                        &&& r == Ok::<Step, ContextError>(Step::Read(REQUEST_BUDGET))
                        &&& final(self).requested_used() == old(self).requested_used() + b
                        &&& final(self).text_used() == old(self).text_used()
                        &&& final(e).reason == old(e).reason
                    }
                } else if !spec_text_file(old(e).path@) {
                    if must {
                        r == Err::<Step, ContextError>(ContextError::RequiredNotText) && *final(e) == *old(e)
                    } else {
                        &&& r == Ok::<Step, ContextError>(Step::Skip)
                        &&& *final(self) == *old(self)
                        &&& final(e).reason@ == "asset_available_on_request"@
                    }
                } else if b > FILE_LIMIT || old(self).text_used() + b > TEXT_BUDGET {
                    if must {
                        r == Err::<Step, ContextError>(ContextError::RequiredOverBudget) && *final(e) == *old(e)
                    } else {
                        &&& r == Ok::<Step, ContextError>(Step::Skip)
                        &&& *final(self) == *old(self)
                        &&& final(e).reason@ == "text_budget_omitted_complete_file"@
                    }
                } else {
                    &&& r == Ok::<Step, ContextError>(Step::Read(FILE_LIMIT))
                    &&& final(self).text_used() == old(self).text_used() + b
                    &&& final(self).requested_used() == old(self).requested_used()
                    &&& final(e).reason == old(e).reason
                }
            }),
            r is Err ==> *final(self) == *old(self),
    {
        let selected = match &e.module {
            Some(m) => *m == String::from_str(area),
            None => false,
        };
        if !must && !explicit && !selected {
            if e.module.is_none() {
                e.reason = String::from_str("unregistered_source");
            }
            return Ok(Step::Skip);
        }
        if explicit {
            let used = match self.requested_used.checked_add(e.bytes) {
                None => return Err(ContextError::SizeOverflow),
                Some(u) => u,
            };
            if used > REQUEST_BUDGET {
                return Err(ContextError::RequestBudget);
            }
            self.requested_used = used;
            return Ok(Step::Read(REQUEST_BUDGET));
        }
        if !text_file(e.path.as_str()) {
            if must {
                return Err(ContextError::RequiredNotText);
            }
            e.reason = String::from_str("asset_available_on_request");
            return Ok(Step::Skip);
        }
        if e.bytes > FILE_LIMIT || self.text_used + e.bytes > TEXT_BUDGET {
            if must {
                return Err(ContextError::RequiredOverBudget);
            }
            e.reason = String::from_str("text_budget_omitted_complete_file");
            return Ok(Step::Skip);
        }
        self.text_used = self.text_used + e.bytes;
        Ok(Step::Read(FILE_LIMIT))
    }
}

/// Checks the bytes read for a file that `consider` chose to read with `limit`: within
/// the bound, the size and SHA-256 the inventory recorded, and UTF-8 text unless
/// explicitly requested. Then the file is included, with the reason for it.
pub fn confirm(e: &mut Entry, bytes: &[u8], limit: u64, must: bool, explicit: bool) -> (r: Result<(), ContextError>)
    ensures
        bytes@.len() > limit ==> r == Err::<(), ContextError>(ContextError::ReadBound),
        bytes@.len() <= limit && (bytes@.len() != old(e).bytes || sha256_hex(bytes@) != old(e).sha256@) ==> r == Err::<
            (),
            ContextError,
        >(ContextError::SourceChanged),
        bytes@.len() <= limit && bytes@.len() == old(e).bytes && sha256_hex(bytes@) == old(e).sha256@ && !explicit
            && !vstd::utf8::valid_utf8(bytes@) ==> r == Err::<(), ContextError>(ContextError::NotUtf8),
        r is Err ==> *final(e) == *old(e),
        r is Ok ==> {
            &&& bytes@.len() <= limit
            &&& bytes@.len() == old(e).bytes
            &&& sha256_hex(bytes@) == old(e).sha256@
            &&& (explicit || vstd::utf8::valid_utf8(bytes@))
            &&& final(e).path == old(e).path
            &&& final(e).bytes == old(e).bytes
            &&& final(e).sha256 == old(e).sha256
            &&& final(e).module == old(e).module
            &&& final(e).included
            &&& final(e).reason@ == (if explicit {
                "explicit_hash_bound_request"@
            } else if must {
                "startup_or_dependency_contract"@
            } else {
                "selected_area_source"@
            })
        },
{
    if bytes.len() as u64 > limit {
        return Err(ContextError::ReadBound);
    }
    if bytes.len() as u64 != e.bytes {
        return Err(ContextError::SourceChanged);
    }
    let hash = sha256_bytes(bytes);
    if hash != e.sha256 {
        return Err(ContextError::SourceChanged);
    }
    if !explicit && !is_utf8(bytes) {
        return Err(ContextError::NotUtf8);
    }
    e.included = true;
    e.reason = if explicit {
        String::from_str("explicit_hash_bound_request")
    } else if must {
        String::from_str("startup_or_dependency_contract")
    } else {
        String::from_str("selected_area_source")
    };
    Ok(())
}

/// How many entries are included.
pub open spec fn included_count(es: Seq<Entry>) -> nat
    decreases es.len(),
{
    if es.len() == 0 {
        0
    } else {
        included_count(es.drop_last()) + if es.last().included {
            1nat
        } else {
            0nat
        }
    }
}

proof fn lemma_included_count_bound(es: Seq<Entry>)
    ensures
        included_count(es) <= es.len(),
    decreases es.len(),
{
    if es.len() > 0 {
        lemma_included_count_bound(es.drop_last());
    }
}

/// The published pack's summary: where it is, how many eligible files it includes and
/// omits, the origin of its routes and the source-index identity.
pub fn pack_summary(entries: &Vec<Entry>, path: String, legacy: bool, source_index_sha256: String) -> (p: Pack)
    ensures
        p.path@ == path@,
        p.included == included_count(entries@),
        p.omitted == entries@.len() - included_count(entries@),
        legacy ==> p.memory_origin@ == "read_only_legacy_routes"@,
        !legacy ==> p.memory_origin@ == "game_authored_registry"@,
        p.source_index_sha256@ == source_index_sha256@,
{
    let mut n: usize = 0;
    let mut i: usize = 0;
    while i < entries.len()
        invariant
            i <= entries@.len(),
            n == included_count(entries@.take(i as int)),
            n <= i,
        decreases entries@.len() - i,
    {
        proof {
            assert(entries@.take(i + 1).drop_last() =~= entries@.take(i as int));
        }
        if entries[i].included {
            n = n + 1;
        }
        i = i + 1;
    }
    proof {
        assert(entries@.take(i as int) =~= entries@);
    }
    Pack {
        path,
        included: n,
        omitted: entries.len() - n,
        memory_origin: String::from_str(crate::context::registry::origin(legacy)),
        source_index_sha256,
    }
}

/// What an export carries before any file is read: the required files, the
/// requested files with their companions, and the capture order.
pub struct ExportPlan {
    pub required: Vec<String>,
    pub requested: Vec<String>,
    pub order: Vec<usize>,
}

/// Why an export is refused before capture, in the order the checks run: an
/// oversized request, an unknown area, unusable metadata or a dependency card that
/// cannot be found, a refused file request, then a required file missing from the
/// inventory.
pub open spec fn plan_error(
    entries: Seq<Entry>,
    request: Request,
    registry: Registry,
    legacy: bool,
    meta: BridgeProject,
) -> Option<ContextError> {
    if request_too_large(request) {
        Some(ContextError::RequestTooLarge)
    } else if !is_module_id(registry.modules@, request.module_id@) {
        Some(ContextError::UnknownArea)
    } else if required_error(meta, registry, legacy, request.module_id@) is Some {
        required_error(meta, registry, legacy, request.module_id@)
    } else if requests_error(entries, request.file_requests@, request.file_requests@.len() as int) is Some {
        requests_error(entries, request.file_requests@, request.file_requests@.len() as int)
    } else {
        None
    }
}

/// Plans an export of `request` over the inventory `entries`; `present` says which
/// optional startup documents the game has. Any refusal publishes nothing.
pub fn plan_export(
    entries: &Vec<Entry>,
    request: &Request,
    registry: &Registry,
    legacy: bool,
    meta: &BridgeProject,
    present: &[bool; 5],
) -> (r: Result<ExportPlan, ContextError>)
    ensures
        match plan_error(entries@, *request, *registry, legacy, *meta) {
            Some(e) => r == Err::<ExportPlan, ContextError>(e),
            None => match r {
                Err(e) => e == ContextError::RequiredMissing && !(forall|p: Seq<char>|
                    required_set(*meta, *registry, legacy, request.module_id@, present@).contains(p) ==> has_path(
                        entries@,
                        p,
                    )),
                Ok(plan) => {
                    &&& distinct_strings(plan.required@)
                    &&& path_set(plan.required@) == required_set(
                        *meta,
                        *registry,
                        legacy,
                        request.module_id@,
                        present@,
                    )
                    &&& forall|p: Seq<char>| #[trigger] path_set(plan.required@).contains(p) ==> has_path(entries@, p)
                    &&& distinct_strings(plan.requested@)
                    &&& path_set(plan.requested@) == requested_set(entries@, request.file_requests@)
                    &&& forall|k: int| 0 <= k < plan.order@.len() ==> #[trigger] plan.order@[k] < entries@.len()
                    &&& forall|i: int| 0 <= i < entries@.len() ==> #[trigger] listed(plan.order@, i)
                    &&& forall|a: int, b: int|
                        0 <= a < b < plan.order@.len() ==> before(
                            entries@,
                            path_set(plan.required@),
                            path_set(plan.requested@),
                            #[trigger] plan.order@[a] as int,
                            #[trigger] plan.order@[b] as int,
                        )
                },
            },
        },
{
    match check_request(request) {
        Err(e) => return Err(e),
        Ok(()) => {},
    }
    match registry.module(request.module_id.as_str()) {
        Err(e) => return Err(e),
        Ok(_) => {},
    }
    let required = match required_files(meta, registry, legacy, request.module_id.as_str(), present) {
        Err(e) => return Err(e),
        Ok(v) => v,
    };
    let requested = match resolve_requests(entries, request) {
        Err(e) => return Err(e),
        Ok(v) => v,
    };
    match check_required(entries, &required) {
        Err(e) => {
            proof {
                let k = choose|k: int| 0 <= k < required@.len() && !has_path(entries@, #[trigger] required@[k]@);
                assert(path_set(required@).contains(required@[k]@));
            }
            return Err(e);
        },
        Ok(()) => {},
    }
    proof {
        assert forall|p: Seq<char>| #[trigger] path_set(required@).contains(p) implies has_path(entries@, p) by {
            let k = choose|k: int| 0 <= k < required@.len() && #[trigger] required@[k]@ == p;
            assert(has_path(entries@, required@[k]@));
        }
    }
    let order = capture_order(entries, &required, &requested);
    Ok(ExportPlan { required, requested, order })
}

} // verus!
