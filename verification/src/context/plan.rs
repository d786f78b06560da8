//! What a context pack carries: the sorted inventory of eligible files, the checked
//! file requests, the required startup files, and per-file capture decisions under
//! the reading budgets. The caller walks the game tree, reads bytes and writes the ZIP.
use vstd::prelude::*;
use vstd::string::StringExecFns;
use crate::context::errors::ContextError;
use crate::context::order::{chars_le, lemma_lex_refl, lemma_lex_total, lemma_lex_trans, lex_le};
use crate::context::policy::{
    excluded, safe_path, spec_excluded, spec_path_error, spec_text_file, text_file, FILE_LIMIT,
    INDEX_BYTES, INDEX_FILES, REQUEST_BUDGET, TEXT_BUDGET,
};
use crate::context::registry::{owns, Registry};
use crate::digest::{sha256_bytes, sha256_hex};
use crate::project::{BridgeProject, PROJECT_META};
use crate::text::{chars_of, push_str, lowercase, to_lowercase, vec_starts_with};

verus! {

#[derive(Debug, Clone)]
pub struct FileRequest {
    pub path: String,
    pub sha256: String,
}

#[derive(Debug, Clone)]
pub struct Request {
    pub module_id: String,
    pub task: String,
    pub file_requests: Vec<FileRequest>,
}

impl Request {
    /// The foundation area with no task text and no file requests.
    pub fn foundation() -> (r: Request)
        ensures
            r.module_id@ == "foundation"@,
            r.task@ == Seq::<char>::empty(),
            r.file_requests@.len() == 0,
    {
        Request { module_id: String::from_str("foundation"), task: String::new(), file_requests: Vec::new() }
    }
}

#[derive(Debug, Clone)]
pub struct Choice {
    pub id: String,
    pub title: String,
}

#[derive(Debug, Clone)]
pub struct Options {
    pub project_id: String,
    pub revision: u64,
    pub memory_origin: String,
    pub modules: Vec<Choice>,
}

/// One eligible game file and what the pack does with it.
#[derive(Debug, Clone)]
pub struct Entry {
    pub path: String,
    pub bytes: u64,
    pub sha256: String,
    pub module: Option<String>,
    pub included: bool,
    pub reason: String,
}

#[derive(Debug, Clone)]
pub struct Pack {
    pub path: String,
    pub included: usize,
    pub omitted: usize,
    pub memory_origin: String,
    pub source_index_sha256: String,
}

/// The areas a game offers, for the area picker.
pub fn options(registry: &Registry, legacy: bool, meta: &BridgeProject) -> (o: Options)
    ensures
        o.project_id@ == meta.project_id@,
        o.revision == meta.revision,
        legacy ==> o.memory_origin@ == "read_only_legacy_routes"@,
        !legacy ==> o.memory_origin@ == "game_authored_registry"@,
        o.modules@.len() == registry.modules@.len(),
        forall|i: int|
            0 <= i < o.modules@.len() ==> #[trigger] o.modules@[i].id@ == registry.modules@[i].id@
                && o.modules@[i].title@ == registry.modules@[i].title@,
{
    let mut modules: Vec<Choice> = Vec::new();
    let mut i: usize = 0;
    while i < registry.modules.len()
        invariant
            i <= registry.modules@.len(),
            modules@.len() == i,
            forall|k: int|
                0 <= k < i ==> #[trigger] modules@[k].id@ == registry.modules@[k].id@ && modules@[k].title@
                    == registry.modules@[k].title@,
        decreases registry.modules@.len() - i,
    {
        let m = &registry.modules[i];
        modules.push(Choice { id: m.id.clone(), title: m.title.clone() });
        i = i + 1;
    }
    Options {
        project_id: meta.project_id.clone(),
        revision: meta.revision,
        memory_origin: String::from_str(crate::context::registry::origin(legacy)),
        modules,
    }
}

/// Entries in strictly ascending path order.
pub open spec fn sorted_by_path(es: Seq<Entry>) -> bool {
    forall|i: int, j: int| 0 <= i < j < es.len() ==> lex_le(es[i].path@, es[j].path@)
}

pub open spec fn has_path(es: Seq<Entry>, p: Seq<char>) -> bool {
    exists|i: int| 0 <= i < es.len() && #[trigger] es[i].path@ == p
}

/// The eligible-file inventory, built one walked entry at a time.
pub struct Inventory {
    entries: Vec<Entry>,
    /// Lower-cased names of every entry entered so far, directories included.
    names: Vec<String>,
    total: u64,
    walked: Ghost<Seq<Seq<char>>>,
}

/// What the walker must do next with an entered entry.
#[derive(Debug, Clone, Copy, PartialEq, Eq, Structural)]
pub enum EntryKind {
    /// A cache, save or sensitive name: it and everything under it stay out.
    Excluded,
    Directory,
    File,
}

impl Inventory {
    pub closed spec fn entries(self) -> Seq<Entry> {
        self.entries@
    }

    /// Lower-cased names entered so far.
    pub closed spec fn folded(self) -> Seq<Seq<char>> {
        self.walked@
    }

    pub closed spec fn total(self) -> u64 {
        self.total
    }

    pub closed spec fn wf(self) -> bool {
        &&& sorted_by_path(self.entries@)
        &&& paths_distinct(self.entries@)
        &&& forall|i: int| 0 <= i < self.entries@.len() ==> !spec_excluded(#[trigger] self.entries@[i].path@)
        &&& self.names@.len() == self.walked@.len()
        &&& forall|i: int| 0 <= i < self.names@.len() ==> #[trigger] self.names@[i]@ == self.walked@[i]
        &&& forall|i: int| 0 <= i < self.entries@.len() ==> self.walked@.contains(lowercase(#[trigger] self.entries@[i].path@))
    }

    pub fn new() -> (inv: Self)
        ensures
            inv.wf(),
            inv.entries() == Seq::<Entry>::empty(),
            inv.folded() == Seq::<Seq<char>>::empty(),
            inv.total() == 0,
    {
        Inventory { entries: Vec::new(), names: Vec::new(), total: 0, walked: Ghost(Seq::empty()) }
    }

    /// The entries, in path order.
    pub fn into_entries(self) -> (v: Vec<Entry>)
        requires
            self.wf(),
        ensures
            v@ == self.entries(),
            sorted_by_path(v@),
            paths_distinct(v@),
            forall|i: int| 0 <= i < v@.len() ==> !spec_excluded(#[trigger] v@[i].path@),
    {
        self.entries
    }

    /// Enters a walked entry by name: a canonical path, not linked, not a case alias of
    /// an earlier entry, and a directory or a regular file.
    pub fn enter(&mut self, name: &str, linked: bool, is_dir: bool, is_file: bool) -> (r: Result<
        EntryKind,
        ContextError,
    >)
        requires
            old(self).wf(),
        ensures
            final(self).wf(),
            final(self).entries() == old(self).entries(),
            final(self).total() == old(self).total(),
            spec_excluded(name@) ==> r == Ok::<EntryKind, ContextError>(EntryKind::Excluded),
            !spec_excluded(name@) ==> match spec_path_error(name@) {
                Some(e) => r == Err::<EntryKind, ContextError>(ContextError::UnsafePath(e)),
                None => if linked {
                    r == Err::<EntryKind, ContextError>(ContextError::LinkedPath)
                } else if old(self).folded().contains(lowercase(name@)) {
                    r == Err::<EntryKind, ContextError>(ContextError::CaseAlias)
                } else if is_dir {
                    r == Ok::<EntryKind, ContextError>(EntryKind::Directory)
                } else if !is_file {
                    r == Err::<EntryKind, ContextError>(ContextError::NonRegular)
                } else {
                    r == Ok::<EntryKind, ContextError>(EntryKind::File)
                },
            },
            r is Ok && !spec_excluded(name@) ==> final(self).folded() == old(self).folded().push(lowercase(name@)),
            r == Ok::<EntryKind, ContextError>(EntryKind::File) ==> !has_path(final(self).entries(), name@)
                && final(self).folded().contains(lowercase(name@)) && !spec_excluded(name@),
            spec_excluded(name@) ==> *final(self) == *old(self),
    {
        if excluded(name) {
            return Ok(EntryKind::Excluded);
        }
        match safe_path(name) {
            Err(e) => return Err(ContextError::UnsafePath(e)),
            Ok(()) => {},
        }
        if linked {
            return Err(ContextError::LinkedPath);
        }
        let folded = to_lowercase(name);
        let mut i: usize = 0;
        while i < self.names.len()
            invariant
                self.wf(),
                *self == *old(self),
                spec_path_error(name@) is None,
                !spec_excluded(name@),
                !linked,
                folded@ == lowercase(name@),
                i <= self.names@.len(),
                forall|k: int| 0 <= k < i ==> self.walked@[k] != folded@,
            decreases self.names@.len() - i,
        {
            if self.names[i] == folded {
                proof {
                    assert(self.walked@[i as int] == folded@);
                    assert(self.walked@.contains(folded@));
                    assert(old(self).folded().contains(lowercase(name@)));
                }
                return Err(ContextError::CaseAlias);
            }
            i = i + 1;
        }
        proof {
            assert(!self.walked@.contains(folded@));
            if has_path(self.entries@, name@) {
                let k = choose|k: int| 0 <= k < self.entries@.len() && #[trigger] self.entries@[k].path@ == name@;
                assert(self.walked@.contains(lowercase(self.entries@[k].path@)));
            }
        }
        let ghost w0 = self.walked@;
        self.names.push(folded);
        proof {
            self.walked@ = self.walked@.push(lowercase(name@));
            assert(self.walked@.last() == lowercase(name@));
            assert forall|i: int| 0 <= i < self.entries@.len() implies self.walked@.contains(
                lowercase(#[trigger] self.entries@[i].path@),
            ) by {
                let x = lowercase(self.entries@[i].path@);
                assert(w0.contains(x));
                let k = choose|k: int| 0 <= k < w0.len() && w0[k] == x;
                assert(self.walked@[k] == x);
            }
        }
        if is_dir {
            return Ok(EntryKind::Directory);
        }
        if !is_file {
            return Err(ContextError::NonRegular);
        }
        Ok(EntryKind::File)
    }

    /// Records an entered file of `size` bytes and SHA-256 `sha256`, owned by the one
    /// area whose rules match it, in path order. The totals stay within indexing limits.
    pub fn add_file(&mut self, name: &str, size: u64, sha256: String, registry: &Registry) -> (r: Result<
        (),
        ContextError,
    >)
        requires
            old(self).wf(),
            !has_path(old(self).entries(), name@),
            !spec_excluded(name@),
            old(self).folded().contains(lowercase(name@)),
        ensures
            final(self).wf(),
            final(self).folded() == old(self).folded(),
            old(self).total() + size > u64::MAX ==> r == Err::<(), ContextError>(ContextError::SizeOverflow),
            old(self).total() + size <= u64::MAX && (old(self).total() + size > INDEX_BYTES
                || old(self).entries().len() >= INDEX_FILES) ==> r == Err::<(), ContextError>(
                ContextError::InventoryLimit,
            ),
            r is Ok ==> {
                &&& old(self).total() + size <= INDEX_BYTES
                &&& old(self).entries().len() < INDEX_FILES
                &&& final(self).total() == old(self).total() + size
                &&& final(self).entries().to_multiset() == old(self).entries().to_multiset().insert(
                    final(self).entries()[index_of_path(final(self).entries(), name@)],
                )
                &&& has_path(final(self).entries(), name@)
                &&& ({
                    let e = final(self).entries()[index_of_path(final(self).entries(), name@)];
                    &&& e.path@ == name@
                    &&& e.bytes == size
                    &&& e.sha256@ == sha256@
                    &&& !e.included
                    &&& e.reason@ == "outside_selected_area"@
                    &&& (e.module matches Some(m) ==> exists|i: int|
                        0 <= i < registry.modules@.len() && registry.modules@[i].id@ == m@ && owns(
                            #[trigger] registry.modules@[i],
                            name@,
                        ))
                    &&& (e.module is None ==> forall|i: int|
                        0 <= i < registry.modules@.len() ==> !owns(#[trigger] registry.modules@[i], name@))
                })
            },
            r is Err ==> final(self).entries() == old(self).entries(),
    {
        let total = match self.total.checked_add(size) {
            None => return Err(ContextError::SizeOverflow),
            Some(t) => t,
        };
        if total > INDEX_BYTES || self.entries.len() >= INDEX_FILES {
            return Err(ContextError::InventoryLimit);
        }
        let module = match registry.owner(name) {
            Err(e) => return Err(e),
            Ok(None) => None,
            Ok(Some(i)) => Some(registry.modules[i].id.clone()),
        };
        let e = Entry {
            path: String::from_str(name),
            bytes: size,
            sha256,
            module,
            included: false,
            reason: String::from_str("outside_selected_area"),
        };
        let ghost before = self.entries@;
        let pos = insert_sorted(&mut self.entries, e);
        self.total = total;
        proof {
            assert forall|i: int| 0 <= i < self.entries@.len() implies !spec_excluded(#[trigger] self.entries@[i].path@) by {
                if i < pos {
                    assert(self.entries@[i] == before[i]);
                } else if i > pos {
                    assert(self.entries@[i] == before[i - 1]);
                }
            }
            assert forall|i: int| 0 <= i < self.entries@.len() implies self.walked@.contains(
                lowercase(#[trigger] self.entries@[i].path@),
            ) by {
                if i < pos {
                    assert(self.entries@[i] == before[i]);
                } else if i > pos {
                    assert(self.entries@[i] == before[i - 1]);
                }
            }
            assert(self.entries@[pos as int].path@ == name@);
            lemma_index_of_path(self.entries@, pos as int);
        }
        Ok(())
    }
}

/// The position of the entry named `p` in a path-sorted list without duplicates.
pub open spec fn index_of_path(es: Seq<Entry>, p: Seq<char>) -> int {
    choose|i: int| 0 <= i < es.len() && #[trigger] es[i].path@ == p
}

proof fn lemma_index_of_path(es: Seq<Entry>, i: int)
    requires
        0 <= i < es.len(),
        paths_distinct(es),
    ensures
        index_of_path(es, es[i].path@) == i,
{
    let j = index_of_path(es, es[i].path@);
    assert(es[j].path@ == es[i].path@);
}

pub open spec fn paths_distinct(es: Seq<Entry>) -> bool {
    forall|i: int, j: int| 0 <= i < es.len() && 0 <= j < es.len() && i != j ==> es[i].path@ != es[j].path@
}

/// Inserts `e` at its place in path order; returns where.
fn insert_sorted(v: &mut Vec<Entry>, e: Entry) -> (pos: usize)
    requires
        sorted_by_path(old(v)@),
        paths_distinct(old(v)@),
        !has_path(old(v)@, e.path@),
    ensures
        pos <= old(v)@.len(),
        final(v)@ == old(v)@.insert(pos as int, e),
        sorted_by_path(final(v)@),
        paths_distinct(final(v)@),
        final(v)@.to_multiset() == old(v)@.to_multiset().insert(e),
{
    let key = chars_of(e.path.as_str());
    let mut pos: usize = 0;
    while pos < v.len() && chars_le(&chars_of(v[pos].path.as_str()), &key)
        invariant
            pos <= v@.len(),
            key@ == e.path@,
            forall|k: int| 0 <= k < pos ==> lex_le(#[trigger] v@[k].path@, e.path@),
        decreases v@.len() - pos,
    {
        pos = pos + 1;
    }
    let ghost old_v = v@;
    v.insert(pos, e);
    proof {
        old_v.insert_ensures(pos as int, e);
        let nv = v@;
        if pos < old_v.len() {
            assert(!lex_le(old_v[pos as int].path@, e.path@));
            lemma_lex_total(old_v[pos as int].path@, e.path@);
        }
        assert forall|i: int, j: int| 0 <= i < j < nv.len() implies lex_le(nv[i].path@, nv[j].path@) by {
            if j < pos {
            } else if j == pos {
                assert(lex_le(old_v[i].path@, e.path@));
            } else if i < pos {
                // old_v[i] <= e < old_v[pos] <= old_v[j - 1]
                assert(lex_le(old_v[i].path@, e.path@));
                if j - 1 == pos {
                    lemma_lex_trans(old_v[i].path@, e.path@, old_v[pos as int].path@);
                } else {
                    lemma_lex_trans(e.path@, old_v[pos as int].path@, old_v[j - 1].path@);
                    lemma_lex_trans(old_v[i].path@, e.path@, old_v[j - 1].path@);
                }
            } else if i == pos {
                if j - 1 == pos {
                } else {
                    lemma_lex_trans(e.path@, old_v[pos as int].path@, old_v[j - 1].path@);
                }
            } else {
                assert(lex_le(old_v[i - 1].path@, old_v[j - 1].path@));
            }
        }
        assert forall|i: int, j: int| 0 <= i < nv.len() && 0 <= j < nv.len() && i != j implies nv[i].path@
            != nv[j].path@ by {
            if i == pos {
                assert(old_v[if j < pos { j } else { j - 1 }].path@ == nv[j].path@);
            } else if j == pos {
                assert(old_v[if i < pos { i } else { i - 1 }].path@ == nv[i].path@);
            } else {
                let oi = if i < pos { i } else { i - 1 };
                let oj = if j < pos { j } else { j - 1 };
                assert(oi != oj);
            }
        }
        assert(nv.remove(pos as int) =~= old_v);
        old_v.insert(pos as int, e).to_multiset_ensures();
        assert(nv[pos as int] == e);
        assert(nv.to_multiset().count(e) > 0);
        assert(nv.to_multiset() =~= nv.to_multiset().remove(e).insert(e));
    }
    pos
}

} // verus!
