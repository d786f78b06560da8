//! Packages on disk: which project files a full chat pack skips as generated, which
//! large binaries it lists in the catalog only, which downloads are update packs,
//! and which of them is the latest.
use vstd::prelude::*;
use vstd::string::StringExecFns;
use crate::context::policy::{extension_of, file_name, last_file_name, name_extension};
use crate::text::{chars_of, ends_with, lowercase, starts_with, to_lowercase, vec_ends_with, vec_eq_str, vec_starts_with};
use crate::update::slashes;
use crate::worker::Elapsed;

verus! {

/// Binaries above this size are listed in the catalog but not packed.
pub const LARGE_ASSET_LIMIT: u64 = 2097152;

/// One project file as a full chat pack lists it.
#[derive(Debug, Clone)]
pub struct AssetCatalogEntry {
    pub path: String,
    pub bytes: u64,
    pub sha256: String,
    pub included: bool,
    pub reason: Option<String>,
}

/// `s` is `name` or lies under the directory `name`.
pub open spec fn at_or_under(s: Seq<char>, name: Seq<char>) -> bool {
    s == name || starts_with(s, name + "/"@)
}

/// Generated or Bridge-owned trees of a project, compared lower-cased with `/`.
pub open spec fn spec_is_generated(rel: Seq<char>) -> bool {
    let s = lowercase(slashes(rel));
    at_or_under(s, ".godot"@) || at_or_under(s, ".git"@) || at_or_under(s, "build"@) || at_or_under(s, "builds"@)
        || at_or_under(s, "logs"@)
}

fn slash_string(rel: &str) -> (s: String)
    ensures
        s@ == slashes(rel@),
{
    let v = chars_of(rel);
    let mut s = String::new();
    let mut i: usize = 0;
    while i < v.len()
        invariant
            i <= v@.len(),
            v@ == rel@,
            s@ == slashes(v@).take(i as int),
        decreases v@.len() - i,
    {
        let c = v[i];
        crate::text::push_char(&mut s, if c == '\\' { '/' } else { c });
        proof {
            assert(slashes(v@).take(i + 1) =~= slashes(v@).take(i as int).push(slashes(v@)[i as int]));
        }
        i = i + 1;
    }
    proof {
        assert(slashes(v@).take(i as int) =~= slashes(v@));
    }
    s
}

fn at_or_under_exec(s: &Vec<char>, name: &str, dir: &str) -> (b: bool)
    requires
        dir@ == name@ + "/"@,
    ensures
        b == at_or_under(s@, name@),
{
    vec_eq_str(s, name) || vec_starts_with(s, dir)
}

/// Whether a project-relative path is generated output or Bridge-owned data that a
/// full chat pack leaves out: `.godot`, `.git`, `build`, `builds`, `logs`.
pub fn is_generated(rel: &str) -> (b: bool)
    ensures
        b == spec_is_generated(rel@),
{
    let slashed = slash_string(rel);
    let lower = to_lowercase(slashed.as_str());
    let s = chars_of(lower.as_str());
    proof {
        reveal_strlit(".godot");
        reveal_strlit(".godot/");
        reveal_strlit(".git");
        reveal_strlit(".git/");
        reveal_strlit("build");
        reveal_strlit("build/");
        reveal_strlit("builds");
        reveal_strlit("builds/");
        reveal_strlit("logs");
        reveal_strlit("logs/");
        reveal_strlit("/");
        assert(".godot/"@ =~= ".godot"@ + "/"@);
        assert(".git/"@ =~= ".git"@ + "/"@);
        assert("build/"@ =~= "build"@ + "/"@);
        assert("builds/"@ =~= "builds"@ + "/"@);
        assert("logs/"@ =~= "logs"@ + "/"@);
    }
    at_or_under_exec(&s, ".godot", ".godot/") || at_or_under_exec(&s, ".git", ".git/") || at_or_under_exec(
        &s,
        "build",
        "build/",
    ) || at_or_under_exec(&s, "builds", "builds/") || at_or_under_exec(&s, "logs", "logs/")
}

/// Extensions of binary assets, compared lower-cased.
pub open spec fn binary_extension(e: Seq<char>) -> bool {
    ||| e == "png"@
    ||| e == "jpg"@
    ||| e == "jpeg"@
    ||| e == "webp"@
    ||| e == "wav"@
    ||| e == "ogg"@
    ||| e == "mp3"@
    ||| e == "glb"@
    ||| e == "gltf"@
    ||| e == "fbx"@
    ||| e == "blend"@
    ||| e == "ttf"@
    ||| e == "otf"@
    ||| e == "zip"@
    ||| e == "7z"@
    ||| e == "rar"@
    ||| e == "exe"@
    ||| e == "dll"@
    ||| e == "pck"@
}

/// The lower-cased extension of a path, empty when it has none.
pub open spec fn lower_extension(rel: Seq<char>) -> Seq<char> {
    match file_name(rel) {
        None => Seq::empty(),
        Some(n) => match name_extension(n) {
            None => Seq::empty(),
            Some(e) => lowercase(e),
        },
    }
}

fn is_binary_extension(e: &Vec<char>) -> (b: bool)
    ensures
        b == binary_extension(e@),
{
    vec_eq_str(e, "png") || vec_eq_str(e, "jpg") || vec_eq_str(e, "jpeg") || vec_eq_str(e, "webp") || vec_eq_str(
        e,
        "wav",
    ) || vec_eq_str(e, "ogg") || vec_eq_str(e, "mp3") || vec_eq_str(e, "glb") || vec_eq_str(e, "gltf")
        || vec_eq_str(e, "fbx") || vec_eq_str(e, "blend") || vec_eq_str(e, "ttf") || vec_eq_str(e, "otf")
        || vec_eq_str(e, "zip") || vec_eq_str(e, "7z") || vec_eq_str(e, "rar") || vec_eq_str(e, "exe")
        || vec_eq_str(e, "dll") || vec_eq_str(e, "pck")
}

/// A project file's catalog row: binaries over 2 MiB are listed only, everything else
/// is packed.
pub fn catalog_entry(rel: &str, bytes: u64, sha256: String) -> (c: AssetCatalogEntry)
    ensures
        c.path@ == slashes(rel@),
        c.bytes == bytes,
        c.sha256@ == sha256@,
        c.included == (!binary_extension(lower_extension(rel@)) || bytes <= LARGE_ASSET_LIMIT),
        c.included ==> c.reason is None,
        !c.included ==> (c.reason matches Some(r) && r@ == "large binary represented by catalog only"@),
{
    let v = chars_of(rel);
    let ext: Vec<char> = match last_file_name(&v) {
        None => Vec::new(),
        Some(n) => match extension_of(&n) {
            None => Vec::new(),
            Some(e) => {
                let s = crate::text::string_of(&e, 0, e.len());
                proof {
                    assert(e@.subrange(0, e@.len() as int) =~= e@);
                }
                let l = to_lowercase(s.as_str());
                chars_of(l.as_str())
            },
        },
    };
    proof {
        reveal_strlit("png");
        reveal_strlit("jpg");
        reveal_strlit("jpeg");
        reveal_strlit("webp");
        reveal_strlit("wav");
        reveal_strlit("ogg");
        reveal_strlit("mp3");
        reveal_strlit("glb");
        reveal_strlit("gltf");
        reveal_strlit("fbx");
        reveal_strlit("blend");
        reveal_strlit("ttf");
        reveal_strlit("otf");
        reveal_strlit("zip");
        reveal_strlit("7z");
        reveal_strlit("rar");
        reveal_strlit("exe");
        reveal_strlit("dll");
        reveal_strlit("pck");
        assert(ext@ == lower_extension(rel@) || (ext@.len() == 0 && lower_extension(rel@).len() == 0));
        if ext@.len() == 0 {
            assert(ext@ =~= lower_extension(rel@) || lower_extension(rel@) =~= Seq::<char>::empty());
        }
    }
    let packed = !is_binary_extension(&ext) || bytes <= LARGE_ASSET_LIMIT;
    AssetCatalogEntry {
        path: slash_string(rel),
        bytes,
        sha256,
        included: packed,
        reason: if packed {
            None
        } else {
            Some(String::from_str("large binary represented by catalog only"))
        },
    }
}

/// A downloaded file named like an update pack: `CrimeSim_Update_*.zip`.
pub fn is_update_pack_name(name: &str) -> (b: bool)
    ensures
        b == (starts_with(name@, "CrimeSim_Update_"@) && ends_with(name@, ".zip"@)),
{
    let v = chars_of(name);
    vec_starts_with(&v, "CrimeSim_Update_") && vec_ends_with(&v, ".zip")
}

/// `a` is no later than `b`, in `Option<SystemTime>` order: an unknown time first.
pub open spec fn time_le(a: Option<Elapsed>, b: Option<Elapsed>) -> bool {
    match (a, b) {
        (None, _) => true,
        (Some(_), None) => false,
        (Some(x), Some(y)) => x.secs < y.secs || (x.secs == y.secs && x.nanos <= y.nanos),
    }
}

fn time_le_exec(a: Option<Elapsed>, b: Option<Elapsed>) -> (r: bool)
    ensures
        r == time_le(a, b),
{
    match (a, b) {
        (None, _) => true,
        (Some(_), None) => false,
        (Some(x), Some(y)) => x.secs < y.secs || (x.secs == y.secs && x.nanos <= y.nanos),
    }
}

/// The latest candidate by modification time: of the latest ones, the one found last
/// (a stable sort by time, then the last element).
pub fn latest_candidate(modified: &Vec<Option<Elapsed>>) -> (r: Option<usize>)
    ensures
        modified@.len() == 0 ==> r is None,
        modified@.len() > 0 ==> (r matches Some(i) && i < modified@.len() && (forall|j: int|
            0 <= j < modified@.len() ==> time_le(#[trigger] modified@[j], modified@[i as int])) && (forall|j: int|
            i < j < modified@.len() ==> !time_le(modified@[i as int], #[trigger] modified@[j]))),
{
    if modified.len() == 0 {
        return None;
    }
    let mut best: usize = 0;
    let mut i: usize = 1;
    while i < modified.len()
        invariant
            1 <= i <= modified@.len(),
            best < i,
            forall|j: int| 0 <= j < i ==> time_le(#[trigger] modified@[j], modified@[best as int]),
            forall|j: int| best < j < i ==> !time_le(modified@[best as int], #[trigger] modified@[j]),
        decreases modified@.len() - i,
    {
        if time_le_exec(modified[best], modified[i]) {
            proof {
                assert forall|j: int| 0 <= j < i + 1 implies time_le(#[trigger] modified@[j], modified@[i as int]) by {
                    if j < i {
                        let a = modified@[j];
                        let b = modified@[best as int];
                        assert(time_le(a, b));
                    }
                }
            }
            best = i;
        }
        i = i + 1;
    }
    Some(best)
}

proof fn lemma_generated_under(top: Seq<char>, rest: Seq<char>, c: char)
    requires
        c == '/' || c == '\\',
        !top.contains('/'),
        !top.contains('\\'),
        crate::digest::generated_top(crate::text::ascii_lower(top)),
        crate::text::all_ascii(top),
        crate::text::all_ascii(rest),
    ensures
        spec_is_generated(top + seq![c] + rest),
{
    let l = crate::text::ascii_lower(top);
    reveal_strlit("/");
    let r = slashes(rest);
    let x = slashes(top + seq![c] + rest);
    assert(slashes(top) =~= top);
    assert(x =~= top + seq!['/'] + r);
    assert(crate::text::all_ascii(x)) by {
        assert forall|i: int| 0 <= i < x.len() implies crate::text::is_ascii_char(#[trigger] x[i]) by {
            if i < top.len() {
                assert(x[i] == top[i]);
            } else if i > top.len() {
                assert(x[i] == r[i - top.len() - 1]);
                assert(crate::text::is_ascii_char(rest[i - top.len() - 1]));
            }
        }
    }
    let lx = lowercase(x);
    assert(lx == crate::text::ascii_lower(x));
    assert(lx =~= l + seq!['/'] + crate::text::ascii_lower(r));
    assert(lx.take(l.len() + 1 as int) =~= l + "/"@);
}

/// A whole generated or Bridge-owned tree is skipped, ignoring ASCII case and written
/// with `/` or `\\`: the top-level `.godot`, `.git`, `build`, `builds` or `logs` itself
/// and everything under it.
pub proof fn law_generated_trees_are_skipped(top: Seq<char>, rest: Seq<char>)
    requires
        crate::digest::generated_top(crate::text::ascii_lower(top)),
        crate::text::all_ascii(top),
        crate::text::all_ascii(rest),
    ensures
        spec_is_generated(top),
        spec_is_generated(top + seq!['/'] + rest),
        spec_is_generated(top + seq!['\\'] + rest),
{
    let l = crate::text::ascii_lower(top);
    reveal_strlit(".godot");
    reveal_strlit(".git");
    reveal_strlit("build");
    reveal_strlit("builds");
    reveal_strlit("logs");
    assert(forall|i: int| 0 <= i < l.len() ==> l[i] != '/' && l[i] != '\\') by {
        assert(forall|i: int| 0 <= i < ".godot"@.len() ==> ".godot"@[i] != '/' && ".godot"@[i] != '\\');
        assert(forall|i: int| 0 <= i < ".git"@.len() ==> ".git"@[i] != '/' && ".git"@[i] != '\\');
        assert(forall|i: int| 0 <= i < "build"@.len() ==> "build"@[i] != '/' && "build"@[i] != '\\');
        assert(forall|i: int| 0 <= i < "builds"@.len() ==> "builds"@[i] != '/' && "builds"@[i] != '\\');
        assert(forall|i: int| 0 <= i < "logs"@.len() ==> "logs"@[i] != '/' && "logs"@[i] != '\\');
    }
    assert(!top.contains('/') && !top.contains('\\')) by {
        if top.contains('/') || top.contains('\\') {
            let k = choose|k: int| 0 <= k < top.len() && (top[k] == '/' || top[k] == '\\');
            assert(l[k] == crate::text::lower_char(top[k]));
        }
    }
    assert(slashes(top) =~= top);
    assert(lowercase(slashes(top)) == l);
    lemma_generated_under(top, rest, '/');
    lemma_generated_under(top, rest, '\\');
}

proof fn lemma_not_under(s: Seq<char>, l: Seq<char>, p: Seq<char>)
    requires
        l != p,
        l.len() <= s.len(),
        s.take(l.len() as int) == l,
        forall|k: int| 0 <= k < l.len() ==> l[k] != '/',
        forall|k: int| 0 <= k < p.len() ==> p[k] != '/',
        s.len() == l.len() || s[l.len() as int] == '/',
    ensures
        !at_or_under(s, p),
{
    reveal_strlit("/");
    if s == p {
        if s.len() == l.len() {
            assert(l =~= s);
        } else {
            assert(p[l.len() as int] == '/');
        }
    }
    if starts_with(s, p + "/"@) {
        let q = p + "/"@;
        assert(s.take(q.len() as int) == q);
        if p.len() < l.len() {
            assert(s[p.len() as int] == q[p.len() as int]);
            assert(l[p.len() as int] == s[p.len() as int]);
        } else if p.len() > l.len() {
            assert(s[l.len() as int] == q[l.len() as int]);
            assert(q[l.len() as int] == p[l.len() as int]);
        } else {
            assert(l =~= p) by {
                assert forall|k: int| 0 <= k < l.len() implies l[k] == p[k] by {
                    assert(s[k] == l[k]);
                    assert(s[k] == q[k]);
                }
            }
        }
    }
}

/// Only those trees are skipped: an ASCII entry whose top-level name, lower-cased, is
/// none of them (`buildings/`, `game/.git`, `src/`) is never treated as generated.
pub proof fn law_other_trees_are_kept(top: Seq<char>, rest: Seq<char>)
    requires
        !crate::digest::generated_top(crate::text::ascii_lower(top)),
        !top.contains('/'),
        !top.contains('\\'),
        crate::text::all_ascii(top),
        crate::text::all_ascii(rest),
    ensures
        !spec_is_generated(top),
        !spec_is_generated(top + seq!['/'] + rest),
{
    reveal_strlit(".godot");
    reveal_strlit(".git");
    reveal_strlit("build");
    reveal_strlit("builds");
    reveal_strlit("logs");
    let l = crate::text::ascii_lower(top);
    assert(forall|k: int| 0 <= k < ".godot"@.len() ==> ".godot"@[k] != '/');
    assert(forall|k: int| 0 <= k < ".git"@.len() ==> ".git"@[k] != '/');
    assert(forall|k: int| 0 <= k < "build"@.len() ==> "build"@[k] != '/');
    assert(forall|k: int| 0 <= k < "builds"@.len() ==> "builds"@[k] != '/');
    assert(forall|k: int| 0 <= k < "logs"@.len() ==> "logs"@[k] != '/');
    assert forall|k: int| 0 <= k < l.len() implies l[k] != '/' by {
        assert(top[k] != '/' && top[k] != '\\') by {
            if top[k] == '/' || top[k] == '\\' {
                assert(top.contains(top[k]));
            }
        }
    }
    // The top-level name alone.
    assert(slashes(top) =~= top) by {
        assert forall|k: int| 0 <= k < top.len() implies slashes(top)[k] == top[k] by {
            if top[k] == '\\' {
                assert(top.contains('\\'));
            }
        }
    }
    assert(lowercase(slashes(top)) == l);
    assert(l.take(l.len() as int) =~= l);
    lemma_not_under(l, l, ".godot"@);
    lemma_not_under(l, l, ".git"@);
    lemma_not_under(l, l, "build"@);
    lemma_not_under(l, l, "builds"@);
    lemma_not_under(l, l, "logs"@);
    // Anything below it.
    let r = slashes(rest);
    let x = slashes(top + seq!['/'] + rest);
    assert(x =~= top + seq!['/'] + r);
    assert(crate::text::all_ascii(x)) by {
        assert forall|k: int| 0 <= k < x.len() implies crate::text::is_ascii_char(#[trigger] x[k]) by {
            if k < top.len() {
                assert(x[k] == top[k]);
            } else if k > top.len() {
                assert(x[k] == r[k - top.len() - 1]);
                assert(crate::text::is_ascii_char(rest[k - top.len() - 1]));
            }
        }
    }
    let sx = lowercase(x);
    assert(sx =~= l + seq!['/'] + crate::text::ascii_lower(r));
    assert(sx.take(l.len() as int) =~= l);
    assert(sx[l.len() as int] == '/');
    lemma_not_under(sx, l, ".godot"@);
    lemma_not_under(sx, l, ".git"@);
    lemma_not_under(sx, l, "build"@);
    lemma_not_under(sx, l, "builds"@);
    lemma_not_under(sx, l, "logs"@);
}

} // verus!
