//! The bundled Godot runtime: which executable is the command-line worker, what its
//! integrity manifest must say, whether it reports the project's engine version,
//! and the provenance an installed build must carry.
use vstd::prelude::*;
use vstd::string::StringExecFns;
use crate::context::order::{chars_le, lemma_lex_total, lemma_lex_trans, lex_le};
use crate::text::{
    ascii_lower, chars_of, decimal, ends_with, is_hex_digit, push_str, starts_with, u64_decimal, vec_ascii_lower,
    vec_ends_with, vec_starts_with,
};

verus! {

/// A runtime file named by the integrity manifest.
#[derive(Debug, Clone)]
pub struct RuntimeFile {
    pub path: String,
    pub sha256: String,
}

/// The runtime directory's integrity manifest.
#[derive(Debug, Clone)]
pub struct RuntimeManifest {
    pub schema: u32,
    pub engine_version: String,
    pub files: Vec<RuntimeFile>,
}

/// A console build of Godot: the file name ends with `_console.exe`, any letter case.
pub open spec fn console_worker(name: Seq<char>) -> bool {
    ends_with(ascii_lower(name), "_console.exe"@)
}

/// Which executable runs Godot work.
#[derive(Debug, Clone, Copy, PartialEq, Eq, Structural)]
pub enum WorkerChoice {
    /// The console build at this position of the listing.
    Console(usize),
    /// No console build; `godot.exe` is used.
    Legacy,
}

/// Picks the command-line worker among the regular files of the runtime directory:
/// the first console build in name order, else `godot.exe`.
pub fn select_worker(names: &Vec<String>) -> (c: WorkerChoice)
    ensures
        match c {
            WorkerChoice::Console(i) => i < names@.len() && console_worker(names@[i as int]@) && forall|j: int|
                0 <= j < names@.len() && console_worker(#[trigger] names@[j]@) ==> lex_le(names@[i as int]@, names@[j]@),
            WorkerChoice::Legacy => forall|j: int| 0 <= j < names@.len() ==> !console_worker(#[trigger] names@[j]@),
        },
{
    let mut best: Option<usize> = None;
    let mut i: usize = 0;
    while i < names.len()
        invariant
            i <= names@.len(),
            match best {
                None => forall|j: int| 0 <= j < i ==> !console_worker(#[trigger] names@[j]@),
                Some(b) => b < i && console_worker(names@[b as int]@) && forall|j: int|
                    0 <= j < i && console_worker(#[trigger] names@[j]@) ==> lex_le(names@[b as int]@, names@[j]@),
            },
        decreases names@.len() - i,
    {
        let v = chars_of(names[i].as_str());
        let lower = vec_ascii_lower(&v);
        if vec_ends_with(&lower, "_console.exe") {
            match best {
                None => {
                    proof {
                        crate::context::order::lemma_lex_refl(names@[i as int]@);
                    }
                    best = Some(i);
                },
                Some(b) => {
                    let bv = chars_of(names[b].as_str());
                    if !chars_le(&bv, &v) {
                        proof {
                            lemma_lex_total(names@[b as int]@, names@[i as int]@);
                            crate::context::order::lemma_lex_refl(names@[i as int]@);
                            assert forall|j: int|
                                0 <= j < i + 1 && console_worker(#[trigger] names@[j]@) implies lex_le(
                                names@[i as int]@,
                                names@[j]@,
                            ) by {
                                if j < i {
                                    lemma_lex_trans(names@[i as int]@, names@[b as int]@, names@[j]@);
                                }
                            }
                        }
                        best = Some(i);
                    }
                },
            }
        }
        i = i + 1;
    }
    match best {
        None => WorkerChoice::Legacy,
        Some(b) => WorkerChoice::Console(b),
    }
}

/// The engine's reported version matches the project's: equal, or a patch or
/// pre-release suffix of it (`4.7.2.stable`, `4.7.2-rc1`).
pub open spec fn version_matches(expected: Seq<char>, actual: Seq<char>) -> bool {
    actual == expected || starts_with(actual, expected + "."@) || starts_with(actual, expected + "-"@)
}

/// Compares the version the executable reported with the project's, with the detail
/// a validation step records.
pub fn verify_engine_version(expected: &str, actual: &str) -> (r: (bool, String))
    ensures
        r.0 == version_matches(expected@, actual@),
        r.0 ==> r.1@ == "Godot executable reports "@ + actual@,
        !r.0 ==> r.1@ == "Godot executable reports "@ + actual@ + "; project requires "@ + expected@,
{
    let a = chars_of(actual);
    let e = chars_of(expected);
    let mut dot = String::from_str(expected);
    push_str(&mut dot, ".");
    let mut dash = String::from_str(expected);
    push_str(&mut dash, "-");
    let ok = crate::text::vec_eq(&a, &e) || vec_starts_with(&a, dot.as_str()) || vec_starts_with(&a, dash.as_str());
    let mut detail = String::from_str("Godot executable reports ");
    push_str(&mut detail, actual);
    if !ok {
        push_str(&mut detail, "; project requires ");
        push_str(&mut detail, expected);
    }
    (ok, detail)
}

/// Why the integrity manifest does not vouch for the runtime.
pub open spec fn schema_detail(schema: u32) -> Seq<char> {
    "Unsupported runtime manifest schema "@ + decimal(schema as nat)
}

/// Only schema 1 manifests are read; the detail says which schema was found.
pub fn check_runtime_schema(m: &RuntimeManifest) -> (r: Option<String>)
    ensures
        m.schema == 1 ==> r is None,
        m.schema != 1 ==> (r matches Some(d) && d@ == schema_detail(m.schema)),
{
    if m.schema == 1 {
        None
    } else {
        let mut d = String::from_str("Unsupported runtime manifest schema ");
        let n = u64_decimal(m.schema as u64);
        push_str(&mut d, n.as_str());
        Some(d)
    }
}

/// One manifest file against the runtime directory: it must be a regular file
/// (`is_file`) whose SHA-256 (`actual`, computed only for a regular file) matches.
pub fn check_runtime_file(f: &RuntimeFile, is_file: bool, actual: &String) -> (r: Option<String>)
    ensures
        !is_file ==> (r matches Some(d) && d@ == "Runtime file missing: "@ + f.path@),
        is_file && actual@ != f.sha256@ ==> (r matches Some(d) && d@ == "Runtime hash mismatch: "@ + f.path@),
        is_file && actual@ == f.sha256@ ==> r is None,
{
    if !is_file {
        let mut d = String::from_str("Runtime file missing: ");
        push_str(&mut d, f.path.as_str());
        return Some(d);
    }
    if *actual != f.sha256 {
        let mut d = String::from_str("Runtime hash mismatch: ");
        push_str(&mut d, f.path.as_str());
        return Some(d);
    }
    None
}

/// The detail of a verified runtime.
pub fn verified_detail(m: &RuntimeManifest) -> (d: String)
    ensures
        d@ == "Godot "@ + m.engine_version@ + " runtime verified ("@ + decimal(m.files@.len()) + " files)"@,
{
    let mut d = String::from_str("Godot ");
    push_str(&mut d, m.engine_version.as_str());
    push_str(&mut d, " runtime verified (");
    let n = u64_decimal(m.files.len() as u64);
    push_str(&mut d, n.as_str());
    push_str(&mut d, " files)");
    d
}

/// The version line of `godot --version`: its output trimmed, refused when empty.
pub fn version_line(output: &str) -> (r: Option<String>)
    ensures
        r is None <==> crate::validation::trim(output@).len() == 0,
        r matches Some(v) ==> v@ == crate::validation::trim(output@),
{
    let v = chars_of(output);
    let t = crate::validation::trim_chars(&v);
    if t.len() == 0 {
        return None;
    }
    let s = crate::text::string_of(&t, 0, t.len());
    proof {
        assert(t@.subrange(0, t@.len() as int) =~= t@);
    }
    Some(s)
}

/// An installed build names the 40-hex-digit commit it was made from.
pub open spec fn commit_provenance(commit: Seq<char>) -> bool {
    commit.len() == 40 && forall|i: int| 0 <= i < commit.len() ==> #[trigger] is_hex_digit(commit[i])
}

/// Checks the packaged source commit before the installed acceptance probe runs.
pub fn has_commit_provenance(commit: &str) -> (b: bool)
    ensures
        b == commit_provenance(commit@),
{
    let v = chars_of(commit);
    if v.len() != 40 {
        return false;
    }
    let mut i: usize = 0;
    while i < v.len()
        invariant
            i <= v@.len(),
            v@ == commit@,
            forall|k: int| 0 <= k < i ==> #[trigger] is_hex_digit(v@[k]),
        decreases v@.len() - i,
    {
        let c = v[i];
        if !(('0' <= c && c <= '9') || ('a' <= c && c <= 'f') || ('A' <= c && c <= 'F')) {
            proof {
                assert(!is_hex_digit(commit@[i as int]));
            }
            return false;
        }
        i = i + 1;
    }
    true
}

} // verus!
