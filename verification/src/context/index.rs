//! The source-index identity: SHA-256 of the JSON rows `(path, bytes, sha256)` of the
//! eligible files, in inventory order. Excluded files are not covered.
use vstd::prelude::*;
use crate::context::plan::Entry;
use crate::digest::{sha256_bytes, sha256_hex};
use crate::project::BridgeProject;
use vstd::string::StringExecFns;

verus! {

#[verifier::external_type_specification]
#[verifier::external_body]
pub struct ExJsonError(serde_json::Error);

/// The rows the index hash covers.
pub open spec fn index_rows(es: Seq<Entry>) -> Seq<(Seq<char>, u64, Seq<char>)> {
    es.map_values(|e: Entry| (e.path@, e.bytes, e.sha256@))
}

/// What `serde_json::to_vec` writes for a list of `(String, u64, String)` rows.
pub uninterp spec fn json_rows(rows: Seq<(Seq<char>, u64, Seq<char>)>) -> Seq<u8>;

/// `serde_json::to_vec` of the rows `(path, bytes, sha256)` of `entries`. Its result is
/// named. The crate documents failure only for a failing `Serialize` impl or a map with
/// non-string keys, neither of which strings and integers have, so it succeeds.
#[verifier::external_body]
fn rows_json(entries: &Vec<Entry>) -> (r: Result<Vec<u8>, serde_json::Error>)
    ensures
        r is Ok,
        r is Ok ==> r.unwrap()@ == json_rows(index_rows(entries@)),
{
    let rows: Vec<(&String, u64, &String)> = entries.iter().map(|e| (&e.path, e.bytes, &e.sha256)).collect();
    serde_json::to_vec(&rows)
}

/// Stable identity of the eligible game files: paths, sizes and hashes.
pub fn index_hash(entries: &Vec<Entry>) -> (h: String)
    ensures
        h@ == sha256_hex(json_rows(index_rows(entries@))),
{
    match rows_json(entries) {
        Ok(bytes) => sha256_bytes(bytes.as_slice()),
        Err(_) => {
            proof {
                assert(false);
            }
            String::new()
        },
    }
}

/// The source-index identity covers paths, sizes and hashes only: capture decisions
/// (`included`, `reason`) and area ownership never change it, so the identity taken
/// before capture is the identity of the exported inventory.
pub proof fn law_index_ignores_capture(a: Seq<Entry>, b: Seq<Entry>)
    requires
        a.len() == b.len(),
        forall|i: int|
            0 <= i < a.len() ==> #[trigger] a[i].path@ == b[i].path@ && a[i].bytes == b[i].bytes && a[i].sha256@
                == b[i].sha256@,
    ensures
        index_rows(a) == index_rows(b),
        sha256_hex(json_rows(index_rows(a))) == sha256_hex(json_rows(index_rows(b))),
{
    assert(index_rows(a) =~= index_rows(b));
}

/// What the acceptance check reads back from a generated pack's manifest, each field
/// when it has the expected JSON type.
pub struct GeneratedIdentity {
    pub schema: Option<i64>,
    pub project_kind: Option<String>,
    pub project_id: Option<String>,
    pub revision: Option<u64>,
    pub module_id: Option<String>,
}

pub open spec fn opt_text(s: Option<String>) -> Option<Seq<char>> {
    match s {
        Some(t) => Some(t@),
        None => None,
    }
}

fn opt_text_is(s: &Option<String>, t: &String) -> (b: bool)
    ensures
        b == (opt_text(*s) == Some(t@)),
{
    match s {
        Some(x) => *x == *t,
        None => false,
    }
}

/// A generated pack names schema 2, a game, and exactly the requested project,
/// revision and area.
pub fn generated_identity_ok(g: &GeneratedIdentity, meta: &BridgeProject, module_id: &str) -> (b: bool)
    ensures
        b == (g.schema == Some(2i64) && opt_text(g.project_kind) == Some("game"@) && opt_text(g.project_id) == Some(
            meta.project_id@,
        ) && g.revision == Some(meta.revision) && opt_text(g.module_id) == Some(module_id@)),
{
    let schema_ok = match g.schema {
        Some(v) => v == 2,
        None => false,
    };
    let revision_ok = match g.revision {
        Some(v) => v == meta.revision,
        None => false,
    };
    schema_ok && opt_text_is(&g.project_kind, &String::from_str("game")) && opt_text_is(&g.project_id, &meta.project_id)
        && revision_ok && opt_text_is(&g.module_id, &String::from_str(module_id))
}

} // verus!
