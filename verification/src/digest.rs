//! SHA-256 identities: file and payload hashes, and the tree fingerprint format
//! `bridge-tree-v1` that binds every entry path, kind, size and byte of a tree.
use vstd::prelude::*;
use sha2::{Digest, Sha256};
use crate::journal::Fingerprint;

verus! {

/// A running `sha2::Sha256`. Verus refuses to declare `Sha256` itself (an alias of a
/// generic wrapper over `typenum` parameters), so the hasher is held here, opaque, and
/// described only by the bytes it has absorbed.
#[verifier::external_body]
pub struct Sha256State {
    h: Sha256,
}

/// The bytes a SHA-256 hasher has absorbed so far.
pub uninterp spec fn sha256_absorbed(h: Sha256State) -> Seq<u8>;

/// The SHA-256 digest of a byte sequence.
pub uninterp spec fn sha256_digest(data: Seq<u8>) -> Seq<u8>;

/// `Sha256::new`: a hasher that has absorbed nothing.
#[verifier::external_body]
fn hasher_new() -> (h: Sha256State)
    ensures
        sha256_absorbed(h) == Seq::<u8>::empty(),
{
    Sha256State { h: Sha256::new() }
}

/// `Digest::update`: the hasher absorbs `data` after what it already holds.
#[verifier::external_body]
fn hasher_update(h: &mut Sha256State, data: &[u8])
    ensures
        sha256_absorbed(*final(h)) == sha256_absorbed(*old(h)) + data@,
{
    h.h.update(data)
}

/// `Digest::finalize`: the 32-byte digest of everything absorbed.
#[verifier::external_body]
fn hasher_finalize(h: Sha256State) -> (d: Vec<u8>)
    ensures
        d@ == sha256_digest(sha256_absorbed(h)),
        d@.len() == 32,
{
    h.h.finalize().to_vec()
}

pub open spec fn hex_digit(n: u8) -> char {
    if n < 10 {
        ((48 + n) as u8) as char
    } else {
        ((87 + n) as u8) as char
    }
}

/// Lower-case hexadecimal, two characters per byte, high nibble first.
pub open spec fn spec_hex(bytes: Seq<u8>) -> Seq<char>
    decreases bytes.len(),
{
    if bytes.len() == 0 {
        Seq::empty()
    } else {
        spec_hex(bytes.drop_last()) + seq![hex_digit(bytes.last() / 16), hex_digit(bytes.last() % 16)]
    }
}

/// `hex::encode`: lower-case hexadecimal of the bytes.
#[verifier::external_body]
fn hex_encode(bytes: &[u8]) -> (s: String)
    ensures
        s@ == spec_hex(bytes@),
{
    hex::encode(bytes)
}

pub proof fn lemma_hex_len(bytes: Seq<u8>)
    ensures
        spec_hex(bytes).len() == 2 * bytes.len(),
    decreases bytes.len(),
{
    if bytes.len() > 0 {
        lemma_hex_len(bytes.drop_last());
    }
}

/// The hex SHA-256 of a byte sequence, as stored in manifests and fingerprints.
pub open spec fn sha256_hex(data: Seq<u8>) -> Seq<char> {
    spec_hex(sha256_digest(data))
}

/// SHA-256 of `bytes`, lower-case hex.
pub fn sha256_bytes(bytes: &[u8]) -> (s: String)
    ensures
        s@ == sha256_hex(bytes@),
        s@.len() == 64,
{
    let mut h = hasher_new();
    hasher_update(&mut h, bytes);
    let d = hasher_finalize(h);
    proof {
        assert(Seq::<u8>::empty() + bytes@ =~= bytes@);
        lemma_hex_len(d@);
    }
    hex_encode(d.as_slice())
}

/// Streaming SHA-256 of one file's bytes.
pub struct FileHasher {
    h: Sha256State,
}

impl FileHasher {
    pub closed spec fn absorbed(self) -> Seq<u8> {
        sha256_absorbed(self.h)
    }

    pub fn new() -> (f: Self)
        ensures
            f.absorbed() == Seq::<u8>::empty(),
    {
        FileHasher { h: hasher_new() }
    }

    pub fn update(&mut self, chunk: &[u8])
        ensures
            final(self).absorbed() == old(self).absorbed() + chunk@,
    {
        hasher_update(&mut self.h, chunk);
    }

    pub fn finish(self) -> (s: String)
        ensures
            s@ == sha256_hex(self.absorbed()),
            s@.len() == 64,
    {
        let d = hasher_finalize(self.h);
        proof {
            lemma_hex_len(d@);
        }
        hex_encode(d.as_slice())
    }
}

/// `bridge-tree-v1\0`
pub open spec fn tree_prefix() -> Seq<u8> {
    seq![98u8, 114, 105, 100, 103, 101, 45, 116, 114, 101, 101, 45, 118, 49, 0]
}

/// An entry's kind tag, its UTF-8 path length as a little-endian u64, and the path.
pub open spec fn path_record(tag: u8, rel: Seq<char>) -> Seq<u8> {
    seq![tag] + vstd::bytes::spec_u64_to_le_bytes(vstd::utf8::encode_utf8(rel).len() as u64)
        + vstd::utf8::encode_utf8(rel)
}

/// One entry of a tree walk: its normalized relative path and, for a file, the size
/// recorded before reading and the bytes read.
pub struct TreeRecord {
    pub rel: Seq<char>,
    pub file: Option<(u64, Seq<u8>)>,
}

/// A directory is `D` and its path; a file is `F`, its path, its size, then its bytes.
pub open spec fn record_bytes(r: TreeRecord) -> Seq<u8> {
    match r.file {
        None => path_record(68u8, r.rel),
        Some((len, content)) => path_record(70u8, r.rel) + vstd::bytes::spec_u64_to_le_bytes(len)
            + content,
    }
}

/// The byte stream a tree's fingerprint digests: the format tag, then each entry in walk order.
pub open spec fn tree_stream(records: Seq<TreeRecord>) -> Seq<u8>
    decreases records.len(),
{
    if records.len() == 0 {
        tree_prefix()
    } else {
        tree_stream(records.drop_last()) + record_bytes(records.last())
    }
}

/// Builds a tree fingerprint entry by entry; a file's bytes may arrive in chunks.
pub struct TreeHasher {
    h: Sha256State,
    records: Ghost<Seq<TreeRecord>>,
    /// The file whose bytes are still arriving: path, recorded size, bytes so far.
    open_file: Ghost<Option<(Seq<char>, u64, Seq<u8>)>>,
}

impl TreeHasher {
    /// Entries completed so far, in order.
    pub closed spec fn records(self) -> Seq<TreeRecord> {
        self.records@
    }

    /// The file entry still receiving bytes: path, recorded size, bytes so far.
    pub closed spec fn open_file(self) -> Option<(Seq<char>, u64, Seq<u8>)> {
        self.open_file@
    }

    /// Whether a file entry is open for more bytes.
    pub closed spec fn in_file(self) -> bool {
        self.open_file@ is Some
    }

    pub closed spec fn wf(self) -> bool {
        sha256_absorbed(self.h) == tree_stream(self.records@) + match self.open_file@ {
            None => Seq::<u8>::empty(),
            Some((rel, len, content)) => record_bytes(
                TreeRecord { rel, file: Some((len, content)) },
            ),
        }
    }

    pub fn new() -> (t: Self)
        ensures
            t.wf(),
            !t.in_file(),
            t.records() == Seq::<TreeRecord>::empty(),
    {
        let mut h = hasher_new();
        let prefix = [98u8, 114, 105, 100, 103, 101, 45, 116, 114, 101, 101, 45, 118, 49, 0];
        hasher_update(&mut h, prefix.as_slice());
        proof {
            assert(prefix@ =~= tree_prefix());
            assert(sha256_absorbed(h) =~= tree_stream(Seq::<TreeRecord>::empty()) + Seq::<u8>::empty());
        }
        TreeHasher { h, records: Ghost(Seq::empty()), open_file: Ghost(None) }
    }

    fn absorb_path(&mut self, tag: u8, rel: &str)
        ensures
            sha256_absorbed(final(self).h) == sha256_absorbed(old(self).h) + path_record(tag, rel@),
            final(self).records == old(self).records,
            final(self).open_file == old(self).open_file,
    {
        let tag_bytes = [tag];
        hasher_update(&mut self.h, tag_bytes.as_slice());
        let bytes = rel.as_bytes();
        let n = bytes.len();
        let len_bytes = vstd::bytes::u64_to_le_bytes(n as u64);
        hasher_update(&mut self.h, len_bytes.as_slice());
        hasher_update(&mut self.h, bytes);
        proof {
            assert(tag_bytes@ =~= seq![tag]);
            assert(sha256_absorbed(self.h) =~= sha256_absorbed(old(self).h) + path_record(tag, rel@));
        }
    }

    /// Adds a directory entry.
    pub fn add_dir(&mut self, rel: &str)
        requires
            old(self).wf(),
            !old(self).in_file(),
        ensures
            final(self).wf(),
            !final(self).in_file(),
            final(self).records() == old(self).records().push(TreeRecord { rel: rel@, file: None }),
    {
        self.absorb_path(68u8, rel);
        let ghost r = TreeRecord { rel: rel@, file: None };
        proof {
            let recs = old(self).records@.push(r);
            assert(recs.drop_last() =~= old(self).records@);
            assert(sha256_absorbed(self.h) =~= tree_stream(recs) + Seq::<u8>::empty());
            self.records@ = recs;
        }
    }

    /// Opens a file entry of recorded size `len`; its bytes follow with `add_bytes`.
    pub fn begin_file(&mut self, rel: &str, len: u64)
        requires
            old(self).wf(),
            !old(self).in_file(),
        ensures
            final(self).wf(),
            final(self).in_file(),
            final(self).records() == old(self).records(),
            final(self).open_file() == Some((rel@, len, Seq::<u8>::empty())),
    {
        self.absorb_path(70u8, rel);
        let len_bytes = vstd::bytes::u64_to_le_bytes(len);
        hasher_update(&mut self.h, len_bytes.as_slice());
        proof {
            self.open_file@ = Some((rel@, len, Seq::<u8>::empty()));
            assert(sha256_absorbed(self.h) =~= tree_stream(self.records@) + record_bytes(
                TreeRecord { rel: rel@, file: Some((len, Seq::<u8>::empty())) },
            ));
        }
    }

    /// More bytes of the open file.
    pub fn add_bytes(&mut self, chunk: &[u8])
        requires
            old(self).wf(),
            old(self).in_file(),
        ensures
            final(self).wf(),
            final(self).in_file(),
            final(self).records() == old(self).records(),
            final(self).open_file() == Some(
                (
                    old(self).open_file().unwrap().0,
                    old(self).open_file().unwrap().1,
                    old(self).open_file().unwrap().2 + chunk@,
                ),
            ),
    {
        hasher_update(&mut self.h, chunk);
        proof {
            let (rel, len, content) = old(self).open_file().unwrap();
            self.open_file@ = Some((rel, len, content + chunk@));
            assert(sha256_absorbed(self.h) =~= tree_stream(self.records@) + record_bytes(
                TreeRecord { rel, file: Some((len, content + chunk@)) },
            ));
        }
    }

    /// Closes the open file entry.
    pub fn end_file(&mut self)
        requires
            old(self).wf(),
            old(self).in_file(),
        ensures
            final(self).wf(),
            !final(self).in_file(),
            final(self).records() == old(self).records().push(
                TreeRecord {
                    rel: old(self).open_file().unwrap().0,
                    file: Some((old(self).open_file().unwrap().1, old(self).open_file().unwrap().2)),
                },
            ),
    {
        proof {
            let (rel, len, content) = self.open_file@.unwrap();
            let recs = self.records@.push(TreeRecord { rel, file: Some((len, content)) });
            assert(recs.drop_last() =~= self.records@);
            assert(tree_stream(recs) + Seq::<u8>::empty() =~= tree_stream(recs));
            self.records@ = recs;
            self.open_file@ = None;
        }
    }

    /// The fingerprint of a present tree with the entries added so far.
    pub fn finish(self) -> (f: Fingerprint)
        requires
            self.wf(),
            !self.in_file(),
        ensures
            f.present,
            f.sha256@ == sha256_hex(tree_stream(self.records())),
            f.sha256@.len() == 64,
    {
        let d = hasher_finalize(self.h);
        proof {
            assert(tree_stream(self.records@) + Seq::<u8>::empty() =~= tree_stream(self.records@));
            lemma_hex_len(d@);
        }
        Fingerprint { present: true, sha256: hex_encode(d.as_slice()) }
    }
}

/// A source snapshot leaves out generated and Bridge-owned top-level trees
/// (`.godot`, `.git`, `build`, `builds`, `logs`, any ASCII letter case); a build
/// snapshot leaves out nothing.
pub open spec fn spec_snapshot_excluded(rel: Seq<char>, source: bool) -> bool {
    let first = crate::text::ascii_lower(crate::context::policy::split_on(rel, '/')[0]);
    source && (first == ".godot"@ || first == ".git"@ || first == "build"@ || first == "builds"@ || first == "logs"@)
}

/// Whether a snapshot skips the entry at relative path `rel`.
pub fn snapshot_excluded(rel: &str, source: bool) -> (b: bool)
    ensures
        b == spec_snapshot_excluded(rel@, source),
{
    let v = crate::text::chars_of(rel);
    let parts = crate::context::policy::split_chars(&v, '/');
    proof {
        crate::context::policy::lemma_split_nonempty(v@, '/');
        assert(crate::context::policy::views(parts@)[0] == parts@[0]@);
    }
    let first = crate::text::vec_ascii_lower(&parts[0]);
    source && (crate::text::vec_eq_str(&first, ".godot") || crate::text::vec_eq_str(&first, ".git")
        || crate::text::vec_eq_str(&first, "build") || crate::text::vec_eq_str(&first, "builds")
        || crate::text::vec_eq_str(&first, "logs"))
}

/// The entries of a walk that a snapshot keeps, in walk order.
pub open spec fn kept_paths(paths: Seq<Seq<char>>, source: bool) -> Seq<Seq<char>>
    decreases paths.len(),
{
    if paths.len() == 0 {
        paths
    } else {
        let sub = kept_paths(paths.drop_last(), source);
        if spec_snapshot_excluded(paths.last(), source) {
            sub
        } else {
            sub.push(paths.last())
        }
    }
}

pub open spec fn record_paths(records: Seq<TreeRecord>) -> Seq<Seq<char>> {
    records.map_values(|r: TreeRecord| r.rel)
}

/// The fingerprint of a present tree whose kept entries are `records`.
pub open spec fn spec_tree_fingerprint(records: Seq<TreeRecord>) -> (bool, Seq<char>) {
    (true, sha256_hex(tree_stream(records)))
}

/// A tree walk that decides, entry by entry, what the fingerprint covers: every entry
/// the walk meets is offered, and exactly the entries a snapshot keeps (in walk order)
/// are hashed. Nothing under an excluded top-level tree reaches the digest.
pub struct TreeWalk {
    tree: TreeHasher,
    source: bool,
    offered: Ghost<Seq<Seq<char>>>,
}

impl TreeWalk {
    /// Every entry offered so far, kept or not, in walk order.
    pub closed spec fn offered(self) -> Seq<Seq<char>> {
        self.offered@
    }

    /// Whether this walk fingerprints a source tree (which leaves out generated trees).
    pub closed spec fn source(self) -> bool {
        self.source
    }

    /// The entries hashed so far.
    pub closed spec fn records(self) -> Seq<TreeRecord> {
        self.tree.records()
    }

    pub closed spec fn in_file(self) -> bool {
        self.tree.in_file()
    }

    pub closed spec fn open_file(self) -> Option<(Seq<char>, u64, Seq<u8>)> {
        self.tree.open_file()
    }

    pub closed spec fn wf(self) -> bool {
        &&& self.tree.wf()
        &&& if self.tree.in_file() {
            &&& self.offered@.len() > 0
            &&& self.tree.open_file().unwrap().0 == self.offered@.last()
            &&& !spec_snapshot_excluded(self.offered@.last(), self.source)
            &&& record_paths(self.tree.records()) == kept_paths(self.offered@.drop_last(), self.source)
        } else {
            record_paths(self.tree.records()) == kept_paths(self.offered@, self.source)
        }
    }

    pub fn new(source: bool) -> (w: Self)
        ensures
            w.wf(),
            !w.in_file(),
            w.source() == source,
            w.offered() == Seq::<Seq<char>>::empty(),
            w.records() == Seq::<TreeRecord>::empty(),
    {
        let w = TreeWalk { tree: TreeHasher::new(), source, offered: Ghost(Seq::empty()) };
        proof {
            assert(record_paths(w.tree.records()) =~= kept_paths(Seq::<Seq<char>>::empty(), source));
        }
        w
    }

    /// Offers an entry that a snapshot may exclude before anything else is known of it:
    /// an excluded entry is skipped (offered, never hashed, never walked into); any
    /// other is left for `dir` or `file`.
    pub fn skip_excluded(&mut self, rel: &str) -> (skipped: bool)
        requires
            old(self).wf(),
            !old(self).in_file(),
        ensures
            final(self).wf(),
            !final(self).in_file(),
            final(self).source() == old(self).source(),
            final(self).records() == old(self).records(),
            skipped == spec_snapshot_excluded(rel@, old(self).source()),
            skipped ==> final(self).offered() == old(self).offered().push(rel@),
            !skipped ==> final(self).offered() == old(self).offered(),
    {
        let skip = snapshot_excluded(rel, self.source);
        if skip {
            let ghost before = self.offered@;
            proof {
                self.offered@ = before.push(rel@);
                assert(self.offered@.drop_last() =~= before);
            }
        }
        skip
    }

    /// Offers a directory; it is hashed and walked into unless a snapshot excludes it.
    pub fn dir(&mut self, rel: &str) -> (descend: bool)
        requires
            old(self).wf(),
            !old(self).in_file(),
        ensures
            final(self).wf(),
            !final(self).in_file(),
            final(self).source() == old(self).source(),
            final(self).offered() == old(self).offered().push(rel@),
            descend == !spec_snapshot_excluded(rel@, old(self).source()),
            descend ==> final(self).records() == old(self).records().push(TreeRecord { rel: rel@, file: None }),
            !descend ==> final(self).records() == old(self).records(),
    {
        let keep = !snapshot_excluded(rel, self.source);
        let ghost before = self.offered@;
        if keep {
            self.tree.add_dir(rel);
        }
        proof {
            self.offered@ = before.push(rel@);
            assert(self.offered@.drop_last() =~= before);
            assert(record_paths(self.tree.records()) =~= kept_paths(self.offered@, self.source));
        }
        keep
    }

    /// Offers a file of recorded size `len`; when kept, its bytes follow with
    /// `add_bytes` and `end_file`, otherwise it is not read.
    pub fn file(&mut self, rel: &str, len: u64) -> (read: bool)
        requires
            old(self).wf(),
            !old(self).in_file(),
        ensures
            final(self).wf(),
            final(self).source() == old(self).source(),
            final(self).offered() == old(self).offered().push(rel@),
            final(self).records() == old(self).records(),
            read == !spec_snapshot_excluded(rel@, old(self).source()),
            read ==> final(self).in_file() && final(self).open_file() == Some((rel@, len, Seq::<u8>::empty())),
            !read ==> !final(self).in_file(),
    {
        let keep = !snapshot_excluded(rel, self.source);
        let ghost before = self.offered@;
        if keep {
            self.tree.begin_file(rel, len);
        }
        proof {
            self.offered@ = before.push(rel@);
            assert(self.offered@.drop_last() =~= before);
        }
        keep
    }

    /// More bytes of the kept file being read.
    pub fn add_bytes(&mut self, chunk: &[u8])
        requires
            old(self).wf(),
            old(self).in_file(),
        ensures
            final(self).wf(),
            final(self).in_file(),
            final(self).source() == old(self).source(),
            final(self).offered() == old(self).offered(),
            final(self).records() == old(self).records(),
            final(self).open_file() == Some(
                (
                    old(self).open_file().unwrap().0,
                    old(self).open_file().unwrap().1,
                    old(self).open_file().unwrap().2 + chunk@,
                ),
            ),
    {
        self.tree.add_bytes(chunk);
    }

    /// Closes the kept file being read.
    pub fn end_file(&mut self)
        requires
            old(self).wf(),
            old(self).in_file(),
        ensures
            final(self).wf(),
            !final(self).in_file(),
            final(self).source() == old(self).source(),
            final(self).offered() == old(self).offered(),
            final(self).records() == old(self).records().push(
                TreeRecord {
                    rel: old(self).open_file().unwrap().0,
                    file: Some((old(self).open_file().unwrap().1, old(self).open_file().unwrap().2)),
                },
            ),
    {
        let ghost before = self.tree.records();
        self.tree.end_file();
        proof {
            let o = self.offered@;
            assert(o.drop_last().push(o.last()) =~= o);
            assert(record_paths(self.tree.records()) =~= record_paths(before).push(o.last()));
        }
    }

    /// The fingerprint of the walked tree: the digest of exactly the kept entries.
    pub fn finish(self) -> (f: Fingerprint)
        requires
            self.wf(),
            !self.in_file(),
        ensures
            f@ == spec_tree_fingerprint(self.records()),
            record_paths(self.records()) == kept_paths(self.offered(), self.source()),
            f.sha256@.len() == 64,
    {
        self.tree.finish()
    }
}

/// A source fingerprint ignores what lies in excluded top-level trees: two walks that
/// keep the same entries with the same contents give the same fingerprint, whatever
/// else they met; and a walk's kept entries are exactly the offered entries that no
/// exclusion names.
pub proof fn law_fingerprint_ignores_excluded(a: TreeWalk, b: TreeWalk)
    requires
        a.wf(),
        b.wf(),
        !a.in_file(),
        !b.in_file(),
        a.records() == b.records(),
    ensures
        spec_tree_fingerprint(a.records()) == spec_tree_fingerprint(b.records()),
        record_paths(a.records()) == kept_paths(a.offered(), a.source()),
        forall|i: int| 0 <= i < a.records().len() ==> !spec_snapshot_excluded(#[trigger] a.records()[i].rel, a.source()),
{
    lemma_kept_not_excluded(a.offered(), a.source());
    assert forall|i: int| 0 <= i < a.records().len() implies !spec_snapshot_excluded(#[trigger] a.records()[i].rel, a.source()) by {
        assert(record_paths(a.records())[i] == a.records()[i].rel);
    }
}

/// No kept entry is excluded.
pub proof fn lemma_kept_not_excluded(paths: Seq<Seq<char>>, source: bool)
    ensures
        forall|i: int| 0 <= i < kept_paths(paths, source).len() ==> !spec_snapshot_excluded(#[trigger] kept_paths(paths, source)[i], source),
    decreases paths.len(),
{
    if paths.len() > 0 {
        let sub = kept_paths(paths.drop_last(), source);
        lemma_kept_not_excluded(paths.drop_last(), source);
        assert forall|i: int| 0 <= i < kept_paths(paths, source).len() implies !spec_snapshot_excluded(
            #[trigger] kept_paths(paths, source)[i],
            source,
        ) by {
            if i < sub.len() {
                assert(kept_paths(paths, source)[i] == sub[i]);
            }
        }
    }
}

/// The top-level trees a source snapshot leaves out, compared lower-cased.
pub open spec fn generated_top(l: Seq<char>) -> bool {
    l == ".godot"@ || l == ".git"@ || l == "build"@ || l == "builds"@ || l == "logs"@
}

/// A source snapshot leaves out whole top-level trees, by name and ignoring ASCII case:
/// an entry is excluded exactly when its first component is `.godot`, `.git`, `build`,
/// `builds` or `logs` (so `.git/HEAD` and `Logs` are, `game/.git` is not), whatever
/// lies below it; a build snapshot excludes nothing.
pub proof fn law_snapshot_excludes_generated_tops(top: Seq<char>, rest: Seq<char>, any: Seq<char>)
    requires
        !top.contains('/'),
    ensures
        spec_snapshot_excluded(top + seq!['/'] + rest, true) <==> generated_top(crate::text::ascii_lower(top)),
        spec_snapshot_excluded(top, true) <==> generated_top(crate::text::ascii_lower(top)),
        !spec_snapshot_excluded(any, false),
{
    crate::context::policy::lemma_split_first(top, rest, '/');
    crate::context::policy::lemma_split_no_sep(top, '/');
}

} // verus!
