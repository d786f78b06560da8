//! Outgoing context policy: canonical game-relative paths, privacy exclusions and the
//! text/asset split. Not an incoming update ZIP security validator.
use vstd::prelude::*;
use crate::text::{ascii_lower, ascii_upper, chars_of, ends_with, is_control, is_digit, starts_with, vec_ascii_lower, vec_ascii_upper, vec_ends_with, vec_eq_str, vec_starts_with};

verus! {

pub const TEXT_BUDGET: u64 = 393216;
pub const FILE_LIMIT: u64 = 131072;
pub const REQUEST_BUDGET: u64 = 8388608;
pub const INDEX_BYTES: u64 = 2147483648;
pub const INDEX_FILES: usize = 20000;
pub const CONTROL_LIMIT: u64 = 65536;

/// Splits `s` at every `sep`, as `str::split` does: `""` gives one empty part and a
/// trailing separator gives a trailing empty part.
pub open spec fn split_on(s: Seq<char>, sep: char) -> Seq<Seq<char>>
    decreases s.len(),
{
    if s.len() == 0 {
        seq![Seq::<char>::empty()]
    } else {
        let prev = split_on(s.drop_last(), sep);
        if s.last() == sep {
            prev.push(Seq::<char>::empty())
        } else {
            prev.update(prev.len() - 1, prev.last().push(s.last()))
        }
    }
}

pub proof fn lemma_split_nonempty(s: Seq<char>, sep: char)
    ensures
        split_on(s, sep).len() >= 1,
    decreases s.len(),
{
    if s.len() > 0 {
        lemma_split_nonempty(s.drop_last(), sep);
    }
}

/// The character sequences held by a vector of character vectors.
pub open spec fn views(v: Seq<Vec<char>>) -> Seq<Seq<char>> {
    v.map_values(|x: Vec<char>| x@)
}

/// Text without a separator is one part.
pub proof fn lemma_split_no_sep(s: Seq<char>, sep: char)
    requires
        !s.contains(sep),
    ensures
        split_on(s, sep) == seq![s],
    decreases s.len(),
{
    if s.len() > 0 {
        assert(!s.drop_last().contains(sep)) by {
            if s.drop_last().contains(sep) {
                let k = choose|k: int| 0 <= k < s.drop_last().len() && s.drop_last()[k] == sep;
                assert(s[k] == sep);
            }
        }
        lemma_split_no_sep(s.drop_last(), sep);
        assert(s.last() != sep);
        assert(s.drop_last().push(s.last()) =~= s);
        assert(split_on(s, sep) =~= seq![s]);
    } else {
        assert(s =~= Seq::<char>::empty());
    }
}

/// A separator followed by separator-free text adds that text as the last part, and
/// leaves the first part alone.
pub proof fn lemma_split_append(a: Seq<char>, t: Seq<char>, sep: char)
    requires
        !t.contains(sep),
    ensures
        split_on(a + seq![sep] + t, sep) == split_on(a, sep).push(t),
        split_on(a + seq![sep] + t, sep)[0] == split_on(a, sep)[0],
    decreases t.len(),
{
    lemma_split_nonempty(a, sep);
    if t.len() == 0 {
        assert(a + seq![sep] + t =~= a.push(sep));
        assert((a + seq![sep] + t).drop_last() =~= a);
        assert(t =~= Seq::<char>::empty());
    } else {
        let t0 = t.drop_last();
        assert(!t0.contains(sep)) by {
            if t0.contains(sep) {
                let k = choose|k: int| 0 <= k < t0.len() && t0[k] == sep;
                assert(t[k] == sep);
            }
        }
        lemma_split_append(a, t0, sep);
        let whole = a + seq![sep] + t;
        assert(whole.drop_last() =~= a + seq![sep] + t0);
        assert(whole.last() == t.last());
        assert(t.last() != sep);
        assert(t0.push(t.last()) =~= t);
        assert(split_on(whole, sep) =~= split_on(a, sep).push(t));
    }
}

/// Whatever follows the first separator, the first part is what precedes it.
pub proof fn lemma_split_first(a: Seq<char>, b: Seq<char>, sep: char)
    ensures
        split_on(a + seq![sep] + b, sep).len() >= 2,
        split_on(a + seq![sep] + b, sep)[0] == split_on(a, sep)[0],
    decreases b.len(),
{
    lemma_split_nonempty(a, sep);
    let whole = a + seq![sep] + b;
    if b.len() == 0 {
        assert(whole =~= a.push(sep));
        assert(whole.drop_last() =~= a);
    } else {
        lemma_split_first(a, b.drop_last(), sep);
        assert(whole.drop_last() =~= a + seq![sep] + b.drop_last());
    }
}

pub proof fn lemma_views_push(v: Seq<Vec<char>>, x: Vec<char>)
    ensures
        views(v.push(x)) == views(v).push(x@),
{
    assert(views(v.push(x)) =~= views(v).push(x@));
}

/// Splits `v` at `sep` into owned parts.
pub fn split_chars(v: &Vec<char>, sep: char) -> (parts: Vec<Vec<char>>)
    ensures
        views(parts@) == split_on(v@, sep),
{
    let mut parts: Vec<Vec<char>> = Vec::new();
    let mut cur: Vec<char> = Vec::new();
    let mut i: usize = 0;
    proof {
        assert(v@.take(0) =~= Seq::<char>::empty());
    }
    while i < v.len()
        invariant
            i <= v@.len(),
            views(parts@).push(cur@) == split_on(v@.take(i as int), sep),
        decreases v@.len() - i,
    {
        let c = v[i];
        proof {
            lemma_split_nonempty(v@.take(i as int), sep);
            assert(v@.take(i + 1).drop_last() =~= v@.take(i as int));
            assert(v@.take(i + 1).last() == c);
        }
        if c == sep {
            let ghost old_parts = parts@;
            let done = cur;
            parts.push(done);
            cur = Vec::new();
            proof {
                lemma_views_push(old_parts, done);
                assert(views(parts@).push(cur@) =~= split_on(v@.take(i + 1), sep));
            }
        } else {
            let ghost before = views(parts@).push(cur@);
            cur.push(c);
            proof {
                assert(views(parts@).push(cur@) =~= before.update(before.len() - 1, before.last().push(c)));
            }
        }
        i = i + 1;
    }
    proof {
        assert(v@.take(i as int) =~= v@);
    }
    let ghost old_parts = parts@;
    let last = cur;
    parts.push(last);
    proof {
        lemma_views_push(old_parts, last);
    }
    parts
}

/// Why a path is not a safe game-relative path.
#[derive(Debug, Clone, Copy, PartialEq, Eq, Structural)]
pub enum PathError {
    /// Empty, over 512 bytes, absolute, or holding `\`, `:` or NUL.
    NotSafe,
    /// An empty, `.`, `..`, trailing-dot or trailing-space part, or a forbidden character.
    NotCanonical,
    /// A reserved Windows device name.
    ReservedName,
}

pub open spec fn forbidden_char(c: char) -> bool {
    is_control(c) || c == '<' || c == '>' || c == '"' || c == '|' || c == '?' || c == '*'
}

pub open spec fn part_canonical(p: Seq<char>) -> bool {
    &&& p.len() > 0
    &&& p != seq!['.']
    &&& p != seq!['.', '.']
    &&& p.last() != '.'
    &&& p.last() != ' '
    &&& forall|i: int| 0 <= i < p.len() ==> !forbidden_char(#[trigger] p[i])
}

/// The part of a file name before its first `.`, upper-cased as ASCII.
pub open spec fn stem(p: Seq<char>) -> Seq<char> {
    ascii_upper(split_on(p, '.')[0])
}

pub open spec fn reserved_stem(s: Seq<char>) -> bool {
    ||| s == "CON"@
    ||| s == "PRN"@
    ||| s == "AUX"@
    ||| s == "NUL"@
    ||| s == "CONIN$"@
    ||| s == "CONOUT$"@
    ||| ((starts_with(s, "COM"@) || starts_with(s, "LPT"@)) && s.len() == 4 && is_digit(s[3]))
}

/// The first error among `parts`, checked in order, each part for canonical form first.
pub open spec fn parts_error(parts: Seq<Seq<char>>) -> Option<PathError>
    decreases parts.len(),
{
    if parts.len() == 0 {
        None
    } else {
        match parts_error(parts.drop_last()) {
            Some(e) => Some(e),
            None => if !part_canonical(parts.last()) {
                Some(PathError::NotCanonical)
            } else if reserved_stem(stem(parts.last())) {
                Some(PathError::ReservedName)
            } else {
                None
            },
        }
    }
}

pub open spec fn spec_path_error(s: Seq<char>) -> Option<PathError> {
    if s.len() == 0 || (vstd::utf8::encode_utf8(s).len() as usize) > 512 || s.contains('\\') || s.contains(':')
        || s.contains('\0') || s[0] == '/' {
        Some(PathError::NotSafe)
    } else {
        parts_error(split_on(s, '/'))
    }
}

pub fn contains_char(v: &Vec<char>, c: char) -> (b: bool)
    ensures
        b == v@.contains(c),
{
    let mut i: usize = 0;
    while i < v.len()
        invariant
            i <= v@.len(),
            forall|k: int| 0 <= k < i ==> v@[k] != c,
        decreases v@.len() - i,
    {
        if v[i] == c {
            return true;
        }
        i = i + 1;
    }
    false
}

fn char_forbidden(c: char) -> (b: bool)
    ensures
        b == forbidden_char(c),
{
    let v = c as u32;
    v <= 0x1f || (0x7f <= v && v <= 0x9f) || c == '<' || c == '>' || c == '"' || c == '|' || c == '?'
        || c == '*'
}

fn canonical_part(p: &Vec<char>) -> (b: bool)
    ensures
        b == part_canonical(p@),
{
    let n = p.len();
    if n == 0 {
        return false;
    }
    if (n == 1 && p[0] == '.') || (n == 2 && p[0] == '.' && p[1] == '.') {
        return false;
    }
    if p[n - 1] == '.' || p[n - 1] == ' ' {
        return false;
    }
    let mut i: usize = 0;
    while i < n
        invariant
            n == p@.len(),
            i <= n,
            forall|k: int| 0 <= k < i ==> !forbidden_char(#[trigger] p@[k]),
        decreases n - i,
    {
        if char_forbidden(p[i]) {
            return false;
        }
        i = i + 1;
    }
    proof {
        assert(p@ != seq!['.']);
        assert(p@ != seq!['.', '.']);
    }
    true
}

/// The part of `p` before its first `.`.
pub fn before_first_dot(p: &Vec<char>) -> (s: Vec<char>)
    ensures
        s@ == split_on(p@, '.')[0],
{
    let parts = split_chars(p, '.');
    proof {
        lemma_split_nonempty(p@, '.');
    }
    let first = &parts[0];
    let mut out: Vec<char> = Vec::new();
    let mut i: usize = 0;
    while i < first.len()
        invariant
            i <= first@.len(),
            out@ == first@.take(i as int),
        decreases first@.len() - i,
    {
        out.push(first[i]);
        proof {
            assert(first@.take(i + 1) =~= first@.take(i as int).push(first@[i as int]));
        }
        i = i + 1;
    }
    proof {
        assert(out@ =~= first@);
        assert(views(parts@)[0] == parts@[0]@);
    }
    out
}

fn is_reserved_stem(s: &Vec<char>) -> (b: bool)
    ensures
        b == reserved_stem(s@),
{
    let exact = vec_eq_str(s, "CON") || vec_eq_str(s, "PRN") || vec_eq_str(s, "AUX") || vec_eq_str(s, "NUL")
        || vec_eq_str(s, "CONIN$") || vec_eq_str(s, "CONOUT$");
    if exact {
        return true;
    }
    let numbered = (vec_starts_with(s, "COM") || vec_starts_with(s, "LPT")) && s.len() == 4;
    numbered && '0' <= s[3] && s[3] <= '9'
}

/// Checks that `value` is a canonical, portable game-relative path.
pub fn safe_path(value: &str) -> (r: Result<(), PathError>)
    ensures
        r is Ok <==> spec_path_error(value@) is None,
        r is Err ==> Some(r->Err_0) == spec_path_error(value@),
{
    let v = chars_of(value);
    if v.len() == 0 || value.len() > 512 || contains_char(&v, '\\') || contains_char(&v, ':')
        || contains_char(&v, '\0') || v[0] == '/' {
        return Err(PathError::NotSafe);
    }
    let parts = split_chars(&v, '/');
    let mut i: usize = 0;
    while i < parts.len()
        invariant
            views(parts@) == split_on(value@, '/'),
            spec_path_error(value@) == parts_error(split_on(value@, '/')),
            i <= parts@.len(),
            parts_error(views(parts@).take(i as int)) is None,
        decreases parts@.len() - i,
    {
        let part = &parts[i];
        proof {
            assert(views(parts@).take(i + 1).drop_last() =~= views(parts@).take(i as int));
            assert(views(parts@)[i as int] == part@);
        }
        proof {
            assert(views(parts@).take(i + 1).last() == part@);
        }
        if !canonical_part(part) {
            proof {
                assert(parts_error(views(parts@).take(i + 1)) == Some(PathError::NotCanonical));
                lemma_parts_error_prefix(views(parts@), i + 1);
            }
            return Err(PathError::NotCanonical);
        }
        let st = vec_ascii_upper(&before_first_dot(part));
        if is_reserved_stem(&st) {
            proof {
                assert(parts_error(views(parts@).take(i + 1)) == Some(PathError::ReservedName));
                lemma_parts_error_prefix(views(parts@), i + 1);
            }
            return Err(PathError::ReservedName);
        }
        i = i + 1;
    }
    proof {
        assert(views(parts@).take(i as int) =~= views(parts@));
    }
    Ok(())
}

/// An error in a prefix of the parts is the error of all the parts.
pub proof fn lemma_parts_error_prefix(parts: Seq<Seq<char>>, k: int)
    requires
        0 <= k <= parts.len(),
        parts_error(parts.take(k)) is Some,
    ensures
        parts_error(parts) == parts_error(parts.take(k)),
    decreases parts.len() - k,
{
    if k < parts.len() {
        assert(parts.take(k + 1).drop_last() =~= parts.take(k));
        lemma_parts_error_prefix(parts, k + 1);
    } else {
        assert(parts.take(k) =~= parts);
    }
}

/// File and directory names that never enter a context pack: caches, builds, saves,
/// runtimes and common credential files. A filename filter, not secret scanning.
pub open spec fn excluded_name(p: Seq<char>) -> bool {
    let l = ascii_lower(p);
    ||| l == ".git"@
    ||| l == ".godot"@
    ||| l == "build"@
    ||| l == "builds"@
    ||| l == "target"@
    ||| l == "node_modules"@
    ||| l == "logs"@
    ||| l == "saves"@
    ||| l == "save"@
    ||| l == "user_data"@
    ||| l == "__pycache__"@
    ||| l == "runtime"@
    ||| l == ".ssh"@
    ||| l == ".aws"@
    ||| l == ".env"@
    ||| starts_with(l, ".env."@)
    ||| starts_with(l, "id_rsa"@)
    ||| starts_with(l, "id_ed25519"@)
    ||| l == "credentials.json"@
    ||| l == "credentials.toml"@
    ||| l == "secrets.json"@
    ||| l == "secrets.toml"@
    ||| ends_with(l, ".key"@)
    ||| ends_with(l, ".p12"@)
    ||| ends_with(l, ".pfx"@)
    ||| ends_with(l, ".pem"@)
}

pub open spec fn spec_excluded(value: Seq<char>) -> bool {
    exists|i: int| 0 <= i < split_on(value, '/').len() && excluded_name(#[trigger] split_on(value, '/')[i])
}

fn name_excluded(p: &Vec<char>) -> (b: bool)
    ensures
        b == excluded_name(p@),
{
    let l = vec_ascii_lower(p);
    vec_eq_str(&l, ".git") || vec_eq_str(&l, ".godot") || vec_eq_str(&l, "build") || vec_eq_str(&l, "builds")
        || vec_eq_str(&l, "target") || vec_eq_str(&l, "node_modules") || vec_eq_str(&l, "logs")
        || vec_eq_str(&l, "saves") || vec_eq_str(&l, "save") || vec_eq_str(&l, "user_data")
        || vec_eq_str(&l, "__pycache__") || vec_eq_str(&l, "runtime") || vec_eq_str(&l, ".ssh")
        || vec_eq_str(&l, ".aws") || vec_eq_str(&l, ".env") || vec_starts_with(&l, ".env.")
        || vec_starts_with(&l, "id_rsa") || vec_starts_with(&l, "id_ed25519") || vec_eq_str(
        &l,
        "credentials.json",
    ) || vec_eq_str(&l, "credentials.toml") || vec_eq_str(&l, "secrets.json") || vec_eq_str(
        &l,
        "secrets.toml",
    ) || vec_ends_with(&l, ".key") || vec_ends_with(&l, ".p12") || vec_ends_with(&l, ".pfx")
        || vec_ends_with(&l, ".pem")
}

/// Whether any `/`-separated part of `value` is an excluded name.
pub fn excluded(value: &str) -> (b: bool)
    ensures
        b == spec_excluded(value@),
{
    let v = chars_of(value);
    let parts = split_chars(&v, '/');
    let mut i: usize = 0;
    while i < parts.len()
        invariant
            views(parts@) == split_on(value@, '/'),
            i <= parts@.len(),
            forall|k: int| 0 <= k < i ==> !excluded_name(#[trigger] split_on(value@, '/')[k]),
        decreases parts@.len() - i,
    {
        proof {
            assert(views(parts@)[i as int] == parts@[i as int]@);
        }
        if name_excluded(&parts[i]) {
            return true;
        }
        i = i + 1;
    }
    false
}

/// The last normal component of a `/`-separated path, as `Path::file_name` gives it.
pub open spec fn file_name(path: Seq<char>) -> Option<Seq<char>> {
    let normal = split_on(path, '/').filter(|p: Seq<char>| p.len() > 0 && p != seq!['.']);
    if normal.len() == 0 || normal.last() == seq!['.', '.'] {
        None
    } else {
        Some(normal.last())
    }
}

/// The extension of a file name, as `Path::extension` gives it: the text after the
/// last `.`, provided some text precedes that dot.
pub open spec fn name_extension(name: Seq<char>) -> Option<Seq<char>> {
    if exists|k: int| 0 < k < name.len() && name[k] == '.' {
        let k = choose|k: int|
            0 < k < name.len() && name[k] == '.' && forall|j: int| k < j < name.len() ==> name[j] != '.';
        Some(name.skip(k + 1))
    } else {
        None
    }
}

pub open spec fn text_extension(e: Seq<char>) -> bool {
    let l = ascii_lower(e);
    ||| l == "gd"@
    ||| l == "tscn"@
    ||| l == "tres"@
    ||| l == "cfg"@
    ||| l == "json"@
    ||| l == "md"@
    ||| l == "txt"@
    ||| l == "csv"@
    ||| l == "svg"@
    ||| l == "shader"@
    ||| l == "gdshader"@
    ||| l == "uid"@
    ||| l == "import"@
    ||| l == "godot"@
    ||| l == "gdextension"@
}

pub open spec fn spec_text_file(path: Seq<char>) -> bool {
    match file_name(path) {
        None => false,
        Some(n) => match name_extension(n) {
            None => false,
            Some(e) => text_extension(e),
        },
    }
}

pub fn last_file_name(path: &Vec<char>) -> (r: Option<Vec<char>>)
    ensures
        match r {
            None => file_name(path@) is None,
            Some(n) => file_name(path@) == Some(n@),
        },
{
    let parts = split_chars(path, '/');
    let ghost pred = |p: Seq<char>| p.len() > 0 && p != seq!['.'];
    let mut found: Option<usize> = None;
    let mut i: usize = 0;
    while i < parts.len()
        invariant
            views(parts@) == split_on(path@, '/'),
            i <= parts@.len(),
            pred == (|p: Seq<char>| p.len() > 0 && p != seq!['.']),
            match found {
                None => views(parts@).take(i as int).filter(pred).len() == 0,
                Some(k) => k < i && views(parts@).take(i as int).filter(pred).len() > 0
                    && views(parts@).take(i as int).filter(pred).last() == views(parts@)[k as int],
            },
        decreases parts@.len() - i,
    {
        let p = &parts[i];
        proof {
            assert(views(parts@).take(i + 1).drop_last() =~= views(parts@).take(i as int));
            reveal_with_fuel(Seq::<_>::filter, 1);
            assert(views(parts@)[i as int] == p@);
        }
        let is_dot = p.len() == 1 && p[0] == '.';
        proof {
            if is_dot {
                assert(p@ =~= seq!['.']);
            }
        }
        if p.len() > 0 && !is_dot {
            found = Some(i);
        }
        i = i + 1;
    }
    proof {
        assert(views(parts@).take(i as int) =~= views(parts@));
    }
    match found {
        None => None,
        Some(k) => {
            let p = &parts[k];
            proof {
                assert(views(parts@)[k as int] == p@);
            }
            if p.len() == 2 && p[0] == '.' && p[1] == '.' {
                proof {
                    assert(p@ =~= seq!['.', '.']);
                }
                None
            } else {
                proof {
                    assert(p@ != seq!['.', '.']);
                }
                let mut out: Vec<char> = Vec::new();
                let mut j: usize = 0;
                while j < p.len()
                    invariant
                        j <= p@.len(),
                        out@ == p@.take(j as int),
                    decreases p@.len() - j,
                {
                    out.push(p[j]);
                    proof {
                        assert(p@.take(j + 1) =~= p@.take(j as int).push(p@[j as int]));
                    }
                    j = j + 1;
                }
                proof {
                    assert(out@ =~= p@);
                }
                Some(out)
            }
        },
    }
}

pub fn extension_of(name: &Vec<char>) -> (r: Option<Vec<char>>)
    ensures
        match r {
            None => name_extension(name@) is None,
            Some(e) => name_extension(name@) == Some(e@),
        },
{
    let n = name.len();
    let mut k = n;
    // Find the last dot.
    while k > 0 && name[k - 1] != '.'
        invariant
            k <= n == name@.len(),
            forall|j: int| k <= j < n ==> name@[j] != '.',
        decreases k,
    {
        k = k - 1;
    }
    if k <= 1 {
        proof {
            if exists|x: int| 0 < x < name@.len() && name@[x] == '.' {
                let x = choose|x: int| 0 < x < name@.len() && name@[x] == '.';
                if k == 0 {
                    assert(name@[x] != '.');
                } else {
                    assert(x >= 1);
                    assert(name@[x] != '.');
                }
            }
        }
        return None;
    }
    let dot = k - 1;
    proof {
        assert(name@[dot as int] == '.');
        assert(forall|j: int| dot < j < name@.len() ==> name@[j] != '.');
        let c = choose|c: int|
            0 < c < name@.len() && name@[c] == '.' && forall|j: int| c < j < name@.len() ==> name@[j] != '.';
        assert(0 < dot < name@.len() && name@[dot as int] == '.' && forall|j: int|
            dot < j < name@.len() ==> name@[j] != '.');
        if c < dot {
            assert(name@[dot as int] != '.');
        }
        if c > dot {
            assert(name@[c] != '.');
        }
    }
    let mut out: Vec<char> = Vec::new();
    let mut j = k;
    while j < n
        invariant
            k <= j <= n == name@.len(),
            out@ == name@.subrange(k as int, j as int),
        decreases n - j,
    {
        out.push(name[j]);
        proof {
            assert(name@.subrange(k as int, j + 1) =~= name@.subrange(k as int, j as int).push(name@[j as int]));
        }
        j = j + 1;
    }
    proof {
        assert(out@ =~= name@.skip(k as int));
    }
    Some(out)
}

/// Whether a path names a text file the exporter may read as source, by extension.
pub fn text_file(path: &str) -> (b: bool)
    ensures
        b == spec_text_file(path@),
{
    let v = chars_of(path);
    let name = match last_file_name(&v) {
        None => return false,
        Some(n) => n,
    };
    let ext = match extension_of(&name) {
        None => return false,
        Some(e) => e,
    };
    let l = vec_ascii_lower(&ext);
    vec_eq_str(&l, "gd") || vec_eq_str(&l, "tscn") || vec_eq_str(&l, "tres") || vec_eq_str(&l, "cfg")
        || vec_eq_str(&l, "json") || vec_eq_str(&l, "md") || vec_eq_str(&l, "txt") || vec_eq_str(&l, "csv")
        || vec_eq_str(&l, "svg") || vec_eq_str(&l, "shader") || vec_eq_str(&l, "gdshader")
        || vec_eq_str(&l, "uid") || vec_eq_str(&l, "import") || vec_eq_str(&l, "godot") || vec_eq_str(
        &l,
        "gdextension",
    )
}

/// Godot's text formats, compared lower-cased: scripts, scenes and resources, project
/// and import files, shaders, data and docs.
pub open spec fn godot_text_format(l: Seq<char>) -> bool {
    l == "gd"@ || l == "tscn"@ || l == "tres"@ || l == "cfg"@ || l == "json"@ || l == "md"@ || l == "txt"@
        || l == "csv"@ || l == "svg"@ || l == "shader"@ || l == "gdshader"@ || l == "uid"@ || l == "import"@
        || l == "godot"@ || l == "gdextension"@
}

proof fn lemma_last_name(path: Seq<char>, dir: Seq<char>, name: Seq<char>, with_dir: bool)
    requires
        !name.contains('/'),
        name.len() > 0,
        name != seq!['.'],
        name != seq!['.', '.'],
        path == (if with_dir { dir + seq!['/'] + name } else { name }),
    ensures
        file_name(path) == Some(name),
{
    let f = |p: Seq<char>| p.len() > 0 && p != seq!['.'];
    let head = if with_dir {
        lemma_split_append(dir, name, '/');
        split_on(dir, '/')
    } else {
        lemma_split_no_sep(name, '/');
        assert(seq![name] =~= Seq::<Seq<char>>::empty().push(name));
        Seq::<Seq<char>>::empty()
    };
    assert(split_on(path, '/') == head.push(name));
    head.lemma_filter_push(name, f);
    assert(split_on(path, '/').filter(f) == head.filter(f).push(name));
}

proof fn lemma_extension_after_last_dot(base: Seq<char>, ext: Seq<char>)
    requires
        base.len() > 0,
        !ext.contains('.'),
    ensures
        name_extension(base + seq!['.'] + ext) == Some(ext),
{
    let name = base + seq!['.'] + ext;
    let k0 = base.len() as int;
    assert(name[k0] == '.');
    assert forall|j: int| k0 < j < name.len() implies name[j] != '.' by {
        assert(name[j] == ext[j - k0 - 1]);
    }
    let k = choose|k: int|
        0 < k < name.len() && name[k] == '.' && forall|j: int| k < j < name.len() ==> name[j] != '.';
    assert(k == k0);
    assert(name.skip(k0 + 1) =~= ext);
}

/// What the exporter reads as text is decided by the last file name's extension alone,
/// ignoring ASCII case: for any directory, any base name and any dot-free extension,
/// `ui/theme.tres` and `theme.TRES` alike are text exactly when the extension is one
/// of Godot's text formats, and binary otherwise.
pub proof fn law_text_file_by_extension(dir: Seq<char>, base: Seq<char>, ext: Seq<char>)
    requires
        base.len() > 0,
        ext.len() > 0,
        !base.contains('/'),
        !ext.contains('/'),
        !ext.contains('.'),
    ensures
        spec_text_file(dir + seq!['/'] + base + seq!['.'] + ext) <==> godot_text_format(ascii_lower(ext)),
        spec_text_file(base + seq!['.'] + ext) <==> godot_text_format(ascii_lower(ext)),
{
    let name = base + seq!['.'] + ext;
    assert(!name.contains('/')) by {
        if name.contains('/') {
            let k = choose|k: int| 0 <= k < name.len() && name[k] == '/';
            if k < base.len() {
                assert(base[k] == '/');
            } else if k > base.len() {
                assert(ext[k - base.len() - 1] == '/');
            }
        }
    }
    assert(name != seq!['.']) by {
        if name == seq!['.'] {
            assert(name.len() == 1);
        }
    }
    assert(name != seq!['.', '.']) by {
        if name == seq!['.', '.'] {
            assert(name.len() >= 3);
        }
    }
    assert(dir + seq!['/'] + base + seq!['.'] + ext =~= dir + seq!['/'] + name);
    lemma_last_name(dir + seq!['/'] + name, dir, name, true);
    lemma_last_name(name, dir, name, false);
    lemma_extension_after_last_dot(base, ext);
}

} // verus!
