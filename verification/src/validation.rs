//! Validation of a candidate game: the fixed sequence of gates (structure, export
//! preset, runtime integrity, engine version, import, smoke harness, Windows build,
//! exported launch), the first failure stopping the run, the error lines pulled
//! out of Godot's output, and the report whose `passed` gates promotion.
use vstd::prelude::*;
use vstd::string::StringExecFns;
use crate::context::policy::{split_chars, split_on, views};
use crate::text::{chars_of, char_is_white, is_white, push_str, lowercase, string_of, to_lowercase};
use crate::worker::{contains_seq, contains_text};

verus! {

#[derive(Debug, Clone)]
pub struct ValidationStep {
    pub name: String,
    pub status: String,
    pub detail: String,
}

#[derive(Debug, Clone)]
pub struct ValidationReport {
    pub passed: bool,
    pub revision: u64,
    pub created_at: String,
    pub steps: Vec<ValidationStep>,
    pub errors: Vec<String>,
}

/// `s` without leading Unicode white space.
pub open spec fn trim_start(s: Seq<char>) -> Seq<char>
    decreases s.len(),
{
    if s.len() > 0 && is_white(s[0]) {
        trim_start(s.drop_first())
    } else {
        s
    }
}

/// `s` without trailing Unicode white space.
pub open spec fn trim_end(s: Seq<char>) -> Seq<char>
    decreases s.len(),
{
    if s.len() > 0 && is_white(s.last()) {
        trim_end(s.drop_last())
    } else {
        s
    }
}

/// `str::trim`.
pub open spec fn trim(s: Seq<char>) -> Seq<char> {
    trim_end(trim_start(s))
}

/// `s` with one final carriage return removed.
pub open spec fn strip_cr(s: Seq<char>) -> Seq<char> {
    if s.len() > 0 && s.last() == '\r' {
        s.drop_last()
    } else {
        s
    }
}

/// `str::lines`: split at `\n`, a `\r` before the `\n` dropped, and no final empty
/// line after a trailing newline.
pub open spec fn spec_lines(s: Seq<char>) -> Seq<Seq<char>> {
    let parts = split_on(s, '\n');
    let n = if s.len() == 0 {
        0
    } else if s.last() == '\n' {
        parts.len() - 1
    } else {
        parts.len() as int
    };
    Seq::new(n as nat, |i: int| if i < parts.len() - 1 { strip_cr(parts[i]) } else { parts[i] })
}

/// The whole line's text, trimmed, truncated to its first 220 characters.
pub open spec fn error_line(l: Seq<char>) -> Seq<char> {
    let t = trim(l);
    if t.len() <= 220 {
        t
    } else {
        t.take(220)
    }
}

/// A line mentions an error, a failure or a parse problem, in any letter case.
pub open spec fn flagged(l: Seq<char>) -> bool {
    let lower = lowercase(l);
    contains_seq(lower, "error"@) || contains_seq(lower, "failed"@) || contains_seq(lower, "parse"@)
}

/// One line of output against the errors collected so far: at most six are kept, a
/// flagged non-blank line is added unless its full trimmed text is already there.
pub open spec fn summary_step(out: Seq<Seq<char>>, l: Seq<char>) -> Seq<Seq<char>> {
    if out.len() < 6 && flagged(l) && trim(l).len() > 0 && !out.contains(trim(l)) {
        out.push(error_line(l))
    } else {
        out
    }
}

/// The errors collected from the first `n` lines.
pub open spec fn summary_after(lines: Seq<Seq<char>>, n: int) -> Seq<Seq<char>>
    decreases n,
{
    if n <= 0 {
        Seq::empty()
    } else {
        summary_step(summary_after(lines, n - 1), lines[n - 1])
    }
}

/// The error lines a Godot log shows.
pub open spec fn spec_summarize(text: Seq<char>) -> Seq<Seq<char>> {
    summary_after(spec_lines(text), spec_lines(text).len() as int)
}

pub open spec fn string_views(v: Seq<String>) -> Seq<Seq<char>> {
    v.map_values(|s: String| s@)
}

pub fn trim_chars(v: &Vec<char>) -> (t: Vec<char>)
    ensures
        t@ == trim(v@),
{
    let mut i: usize = 0;
    proof {
        assert(v@.skip(0) =~= v@);
    }
    while i < v.len() && char_is_white(v[i])
        invariant
            i <= v@.len(),
            trim_start(v@) == trim_start(v@.skip(i as int)),
        decreases v@.len() - i,
    {
        proof {
            assert(v@.skip(i as int).drop_first() =~= v@.skip(i + 1));
        }
        i = i + 1;
    }
    proof {
        assert(v@.skip(0) =~= v@);
        assert(trim_start(v@) == v@.skip(i as int));
    }
    let mut j: usize = v.len();
    proof {
        assert(v@.skip(i as int) =~= v@.subrange(i as int, j as int));
    }
    while j > i && char_is_white(v[j - 1])
        invariant
            i <= j <= v@.len(),
            trim_start(v@) == v@.subrange(i as int, v@.len() as int),
            trim(v@) == trim_end(v@.subrange(i as int, j as int)),
        decreases j,
    {
        proof {
            assert(v@.subrange(i as int, j as int).drop_last() =~= v@.subrange(i as int, j - 1));
        }
        j = j - 1;
    }
    let mut t: Vec<char> = Vec::new();
    let mut k = i;
    while k < j
        invariant
            i <= k <= j <= v@.len(),
            t@ == v@.subrange(i as int, k as int),
        decreases j - k,
    {
        t.push(v[k]);
        proof {
            assert(v@.subrange(i as int, k + 1) =~= v@.subrange(i as int, k as int).push(v@[k as int]));
        }
        k = k + 1;
    }
    t
}

/// The lines of `text`, as `str::lines` gives them.
fn lines_of(text: &Vec<char>) -> (ls: Vec<Vec<char>>)
    ensures
        views(ls@) == spec_lines(text@),
{
    let parts = split_chars(text, '\n');
    proof {
        crate::context::policy::lemma_split_nonempty(text@, '\n');
    }
    let n: usize = if text.len() == 0 {
        0
    } else if text[text.len() - 1] == '\n' {
        parts.len() - 1
    } else {
        parts.len()
    };
    let mut ls: Vec<Vec<char>> = Vec::new();
    let mut i: usize = 0;
    while i < n
        invariant
            i <= n <= parts@.len(),
            views(parts@) == split_on(text@, '\n'),
            n == spec_lines(text@).len(),
            ls@.len() == i,
            forall|k: int| 0 <= k < i ==> #[trigger] ls@[k]@ == spec_lines(text@)[k],
        decreases n - i,
    {
        let p = &parts[i];
        let mut line: Vec<char> = p.clone();
        proof {
            assert(line@ == views(parts@)[i as int]);
        }
        if i + 1 < parts.len() && line.len() > 0 && line[line.len() - 1] == '\r' {
            line.pop();
        }
        proof {
            assert(line@ == spec_lines(text@)[i as int]);
        }
        ls.push(line);
        i = i + 1;
    }
    proof {
        assert(views(ls@) =~= spec_lines(text@));
    }
    ls
}

fn contains_view(out: &Vec<String>, t: &Vec<char>) -> (b: bool)
    ensures
        b == string_views(out@).contains(t@),
{
    let mut i: usize = 0;
    while i < out.len()
        invariant
            i <= out@.len(),
            forall|k: int| 0 <= k < i ==> out@[k]@ != t@,
        decreases out@.len() - i,
    {
        let o = chars_of(out[i].as_str());
        if crate::text::vec_eq(&o, t) {
            proof {
                assert(string_views(out@)[i as int] == t@);
            }
            return true;
        }
        i = i + 1;
    }
    proof {
        if string_views(out@).contains(t@) {
            let k = choose|k: int| 0 <= k < string_views(out@).len() && string_views(out@)[k] == t@;
            assert(out@[k]@ == t@);
        }
    }
    false
}

/// The distinct error lines of a Godot log: lines mentioning an error, a failure or a
/// parse problem, trimmed, at most 220 characters each, at most six.
pub fn summarize_errors(text: &str) -> (out: Vec<String>)
    ensures
        string_views(out@) == spec_summarize(text@),
{
    let v = chars_of(text);
    let ls = lines_of(&v);
    let mut out: Vec<String> = Vec::new();
    let mut i: usize = 0;
    while i < ls.len()
        invariant
            i <= ls@.len(),
            views(ls@) == spec_lines(text@),
            string_views(out@) == summary_after(spec_lines(text@), i as int),
        decreases ls@.len() - i,
    {
        let line = string_of(&ls[i], 0, ls[i].len());
        proof {
            assert(ls@[i as int]@.subrange(0, ls@[i as int]@.len() as int) =~= ls@[i as int]@);
            assert(line@ == spec_lines(text@)[i as int]);
        }
        if out.len() < 6 {
            let lower = to_lowercase(line.as_str());
            let hit = contains_text(lower.as_str(), "error") || contains_text(lower.as_str(), "failed")
                || contains_text(lower.as_str(), "parse");
            if hit {
                let t = trim_chars(&ls[i]);
                if t.len() > 0 && !contains_view(&out, &t) {
                    let cut = if t.len() <= 220 {
                        t.len()
                    } else {
                        220
                    };
                    let kept = string_of(&t, 0, cut);
                    let ghost before = out@;
                    out.push(kept);
                    proof {
                        assert(t@.subrange(0, cut as int) =~= error_line(line@));
                        assert(string_views(out@) =~= string_views(before).push(error_line(line@)));
                    }
                }
            }
        }
        i = i + 1;
    }
    out
}

/// No step failed.
pub open spec fn none_failed(steps: Seq<ValidationStep>) -> bool {
    forall|i: int| 0 <= i < steps.len() ==> #[trigger] steps[i].status@ != "failed"@
}

/// The report of a run: it passed exactly when no step failed.
pub fn report(revision: u64, created_at: String, steps: Vec<ValidationStep>, errors: Vec<String>) -> (r: ValidationReport)
    ensures
        r.passed == none_failed(steps@),
        r.revision == revision,
        r.created_at@ == created_at@,
        r.steps@ == steps@,
        r.errors@ == errors@,
{
    let failed = String::from_str("failed");
    let mut passed = true;
    let mut i: usize = 0;
    while i < steps.len()
        invariant
            i <= steps@.len(),
            failed@ == "failed"@,
            passed == (forall|k: int| 0 <= k < i ==> #[trigger] steps@[k].status@ != "failed"@),
        decreases steps@.len() - i,
    {
        if steps[i].status == failed {
            passed = false;
        }
        i = i + 1;
    }
    ValidationReport { passed, revision, created_at, steps, errors }
}

pub open spec fn status_text(ok: bool) -> Seq<char> {
    if ok {
        "passed"@
    } else {
        "failed"@
    }
}

proof fn lemma_status_texts()
    ensures
        "passed"@ != "failed"@,
        "skipped"@ != "failed"@,
{
    reveal_strlit("passed");
    reveal_strlit("failed");
    reveal_strlit("skipped");
    assert("passed"@[0] != "failed"@[0]);
    assert("skipped"@.len() != "failed"@.len());
}

/// The step a gate records.
pub open spec fn step_is(s: ValidationStep, name: Seq<char>, status: Seq<char>, detail: Seq<char>) -> bool {
    s.name@ == name && s.status@ == status && s.detail@ == detail
}

/// `new` is `old` with one more step, named, with a status and a detail.
pub open spec fn appended(
    old: Seq<ValidationStep>,
    new: Seq<ValidationStep>,
    name: Seq<char>,
    status: Seq<char>,
    detail: Seq<char>,
) -> bool {
    &&& new.len() == old.len() + 1
    &&& new.drop_last() == old
    &&& step_is(new.last(), name, status, detail)
}

/// An exported executable must be larger than this to count as a real build.
pub const MIN_EXECUTABLE_BYTES: u64 = 65536;

/// The exported executable exists and is larger than `MIN_EXECUTABLE_BYTES`.
pub open spec fn executable_ok(exe_size: Option<u64>) -> bool {
    exe_size matches Some(n) && n > MIN_EXECUTABLE_BYTES
}

/// A validation run in progress: the steps recorded and the errors collected.
pub struct Validation {
    steps: Vec<ValidationStep>,
    errors: Vec<String>,
}

fn make_step(name: &str, status: &str, detail: String) -> (s: ValidationStep)
    ensures
        step_is(s, name@, status@, detail@),
{
    ValidationStep { name: String::from_str(name), status: String::from_str(status), detail }
}

fn status_of(ok: bool) -> (s: &'static str)
    ensures
        s@ == status_text(ok),
{
    if ok {
        "passed"
    } else {
        "failed"
    }
}

impl Validation {
    pub closed spec fn steps(self) -> Seq<ValidationStep> {
        self.steps@
    }

    pub closed spec fn errors(self) -> Seq<Seq<char>> {
        string_views(self.errors@)
    }

    pub fn new() -> (v: Self)
        ensures
            v.steps() == Seq::<ValidationStep>::empty(),
            v.errors() == Seq::<Seq<char>>::empty(),
    {
        let v = Validation { steps: Vec::new(), errors: Vec::new() };
        proof {
            assert(string_views(v.errors@) =~= Seq::<Seq<char>>::empty());
        }
        v
    }

    fn push_error(&mut self, e: String)
        ensures
            final(self).steps() == old(self).steps(),
            final(self).errors() == old(self).errors().push(e@),
    {
        let ghost before = self.errors@;
        self.errors.push(e);
        proof {
            assert(string_views(self.errors@) =~= string_views(before).push(e@));
        }
    }

    fn push_errors(&mut self, es: Vec<String>)
        ensures
            final(self).steps() == old(self).steps(),
            final(self).errors() == old(self).errors() + string_views(es@),
    {
        let mut i: usize = 0;
        let ghost start = self.errors();
        while i < es.len()
            invariant
                i <= es@.len(),
                self.steps() == old(self).steps(),
                start == old(self).errors(),
                self.errors() == start + string_views(es@).take(i as int),
            decreases es@.len() - i,
        {
            let ghost before = self.errors();
            self.push_error(es[i].clone());
            proof {
                assert(string_views(es@).take(i + 1) =~= string_views(es@).take(i as int).push(es@[i as int]@));
            }
            i = i + 1;
        }
        proof {
            assert(string_views(es@).take(i as int) =~= string_views(es@));
        }
    }

    /// Gate 1: `project.godot` and the configured main scene exist.
    pub fn structure(&mut self, ok: bool) -> (go: bool)
        ensures
            go == ok,
            appended(
                old(self).steps(),
                final(self).steps(),
                "Project structure"@,
                status_text(ok),
                if ok {
                    "project.godot and configured main scene are present"@
                } else {
                    "Missing project.godot or configured main scene"@
                },
            ),
            none_failed(final(self).steps()) == (none_failed(old(self).steps()) && ok),
            final(self).errors() == if ok {
                old(self).errors()
            } else {
                old(self).errors().push("Project structure is incomplete"@)
            },
    {
        let detail = if ok {
            String::from_str("project.godot and configured main scene are present")
        } else {
            String::from_str("Missing project.godot or configured main scene")
        };
        proof {
            lemma_status_texts();
        }
        self.record("Project structure", status_of(ok), detail);
        if !ok {
            self.push_error(String::from_str("Project structure is incomplete"));
        }
        ok
    }

    fn record(&mut self, name: &str, status: &str, detail: String)
        ensures
            appended(old(self).steps(), final(self).steps(), name@, status@, detail@),
            final(self).errors() == old(self).errors(),
            none_failed(final(self).steps()) == (none_failed(old(self).steps()) && status@ != "failed"@),
    {
        let ghost before = self.steps@;
        let st = make_step(name, status, detail);
        self.steps.push(st);
        proof {
            assert(self.steps@.drop_last() =~= before);
            if none_failed(before) && status@ != "failed"@ {
                assert forall|i: int| 0 <= i < self.steps@.len() implies #[trigger] self.steps@[i].status@ != "failed"@ by {
                    if i < before.len() {
                        assert(self.steps@[i] == before[i]);
                    }
                }
            }
            if !none_failed(before) {
                let k = choose|k: int| 0 <= k < before.len() && #[trigger] before[k].status@ == "failed"@;
                assert(self.steps@[k] == before[k]);
            }
            if status@ == "failed"@ {
                assert(self.steps@[before.len() as int].status@ == "failed"@);
            }
        }
    }

    /// Gate 2: the export preset exists; `created` when the Bridge just added it.
    pub fn preset(&mut self, created: bool, preset: &str)
        ensures
            appended(
                old(self).steps(),
                final(self).steps(),
                "Export preset"@,
                "passed"@,
                if created {
                    "Bridge created the default Windows Desktop export preset"@
                } else {
                    "Using export preset: "@ + preset@
                },
            ),
            final(self).errors() == old(self).errors(),
            none_failed(final(self).steps()) == none_failed(old(self).steps()),
    {
        let detail = if created {
            String::from_str("Bridge created the default Windows Desktop export preset")
        } else {
            let mut d = String::from_str("Using export preset: ");
            push_str(&mut d, preset);
            d
        };
        proof {
            lemma_status_texts();
        }
        self.record("Export preset", "passed", detail);
    }

    fn checked_gate(&mut self, name: &str, ok: bool, detail: &str) -> (go: bool)
        ensures
            go == ok,
            appended(old(self).steps(), final(self).steps(), name@, status_text(ok), detail@),
            final(self).errors() == if ok {
                old(self).errors()
            } else {
                old(self).errors().push(detail@)
            },
            none_failed(final(self).steps()) == (none_failed(old(self).steps()) && ok),
    {
        proof {
            lemma_status_texts();
        }
        self.record(name, status_of(ok), String::from_str(detail));
        if !ok {
            self.push_error(String::from_str(detail));
        }
        ok
    }

    /// Gate 3: every file of the Godot runtime matches its integrity manifest.
    pub fn runtime(&mut self, ok: bool, detail: &str) -> (go: bool)
        ensures
            go == ok,
            appended(old(self).steps(), final(self).steps(), "Godot runtime integrity"@, status_text(ok), detail@),
            final(self).errors() == if ok {
                old(self).errors()
            } else {
                old(self).errors().push(detail@)
            },
            none_failed(final(self).steps()) == (none_failed(old(self).steps()) && ok),
    {
        self.checked_gate("Godot runtime integrity", ok, detail)
    }

    /// Gate 4: the executable reports the project's engine version.
    pub fn engine(&mut self, ok: bool, detail: &str) -> (go: bool)
        ensures
            go == ok,
            appended(old(self).steps(), final(self).steps(), "Godot engine version"@, status_text(ok), detail@),
            final(self).errors() == if ok {
                old(self).errors()
            } else {
                old(self).errors().push(detail@)
            },
            none_failed(final(self).steps()) == (none_failed(old(self).steps()) && ok),
    {
        self.checked_gate("Godot engine version", ok, detail)
    }

    fn logged_gate(&mut self, name: &str, ok: bool, log: &str, detail: String) -> (go: bool)
        ensures
            go == ok,
            appended(old(self).steps(), final(self).steps(), name@, status_text(ok), detail@),
            final(self).errors() == if ok {
                old(self).errors()
            } else {
                old(self).errors() + spec_summarize(log@)
            },
            none_failed(final(self).steps()) == (none_failed(old(self).steps()) && ok),
    {
        proof {
            lemma_status_texts();
        }
        if !ok {
            let found = summarize_errors(log);
            self.push_errors(found);
        }
        self.record(name, status_of(ok), detail);
        ok
    }

    /// Gate 5: headless resource import of the project; its log's error lines are kept.
    pub fn import(&mut self, ok: bool, log: &str) -> (go: bool)
        ensures
            go == ok,
            appended(old(self).steps(), final(self).steps(), "Godot import"@, status_text(ok), "Headless resource import"@),
            final(self).errors() == if ok {
                old(self).errors()
            } else {
                old(self).errors() + spec_summarize(log@)
            },
            none_failed(final(self).steps()) == (none_failed(old(self).steps()) && ok),
    {
        self.logged_gate("Godot import", ok, log, String::from_str("Headless resource import"))
    }

    /// Gate 6: the project's own smoke harness, when `tests/bridge_smoke.gd` exists.
    pub fn smoke(&mut self, present: bool, ok: bool, log: &str) -> (go: bool)
        ensures
            !present ==> {
                &&& go
                &&& appended(
                    old(self).steps(),
                    final(self).steps(),
                    "Project smoke test"@,
                    "skipped"@,
                    "No tests/bridge_smoke.gd yet"@,
                )
                &&& final(self).errors() == old(self).errors()
            },
            present ==> {
                &&& go == ok
                &&& appended(
                    old(self).steps(),
                    final(self).steps(),
                    "Project smoke test"@,
                    status_text(ok),
                    "Project-owned headless smoke harness"@,
                )
                &&& final(self).errors() == if ok {
                    old(self).errors()
                } else {
                    old(self).errors() + spec_summarize(log@)
                }
            },
            none_failed(final(self).steps()) == (none_failed(old(self).steps()) && go),
    {
        if !present {
            proof {
                lemma_status_texts();
            }
            self.record("Project smoke test", "skipped", String::from_str("No tests/bridge_smoke.gd yet"));
            return true;
        }
        self.logged_gate("Project smoke test", ok, log, String::from_str("Project-owned headless smoke harness"))
    }

    /// Gate 7: the Windows export ran and produced an executable of more than
    /// `MIN_EXECUTABLE_BYTES` (`exe_size` is its size, `None` when there is no such
    /// file). Without any Godot error line, the missing executable is the error.
    pub fn export(&mut self, ok: bool, exe_size: Option<u64>, log: &str, preset: &str) -> (go: bool)
        ensures
            go == (ok && executable_ok(exe_size)),
            appended(
                old(self).steps(),
                final(self).steps(),
                "Windows build"@,
                status_text(ok && executable_ok(exe_size)),
                "Headless export preset: "@ + preset@,
            ),
            ({
                let with_log = if ok {
                    old(self).errors()
                } else {
                    old(self).errors() + spec_summarize(log@)
                };
                final(self).errors() == if !(ok && executable_ok(exe_size)) && with_log.len() == 0 {
                    with_log.push("Godot did not produce a valid Windows executable"@)
                } else {
                    with_log
                }
            }),
            none_failed(final(self).steps()) == (none_failed(old(self).steps()) && go),
    {
        proof {
            lemma_status_texts();
        }
        if !ok {
            let found = summarize_errors(log);
            self.push_errors(found);
        }
        let exe_ok = match exe_size {
            Some(n) => n > MIN_EXECUTABLE_BYTES,
            None => false,
        };
        let export_ok = ok && exe_ok;
        let mut detail = String::from_str("Headless export preset: ");
        push_str(&mut detail, preset);
        self.record("Windows build", status_of(export_ok), detail);
        if !export_ok && self.errors.len() == 0 {
            proof {
                assert(string_views(self.errors@).len() == 0);
            }
            self.push_error(String::from_str("Godot did not produce a valid Windows executable"));
        }
        export_ok
    }

    /// Gate 8: the exported executable launched headlessly and exited. Only a run whose
    /// last gate passes yields a candidate build.
    pub fn launch(&mut self, ok: bool, log: &str) -> (go: bool)
        ensures
            go == ok,
            appended(
                old(self).steps(),
                final(self).steps(),
                "Exported build launch"@,
                status_text(ok),
                "CrimeSim.exe launched headlessly and exited after five iterations"@,
            ),
            final(self).errors() == if ok {
                old(self).errors()
            } else {
                old(self).errors() + spec_summarize(log@)
            },
            none_failed(final(self).steps()) == (none_failed(old(self).steps()) && ok),
    {
        self.logged_gate(
            "Exported build launch",
            ok,
            log,
            String::from_str("CrimeSim.exe launched headlessly and exited after five iterations"),
        )
    }

    /// The report of the run so far, stamped `created_at`.
    pub fn finish(self, revision: u64, created_at: String) -> (r: ValidationReport)
        ensures
            r.passed == none_failed(self.steps()),
            r.revision == revision,
            r.created_at@ == created_at@,
            r.steps@ == self.steps(),
            string_views(r.errors@) == self.errors(),
    {
        report(revision, created_at, self.steps, self.errors)
    }
}

/// Validation passes exactly when every gate run so far passed: each gate keeps "no
/// step failed" exactly when it lets the run go on, so a run stopped by a gate
/// reports failure and a run through every gate reports success.
pub proof fn law_report_passes_iff_gates_pass(steps: Seq<ValidationStep>, next: ValidationStep)
    ensures
        none_failed(steps.push(next)) == (none_failed(steps) && next.status@ != "failed"@),
{
    let s = steps.push(next);
    if none_failed(steps) && next.status@ != "failed"@ {
        assert forall|i: int| 0 <= i < s.len() implies #[trigger] s[i].status@ != "failed"@ by {
            if i < steps.len() {
                assert(s[i] == steps[i]);
            }
        }
    }
    if !none_failed(steps) {
        let k = choose|k: int| 0 <= k < steps.len() && #[trigger] steps[k].status@ == "failed"@;
        assert(s[k] == steps[k]);
    }
    if next.status@ == "failed"@ {
        assert(s[steps.len() as int] == next);
    }
}

} // verus!
