//! Bounded trusted-worker runs: the Bridge-owned job identity, the request limits,
//! the watchdog's decisions while the worker runs and while its tree is stopped, and
//! the outcome report. The process and pipe handling around them is the caller's.
use vstd::prelude::*;
use vstd::string::StringExecFns;
use crate::capture::Capture;
use crate::text::{
    all_ascii, chars_of, decimal, digit_char, is_alnum, is_digit, lemma_decimal_shape, lemma_decimal_u64,
    lemma_utf8_bytes_ascii, lemma_utf8_bytes_concat, pow10, push_char, push_str, starts_with, u128_decimal, u64_decimal,
    utf8_bytes, vec_starts_with,
};

verus! {

/// Why a worker run ended.
#[derive(Debug, Clone, Copy, PartialEq, Eq, Structural)]
pub enum Reason {
    Exited,
    TimedOut,
    Cancelled,
    IoFailure,
}

/// A duration as whole seconds and nanoseconds, as `Duration` holds it.
#[derive(Debug, Clone, Copy, PartialEq, Eq, Structural)]
pub struct Elapsed {
    pub secs: u64,
    pub nanos: u32,
}

/// Why a worker request or job identity is refused.
#[derive(Debug, Clone, Copy, PartialEq, Eq, Structural)]
pub enum WorkerError {
    JobPrefix,
    JobIdentity,
    Limits,
    NotRecoverable,
}

impl WorkerError {
    /// The text that `message` gives for this error.
    pub open spec fn message_text(self) -> Seq<char> {
        match self {
            WorkerError::JobPrefix => "Invalid Bridge worker job prefix"@,
            WorkerError::JobIdentity => "Invalid Bridge worker job identity"@,
            WorkerError::Limits => "Invalid worker paths, deadline or capture budget"@,
            WorkerError::NotRecoverable => "Linux cannot safely recover a persisted Windows job identity; retain workspace for inspection"@,
        }
    }

    pub fn message(&self) -> (s: &'static str)
        ensures
            s@ == self.message_text(),
    {
        match self {
            WorkerError::JobPrefix => "Invalid Bridge worker job prefix",
            WorkerError::JobIdentity => "Invalid Bridge worker job identity",
            WorkerError::Limits => "Invalid worker paths, deadline or capture budget",
            WorkerError::NotRecoverable => "Linux cannot safely recover a persisted Windows job identity; retain workspace for inspection",
        }
    }
}

/// The named-job prefix every Bridge worker identity carries.
pub open spec fn job_prefix() -> Seq<char> {
    "Local\\CrimeSimBridgeWorker_"@
}

pub open spec fn job_char(c: char) -> bool {
    is_alnum(c) || c == '_'
}

/// Why `name` is not a Bridge-owned job identity: the prefix, then 1 to 100 ASCII
/// letters, digits or `_`.
pub open spec fn job_name_error(name: Seq<char>) -> Option<WorkerError> {
    if !starts_with(name, job_prefix()) {
        Some(WorkerError::JobPrefix)
    } else {
        let suffix = name.skip(job_prefix().len() as int);
        if suffix.len() == 0 || suffix.len() > 100 || !(forall|i: int| 0 <= i < suffix.len() ==> #[trigger] job_char(suffix[i])) {
            Some(WorkerError::JobIdentity)
        } else {
            None
        }
    }
}

/// Checks a job identity before any named job is created or opened.
pub fn validate_job_name(name: &str) -> (r: Result<(), WorkerError>)
    ensures
        match job_name_error(name@) {
            Some(e) => r == Err::<(), WorkerError>(e),
            None => r is Ok,
        },
{
    let v = chars_of(name);
    if !vec_starts_with(&v, "Local\\CrimeSimBridgeWorker_") {
        return Err(WorkerError::JobPrefix);
    }
    proof {
        reveal_strlit("Local\\CrimeSimBridgeWorker_");
    }
    let start: usize = 27;
    let n = v.len() - start;
    if n == 0 || n > 100 {
        return Err(WorkerError::JobIdentity);
    }
    let ghost suffix = name@.skip(27);
    let mut i: usize = start;
    while i < v.len()
        invariant
            start == 27,
            start <= i <= v@.len(),
            job_prefix().len() == 27,
            starts_with(name@, job_prefix()),
            suffix.len() == v@.len() - 27,
            0 < suffix.len() <= 100,
            v@ == name@,
            suffix == name@.skip(27),
            forall|k: int| 0 <= k < i - start ==> #[trigger] job_char(suffix[k]),
        decreases v@.len() - i,
    {
        let c = v[i];
        if !(('0' <= c && c <= '9') || ('a' <= c && c <= 'z') || ('A' <= c && c <= 'Z') || c == '_') {
            proof {
                assert(!job_char(suffix[i - start]));
            }
            return Err(WorkerError::JobIdentity);
        }
        i = i + 1;
    }
    Ok(())
}

/// Whether a job left by an interrupted run may be recovered, before anything is opened:
/// an identity that is not Bridge-owned is refused, and so is every identity on a
/// platform without persistent named jobs (Linux process groups die with the Bridge,
/// so a persisted Windows job identity fails closed there). `Ok` recovers nothing by
/// itself: it lets the platform open that named job and stop what it holds.
pub fn recover_owned_job(name: &str, named_jobs: bool) -> (r: Result<(), WorkerError>)
    ensures
        match job_name_error(name@) {
            Some(e) => r == Err::<(), WorkerError>(e),
            None => if named_jobs {
                r is Ok
            } else {
                r == Err::<(), WorkerError>(WorkerError::NotRecoverable)
            },
        },
{
    validate_job_name(name)?;
    if !named_jobs {
        return Err(WorkerError::NotRecoverable);
    }
    Ok(())
}

/// The job identity of one run: process id, start time in nanoseconds and a counter.
pub open spec fn spec_job_name(pid: u32, nanos: u128, id: u64) -> Seq<char> {
    job_prefix() + decimal(pid as nat) + "_"@ + decimal(nanos as nat) + "_"@ + decimal(id as nat)
}

/// Makes a unique job identity; every identity it makes passes `validate_job_name`.
pub fn job_name(pid: u32, nanos: u128, id: u64) -> (s: String)
    ensures
        s@ == spec_job_name(pid, nanos, id),
        job_name_error(s@) is None,
{
    let mut s = String::from_str("Local\\CrimeSimBridgeWorker_");
    let a = u64_decimal(pid as u64);
    push_str(&mut s, a.as_str());
    push_str(&mut s, "_");
    let b = u128_decimal(nanos);
    push_str(&mut s, b.as_str());
    push_str(&mut s, "_");
    let c = u64_decimal(id);
    push_str(&mut s, c.as_str());
    proof {
        reveal_strlit("Local\\CrimeSimBridgeWorker_");
        reveal_strlit("_");
        reveal_with_fuel(pow10, 40);
        lemma_decimal_shape(pid as nat, 10);
        lemma_decimal_shape(nanos as nat, 39);
        lemma_decimal_shape(id as nat, 20);
        let da = decimal(pid as nat);
        let db = decimal(nanos as nat);
        let dc = decimal(id as nat);
        let suffix = s@.skip(27);
        assert(s@ =~= job_prefix() + (da + "_"@ + db + "_"@ + dc));
        assert(s@.take(27) =~= job_prefix());
        assert(starts_with(s@, job_prefix()));
        assert(suffix =~= da + "_"@ + db + "_"@ + dc);
        assert forall|i: int| 0 <= i < suffix.len() implies #[trigger] job_char(suffix[i]) by {
            if i < da.len() {
                assert(suffix[i] == da[i]);
            } else if i == da.len() {
            } else if i < da.len() + 1 + db.len() {
                assert(suffix[i] == db[i - da.len() - 1]);
            } else if i == da.len() + 1 + db.len() {
            } else {
                assert(suffix[i] == dc[i - da.len() - 2 - db.len()]);
            }
        }
    }
    s
}

/// Whether `e` is zero.
pub open spec fn is_zero(e: Elapsed) -> bool {
    e.secs == 0 && e.nanos == 0
}

/// Whether `e` is longer than `secs` whole seconds, in `Duration`'s order.
pub open spec fn longer_than(e: Elapsed, secs: u64) -> bool {
    e.secs > secs || (e.secs == secs && e.nanos > 0)
}

/// A run needs absolute executable and working-directory paths, a deadline of at most
/// an hour, a cleanup deadline of at most 30 seconds, and a capture budget between
/// 1 KiB and 2 MiB per stream.
pub open spec fn limits_ok(exe_absolute: bool, cwd_absolute: bool, timeout: Elapsed, cleanup: Elapsed, capture_limit: usize) -> bool {
    &&& exe_absolute
    &&& cwd_absolute
    &&& !is_zero(timeout)
    &&& !longer_than(timeout, 3600)
    &&& !is_zero(cleanup)
    &&& !longer_than(cleanup, 30)
    &&& 1024 <= capture_limit <= 2 * 1024 * 1024
}

/// Checks a worker request: its job identity first, then its paths and limits.
pub fn check_request(
    job_name: &str,
    exe_absolute: bool,
    cwd_absolute: bool,
    timeout: Elapsed,
    cleanup: Elapsed,
    capture_limit: usize,
) -> (r: Result<(), WorkerError>)
    ensures
        match job_name_error(job_name@) {
            Some(e) => r == Err::<(), WorkerError>(e),
            None => if limits_ok(exe_absolute, cwd_absolute, timeout, cleanup, capture_limit) {
                r is Ok
            } else {
                r == Err::<(), WorkerError>(WorkerError::Limits)
            },
        },
{
    match validate_job_name(job_name) {
        Err(e) => return Err(e),
        Ok(()) => {},
    }
    let zero_t = timeout.secs == 0 && timeout.nanos == 0;
    let long_t = timeout.secs > 3600 || (timeout.secs == 3600 && timeout.nanos > 0);
    let zero_c = cleanup.secs == 0 && cleanup.nanos == 0;
    let long_c = cleanup.secs > 30 || (cleanup.secs == 30 && cleanup.nanos > 0);
    if !exe_absolute || !cwd_absolute || zero_t || long_t || zero_c || long_c || capture_limit < 1024 || capture_limit > 2
        * 1024 * 1024 {
        return Err(WorkerError::Limits);
    }
    Ok(())
}

/// Which query failed while the worker ran.
#[derive(Debug, Clone, Copy, PartialEq, Eq, Structural)]
pub enum Failure {
    Read,
    Status,
    Ownership,
}

/// The watchdog's decision after one poll.
#[derive(Debug, Clone, Copy, PartialEq, Eq, Structural)]
pub enum Verdict {
    Continue,
    Stop(Reason),
    Failed(Failure),
}

/// One poll of a running worker. `read_ok`: both pipes drained without error.
/// `status`: the exit code query (`None` when it failed). `quiet`: whether no process
/// of the owned tree can still run (`None` when the query failed). `streams_closed`:
/// both pipes reached end of file. The worker has exited only when its code is known,
/// its tree is quiet and both pipes are closed; output never extends the deadline.
pub fn poll_verdict(
    read_ok: bool,
    status: Option<Option<i32>>,
    quiet: Option<bool>,
    streams_closed: bool,
    cancelled: bool,
    timed_out: bool,
    code: &mut Option<i32>,
) -> (v: Verdict)
    ensures
        !read_ok ==> v == Verdict::Failed(Failure::Read) && *final(code) == *old(code),
        read_ok && status is None ==> v == Verdict::Failed(Failure::Status) && *final(code) == *old(code),
        read_ok && status is Some ==> {
            &&& *final(code) == status->0
            &&& v == (match quiet {
                None => Verdict::Failed(Failure::Ownership),
                Some(q) => if q && status->0 is Some && streams_closed {
                    Verdict::Stop(Reason::Exited)
                } else if cancelled {
                    Verdict::Stop(Reason::Cancelled)
                } else if timed_out {
                    Verdict::Stop(Reason::TimedOut)
                } else {
                    Verdict::Continue
                },
            })
        },
{
    if !read_ok {
        return Verdict::Failed(Failure::Read);
    }
    match status {
        None => return Verdict::Failed(Failure::Status),
        Some(s) => {
            *code = s;
        },
    }
    match quiet {
        None => return Verdict::Failed(Failure::Ownership),
        Some(q) => {
            if q && code.is_some() && streams_closed {
                return Verdict::Stop(Reason::Exited);
            }
        },
    }
    if cancelled {
        return Verdict::Stop(Reason::Cancelled);
    }
    if timed_out {
        return Verdict::Stop(Reason::TimedOut);
    }
    Verdict::Continue
}

/// The state of stopping the owned tree after a run.
#[derive(Debug, Clone, Copy, PartialEq, Eq, Structural)]
pub enum Cleanup {
    /// The code is known and no process of the tree can run.
    Confirmed,
    /// The cleanup deadline passed first.
    Overdue,
    Wait,
}

/// One poll while the owned tree is stopped. A code learnt now is kept only if none
/// was known. Cleanup is confirmed only with a known code and a quiet tree.
pub fn cleanup_verdict(status: Option<Option<i32>>, quiet: Option<bool>, overdue: bool, code: &mut Option<i32>) -> (c: Cleanup)
    ensures
        *final(code) == (if (*old(code)) is None && status is Some {
            status->0
        } else {
            *old(code)
        }),
        c == (if quiet == Some(true) && (*final(code)) is Some {
            Cleanup::Confirmed
        } else if overdue {
            Cleanup::Overdue
        } else {
            Cleanup::Wait
        }),
{
    if code.is_none() {
        match status {
            Some(s) => {
                *code = s;
            },
            None => {},
        }
    }
    let q = match quiet {
        Some(b) => b,
        None => false,
    };
    if q && code.is_some() {
        Cleanup::Confirmed
    } else if overdue {
        Cleanup::Overdue
    } else {
        Cleanup::Wait
    }
}

/// `s` holds `needle` somewhere.
pub open spec fn contains_seq(s: Seq<char>, needle: Seq<char>) -> bool {
    exists|i: int| 0 <= i <= s.len() - needle.len() && #[trigger] s.subrange(i, i + needle.len()) == needle
}

fn matches_at(v: &Vec<char>, n: &Vec<char>, i: usize) -> (b: bool)
    requires
        i + n@.len() <= v@.len(),
    ensures
        b == (v@.subrange(i as int, i + n@.len()) == n@),
{
    let mut j: usize = 0;
    let vl = v.len();
    while j < n.len()
        invariant
            vl == v@.len(),
            i + n@.len() <= v@.len(),
            j <= n@.len(),
            forall|m: int| 0 <= m < j ==> v@[i + m] == n@[m],
        decreases n@.len() - j,
    {
        if v[i + j] != n[j] {
            proof {
                assert(v@.subrange(i as int, i + n@.len())[j as int] != n@[j as int]);
            }
            return false;
        }
        j = j + 1;
    }
    proof {
        assert(v@.subrange(i as int, i + n@.len()) =~= n@);
    }
    true
}

/// Whether `s` holds `needle`.
pub fn contains_text(s: &str, needle: &str) -> (b: bool)
    ensures
        b == contains_seq(s@, needle@),
{
    let v = chars_of(s);
    let n = chars_of(needle);
    if n.len() > v.len() {
        proof {
            assert forall|i: int| 0 <= i <= v@.len() - n@.len() implies #[trigger] v@.subrange(i, i + n@.len()) != n@ by {
            }
        }
        return false;
    }
    let last = v.len() - n.len();
    let mut i: usize = 0;
    while i < last
        invariant
            n@.len() <= v@.len(),
            last == v@.len() - n@.len(),
            v@ == s@,
            n@ == needle@,
            i <= last,
            forall|k: int| 0 <= k < i ==> #[trigger] v@.subrange(k, k + n@.len()) != n@,
        decreases last - i,
    {
        if matches_at(&v, &n, i) {
            return true;
        }
        i = i + 1;
    }
    matches_at(&v, &n, last)
}

/// The note a failed reap adds to the outcome detail, once.
pub fn reap_note_needed(detail: &str) -> (b: bool)
    ensures
        b == !contains_seq(detail@, "Reap failed:"@),
{
    !contains_text(detail, "Reap failed:")
}

/// The note an unconfirmed cleanup adds to the outcome detail.
pub fn cleanup_note(confirmed: bool) -> (s: &'static str)
    ensures
        confirmed ==> s@ == ""@,
        !confirmed ==> s@ == " Cleanup deadline exceeded; preserve staging and block recovery."@,
{
    if confirmed {
        ""
    } else {
        " Cleanup deadline exceeded; preserve staging and block recovery."
    }
}

/// The report of one worker run.
pub struct Outcome {
    pub reason: Reason,
    pub code: Option<i32>,
    pub cleanup_confirmed: bool,
    pub elapsed: Elapsed,
    pub stdout: Capture,
    pub stderr: Capture,
    pub detail: String,
}

/// Before a worker is spawned: a run cancelled already ends here, with nothing spawned,
/// nothing to clean up and empty captures of the request's budget; otherwise the worker
/// is started.
pub fn cancelled_before_spawn(cancelled: bool, capture_limit: usize, elapsed: Elapsed) -> (o: Option<Outcome>)
    ensures
        !cancelled ==> o is None,
        cancelled ==> (o matches Some(out) && {
            &&& out.reason == Reason::Cancelled
            &&& out.code is None
            &&& out.cleanup_confirmed
            &&& out.elapsed == elapsed
            &&& out.stdout.stream() == Seq::<u8>::empty()
            &&& out.stdout.limit() == capture_limit
            &&& out.stderr.stream() == Seq::<u8>::empty()
            &&& out.stderr.limit() == capture_limit
            &&& out.detail@ == "Cancelled before spawn"@
        }),
{
    if cancelled {
        Some(Outcome {
            reason: Reason::Cancelled,
            code: None,
            cleanup_confirmed: true,
            elapsed,
            stdout: Capture::new(capture_limit),
            stderr: Capture::new(capture_limit),
            detail: String::from_str("Cancelled before spawn"),
        })
    } else {
        None
    }
}

pub open spec fn reason_text(r: Reason) -> Seq<char> {
    match r {
        Reason::Exited => "Exited"@,
        Reason::TimedOut => "TimedOut"@,
        Reason::Cancelled => "Cancelled"@,
        Reason::IoFailure => "IoFailure"@,
    }
}

fn reason_name(r: Reason) -> (s: &'static str)
    ensures
        s@ == reason_text(r),
{
    match r {
        Reason::Exited => "Exited",
        Reason::TimedOut => "TimedOut",
        Reason::Cancelled => "Cancelled",
        Reason::IoFailure => "IoFailure",
    }
}

/// `Display` of a signed integer.
pub open spec fn signed_decimal(n: int) -> Seq<char> {
    if n < 0 {
        "-"@ + decimal((-n) as nat)
    } else {
        decimal(n as nat)
    }
}

/// `Debug` of an optional exit code.
pub open spec fn code_text(c: Option<i32>) -> Seq<char> {
    match c {
        None => "None"@,
        Some(n) => "Some("@ + signed_decimal(n as int) + ")"@,
    }
}

pub open spec fn bool_text(b: bool) -> Seq<char> {
    if b {
        "true"@
    } else {
        "false"@
    }
}

/// Hundredths of a second in `e`, rounded to nearest, halves up.
pub open spec fn centis(e: Elapsed) -> nat {
    (e.secs * 100 + e.nanos / 10_000_000 + if e.nanos % 10_000_000 >= 5_000_000 {
        1int
    } else {
        0int
    }) as nat
}

/// `e` in seconds with two decimals.
pub open spec fn seconds_text(e: Elapsed) -> Seq<char> {
    let c = centis(e);
    decimal(c / 100) + "."@ + seq![digit_char((c % 100) / 10), digit_char(c % 10)]
}

fn push_signed(s: &mut String, n: i32)
    ensures
        final(s)@ == old(s)@ + signed_decimal(n as int),
{
    if n < 0 {
        push_str(s, "-");
        let m: u64 = (0i64 - n as i64) as u64;
        let d = u64_decimal(m);
        push_str(s, d.as_str());
    } else {
        let d = u64_decimal(n as u64);
        push_str(s, d.as_str());
    }
}

fn push_seconds(s: &mut String, e: Elapsed)
    ensures
        final(s)@ == old(s)@ + seconds_text(e),
{
    let round: u128 = if e.nanos % 10_000_000 >= 5_000_000 {
        1
    } else {
        0
    };
    let c: u128 = (e.secs as u128) * 100 + (e.nanos / 10_000_000) as u128 + round;
    proof {
        assert(c == centis(e));
    }
    let whole = u128_decimal(c / 100);
    push_str(s, whole.as_str());
    push_str(s, ".");
    let tens = ((c % 100) / 10) as u8;
    let ones = (c % 10) as u8;
    push_char(s, (48u8 + tens) as char);
    push_char(s, (48u8 + ones) as char);
    proof {
        assert(((48u8 + tens) as char) == digit_char(((c % 100) / 10) as nat));
        assert(((48u8 + ones) as char) == digit_char((c % 10) as nat));
        assert(final(s)@ =~= old(s)@ + seconds_text(e)) by {
            reveal_strlit(".");
        }
    }
}

impl Outcome {
    /// The run exited by itself with code 0 and its whole tree was confirmed stopped.
    pub fn success(&self) -> (b: bool)
        ensures
            b == (self.reason == Reason::Exited && self.code == Some(0i32) && self.cleanup_confirmed),
    {
        let zero = match self.code {
            Some(c) => c == 0,
            None => false,
        };
        self.reason == Reason::Exited && zero && self.cleanup_confirmed
    }

    pub open spec fn spec_summary(self) -> Seq<char> {
        reason_text(self.reason) + "; exit="@ + code_text(self.code) + "; "@ + seconds_text(self.elapsed)
            + "s; worker tree stopped="@ + bool_text(self.cleanup_confirmed) + ". "@ + self.detail@
    }

    /// One line: reason, exit code, seconds, whether the tree stopped, and the detail.
    pub fn summary(&self) -> (s: String)
        ensures
            s@ == self.spec_summary(),
    {
        let mut s = String::from_str(reason_name(self.reason));
        push_str(&mut s, "; exit=");
        match self.code {
            None => push_str(&mut s, "None"),
            Some(n) => {
                push_str(&mut s, "Some(");
                push_signed(&mut s, n);
                push_str(&mut s, ")");
            },
        }
        push_str(&mut s, "; ");
        push_seconds(&mut s, self.elapsed);
        push_str(&mut s, "s; worker tree stopped=");
        push_str(&mut s, if self.cleanup_confirmed { "true" } else { "false" });
        push_str(&mut s, ". ");
        push_str(&mut s, self.detail.as_str());
        proof {
            assert(s@ =~= self.spec_summary());
        }
        s
    }

    pub open spec fn spec_log(self) -> Seq<char> {
        self.spec_summary() + "\nstdout observed="@ + decimal(self.stdout.observed_count() as nat) + " omitted="@
            + decimal(self.stdout.omitted() as nat) + "\nstderr observed="@ + decimal(
            self.stderr.observed_count() as nat,
        ) + " omitted="@ + decimal(self.stderr.omitted() as nat) + "\n--- STDOUT ---\n"@ + self.stdout.shown()
            + "\n--- STDERR ---\n"@ + self.stderr.shown()
    }

    /// The worker log: the summary, byte counts of both streams, then their text. Its
    /// encoding is bounded: the summary, at most three bytes per retained output byte,
    /// and 310 bytes of labels, counters and omission notes.
    pub fn log(&self) -> (s: String)
        ensures
            s@ == self.spec_log(),
            utf8_bytes(s@) <= utf8_bytes(self.spec_summary()) + 3 * (self.stdout.head().len()
                + self.stdout.tail().len() + self.stderr.head().len() + self.stderr.tail().len()) + 310,
    {
        let mut s = self.summary();
        push_str(&mut s, "\nstdout observed=");
        let a = u64_decimal(self.stdout.observed());
        push_str(&mut s, a.as_str());
        push_str(&mut s, " omitted=");
        let b = u64_decimal(self.stdout.omitted_bytes());
        push_str(&mut s, b.as_str());
        push_str(&mut s, "\nstderr observed=");
        let c = u64_decimal(self.stderr.observed());
        push_str(&mut s, c.as_str());
        push_str(&mut s, " omitted=");
        let d = u64_decimal(self.stderr.omitted_bytes());
        push_str(&mut s, d.as_str());
        push_str(&mut s, "\n--- STDOUT ---\n");
        let t = self.stdout.text();
        push_str(&mut s, t.as_str());
        push_str(&mut s, "\n--- STDERR ---\n");
        let u = self.stderr.text();
        push_str(&mut s, u.as_str());
        proof {
            assert(s@ =~= self.spec_log());
            let l1 = "\nstdout observed="@;
            let l2 = " omitted="@;
            let l3 = "\nstderr observed="@;
            let l4 = "\n--- STDOUT ---\n"@;
            let l5 = "\n--- STDERR ---\n"@;
            reveal_strlit("\nstdout observed=");
            reveal_strlit(" omitted=");
            reveal_strlit("\nstderr observed=");
            reveal_strlit("\n--- STDOUT ---\n");
            reveal_strlit("\n--- STDERR ---\n");
            assert(all_ascii(l1) && all_ascii(l2) && all_ascii(l3) && all_ascii(l4) && all_ascii(l5));
            lemma_utf8_bytes_ascii(l1);
            lemma_utf8_bytes_ascii(l2);
            lemma_utf8_bytes_ascii(l3);
            lemma_utf8_bytes_ascii(l4);
            lemma_utf8_bytes_ascii(l5);
            let d1 = decimal(self.stdout.observed_count() as nat);
            let d2 = decimal(self.stdout.omitted() as nat);
            let d3 = decimal(self.stderr.observed_count() as nat);
            let d4 = decimal(self.stderr.omitted() as nat);
            lemma_decimal_u64(self.stdout.observed_count());
            lemma_decimal_u64(self.stdout.omitted());
            lemma_decimal_u64(self.stderr.observed_count());
            lemma_decimal_u64(self.stderr.omitted());
            lemma_utf8_bytes_ascii(d1);
            lemma_utf8_bytes_ascii(d2);
            lemma_utf8_bytes_ascii(d3);
            lemma_utf8_bytes_ascii(d4);
            let p0 = self.spec_summary();
            let p1 = p0 + l1;
            let p2 = p1 + d1;
            let p3 = p2 + l2;
            let p4 = p3 + d2;
            let p5 = p4 + l3;
            let p6 = p5 + d3;
            let p7 = p6 + l2;
            let p8 = p7 + d4;
            let p9 = p8 + l4;
            let p10 = p9 + t@;
            let p11 = p10 + l5;
            let p12 = p11 + u@;
            lemma_utf8_bytes_concat(p0, l1);
            lemma_utf8_bytes_concat(p1, d1);
            lemma_utf8_bytes_concat(p2, l2);
            lemma_utf8_bytes_concat(p3, d2);
            lemma_utf8_bytes_concat(p4, l3);
            lemma_utf8_bytes_concat(p5, d3);
            lemma_utf8_bytes_concat(p6, l2);
            lemma_utf8_bytes_concat(p7, d4);
            lemma_utf8_bytes_concat(p8, l4);
            lemma_utf8_bytes_concat(p9, t@);
            lemma_utf8_bytes_concat(p10, l5);
            lemma_utf8_bytes_concat(p11, u@);
            assert(s@ == p12);
        }
        s
    }
}

/// What the platform learns while waiting for a recovered job to empty.
#[derive(Debug, Clone, Copy, PartialEq, Eq, Structural)]
pub enum JobWait {
    Stopped,
    Overdue,
    Wait,
}

/// One poll of a terminated job: done once no process is active; an error once the
/// recovery deadline passes first.
pub fn job_wait_verdict(active: u32, overdue: bool) -> (w: JobWait)
    ensures
        w == (if active == 0 {
            JobWait::Stopped
        } else if overdue {
            JobWait::Overdue
        } else {
            JobWait::Wait
        }),
{
    if active == 0 {
        JobWait::Stopped
    } else if overdue {
        JobWait::Overdue
    } else {
        JobWait::Wait
    }
}

} // verus!
