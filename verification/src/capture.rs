//! Fixed-size first/last output capture for bounded workers.
//!
//! A capture keeps at most `limit` bytes of one output stream: the first `limit / 2`
//! bytes and the last `limit - limit / 2` bytes of what follows them. Every byte ever
//! pushed is scanned for Godot's fatal markers, including bytes that are not retained.
use vstd::prelude::*;
use std::collections::VecDeque;
use crate::text::{
    all_ascii, decimal, is_ascii_char, lemma_decimal_u64, lemma_utf8_bytes_ascii, lemma_utf8_bytes_concat, push_str,
    spec_utf8_lossy, u64_decimal, utf8_bytes, utf8_lossy,
};

verus! {

/// Bytes kept from the overlap between chunks, so that a marker split across two
/// pushes is still found. Longer than every marker.
pub const SCAN_OVERLAP: usize = 32;

/// `SCRIPT ERROR:`
pub open spec fn marker_script_error() -> Seq<u8> {
    seq![83u8, 67, 82, 73, 80, 84, 32, 69, 82, 82, 79, 82, 58]
}

/// `ERROR:`
pub open spec fn marker_error() -> Seq<u8> {
    seq![69u8, 82, 82, 79, 82, 58]
}

/// `Parse Error:`
pub open spec fn marker_parse_error() -> Seq<u8> {
    seq![80u8, 97, 114, 115, 101, 32, 69, 114, 114, 111, 114, 58]
}

/// `needle` occurs in `s` starting at position `i`.
pub open spec fn occurs_at(s: Seq<u8>, needle: Seq<u8>, i: int) -> bool {
    &&& 0 <= i
    &&& i + needle.len() <= s.len()
    &&& s.subrange(i, i + needle.len()) == needle
}

pub open spec fn occurs(s: Seq<u8>, needle: Seq<u8>) -> bool {
    exists|i: int| occurs_at(s, needle, i)
}

/// The stream holds one of the fatal Godot output markers somewhere.
pub open spec fn has_fatal_marker(s: Seq<u8>) -> bool {
    ||| occurs(s, marker_script_error())
    ||| occurs(s, marker_error())
    ||| occurs(s, marker_parse_error())
}

/// The last `n` elements of `s` (all of `s` when it is shorter).
pub open spec fn last_n(s: Seq<u8>, n: int) -> Seq<u8> {
    if s.len() <= n {
        s
    } else {
        s.skip(s.len() - n)
    }
}

pub open spec fn min_int(a: int, b: int) -> int {
    if a <= b {
        a
    } else {
        b
    }
}

/// Capacity of the first-bytes part.
pub open spec fn head_cap(limit: usize) -> int {
    (limit / 2) as int
}

/// Capacity of the last-bytes part.
pub open spec fn tail_cap(limit: usize) -> int {
    limit - limit / 2
}

/// What a capture retains of `stream`: its first bytes.
pub open spec fn spec_head(stream: Seq<u8>, limit: usize) -> Seq<u8> {
    stream.take(min_int(head_cap(limit), stream.len() as int))
}

/// What a capture retains of `stream`: the last bytes of what follows the head.
pub open spec fn spec_tail(stream: Seq<u8>, limit: usize) -> Seq<u8> {
    last_n(stream.skip(spec_head(stream, limit).len() as int), tail_cap(limit))
}

/// Saturating count of observed bytes.
pub open spec fn spec_observed(stream: Seq<u8>) -> u64 {
    if stream.len() <= u64::MAX {
        stream.len() as u64
    } else {
        u64::MAX
    }
}

/// Fixed-size first/last capture. No unbounded buffer exists.
pub struct Capture {
    head: Vec<u8>,
    tail: VecDeque<u8>,
    limit: usize,
    observed: u64,
    error_marker_seen: bool,
    scan_tail: Vec<u8>,
    /// Every byte pushed so far, in order.
    stream: Ghost<Seq<u8>>,
}

impl Capture {
    #[verifier::type_invariant]
    spec fn inv(self) -> bool {
        &&& self.head@ == spec_head(self.stream@, self.limit)
        &&& self.tail@ == spec_tail(self.stream@, self.limit)
        &&& self.observed == spec_observed(self.stream@)
        &&& self.error_marker_seen == has_fatal_marker(self.stream@)
        &&& self.scan_tail@ == last_n(self.stream@, SCAN_OVERLAP as int)
    }

    /// All bytes pushed so far.
    pub closed spec fn stream(self) -> Seq<u8> {
        self.stream@
    }

    /// The retention budget this capture was made with.
    pub closed spec fn limit(self) -> usize {
        self.limit
    }

    /// The retained first bytes: the first `limit / 2` bytes of the stream.
    pub open spec fn head(self) -> Seq<u8> {
        spec_head(self.stream(), self.limit())
    }

    /// The retained last bytes: the last `limit - limit / 2` bytes after the head.
    pub open spec fn tail(self) -> Seq<u8> {
        spec_tail(self.stream(), self.limit())
    }

    pub fn new(limit: usize) -> (c: Self)
        ensures
            c.stream() == Seq::<u8>::empty(),
            c.limit() == limit,
    {
        proof {
            let e = Seq::<u8>::empty();
            assert(spec_head(e, limit) =~= e);
            assert(spec_tail(e, limit) =~= e);
            assert(last_n(e, SCAN_OVERLAP as int) =~= e);
            assert(!occurs(e, marker_script_error()));
            assert(!occurs(e, marker_error()));
            assert(!occurs(e, marker_parse_error()));
        }
        let c = Capture {
            head: Vec::new(),
            tail: VecDeque::new(),
            limit,
            observed: 0,
            error_marker_seen: false,
            scan_tail: Vec::new(),
            stream: Ghost(Seq::empty()),
        };
        c
    }

    /// Bytes observed so far, saturating at `u64::MAX`.
    pub open spec fn observed_count(self) -> u64 {
        spec_observed(self.stream())
    }

    /// Number of bytes observed, saturating at `u64::MAX`.
    pub fn observed(&self) -> (n: u64)
        ensures
            n == self.observed_count(),
    {
        proof {
            use_type_invariant(self);
        }
        self.observed
    }

    /// Whether a fatal Godot marker appeared anywhere in the stream, retained or not.
    pub fn error_marker_seen(&self) -> (b: bool)
        ensures
            b == has_fatal_marker(self.stream()),
    {
        proof {
            use_type_invariant(self);
        }
        self.error_marker_seen
    }

    /// Appends one chunk of worker output.
    pub fn push(&mut self, bytes: &[u8])
        ensures
            final(self).stream() == old(self).stream() + bytes@,
            final(self).limit() == old(self).limit(),
    {
        proof {
            use_type_invariant(&*self);
        }
        let ghost old_stream = self.stream@;
        let ghost new_stream = old_stream + bytes@;
        let mut cur = Capture::new(self.limit);
        std::mem::swap(&mut cur, self);
        proof {
            use_type_invariant(&cur);
        }
        let Capture { head: mut head, tail: mut tail, limit, observed, error_marker_seen, scan_tail, stream: _ } = cur;
        let ghost old_tail = tail@;
        let n = bytes.len();
        let add: u64 = if n as u128 > u64::MAX as u128 { u64::MAX } else { n as u64 };
        let observed = observed.saturating_add(add);
        proof {
            assert(observed == spec_observed(new_stream));
        }

        // Scan the retained overlap plus the new chunk for every marker.
        let mut scan = scan_tail;
        append_slice(&mut scan, bytes);
        let found = scan_has_marker(&scan);
        proof {
            lemma_marker_split(old_stream, bytes@);
        }
        let seen = error_marker_seen || found;
        let keep_from = if scan.len() > SCAN_OVERLAP { scan.len() - SCAN_OVERLAP } else { 0 };
        let new_scan_tail = copy_range(&scan, keep_from, scan.len());
        proof {
            lemma_last_n_of_concat(old_stream, bytes@, SCAN_OVERLAP as int);
            assert(new_scan_tail@ =~= last_n(new_stream, SCAN_OVERLAP as int));
        }

        // Fill the head first, then keep the last bytes of the rest.
        let half = limit / 2;
        let room = half - head.len();
        let take = if room < n { room } else { n };
        append_range(&mut head, bytes, 0, take);
        let tail_limit = limit - half;
        let rest_len = n - take;
        if rest_len >= tail_limit {
            tail.clear();
            push_back_range(&mut tail, bytes, n - tail_limit, n);
        } else {
            let total = tail.len() + rest_len;
            let evict = if total > tail_limit { total - tail_limit } else { 0 };
            let mut i: usize = 0;
            while i < evict
                invariant
                    i <= evict,
                    evict <= old_tail.len(),
                    tail@ == old_tail.skip(i as int),
                decreases evict - i,
            {
                tail.pop_front();
                proof {
                    assert(old_tail.skip(i as int).subrange(1, old_tail.skip(i as int).len() as int)
                        =~= old_tail.skip(i + 1));
                }
                i = i + 1;
            }
            push_back_range(&mut tail, bytes, take, n);
        }
        proof {
            lemma_head_tail_step(old_stream, bytes@, limit);
            assert(bytes@.subrange(0, take as int) == bytes@.subrange(0, take as int));
        }
        *self = Capture {
            head,
            tail,
            limit,
            observed,
            error_marker_seen: seen,
            scan_tail: new_scan_tail,
            stream: Ghost(new_stream),
        };
    }

    /// Bytes currently held: never more than the budget.
    pub fn retained_bytes(&self) -> (n: usize)
        ensures
            n == self.head().len() + self.tail().len(),
            n <= self.limit(),
            n as int == min_int(self.stream().len() as int, self.limit() as int),
    {
        proof {
            use_type_invariant(self);
        }
        self.head.len() + self.tail.len()
    }

    /// Observed bytes that are not held, by the saturating counters.
    pub open spec fn omitted(self) -> u64 {
        let retained = min_int(self.stream().len() as int, self.limit() as int);
        if spec_observed(self.stream()) >= retained {
            (spec_observed(self.stream()) - retained) as u64
        } else {
            0
        }
    }

    /// Observed bytes that are no longer held.
    pub fn omitted_bytes(&self) -> (n: u64)
        ensures
            n == self.omitted(),
            self.stream().len() <= u64::MAX ==> n + min_int(self.stream().len() as int, self.limit() as int)
                == self.stream().len(),
    {
        proof {
            use_type_invariant(self);
        }
        let retained = self.retained_bytes();
        let r: u64 = if retained as u128 > u64::MAX as u128 { u64::MAX } else { retained as u64 };
        self.observed.saturating_sub(r)
    }
}

/// The marker that separates retained first and last output when bytes were dropped.
pub open spec fn omission_note(n: u64) -> Seq<char> {
    "\n[Bridge omitted "@ + decimal(n as nat) + " bytes; first/last output retained]\n"@
}

/// The omission note is ASCII and at most 73 characters long.
pub proof fn lemma_omission_note(n: u64)
    ensures
        all_ascii(omission_note(n)),
        omission_note(n).len() <= 73,
        utf8_bytes(omission_note(n)) == omission_note(n).len(),
{
    let a = "\n[Bridge omitted "@;
    let b = " bytes; first/last output retained]\n"@;
    reveal_strlit("\n[Bridge omitted ");
    reveal_strlit(" bytes; first/last output retained]\n");
    assert(all_ascii(a));
    assert(all_ascii(b));
    lemma_decimal_u64(n);
    let d = decimal(n as nat);
    let note = a + d + b;
    assert forall|i: int| 0 <= i < note.len() implies is_ascii_char(#[trigger] note[i]) by {
        if i < a.len() {
            assert(note[i] == a[i]);
        } else if i < a.len() + d.len() {
            assert(note[i] == d[i - a.len()]);
        } else {
            assert(note[i] == b[i - a.len() - d.len()]);
        }
    }
    lemma_utf8_bytes_ascii(note);
}

impl Capture {
    /// The text a capture shows: first bytes, an omission note when bytes were dropped,
    /// then last bytes, each part decoded lossily.
    pub open spec fn shown(self) -> Seq<char> {
        spec_utf8_lossy(self.head()) + (if self.omitted() > 0 {
            omission_note(self.omitted())
        } else {
            Seq::<char>::empty()
        }) + spec_utf8_lossy(self.tail())
    }

    /// The retained output as text: first bytes, an omission note when bytes were
    /// dropped, then last bytes. Invalid UTF-8 is replaced, never a panic.
    pub fn text(&self) -> (s: String)
        ensures
            s@ == self.shown(),
            s@.len() <= self.head().len() + self.tail().len() + 73,
            utf8_bytes(s@) <= 3 * (self.head().len() + self.tail().len()) + 73,
    {
        proof {
            use_type_invariant(self);
        }
        let mut out = utf8_lossy(self.head.as_slice());
        let omitted = self.omitted_bytes();
        if omitted > 0 {
            push_str(&mut out, "\n[Bridge omitted ");
            let digits = u64_decimal(omitted);
            push_str(&mut out, digits.as_str());
            push_str(&mut out, " bytes; first/last output retained]\n");
        }
        let mut tail_bytes: Vec<u8> = Vec::new();
        let mut i: usize = 0;
        while i < self.tail.len()
            invariant
                i <= self.tail@.len(),
                tail_bytes@ == self.tail@.take(i as int),
            decreases self.tail@.len() - i,
        {
            tail_bytes.push(self.tail[i]);
            proof {
                assert(self.tail@.take(i + 1) =~= self.tail@.take(i as int).push(self.tail@[i as int]));
            }
            i = i + 1;
        }
        proof {
            assert(tail_bytes@ =~= self.tail@);
        }
        let tail_text = utf8_lossy(tail_bytes.as_slice());
        push_str(&mut out, tail_text.as_str());
        proof {
            let h = spec_utf8_lossy(self.head());
            let t = spec_utf8_lossy(self.tail());
            let mid = if omitted > 0 {
                omission_note(self.omitted())
            } else {
                Seq::<char>::empty()
            };
            if omitted > 0 {
                assert(out@ =~= h + mid + t);
                lemma_omission_note(self.omitted());
            } else {
                assert(out@ =~= h + mid + t);
                assert(utf8_bytes(mid) == 0);
            }
            lemma_utf8_bytes_concat(h, mid);
            lemma_utf8_bytes_concat(h + mid, t);
        }
        out
    }
}

/// Appends all of `bytes` to `v`.
fn append_slice(v: &mut Vec<u8>, bytes: &[u8])
    ensures
        final(v)@ == old(v)@ + bytes@,
{
    append_range(v, bytes, 0, bytes.len());
    proof {
        assert(bytes@.subrange(0, bytes@.len() as int) =~= bytes@);
    }
}

/// Appends `bytes[from..to]` to `v`.
fn append_range(v: &mut Vec<u8>, bytes: &[u8], from: usize, to: usize)
    requires
        from <= to <= bytes@.len(),
    ensures
        final(v)@ == old(v)@ + bytes@.subrange(from as int, to as int),
{
    let mut i = from;
    while i < to
        invariant
            from <= i <= to <= bytes@.len(),
            v@ == old(v)@ + bytes@.subrange(from as int, i as int),
        decreases to - i,
    {
        v.push(bytes[i]);
        proof {
            assert(bytes@.subrange(from as int, i + 1) =~= bytes@.subrange(from as int, i as int).push(
                bytes@[i as int],
            ));
        }
        i = i + 1;
    }
}

/// A new vector holding `v[from..to]`.
fn copy_range(v: &Vec<u8>, from: usize, to: usize) -> (out: Vec<u8>)
    requires
        from <= to <= v@.len(),
    ensures
        out@ == v@.subrange(from as int, to as int),
{
    let mut out = Vec::new();
    append_range(&mut out, v.as_slice(), from, to);
    proof {
        assert(out@ =~= v@.subrange(from as int, to as int));
    }
    out
}

fn push_back_range(q: &mut VecDeque<u8>, bytes: &[u8], from: usize, to: usize)
    requires
        from <= to <= bytes@.len(),
    ensures
        final(q)@ == old(q)@ + bytes@.subrange(from as int, to as int),
{
    let mut i = from;
    while i < to
        invariant
            from <= i <= to <= bytes@.len(),
            q@ == old(q)@ + bytes@.subrange(from as int, i as int),
        decreases to - i,
    {
        q.push_back(bytes[i]);
        proof {
            assert(bytes@.subrange(from as int, i + 1) =~= bytes@.subrange(from as int, i as int).push(
                bytes@[i as int],
            ));
        }
        i = i + 1;
    }
}

/// Whether `needle` occurs in `s`.
fn find(s: &Vec<u8>, needle: &Vec<u8>) -> (b: bool)
    ensures
        b == occurs(s@, needle@),
{
    let n = needle.len();
    let slen = s.len();
    if n > slen {
        proof {
            assert forall|i: int| !occurs_at(s@, needle@, i) by {}
        }
        return false;
    }
    let mut i: usize = 0;
    while i <= slen - n
        invariant
            slen == s@.len(),
            n == needle@.len(),
            n <= s@.len(),
            i <= s@.len() - n + 1,
            forall|k: int| 0 <= k < i ==> !occurs_at(s@, needle@, k),
        decreases s@.len() - i,
    {
        let mut j: usize = 0;
        let mut same = true;
        while j < n
            invariant
                n == needle@.len(),
                slen == s@.len(),
                n <= slen,
                i <= slen - n,
                j <= n,
                same == (forall|k: int| 0 <= k < j ==> s@[i + k] == needle@[k]),
            decreases n - j,
        {
            if s[i + j] != needle[j] {
                same = false;
            }
            j = j + 1;
        }
        if same {
            proof {
                assert(s@.subrange(i as int, i + n) =~= needle@);
                assert(occurs_at(s@, needle@, i as int));
            }
            return true;
        }
        proof {
            if s@.subrange(i as int, i + n) == needle@ {
                assert forall|k: int| 0 <= k < n implies s@[i + k] == needle@[k] by {
                    assert(s@.subrange(i as int, i + n)[k] == s@[i + k]);
                }
            }
        }
        i = i + 1;
    }
    proof {
        assert forall|k: int| !occurs_at(s@, needle@, k) by {
            if 0 <= k && k < i {
            }
        }
    }
    false
}

fn scan_has_marker(scan: &Vec<u8>) -> (b: bool)
    ensures
        b == has_fatal_marker(scan@),
{
    let script = vec![83u8, 67, 82, 73, 80, 84, 32, 69, 82, 82, 79, 82, 58];
    let error = vec![69u8, 82, 82, 79, 82, 58];
    let parse = vec![80u8, 97, 114, 115, 101, 32, 69, 114, 114, 111, 114, 58];
    proof {
        assert(script@ =~= marker_script_error());
        assert(error@ =~= marker_error());
        assert(parse@ =~= marker_parse_error());
    }
    find(scan, &script) || find(scan, &error) || find(scan, &parse)
}

/// An occurrence of a short needle in `old + new` lies wholly in `old` or in the last
/// bytes of `old` followed by `new`.
proof fn lemma_occurs_split(old: Seq<u8>, new: Seq<u8>, needle: Seq<u8>)
    requires
        needle.len() <= SCAN_OVERLAP,
    ensures
        occurs(old + new, needle) == (occurs(old, needle) || occurs(
            last_n(old, SCAN_OVERLAP as int) + new,
            needle,
        )),
{
    let full = old + new;
    let t = last_n(old, SCAN_OVERLAP as int);
    let scan = t + new;
    let shift = old.len() - t.len();
    assert(scan =~= full.skip(shift));
    if occurs(full, needle) {
        let i = choose|i: int| occurs_at(full, needle, i);
        if i + needle.len() <= old.len() {
            assert(full.subrange(i, i + needle.len()) =~= old.subrange(i, i + needle.len()));
            assert(occurs_at(old, needle, i));
        } else {
            assert(i >= shift);
            assert(scan.subrange(i - shift, i - shift + needle.len()) =~= full.subrange(
                i,
                i + needle.len(),
            ));
            assert(occurs_at(scan, needle, i - shift));
        }
    }
    if occurs(old, needle) {
        let i = choose|i: int| occurs_at(old, needle, i);
        assert(full.subrange(i, i + needle.len()) =~= old.subrange(i, i + needle.len()));
        assert(occurs_at(full, needle, i));
    }
    if occurs(scan, needle) {
        let i = choose|i: int| occurs_at(scan, needle, i);
        assert(scan.subrange(i, i + needle.len()) =~= full.subrange(
            i + shift,
            i + shift + needle.len(),
        ));
        assert(occurs_at(full, needle, i + shift));
    }
}

proof fn lemma_marker_split(old: Seq<u8>, new: Seq<u8>)
    ensures
        has_fatal_marker(old + new) == (has_fatal_marker(old) || has_fatal_marker(
            last_n(old, SCAN_OVERLAP as int) + new,
        )),
{
    lemma_occurs_split(old, new, marker_script_error());
    lemma_occurs_split(old, new, marker_error());
    lemma_occurs_split(old, new, marker_parse_error());
}

proof fn lemma_last_n_of_concat(old: Seq<u8>, new: Seq<u8>, n: int)
    requires
        n >= 0,
    ensures
        last_n(old + new, n) == last_n(last_n(old, n) + new, n),
{
    let a = last_n(old, n) + new;
    let b = old + new;
    if old.len() <= n {
        assert(a =~= b);
    } else {
        assert(last_n(b, n) =~= last_n(a, n));
    }
}

/// Head and tail after one push are those of the longer stream.
proof fn lemma_head_tail_step(old: Seq<u8>, bytes: Seq<u8>, limit: usize)
    ensures
        ({
            let h = spec_head(old, limit);
            let room = head_cap(limit) - h.len();
            let take = min_int(room, bytes.len() as int);
            let rest_len = bytes.len() - take;
            let t = spec_tail(old, limit);
            let tl = tail_cap(limit);
            let new = old + bytes;
            &&& 0 <= room
            &&& spec_head(new, limit) == h + bytes.subrange(0, take)
            &&& rest_len >= tl ==> spec_tail(new, limit) == bytes.subrange(
                bytes.len() - tl,
                bytes.len() as int,
            )
            &&& rest_len < tl ==> {
                let evict = if t.len() + rest_len > tl {
                    t.len() + rest_len - tl
                } else {
                    0
                };
                &&& evict <= t.len()
                &&& spec_tail(new, limit) == t.skip(evict) + bytes.subrange(take, bytes.len() as int)
            }
        }),
{
    let h = spec_head(old, limit);
    let room = head_cap(limit) - h.len();
    let take = min_int(room, bytes.len() as int);
    let new = old + bytes;
    let t = spec_tail(old, limit);
    let tl = tail_cap(limit);
    assert(spec_head(new, limit) =~= h + bytes.subrange(0, take));
    let after = new.skip(spec_head(new, limit).len() as int);
    if room > 0 {
        // The old stream was wholly in the head; the tail is empty.
        assert(h.len() == old.len());
        assert(after =~= bytes.subrange(take, bytes.len() as int));
        assert(t =~= Seq::<u8>::empty());
    } else {
        assert(take == 0);
        assert(after =~= old.skip(h.len() as int) + bytes);
        lemma_last_n_of_concat(old.skip(h.len() as int), bytes, tl);
    }
    let rest_len = bytes.len() - take;
    if rest_len >= tl {
        assert(last_n(after, tl) =~= bytes.subrange(bytes.len() - tl, bytes.len() as int));
    } else {
        let evict = if t.len() + rest_len > tl {
            t.len() + rest_len - tl
        } else {
            0
        };
        assert(last_n(after, tl) =~= t.skip(evict) + bytes.subrange(take, bytes.len() as int));
    }
}

/// What a capture retains is faithful to the stream: the head is a prefix of it, the
/// tail a suffix of it, the two never overlap, and a stream that fits in the budget is
/// retained whole, head followed by tail.
pub proof fn law_capture_retains_prefix_and_suffix(stream: Seq<u8>, limit: usize)
    ensures
        stream.take(spec_head(stream, limit).len() as int) == spec_head(stream, limit),
        stream.skip(stream.len() - spec_tail(stream, limit).len()) == spec_tail(stream, limit),
        spec_head(stream, limit).len() + spec_tail(stream, limit).len() <= stream.len(),
        spec_head(stream, limit).len() + spec_tail(stream, limit).len() <= limit,
        stream.len() <= limit ==> spec_head(stream, limit) + spec_tail(stream, limit) == stream,
{
    let h = spec_head(stream, limit);
    let rest = stream.skip(h.len() as int);
    let t = spec_tail(stream, limit);
    if rest.len() <= tail_cap(limit) {
        assert(t =~= rest);
        assert(stream.skip(stream.len() - t.len()) =~= t);
        assert(h + t =~= stream);
    } else {
        assert(t =~= rest.skip(rest.len() - tail_cap(limit)));
        assert(stream.skip(stream.len() - t.len()) =~= t);
    }
}

} // verus!
