//! The schema-2 write-ahead transaction journal and the current receipt.
use vstd::prelude::*;
use crate::text::{chars_of, is_hex_digit, push_char, push_str};
use vstd::string::StringExecFns;

verus! {

/// Identity of a source or build tree: absent, or present with a SHA-256 over its entries.
#[derive(Debug, Clone)]
pub struct Fingerprint {
    pub present: bool,
    pub sha256: String,
}

impl View for Fingerprint {
    type V = (bool, Seq<char>);

    open spec fn view(&self) -> (bool, Seq<char>) {
        (self.present, self.sha256@)
    }
}

impl Fingerprint {
    /// The fingerprint of a tree that does not exist.
    pub fn absent() -> (f: Fingerprint)
        ensures
            f@ == (false, Seq::<char>::empty()),
    {
        Fingerprint { present: false, sha256: String::new() }
    }

    pub fn same(&self, other: &Fingerprint) -> (b: bool)
        ensures
            b == (self@ == other@),
    {
        self.present == other.present && self.sha256 == other.sha256
    }

    pub fn copy(&self) -> (f: Fingerprint)
        ensures
            f@ == self@,
    {
        Fingerprint { present: self.present, sha256: self.sha256.clone() }
    }
}

#[derive(Debug, Clone, Copy, PartialEq, Eq, Structural)]
pub enum Kind {
    Initialize,
    Update,
    Rollback,
    Repair,
}

#[derive(Debug, Clone, Copy, PartialEq, Eq, Structural)]
pub enum Phase {
    Preparing,
    Ready,
    SourcePromoting,
    SourcePromoted,
    BuildPromoting,
    PairPromoted,
    Committed,
    Restoring,
    Recovered,
}

/// Identity of the committed source/build pair.
#[derive(Debug, Clone)]
pub struct Receipt {
    pub schema: u32,
    pub transaction_id: String,
    pub project_id: String,
    pub revision: u64,
    pub source: Fingerprint,
    pub build: Fingerprint,
}

/// The update archive a transaction consumed, retained for archive and cleanup.
#[derive(Debug, Clone)]
pub struct Package {
    pub original: String,
    pub sha256: String,
}

#[derive(Debug, Clone)]
pub struct Journal {
    pub schema: u32,
    pub transaction_id: String,
    pub kind: Kind,
    pub phase: Phase,
    pub project_id: String,
    pub target_revision: u64,
    pub before_source: Fingerprint,
    pub before_build: Fingerprint,
    pub after_source: Option<Fingerprint>,
    pub after_build: Option<Fingerprint>,
    pub before_receipt: Option<Receipt>,
    pub package: Option<Package>,
}

/// Why a journal or receipt cannot be trusted.
#[derive(Debug, Clone, Copy, PartialEq, Eq, Structural)]
pub enum JournalError {
    /// Not schema 2: preserve the workspace for repair.
    UnsupportedJournal,
    /// Malformed transaction identity: recovery blocked.
    InvalidIdentity,
    /// The journal names no project.
    EmptyProject,
    /// A phase past Preparing lacks an after-image fingerprint.
    IncompleteFingerprints,
    /// The current receipt is not schema 1.
    UnsupportedReceipt,
}

impl JournalError {
    /// The text that `message` gives for this error.
    pub open spec fn message_text(self) -> Seq<char> {
        match self {
            JournalError::UnsupportedJournal => "Unsupported recovery journal; preserve workspace for repair"@,
            JournalError::InvalidIdentity => "Invalid transaction identity; recovery blocked"@,
            JournalError::EmptyProject => "Empty journal project identity"@,
            JournalError::IncompleteFingerprints => "Incomplete recovery fingerprints"@,
            JournalError::UnsupportedReceipt => "Unsupported current receipt"@,
        }
    }

    pub fn message(&self) -> (s: &'static str)
        ensures
            s@ == self.message_text(),
    {
        match self {
            JournalError::UnsupportedJournal => "Unsupported recovery journal; preserve workspace for repair",
            JournalError::InvalidIdentity => "Invalid transaction identity; recovery blocked",
            JournalError::EmptyProject => "Empty journal project identity",
            JournalError::IncompleteFingerprints => "Incomplete recovery fingerprints",
            JournalError::UnsupportedReceipt => "Unsupported current receipt",
        }
    }
}

/// A transaction identity: `t-` followed by hex digits, `-` and `t`, 6 to 100 bytes long.
pub open spec fn spec_valid_id(id: Seq<char>) -> bool {
    &&& 6 <= id.len() <= 100
    &&& id[0] == 't'
    &&& id[1] == '-'
    &&& forall|i: int| 0 <= i < id.len() ==> #[trigger] id_char(id[i])
}

pub open spec fn id_char(c: char) -> bool {
    is_hex_digit(c) || c == '-' || c == 't'
}

/// Checks a transaction identity before it names a directory.
pub fn valid_id(id: &str) -> (r: Result<(), JournalError>)
    ensures
        r is Ok <==> spec_valid_id(id@),
        r is Err ==> r == Err::<(), JournalError>(JournalError::InvalidIdentity),
{
    let v = chars_of(id);
    // Every allowed character is one byte, so the byte and character counts agree.
    if v.len() < 6 || v.len() > 100 || v[0] != 't' || v[1] != '-' {
        return Err(JournalError::InvalidIdentity);
    }
    let mut i: usize = 0;
    while i < v.len()
        invariant
            v@ == id@,
            i <= v@.len(),
            forall|k: int| 0 <= k < i ==> #[trigger] id_char(v@[k]),
        decreases v@.len() - i,
    {
        let c = v[i];
        let ok = ('0' <= c && c <= '9') || ('a' <= c && c <= 'f') || ('A' <= c && c <= 'F') || c == '-'
            || c == 't';
        if !ok {
            proof {
                assert(!id_char(id@[i as int]));
            }
            return Err(JournalError::InvalidIdentity);
        }
        i = i + 1;
    }
    Ok(())
}

/// Lower-case hexadecimal without leading zeros, as `{:x}` writes it.
pub open spec fn hex_text(n: nat) -> Seq<char>
    decreases n,
{
    if n < 16 {
        seq![hex_char(n)]
    } else {
        hex_text(n / 16).push(hex_char(n % 16))
    }
}

pub open spec fn hex_char(d: nat) -> char {
    if d < 10 {
        (('0' as u32) + d) as char
    } else if d < 16 {
        (('a' as u32) + d - 10) as char
    } else {
        '0'
    }
}

pub open spec fn pow16(k: nat) -> nat
    decreases k,
{
    if k == 0 {
        1
    } else {
        16 * pow16((k - 1) as nat)
    }
}

proof fn lemma_hex_shape(n: nat, k: nat)
    requires
        1 <= k,
        n < pow16(k),
    ensures
        1 <= hex_text(n).len() <= k,
        forall|i: int| 0 <= i < hex_text(n).len() ==> #[trigger] is_hex_digit(hex_text(n)[i]),
    decreases n,
{
    if n >= 16 {
        assert(k >= 2) by {
            if k == 1 {
                assert(pow16(1) == 16 * pow16(0));
            }
        }
        assert(pow16(k) == 16 * pow16((k - 1) as nat));
        lemma_hex_shape(n / 16, (k - 1) as nat);
        let d = hex_text(n / 16);
        assert forall|i: int| 0 <= i < hex_text(n).len() implies #[trigger] is_hex_digit(hex_text(n)[i]) by {
            if i < d.len() {
                assert(hex_text(n)[i] == d[i]);
            }
        }
    }
}

fn hex_digit_char(d: u8) -> (c: char)
    requires
        d < 16,
    ensures
        c == hex_char(d as nat),
{
    if d < 10 {
        (48u8 + d) as char
    } else {
        (87u8 + d) as char
    }
}

/// `format!("{:x}", n)`.
pub fn hex_lower(n: u128) -> (s: String)
    ensures
        s@ == hex_text(n as nat),
{
    let mut digits: Vec<char> = Vec::new();
    let mut m = n;
    while m >= 16
        invariant
            hex_text(n as nat) == hex_text(m as nat) + digits@.reverse(),
        decreases m,
    {
        let c = hex_digit_char((m % 16) as u8);
        digits.push(c);
        proof {
            assert(hex_text(m as nat) == hex_text((m / 16) as nat).push(c));
            assert(digits@.reverse() =~= seq![c] + digits@.drop_last().reverse());
            assert(hex_text(n as nat) =~= hex_text((m / 16) as nat) + digits@.reverse());
        }
        m = m / 16;
    }
    let c = hex_digit_char(m as u8);
    digits.push(c);
    proof {
        assert(hex_text(m as nat) == seq![c]);
        assert(digits@.reverse() =~= seq![c] + digits@.drop_last().reverse());
        assert(hex_text(n as nat) =~= digits@.reverse());
    }
    let mut s = String::new();
    let mut i = digits.len();
    while i > 0
        invariant
            i <= digits@.len(),
            s@ == digits@.reverse().take(digits@.len() - i),
        decreases i,
    {
        i = i - 1;
        push_char(&mut s, digits[i]);
        proof {
            assert(digits@.reverse().take(digits@.len() - i) =~= digits@.reverse().take(
                digits@.len() - i - 1,
            ).push(digits@[i as int]));
        }
    }
    proof {
        assert(s@ =~= digits@.reverse());
    }
    s
}

/// The identity of a new transaction: `t-`, then the start time in nanoseconds, the
/// process id and a counter, each in lower-case hex.
pub open spec fn spec_transaction_id(stamp: u128, pid: u32, n: u64) -> Seq<char> {
    "t-"@ + hex_text(stamp as nat) + "-"@ + hex_text(pid as nat) + "-"@ + hex_text(n as nat)
}

/// Makes a transaction identity; every identity it makes passes `valid_id`, so it can
/// always name its working directory.
pub fn transaction_id(stamp: u128, pid: u32, n: u64) -> (s: String)
    ensures
        s@ == spec_transaction_id(stamp, pid, n),
        spec_valid_id(s@),
{
    let mut s = String::from_str("t-");
    let a = hex_lower(stamp);
    push_str(&mut s, a.as_str());
    push_str(&mut s, "-");
    let b = hex_lower(pid as u128);
    push_str(&mut s, b.as_str());
    push_str(&mut s, "-");
    let c = hex_lower(n as u128);
    push_str(&mut s, c.as_str());
    proof {
        reveal_strlit("t-");
        reveal_strlit("-");
        reveal_with_fuel(pow16, 33);
        lemma_hex_shape(stamp as nat, 32);
        lemma_hex_shape(pid as nat, 8);
        lemma_hex_shape(n as nat, 16);
        let ha = hex_text(stamp as nat);
        let hb = hex_text(pid as nat);
        let hc = hex_text(n as nat);
        assert(s@ =~= seq!['t', '-'] + ha + seq!['-'] + hb + seq!['-'] + hc);
        assert forall|i: int| 0 <= i < s@.len() implies #[trigger] id_char(s@[i]) by {
            if i < 2 {
            } else if i < 2 + ha.len() {
                assert(s@[i] == ha[i - 2]);
            } else if i == 2 + ha.len() {
            } else if i < 3 + ha.len() + hb.len() {
                assert(s@[i] == hb[i - 3 - ha.len()]);
            } else if i == 3 + ha.len() + hb.len() {
            } else {
                assert(s@[i] == hc[i - 4 - ha.len() - hb.len()]);
            }
        }
    }
    s
}

/// A journal phase from which recovery cannot have touched live data or has finished.
pub open spec fn quiet_phase(p: Phase) -> bool {
    p == Phase::Preparing || p == Phase::Recovered
}

/// Everything `Journal::validate` demands of a journal.
pub open spec fn spec_journal_valid(j: Journal) -> bool {
    &&& j.schema == 2
    &&& spec_valid_id(j.transaction_id@)
    &&& j.project_id@.len() > 0
    &&& (j.before_receipt matches Some(r) ==> spec_valid_id(r.transaction_id@))
    &&& (!quiet_phase(j.phase) ==> j.after_source is Some && j.after_build is Some)
}

impl Journal {
    /// Checks schema, identities and that promotion fingerprints exist once promotion
    /// may have begun. The first failing check names the error.
    pub fn validate(&self) -> (r: Result<(), JournalError>)
        ensures
            r is Ok <==> spec_journal_valid(*self),
            self.schema != 2 ==> r == Err::<(), JournalError>(JournalError::UnsupportedJournal),
            self.schema == 2 && !spec_valid_id(self.transaction_id@) ==> r == Err::<(), JournalError>(
                JournalError::InvalidIdentity,
            ),
            self.schema == 2 && spec_valid_id(self.transaction_id@) && self.project_id@.len() == 0
                ==> r == Err::<(), JournalError>(JournalError::EmptyProject),
            r is Err ==> r->Err_0 != JournalError::UnsupportedReceipt,
    {
        if self.schema != 2 {
            return Err(JournalError::UnsupportedJournal);
        }
        valid_id(self.transaction_id.as_str())?;
        if self.project_id.as_str().is_empty() {
            return Err(JournalError::EmptyProject);
        }
        if let Some(r) = &self.before_receipt {
            valid_id(r.transaction_id.as_str())?;
        }
        let quiet = self.phase == Phase::Preparing || self.phase == Phase::Recovered;
        if !quiet && (self.after_source.is_none() || self.after_build.is_none()) {
            return Err(JournalError::IncompleteFingerprints);
        }
        Ok(())
    }
}

/// Everything the current receipt must satisfy.
pub open spec fn spec_receipt_valid(r: Receipt) -> bool {
    spec_valid_id(r.transaction_id@) && r.schema == 1
}

impl Receipt {
    /// Identity is checked before the schema, as the workspace reads it.
    pub fn validate(&self) -> (r: Result<(), JournalError>)
        ensures
            r is Ok <==> spec_receipt_valid(*self),
            !spec_valid_id(self.transaction_id@) ==> r == Err::<(), JournalError>(
                JournalError::InvalidIdentity,
            ),
            spec_valid_id(self.transaction_id@) && self.schema != 1 ==> r == Err::<(), JournalError>(
                JournalError::UnsupportedReceipt,
            ),
    {
        valid_id(self.transaction_id.as_str())?;
        if self.schema != 1 {
            return Err(JournalError::UnsupportedReceipt);
        }
        Ok(())
    }
}

} // verus!
