//! What the Bridge tells its user after an action: applied, rejected, failed safely,
//! rolled back, initialized. Also the playable-build revision marker's parsing.
use vstd::prelude::*;
use vstd::string::StringExecFns;
use crate::text::{decimal, is_digit, push_str, u64_decimal};
use crate::validation::{trim, trim_chars, ValidationReport};

verus! {

#[derive(Debug, Clone)]
pub struct ActionResult {
    pub ok: bool,
    pub title: String,
    pub detail: String,
    pub path: Option<String>,
}

/// Texts joined with a separator, as `[String]::join` does.
pub open spec fn join_with(items: Seq<Seq<char>>, sep: Seq<char>) -> Seq<char>
    decreases items.len(),
{
    if items.len() == 0 {
        Seq::empty()
    } else if items.len() == 1 {
        items[0]
    } else {
        join_with(items.drop_last(), sep) + sep + items.last()
    }
}

pub open spec fn texts(v: Seq<String>) -> Seq<Seq<char>> {
    v.map_values(|s: String| s@)
}

/// `items.join(sep)`.
pub fn join_strings(items: &Vec<String>, sep: &str) -> (s: String)
    ensures
        s@ == join_with(texts(items@), sep@),
{
    let mut s = String::new();
    let mut i: usize = 0;
    while i < items.len()
        invariant
            i <= items@.len(),
            s@ == join_with(texts(items@).take(i as int), sep@),
        decreases items@.len() - i,
    {
        if i > 0 {
            push_str(&mut s, sep);
        }
        push_str(&mut s, items[i].as_str());
        proof {
            let t = texts(items@).take(i + 1);
            assert(t.drop_last() =~= texts(items@).take(i as int));
            assert(t.last() == items@[i as int]@);
            if i == 0 {
                assert(s@ =~= join_with(t, sep@));
            }
        }
        i = i + 1;
    }
    proof {
        assert(texts(items@).take(i as int) =~= texts(items@));
    }
    s
}

/// A failed update or rollback is a rejection (the package is quarantined with the
/// validation errors as its reason) exactly when the last validation report is for the
/// candidate's revision and failed; any other failure is reported as a safe failure.
pub fn rejected_by_validation(report: &Option<ValidationReport>, revision: u64) -> (b: bool)
    ensures
        b == (report matches Some(r) && !r.passed && r.revision == revision),
{
    match report {
        Some(r) => !r.passed && r.revision == revision,
        None => false,
    }
}

/// A rejected update: its validation errors, or a generic line when there are none,
/// and where the package was quarantined.
pub fn rejected_update(errors: &Vec<String>, quarantined: String) -> (r: ActionResult)
    ensures
        !r.ok,
        r.title@ == "Update rejected and quarantined"@,
        r.detail@ == if errors@.len() == 0 {
            "Staged project failed validation"@
        } else {
            join_with(texts(errors@), " | "@)
        },
        r.path matches Some(p) && p@ == quarantined@,
{
    let detail = if errors.len() == 0 {
        String::from_str("Staged project failed validation")
    } else {
        join_strings(errors, " | ")
    };
    ActionResult {
        ok: false,
        title: String::from_str("Update rejected and quarantined"),
        detail,
        path: Some(quarantined),
    }
}

/// An applied update: the revision, the package's summary, and whether its archive
/// was made (`archived` holds the archive's file name).
pub fn applied_update(summary: &str, revision: u64, archived: Option<String>, current_path: String) -> (r: ActionResult)
    ensures
        r.ok,
        r.title@ == "Revision "@ + decimal(revision as nat) + " applied"@,
        r.detail@ == match archived {
            Some(name) => summary@ + " Update archived as "@ + name@ + "."@,
            None => summary@ + " Source/build committed; update archive cleanup will be retried if needed."@,
        },
        r.path matches Some(p) && p@ == current_path@,
{
    let mut title = String::from_str("Revision ");
    let d = u64_decimal(revision);
    push_str(&mut title, d.as_str());
    push_str(&mut title, " applied");
    let mut detail = String::from_str(summary);
    match &archived {
        Some(name) => {
            push_str(&mut detail, " Update archived as ");
            push_str(&mut detail, name.as_str());
            push_str(&mut detail, ".");
        },
        None => {
            push_str(&mut detail, " Source/build committed; update archive cleanup will be retried if needed.");
        },
    }
    ActionResult { ok: true, title, detail, path: Some(current_path) }
}

/// An update that failed before commit: the reason, what recovery did, and where the
/// package was quarantined if it could be.
pub fn failed_safely(reason: &str, recovery: Option<String>, quarantined: Option<String>) -> (r: ActionResult)
    ensures
        !r.ok,
        r.title@ == "Update failed safely"@,
        r.detail@ == match recovery {
            Some(rec) => reason@ + ". "@ + rec@,
            None => reason@,
        },
        r.path == quarantined,
{
    let mut detail = String::from_str(reason);
    match &recovery {
        Some(rec) => {
            push_str(&mut detail, ". ");
            push_str(&mut detail, rec.as_str());
        },
        None => {},
    }
    ActionResult { ok: false, title: String::from_str("Update failed safely"), detail, path: quarantined }
}

/// The revision a rollback returns to; revision 0 has none.
pub fn rollback_target(revision: u64) -> (t: Option<u64>)
    ensures
        revision == 0 ==> t is None,
        revision > 0 ==> t == Some((revision - 1) as u64),
{
    if revision == 0 {
        None
    } else {
        Some(revision - 1)
    }
}

pub fn nothing_to_roll_back() -> (r: ActionResult)
    ensures
        !r.ok,
        r.title@ == "Nothing to roll back"@,
        r.detail@ == "Revision 0 has no earlier source snapshot."@,
        r.path is None,
{
    ActionResult {
        ok: false,
        title: String::from_str("Nothing to roll back"),
        detail: String::from_str("Revision 0 has no earlier source snapshot."),
        path: None,
    }
}

pub fn rollback_unavailable(target: u64) -> (r: ActionResult)
    ensures
        !r.ok,
        r.title@ == "Rollback unavailable"@,
        r.detail@ == "No source snapshot exists for revision "@ + decimal(target as nat) + "."@,
        r.path is None,
{
    let mut detail = String::from_str("No source snapshot exists for revision ");
    let d = u64_decimal(target);
    push_str(&mut detail, d.as_str());
    push_str(&mut detail, ".");
    ActionResult { ok: false, title: String::from_str("Rollback unavailable"), detail, path: None }
}

pub fn rollback_rejected(errors: &Vec<String>) -> (r: ActionResult)
    ensures
        !r.ok,
        r.title@ == "Rollback rejected"@,
        r.detail@ == join_with(texts(errors@), " | "@),
        r.path is None,
{
    ActionResult {
        ok: false,
        title: String::from_str("Rollback rejected"),
        detail: join_strings(errors, " | "),
        path: None,
    }
}

pub fn rolled_back(target: u64) -> (r: ActionResult)
    ensures
        r.ok,
        r.title@ == "Rolled back to revision "@ + decimal(target as nat),
        r.detail@ == "Source and playable build were rebuilt from the retained snapshot."@,
        r.path is None,
{
    let mut title = String::from_str("Rolled back to revision ");
    let d = u64_decimal(target);
    push_str(&mut title, d.as_str());
    ActionResult {
        ok: true,
        title,
        detail: String::from_str("Source and playable build were rebuilt from the retained snapshot."),
        path: None,
    }
}

/// The value of a string of decimal digits.
pub open spec fn digits_value(s: Seq<char>) -> nat
    decreases s.len(),
{
    if s.len() == 0 {
        0
    } else {
        digits_value(s.drop_last()) * 10 + ((s.last() as u32) - ('0' as u32)) as nat
    }
}

pub open spec fn all_digits(s: Seq<char>) -> bool {
    forall|i: int| 0 <= i < s.len() ==> #[trigger] is_digit(s[i])
}

/// `text.trim().parse::<u64>()`: an optional `+`, then one or more ASCII digits whose
/// value fits in 64 bits.
pub open spec fn spec_parse_u64(text: Seq<char>) -> Option<u64> {
    let t = trim(text);
    let d = if t.len() > 0 && t[0] == '+' {
        t.drop_first()
    } else {
        t
    };
    if d.len() > 0 && all_digits(d) && digits_value(d) <= u64::MAX {
        Some(digits_value(d) as u64)
    } else {
        None
    }
}

proof fn lemma_digits_value_grows(s: Seq<char>, k: int)
    requires
        0 <= k <= s.len(),
        all_digits(s),
    ensures
        digits_value(s.take(k)) <= digits_value(s),
    decreases s.len() - k,
{
    if k < s.len() {
        lemma_digits_value_grows(s, k + 1);
        assert(s.take(k + 1).drop_last() =~= s.take(k));
        assert(is_digit(s[k]));
    } else {
        assert(s.take(k) =~= s);
    }
}

/// The revision a playable build records in its marker file, when readable.
pub fn parse_revision(text: &str) -> (r: Option<u64>)
    ensures
        r == spec_parse_u64(text@),
{
    let v = crate::text::chars_of(text);
    let t = trim_chars(&v);
    let start: usize = if t.len() > 0 && t[0] == '+' {
        1
    } else {
        0
    };
    let ghost d = if t@.len() > 0 && t@[0] == '+' {
        t@.drop_first()
    } else {
        t@
    };
    proof {
        assert(d =~= t@.skip(start as int));
    }
    if t.len() == start {
        return None;
    }
    let mut value: u64 = 0;
    let mut i: usize = start;
    while i < t.len()
        invariant
            start <= i <= t@.len(),
            d == t@.skip(start as int),
            d == (if t@.len() > 0 && t@[0] == '+' {
                t@.drop_first()
            } else {
                t@
            }),
            d.len() > 0,
            t@ == trim(text@),
            forall|k: int| 0 <= k < i - start ==> #[trigger] is_digit(d[k]),
            value == digits_value(d.take(i - start)),
        decreases t@.len() - i,
    {
        let c = t[i];
        if !('0' <= c && c <= '9') {
            proof {
                assert(!is_digit(d[i - start]));
            }
            return None;
        }
        let digit = (c as u32 - '0' as u32) as u64;
        proof {
            assert(d.take(i + 1 - start).drop_last() =~= d.take(i - start));
            assert(d[i - start] == c);
            assert(digits_value(d.take(i + 1 - start)) == value * 10 + digit);
        }
        let grown = match value.checked_mul(10) {
            None => {
                proof {
                    assert(forall|k: int| 0 <= k < i + 1 - start ==> #[trigger] is_digit(d[k]));
                    if all_digits(d) {
                        lemma_digits_value_grows(d, i + 1 - start);
                    }
                }
                return None;
            },
            Some(g) => g,
        };
        value = match grown.checked_add(digit) {
            None => {
                proof {
                    if all_digits(d) {
                        lemma_digits_value_grows(d, i + 1 - start);
                    }
                }
                return None;
            },
            Some(n) => n,
        };
        i = i + 1;
    }
    proof {
        assert(d.take(i - start) =~= d);
    }
    Some(value)
}

} // verus!
