//! Names the Bridge gives to what it writes: revision-numbered history and archive
//! entries and context pack files.
use vstd::prelude::*;
use vstd::string::StringExecFns;
use crate::text::{decimal, push_str, u64_decimal};

verus! {

/// `format!("{:04}", n)`: the decimal digits, zero-padded to at least four.
pub open spec fn padded4(n: u64) -> Seq<char> {
    let d = decimal(n as nat);
    if d.len() >= 4 {
        d
    } else {
        Seq::new((4 - d.len()) as nat, |i: int| '0') + d
    }
}

pub fn pad4(n: u64) -> (s: String)
    ensures
        s@ == padded4(n),
{
    let d = u64_decimal(n);
    let mut s = String::new();
    let len = d.as_str().unicode_len();
    let mut k: usize = len;
    while k < 4
        invariant
            len == decimal(n as nat).len(),
            len <= k <= 4 || (len > 4 && k == len),
            s@ == Seq::new((k - len) as nat, |i: int| '0'),
        decreases 4 - k,
    {
        crate::text::push_char(&mut s, '0');
        proof {
            assert(s@ =~= Seq::new((k + 1 - len) as nat, |i: int| '0'));
        }
        k = k + 1;
    }
    push_str(&mut s, d.as_str());
    proof {
        if len >= 4 {
            assert(s@ =~= decimal(n as nat));
        } else {
            assert(s@ =~= Seq::new((4 - len) as nat, |i: int| '0') + decimal(n as nat));
        }
    }
    s
}

/// The history or staging directory of a revision: `rev_0007`.
pub fn revision_dir(revision: u64) -> (s: String)
    ensures
        s@ == "rev_"@ + padded4(revision),
{
    let mut s = String::from_str("rev_");
    let p = pad4(revision);
    push_str(&mut s, p.as_str());
    s
}

/// Where an applied update package is archived: `rev_0007_<file name>`.
pub fn applied_archive_name(revision: u64, file_name: &str) -> (s: String)
    ensures
        s@ == "rev_"@ + padded4(revision) + "_"@ + file_name@,
{
    let mut s = revision_dir(revision);
    push_str(&mut s, "_");
    push_str(&mut s, file_name);
    s
}

/// A context pack's file name: revision, area and a unique id.
pub fn context_pack_name(revision: u64, module_id: &str, id: &str) -> (s: String)
    ensures
        s@ == "CrimeSim_Context_"@ + padded4(revision) + "_"@ + module_id@ + "_"@ + id@ + ".zip"@,
{
    let mut s = String::from_str("CrimeSim_Context_");
    let p = pad4(revision);
    push_str(&mut s, p.as_str());
    push_str(&mut s, "_");
    push_str(&mut s, module_id);
    push_str(&mut s, "_");
    push_str(&mut s, id);
    push_str(&mut s, ".zip");
    s
}

} // verus!
