//! What the platform layers decide before they touch the OS: the Windows command
//! line (standard CRT quoting, no shell), the executable check, and which
//! `/proc/<pid>/stat` entries are live members of a worker's process group.
use vstd::prelude::*;
use vstd::string::StringExecFns;
use crate::text::{ascii_lower, chars_of, is_digit, is_white, char_is_white};

verus! {

/// Why the Windows platform refuses to start a worker.
#[derive(Debug, Clone, Copy, PartialEq, Eq, Structural)]
pub enum SpawnError {
    NulArgument,
    CommandTooLong,
    NotExecutable,
}

impl SpawnError {
    /// The text that `message` gives for this error.
    pub open spec fn message_text(self) -> Seq<char> {
        match self {
            SpawnError::NulArgument => "NUL in worker path/argument"@,
            SpawnError::CommandTooLong => "Worker command line too long"@,
            SpawnError::NotExecutable => "Windows worker must be an executable, not a shell script"@,
        }
    }

    pub fn message(&self) -> (s: &'static str)
        ensures
            s@ == self.message_text(),
    {
        match self {
            SpawnError::NulArgument => "NUL in worker path/argument",
            SpawnError::CommandTooLong => "Worker command line too long",
            SpawnError::NotExecutable => "Windows worker must be an executable, not a shell script",
        }
    }
}

pub open spec fn has_nul(units: Seq<u16>) -> bool {
    exists|i: int| 0 <= i < units.len() && units[i] == 0
}

/// `n` copies of `u`.
pub open spec fn repeat(u: u16, n: nat) -> Seq<u16> {
    Seq::new(n, |i: int| u)
}

/// CRT quoting of the rest of an argument, `slashes` backslashes pending: backslashes
/// are doubled before a quote or the closing quote, and a quote is escaped.
pub open spec fn quote_rest(src: Seq<u16>, slashes: nat) -> Seq<u16>
    decreases src.len(),
{
    if src.len() == 0 {
        repeat(92, 2 * slashes).push(34)
    } else if src[0] == 92 {
        quote_rest(src.drop_first(), slashes + 1)
    } else {
        repeat(92, if src[0] == 34 { 2 * slashes + 1 } else { slashes }).push(src[0]) + quote_rest(src.drop_first(), 0)
    }
}

/// One argument in double quotes, as the Microsoft C runtime parses it back.
pub open spec fn spec_quoted(arg: Seq<u16>) -> Seq<u16> {
    seq![34u16] + quote_rest(arg, 0)
}

fn push_repeat(out: &mut Vec<u16>, u: u16, n: usize)
    ensures
        final(out)@ == old(out)@ + repeat(u, n as nat),
{
    let mut k: usize = 0;
    while k < n
        invariant
            k <= n,
            out@ == old(out)@ + repeat(u, k as nat),
        decreases n - k,
    {
        out.push(u);
        proof {
            assert(repeat(u, (k + 1) as nat) =~= repeat(u, k as nat).push(u));
        }
        k = k + 1;
    }
}

proof fn lemma_quote_rest_len(src: Seq<u16>, slashes: nat)
    ensures
        quote_rest(src, slashes).len() >= src.len() + slashes + 1,
    decreases src.len(),
{
    if src.len() > 0 {
        if src[0] == 92 {
            lemma_quote_rest_len(src.drop_first(), slashes + 1);
        } else {
            lemma_quote_rest_len(src.drop_first(), 0);
        }
    }
}

/// Quotes one argument (UTF-16 units, without terminator); refuses an embedded NUL,
/// and an argument too long for any command line.
pub fn quoted(arg: &Vec<u16>) -> (r: Result<Vec<u16>, SpawnError>)
    ensures
        has_nul(arg@) ==> r == Err::<Vec<u16>, SpawnError>(SpawnError::NulArgument),
        !has_nul(arg@) && arg@.len() > 32767 ==> r == Err::<Vec<u16>, SpawnError>(SpawnError::CommandTooLong),
        !has_nul(arg@) && arg@.len() <= 32767 ==> (r matches Ok(q) && q@ == spec_quoted(arg@)),
{
    let mut i: usize = 0;
    while i < arg.len()
        invariant
            i <= arg@.len(),
            forall|k: int| 0 <= k < i ==> arg@[k] != 0,
        decreases arg@.len() - i,
    {
        if arg[i] == 0 {
            return Err(SpawnError::NulArgument);
        }
        i = i + 1;
    }
    if arg.len() > 32767 {
        return Err(SpawnError::CommandTooLong);
    }
    let mut out: Vec<u16> = vec![34];
    let mut slashes: usize = 0;
    let mut j: usize = 0;
    proof {
        assert(arg@.skip(0) =~= arg@);
    }
    while j < arg.len()
        invariant
            j <= arg@.len(),
            arg@.len() <= 32767,
            slashes <= j,
            spec_quoted(arg@) == out@ + quote_rest(arg@.skip(j as int), slashes as nat),
        decreases arg@.len() - j,
    {
        let ch = arg[j];
        proof {
            assert(arg@.skip(j as int).drop_first() =~= arg@.skip(j + 1));
            assert(arg@.skip(j as int)[0] == ch);
        }
        if ch == 92 {
            slashes = slashes + 1;
        } else {
            let n = if ch == 34 {
                2 * slashes + 1
            } else {
                slashes
            };
            let ghost before = out@;
            push_repeat(&mut out, 92, n);
            out.push(ch);
            proof {
                assert(out@ =~= before + repeat(92, n as nat).push(ch));
            }
            slashes = 0;
        }
        j = j + 1;
    }
    proof {
        assert(arg@.skip(j as int) =~= Seq::<u16>::empty());
    }
    let ghost before = out@;
    push_repeat(&mut out, 92, 2 * slashes);
    out.push(34);
    proof {
        assert(out@ =~= before + repeat(92, (2 * slashes) as nat).push(34));
    }
    Ok(out)
}

/// The arguments after the executable, each preceded by a space.
pub open spec fn spec_args(args: Seq<Vec<u16>>) -> Seq<u16>
    decreases args.len(),
{
    if args.len() == 0 {
        Seq::empty()
    } else {
        spec_args(args.drop_last()).push(32) + spec_quoted(args.last()@)
    }
}

/// Where the `i`-th argument's separating space stands in the arguments' part of the
/// command line: after each earlier argument's space and quoting.
pub open spec fn arg_start(args: Seq<Vec<u16>>, i: int) -> int
    decreases i,
{
    if i <= 0 {
        0
    } else {
        arg_start(args, i - 1) + 1 + spec_quoted(args[i - 1]@).len()
    }
}

proof fn lemma_arg_start_prefix(args: Seq<Vec<u16>>, p: Seq<Vec<u16>>, i: int)
    requires
        0 <= i <= p.len(),
        p.len() <= args.len(),
        forall|j: int| 0 <= j < p.len() ==> p[j] == args[j],
    ensures
        arg_start(args, i) == arg_start(p, i),
    decreases i,
{
    if i > 0 {
        lemma_arg_start_prefix(args, p, i - 1);
    }
}

proof fn lemma_arg_start_mono(args: Seq<Vec<u16>>, i: int, j: int)
    requires
        0 <= i <= j,
    ensures
        arg_start(args, i) + (j - i) <= arg_start(args, j),
    decreases j - i,
{
    if i < j {
        lemma_arg_start_mono(args, i, j - 1);
    }
}

/// One argument's place in the arguments' part, given the layout of the others.
proof fn lemma_args_layout_at(args: Seq<Vec<u16>>, i: int)
    requires
        args.len() > 0,
        0 <= i < args.len(),
        spec_args(args.drop_last()).len() == arg_start(args.drop_last(), args.len() - 1),
        forall|k: int|
            0 <= k < args.len() - 1 ==> spec_args(args.drop_last())[#[trigger] arg_start(args.drop_last(), k)] == 32
                && spec_args(args.drop_last()).subrange(
                arg_start(args.drop_last(), k) + 1,
                arg_start(args.drop_last(), k + 1),
            ) == spec_quoted(args.drop_last()[k]@),
    ensures
        spec_args(args)[arg_start(args, i)] == 32,
        spec_args(args).subrange(arg_start(args, i) + 1, arg_start(args, i + 1)) == spec_quoted(args[i]@),
{
    let p = args.drop_last();
    let n = p.len() as int;
    let whole = spec_args(args);
    let head = spec_args(p);
    assert(whole == head.push(32) + spec_quoted(args.last()@));
    lemma_arg_start_prefix(args, p, i);
    lemma_arg_start_mono(p, 0, i);
    if i < n {
        lemma_arg_start_prefix(args, p, i + 1);
        lemma_arg_start_mono(p, i + 1, n);
        assert(head[arg_start(p, i)] == 32);
        assert(whole[arg_start(args, i)] == head[arg_start(p, i)]);
        assert(whole.subrange(arg_start(args, i) + 1, arg_start(args, i + 1)) =~= head.subrange(
            arg_start(p, i) + 1,
            arg_start(p, i + 1),
        ));
        assert(p[i] == args[i]);
    } else {
        assert(whole.subrange(arg_start(args, i) + 1, arg_start(args, i + 1)) =~= spec_quoted(args.last()@));
    }
}

/// The arguments' part: each argument, in order, is one space (unit 32) followed by its
/// CRT quoting, with nothing else between them.
proof fn lemma_args_layout(args: Seq<Vec<u16>>)
    ensures
        spec_args(args).len() == arg_start(args, args.len() as int),
        forall|i: int|
            0 <= i < args.len() ==> spec_args(args)[#[trigger] arg_start(args, i)] == 32 && spec_args(args).subrange(
                arg_start(args, i) + 1,
                arg_start(args, i + 1),
            ) == spec_quoted(args[i]@),
    decreases args.len(),
{
    if args.len() > 0 {
        let p = args.drop_last();
        lemma_args_layout(p);
        lemma_arg_start_prefix(args, p, p.len() as int);
        assert(spec_args(args) == spec_args(p).push(32) + spec_quoted(args.last()@));
        assert forall|i: int| 0 <= i < args.len() implies spec_args(args)[#[trigger] arg_start(args, i)] == 32
            && spec_args(args).subrange(arg_start(args, i) + 1, arg_start(args, i + 1)) == spec_quoted(args[i]@) by {
            lemma_args_layout_at(args, i);
        }
    }
}

/// The command line `CreateProcessW` gets: the executable's CRT quoting, then for every
/// argument, in order, exactly one space (unit 32) and that argument's quoting, then
/// the NUL terminator, and nothing else. So the CRT splits it back into the executable
/// and each argument, `--headless` and `--path` included.
pub proof fn law_command_line_layout(exe: Seq<u16>, args: Seq<Vec<u16>>)
    ensures
        ({
            let c = spec_command(exe, args);
            let base = spec_quoted(exe).len() as int;
            &&& c.len() == base + arg_start(args, args.len() as int) + 1
            &&& c.subrange(0, base) == spec_quoted(exe)
            &&& c[c.len() - 1] == 0
            &&& forall|i: int|
                0 <= i < args.len() ==> c[base + #[trigger] arg_start(args, i)] == 32 && c.subrange(
                    base + arg_start(args, i) + 1,
                    base + arg_start(args, i + 1),
                ) == spec_quoted(args[i]@)
        }),
{
    lemma_args_layout(args);
    let c = spec_command(exe, args);
    let base = spec_quoted(exe).len() as int;
    let a = spec_args(args);
    assert(c == (spec_quoted(exe) + a).push(0));
    assert(c.subrange(0, base) =~= spec_quoted(exe));
    assert forall|i: int| 0 <= i < args.len() implies c[base + #[trigger] arg_start(args, i)] == 32 && c.subrange(
        base + arg_start(args, i) + 1,
        base + arg_start(args, i + 1),
    ) == spec_quoted(args[i]@) by {
        lemma_arg_start_mono(args, i + 1, args.len() as int);
        lemma_arg_start_mono(args, 0, i);
        assert(c[base + arg_start(args, i)] == a[arg_start(args, i)]);
        assert(c.subrange(base + arg_start(args, i) + 1, base + arg_start(args, i + 1)) =~= a.subrange(
            arg_start(args, i) + 1,
            arg_start(args, i + 1),
        ));
    }
}

/// The NUL-terminated command line: the quoted executable, then each quoted argument.
pub open spec fn spec_command(exe: Seq<u16>, args: Seq<Vec<u16>>) -> Seq<u16> {
    (spec_quoted(exe) + spec_args(args)).push(0)
}

/// Whether any part of the command holds a NUL.
pub open spec fn command_has_nul(exe: Seq<u16>, args: Seq<Vec<u16>>) -> bool {
    has_nul(exe) || exists|i: int| 0 <= i < args.len() && has_nul(#[trigger] args[i]@)
}

/// The command line for `CreateProcessW`, at most 32767 units with its terminator.
pub fn command_line(exe: &Vec<u16>, args: &Vec<Vec<u16>>) -> (r: Result<Vec<u16>, SpawnError>)
    ensures
        command_has_nul(exe@, args@) ==> r == Err::<Vec<u16>, SpawnError>(SpawnError::NulArgument),
        !command_has_nul(exe@, args@) && spec_command(exe@, args@).len() > 32767 ==> r == Err::<Vec<u16>, SpawnError>(
            SpawnError::CommandTooLong,
        ),
        !command_has_nul(exe@, args@) && spec_command(exe@, args@).len() <= 32767 ==> (r matches Ok(c) && c@
            == spec_command(exe@, args@)),
{
    if contains_nul(exe) {
        return Err(SpawnError::NulArgument);
    }
    let mut n: usize = 0;
    while n < args.len()
        invariant
            n <= args@.len(),
            forall|k: int| 0 <= k < n ==> !has_nul(#[trigger] args@[k]@),
        decreases args@.len() - n,
    {
        if contains_nul(&args[n]) {
            return Err(SpawnError::NulArgument);
        }
        n = n + 1;
    }
    proof {
        lemma_args_len(args@);
    }
    let mut command = match quoted(exe) {
        Err(e) => {
            proof {
                lemma_quote_rest_len(exe@, 0);
            }
            return Err(e);
        },
        Ok(q) => q,
    };
    let mut i: usize = 0;
    while i < args.len()
        invariant
            i <= args@.len(),
            !has_nul(exe@),
            exe@.len() <= 32767,
            forall|k: int| 0 <= k < args@.len() ==> !has_nul(#[trigger] args@[k]@),
            command@ == spec_quoted(exe@) + spec_args(args@.take(i as int)),
            spec_args(args@).len() >= spec_args(args@.take(i as int)).len(),
            command@.len() <= spec_quoted(exe@).len() + spec_args(args@).len(),
        decreases args@.len() - i,
    {
        proof {
            lemma_args_prefix(args@, i + 1);
            assert(args@.take(i + 1).drop_last() =~= args@.take(i as int));
            assert(args@.take(i + 1).last() == args@[i as int]);
        }
        let q = match quoted(&args[i]) {
            Err(e) => {
                proof {
                    lemma_quote_rest_len(args@[i as int]@, 0);
                    lemma_args_prefix(args@, i + 1);
                }
                return Err(e);
            },
            Ok(q) => q,
        };
        if command.len() > 32767 {
            proof {
                lemma_args_prefix(args@, i as int);
            }
            return Err(SpawnError::CommandTooLong);
        }
        let ghost before = command@;
        command.push(32);
        let mut k: usize = 0;
        while k < q.len()
            invariant
                k <= q@.len(),
                command@ == before.push(32) + q@.take(k as int),
            decreases q@.len() - k,
        {
            command.push(q[k]);
            proof {
                assert(q@.take(k + 1) =~= q@.take(k as int).push(q@[k as int]));
            }
            k = k + 1;
        }
        proof {
            assert(q@.take(k as int) =~= q@);
            assert(command@ =~= spec_quoted(exe@) + spec_args(args@.take(i + 1)));
        }
        i = i + 1;
    }
    proof {
        assert(args@.take(i as int) =~= args@);
    }
    command.push(0);
    if command.len() > 32767 {
        return Err(SpawnError::CommandTooLong);
    }
    Ok(command)
}

fn contains_nul(v: &Vec<u16>) -> (b: bool)
    ensures
        b == has_nul(v@),
{
    let mut i: usize = 0;
    while i < v.len()
        invariant
            i <= v@.len(),
            forall|k: int| 0 <= k < i ==> v@[k] != 0,
        decreases v@.len() - i,
    {
        if v[i] == 0 {
            return true;
        }
        i = i + 1;
    }
    false
}

proof fn lemma_args_len(args: Seq<Vec<u16>>)
    ensures
        forall|k: int| 0 <= k < args.len() ==> spec_args(args).len() >= #[trigger] args[k]@.len() + 2,
    decreases args.len(),
{
    if args.len() > 0 {
        lemma_args_len(args.drop_last());
        lemma_quote_rest_len(args.last()@, 0);
        assert forall|k: int| 0 <= k < args.len() implies spec_args(args).len() >= #[trigger] args[k]@.len() + 2 by {
            if k < args.len() - 1 {
                assert(args[k] == args.drop_last()[k]);
            }
        }
    }
}

proof fn lemma_args_prefix(args: Seq<Vec<u16>>, i: int)
    requires
        0 <= i <= args.len(),
    ensures
        spec_args(args.take(i)).len() <= spec_args(args).len(),
        forall|k: int| 0 <= k < i ==> spec_args(args.take(i)).len() >= #[trigger] args[k]@.len() + 2,
    decreases args.len() - i,
{
    lemma_args_len(args.take(i));
    assert forall|k: int| 0 <= k < i implies spec_args(args.take(i)).len() >= #[trigger] args[k]@.len() + 2 by {
        assert(args.take(i)[k] == args[k]);
    }
    if i < args.len() {
        lemma_args_prefix(args, i + 1);
        assert(args.take(i + 1).drop_last() =~= args.take(i));
    } else {
        assert(args.take(i) =~= args);
    }
}

/// A Windows worker must be an `.exe` file (any letter case), never a script.
pub open spec fn windows_executable(ext: Option<Seq<char>>) -> bool {
    ext matches Some(e) && ascii_lower(e) == "exe"@
}

/// Checks the executable's extension, as `Path::extension` gives it.
pub fn check_executable(ext: Option<&str>) -> (r: Result<(), SpawnError>)
    ensures
        r is Ok <==> windows_executable(match ext {
            Some(e) => Some(e@),
            None => None,
        }),
        r is Err ==> r == Err::<(), SpawnError>(SpawnError::NotExecutable),
{
    match ext {
        None => Err(SpawnError::NotExecutable),
        Some(e) => {
            let v = chars_of(e);
            let l = crate::text::vec_ascii_lower(&v);
            if crate::text::vec_eq_str(&l, "exe") {
                Ok(())
            } else {
                Err(SpawnError::NotExecutable)
            }
        },
    }
}

/// Words of `s` split at Unicode white space, as `str::split_whitespace` gives them,
/// with the word still being read.
pub open spec fn word_scan(s: Seq<char>) -> (Seq<Seq<char>>, Seq<char>)
    decreases s.len(),
{
    if s.len() == 0 {
        (Seq::empty(), Seq::empty())
    } else {
        let (done, cur) = word_scan(s.drop_last());
        if is_white(s.last()) {
            if cur.len() > 0 {
                (done.push(cur), Seq::empty())
            } else {
                (done, Seq::empty())
            }
        } else {
            (done, cur.push(s.last()))
        }
    }
}

/// `str::split_whitespace`.
pub open spec fn words(s: Seq<char>) -> Seq<Seq<char>> {
    let (done, cur) = word_scan(s);
    if cur.len() > 0 {
        done.push(cur)
    } else {
        done
    }
}

/// The value of a string of ASCII digits.
pub open spec fn digits_value(s: Seq<char>) -> int
    decreases s.len(),
{
    if s.len() == 0 {
        0
    } else {
        digits_value(s.drop_last()) * 10 + ((s.last() as u32) - ('0' as u32))
    }
}

/// `t` without a leading sign.
pub open spec fn unsigned_part(t: Seq<char>) -> Seq<char> {
    if t.len() > 0 && (t[0] == '+' || t[0] == '-') {
        t.drop_first()
    } else {
        t
    }
}

pub open spec fn all_digits(d: Seq<char>) -> bool {
    forall|i: int| 0 <= i < d.len() ==> #[trigger] is_digit(d[i])
}

/// The value `t` denotes with its sign.
pub open spec fn signed_value(t: Seq<char>) -> int {
    if t.len() > 0 && t[0] == '-' {
        -digits_value(unsigned_part(t))
    } else {
        digits_value(unsigned_part(t))
    }
}

/// `str::parse::<i32>`: an optional sign, then one or more ASCII digits, in range.
pub open spec fn spec_parse_i32(t: Seq<char>) -> Option<i32> {
    if unsigned_part(t).len() > 0 && all_digits(unsigned_part(t)) && i32::MIN <= signed_value(t) <= i32::MAX {
        Some(signed_value(t) as i32)
    } else {
        None
    }
}

/// The fields after the command name of a `/proc/<pid>/stat` line: the text after
/// its last `)`, when it has one.
pub open spec fn after_comm(stat: Seq<char>) -> Option<Seq<char>> {
    if exists|k: int| 0 <= k < stat.len() && stat[k] == ')' {
        let k = choose|k: int|
            0 <= k < stat.len() && stat[k] == ')' && forall|j: int| k < j < stat.len() ==> stat[j] != ')';
        Some(stat.skip(k + 1))
    } else {
        None
    }
}

/// A process that can still run and belongs to process group `group`: its state is
/// neither zombie `Z` nor dead `X`, and its third field after the command is `group`.
pub open spec fn spec_group_member(stat: Seq<char>, group: i32) -> bool {
    match after_comm(stat) {
        None => false,
        Some(rest) => {
            let w = words(rest);
            w.len() >= 3 && spec_parse_i32(w[2]) == Some(group) && w[0] != seq!['Z'] && w[0] != seq!['X']
        },
    }
}

fn split_words(v: &Vec<char>) -> (ws: Vec<Vec<char>>)
    ensures
        crate::context::policy::views(ws@) == words(v@),
{
    let mut done: Vec<Vec<char>> = Vec::new();
    let mut cur: Vec<char> = Vec::new();
    let mut i: usize = 0;
    proof {
        assert(v@.take(0) =~= Seq::<char>::empty());
    }
    while i < v.len()
        invariant
            i <= v@.len(),
            (crate::context::policy::views(done@), cur@) == word_scan(v@.take(i as int)),
        decreases v@.len() - i,
    {
        let c = v[i];
        proof {
            assert(v@.take(i + 1).drop_last() =~= v@.take(i as int));
            assert(v@.take(i + 1).last() == c);
        }
        if char_is_white(c) {
            if cur.len() > 0 {
                let ghost before = done@;
                let w = cur;
                done.push(w);
                cur = Vec::new();
                proof {
                    crate::context::policy::lemma_views_push(before, w);
                    assert(cur@ =~= Seq::<char>::empty());
                }
            } else {
                proof {
                    assert(cur@ =~= Seq::<char>::empty());
                }
            }
        } else {
            cur.push(c);
        }
        i = i + 1;
    }
    proof {
        assert(v@.take(i as int) =~= v@);
    }
    if cur.len() > 0 {
        let ghost before = done@;
        let w = cur;
        done.push(w);
        proof {
            crate::context::policy::lemma_views_push(before, w);
        }
    }
    done
}

fn parse_i32(t: &Vec<char>) -> (r: Option<i32>)
    ensures
        r == spec_parse_i32(t@),
{
    let neg = t.len() > 0 && t[0] == '-';
    let start: usize = if t.len() > 0 && (t[0] == '+' || t[0] == '-') {
        1
    } else {
        0
    };
    let ghost d = unsigned_part(t@);
    proof {
        assert(d =~= t@.skip(start as int));
    }
    if t.len() == start {
        return None;
    }
    let mut value: i64 = 0;
    let mut i: usize = start;
    while i < t.len()
        invariant
            start <= i <= t@.len(),
            d == t@.skip(start as int),
            d.len() > 0,
            neg == (t@.len() > 0 && t@[0] == '-'),
            d == unsigned_part(t@),
            forall|k: int| 0 <= k < i - start ==> #[trigger] is_digit(d[k]),
            value == digits_value(d.take(i - start)),
            0 <= value <= 2147483648,
        decreases t@.len() - i,
    {
        let c = t[i];
        if !('0' <= c && c <= '9') {
            proof {
                assert(!is_digit(d[i - start]));
                assert(!all_digits(d));
            }
            return None;
        }
        proof {
            assert(d.take(i + 1 - start).drop_last() =~= d.take(i - start));
            assert(d[i - start] == c);
        }
        let next = value * 10 + (c as u32 - '0' as u32) as i64;
        if next > 2147483648 {
            proof {
                assert(digits_value(d.take(i + 1 - start)) == next);
                lemma_digits_grow(d, i + 1 - start);
                assert(forall|k: int| 0 <= k < i + 1 - start ==> #[trigger] is_digit(d[k]));
                if all_digits(d) {
                    assert(digits_value(d) > 2147483648);
                }
            }
            return None;
        }
        value = next;
        i = i + 1;
    }
    proof {
        assert(d.take(i - start) =~= d);
    }
    let v = if neg {
        -value
    } else {
        value
    };
    if v < -2147483648 || v > 2147483647 {
        return None;
    }
    Some(v as i32)
}

proof fn lemma_digits_grow(s: Seq<char>, k: int)
    requires
        0 <= k <= s.len(),
    ensures
        (forall|i: int| 0 <= i < s.len() ==> #[trigger] is_digit(s[i])) ==> digits_value(s.take(k)) <= digits_value(s),
    decreases s.len() - k,
{
    if k < s.len() {
        lemma_digits_grow(s, k + 1);
        assert(s.take(k + 1).drop_last() =~= s.take(k));
        if forall|i: int| 0 <= i < s.len() ==> #[trigger] is_digit(s[i]) {
            assert(is_digit(s[k]));
            assert(digits_value(s.take(k)) >= 0) by {
                lemma_digits_nonneg(s.take(k));
            }
        }
    } else {
        assert(s.take(k) =~= s);
    }
}

proof fn lemma_digits_nonneg(s: Seq<char>)
    requires
        forall|i: int| 0 <= i < s.len() ==> #[trigger] is_digit(s[i]),
    ensures
        digits_value(s) >= 0,
    decreases s.len(),
{
    if s.len() > 0 {
        lemma_digits_nonneg(s.drop_last());
        assert(is_digit(s[s.len() - 1]));
    }
}

/// Whether a `/proc/<pid>/stat` line shows a live member of process group `group`;
/// a zombie cannot run or write, so it does not keep a worker alive.
pub fn proc_group_member(stat: &str, group: i32) -> (b: bool)
    ensures
        b == spec_group_member(stat@, group),
{
    let v = chars_of(stat);
    let mut k = v.len();
    while k > 0 && v[k - 1] != ')'
        invariant
            k <= v@.len(),
            v@ == stat@,
            forall|j: int| k <= j < v@.len() ==> v@[j] != ')',
        decreases k,
    {
        k = k - 1;
    }
    if k == 0 {
        return false;
    }
    let rest = crate::text::string_of(&v, k, v.len());
    let rv = chars_of(rest.as_str());
    proof {
        let p = (k - 1) as int;
        assert(stat@[p] == ')');
        let c = choose|c: int|
            0 <= c < stat@.len() && stat@[c] == ')' && forall|j: int| c < j < stat@.len() ==> stat@[j] != ')';
        if c < p {
            assert(stat@[p] != ')');
        }
        if p < c {
            assert(stat@[c] != ')');
        }
        assert(after_comm(stat@) == Some(rv@));
    }
    let ws = split_words(&rv);
    if ws.len() < 3 {
        return false;
    }
    proof {
        assert(crate::context::policy::views(ws@)[0] == ws@[0]@);
        assert(crate::context::policy::views(ws@)[2] == ws@[2]@);
    }
    let state = &ws[0];
    let zombie = state.len() == 1 && (state[0] == 'Z' || state[0] == 'X');
    proof {
        if state@.len() == 1 {
            if state@[0] == 'Z' {
                assert(state@ =~= seq!['Z']);
            }
            if state@[0] == 'X' {
                assert(state@ =~= seq!['X']);
            }
        }
    }
    match parse_i32(&ws[2]) {
        Some(g) => g == group && !zombie,
        None => false,
    }
}

} // verus!
