//! What is shown of an accessing process: where `/proc` keeps it, and how it reads.

use crate::paths::{shown, FilePath};
use crate::text::{dec, decimal};
use vstd::prelude::*;
use vstd::string::*;

verus! {

/// Shown in place of a link that cannot be read.
pub open spec fn unresolved() -> Seq<char> {
    "<unresolved>"@
}

/// The link to the file behind one of our own descriptors.
pub fn fd_link(fd: u32) -> (r: String)
    ensures
        r@ == "/proc/self/fd/"@ + dec(fd as nat),
{
    let mut out = "/proc/self/fd/".to_owned();
    out.append(decimal(fd as u128).as_str());
    out
}

/// The entry `name` of a process.
fn proc_entry(pid: u32, name: &str) -> (r: String)
    ensures
        r@ == "/proc/"@ + dec(pid as nat) + name@,
{
    let mut out = "/proc/".to_owned();
    out.append(decimal(pid as u128).as_str());
    out.append(name);
    out
}

/// The link to the executable of a process.
pub fn exe_link(pid: u32) -> (r: String)
    ensures
        r@ == "/proc/"@ + dec(pid as nat) + "/exe"@,
{
    proc_entry(pid, "/exe")
}

/// The link to the working directory of a process.
pub fn cwd_link(pid: u32) -> (r: String)
    ensures
        r@ == "/proc/"@ + dec(pid as nat) + "/cwd"@,
{
    proc_entry(pid, "/cwd")
}

/// The file with the command line of a process.
pub fn cmdline_file(pid: u32) -> (r: String)
    ensures
        r@ == "/proc/"@ + dec(pid as nat) + "/cmdline"@,
{
    proc_entry(pid, "/cmdline")
}

/// How a link of a process reads: its target, or a placeholder.
pub fn proc_link_text(target: &Option<FilePath>) -> (r: String)
    ensures
        r@ == (match target {
            Some(p) => shown(p@),
            None => unresolved(),
        }),
{
    match target {
        Some(p) => p.display(),
        None => "<unresolved>".to_owned(),
    }
}

/// How the working directory of a process reads.
pub fn proc_cwd(target: &Option<FilePath>) -> (r: String)
    ensures
        r@ == (match target {
            Some(p) => shown(p@),
            None => unresolved(),
        }),
{
    proc_link_text(target)
}

/// How many bytes come before the first NUL.
pub open spec fn arg_len(b: Seq<u8>) -> nat
    decreases b.len(),
{
    if b.len() == 0 || b[0] == 0 {
        0
    } else {
        1 + arg_len(b.drop_first())
    }
}

/// The non-empty pieces between NULs.
pub open spec fn args_of(b: Seq<u8>) -> Seq<Seq<u8>>
    decreases b.len(),
{
    let n = arg_len(b) as int;
    let first = if n > 0 {
        seq![b.take(n)]
    } else {
        Seq::empty()
    };
    if n < b.len() {
        first + args_of(b.skip(n + 1))
    } else {
        first
    }
}

/// Arguments shown with a space between each two.
pub open spec fn spaced(args: Seq<Seq<u8>>) -> Seq<char>
    decreases args.len(),
{
    if args.len() == 0 {
        Seq::empty()
    } else if args.len() == 1 {
        shown(args[0])
    } else {
        spaced(args.drop_last()).push(' ') + shown(args.last())
    }
}

proof fn arg_len_is(b: Seq<u8>, n: int)
    requires
        0 <= n <= b.len(),
        forall|i: int| 0 <= i < n ==> #[trigger] b[i] != 0,
        n < b.len() ==> b[n] == 0,
    ensures
        arg_len(b) == n,
    decreases b.len(),
{
    if n > 0 {
        let q = b.drop_first();
        assert forall|i: int| 0 <= i < n - 1 implies #[trigger] q[i] != 0 by {
            assert(b[i + 1] != 0);
        }
        assert(b[0] != 0);
        arg_len_is(q, n - 1);
    }
}

/// The command line as text; nothing where it cannot be read.
pub fn cmdline_text(raw: &Option<Vec<u8>>) -> (r: String)
    ensures
        r@ == (match raw {
            Some(b) => spaced(args_of(b@)),
            None => Seq::empty(),
        }),
{
    let bytes = match raw {
        Some(b) => b,
        None => {
            return String::new();
        },
    };
    let n = bytes.len();
    let ghost all = args_of(bytes@);
    let ghost mut done: Seq<Seq<u8>> = Seq::empty();
    let mut out = String::new();
    let mut some = false;
    let mut i: usize = 0;
    let mut more = true;
    assert(bytes@.skip(0) =~= bytes@);
    assert(done + args_of(bytes@.skip(0)) =~= all);
    while more
        invariant
            n == bytes@.len(),
            i <= n,
            out@ == spaced(done),
            some == (done.len() > 0),
            more ==> done + args_of(bytes@.skip(i as int)) == all,
            !more ==> done == all,
        decreases (if more { n - i + 1 } else { 0 }),
    {
        let ghost tail = bytes@.skip(i as int);
        let mut piece: Vec<u8> = Vec::new();
        let mut j: usize = i;
        while j < n && bytes[j] != 0
            invariant
                n == bytes@.len(),
                i <= j <= n,
                tail == bytes@.skip(i as int),
                piece@ == tail.take(j - i),
                forall|k: int| 0 <= k < j - i ==> #[trigger] tail[k] != 0,
            decreases n - j,
        {
            assert(tail[j - i] == bytes@[j as int]);
            piece.push(bytes[j]);
            j += 1;
        }
        proof {
            if j < n {
                assert(tail[j - i] == 0);
                assert(tail.skip(j - i + 1) =~= bytes@.skip(j + 1));
            }
            arg_len_is(tail, j - i);
        }
        let ghost before = done;
        if j > i {
            if some {
                out.push(' ');
            }
            let ghost arg = piece@;
            let text = FilePath::from_bytes(piece).display();
            let ghost text_before = out@;
            out.append(text.as_str());
            proof {
                done = before.push(arg);
                assert(done.drop_last() =~= before);
                assert(arg =~= tail.take(j - i));
            }
            assert(out@ =~= spaced(done));
            some = true;
        }
        if j < n {
            i = j + 1;
            assert(done + args_of(bytes@.skip(i as int)) =~= before + args_of(tail));
        } else {
            more = false;
            assert(done =~= before + args_of(tail));
        }
    }
    out
}

/// NUL-terminated arguments, one after the other.
pub open spec fn terminated(args: Seq<Seq<u8>>) -> Seq<u8>
    decreases args.len(),
{
    if args.len() == 0 {
        Seq::empty()
    } else {
        args[0].push(0) + terminated(args.drop_first())
    }
}

/// The arguments a process was started with are the ones shown, in order; only
/// empty ones are left out.
pub proof fn terminated_args_are_found(args: Seq<Seq<u8>>)
    requires
        forall|i: int| 0 <= i < args.len() ==> (#[trigger] args[i]).len() > 0,
        forall|i: int, k: int|
            0 <= i < args.len() && 0 <= k < args[i].len() ==> #[trigger] args[i][k] != 0,
    ensures
        args_of(terminated(args)) == args,
    decreases args.len(),
{
    let b = terminated(args);
    if args.len() == 0 {
        assert(args_of(b) =~= args);
    } else {
        let first = args[0];
        let rest = args.drop_first();
        assert forall|i: int| 0 <= i < rest.len() implies (#[trigger] rest[i]).len() > 0 by {
            assert(rest[i] == args[i + 1]);
        }
        assert forall|i: int, k: int| 0 <= i < rest.len() && 0 <= k < rest[i].len() implies (
        #[trigger] rest[i][k]) != 0 by {
            assert(args[i + 1][k] != 0);
        }
        terminated_args_are_found(rest);
        let n = first.len() as int;
        assert forall|k: int| 0 <= k < n implies #[trigger] b[k] != 0 by {
            assert(args[0][k] != 0);
        }
        arg_len_is(b, n);
        assert(b.take(n) =~= first);
        assert(b.skip(n + 1) =~= terminated(rest));
        assert(args =~= seq![first] + rest);
    }
}

/// What is shown of a process is its own: the target of a link where it can be read, and
/// a placeholder where it cannot.
pub proof fn links_read_as_their_targets(
    pid: u32,
    fd: u32,
    target: Option<FilePath>,
    exe: String,
    cwd: String,
    cmdline: String,
    own: String,
    link: String,
    dir: String,
)
    requires
        call_ensures(exe_link, (pid,), exe),
        call_ensures(cwd_link, (pid,), cwd),
        call_ensures(cmdline_file, (pid,), cmdline),
        call_ensures(fd_link, (fd,), own),
        call_ensures(proc_link_text, (&target,), link),
        call_ensures(proc_cwd, (&target,), dir),
    ensures
        exe@ == "/proc/"@ + dec(pid as nat) + "/exe"@,
        cwd@ == "/proc/"@ + dec(pid as nat) + "/cwd"@,
        cmdline@ == "/proc/"@ + dec(pid as nat) + "/cmdline"@,
        own@ == "/proc/self/fd/"@ + dec(fd as nat),
        target matches Some(p) ==> link@ == shown(p@) && dir@ == shown(p@),
        target is None ==> link@ == "<unresolved>"@ && dir@ == "<unresolved>"@,
{
}

/// The command line shows all arguments in order, one space between each two; one that
/// cannot be read shows as nothing.
pub proof fn command_line_is_all_arguments(
    args: Seq<Seq<u8>>,
    more: Seq<u8>,
    raw: Option<Vec<u8>>,
    r: String,
)
    requires
        call_ensures(cmdline_text, (&raw,), r),
        forall|i: int| 0 <= i < args.len() ==> (#[trigger] args[i]).len() > 0,
        forall|i: int, k: int|
            0 <= i < args.len() && 0 <= k < args[i].len() ==> #[trigger] args[i][k] != 0,
        raw matches Some(b) ==> b@ == terminated(args),
    ensures
        raw is None ==> r@.len() == 0,
        raw is Some ==> r@ == spaced(args),
        spaced(seq![more]) == shown(more),
        args.len() > 0 ==> spaced(args.push(more)) == spaced(args) + seq![' '] + shown(more),
{
    terminated_args_are_found(args);
    if args.len() > 0 {
        assert(args.push(more).drop_last() =~= args);
        assert(spaced(args.push(more)) =~= spaced(args) + seq![' '] + shown(more));
    }
}

} // verus!
