//! The control program: its arguments, what it says, and how it ends.

use crate::paths::{shown, FilePath};
use crate::proto::{DumpResponse, ObjKind, WatchedObject};
use crate::rules::{
    opt_text, removing_keeps_ids, LearnedRule, ObjectKind, RuleAction, Rules,
};
use crate::table::{header_view, render_table, row_view, rows_view, table};
use crate::text::{
    dec, decimal, decimal_is_read_back, decimal_line_trims, parse_i32, same_text, signed_dec,
    signed_decimal, signed_value, texts, trim, trimmed,
};
use vstd::prelude::*;
use vstd::string::*;

verus! {

/// How results are printed.
#[derive(Debug, Clone, Copy, PartialEq, Eq, Structural)]
pub enum Format {
    Table,
    Json,
    Yaml,
}

/// The format that an argument chooses, if it is about that.
pub open spec fn format_flag(arg: Seq<char>) -> Option<Format> {
    if arg == "--json"@ {
        Some(Format::Json)
    } else if arg == "--yaml"@ {
        Some(Format::Yaml)
    } else if arg == "--table"@ {
        Some(Format::Table)
    } else {
        None
    }
}

/// The format the arguments choose: the last one, a table where there is none.
pub open spec fn chosen_format(args: Seq<Seq<char>>) -> Format
    decreases args.len(),
{
    if args.len() == 0 {
        Format::Table
    } else {
        match format_flag(args.last()) {
            Some(f) => f,
            None => chosen_format(args.drop_last()),
        }
    }
}

/// The arguments that are not about the format, in order.
pub open spec fn other_args(args: Seq<Seq<char>>) -> Seq<Seq<char>> {
    args.filter(|a: Seq<char>| format_flag(a) is None)
}

fn read_flag(arg: &str) -> (r: Option<Format>)
    ensures
        r == format_flag(arg@),
{
    if same_text(arg, "--json") {
        Some(Format::Json)
    } else if same_text(arg, "--yaml") {
        Some(Format::Yaml)
    } else if same_text(arg, "--table") {
        Some(Format::Table)
    } else {
        None
    }
}

/// Takes the format out of the arguments, wherever it stands; the last one counts.
pub fn parse_format(args: &[String]) -> (r: (Format, Vec<String>))
    ensures
        r.0 == chosen_format(texts(args@)),
        texts(r.1@) == other_args(texts(args@)),
{
    let ghost all = texts(args@);
    let mut format = Format::Table;
    let mut rest: Vec<String> = Vec::new();
    let mut i: usize = 0;
    proof {
        reveal(Seq::filter);
        assert(all.take(0) =~= Seq::<Seq<char>>::empty());
        assert(texts(rest@) =~= other_args(all.take(0)));
    }
    while i < args.len()
        invariant
            i <= args@.len(),
            all == texts(args@),
            format == chosen_format(all.take(i as int)),
            texts(rest@) == other_args(all.take(i as int)),
        decreases args@.len() - i,
    {
        let arg = args[i].as_str();
        proof {
            reveal(Seq::filter);
            assert(all.take(i + 1).drop_last() =~= all.take(i as int));
            assert(all.take(i + 1).last() == arg@);
        }
        match read_flag(arg) {
            Some(f) => {
                format = f;
            },
            None => {
                let ghost before = rest@;
                rest.push(arg.to_owned());
                assert(texts(rest@) =~= texts(before).push(arg@));
            },
        }
        i += 1;
    }
    assert(all.take(i as int) =~= all);
    (format, rest)
}

/// How a value is encoded.
#[derive(Debug, Clone, Copy, PartialEq, Eq, Structural)]
pub enum Encoder {
    Json,
    Yaml,
}

/// The encoder for a format. Tables are laid out by other means.
pub fn emit(format: Format) -> (r: Result<Encoder, String>)
    ensures
        match format {
            Format::Json => r == Ok::<Encoder, String>(Encoder::Json),
            Format::Yaml => r == Ok::<Encoder, String>(Encoder::Yaml),
            Format::Table => r matches Err(e) && e@ == "emit() called with Format::Table"@,
        },
{
    match format {
        Format::Json => Ok(Encoder::Json),
        Format::Yaml => Ok(Encoder::Yaml),
        Format::Table => Err("emit() called with Format::Table".to_owned()),
    }
}

/// What a PID file says, where it says anything.
pub open spec fn pid_in(text: Seq<char>) -> Option<i32> {
    match signed_value(trimmed(text)) {
        Some(v) if i32::MIN <= v <= i32::MAX => Some(v as i32),
        _ => None,
    }
}

/// Reads a PID file.
pub fn parse_pidfile(s: &str) -> (r: Option<i32>)
    ensures
        r == pid_in(s@),
{
    parse_i32(&trim(s))
}

/// The contents of the PID file of a process.
pub fn pidfile_text(pid: u32) -> (r: String)
    ensures
        r@ == dec(pid as nat).push('\n'),
{
    let mut out = decimal(pid as u128);
    out.push('\n');
    out
}

/// The PID written is the PID read, as far as PIDs go.
pub proof fn pidfile_is_read_back(pid: nat)
    requires
        pid <= i32::MAX,
    ensures
        pid_in(dec(pid).push('\n')) == Some(pid as i32),
{
    decimal_line_trims(pid);
    decimal_is_read_back(pid);
}

/// Removes the rule at `index`; nothing happens past the end.
pub fn remove_at(rules: &mut Rules, index: usize) -> (r: Option<LearnedRule>)
    ensures
        final(rules).next_id == old(rules).next_id,
        if index < old(rules).rules@.len() {
            r == Some(old(rules).rules@[index as int]) && final(rules).rules@
                == old(rules).rules@.remove(index as int)
        } else {
            r is None && final(rules).rules@ == old(rules).rules@
        },
        old(rules).wf() ==> final(rules).wf(),
{
    if index < rules.rules.len() {
        proof {
            if rules.wf() {
                removing_keeps_ids(rules.rules@, rules.next_id as nat, index as int);
            }
        }
        Some(rules.rules.remove(index))
    } else {
        None
    }
}

/// Whether the daemon runs, as far as a probe tells.
#[derive(Debug, Clone, Copy, PartialEq, Eq, Structural)]
pub enum Liveness {
    Running,
    Stale,
    /// The probe failed for another reason.
    Unknown(i32),
}

/// The caller may not signal the process.
pub const EPERM: i32 = 1;

/// There is no such process.
pub const ESRCH: i32 = 3;

/// Reads a probe: its error, where it failed. A process that may not be
/// signalled is there all the same.
pub fn classify_liveness(probe: Result<(), i32>) -> (r: Liveness)
    ensures
        r == (match probe {
            Ok(_) => Liveness::Running,
            Err(e) => if e == EPERM {
                Liveness::Running
            } else if e == ESRCH {
                Liveness::Stale
            } else {
                Liveness::Unknown(e)
            },
        }),
{
    match probe {
        Ok(()) => Liveness::Running,
        Err(e) => if e == EPERM {
            Liveness::Running
        } else if e == ESRCH {
            Liveness::Stale
        } else {
            Liveness::Unknown(e)
        },
    }
}

/// The state of the daemon.
#[derive(Debug, Clone, Copy, PartialEq, Eq, Structural)]
pub enum DaemonState {
    Running,
    Stale,
    Unknown,
    NoPidfile,
    BadPidfile,
}

/// A state in a word.
pub open spec fn state_text(s: DaemonState) -> Seq<char> {
    match s {
        DaemonState::Running => "running"@,
        DaemonState::Stale => "stale"@,
        DaemonState::Unknown => "unknown"@,
        DaemonState::NoPidfile => "no-pidfile"@,
        DaemonState::BadPidfile => "bad-pidfile"@,
    }
}

impl DaemonState {
    /// The state in a word.
    pub fn text(&self) -> (r: &'static str)
        ensures
            r@ == state_text(*self),
    {
        match self {
            DaemonState::Running => "running",
            DaemonState::Stale => "stale",
            DaemonState::Unknown => "unknown",
            DaemonState::NoPidfile => "no-pidfile",
            DaemonState::BadPidfile => "bad-pidfile",
        }
    }
}

/// The status of the daemon.
#[derive(Debug, Clone, Copy, PartialEq, Eq, Structural)]
pub struct StatusReport {
    pub running: bool,
    pub pid: Option<i32>,
    pub state: DaemonState,
}

/// The PID to probe, from what the PID file holds; the status where there is none.
pub fn status_pid(pidfile: &Option<String>) -> (r: Result<i32, StatusReport>)
    ensures
        match pidfile {
            None => r == Err::<i32, StatusReport>(
                StatusReport { running: false, pid: None, state: DaemonState::NoPidfile },
            ),
            Some(text) => match pid_in(text@) {
                Some(pid) => r == Ok::<i32, StatusReport>(pid),
                None => r == Err::<i32, StatusReport>(
                    StatusReport { running: false, pid: None, state: DaemonState::BadPidfile },
                ),
            },
        },
{
    match pidfile {
        None => Err(StatusReport { running: false, pid: None, state: DaemonState::NoPidfile }),
        Some(text) => match parse_pidfile(text.as_str()) {
            Some(pid) => Ok(pid),
            None => Err(
                StatusReport { running: false, pid: None, state: DaemonState::BadPidfile },
            ),
        },
    }
}

/// The status for a probed PID.
pub fn status_report(pid: i32, probe: Result<(), i32>) -> (r: StatusReport)
    ensures
        r == (match probe {
            Err(e) if e == ESRCH => StatusReport {
                running: false,
                pid: Some(pid),
                state: DaemonState::Stale,
            },
            Err(e) if e != EPERM => StatusReport {
                running: false,
                pid: Some(pid),
                state: DaemonState::Unknown,
            },
            _ => StatusReport { running: true, pid: Some(pid), state: DaemonState::Running },
        }),
{
    match classify_liveness(probe) {
        Liveness::Running => StatusReport {
            running: true,
            pid: Some(pid),
            state: DaemonState::Running,
        },
        Liveness::Stale => StatusReport {
            running: false,
            pid: Some(pid),
            state: DaemonState::Stale,
        },
        Liveness::Unknown(_) => StatusReport {
            running: false,
            pid: Some(pid),
            state: DaemonState::Unknown,
        },
    }
}

/// The PID of a report, `0` where it has none.
pub open spec fn report_pid(r: StatusReport) -> int {
    match r.pid {
        Some(pid) => pid as int,
        None => 0,
    }
}

/// The status as a line.
pub open spec fn status_text(r: StatusReport) -> Seq<char> {
    let pid = signed_dec(report_pid(r));
    match r.state {
        DaemonState::Running => "filewalld: running (pid "@ + pid + ")"@,
        DaemonState::Stale => "filewalld: not running (stale pid "@ + pid + ")"@,
        DaemonState::NoPidfile => "filewalld: not running (no pidfile)"@,
        DaemonState::BadPidfile => "filewalld: unknown (bad pidfile)"@,
        DaemonState::Unknown => "filewalld: unknown (pid "@ + pid + ")"@,
    }
}

/// The status as a line.
pub fn status_line(report: &StatusReport) -> (r: String)
    ensures
        r@ == status_text(*report),
{
    let pid: i32 = match report.pid {
        Some(pid) => pid,
        None => 0,
    };
    let head = match report.state {
        DaemonState::Running => "filewalld: running (pid ",
        DaemonState::Stale => "filewalld: not running (stale pid ",
        DaemonState::Unknown => "filewalld: unknown (pid ",
        DaemonState::NoPidfile => {
            return "filewalld: not running (no pidfile)".to_owned();
        },
        DaemonState::BadPidfile => {
            return "filewalld: unknown (bad pidfile)".to_owned();
        },
    };
    let mut out = head.to_owned();
    out.append(signed_decimal(pid).as_str());
    out.append(")");
    out
}

pub open spec fn yes_no(b: bool) -> Seq<char> {
    if b {
        "yes"@
    } else {
        "no"@
    }
}

/// The cells of an object in a dump. Files have nothing to say on new subdirectories.
pub open spec fn dump_row(o: WatchedObject) -> Seq<Seq<char>> {
    seq![
        o.path@,
        match o.kind {
            ObjKind::File => "file"@,
            ObjKind::Dir => "dir"@,
        },
        yes_no(o.recursive),
        yes_no(o.fanotify),
        match o.live_marked {
            Some(live) => yes_no(live),
            None => "-"@,
        },
        o.watch@,
    ]
}

fn said(b: bool) -> (r: String)
    ensures
        r@ == yes_no(b),
{
    if b {
        "yes".to_owned()
    } else {
        "no".to_owned()
    }
}

fn dump_cells(o: &WatchedObject) -> (r: Vec<String>)
    ensures
        row_view(r@) == dump_row(*o),
{
    let mut row: Vec<String> = Vec::new();
    row.push(o.path.as_str().to_owned());
    row.push(
        match o.kind {
            ObjKind::File => "file".to_owned(),
            ObjKind::Dir => "dir".to_owned(),
        },
    );
    row.push(said(o.recursive));
    row.push(said(o.fanotify));
    row.push(
        match o.live_marked {
            Some(live) => said(live),
            None => "-".to_owned(),
        },
    );
    row.push(o.watch.as_str().to_owned());
    assert(row_view(row@) =~= dump_row(*o));
    row
}

/// The rows of a dump.
pub open spec fn dump_rows(objects: Seq<WatchedObject>) -> Seq<Seq<Seq<char>>> {
    objects.map_values(|o: WatchedObject| dump_row(o))
}

/// The headers of a dump.
pub open spec fn dump_headers() -> Seq<Seq<char>> {
    seq!["PATH"@, "KIND"@, "RECURSIVE"@, "FANOTIFY"@, "LIVE"@, "WATCH"@]
}

/// A dump as a table, with a summary.
pub fn dump_table(resp: &DumpResponse) -> (r: String)
    ensures
        r@ == table(dump_headers(), dump_rows(resp.objects@)) + "\n"@ + dec(resp.objects@.len())
            + " object(s) (pid "@ + dec(resp.pid as nat) + ")\n"@,
{
    let mut rows: Vec<Vec<String>> = Vec::new();
    let mut i: usize = 0;
    while i < resp.objects.len()
        invariant
            i <= resp.objects@.len(),
            rows@.len() == i,
            forall|j: int|
                0 <= j < i ==> row_view((#[trigger] rows@[j])@) == dump_row(resp.objects@[j]),
        decreases resp.objects@.len() - i,
    {
        rows.push(dump_cells(&resp.objects[i]));
        i += 1;
    }
    assert(rows_view(rows@) =~= dump_rows(resp.objects@));
    let headers: [&str; 6] = ["PATH", "KIND", "RECURSIVE", "FANOTIFY", "LIVE", "WATCH"];
    assert(header_view(headers@) =~= dump_headers());
    let mut out = render_table(headers.as_slice(), rows.as_slice());
    out.append("\n");
    out.append(decimal(resp.objects.len() as u128).as_str());
    out.append(" object(s) (pid ");
    out.append(decimal(resp.pid as u128).as_str());
    out.append(")\n");
    out
}

/// The cells of rule `i` in a list.
pub open spec fn rule_row(i: nat, r: LearnedRule) -> Seq<Seq<char>> {
    seq![
        dec(i),
        match r.action {
            RuleAction::Allow => "allow"@,
            RuleAction::Deny => "deny"@,
        },
        r.exe@,
        shown(r.object@),
        match r.object_kind {
            ObjectKind::File => "file"@,
            ObjectKind::Tree => "tree"@,
        },
        match opt_text(r.cwd) {
            Some(cwd) => cwd,
            None => "-"@,
        },
        dec(r.created_unix as nat),
    ]
}

fn rule_cells(i: usize, r: &LearnedRule) -> (row: Vec<String>)
    ensures
        row_view(row@) == rule_row(i as nat, *r),
{
    let mut row: Vec<String> = Vec::new();
    row.push(decimal(i as u128));
    row.push(
        match r.action {
            RuleAction::Allow => "allow".to_owned(),
            RuleAction::Deny => "deny".to_owned(),
        },
    );
    row.push(r.exe.as_str().to_owned());
    row.push(r.object.display());
    row.push(
        match r.object_kind {
            ObjectKind::File => "file".to_owned(),
            ObjectKind::Tree => "tree".to_owned(),
        },
    );
    row.push(
        match &r.cwd {
            Some(cwd) => cwd.as_str().to_owned(),
            None => "-".to_owned(),
        },
    );
    row.push(decimal(r.created_unix as u128));
    assert(row_view(row@) =~= rule_row(i as nat, *r));
    row
}

/// The rows of a list of rules.
pub open spec fn rule_rows(rules: Seq<LearnedRule>) -> Seq<Seq<Seq<char>>> {
    Seq::new(rules.len(), |i: int| rule_row(i as nat, rules[i]))
}

/// The headers of a list of rules.
pub open spec fn rule_headers() -> Seq<Seq<char>> {
    seq!["IDX"@, "ACTION"@, "EXE"@, "OBJECT"@, "KIND"@, "CWD"@, "CREATED"@]
}

/// Learned rules as a table, with a summary.
pub fn list_table(rules: &Vec<LearnedRule>, path: &FilePath) -> (r: String)
    ensures
        r@ == table(rule_headers(), rule_rows(rules@)) + "\n"@ + dec(rules@.len()) + " rule(s) ("@
            + shown(path@) + ")\n"@,
{
    let mut rows: Vec<Vec<String>> = Vec::new();
    let mut i: usize = 0;
    while i < rules.len()
        invariant
            i <= rules@.len(),
            rows@.len() == i,
            forall|j: int|
                0 <= j < i ==> row_view((#[trigger] rows@[j])@) == rule_row(j as nat, rules@[j]),
        decreases rules@.len() - i,
    {
        rows.push(rule_cells(i, &rules[i]));
        i += 1;
    }
    assert(rows_view(rows@) =~= rule_rows(rules@));
    let headers: [&str; 7] = ["IDX", "ACTION", "EXE", "OBJECT", "KIND", "CWD", "CREATED"];
    assert(header_view(headers@) =~= rule_headers());
    let mut out = render_table(headers.as_slice(), rows.as_slice());
    out.append("\n");
    out.append(decimal(rules.len() as u128).as_str());
    out.append(" rule(s) (");
    out.append(path.display().as_str());
    out.append(")\n");
    out
}

/// The last format option counts, wherever it stands; without any it is a table.
pub proof fn last_format_counts(before: Seq<Seq<char>>, after: Seq<Seq<char>>)
    requires
        forall|i: int|
            0 <= i < after.len() ==> (#[trigger] after[i]) != "--json"@ && after[i] != "--yaml"@
                && after[i] != "--table"@,
    ensures
        chosen_format(before.push("--json"@) + after) == Format::Json,
        chosen_format(before.push("--yaml"@) + after) == Format::Yaml,
        chosen_format(before.push("--table"@) + after) == Format::Table,
        chosen_format(after) == Format::Table,
        other_args(after) == after,
    decreases after.len(),
{
    reveal_strlit("--json");
    reveal_strlit("--yaml");
    reveal_strlit("--table");
    assert("--json"@[2] != "--yaml"@[2]);
    assert("--json"@[2] != "--table"@[2]);
    assert("--yaml"@[2] != "--table"@[2]);
    reveal(Seq::filter);
    if after.len() == 0 {
        assert(before.push("--json"@) + after =~= before.push("--json"@));
        assert(before.push("--yaml"@) + after =~= before.push("--yaml"@));
        assert(before.push("--table"@) + after =~= before.push("--table"@));
        assert(other_args(after) =~= after);
    } else {
        let front = after.drop_last();
        assert forall|i: int| 0 <= i < front.len() implies (#[trigger] front[i]) != "--json"@
            && front[i] != "--yaml"@ && front[i] != "--table"@ by {
            assert(front[i] == after[i]);
        }
        last_format_counts(before, front);
        let last = after[after.len() - 1];
        assert(format_flag(last) is None);
        assert((before.push("--json"@) + after).drop_last() =~= before.push("--json"@) + front);
        assert((before.push("--yaml"@) + after).drop_last() =~= before.push("--yaml"@) + front);
        assert((before.push("--table"@) + after).drop_last() =~= before.push("--table"@) + front);
        assert(other_args(after) =~= after);
    }
}

/// The other arguments are kept in order; format options are taken out.
pub proof fn other_arguments_are_kept(a: Seq<Seq<char>>, b: Seq<Seq<char>>)
    ensures
        other_args(a + b) == other_args(a) + other_args(b),
        other_args(seq!["--json"@]).len() == 0,
        other_args(seq!["--yaml"@]).len() == 0,
        other_args(seq!["--table"@]).len() == 0,
{
    Seq::filter_distributes_over_add(a, b, |x: Seq<char>| format_flag(x) is None);
    reveal_with_fuel(Seq::filter, 2);
    assert(seq!["--json"@].drop_last() =~= Seq::empty());
    assert(seq!["--yaml"@].drop_last() =~= Seq::empty());
    assert(seq!["--table"@].drop_last() =~= Seq::empty());
}

/// The daemon runs if the probe reaches it or is not permitted to; without such a
/// process the PID file is stale; any other failure leaves it open.
pub proof fn probe_tells_the_state(
    pid: i32,
    probe: Result<(), i32>,
    live: Liveness,
    report: StatusReport,
)
    requires
        call_ensures(classify_liveness, (probe,), live),
        call_ensures(status_report, (pid, probe), report),
    ensures
        live == Liveness::Running <==> probe is Ok || probe == Err::<(), i32>(1),
        live == Liveness::Stale <==> probe == Err::<(), i32>(3),
        live matches Liveness::Unknown(e) ==> probe == Err::<(), i32>(e),
        report.pid == Some(pid),
        report.running <==> probe is Ok || probe == Err::<(), i32>(1),
        report.state == DaemonState::Running <==> report.running,
        report.state == DaemonState::Stale <==> probe == Err::<(), i32>(3),
        report.state != DaemonState::NoPidfile && report.state != DaemonState::BadPidfile,
{
}

/// A PID file that cannot be read, or holds no number, means that nothing is known to
/// run; one that holds the number of a process, with blanks around it, gives that.
pub proof fn pidfile_gives_the_process(
    pid: i32,
    pidfile: Option<String>,
    r: Result<i32, StatusReport>,
)
    requires
        call_ensures(status_pid, (&pidfile,), r),
    ensures
        pidfile is None ==> (r matches Err(report) && !report.running && report.state
            == DaemonState::NoPidfile),
        r matches Err(report) ==> !report.running && report.pid is None,
        pid >= 0 && pidfile is Some && pidfile->0@ == dec(pid as nat).push('\n') ==> r == Ok::<
            i32,
            StatusReport,
        >(pid),
{
    if pid >= 0 {
        pidfile_is_read_back(pid as nat);
    }
}

/// The status says whether the daemon runs, and as which process.
pub proof fn status_line_says_the_state(report: StatusReport, r: String)
    requires
        call_ensures(status_line, (&report,), r),
    ensures
        report.state == DaemonState::Running && report.pid is Some ==> r@
            == "filewalld: running (pid "@ + signed_dec(report.pid->0 as int) + ")"@,
        report.state == DaemonState::Stale && report.pid is Some ==> r@
            == "filewalld: not running (stale pid "@ + signed_dec(report.pid->0 as int) + ")"@,
        report.state == DaemonState::NoPidfile ==> r@ == "filewalld: not running (no pidfile)"@,
        report.state == DaemonState::BadPidfile ==> r@ == "filewalld: unknown (bad pidfile)"@,
        report.state == DaemonState::Unknown && report.pid is Some ==> r@
            == "filewalld: unknown (pid "@ + signed_dec(report.pid->0 as int) + ")"@,
{
}

/// A row of a dump tells the path, the kind, what is covered, and any gap.
pub proof fn dump_row_tells_the_object(o: WatchedObject)
    ensures
        dump_row(o).len() == dump_headers().len(),
        dump_row(o)[0] == o.path@,
        dump_row(o)[1] == (if o.kind == ObjKind::Dir {
            "dir"@
        } else {
            "file"@
        }),
        o.recursive ==> dump_row(o)[2] == "yes"@,
        !o.recursive ==> dump_row(o)[2] == "no"@,
        o.fanotify ==> dump_row(o)[3] == "yes"@,
        !o.fanotify ==> dump_row(o)[3] == "no"@,
        o.live_marked == Some(true) ==> dump_row(o)[4] == "yes"@,
        o.live_marked == Some(false) ==> dump_row(o)[4] == "no"@,
        o.live_marked is None ==> dump_row(o)[4] == "-"@,
        dump_row(o)[5] == o.watch@,
{
}

/// A row of a list tells the position that removes the rule, and all the rule says.
pub proof fn rule_row_tells_the_rule(rules: Seq<LearnedRule>, i: int)
    requires
        0 <= i < rules.len(),
    ensures
        rule_rows(rules).len() == rules.len(),
        ({
            let row = rule_rows(rules)[i];
            let r = rules[i];
            &&& row.len() == rule_headers().len()
            &&& row[0] == dec(i as nat)
            &&& r.action == RuleAction::Allow ==> row[1] == "allow"@
            &&& r.action == RuleAction::Deny ==> row[1] == "deny"@
            &&& row[2] == r.exe@
            &&& row[3] == shown(r.object@)
            &&& r.object_kind == ObjectKind::File ==> row[4] == "file"@
            &&& r.object_kind == ObjectKind::Tree ==> row[4] == "tree"@
            &&& r.cwd is Some ==> row[5] == (r.cwd->0)@
            &&& r.cwd is None ==> row[5] == "-"@
            &&& row[6] == dec(r.created_unix as nat)
        }),
{
}

/// Values are encoded in the format asked for; a table is not encoded.
pub proof fn encoder_is_the_format(format: Format, r: Result<Encoder, String>)
    requires
        call_ensures(emit, (format,), r),
    ensures
        format == Format::Json ==> r == Ok::<Encoder, String>(Encoder::Json),
        format == Format::Yaml ==> r == Ok::<Encoder, String>(Encoder::Yaml),
        format == Format::Table ==> r is Err,
{
}

/// Listing shows every rule and every object, with their number.
pub proof fn tables_show_everything(
    rules: Vec<LearnedRule>,
    path: FilePath,
    listed: String,
    resp: DumpResponse,
    dumped: String,
)
    requires
        call_ensures(list_table, (&rules, &path), listed),
        call_ensures(dump_table, (&resp,), dumped),
    ensures
        listed@ == table(rule_headers(), rule_rows(rules@)) + "\n"@ + dec(rules@.len())
            + " rule(s) ("@ + shown(path@) + ")\n"@,
        dumped@ == table(dump_headers(), dump_rows(resp.objects@)) + "\n"@ + dec(
            resp.objects@.len(),
        ) + " object(s) (pid "@ + dec(resp.pid as nat) + ")\n"@,
        dump_rows(resp.objects@).len() == resp.objects@.len(),
        forall|i: int|
            0 <= i < resp.objects@.len() ==> #[trigger] dump_rows(resp.objects@)[i] == dump_row(
                resp.objects@[i],
            ),
{
}

proof fn one_option_is_taken_out(before: Seq<Seq<char>>, option: Seq<char>, after: Seq<Seq<char>>)
    requires
        other_args(seq![option]).len() == 0,
        other_args(before) == before,
        other_args(after) == after,
    ensures
        other_args(before.push(option) + after) == before + after,
{
    other_arguments_are_kept(before, seq![option]);
    other_arguments_are_kept(before.push(option), after);
    assert(before.push(option) =~= before + seq![option]);
    assert(before + other_args(seq![option]) =~= before);
}

/// Taking the format out of the arguments leaves the others as they were.
pub proof fn format_is_taken_out(
    args: &[String],
    r: (Format, Vec<String>),
    before: Seq<Seq<char>>,
    after: Seq<Seq<char>>,
)
    requires
        call_ensures(parse_format, (args,), r),
        forall|i: int|
            0 <= i < before.len() ==> (#[trigger] before[i]) != "--json"@ && before[i] != "--yaml"@
                && before[i] != "--table"@,
        forall|i: int|
            0 <= i < after.len() ==> (#[trigger] after[i]) != "--json"@ && after[i] != "--yaml"@
                && after[i] != "--table"@,
    ensures
        texts(args@) == before ==> r.0 == Format::Table && texts(r.1@) == before,
        texts(args@) == before.push("--json"@) + after ==> r.0 == Format::Json && texts(r.1@)
            == before + after,
        texts(args@) == before.push("--yaml"@) + after ==> r.0 == Format::Yaml && texts(r.1@)
            == before + after,
        texts(args@) == before.push("--table"@) + after ==> r.0 == Format::Table && texts(r.1@)
            == before + after,
{
    last_format_counts(before, after);
    last_format_counts(after, before);
    other_arguments_are_kept(before, after);
    one_option_is_taken_out(before, "--json"@, after);
    one_option_is_taken_out(before, "--yaml"@, after);
    one_option_is_taken_out(before, "--table"@, after);
}

/// What is written to a PID file is read back as the same process, with or without its
/// line end; what is no number is none.
pub proof fn written_pid_is_read(pid: u32, text: String, s: &str, r: Option<i32>)
    requires
        call_ensures(pidfile_text, (pid,), text),
        call_ensures(parse_pidfile, (s,), r),
    ensures
        s@ == text@ && pid <= i32::MAX ==> r == Some(pid as i32),
        s@.len() == 0 ==> r is None,
{
    if pid <= i32::MAX {
        pidfile_is_read_back(pid as nat);
    }
}

/// Each state has a name of its own.
pub proof fn states_are_named(state: DaemonState, r: &'static str)
    requires
        call_ensures(DaemonState::text, (&state,), r),
    ensures
        state == DaemonState::Running ==> r@ == "running"@,
        state == DaemonState::Stale ==> r@ == "stale"@,
        state == DaemonState::Unknown ==> r@ == "unknown"@,
        state == DaemonState::NoPidfile ==> r@ == "no-pidfile"@,
        state == DaemonState::BadPidfile ==> r@ == "bad-pidfile"@,
{
}

/// Removing takes out the rule at that position and leaves the others in order.
pub proof fn removing_takes_out_one(rules: &mut Rules, index: usize, r: Option<LearnedRule>, j: int)
    requires
        call_ensures(remove_at, (rules, index), r),
        0 <= j < old(rules).rules@.len(),
    ensures
        final(rules).next_id == old(rules).next_id,
        index >= old(rules).rules@.len() ==> r is None && final(rules).rules@ == old(rules).rules@,
        index < old(rules).rules@.len() ==> r == Some(old(rules).rules@[index as int])
            && final(rules).rules@.len() + 1 == old(rules).rules@.len(),
        j < index ==> final(rules).rules@[j] == old(rules).rules@[j],
        index < j ==> final(rules).rules@[j - 1] == old(rules).rules@[j],
{
}

/// The columns are named for what they hold.
pub proof fn columns_are_named()
    ensures
        dump_headers() == seq![
            "PATH"@,
            "KIND"@,
            "RECURSIVE"@,
            "FANOTIFY"@,
            "LIVE"@,
            "WATCH"@,
        ],
        rule_headers() == seq![
            "IDX"@,
            "ACTION"@,
            "EXE"@,
            "OBJECT"@,
            "KIND"@,
            "CWD"@,
            "CREATED"@,
        ],
{
}

/// A state that belongs to a process, told without one, says 0.
pub proof fn missing_process_is_zero(report: StatusReport, r: String)
    requires
        call_ensures(status_line, (&report,), r),
        report.pid is None,
    ensures
        report.state == DaemonState::Running ==> r@ == "filewalld: running (pid "@ + signed_dec(0)
            + ")"@,
        report.state == DaemonState::Stale ==> r@ == "filewalld: not running (stale pid "@
            + signed_dec(0) + ")"@,
        report.state == DaemonState::Unknown ==> r@ == "filewalld: unknown (pid "@ + signed_dec(0)
            + ")"@,
{
}

} // verus!
