//! The commands of the control program: what each is given, prints and returns.

use crate::ctl::{
    dump_headers, dump_rows, dump_table, list_table, parse_pidfile, pid_in, pidfile_is_read_back,
    remove_at, rule_headers, rule_rows, status_line, status_text, Format, StatusReport,
};
use crate::paths::{shown, FilePath};
use crate::proto::DumpResponse;
use crate::rules::{LearnedRule, Rules};
use crate::table::table;
use crate::text::{
    dec, decimal, decimal_is_read_back, parse_unsigned, same_text, signed_dec, signed_decimal,
    texts, to_chars, unsigned_value,
};
use vstd::prelude::*;
use vstd::string::*;

verus! {

/// A command with its arguments.
#[derive(Debug)]
pub enum Command {
    Dump { socket: String },
    List { rules_path: String },
    Remove { index: usize, rules_path: String },
    /// A removal without a number.
    RemoveWhat,
    Reload { pidfile: String },
    Status { pidfile: String },
    /// Not a command.
    Usage,
}

/// The argument at `i`, or a default.
pub open spec fn arg_or(args: Seq<Seq<char>>, i: int, default: Seq<char>) -> Seq<char> {
    if i < args.len() {
        args[i]
    } else {
        default
    }
}

/// Whether `c` is the command that the arguments spell.
pub open spec fn spells(args: Seq<Seq<char>>, c: Command) -> bool {
    if args.len() == 0 {
        c is Usage
    } else if args[0] == "dump"@ {
        c matches Command::Dump { socket } && socket@ == arg_or(
            args,
            1,
            "/run/filewall/control.sock"@,
        )
    } else if args[0] == "list"@ {
        c matches Command::List { rules_path } && rules_path@ == arg_or(
            args,
            1,
            "/var/lib/filewall/rules.toml"@,
        )
    } else if args[0] == "remove"@ {
        if args.len() > 1 && (unsigned_value(args[1]) matches Some(n) && n <= usize::MAX) {
            c matches Command::Remove { index, rules_path } && Some(index as nat) == unsigned_value(
                args[1],
            ) && rules_path@ == arg_or(args, 2, "/var/lib/filewall/rules.toml"@)
        } else {
            c is RemoveWhat
        }
    } else if args[0] == "reload"@ {
        c matches Command::Reload { pidfile } && pidfile@ == arg_or(
            args,
            1,
            "/run/filewall/filewalld.pid"@,
        )
    } else if args[0] == "status"@ {
        c matches Command::Status { pidfile } && pidfile@ == arg_or(
            args,
            1,
            "/run/filewall/filewalld.pid"@,
        )
    } else {
        c is Usage
    }
}

fn given(args: &Vec<String>, i: usize, default: &str) -> (r: String)
    ensures
        r@ == arg_or(texts(args@), i as int, default@),
{
    if i < args.len() {
        args[i].as_str().to_owned()
    } else {
        default.to_owned()
    }
}

/// Reads the command, once the format is taken out of the arguments.
pub fn parse_command(args: &Vec<String>) -> (r: Command)
    ensures
        spells(texts(args@), r),
{
    let ghost all = texts(args@);
    if args.len() == 0 {
        return Command::Usage;
    }
    let name = args[0].as_str();
    assert(all[0] == name@);
    if same_text(name, "dump") {
        Command::Dump { socket: given(args, 1, "/run/filewall/control.sock") }
    } else if same_text(name, "list") {
        Command::List { rules_path: given(args, 1, "/var/lib/filewall/rules.toml") }
    } else if same_text(name, "remove") {
        if args.len() < 2 {
            return Command::RemoveWhat;
        }
        assert(all[1] == args@[1]@);
        match parse_unsigned(&to_chars(args[1].as_str()), usize::MAX as u64) {
            Some(n) => Command::Remove {
                index: n as usize,
                rules_path: given(args, 2, "/var/lib/filewall/rules.toml"),
            },
            None => Command::RemoveWhat,
        }
    } else if same_text(name, "reload") {
        Command::Reload { pidfile: given(args, 1, "/run/filewall/filewalld.pid") }
    } else if same_text(name, "status") {
        Command::Status { pidfile: given(args, 1, "/run/filewall/filewalld.pid") }
    } else {
        Command::Usage
    }
}

/// What a change came to.
#[derive(Debug)]
pub struct Ack {
    pub ok: bool,
    /// The daemon that was told.
    pub pid: Option<i32>,
    pub detail: String,
}

/// What a command prints.
#[derive(Debug)]
pub enum Report {
    /// A line of output.
    Line(String),
    /// Output with its line ends.
    Text(String),
    /// A line of errors.
    ErrLine(String),
    /// An acknowledgement, encoded.
    Ack(Ack),
    /// The command's own value, encoded.
    Value,
    /// A message, encoded as an error.
    Error(String),
}

/// How a command ends.
#[derive(Debug)]
pub struct CmdEnd {
    pub report: Report,
    pub success: bool,
}

fn cat(a: &str, b: &str, c: &str) -> (r: String)
    ensures
        r@ == a@ + b@ + c@,
{
    let mut out = a.to_owned();
    out.append(b);
    out.append(c);
    out
}

/// A message under the program's name.
pub open spec fn complaint(msg: Seq<char>) -> Seq<char> {
    "filewallctl: "@ + msg
}

fn complain(msg: &str) -> (r: String)
    ensures
        r@ == complaint(msg@),
{
    let mut out = "filewallctl: ".to_owned();
    out.append(msg);
    out
}

/// The end of a command whose value could not be encoded.
pub fn render_failed(reason: &str) -> (r: CmdEnd)
    ensures
        !r.success,
        r.report matches Report::ErrLine(s) && s@ == complaint("render failed: "@ + reason@),
{
    let mut msg = "render failed: ".to_owned();
    msg.append(reason);
    CmdEnd { report: Report::ErrLine(complain(msg.as_str())), success: false }
}

/// Lists the learned rules.
pub fn cmd_list(rules: &Rules, path: &FilePath, format: Format) -> (r: CmdEnd)
    ensures
        r.success,
        match format {
            Format::Table => if rules.rules@.len() == 0 {
                r.report matches Report::Line(s) && s@ == "No learned rules ("@ + shown(path@)
                    + ")"@
            } else {
                r.report matches Report::Text(s) && s@ == table(
                    rule_headers(),
                    rule_rows(rules.rules@),
                ) + "\n"@ + dec(rules.rules@.len()) + " rule(s) ("@ + shown(path@) + ")\n"@
            },
            _ => r.report is Value,
        },
{
    let report = match format {
        Format::Table => if rules.rules.len() == 0 {
            Report::Line(cat("No learned rules (", path.display().as_str(), ")"))
        } else {
            Report::Text(list_table(&rules.rules, path))
        },
        _ => Report::Value,
    };
    CmdEnd { report, success: true }
}

/// `[index] exe -> object`.
pub open spec fn removed_text(index: nat, rule: LearnedRule) -> Seq<char> {
    "["@ + dec(index) + "] "@ + rule.exe@ + " -> "@ + shown(rule.object@)
}

/// Whether a command ends with a failure for this reason: a line, or a negative
/// acknowledgement.
pub open spec fn refuses(end: CmdEnd, detail: Seq<char>, format: Format) -> bool {
    &&& !end.success
    &&& match format {
        Format::Table => end.report matches Report::ErrLine(s) && s@ == complaint(detail),
        _ => end.report matches Report::Ack(a) && !a.ok && a.pid is None && a.detail@ == detail,
    }
}

/// Whether a command ends with the rule removed; `told` is the daemon that knows.
pub open spec fn confirms(
    end: CmdEnd,
    index: nat,
    removed: LearnedRule,
    told: Option<i32>,
    format: Format,
) -> bool {
    &&& end.success
    &&& match format {
        Format::Table => end.report matches Report::Line(s) && s@ == "Removed "@ + removed_text(
            index,
            removed,
        ),
        _ => end.report matches Report::Ack(a) && a.ok && a.pid == told && a.detail@ == "removed "@
            + removed_text(index, removed),
    }
}

/// A removal under way: the number and the rule that is going.
#[derive(Debug)]
pub struct Removing {
    pub index: usize,
    pub removed: LearnedRule,
    pub format: Format,
}

/// What comes next in a removal.
#[derive(Debug)]
pub enum RemoveStep {
    /// Save these rules, and go on with `Removing::then_saved`.
    Save { rules: Rules, removing: Removing },
    /// Read the PID file of the daemon, and go on with `Removing::then_read`.
    ReadPidfile(Removing),
    /// Send SIGHUP to this process, and go on with `Removing::then_sent`.
    Signal { pid: i32, removing: Removing },
    /// The removal is over.
    End(CmdEnd),
}

/// The PID in what reading a PID file came to, where there is one.
pub open spec fn pid_read(read: Result<String, String>) -> Option<i32> {
    match read {
        Ok(text) => pid_in(text@),
        Err(_) => None,
    }
}

/// Whether a removal starts with this step.
pub open spec fn remove_starts(rules: Rules, index: usize, format: Format, step: RemoveStep) -> bool {
    if index >= rules.rules@.len() {
        step matches RemoveStep::End(end) && refuses(
            end,
            "no rule at index "@ + dec(index as nat),
            format,
        )
    } else {
        &&& step matches RemoveStep::Save { rules: kept, removing }
        &&& kept.rules@ == rules.rules@.remove(index as int)
        &&& kept.next_id == rules.next_id
        &&& removing == (Removing { index, removed: rules.rules@[index as int], format })
    }
}

/// Whether this step follows what saving came to.
pub open spec fn follows_saving(
    removing: Removing,
    saved: Result<(), String>,
    rules_path: Seq<u8>,
    step: RemoveStep,
) -> bool {
    match saved {
        Ok(_) => step == RemoveStep::ReadPidfile(removing),
        Err(reason) => step matches RemoveStep::End(end) && refuses(
            end,
            "could not write "@ + shown(rules_path) + ": "@ + reason@,
            removing.format,
        ),
    }
}

/// Whether this step follows what reading the PID file came to.
pub open spec fn follows_reading(
    removing: Removing,
    read: Result<String, String>,
    step: RemoveStep,
) -> bool {
    match pid_read(read) {
        Some(pid) => step == (RemoveStep::Signal { pid, removing }),
        None => step matches RemoveStep::End(end) && confirms(
            end,
            removing.index as nat,
            removing.removed,
            None,
            removing.format,
        ),
    }
}

/// Whether a removal ends like this after the signal.
pub open spec fn follows_signal(
    removing: Removing,
    pid: i32,
    sent: Result<(), String>,
    end: CmdEnd,
) -> bool {
    confirms(
        end,
        removing.index as nat,
        removing.removed,
        if sent is Ok {
            Some(pid)
        } else {
            None
        },
        removing.format,
    )
}

/// Starts the removal of the rule at `index`. Without such a rule it is over at
/// once: nothing is saved and nobody is told.
pub fn cmd_remove(rules: Rules, index: usize, format: Format) -> (r: RemoveStep)
    ensures
        remove_starts(rules, index, format, r),
{
    let mut rules = rules;
    match remove_at(&mut rules, index) {
        Some(removed) => RemoveStep::Save { rules, removing: Removing { index, removed, format } },
        None => {
            let mut detail = "no rule at index ".to_owned();
            detail.append(decimal(index as u128).as_str());
            RemoveStep::End(refuse(detail, format))
        },
    }
}

impl Removing {
    /// Goes on with what saving the rules at `rules_path` came to. A failure ends the
    /// removal, and nobody is told.
    pub fn then_saved(self, saved: Result<(), String>, rules_path: &FilePath) -> (r: RemoveStep)
        ensures
            follows_saving(self, saved, rules_path@, r),
    {
        match saved {
            Ok(()) => RemoveStep::ReadPidfile(self),
            Err(reason) => {
                let mut detail = "could not write ".to_owned();
                detail.append(rules_path.display().as_str());
                detail.append(": ");
                detail.append(reason.as_str());
                RemoveStep::End(refuse(detail, self.format))
            },
        }
    }

    /// Goes on with what reading the PID file came to. Without a PID there is nobody
    /// to tell, and the removal stands all the same.
    pub fn then_read(self, read: &Result<String, String>) -> (r: RemoveStep)
        ensures
            follows_reading(self, *read, r),
    {
        match read {
            Ok(text) => match parse_pidfile(text.as_str()) {
                Some(pid) => RemoveStep::Signal { pid, removing: self },
                None => RemoveStep::End(self.confirm(None)),
            },
            Err(_) => RemoveStep::End(self.confirm(None)),
        }
    }

    /// Ends with what the signal to `pid` came to. Its failure changes nothing but who
    /// is said to have been told.
    pub fn then_sent(self, pid: i32, sent: Result<(), String>) -> (r: CmdEnd)
        ensures
            follows_signal(self, pid, sent, r),
    {
        match sent {
            Ok(()) => self.confirm(Some(pid)),
            Err(_) => self.confirm(None),
        }
    }

    fn confirm(self, told: Option<i32>) -> (r: CmdEnd)
        ensures
            confirms(r, self.index as nat, self.removed, told, self.format),
    {
        let mut what = cat("[", decimal(self.index as u128).as_str(), "] ");
        what.append(self.removed.exe.as_str());
        what.append(" -> ");
        what.append(self.removed.object.display().as_str());
        assert(what@ =~= removed_text(self.index as nat, self.removed));
        let report = match self.format {
            Format::Table => {
                let mut line = "Removed ".to_owned();
                line.append(what.as_str());
                Report::Line(line)
            },
            _ => {
                let mut detail = "removed ".to_owned();
                detail.append(what.as_str());
                Report::Ack(Ack { ok: true, pid: told, detail })
            },
        };
        CmdEnd { report, success: true }
    }
}

/// What a removal did, and how it ended.
pub struct RemovalRun {
    /// The rules it saved, or tried to.
    pub saved: Option<Rules>,
    /// The process it sent SIGHUP to, or tried to.
    pub signalled: Option<i32>,
    pub end: CmdEnd,
}

/// Whether a removal ran like this from `step` on, doing what each step asks for, where
/// saving, reading the PID file and signalling come to what is given.
pub open spec fn ran(
    run: RemovalRun,
    step: RemoveStep,
    rules_path: Seq<u8>,
    saved: Result<(), String>,
    read: Result<String, String>,
    sent: Result<(), String>,
) -> bool
    decreases steps_left(step),
{
    match step {
        RemoveStep::Save { rules, removing } => run.saved == Some(rules) && exists|next: RemoveStep|
            #[trigger] follows_saving(removing, saved, rules_path, next) && steps_left(next)
                < steps_left(step) && ran(
                (RemovalRun { saved: None, ..run }),
                next,
                rules_path,
                saved,
                read,
                sent,
            ),
        RemoveStep::ReadPidfile(removing) => run.saved is None && exists|next: RemoveStep|
            #[trigger] follows_reading(removing, read, next) && steps_left(next) < steps_left(step)
                && ran(run, next, rules_path, saved, read, sent),
        RemoveStep::Signal { pid, removing } => run.saved is None && run.signalled == Some(pid)
            && follows_signal(removing, pid, sent, run.end),
        RemoveStep::End(end) => run.saved is None && run.signalled is None && run.end == end,
    }
}

/// How many steps can still come.
pub open spec fn steps_left(step: RemoveStep) -> nat {
    match step {
        RemoveStep::Save { .. } => 3,
        RemoveStep::ReadPidfile(_) => 2,
        RemoveStep::Signal { .. } => 1,
        RemoveStep::End(_) => 0,
    }
}

/// A removal fails, with nobody told, if there is no such rule, when nothing is saved
/// either, or if the rules cannot be saved. Otherwise it succeeds: the rules saved
/// are the old ones without that one, under the same next id, and the process in the
/// PID file gets one signal, whose failure changes nothing.
pub proof fn removal_is_saved_then_told(
    run: RemovalRun,
    rules: Rules,
    index: usize,
    format: Format,
    first: RemoveStep,
    rules_path: Seq<u8>,
    saved: Result<(), String>,
    read: Result<String, String>,
    sent: Result<(), String>,
)
    requires
        remove_starts(rules, index, format, first),
        ran(run, first, rules_path, saved, read, sent),
    ensures
        index >= rules.rules@.len() ==> run.saved is None && run.signalled is None
            && !run.end.success,
        index < rules.rules@.len() ==> (run.saved matches Some(kept) && kept.rules@
            == rules.rules@.remove(index as int) && kept.next_id == rules.next_id),
        index < rules.rules@.len() && saved is Err ==> run.signalled is None && !run.end.success,
        index < rules.rules@.len() && saved is Ok ==> run.signalled == pid_read(read)
            && run.end.success,
{
    reveal_with_fuel(ran, 4);
}

/// A failure: a line, or a negative acknowledgement.
fn refuse(detail: String, format: Format) -> (r: CmdEnd)
    ensures
        refuses(r, detail@, format),
{
    let report = match format {
        Format::Table => Report::ErrLine(complain(detail.as_str())),
        _ => Report::Ack(Ack { ok: false, pid: None, detail }),
    };
    CmdEnd { report, success: false }
}

/// The PID to signal, from what reading the PID file came to.
pub fn pid_to_signal(read: &Result<String, String>, pidfile: &FilePath) -> (r: Result<i32, String>)
    ensures
        match read {
            Err(reason) => r matches Err(e) && e@ == "reading "@ + shown(pidfile@) + ": "@
                + reason@,
            Ok(text) => match pid_in(text@) {
                Some(pid) => r == Ok::<i32, String>(pid),
                None => r matches Err(e) && e@ == "invalid pidfile "@ + shown(pidfile@),
            },
        },
{
    match read {
        Err(reason) => {
            let mut e = cat("reading ", pidfile.display().as_str(), ": ");
            e.append(reason.as_str());
            Err(e)
        },
        Ok(text) => match parse_pidfile(text.as_str()) {
            Some(pid) => Ok(pid),
            None => {
                let mut e = "invalid pidfile ".to_owned();
                e.append(pidfile.display().as_str());
                Err(e)
            },
        },
    }
}

/// What signalling came to: the PID, or why not.
pub fn send_sighup(pid: i32, sent: Result<(), String>) -> (r: Result<i32, String>)
    ensures
        match sent {
            Ok(_) => r == Ok::<i32, String>(pid),
            Err(reason) => r matches Err(e) && e@ == "kill "@ + signed_dec(pid as int) + ": "@
                + reason@,
        },
{
    match sent {
        Ok(()) => Ok(pid),
        Err(reason) => {
            let mut e = cat("kill ", signed_decimal(pid).as_str(), ": ");
            e.append(reason.as_str());
            Err(e)
        },
    }
}

/// The end of a reload.
pub fn cmd_reload(sent: Result<i32, String>, format: Format) -> (r: CmdEnd)
    ensures
        r.success == (sent is Ok),
        match sent {
            Ok(pid) => match format {
                Format::Table => r.report matches Report::Line(s) && s@
                    == "Sent SIGHUP to filewalld (pid "@ + signed_dec(pid as int) + ")"@,
                _ => r.report matches Report::Ack(a) && a.ok && a.pid == Some(pid) && a.detail@
                    == "sent SIGHUP"@,
            },
            Err(e) => match format {
                Format::Table => r.report matches Report::ErrLine(s) && s@ == complaint(
                    "reload failed: "@ + e@,
                ),
                _ => r.report matches Report::Ack(a) && !a.ok && a.pid is None && a.detail@
                    == "reload failed: "@ + e@,
            },
        },
{
    match sent {
        Ok(pid) => {
            let report = match format {
                Format::Table => Report::Line(
                    cat("Sent SIGHUP to filewalld (pid ", signed_decimal(pid).as_str(), ")"),
                ),
                _ => Report::Ack(
                    Ack { ok: true, pid: Some(pid), detail: "sent SIGHUP".to_owned() },
                ),
            };
            CmdEnd { report, success: true }
        },
        Err(e) => {
            let mut detail = "reload failed: ".to_owned();
            detail.append(e.as_str());
            refuse(detail, format)
        },
    }
}

/// The end of a status query; it succeeds when the daemon runs.
pub fn cmd_status(report: &StatusReport, format: Format) -> (r: CmdEnd)
    ensures
        r.success == report.running,
        match format {
            Format::Table => r.report matches Report::Line(s) && s@ == status_text(*report),
            _ => r.report is Value,
        },
{
    let out = match format {
        Format::Table => Report::Line(status_line(report)),
        _ => Report::Value,
    };
    CmdEnd { report: out, success: report.running }
}

/// A message in the chosen format: a line, or encoded as an error.
pub fn emit_error(format: Format, msg: String) -> (r: Report)
    ensures
        match format {
            Format::Table => r matches Report::ErrLine(s) && s@ == complaint(msg@),
            _ => r matches Report::Error(s) && s@ == msg@,
        },
{
    match format {
        Format::Table => Report::ErrLine(complain(msg.as_str())),
        _ => Report::Error(msg),
    }
}

/// What is said when the daemon does not answer.
pub open spec fn no_dump_text(socket: Seq<u8>, reason: Seq<char>) -> Seq<char> {
    "could not query daemon on "@ + shown(socket) + " ("@ + reason + "); is filewalld running?"@
}

/// The end of a dump, from what the daemon answered.
pub fn cmd_dump(answer: &Result<DumpResponse, String>, socket: &FilePath, format: Format) -> (r:
    CmdEnd)
    ensures
        r.success == (answer is Ok),
        match answer {
            Ok(resp) => match format {
                Format::Table => r.report matches Report::Text(s) && s@ == table(
                    dump_headers(),
                    dump_rows(resp.objects@),
                ) + "\n"@ + dec(resp.objects@.len()) + " object(s) (pid "@ + dec(resp.pid as nat)
                    + ")\n"@,
                _ => r.report is Value,
            },
            Err(reason) => match format {
                Format::Table => r.report matches Report::ErrLine(s) && s@ == complaint(
                    no_dump_text(socket@, reason@),
                ),
                _ => r.report matches Report::Error(s) && s@ == no_dump_text(socket@, reason@),
            },
        },
{
    match answer {
        Ok(resp) => {
            let report = match format {
                Format::Table => Report::Text(dump_table(resp)),
                _ => Report::Value,
            };
            CmdEnd { report, success: true }
        },
        Err(reason) => {
            let mut msg = cat("could not query daemon on ", socket.display().as_str(), " (");
            msg.append(reason.as_str());
            msg.append("); is filewalld running?");
            assert(msg@ =~= no_dump_text(socket@, reason@));
            CmdEnd { report: emit_error(format, msg), success: false }
        },
    }
}

/// How the program is used.
pub fn usage() -> (r: &'static str)
    ensures
        r@
            == "usage:\n  filewallctl [--json|--yaml|--table] <command>\n\ncommands:\n  list   [rules_path]      Print learned rules\n  dump   [control_socket]  Print objects the daemon is protecting\n  remove <index> [path]    Remove a rule by index, then SIGHUP the daemon\n  reload [pidfile]         Send SIGHUP to the running daemon\n  status [pidfile]         Report whether the daemon is running"@,
{
    "usage:\n  filewallctl [--json|--yaml|--table] <command>\n\ncommands:\n  list   [rules_path]      Print learned rules\n  dump   [control_socket]  Print objects the daemon is protecting\n  remove <index> [path]    Remove a rule by index, then SIGHUP the daemon\n  reload [pidfile]         Send SIGHUP to the running daemon\n  status [pidfile]         Report whether the daemon is running"
}

proof fn names_differ()
    ensures
        "dump"@ != "list"@,
        "dump"@ != "remove"@,
        "dump"@ != "reload"@,
        "dump"@ != "status"@,
        "list"@ != "remove"@,
        "list"@ != "reload"@,
        "list"@ != "status"@,
        "remove"@ != "reload"@,
        "remove"@ != "status"@,
        "reload"@ != "status"@,
{
    reveal_strlit("dump");
    reveal_strlit("list");
    reveal_strlit("remove");
    reveal_strlit("reload");
    reveal_strlit("status");
    assert("dump"@[0] != "list"@[0]);
    assert("dump"@.len() == 4);
    assert("list"@.len() == 4);
    assert("remove"@[2] != "reload"@[2]);
    assert("remove"@[0] != "status"@[0]);
    assert("reload"@[0] != "status"@[0]);
}

/// A command is read from its name, and goes to the place given behind it.
pub proof fn command_goes_to_the_given_place(args: Vec<String>, c: Command)
    requires
        call_ensures(parse_command, (&args,), c),
        args@.len() > 1,
    ensures
        args@[0]@ == "dump"@ ==> (c matches Command::Dump { socket } && socket@ == args@[1]@),
        args@[0]@ == "list"@ ==> (c matches Command::List { rules_path } && rules_path@
            == args@[1]@),
        args@[0]@ == "reload"@ ==> (c matches Command::Reload { pidfile } && pidfile@
            == args@[1]@),
        args@[0]@ == "status"@ ==> (c matches Command::Status { pidfile } && pidfile@
            == args@[1]@),
{
    names_differ();
    let all = texts(args@);
    assert(all[0] == args@[0]@);
    assert(all[1] == args@[1]@);
}

/// Without a place it goes to that of the daemon.
pub proof fn command_goes_to_the_daemon(args: Vec<String>, c: Command)
    requires
        call_ensures(parse_command, (&args,), c),
        args@.len() == 1,
    ensures
        args@[0]@ == "dump"@ ==> (c matches Command::Dump { socket } && socket@
            == "/run/filewall/control.sock"@),
        args@[0]@ == "list"@ ==> (c matches Command::List { rules_path } && rules_path@
            == "/var/lib/filewall/rules.toml"@),
        args@[0]@ == "reload"@ ==> (c matches Command::Reload { pidfile } && pidfile@
            == "/run/filewall/filewalld.pid"@),
        args@[0]@ == "status"@ ==> (c matches Command::Status { pidfile } && pidfile@
            == "/run/filewall/filewalld.pid"@),
        args@[0]@ == "remove"@ ==> c is RemoveWhat,
{
    names_differ();
    let all = texts(args@);
    assert(all[0] == args@[0]@);
}

/// A removal takes the position that was written, and the file behind it.
pub proof fn removal_takes_the_position(args: Vec<String>, c: Command, n: usize)
    requires
        call_ensures(parse_command, (&args,), c),
        args@.len() > 1,
        args@[0]@ == "remove"@,
        args@[1]@ == dec(n as nat),
    ensures
        c matches Command::Remove { index, rules_path } && index == n && (args@.len() == 2
            ==> rules_path@ == "/var/lib/filewall/rules.toml"@) && (args@.len() > 2 ==> rules_path@
            == args@[2]@),
{
    names_differ();
    decimal_is_read_back(n as nat);
    let all = texts(args@);
    assert(all[0] == args@[0]@);
    assert(all[1] == args@[1]@);
    if args@.len() > 2 {
        assert(all[2] == args@[2]@);
    }
}

/// Anything else is no command, and neither is nothing; what is done is what was named.
pub proof fn command_was_named(args: Vec<String>, c: Command)
    requires
        call_ensures(parse_command, (&args,), c),
    ensures
        args@.len() == 0 ==> c is Usage,
        c is Dump ==> args@[0]@ == "dump"@,
        c is List ==> args@[0]@ == "list"@,
        c is Remove ==> args@[0]@ == "remove"@,
        c is RemoveWhat ==> args@[0]@ == "remove"@,
        c is Reload ==> args@[0]@ == "reload"@,
        c is Status ==> args@[0]@ == "status"@,
        c is Usage && args@.len() > 0 ==> args@[0]@ != "dump"@ && args@[0]@ != "list"@ && args@[0]@
            != "remove"@ && args@[0]@ != "reload"@ && args@[0]@ != "status"@,
{
    let all = texts(args@);
    if args@.len() > 0 {
        assert(all[0] == args@[0]@);
    }
}

/// A removal asks for the other rules to be saved, unchanged and in order, and reports
/// the one that was at that position.
pub proof fn removal_spares_the_others(
    rules: Rules,
    index: usize,
    format: Format,
    step: RemoveStep,
    j: int,
)
    requires
        call_ensures(cmd_remove, (rules, index, format), step),
        0 <= j < rules.rules@.len(),
    ensures
        step is Save <==> index < rules.rules@.len(),
        step is End <==> index >= rules.rules@.len(),
        step matches RemoveStep::Save { rules: kept, removing } ==> kept.rules@.len() + 1
            == rules.rules@.len() && removing.removed == rules.rules@[index as int]
            && removing.index == index && removing.format == format && (j < index ==> kept.rules@[j]
            == rules.rules@[j]) && (j > index ==> kept.rules@[j - 1] == rules.rules@[j]),
        step matches RemoveStep::End(end) ==> !end.success,
{
}

/// What is reported of a removal names the rule, and a daemon only if the signal reached
/// it.
pub proof fn removal_reports_who_was_told(
    removing: Removing,
    pid: i32,
    sent: Result<(), String>,
    end: CmdEnd,
)
    requires
        call_ensures(Removing::then_sent, (removing, pid, sent), end),
    ensures
        end.success,
        removing.format == Format::Table ==> (end.report matches Report::Line(s) && s@ == "Removed "@
            + ("["@ + dec(removing.index as nat) + "] "@ + removing.removed.exe@ + " -> "@ + shown(
            removing.removed.object@,
        ))),
        removing.format != Format::Table ==> (end.report matches Report::Ack(a) && a.ok && (a.pid
            == Some(pid) <==> sent is Ok) && (a.pid is None <==> sent is Err) && a.detail@
            == "removed "@ + ("["@ + dec(removing.index as nat) + "] "@ + removing.removed.exe@
            + " -> "@ + shown(removing.removed.object@))),
{
}

/// A removal goes on to the daemon only once the rules are saved, and signals only the
/// process that the PID file names.
pub proof fn removal_goes_on_after_saving(
    removing: Removing,
    saved: Result<(), String>,
    path: FilePath,
    second: RemoveStep,
    pid: i32,
    read: Result<String, String>,
    third: RemoveStep,
)
    requires
        call_ensures(Removing::then_saved, (removing, saved, &path), second),
        call_ensures(Removing::then_read, (removing, &read), third),
        pid >= 0,
    ensures
        saved is Ok ==> second == RemoveStep::ReadPidfile(removing),
        saved is Err ==> (second matches RemoveStep::End(end) && !end.success),
        read is Err ==> (third matches RemoveStep::End(end) && end.success),
        read is Ok && read->Ok_0@ == dec(pid as nat).push('\n') ==> third == (RemoveStep::Signal {
            pid,
            removing,
        }),
        third is Save ==> false,
        third is ReadPidfile ==> false,
{
    pidfile_is_read_back(pid as nat);
}

/// A reload signals the process that the PID file names, and succeeds exactly if that
/// reached it.
pub proof fn reload_tells_the_daemon(
    pid: i32,
    read: Result<String, String>,
    pidfile: FilePath,
    found: Result<i32, String>,
    sent: Result<(), String>,
    told: Result<i32, String>,
    format: Format,
    end: CmdEnd,
)
    requires
        call_ensures(pid_to_signal, (&read, &pidfile), found),
        call_ensures(send_sighup, (pid, sent), told),
        call_ensures(cmd_reload, (told, format), end),
        pid >= 0,
    ensures
        read is Err ==> found is Err,
        read is Ok && read->Ok_0@ == dec(pid as nat).push('\n') ==> found == Ok::<i32, String>(pid),
        told is Ok <==> sent is Ok,
        told is Ok ==> told->Ok_0 == pid,
        end.success <==> sent is Ok,
        format != Format::Table ==> (end.report matches Report::Ack(a) && (a.ok <==> sent is Ok) && (
        a.pid == Some(pid) <==> sent is Ok) && (a.pid is None <==> sent is Err)),
        format == Format::Table && sent is Ok ==> (end.report matches Report::Line(s) && s@
            == "Sent SIGHUP to filewalld (pid "@ + dec(pid as nat) + ")"@),
        format == Format::Table && sent is Err ==> (end.report matches Report::ErrLine(s) && s@
            == "filewallctl: "@ + ("reload failed: "@ + ("kill "@ + dec(pid as nat) + ": "@ + (
        sent->Err_0)@))),
{
    pidfile_is_read_back(pid as nat);
}

/// Only a table is printed as text; in the other formats the command's value is
/// encoded, and failures too.
pub proof fn output_has_the_format(
    rules: Rules,
    path: FilePath,
    listed: CmdEnd,
    report: StatusReport,
    status: CmdEnd,
    answer: Result<DumpResponse, String>,
    dumped: CmdEnd,
    format: Format,
)
    requires
        call_ensures(cmd_list, (&rules, &path, format), listed),
        call_ensures(cmd_status, (&report, format), status),
        call_ensures(cmd_dump, (&answer, &path, format), dumped),
    ensures
        listed.success,
        status.success <==> report.running,
        dumped.success <==> answer is Ok,
        format != Format::Table ==> listed.report is Value && status.report is Value,
        format != Format::Table ==> (dumped.report is Value <==> answer is Ok) && (
        dumped.report is Error <==> answer is Err),
        format == Format::Table ==> (listed.report is Line <==> rules.rules@.len() == 0) && (
        listed.report is Text <==> rules.rules@.len() > 0) && status.report is Line,
        format == Format::Table ==> (dumped.report is Text <==> answer is Ok) && (
        dumped.report is ErrLine <==> answer is Err),
{
}

/// A failed dump says where the daemon was looked for and why it did not answer.
pub proof fn failed_dump_says_why(
    answer: Result<DumpResponse, String>,
    socket: FilePath,
    format: Format,
    end: CmdEnd,
)
    requires
        call_ensures(cmd_dump, (&answer, &socket, format), end),
        answer is Err,
    ensures
        ({
            let said = "could not query daemon on "@ + shown(socket@) + " ("@ + (answer->Err_0)@
                + "); is filewalld running?"@;
            &&& format == Format::Table ==> (end.report matches Report::ErrLine(s) && s@
                == "filewallctl: "@ + said)
            &&& format != Format::Table ==> (end.report matches Report::Error(s) && s@ == said)
        }),
{
}

/// A message goes to the error output under the program's name, or is encoded as it is.
pub proof fn messages_are_said(format: Format, msg: String, r: Report, reason: &str, end: CmdEnd)
    requires
        call_ensures(emit_error, (format, msg), r),
        call_ensures(render_failed, (reason,), end),
    ensures
        format == Format::Table ==> (r matches Report::ErrLine(s) && s@ == "filewallctl: "@ + msg@),
        format != Format::Table ==> (r matches Report::Error(s) && s@ == msg@),
        !end.success,
        end.report matches Report::ErrLine(s) && s@ == "filewallctl: "@ + ("render failed: "@
            + reason@),
{
}

/// A removal that fails says why: there is no such rule, or the rules cannot be written.
pub proof fn failed_removal_says_why(
    rules: Rules,
    index: usize,
    format: Format,
    first: RemoveStep,
    removing: Removing,
    reason: String,
    path: FilePath,
    second: RemoveStep,
)
    requires
        call_ensures(cmd_remove, (rules, index, format), first),
        index >= rules.rules@.len(),
        call_ensures(Removing::then_saved, (removing, Err::<(), String>(reason), &path), second),
    ensures
        format == Format::Table ==> (first matches RemoveStep::End(end) && (
        end.report matches Report::ErrLine(s) && s@ == "filewallctl: "@ + ("no rule at index "@
            + dec(index as nat)))),
        format != Format::Table ==> (first matches RemoveStep::End(end) && (
        end.report matches Report::Ack(a) && !a.ok && a.pid is None && a.detail@
            == "no rule at index "@ + dec(index as nat))),
        removing.format == Format::Table ==> (second matches RemoveStep::End(end) && (
        end.report matches Report::ErrLine(s) && s@ == "filewallctl: "@ + ("could not write "@
            + shown(path@) + ": "@ + reason@))),
        removing.format != Format::Table ==> (second matches RemoveStep::End(end) && (
        end.report matches Report::Ack(a) && !a.ok && a.pid is None && a.detail@
            == "could not write "@ + shown(path@) + ": "@ + reason@)),
{
}

} // verus!
