use filewall::commands::{
    cmd_dump, cmd_list, cmd_reload, cmd_remove, cmd_status, emit_error, parse_command,
    pid_to_signal, render_failed, send_sighup, usage, CmdEnd, Command, RemoveStep, Report,
};
use filewall::ctl::{
    classify_liveness, dump_table, emit, list_table, parse_format, parse_pidfile, pidfile_text,
    remove_at, status_line, status_pid, status_report, DaemonState, Encoder, Format, Liveness,
};
use filewall::paths::FilePath;
use filewall::proto::{DumpResponse, ObjKind, WatchedObject};
use filewall::rules::{LearnedRule, ObjectKind, RuleAction, Rules};
use filewall::table::render_table;
use nix::errno::Errno;

fn v(args: &[&str]) -> Vec<String> {
    args.iter().map(|s| s.to_string()).collect()
}

fn rule(exe: &str) -> LearnedRule {
    LearnedRule {
        id: 0,
        created_unix: 0,
        action: RuleAction::Allow,
        exe: exe.into(),
        object: FilePath::new("/home/u/.ssh"),
        object_kind: ObjectKind::Tree,
        cwd: None,
    }
}

#[test]
fn default_is_table() {
    let (fmt, rest) = parse_format(&v(&["dump"]));
    assert_eq!(fmt, Format::Table);
    assert_eq!(rest, v(&["dump"]));
}

#[test]
fn json_flag_anywhere_is_extracted() {
    let (fmt, rest) = parse_format(&v(&["list", "--json", "/path"]));
    assert_eq!(fmt, Format::Json);
    assert_eq!(rest, v(&["list", "/path"]));
}

#[test]
fn last_flag_wins() {
    let (fmt, _) = parse_format(&v(&["--json", "dump", "--yaml"]));
    assert_eq!(fmt, Format::Yaml);
}

#[test]
fn yaml_flag() {
    let (fmt, rest) = parse_format(&v(&["status", "--yaml"]));
    assert_eq!(fmt, Format::Yaml);
    assert_eq!(rest, v(&["status"]));
}

#[test]
fn table_flag_takes_back_another() {
    let (fmt, rest) = parse_format(&v(&["--json", "--table"]));
    assert_eq!(fmt, Format::Table);
    assert!(rest.is_empty());
}

#[test]
fn parse_pidfile_trims_and_parses() {
    assert_eq!(parse_pidfile("4242\n").unwrap(), 4242);
    assert!(parse_pidfile("not-a-pid").is_none());
}

#[test]
fn pidfile_edges() {
    assert_eq!(parse_pidfile("  \t-12\u{a0}\n"), Some(-12));
    assert_eq!(parse_pidfile("+7"), Some(7));
    assert_eq!(parse_pidfile("2147483647"), Some(i32::MAX));
    assert_eq!(parse_pidfile("-2147483648"), Some(i32::MIN));
    assert_eq!(parse_pidfile("2147483648"), None);
    assert_eq!(parse_pidfile(""), None);
    assert_eq!(parse_pidfile("-"), None);
    assert_eq!(parse_pidfile("1 2"), None);
}

#[test]
fn pidfile_write_has_trailing_newline() {
    let written = pidfile_text(4242);
    assert_eq!(written, "4242\n");
    // The control program parses this with a trim and a parse, which must succeed.
    assert_eq!(written.trim().parse::<i32>().unwrap(), 4242);
    assert_eq!(parse_pidfile(&written), Some(4242));
}

#[test]
fn remove_at_removes_in_range() {
    let mut rs = Rules::default();
    rs.push(rule("/usr/bin/a"));
    rs.push(rule("/usr/bin/b"));
    let removed = remove_at(&mut rs, 0).unwrap();
    assert_eq!(removed.exe, "/usr/bin/a");
    assert_eq!(rs.rules.len(), 1);
    assert_eq!(rs.rules[0].exe, "/usr/bin/b");
}

#[test]
fn remove_at_out_of_range_is_none() {
    let mut rs = Rules::default();
    rs.push(rule("/usr/bin/a"));
    assert!(remove_at(&mut rs, 5).is_none());
    assert_eq!(rs.rules.len(), 1);
}

#[test]
fn eperm_means_running_not_stale() {
    // Daemon owned by another user (root) — exists but unsignalable.
    assert_eq!(classify_liveness(Err(Errno::EPERM as i32)), Liveness::Running);
}

#[test]
fn esrch_means_stale() {
    assert_eq!(classify_liveness(Err(Errno::ESRCH as i32)), Liveness::Stale);
}

#[test]
fn ok_means_running() {
    assert_eq!(classify_liveness(Ok(())), Liveness::Running);
}

#[test]
fn other_errno_is_unknown() {
    assert_eq!(
        classify_liveness(Err(Errno::EINVAL as i32)),
        Liveness::Unknown(Errno::EINVAL as i32)
    );
}

#[test]
fn list_table_renders_aligned_columns() {
    let mut rs = Rules::default();
    rs.push(rule("/usr/bin/ssh"));
    let out = list_table(&rs.rules, &FilePath::new("/var/lib/filewall/rules.toml"));
    let lines: Vec<&str> = out.lines().collect();
    // Header row with the expected columns.
    assert!(lines[0].starts_with("IDX  ACTION"));
    assert!(lines[0].contains("OBJECT"));
    // Data row: index 0, lowercased action/kind, the exe and object.
    assert!(lines[1].starts_with("0    allow"));
    assert!(lines[1].contains("/usr/bin/ssh"));
    assert!(lines[1].contains("/home/u/.ssh"));
    assert!(lines[1].contains("tree"));
    // Trailing summary line.
    assert!(out.contains("1 rule(s) (/var/lib/filewall/rules.toml)"));
}

fn sample_dump() -> DumpResponse {
    DumpResponse {
        pid: 7,
        generated_unix: 0,
        objects: vec![
            WatchedObject {
                path: "/home/u/.ssh".into(),
                kind: ObjKind::Dir,
                recursive: true,
                watch: "/home/u/.ssh".into(),
                fanotify: true,
                live_marked: Some(true),
            },
            WatchedObject {
                path: "/home/u/.vault-token".into(),
                kind: ObjKind::File,
                recursive: false,
                watch: "/home/u/.vault-token".into(),
                fanotify: true,
                live_marked: None,
            },
        ],
    }
}

#[test]
fn dump_table_renders_objects_with_health() {
    let out = dump_table(&sample_dump());
    assert!(out.contains("PATH"));
    assert!(out.contains("/home/u/.ssh"));
    assert!(out.contains("dir"));
    // File live_marked None renders as "-", healthy dir as "yes".
    assert!(out.contains("yes"));
    assert!(out.contains('-'));
}

#[test]
fn dump_table_is_exact() {
    let out = dump_table(&sample_dump());
    assert_eq!(
        out,
        "PATH                  KIND  RECURSIVE  FANOTIFY  LIVE  WATCH\n\
         /home/u/.ssh          dir   yes        yes       yes   /home/u/.ssh\n\
         /home/u/.vault-token  file  no         yes       -     /home/u/.vault-token\n\
         \n2 object(s) (pid 7)\n"
    );
}

#[test]
fn table_aligns_columns_and_has_header() {
    let rows = vec![
        vec!["/a".to_string(), "dir".to_string()],
        vec!["/longer/path".to_string(), "file".to_string()],
    ];
    let out = render_table(&["PATH", "KIND"], &rows);
    let lines: Vec<&str> = out.lines().collect();
    assert_eq!(lines[0], "PATH          KIND");
    assert_eq!(lines[1], "/a            dir");
    assert_eq!(lines[2], "/longer/path  file");
}

#[test]
fn table_widths_count_bytes() {
    // The cell takes four bytes and two characters.
    let rows = vec![v(&["\u{e9}\u{e9}", "x"]), v(&["only"]), v(&["a", "b", "extra"])];
    let out = render_table(&["A", "B"], &rows);
    assert_eq!(out, "A     B\n\u{e9}\u{e9}    x\nonly\na     b\n");
    assert_eq!(render_table(&[], &[]), "\n");
}

#[test]
fn only_values_are_encoded() {
    assert_eq!(emit(Format::Json), Ok(Encoder::Json));
    assert_eq!(emit(Format::Yaml), Ok(Encoder::Yaml));
    assert_eq!(emit(Format::Table), Err("emit() called with Format::Table".to_string()));
}

#[test]
fn status_goes_by_pidfile_and_probe() {
    assert_eq!(status_pid(&None).unwrap_err().state, DaemonState::NoPidfile);
    let bad = status_pid(&Some("x".to_string())).unwrap_err();
    assert_eq!(bad.state.text(), "bad-pidfile");
    assert_eq!(status_pid(&Some("42\n".to_string())), Ok(42));
    let up = status_report(42, Ok(()));
    assert!(up.running);
    assert_eq!(status_line(&up), "filewalld: running (pid 42)");
    let gone = status_report(42, Err(Errno::ESRCH as i32));
    assert_eq!(status_line(&gone), "filewalld: not running (stale pid 42)");
    let odd = status_report(-1, Err(Errno::EINVAL as i32));
    assert!(!odd.running);
    assert_eq!(status_line(&odd), "filewalld: unknown (pid -1)");
    assert_eq!(status_line(&bad), "filewalld: unknown (bad pidfile)");
    let end = cmd_status(&up, Format::Table);
    assert!(end.success);
    assert!(matches!(end.report, Report::Line(s) if s == "filewalld: running (pid 42)"));
    let end = cmd_status(&gone, Format::Json);
    assert!(!end.success);
    assert!(matches!(end.report, Report::Value));
}

#[test]
fn commands_are_read() {
    assert!(matches!(parse_command(&v(&[])), Command::Usage));
    assert!(matches!(parse_command(&v(&["what"])), Command::Usage));
    assert!(matches!(
        parse_command(&v(&["dump"])),
        Command::Dump { socket } if socket == "/run/filewall/control.sock"
    ));
    assert!(matches!(
        parse_command(&v(&["list", "/r"])),
        Command::List { rules_path } if rules_path == "/r"
    ));
    assert!(matches!(
        parse_command(&v(&["remove", "3"])),
        Command::Remove { index: 3, rules_path } if rules_path == "/var/lib/filewall/rules.toml"
    ));
    assert!(matches!(parse_command(&v(&["remove"])), Command::RemoveWhat));
    assert!(matches!(parse_command(&v(&["remove", "x"])), Command::RemoveWhat));
    assert!(matches!(
        parse_command(&v(&["reload"])),
        Command::Reload { pidfile } if pidfile == "/run/filewall/filewalld.pid"
    ));
    assert!(matches!(
        parse_command(&v(&["status", "/p"])),
        Command::Status { pidfile } if pidfile == "/p"
    ));
    assert!(usage().starts_with("usage:\n  filewallctl "));
}

#[test]
fn listing_no_rules_says_so() {
    let rules = Rules::default();
    let end = cmd_list(&rules, &FilePath::new("/r"), Format::Table);
    assert!(end.success);
    assert!(matches!(end.report, Report::Line(s) if s == "No learned rules (/r)"));
    assert!(matches!(cmd_list(&rules, &FilePath::new("/r"), Format::Yaml).report, Report::Value));
}

/// Runs a removal; gives what was saved, who was signalled, and the end.
fn remove(
    rules: Rules,
    index: usize,
    format: Format,
    saved: Result<(), String>,
    read: Result<String, String>,
    sent: Result<(), String>,
) -> (Vec<Rules>, Vec<i32>, CmdEnd) {
    let mut kept = Vec::new();
    let mut told = Vec::new();
    let mut step = cmd_remove(rules, index, format);
    loop {
        step = match step {
            RemoveStep::Save { rules, removing } => {
                kept.push(rules);
                removing.then_saved(saved.clone(), &FilePath::new("/r"))
            }
            RemoveStep::ReadPidfile(removing) => removing.then_read(&read),
            RemoveStep::Signal { pid, removing } => {
                told.push(pid);
                RemoveStep::End(removing.then_sent(pid, sent.clone()))
            }
            RemoveStep::End(end) => return (kept, told, end),
        };
    }
}

fn three_rules() -> Rules {
    let mut rs = Rules::default();
    rs.push(rule("/usr/bin/a"));
    rs.push(rule("/usr/bin/b"));
    rs.push(rule("/usr/bin/c"));
    rs
}

#[test]
fn removal_is_saved_and_then_told() {
    let pid = Ok("9\n".to_string());
    let (kept, told, end) = remove(three_rules(), 1, Format::Yaml, Ok(()), pid.clone(), Ok(()));
    assert_eq!(kept.len(), 1);
    let exes: Vec<&str> = kept[0].rules.iter().map(|r| r.exe.as_str()).collect();
    assert_eq!(exes, vec!["/usr/bin/a", "/usr/bin/c"]);
    assert_eq!(kept[0].next_id, 4);
    assert_eq!(told, vec![9]);
    assert!(end.success);
    assert!(matches!(
        end.report,
        Report::Ack(a) if a.ok && a.pid == Some(9)
            && a.detail == "removed [1] /usr/bin/b -> /home/u/.ssh"
    ));
    let (_, told, end) = remove(three_rules(), 0, Format::Table, Ok(()), pid, Ok(()));
    assert_eq!(told, vec![9]);
    assert!(end.success);
    assert!(
        matches!(end.report, Report::Line(s) if s == "Removed [0] /usr/bin/a -> /home/u/.ssh")
    );
}

#[test]
fn removal_without_a_rule_saves_and_tells_nothing() {
    let pid = Ok("9".to_string());
    let (kept, told, end) = remove(three_rules(), 3, Format::Table, Ok(()), pid.clone(), Ok(()));
    assert!(kept.is_empty() && told.is_empty());
    assert!(!end.success);
    assert!(matches!(end.report, Report::ErrLine(s) if s == "filewallctl: no rule at index 3"));
    let (kept, told, end) = remove(Rules::default(), 0, Format::Json, Ok(()), pid, Ok(()));
    assert!(kept.is_empty() && told.is_empty());
    assert!(!end.success);
    assert!(matches!(
        end.report,
        Report::Ack(a) if !a.ok && a.pid.is_none() && a.detail == "no rule at index 0"
    ));
}

#[test]
fn unsaved_removal_tells_nobody() {
    let pid = Ok("9".to_string());
    let full = Err("full".to_string());
    let (kept, told, end) =
        remove(three_rules(), 2, Format::Json, full.clone(), pid.clone(), Ok(()));
    assert_eq!(kept[0].rules.len(), 2);
    assert!(told.is_empty());
    assert!(!end.success);
    assert!(
        matches!(end.report, Report::Ack(a) if !a.ok && a.detail == "could not write /r: full")
    );
    let (_, _, end) = remove(three_rules(), 2, Format::Table, full, pid, Ok(()));
    assert!(
        matches!(end.report, Report::ErrLine(s) if s == "filewallctl: could not write /r: full")
    );
}

#[test]
fn removal_stands_when_nobody_can_be_told() {
    for read in [Err("gone".to_string()), Ok("?".to_string())] {
        let (kept, told, end) = remove(three_rules(), 0, Format::Json, Ok(()), read, Ok(()));
        assert_eq!(kept.len(), 1);
        assert!(told.is_empty());
        assert!(end.success);
        assert!(matches!(end.report, Report::Ack(a) if a.ok && a.pid.is_none()));
    }
    let lost = Err("no such process".to_string());
    let pid = Ok("9".to_string());
    let (_, told, end) = remove(three_rules(), 0, Format::Json, Ok(()), pid, lost);
    assert_eq!(told, vec![9]);
    assert!(end.success);
    assert!(matches!(end.report, Report::Ack(a) if a.ok && a.pid.is_none()));
}

#[test]
fn reload_is_reported() {
    let path = FilePath::new("/p");
    assert_eq!(pid_to_signal(&Ok("12\n".into()), &path), Ok(12));
    assert_eq!(pid_to_signal(&Ok("?".into()), &path), Err("invalid pidfile /p".into()));
    assert_eq!(pid_to_signal(&Err("gone".into()), &path), Err("reading /p: gone".into()));
    assert_eq!(send_sighup(12, Ok(())), Ok(12));
    assert_eq!(send_sighup(-12, Err("no".into())), Err("kill -12: no".into()));
    let end = cmd_reload(Ok(12), Format::Table);
    assert!(matches!(end.report, Report::Line(s) if s == "Sent SIGHUP to filewalld (pid 12)"));
    let end = cmd_reload(Err("x".into()), Format::Table);
    assert!(!end.success);
    assert!(matches!(end.report, Report::ErrLine(s) if s == "filewallctl: reload failed: x"));
    let end = cmd_reload(Ok(12), Format::Json);
    assert!(matches!(end.report, Report::Ack(a) if a.ok && a.detail == "sent SIGHUP"));
}

#[test]
fn dump_failure_is_reported() {
    let path = FilePath::new("/s");
    let end = cmd_dump(&Err("refused".into()), &path, Format::Table);
    assert!(!end.success);
    assert!(matches!(
        end.report,
        Report::ErrLine(s)
            if s == "filewallctl: could not query daemon on /s (refused); is filewalld running?"
    ));
    let end = cmd_dump(&Ok(sample_dump()), &path, Format::Table);
    assert!(end.success);
    assert!(matches!(end.report, Report::Text(s) if s.ends_with("2 object(s) (pid 7)\n")));
    assert!(matches!(emit_error(Format::Json, "m".into()), Report::Error(s) if s == "m"));
    let end = render_failed("why");
    assert!(matches!(end.report, Report::ErrLine(s) if s == "filewallctl: render failed: why"));
}
