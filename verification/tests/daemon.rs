use filewall::access::{
    accessed_path, always_action, answer_window_ms, begin, concerns, judge, let_through,
    prompt_request, settle, settle_at, take_reload, try_settle, try_take_reload, wakeup, with_path,
    with_process, Stage, Wakeup,
};
use filewall::config::ConfigError;
use filewall::fanotify::{
    parse_events, response, ByteOrder, Event, FAN_EVENT_ON_CHILD, FAN_OPEN_PERM,
};
use filewall::markset::{build_dump, control_reply, MarkEntry, MarkSet, WatchMarks};
use filewall::paths::FilePath;
use filewall::policy::{Action, Outcome, Policy, WatchPolicy};
use filewall::process::{cmdline_file, cmdline_text, cwd_link, exe_link, fd_link, proc_cwd, proc_link_text};
use filewall::proto::{ControlRequest, Decision, ObjKind};
use filewall::rules::{LearnedRule, ObjectKind, RuleAction, Rules, StoreRead};
use filewall::scan::{candidates, dirs_to_mark, scan_watch, FileKind, ScanStart, Walk, WatchScan};
use filewall::store::{store_dir, temp_path};
use filewall::treewatch::{watch_mask, Growth, Notice, TreeWatch, IN_ISDIR, IN_Q_OVERFLOW};
use filewall::ui_link::{
    is_disconnect, prompt_recovering, try_accept, Accepted, IoErrorKind, Prompted, Step,
};
use filewall::watcher::{plan, PlanError};

fn path(p: &str) -> FilePath {
    FilePath::new(p)
}

fn watch(root: &str, allow: &[&str], kind: ObjectKind, exclude: &[&str]) -> WatchPolicy {
    let allow: Vec<String> = allow.iter().map(|s| s.to_string()).collect();
    let exclude: Vec<String> = exclude.iter().map(|s| s.to_string()).collect();
    match WatchPolicy::new(path(root), &allow, Action::Prompt, kind, true, &exclude) {
        Ok(w) => w,
        Err(e) => panic!("{e}"),
    }
}

fn policy() -> Policy {
    Policy::new(vec![watch(
        "/home/u/.ssh",
        &["/usr/bin/ssh"],
        ObjectKind::Tree,
        &["**/*.pub"],
    )])
}

fn event(mask: u64, pid: u32) -> Event {
    Event { mask, pid, fd: 5, pidfd: None }
}

fn dir_entry(ok: bool) -> MarkEntry {
    MarkEntry { kind: ObjKind::Dir, recursive: true, watch_root: path("/w"), ok }
}

#[test]
fn file_entry_reports_live_marked_none() {
    let mut ms = MarkSet::new();
    ms.record(
        &path("/w/token"),
        MarkEntry { kind: ObjKind::File, recursive: false, watch_root: path("/w"), ok: true },
    );
    let objs = build_dump(&ms, |_| true);
    assert_eq!(objs.len(), 1);
    assert_eq!(objs[0].kind, ObjKind::File);
    assert_eq!(objs[0].live_marked, None);
    assert!(objs[0].fanotify);
}

#[test]
fn healthy_dir_is_live_marked_true() {
    let mut ms = MarkSet::new();
    ms.record(&path("/w/sub"), dir_entry(true));
    let objs = build_dump(&ms, |_| true);
    assert_eq!(objs[0].live_marked, Some(true));
}

#[test]
fn dir_without_inotify_watch_is_live_marked_false() {
    // fanotify mark ok, but inotify add_watch failed (ENOSPC) -> coverage gap.
    let mut ms = MarkSet::new();
    ms.record(&path("/w/sub"), dir_entry(true));
    let objs = build_dump(&ms, |_| false);
    assert_eq!(objs[0].live_marked, Some(false));
    assert!(objs[0].fanotify);
}

#[test]
fn failed_mark_reports_fanotify_false() {
    let mut ms = MarkSet::new();
    ms.record(&path("/w/sub"), dir_entry(false));
    let objs = build_dump(&ms, |_| true);
    assert!(!objs[0].fanotify);
}

#[test]
fn output_is_sorted_by_path() {
    let mut ms = MarkSet::new();
    ms.record(&path("/w/b"), dir_entry(true));
    ms.record(&path("/w/a"), dir_entry(true));
    let objs = build_dump(&ms, |_| true);
    assert_eq!(objs[0].path, "/w/a");
    assert_eq!(objs[1].path, "/w/b");
}

#[test]
fn marks_are_kept_by_path_not_spelling() {
    let mut ms = MarkSet::new();
    ms.record(&path("/w/a-b"), dir_entry(true));
    ms.record(&path("/w/a/z"), dir_entry(true));
    ms.record(&path("/w/a"), dir_entry(true));
    ms.record(&path("/w//a/."), dir_entry(false));
    let objs = build_dump(&ms, |p| p.same_as(&path("/w/a")));
    let paths: Vec<&str> = objs.iter().map(|o| o.path.as_str()).collect();
    // Component order: everything below a directory follows it at once.
    assert_eq!(paths, vec!["/w/a", "/w/a/z", "/w/a-b"]);
    assert!(!objs[0].fanotify);
    assert_eq!(objs[0].live_marked, Some(true));
    assert_eq!(objs[1].live_marked, Some(false));
    ms.clear();
    assert!(build_dump(&ms, |_| true).is_empty());
}

#[test]
fn rebuilding_records_every_attempt() {
    let mut ms = MarkSet::new();
    ms.record(&path("/old"), dir_entry(true));
    let n = ms.rebuild(&vec![
        WatchMarks {
            root: path("/f"),
            scan: WatchScan::File(path("/f")),
            ok: vec![true],
        },
        WatchMarks {
            root: path("/d"),
            scan: WatchScan::Dir(vec![path("/d"), path("/d/x")]),
            ok: vec![true, false],
        },
        WatchMarks { root: path("/gone"), scan: WatchScan::Unresolved, ok: Vec::new() },
    ]);
    assert_eq!(n, 2);
    let reply = control_reply(ControlRequest::Dump, 7, 99, &ms, |_| true);
    assert_eq!(reply.pid, 7);
    assert_eq!(reply.generated_unix, 99);
    assert_eq!(reply.objects.len(), 3);
    assert_eq!(reply.objects[1].path, "/d/x");
    assert!(!reply.objects[1].fanotify);
    assert!(reply.objects[0].recursive);
    assert_eq!(reply.objects[2].kind, ObjKind::File);
    assert!(!reply.objects[2].recursive);
    assert_eq!(reply.objects[2].watch, "/f");
}

#[test]
fn is_disconnect_classifies_kinds() {
    for kind in [
        IoErrorKind::BrokenPipe,
        IoErrorKind::UnexpectedEof,
        IoErrorKind::ConnectionReset,
        IoErrorKind::ConnectionAborted,
        IoErrorKind::NotConnected,
    ] {
        assert!(is_disconnect(kind), "{kind:?} should be a disconnect");
    }
    // A read timeout (WouldBlock on Unix) is NOT a disconnect: keep the link.
    for kind in [IoErrorKind::WouldBlock, IoErrorKind::TimedOut] {
        assert!(!is_disconnect(kind), "{kind:?} should not be a disconnect");
    }
}

#[test]
fn try_accept_none_when_no_client() {
    assert_eq!(try_accept(Err(IoErrorKind::WouldBlock)), Accepted::Nobody);
    assert_eq!(try_accept(Ok(())), Accepted::Link);
    assert_eq!(
        try_accept(Err(IoErrorKind::Other)),
        Accepted::Failed(IoErrorKind::Other)
    );
}

fn drive(held: bool, accepts: &[Accepted], prompts: &[Prompted]) -> (Prompted, bool, usize, usize) {
    let (mut a, mut p) = (0, 0);
    let mut step = prompt_recovering(held);
    loop {
        match step {
            Step::Accept(s) => {
                step = s.then_accepted(accepts[a]);
                a += 1;
            }
            Step::Prompt(s) => {
                step = s.then_prompted(prompts[p]);
                p += 1;
            }
            Step::Return { result, held } => return (result, held, a, p),
        }
    }
}

#[test]
fn stale_link_is_replaced_for_the_same_access() {
    let dead = Prompted::Failed(IoErrorKind::BrokenPipe);
    let yes = Prompted::Answer(Decision::AllowOnce);
    assert_eq!(drive(true, &[Accepted::Link], &[dead, yes]), (yes, true, 1, 2));
    // Still dead after the retry.
    assert_eq!(drive(true, &[Accepted::Link], &[dead, dead]), (dead, false, 1, 2));
    // Nobody to replace it.
    let nobody = Prompted::Failed(IoErrorKind::NotConnected);
    assert_eq!(drive(true, &[Accepted::Nobody], &[dead]), (nobody, false, 1, 1));
    assert_eq!(
        drive(false, &[Accepted::Nobody, Accepted::Nobody], &[]),
        (nobody, false, 2, 0)
    );
}

#[test]
fn timeout_keeps_the_link_held() {
    let late = Prompted::Failed(IoErrorKind::WouldBlock);
    assert_eq!(drive(true, &[], &[late]), (late, true, 0, 1));
    assert_eq!(
        drive(false, &[Accepted::Failed(IoErrorKind::Other)], &[]),
        (Prompted::Failed(IoErrorKind::Other), false, 1, 0)
    );
}

#[test]
fn proc_cwd_unknown_pid_is_placeholder() {
    assert_eq!(proc_cwd(&None), "<unresolved>");
    assert_eq!(proc_link_text(&Some(path("/usr/bin/node"))), "/usr/bin/node");
}

#[test]
fn malformed_names_are_shown_replaced() {
    let odd = FilePath::from_bytes(vec![b'/', 0xff, b'x']);
    assert_eq!(odd.display(), "/\u{fffd}x");
}

#[test]
fn proc_entries_are_named_by_number() {
    assert_eq!(fd_link(12), "/proc/self/fd/12");
    assert_eq!(exe_link(0), "/proc/0/exe");
    assert_eq!(cwd_link(4321), "/proc/4321/cwd");
    assert_eq!(cmdline_file(10), "/proc/10/cmdline");
}

#[test]
fn cmdline_is_joined_with_spaces() {
    assert_eq!(cmdline_text(&None), "");
    assert_eq!(cmdline_text(&Some(Vec::new())), "");
    assert_eq!(cmdline_text(&Some(b"node\0app.js\0".to_vec())), "node app.js");
    assert_eq!(cmdline_text(&Some(b"\0a\0\0b c".to_vec())), "a b c");
}

fn head(len: u32, head_len: u16, mask: u64, fd: i32, pid: i32) -> Vec<u8> {
    let mut b = Vec::new();
    b.extend_from_slice(&len.to_le_bytes());
    b.extend_from_slice(&[3, 0]);
    b.extend_from_slice(&head_len.to_le_bytes());
    b.extend_from_slice(&mask.to_le_bytes());
    b.extend_from_slice(&fd.to_le_bytes());
    b.extend_from_slice(&pid.to_le_bytes());
    b
}

fn info(kind: u8, len: u16, pidfd: i32) -> Vec<u8> {
    let mut b = vec![kind, 0];
    b.extend_from_slice(&len.to_le_bytes());
    b.extend_from_slice(&pidfd.to_le_bytes());
    b
}

#[test]
fn events_are_read_in_order() {
    let mut b = head(32, 24, FAN_OPEN_PERM, 7, 1234);
    b.extend(info(4, 8, 9));
    b.extend(head(24, 24, 1, -1, -2));
    let n = b.len();
    let evs = parse_events(&b, n, ByteOrder::Little);
    assert_eq!(
        evs,
        vec![
            Event { mask: FAN_OPEN_PERM, pid: 1234, fd: 7, pidfd: Some(9) },
            Event { mask: 1, pid: u32::MAX - 1, fd: -1, pidfd: None },
        ]
    );
    assert!(evs[0].is_open_perm());
    assert!(evs[0].has_pidfd());
    assert!(!evs[1].is_open_perm());
    assert_eq!(FAN_EVENT_ON_CHILD, 0x0800_0000);
}

#[test]
fn bytes_behind_the_read_ones_do_not_count() {
    let mut b = head(32, 24, FAN_OPEN_PERM, 7, 1234);
    b.extend(info(4, 8, 9));
    b.extend(head(24, 24, 1, 8, 2));
    let evs = parse_events(&b, 32, ByteOrder::Little);
    assert_eq!(evs, vec![Event { mask: FAN_OPEN_PERM, pid: 1234, fd: 7, pidfd: Some(9) }]);
}

#[test]
fn cut_or_broken_events_end_the_reading() {
    let mut b = head(24, 24, 1, 7, 1);
    b.extend(head(40, 24, 1, 8, 2));
    let n = b.len();
    assert_eq!(parse_events(&b, n, ByteOrder::Little).len(), 1);
    assert_eq!(parse_events(&b, 23, ByteOrder::Little).len(), 0);
    let short = head(8, 24, 1, 7, 1);
    assert!(parse_events(&short, 24, ByteOrder::Little).is_empty());
}

#[test]
fn info_records_of_other_kinds_are_skipped() {
    let mut b = head(40, 24, 1, 7, 1);
    b.extend(info(1, 8, 77));
    b.extend(info(4, 0, -1));
    assert_eq!(parse_events(&b, 40, ByteOrder::Little)[0].pidfd, None);
    let mut c = head(32, 24, 1, 7, 1);
    c.extend(info(4, 0, 6));
    assert_eq!(parse_events(&c, 32, ByteOrder::Little)[0].pidfd, Some(6));
}

#[test]
fn big_endian_events_are_read() {
    let mut b = Vec::new();
    b.extend_from_slice(&24u32.to_be_bytes());
    b.extend_from_slice(&[3, 0]);
    b.extend_from_slice(&24u16.to_be_bytes());
    b.extend_from_slice(&FAN_OPEN_PERM.to_be_bytes());
    b.extend_from_slice(&5i32.to_be_bytes());
    b.extend_from_slice(&6i32.to_be_bytes());
    let evs = parse_events(&b, 24, ByteOrder::Big);
    assert_eq!(evs, vec![Event { mask: FAN_OPEN_PERM, pid: 6, fd: 5, pidfd: None }]);
}

#[test]
fn response_names_descriptor_and_verdict() {
    let ev = event(FAN_OPEN_PERM, 1);
    assert_eq!(response(&ev, true, ByteOrder::Little), vec![5, 0, 0, 0, 1, 0, 0, 0]);
    assert_eq!(response(&ev, false, ByteOrder::Big), vec![0, 0, 0, 5, 0, 0, 0, 2]);
    let neg = Event { mask: 0, pid: 0, fd: -2, pidfd: None };
    assert_eq!(response(&neg, false, ByteOrder::Little), vec![254, 255, 255, 255, 2, 0, 0, 0]);
}

#[test]
fn own_and_other_events_pass() {
    assert!(concerns(&event(FAN_OPEN_PERM, 1), 2));
    assert_eq!(begin(&event(FAN_OPEN_PERM, 2), 2), Stage::Answer { allow: true });
    assert_eq!(begin(&event(1, 1), 2), Stage::Answer { allow: true });
    assert_eq!(begin(&event(FAN_OPEN_PERM, 1), 2), Stage::NeedPath);
}

#[test]
fn excluded_files_pass_without_a_prompt() {
    let p = policy();
    assert!(let_through(&p, &path("/home/u/.ssh/id.pub")));
    assert_eq!(with_path(&p, &path("/home/u/.ssh/id.pub")), Stage::Answer { allow: true });
    assert_eq!(with_path(&p, &path("/home/u/.ssh/id")), Stage::NeedProcess);
    // Excludes of a watch say nothing of paths it does not govern.
    assert!(!let_through(&p, &path("/tmp/id.pub")));
}

#[test]
fn unresolved_path_is_not_governed() {
    let p = accessed_path(None);
    assert_eq!(p.display(), "<unknown>");
    assert_eq!(accessed_path(Some(path("/x"))).display(), "/x");
    assert_eq!(
        with_process(&policy(), &Rules::default(), &p, "/bin/x", "/"),
        Stage::Answer { allow: true }
    );
}

#[test]
fn unlisted_process_is_up_to_the_user() {
    let p = policy();
    let mut rules = Rules::default();
    let key = path("/home/u/.ssh/id");
    assert_eq!(with_process(&p, &rules, &key, "/usr/bin/ssh", "/"), Stage::Answer { allow: true });
    assert_eq!(with_process(&p, &rules, &key, "/usr/bin/node", "/w"), Stage::NeedUser);
    let req = prompt_request(&p, 9, "/usr/bin/node", "node x".to_string(), "/w", &key, 25_000);
    assert_eq!(req.always_object, "/home/u/.ssh");
    assert!(req.always_tree);
    assert!(req.always_cwd_pinned);
    assert_eq!(req.path, "/home/u/.ssh/id");
    assert_eq!(req.ui_timeout_ms, 25_000);
    // No answer denies and learns nothing.
    for kind in [IoErrorKind::WouldBlock, IoErrorKind::NotConnected, IoErrorKind::BrokenPipe] {
        let s = settle(&p, &mut rules, &key, "/usr/bin/node", "/w", Prompted::Failed(kind));
        assert!(!s.allow);
        assert!(!s.learned);
    }
    assert!(rules.rules.is_empty());
    // Once allows and learns nothing.
    let once = Prompted::Answer(Decision::AllowOnce);
    let s = settle(&p, &mut rules, &key, "/usr/bin/node", "/w", once);
    assert!(s.allow && !s.learned);
    // Always denies from now on, in the whole tree, from this directory.
    let never = Prompted::Answer(Decision::DenyAlways);
    let s = settle_at(50, &p, &mut rules, &key, "/usr/bin/node", "/w", never);
    assert!(!s.allow && s.learned);
    assert_eq!(rules.rules[0].id, 1);
    assert_eq!(rules.rules[0].created_unix, 50);
    assert_eq!(judge(&p, &rules, &path("/home/u/.ssh/other"), "/usr/bin/node", "/w"), Outcome::Deny);
    assert_eq!(judge(&p, &rules, &key, "/usr/bin/node", "/elsewhere"), Outcome::Prompt);
}

#[test]
fn uncovered_prompt_shows_just_the_file() {
    let req = prompt_request(&policy(), 1, "e", String::new(), "c", &path("/etc/x"), 0);
    assert_eq!(req.always_object, "/etc/x");
    assert!(!req.always_tree && !req.always_cwd_pinned);
    let mut rules = Rules::default();
    let always = Prompted::Answer(Decision::AllowAlways);
    let s = settle(&policy(), &mut rules, &path("/etc/x"), "e", "c", always);
    assert!(s.allow && !s.learned);
    assert!(rules.rules.is_empty());
}

#[test]
fn only_always_decisions_last() {
    assert_eq!(always_action(Decision::AllowAlways), Some(RuleAction::Allow));
    assert_eq!(always_action(Decision::DenyAlways), Some(RuleAction::Deny));
    assert_eq!(always_action(Decision::AllowOnce), None);
    assert_eq!(always_action(Decision::DenyOnce), None);
}

#[test]
fn one_shot_decisions_need_no_id() {
    let p = policy();
    let mut rules = Rules { next_id: u64::MAX, rules: Vec::new() };
    let once = Prompted::Answer(Decision::AllowOnce);
    let settled = settle(&p, &mut rules, &path("/home/u/.ssh/k"), "/bin/a", "/w", once);
    assert!(settled.allow && !settled.learned);
    let always = Prompted::Answer(Decision::DenyAlways);
    let settled = settle(&p, &mut rules, &path("/elsewhere"), "/bin/a", "/w", always);
    assert!(!settled.allow && !settled.learned);
    assert_eq!(rules.next_id, u64::MAX);
    assert!(rules.rules.is_empty());
}

#[test]
fn nothing_is_learned_without_an_id() {
    let p = policy();
    let key = path("/home/u/.ssh/k");
    let always = Prompted::Answer(Decision::AllowAlways);
    let mut rules = Rules { next_id: u64::MAX, rules: Vec::new() };
    assert!(try_settle(&p, &mut rules, &key, "/bin/a", "/w", always).is_none());
    assert!(rules.rules.is_empty());
    assert_eq!(rules.next_id, u64::MAX);
    let once = Prompted::Answer(Decision::AllowOnce);
    let settled = try_settle(&p, &mut rules, &key, "/bin/a", "/w", once).unwrap();
    assert!(settled.allow && !settled.learned);
    rules.next_id = u64::MAX - 1;
    let settled = try_settle(&p, &mut rules, &key, "/bin/a", "/w", always).unwrap();
    assert!(settled.allow && settled.learned);
    assert_eq!(rules.rules[0].id, u64::MAX - 1);
}

#[test]
fn reload_without_room_for_ids_changes_nothing() {
    let mut p = policy();
    let mut rules = Rules::default();
    let always = Prompted::Answer(Decision::AllowAlways);
    settle(&p, &mut rules, &path("/home/u/.ssh/k"), "/bin/a", "/w", always);
    let mut full = Rules::default();
    full.rules.push(LearnedRule {
        id: u64::MAX,
        created_unix: 0,
        action: RuleAction::Deny,
        exe: "/bin/z".to_string(),
        object: path("/z"),
        object_kind: ObjectKind::File,
        cwd: None,
    });
    let loaded = Ok((Policy::new(Vec::new()), StoreRead::Parsed(full)));
    assert!(try_take_reload(&mut p, &mut rules, loaded).is_none());
    assert_eq!(rules.rules[0].exe, "/bin/a");
    assert_eq!(p.watches().len(), 1);
    let loaded = Ok((Policy::new(Vec::new()), StoreRead::Missing));
    assert!(matches!(try_take_reload(&mut p, &mut rules, loaded), Some(Ok(()))));
    assert!(rules.rules.is_empty() && p.watches().is_empty());
}

#[test]
fn user_has_less_time_than_the_daemon() {
    assert_eq!(answer_window_ms(30), 25_000);
    assert_eq!(answer_window_ms(1), 500);
    assert_eq!(answer_window_ms(0), 0);
    assert_eq!(answer_window_ms(u64::MAX), u32::MAX);
}

#[test]
fn waking_up_is_read() {
    assert_eq!(wakeup(-1, 4, 0, 0, 0), Wakeup::Idle);
    assert_eq!(wakeup(-1, 9, 0, 0, 0), Wakeup::Fail);
    assert_eq!(wakeup(0, 0, 1, 1, 1), Wakeup::Idle);
    assert_eq!(
        wakeup(2, 0, 1, 0, 1),
        Wakeup::Ready { tree: false, control: true, accesses: true }
    );
}

#[test]
fn failed_reload_changes_nothing() {
    let mut p = policy();
    let mut rules = Rules::default();
    let always = Prompted::Answer(Decision::AllowAlways);
    settle(&p, &mut rules, &path("/home/u/.ssh/k"), "/bin/a", "/w", always);
    let r = take_reload(&mut p, &mut rules, Err(ConfigError::Parse("bad".to_string())));
    assert!(matches!(r, Err(ConfigError::Parse(_))));
    assert_eq!(rules.rules.len(), 1);
    assert_eq!(p.watches().len(), 1);
    let r = take_reload(&mut p, &mut rules, Ok((Policy::new(Vec::new()), StoreRead::Missing)));
    assert!(r.is_ok());
    assert!(rules.rules.is_empty());
    assert!(p.watches().is_empty());
}

fn walk_all(watch: &WatchPolicy, mut walk: Walk, fs: &[(&str, &[(&str, bool)])]) -> Vec<String> {
    while let Some(dir) = walk.next_dir() {
        let listing: &[(&str, bool)] = fs
            .iter()
            .find(|(d, _)| path(d).same_as(&dir))
            .map_or(&[], |(_, l)| *l);
        let names: Vec<FilePath> = listing.iter().map(|(n, _)| path(n)).collect();
        let kept = candidates(watch, &dir, &names);
        let is_dir: Vec<bool> = kept
            .iter()
            .map(|p| {
                listing.iter().any(|(n, d)| *d && dir.join(&path(n)).same_as(p))
            })
            .collect();
        walk.found(&kept, &is_dir);
    }
    walk.into_dirs().iter().map(|d| d.display()).collect()
}

#[test]
fn walk_finds_the_tree_without_what_is_excluded() {
    let w = watch("/t", &[], ObjectKind::File, &["**/Cache"]);
    let fs: &[(&str, &[(&str, bool)])] = &[
        ("/t", &[("keep.txt", false), ("Cache", true), ("sub", true)]),
        ("/t/Cache", &[("inner", true)]),
        ("/t/sub", &[("keep2.txt", false), ("deep", true)]),
    ];
    let start = match scan_watch(&w, Some(FileKind::Dir)) {
        ScanStart::Walk(walk) => walk,
        other => panic!("expected a walk, got {other:?}"),
    };
    assert_eq!(walk_all(&w, start, fs), vec!["/t", "/t/sub", "/t/sub/deep"]);
    assert!(dirs_to_mark(&w, &path("/t/x/Cache")).is_none());
    let moved_in = dirs_to_mark(&w, &path("/t/sub")).unwrap();
    assert_eq!(walk_all(&w, moved_in, fs), vec!["/t/sub", "/t/sub/deep"]);
}

#[test]
fn walk_finds_each_directory_once() {
    let w = watch("/t", &[], ObjectKind::File, &[]);
    // The same names turn up in different directories.
    let fs: &[(&str, &[(&str, bool)])] = &[
        ("/t", &[("a", true), ("b", true)]),
        ("/t/a", &[("a", true), ("b", true)]),
        ("/t/b", &[("a", true)]),
        ("/t/a/a", &[("t", true)]),
    ];
    let start = match scan_watch(&w, Some(FileKind::Dir)) {
        ScanStart::Walk(walk) => walk,
        other => panic!("expected a walk, got {other:?}"),
    };
    let mut found = walk_all(&w, start, fs);
    found.sort();
    let all = vec!["/t", "/t/a", "/t/a/a", "/t/a/a/t", "/t/a/b", "/t/b", "/t/b/a"];
    assert_eq!(found, all);
}

#[test]
fn watch_roots_are_classified() {
    let w = watch("/t", &[], ObjectKind::File, &[]);
    assert!(matches!(
        scan_watch(&w, Some(FileKind::File)),
        ScanStart::Done(WatchScan::File(p)) if p.same_as(&path("/t"))
    ));
    assert!(matches!(scan_watch(&w, None), ScanStart::Done(WatchScan::Unresolved)));
    assert!(matches!(
        scan_watch(&w, Some(FileKind::Other)),
        ScanStart::Done(WatchScan::Unresolved)
    ));
}

#[test]
fn new_directories_are_marked() {
    let p = Policy::new(vec![watch("/t", &[], ObjectKind::File, &["**/Cache"])]);
    let mut tree = TreeWatch::new();
    assert!(!tree.is_watching(&path("/t")));
    tree.watch(1, &path("/t"));
    tree.watch(2, &path("/other"));
    assert!(tree.is_watching(&path("/t/.")));
    assert_eq!(tree.len(), 2);
    let notice = |id: u64, mask: u32, name: Option<&str>| Notice { id, mask, name: name.map(path) };
    match tree.on_notice(&p, &notice(1, IN_ISDIR | 0x100, Some("new"))) {
        Growth::Mark { watch: 0, mut walk } => {
            assert_eq!(walk.next_dir().unwrap().display(), "/t/new");
        }
        other => panic!("expected a mark, got {other:?}"),
    }
    assert!(matches!(tree.on_notice(&p, &notice(1, IN_Q_OVERFLOW, None)), Growth::Remark));
    assert!(matches!(tree.on_notice(&p, &notice(1, 0x100, Some("file"))), Growth::Ignore));
    assert!(matches!(tree.on_notice(&p, &notice(1, IN_ISDIR, Some("Cache"))), Growth::Ignore));
    assert!(matches!(tree.on_notice(&p, &notice(1, IN_ISDIR, None)), Growth::Ignore));
    assert!(matches!(tree.on_notice(&p, &notice(9, IN_ISDIR, Some("new"))), Growth::Ignore));
    // Not governed by any watch.
    assert!(matches!(tree.on_notice(&p, &notice(2, IN_ISDIR, Some("new"))), Growth::Ignore));
    tree.watch(1, &path("/moved"));
    assert!(!tree.is_watching(&path("/t")));
    assert_eq!(tree.dir_of(1).unwrap().display(), "/moved");
    assert_eq!(tree.len(), 2);
    assert_eq!(watch_mask(), 0x0100_0180);
}

#[test]
fn changes_to_either_file_call_for_a_reload() {
    let p = plan(&path("/etc/filewall/config.toml"), &path("/var/lib/filewall/rules.toml")).unwrap();
    assert_eq!(p.config_dir.display(), "/etc/filewall");
    assert_eq!(p.rules_dir.display(), "/var/lib/filewall");
    assert!(p.needs_second_watch());
    assert!(p.triggers(&Some(path("config.toml"))));
    assert!(p.triggers(&Some(path("rules.toml"))));
    assert!(!p.triggers(&Some(path(".rules.1.2.3.tmp"))));
    assert!(!p.triggers(&None));
    let same = plan(&path("/d/c"), &path("/d//r")).unwrap();
    assert!(!same.needs_second_watch());
}

#[test]
fn paths_without_a_directory_are_not_watched() {
    let ok = path("/etc/c");
    assert_eq!(plan(&path("c"), &ok).unwrap_err(), PlanError::NoConfigDir);
    assert_eq!(plan(&path("/"), &ok).unwrap_err(), PlanError::NoConfigDir);
    assert_eq!(plan(&path("/etc/.."), &ok).unwrap_err(), PlanError::NoConfigName);
    assert_eq!(plan(&ok, &path("r")).unwrap_err(), PlanError::NoRulesDir);
    assert_eq!(plan(&ok, &path("a/..")).unwrap_err(), PlanError::NoRulesName);
    assert_eq!(
        PlanError::NoRulesDir.message(),
        "no parent dir for rules, file watching disabled"
    );
}

#[test]
fn new_store_is_written_beside_the_old() {
    let dir = store_dir(&path("/var/lib/filewall/rules.toml"));
    assert_eq!(dir.display(), "/var/lib/filewall");
    assert_eq!(temp_path(&dir, 12, 34, 56).display(), "/var/lib/filewall/.rules.12.34.56.tmp");
    assert_eq!(store_dir(&path("rules.toml")).display(), "");
    assert_eq!(store_dir(&path("/")).display(), ".");
    assert_eq!(temp_path(&path(""), 1, 2, 3).display(), ".rules.1.2.3.tmp");
}
