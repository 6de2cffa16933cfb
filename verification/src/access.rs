//! One access, from the kernel's event to the answer: what is asked of the world
//! next, and what the answer is.
//!
//! An event goes through the stages in order. Each either answers or says what
//! it needs: the accessed path, then the process, then the user.

use crate::config::ConfigError;
use crate::fanotify::{Event, FAN_OPEN_PERM};
use crate::globs::any_hit;
use crate::paths::{parts, relative_has_no_root, shown, under, FilePath, SLASH};
use crate::policy::{
    combine, combined, governing_watch_decides, is_covered, is_first_cover, is_learned,
    learned_decision_takes_effect, policy_outcome, target_of, uncovered_path_is_allowed,
    ungoverned_path_is_allowed, Action, Outcome, Policy, WatchView,
};
use crate::proto::{Decision, PromptRequest};
use crate::rules::{
    every_verdict_has_its_rule, fitting_rule_has_the_say, issued, loaded_rules,
    loading_keeps_every_rule, now_unix, opt_text, unnamed_executable_has_no_verdict, verdict,
    LearnedRule, ObjectKind, RuleAction, Rules, StoreRead,
};
use crate::ui_link::Prompted;
use vstd::prelude::*;
use vstd::string::*;
use vstd::utf8::*;

verus! {

/// The rule action that a decision leaves; none for one-shots.
pub open spec fn lasting(d: Decision) -> Option<RuleAction> {
    match d {
        Decision::AllowAlways => Some(RuleAction::Allow),
        Decision::DenyAlways => Some(RuleAction::Deny),
        _ => None,
    }
}

/// The rule action that a decision leaves; none for one-shots.
pub fn always_action(d: Decision) -> (r: Option<RuleAction>)
    ensures
        r == lasting(d),
{
    match d {
        Decision::AllowAlways => Some(RuleAction::Allow),
        Decision::DenyAlways => Some(RuleAction::Deny),
        Decision::AllowOnce | Decision::DenyOnce => None,
    }
}

/// Whether an event is up for judgement: a permission to open, and not our own.
pub open spec fn concerns_us(ev: Event, own_pid: u32) -> bool {
    ev.mask & FAN_OPEN_PERM != 0 && ev.pid != own_pid
}

/// Whether an event is up for judgement. All others are allowed at once.
pub fn concerns(ev: &Event, own_pid: u32) -> (r: bool)
    ensures
        r == concerns_us(*ev, own_pid),
{
    ev.is_open_perm() && ev.pid != own_pid
}

/// The path that stands for one that cannot be resolved.
pub open spec fn unknown_path() -> Seq<u8> {
    encode_utf8("<unknown>"@)
}

/// The accessed path, where the link to it could be read.
pub fn accessed_path(link: Option<FilePath>) -> (r: FilePath)
    ensures
        r@ == (match link {
            Some(p) => p@,
            None => unknown_path(),
        }),
{
    match link {
        Some(p) => p,
        None => FilePath::new("<unknown>"),
    }
}

/// Whether the watch that governs `path` excludes it.
pub open spec fn is_let_through(ws: Seq<WatchView>, path: Seq<u8>) -> bool {
    exists|k: int| #[trigger] is_first_cover(ws, path, k) && any_hit(ws[k].exclude, path)
}

proof fn first_cover_is_one(ws: Seq<WatchView>, path: Seq<u8>, j: int, k: int)
    requires
        is_first_cover(ws, path, j),
        is_first_cover(ws, path, k),
    ensures
        j == k,
{
}

/// Whether an access is allowed for its path alone: the watch that governs it
/// excludes it. A directory mark fires for every child, excluded or not.
pub fn let_through(policy: &Policy, path: &FilePath) -> (r: bool)
    ensures
        r == is_let_through(policy@, path@),
{
    match policy.covering(path) {
        Some(k) => {
            let watches = policy.watches();
            assert(policy@[k as int] == watches@[k as int]@);
            let r = watches[k].is_excluded(path);
            proof {
                if exists|j: int| #[trigger]
                    is_first_cover(policy@, path@, j) && any_hit(policy@[j].exclude, path@) {
                    let j = choose|j: int| #[trigger]
                        is_first_cover(policy@, path@, j) && any_hit(policy@[j].exclude, path@);
                    first_cover_is_one(policy@, path@, j, k as int);
                }
            }
            r
        },
        None => false,
    }
}

/// What policy and learned rules make of an access.
pub open spec fn judged(
    ws: Seq<WatchView>,
    rules: Seq<LearnedRule>,
    path: Seq<u8>,
    exe: Seq<char>,
    cwd: Seq<char>,
) -> Outcome {
    combined(policy_outcome(ws, path, exe), verdict(rules, path, exe, Some(cwd)))
}

/// What policy and learned rules make of an access.
pub fn judge(policy: &Policy, rules: &Rules, path: &FilePath, exe: &str, cwd: &str) -> (r: Outcome)
    ensures
        r == judged(policy@, rules.rules@, path@, exe@, cwd@),
{
    let configured = policy.evaluate(path, exe);
    let learned = rules.evaluate(path, exe, Some(cwd));
    combine(configured, learned)
}

/// Whether a request describes what an "Always" decision on this access records:
/// the target of the governing watch, or just the file where there is none.
pub open spec fn shows_scope(req: PromptRequest, ws: Seq<WatchView>, path: Seq<u8>) -> bool {
    if is_covered(ws, path) {
        exists|k: int|
            {
                &&& #[trigger] is_first_cover(ws, path, k)
                &&& req.always_object@ == shown(target_of(ws[k], path))
                &&& req.always_tree == (ws[k].learn_object == ObjectKind::Tree)
                &&& req.always_cwd_pinned == ws[k].learn_cwd
            }
    } else {
        &&& req.always_object@ == shown(path)
        &&& !req.always_tree
        &&& !req.always_cwd_pinned
    }
}

/// The question for the user.
pub fn prompt_request(
    policy: &Policy,
    pid: u32,
    exe: &str,
    cmdline: String,
    cwd: &str,
    path: &FilePath,
    ui_timeout_ms: u32,
) -> (r: PromptRequest)
    ensures
        r.pid == pid,
        r.exe@ == exe@,
        r.cmdline@ == cmdline@,
        r.cwd@ == cwd@,
        r.path@ == shown(path@),
        r.ui_timeout_ms == ui_timeout_ms,
        shows_scope(r, policy@, path@),
{
    let (always_object, always_tree, always_cwd_pinned) = match policy.covering(path) {
        Some(k) => {
            let watches = policy.watches();
            assert(policy@[k as int] == watches@[k as int]@);
            let (object, kind) = watches[k].always_target(path);
            (object.display(), matches!(kind, ObjectKind::Tree), watches[k].learn_cwd())
        },
        None => (path.display(), false, false),
    };
    PromptRequest {
        pid,
        exe: exe.to_owned(),
        cmdline,
        cwd: cwd.to_owned(),
        path: path.display(),
        always_object,
        always_tree,
        always_cwd_pinned,
        ui_timeout_ms,
    }
}

/// Milliseconds the user has for an answer, given the daemon's own limit: five
/// seconds less, or half of it where that is more.
pub open spec fn window_ms(prompt_timeout_seconds: nat) -> nat {
    let limit = prompt_timeout_seconds * 1000;
    let margin = if limit / 2 < 5000 {
        limit / 2
    } else {
        5000
    };
    let window = (limit - margin) as nat;
    if window > u32::MAX {
        u32::MAX as nat
    } else {
        window
    }
}

/// Milliseconds the user has for an answer.
pub fn answer_window_ms(prompt_timeout_seconds: u64) -> (r: u32)
    ensures
        r == window_ms(prompt_timeout_seconds as nat),
{
    let limit: u128 = prompt_timeout_seconds as u128 * 1000;
    let margin: u128 = if limit / 2 < 5000 { limit / 2 } else { 5000 };
    let window: u128 = limit - margin;
    if window > 0xffff_ffff {
        0xffff_ffff
    } else {
        window as u32
    }
}

/// The user's time is up strictly before the daemon's, and is never nothing.
pub proof fn window_closes_before_the_daemon_gives_up(prompt_timeout_seconds: nat)
    requires
        prompt_timeout_seconds > 0,
    ensures
        0 < window_ms(prompt_timeout_seconds) < prompt_timeout_seconds * 1000,
{
}

/// The answer to a prompt, and whether a rule was learned from it.
#[derive(Debug, Clone, Copy, PartialEq, Eq, Structural)]
pub struct Settled {
    pub allow: bool,
    pub learned: bool,
}

/// Whether a reply lets the access through. No answer does not.
pub open spec fn reply_permits(reply: Prompted) -> bool {
    match reply {
        Prompted::Answer(d) => d.permits(),
        Prompted::Failed(_) => false,
    }
}

/// Whether a reply leaves a rule: an "Always" decision on a governed path.
pub open spec fn reply_lasts(reply: Prompted, ws: Seq<WatchView>, path: Seq<u8>) -> bool {
    match reply {
        Prompted::Answer(d) => lasting(d) is Some && is_covered(ws, path),
        Prompted::Failed(_) => false,
    }
}

/// Whether `after` is `before` with the rule of an "Always" decision added.
pub open spec fn learned_one(
    before: Rules,
    after: Rules,
    ws: Seq<WatchView>,
    action: RuleAction,
    exe: Seq<char>,
    path: Seq<u8>,
    cwd: Seq<char>,
) -> bool {
    let id = issued(before.next_id as nat);
    &&& after.next_id == id + 1
    &&& after.rules@.len() == before.rules@.len() + 1
    &&& after.rules@.drop_last() == before.rules@
    &&& after.rules@.last().id == id
    &&& exists|k: int|
        #[trigger] is_first_cover(ws, path, k) && is_learned(
            (LearnedRule { id: 0, ..after.rules@.last() }),
            ws[k],
            action,
            exe,
            path,
            Some(cwd),
        )
}

/// Whether `s` is what a reply is taken for, and `after` what it leaves of the rules.
pub open spec fn settles(
    s: Settled,
    before: Rules,
    after: Rules,
    ws: Seq<WatchView>,
    path: Seq<u8>,
    exe: Seq<char>,
    cwd: Seq<char>,
    reply: Prompted,
) -> bool {
    &&& s.allow == reply_permits(reply)
    &&& s.learned == reply_lasts(reply, ws, path)
    &&& !s.learned ==> after == before
    &&& s.learned ==> learned_one(
        before,
        after,
        ws,
        lasting(reply->Answer_0)->0,
        exe,
        path,
        cwd,
    )
}

/// Takes the reply to a prompt made at `now`: answers, and learns from an
/// "Always" decision. Anything but an answer denies.
pub fn settle_at(
    now: u64,
    policy: &Policy,
    rules: &mut Rules,
    path: &FilePath,
    exe: &str,
    cwd: &str,
    reply: Prompted,
) -> (r: Settled)
    requires
        reply_lasts(reply, policy@, path@) ==> old(rules).next_id < u64::MAX,
    ensures
        settles(r, *old(rules), *final(rules), policy@, path@, exe@, cwd@, reply),
        r.learned ==> final(rules).rules@.last().created_unix == now,
{
    let decision = match reply {
        Prompted::Answer(d) => d,
        Prompted::Failed(_) => {
            return Settled { allow: false, learned: false };
        },
    };
    let mut learned = false;
    if let Some(action) = always_action(decision) {
        if let Some(k) = policy.covering(path) {
            let watches = policy.watches();
            assert(policy@[k as int] == watches@[k as int]@);
            let rule = watches[k].learned_rule_at(now, action, exe, path, Some(cwd));
            let ghost before = *rules;
            rules.push(rule);
            assert(rules.rules@.drop_last() =~= before.rules@);
            assert((LearnedRule { id: 0, ..rules.rules@.last() }) == rule);
            assert(is_first_cover(policy@, path@, k as int));
            learned = true;
        }
    }
    Settled { allow: decision.allows(), learned }
}

/// Takes the reply to a prompt.
pub fn settle(
    policy: &Policy,
    rules: &mut Rules,
    path: &FilePath,
    exe: &str,
    cwd: &str,
    reply: Prompted,
) -> (r: Settled)
    requires
        reply_lasts(reply, policy@, path@) ==> old(rules).next_id < u64::MAX,
    ensures
        settles(r, *old(rules), *final(rules), policy@, path@, exe@, cwd@, reply),
{
    settle_at(now_unix(), policy, rules, path, exe, cwd, reply)
}

/// Takes the reply to a prompt, as far as there are ids left: nothing happens where a
/// rule would have to be learned without one.
pub fn try_settle(
    policy: &Policy,
    rules: &mut Rules,
    path: &FilePath,
    exe: &str,
    cwd: &str,
    reply: Prompted,
) -> (r: Option<Settled>)
    ensures
        r is None <==> reply_lasts(reply, policy@, path@) && old(rules).next_id == u64::MAX,
        match r {
            Some(settled) => settles(
                settled,
                *old(rules),
                *final(rules),
                policy@,
                path@,
                exe@,
                cwd@,
                reply,
            ),
            None => *final(rules) == *old(rules),
        },
{
    let lasts = match reply {
        Prompted::Answer(d) => always_action(d).is_some() && policy.covering(path).is_some(),
        Prompted::Failed(_) => false,
    };
    assert(lasts == reply_lasts(reply, policy@, path@)) by {
        if exists|k: int| is_first_cover(policy@, path@, k) {
            let k = choose|k: int| is_first_cover(policy@, path@, k);
            assert(under(path@, policy@[k].root));
        }
    }
    if lasts && rules.next_id == 0xffff_ffff_ffff_ffff {
        None
    } else {
        Some(settle(policy, rules, path, exe, cwd, reply))
    }
}

/// What an event has come to.
#[derive(Debug, Clone, Copy, PartialEq, Eq, Structural)]
pub enum Stage {
    /// Answer it.
    Answer { allow: bool },
    /// Resolve the accessed path.
    NeedPath,
    /// Resolve the accessing process.
    NeedProcess,
    /// Ask the user.
    NeedUser,
}

/// The stage an event starts in.
pub open spec fn first_stage(ev: Event, own_pid: u32) -> Stage {
    if concerns_us(ev, own_pid) {
        Stage::NeedPath
    } else {
        Stage::Answer { allow: true }
    }
}

/// The stage once the path is known.
pub open spec fn path_stage(ws: Seq<WatchView>, path: Seq<u8>) -> Stage {
    if is_let_through(ws, path) {
        Stage::Answer { allow: true }
    } else {
        Stage::NeedProcess
    }
}

/// The stage once the process is known.
pub open spec fn process_stage(
    ws: Seq<WatchView>,
    rules: Seq<LearnedRule>,
    path: Seq<u8>,
    exe: Seq<char>,
    cwd: Seq<char>,
) -> Stage {
    match judged(ws, rules, path, exe, cwd) {
        Outcome::Allow => Stage::Answer { allow: true },
        Outcome::Deny => Stage::Answer { allow: false },
        Outcome::Prompt => Stage::NeedUser,
    }
}

/// The stage an event starts in.
pub fn begin(ev: &Event, own_pid: u32) -> (r: Stage)
    ensures
        r == first_stage(*ev, own_pid),
{
    if concerns(ev, own_pid) {
        Stage::NeedPath
    } else {
        Stage::Answer { allow: true }
    }
}

/// The stage once the path is known.
pub fn with_path(policy: &Policy, path: &FilePath) -> (r: Stage)
    ensures
        r == path_stage(policy@, path@),
{
    if let_through(policy, path) {
        Stage::Answer { allow: true }
    } else {
        Stage::NeedProcess
    }
}

/// The stage once the process is known.
pub fn with_process(policy: &Policy, rules: &Rules, path: &FilePath, exe: &str, cwd: &str) -> (r:
    Stage)
    ensures
        r == process_stage(policy@, rules.rules@, path@, exe@, cwd@),
{
    match judge(policy, rules, path, exe, cwd) {
        Outcome::Allow => Stage::Answer { allow: true },
        Outcome::Deny => Stage::Answer { allow: false },
        Outcome::Prompt => Stage::NeedUser,
    }
}

/// The answer to an event, all stages together.
pub open spec fn answer(
    ev: Event,
    own_pid: u32,
    ws: Seq<WatchView>,
    rules: Seq<LearnedRule>,
    path: Seq<u8>,
    exe: Seq<char>,
    cwd: Seq<char>,
    reply: Prompted,
) -> bool {
    if !concerns_us(ev, own_pid) || is_let_through(ws, path) {
        true
    } else {
        match judged(ws, rules, path, exe, cwd) {
            Outcome::Allow => true,
            Outcome::Deny => false,
            Outcome::Prompt => reply_permits(reply),
        }
    }
}

/// What `begin`, `with_path`, `with_process` and `settle` come to, each taken when the
/// stage before asks for it, is the answer: `settled` is what the reply to the
/// prompt was taken for.
pub proof fn stages_come_to_the_answer(
    ev: Event,
    own_pid: u32,
    ws: Seq<WatchView>,
    rules: Seq<LearnedRule>,
    path: Seq<u8>,
    exe: Seq<char>,
    cwd: Seq<char>,
    reply: Prompted,
    settled: Settled,
)
    requires
        settled.allow == reply_permits(reply),
    ensures
        staged(
            first_stage(ev, own_pid),
            path_stage(ws, path),
            process_stage(ws, rules, path, exe, cwd),
            settled,
        ) == (Stage::Answer { allow: answer(ev, own_pid, ws, rules, path, exe, cwd, reply) }),
{
}

/// Where an event ends up that starts in `first`: whenever a stage asks for something,
/// the stage that comes of it is next.
pub open spec fn staged(
    first: Stage,
    on_path: Stage,
    on_process: Stage,
    settled: Settled,
) -> Stage {
    let second = if first is NeedPath {
        on_path
    } else {
        first
    };
    let third = if second is NeedProcess {
        on_process
    } else {
        second
    };
    if third is NeedUser {
        Stage::Answer { allow: settled.allow }
    } else {
        third
    }
}

/// Without an answer from the user, nothing that is up to the user is let
/// through: not on a timeout, nor with no helper connected.
pub proof fn prompts_fail_closed(
    ev: Event,
    own_pid: u32,
    ws: Seq<WatchView>,
    rules: Seq<LearnedRule>,
    path: Seq<u8>,
    exe: Seq<char>,
    cwd: Seq<char>,
    reply: Prompted,
)
    requires
        concerns_us(ev, own_pid),
        !is_let_through(ws, path),
        judged(ws, rules, path, exe, cwd) == Outcome::Prompt,
        reply is Failed,
    ensures
        !answer(ev, own_pid, ws, rules, path, exe, cwd, reply),
{
}

/// A denial, configured or learned, is not overruled by an allowance or the user.
pub proof fn denial_is_final(
    ev: Event,
    own_pid: u32,
    ws: Seq<WatchView>,
    rules: Seq<LearnedRule>,
    path: Seq<u8>,
    exe: Seq<char>,
    cwd: Seq<char>,
    reply: Prompted,
)
    requires
        concerns_us(ev, own_pid),
        !is_let_through(ws, path),
        policy_outcome(ws, path, exe) == Outcome::Deny || verdict(rules, path, exe, Some(cwd))
            == Some(RuleAction::Deny),
    ensures
        !answer(ev, own_pid, ws, rules, path, exe, cwd, reply),
{
}

/// The daemon never blocks itself, nor anything that no watch governs unless a
/// learned rule denies it.
pub proof fn unrelated_traffic_passes(
    ev: Event,
    own_pid: u32,
    ws: Seq<WatchView>,
    rules: Seq<LearnedRule>,
    path: Seq<u8>,
    exe: Seq<char>,
    cwd: Seq<char>,
    reply: Prompted,
)
    requires
        ev.pid == own_pid || (!is_covered(ws, path) && verdict(rules, path, exe, Some(cwd))
            != Some(RuleAction::Deny)),
    ensures
        answer(ev, own_pid, ws, rules, path, exe, cwd, reply),
{
    if !is_covered(ws, path) {
        uncovered_path_is_allowed(ws, path, exe);
    }
}

/// An "Always" decision settles the next access like it: denied for good, or
/// allowed unless something else denies it.
pub proof fn always_decision_holds(
    before: Rules,
    after: Rules,
    ws: Seq<WatchView>,
    action: RuleAction,
    exe: Seq<char>,
    path: Seq<u8>,
    cwd: Seq<char>,
)
    requires
        learned_one(before, after, ws, action, exe, path, cwd),
        judged(ws, before.rules@, path, exe, cwd) == Outcome::Prompt,
    ensures
        judged(ws, after.rules@, path, exe, cwd) == (match action {
            RuleAction::Allow => Outcome::Allow,
            RuleAction::Deny => Outcome::Deny,
        }),
{
    let rule = after.rules@.last();
    let k = choose|k: int|
        #[trigger] is_first_cover(ws, path, k) && is_learned(
            (LearnedRule { id: 0, ..rule }),
            ws[k],
            action,
            exe,
            path,
            Some(cwd),
        );
    assert(before.rules@.push(rule) =~= after.rules@);
    learned_decision_takes_effect(
        before.rules@,
        rule,
        ws[k],
        policy_outcome(ws, path, exe),
        exe,
        path,
        Some(cwd),
    );
}

/// What the user is shown as the scope of "Always" is what is learned from the
/// answer: the object, whether it is a whole tree, and the working directory.
pub proof fn learned_scope_is_the_shown_one(
    req: PromptRequest,
    before: Rules,
    after: Rules,
    ws: Seq<WatchView>,
    action: RuleAction,
    exe: Seq<char>,
    path: Seq<u8>,
    cwd: Seq<char>,
)
    requires
        shows_scope(req, ws, path),
        learned_one(before, after, ws, action, exe, path, cwd),
    ensures
        ({
            let rule = after.rules@.last();
            &&& shown(rule.object@) == req.always_object@
            &&& (rule.object_kind == ObjectKind::Tree) == req.always_tree
            &&& opt_text(rule.cwd) == (if req.always_cwd_pinned {
                Some(cwd)
            } else {
                None
            })
        }),
{
    let k = choose|k: int|
        #[trigger] is_first_cover(ws, path, k) && is_learned(
            (LearnedRule { id: 0, ..after.rules@.last() }),
            ws[k],
            action,
            exe,
            path,
            Some(cwd),
        );
    assert(is_covered(ws, path)) by {
        assert(under(path, ws[k].root));
    }
    let j = choose|j: int|
        {
            &&& #[trigger] is_first_cover(ws, path, j)
            &&& req.always_object@ == shown(target_of(ws[j], path))
            &&& req.always_tree == (ws[j].learn_object == ObjectKind::Tree)
            &&& req.always_cwd_pinned == ws[j].learn_cwd
        };
    first_cover_is_one(ws, path, j, k);
}

/// What waiting for events came to.
#[derive(Debug, Clone, Copy, PartialEq, Eq, Structural)]
pub enum Wakeup {
    /// Waiting failed for good.
    Fail,
    /// Nothing happened: a signal or the end of the wait.
    Idle,
    /// Something can be read: new directories, control clients, accesses.
    Ready { tree: bool, control: bool, accesses: bool },
}

/// A system call was interrupted.
pub const EINTR: i32 = 4;

/// Data can be read.
pub const POLLIN: i16 = 1;

/// Reads the result of waiting: the count, the error where it is negative, and
/// what became ready on each descriptor.
pub fn wakeup(count: i32, errno: i32, accesses: i16, tree: i16, control: i16) -> (r: Wakeup)
    ensures
        r == (if count < 0 {
            if errno == EINTR {
                Wakeup::Idle
            } else {
                Wakeup::Fail
            }
        } else if count == 0 {
            Wakeup::Idle
        } else {
            Wakeup::Ready {
                tree: tree & POLLIN != 0,
                control: control & POLLIN != 0,
                accesses: accesses & POLLIN != 0,
            }
        }),
{
    if count < 0 {
        if errno == EINTR {
            Wakeup::Idle
        } else {
            Wakeup::Fail
        }
    } else if count == 0 {
        Wakeup::Idle
    } else {
        Wakeup::Ready {
            tree: tree & POLLIN != 0,
            control: control & POLLIN != 0,
            accesses: accesses & POLLIN != 0,
        }
    }
}

/// Whether `r` is what taking up a reload comes to, and the last two what it leaves.
pub open spec fn takes_reload(
    loaded: Result<(Policy, StoreRead), ConfigError>,
    policy: Policy,
    rules: Rules,
    new_policy: Policy,
    new_rules: Rules,
    r: Result<(), ConfigError>,
) -> bool {
    match loaded {
        Ok((p, read)) => r is Ok && new_policy@ == p@ && loaded_rules(read, new_rules),
        Err(e) => r == Err::<(), ConfigError>(e) && new_policy == policy && new_rules == rules,
    }
}

/// Takes up a reloaded configuration and rule store, as far as there are ids left
/// for the rules: nothing happens where there are not.
pub fn try_take_reload(
    policy: &mut Policy,
    rules: &mut Rules,
    loaded: Result<(Policy, StoreRead), ConfigError>,
) -> (r: Option<Result<(), ConfigError>>)
    ensures
        r is None <==> (loaded matches Ok((_, read)) && !read.ids_fit()),
        match r {
            Some(taken) => takes_reload(
                loaded,
                *old(policy),
                *old(rules),
                *final(policy),
                *final(rules),
                taken,
            ),
            None => *final(policy) == *old(policy) && *final(rules) == *old(rules),
        },
{
    let fits = match &loaded {
        Ok((_, read)) => read.check_ids_fit(),
        Err(_) => true,
    };
    if fits {
        Some(take_reload(policy, rules, loaded))
    } else {
        None
    }
}

/// Takes up a reloaded configuration and rule store. A configuration that cannot
/// be used changes nothing.
pub fn take_reload(
    policy: &mut Policy,
    rules: &mut Rules,
    loaded: Result<(Policy, StoreRead), ConfigError>,
) -> (r: Result<(), ConfigError>)
    requires
        loaded matches Ok((_, read)) ==> read.ids_fit(),
    ensures
        takes_reload(
            loaded,
            *old(policy),
            *old(rules),
            *final(policy),
            *final(rules),
            r,
        ),
{
    match loaded {
        Ok((p, read)) => {
            *policy = p;
            *rules = Rules::load(read);
            Ok(())
        },
        Err(e) => Err(e),
    }
}

proof fn first_is_governing(ws: Seq<WatchView>, path: Seq<u8>, k: int)
    requires
        0 <= k < ws.len(),
        parts(ws[k].root).is_prefix_of(parts(path)),
        forall|j: int| 0 <= j < k ==> !parts((#[trigger] ws[j]).root).is_prefix_of(parts(path)),
    ensures
        is_first_cover(ws, path, k),
        is_covered(ws, path),
{
    assert(under(path, ws[k].root));
    assert forall|j: int| 0 <= j < k implies !under(path, (#[trigger] ws[j]).root) by {}
}

/// The reply to a prompt decides, and the access is let through exactly if the user chose
/// to allow it, once or always.
pub proof fn reply_is_the_verdict(
    s: Settled,
    before: Rules,
    after: Rules,
    ws: Seq<WatchView>,
    path: Seq<u8>,
    exe: Seq<char>,
    cwd: Seq<char>,
    reply: Prompted,
)
    requires
        settles(s, before, after, ws, path, exe, cwd, reply),
    ensures
        reply == Prompted::Answer(Decision::AllowOnce) ==> s.allow,
        reply == Prompted::Answer(Decision::AllowAlways) ==> s.allow,
        reply == Prompted::Answer(Decision::DenyOnce) ==> !s.allow,
        reply == Prompted::Answer(Decision::DenyAlways) ==> !s.allow,
        reply is Failed ==> !s.allow,
{
}

/// An access that is up to the user is let through exactly if the reply allows it, once
/// or always.
pub proof fn user_has_the_say(
    ev: Event,
    own_pid: u32,
    ws: Seq<WatchView>,
    rules: Seq<LearnedRule>,
    path: Seq<u8>,
    exe: Seq<char>,
    cwd: Seq<char>,
    reply: Prompted,
)
    requires
        concerns_us(ev, own_pid),
        !is_let_through(ws, path),
        judged(ws, rules, path, exe, cwd) == Outcome::Prompt,
    ensures
        ({
            let allowed = answer(ev, own_pid, ws, rules, path, exe, cwd, reply);
            &&& reply == Prompted::Answer(Decision::AllowOnce) ==> allowed
            &&& reply == Prompted::Answer(Decision::AllowAlways) ==> allowed
            &&& reply == Prompted::Answer(Decision::DenyOnce) ==> !allowed
            &&& reply == Prompted::Answer(Decision::DenyAlways) ==> !allowed
            &&& reply is Failed ==> !allowed
        }),
{
}

/// An access that no pattern and no rule speaks of goes by the default action of the
/// watch that governs the path; with prompting, by what the user says.
pub proof fn unlisted_access_goes_by_the_default(
    ev: Event,
    own_pid: u32,
    ws: Seq<WatchView>,
    rules: Seq<LearnedRule>,
    path: Seq<u8>,
    exe: Seq<char>,
    cwd: Seq<char>,
    reply: Prompted,
    k: int,
)
    requires
        ev.mask & 0x0001_0000 != 0,
        ev.pid != own_pid,
        0 <= k < ws.len(),
        parts(ws[k].root).is_prefix_of(parts(path)),
        forall|j: int| 0 <= j < k ==> !parts((#[trigger] ws[j]).root).is_prefix_of(parts(path)),
        !any_hit(ws[k].exclude, path),
        !any_hit(ws[k].allow, encode_utf8(exe)),
        forall|i: int| 0 <= i < rules.len() ==> (#[trigger] rules[i]).exe@ != exe,
    ensures
        ({
            let allowed = answer(ev, own_pid, ws, rules, path, exe, cwd, reply);
            match ws[k].default_action {
                Action::Allow => allowed,
                Action::Deny => !allowed,
                Action::Prompt => allowed == (reply == Prompted::Answer(Decision::AllowOnce)
                    || reply == Prompted::Answer(Decision::AllowAlways)),
            }
        }),
{
    first_is_governing(ws, path, k);
    if is_let_through(ws, path) {
        let j = choose|j: int| #[trigger]
            is_first_cover(ws, path, j) && any_hit(ws[j].exclude, path);
        first_cover_is_one(ws, path, j, k);
    }
    governing_watch_decides(ws, path, exe, k);
    unnamed_executable_has_no_verdict(rules, path, exe, Some(cwd));
}

/// An access by a listed executable passes unasked, unless a learned rule denies it.
pub proof fn listed_access_passes(
    ev: Event,
    own_pid: u32,
    ws: Seq<WatchView>,
    rules: Seq<LearnedRule>,
    path: Seq<u8>,
    exe: Seq<char>,
    cwd: Seq<char>,
    reply: Prompted,
    k: int,
)
    requires
        0 <= k < ws.len(),
        parts(ws[k].root).is_prefix_of(parts(path)),
        forall|j: int| 0 <= j < k ==> !parts((#[trigger] ws[j]).root).is_prefix_of(parts(path)),
        any_hit(ws[k].allow, encode_utf8(exe)),
        forall|i: int|
            0 <= i < rules.len() && (#[trigger] rules[i]).exe@ == exe ==> rules[i].action
                == RuleAction::Allow,
    ensures
        answer(ev, own_pid, ws, rules, path, exe, cwd, reply),
{
    first_is_governing(ws, path, k);
    governing_watch_decides(ws, path, exe, k);
    if verdict(rules, path, exe, Some(cwd)) is Some {
        let i = every_verdict_has_its_rule(rules, path, exe, Some(cwd));
    }
}

/// An access to a path that the governing watch excludes passes, whatever else is said.
pub proof fn excluded_access_passes(
    ev: Event,
    own_pid: u32,
    ws: Seq<WatchView>,
    rules: Seq<LearnedRule>,
    path: Seq<u8>,
    exe: Seq<char>,
    cwd: Seq<char>,
    reply: Prompted,
    k: int,
)
    requires
        0 <= k < ws.len(),
        parts(ws[k].root).is_prefix_of(parts(path)),
        forall|j: int| 0 <= j < k ==> !parts((#[trigger] ws[j]).root).is_prefix_of(parts(path)),
        any_hit(ws[k].exclude, path),
    ensures
        answer(ev, own_pid, ws, rules, path, exe, cwd, reply),
{
    first_is_governing(ws, path, k);
}

/// An access to a path that no watch governs passes, unless a learned rule denies it.
pub proof fn ungoverned_access_passes(
    ev: Event,
    own_pid: u32,
    ws: Seq<WatchView>,
    rules: Seq<LearnedRule>,
    path: Seq<u8>,
    exe: Seq<char>,
    cwd: Seq<char>,
    reply: Prompted,
)
    requires
        forall|j: int|
            0 <= j < ws.len() ==> !parts((#[trigger] ws[j]).root).is_prefix_of(parts(path)),
        forall|i: int|
            0 <= i < rules.len() && (#[trigger] rules[i]).exe@ == exe ==> rules[i].action
                == RuleAction::Allow,
    ensures
        answer(ev, own_pid, ws, rules, path, exe, cwd, reply),
{
    ungoverned_path_is_allowed(ws, path, exe);
    if verdict(rules, path, exe, Some(cwd)) is Some {
        let i = every_verdict_has_its_rule(rules, path, exe, Some(cwd));
    }
}

/// A learned rule that fits the access denies it if it is a denial. If it is an
/// allowance, and no rule for the executable denies, it lets the access through
/// without asking, unless the watch denies by default.
pub proof fn learned_rule_answers(
    ev: Event,
    own_pid: u32,
    ws: Seq<WatchView>,
    rules: Seq<LearnedRule>,
    path: Seq<u8>,
    exe: Seq<char>,
    cwd: Seq<char>,
    reply: Prompted,
    k: int,
    i: int,
)
    requires
        ev.mask & 0x0001_0000 != 0,
        ev.pid != own_pid,
        0 <= k < ws.len(),
        parts(ws[k].root).is_prefix_of(parts(path)),
        forall|j: int| 0 <= j < k ==> !parts((#[trigger] ws[j]).root).is_prefix_of(parts(path)),
        !any_hit(ws[k].exclude, path),
        0 <= i < rules.len(),
        rules[i].exe@ == exe,
        match rules[i].object_kind {
            ObjectKind::File => parts(rules[i].object@) == parts(path),
            ObjectKind::Tree => parts(rules[i].object@).is_prefix_of(parts(path)),
        },
        rules[i].cwd matches Some(pinned) ==> pinned@ == cwd,
    ensures
        rules[i].action == RuleAction::Deny ==> !answer(
            ev,
            own_pid,
            ws,
            rules,
            path,
            exe,
            cwd,
            reply,
        ),
        ws[k].default_action != Action::Deny && (forall|m: int|
            0 <= m < rules.len() && (#[trigger] rules[m]).exe@ == exe ==> rules[m].action
                == RuleAction::Allow) ==> answer(ev, own_pid, ws, rules, path, exe, cwd, reply),
{
    first_is_governing(ws, path, k);
    if is_let_through(ws, path) {
        let j = choose|j: int| #[trigger]
            is_first_cover(ws, path, j) && any_hit(ws[j].exclude, path);
        first_cover_is_one(ws, path, j, k);
    }
    governing_watch_decides(ws, path, exe, k);
    fitting_rule_has_the_say(rules, i, path, exe, Some(cwd));
}

/// What is not a permission to open, and what the daemon opens itself, passes.
pub proof fn other_events_pass(
    ev: Event,
    own_pid: u32,
    ws: Seq<WatchView>,
    rules: Seq<LearnedRule>,
    path: Seq<u8>,
    exe: Seq<char>,
    cwd: Seq<char>,
    reply: Prompted,
)
    requires
        ev.mask & 0x0001_0000 == 0 || ev.pid == own_pid,
    ensures
        answer(ev, own_pid, ws, rules, path, exe, cwd, reply),
{
}

/// An access whose path cannot be resolved is governed by no watch on an absolute path.
pub proof fn unresolved_path_is_ungoverned(ws: Seq<WatchView>, r: FilePath)
    requires
        call_ensures(accessed_path, (None::<FilePath>,), r),
        forall|j: int|
            0 <= j < ws.len() ==> (#[trigger] ws[j]).root.len() > 0 && ws[j].root[0] == SLASH,
    ensures
        !is_covered(ws, r@),
{
    reveal_strlit("<unknown>");
    let p = r@;
    assert(p[0] == 0x3c) by {
        let s = "<unknown>"@;
        assert(s[0] == '<');
        assert(encode_scalar('<' as u32) =~= seq![0x3cu8]) by {
            assert(0x3cu32 & 0x7f == 0x3c) by (bit_vector);
        }
        assert(encode_utf8(s) =~= encode_scalar(s[0] as u32) + encode_utf8(s.drop_first()));
    }
    first_part(p);
    assert forall|j: int| 0 <= j < ws.len() implies !under(p, (#[trigger] ws[j]).root) by {
        let root = ws[j].root;
        assert(parts(root)[0] == seq![SLASH]);
        if under(p, root) {
            assert(parts(p)[0] == parts(root)[0]);
        }
    }
}

proof fn first_part(p: Seq<u8>)
    requires
        p.len() > 0,
        p[0] != SLASH,
    ensures
        parts(p).len() > 0 ==> parts(p)[0] != seq![SLASH],
{
    if parts(p).len() > 0 && parts(p)[0] == seq![SLASH] {
        relative_has_no_root(p);
    }
}

/// A path that was resolved is taken as it is.
pub proof fn resolved_path_is_taken(link: FilePath, r: FilePath)
    requires
        call_ensures(accessed_path, (Some(link),), r),
    ensures
        r@ == link@,
{
}

/// An "Always" decision on a governed path leaves one rule more, for this access and
/// with this verdict, and all others as they were; nothing else leaves one.
pub proof fn always_decision_is_recorded(
    s: Settled,
    before: Rules,
    after: Rules,
    ws: Seq<WatchView>,
    path: Seq<u8>,
    exe: Seq<char>,
    cwd: Seq<char>,
    reply: Prompted,
    k: int,
)
    requires
        settles(s, before, after, ws, path, exe, cwd, reply),
        0 <= k < ws.len(),
        parts(ws[k].root).is_prefix_of(parts(path)),
        forall|j: int| 0 <= j < k ==> !parts((#[trigger] ws[j]).root).is_prefix_of(parts(path)),
    ensures
        reply is Failed ==> !s.learned,
        reply == Prompted::Answer(Decision::AllowOnce) ==> !s.learned,
        reply == Prompted::Answer(Decision::DenyOnce) ==> !s.learned,
        reply == Prompted::Answer(Decision::AllowAlways) ==> s.learned && after.rules@.last().action
            == RuleAction::Allow,
        reply == Prompted::Answer(Decision::DenyAlways) ==> s.learned && after.rules@.last().action
            == RuleAction::Deny,
        !s.learned ==> after.rules@ == before.rules@ && after.next_id == before.next_id,
        s.learned ==> {
            let rule = after.rules@.last();
            &&& after.rules@.len() == before.rules@.len() + 1
            &&& forall|i: int|
                0 <= i < before.rules@.len() ==> #[trigger] after.rules@[i] == before.rules@[i]
            &&& rule.exe@ == exe
            &&& ws[k].learn_object == ObjectKind::File ==> rule.object@ == path && rule.object_kind
                == ObjectKind::File
            &&& ws[k].learn_object == ObjectKind::Tree ==> rule.object@ == ws[k].root
                && rule.object_kind == ObjectKind::Tree
            &&& ws[k].learn_cwd ==> (rule.cwd matches Some(c) && c@ == cwd)
            &&& !ws[k].learn_cwd ==> rule.cwd is None
            &&& rule.id > 0
            &&& before.next_id > 0 ==> rule.id == before.next_id
            &&& after.next_id == rule.id + 1
        },
{
    first_is_governing(ws, path, k);
    if s.learned {
        let action = lasting(reply->Answer_0)->0;
        let rule = after.rules@.last();
        let j = choose|j: int|
            #[trigger] is_first_cover(ws, path, j) && is_learned(
                (LearnedRule { id: 0, ..rule }),
                ws[j],
                action,
                exe,
                path,
                Some(cwd),
            );
        first_cover_is_one(ws, path, j, k);
        assert forall|i: int| 0 <= i < before.rules@.len() implies #[trigger] after.rules@[i]
            == before.rules@[i] by {
            assert(after.rules@.drop_last()[i] == before.rules@[i]);
        }
    }
}

/// Nothing is learned about a path that no watch governs.
pub proof fn nothing_is_learned_elsewhere(
    s: Settled,
    before: Rules,
    after: Rules,
    ws: Seq<WatchView>,
    path: Seq<u8>,
    exe: Seq<char>,
    cwd: Seq<char>,
    reply: Prompted,
)
    requires
        settles(s, before, after, ws, path, exe, cwd, reply),
        forall|j: int|
            0 <= j < ws.len() ==> !parts((#[trigger] ws[j]).root).is_prefix_of(parts(path)),
    ensures
        !s.learned,
        after == before,
{
    assert(!is_covered(ws, path));
}

/// The question shows who asks for what, and what an "Always" answer would cover: the
/// file alone or the whole tree of the watch.
pub proof fn question_shows_the_access(
    policy: Policy,
    pid: u32,
    exe: &str,
    cmdline: String,
    cwd: &str,
    path: FilePath,
    ms: u32,
    r: PromptRequest,
)
    requires
        call_ensures(prompt_request, (&policy, pid, exe, cmdline, cwd, &path, ms), r),
    ensures
        r.pid == pid,
        r.exe@ == exe@,
        r.cmdline@ == cmdline@,
        r.cwd@ == cwd@,
        r.path@ == shown(path@),
        r.ui_timeout_ms == ms,
        forall|k: int|
            0 <= k < policy@.len() && parts(policy@[k].root).is_prefix_of(parts(path@)) && (forall|
                j: int,
            |
                0 <= j < k ==> !parts((#[trigger] policy@[j]).root).is_prefix_of(parts(path@)))
                ==> {
                let w = #[trigger] policy@[k];
                &&& w.learn_object == ObjectKind::File ==> !r.always_tree && r.always_object@
                    == shown(path@)
                &&& w.learn_object == ObjectKind::Tree ==> r.always_tree && r.always_object@
                    == shown(w.root)
                &&& r.always_cwd_pinned == w.learn_cwd
            },
        (forall|j: int|
            0 <= j < policy@.len() ==> !parts((#[trigger] policy@[j]).root).is_prefix_of(
                parts(path@),
            )) ==> !r.always_tree && !r.always_cwd_pinned && r.always_object@ == shown(path@),
{
    let ws = policy@;
    let p = path@;
    assert forall|k: int|
        0 <= k < ws.len() && parts(ws[k].root).is_prefix_of(parts(p)) && (forall|j: int|
            0 <= j < k ==> !parts((#[trigger] ws[j]).root).is_prefix_of(parts(p))) implies ({
        let w = #[trigger] ws[k];
        &&& w.learn_object == ObjectKind::File ==> !r.always_tree && r.always_object@ == shown(p)
        &&& w.learn_object == ObjectKind::Tree ==> r.always_tree && r.always_object@ == shown(
            w.root,
        )
        &&& r.always_cwd_pinned == w.learn_cwd
    }) by {
        first_is_governing(ws, p, k);
        let m = choose|m: int|
            {
                &&& #[trigger] is_first_cover(ws, p, m)
                &&& r.always_object@ == shown(target_of(ws[m], p))
                &&& r.always_tree == (ws[m].learn_object == ObjectKind::Tree)
                &&& r.always_cwd_pinned == ws[m].learn_cwd
            };
        first_cover_is_one(ws, p, m, k);
    }
    if forall|j: int|
        0 <= j < ws.len() ==> !parts((#[trigger] ws[j]).root).is_prefix_of(parts(p)) {
        assert(!is_covered(ws, p));
    }
}

/// The user has five seconds less than the daemon waits, or half its time where that is
/// more; a longer wait never means less time.
pub proof fn window_leaves_a_margin(a: nat, b: nat)
    requires
        a <= b,
    ensures
        window_ms(a) <= window_ms(b),
        10 <= a <= 4_294_972 ==> a * 1000 - window_ms(a) == 5000,
        a < 10 ==> 2 * window_ms(a) == a * 1000,
        window_ms(a) <= u32::MAX,
        a > 4_294_973 ==> window_ms(a) == u32::MAX,
{
}

/// A reload that failed changes nothing and reports why; one that went well puts the
/// new policy and the stored rules in place of the old.
pub proof fn reload_is_all_or_nothing(
    loaded: Result<(Policy, StoreRead), ConfigError>,
    policy: Policy,
    rules: Rules,
    new_policy: Policy,
    new_rules: Rules,
    r: Result<(), ConfigError>,
)
    requires
        takes_reload(loaded, policy, rules, new_policy, new_rules, r),
        loaded matches Ok((_, read)) ==> read.ids_fit(),
    ensures
        r is Ok <==> loaded is Ok,
        loaded matches Err(e) ==> r == Err::<(), ConfigError>(e) && new_policy == policy
            && new_rules == rules,
        loaded matches Ok((p, read)) ==> new_policy@ == p@ && match read {
            StoreRead::Parsed(found) => new_rules.rules@.len() == found.rules@.len() && forall|
                i: int,
            |
                0 <= i < found.rules@.len() ==> {
                    let rule = #[trigger] new_rules.rules@[i];
                    &&& rule.action == found.rules@[i].action
                    &&& rule.exe == found.rules@[i].exe
                    &&& rule.object == found.rules@[i].object
                    &&& rule.object_kind == found.rules@[i].object_kind
                    &&& rule.cwd == found.rules@[i].cwd
                },
            _ => new_rules.rules@.len() == 0,
        },
{
    if let Ok((p, read)) = loaded {
        loading_keeps_every_rule(read, new_rules);
    }
}

/// The loop stops only for an error that is no interruption, and looks at exactly what
/// became readable.
pub proof fn wakeup_sees_what_is_ready(
    count: i32,
    errno: i32,
    accesses: i16,
    tree: i16,
    control: i16,
    r: Wakeup,
)
    requires
        call_ensures(wakeup, (count, errno, accesses, tree, control), r),
    ensures
        r is Fail <==> count < 0 && errno != 4,
        r is Ready <==> count > 0,
        r matches Wakeup::Ready { tree: t, control: c, accesses: a } ==> t == (tree & 1 != 0) && c
            == (control & 1 != 0) && a == (accesses & 1 != 0),
{
}

/// Each stage answers or asks for what comes next: the path for a permission to open
/// that is not our own, the process unless the path is excluded, and then the user
/// only if policy and rules leave it open.
pub proof fn stages_ask_in_order(
    ev: Event,
    own_pid: u32,
    policy: Policy,
    rules: Rules,
    path: FilePath,
    exe: &str,
    cwd: &str,
    first: Stage,
    second: Stage,
    third: Stage,
)
    requires
        call_ensures(begin, (&ev, own_pid), first),
        call_ensures(with_path, (&policy, &path), second),
        call_ensures(with_process, (&policy, &rules, &path, exe, cwd), third),
    ensures
        first == (if ev.mask & 0x0001_0000 != 0 && ev.pid != own_pid {
            Stage::NeedPath
        } else {
            Stage::Answer { allow: true }
        }),
        second == Stage::NeedProcess || second == (Stage::Answer { allow: true }),
        forall|k: int|
            0 <= k < policy@.len() && parts(policy@[k].root).is_prefix_of(parts(path@)) && (forall|
                j: int,
            |
                0 <= j < k ==> !parts((#[trigger] policy@[j]).root).is_prefix_of(parts(path@)))
                ==> (second == Stage::NeedProcess <==> !any_hit(
                (#[trigger] policy@[k]).exclude,
                path@,
            )),
        (forall|j: int|
            0 <= j < policy@.len() ==> !parts((#[trigger] policy@[j]).root).is_prefix_of(
                parts(path@),
            )) ==> second == Stage::NeedProcess,
        third == (match combined(
            policy_outcome(policy@, path@, exe@),
            verdict(rules.rules@, path@, exe@, Some(cwd@)),
        ) {
            Outcome::Allow => Stage::Answer { allow: true },
            Outcome::Deny => Stage::Answer { allow: false },
            Outcome::Prompt => Stage::NeedUser,
        }),
{
    let ws = policy@;
    let p = path@;
    assert forall|k: int|
        0 <= k < ws.len() && parts(ws[k].root).is_prefix_of(parts(p)) && (forall|j: int|
            0 <= j < k ==> !parts((#[trigger] ws[j]).root).is_prefix_of(parts(p))) implies (second
        == Stage::NeedProcess <==> !any_hit((#[trigger] ws[k]).exclude, p)) by {
        first_is_governing(ws, p, k);
        if is_let_through(ws, p) {
            let m = choose|m: int| #[trigger]
                is_first_cover(ws, p, m) && any_hit(ws[m].exclude, p);
            first_cover_is_one(ws, p, m, k);
        }
    }
    if is_let_through(ws, p) {
        let m = choose|m: int| #[trigger] is_first_cover(ws, p, m) && any_hit(ws[m].exclude, p);
        assert(parts(ws[m].root).is_prefix_of(parts(p)));
    }
}

/// The checks around a decision: whether an event is a permission to open that is not
/// our own, whether the governing watch excludes the path, what of an answer lasts, and
/// how long the user has.
pub proof fn checks_around_a_decision(
    ev: Event,
    own_pid: u32,
    mine: bool,
    policy: Policy,
    path: FilePath,
    passes: bool,
    k: int,
    d: Decision,
    lasts: Option<RuleAction>,
    seconds: u64,
    window: u32,
)
    requires
        call_ensures(concerns, (&ev, own_pid), mine),
        call_ensures(let_through, (&policy, &path), passes),
        call_ensures(always_action, (d,), lasts),
        call_ensures(answer_window_ms, (seconds,), window),
        0 <= k < policy@.len(),
        parts(policy@[k].root).is_prefix_of(parts(path@)),
        forall|j: int|
            0 <= j < k ==> !parts((#[trigger] policy@[j]).root).is_prefix_of(parts(path@)),
    ensures
        mine <==> ev.mask & 0x0001_0000 != 0 && ev.pid != own_pid,
        passes <==> any_hit(policy@[k].exclude, path@),
        lasts == Some(RuleAction::Allow) <==> d == Decision::AllowAlways,
        lasts == Some(RuleAction::Deny) <==> d == Decision::DenyAlways,
        lasts is None <==> d == Decision::AllowOnce || d == Decision::DenyOnce,
        10 <= seconds <= 4_294_972 ==> window == seconds * 1000 - 5000,
        seconds < 10 ==> window == seconds * 500,
{
    let ws = policy@;
    let p = path@;
    first_is_governing(ws, p, k);
    if is_let_through(ws, p) {
        let j = choose|j: int| #[trigger] is_first_cover(ws, p, j) && any_hit(ws[j].exclude, p);
        first_cover_is_one(ws, p, j, k);
    }
    window_leaves_a_margin(seconds as nat, seconds as nat);
}

/// A path that no watch governs is excluded by none.
pub proof fn ungoverned_path_is_not_excluded(policy: Policy, path: FilePath, passes: bool)
    requires
        call_ensures(let_through, (&policy, &path), passes),
        forall|j: int|
            0 <= j < policy@.len() ==> !parts((#[trigger] policy@[j]).root).is_prefix_of(
                parts(path@),
            ),
    ensures
        !passes,
{
    assert(!is_covered(policy@, path@));
}

/// Judging goes by the governing watch where no rule names the executable, and a rule
/// that fits and denies always denies.
pub proof fn judgement_goes_by_watch_and_rules(
    policy: Policy,
    rules: Rules,
    path: FilePath,
    exe: &str,
    cwd: &str,
    r: Outcome,
    k: int,
    i: int,
)
    requires
        call_ensures(judge, (&policy, &rules, &path, exe, cwd), r),
        0 <= k < policy@.len(),
        parts(policy@[k].root).is_prefix_of(parts(path@)),
        forall|j: int|
            0 <= j < k ==> !parts((#[trigger] policy@[j]).root).is_prefix_of(parts(path@)),
    ensures
        (forall|m: int| 0 <= m < rules.rules@.len() ==> (#[trigger] rules.rules@[m]).exe@ != exe@)
            ==> r == (if any_hit(policy@[k].allow, encode_utf8(exe@)) {
            Outcome::Allow
        } else {
            match policy@[k].default_action {
                Action::Prompt => Outcome::Prompt,
                Action::Allow => Outcome::Allow,
                Action::Deny => Outcome::Deny,
            }
        }),
        0 <= i < rules.rules@.len() && rules.rules@[i].exe@ == exe@ && rules.rules@[i].action
            == RuleAction::Deny && rules.rules@[i].cwd is None && parts(rules.rules@[i].object@)
            == parts(path@) ==> r == Outcome::Deny,
{
    governing_watch_decides(policy@, path@, exe@, k);
    if forall|m: int| 0 <= m < rules.rules@.len() ==> (#[trigger] rules.rules@[m]).exe@ != exe@ {
        unnamed_executable_has_no_verdict(rules.rules@, path@, exe@, Some(cwd@));
    }
    if 0 <= i < rules.rules@.len() && rules.rules@[i].exe@ == exe@ && rules.rules@[i].action
        == RuleAction::Deny && rules.rules@[i].cwd is None && parts(rules.rules@[i].object@)
        == parts(path@) {
        let all = parts(path@);
        assert(all.subrange(0, all.len() as int) =~= all);
        fitting_rule_has_the_say(rules.rules@, i, path@, exe@, Some(cwd@));
    }
}

/// Settling lets the access through exactly if the user chose so, once or always, and
/// leaves a rule, made at that time, only for an "Always" decision.
pub proof fn settling_takes_the_reply(
    now: u64,
    policy: Policy,
    rules: &mut Rules,
    path: FilePath,
    exe: &str,
    cwd: &str,
    reply: Prompted,
    s: Settled,
)
    requires
        call_ensures(settle_at, (now, &policy, rules, &path, exe, cwd, reply), s) || call_ensures(
            settle,
            (&policy, rules, &path, exe, cwd, reply),
            s,
        ) || call_ensures(try_settle, (&policy, rules, &path, exe, cwd, reply), Some(s)),
    ensures
        s.allow <==> reply == Prompted::Answer(Decision::AllowOnce) || reply == Prompted::Answer(
            Decision::AllowAlways,
        ),
        s.learned ==> reply == Prompted::Answer(Decision::AllowAlways) || reply == Prompted::Answer(
            Decision::DenyAlways,
        ),
        !s.learned ==> *final(rules) == *old(rules),
        s.learned ==> {
            let rule = final(rules).rules@.last();
            &&& final(rules).rules@.len() == old(rules).rules@.len() + 1
            &&& rule.exe@ == exe@
            &&& rule.action == RuleAction::Allow <==> s.allow
            &&& rule.action == RuleAction::Deny <==> !s.allow
        },
        s.learned && call_ensures(settle_at, (now, &policy, rules, &path, exe, cwd, reply), s)
            ==> final(rules).rules@.last().created_unix == now,
{
    if s.learned {
        assert(final(rules).rules@.drop_last().len() == old(rules).rules@.len());
    }
}

/// Settling is refused only where a rule would need an id and none is left, and changes
/// nothing then.
pub proof fn settling_is_refused_without_ids(
    policy: Policy,
    rules: &mut Rules,
    path: FilePath,
    exe: &str,
    cwd: &str,
    reply: Prompted,
)
    requires
        call_ensures(try_settle, (&policy, rules, &path, exe, cwd, reply), None::<Settled>),
    ensures
        *final(rules) == *old(rules),
        old(rules).next_id == u64::MAX,
        reply == Prompted::Answer(Decision::AllowAlways) || reply == Prompted::Answer(
            Decision::DenyAlways,
        ),
{
}

/// A reload puts the new policy and rules in place, or leaves everything as it was.
pub proof fn reloading_is_all_or_nothing(
    policy: &mut Policy,
    rules: &mut Rules,
    loaded: Result<(Policy, StoreRead), ConfigError>,
    r: Result<(), ConfigError>,
)
    requires
        loaded matches Ok((_, read)) ==> read.ids_fit(),
        call_ensures(take_reload, (policy, rules, loaded), r) || call_ensures(
            try_take_reload,
            (policy, rules, loaded),
            Some(r),
        ),
    ensures
        r is Ok <==> loaded is Ok,
        loaded matches Err(e) ==> r == Err::<(), ConfigError>(e) && *final(policy) == *old(policy)
            && *final(rules) == *old(rules),
        loaded matches Ok((p, read)) ==> final(policy)@ == p@ && match read {
            StoreRead::Parsed(found) => final(rules).rules@.len() == found.rules@.len(),
            _ => final(rules).rules@.len() == 0,
        },
{
    reload_is_all_or_nothing(loaded, *old(policy), *old(rules), *final(policy), *final(rules), r);
}

} // verus!
