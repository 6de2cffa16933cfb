//! Policy: given the path being accessed and the executable of the accessing
//! process, decide whether to allow, prompt or deny.

use crate::globs::{
    any_hit, first_beyond, first_fault, gather, is_plain, listed_path_matches, oversized,
    oversized_is_fixed, path_globs, PatternSet,
};
use crate::paths::{parts, under, under_is_an_order, FilePath};
use crate::rules::{
    now_unix, opt_str, opt_text, rule_matches, verdict, LearnedRule, ObjectKind, RuleAction,
};
use crate::text::texts;
use vstd::prelude::*;
use vstd::string::*;
use vstd::utf8::*;

verus! {

/// The action to take when no allow pattern matches.
#[derive(Debug, Clone, Copy, PartialEq, Eq, Structural)]
pub enum Action {
    Prompt,
    Allow,
    Deny,
}

/// Outcome of evaluating an access against policy.
#[derive(Debug, Clone, Copy, PartialEq, Eq, Structural)]
pub enum Outcome {
    Allow,
    Prompt,
    Deny,
}

/// The outcome that an action comes to.
pub open spec fn action_outcome(a: Action) -> Outcome {
    match a {
        Action::Prompt => Outcome::Prompt,
        Action::Allow => Outcome::Allow,
        Action::Deny => Outcome::Deny,
    }
}

impl From<Action> for Outcome {
    fn from(a: Action) -> (r: Outcome) {
        match a {
            Action::Prompt => Outcome::Prompt,
            Action::Allow => Outcome::Allow,
            Action::Deny => Outcome::Deny,
        }
    }
}

impl vstd::std_specs::convert::FromSpecImpl<Action> for Outcome {
    open spec fn obeys_from_spec() -> bool {
        true
    }

    open spec fn from_spec(a: Action) -> Outcome {
        action_outcome(a)
    }
}

/// The configured outcome and the learned verdict together: a denial on either
/// side wins, then an allowance on either side.
pub open spec fn combined(cfg: Outcome, learned: Option<RuleAction>) -> Outcome {
    if learned == Some(RuleAction::Deny) || cfg == Outcome::Deny {
        Outcome::Deny
    } else if learned is Some || cfg == Outcome::Allow {
        Outcome::Allow
    } else {
        Outcome::Prompt
    }
}

/// Combines the configured outcome with the learned verdict.
pub fn combine(cfg: Outcome, learned: Option<RuleAction>) -> (r: Outcome)
    ensures
        r == combined(cfg, learned),
{
    match (cfg, learned) {
        (_, Some(RuleAction::Deny)) => Outcome::Deny,
        (Outcome::Deny, _) => Outcome::Deny,
        (_, Some(RuleAction::Allow)) => Outcome::Allow,
        (Outcome::Allow, _) => Outcome::Allow,
        (Outcome::Prompt, None) => Outcome::Prompt,
    }
}

/// What a watch policy holds.
pub struct WatchView {
    /// The root of the tree it governs.
    pub root: Seq<u8>,
    /// The patterns for executables that need no prompt.
    pub allow: Seq<(Seq<char>, bool)>,
    /// What happens to all others.
    pub default_action: Action,
    /// What an "Always" rule records.
    pub learn_object: ObjectKind,
    /// Whether an "Always" rule is limited to the working directory.
    pub learn_cwd: bool,
    /// The patterns for paths that stay unwatched.
    pub exclude: Seq<(Seq<char>, bool)>,
}

/// A single watched tree with its compiled patterns.
pub struct WatchPolicy {
    root: FilePath,
    allow: PatternSet,
    default_action: Action,
    learn_object: ObjectKind,
    learn_cwd: bool,
    exclude: PatternSet,
}

impl View for WatchPolicy {
    type V = WatchView;

    closed spec fn view(&self) -> WatchView {
        WatchView {
            root: self.root@,
            allow: self.allow@,
            default_action: self.default_action,
            learn_object: self.learn_object,
            learn_cwd: self.learn_cwd,
            exclude: self.exclude@,
        }
    }
}

/// The outcome of a watch for an executable.
pub open spec fn watch_outcome(w: WatchView, exe: Seq<char>) -> Outcome {
    if any_hit(w.allow, encode_utf8(exe)) {
        Outcome::Allow
    } else {
        action_outcome(w.default_action)
    }
}

/// The object of an "Always" rule for an access of `path`.
pub open spec fn target_of(w: WatchView, path: Seq<u8>) -> Seq<u8> {
    match w.learn_object {
        ObjectKind::Tree => w.root,
        ObjectKind::File => path,
    }
}

/// Whether `rule` is what an "Always" decision on an access records.
pub open spec fn is_learned(
    rule: LearnedRule,
    w: WatchView,
    action: RuleAction,
    exe: Seq<char>,
    path: Seq<u8>,
    cwd: Option<Seq<char>>,
) -> bool {
    &&& rule.id == 0
    &&& rule.action == action
    &&& rule.exe@ == exe
    &&& rule.object@ == target_of(w, path)
    &&& rule.object_kind == w.learn_object
    &&& opt_text(rule.cwd) == (if w.learn_cwd {
        cwd
    } else {
        None
    })
}

/// The outcome for an executable, given whether an allow pattern matched.
pub fn outcome_for(listed: bool, default_action: Action) -> (r: Outcome)
    ensures
        r == (if listed {
            Outcome::Allow
        } else {
            action_outcome(default_action)
        }),
{
    if listed {
        Outcome::Allow
    } else {
        Outcome::from(default_action)
    }
}

impl WatchPolicy {
    /// Compiles a watch policy. `allow_patterns` are matched against executable
    /// paths, `exclude_patterns` against accessed ones; `*` does not cross `/`,
    /// `**` does. The first pattern that is refused gives the message, allow
    /// patterns before exclude patterns; then the first list that is refused as a
    /// whole.
    pub fn new(
        root: FilePath,
        allow_patterns: &Vec<String>,
        default_action: Action,
        learn_object: ObjectKind,
        learn_cwd: bool,
        exclude_patterns: &Vec<String>,
    ) -> (r: Result<WatchPolicy, String>)
        ensures
            r is Err <==> refusal(texts(allow_patterns@), texts(exclude_patterns@)) is Some,
            refusal_is_fixed(texts(allow_patterns@), texts(exclude_patterns@)) ==> (r matches Err(
                e,
            ) ==> refusal(texts(allow_patterns@), texts(exclude_patterns@)) == Some(e@)),
            r matches Ok(w) ==> w@ == (WatchView {
                root: root@,
                allow: path_globs(texts(allow_patterns@)),
                default_action,
                learn_object,
                learn_cwd,
                exclude: path_globs(texts(exclude_patterns@)),
            }),
    {
        let allow = match gather(allow_patterns) {
            Ok(b) => b,
            Err(e) => {
                return Err(e);
            },
        };
        let exclude = match gather(exclude_patterns) {
            Ok(b) => b,
            Err(e) => {
                return Err(e);
            },
        };
        let allow = match allow.build() {
            Ok(s) => s,
            Err(e) => {
                return Err(e);
            },
        };
        let exclude = match exclude.build() {
            Ok(s) => s,
            Err(e) => {
                return Err(e);
            },
        };
        Ok(WatchPolicy { root, allow, default_action, learn_object, learn_cwd, exclude })
    }

    /// The object an "Always" rule would target for an access of `path`. Both the
    /// prompt and the recorded rule go by it.
    pub fn always_target(&self, path: &FilePath) -> (r: (FilePath, ObjectKind))
        ensures
            r.0@ == target_of(self@, path@),
            r.1 == self@.learn_object,
    {
        match self.learn_object {
            ObjectKind::Tree => (self.root.clone(), ObjectKind::Tree),
            ObjectKind::File => (path.clone(), ObjectKind::File),
        }
    }

    /// Whether "Always" rules of this watch are limited to the working directory.
    pub fn learn_cwd(&self) -> (r: bool)
        ensures
            r == self@.learn_cwd,
    {
        self.learn_cwd
    }

    /// The rule that an "Always" decision records, made at `created_unix`.
    pub fn learned_rule_at(
        &self,
        created_unix: u64,
        action: RuleAction,
        exe: &str,
        path: &FilePath,
        cwd: Option<&str>,
    ) -> (r: LearnedRule)
        ensures
            is_learned(r, self@, action, exe@, path@, opt_str(cwd)),
            r.created_unix == created_unix,
    {
        let (object, object_kind) = self.always_target(path);
        let cwd = if self.learn_cwd {
            match cwd {
                Some(c) => Some(c.to_owned()),
                None => None,
            }
        } else {
            None
        };
        LearnedRule {
            id: 0,
            created_unix,
            action,
            exe: exe.to_owned(),
            object,
            object_kind,
            cwd,
        }
    }

    /// The rule that an "Always" decision records now.
    pub fn learned_rule(
        &self,
        action: RuleAction,
        exe: &str,
        path: &FilePath,
        cwd: Option<&str>,
    ) -> (r: LearnedRule)
        ensures
            is_learned(r, self@, action, exe@, path@, opt_str(cwd)),
    {
        self.learned_rule_at(now_unix(), action, exe, path, cwd)
    }

    /// Whether this policy governs accesses to `path`.
    pub fn covers(&self, path: &FilePath) -> (r: bool)
        ensures
            r == under(path@, self@.root),
    {
        path.starts_with(&self.root)
    }

    /// Whether `path` matches an exclude pattern. A directory that does is left
    /// out with everything below it.
    pub fn is_excluded(&self, path: &FilePath) -> (r: bool)
        ensures
            r == any_hit(self@.exclude, path@),
    {
        self.exclude.matches(&path.bytes)
    }

    /// The outcome for a process whose executable is `exe`.
    pub fn evaluate(&self, exe: &str) -> (r: Outcome)
        ensures
            r == watch_outcome(self@, exe@),
    {
        outcome_for(self.allow.matches(&exe.as_bytes_vec()), self.default_action)
    }

    /// The root of the watched tree.
    pub fn root(&self) -> (r: &FilePath)
        ensures
            r@ == self@.root,
    {
        &self.root
    }
}

/// The message with which the patterns of a watch are refused, where they are.
pub open spec fn refusal(allow: Seq<Seq<char>>, exclude: Seq<Seq<char>>) -> Option<Seq<char>> {
    if first_fault(allow) is Some {
        first_fault(allow)
    } else if first_fault(exclude) is Some {
        first_fault(exclude)
    } else if oversized(allow) is Some {
        oversized(allow)
    } else {
        oversized(exclude)
    }
}

/// Whether it is fixed which message that is: a single pattern is refused, or a list
/// as a whole where its patterns fail in a fixed order.
pub open spec fn refusal_is_fixed(allow: Seq<Seq<char>>, exclude: Seq<Seq<char>>) -> bool {
    if first_fault(allow) is Some || first_fault(exclude) is Some {
        true
    } else if oversized(allow) is Some {
        oversized_is_fixed(allow)
    } else {
        oversized_is_fixed(exclude)
    }
}

/// All watch policies, in the order in which they are asked.
pub struct Policy {
    watches: Vec<WatchPolicy>,
}

impl View for Policy {
    type V = Seq<WatchView>;

    closed spec fn view(&self) -> Seq<WatchView> {
        views(self.watches@)
    }
}

/// What a list of watch policies holds.
pub open spec fn views(watches: Seq<WatchPolicy>) -> Seq<WatchView> {
    watches.map_values(|w: WatchPolicy| w@)
}

/// Whether watch `k` is the first that governs `path`.
pub open spec fn is_first_cover(ws: Seq<WatchView>, path: Seq<u8>, k: int) -> bool {
    &&& 0 <= k < ws.len()
    &&& under(path, ws[k].root)
    &&& forall|j: int| 0 <= j < k ==> !under(path, (#[trigger] ws[j]).root)
}

/// Whether any watch governs `path`.
pub open spec fn is_covered(ws: Seq<WatchView>, path: Seq<u8>) -> bool {
    exists|k: int| 0 <= k < ws.len() && under(path, (#[trigger] ws[k]).root)
}

/// The outcome of the first watch that governs `path`; allowed where none does.
pub open spec fn policy_outcome(ws: Seq<WatchView>, path: Seq<u8>, exe: Seq<char>) -> Outcome
    decreases ws.len(),
{
    if ws.len() == 0 {
        Outcome::Allow
    } else if under(path, ws[0].root) {
        watch_outcome(ws[0], exe)
    } else {
        policy_outcome(ws.drop_first(), path, exe)
    }
}

/// The first watch that governs a path has the say on it, whatever others do.
pub proof fn first_cover_decides(ws: Seq<WatchView>, path: Seq<u8>, exe: Seq<char>, k: int)
    requires
        is_first_cover(ws, path, k),
    ensures
        policy_outcome(ws, path, exe) == watch_outcome(ws[k], exe),
    decreases ws.len(),
{
    if k > 0 {
        let rest = ws.drop_first();
        assert(!under(path, ws[0].root));
        assert forall|j: int| 0 <= j < k - 1 implies !under(path, (#[trigger] rest[j]).root) by {
            assert(rest[j] == ws[j + 1]);
        }
        first_cover_decides(rest, path, exe, k - 1);
    }
}

/// A path that no watch governs is allowed: unrelated traffic is never blocked.
pub proof fn uncovered_path_is_allowed(ws: Seq<WatchView>, path: Seq<u8>, exe: Seq<char>)
    requires
        !is_covered(ws, path),
    ensures
        policy_outcome(ws, path, exe) == Outcome::Allow,
    decreases ws.len(),
{
    if ws.len() > 0 {
        assert(!under(path, ws[0].root));
        let rest = ws.drop_first();
        assert forall|k: int| 0 <= k < rest.len() implies !under(
            path,
            (#[trigger] rest[k]).root,
        ) by {
            assert(rest[k] == ws[k + 1]);
        }
        uncovered_path_is_allowed(rest, path, exe);
    }
}

impl Policy {
    /// The policy made of these watches.
    pub fn new(watches: Vec<WatchPolicy>) -> (r: Policy)
        ensures
            r@ == views(watches@),
    {
        Policy { watches }
    }

    /// The position of the first watch that governs `path`.
    pub fn covering(&self, path: &FilePath) -> (r: Option<usize>)
        ensures
            match r {
                Some(k) => is_first_cover(self@, path@, k as int),
                None => !is_covered(self@, path@),
            },
    {
        let mut i: usize = 0;
        while i < self.watches.len()
            invariant
                i <= self.watches.len(),
                forall|j: int| 0 <= j < i ==> !under(path@, (#[trigger] self@[j]).root),
            decreases self.watches.len() - i,
        {
            assert(self@[i as int] == self.watches@[i as int]@);
            if self.watches[i].covers(path) {
                return Some(i);
            }
            i += 1;
        }
        None
    }

    /// The outcome for an access to `path` by a process with executable `exe`.
    pub fn evaluate(&self, path: &FilePath, exe: &str) -> (r: Outcome)
        ensures
            r == policy_outcome(self@, path@, exe@),
    {
        match self.covering(path) {
            Some(k) => {
                proof {
                    first_cover_decides(self@, path@, exe@, k as int);
                }
                assert(self@[k as int] == self.watches@[k as int]@);
                self.watches[k].evaluate(exe)
            },
            None => {
                proof {
                    uncovered_path_is_allowed(self@, path@, exe@);
                }
                Outcome::Allow
            },
        }
    }

    /// The watches, in order.
    pub fn watches(&self) -> (r: &Vec<WatchPolicy>)
        ensures
            views(r@) == self@,
    {
        &self.watches
    }
}

/// An executable listed by its own path is allowed, whatever the default.
pub proof fn listed_executable_is_allowed(
    ws: Seq<WatchView>,
    path: Seq<u8>,
    k: int,
    patterns: Seq<Seq<char>>,
    i: int,
)
    requires
        is_first_cover(ws, path, k),
        ws[k].allow == path_globs(patterns),
        0 <= i < patterns.len(),
        is_plain(patterns[i]),
    ensures
        policy_outcome(ws, path, patterns[i]) == Outcome::Allow,
{
    first_cover_decides(ws, path, patterns[i], k);
    listed_path_matches(patterns, i);
}

/// A learned rule answers the very access it was learned from.
pub proof fn learned_rule_answers_its_access(
    rule: LearnedRule,
    w: WatchView,
    action: RuleAction,
    exe: Seq<char>,
    path: Seq<u8>,
    cwd: Option<Seq<char>>,
)
    requires
        is_learned(rule, w, action, exe, path, cwd),
        under(path, w.root),
    ensures
        rule_matches(rule, path, exe, cwd),
{
    under_is_an_order(path, path, path);
    assert(opt_text(rule.cwd) is Some <==> rule.cwd is Some);
}

/// Once a denial is learned, the same access is denied whatever is configured;
/// once an allowance is learned, it is allowed unless something else denies it.
pub proof fn learned_decision_takes_effect(
    rules: Seq<LearnedRule>,
    rule: LearnedRule,
    w: WatchView,
    cfg: Outcome,
    exe: Seq<char>,
    path: Seq<u8>,
    cwd: Option<Seq<char>>,
)
    requires
        is_learned((LearnedRule { id: 0, ..rule }), w, rule.action, exe, path, cwd),
        under(path, w.root),
    ensures
        rule.action == RuleAction::Deny ==> combined(
            cfg,
            verdict(rules.push(rule), path, exe, cwd),
        ) == Outcome::Deny,
        rule.action == RuleAction::Allow && cfg != Outcome::Deny && verdict(rules, path, exe, cwd)
            != Some(RuleAction::Deny) ==> combined(cfg, verdict(rules.push(rule), path, exe, cwd))
            == Outcome::Allow,
{
    learned_rule_answers_its_access(
        (LearnedRule { id: 0, ..rule }),
        w,
        rule.action,
        exe,
        path,
        cwd,
    );
    let all = rules.push(rule);
    let n = rules.len() as int;
    assert(all[n] == rule);
    assert(rule_matches(all[n], path, exe, cwd));
    if verdict(rules, path, exe, cwd) != Some(RuleAction::Deny) && rule.action
        == RuleAction::Allow {
        assert forall|i: int| 0 <= i < all.len() && rule_matches(#[trigger] all[i], path, exe, cwd)
            implies all[i].action == RuleAction::Allow by {
            if i < n {
                assert(all[i] == rules[i]);
            }
        }
    }
}

/// A denial on either side is final.
pub proof fn any_denial_is_final(cfg: Outcome, learned: Option<RuleAction>)
    ensures
        combined(cfg, learned) == Outcome::Deny <==> cfg == Outcome::Deny || learned == Some(
            RuleAction::Deny,
        ),
        combined(cfg, None) == cfg,
{
}

/// The watch that governs a path, the first whose root's components begin the path's,
/// decides: allowed for an executable that one of its patterns matches, or else by its
/// default action.
pub proof fn governing_watch_decides(ws: Seq<WatchView>, path: Seq<u8>, exe: Seq<char>, k: int)
    requires
        0 <= k < ws.len(),
        parts(ws[k].root).is_prefix_of(parts(path)),
        forall|j: int| 0 <= j < k ==> !parts((#[trigger] ws[j]).root).is_prefix_of(parts(path)),
    ensures
        any_hit(ws[k].allow, encode_utf8(exe)) ==> policy_outcome(ws, path, exe) == Outcome::Allow,
        !any_hit(ws[k].allow, encode_utf8(exe)) ==> match ws[k].default_action {
            Action::Prompt => policy_outcome(ws, path, exe) == Outcome::Prompt,
            Action::Allow => policy_outcome(ws, path, exe) == Outcome::Allow,
            Action::Deny => policy_outcome(ws, path, exe) == Outcome::Deny,
        },
{
    assert forall|j: int| 0 <= j < k implies !under(path, (#[trigger] ws[j]).root) by {}
    first_cover_decides(ws, path, exe, k);
}

/// A path under no root is left alone.
pub proof fn ungoverned_path_is_allowed(ws: Seq<WatchView>, path: Seq<u8>, exe: Seq<char>)
    requires
        forall|j: int|
            0 <= j < ws.len() ==> !parts((#[trigger] ws[j]).root).is_prefix_of(parts(path)),
    ensures
        policy_outcome(ws, path, exe) == Outcome::Allow,
{
    assert(!is_covered(ws, path));
    uncovered_path_is_allowed(ws, path, exe);
}

/// Without a learned verdict the configuration decides; a learned denial always denies,
/// and a learned allowance allows unless the configuration denies.
pub proof fn learned_verdict_joins_the_configured(cfg: Outcome)
    ensures
        combined(cfg, None) == cfg,
        combined(cfg, Some(RuleAction::Deny)) == Outcome::Deny,
        combined(Outcome::Deny, Some(RuleAction::Allow)) == Outcome::Deny,
        combined(Outcome::Prompt, Some(RuleAction::Allow)) == Outcome::Allow,
        combined(Outcome::Allow, Some(RuleAction::Allow)) == Outcome::Allow,
        forall|learned: Option<RuleAction>, r: Outcome| #[trigger]
            call_ensures(combine, (cfg, learned), r) ==> r == (if learned == Some(RuleAction::Deny)
            {
                Outcome::Deny
            } else if learned is None || cfg == Outcome::Deny {
                cfg
            } else {
                Outcome::Allow
            }),
{
}

/// A rule learned from an access records it: its executable, the file itself or the
/// root of the watch, and the working directory where the watch says so.
pub proof fn learned_rule_records_the_access(
    rule: LearnedRule,
    w: WatchView,
    action: RuleAction,
    exe: Seq<char>,
    path: Seq<u8>,
    cwd: Option<Seq<char>>,
)
    requires
        is_learned(rule, w, action, exe, path, cwd),
    ensures
        rule.id == 0,
        rule.action == action,
        rule.exe@ == exe,
        w.learn_object == ObjectKind::File ==> rule.object_kind == ObjectKind::File && rule.object@
            == path,
        w.learn_object == ObjectKind::Tree ==> rule.object_kind == ObjectKind::Tree && rule.object@
            == w.root,
        w.learn_cwd && cwd is Some ==> rule.cwd is Some && Some(rule.cwd->0@) == cwd,
        w.learn_cwd && cwd is None ==> rule.cwd is None,
        !w.learn_cwd ==> rule.cwd is None,
{
}

/// A watch governs what lies under its root, and its patterns answer for paths and
/// executables.
pub proof fn watch_answers_for_its_tree(
    w: WatchPolicy,
    path: FilePath,
    exe: &str,
    covers: bool,
    excluded: bool,
    outcome: Outcome,
    target: (FilePath, ObjectKind),
)
    requires
        call_ensures(WatchPolicy::covers, (&w, &path), covers),
        call_ensures(WatchPolicy::is_excluded, (&w, &path), excluded),
        call_ensures(WatchPolicy::evaluate, (&w, exe), outcome),
        call_ensures(WatchPolicy::always_target, (&w, &path), target),
    ensures
        covers == parts(w@.root).is_prefix_of(parts(path@)),
        excluded == any_hit(w@.exclude, path@),
        any_hit(w@.allow, encode_utf8(exe@)) ==> outcome == Outcome::Allow,
        !any_hit(w@.allow, encode_utf8(exe@)) ==> match w@.default_action {
            Action::Prompt => outcome == Outcome::Prompt,
            Action::Allow => outcome == Outcome::Allow,
            Action::Deny => outcome == Outcome::Deny,
        },
        w@.learn_object == ObjectKind::File ==> target.0@ == path@ && target.1 == ObjectKind::File,
        w@.learn_object == ObjectKind::Tree ==> target.0@ == w@.root && target.1
            == ObjectKind::Tree,
{
}

/// A watch is made as it is configured, and a policy holds its watches in order.
pub proof fn watch_is_as_configured(
    root: FilePath,
    allow: Vec<String>,
    action: Action,
    kind: ObjectKind,
    pins: bool,
    exclude: Vec<String>,
    r: Result<WatchPolicy, String>,
    watches: Vec<WatchPolicy>,
    policy: Policy,
)
    requires
        call_ensures(WatchPolicy::new, (root, &allow, action, kind, pins, &exclude), r),
        call_ensures(Policy::new, (watches,), policy),
    ensures
        r matches Ok(w) ==> w@.root == root@ && w@.default_action == action && w@.learn_object
            == kind && w@.learn_cwd == pins && w@.allow.len() == allow@.len() && w@.exclude.len()
            == exclude@.len(),
        policy@.len() == watches@.len(),
        forall|i: int| 0 <= i < watches@.len() ==> #[trigger] policy@[i] == watches@[i]@,
{
}

/// The first watch whose root's components begin the path's governs it, if there is one.
pub proof fn first_root_above_governs(policy: Policy, path: FilePath, r: Option<usize>)
    requires
        call_ensures(Policy::covering, (&policy, &path), r),
    ensures
        r matches Some(k) ==> k < policy@.len() && parts(policy@[k as int].root).is_prefix_of(
            parts(path@),
        ) && forall|j: int|
            0 <= j < k ==> !parts((#[trigger] policy@[j]).root).is_prefix_of(parts(path@)),
        r is None ==> forall|j: int|
            0 <= j < policy@.len() ==> !parts((#[trigger] policy@[j]).root).is_prefix_of(
                parts(path@),
            ),
{
    if r is None {
        assert forall|j: int| 0 <= j < policy@.len() implies !parts(
            (#[trigger] policy@[j]).root,
        ).is_prefix_of(parts(path@)) by {
            assert(under(path@, policy@[j].root) || !under(path@, policy@[j].root));
        }
    }
}

/// A learned rule is made from the access, the watch and the time of the reading.
pub proof fn learning_takes_the_access(
    w: WatchPolicy,
    now: u64,
    action: RuleAction,
    exe: &str,
    path: FilePath,
    cwd: Option<&str>,
    r: LearnedRule,
    listed: bool,
    default_action: Action,
    outcome: Outcome,
)
    requires
        call_ensures(WatchPolicy::learned_rule_at, (&w, now, action, exe, &path, cwd), r),
        call_ensures(outcome_for, (listed, default_action), outcome),
    ensures
        r.created_unix == now,
        r.action == action,
        r.exe@ == exe@,
        w@.learn_object == ObjectKind::File ==> r.object_kind == ObjectKind::File && r.object@
            == path@,
        w@.learn_object == ObjectKind::Tree ==> r.object_kind == ObjectKind::Tree && r.object@
            == w@.root,
        w@.learn_cwd && cwd is Some ==> r.cwd is Some && r.cwd->0@ == (cwd->0)@,
        !w@.learn_cwd || cwd is None ==> r.cwd is None,
        listed ==> outcome == Outcome::Allow,
        !listed ==> match default_action {
            Action::Prompt => outcome == Outcome::Prompt,
            Action::Allow => outcome == Outcome::Allow,
            Action::Deny => outcome == Outcome::Deny,
        },
{
}

/// Patterns are refused if one of either list is, by itself or with the others; those
/// that are allowed come first, and a pattern at fault by itself before all others.
pub proof fn either_list_can_be_refused(allow: Seq<Seq<char>>, exclude: Seq<Seq<char>>)
    ensures
        refusal(allow, exclude) is None <==> first_fault(allow) is None && first_fault(exclude)
            is None && oversized(allow) is None && oversized(exclude) is None,
        first_fault(allow) is Some ==> refusal(allow, exclude) == first_fault(allow),
        first_fault(allow) is None && first_fault(exclude) is Some ==> refusal(allow, exclude)
            == first_fault(exclude),
        first_fault(allow) is None && first_fault(exclude) is None && oversized(allow) is Some
            ==> refusal(allow, exclude) == oversized(allow),
        first_fault(allow) is None && first_fault(exclude) is None && oversized(allow) is None
            ==> refusal(allow, exclude) == oversized(exclude),
        first_fault(allow) is Some || first_fault(exclude) is Some ==> refusal_is_fixed(
            allow,
            exclude,
        ),
        first_beyond(allow) is Some && first_beyond(exclude) is Some ==> refusal_is_fixed(
            allow,
            exclude,
        ),
{
}

} // verus!
