//! Learned rules: the schema, matching, and the store's id allocation.
//!
//! A rule pins a literal executable path to an object (a file or a whole tree),
//! optionally for one working directory only. Matching never globs.

use crate::paths::{parts, same_path, under, FilePath};
use crate::text::same_text;
use vstd::prelude::*;
use vstd::string::*;

verus! {

/// What a learned rule does when it matches.
#[derive(Debug, Clone, Copy, PartialEq, Eq, Structural)]
pub enum RuleAction {
    Allow,
    Deny,
}

/// Whether a rule's object is a single file or the root of a tree.
#[derive(Debug, Clone, Copy, PartialEq, Eq, Structural)]
pub enum ObjectKind {
    File,
    Tree,
}

/// One persisted decision.
#[derive(Debug, PartialEq, Eq)]
pub struct LearnedRule {
    /// Stable identifier, never reused. `0` marks a rule that has none yet.
    pub id: u64,
    /// Creation time, seconds since the Unix epoch.
    pub created_unix: u64,
    pub action: RuleAction,
    /// Literal executable path as observed.
    pub exe: String,
    /// The file, or the root of the tree, that the rule covers.
    pub object: FilePath,
    pub object_kind: ObjectKind,
    /// The working directory the rule is limited to, where it is.
    pub cwd: Option<String>,
}

/// The text of an optional string.
pub open spec fn opt_text(s: Option<String>) -> Option<Seq<char>> {
    match s {
        Some(s) => Some(s@),
        None => None,
    }
}

/// The text of an optional string slice.
pub open spec fn opt_str(s: Option<&str>) -> Option<Seq<char>> {
    match s {
        Some(s) => Some(s@),
        None => None,
    }
}

impl Clone for LearnedRule {
    fn clone(&self) -> (r: LearnedRule)
        ensures
            same_rule(r, *self),
    {
        LearnedRule {
            id: self.id,
            created_unix: self.created_unix,
            action: self.action,
            exe: self.exe.clone(),
            object: self.object.clone(),
            object_kind: self.object_kind,
            cwd: match &self.cwd {
                Some(c) => Some(c.clone()),
                None => None,
            },
        }
    }
}

/// Whether two rules hold the same data.
pub open spec fn same_rule(a: LearnedRule, b: LearnedRule) -> bool {
    &&& a.id == b.id
    &&& a.created_unix == b.created_unix
    &&& a.action == b.action
    &&& a.exe@ == b.exe@
    &&& a.object@ == b.object@
    &&& a.object_kind == b.object_kind
    &&& opt_text(a.cwd) == opt_text(b.cwd)
}

/// Whether an object of a kind takes in a path.
pub open spec fn object_covers(kind: ObjectKind, object: Seq<u8>, path: Seq<u8>) -> bool {
    match kind {
        ObjectKind::File => same_path(path, object),
        ObjectKind::Tree => under(path, object),
    }
}

/// Whether a rule applies to an access of `path` by `exe` from `cwd`.
pub open spec fn rule_matches(
    rule: LearnedRule,
    path: Seq<u8>,
    exe: Seq<char>,
    cwd: Option<Seq<char>>,
) -> bool {
    &&& rule.exe@ == exe
    &&& object_covers(rule.object_kind, rule.object@, path)
    &&& rule.cwd is Some ==> cwd == opt_text(rule.cwd)
}

impl LearnedRule {
    /// Whether this rule applies to an access of `path` by `exe` from `cwd`.
    pub fn matches(&self, path: &FilePath, exe: &str, cwd: Option<&str>) -> (r: bool)
        ensures
            r == rule_matches(*self, path@, exe@, opt_str(cwd)),
    {
        if !same_text(self.exe.as_str(), exe) {
            return false;
        }
        let object_ok = match self.object_kind {
            ObjectKind::File => path.same_as(&self.object),
            ObjectKind::Tree => path.starts_with(&self.object),
        };
        if !object_ok {
            return false;
        }
        match &self.cwd {
            None => true,
            Some(rule_cwd) => match cwd {
                None => false,
                Some(cwd) => same_text(cwd, rule_cwd.as_str()),
            },
        }
    }
}

/// The learned rules and the id allocator.
#[derive(Debug)]
pub struct Rules {
    /// The next id to hand out. It only ever climbs.
    pub next_id: u64,
    pub rules: Vec<LearnedRule>,
}

impl Default for Rules {
    fn default() -> (r: Rules)
        ensures
            r.next_id == 0,
            r.rules@ == Seq::<LearnedRule>::empty(),
    {
        Rules { next_id: 0, rules: Vec::new() }
    }
}

/// The verdict of a rule set: a matching denial wins, then a matching allowance.
pub open spec fn verdict(
    rules: Seq<LearnedRule>,
    path: Seq<u8>,
    exe: Seq<char>,
    cwd: Option<Seq<char>>,
) -> Option<RuleAction> {
    if exists|i: int|
        0 <= i < rules.len() && rule_matches(#[trigger] rules[i], path, exe, cwd)
            && rules[i].action == RuleAction::Deny {
        Some(RuleAction::Deny)
    } else if exists|i: int|
        0 <= i < rules.len() && rule_matches(#[trigger] rules[i], path, exe, cwd) {
        Some(RuleAction::Allow)
    } else {
        None
    }
}

/// The largest id among the rules; `0` for none.
pub open spec fn top_id(rules: Seq<LearnedRule>) -> nat
    decreases rules.len(),
{
    if rules.len() == 0 {
        0
    } else {
        let rest = top_id(rules.drop_last());
        let last = rules.last().id as nat;
        if last > rest {
            last
        } else {
            rest
        }
    }
}

/// How many rules have no id yet.
pub open spec fn unstamped(rules: Seq<LearnedRule>) -> nat
    decreases rules.len(),
{
    if rules.len() == 0 {
        0
    } else if rules.last().id == 0 {
        unstamped(rules.drop_last()) + 1
    } else {
        unstamped(rules.drop_last())
    }
}

/// The first id that stamping hands out: past every id present.
pub open spec fn first_new_id(rules: Seq<LearnedRule>, next_id: nat) -> nat {
    if next_id > top_id(rules) {
        next_id
    } else {
        top_id(rules) + 1
    }
}

/// The id of rule `i` after stamping from `first` on.
pub open spec fn stamped_id(rules: Seq<LearnedRule>, first: nat, i: int) -> nat {
    if rules[i].id == 0 {
        first + unstamped(rules.take(i))
    } else {
        rules[i].id as nat
    }
}

/// The next id once every rule has one.
pub open spec fn next_after(rules: Seq<LearnedRule>, next_id: nat) -> nat {
    first_new_id(rules, next_id) + unstamped(rules)
}

/// `rules` with ids given to those that had none, in order.
pub open spec fn stamped(rules: Seq<LearnedRule>, next_id: nat) -> Seq<LearnedRule> {
    Seq::new(
        rules.len(),
        |i: int|
            LearnedRule {
                id: stamped_id(rules, first_new_id(rules, next_id), i) as u64,
                ..rules[i]
            },
    )
}

impl Rules {
    /// Whether enough ids are left to stamp every rule that has none.
    pub open spec fn ids_fit(&self) -> bool {
        next_after(self.rules@, self.next_id as nat) <= u64::MAX
    }

    /// Every rule has an id of its own, and all of them are spent.
    pub open spec fn wf(&self) -> bool {
        ids_settled(self.rules@, self.next_id as nat)
    }
}

/// The id that the next rule gets: ids start at 1.
pub open spec fn issued(next_id: nat) -> nat {
    if next_id == 0 {
        1
    } else {
        next_id
    }
}

/// No two rules share an id; those without one aside.
pub open spec fn ids_distinct(rules: Seq<LearnedRule>) -> bool {
    forall|i: int, j: int|
        0 <= i < j < rules.len() && (#[trigger] rules[i]).id == (#[trigger] rules[j]).id
            ==> rules[i].id == 0
}

/// Ids are given, differ from each other, and lie below the next one.
pub open spec fn ids_settled(rules: Seq<LearnedRule>, next_id: nat) -> bool {
    &&& forall|i: int| 0 <= i < rules.len() ==> 0 < (#[trigger] rules[i]).id < next_id
    &&& forall|i: int, j: int|
        0 <= i < j < rules.len() ==> (#[trigger] rules[i]).id != (#[trigger] rules[j]).id
}

/// A rule with the id that the next rule gets.
pub open spec fn numbered(rule: LearnedRule, next_id: nat) -> LearnedRule {
    LearnedRule { id: issued(next_id) as u64, ..rule }
}

/// What reading the store came to.
pub enum StoreRead {
    /// The file could not be read.
    Missing,
    /// The file holds something else.
    Corrupt,
    /// The file's contents.
    Parsed(Rules),
}

impl StoreRead {
    /// Whether enough ids are left to stamp every rule that has none.
    pub open spec fn ids_fit(&self) -> bool {
        *self matches StoreRead::Parsed(found) ==> found.ids_fit()
    }

    /// Whether enough ids are left to stamp every rule that has none.
    pub fn check_ids_fit(&self) -> (r: bool)
        ensures
            r == self.ids_fit(),
    {
        match self {
            StoreRead::Parsed(found) => found.check_ids_fit(),
            _ => true,
        }
    }
}

/// Whether `rules` are those that a read of the store gives: what it holds, stamped,
/// or none.
pub open spec fn loaded_rules(read: StoreRead, rules: Rules) -> bool {
    match read {
        StoreRead::Parsed(found) => rules.rules@ == stamped(found.rules@, found.next_id as nat)
            && rules.next_id == next_after(found.rules@, found.next_id as nat),
        _ => rules.rules@.len() == 0 && rules.next_id == 0,
    }
}

impl Rules {
    /// The rules that a read of the store gives. One that failed gives none: a
    /// broken store never stops the daemon.
    pub fn load(read: StoreRead) -> (r: Rules)
        requires
            read.ids_fit(),
        ensures
            loaded_rules(read, r),
            (read matches StoreRead::Parsed(found) ==> ids_distinct(found.rules@)) ==> r.wf(),
    {
        match read {
            StoreRead::Parsed(found) => {
                let mut found = found;
                found.backfill_ids();
                found
            },
            _ => Rules::default(),
        }
    }

    /// The rules that a read of the store gives, as far as there are ids left for them.
    pub fn try_load(read: StoreRead) -> (r: Option<Rules>)
        ensures
            r is Some <==> read.ids_fit(),
            r matches Some(rules) ==> loaded_rules(read, rules),
    {
        if read.check_ids_fit() {
            Some(Rules::load(read))
        } else {
            None
        }
    }

    /// Hands out the next id.
    fn alloc_id(&mut self) -> (id: u64)
        requires
            old(self).next_id < u64::MAX,
        ensures
            id == issued(old(self).next_id as nat),
            final(self).next_id == id + 1,
            final(self).rules@ == old(self).rules@,
    {
        let id: u64 = if self.next_id == 0 { 1 } else { self.next_id };
        self.next_id = id + 1;
        id
    }

    /// The largest id present.
    fn max_id(&self) -> (r: u64)
        ensures
            r == top_id(self.rules@),
    {
        let mut top: u64 = 0;
        let mut i: usize = 0;
        while i < self.rules.len()
            invariant
                i <= self.rules.len(),
                top == top_id(self.rules@.take(i as int)),
            decreases self.rules.len() - i,
        {
            assert(self.rules@.take(i + 1).drop_last() == self.rules@.take(i as int));
            if self.rules[i].id > top {
                top = self.rules[i].id;
            }
            i += 1;
        }
        assert(self.rules@.take(i as int) == self.rules@);
        top
    }

    /// Whether enough ids are left to stamp every rule that has none.
    pub fn check_ids_fit(&self) -> (r: bool)
        ensures
            r == self.ids_fit(),
    {
        let top = self.max_id();
        let mut next: u128 = if self.next_id > top { self.next_id as u128 } else { top as u128 + 1 };
        let mut i: usize = 0;
        while i < self.rules.len()
            invariant
                i <= self.rules.len(),
                next == first_new_id(self.rules@, self.next_id as nat) + unstamped(
                    self.rules@.take(i as int),
                ),
                next <= 0x1_0000_0000_0000_0000 + i,
            decreases self.rules.len() - i,
        {
            assert(self.rules@.take(i + 1).drop_last() == self.rules@.take(i as int));
            if self.rules[i].id == 0 {
                next += 1;
            }
            i += 1;
        }
        assert(self.rules@.take(i as int) == self.rules@);
        next <= 0xffff_ffff_ffff_ffff
    }

    /// Gives an id to every rule that has none, in order, past all ids present.
    pub fn backfill_ids(&mut self)
        requires
            old(self).ids_fit(),
        ensures
            final(self).rules@ == stamped(old(self).rules@, old(self).next_id as nat),
            final(self).next_id == next_after(old(self).rules@, old(self).next_id as nat),
            ids_distinct(old(self).rules@) ==> final(self).wf(),
    {
        let ghost before = self.rules@;
        let ghost first = first_new_id(before, self.next_id as nat);
        let ghost goal = stamped(before, self.next_id as nat);
        proof {
            unstamped_grows(before, 0);
            unstamped_grows(before, before.len() as int);
        }
        let top = self.max_id();
        if self.next_id <= top {
            self.next_id = top + 1;
        }
        let n = self.rules.len();
        let mut i: usize = 0;
        while i < n
            invariant
                i <= n,
                n == before.len(),
                self.rules@.len() == n,
                first + unstamped(before) <= u64::MAX,
                self.next_id == first + unstamped(before.take(i as int)),
                goal.len() == n,
                forall|j: int|
                    0 <= j < n ==> #[trigger] goal[j] == (LearnedRule {
                        id: stamped_id(before, first, j) as u64,
                        ..before[j]
                    }),
                forall|j: int| 0 <= j < i ==> #[trigger] self.rules@[j] == goal[j],
                forall|j: int| i <= j < n ==> #[trigger] self.rules@[j] == before[j],
            decreases n - i,
        {
            assert(before.take(i + 1).drop_last() == before.take(i as int));
            assert(self.rules@[i as int] == before[i as int]);
            proof {
                unstamped_grows(before, i + 1);
            }
            if self.rules[i].id == 0 {
                let id = self.next_id;
                self.rules[i].id = id;
                self.next_id = id + 1;
            }
            assert(self.rules@[i as int] == goal[i as int]);
            i += 1;
        }
        assert(before.take(n as int) == before);
        assert(self.rules@ =~= goal);
        proof {
            if ids_distinct(before) {
                stamping_settles_ids(before, old(self).next_id as nat);
            }
        }
    }

    /// Adds a rule under an id never used before.
    pub fn push(&mut self, rule: LearnedRule)
        requires
            old(self).next_id < u64::MAX,
        ensures
            final(self).rules@ == old(self).rules@.push(numbered(rule, old(self).next_id as nat)),
            final(self).next_id == issued(old(self).next_id as nat) + 1,
            old(self).wf() ==> final(self).wf(),
    {
        let mut rule = rule;
        rule.id = self.alloc_id();
        proof {
            if old(self).wf() {
                pushing_keeps_ids(self.rules@, old(self).next_id as nat, rule);
            }
        }
        self.rules.push(rule);
    }

    /// What the learned rules say of an access; a denial wins.
    pub fn evaluate(&self, path: &FilePath, exe: &str, cwd: Option<&str>) -> (r: Option<RuleAction>)
        ensures
            r == verdict(self.rules@, path@, exe@, opt_str(cwd)),
    {
        let mut allow = false;
        let mut i: usize = 0;
        while i < self.rules.len()
            invariant
                i <= self.rules.len(),
                allow == (exists|k: int|
                    0 <= k < i && rule_matches(
                        #[trigger] self.rules@[k],
                        path@,
                        exe@,
                        opt_str(cwd),
                    )),
                forall|k: int|
                    0 <= k < i && rule_matches(#[trigger] self.rules@[k], path@, exe@, opt_str(cwd))
                        ==> self.rules@[k].action == RuleAction::Allow,
            decreases self.rules.len() - i,
        {
            if self.rules[i].matches(path, exe, cwd) {
                match self.rules[i].action {
                    RuleAction::Deny => {
                        return Some(RuleAction::Deny);
                    },
                    RuleAction::Allow => {
                        allow = true;
                    },
                }
            }
            i += 1;
        }
        if allow {
            Some(RuleAction::Allow)
        } else {
            None
        }
    }
}

proof fn unstamped_grows(rules: Seq<LearnedRule>, k: int)
    requires
        0 <= k <= rules.len(),
    ensures
        unstamped(rules.take(k)) <= unstamped(rules),
    decreases rules.len() - k,
{
    if k < rules.len() {
        unstamped_grows(rules, k + 1);
        assert(rules.take(k + 1).drop_last() == rules.take(k));
    } else {
        assert(rules.take(k) == rules);
    }
}

proof fn top_id_bounds(rules: Seq<LearnedRule>)
    ensures
        forall|i: int| 0 <= i < rules.len() ==> (#[trigger] rules[i]).id <= top_id(rules),
    decreases rules.len(),
{
    if rules.len() > 0 {
        let rest = rules.drop_last();
        top_id_bounds(rest);
        assert forall|i: int| 0 <= i < rules.len() implies (#[trigger] rules[i]).id <= top_id(
            rules,
        ) by {
            if i < rest.len() {
                assert(rest[i] == rules[i]);
            }
        }
    }
}

proof fn top_id_below(rules: Seq<LearnedRule>, bound: nat)
    requires
        bound > 0,
        forall|i: int| 0 <= i < rules.len() ==> (#[trigger] rules[i]).id < bound,
    ensures
        top_id(rules) < bound,
    decreases rules.len(),
{
    if rules.len() > 0 {
        let rest = rules.drop_last();
        assert forall|i: int| 0 <= i < rest.len() implies (#[trigger] rest[i]).id < bound by {
            assert(rest[i] == rules[i]);
        }
        top_id_below(rest, bound);
    }
}

proof fn unstamped_none(rules: Seq<LearnedRule>)
    requires
        forall|i: int| 0 <= i < rules.len() ==> (#[trigger] rules[i]).id != 0,
    ensures
        unstamped(rules) == 0,
    decreases rules.len(),
{
    if rules.len() > 0 {
        let rest = rules.drop_last();
        assert forall|i: int| 0 <= i < rest.len() implies (#[trigger] rest[i]).id != 0 by {
            assert(rest[i] == rules[i]);
        }
        unstamped_none(rest);
        assert(rules[rules.len() - 1].id != 0);
    }
}

proof fn unstamped_climbs(rules: Seq<LearnedRule>, i: int, j: int)
    requires
        0 <= i < j <= rules.len(),
    ensures
        unstamped(rules.take(i)) <= unstamped(rules.take(j)),
        rules[i].id == 0 ==> unstamped(rules.take(i)) < unstamped(rules.take(j)),
{
    let head = rules.take(j);
    unstamped_grows(head, i + 1);
    assert(head.take(i + 1) == rules.take(i + 1));
    assert(rules.take(i + 1).drop_last() == rules.take(i));
}

/// Stamping gives every rule an id, all below the next one; ids that were
/// already distinct stay so, and new ones collide with none.
pub proof fn stamping_settles_ids(rules: Seq<LearnedRule>, next_id: nat)
    requires
        next_after(rules, next_id) <= u64::MAX,
        ids_distinct(rules),
    ensures
        ids_settled(stamped(rules, next_id), next_after(rules, next_id)),
{
    let first = first_new_id(rules, next_id);
    let out = stamped(rules, next_id);
    top_id_bounds(rules);
    assert forall|i: int| 0 <= i < out.len() implies 0 < (#[trigger] out[i]).id < next_after(
        rules,
        next_id,
    ) by {
        unstamped_climbs(rules, i, rules.len() as int);
        assert(rules.take(rules.len() as int) == rules);
        assert(rules[i].id <= top_id(rules));
    }
    assert forall|i: int, j: int| 0 <= i < j < out.len() implies (#[trigger] out[i]).id != (
    #[trigger] out[j]).id by {
        unstamped_climbs(rules, i, j);
        unstamped_climbs(rules, j, rules.len() as int);
        unstamped_climbs(rules, i, rules.len() as int);
        assert(rules.take(rules.len() as int) == rules);
        assert(rules[i].id <= top_id(rules) && rules[j].id <= top_id(rules));
    }
}

/// Stamping keeps the ids that were there and touches nothing but ids.
pub proof fn stamping_keeps_given_ids(rules: Seq<LearnedRule>, next_id: nat, i: int)
    requires
        next_after(rules, next_id) <= u64::MAX,
        0 <= i < rules.len(),
    ensures
        stamped(rules, next_id).len() == rules.len(),
        rules[i].id != 0 ==> stamped(rules, next_id)[i] == rules[i],
        stamped(rules, next_id)[i] == (LearnedRule {
            id: stamped(rules, next_id)[i].id,
            ..rules[i]
        }),
{
}

/// Stamping a second time changes nothing.
pub proof fn stamping_is_idempotent(rules: Seq<LearnedRule>, next_id: nat)
    requires
        next_after(rules, next_id) <= u64::MAX,
    ensures
        stamped(stamped(rules, next_id), next_after(rules, next_id)) == stamped(rules, next_id),
        next_after(stamped(rules, next_id), next_after(rules, next_id)) == next_after(
            rules,
            next_id,
        ),
{
    let out = stamped(rules, next_id);
    let next = next_after(rules, next_id);
    top_id_bounds(rules);
    assert forall|i: int| 0 <= i < out.len() implies 0 < (#[trigger] out[i]).id < next by {
        unstamped_climbs(rules, i, rules.len() as int);
        assert(rules.take(rules.len() as int) == rules);
        assert(rules[i].id <= top_id(rules));
    }
    top_id_below(out, next);
    unstamped_none(out);
    assert(stamped(out, next) =~= out);
}

/// Adding a rule under an id not below the next one keeps the ids settled, and no
/// rule present has that id.
pub proof fn pushing_keeps_ids(rules: Seq<LearnedRule>, next_id: nat, rule: LearnedRule)
    requires
        ids_settled(rules, next_id),
        next_id <= rule.id,
        0 < rule.id,
    ensures
        ids_settled(rules.push(rule), (rule.id + 1) as nat),
        forall|i: int| 0 <= i < rules.len() ==> (#[trigger] rules[i]).id != rule.id,
{
    let out = rules.push(rule);
    assert forall|i: int| 0 <= i < out.len() implies 0 < (#[trigger] out[i]).id < rule.id + 1 by {
        if i < rules.len() {
            assert(out[i] == rules[i]);
        }
    }
    assert forall|i: int, j: int| 0 <= i < j < out.len() implies (#[trigger] out[i]).id != (
    #[trigger] out[j]).id by {
        assert(out[i] == rules[i]);
        if j < rules.len() {
            assert(out[j] == rules[j]);
        }
    }
}

/// Removing a rule keeps the ids settled; the next id stays where it was.
pub proof fn removing_keeps_ids(rules: Seq<LearnedRule>, next_id: nat, k: int)
    requires
        ids_settled(rules, next_id),
        0 <= k < rules.len(),
    ensures
        ids_settled(rules.remove(k), next_id),
{
    let out = rules.remove(k);
    assert forall|i: int| 0 <= i < out.len() implies 0 < (#[trigger] out[i]).id < next_id by {
        assert(out[i] == rules[if i < k {
            i
        } else {
            i + 1
        }]);
    }
    assert forall|i: int, j: int| 0 <= i < j < out.len() implies (#[trigger] out[i]).id != (
    #[trigger] out[j]).id by {
        assert(out[i] == rules[if i < k {
            i
        } else {
            i + 1
        }]);
        assert(out[j] == rules[if j < k {
            j
        } else {
            j + 1
        }]);
    }
}

/// A change to a rule store.
pub enum Change {
    /// A rule is added.
    Push(LearnedRule),
    /// The rule at a position is removed.
    Remove(int),
    /// The store is read back and its rules stamped.
    Reload,
}

/// The rules and the next id after a change.
pub open spec fn changed(rules: Seq<LearnedRule>, next_id: nat, c: Change) -> (
    Seq<LearnedRule>,
    nat,
) {
    match c {
        Change::Push(rule) => (rules.push(numbered(rule, next_id)), issued(next_id) + 1),
        Change::Remove(k) => if 0 <= k < rules.len() {
            (rules.remove(k), next_id)
        } else {
            (rules, next_id)
        },
        Change::Reload => (stamped(rules, next_id), next_after(rules, next_id)),
    }
}

/// The rules and the next id after changes, in order.
pub open spec fn after_changes(rules: Seq<LearnedRule>, next_id: nat, cs: Seq<Change>) -> (
    Seq<LearnedRule>,
    nat,
)
    decreases cs.len(),
{
    if cs.len() == 0 {
        (rules, next_id)
    } else {
        let before = after_changes(rules, next_id, cs.drop_last());
        changed(before.0, before.1, cs.last())
    }
}

proof fn next_id_climbs(rules: Seq<LearnedRule>, next_id: nat, cs: Seq<Change>, i: int)
    requires
        0 <= i <= cs.len(),
    ensures
        after_changes(rules, next_id, cs.take(i)).1 <= after_changes(rules, next_id, cs).1,
    decreases cs.len() - i,
{
    if i < cs.len() {
        next_id_climbs(rules, next_id, cs, i + 1);
        assert(cs.take(i + 1).drop_last() =~= cs.take(i));
    } else {
        assert(cs.take(i) =~= cs);
    }
}

/// Whatever is added, removed and read back: ids stay settled.
pub proof fn ids_stay_settled(rules: Seq<LearnedRule>, next_id: nat, cs: Seq<Change>)
    requires
        ids_settled(rules, next_id),
        after_changes(rules, next_id, cs).1 <= u64::MAX,
    ensures
        ids_settled(
            after_changes(rules, next_id, cs).0,
            after_changes(rules, next_id, cs).1,
        ),
    decreases cs.len(),
{
    if cs.len() > 0 {
        next_id_climbs(rules, next_id, cs, cs.len() - 1);
        assert(cs.take(cs.len() - 1) =~= cs.drop_last());
        ids_stay_settled(rules, next_id, cs.drop_last());
        let before = after_changes(rules, next_id, cs.drop_last());
        match cs.last() {
            Change::Push(rule) => {
                pushing_keeps_ids(before.0, before.1, numbered(rule, before.1));
            },
            Change::Remove(k) => {
                if 0 <= k < before.0.len() {
                    removing_keeps_ids(before.0, before.1, k);
                }
            },
            Change::Reload => {
                stamping_settles_ids(before.0, before.1);
            },
        }
    }
}

/// An id is never given twice: of two rules added one after the other, whatever
/// happens in between, the later one has the larger id, and no rule has it before.
pub proof fn ids_are_never_reused(
    rules: Seq<LearnedRule>,
    next_id: nat,
    cs: Seq<Change>,
    i: int,
    j: int,
)
    requires
        ids_settled(rules, next_id),
        0 <= i < j <= cs.len(),
        after_changes(rules, next_id, cs.take(j)).1 <= u64::MAX,
    ensures
        ({
            let earlier = after_changes(rules, next_id, cs.take(i));
            let later = issued(after_changes(rules, next_id, cs.take(j)).1);
            &&& cs[i] is Push ==> issued(earlier.1) < later
            &&& forall|k: int| 0 <= k < earlier.0.len() ==> (#[trigger] earlier.0[k]).id < later
        }),
{
    let head = cs.take(j);
    next_id_climbs(rules, next_id, head, i + 1);
    next_id_climbs(rules, next_id, head, i);
    assert(head.take(i + 1) =~= cs.take(i + 1));
    assert(head.take(i) =~= cs.take(i));
    assert(cs.take(i + 1).drop_last() =~= cs.take(i));
    ids_stay_settled(rules, next_id, cs.take(i));
}

/// One matching denial decides, whatever the other rules say and wherever it stands.
pub proof fn denial_wins(
    rules: Seq<LearnedRule>,
    k: int,
    path: Seq<u8>,
    exe: Seq<char>,
    cwd: Option<Seq<char>>,
)
    requires
        0 <= k < rules.len(),
        rule_matches(rules[k], path, exe, cwd),
        rules[k].action == RuleAction::Deny,
    ensures
        verdict(rules, path, exe, cwd) == Some(RuleAction::Deny),
{
}

/// A rule speaks for its own executable only: an access by another is left open
/// by a rule set that does not name it.
pub proof fn unnamed_executable_has_no_verdict(
    rules: Seq<LearnedRule>,
    path: Seq<u8>,
    exe: Seq<char>,
    cwd: Option<Seq<char>>,
)
    requires
        forall|i: int| 0 <= i < rules.len() ==> (#[trigger] rules[i]).exe@ != exe,
    ensures
        verdict(rules, path, exe, cwd) is None,
{
}

/// Seconds since the Unix epoch by the system clock, where it stands after that.
/// Calls `SystemTime::elapsed` on the epoch. What the clock shows is left open.
#[verifier::external_body]
fn clock_reading() -> (r: Option<u64>) {
    std::time::UNIX_EPOCH.elapsed().ok().map(|d| d.as_secs())
}

/// The time to record for a reading of the clock: `0` for one before the epoch.
pub fn recorded_time(reading: Option<u64>) -> (r: u64)
    ensures
        r == (match reading {
            Some(seconds) => seconds,
            None => 0,
        }),
{
    match reading {
        Some(seconds) => seconds,
        None => 0,
    }
}

/// Seconds since the Unix epoch, for `LearnedRule::created_unix`: what
/// `recorded_time` makes of a reading of the clock. Any number of seconds can be
/// the result, as the clock may show anything.
pub fn now_unix() -> (r: u64) {
    recorded_time(clock_reading())
}

/// A rule speaks for its own object only, counted in whole components: a file rule for
/// that very path, a tree rule for what lies under its root. Where no rule that names
/// the executable has such an object, the rule set says nothing.
pub proof fn other_objects_have_no_verdict(
    rules: Seq<LearnedRule>,
    path: Seq<u8>,
    exe: Seq<char>,
    cwd: Option<Seq<char>>,
)
    requires
        forall|i: int|
            0 <= i < rules.len() && (#[trigger] rules[i]).exe@ == exe ==> match rules[i].object_kind {
                ObjectKind::File => parts(rules[i].object@) != parts(path),
                ObjectKind::Tree => !parts(rules[i].object@).is_prefix_of(parts(path)),
            },
    ensures
        verdict(rules, path, exe, cwd) is None,
{
}

/// A rule limited to a working directory says nothing of accesses from elsewhere.
pub proof fn other_directories_have_no_verdict(
    rules: Seq<LearnedRule>,
    path: Seq<u8>,
    exe: Seq<char>,
    cwd: Option<Seq<char>>,
)
    requires
        forall|i: int|
            0 <= i < rules.len() && (#[trigger] rules[i]).exe@ == exe ==> (rules[i].cwd matches Some(
                pinned,
            ) && cwd != Some(pinned@)),
    ensures
        verdict(rules, path, exe, cwd) is None,
{
}

/// A rule for this executable, whose object is the path or a tree around it, and which
/// is limited to no other working directory, decides, unless it allows and another
/// rule for the executable denies.
pub proof fn fitting_rule_has_the_say(
    rules: Seq<LearnedRule>,
    k: int,
    path: Seq<u8>,
    exe: Seq<char>,
    cwd: Option<Seq<char>>,
)
    requires
        0 <= k < rules.len(),
        rules[k].exe@ == exe,
        match rules[k].object_kind {
            ObjectKind::File => parts(rules[k].object@) == parts(path),
            ObjectKind::Tree => parts(rules[k].object@).is_prefix_of(parts(path)),
        },
        rules[k].cwd matches Some(pinned) ==> cwd == Some(pinned@),
    ensures
        verdict(rules, path, exe, cwd) is Some,
        rules[k].action == RuleAction::Deny ==> verdict(rules, path, exe, cwd) == Some(
            RuleAction::Deny,
        ),
        (forall|i: int|
            0 <= i < rules.len() && (#[trigger] rules[i]).exe@ == exe ==> rules[i].action
                == RuleAction::Allow) ==> verdict(rules, path, exe, cwd) == Some(
            RuleAction::Allow,
        ),
{
    assert(rule_matches(rules[k], path, exe, cwd));
}

/// What a rule set says, some rule says that names the executable, takes in the path
/// and is limited to no other working directory; an allowance only if no denial does.
pub proof fn every_verdict_has_its_rule(
    rules: Seq<LearnedRule>,
    path: Seq<u8>,
    exe: Seq<char>,
    cwd: Option<Seq<char>>,
) -> (k: int)
    requires
        verdict(rules, path, exe, cwd) is Some,
    ensures
        0 <= k < rules.len(),
        verdict(rules, path, exe, cwd) == Some(rules[k].action),
        rules[k].exe@ == exe,
        match rules[k].object_kind {
            ObjectKind::File => parts(rules[k].object@) == parts(path),
            ObjectKind::Tree => parts(rules[k].object@).is_prefix_of(parts(path)),
        },
        rules[k].cwd matches Some(pinned) ==> cwd == Some(pinned@),
{
    if verdict(rules, path, exe, cwd) == Some(RuleAction::Deny) {
        choose|i: int|
            0 <= i < rules.len() && rule_matches(#[trigger] rules[i], path, exe, cwd)
                && rules[i].action == RuleAction::Deny
    } else {
        choose|i: int| 0 <= i < rules.len() && rule_matches(#[trigger] rules[i], path, exe, cwd)
    }
}

/// Adding rules never takes a denial back, and the order of the rules does not count.
pub proof fn verdict_ignores_order(
    a: Seq<LearnedRule>,
    b: Seq<LearnedRule>,
    path: Seq<u8>,
    exe: Seq<char>,
    cwd: Option<Seq<char>>,
)
    ensures
        verdict(a + b, path, exe, cwd) == verdict(b + a, path, exe, cwd),
        verdict(a, path, exe, cwd) == Some(RuleAction::Deny) ==> verdict(a + b, path, exe, cwd)
            == Some(RuleAction::Deny),
        verdict(a, path, exe, cwd) is None ==> verdict(a + b, path, exe, cwd) == verdict(
            b,
            path,
            exe,
            cwd,
        ),
{
    let ab = a + b;
    let ba = b + a;
    assert forall|i: int| 0 <= i < a.len() implies #[trigger] a[i] == ab[i] && a[i] == ba[b.len()
        + i] by {}
    assert forall|i: int| 0 <= i < b.len() implies #[trigger] b[i] == ba[i] && b[i] == ab[a.len()
        + i] by {}
    assert forall|i: int| 0 <= i < ab.len() implies #[trigger] ab[i] == (if i < a.len() {
        a[i]
    } else {
        b[i - a.len()]
    }) by {}
    assert forall|i: int| 0 <= i < ba.len() implies #[trigger] ba[i] == (if i < b.len() {
        b[i]
    } else {
        a[i - b.len()]
    }) by {}
}

/// A rule that is added keeps all it says, behind the rules that were there; its id is
/// the next one, and ids start at 1.
pub proof fn added_rule_is_kept(rules: Seq<LearnedRule>, next_id: nat, rule: LearnedRule)
    requires
        next_id < u64::MAX,
    ensures
        ({
            let after = changed(rules, next_id, Change::Push(rule));
            &&& after.0.len() == rules.len() + 1
            &&& forall|i: int| 0 <= i < rules.len() ==> #[trigger] after.0[i] == rules[i]
            &&& after.0.last().created_unix == rule.created_unix
            &&& after.0.last().action == rule.action
            &&& after.0.last().exe == rule.exe
            &&& after.0.last().object == rule.object
            &&& after.0.last().object_kind == rule.object_kind
            &&& after.0.last().cwd == rule.cwd
            &&& after.0.last().id > 0
            &&& next_id > 0 ==> after.0.last().id == next_id
            &&& next_id == 0 ==> after.0.last().id == 1
            &&& after.1 == after.0.last().id + 1
        }),
{
}

/// Of two rules without an id, with none of that kind between them, the later one gets
/// the number after the earlier one's.
pub proof fn stamping_hands_out_the_next_ids(rules: Seq<LearnedRule>, next_id: nat, i: int, j: int)
    requires
        next_after(rules, next_id) <= u64::MAX,
        0 <= i < j < rules.len(),
        rules[i].id == 0,
        rules[j].id == 0,
        forall|m: int| i < m < j ==> (#[trigger] rules[m]).id != 0,
    ensures
        stamped(rules, next_id)[j].id == stamped(rules, next_id)[i].id + 1,
{
    unstamped_climbs(rules, i, rules.len() as int);
    unstamped_climbs(rules, j, rules.len() as int);
    assert(rules.take(rules.len() as int) =~= rules);
    assert(rules.take(i + 1).drop_last() =~= rules.take(i));
    none_between(rules, i + 1, j);
}

proof fn none_between(rules: Seq<LearnedRule>, i: int, j: int)
    requires
        0 <= i <= j <= rules.len(),
        forall|m: int| i <= m < j ==> (#[trigger] rules[m]).id != 0,
    ensures
        unstamped(rules.take(i)) == unstamped(rules.take(j)),
    decreases j - i,
{
    if i < j {
        none_between(rules, i, j - 1);
        assert(rules.take(j).drop_last() =~= rules.take(j - 1));
        assert(rules[j - 1].id != 0);
    }
}

/// The first rule without an id gets the lowest number that is not below the next id,
/// and above every id present.
pub proof fn stamping_starts_past_all_ids(rules: Seq<LearnedRule>, next_id: nat, i: int, n: nat)
    requires
        next_after(rules, next_id) <= u64::MAX,
        0 <= i < rules.len(),
        rules[i].id == 0,
        forall|m: int| 0 <= m < i ==> (#[trigger] rules[m]).id != 0,
        n >= next_id,
        n > 0,
        forall|m: int| 0 <= m < rules.len() ==> (#[trigger] rules[m]).id < n,
    ensures
        next_id <= stamped(rules, next_id)[i].id <= n,
        forall|m: int| 0 <= m < rules.len() ==> (#[trigger] rules[m]).id < stamped(rules, next_id)[i].id,
{
    none_between(rules, 0, i);
    assert(rules.take(0) =~= Seq::<LearnedRule>::empty());
    unstamped_climbs(rules, i, rules.len() as int);
    assert(rules.take(rules.len() as int) =~= rules);
    top_id_bounds(rules);
    top_id_below(rules, n);
}

/// Reading the store back loses no rule and changes none but for missing ids; a store
/// that cannot be read gives no rules.
pub proof fn loading_keeps_every_rule(read: StoreRead, rules: Rules)
    requires
        loaded_rules(read, rules),
        read.ids_fit(),
    ensures
        match read {
            StoreRead::Missing => rules.rules@.len() == 0 && rules.next_id == 0,
            StoreRead::Corrupt => rules.rules@.len() == 0 && rules.next_id == 0,
            StoreRead::Parsed(found) => {
                &&& rules.rules@.len() == found.rules@.len()
                &&& rules.next_id >= found.next_id
                &&& forall|i: int|
                    0 <= i < found.rules@.len() ==> {
                        let after = #[trigger] rules.rules@[i];
                        let before = found.rules@[i];
                        &&& after.created_unix == before.created_unix
                        &&& after.action == before.action
                        &&& after.exe == before.exe
                        &&& after.object == before.object
                        &&& after.object_kind == before.object_kind
                        &&& after.cwd == before.cwd
                        &&& before.id != 0 ==> after.id == before.id
                        &&& after.id != 0
                        &&& after.id < rules.next_id
                    }
            },
        },
{
    if let StoreRead::Parsed(found) = read {
        let all = found.rules@;
        top_id_bounds(all);
        assert forall|i: int| 0 <= i < all.len() implies ({
            let after = #[trigger] rules.rules@[i];
            after.id != 0 && after.id < rules.next_id && (all[i].id != 0 ==> after.id == all[i].id)
        }) by {
            unstamped_climbs(all, i, all.len() as int);
            assert(all.take(all.len() as int) =~= all);
            assert(all[i].id <= top_id(all));
        }
    }
}

/// The time recorded is the clock's, and nothing before the epoch.
pub proof fn recorded_time_is_the_reading(reading: Option<u64>, r: u64)
    requires
        call_ensures(recorded_time, (reading,), r),
    ensures
        reading matches Some(seconds) ==> r == seconds,
        reading is None ==> r == 0,
{
}

/// A rule matches an access exactly if it names the executable, its object takes the
/// path in, and it is limited to no other working directory.
pub proof fn match_needs_all_three(
    rule: LearnedRule,
    path: FilePath,
    exe: &str,
    cwd: Option<&str>,
    r: bool,
)
    requires
        call_ensures(LearnedRule::matches, (&rule, &path, exe, cwd), r),
    ensures
        rule.exe@ != exe@ ==> !r,
        rule.object_kind == ObjectKind::File && parts(rule.object@) != parts(path@) ==> !r,
        rule.object_kind == ObjectKind::Tree && !parts(rule.object@).is_prefix_of(parts(path@))
            ==> !r,
        (rule.cwd matches Some(pinned) && (cwd is None || cwd->0@ != pinned@)) ==> !r,
        rule.exe@ == exe@ && parts(rule.object@) == parts(path@) && rule.cwd is None ==> r,
        rule.exe@ == exe@ && parts(rule.object@) == parts(path@) && (rule.cwd matches Some(pinned)
            && cwd is Some && cwd->0@ == pinned@) ==> r,
        rule.exe@ == exe@ && rule.object_kind == ObjectKind::Tree && parts(
            rule.object@,
        ).is_prefix_of(parts(path@)) && rule.cwd is None ==> r,
        rule.exe@ == exe@ && rule.object_kind == ObjectKind::Tree && parts(
            rule.object@,
        ).is_prefix_of(parts(path@)) && (rule.cwd matches Some(pinned) && cwd is Some && cwd->0@
            == pinned@) ==> r,
{
}

/// What `Rules::evaluate` gives is the verdict of its rules.
pub proof fn evaluation_is_the_verdict(
    rules: Rules,
    path: FilePath,
    exe: &str,
    cwd: Option<&str>,
    r: Option<RuleAction>,
)
    requires
        call_ensures(Rules::evaluate, (&rules, &path, exe, cwd), r),
    ensures
        r == verdict(
            rules.rules@,
            path@,
            exe@,
            match cwd {
                Some(c) => Some(c@),
                None => None,
            },
        ),
{
}

/// Pushing a rule keeps all it says, behind the rules that were there, under the next
/// id; ids start at 1.
pub proof fn pushed_rule_is_kept(rules: &mut Rules, rule: LearnedRule)
    requires
        call_ensures(Rules::push, (rules, rule), ()),
        old(rules).next_id < u64::MAX,
    ensures
        final(rules).rules@.len() == old(rules).rules@.len() + 1,
        forall|i: int|
            0 <= i < old(rules).rules@.len() ==> #[trigger] final(rules).rules@[i]
                == old(rules).rules@[i],
        ({
            let last = final(rules).rules@.last();
            &&& last.created_unix == rule.created_unix
            &&& last.action == rule.action
            &&& last.exe == rule.exe
            &&& last.object == rule.object
            &&& last.object_kind == rule.object_kind
            &&& last.cwd == rule.cwd
            &&& old(rules).next_id > 0 ==> last.id == old(rules).next_id
            &&& old(rules).next_id == 0 ==> last.id == 1
            &&& final(rules).next_id == last.id + 1
        }),
{
}

/// Filling in ids changes nothing else: a rule that has an id keeps it, and one without
/// gets one that no rule had before.
pub proof fn filling_in_keeps_the_rules(rules: &mut Rules, i: int, j: int)
    requires
        call_ensures(Rules::backfill_ids, (rules,), ()),
        old(rules).ids_fit(),
        0 <= i < old(rules).rules@.len(),
        0 <= j < old(rules).rules@.len(),
    ensures
        final(rules).rules@.len() == old(rules).rules@.len(),
        ({
            let before = old(rules).rules@[i];
            let after = final(rules).rules@[i];
            &&& after.created_unix == before.created_unix
            &&& after.action == before.action
            &&& after.exe == before.exe
            &&& after.object == before.object
            &&& after.object_kind == before.object_kind
            &&& after.cwd == before.cwd
            &&& before.id != 0 ==> after.id == before.id
            &&& before.id == 0 ==> after.id > old(rules).rules@[j].id
            &&& after.id < final(rules).next_id
        }),
{
    let all = old(rules).rules@;
    top_id_bounds(all);
    unstamped_climbs(all, i, all.len() as int);
    assert(all.take(all.len() as int) =~= all);
    assert(all[i].id <= top_id(all));
    assert(all[j].id <= top_id(all));
}

/// Reading the store gives its rules, all of them; without a store, or with a broken
/// one, there are none.
pub proof fn store_gives_its_rules(read: StoreRead, r: Option<Rules>, loaded: Rules)
    requires
        call_ensures(Rules::try_load, (read,), r),
        read.ids_fit(),
        call_ensures(Rules::load, (read,), loaded),
    ensures
        r matches Some(rules) && rules.rules@ == loaded.rules@ && rules.next_id == loaded.next_id,
        read matches StoreRead::Parsed(found) ==> loaded.rules@.len() == found.rules@.len(),
        !(read is Parsed) ==> loaded.rules@.len() == 0,
{
}

/// A clone of a rule says the same.
pub proof fn clone_says_the_same(rule: LearnedRule, r: LearnedRule)
    requires
        call_ensures(LearnedRule::clone, (&rule,), r),
    ensures
        r.id == rule.id,
        r.created_unix == rule.created_unix,
        r.action == rule.action,
        r.exe@ == rule.exe@,
        r.object@ == rule.object@,
        r.object_kind == rule.object_kind,
        r.cwd is Some <==> rule.cwd is Some,
        rule.cwd is Some ==> (r.cwd->0)@ == (rule.cwd->0)@,
{
}

/// Ids are left as long as the rules without one, counted from the first new id, stay
/// within 64 bits.
pub proof fn ids_fit_while_some_are_left(rules: Rules, r: bool)
    requires
        call_ensures(Rules::check_ids_fit, (&rules,), r),
    ensures
        r <==> first_new_id(rules.rules@, rules.next_id as nat) + rules.rules@.filter(
            |rule: LearnedRule| rule.id == 0,
        ).len() <= 0xffff_ffff_ffff_ffff,
        rules.rules@.len() == 0 && rules.next_id > 0 ==> first_new_id(
            rules.rules@,
            rules.next_id as nat,
        ) == rules.next_id,
        rules.rules@.len() == 0 && rules.next_id == 0 ==> first_new_id(
            rules.rules@,
            rules.next_id as nat,
        ) == 1,
        first_new_id(rules.rules@, rules.next_id as nat) >= rules.next_id,
        first_new_id(rules.rules@, rules.next_id as nat) > 0,
{
    unstamped_are_counted(rules.rules@);
}

proof fn unstamped_are_counted(rules: Seq<LearnedRule>)
    ensures
        unstamped(rules) == rules.filter(|rule: LearnedRule| rule.id == 0).len(),
    decreases rules.len(),
{
    reveal(Seq::filter);
    if rules.len() > 0 {
        unstamped_are_counted(rules.drop_last());
    }
}

} // verus!
