//! Noticing that the configuration or the rule store has changed: which
//! directories to watch, and which names in them count.

use crate::paths::{
    has_parent, is_name, is_parent, joined, joined_name_is_child, name_of, parts, same_path, FilePath,
    SLASH,
};
use vstd::prelude::*;
use vstd::string::*;

verus! {

/// Why files cannot be watched.
#[derive(Debug, Clone, Copy, PartialEq, Eq, Structural)]
pub enum PlanError {
    NoConfigDir,
    NoConfigName,
    NoRulesDir,
    NoRulesName,
}

/// What to watch.
#[derive(Debug)]
pub struct WatchPlan {
    pub config_dir: FilePath,
    pub config_name: FilePath,
    pub rules_dir: FilePath,
    pub rules_name: FilePath,
}

/// Whether a path has a directory part.
pub open spec fn has_dir(p: Seq<u8>) -> bool {
    has_parent(p) && parts(p).len() > 1
}

/// The directory part of a path.
fn dir_part(p: &FilePath) -> (r: Option<FilePath>)
    ensures
        r is Some <==> has_dir(p@),
        r matches Some(d) ==> is_parent(d@, p@),
{
    match p.parent() {
        Some(d) => {
            proof {
                let none = Seq::<u8>::empty();
                assert(crate::paths::head_len(none) == 0);
                assert(parts(none) =~= Seq::<Seq<u8>>::empty());
                assert(p@.take(0) =~= none);
                if d@.len() > 0 {
                    assert(parts(p@.take(0)) != parts(d@));
                    assert(parts(d@).len() == 0 ==> parts(d@) =~= Seq::<Seq<u8>>::empty());
                } else {
                    assert(d@ =~= none);
                }
            }
            if d.bytes.len() == 0 {
                None
            } else {
                Some(d)
            }
        },
        None => None,
    }
}

/// Works out what to watch for a configuration and a rule store.
pub fn plan(config_path: &FilePath, rules_path: &FilePath) -> (r: Result<WatchPlan, PlanError>)
    ensures
        match r {
            Ok(p) => {
                &&& has_dir(config_path@) && is_parent(p.config_dir@, config_path@)
                &&& name_of(config_path@) == Some(p.config_name@)
                &&& has_dir(rules_path@) && is_parent(p.rules_dir@, rules_path@)
                &&& name_of(rules_path@) == Some(p.rules_name@)
            },
            Err(e) => e == (if !has_dir(config_path@) {
                PlanError::NoConfigDir
            } else if name_of(config_path@) is None {
                PlanError::NoConfigName
            } else if !has_dir(rules_path@) {
                PlanError::NoRulesDir
            } else {
                PlanError::NoRulesName
            }) && (e == PlanError::NoRulesName ==> name_of(rules_path@) is None),
        },
{
    let config_dir = match dir_part(config_path) {
        Some(d) => d,
        None => {
            return Err(PlanError::NoConfigDir);
        },
    };
    let config_name = match config_path.file_name() {
        Some(n) => n,
        None => {
            return Err(PlanError::NoConfigName);
        },
    };
    let rules_dir = match dir_part(rules_path) {
        Some(d) => d,
        None => {
            return Err(PlanError::NoRulesDir);
        },
    };
    let rules_name = match rules_path.file_name() {
        Some(n) => n,
        None => {
            return Err(PlanError::NoRulesName);
        },
    };
    Ok(WatchPlan { config_dir, config_name, rules_dir, rules_name })
}

impl WatchPlan {
    /// Whether the two files lie in different directories, so that both need a watch.
    pub fn needs_second_watch(&self) -> (r: bool)
        ensures
            r == !same_path(self.rules_dir@, self.config_dir@),
    {
        !self.rules_dir.same_as(&self.config_dir)
    }

    /// Whether a change to `name` calls for a reload.
    pub fn triggers(&self, name: &Option<FilePath>) -> (r: bool)
        ensures
            r == (name matches Some(n) && (n@ == self.config_name@ || n@ == self.rules_name@)),
    {
        match name {
            Some(n) => n.same_bytes_as(&self.config_name) || n.same_bytes_as(&self.rules_name),
            None => false,
        }
    }
}

impl PlanError {
    /// The error in words.
    pub fn message(&self) -> (r: String)
        ensures
            r@ == (match self {
                PlanError::NoConfigDir =>
                    "no parent dir for config, file watching disabled"@,
                PlanError::NoConfigName => "no filename for config, file watching disabled"@,
                PlanError::NoRulesDir => "no parent dir for rules, file watching disabled"@,
                PlanError::NoRulesName => "no filename for rules, file watching disabled"@,
            }),
    {
        match self {
            PlanError::NoConfigDir => "no parent dir for config, file watching disabled".to_owned(),
            PlanError::NoConfigName => "no filename for config, file watching disabled".to_owned(),
            PlanError::NoRulesDir => "no parent dir for rules, file watching disabled".to_owned(),
            PlanError::NoRulesName => "no filename for rules, file watching disabled".to_owned(),
        }
    }
}

/// A change counts exactly if it is to one of the two files, by name; both directories
/// are watched if they differ.
pub proof fn either_file_counts(plan: WatchPlan, name: Option<FilePath>, r: bool, second: bool)
    requires
        call_ensures(WatchPlan::triggers, (&plan, &name), r),
        call_ensures(WatchPlan::needs_second_watch, (&plan,), second),
    ensures
        name is None ==> !r,
        name matches Some(n) ==> (r <==> n@ == plan.config_name@ || n@ == plan.rules_name@),
        second <==> parts(plan.rules_dir@) != parts(plan.config_dir@),
{
}

/// Two files with directories can be watched: each is looked for under its own name, in
/// the directory it lies in.
pub proof fn files_are_watched_where_they_lie(
    config_dir: Seq<u8>,
    config_name: Seq<u8>,
    rules_dir: Seq<u8>,
    rules_name: Seq<u8>,
    config: FilePath,
    rules: FilePath,
    r: Result<WatchPlan, PlanError>,
)
    requires
        call_ensures(plan, (&config, &rules), r),
        config_name.len() > 0 && is_name(config_name),
        rules_name.len() > 0 && is_name(rules_name),
        forall|i: int| 0 <= i < config_name.len() ==> #[trigger] config_name[i] != SLASH,
        forall|i: int| 0 <= i < rules_name.len() ==> #[trigger] rules_name[i] != SLASH,
        parts(config_dir).len() > 0,
        parts(rules_dir).len() > 0,
        config@ == joined(config_dir, config_name),
        rules@ == joined(rules_dir, rules_name),
    ensures
        r matches Ok(p) && p.config_name@ == config_name && p.rules_name@ == rules_name && parts(
            p.config_dir@,
        ) == parts(config_dir) && parts(p.rules_dir@) == parts(rules_dir),
{
    joined_name_is_child(config_dir, config_name);
    joined_name_is_child(rules_dir, rules_name);
    assert(config_name[0] != SLASH && rules_name[0] != SLASH);
    assert(parts(config@).drop_last() =~= parts(config_dir));
    assert(parts(rules@).drop_last() =~= parts(rules_dir));
    assert(has_dir(config@)) by {
        assert(parts(config@).last() == config_name);
        assert(seq![SLASH][0] == SLASH);
    }
    assert(has_dir(rules@)) by {
        assert(parts(rules@).last() == rules_name);
        assert(seq![SLASH][0] == SLASH);
    }
}

} // verus!
