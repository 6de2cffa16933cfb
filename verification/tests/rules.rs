use filewall::paths::FilePath;
use filewall::rules::{
    now_unix, recorded_time, LearnedRule, ObjectKind, RuleAction, Rules, StoreRead,
};

fn tree_allow(exe: &str, root: &str) -> LearnedRule {
    LearnedRule {
        id: 0,
        created_unix: 0,
        action: RuleAction::Allow,
        exe: exe.into(),
        object: FilePath::new(root),
        object_kind: ObjectKind::Tree,
        cwd: None,
    }
}

fn path(p: &str) -> FilePath {
    FilePath::new(p)
}

#[test]
fn tree_rule_matches_subpath_same_exe() {
    let r = tree_allow("/usr/bin/git", "/home/u/.ssh");
    assert!(r.matches(&path("/home/u/.ssh/id_ed25519"), "/usr/bin/git", None));
    assert!(!r.matches(&path("/home/u/.aws/creds"), "/usr/bin/git", None));
    assert!(!r.matches(&path("/home/u/.ssh/id_ed25519"), "/usr/bin/node", None));
}

#[test]
fn file_rule_requires_exact_path() {
    let r = LearnedRule {
        id: 0,
        created_unix: 0,
        action: RuleAction::Allow,
        exe: "/usr/bin/git".into(),
        object: path("/home/u/.ssh/id_ed25519"),
        object_kind: ObjectKind::File,
        cwd: None,
    };
    assert!(r.matches(&path("/home/u/.ssh/id_ed25519"), "/usr/bin/git", None));
    assert!(!r.matches(&path("/home/u/.ssh/other"), "/usr/bin/git", None));
}

#[test]
fn cwd_constraint_must_match_when_present() {
    let mut r = tree_allow("/usr/bin/node", "/home/u/.ssh");
    r.cwd = Some("/home/u/projects/foo".into());
    assert!(r.matches(&path("/home/u/.ssh/k"), "/usr/bin/node", Some("/home/u/projects/foo")));
    assert!(!r.matches(&path("/home/u/.ssh/k"), "/usr/bin/node", Some("/elsewhere")));
    assert!(!r.matches(&path("/home/u/.ssh/k"), "/usr/bin/node", None));
}

#[test]
fn evaluate_is_deny_wins() {
    let mut rs = Rules::default();
    rs.push(tree_allow("/usr/bin/node", "/home/u/.ssh"));
    let mut deny = tree_allow("/usr/bin/node", "/home/u/.ssh");
    deny.action = RuleAction::Deny;
    rs.push(deny);
    assert_eq!(
        rs.evaluate(&path("/home/u/.ssh/k"), "/usr/bin/node", None),
        Some(RuleAction::Deny)
    );
}

#[test]
fn evaluate_returns_none_when_nothing_matches() {
    let rs = Rules::default();
    assert_eq!(rs.evaluate(&path("/x"), "/usr/bin/node", None), None);
}

#[test]
fn load_missing_file_is_empty() {
    let rs = Rules::load(StoreRead::Missing);
    assert!(rs.rules.is_empty());
}

#[test]
fn load_corrupt_file_is_empty() {
    let rs = Rules::load(StoreRead::Corrupt);
    assert!(rs.rules.is_empty());
}

#[test]
fn backfill_assigns_sequential_ids_in_order() {
    let mut rs = Rules::default();
    rs.rules.push(tree_allow("/usr/bin/a", "/x"));
    rs.rules.push(tree_allow("/usr/bin/b", "/y"));
    rs.backfill_ids();
    assert_eq!(rs.rules[0].id, 1);
    assert_eq!(rs.rules[1].id, 2);
    assert_eq!(rs.next_id, 3);
}

#[test]
fn backfill_preserves_existing_ids_and_advances_next_id() {
    let mut rs = Rules::default();
    let mut r1 = tree_allow("/usr/bin/a", "/x");
    r1.id = 5;
    rs.rules.push(r1);
    rs.rules.push(tree_allow("/usr/bin/b", "/y")); // id 0 -> backfilled
    rs.backfill_ids();
    assert_eq!(rs.rules[0].id, 5, "existing id preserved");
    assert_eq!(rs.rules[1].id, 6, "new id is max+1");
    assert_eq!(rs.next_id, 7);
}

#[test]
fn push_allocates_and_bumps_next_id() {
    let mut rs = Rules::default();
    rs.push(tree_allow("/usr/bin/a", "/x"));
    rs.push(tree_allow("/usr/bin/b", "/y"));
    assert_eq!(rs.rules[0].id, 1);
    assert_eq!(rs.rules[1].id, 2);
    assert_eq!(rs.next_id, 3);
}

#[test]
fn no_id_reuse_after_remove() {
    let mut rs = Rules::default();
    rs.push(tree_allow("/usr/bin/a", "/x")); // id 1
    rs.push(tree_allow("/usr/bin/b", "/y")); // id 2
    rs.rules.remove(1); // drop id 2
    rs.push(tree_allow("/usr/bin/c", "/z")); // must NOT reuse 2
    assert_eq!(rs.rules.last().unwrap().id, 3);
}

#[test]
fn ids_climb_through_removals_and_reloads() {
    let mut rs = Rules::default();
    rs.push(tree_allow("/usr/bin/a", "/x"));
    rs.push(tree_allow("/usr/bin/b", "/y"));
    rs.rules.remove(1);
    let mut rs = Rules::load(StoreRead::Parsed(rs));
    assert_eq!(rs.next_id, 3);
    rs.rules.remove(0);
    rs.push(tree_allow("/usr/bin/c", "/z"));
    assert_eq!(rs.rules[0].id, 3);
    assert_eq!(rs.next_id, 4);
}

#[test]
fn loading_keeps_ids_and_stamps_the_rest() {
    let mut rs = Rules::default();
    rs.push(tree_allow("/usr/bin/git", "/home/u/.ssh"));
    rs.rules.push(tree_allow("/usr/bin/x", "/y"));
    assert!(rs.check_ids_fit());
    let back = Rules::load(StoreRead::Parsed(rs));
    assert_eq!(back.rules[0].id, 1);
    assert_eq!(back.rules[1].id, 2);
    assert_eq!(back.next_id, 3);
    assert_eq!(back.rules[0].exe, "/usr/bin/git");
}

#[test]
fn stamping_twice_is_stamping_once() {
    let mut rs = Rules::default();
    let mut high = tree_allow("/usr/bin/h", "/h");
    high.id = 9;
    rs.rules.push(tree_allow("/usr/bin/a", "/x"));
    rs.rules.push(high);
    rs.next_id = 4;
    rs.backfill_ids();
    let ids: Vec<u64> = rs.rules.iter().map(|r| r.id).collect();
    assert_eq!(ids, vec![10, 9]);
    assert_eq!(rs.next_id, 11);
    rs.backfill_ids();
    let again: Vec<u64> = rs.rules.iter().map(|r| r.id).collect();
    assert_eq!(again, ids);
    assert_eq!(rs.next_id, 11);
}

#[test]
fn exhausted_ids_are_noticed() {
    let mut rs = Rules::default();
    let mut last = tree_allow("/usr/bin/a", "/x");
    last.id = u64::MAX;
    rs.rules.push(last);
    assert!(!rs.check_ids_fit());
    rs.rules[0].id = u64::MAX - 1;
    assert!(rs.check_ids_fit());
    rs.rules.push(tree_allow("/usr/bin/b", "/y"));
    assert!(!rs.check_ids_fit());
}

#[test]
fn sibling_with_the_same_beginning_is_another_tree() {
    let r = tree_allow("/usr/bin/git", "/home/u/.ssh");
    assert!(!r.matches(&path("/home/u/.ssh2/key"), "/usr/bin/git", None));
    assert!(r.matches(&path("/home/u//.ssh/./key"), "/usr/bin/git", None));
    assert!(r.matches(&path("/home/u/.ssh"), "/usr/bin/git", None));
}

#[test]
fn clock_is_past_the_epoch() {
    assert_eq!(recorded_time(None), 0);
    assert_eq!(recorded_time(Some(12)), 12);
    assert!(now_unix() > 1_600_000_000);
}

#[test]
fn cloned_rule_holds_the_same() {
    let mut r = tree_allow("/usr/bin/git", "/home/u/.ssh");
    r.cwd = Some("/w".into());
    r.id = 3;
    assert_eq!(r.clone(), r);
}

#[test]
fn store_is_loaded_as_far_as_ids_go() {
    let mut rs = Rules::default();
    rs.push(tree_allow("/usr/bin/a", "/x"));
    let back = Rules::try_load(StoreRead::Parsed(rs)).unwrap();
    assert_eq!(back.rules[0].id, 1);
    assert_eq!(back.next_id, 2);
    assert!(Rules::try_load(StoreRead::Missing).unwrap().rules.is_empty());
    assert!(Rules::try_load(StoreRead::Corrupt).unwrap().rules.is_empty());
    let mut last = tree_allow("/usr/bin/a", "/x");
    last.id = u64::MAX;
    let read = StoreRead::Parsed(Rules { next_id: 0, rules: vec![last] });
    assert!(!read.check_ids_fit());
    assert!(Rules::try_load(read).is_none());
}
