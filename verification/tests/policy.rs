use filewall::config::{
    default_action, default_control_socket, default_learn_object, default_rules_path,
    default_socket, default_timeout, expand_home, Config, ConfigError, WatchConfig,
};
use filewall::paths::FilePath;
use filewall::policy::{combine, outcome_for, Action, Outcome, Policy, WatchPolicy};
use filewall::rules::{ObjectKind, RuleAction};

fn path(p: &str) -> FilePath {
    FilePath::new(p)
}

fn strings(v: &[&str]) -> Vec<String> {
    v.iter().map(|s| s.to_string()).collect()
}

fn watch(root: &str, allow: &[&str], action: Action, kind: ObjectKind, cwd: bool) -> WatchPolicy {
    watch_excluding(root, allow, action, kind, cwd, &[])
}

fn watch_excluding(
    root: &str,
    allow: &[&str],
    action: Action,
    kind: ObjectKind,
    cwd: bool,
    exclude: &[&str],
) -> WatchPolicy {
    match WatchPolicy::new(path(root), &strings(allow), action, kind, cwd, &strings(exclude)) {
        Ok(w) => w,
        Err(e) => panic!("{e}"),
    }
}

fn ssh_policy() -> WatchPolicy {
    watch(
        "/home/user/.ssh",
        &["/usr/bin/ssh", "/usr/bin/ssh-*", "/usr/lib/openssh/*"],
        Action::Prompt,
        ObjectKind::File,
        false,
    )
}

#[test]
fn combine_deny_wins() {
    let la = RuleAction::Allow;
    let ld = RuleAction::Deny;
    // learned deny beats config allow
    assert_eq!(combine(Outcome::Allow, Some(ld)), Outcome::Deny);
    // config deny beats learned allow
    assert_eq!(combine(Outcome::Deny, Some(la)), Outcome::Deny);
    // learned allow upgrades a prompt
    assert_eq!(combine(Outcome::Prompt, Some(la)), Outcome::Allow);
    // config allow with no learned rule
    assert_eq!(combine(Outcome::Allow, None), Outcome::Allow);
    // nothing matches -> prompt
    assert_eq!(combine(Outcome::Prompt, None), Outcome::Prompt);
}

#[test]
fn learned_rule_tree_uses_watch_root() {
    let p = watch("/home/u/.ssh", &[], Action::Prompt, ObjectKind::Tree, false);
    let r = p.learned_rule(
        RuleAction::Allow,
        "/usr/bin/node",
        &path("/home/u/.ssh/id_ed25519"),
        Some("/home/u/p"),
    );
    assert_eq!(r.object_kind, ObjectKind::Tree);
    assert_eq!(r.object, path("/home/u/.ssh"));
    assert_eq!(r.exe, "/usr/bin/node");
    assert_eq!(r.cwd, None); // learn_cwd = false
}

#[test]
fn learned_rule_file_uses_exact_path_and_cwd() {
    let p = watch("/home/u/.ssh", &[], Action::Prompt, ObjectKind::File, true);
    let r = p.learned_rule(
        RuleAction::Deny,
        "/usr/bin/node",
        &path("/home/u/.ssh/id_ed25519"),
        Some("/home/u/p"),
    );
    assert_eq!(r.object_kind, ObjectKind::File);
    assert_eq!(r.object, path("/home/u/.ssh/id_ed25519"));
    assert_eq!(r.action, RuleAction::Deny);
    assert_eq!(r.cwd.as_deref(), Some("/home/u/p"));
}

#[test]
fn exact_allow_matches() {
    assert_eq!(ssh_policy().evaluate("/usr/bin/ssh"), Outcome::Allow);
}

#[test]
fn unlisted_binary_prompts() {
    assert_eq!(ssh_policy().evaluate("/usr/bin/node"), Outcome::Prompt);
    assert_eq!(ssh_policy().evaluate("/usr/bin/cat"), Outcome::Prompt);
}

#[test]
fn star_suffix_glob_matches() {
    let p = ssh_policy();
    assert_eq!(p.evaluate("/usr/bin/ssh-add"), Outcome::Allow);
    assert_eq!(p.evaluate("/usr/bin/ssh-keygen"), Outcome::Allow);
}

#[test]
fn single_star_does_not_cross_slash() {
    // "/usr/lib/openssh/*" must not match a deeper path.
    let p = ssh_policy();
    assert_eq!(p.evaluate("/usr/lib/openssh/sftp-server"), Outcome::Allow);
    assert_eq!(p.evaluate("/usr/lib/openssh/sub/evil"), Outcome::Prompt);
}

#[test]
fn double_star_crosses_slash() {
    let p = watch(
        "/home/user/.aws",
        &["/usr/lib/python*/site-packages/awscli/**"],
        Action::Prompt,
        ObjectKind::File,
        false,
    );
    assert_eq!(
        p.evaluate("/usr/lib/python3.12/site-packages/awscli/clidriver.py"),
        Outcome::Allow
    );
}

#[test]
fn default_action_deny_is_honored() {
    let p = watch("/x", &["/usr/bin/ssh"], Action::Deny, ObjectKind::File, false);
    assert_eq!(p.evaluate("/usr/bin/node"), Outcome::Deny);
}

#[test]
fn covers_matches_subpaths_only() {
    let p = ssh_policy();
    assert!(p.covers(&path("/home/user/.ssh/id_ed25519")));
    assert!(!p.covers(&path("/home/user/.aws/credentials")));
}

#[test]
fn exclude_globs_prune_paths() {
    let p = watch_excluding(
        "/home/u/.config",
        &[],
        Action::Prompt,
        ObjectKind::File,
        false,
        &["**/Cache", "**/*.tmp"],
    );
    // A matching directory (subtree gets pruned by the walker).
    assert!(p.is_excluded(&path("/home/u/.config/app/Cache")));
    // A matching file anywhere in the tree.
    assert!(p.is_excluded(&path("/home/u/.config/x/y.tmp")));
    // Non-matching paths are kept.
    assert!(!p.is_excluded(&path("/home/u/.config/keep.txt")));
    // No exclude patterns -> nothing is excluded.
    let none = watch("/x", &[], Action::Prompt, ObjectKind::File, false);
    assert!(!none.is_excluded(&path("/x/anything/Cache")));
}

#[test]
fn always_target_tree_is_root_file_is_path() {
    let tree = watch("/home/u/.ssh", &[], Action::Prompt, ObjectKind::Tree, false);
    let (obj, kind) = tree.always_target(&path("/home/u/.ssh/id_ed25519"));
    assert_eq!(kind, ObjectKind::Tree);
    assert_eq!(obj, path("/home/u/.ssh"));

    let file = watch("/home/u/.ssh", &[], Action::Prompt, ObjectKind::File, false);
    let (obj, kind) = file.always_target(&path("/home/u/.ssh/id_ed25519"));
    assert_eq!(kind, ObjectKind::File);
    assert_eq!(obj, path("/home/u/.ssh/id_ed25519"));
}

#[test]
fn always_target_agrees_with_learned_rule() {
    // The scope we would *display* must equal the scope we would *persist*.
    for kind in [ObjectKind::Tree, ObjectKind::File] {
        for learn_cwd in [false, true] {
            let p = watch("/home/u/.ssh", &[], Action::Prompt, kind, learn_cwd);
            let path = path("/home/u/.ssh/id_ed25519");
            let (obj, obj_kind) = p.always_target(&path);
            let rule = p.learned_rule(RuleAction::Allow, "/usr/bin/node", &path, Some("/home/u/p"));
            assert_eq!(rule.object, obj);
            assert_eq!(rule.object_kind, obj_kind);
            assert_eq!(rule.cwd.is_some(), p.learn_cwd());
        }
    }
}

#[test]
fn policy_routes_to_covering_watch() {
    let ssh = watch(
        "/home/user/.ssh",
        &["/usr/bin/ssh"],
        Action::Prompt,
        ObjectKind::File,
        false,
    );
    let aws = watch(
        "/home/user/.aws",
        &["/usr/bin/aws"],
        Action::Prompt,
        ObjectKind::File,
        false,
    );
    let policy = Policy::new(vec![ssh, aws]);

    assert_eq!(
        policy.evaluate(&path("/home/user/.ssh/id_ed25519"), "/usr/bin/ssh"),
        Outcome::Allow
    );
    assert_eq!(
        policy.evaluate(&path("/home/user/.aws/credentials"), "/usr/bin/ssh"),
        Outcome::Prompt
    );
    // Path no watch covers -> allow (never block unrelated traffic).
    assert_eq!(policy.evaluate(&path("/etc/hosts"), "/usr/bin/node"), Outcome::Allow);
}

fn config(watches: Vec<WatchConfig>) -> Config {
    Config {
        default_action: default_action(),
        prompt_timeout_seconds: default_timeout(),
        socket_path: default_socket(),
        control_socket_path: default_control_socket(),
        rules_path: default_rules_path(),
        watch: watches,
    }
}

fn watch_config(p: &str, allow: &[&str], exclude: &[&str]) -> WatchConfig {
    WatchConfig {
        path: p.to_string(),
        allow: strings(allow),
        exclude: strings(exclude),
        learn_object: default_learn_object(),
        learn_match: Vec::new(),
    }
}

#[test]
fn build_policy_evaluates() {
    let cfg = config(vec![watch_config("/home/user/.ssh", &["/usr/bin/ssh"], &[])]);
    let policy = cfg.build_policy(&None, &vec![None]).unwrap();
    assert_eq!(
        policy.evaluate(&path("/home/user/.ssh/id_ed25519"), "/usr/bin/ssh"),
        Outcome::Allow
    );
    assert_eq!(
        policy.evaluate(&path("/home/user/.ssh/id_ed25519"), "/usr/bin/node"),
        Outcome::Prompt
    );
}

#[test]
fn invalid_glob_is_reported() {
    let cfg = config(vec![watch_config("/x", &["/usr/bin/[invalid"], &[])]);
    assert!(matches!(cfg.build_policy(&None, &vec![None]), Err(ConfigError::Glob(_, _))));
}

#[test]
fn invalid_exclude_glob_is_reported() {
    let cfg = config(vec![watch_config("/a", &[], &[]), watch_config("/x", &[], &["[invalid"])]);
    match cfg.build_policy(&None, &vec![None, None]) {
        Err(e) => {
            let text = e.message();
            assert!(text.starts_with("compiling glob in watch '/x': "), "{text}");
            assert!(text.contains("[invalid"));
        }
        Ok(_) => panic!("expected an error"),
    }
}

#[test]
fn expands_home_tilde() {
    let home = Some(path("/home/tester"));
    assert_eq!(expand_home("~/.ssh", &home), path("/home/tester/.ssh"));
    assert_eq!(expand_home("~", &home), path("/home/tester"));
    assert_eq!(expand_home("/abs/path", &home), path("/abs/path"));
}

#[test]
fn tilde_stays_without_a_home() {
    assert!(expand_home("~/.ssh", &None).same_bytes_as(&path("~/.ssh")));
    let home = Some(path("/h"));
    assert!(expand_home("~user/x", &home).same_bytes_as(&path("~user/x")));
    assert!(expand_home("~//etc", &home).same_bytes_as(&path("/etc")));
}

#[test]
fn canonical_root_governs_reported_paths() {
    let cfg = config(vec![watch_config("/link", &["/usr/bin/ssh"], &[])]);
    let policy = cfg.build_policy(&None, &vec![Some(path("/real"))]).unwrap();
    assert_eq!(policy.evaluate(&path("/real/secret"), "/usr/bin/node"), Outcome::Prompt);
    assert_eq!(policy.evaluate(&path("/real/secret"), "/usr/bin/ssh"), Outcome::Allow);
    assert_eq!(policy.evaluate(&path("/link/secret"), "/usr/bin/node"), Outcome::Allow);
}

#[test]
fn defaults_are_the_documented_ones() {
    let cfg = config(Vec::new());
    assert_eq!(cfg.default_action, Action::Prompt);
    assert_eq!(cfg.prompt_timeout_seconds, 30);
    assert_eq!(cfg.socket_path.display(), "/run/filewall/prompt.sock");
    assert_eq!(cfg.control_socket_path.display(), "/run/filewall/control.sock");
    assert_eq!(cfg.rules_path.display(), "/var/lib/filewall/rules.toml");
    assert_eq!(default_learn_object(), ObjectKind::File);
}

#[test]
fn learn_match_cwd_pins_rules() {
    let mut w = watch_config("/home/u/.aws", &[], &[]);
    w.learn_object = ObjectKind::Tree;
    w.learn_match = strings(&["exe", "cwd"]);
    let cfg = config(vec![w, watch_config("~/.ssh", &[], &[])]);
    let home = Some(path("/home/u"));
    let roots = cfg.expanded_roots(&home);
    assert_eq!(roots[1].display(), "/home/u/.ssh");
    let policy = cfg.build_policy(&home, &vec![None, None]).unwrap();
    assert!(policy.watches()[0].learn_cwd());
    assert!(!policy.watches()[1].learn_cwd());
    assert_eq!(policy.watches()[1].root().display(), "/home/u/.ssh");
}

#[test]
fn config_errors_read_as_sentences() {
    let io = ConfigError::Io(path("/etc/x"), "denied".to_string());
    assert_eq!(io.message(), "reading config /etc/x: denied");
    assert_eq!(ConfigError::Parse("bad".to_string()).message(), "parsing config: bad");
}

#[test]
fn refused_patterns_come_with_their_message() {
    let bad = strings(&["/ok", "/usr/{a", "["]);
    match WatchPolicy::new(path("/x"), &bad, Action::Prompt, ObjectKind::File, false, &Vec::new()) {
        Err(e) => assert!(e.contains("/usr/{a"), "{e}"),
        Ok(_) => panic!("expected an error"),
    }
}

#[test]
fn first_covering_watch_decides() {
    let outer = watch("/home/u", &[], Action::Deny, ObjectKind::File, false);
    let inner = watch("/home/u/.ssh", &[], Action::Allow, ObjectKind::File, false);
    let policy = Policy::new(vec![outer, inner]);
    assert_eq!(policy.covering(&path("/home/u/.ssh/k")), Some(0));
    assert_eq!(policy.evaluate(&path("/home/u/.ssh/k"), "/bin/x"), Outcome::Deny);
    assert_eq!(policy.covering(&path("/home/u2/k")), None);
}

#[test]
fn listed_paths_match_literally() {
    let w = watch(
        "/x",
        &["/opt/a.b,c!d", "/opt/tree/**", ""],
        Action::Prompt,
        ObjectKind::File,
        false,
    );
    assert_eq!(w.evaluate("/opt/a.b,c!d"), Outcome::Allow);
    assert_eq!(w.evaluate("/opt/aXb,c!d"), Outcome::Prompt);
    assert_eq!(w.evaluate("/opt/tree/"), Outcome::Allow);
    assert_eq!(w.evaluate("/opt/tree/x/y/z"), Outcome::Allow);
    assert_eq!(w.evaluate("/opt/tree"), Outcome::Prompt);
    assert_eq!(w.evaluate("/opt/treehouse/x"), Outcome::Prompt);
    assert_eq!(w.evaluate(""), Outcome::Allow);
    assert_eq!(outcome_for(false, Action::Allow), Outcome::Allow);
    assert_eq!(outcome_for(true, Action::Deny), Outcome::Allow);
}

#[test]
fn star_matches_bytes_that_are_no_text() {
    let w = watch_excluding("/x", &[], Action::Prompt, ObjectKind::File, false, &["/x/*"]);
    assert!(w.is_excluded(&FilePath::from_bytes(vec![b'/', b'x', b'/', 0xff, b'\n'])));
    assert!(!w.is_excluded(&FilePath::from_bytes(vec![b'/', b'x', b'/', 0xff, b'/', b'y'])));
}

#[test]
fn learned_rule_at_records_the_time() {
    let w = watch("/x", &[], Action::Prompt, ObjectKind::File, true);
    let r = w.learned_rule_at(77, RuleAction::Allow, "/bin/a", &path("/x/f"), None);
    assert_eq!(r.created_unix, 77);
    assert_eq!(r.id, 0);
    assert_eq!(r.cwd, None);
    assert!(r.matches(&path("/x/f"), "/bin/a", Some("/anywhere")));
}

fn nested(depth: usize) -> String {
    "{".repeat(depth) + "a" + &"}".repeat(depth)
}

fn compile(allow: Vec<String>, exclude: Vec<String>) -> Result<WatchPolicy, String> {
    WatchPolicy::new(path("/x"), &allow, Action::Prompt, ObjectKind::File, false, &exclude)
}

fn message(allow: Vec<String>, exclude: Vec<String>) -> String {
    match compile(allow, exclude) {
        Ok(_) => panic!("expected an error"),
        Err(e) => e,
    }
}

#[test]
fn nested_alternatives_match_as_deep_as_a_regex_goes() {
    for depth in [1, 100, 200] {
        let w = compile(vec![nested(depth)], Vec::new()).ok().unwrap();
        assert_eq!(w.evaluate("a"), Outcome::Allow);
        assert_eq!(w.evaluate("b"), Outcome::Prompt);
    }
    assert_eq!(message(vec![nested(300)], Vec::new()), "error parsing pattern 0");
    assert_eq!(message(vec![nested(1000)], Vec::new()), "error parsing pattern 0");
    // Nothing inside, nothing to nest.
    let w = compile(vec!["{".repeat(1000) + &"}".repeat(1000)], Vec::new()).ok().unwrap();
    assert_eq!(w.evaluate(""), Outcome::Allow);
}

#[test]
fn alternatives_nested_too_deep_are_refused() {
    let deep = nested(1001);
    let said = format!("error compiling glob '{deep}': nested too deep or too long");
    assert_eq!(message(vec![deep.clone()], Vec::new()), said);
    assert_eq!(message(vec!["/ok".into()], vec![deep.clone()]), said);
    assert_eq!(message(vec![nested(100_000), deep.clone()], Vec::new()).len(), 200_053);
    // A pattern that does not parse is reported first, wherever it stands.
    assert!(message(vec![deep.clone(), "[".into()], Vec::new()).contains("'['"));
    assert!(message(vec![deep], vec!["[".into()]).contains("'['"));
}

#[test]
fn only_nesting_counts() {
    // Side by side, in a class or behind an escape, braces nest in nothing.
    for piece in ["{a,b}", "[{]", "[]{]", "[!]}]", "\\{", "\\}"] {
        assert!(compile(vec![piece.repeat(2000)], Vec::new()).is_ok(), "{piece}");
    }
    // Those left open are reported as such.
    let open = message(vec!["{".repeat(5000)], Vec::new());
    assert!(open.contains("unclosed alternate group"));
    let open = message(vec!["{a[}]".repeat(5000)], Vec::new());
    assert!(open.contains("unclosed alternate group"));
    assert!(message(vec!["}".repeat(5000)], Vec::new()).contains("unopened alternate group"));
}

#[test]
fn long_lists_of_trees_are_compiled() {
    let mut allow: Vec<String> = vec!["/a/b/c/**".to_string(); 7328];
    allow.push("/usr/bin/*".to_string());
    allow.push("/last/**".to_string());
    let w = compile(allow, Vec::new()).ok().unwrap();
    assert_eq!(w.evaluate("/a/b/c/d/e"), Outcome::Allow);
    assert_eq!(w.evaluate("/last/x"), Outcome::Allow);
    assert_eq!(w.evaluate("/usr/bin/ssh"), Outcome::Allow);
    assert_eq!(w.evaluate("/a/b/x"), Outcome::Prompt);
    let many: Vec<String> = (0..30_000).map(|n| format!("/home/u/dir{n}/**")).collect();
    let w = compile(many, Vec::new()).ok().unwrap();
    for n in [0, 5_000, 29_999] {
        assert_eq!(w.evaluate(&format!("/home/u/dir{n}/x")), Outcome::Allow);
    }
    assert_eq!(w.evaluate("/home/u/dir30000/x"), Outcome::Prompt);
}

#[test]
fn long_lists_of_tails_exclude() {
    let mut exclude: Vec<String> = (0..20_000).map(|n| format!("**/cache/d{n}")).collect();
    exclude.push("**/**/x/y".to_string());
    exclude.push("/t/**/**".to_string());
    exclude.push("/esc\\*/**".to_string());
    exclude.push("/odd\\/**".to_string());
    let w = compile(Vec::new(), exclude).ok().unwrap();
    for p in [
        "/w/cache/d0",
        "/w/cache/d19999",
        "cache/d7",
        "/q/x/y",
        "/t/1/2",
        "/esc*/1",
        "/odd/1",
    ] {
        assert!(w.is_excluded(&path(p)), "{p}");
    }
    for p in ["/w/cache/d20000", "/w/cache2/d7", "/w/notcache/d7", "/escx/1", "/t"] {
        assert!(!w.is_excluded(&path(p)), "{p}");
    }
}

#[test]
fn spilled_lists_report_the_same_errors() {
    let mut allow: Vec<String> = vec!["/a/b/c/**".to_string(); 8000];
    allow.push("?".repeat(500_000));
    assert_eq!(message(allow.clone(), Vec::new()), "error building NFA");
    allow.push("[".to_string());
    assert!(message(allow, Vec::new()).contains("unclosed character class"));
}

#[test]
fn oversized_pattern_is_refused_with_its_message() {
    assert_eq!(message(vec!["?".repeat(500_000)], Vec::new()), "error building NFA");
    assert_eq!(message(Vec::new(), vec!["?".repeat(500_000)]), "error building NFA");
    assert!(compile(vec!["a".repeat(3_000_000)], Vec::new()).is_ok());
}

#[test]
fn policy_reports_the_watch_with_the_pattern() {
    let deep = nested(1001);
    let cfg = config(vec![
        watch_config("/a", &["/usr/bin/ssh"], &[]),
        watch_config("/x", &[], &[deep.as_str()]),
        watch_config("/y", &["["], &[]),
    ]);
    match cfg.build_policy(&None, &Vec::new()) {
        Err(ConfigError::Glob(p, e)) => {
            assert_eq!(p, "/x");
            assert!(e.contains("nested too deep"));
        }
        _ => panic!("expected an error"),
    }
}

#[test]
fn missing_canonical_paths_are_none() {
    let cfg = config(vec![watch_config("/x", &[], &[]), watch_config("/y", &[], &[])]);
    let policy = cfg.build_policy(&None, &vec![Some(path("/real"))]).unwrap();
    assert_eq!(policy.watches()[0].root().display(), "/real");
    assert_eq!(policy.watches()[1].root().display(), "/y");
}
