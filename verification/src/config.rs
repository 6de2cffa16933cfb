//! Configuration: the settings, their defaults, and the policy they describe.

use crate::globs::{
    any_hit, is_plain, is_tree, path_globs, plain_lists_are_accepted, MAX_PATTERN_CHARS,
};
use crate::paths::{joined, parts, shown, under, FilePath};
use crate::policy::{
    governing_watch_decides, refusal, refusal_is_fixed, ungoverned_path_is_allowed, views, Action,
    Outcome, Policy, WatchPolicy, WatchView,
};
use crate::rules::ObjectKind;
use crate::text::{from_chars, same_text, texts, to_chars};
use vstd::prelude::*;
use vstd::string::*;
use vstd::utf8::*;

verus! {

/// The daemon's settings.
#[derive(Debug)]
pub struct Config {
    /// What happens to executables that no allow pattern of a watch matches.
    pub default_action: Action,
    /// How long a prompt may stay unanswered.
    pub prompt_timeout_seconds: u64,
    /// Where prompt helpers connect.
    pub socket_path: FilePath,
    /// Where control clients connect.
    pub control_socket_path: FilePath,
    /// Where learned rules are kept.
    pub rules_path: FilePath,
    pub watch: Vec<WatchConfig>,
}

/// One watched path.
#[derive(Debug)]
pub struct WatchConfig {
    pub path: String,
    /// Patterns for executables that need no prompt.
    pub allow: Vec<String>,
    /// Patterns for paths below that stay unmarked.
    pub exclude: Vec<String>,
    /// What an "Always" decision records.
    pub learn_object: ObjectKind,
    /// `cwd` among these limits "Always" rules to the working directory.
    pub learn_match: Vec<String>,
}

/// Why a configuration cannot be used.
#[derive(Debug)]
pub enum ConfigError {
    /// The file could not be read: its path and the reason.
    Io(FilePath, String),
    /// The file is not a configuration: the reason.
    Parse(String),
    /// A watch has patterns that cannot be compiled: its path and the reason.
    Glob(String, String),
}

pub fn default_action() -> (r: Action)
    ensures
        r == Action::Prompt,
{
    Action::Prompt
}

pub fn default_timeout() -> (r: u64)
    ensures
        r == 30,
{
    30
}

pub fn default_socket() -> (r: FilePath)
    ensures
        r@ == encode_utf8("/run/filewall/prompt.sock"@),
{
    FilePath::new("/run/filewall/prompt.sock")
}

pub fn default_control_socket() -> (r: FilePath)
    ensures
        r@ == encode_utf8("/run/filewall/control.sock"@),
{
    FilePath::new("/run/filewall/control.sock")
}

pub fn default_learn_object() -> (r: ObjectKind)
    ensures
        r == ObjectKind::File,
{
    ObjectKind::File
}

pub fn default_rules_path() -> (r: FilePath)
    ensures
        r@ == encode_utf8("/var/lib/filewall/rules.toml"@),
{
    FilePath::new("/var/lib/filewall/rules.toml")
}

/// A path with a leading `~` or `~/` taken as the home directory, where there is one.
pub open spec fn expanded(path: Seq<char>, home: Option<Seq<u8>>) -> Seq<u8> {
    match home {
        Some(home) => if seq!['~', '/'].is_prefix_of(path) {
            joined(home, encode_utf8(path.skip(2)))
        } else if path == seq!['~'] {
            home
        } else {
            encode_utf8(path)
        },
        None => encode_utf8(path),
    }
}

/// The bytes of an optional path.
pub open spec fn opt_path(p: Option<FilePath>) -> Option<Seq<u8>> {
    match p {
        Some(p) => Some(p@),
        None => None,
    }
}

/// The bytes of optional paths.
pub open spec fn opt_paths(v: Seq<Option<FilePath>>) -> Seq<Option<Seq<u8>>> {
    v.map_values(|p: Option<FilePath>| opt_path(p))
}

/// Expands a leading `~` or `~/` to `home`. Other paths pass through.
pub fn expand_home(path: &str, home: &Option<FilePath>) -> (r: FilePath)
    ensures
        r@ == expanded(path@, opt_path(*home)),
{
    let home = match home {
        Some(home) => home,
        None => {
            return FilePath::new(path);
        },
    };
    let cs = to_chars(path);
    if cs.len() >= 2 && cs[0] == '~' && cs[1] == '/' {
        let mut rest: Vec<char> = Vec::new();
        let mut i: usize = 2;
        while i < cs.len()
            invariant
                2 <= i <= cs.len(),
                rest@ == cs@.subrange(2, i as int),
            decreases cs.len() - i,
        {
            rest.push(cs[i]);
            i += 1;
        }
        assert(rest@ == path@.skip(2));
        assert(seq!['~', '/'].is_prefix_of(path@));
        return home.join(&FilePath::new(from_chars(&rest).as_str()));
    }
    assert(!seq!['~', '/'].is_prefix_of(path@)) by {
        assert(seq!['~', '/'][0] == '~' && seq!['~', '/'][1] == '/');
    }
    if cs.len() == 1 && cs[0] == '~' {
        assert(path@ =~= seq!['~']);
        return home.clone();
    }
    FilePath::new(path)
}

/// Whether the watch limits its "Always" rules to the working directory.
pub open spec fn pins_cwd(w: WatchConfig) -> bool {
    exists|i: int| 0 <= i < w.learn_match@.len() && (#[trigger] w.learn_match@[i])@ == "cwd"@
}

/// The path at `i`, where there is one.
pub open spec fn path_at(paths: Seq<Option<Seq<u8>>>, i: int) -> Option<Seq<u8>> {
    if i < paths.len() {
        paths[i]
    } else {
        None
    }
}

/// The root a watch governs: its canonical path where it has one, or else the
/// path as configured.
pub open spec fn root_of(w: WatchConfig, home: Option<Seq<u8>>, canonical: Option<Seq<u8>>) -> Seq<
    u8,
> {
    match canonical {
        Some(c) => c,
        None => expanded(w.path@, home),
    }
}

/// The watch policy that a watch describes.
pub open spec fn described(action: Action, w: WatchConfig, root: Seq<u8>) -> WatchView {
    WatchView {
        root,
        allow: path_globs(texts(w.allow@)),
        default_action: action,
        learn_object: w.learn_object,
        learn_cwd: pins_cwd(w),
        exclude: path_globs(texts(w.exclude@)),
    }
}

/// The message with which the patterns of a watch are refused, where they are.
pub open spec fn watch_fault(w: WatchConfig) -> Option<Seq<char>> {
    refusal(texts(w.allow@), texts(w.exclude@))
}

/// Whether it is fixed which message that is.
pub open spec fn fault_is_fixed(w: WatchConfig) -> bool {
    refusal_is_fixed(texts(w.allow@), texts(w.exclude@))
}

fn learns_cwd(w: &WatchConfig) -> (r: bool)
    ensures
        r == pins_cwd(*w),
{
    let mut i: usize = 0;
    while i < w.learn_match.len()
        invariant
            i <= w.learn_match.len(),
            forall|j: int| 0 <= j < i ==> (#[trigger] w.learn_match@[j])@ != "cwd"@,
        decreases w.learn_match.len() - i,
    {
        if same_text(w.learn_match[i].as_str(), "cwd") {
            return true;
        }
        i += 1;
    }
    false
}

impl Config {
    /// The watch policies that the watches describe.
    pub open spec fn watch_views(
        &self,
        home: Option<Seq<u8>>,
        canonical: Seq<Option<Seq<u8>>>,
    ) -> Seq<WatchView> {
        Seq::new(
            self.watch@.len(),
            |i: int|
                described(
                    self.default_action,
                    self.watch@[i],
                    root_of(self.watch@[i], home, path_at(canonical, i)),
                ),
        )
    }

    /// Whether `r` is what compiling comes to: the policy described, or an error for
    /// the first watch whose patterns are refused.
    pub open spec fn builds(
        &self,
        home: Option<Seq<u8>>,
        canonical: Seq<Option<Seq<u8>>>,
        r: Result<Policy, ConfigError>,
    ) -> bool {
        match r {
            Ok(p) => {
                &&& forall|i: int|
                    0 <= i < self.watch@.len() ==> watch_fault(#[trigger] self.watch@[i]) is None
                &&& p@ == self.watch_views(home, canonical)
            },
            Err(e) => exists|k: int|
                {
                    &&& 0 <= k < self.watch@.len()
                    &&& watch_fault(#[trigger] self.watch@[k]) is Some
                    &&& forall|j: int|
                        0 <= j < k ==> watch_fault(#[trigger] self.watch@[j]) is None
                    &&& e matches ConfigError::Glob(path, message) && path@ == self.watch@[k].path@
                        && (fault_is_fixed(self.watch@[k]) ==> watch_fault(self.watch@[k]) == Some(
                        message@,
                    ))
                },
        }
    }

    /// The configured paths of the watches, with the home directory expanded.
    pub fn expanded_roots(&self, home: &Option<FilePath>) -> (r: Vec<FilePath>)
        ensures
            r@.len() == self.watch@.len(),
            forall|i: int|
                0 <= i < r@.len() ==> (#[trigger] r@[i])@ == expanded(
                    self.watch@[i].path@,
                    opt_path(*home),
                ),
    {
        let mut out: Vec<FilePath> = Vec::new();
        let mut i: usize = 0;
        while i < self.watch.len()
            invariant
                i <= self.watch.len(),
                out@.len() == i,
                forall|j: int|
                    0 <= j < i ==> (#[trigger] out@[j])@ == expanded(
                        self.watch@[j].path@,
                        opt_path(*home),
                    ),
            decreases self.watch.len() - i,
        {
            out.push(expand_home(self.watch[i].path.as_str(), home));
            i += 1;
        }
        out
    }

    /// The compiled policy. `canonical` holds, for each watch, its canonical path
    /// where the file system gave one: accesses are reported by canonical path. It
    /// may end early.
    pub fn build_policy(&self, home: &Option<FilePath>, canonical: &Vec<Option<FilePath>>) -> (r:
        Result<Policy, ConfigError>)
        ensures
            self.builds(opt_path(*home), opt_paths(canonical@), r),
    {
        let mut watches: Vec<WatchPolicy> = Vec::new();
        let ghost goal = Seq::new(
            self.watch@.len(),
            |i: int|
                described(
                    self.default_action,
                    self.watch@[i],
                    root_of(
                        self.watch@[i],
                        opt_path(*home),
                        path_at(opt_paths(canonical@), i),
                    ),
                ),
        );
        let mut i: usize = 0;
        while i < self.watch.len()
            invariant
                i <= self.watch.len(),
                goal == Seq::new(
                    self.watch@.len(),
                    |i: int|
                        described(
                            self.default_action,
                            self.watch@[i],
                            root_of(
                        self.watch@[i],
                        opt_path(*home),
                        path_at(opt_paths(canonical@), i),
                    ),
                        ),
                ),
                forall|j: int| 0 <= j < i ==> watch_fault(#[trigger] self.watch@[j]) is None,
                views(watches@) == goal.take(i as int),
            decreases self.watch.len() - i,
        {
            let w = &self.watch[i];
            let root = if i < canonical.len() && canonical[i].is_some() {
                canonical[i].as_ref().unwrap().clone()
            } else {
                expand_home(w.path.as_str(), home)
            };
            match WatchPolicy::new(
                root,
                &w.allow,
                self.default_action,
                w.learn_object,
                learns_cwd(w),
                &w.exclude,
            ) {
                Ok(wp) => {
                    assert(wp@ == goal[i as int]);
                    let ghost before = watches@;
                    watches.push(wp);
                    assert(views(watches@) =~= views(before).push(wp@));
                    assert(goal.take(i + 1) =~= goal.take(i as int).push(goal[i as int]));
                },
                Err(e) => {
                    assert(watch_fault(self.watch@[i as int]) is Some);
                    return Err(ConfigError::Glob(w.path.clone(), e));
                },
            }
            i += 1;
        }
        assert(goal.take(i as int) == goal);
        assert(goal =~= self.watch_views(opt_path(*home), opt_paths(canonical@)));
        Ok(Policy::new(watches))
    }

}

/// What an error says.
pub open spec fn error_text(e: ConfigError) -> Seq<char> {
    match e {
        ConfigError::Io(path, reason) => "reading config "@ + crate::paths::shown(path@) + ": "@
            + reason@,
        ConfigError::Parse(reason) => "parsing config: "@ + reason@,
        ConfigError::Glob(path, reason) => "compiling glob in watch '"@ + path@ + "': "@ + reason@,
    }
}

impl ConfigError {
    /// The error in words.
    pub fn message(&self) -> (r: String)
        ensures
            r@ == error_text(*self),
    {
        let mut out = String::new();
        match self {
            ConfigError::Io(path, reason) => {
                out.append("reading config ");
                out.append(path.display().as_str());
                out.append(": ");
                out.append(reason.as_str());
            },
            ConfigError::Parse(reason) => {
                out.append("parsing config: ");
                out.append(reason.as_str());
            },
            ConfigError::Glob(path, reason) => {
                out.append("compiling glob in watch '");
                out.append(path.as_str());
                out.append("': ");
                out.append(reason.as_str());
            },
        }
        assert(out@ =~= error_text(*self));
        out
    }
}

/// A built policy has one watch for each that is configured, in order, with its own
/// settings and the common default action.
pub proof fn policy_has_the_configured_settings(
    config: Config,
    home: Option<FilePath>,
    canonical: Vec<Option<FilePath>>,
    policy: Policy,
    k: int,
)
    requires
        call_ensures(Config::build_policy, (&config, &home, &canonical), Ok(policy)),
        0 <= k < config.watch@.len(),
    ensures
        policy@.len() == config.watch@.len(),
        policy@[k].default_action == config.default_action,
        policy@[k].learn_object == config.watch@[k].learn_object,
        policy@[k].learn_cwd <==> exists|i: int|
            0 <= i < config.watch@[k].learn_match@.len() && (
            #[trigger] config.watch@[k].learn_match@[i])@ == "cwd"@,
        policy@[k].allow.len() == config.watch@[k].allow@.len(),
        forall|i: int|
            0 <= i < config.watch@[k].allow@.len() ==> #[trigger] policy@[k].allow[i] == (
                config.watch@[k].allow@[i]@,
                true,
            ),
        policy@[k].exclude.len() == config.watch@[k].exclude@.len(),
        forall|i: int|
            0 <= i < config.watch@[k].exclude@.len() ==> #[trigger] policy@[k].exclude[i] == (
                config.watch@[k].exclude@[i]@,
                true,
            ),
        k < canonical@.len() && canonical@[k] is Some ==> policy@[k].root == (canonical@[k]->0)@,
        k >= canonical@.len() || canonical@[k] is None ==> policy@[k].root == expanded(
            config.watch@[k].path@,
            match home {
                Some(h) => Some(h@),
                None => None,
            },
        ),
{
}

/// The default action is what happens: an access under the root of a watch, by an
/// executable that none of its patterns matches, is denied, allowed or asked about as
/// the configuration says; one that a pattern matches is allowed.
pub proof fn default_action_is_followed(
    config: Config,
    home: Option<FilePath>,
    canonical: Vec<Option<FilePath>>,
    policy: Policy,
    path: FilePath,
    exe: &str,
    k: int,
    outcome: Outcome,
)
    requires
        call_ensures(Config::build_policy, (&config, &home, &canonical), Ok(policy)),
        call_ensures(Policy::evaluate, (&policy, &path, exe), outcome),
        0 <= k < policy@.len(),
        parts(policy@[k].root).is_prefix_of(parts(path@)),
        forall|j: int|
            0 <= j < k ==> !parts((#[trigger] policy@[j]).root).is_prefix_of(parts(path@)),
    ensures
        ({
            let listed = any_hit(path_globs(texts(config.watch@[k].allow@)), encode_utf8(exe@));
            &&& listed ==> outcome == Outcome::Allow
            &&& !listed && config.default_action == Action::Deny ==> outcome == Outcome::Deny
            &&& !listed && config.default_action == Action::Allow ==> outcome == Outcome::Allow
            &&& !listed && config.default_action == Action::Prompt ==> outcome == Outcome::Prompt
        }),
{
    policy_has_the_configured_settings(config, home, canonical, policy, k);
    let allow = path_globs(texts(config.watch@[k].allow@));
    assert(policy@[k].allow =~= allow);
    governing_watch_decides(policy@, path@, exe@, k);
}

/// A policy allows what lies under none of its roots.
pub proof fn policy_leaves_the_rest_alone(
    policy: Policy,
    path: FilePath,
    exe: &str,
    covering: Option<usize>,
    outcome: Outcome,
)
    requires
        call_ensures(Policy::evaluate, (&policy, &path, exe), outcome),
        call_ensures(Policy::covering, (&policy, &path), covering),
    ensures
        covering is None <==> forall|j: int|
            0 <= j < policy@.len() ==> !parts((#[trigger] policy@[j]).root).is_prefix_of(
                parts(path@),
            ),
        covering is None ==> outcome == Outcome::Allow,
        covering matches Some(k) ==> k < policy@.len() && parts(
            policy@[k as int].root,
        ).is_prefix_of(parts(path@)) && forall|j: int|
            0 <= j < k ==> !parts((#[trigger] policy@[j]).root).is_prefix_of(parts(path@)),
{
    if covering is None {
        assert forall|j: int| 0 <= j < policy@.len() implies !parts(
            (#[trigger] policy@[j]).root,
        ).is_prefix_of(parts(path@)) by {
            assert(!under(path@, policy@[j].root));
        }
        ungoverned_path_is_allowed(policy@, path@, exe@);
    } else {
        let k = covering->0 as int;
        assert(under(path@, policy@[k].root));
        assert forall|j: int| 0 <= j < k implies !parts(
            (#[trigger] policy@[j]).root,
        ).is_prefix_of(parts(path@)) by {
            assert(!under(path@, policy@[j].root));
        }
    }
}

/// A configuration that lists plain paths and whole trees only can always be used, and
/// where one cannot, a watch of it is named.
pub proof fn plain_configuration_builds(
    config: Config,
    home: Option<FilePath>,
    canonical: Vec<Option<FilePath>>,
    r: Result<Policy, ConfigError>,
)
    requires
        call_ensures(Config::build_policy, (&config, &home, &canonical), r),
    ensures
        (forall|k: int|
            0 <= k < config.watch@.len() ==> all_plain(texts((#[trigger] config.watch@[k]).allow@))
                && all_plain(texts(config.watch@[k].exclude@))) ==> r is Ok,
        r matches Err(e) ==> (e matches ConfigError::Glob(path, _) && exists|k: int|
            0 <= k < config.watch@.len() && (#[trigger] config.watch@[k]).path@ == path@),
{
    if forall|k: int|
        0 <= k < config.watch@.len() ==> all_plain(texts((#[trigger] config.watch@[k]).allow@))
            && all_plain(texts(config.watch@[k].exclude@)) {
        assert forall|k: int| 0 <= k < config.watch@.len() implies watch_fault(
            #[trigger] config.watch@[k],
        ) is None by {
            plain_lists_are_accepted(texts(config.watch@[k].allow@));
            plain_lists_are_accepted(texts(config.watch@[k].exclude@));
        }
    }
}

/// Whether a list holds plain texts and whole trees only.
pub open spec fn all_plain(patterns: Seq<Seq<char>>) -> bool {
    &&& forall|i: int|
        0 <= i < patterns.len() ==> is_tree(#[trigger] patterns[i]) || (is_plain(patterns[i])
            && patterns[i].len() > 0)
    &&& forall|i: int| 0 <= i < patterns.len() ==> (#[trigger] patterns[i]).len() < MAX_PATTERN_CHARS
}

/// `~` alone is the home directory, `~/` leads into it, and anything else is taken as
/// it is spelled; so is everything without a home directory.
pub proof fn tilde_is_the_home_directory(rest: Seq<char>, path: Seq<char>, home: Seq<u8>)
    requires
        path.len() == 0 || path[0] != '~' || (path.len() > 1 && path[1] != '/'),
    ensures
        expanded(seq!['~'], Some(home)) == home,
        expanded(seq!['~', '/'] + rest, Some(home)) == joined(home, encode_utf8(rest)),
        expanded(path, Some(home)) == encode_utf8(path),
        expanded(path, None) == encode_utf8(path),
        expanded(seq!['~'], None) == encode_utf8(seq!['~']),
        expanded(seq!['~', '/'] + rest, None) == encode_utf8(seq!['~', '/'] + rest),
{
    let lead = seq!['~', '/'];
    assert(lead[0] == '~' && lead[1] == '/');
    assert((lead + rest).skip(2) =~= rest);
    assert(lead.is_prefix_of(lead + rest));
    assert(!lead.is_prefix_of(seq!['~']));
    if lead.is_prefix_of(path) {
        assert(path[0] == lead[0] && path[1] == lead[1]);
    }
    assert(seq!['~'][0] == '~');
}

/// Expanding goes by this, and an error says what went wrong and where.
pub proof fn expansion_and_errors(
    path: &str,
    home: Option<FilePath>,
    r: FilePath,
    e: ConfigError,
    said: String,
)
    requires
        call_ensures(expand_home, (path, &home), r),
        call_ensures(ConfigError::message, (&e,), said),
    ensures
        home is None ==> r@ == encode_utf8(path@),
        home is Some && path@ == seq!['~'] ==> r@ == (home->0)@,
        path@.len() > 0 && path@[0] != '~' ==> r@ == encode_utf8(path@),
        match e {
            ConfigError::Io(at, reason) => said@ == "reading config "@ + shown(at@) + ": "@
                + reason@,
            ConfigError::Parse(reason) => said@ == "parsing config: "@ + reason@,
            ConfigError::Glob(watch, reason) => said@ == "compiling glob in watch '"@ + watch@
                + "': "@ + reason@,
        },
{
    assert(seq!['~', '/'][0] == '~');
    if path@.len() > 0 && path@[0] != '~' {
        if seq!['~', '/'].is_prefix_of(path@) {
            assert(path@[0] == seq!['~', '/'][0]);
        }
    }
    assert(!seq!['~', '/'].is_prefix_of(seq!['~']));
}

/// Without settings the user is asked within thirty seconds about single files, and
/// everything lies in the usual places.
pub proof fn defaults_are_the_usual(
    action: Action,
    seconds: u64,
    kind: ObjectKind,
    socket: FilePath,
    control: FilePath,
    rules: FilePath,
)
    requires
        call_ensures(default_action, (), action),
        call_ensures(default_timeout, (), seconds),
        call_ensures(default_learn_object, (), kind),
        call_ensures(default_socket, (), socket),
        call_ensures(default_control_socket, (), control),
        call_ensures(default_rules_path, (), rules),
    ensures
        action == Action::Prompt,
        seconds == 30,
        kind == ObjectKind::File,
        socket@ == encode_utf8("/run/filewall/prompt.sock"@),
        control@ == encode_utf8("/run/filewall/control.sock"@),
        rules@ == encode_utf8("/var/lib/filewall/rules.toml"@),
{
}

/// The root of each watch is its path, below the home directory where it says so.
pub proof fn roots_are_the_paths(
    c: Config,
    home: Option<FilePath>,
    r: Vec<FilePath>,
    i: int,
    rest: Seq<char>,
)
    requires
        call_ensures(Config::expanded_roots, (&c, &home), r),
        0 <= i < c.watch@.len(),
    ensures
        r@.len() == c.watch@.len(),
        home is None ==> r@[i]@ == encode_utf8(c.watch@[i].path@),
        home is Some && c.watch@[i].path@ == seq!['~'] ==> r@[i]@ == (home->0)@,
        home is Some && c.watch@[i].path@ == seq!['~', '/'] + rest ==> r@[i]@ == joined(
            (home->0)@,
            encode_utf8(rest),
        ),
        c.watch@[i].path@.len() > 0 && c.watch@[i].path@[0] != '~' ==> r@[i]@ == encode_utf8(
            c.watch@[i].path@,
        ),
{
    let path = c.watch@[i].path@;
    let h = if home is Some {
        (home->0)@
    } else {
        Seq::empty()
    };
    tilde_is_the_home_directory(rest, seq!['x'], h);
    if path.len() > 0 && path[0] != '~' {
        tilde_is_the_home_directory(rest, path, h);
    }
}

/// A configuration is refused exactly if the patterns of some watch are, and the first
/// such watch is the one named.
pub proof fn first_refused_watch_is_named(
    config: Config,
    home: Option<FilePath>,
    canonical: Vec<Option<FilePath>>,
    r: Result<Policy, ConfigError>,
    k: int,
)
    requires
        call_ensures(Config::build_policy, (&config, &home, &canonical), r),
    ensures
        (forall|i: int|
            0 <= i < config.watch@.len() ==> refusal(
                texts((#[trigger] config.watch@[i]).allow@),
                texts(config.watch@[i].exclude@),
            ) is None) ==> r is Ok,
        0 <= k < config.watch@.len() && refusal(
            texts(config.watch@[k].allow@),
            texts(config.watch@[k].exclude@),
        ) is Some && (forall|j: int|
            0 <= j < k ==> refusal(
                texts((#[trigger] config.watch@[j]).allow@),
                texts(config.watch@[j].exclude@),
            ) is None) ==> (r matches Err(ConfigError::Glob(path, message)) && path@
            == config.watch@[k].path@ && (refusal_is_fixed(
            texts(config.watch@[k].allow@),
            texts(config.watch@[k].exclude@),
        ) ==> Some(message@) == refusal(
            texts(config.watch@[k].allow@),
            texts(config.watch@[k].exclude@),
        ))),
{
    let ws = config.watch@;
    assert forall|i: int| 0 <= i < ws.len() implies watch_fault(#[trigger] ws[i]) == refusal(
        texts(ws[i].allow@),
        texts(ws[i].exclude@),
    ) by {}
    if r is Err {
        let e = r->Err_0;
        let m = choose|m: int|
            {
                &&& 0 <= m < ws.len()
                &&& watch_fault(#[trigger] ws[m]) is Some
                &&& forall|j: int| 0 <= j < m ==> watch_fault(#[trigger] ws[j]) is None
                &&& e matches ConfigError::Glob(path, message) && path@ == ws[m].path@ && (
                fault_is_fixed(ws[m]) ==> watch_fault(ws[m]) == Some(message@))
            };
        if 0 <= k < ws.len() && refusal(texts(ws[k].allow@), texts(ws[k].exclude@)) is Some && (
        forall|j: int|
            0 <= j < k ==> refusal(
                texts((#[trigger] ws[j]).allow@),
                texts(ws[j].exclude@),
            ) is None) {
            if m < k {
                assert(watch_fault(ws[m]) is None);
            }
            if k < m {
                assert(watch_fault(ws[k]) is None);
            }
        }
    } else if 0 <= k < ws.len() {
        assert(watch_fault(ws[k]) is None);
    }
}

} // verus!
