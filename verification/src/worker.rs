//! The worker between the daemon's socket and the prompt window: how long it
//! waits for the window, and what it makes of silence.

use crate::prompt_app::{effective, effective_ms, prompted, Effect, PromptApp, Surroundings};
use crate::proto::{Decision, PromptRequest};
use crate::rules::opt_str;
use crate::text::{
    dec, decimal_is_read_back, only_digits_are_numbers, parse_unsigned, same_text, texts, to_chars,
    unsigned_value,
};
use vstd::prelude::*;
use vstd::string::*;

verus! {

/// Milliseconds for an answer where neither the request nor the user says.
pub const DEFAULT_FALLBACK_MS: u32 = 90_000;

/// How much longer than the window the worker waits: the window's own clock
/// comes first.
pub const BACKSTOP_GRACE_MS: u64 = 2_000;

/// Whether to connect again or to stop.
#[derive(Debug, Clone, Copy, PartialEq, Eq, Structural)]
pub enum Flow {
    /// The link has dropped: connect again.
    Continue,
    /// The window is gone: stop.
    Break,
}

impl Flow {
    /// Whether to stop.
    pub fn is_break(&self) -> (r: bool)
        ensures
            r == (*self == Flow::Break),
    {
        matches!(self, Flow::Break)
    }
}

/// What waiting for the window came to.
#[derive(Debug, Clone, Copy, PartialEq, Eq, Structural)]
pub enum GuiReply {
    Decision(Decision),
    Timeout,
    Disconnected,
}

/// Milliseconds the worker waits for the window's decision.
pub open spec fn backstop(req: PromptRequest, fallback_ms: u32) -> int {
    effective(req.ui_timeout_ms, fallback_ms) + BACKSTOP_GRACE_MS
}

/// Milliseconds the worker waits for the window's decision.
pub fn backstop_ms(req: &PromptRequest, fallback_ms: u32) -> (r: u64)
    ensures
        r == backstop(*req, fallback_ms),
{
    effective_ms(req.ui_timeout_ms, fallback_ms) as u64 + BACKSTOP_GRACE_MS
}

/// The window's time for a request is up before the worker's, as long as the
/// window shows the request within the grace after the worker began to wait: its
/// denial comes first.
pub proof fn window_denies_before_the_worker(
    before: PromptApp,
    req: PromptRequest,
    window: u64,
    around: Surroundings,
    after: PromptApp,
    effect: Effect,
    waits_from_ns: int,
)
    requires
        prompted(before, req, window, around, after, effect),
        waits_from_ns + BACKSTOP_GRACE_MS * 1_000_000 > around.now_ns,
    ensures
        after.pending matches Some(p) && p.deadline_ns < waits_from_ns + backstop(
            req,
            around.fallback_ms,
        ) * 1_000_000,
{
}

/// The decision to send on: silence denies, and nothing is sent for a window
/// that is gone.
pub fn resolve(reply: GuiReply) -> (r: Option<Decision>)
    ensures
        r == (match reply {
            GuiReply::Decision(d) => Some(d),
            GuiReply::Timeout => Some(Decision::DenyOnce),
            GuiReply::Disconnected => None,
        }),
{
    match reply {
        GuiReply::Decision(d) => Some(d),
        GuiReply::Timeout => Some(Decision::DenyOnce),
        GuiReply::Disconnected => None,
    }
}

/// How one request ended.
#[derive(Debug, Clone, Copy, PartialEq, Eq, Structural)]
pub enum Served {
    /// It could not be read.
    ReadFailed,
    /// The window is gone.
    NoWindow,
    /// The decision could not be written.
    WriteFailed,
    /// The decision was written.
    Answered,
}

/// How to go on after a request; `None` to read the next.
pub fn serve(served: Served) -> (r: Option<Flow>)
    ensures
        r == (match served {
            Served::ReadFailed | Served::WriteFailed => Some(Flow::Continue),
            Served::NoWindow => Some(Flow::Break),
            Served::Answered => None,
        }),
{
    match served {
        Served::ReadFailed | Served::WriteFailed => Some(Flow::Continue),
        Served::NoWindow => Some(Flow::Break),
        Served::Answered => None,
    }
}

fn below(home: &str, rest: &str) -> (r: String)
    ensures
        r@ == home@ + rest@,
{
    let mut out = home.to_owned();
    out.append(rest);
    out
}

/// The home directory of the demonstration.
pub open spec fn demo_home(home: Option<Seq<char>>) -> Seq<char> {
    match home {
        Some(h) => h,
        None => "/home/demo"@,
    }
}

/// Whether the two requests are those of the demonstration: one for a whole tree,
/// then one for a single file.
pub open spec fn are_demo(reqs: Seq<PromptRequest>, home: Seq<char>) -> bool {
    &&& reqs.len() == 2
    &&& reqs[0].pid == 84321
    &&& reqs[0].exe@ == "/usr/bin/node"@
    &&& reqs[0].cmdline@ == "node /home/demo/evil.js --steal --exfil"@
    &&& reqs[0].cwd@ == home + "/projects/foo"@
    &&& reqs[0].path@ == home + "/.ssh/id_ed25519"@
    &&& reqs[0].always_object@ == home + "/.ssh"@
    &&& reqs[0].always_tree
    &&& !reqs[0].always_cwd_pinned
    &&& reqs[0].ui_timeout_ms == 30_000
    &&& reqs[1].pid == 90210
    &&& reqs[1].exe@ == "/usr/bin/cat"@
    &&& reqs[1].cmdline@ == "cat /home/demo/.config/secret.toml"@
    &&& reqs[1].cwd@ == home + "/work"@
    &&& reqs[1].path@ == home + "/.config/secret.toml"@
    &&& reqs[1].always_object@ == home + "/.config/secret.toml"@
    &&& !reqs[1].always_tree
    &&& reqs[1].always_cwd_pinned
    &&& reqs[1].ui_timeout_ms == 30_000
}

/// The requests of the demonstration, which needs no daemon.
pub fn demo_requests(home: Option<&str>) -> (r: Vec<PromptRequest>)
    ensures
        are_demo(r@, demo_home(opt_str(home))),
{
    let home = match home {
        Some(h) => h,
        None => "/home/demo",
    };
    let mut out: Vec<PromptRequest> = Vec::new();
    out.push(
        PromptRequest {
            pid: 84321,
            exe: "/usr/bin/node".to_owned(),
            cmdline: "node /home/demo/evil.js --steal --exfil".to_owned(),
            cwd: below(home, "/projects/foo"),
            path: below(home, "/.ssh/id_ed25519"),
            always_object: below(home, "/.ssh"),
            always_tree: true,
            always_cwd_pinned: false,
            ui_timeout_ms: 30_000,
        },
    );
    out.push(
        PromptRequest {
            pid: 90210,
            exe: "/usr/bin/cat".to_owned(),
            cmdline: "cat /home/demo/.config/secret.toml".to_owned(),
            cwd: below(home, "/work"),
            path: below(home, "/.config/secret.toml"),
            always_object: below(home, "/.config/secret.toml"),
            always_tree: false,
            always_cwd_pinned: true,
            ui_timeout_ms: 30_000,
        },
    );
    out
}

/// How the window program is started.
#[derive(Debug)]
pub struct UiArgs {
    /// The daemon's socket.
    pub socket: String,
    /// Show the demonstration.
    pub demo: bool,
    /// Milliseconds for an answer where a request leaves it open.
    pub fallback_ms: u32,
    /// Arguments that mean nothing.
    pub ignored: Vec<String>,
}

/// What arguments come to.
pub struct UiArgsView {
    pub socket: Seq<char>,
    pub demo: bool,
    pub fallback_ms: u32,
    pub ignored: Seq<Seq<char>>,
}

impl View for UiArgs {
    type V = UiArgsView;

    open spec fn view(&self) -> UiArgsView {
        UiArgsView {
            socket: self.socket@,
            demo: self.demo,
            fallback_ms: self.fallback_ms,
            ignored: texts(self.ignored@),
        }
    }
}

/// Seconds given as an argument, in milliseconds, as far as they go; where they
/// are no number, `otherwise`.
pub open spec fn timeout_arg(arg: Seq<char>, otherwise: u32) -> u32 {
    match unsigned_value(arg) {
        Some(n) if n <= u32::MAX => if n * 1000 > u32::MAX {
            u32::MAX
        } else {
            (n * 1000) as u32
        },
        _ => otherwise,
    }
}

/// What the arguments from `i` on make of `a`.
pub open spec fn ui_args_from(args: Seq<Seq<char>>, i: int, a: UiArgsView) -> UiArgsView
    decreases args.len() - i,
{
    if i < 0 || i >= args.len() {
        a
    } else if args[i] == "--demo"@ {
        ui_args_from(args, i + 1, UiArgsView { demo: true, ..a })
    } else if args[i] == "--fallback-timeout"@ {
        if i + 1 < args.len() {
            ui_args_from(
                args,
                i + 2,
                UiArgsView { fallback_ms: timeout_arg(args[i + 1], a.fallback_ms), ..a },
            )
        } else {
            a
        }
    } else if args[i].len() > 0 && args[i][0] == '-' {
        ui_args_from(args, i + 1, UiArgsView { ignored: a.ignored.push(args[i]), ..a })
    } else {
        ui_args_from(args, i + 1, UiArgsView { socket: args[i], ..a })
    }
}

/// What no arguments come to.
pub open spec fn default_ui_args() -> UiArgsView {
    UiArgsView {
        socket: "/run/filewall/prompt.sock"@,
        demo: false,
        fallback_ms: DEFAULT_FALLBACK_MS,
        ignored: Seq::empty(),
    }
}

fn read_timeout(arg: &str, otherwise: u32) -> (r: u32)
    ensures
        r == timeout_arg(arg@, otherwise),
{
    match parse_unsigned(&to_chars(arg), 0xffff_ffff) {
        Some(n) => if n * 1000 > 0xffff_ffff {
            0xffff_ffff
        } else {
            (n * 1000) as u32
        },
        None => otherwise,
    }
}

/// Reads the arguments of the window program.
pub fn parse_ui_args(args: &Vec<String>) -> (r: UiArgs)
    ensures
        r@ == ui_args_from(texts(args@), 0, default_ui_args()),
{
    let ghost all = texts(args@);
    let mut a = UiArgs {
        socket: "/run/filewall/prompt.sock".to_owned(),
        demo: false,
        fallback_ms: DEFAULT_FALLBACK_MS,
        ignored: Vec::new(),
    };
    assert(a@.ignored =~= Seq::<Seq<char>>::empty());
    let mut i: usize = 0;
    while i < args.len()
        invariant
            i <= args@.len(),
            all == texts(args@),
            ui_args_from(all, i as int, a@) == ui_args_from(all, 0, default_ui_args()),
        decreases args@.len() - i,
    {
        let arg = args[i].as_str();
        assert(all[i as int] == arg@);
        if same_text(arg, "--demo") {
            a.demo = true;
            i += 1;
        } else if same_text(arg, "--fallback-timeout") {
            if i + 1 < args.len() {
                assert(all[i + 1] == args@[i + 1]@);
                a.fallback_ms = read_timeout(args[i + 1].as_str(), a.fallback_ms);
                i += 2;
            } else {
                i += 1;
            }
        } else if arg.unicode_len() > 0 && arg.get_char(0) == '-' {
            let ghost before = a@;
            a.ignored.push(arg.to_owned());
            assert(a@.ignored =~= before.ignored.push(arg@));
            i += 1;
        } else {
            a.socket = arg.to_owned();
            i += 1;
        }
    }
    a
}

/// The window's decision is sent on as it is, silence denies once, and nothing is sent
/// for a window that is gone.
pub proof fn decision_is_sent_on(reply: GuiReply, d: Decision, r: Option<Decision>)
    requires
        call_ensures(resolve, (reply,), r),
    ensures
        reply == GuiReply::Decision(d) ==> r == Some(d),
        reply == GuiReply::Timeout ==> r == Some(Decision::DenyOnce),
        reply == GuiReply::Disconnected ==> r is None,
{
}

/// The worker stops only when the window is gone; a broken link is set up anew, and an
/// answered request is followed by the next.
pub proof fn worker_stops_with_the_window(served: Served, r: Option<Flow>, stop: bool)
    requires
        call_ensures(serve, (served,), r),
        r matches Some(flow) ==> call_ensures(Flow::is_break, (&flow,), stop),
    ensures
        r is None <==> served == Served::Answered,
        r is Some ==> (stop <==> served == Served::NoWindow),
{
}

/// The worker waits two seconds longer than the window has for the request.
pub proof fn worker_waits_for_the_window(req: PromptRequest, fallback_ms: u32, r: u64)
    requires
        call_ensures(backstop_ms, (&req, fallback_ms), r),
    ensures
        req.ui_timeout_ms > 0 ==> r == req.ui_timeout_ms + 2_000,
        req.ui_timeout_ms == 0 ==> r == fallback_ms + 2_000,
{
}

proof fn plain_args(args: Seq<Seq<char>>, i: int, a: UiArgsView)
    requires
        0 <= i <= args.len(),
        forall|k: int| i <= k < args.len() ==> (#[trigger] args[k]).len() == 0 || args[k][0] != '-',
    ensures
        ui_args_from(args, i, a) == (UiArgsView {
            socket: if i < args.len() {
                args.last()
            } else {
                a.socket
            },
            ..a
        }),
    decreases args.len() - i,
{
    if i < args.len() {
        reveal_strlit("--demo");
        reveal_strlit("--fallback-timeout");
        assert("--demo"@[0] == '-' && "--demo"@.len() > 0);
        assert("--fallback-timeout"@[0] == '-' && "--fallback-timeout"@.len() > 0);
        plain_args(args, i + 1, UiArgsView { socket: args[i], ..a });
    }
}

/// The last argument that is no option is the socket; without any, it is the usual one.
/// An unknown option changes nothing but is noted.
pub proof fn arguments_name_the_socket(args: Seq<Seq<char>>, option: Seq<char>)
    requires
        forall|k: int| 0 <= k < args.len() ==> (#[trigger] args[k]).len() == 0 || args[k][0] != '-',
        option.len() > 0 && option[0] == '-',
        option != "--demo"@,
        option != "--fallback-timeout"@,
    ensures
        args.len() > 0 ==> ui_args_from(args, 0, default_ui_args()).socket == args.last(),
        args.len() == 0 ==> ui_args_from(args, 0, default_ui_args()).socket
            == "/run/filewall/prompt.sock"@,
        !ui_args_from(args, 0, default_ui_args()).demo,
        ui_args_from(args, 0, default_ui_args()).fallback_ms == 90_000,
        ui_args_from(args, 0, default_ui_args()).ignored.len() == 0,
        ui_args_from(seq![option] + args, 0, default_ui_args()) == (UiArgsView {
            ignored: seq![option],
            ..ui_args_from(args, 0, default_ui_args())
        }),
{
    plain_args(args, 0, default_ui_args());
    let more = seq![option] + args;
    assert(more[0] == option);
    let noted = UiArgsView { ignored: seq![option], ..default_ui_args() };
    assert(default_ui_args().ignored.push(option) =~= seq![option]);
    assert forall|k: int| 1 <= k < more.len() implies (#[trigger] more[k]).len() == 0 || more[k][0]
        != '-' by {
        assert(more[k] == args[k - 1]);
    }
    plain_args(more, 1, noted);
    if args.len() > 0 {
        assert(more.last() == args.last());
    }
}

/// The demonstration is shown when asked for, and a fallback time is taken in seconds.
pub proof fn arguments_set_the_options(args: Seq<Seq<char>>, seconds: nat)
    requires
        forall|k: int| 0 <= k < args.len() ==> (#[trigger] args[k]).len() == 0 || args[k][0] != '-',
        seconds <= 4_294_967,
    ensures
        ui_args_from(seq!["--demo"@] + args, 0, default_ui_args()).demo,
        ui_args_from(
            seq!["--fallback-timeout"@, dec(seconds)] + args,
            0,
            default_ui_args(),
        ).fallback_ms == seconds * 1000,
{
    let demo = seq!["--demo"@] + args;
    assert(demo[0] == "--demo"@);
    assert forall|k: int| 1 <= k < demo.len() implies (#[trigger] demo[k]).len() == 0 || demo[k][0]
        != '-' by {
        assert(demo[k] == args[k - 1]);
    }
    plain_args(demo, 1, UiArgsView { demo: true, ..default_ui_args() });
    let timed = seq!["--fallback-timeout"@, dec(seconds)] + args;
    reveal_strlit("--demo");
    reveal_strlit("--fallback-timeout");
    assert("--demo"@[2] != "--fallback-timeout"@[2]);
    assert(timed[0] == "--fallback-timeout"@ && timed[1] == dec(seconds));
    assert forall|k: int| 2 <= k < timed.len() implies (#[trigger] timed[k]).len() == 0
        || timed[k][0] != '-' by {
        assert(timed[k] == args[k - 2]);
    }
    decimal_is_read_back(seconds);
    let ms = timeout_arg(dec(seconds), 90_000);
    assert(ms == seconds * 1000);
    plain_args(timed, 2, UiArgsView { fallback_ms: ms, ..default_ui_args() });
}

/// The demonstration asks about a whole tree first and about a single file then, both
/// in the home directory.
pub proof fn demonstration_shows_both_scopes(home: Option<&str>, r: Vec<PromptRequest>)
    requires
        call_ensures(demo_requests, (home,), r),
    ensures
        r@.len() == 2,
        r@[0].always_tree && !r@[1].always_tree,
        !r@[0].always_cwd_pinned && r@[1].always_cwd_pinned,
        r@[0].pid == 84321 && r@[1].pid == 90210,
        r@[0].exe@ == "/usr/bin/node"@ && r@[1].exe@ == "/usr/bin/cat"@,
        r@[0].cmdline@ == "node /home/demo/evil.js --steal --exfil"@,
        r@[1].cmdline@ == "cat /home/demo/.config/secret.toml"@,
        r@[0].ui_timeout_ms == 30_000 && r@[1].ui_timeout_ms == 30_000,
        ({
            let h = if home is Some {
                (home->0)@
            } else {
                "/home/demo"@
            };
            &&& r@[0].cwd@ == h + "/projects/foo"@
            &&& r@[0].path@ == h + "/.ssh/id_ed25519"@
            &&& r@[0].always_object@ == h + "/.ssh"@
            &&& r@[1].cwd@ == h + "/work"@
            &&& r@[1].path@ == h + "/.config/secret.toml"@
            &&& r@[1].always_object@ == r@[1].path@
        }),
{
}

/// Arguments are taken one after the other, each for itself: what the first ones make
/// is what the others go on from.
pub proof fn arguments_are_taken_in_turn(
    args: Seq<Seq<char>>,
    i: int,
    a: UiArgsView,
    seconds: nat,
)
    requires
        0 <= i < args.len(),
    ensures
        args[i] == "--demo"@ ==> ui_args_from(args, i, a) == ui_args_from(
            args,
            i + 1,
            (UiArgsView { demo: true, ..a }),
        ),
        args[i] == "--fallback-timeout"@ && i + 1 < args.len() && args[i + 1] == dec(seconds)
            && seconds <= 4_294_967 ==> ui_args_from(args, i, a) == ui_args_from(
            args,
            i + 2,
            (UiArgsView { fallback_ms: (seconds * 1000) as u32, ..a }),
        ),
        args[i] == "--fallback-timeout"@ && i + 1 < args.len() && args[i + 1] == dec(seconds)
            && 4_294_967 < seconds <= u32::MAX ==> ui_args_from(args, i, a) == ui_args_from(
            args,
            i + 2,
            (UiArgsView { fallback_ms: u32::MAX, ..a }),
        ),
        args[i] == "--fallback-timeout"@ && i + 1 < args.len() && args[i + 1].len() > 1 && !('0'
            <= args[i + 1][1] && args[i + 1][1] <= '9') ==> ui_args_from(args, i, a)
            == ui_args_from(args, i + 2, a),
        args[i].len() == 0 || args[i][0] != '-' ==> ui_args_from(args, i, a) == ui_args_from(
            args,
            i + 1,
            (UiArgsView { socket: args[i], ..a }),
        ),
        args[i].len() > 0 && args[i][0] == '-' && args[i] != "--demo"@ && args[i]
            != "--fallback-timeout"@ ==> ui_args_from(args, i, a) == ui_args_from(
            args,
            i + 1,
            (UiArgsView { ignored: a.ignored.push(args[i]), ..a }),
        ),
{
    reveal_strlit("--demo");
    reveal_strlit("--fallback-timeout");
    assert("--demo"@.len() == 6 && "--demo"@[0] == '-' && "--demo"@[2] == 'd');
    assert("--fallback-timeout"@.len() == 18 && "--fallback-timeout"@[0] == '-'
        && "--fallback-timeout"@[2] == 'f');
    decimal_is_read_back(seconds);
    if i + 1 < args.len() && args[i + 1].len() > 1 && !('0' <= args[i + 1][1] && args[i + 1][1]
        <= '9') {
        only_digits_are_numbers(args[i + 1], 1);
    }
}

/// The program reads its own arguments so.
pub proof fn program_reads_its_arguments(args: Vec<String>, r: UiArgs)
    requires
        call_ensures(parse_ui_args, (&args,), r),
    ensures
        args@.len() == 0 ==> r@.socket == "/run/filewall/prompt.sock"@ && !r@.demo && r@.fallback_ms
            == 90_000 && r@.ignored.len() == 0,
        args@.len() == 1 && (args@[0]@.len() == 0 || args@[0]@[0] != '-') ==> r@.socket
            == args@[0]@ && !r@.demo && r@.fallback_ms == 90_000,
        args@.len() == 1 && args@[0]@ == "--demo"@ ==> r@.demo && r@.socket
            == "/run/filewall/prompt.sock"@,
{
    reveal_with_fuel(ui_args_from, 2);
    let all = texts(args@);
    if args@.len() == 1 {
        assert(all[0] == args@[0]@);
        arguments_are_taken_in_turn(all, 0, default_ui_args(), 0);
    }
}

} // verus!
