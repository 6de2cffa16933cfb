use filewall::dialog::{ask, build_dialog_text, classify, pango_escape, yad_args};
use filewall::display::{abbrev, process_name};
use filewall::prompt_app::{
    effective_ms, Look, Message, PromptApp, Surroundings, Tone,
};
use filewall::prompt_view::{PromptView, Scope, MAX_FIELD};
use filewall::proto::{Decision, PromptRequest};
use filewall::theme::{detect, read_scheme, theme_from_scheme, unwrap_u32, Setting, Theme, FALLBACK};
use filewall::worker::{
    backstop_ms, demo_requests, parse_ui_args, resolve, serve, Flow, GuiReply, Served,
    DEFAULT_FALLBACK_MS,
};

fn req_fixture() -> PromptRequest {
    PromptRequest {
        pid: 7,
        exe: "/usr/bin/node".into(),
        cmdline: "node app.js".into(),
        cwd: "/home/u/work".into(),
        path: "/home/u/.ssh/id_ed25519".into(),
        always_object: "/home/u/.ssh".into(),
        always_tree: true,
        always_cwd_pinned: false,
        ui_timeout_ms: 0,
    }
}

#[test]
fn model_abbrev_replaces_home_prefix_only() {
    assert_eq!(abbrev("/home/alice/.ssh/id", "/home/alice"), "~/.ssh/id");
    assert_eq!(abbrev("/home/alice", "/home/alice"), "~");
    assert_eq!(abbrev("/etc/hosts", "/home/alice"), "/etc/hosts");
    // A path that merely starts with the same chars must NOT be abbreviated.
    assert_eq!(abbrev("/home/alice2/x", "/home/alice"), "/home/alice2/x");
    // Empty home disables abbreviation.
    assert_eq!(abbrev("/home/alice/.ssh", ""), "/home/alice/.ssh");
}

#[test]
fn main_abbrev_replaces_home_prefix_only() {
    assert_eq!(abbrev("/home/alice/.ssh/id", "/home/alice"), "~/.ssh/id");
    // Exact home dir.
    assert_eq!(abbrev("/home/alice", "/home/alice"), "~");
    // Not under home: unchanged.
    assert_eq!(abbrev("/etc/hosts", "/home/alice"), "/etc/hosts");
    // A path that merely starts with the same characters but is a different
    // dir must NOT be abbreviated.
    assert_eq!(abbrev("/home/alice2/x", "/home/alice"), "/home/alice2/x");
    // Empty home (HOME unset) disables abbreviation.
    assert_eq!(abbrev("/home/alice/.ssh", ""), "/home/alice/.ssh");
}

#[test]
fn tree_scope_selects_all_labels_and_warning() {
    let v = PromptView::build(&req_fixture(), "/home/u");
    assert_eq!(v.scope, Scope::Tree);
    assert_eq!(v.allow_always_label(), "Always allow ALL");
    assert_eq!(v.deny_always_label(), "Always deny ALL");
    assert_eq!(v.object, "~/.ssh"); // abbreviated
    assert_eq!(v.proc_name, "node"); // basename
}

#[test]
fn file_scope_selects_file_labels() {
    let mut req = req_fixture();
    req.always_tree = false;
    req.always_object = "/home/u/.ssh/id_ed25519".into();
    let v = PromptView::build(&req, "/home/u");
    assert_eq!(v.scope, Scope::File);
    assert_eq!(v.allow_always_label(), "Always allow file");
    assert_eq!(v.path, "~/.ssh/id_ed25519");
}

#[test]
fn cwd_pin_flag_is_carried() {
    let mut req = req_fixture();
    req.always_cwd_pinned = true;
    let v = PromptView::build(&req, "/home/u");
    assert!(v.cwd_pinned);
    assert_eq!(v.cwd, "~/work");
}

#[test]
fn markup_metachars_are_shown_verbatim_not_escaped() {
    // No markup parser here: a malicious cmdline must survive intact.
    let mut req = req_fixture();
    req.cmdline = "node </span><b>SPOOF".into();
    let v = PromptView::build(&req, "/home/u");
    assert_eq!(v.cmdline, "node </span><b>SPOOF");
}

#[test]
fn empty_cmdline_shows_placeholder() {
    let mut req = req_fixture();
    req.cmdline = String::new();
    let v = PromptView::build(&req, "/home/u");
    assert_eq!(v.cmdline, "<unavailable>");
}

#[test]
fn overlong_field_is_truncated() {
    let mut req = req_fixture();
    req.cmdline = "a".repeat(MAX_FIELD + 50);
    let v = PromptView::build(&req, "/home/u");
    assert_eq!(v.cmdline.chars().count(), MAX_FIELD + 1); // + ellipsis
    assert!(v.cmdline.ends_with('\u{2026}'));
}

#[test]
fn field_of_the_longest_length_is_whole() {
    let mut req = req_fixture();
    req.cmdline = "\u{e9}".repeat(MAX_FIELD);
    let v = PromptView::build(&req, "/home/u");
    assert_eq!(v.cmdline, req.cmdline);
}

#[test]
fn pango_escape_handles_markup_metachars() {
    // Ampersand must be escaped first to avoid double-escaping.
    assert_eq!(pango_escape("a & b"), "a &amp; b");
    assert_eq!(pango_escape("<b>x</b>"), "&lt;b&gt;x&lt;/b&gt;");
    assert_eq!(
        pango_escape("evil & <span foreground=\"red\">"),
        "evil &amp; &lt;span foreground=\"red\"&gt;"
    );
    assert_eq!(pango_escape("plain text"), "plain text");
}

#[test]
fn classify_maps_button_codes() {
    assert_eq!(classify(Some(10)), Decision::AllowOnce);
    assert_eq!(classify(Some(12)), Decision::AllowAlways);
    assert_eq!(classify(Some(13)), Decision::DenyAlways);
}

#[test]
fn classify_fails_closed_on_everything_else() {
    assert_eq!(classify(Some(11)), Decision::DenyOnce); // explicit deny-once
    assert_eq!(classify(Some(252)), Decision::DenyOnce); // ESC/close
    assert_eq!(classify(None), Decision::DenyOnce); // killed / no code
    assert_eq!(classify(Some(1)), Decision::DenyOnce); // unknown
}

#[test]
fn dialog_that_cannot_run_denies() {
    assert_eq!(ask(None), Decision::DenyOnce);
    assert_eq!(ask(Some(Some(10))), Decision::AllowOnce);
    assert_eq!(ask(Some(None)), Decision::DenyOnce);
}

#[test]
fn dialog_text_tree_grant_shows_red_all_files_warning() {
    let t = build_dialog_text(&req_fixture(), "/home/u");
    assert!(t.contains("GRANTS ACCESS TO ALL FILES"));
    assert!(t.contains("#cc0000"));
    assert!(t.contains("~/.ssh")); // object abbreviated
    assert!(!t.contains("remembers only this one file"));
}

#[test]
fn dialog_text_file_grant_is_neutral_no_warning() {
    let mut req = req_fixture();
    req.always_tree = false;
    req.always_object = "/home/u/.ssh/id_ed25519".into();
    let t = build_dialog_text(&req, "/home/u");
    assert!(t.contains("remembers only this one file"));
    assert!(!t.contains("ALL FILES"));
    assert!(!t.contains("#cc0000"));
}

#[test]
fn dialog_text_cwd_pin_line_present_only_when_pinned() {
    let mut req = req_fixture();
    req.always_cwd_pinned = true;
    let t = build_dialog_text(&req, "/home/u");
    assert!(t.contains("and only while it runs from"));
    assert!(t.contains("~/work")); // cwd abbreviated
    req.always_cwd_pinned = false;
    let t2 = build_dialog_text(&req, "/home/u");
    assert!(!t2.contains("and only while it runs from"));
}

#[test]
fn dialog_text_escapes_malicious_cmdline() {
    let mut req = req_fixture();
    req.cmdline = "node </span><b>SPOOF".into();
    let t = build_dialog_text(&req, "/home/u");
    // The raw injection must NOT survive; the escaped form must be present.
    assert!(!t.contains("</span><b>SPOOF"));
    assert!(t.contains("&lt;/span&gt;&lt;b&gt;SPOOF"));
}

#[test]
fn dialog_text_is_exact() {
    let mut req = req_fixture();
    req.always_tree = false;
    req.always_object = "/home/u/.ssh/id_ed25519".into();
    let t = build_dialog_text(&req, "/home/u");
    assert_eq!(
        t,
        "<b>\u{26A0}  filewall \u{2014} sensitive file access</b>\n\n<b>node</b> wants to open:\n    ~/.ssh/id_ed25519\n\n\u{300C}Always allow\u{300D} remembers only this one file:\n    ~/.ssh/id_ed25519\n\nRule is tied to this program:\n    /usr/bin/node\n\n<small>PID 7 \u{00B7} cmd: node app.js</small>"
    );
}

#[test]
fn tags_do_not_depend_on_fields() {
    let plain = req_fixture();
    let mut evil = req_fixture();
    evil.exe = "/tmp/<b>&".into();
    evil.cwd = "</span>".into();
    evil.path = "<i>".into();
    evil.always_object = "<u></u>".into();
    evil.cmdline = "<<>>".into();
    let count = |r: &PromptRequest| {
        build_dialog_text(r, "").chars().filter(|c| *c == '<' || *c == '>').collect::<String>()
    };
    assert_eq!(count(&plain), count(&evil));
}

#[test]
fn dialog_buttons_go_from_safe_to_broad() {
    let args = yad_args(&req_fixture(), "/home/u");
    assert_eq!(args.len(), 9);
    assert_eq!(args[0], "--title=filewall security prompt");
    assert_eq!(args[3], "--text");
    assert_eq!(args[5], "--button=Deny once:11");
    assert_eq!(args[6], "--button=Allow once:10");
    assert_eq!(args[7], "--button=Always deny ALL:13");
    assert_eq!(args[8], "--button=Always allow ALL:12");
    let mut req = req_fixture();
    req.always_tree = false;
    assert_eq!(yad_args(&req, "")[8], "--button=Always allow file:12");
}

#[test]
fn process_name_is_the_last_component() {
    assert_eq!(process_name("/usr/bin/node"), "node");
    assert_eq!(process_name("<unresolved>"), "<unresolved>");
    assert_eq!(process_name("/"), "/");
    assert_eq!(process_name("/a/.."), "/a/..");
    assert_eq!(process_name("/opt/caf\u{e9}/"), "caf\u{e9}");
}

fn around(now_ns: u64) -> Surroundings {
    Surroundings { home: "/home/u".to_string(), fallback_ms: 90_000, now_ns }
}

fn ready() -> PromptApp {
    let mut app = PromptApp::new();
    app.update(&Message::WorkerReady, &around(0));
    app
}

#[test]
fn second_event_sends_nothing() {
    let mut app = ready();
    app.update(&Message::Prompt { req: req_fixture(), window: 5 }, &around(0));
    let first = app.update(&Message::Decide(Decision::AllowOnce), &around(1));
    assert_eq!(first.send, Some(Decision::AllowOnce));
    assert_eq!(first.close, Some(5));
    let second = app.update(&Message::Deny, &around(2));
    assert_eq!(second.send, None);
    assert_eq!(second.close, None);
}

#[test]
fn clock_counts_down_and_denies() {
    let mut app = ready();
    let mut req = req_fixture();
    req.ui_timeout_ms = 2_500;
    app.update(&Message::Prompt { req, window: 1 }, &around(1_000));
    assert_eq!(app.pending.as_ref().unwrap().remaining_s, 3);
    assert!(app.wants_ticks());
    let e = app.update(&Message::Tick, &around(1_000 + 600_000_000));
    assert_eq!(e.send, None);
    assert_eq!(app.pending.as_ref().unwrap().remaining_s, 2);
    let e = app.update(&Message::Tick, &around(1_000 + 2_500_000_000));
    assert_eq!(e.send, Some(Decision::DenyOnce));
    assert_eq!(e.close, Some(1));
    assert!(!app.wants_ticks());
    assert!(app.view().is_none());
}

#[test]
fn new_request_denies_the_one_shown() {
    let mut app = ready();
    app.update(&Message::Prompt { req: req_fixture(), window: 1 }, &around(0));
    let e = app.update(&Message::Prompt { req: req_fixture(), window: 2 }, &around(0));
    assert_eq!(e.send, Some(Decision::DenyOnce));
    assert_eq!(app.window, Some(2));
}

#[test]
fn nothing_is_sent_before_the_worker_is_ready() {
    let mut app = PromptApp::new();
    app.update(&Message::Prompt { req: req_fixture(), window: 1 }, &around(0));
    let e = app.update(&Message::Decide(Decision::AllowAlways), &around(0));
    assert_eq!(e.send, None);
    assert_eq!(e.close, Some(1));
}

#[test]
fn screen_shows_the_request() {
    let mut app = ready();
    let mut req = req_fixture();
    req.always_cwd_pinned = true;
    app.update(&Message::Prompt { req, window: 1 }, &around(0));
    let s = app.view().unwrap();
    assert_eq!(s.header.text, "filewall \u{2014} sensitive file access");
    assert_eq!(s.wants[0].text, "node wants to open:");
    assert_eq!(s.wants[1].text, "~/.ssh/id_ed25519");
    assert_eq!(s.scope[0].text, "\"Always allow\" GRANTS ACCESS TO ALL FILES");
    assert_eq!(s.scope[0].tone, Tone::Danger);
    assert_eq!(
        s.scope[1].text,
        "    under ~/.ssh \u{2014} every subfolder, not just the file above."
    );
    assert_eq!(s.tied.len(), 3);
    assert_eq!(s.tied[2].text, "\u{2026}and only while it runs from ~/work");
    assert_eq!(s.meta.text, "PID 7 \u{00B7} cmd: node app.js");
    assert_eq!(s.countdown.text, "auto-deny in 90s");
    assert_eq!(s.buttons.len(), 4);
    assert_eq!(s.buttons[0].decision, Decision::DenyOnce);
    assert_eq!(s.buttons[0].look, Look::Primary);
    assert_eq!(s.buttons[3].label, "Always allow ALL");
    assert_eq!(s.buttons[3].look, Look::Danger);
}

#[test]
fn worker_waits_longer_than_the_window() {
    let mut req = req_fixture();
    assert_eq!(effective_ms(0, 90_000), 90_000);
    assert_eq!(effective_ms(30_000, 90_000), 30_000);
    assert_eq!(backstop_ms(&req, 90_000), 92_000);
    req.ui_timeout_ms = 30_000;
    assert_eq!(backstop_ms(&req, 90_000), 32_000);
}

#[test]
fn silent_window_denies() {
    assert_eq!(resolve(GuiReply::Timeout), Some(Decision::DenyOnce));
    assert_eq!(resolve(GuiReply::Disconnected), None);
    assert_eq!(
        resolve(GuiReply::Decision(Decision::AllowAlways)),
        Some(Decision::AllowAlways)
    );
    assert_eq!(serve(Served::ReadFailed), Some(Flow::Continue));
    assert_eq!(serve(Served::WriteFailed), Some(Flow::Continue));
    assert_eq!(serve(Served::Answered), None);
    assert!(serve(Served::NoWindow).unwrap().is_break());
}

#[test]
fn demo_shows_a_tree_then_a_file() {
    let d = demo_requests(Some("/home/me"));
    assert_eq!(d[0].always_object, "/home/me/.ssh");
    assert!(d[0].always_tree);
    assert!(!d[1].always_tree);
    assert_eq!(demo_requests(None)[1].path, "/home/demo/.config/secret.toml");
}

fn strings(v: &[&str]) -> Vec<String> {
    v.iter().map(|s| s.to_string()).collect()
}

#[test]
fn window_arguments_are_read() {
    let a = parse_ui_args(&strings(&[]));
    assert_eq!(a.socket, "/run/filewall/prompt.sock");
    assert_eq!(a.fallback_ms, DEFAULT_FALLBACK_MS);
    let a = parse_ui_args(&strings(&["--demo", "--fallback-timeout", "5", "-x", "/s"]));
    assert!(a.demo);
    assert_eq!(a.fallback_ms, 5_000);
    assert_eq!(a.ignored, strings(&["-x"]));
    assert_eq!(a.socket, "/s");
    let a = parse_ui_args(&strings(&["--fallback-timeout", "--demo", "--fallback-timeout"]));
    assert!(!a.demo);
    assert_eq!(a.fallback_ms, DEFAULT_FALLBACK_MS);
    let a = parse_ui_args(&strings(&["--fallback-timeout", "4294967295"]));
    assert_eq!(a.fallback_ms, u32::MAX);
}

#[test]
fn scheme_mapping() {
    assert_eq!(theme_from_scheme(1), Theme::CatppuccinMocha);
    assert_eq!(theme_from_scheme(2), Theme::CatppuccinLatte);
    // No preference / unknown values use the fallback (Catppuccin Latte).
    assert_eq!(theme_from_scheme(0), FALLBACK);
    assert_eq!(theme_from_scheme(99), FALLBACK);
}

#[test]
fn unwrap_handles_single_and_double_variant_wrap() {
    // ReadOne: v u  -> a single U32.
    let single = Setting::U32(1);
    assert_eq!(unwrap_u32(&single), Some(1));
    // Read: v v u -> a variant wrapping a U32.
    let double = Setting::Variant(Box::new(Setting::U32(2)));
    assert_eq!(unwrap_u32(&double), Some(2));
    // Wrong type -> None.
    assert_eq!(unwrap_u32(&Setting::Other), None);
}

#[test]
fn older_way_of_asking_is_the_second_choice() {
    assert_eq!(read_scheme(&Some(Setting::U32(1)), &Some(Setting::U32(2))), Some(1));
    assert_eq!(read_scheme(&Some(Setting::Other), &Some(Setting::U32(2))), Some(2));
    assert_eq!(detect(&None, &Some(Setting::U32(1))), Some(Theme::CatppuccinMocha));
    assert_eq!(detect(&None, &None), None);
}
