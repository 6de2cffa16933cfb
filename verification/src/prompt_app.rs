//! The prompt window: one request at a time, a countdown, and one decision sent
//! for each request, never more.

use crate::prompt_view::{shows, PromptView, Scope};
use crate::proto::{Decision, PromptRequest};
use crate::text::{dec, decimal};
use vstd::prelude::*;
use vstd::string::*;

verus! {

/// A request being shown.
#[derive(Debug)]
pub struct Pending {
    pub view: PromptView,
    /// When the time for an answer is up, in nanoseconds.
    pub deadline_ns: u128,
    /// The seconds shown as left.
    pub remaining_s: u128,
}

/// The state of the window.
#[derive(Debug)]
pub struct PromptApp {
    /// Whether decisions can be sent.
    pub connected: bool,
    pub pending: Option<Pending>,
    /// The number of the open window.
    pub window: Option<u64>,
}

/// What happens to the window.
#[derive(Debug)]
pub enum Message {
    /// Decisions can be sent from now on.
    WorkerReady,
    /// A request to be shown, in a window with this number.
    Prompt { req: PromptRequest, window: u64 },
    /// The window has opened.
    WindowOpened,
    /// A button was clicked.
    Decide(Decision),
    /// Escape, Enter, or the window's close button.
    Deny,
    /// The clock.
    Tick,
}

/// What the window goes by.
#[derive(Debug)]
pub struct Surroundings {
    /// The home directory, shown as `~`.
    pub home: String,
    /// Milliseconds for an answer where a request leaves it open.
    pub fallback_ms: u32,
    /// The time, in nanoseconds.
    pub now_ns: u64,
}

/// What the window has to do.
#[derive(Debug, Clone, Copy, PartialEq, Eq, Structural)]
pub struct Effect {
    /// Send this decision.
    pub send: Option<Decision>,
    /// Close this window.
    pub close: Option<u64>,
}

/// Nothing to do.
pub open spec fn no_effect() -> Effect {
    Effect { send: None, close: None }
}

/// Milliseconds for an answer to a request.
pub open spec fn effective(ui_timeout_ms: u32, fallback_ms: u32) -> u32 {
    if ui_timeout_ms > 0 {
        ui_timeout_ms
    } else {
        fallback_ms
    }
}

/// Milliseconds for an answer to a request.
pub fn effective_ms(ui_timeout_ms: u32, fallback_ms: u32) -> (r: u32)
    ensures
        r == effective(ui_timeout_ms, fallback_ms),
{
    if ui_timeout_ms > 0 {
        ui_timeout_ms
    } else {
        fallback_ms
    }
}

/// The request being shown ends with a decision; with none shown, nothing happens.
pub open spec fn resolved(
    before: PromptApp,
    decision: Decision,
    after: PromptApp,
    effect: Effect,
) -> bool {
    if before.pending is None {
        after == before && effect == no_effect()
    } else {
        &&& after == (PromptApp { connected: before.connected, pending: None, window: None })
        &&& effect == (Effect {
            send: if before.connected {
                Some(decision)
            } else {
                None
            },
            close: before.window,
        })
    }
}

/// A request is shown in a new window; one still being shown is denied.
pub open spec fn prompted(
    before: PromptApp,
    req: PromptRequest,
    window: u64,
    around: Surroundings,
    after: PromptApp,
    effect: Effect,
) -> bool {
    let ms = effective(req.ui_timeout_ms, around.fallback_ms);
    &&& effect == (Effect {
        send: if before.pending is Some && before.connected {
            Some(Decision::DenyOnce)
        } else {
            None
        },
        close: None,
    })
    &&& after.connected == before.connected
    &&& after.window == Some(window)
    &&& after.pending matches Some(p) && shows(p.view, req, around.home@) && p.deadline_ns
        == around.now_ns + ms * 1_000_000 && p.remaining_s == (ms + 999) / 1000
}

/// The seconds shown as left: whole ones, rounded up past the last.
pub open spec fn shown_seconds(deadline_ns: nat, now_ns: nat) -> nat {
    (((deadline_ns - now_ns) as nat) / 1_000_000_000 + 1) as nat
}

/// The clock counts down, and denies once the time is up.
pub open spec fn ticked(
    before: PromptApp,
    now_ns: u64,
    after: PromptApp,
    effect: Effect,
) -> bool {
    match before.pending {
        None => after == before && effect == no_effect(),
        Some(p) => if now_ns >= p.deadline_ns {
            resolved(before, Decision::DenyOnce, after, effect)
        } else {
            &&& effect == no_effect()
            &&& after.connected == before.connected
            &&& after.window == before.window
            &&& after.pending matches Some(q) && q.view == p.view && q.deadline_ns == p.deadline_ns
                && q.remaining_s == shown_seconds(p.deadline_ns as nat, now_ns as nat)
        },
    }
}

/// What a message does.
pub open spec fn updated(
    before: PromptApp,
    message: Message,
    around: Surroundings,
    after: PromptApp,
    effect: Effect,
) -> bool {
    match message {
        Message::WorkerReady => after == (PromptApp { connected: true, ..before }) && effect
            == no_effect(),
        Message::Prompt { req, window } => prompted(before, req, window, around, after, effect),
        Message::WindowOpened => after == before && effect == no_effect(),
        Message::Decide(d) => resolved(before, d, after, effect),
        Message::Deny => resolved(before, Decision::DenyOnce, after, effect),
        Message::Tick => ticked(before, around.now_ns, after, effect),
    }
}

impl PromptApp {
    /// A window with nothing to show.
    pub fn new() -> (r: PromptApp)
        ensures
            !r.connected,
            r.pending is None,
            r.window is None,
    {
        PromptApp { connected: false, pending: None, window: None }
    }

    /// Ends the request being shown with a decision. A second event for the same
    /// request does nothing, so no stray decision is taken for the next answer.
    pub fn resolve(&mut self, decision: Decision) -> (r: Effect)
        ensures
            resolved(*old(self), decision, *final(self), r),
    {
        if self.pending.is_none() {
            return Effect { send: None, close: None };
        }
        self.pending = None;
        let close = self.window;
        self.window = None;
        let send = if self.connected {
            Some(decision)
        } else {
            None
        };
        Effect { send, close }
    }

    fn show(&mut self, req: &PromptRequest, window: u64, around: &Surroundings) -> (r: Effect)
        ensures
            prompted(*old(self), *req, window, *around, *final(self), r),
    {
        let before = self.resolve(Decision::DenyOnce);
        let ms = effective_ms(req.ui_timeout_ms, around.fallback_ms);
        self.pending = Some(
            Pending {
                view: PromptView::build(req, around.home.as_str()),
                deadline_ns: around.now_ns as u128 + ms as u128 * 1_000_000,
                remaining_s: (ms as u128 + 999) / 1000,
            },
        );
        self.window = Some(window);
        Effect { send: before.send, close: None }
    }

    fn tick(&mut self, now_ns: u64) -> (r: Effect)
        ensures
            ticked(*old(self), now_ns, *final(self), r),
    {
        let expired = match &self.pending {
            Some(p) => now_ns as u128 >= p.deadline_ns,
            None => false,
        };
        if expired {
            return self.resolve(Decision::DenyOnce);
        }
        if let Some(p) = &mut self.pending {
            let left: u128 = p.deadline_ns - now_ns as u128;
            p.remaining_s = left / 1_000_000_000 + 1;
        }
        Effect { send: None, close: None }
    }

    /// Takes a message.
    pub fn update(&mut self, message: &Message, around: &Surroundings) -> (r: Effect)
        ensures
            updated(*old(self), *message, *around, *final(self), r),
    {
        match message {
            Message::WorkerReady => {
                self.connected = true;
                Effect { send: None, close: None }
            },
            Message::Prompt { req, window } => self.show(req, *window, around),
            Message::WindowOpened => Effect { send: None, close: None },
            Message::Decide(d) => self.resolve(*d),
            Message::Deny => self.resolve(Decision::DenyOnce),
            Message::Tick => self.tick(around.now_ns),
        }
    }

    /// Whether the clock is needed.
    pub fn wants_ticks(&self) -> (r: bool)
        ensures
            r == (self.pending is Some),
    {
        self.pending.is_some()
    }
}

/// Whether `states[i]` turns into `states[i + 1]` by `messages[i]`, with `effects[i]` to do.
pub open spec fn is_run(
    states: Seq<PromptApp>,
    messages: Seq<Message>,
    arounds: Seq<Surroundings>,
    effects: Seq<Effect>,
) -> bool {
    &&& states.len() == messages.len() + 1
    &&& arounds.len() == messages.len()
    &&& effects.len() == messages.len()
    &&& forall|i: int|
        0 <= i < messages.len() ==> updated(
            states[i],
            #[trigger] messages[i],
            arounds[i],
            states[i + 1],
            effects[i],
        )
}

/// How many requests came among the first `n` messages.
pub open spec fn requests(messages: Seq<Message>, n: int) -> nat
    decreases n,
{
    if n <= 0 {
        0
    } else {
        requests(messages, n - 1) + (if messages[n - 1] is Prompt {
            1nat
        } else {
            0
        })
    }
}

/// How many decisions were sent in the first `n` steps.
pub open spec fn decisions(effects: Seq<Effect>, n: int) -> nat
    decreases n,
{
    if n <= 0 {
        0
    } else {
        decisions(effects, n - 1) + (if effects[n - 1].send is Some {
            1nat
        } else {
            0
        })
    }
}

/// Each request is answered once: at any time the decisions sent are as many as
/// the requests that came, less the one still being shown.
pub proof fn one_decision_per_request(
    states: Seq<PromptApp>,
    messages: Seq<Message>,
    arounds: Seq<Surroundings>,
    effects: Seq<Effect>,
    n: int,
)
    requires
        is_run(states, messages, arounds, effects),
        states[0].connected,
        states[0].pending is None,
        0 <= n <= messages.len(),
    ensures
        states[n].connected,
        decisions(effects, n) + (if states[n].pending is Some {
            1nat
        } else {
            0
        }) == requests(messages, n),
    decreases n,
{
    if n > 0 {
        one_decision_per_request(states, messages, arounds, effects, n - 1);
        assert(updated(
            states[n - 1],
            messages[n - 1],
            arounds[n - 1],
            states[n],
            effects[n - 1],
        ));
    }
}

/// Only a click on another button sends anything but a denial.
pub proof fn only_clicks_allow(
    before: PromptApp,
    message: Message,
    around: Surroundings,
    after: PromptApp,
    effect: Effect,
)
    requires
        updated(before, message, around, after, effect),
        effect.send matches Some(d) && d != Decision::DenyOnce,
    ensures
        message matches Message::Decide(d) && effect.send == Some(d),
        before.pending is Some,
{
}

/// A request left alone is denied by the first tick at or after its deadline.
pub proof fn unanswered_request_is_denied(
    before: PromptApp,
    around: Surroundings,
    after: PromptApp,
    effect: Effect,
)
    requires
        updated(before, Message::Tick, around, after, effect),
        before.connected,
        before.pending matches Some(p) && around.now_ns >= p.deadline_ns,
    ensures
        effect.send == Some(Decision::DenyOnce),
        after.pending is None,
{
}

/// How a line stands out.
#[derive(Debug, Clone, Copy, PartialEq, Eq, Structural)]
pub enum Tone {
    Plain,
    Danger,
    Muted,
}

/// A line of the window.
#[derive(Debug)]
pub struct Line {
    pub text: String,
    pub bold: bool,
    pub tone: Tone,
}

/// How a button looks.
#[derive(Debug, Clone, Copy, PartialEq, Eq, Structural)]
pub enum Look {
    Primary,
    Secondary,
    Danger,
}

/// A button and the decision it makes.
#[derive(Debug)]
pub struct Button {
    pub label: String,
    pub decision: Decision,
    pub look: Look,
}

/// What the window shows.
#[derive(Debug)]
pub struct Screen {
    pub header: Line,
    pub wants: Vec<Line>,
    pub scope: Vec<Line>,
    pub tied: Vec<Line>,
    pub meta: Line,
    pub countdown: Line,
    /// The safe button first, the broad one last.
    pub buttons: Vec<Button>,
}

/// What a line holds.
pub struct LineView {
    pub text: Seq<char>,
    pub bold: bool,
    pub tone: Tone,
}

impl View for Line {
    type V = LineView;

    open spec fn view(&self) -> LineView {
        LineView { text: self.text@, bold: self.bold, tone: self.tone }
    }
}

pub open spec fn line_views(v: Seq<Line>) -> Seq<LineView> {
    v.map_values(|l: Line| l@)
}

/// What a button holds.
pub struct ButtonView {
    pub label: Seq<char>,
    pub decision: Decision,
    pub look: Look,
}

impl View for Button {
    type V = ButtonView;

    open spec fn view(&self) -> ButtonView {
        ButtonView { label: self.label@, decision: self.decision, look: self.look }
    }
}

pub open spec fn button_views(v: Seq<Button>) -> Seq<ButtonView> {
    v.map_values(|b: Button| b@)
}

/// The lines on what "Always allow" covers.
pub open spec fn scope_lines(v: PromptView) -> Seq<LineView> {
    match v.scope {
        Scope::Tree => seq![
            LineView {
                text: "\"Always allow\" GRANTS ACCESS TO ALL FILES"@,
                bold: true,
                tone: Tone::Danger,
            },
            LineView {
                text: "    under "@ + v.object@
                    + " \u{2014} every subfolder, not just the file above."@,
                bold: false,
                tone: Tone::Danger,
            },
        ],
        Scope::File => seq![
            LineView {
                text: "\"Always allow\" remembers only this one file:"@,
                bold: false,
                tone: Tone::Plain,
            },
            LineView { text: "    "@ + v.object@, bold: false, tone: Tone::Plain },
        ],
    }
}

/// The lines on the program the rule is tied to.
pub open spec fn tied_lines(v: PromptView) -> Seq<LineView> {
    let always = seq![
        LineView { text: "Rule is tied to this program:"@, bold: false, tone: Tone::Plain },
        LineView { text: "    "@ + v.exe@, bold: false, tone: Tone::Plain },
    ];
    if v.cwd_pinned {
        always.push(
            LineView {
                text: "\u{2026}and only while it runs from "@ + v.cwd@,
                bold: false,
                tone: Tone::Muted,
            },
        )
    } else {
        always
    }
}

/// The buttons: the safe one first, the broad one last.
pub open spec fn screen_buttons(scope: Scope) -> Seq<ButtonView> {
    seq![
        ButtonView {
            label: "Deny once"@,
            decision: Decision::DenyOnce,
            look: Look::Primary,
        },
        ButtonView {
            label: "Allow once"@,
            decision: Decision::AllowOnce,
            look: Look::Secondary,
        },
        ButtonView {
            label: match scope {
                Scope::Tree => "Always deny ALL"@,
                Scope::File => "Always deny file"@,
            },
            decision: Decision::DenyAlways,
            look: Look::Secondary,
        },
        ButtonView {
            label: match scope {
                Scope::Tree => "Always allow ALL"@,
                Scope::File => "Always allow file"@,
            },
            decision: Decision::AllowAlways,
            look: Look::Danger,
        },
    ]
}

/// Whether a screen shows a pending request.
pub open spec fn screen_shows(s: Screen, p: Pending) -> bool {
    let v = p.view;
    &&& s.header@ == (LineView {
        text: "filewall \u{2014} sensitive file access"@,
        bold: true,
        tone: Tone::Danger,
    })
    &&& line_views(s.wants@) == seq![
        LineView { text: v.proc_name@ + " wants to open:"@, bold: true, tone: Tone::Plain },
        LineView { text: v.path@, bold: false, tone: Tone::Plain },
    ]
    &&& line_views(s.scope@) == scope_lines(v)
    &&& line_views(s.tied@) == tied_lines(v)
    &&& s.meta@ == (LineView {
        text: "PID "@ + dec(v.pid as nat) + " \u{00B7} cmd: "@ + v.cmdline@,
        bold: false,
        tone: Tone::Muted,
    })
    &&& s.countdown@ == (LineView {
        text: "auto-deny in "@ + dec(p.remaining_s as nat) + "s"@,
        bold: false,
        tone: Tone::Muted,
    })
    &&& button_views(s.buttons@) == screen_buttons(v.scope)
}

fn line(text: String, bold: bool, tone: Tone) -> (r: Line)
    ensures
        r@ == (LineView { text: text@, bold, tone }),
{
    Line { text, bold, tone }
}

fn around(before: &str, middle: &str, after: &str) -> (r: String)
    ensures
        r@ == before@ + middle@ + after@,
{
    let mut out = before.to_owned();
    out.append(middle);
    out.append(after);
    out
}

fn indented(text: &str) -> (r: String)
    ensures
        r@ == "    "@ + text@,
{
    let mut out = "    ".to_owned();
    out.append(text);
    out
}

fn scope_block(v: &PromptView) -> (r: Vec<Line>)
    ensures
        line_views(r@) == scope_lines(*v),
{
    let mut out: Vec<Line> = Vec::new();
    match v.scope {
        Scope::Tree => {
            out.push(
                line(
                    "\"Always allow\" GRANTS ACCESS TO ALL FILES".to_owned(),
                    true,
                    Tone::Danger,
                ),
            );
            out.push(
                line(
                    around(
                        "    under ",
                        v.object.as_str(),
                        " \u{2014} every subfolder, not just the file above.",
                    ),
                    false,
                    Tone::Danger,
                ),
            );
        },
        Scope::File => {
            out.push(
                line(
                    "\"Always allow\" remembers only this one file:".to_owned(),
                    false,
                    Tone::Plain,
                ),
            );
            out.push(line(indented(v.object.as_str()), false, Tone::Plain));
        },
    }
    assert(line_views(out@) =~= scope_lines(*v));
    out
}

fn tied_block(v: &PromptView) -> (r: Vec<Line>)
    ensures
        line_views(r@) == tied_lines(*v),
{
    let mut out: Vec<Line> = Vec::new();
    out.push(line("Rule is tied to this program:".to_owned(), false, Tone::Plain));
    out.push(line(indented(v.exe.as_str()), false, Tone::Plain));
    if v.cwd_pinned {
        let mut text = "\u{2026}and only while it runs from ".to_owned();
        text.append(v.cwd.as_str());
        out.push(line(text, false, Tone::Muted));
    }
    assert(line_views(out@) =~= tied_lines(*v));
    out
}

fn button_row(v: &PromptView) -> (r: Vec<Button>)
    ensures
        button_views(r@) == screen_buttons(v.scope),
{
    let mut out: Vec<Button> = Vec::new();
    out.push(
        Button {
            label: "Deny once".to_owned(),
            decision: Decision::DenyOnce,
            look: Look::Primary,
        },
    );
    out.push(
        Button {
            label: "Allow once".to_owned(),
            decision: Decision::AllowOnce,
            look: Look::Secondary,
        },
    );
    out.push(
        Button {
            label: v.deny_always_label().to_owned(),
            decision: Decision::DenyAlways,
            look: Look::Secondary,
        },
    );
    out.push(
        Button {
            label: v.allow_always_label().to_owned(),
            decision: Decision::AllowAlways,
            look: Look::Danger,
        },
    );
    assert(button_views(out@) =~= screen_buttons(v.scope));
    out
}

impl PromptApp {
    /// What the window shows; nothing without a request.
    pub fn view(&self) -> (r: Option<Screen>)
        ensures
            match self.pending {
                Some(p) => r matches Some(s) && screen_shows(s, p),
                None => r is None,
            },
    {
        let p = match &self.pending {
            Some(p) => p,
            None => {
                return None;
            },
        };
        let v = &p.view;
        let mut wants: Vec<Line> = Vec::new();
        let mut who = v.proc_name.as_str().to_owned();
        who.append(" wants to open:");
        wants.push(line(who, true, Tone::Plain));
        wants.push(line(v.path.as_str().to_owned(), false, Tone::Plain));
        assert(line_views(wants@) =~= seq![
            LineView { text: v.proc_name@ + " wants to open:"@, bold: true, tone: Tone::Plain },
            LineView { text: v.path@, bold: false, tone: Tone::Plain },
        ]);
        let mut meta = around("PID ", decimal(v.pid as u128).as_str(), " \u{00B7} cmd: ");
        meta.append(v.cmdline.as_str());
        Some(
            Screen {
                header: line(
                    "filewall \u{2014} sensitive file access".to_owned(),
                    true,
                    Tone::Danger,
                ),
                wants,
                scope: scope_block(v),
                tied: tied_block(v),
                meta: line(meta, false, Tone::Muted),
                countdown: line(
                    around("auto-deny in ", decimal(p.remaining_s).as_str(), "s"),
                    false,
                    Tone::Muted,
                ),
                buttons: button_row(v),
            },
        )
    }
}

/// A click sends the decision of its button, whichever it is, and closes the window.
pub proof fn click_sends_its_decision(
    before: PromptApp,
    d: Decision,
    around: Surroundings,
    after: PromptApp,
    effect: Effect,
)
    requires
        updated(before, Message::Decide(d), around, after, effect),
        before.pending is Some,
    ensures
        before.connected ==> effect.send == Some(d),
        !before.connected ==> effect.send is None,
        effect.close == before.window,
        after.pending is None,
        after.window is None,
        after.connected == before.connected,
{
}

/// Escape, Enter and the close button deny the request, once.
pub proof fn closing_denies(
    before: PromptApp,
    around: Surroundings,
    after: PromptApp,
    effect: Effect,
)
    requires
        updated(before, Message::Deny, around, after, effect),
        before.pending is Some,
    ensures
        before.connected ==> effect.send == Some(Decision::DenyOnce),
        effect.close == before.window,
        after.pending is None,
{
}

/// Without a request nothing is sent, whatever happens, and nothing is closed.
pub proof fn nothing_shown_nothing_sent(
    before: PromptApp,
    message: Message,
    around: Surroundings,
    after: PromptApp,
    effect: Effect,
)
    requires
        updated(before, message, around, after, effect),
        before.pending is None,
    ensures
        effect.send is None,
        effect.close is None,
        message is Prompt || after.pending is None,
{
}

/// A request stays up until a decision, the end of its time or the next request: no
/// other message takes it away or answers it.
pub proof fn request_stays_until_it_is_settled(
    before: PromptApp,
    message: Message,
    around: Surroundings,
    after: PromptApp,
    effect: Effect,
)
    requires
        updated(before, message, around, after, effect),
        before.pending is Some,
        message is WorkerReady || message is WindowOpened || (message is Tick && around.now_ns < (
        before.pending->0).deadline_ns),
    ensures
        effect.send is None,
        effect.close is None,
        after.pending is Some,
        (after.pending->0).view == (before.pending->0).view,
        (after.pending->0).deadline_ns == (before.pending->0).deadline_ns,
        after.window == before.window,
        after.connected == (before.connected || message is WorkerReady),
{
}

/// A new request is shown as it is, in its own window, for the time it gives, or the
/// fallback where it gives none; a request still up is denied for it.
pub proof fn new_request_is_shown(
    before: PromptApp,
    req: PromptRequest,
    window: u64,
    around: Surroundings,
    after: PromptApp,
    effect: Effect,
)
    requires
        updated(before, Message::Prompt { req, window }, around, after, effect),
    ensures
        after.window == Some(window),
        after.pending is Some,
        shows((after.pending->0).view, req, around.home@),
        req.ui_timeout_ms > 0 ==> (after.pending->0).deadline_ns == around.now_ns + 1_000_000 * (
        req.ui_timeout_ms as nat),
        req.ui_timeout_ms == 0 ==> (after.pending->0).deadline_ns == around.now_ns + 1_000_000 * (
        around.fallback_ms as nat),
        ({
            let left = if req.ui_timeout_ms > 0 {
                req.ui_timeout_ms as int
            } else {
                around.fallback_ms as int
            };
            let shown = (after.pending->0).remaining_s;
            (shown - 1) * 1000 < left <= shown * 1000
        }),
        before.pending is Some && before.connected ==> effect.send == Some(Decision::DenyOnce),
        before.pending is None || !before.connected ==> effect.send is None,
        effect.close is None,
        after.connected == before.connected,
{
}

/// The seconds shown are those left, the last one counted until it is over.
pub proof fn countdown_is_what_is_left(
    before: PromptApp,
    around: Surroundings,
    after: PromptApp,
    effect: Effect,
)
    requires
        updated(before, Message::Tick, around, after, effect),
        before.pending is Some,
        around.now_ns < (before.pending->0).deadline_ns,
    ensures
        after.pending is Some,
        ({
            let left = (before.pending->0).deadline_ns - around.now_ns;
            let shown = (after.pending->0).remaining_s;
            shown > 0 && (shown - 1) * 1_000_000_000 <= left < shown * 1_000_000_000
        }),
{
}

/// There are four buttons, one for each decision: denying once first, allowing for good
/// last, and each labelled with what it does.
pub proof fn buttons_are_labelled(scope: Scope, i: int, d: Decision)
    ensures
        screen_buttons(scope).len() == 4,
        screen_buttons(scope)[0].decision == Decision::DenyOnce,
        screen_buttons(scope)[1].decision == Decision::AllowOnce,
        screen_buttons(scope)[2].decision == Decision::DenyAlways,
        screen_buttons(scope)[3].decision == Decision::AllowAlways,
        0 <= i < 4 ==> (screen_buttons(scope)[i].look == Look::Primary
            <==> screen_buttons(scope)[i].decision == Decision::DenyOnce) && (
        screen_buttons(scope)[i].look == Look::Danger <==> screen_buttons(scope)[i].decision
            == Decision::AllowAlways),
        0 <= i < 4 ==> match screen_buttons(scope)[i].decision {
            Decision::DenyOnce => screen_buttons(scope)[i].label == "Deny once"@,
            Decision::AllowOnce => screen_buttons(scope)[i].label == "Allow once"@,
            Decision::DenyAlways => screen_buttons(scope)[i].label == (if scope == Scope::Tree {
                "Always deny ALL"@
            } else {
                "Always deny file"@
            }),
            Decision::AllowAlways => screen_buttons(scope)[i].label == (if scope == Scope::Tree {
                "Always allow ALL"@
            } else {
                "Always allow file"@
            }),
        },
        exists|k: int| 0 <= k < 4 && (#[trigger] screen_buttons(scope)[k]).decision == d,
{
    let all = screen_buttons(scope);
    match d {
        Decision::DenyOnce => assert(all[0].decision == d),
        Decision::AllowOnce => assert(all[1].decision == d),
        Decision::DenyAlways => assert(all[2].decision == d),
        Decision::AllowAlways => assert(all[3].decision == d),
    }
}

/// The window shows the request that is up, its scope and time: a grant of a whole tree
/// as a warning, and the working directory where the rule is tied to it. Each button
/// on it, clicked, sends the decision on its label.
pub proof fn screen_tells_what_is_asked(app: PromptApp, screen: Option<Screen>)
    requires
        call_ensures(PromptApp::view, (&app,), screen),
    ensures
        screen is Some <==> app.pending is Some,
        app.pending is Some ==> {
            let s = screen->0;
            let v = (app.pending->0).view;
            &&& s.wants@.len() == 2
            &&& s.wants@[0].text@ == v.proc_name@ + " wants to open:"@
            &&& s.wants@[1].text@ == v.path@
            &&& s.scope@.len() == 2
            &&& v.scope == Scope::Tree ==> s.scope@[0].tone == Tone::Danger && s.scope@[0].bold
                && s.scope@[0].text@ == "\"Always allow\" GRANTS ACCESS TO ALL FILES"@
                && s.scope@[1].text@ == "    under "@ + v.object@
                + " \u{2014} every subfolder, not just the file above."@
            &&& v.scope == Scope::File ==> s.scope@[0].tone == Tone::Plain && s.scope@[0].text@
                == "\"Always allow\" remembers only this one file:"@ && s.scope@[1].text@
                == "    "@ + v.object@
            &&& s.tied@.len() == (if v.cwd_pinned {
                3int
            } else {
                2
            })
            &&& s.tied@[1].text@ == "    "@ + v.exe@
            &&& v.cwd_pinned ==> s.tied@[2].text@ == "\u{2026}and only while it runs from "@
                + v.cwd@
            &&& s.meta.text@ == "PID "@ + dec(v.pid as nat) + " \u{00B7} cmd: "@ + v.cmdline@
            &&& s.countdown.text@ == "auto-deny in "@ + dec((app.pending->0).remaining_s as nat)
                + "s"@
            &&& s.buttons@.len() == 4
            &&& forall|i: int|
                0 <= i < 4 ==> (#[trigger] s.buttons@[i]).decision == screen_buttons(
                    v.scope,
                )[i].decision && s.buttons@[i].label@ == screen_buttons(v.scope)[i].label
        },
{
    if app.pending is Some {
        let s = screen->0;
        let v = (app.pending->0).view;
        assert(line_views(s.wants@).len() == s.wants@.len());
        assert(line_views(s.wants@)[0] == s.wants@[0]@);
        assert(line_views(s.wants@)[1] == s.wants@[1]@);
        assert(line_views(s.scope@).len() == s.scope@.len());
        assert(line_views(s.scope@)[0] == s.scope@[0]@);
        assert(line_views(s.scope@)[1] == s.scope@[1]@);
        assert(line_views(s.tied@).len() == s.tied@.len());
        assert(line_views(s.tied@)[1] == s.tied@[1]@);
        if v.cwd_pinned {
            assert(line_views(s.tied@)[2] == s.tied@[2]@);
        }
        assert(button_views(s.buttons@).len() == s.buttons@.len());
        assert forall|i: int| 0 <= i < 4 implies (#[trigger] s.buttons@[i]).decision
            == screen_buttons(v.scope)[i].decision && s.buttons@[i].label@ == screen_buttons(
            v.scope,
        )[i].label by {
            assert(button_views(s.buttons@)[i] == s.buttons@[i]@);
        }
    }
}

/// The clock runs exactly while a request is up, and a window starts out without one.
pub proof fn clock_runs_for_requests(app: PromptApp, ticks: bool, fresh: PromptApp)
    requires
        call_ensures(PromptApp::wants_ticks, (&app,), ticks),
        call_ensures(PromptApp::new, (), fresh),
    ensures
        ticks <==> app.pending is Some,
        fresh.pending is None && fresh.window is None && !fresh.connected,
{
}

/// A request's own time counts; the fallback only where it gives none.
pub proof fn requests_set_their_time(ui_timeout_ms: u32, fallback_ms: u32, r: u32)
    requires
        call_ensures(effective_ms, (ui_timeout_ms, fallback_ms), r),
    ensures
        ui_timeout_ms > 0 ==> r == ui_timeout_ms,
        ui_timeout_ms == 0 ==> r == fallback_ms,
        r == effective(ui_timeout_ms, fallback_ms),
{
}

/// Warnings stand out: the header and the lines on a whole tree are in the tone of
/// danger, and of all lines only the header, who asks and that warning are bold.
pub proof fn warnings_stand_out(app: PromptApp, screen: Option<Screen>)
    requires
        call_ensures(PromptApp::view, (&app,), screen),
        app.pending is Some,
    ensures
        screen is Some,
        ({
            let s = screen->0;
            let tree = (app.pending->0).view.scope == Scope::Tree;
            &&& s.header.text@ == "filewall \u{2014} sensitive file access"@
            &&& s.header.bold && s.header.tone == Tone::Danger
            &&& s.wants@.len() == 2 && s.scope@.len() == 2 && s.tied@.len() >= 2
            &&& s.wants@[0].bold && !s.wants@[1].bold
            &&& s.wants@[0].tone == Tone::Plain && s.wants@[1].tone == Tone::Plain
            &&& s.scope@[0].bold == tree && !s.scope@[1].bold
            &&& tree ==> s.scope@[0].tone == Tone::Danger && s.scope@[1].tone == Tone::Danger
            &&& !tree ==> s.scope@[0].tone == Tone::Plain && s.scope@[1].tone == Tone::Plain
            &&& s.tied@[0].text@ == "Rule is tied to this program:"@
            &&& !s.tied@[0].bold && !s.tied@[1].bold
            &&& s.tied@[0].tone == Tone::Plain && s.tied@[1].tone == Tone::Plain
            &&& s.tied@.len() > 2 ==> !s.tied@[2].bold && s.tied@[2].tone == Tone::Muted
        }),
{
    let s = screen->0;
    assert(line_views(s.wants@).len() == s.wants@.len());
    assert(line_views(s.wants@)[0] == s.wants@[0]@);
    assert(line_views(s.wants@)[1] == s.wants@[1]@);
    assert(line_views(s.scope@).len() == s.scope@.len());
    assert(line_views(s.scope@)[0] == s.scope@[0]@);
    assert(line_views(s.scope@)[1] == s.scope@[1]@);
    assert(line_views(s.tied@).len() == s.tied@.len());
    assert(line_views(s.tied@)[0] == s.tied@[0]@);
    assert(line_views(s.tied@)[1] == s.tied@[1]@);
    if s.tied@.len() > 2 {
        assert(line_views(s.tied@)[2] == s.tied@[2]@);
    }
}

/// Updating sends the decision that was clicked, denies what was closed or has run out,
/// and sends nothing else but a denial for a request that another one replaces.
pub proof fn update_sends_what_was_chosen(
    app: &mut PromptApp,
    message: Message,
    around: Surroundings,
    effect: Effect,
)
    requires
        call_ensures(PromptApp::update, (app, &message, &around), effect),
    ensures
        old(app).pending is None || !old(app).connected ==> effect.send is None,
        old(app).pending is Some && old(app).connected ==> match message {
            Message::Decide(d) => effect.send == Some(d),
            Message::Deny => effect.send == Some(Decision::DenyOnce),
            Message::Prompt { .. } => effect.send == Some(Decision::DenyOnce),
            Message::Tick => effect.send == (if around.now_ns >= (
            old(app).pending->0).deadline_ns {
                Some(Decision::DenyOnce)
            } else {
                None
            }),
            Message::WindowOpened => effect.send is None,
            Message::WorkerReady => effect.send is None,
        },
        message is Decide || message is Deny ==> final(app).pending is None,
        message is Prompt ==> final(app).pending is Some,
        message is WindowOpened ==> *final(app) == *old(app),
        message is WorkerReady ==> final(app).connected && final(app).pending == old(app).pending,
        message is Tick && old(app).pending is Some ==> (final(app).pending is Some
            <==> around.now_ns < (old(app).pending->0).deadline_ns),
{
}

/// Resolving sends the decision, once, if there is somebody to send it to.
pub proof fn resolving_sends_the_decision(app: &mut PromptApp, d: Decision, effect: Effect)
    requires
        call_ensures(PromptApp::resolve, (app, d), effect),
    ensures
        old(app).pending is Some && old(app).connected ==> effect.send == Some(d),
        old(app).pending is None || !old(app).connected ==> effect.send is None,
        final(app).pending is None,
        final(app).connected == old(app).connected,
        old(app).pending is Some ==> effect.close == old(app).window && final(app).window is None,
        old(app).pending is None ==> effect.close is None && final(app).window
            == old(app).window,
{
}

} // verus!
