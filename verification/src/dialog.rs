//! The prompt as a `yad` dialog: its markup, its buttons, and what they mean.

use crate::display::{
    abbrev, abbreviated, base_name, cmdline_or_placeholder, process_name, shown_cmdline,
};
use crate::proto::{Decision, PromptRequest};
use crate::text::{dec, decimal, decimal_is_digits, texts, to_chars};
use vstd::prelude::*;
use vstd::string::*;

verus! {

/// A character as it stands in markup.
pub open spec fn escaped_char(c: char) -> Seq<char> {
    if c == '&' {
        "&amp;"@
    } else if c == '<' {
        "&lt;"@
    } else if c == '>' {
        "&gt;"@
    } else {
        seq![c]
    }
}

/// A text as it stands in markup.
pub open spec fn escaped(s: Seq<char>) -> Seq<char>
    decreases s.len(),
{
    if s.len() == 0 {
        Seq::empty()
    } else {
        escaped(s.drop_last()) + escaped_char(s.last())
    }
}

/// Escapes what has a meaning in markup, so that no text can pass for tags.
pub fn pango_escape(s: &str) -> (r: String)
    ensures
        r@ == escaped(s@),
{
    let cs = to_chars(s);
    let mut out = String::new();
    let mut i: usize = 0;
    while i < cs.len()
        invariant
            i <= cs@.len(),
            out@ == escaped(cs@.take(i as int)),
        decreases cs@.len() - i,
    {
        let c = cs[i];
        assert(cs@.take(i + 1).drop_last() =~= cs@.take(i as int));
        if c == '&' {
            out.append("&amp;");
        } else if c == '<' {
            out.append("&lt;");
        } else if c == '>' {
            out.append("&gt;");
        } else {
            out.push(c);
            assert(out@ =~= escaped(cs@.take(i as int)) + seq![c]);
        }
        i += 1;
    }
    assert(cs@.take(i as int) =~= cs@);
    out
}

/// A path field: shortened, then escaped.
pub open spec fn field(s: Seq<char>, home: Seq<char>) -> Seq<char> {
    escaped(abbreviated(s, home))
}

fn path_field(s: &str, home: &str) -> (r: String)
    ensures
        r@ == field(s@, home@),
{
    pango_escape(abbrev(s, home).as_str())
}

/// What "Always allow" would cover: a loud warning for a whole tree.
pub open spec fn scope_text(req: PromptRequest, home: Seq<char>) -> Seq<char> {
    if req.always_tree {
        "<span foreground=\"#cc0000\"><b>\u{300C}Always allow\u{300D} GRANTS ACCESS TO ALL FILES</b></span>\n<span foreground=\"#cc0000\">    under "@
            + field(req.always_object@, home)
            + " \u{2014} every subfolder, not just the file above.</span>"@
    } else {
        "\u{300C}Always allow\u{300D} remembers only this one file:\n    "@ + field(
            req.always_object@,
            home,
        )
    }
}

/// The line about the working directory, where the rule is limited to it.
pub open spec fn cwd_text(req: PromptRequest, home: Seq<char>) -> Seq<char> {
    if req.always_cwd_pinned {
        "\n\u{2026}and only while it runs from "@ + field(req.cwd@, home)
    } else {
        Seq::empty()
    }
}

/// The markup of the dialog.
pub open spec fn dialog_text(req: PromptRequest, home: Seq<char>) -> Seq<char> {
    "<b>\u{26A0}  filewall \u{2014} sensitive file access</b>\n\n<b>"@ + escaped(
        base_name(req.exe@),
    ) + "</b> wants to open:\n    "@ + field(req.path@, home) + "\n\n"@ + scope_text(req, home)
        + "\n\nRule is tied to this program:\n    "@ + field(req.exe@, home) + cwd_text(req, home)
        + "\n\n<small>PID "@ + dec(req.pid as nat) + " \u{00B7} cmd: "@ + escaped(
        shown_cmdline(req.cmdline@),
    ) + "</small>"@
}

fn scope_block(req: &PromptRequest, home: &str) -> (r: String)
    ensures
        r@ == scope_text(*req, home@),
{
    let object = path_field(req.always_object.as_str(), home);
    let mut out = String::new();
    if req.always_tree {
        out.append(
            "<span foreground=\"#cc0000\"><b>\u{300C}Always allow\u{300D} GRANTS ACCESS TO ALL FILES</b></span>\n<span foreground=\"#cc0000\">    under ",
        );
        out.append(object.as_str());
        out.append(" \u{2014} every subfolder, not just the file above.</span>");
    } else {
        out.append("\u{300C}Always allow\u{300D} remembers only this one file:\n    ");
        out.append(object.as_str());
    }
    assert(out@ =~= scope_text(*req, home@));
    out
}

fn cwd_block(req: &PromptRequest, home: &str) -> (r: String)
    ensures
        r@ == cwd_text(*req, home@),
{
    let mut out = String::new();
    if req.always_cwd_pinned {
        out.append("\n\u{2026}and only while it runs from ");
        out.append(path_field(req.cwd.as_str(), home).as_str());
        assert(out@ =~= cwd_text(*req, home@));
    }
    out
}

/// The markup of the dialog for a request, with `home` shown as `~`.
pub fn build_dialog_text(req: &PromptRequest, home: &str) -> (r: String)
    ensures
        r@ == dialog_text(*req, home@),
{
    let mut out = String::new();
    out.append("<b>\u{26A0}  filewall \u{2014} sensitive file access</b>\n\n<b>");
    out.append(pango_escape(process_name(req.exe.as_str()).as_str()).as_str());
    out.append("</b> wants to open:\n    ");
    out.append(path_field(req.path.as_str(), home).as_str());
    out.append("\n\n");
    out.append(scope_block(req, home).as_str());
    out.append("\n\nRule is tied to this program:\n    ");
    out.append(path_field(req.exe.as_str(), home).as_str());
    out.append(cwd_block(req, home).as_str());
    out.append("\n\n<small>PID ");
    out.append(decimal(req.pid as u128).as_str());
    out.append(" \u{00B7} cmd: ");
    out.append(pango_escape(cmdline_or_placeholder(req.cmdline.as_str()).as_str()).as_str());
    out.append("</small>");
    assert(out@ =~= dialog_text(*req, home@));
    out
}

/// The tag brackets of a text.
pub open spec fn brackets(s: Seq<char>) -> Seq<char> {
    s.filter(|c: char| c == '<' || c == '>')
}

proof fn brackets_concat(a: Seq<char>, b: Seq<char>)
    ensures
        brackets(a + b) == brackets(a) + brackets(b),
{
    Seq::filter_distributes_over_add(a, b, |c: char| c == '<' || c == '>');
}

proof fn no_brackets(s: Seq<char>)
    requires
        forall|i: int| 0 <= i < s.len() ==> #[trigger] s[i] != '<' && s[i] != '>',
    ensures
        brackets(s) == Seq::<char>::empty(),
    decreases s.len(),
{
    reveal(Seq::filter);
    if s.len() > 0 {
        let front = s.drop_last();
        assert forall|i: int| 0 <= i < front.len() implies #[trigger] front[i] != '<' && front[i]
            != '>' by {
            assert(front[i] == s[i]);
        }
        no_brackets(front);
        assert(s[s.len() - 1] != '<' && s[s.len() - 1] != '>');
    }
}

/// An escaped text holds no tag brackets.
pub proof fn escaped_text_has_no_tags(s: Seq<char>)
    ensures
        brackets(escaped(s)) == Seq::<char>::empty(),
    decreases s.len(),
{
    if s.len() == 0 {
        no_brackets(escaped(s));
    } else {
        escaped_text_has_no_tags(s.drop_last());
        reveal_strlit("&amp;");
        reveal_strlit("&lt;");
        reveal_strlit("&gt;");
        no_brackets(escaped_char(s.last()));
        brackets_concat(escaped(s.drop_last()), escaped_char(s.last()));
        assert(brackets(escaped(s)) =~= Seq::<char>::empty());
    }
}

proof fn decimal_has_no_tags(n: nat)
    ensures
        brackets(dec(n)) == Seq::<char>::empty(),
{
    assert forall|i: int| 0 <= i < dec(n).len() implies #[trigger] dec(n)[i] != '<' && dec(n)[i]
        != '>' by {
        decimal_is_digits(n, i);
    }
    no_brackets(dec(n));
}

/// The markup of a dialog is the daemon's own: whatever a process calls itself,
/// wherever it runs and whatever its command line says, the tags are the same.
pub proof fn fields_add_no_tags(a: PromptRequest, b: PromptRequest, home: Seq<char>)
    requires
        a.always_tree == b.always_tree,
        a.always_cwd_pinned == b.always_cwd_pinned,
    ensures
        brackets(dialog_text(a, home)) == brackets(dialog_text(b, home)),
{
    dialog_tags(a, home);
    dialog_tags(b, home);
}

/// The tags of the scope block.
pub open spec fn scope_tags(tree: bool) -> Seq<char> {
    if tree {
        brackets(
            "<span foreground=\"#cc0000\"><b>\u{300C}Always allow\u{300D} GRANTS ACCESS TO ALL FILES</b></span>\n<span foreground=\"#cc0000\">    under "@,
        ) + brackets(" \u{2014} every subfolder, not just the file above.</span>"@)
    } else {
        brackets("\u{300C}Always allow\u{300D} remembers only this one file:\n    "@)
    }
}

/// The tags of the line about the working directory.
pub open spec fn cwd_tags(pinned: bool) -> Seq<char> {
    if pinned {
        brackets("\n\u{2026}and only while it runs from "@)
    } else {
        Seq::empty()
    }
}

proof fn block_tags(req: PromptRequest, home: Seq<char>)
    ensures
        brackets(scope_text(req, home)) == scope_tags(req.always_tree),
        brackets(cwd_text(req, home)) == cwd_tags(req.always_cwd_pinned),
{
    let object = field(req.always_object@, home);
    escaped_text_has_no_tags(abbreviated(req.always_object@, home));
    escaped_text_has_no_tags(abbreviated(req.cwd@, home));
    if req.always_tree {
        let head =
            "<span foreground=\"#cc0000\"><b>\u{300C}Always allow\u{300D} GRANTS ACCESS TO ALL FILES</b></span>\n<span foreground=\"#cc0000\">    under "@;
        let tail = " \u{2014} every subfolder, not just the file above.</span>"@;
        brackets_concat(head, object);
        brackets_concat(head + object, tail);
        assert(brackets(scope_text(req, home)) =~= scope_tags(true));
    } else {
        let head = "\u{300C}Always allow\u{300D} remembers only this one file:\n    "@;
        brackets_concat(head, object);
        assert(brackets(scope_text(req, home)) =~= scope_tags(false));
    }
    if req.always_cwd_pinned {
        let head = "\n\u{2026}and only while it runs from "@;
        brackets_concat(head, field(req.cwd@, home));
        assert(brackets(cwd_text(req, home)) =~= cwd_tags(true));
    } else {
        no_brackets(Seq::<char>::empty());
    }
}

proof fn dialog_tags(req: PromptRequest, home: Seq<char>)
    ensures
        brackets(dialog_text(req, home)) == brackets(
            "<b>\u{26A0}  filewall \u{2014} sensitive file access</b>\n\n<b>"@,
        ) + brackets("</b> wants to open:\n    "@) + brackets("\n\n"@) + scope_tags(req.always_tree)
            + brackets("\n\nRule is tied to this program:\n    "@) + cwd_tags(req.always_cwd_pinned)
            + brackets("\n\n<small>PID "@) + brackets(" \u{00B7} cmd: "@) + brackets("</small>"@),
{
    let t1 = "<b>\u{26A0}  filewall \u{2014} sensitive file access</b>\n\n<b>"@;
    let t2 = t1 + escaped(base_name(req.exe@));
    let t3 = t2 + "</b> wants to open:\n    "@;
    let t4 = t3 + field(req.path@, home);
    let t5 = t4 + "\n\n"@;
    let t6 = t5 + scope_text(req, home);
    let t7 = t6 + "\n\nRule is tied to this program:\n    "@;
    let t8 = t7 + field(req.exe@, home);
    let t9 = t8 + cwd_text(req, home);
    let t10 = t9 + "\n\n<small>PID "@;
    let t11 = t10 + dec(req.pid as nat);
    let t12 = t11 + " \u{00B7} cmd: "@;
    let t13 = t12 + escaped(shown_cmdline(req.cmdline@));
    brackets_concat(t1, escaped(base_name(req.exe@)));
    brackets_concat(t2, "</b> wants to open:\n    "@);
    brackets_concat(t3, field(req.path@, home));
    brackets_concat(t4, "\n\n"@);
    brackets_concat(t5, scope_text(req, home));
    brackets_concat(t6, "\n\nRule is tied to this program:\n    "@);
    brackets_concat(t7, field(req.exe@, home));
    brackets_concat(t8, cwd_text(req, home));
    brackets_concat(t9, "\n\n<small>PID "@);
    brackets_concat(t10, dec(req.pid as nat));
    brackets_concat(t11, " \u{00B7} cmd: "@);
    brackets_concat(t12, escaped(shown_cmdline(req.cmdline@)));
    brackets_concat(t13, "</small>"@);
    escaped_text_has_no_tags(base_name(req.exe@));
    escaped_text_has_no_tags(abbreviated(req.path@, home));
    escaped_text_has_no_tags(abbreviated(req.exe@, home));
    escaped_text_has_no_tags(shown_cmdline(req.cmdline@));
    decimal_has_no_tags(req.pid as nat);
    block_tags(req, home);
    assert(brackets(dialog_text(req, home)) =~= brackets(t1) + brackets(
        "</b> wants to open:\n    "@,
    ) + brackets("\n\n"@) + scope_tags(req.always_tree) + brackets(
        "\n\nRule is tied to this program:\n    "@,
    ) + cwd_tags(req.always_cwd_pinned) + brackets("\n\n<small>PID "@) + brackets(
        " \u{00B7} cmd: "@,
    ) + brackets("</small>"@));
}

/// The arguments for `yad`. The safe button comes first and has the focus; the
/// broad one comes last.
pub fn yad_args(req: &PromptRequest, home: &str) -> (r: Vec<String>)
    ensures
        texts(r@) == seq![
            "--title=filewall security prompt"@,
            "--width=520"@,
            "--image=dialog-warning"@,
            "--text"@,
            dialog_text(*req, home@),
            "--button=Deny once:11"@,
            "--button=Allow once:10"@,
            if req.always_tree {
                "--button=Always deny ALL:13"@
            } else {
                "--button=Always deny file:13"@
            },
            if req.always_tree {
                "--button=Always allow ALL:12"@
            } else {
                "--button=Always allow file:12"@
            },
        ],
{
    let (deny_always, allow_always) = if req.always_tree {
        ("--button=Always deny ALL:13", "--button=Always allow ALL:12")
    } else {
        ("--button=Always deny file:13", "--button=Always allow file:12")
    };
    let mut args: Vec<String> = Vec::new();
    args.push("--title=filewall security prompt".to_owned());
    args.push("--width=520".to_owned());
    args.push("--image=dialog-warning".to_owned());
    args.push("--text".to_owned());
    args.push(build_dialog_text(req, home));
    args.push("--button=Deny once:11".to_owned());
    args.push("--button=Allow once:10".to_owned());
    args.push(deny_always.to_owned());
    args.push(allow_always.to_owned());
    assert(texts(args@) =~= seq![
        "--title=filewall security prompt"@,
        "--width=520"@,
        "--image=dialog-warning"@,
        "--text"@,
        dialog_text(*req, home@),
        "--button=Deny once:11"@,
        "--button=Allow once:10"@,
        deny_always@,
        allow_always@,
    ]);
    args
}

/// The decision that an exit code of the dialog stands for.
pub open spec fn decision_of(code: Option<i32>) -> Decision {
    match code {
        Some(10) => Decision::AllowOnce,
        Some(12) => Decision::AllowAlways,
        Some(13) => Decision::DenyAlways,
        _ => Decision::DenyOnce,
    }
}

/// The decision that an exit code of the dialog stands for. Only the codes of the
/// buttons count; anything else denies.
pub fn classify(code: Option<i32>) -> (r: Decision)
    ensures
        r == decision_of(code),
{
    match code {
        Some(10) => Decision::AllowOnce,
        Some(12) => Decision::AllowAlways,
        Some(13) => Decision::DenyAlways,
        _ => Decision::DenyOnce,
    }
}

/// The decision once the dialog has been run; `None` where it could not be.
pub fn ask(ran: Option<Option<i32>>) -> (r: Decision)
    ensures
        r == (match ran {
            Some(code) => decision_of(code),
            None => Decision::DenyOnce,
        }),
{
    match ran {
        Some(code) => classify(code),
        None => Decision::DenyOnce,
    }
}

/// Nothing but a click on an allowing button permits.
pub proof fn only_allow_buttons_permit(code: Option<i32>)
    ensures
        decision_of(code).permits() <==> code == Some(10i32) || code == Some(12i32),
{
}

/// Escaping goes character by character: the three that mean something in markup become
/// entities, and all others stay.
pub proof fn escaping_goes_by_character(a: Seq<char>, b: Seq<char>, c: char)
    ensures
        escaped(a + b) == escaped(a) + escaped(b),
        escaped(seq!['&']) == "&amp;"@,
        escaped(seq!['<']) == "&lt;"@,
        escaped(seq!['>']) == "&gt;"@,
        c != '&' && c != '<' && c != '>' ==> escaped(seq![c]) == seq![c],
    decreases b.len(),
{
    let none = Seq::<char>::empty();
    assert(escaped(none) =~= none);
    assert forall|x: char| escaped(#[trigger] seq![x]) == escaped_char(x) by {
        assert(seq![x].drop_last() =~= none);
        assert(seq![x].last() == x);
        assert(none + escaped_char(x) =~= escaped_char(x));
    }
    if b.len() == 0 {
        assert(a + b =~= a);
        assert(escaped(a) + none =~= escaped(a));
    } else {
        escaping_goes_by_character(a, b.drop_last(), c);
        assert((a + b).drop_last() =~= a + b.drop_last());
        assert(escaped(a + b) =~= escaped(a) + escaped(b));
    }
}

/// The dialog begins with the program and the path it wants to open.
pub proof fn dialog_shows_the_access(req: PromptRequest, home: Seq<char>) -> (r: (
    Seq<char>,
    Seq<char>,
))
    ensures
        r.0 + escaped(base_name(req.exe@)) + "</b> wants to open:\n    "@ + escaped(
            abbreviated(req.path@, home),
        ) + r.1 == dialog_text(req, home),
{
    let head = "<b>\u{26A0}  filewall \u{2014} sensitive file access</b>\n\n<b>"@;
    let upto = head + escaped(base_name(req.exe@)) + "</b> wants to open:\n    "@ + field(
        req.path@,
        home,
    );
    let rest = "\n\n"@ + scope_text(req, home) + "\n\nRule is tied to this program:\n    "@
        + field(req.exe@, home) + cwd_text(req, home) + "\n\n<small>PID "@ + dec(req.pid as nat)
        + " \u{00B7} cmd: "@ + escaped(shown_cmdline(req.cmdline@)) + "</small>"@;
    assert(upto + rest =~= dialog_text(req, home));
    (head, rest)
}

/// Then comes what "Always allow" would cover: for a whole tree with a warning, for a
/// single file without.
pub proof fn dialog_shows_the_scope(req: PromptRequest, home: Seq<char>) -> (r: (
    Seq<char>,
    Seq<char>,
))
    ensures
        req.always_tree ==> r.0
            + "<span foreground=\"#cc0000\"><b>\u{300C}Always allow\u{300D} GRANTS ACCESS TO ALL FILES</b></span>\n<span foreground=\"#cc0000\">    under "@
            + escaped(abbreviated(req.always_object@, home))
            + " \u{2014} every subfolder, not just the file above.</span>"@ + r.1 == dialog_text(
            req,
            home,
        ),
        !req.always_tree ==> r.0
            + "\u{300C}Always allow\u{300D} remembers only this one file:\n    "@ + escaped(
            abbreviated(req.always_object@, home),
        ) + r.1 == dialog_text(req, home),
{
    let head = "<b>\u{26A0}  filewall \u{2014} sensitive file access</b>\n\n<b>"@ + escaped(
        base_name(req.exe@),
    ) + "</b> wants to open:\n    "@ + field(req.path@, home) + "\n\n"@;
    let rest = "\n\nRule is tied to this program:\n    "@ + field(req.exe@, home) + cwd_text(
        req,
        home,
    ) + "\n\n<small>PID "@ + dec(req.pid as nat) + " \u{00B7} cmd: "@ + escaped(
        shown_cmdline(req.cmdline@),
    ) + "</small>"@;
    let scope = scope_text(req, home);
    assert(head + scope + rest =~= dialog_text(req, home));
    let object = field(req.always_object@, home);
    if req.always_tree {
        let warn =
            "<span foreground=\"#cc0000\"><b>\u{300C}Always allow\u{300D} GRANTS ACCESS TO ALL FILES</b></span>\n<span foreground=\"#cc0000\">    under "@;
        let end = " \u{2014} every subfolder, not just the file above.</span>"@;
        assert(head + warn + object + end =~= head + (warn + object + end));
    } else {
        let only = "\u{300C}Always allow\u{300D} remembers only this one file:\n    "@;
        assert(head + only + object =~= head + (only + object));
    }
    (head, rest)
}

/// Last come the program that the rule is tied to, the working directory where it is
/// limited to it, and the process with its command line.
pub proof fn dialog_shows_the_program(req: PromptRequest, home: Seq<char>) -> (r: Seq<char>)
    ensures
        req.always_cwd_pinned ==> r + "\n\nRule is tied to this program:\n    "@ + escaped(
            abbreviated(req.exe@, home),
        ) + ("\n\u{2026}and only while it runs from "@ + escaped(abbreviated(req.cwd@, home)))
            + "\n\n<small>PID "@ + dec(req.pid as nat) + " \u{00B7} cmd: "@ + escaped(
            shown_cmdline(req.cmdline@),
        ) + "</small>"@ == dialog_text(req, home),
        !req.always_cwd_pinned ==> r + "\n\nRule is tied to this program:\n    "@ + escaped(
            abbreviated(req.exe@, home),
        ) + "\n\n<small>PID "@ + dec(req.pid as nat) + " \u{00B7} cmd: "@ + escaped(
            shown_cmdline(req.cmdline@),
        ) + "</small>"@ == dialog_text(req, home),
{
    let head = "<b>\u{26A0}  filewall \u{2014} sensitive file access</b>\n\n<b>"@ + escaped(
        base_name(req.exe@),
    ) + "</b> wants to open:\n    "@ + field(req.path@, home) + "\n\n"@ + scope_text(req, home);
    let tied = head + "\n\nRule is tied to this program:\n    "@ + field(req.exe@, home);
    if !req.always_cwd_pinned {
        assert(tied + cwd_text(req, home) =~= tied);
    }
    head
}

/// The warning is there exactly for whole trees, and the line on the working directory
/// exactly where the rule is limited to it.
pub proof fn scope_decides_the_blocks(req: PromptRequest, home: Seq<char>)
    ensures
        !req.always_cwd_pinned ==> cwd_text(req, home).len() == 0,
        req.always_tree ==> scope_text(req, home)[0] == '<',
        !req.always_tree ==> scope_text(req, home)[0] != '<',
{
    reveal_strlit(
        "<span foreground=\"#cc0000\"><b>\u{300C}Always allow\u{300D} GRANTS ACCESS TO ALL FILES</b></span>\n<span foreground=\"#cc0000\">    under ",
    );
    reveal_strlit("\u{300C}Always allow\u{300D} remembers only this one file:\n    ");
}

/// Each exit code of the dialog means the decision of the button that has it, and every
/// other end denies once.
pub proof fn buttons_mean_their_decisions(
    code: Option<i32>,
    d: Decision,
    ran: Option<Option<i32>>,
    asked: Decision,
)
    requires
        call_ensures(classify, (code,), d),
        call_ensures(ask, (ran,), asked),
    ensures
        d == Decision::AllowOnce <==> code == Some(10i32),
        d == Decision::AllowAlways <==> code == Some(12i32),
        d == Decision::DenyAlways <==> code == Some(13i32),
        d == decision_of(code),
        asked == Decision::AllowOnce <==> ran == Some(Some(10i32)),
        asked == Decision::AllowAlways <==> ran == Some(Some(12i32)),
        asked == Decision::DenyAlways <==> ran == Some(Some(13i32)),
{
}

/// The buttons are labelled with what their codes mean, the safe one first and the
/// broad one last, under the text of the dialog.
pub proof fn dialog_buttons_are_labelled(req: PromptRequest, home: &str, r: Vec<String>)
    requires
        call_ensures(yad_args, (&req, home), r),
    ensures
        r@.len() == 9,
        r@[3]@ == "--text"@,
        r@[4]@ == dialog_text(req, home@),
        r@[5]@ == "--button=Deny once:11"@,
        r@[6]@ == "--button=Allow once:10"@,
        req.always_tree ==> r@[7]@ == "--button=Always deny ALL:13"@ && r@[8]@
            == "--button=Always allow ALL:12"@,
        !req.always_tree ==> r@[7]@ == "--button=Always deny file:13"@ && r@[8]@
            == "--button=Always allow file:12"@,
{
    assert(texts(r@).len() == r@.len());
    assert(texts(r@)[3] == r@[3]@);
    assert(texts(r@)[4] == r@[4]@);
    assert(texts(r@)[5] == r@[5]@);
    assert(texts(r@)[6] == r@[6]@);
    assert(texts(r@)[7] == r@[7]@);
    assert(texts(r@)[8] == r@[8]@);
}

/// Escaping a text goes character by character.
pub proof fn texts_are_escaped(
    a: &str,
    b: &str,
    whole: &str,
    c: char,
    ra: String,
    rb: String,
    r: String,
)
    requires
        call_ensures(pango_escape, (a,), ra),
        call_ensures(pango_escape, (b,), rb),
        call_ensures(pango_escape, (whole,), r),
        whole@ == a@.push(c) + b@,
    ensures
        c == '&' ==> r@ == ra@ + "&amp;"@ + rb@,
        c == '<' ==> r@ == ra@ + "&lt;"@ + rb@,
        c == '>' ==> r@ == ra@ + "&gt;"@ + rb@,
        c != '&' && c != '<' && c != '>' ==> r@ == ra@.push(c) + rb@,
        a@.len() == 0 ==> ra@.len() == 0,
{
    escaping_goes_by_character(a@.push(c), b@, c);
    escaping_goes_by_character(a@, seq![c], c);
    assert(a@.push(c) =~= a@ + seq![c]);
    assert(ra@ + seq![c] =~= ra@.push(c));
}

/// The text that is built begins with the program and the path it wants to open.
pub proof fn built_text_shows_the_access(req: PromptRequest, home: &str, r: String) -> (cut: (
    Seq<char>,
    Seq<char>,
))
    requires
        call_ensures(build_dialog_text, (&req, home), r),
    ensures
        cut.0 + escaped(base_name(req.exe@)) + "</b> wants to open:\n    "@ + escaped(
            abbreviated(req.path@, home@),
        ) + cut.1 == r@,
{
    dialog_shows_the_access(req, home@)
}

} // verus!
