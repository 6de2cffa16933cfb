//! The prompt as plain text for a window: shortened fields, scope and labels.
//! Nothing is escaped: the window shows text as it is.

use crate::display::{abbrev, abbreviated, base_name, cmdline_or_placeholder, process_name};
use crate::proto::PromptRequest;
use crate::text::{from_chars, to_chars};
use vstd::prelude::*;
use vstd::string::*;

verus! {

/// What an "Always" rule would cover.
#[derive(Debug, Clone, Copy, PartialEq, Eq, Structural)]
pub enum Scope {
    File,
    Tree,
}

/// A request ready to be shown.
#[derive(Debug, Clone, PartialEq, Eq)]
pub struct PromptView {
    pub proc_name: String,
    pub path: String,
    pub exe: String,
    pub object: String,
    pub cwd: String,
    pub cmdline: String,
    pub pid: u32,
    pub scope: Scope,
    pub cwd_pinned: bool,
}

/// Longest field shown, so that no field pushes the buttons off the screen.
pub const MAX_FIELD: usize = 400;

/// A field cut to the longest length, with an ellipsis where it was longer.
pub open spec fn capped(s: Seq<char>) -> Seq<char> {
    if s.len() <= MAX_FIELD {
        s
    } else {
        s.take(MAX_FIELD as int).push('\u{2026}')
    }
}

fn cap(s: &str) -> (r: String)
    ensures
        r@ == capped(s@),
{
    let cs = to_chars(s);
    if cs.len() <= MAX_FIELD {
        return s.to_owned();
    }
    let mut out: Vec<char> = Vec::new();
    let mut i: usize = 0;
    while i < MAX_FIELD
        invariant
            i <= MAX_FIELD < cs@.len(),
            out@ == cs@.take(i as int),
        decreases MAX_FIELD - i,
    {
        out.push(cs[i]);
        assert(cs@.take(i + 1) =~= cs@.take(i as int).push(cs@[i as int]));
        i += 1;
    }
    out.push('\u{2026}');
    from_chars(&out)
}

/// A path field: shortened, then cut.
pub open spec fn view_field(s: Seq<char>, home: Seq<char>) -> Seq<char> {
    capped(abbreviated(s, home))
}

fn path_field(s: &str, home: &str) -> (r: String)
    ensures
        r@ == view_field(s@, home@),
{
    cap(abbrev(s, home).as_str())
}

/// Whether `v` shows `req`, with `home` as `~`.
pub open spec fn shows(v: PromptView, req: PromptRequest, home: Seq<char>) -> bool {
    &&& v.proc_name@ == capped(base_name(req.exe@))
    &&& v.path@ == view_field(req.path@, home)
    &&& v.exe@ == view_field(req.exe@, home)
    &&& v.object@ == view_field(req.always_object@, home)
    &&& v.cwd@ == view_field(req.cwd@, home)
    &&& v.cmdline@ == (if req.cmdline@.len() == 0 {
        "<unavailable>"@
    } else {
        capped(req.cmdline@)
    })
    &&& v.pid == req.pid
    &&& v.scope == (if req.always_tree {
        Scope::Tree
    } else {
        Scope::File
    })
    &&& v.cwd_pinned == req.always_cwd_pinned
}

impl PromptView {
    /// The request as it is shown.
    pub fn build(req: &PromptRequest, home: &str) -> (r: PromptView)
        ensures
            shows(r, *req, home@),
    {
        proof {
            reveal_strlit("<unavailable>");
        }
        PromptView {
            proc_name: cap(process_name(req.exe.as_str()).as_str()),
            path: path_field(req.path.as_str(), home),
            exe: path_field(req.exe.as_str(), home),
            object: path_field(req.always_object.as_str(), home),
            cwd: path_field(req.cwd.as_str(), home),
            cmdline: cap(cmdline_or_placeholder(req.cmdline.as_str()).as_str()),
            pid: req.pid,
            scope: if req.always_tree {
                Scope::Tree
            } else {
                Scope::File
            },
            cwd_pinned: req.always_cwd_pinned,
        }
    }

    /// The label of the button that allows for good.
    pub fn allow_always_label(&self) -> (r: &'static str)
        ensures
            r@ == (match self.scope {
                Scope::Tree => "Always allow ALL"@,
                Scope::File => "Always allow file"@,
            }),
    {
        match self.scope {
            Scope::Tree => "Always allow ALL",
            Scope::File => "Always allow file",
        }
    }

    /// The label of the button that denies for good.
    pub fn deny_always_label(&self) -> (r: &'static str)
        ensures
            r@ == (match self.scope {
                Scope::Tree => "Always deny ALL"@,
                Scope::File => "Always deny file"@,
            }),
    {
        match self.scope {
            Scope::Tree => "Always deny ALL",
            Scope::File => "Always deny file",
        }
    }
}

/// No field is longer than the longest length and its ellipsis; a field within
/// the length is shown whole.
pub proof fn fields_stay_short(s: Seq<char>)
    ensures
        capped(s).len() <= MAX_FIELD + 1,
        s.len() <= MAX_FIELD ==> capped(s) == s,
        s.take(if s.len() <= MAX_FIELD {
            s.len() as int
        } else {
            MAX_FIELD as int
        }).is_prefix_of(capped(s)),
{
    if s.len() <= MAX_FIELD {
        assert(s.take(s.len() as int) =~= s);
    }
}

/// The view of a request shows its own fields: whole where they are short and outside
/// the home directory, and the scope that the request states.
pub proof fn view_shows_the_request(req: PromptRequest, home: &str, v: PromptView)
    requires
        call_ensures(PromptView::build, (&req, home), v),
    ensures
        shows(v, req, home@),
        v.pid == req.pid,
        v.scope == Scope::Tree <==> req.always_tree,
        v.cwd_pinned == req.always_cwd_pinned,
        home@.len() == 0 && req.path@.len() <= 400 ==> v.path@ == req.path@,
        home@.len() == 0 && req.exe@.len() <= 400 ==> v.exe@ == req.exe@,
        home@.len() == 0 && req.always_object@.len() <= 400 ==> v.object@ == req.always_object@,
        home@.len() == 0 && req.cwd@.len() <= 400 ==> v.cwd@ == req.cwd@,
        0 < req.cmdline@.len() <= 400 ==> v.cmdline@ == req.cmdline@,
        req.cmdline@.len() == 0 ==> v.cmdline@ == "<unavailable>"@,
        base_name(req.exe@).len() <= 400 ==> v.proc_name@ == base_name(req.exe@),
{
}

/// Every field is shortened by the home directory, then cut, and by nothing else.
pub proof fn fields_are_shortened(req: PromptRequest, home: Seq<char>, v: PromptView)
    requires
        shows(v, req, home),
    ensures
        abbreviated(req.path@, home).len() <= 400 ==> v.path@ == abbreviated(req.path@, home),
        abbreviated(req.exe@, home).len() <= 400 ==> v.exe@ == abbreviated(req.exe@, home),
        abbreviated(req.always_object@, home).len() <= 400 ==> v.object@ == abbreviated(
            req.always_object@,
            home,
        ),
        abbreviated(req.cwd@, home).len() <= 400 ==> v.cwd@ == abbreviated(req.cwd@, home),
{
}

/// A field that is too long keeps its first 400 characters and ends in an ellipsis.
pub proof fn long_fields_are_cut(s: Seq<char>, rest: Seq<char>)
    requires
        s.len() == 400,
        rest.len() > 0,
    ensures
        capped(s) == s,
        capped(s + rest) == s.push('\u{2026}'),
{
    assert((s + rest).take(400) =~= s);
}

/// The labels name the scope: the whole tree, or the file.
pub proof fn labels_name_the_scope(v: PromptView, allow: &'static str, deny: &'static str)
    requires
        call_ensures(PromptView::allow_always_label, (&v,), allow),
        call_ensures(PromptView::deny_always_label, (&v,), deny),
    ensures
        v.scope == Scope::Tree ==> allow@ == "Always allow ALL"@ && deny@ == "Always deny ALL"@,
        v.scope == Scope::File ==> allow@ == "Always allow file"@ && deny@ == "Always deny file"@,
{
}

} // verus!
