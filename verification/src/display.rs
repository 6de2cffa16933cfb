//! How paths are shown to the user: below `~`, and by their last component.

use crate::paths::{name_of, parts, shown, FilePath, DOT, SLASH};
use crate::text::{from_chars, to_chars};
use vstd::prelude::*;
use vstd::string::*;
use vstd::utf8::*;

verus! {

/// Whether `path` goes on below `home`, a whole component at least.
pub open spec fn is_below(path: Seq<char>, home: Seq<char>) -> bool {
    home.is_prefix_of(path) && path.len() > home.len() && path[home.len() as int] == '/'
}

/// A path with a leading home directory shown as `~`.
pub open spec fn abbreviated(path: Seq<char>, home: Seq<char>) -> Seq<char> {
    if home.len() == 0 {
        path
    } else if path == home {
        seq!['~']
    } else if is_below(path, home) {
        seq!['~'] + path.skip(home.len() as int)
    } else {
        path
    }
}

/// Shows a leading home directory as `~`. Only whole components count, and an
/// empty `home` changes nothing.
pub fn abbrev(path: &str, home: &str) -> (r: String)
    ensures
        r@ == abbreviated(path@, home@),
{
    let p = to_chars(path);
    let h = to_chars(home);
    if h.len() == 0 || p.len() < h.len() {
        return path.to_owned();
    }
    let mut i: usize = 0;
    while i < h.len()
        invariant
            h@ == home@,
            p@ == path@,
            0 < h@.len() <= p@.len(),
            i <= h@.len(),
            forall|k: int| 0 <= k < i ==> #[trigger] p@[k] == h@[k],
        decreases h@.len() - i,
    {
        if p[i] != h[i] {
            assert(!home@.is_prefix_of(path@)) by {
                assert(path@[i as int] != home@[i as int]);
            }
            return path.to_owned();
        }
        i += 1;
    }
    assert(home@.is_prefix_of(path@)) by {
        assert(home@ =~= path@.subrange(0, home@.len() as int));
    }
    if p.len() > h.len() && p[h.len()] != '/' {
        return path.to_owned();
    }
    let mut out: Vec<char> = Vec::new();
    out.push('~');
    let mut k: usize = h.len();
    while k < p.len()
        invariant
            h@.len() <= k <= p@.len(),
            out@ == seq!['~'] + p@.subrange(h@.len() as int, k as int),
        decreases p@.len() - k,
    {
        out.push(p[k]);
        assert(out@ =~= seq!['~'] + p@.subrange(h@.len() as int, k + 1));
        k += 1;
    }
    assert(p@.subrange(h@.len() as int, k as int) =~= path@.skip(h@.len() as int));
    if p.len() == h.len() {
        assert(path@ =~= home@);
        assert(out@ =~= seq!['~']);
    }
    from_chars(&out)
}

/// The last component of an executable's path; the whole of it where it has none.
pub open spec fn base_name(exe: Seq<char>) -> Seq<char> {
    match name_of(encode_utf8(exe)) {
        Some(name) => shown(name),
        None => exe,
    }
}

/// The last component of an executable's path; the whole of it where it has none.
pub fn process_name(exe: &str) -> (r: String)
    ensures
        r@ == base_name(exe@),
{
    match FilePath::new(exe).file_name() {
        Some(name) => name.display(),
        None => exe.to_owned(),
    }
}

/// The command line, or a placeholder for an empty one.
pub open spec fn shown_cmdline(cmdline: Seq<char>) -> Seq<char> {
    if cmdline.len() == 0 {
        "<unavailable>"@
    } else {
        cmdline
    }
}

/// The command line, or a placeholder for an empty one.
pub fn cmdline_or_placeholder(cmdline: &str) -> (r: String)
    ensures
        r@ == shown_cmdline(cmdline@),
{
    if cmdline.unicode_len() == 0 {
        "<unavailable>".to_owned()
    } else {
        cmdline.to_owned()
    }
}

/// A sibling whose name merely begins like the home directory is left alone.
pub proof fn sibling_of_home_is_not_shortened(home: Seq<char>, c: char, rest: Seq<char>)
    requires
        c != '/',
    ensures
        abbreviated(home.push(c) + rest, home) == home.push(c) + rest,
{
    let p = home.push(c) + rest;
    assert(p[home.len() as int] == c);
    assert(p.len() > home.len());
}

/// A shortened path spells out to the path again.
pub proof fn shortened_path_spells_out(path: Seq<char>, home: Seq<char>)
    requires
        abbreviated(path, home) != path,
    ensures
        abbreviated(path, home).len() > 0,
        home + abbreviated(path, home).skip(1) == path,
{
    let a = abbreviated(path, home);
    if path == home {
        assert(a.skip(1) =~= Seq::<char>::empty());
        assert(home + a.skip(1) =~= path);
    } else {
        assert(a.skip(1) =~= path.skip(home.len() as int));
        assert(home + a.skip(1) =~= path);
    }
}

/// The home directory is shown as `~`, and what lies in it as `~/` and the rest; what
/// does not begin with it is shown whole, and so is everything without one.
pub proof fn home_is_shown_as_tilde(home: Seq<char>, rest: Seq<char>, other: Seq<char>)
    requires
        home.len() > 0,
    ensures
        abbreviated(home, home) == seq!['~'],
        abbreviated(home.push('/') + rest, home) == seq!['~', '/'] + rest,
        !home.is_prefix_of(other) ==> abbreviated(other, home) == other,
        abbreviated(other, Seq::empty()) == other,
{
    let p = home.push('/') + rest;
    assert(p.len() > home.len());
    assert(p[home.len() as int] == '/');
    assert(home.is_prefix_of(p)) by {
        assert(p.subrange(0, home.len() as int) =~= home);
    }
    assert(seq!['~'] + p.skip(home.len() as int) =~= seq!['~', '/'] + rest);
    if !home.is_prefix_of(other) && other == home {
        assert(home.subrange(0, home.len() as int) =~= home);
    }
}

/// An executable is called by the last component of its path, and by the whole of it
/// where that is no name.
pub proof fn program_is_called_by_its_last_component(exe: Seq<char>)
    ensures
        ({
            let all = parts(encode_utf8(exe));
            &&& all.len() == 0 ==> base_name(exe) == exe
            &&& all.len() > 0 && (all.last() == seq![SLASH] || all.last() == seq![DOT]
                || all.last() == seq![DOT, DOT]) ==> base_name(exe) == exe
            &&& all.len() > 0 && all.last() != seq![SLASH] && all.last() != seq![DOT]
                && all.last() != seq![DOT, DOT] ==> base_name(exe) == shown(all.last())
        }),
{
}

/// A command line is shown as it is, unless there is none.
pub proof fn command_line_is_shown(cmdline: &str, r: String)
    requires
        call_ensures(cmdline_or_placeholder, (cmdline,), r),
    ensures
        cmdline@.len() > 0 ==> r@ == cmdline@,
        cmdline@.len() == 0 ==> r@ == "<unavailable>"@,
        r@ == shown_cmdline(cmdline@),
{
}

/// Only whole components of the home directory count.
pub proof fn neighbours_of_home_are_shown_whole(path: &str, home: &str, r: String)
    requires
        call_ensures(abbrev, (path, home), r),
    ensures
        home@.len() == 0 ==> r@ == path@,
        path@.len() < home@.len() ==> r@ == path@,
        path@.len() > home@.len() && path@[home@.len() as int] != '/' ==> r@ == path@,
        home@.len() > 0 && path@ == home@ ==> r@ == seq!['~'],
        home@.len() > 0 && path@.len() > home@.len() && path@[home@.len() as int] == '/'
            && path@.take(home@.len() as int) == home@ ==> r@ == seq!['~'] + path@.skip(
            home@.len() as int,
        ),
        r@ != path@ ==> r@.len() > 0 && r@[0] == '~' && home@.is_prefix_of(path@),
{
    if home@.is_prefix_of(path@) {
        assert(path@.len() >= home@.len());
    }
    if path@.len() > home@.len() && path@.take(home@.len() as int) == home@ {
        assert(home@.is_prefix_of(path@));
    }
    if path@ == home@ {
        assert(path@.subrange(0, home@.len() as int) =~= home@);
    }
}

/// A program is called by what its path ends in.
pub proof fn program_name_is_taken(exe: &str, r: String)
    requires
        call_ensures(process_name, (exe,), r),
    ensures
        parts(encode_utf8(exe@)).len() == 0 ==> r@ == exe@,
        parts(encode_utf8(exe@)).len() > 0 && parts(encode_utf8(exe@)).last() != seq![SLASH]
            && parts(encode_utf8(exe@)).last() != seq![DOT] && parts(encode_utf8(exe@)).last()
            != seq![DOT, DOT] ==> r@ == shown(parts(encode_utf8(exe@)).last()),
{
    program_is_called_by_its_last_component(exe@);
}

} // verus!
