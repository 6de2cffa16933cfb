//! Shell-style patterns, compiled and matched by the `globset` crate.
//!
//! A pattern is kept with its separator mode: whether `*` and `?` stop at `/`.

use crate::paths::SLASH;
use crate::text::{texts, to_chars};
use globset::{Candidate, GlobBuilder, GlobSet, GlobSetBuilder};
use vstd::prelude::*;
use vstd::string::*;
use vstd::utf8::*;

verus! {

/// Most anchored patterns a set is built from, in characters altogether and one more
/// for each pattern: the matcher numbers the states of its automaton with 31 bits.
pub const MAX_PATTERN_CHARS: usize = 0x1000_0000;

/// How many matches the matcher can note altogether, over all states of its
/// automaton.
pub const MAX_MATCHES: u64 = 0x7fff_fffe;

/// How deep alternatives may be nested: each level takes a call to compile, and the
/// stack is finite. The regex that such a pattern becomes may nest far less deep.
pub const MAX_BRACE_DEPTH: usize = 1000;

/// A compiled set of patterns.
#[verifier::external_type_specification]
#[verifier::external_body]
pub struct ExGlobSet(globset::GlobSet);

/// Patterns gathered for a set.
#[verifier::external_type_specification]
#[verifier::external_body]
pub struct ExGlobSetBuilder(globset::GlobSetBuilder);

/// The patterns gathered so far, each with its separator mode.
pub uninterp spec fn builder_globs(builder: GlobSetBuilder) -> Seq<(Seq<char>, bool)>;

/// The patterns of a set, each with its separator mode.
pub uninterp spec fn set_globs(set: GlobSet) -> Seq<(Seq<char>, bool)>;

/// The message with which a pattern is refused, where it is.
pub uninterp spec fn glob_error(pattern: Seq<char>, literal_separator: bool) -> Option<Seq<char>>;

/// The message with which a set is refused for these patterns, those of it that are
/// not fixed text, where it is. Sizes are counted in bytes, so the width of a word
/// counts.
pub uninterp spec fn set_error(loose: Seq<(Seq<char>, bool)>, word_bits: u32) -> Option<Seq<char>>;

/// Whether a pattern matches a path.
pub uninterp spec fn glob_matches(
    pattern: Seq<char>,
    literal_separator: bool,
    path: Seq<u8>,
) -> bool;

/// Characters that stand for themselves in every place of a pattern.
pub open spec fn is_plain_char(c: char) -> bool {
    c != '?' && c != '*' && c != '[' && c != '{' && c != '}' && c != '\\'
}

/// A pattern that is its own only match.
pub open spec fn is_plain(pattern: Seq<char>) -> bool {
    forall|i: int| 0 <= i < pattern.len() ==> is_plain_char(#[trigger] pattern[i])
}

/// A plain pattern and one `*` at its end.
pub open spec fn is_star(pattern: Seq<char>) -> bool {
    pattern.len() > 0 && pattern.last() == '*' && is_plain(pattern.drop_last())
}

/// A plain pattern and `/**` at its end.
pub open spec fn is_tree(pattern: Seq<char>) -> bool {
    let n = pattern.len() - 3;
    n >= 0 && pattern.skip(n) == seq!['/', '*', '*'] && is_plain(pattern.take(n))
}

/// What a pattern matches: plain text matches itself, a final `*` any further
/// text without `/`, a final `/**` everything below. `named` answers for the rest.
pub open spec fn glob_hit(glob: (Seq<char>, bool), path: Seq<u8>, named: bool) -> bool {
    let pattern = glob.0;
    if is_plain(pattern) {
        path == encode_utf8(pattern)
    } else if is_star(pattern) && glob.1 {
        let head = encode_utf8(pattern.drop_last());
        head.is_prefix_of(path) && !path.skip(head.len() as int).contains(SLASH)
    } else if is_tree(pattern) {
        encode_utf8(pattern.take(pattern.len() - 3)).push(SLASH).is_prefix_of(path)
    } else {
        named
    }
}

/// Whether any of the patterns matches a path.
pub open spec fn any_hit(globs: Seq<(Seq<char>, bool)>, path: Seq<u8>) -> bool {
    exists|i: int|
        0 <= i < globs.len() && glob_hit(
            #[trigger] globs[i],
            path,
            glob_matches(globs[i].0, globs[i].1, path),
        )
}

/// The message with which a pattern is refused; the simple shapes never are.
pub open spec fn glob_fault(pattern: Seq<char>, named: Option<Seq<char>>) -> Option<Seq<char>> {
    if is_plain(pattern) || is_star(pattern) || is_tree(pattern) {
        None
    } else {
        named
    }
}

/// What a piece of a pattern spells: text, text that an escape leaves unfinished, or
/// more than text.
#[derive(Debug, Clone, Copy, PartialEq, Eq, Structural)]
pub enum Spelling {
    Text,
    Escape,
    Special,
}

/// What is spelled after one more character.
pub open spec fn spelled_on(before: Spelling, c: char) -> Spelling {
    match before {
        Spelling::Special => Spelling::Special,
        Spelling::Escape => Spelling::Text,
        Spelling::Text => if c == '\\' {
            Spelling::Escape
        } else if is_plain_char(c) {
            Spelling::Text
        } else {
            Spelling::Special
        },
    }
}

/// What a piece of a pattern spells.
pub open spec fn spelling(s: Seq<char>) -> Spelling
    decreases s.len(),
{
    if s.len() == 0 {
        Spelling::Text
    } else {
        spelled_on(spelling(s.drop_last()), s.last())
    }
}

/// `**`, or several with `/` between them.
pub open spec fn is_stars(s: Seq<char>) -> bool
    decreases s.len(),
{
    &&& s.len() >= 2 && s[0] == '*' && s[1] == '*'
    &&& s.len() == 2 || (s.len() > 3 && s[2] == '/' && is_stars(s.skip(3)))
}

/// Text that ends with `/`, and `**` behind it: matched by the beginning of a path.
pub open spec fn is_head(pattern: Seq<char>) -> bool {
    exists|n: int| #[trigger] is_head_at(pattern, n)
}

/// Whether such a text ends at `n`.
pub open spec fn is_head_at(pattern: Seq<char>, n: int) -> bool {
    &&& 0 < n <= pattern.len()
    &&& pattern[n - 1] == '/'
    &&& spelling(pattern.take(n)) is Text
    &&& is_stars(pattern.skip(n))
}

/// `**/` and text behind it: matched by the end of a path.
pub open spec fn is_tail(pattern: Seq<char>) -> bool
    decreases pattern.len(),
{
    &&& pattern.len() > 3 && pattern[0] == '*' && pattern[1] == '*' && pattern[2] == '/'
    &&& spelling(pattern.skip(3)) is Text || is_tail(pattern.skip(3))
}

/// Whether a pattern may be matched by its beginning or end alone. Only these go
/// into an automaton of their own.
pub open spec fn is_anchored(glob: (Seq<char>, bool)) -> bool {
    !glob.1 || is_head(glob.0) || is_tail(glob.0)
}

/// Whether a pattern is matched by comparing text.
pub open spec fn is_fixed(glob: (Seq<char>, bool)) -> bool {
    glob.1 && (is_head(glob.0) || is_tail(glob.0) || (glob.0.len() > 0 && spelling(
        glob.0,
    ) is Text))
}

/// The patterns that are not fixed text, in order.
pub open spec fn loose(globs: Seq<(Seq<char>, bool)>) -> Seq<(Seq<char>, bool)>
    decreases globs.len(),
{
    if globs.len() == 0 {
        globs
    } else if is_fixed(globs.last()) {
        loose(globs.drop_last())
    } else {
        loose(globs.drop_last()).push(globs.last())
    }
}

/// The message with which a set is refused; one of fixed texts never is.
pub open spec fn set_fault(globs: Seq<(Seq<char>, bool)>, named: Option<Seq<char>>) -> Option<
    Seq<char>,
> {
    if loose(globs).len() == 0 {
        None
    } else {
        named
    }
}

/// At most one pattern that is not fixed text holds a dot. Those are compiled by
/// their extension, in no particular order, and the first that fails gives the message.
pub open spec fn one_dotted(globs: Seq<(Seq<char>, bool)>) -> bool {
    forall|i: int, j: int|
        0 <= i < j < loose(globs).len() ==> !((#[trigger] loose(globs)[i]).0.contains('.') && (
        #[trigger] loose(globs)[j]).0.contains('.'))
}

/// How many patterns are anchored.
pub open spec fn anchored_count(globs: Seq<(Seq<char>, bool)>) -> nat
    decreases globs.len(),
{
    if globs.len() == 0 {
        0
    } else {
        anchored_count(globs.drop_last()) + (if is_anchored(globs.last()) {
            1nat
        } else {
            0
        })
    }
}

/// The size of the anchored patterns: their characters, and one for each.
pub open spec fn anchored_chars(globs: Seq<(Seq<char>, bool)>) -> nat
    decreases globs.len(),
{
    if globs.len() == 0 {
        0
    } else {
        anchored_chars(globs.drop_last()) + (if is_anchored(globs.last()) {
            globs.last().0.len() + 1
        } else {
            0
        })
    }
}

/// Whether an automaton for so many patterns, of this size together, has room for all
/// its states, and for every pattern to match in every state. A character takes up to
/// four states.
pub open spec fn has_room(count: nat, chars: nat) -> bool {
    &&& chars <= MAX_PATTERN_CHARS
    &&& count * (4 * chars + 4) < MAX_MATCHES
}

/// Whether the automaton for these patterns has room.
pub open spec fn automaton_fits(globs: Seq<(Seq<char>, bool)>) -> bool {
    has_room(anchored_count(globs), anchored_chars(globs))
}

/// Where in a pattern one is: behind an escape, in a class, or in neither.
#[derive(Debug, Clone, Copy, PartialEq, Eq, Structural)]
pub enum Place {
    Open,
    Escape,
    /// Right behind `[`.
    Class,
    /// Behind `[` and the sign that negates the class.
    Negated,
    /// Further into a class, where `]` ends it.
    Within,
}

/// The place behind one more character.
pub open spec fn place_behind(place: Place, c: char) -> Place {
    match place {
        Place::Open => if c == '\\' {
            Place::Escape
        } else if c == '[' {
            Place::Class
        } else {
            Place::Open
        },
        Place::Escape => Place::Open,
        Place::Class => if c == '!' || c == '^' {
            Place::Negated
        } else {
            Place::Within
        },
        Place::Negated => Place::Within,
        Place::Within => if c == ']' {
            Place::Open
        } else {
            Place::Within
        },
    }
}

/// The place at the end of `s`.
pub open spec fn place_at(s: Seq<char>) -> Place
    decreases s.len(),
{
    if s.len() == 0 {
        Place::Open
    } else {
        place_behind(place_at(s.drop_last()), s.last())
    }
}

/// How many braces are open at the end of `s`.
pub open spec fn open_braces(s: Seq<char>) -> nat
    decreases s.len(),
{
    if s.len() == 0 {
        0
    } else {
        let before = open_braces(s.drop_last());
        if place_at(s.drop_last()) != Place::Open {
            before
        } else if s.last() == '{' {
            before + 1
        } else if s.last() == '}' && before > 0 {
            (before - 1) as nat
        } else {
            before
        }
    }
}

/// How many braces are open at most, anywhere in `s`.
pub open spec fn most_braces(s: Seq<char>) -> nat
    decreases s.len(),
{
    if s.len() == 0 {
        0
    } else {
        let before = most_braces(s.drop_last());
        if open_braces(s) > before {
            open_braces(s)
        } else {
            before
        }
    }
}

/// How many braces `s` closes.
pub open spec fn closed_braces(s: Seq<char>) -> nat
    decreases s.len(),
{
    if s.len() == 0 {
        0
    } else {
        closed_braces(s.drop_last()) + (if place_at(s.drop_last()) == Place::Open && s.last()
            == '}' {
            1nat
        } else {
            0
        })
    }
}

/// How deep a pattern nests alternatives at most. Those left open are not nested in
/// anything.
pub open spec fn brace_depth(pattern: Seq<char>) -> nat {
    if most_braces(pattern) < closed_braces(pattern) {
        most_braces(pattern)
    } else {
        closed_braces(pattern)
    }
}

/// `GlobSetBuilder::new` starts with no patterns.
pub assume_specification[ GlobSetBuilder::new ]() -> (b: GlobSetBuilder)
    ensures
        builder_globs(b) == Seq::<(Seq<char>, bool)>::empty(),
;

/// Calls `GlobBuilder::build` with the separator mode set, then
/// `GlobSetBuilder::add`: a pattern that parses joins the list, at its end; one
/// that does not leaves the list alone and comes back as the error's message.
/// Plain text, plain text with a final `*` and plain text with a final `/**`
/// always parse. A level of nested alternatives takes a call of its own, so their
/// depth is limited.
#[verifier::external_body]
fn add_glob(builder: &mut GlobSetBuilder, pattern: &str, literal_separator: bool) -> (r: Result<
    (),
    String,
>)
    requires
        brace_depth(pattern@) <= MAX_BRACE_DEPTH,
    ensures
        match glob_fault(pattern@, glob_error(pattern@, literal_separator)) {
            Some(message) => r matches Err(e) && e@ == message && builder_globs(*final(builder))
                == builder_globs(*old(builder)),
            None => r is Ok && builder_globs(*final(builder)) == builder_globs(*old(builder)).push(
                (pattern@, literal_separator),
            ),
        },
{
    let glob = GlobBuilder::new(pattern).literal_separator(literal_separator).build();
    match glob {
        Ok(glob) => {
            builder.add(glob);
            Ok(())
        },
        Err(e) => Err(e.to_string()),
    }
}

/// Calls `GlobSetBuilder::build`: the set holds the patterns gathered, unless what
/// they compile to is too large. Fixed texts have no part in that: they are compared,
/// not compiled. Which message comes is left open where two of the others hold a dot:
/// those may fail in either order. The automaton for anchored patterns must have room,
/// or the call would panic.
#[verifier::external_body]
fn build_set(builder: &GlobSetBuilder) -> (r: Result<GlobSet, String>)
    requires
        automaton_fits(builder_globs(*builder)),
    ensures
        r is Err <==> set_fault(
            builder_globs(*builder),
            set_error(loose(builder_globs(*builder)), usize::BITS),
        ) is Some,
        one_dotted(builder_globs(*builder)) ==> (r matches Err(e) ==> set_fault(
            builder_globs(*builder),
            set_error(loose(builder_globs(*builder)), usize::BITS),
        ) == Some(e@)),
        r matches Ok(set) ==> set_globs(set) == builder_globs(*builder),
{
    builder.build().map_err(|e| e.to_string())
}

/// Calls `GlobSet::is_match_candidate` on the bytes of a path: true when at least
/// one pattern matches.
#[verifier::external_body]
fn set_matches(set: &GlobSet, path: &Vec<u8>) -> (r: bool)
    ensures
        r == (exists|i: int|
            0 <= i < set_globs(*set).len() && glob_hit(
                #[trigger] set_globs(*set)[i],
                path@,
                glob_matches(set_globs(*set)[i].0, set_globs(*set)[i].1, path@),
            )),
{
    set.is_match_candidate(&Candidate::from_bytes(path.as_slice()))
}

/// The patterns, each stopping `*` at `/`.
pub open spec fn path_globs(patterns: Seq<Seq<char>>) -> Seq<(Seq<char>, bool)> {
    patterns.map_values(|p: Seq<char>| (p, true))
}

/// Whether a pattern is beyond what can be compiled: nested too deep, or anchored and
/// too long.
pub open spec fn is_beyond(pattern: Seq<char>) -> bool {
    ||| brace_depth(pattern) > MAX_BRACE_DEPTH
    ||| is_anchored((pattern, true)) && pattern.len() >= MAX_PATTERN_CHARS
}

/// What is said of a pattern beyond that.
pub open spec fn beyond_text(pattern: Seq<char>) -> Seq<char> {
    "error compiling glob '"@ + pattern + "': nested too deep or too long"@
}

/// The message for the first pattern beyond what can be compiled, where one is.
pub open spec fn first_beyond(patterns: Seq<Seq<char>>) -> Option<Seq<char>>
    decreases patterns.len(),
{
    if patterns.len() == 0 {
        None
    } else if is_beyond(patterns[0]) {
        Some(beyond_text(patterns[0]))
    } else {
        first_beyond(patterns.drop_first())
    }
}

/// The message for the first pattern that is refused by itself, where one is.
pub open spec fn first_fault(patterns: Seq<Seq<char>>) -> Option<Seq<char>>
    decreases patterns.len(),
{
    if patterns.len() == 0 {
        None
    } else if is_beyond(patterns[0]) {
        first_fault(patterns.drop_first())
    } else {
        match glob_fault(patterns[0], glob_error(patterns[0], true)) {
            Some(message) => Some(message),
            None => first_fault(patterns.drop_first()),
        }
    }
}

/// The message with which the patterns, none of which is refused by itself, are refused
/// together.
pub open spec fn oversized(patterns: Seq<Seq<char>>) -> Option<Seq<char>> {
    match first_beyond(patterns) {
        Some(message) => Some(message),
        None => set_fault(
            path_globs(patterns),
            set_error(loose(path_globs(patterns)), usize::BITS),
        ),
    }
}

/// Whether it is fixed which message that is.
pub open spec fn oversized_is_fixed(patterns: Seq<Seq<char>>) -> bool {
    first_beyond(patterns) is Some || one_dotted(path_globs(patterns))
}

proof fn special_stays(s: Seq<char>, k: int)
    requires
        0 <= k <= s.len(),
        spelling(s.take(k)) is Special,
    ensures
        spelling(s) is Special,
    decreases s.len() - k,
{
    if k < s.len() {
        assert(s.take(k + 1).drop_last() =~= s.take(k));
        special_stays(s, k + 1);
    } else {
        assert(s.take(k) =~= s);
    }
}

fn spell(before: Spelling, c: char) -> (r: Spelling)
    ensures
        r == spelled_on(before, c),
{
    match before {
        Spelling::Special => Spelling::Special,
        Spelling::Escape => Spelling::Text,
        Spelling::Text => match c {
            '\\' => Spelling::Escape,
            '?' | '*' | '[' | '{' | '}' => Spelling::Special,
            _ => Spelling::Text,
        },
    }
}

/// How far the text at the beginning of a pattern reaches.
fn text_end(cs: &Vec<char>) -> (r: usize)
    ensures
        r <= cs@.len(),
        spelling(cs@.take(r as int)) !is Special,
        r < cs@.len() ==> spelling(cs@.take(r + 1)) is Special,
{
    let mut state = Spelling::Text;
    let mut i: usize = 0;
    while i < cs.len()
        invariant
            i <= cs@.len(),
            state == spelling(cs@.take(i as int)),
            state !is Special,
        decreases cs@.len() - i,
    {
        assert(cs@.take(i + 1).drop_last() =~= cs@.take(i as int));
        state = spell(state, cs[i]);
        if matches!(state, Spelling::Special) {
            return i;
        }
        i += 1;
    }
    i
}

/// Whether the pattern from `from` on spells text.
fn is_text_from(cs: &Vec<char>, from: usize) -> (r: bool)
    requires
        from <= cs@.len(),
    ensures
        r == (spelling(cs@.skip(from as int)) is Text),
{
    let ghost rest = cs@.skip(from as int);
    let mut state = Spelling::Text;
    let mut i: usize = from;
    while i < cs.len()
        invariant
            from <= i <= cs@.len(),
            rest == cs@.skip(from as int),
            state == spelling(rest.take(i - from)),
        decreases cs@.len() - i,
    {
        assert(rest.take(i - from + 1).drop_last() =~= rest.take(i - from));
        assert(rest.take(i - from + 1).last() == cs@[i as int]);
        state = spell(state, cs[i]);
        i += 1;
    }
    assert(rest.take(i - from) =~= rest);
    matches!(state, Spelling::Text)
}

/// Whether the pattern from `from` on is `**`, or several.
fn is_stars_from(cs: &Vec<char>, from: usize) -> (r: bool)
    requires
        from <= cs@.len(),
    ensures
        r == is_stars(cs@.skip(from as int)),
{
    let mut i: usize = from;
    while cs.len() - i > 3 && cs[i] == '*' && cs[i + 1] == '*' && cs[i + 2] == '/'
        invariant
            from <= i <= cs@.len(),
            is_stars(cs@.skip(from as int)) == is_stars(cs@.skip(i as int)),
        decreases cs@.len() - i,
    {
        assert(cs@.skip(i as int).skip(3) =~= cs@.skip(i + 3));
        i += 3;
    }
    cs.len() - i == 2 && cs[i] == '*' && cs[i + 1] == '*'
}

/// Whether a pattern is anchored.
fn check_anchored(cs: &Vec<char>) -> (r: bool)
    ensures
        r == is_anchored((cs@, true)),
{
    let n = text_end(cs);
    proof {
        // Where the text ends at `m`, it is not followed by more text.
        assert forall|m: int| #[trigger] is_head_at(cs@, m) implies m == n by {
            assert(cs@.skip(m)[0] == cs@[m]);
            assert(cs@.take(m + 1).drop_last() =~= cs@.take(m));
            if m < n {
                assert(cs@.take(n as int).take(m + 1) =~= cs@.take(m + 1));
                special_stays(cs@.take(n as int), m + 1);
            }
            if n < m {
                assert(cs@.take(m).take(n + 1) =~= cs@.take(n + 1));
                special_stays(cs@.take(m), n + 1);
            }
        }
    }
    if n > 0 && n < cs.len() && cs[n - 1] == '/' && is_stars_from(cs, n) {
        assert(cs@.take(n + 1).drop_last() =~= cs@.take(n as int));
        assert(is_head_at(cs@, n as int));
        return true;
    }
    assert(!is_head(cs@));
    let mut i: usize = 0;
    assert(cs@.skip(0) =~= cs@);
    while cs.len() - i > 3 && cs[i] == '*' && cs[i + 1] == '*' && cs[i + 2] == '/'
        invariant
            i <= cs@.len(),
            is_tail(cs@) == (i > 0 && spelling(cs@.skip(i as int)) is Text || is_tail(
                cs@.skip(i as int),
            )),
        decreases cs@.len() - i,
    {
        proof {
            let rest = cs@.skip(i as int);
            assert(rest.skip(3) =~= cs@.skip(i + 3));
            assert(rest.take(1).drop_last() =~= Seq::<char>::empty());
            assert(rest.take(1).last() == '*');
            assert(spelling(Seq::<char>::empty()) is Text);
            special_stays(rest, 1);
        }
        i += 3;
    }
    i > 0 && is_text_from(cs, i)
}

fn step(place: Place, c: char) -> (r: Place)
    ensures
        r == place_behind(place, c),
{
    match place {
        Place::Open => match c {
            '\\' => Place::Escape,
            '[' => Place::Class,
            _ => Place::Open,
        },
        Place::Escape => Place::Open,
        Place::Class => match c {
            '!' | '^' => Place::Negated,
            _ => Place::Within,
        },
        Place::Negated => Place::Within,
        Place::Within => match c {
            ']' => Place::Open,
            _ => Place::Within,
        },
    }
}

/// Whether a pattern nests alternatives too deep.
fn too_deep(cs: &Vec<char>) -> (r: bool)
    ensures
        r == (brace_depth(cs@) > MAX_BRACE_DEPTH),
{
    let mut place = Place::Open;
    let mut open: usize = 0;
    let mut most: usize = 0;
    let mut closed: usize = 0;
    let mut i: usize = 0;
    while i < cs.len()
        invariant
            i <= cs@.len(),
            place == place_at(cs@.take(i as int)),
            open == open_braces(cs@.take(i as int)),
            most == most_braces(cs@.take(i as int)),
            closed == closed_braces(cs@.take(i as int)),
            open <= i,
            most <= i,
            closed <= i,
        decreases cs@.len() - i,
    {
        assert(cs@.take(i + 1).drop_last() =~= cs@.take(i as int));
        if matches!(place, Place::Open) {
            if cs[i] == '{' {
                open += 1;
            } else if cs[i] == '}' {
                closed += 1;
                if open > 0 {
                    open -= 1;
                }
            }
        }
        if open > most {
            most = open;
        }
        place = step(place, cs[i]);
        i += 1;
    }
    assert(cs@.take(i as int) =~= cs@);
    most > MAX_BRACE_DEPTH && closed > MAX_BRACE_DEPTH
}

/// Says that a pattern is beyond what can be compiled.
fn say_beyond(pattern: &str) -> (r: String)
    ensures
        r@ == beyond_text(pattern@),
{
    let mut text = "error compiling glob '".to_owned();
    text.append(pattern);
    text.append("': nested too deep or too long");
    text
}

/// Whether an automaton for so many patterns, of this size together, has room.
fn check_room(count: usize, chars: usize) -> (r: bool)
    requires
        count <= chars,
    ensures
        r == has_room(count as nat, chars as nat),
{
    if chars > MAX_PATTERN_CHARS {
        return false;
    }
    assert(count * (4 * chars + 4) <= 0x1000_0000 * 0x4000_0004) by (nonlinear_arith)
        requires
            0 <= count <= chars <= 0x1000_0000,
    ;
    let matches: u64 = count as u64 * (4 * chars as u64 + 4);
    matches < MAX_MATCHES
}

/// Whether any pattern of any set matches a path.
pub open spec fn sets_hit(sets: Seq<GlobSet>, path: Seq<u8>) -> bool {
    exists|k: int| 0 <= k < sets.len() && any_hit(set_globs(#[trigger] sets[k]), path)
}

/// Patterns on their way into a set.
struct Batch {
    builder: GlobSetBuilder,
    /// How many of them are anchored, and their size.
    count: usize,
    chars: usize,
}

impl Batch {
    spec fn globs(self) -> Seq<(Seq<char>, bool)> {
        builder_globs(self.builder)
    }

    spec fn wf(self) -> bool {
        &&& self.count == anchored_count(self.globs())
        &&& self.chars == anchored_chars(self.globs())
        &&& self.count <= self.chars
        &&& automaton_fits(self.globs())
    }

    fn new() -> (r: Batch)
        ensures
            r.wf(),
            r.globs() == Seq::<(Seq<char>, bool)>::empty(),
    {
        Batch { builder: GlobSetBuilder::new(), count: 0, chars: 0 }
    }

    /// Whether there is room for one more anchored pattern of this length.
    fn takes(&self, len: usize) -> (r: bool)
        requires
            self.wf(),
            len < MAX_PATTERN_CHARS,
        ensures
            r == has_room((self.count + 1) as nat, (self.chars + len + 1) as nat),
    {
        check_room(self.count + 1, self.chars + len + 1)
    }

    /// Parses a pattern and takes it in.
    fn add(&mut self, pattern: &str, anchored: bool, len: usize) -> (r: Result<(), String>)
        requires
            old(self).wf(),
            brace_depth(pattern@) <= MAX_BRACE_DEPTH,
            anchored == is_anchored((pattern@, true)),
            len == pattern@.len(),
            anchored ==> has_room(
                (old(self).count + 1) as nat,
                (old(self).chars + len + 1) as nat,
            ),
        ensures
            final(self).wf(),
            match glob_fault(pattern@, glob_error(pattern@, true)) {
                Some(message) => r matches Err(e) && e@ == message,
                None => r is Ok && final(self).globs() == old(self).globs().push((pattern@, true)),
            },
    {
        match add_glob(&mut self.builder, pattern, true) {
            Ok(()) => {},
            Err(e) => {
                return Err(e);
            },
        }
        assert(self.globs().drop_last() =~= old(self).globs());
        if anchored {
            self.count += 1;
            self.chars += len + 1;
        }
        Ok(())
    }
}

/// Patterns that parse, ready to be compiled.
pub struct Gathered {
    /// All that are not anchored, and those that are while there is room.
    first: Batch,
    /// The other anchored ones. Fixed texts are never refused.
    sets: Vec<GlobSet>,
    /// What is said of one beyond what can be compiled.
    beyond: Option<String>,
    patterns: Ghost<Seq<Seq<char>>>,
}

impl View for Gathered {
    type V = Seq<Seq<char>>;

    closed spec fn view(&self) -> Seq<Seq<char>> {
        self.patterns@
    }
}

impl Gathered {
    #[verifier::type_invariant]
    spec fn wf(self) -> bool {
        let globs = path_globs(self.patterns@);
        &&& self.first.wf()
        &&& match self.beyond {
            Some(message) => first_beyond(self.patterns@) == Some(message@),
            None => {
                &&& first_beyond(self.patterns@) is None
                &&& loose(self.first.globs()) == loose(globs)
                &&& forall|path: Seq<u8>| #[trigger]
                    any_hit(globs, path) == (any_hit(self.first.globs(), path) || sets_hit(
                        self.sets@,
                        path,
                    ))
            },
        }
    }

    /// Compiles the patterns.
    pub fn build(self) -> (r: Result<PatternSet, String>)
        ensures
            r is Err <==> oversized(self@) is Some,
            oversized_is_fixed(self@) ==> (r matches Err(e) ==> oversized(self@) == Some(e@)),
            r matches Ok(set) ==> set@ == path_globs(self@),
    {
        proof {
            use_type_invariant(&self);
        }
        if let Some(message) = self.beyond {
            return Err(message);
        }
        let set = match build_set(&self.first.builder) {
            Ok(set) => set,
            Err(e) => {
                return Err(e);
            },
        };
        let ghost globs = path_globs(self.patterns@);
        let ghost before = self.sets@;
        let mut sets = self.sets;
        sets.push(set);
        assert forall|path: Seq<u8>| #[trigger] any_hit(globs, path) == sets_hit(sets@, path) by {
            sets_hit_push(before, set, path);
        }
        Ok(PatternSet { sets, globs: Ghost(globs) })
    }
}

proof fn sets_hit_push(sets: Seq<GlobSet>, set: GlobSet, path: Seq<u8>)
    ensures
        sets_hit(sets.push(set), path) == (sets_hit(sets, path) || any_hit(set_globs(set), path)),
{
    let more = sets.push(set);
    if sets_hit(sets, path) {
        let k = choose|k: int|
            0 <= k < sets.len() && any_hit(set_globs(#[trigger] sets[k]), path);
        assert(more[k] == sets[k]);
    }
    assert(more[sets.len() as int] == set);
    if sets_hit(more, path) {
        let k = choose|k: int|
            0 <= k < more.len() && any_hit(set_globs(#[trigger] more[k]), path);
        if k < sets.len() {
            assert(more[k] == sets[k]);
        }
    }
}

proof fn any_hit_push(globs: Seq<(Seq<char>, bool)>, glob: (Seq<char>, bool), path: Seq<u8>)
    ensures
        any_hit(globs.push(glob), path) == (any_hit(globs, path) || any_hit(seq![glob], path)),
{
    let more = globs.push(glob);
    if any_hit(globs, path) {
        let k = choose|k: int|
            0 <= k < globs.len() && glob_hit(
                #[trigger] globs[k],
                path,
                glob_matches(globs[k].0, globs[k].1, path),
            );
        assert(more[k] == globs[k]);
    }
    assert(more[globs.len() as int] == glob);
    assert(seq![glob][0] == glob);
    if any_hit(more, path) {
        let k = choose|k: int|
            0 <= k < more.len() && glob_hit(
                #[trigger] more[k],
                path,
                glob_matches(more[k].0, more[k].1, path),
            );
        if k < globs.len() {
            assert(more[k] == globs[k]);
        }
    }
}

/// A compiled list of patterns.
pub struct PatternSet {
    sets: Vec<GlobSet>,
    globs: Ghost<Seq<(Seq<char>, bool)>>,
}

impl View for PatternSet {
    type V = Seq<(Seq<char>, bool)>;

    closed spec fn view(&self) -> Seq<(Seq<char>, bool)> {
        self.globs@
    }
}

impl PatternSet {
    #[verifier::type_invariant]
    spec fn wf(self) -> bool {
        forall|path: Seq<u8>| #[trigger]
            any_hit(self.globs@, path) == sets_hit(self.sets@, path)
    }

    /// Whether any of the patterns matches `path`.
    pub fn matches(&self, path: &Vec<u8>) -> (r: bool)
        ensures
            r == any_hit(self@, path@),
    {
        proof {
            use_type_invariant(self);
        }
        let mut i: usize = 0;
        while i < self.sets.len()
            invariant
                i <= self.sets@.len(),
                forall|k: int|
                    0 <= k < i ==> !any_hit(set_globs(#[trigger] self.sets@[k]), path@),
                any_hit(self.globs@, path@) == sets_hit(self.sets@, path@),
            decreases self.sets@.len() - i,
        {
            if set_matches(&self.sets[i], path) {
                return true;
            }
            i += 1;
        }
        false
    }
}

/// Parses patterns, in order, up to the first that is refused.
pub fn gather(patterns: &Vec<String>) -> (r: Result<Gathered, String>)
    ensures
        match first_fault(texts(patterns@)) {
            Some(message) => r matches Err(e) && e@ == message,
            None => r matches Ok(g) && g@ == texts(patterns@),
        },
{
    let ghost all = texts(patterns@);
    let mut first = Batch::new();
    let mut spill = Batch::new();
    let mut sets: Vec<GlobSet> = Vec::new();
    let mut beyond: Option<String> = None;
    let mut i: usize = 0;
    assert(all.skip(0) =~= all);
    assert(path_globs(all.take(0)) =~= Seq::<(Seq<char>, bool)>::empty());
    while i < patterns.len()
        invariant
            i <= patterns.len(),
            all == texts(patterns@),
            first.wf(),
            spill.wf(),
            loose(spill.globs()).len() == 0,
            anchored_count(spill.globs()) == spill.globs().len(),
            first_fault(all) == first_fault(all.skip(i as int)),
            beyond matches Some(message) ==> first_beyond(all) == Some(message@),
            beyond is None ==> {
                &&& first_beyond(all) == first_beyond(all.skip(i as int))
                &&& loose(first.globs()) == loose(path_globs(all.take(i as int)))
                &&& forall|path: Seq<u8>| #[trigger]
                    any_hit(path_globs(all.take(i as int)), path) == (any_hit(
                        first.globs(),
                        path,
                    ) || any_hit(spill.globs(), path) || sets_hit(sets@, path))
            },
        decreases patterns.len() - i,
    {
        let pattern = patterns[i].as_str();
        let cs = to_chars(pattern);
        assert(all.skip(i as int)[0] == cs@);
        assert(all.skip(i as int).drop_first() =~= all.skip(i + 1));
        let ghost glob = (cs@, true);
        assert(path_globs(all.take(i + 1)) =~= path_globs(all.take(i as int)).push(glob));
        assert(path_globs(all.take(i + 1)).drop_last() =~= path_globs(all.take(i as int)));
        let anchored = check_anchored(&cs);
        if too_deep(&cs) || anchored && cs.len() >= MAX_PATTERN_CHARS {
            if beyond.is_none() {
                beyond = Some(say_beyond(pattern));
            }
        } else if !anchored || first.takes(cs.len()) {
            let ghost before = first.globs();
            match first.add(pattern, anchored, cs.len()) {
                Ok(()) => {},
                Err(e) => {
                    return Err(e);
                },
            }
            proof {
                assert(first.globs().drop_last() =~= before);
                assert forall|path: Seq<u8>| beyond is None implies #[trigger] any_hit(
                    path_globs(all.take(i + 1)),
                    path,
                ) == (any_hit(first.globs(), path) || any_hit(spill.globs(), path) || sets_hit(
                    sets@,
                    path,
                )) by {
                    any_hit_push(path_globs(all.take(i as int)), glob, path);
                    any_hit_push(before, glob, path);
                }
            }
        } else {
            let ghost old_sets = sets@;
            let ghost old_spill = spill.globs();
            if !spill.takes(cs.len()) {
                if let Ok(set) = build_set(&spill.builder) {
                    sets.push(set);
                }
                spill = Batch::new();
                proof {
                    assert forall|path: Seq<u8>| #[trigger]
                        sets_hit(sets@, path) == (sets_hit(old_sets, path) || any_hit(
                            old_spill,
                            path,
                        )) by {
                        sets_hit_push(old_sets, sets@.last(), path);
                    }
                }
            }
            let ghost before = spill.globs();
            match spill.add(pattern, anchored, cs.len()) {
                Ok(()) => {},
                Err(e) => {
                    return Err(e);
                },
            }
            proof {
                assert(spill.globs().drop_last() =~= before);
                assert(loose(before).len() == 0);
                assert(is_fixed(spill.globs().last()));
                assert forall|path: Seq<u8>| beyond is None implies #[trigger] any_hit(
                    path_globs(all.take(i + 1)),
                    path,
                ) == (any_hit(first.globs(), path) || any_hit(spill.globs(), path) || sets_hit(
                    sets@,
                    path,
                )) by {
                    any_hit_push(path_globs(all.take(i as int)), glob, path);
                    any_hit_push(before, glob, path);
                }
            }
        }
        i += 1;
    }
    assert(all.take(i as int) =~= all);
    if spill.count > 0 {
        let ghost old_sets = sets@;
        if let Ok(set) = build_set(&spill.builder) {
            sets.push(set);
        }
        proof {
            assert forall|path: Seq<u8>| #[trigger]
                sets_hit(sets@, path) == (sets_hit(old_sets, path) || any_hit(
                    spill.globs(),
                    path,
                )) by {
                sets_hit_push(old_sets, sets@.last(), path);
            }
        }
    }
    Ok(Gathered { first, sets, beyond, patterns: Ghost(all) })
}

/// A listed text without special characters matches exactly the path it spells.
pub proof fn listed_path_matches(patterns: Seq<Seq<char>>, k: int)
    requires
        0 <= k < patterns.len(),
        is_plain(patterns[k]),
    ensures
        any_hit(path_globs(patterns), encode_utf8(patterns[k])),
{
    let globs = path_globs(patterns);
    assert(globs[k] == (patterns[k], true));
    assert(glob_hit(
        globs[k],
        encode_utf8(patterns[k]),
        glob_matches(globs[k].0, globs[k].1, encode_utf8(patterns[k])),
    ));
}

/// A final `*` does not reach across a separator.
pub proof fn star_stops_at_separator(head: Seq<char>, path: Seq<u8>)
    requires
        is_plain(head),
        any_hit(path_globs(seq![head.push('*')]), path),
    ensures
        encode_utf8(head).is_prefix_of(path),
        !path.skip(encode_utf8(head).len() as int).contains(SLASH),
{
    let p = head.push('*');
    assert(p.drop_last() == head);
    assert(p.last() == '*');
    assert(!is_plain_char(p[head.len() as int]));
}

/// A final `/**` reaches everything below, however deep.
pub proof fn tree_reaches_everything_below(head: Seq<char>, rest: Seq<u8>)
    requires
        is_plain(head),
    ensures
        any_hit(
            path_globs(seq![head + seq!['/', '*', '*']]),
            encode_utf8(head).push(SLASH) + rest,
        ),
{
    let p = head + seq!['/', '*', '*'];
    let path = encode_utf8(head).push(SLASH) + rest;
    let globs = path_globs(seq![p]);
    assert(p.take(p.len() - 3) == head);
    assert(p.skip(p.len() - 3) == seq!['/', '*', '*']);
    assert(!is_plain_char(p[p.len() - 1]));
    assert(!is_plain_char(p[p.len() - 2]));
    assert(p.drop_last()[p.len() - 2] == '*');
    assert(globs[0] == (p, true));
    assert(encode_utf8(head).push(SLASH).is_prefix_of(path));
    assert(glob_hit(globs[0], path, glob_matches(globs[0].0, globs[0].1, path)));
}

/// No patterns match nothing.
pub proof fn no_patterns_match_nothing(path: Seq<u8>)
    ensures
        !any_hit(path_globs(Seq::empty()), path),
{
}

proof fn plain_is_text(s: Seq<char>)
    requires
        is_plain(s),
    ensures
        spelling(s) is Text,
    decreases s.len(),
{
    if s.len() > 0 {
        assert forall|i: int| 0 <= i < s.len() - 1 implies is_plain_char(
            #[trigger] s.drop_last()[i],
        ) by {
            assert(s.drop_last()[i] == s[i]);
        }
        plain_is_text(s.drop_last());
        assert(is_plain_char(s[s.len() - 1]));
    }
}

proof fn nothing_closed(s: Seq<char>)
    requires
        !s.contains('}'),
    ensures
        closed_braces(s) == 0,
    decreases s.len(),
{
    if s.len() > 0 {
        assert forall|i: int| 0 <= i < s.len() - 1 implies #[trigger] s.drop_last()[i] != '}' by {
            assert(s.contains(s[i]));
        }
        assert(s.contains(s[s.len() - 1]));
        nothing_closed(s.drop_last());
    }
}

/// Plain text and whole trees are compared as text.
pub proof fn plain_and_trees_are_fixed(pattern: Seq<char>)
    requires
        is_tree(pattern) || (is_plain(pattern) && pattern.len() > 0),
    ensures
        is_fixed((pattern, true)),
        brace_depth(pattern) == 0,
{
    let n = pattern.len() - 3;
    if is_tree(pattern) {
        let head = pattern.take(n);
        let end = pattern.skip(n);
        assert(end[0] == '/' && end[1] == '*' && end[2] == '*');
        assert(pattern[n] == end[0]);
        assert(pattern.take(n + 1).drop_last() =~= head);
        plain_is_text(head);
        assert(pattern.skip(n + 1) =~= seq!['*', '*']);
        assert(is_head_at(pattern, n + 1));
        assert forall|i: int| 0 <= i < pattern.len() implies #[trigger] pattern[i] != '}' by {
            if i < n {
                assert(is_plain_char(head[i]));
            } else {
                assert(pattern[i] == end[i - n]);
            }
        }
    } else {
        plain_is_text(pattern);
        assert forall|i: int| 0 <= i < pattern.len() implies #[trigger] pattern[i] != '}' by {
            assert(is_plain_char(pattern[i]));
        }
    }
    nothing_closed(pattern);
}

/// A list of plain texts and whole trees is never refused, however long it is.
pub proof fn plain_lists_are_accepted(patterns: Seq<Seq<char>>)
    requires
        forall|i: int|
            0 <= i < patterns.len() ==> is_tree(#[trigger] patterns[i]) || (is_plain(patterns[i])
                && patterns[i].len() > 0),
        forall|i: int| 0 <= i < patterns.len() ==> (#[trigger] patterns[i]).len() < MAX_PATTERN_CHARS,
    ensures
        first_fault(patterns) is None,
        oversized(patterns) is None,
{
    assert forall|i: int| 0 <= i < patterns.len() implies !is_beyond(#[trigger] patterns[i])
        && glob_fault(patterns[i], glob_error(patterns[i], true)) is None && is_fixed(
        (patterns[i], true),
    ) by {
        plain_and_trees_are_fixed(patterns[i]);
    }
    faultless(patterns);
    all_fixed(path_globs(patterns));
}

proof fn faultless(patterns: Seq<Seq<char>>)
    requires
        forall|i: int|
            0 <= i < patterns.len() ==> !is_beyond(#[trigger] patterns[i]) && glob_fault(
                patterns[i],
                glob_error(patterns[i], true),
            ) is None,
    ensures
        first_fault(patterns) is None,
        first_beyond(patterns) is None,
    decreases patterns.len(),
{
    if patterns.len() > 0 {
        let rest = patterns.drop_first();
        assert(!is_beyond(patterns[0]));
        assert forall|i: int| 0 <= i < rest.len() implies !is_beyond(#[trigger] rest[i])
            && glob_fault(rest[i], glob_error(rest[i], true)) is None by {
            assert(rest[i] == patterns[i + 1]);
        }
        faultless(rest);
    }
}

proof fn all_fixed(globs: Seq<(Seq<char>, bool)>)
    requires
        forall|i: int| 0 <= i < globs.len() ==> is_fixed(#[trigger] globs[i]),
    ensures
        loose(globs).len() == 0,
    decreases globs.len(),
{
    if globs.len() > 0 {
        assert(is_fixed(globs[globs.len() - 1]));
        assert forall|i: int| 0 <= i < globs.len() - 1 implies is_fixed(
            #[trigger] globs.drop_last()[i],
        ) by {
            assert(globs.drop_last()[i] == globs[i]);
        }
        all_fixed(globs.drop_last());
    }
}

/// Every pattern counts, in order, and each stops `*` at `/`.
pub proof fn every_pattern_counts(patterns: Seq<Seq<char>>, k: int)
    requires
        0 <= k < patterns.len(),
    ensures
        path_globs(patterns).len() == patterns.len(),
        path_globs(patterns)[k] == (patterns[k], true),
{
}

/// Plain texts match the paths they spell and no others.
pub proof fn plain_texts_match_only_themselves(patterns: Seq<Seq<char>>, path: Seq<u8>)
    requires
        forall|i: int| 0 <= i < patterns.len() ==> is_plain(#[trigger] patterns[i]),
        any_hit(path_globs(patterns), path),
    ensures
        exists|i: int| 0 <= i < patterns.len() && path == encode_utf8(#[trigger] patterns[i]),
{
    let globs = path_globs(patterns);
    let i = choose|i: int|
        0 <= i < globs.len() && glob_hit(
            #[trigger] globs[i],
            path,
            glob_matches(globs[i].0, globs[i].1, path),
        );
    assert(globs[i] == (patterns[i], true));
    assert(is_plain(patterns[i]));
}

/// A list matches what any part of it matches, wherever the part stands.
pub proof fn lists_match_together(a: Seq<Seq<char>>, b: Seq<Seq<char>>, path: Seq<u8>)
    ensures
        any_hit(path_globs(a + b), path) == (any_hit(path_globs(a), path) || any_hit(
            path_globs(b),
            path,
        )),
{
    let (x, y, z) = (path_globs(a), path_globs(b), path_globs(a + b));
    assert(z =~= x + y);
    if any_hit(x, path) {
        let i = choose|i: int|
            0 <= i < x.len() && glob_hit(
                #[trigger] x[i],
                path,
                glob_matches(x[i].0, x[i].1, path),
            );
        assert(z[i] == x[i]);
    }
    if any_hit(y, path) {
        let i = choose|i: int|
            0 <= i < y.len() && glob_hit(
                #[trigger] y[i],
                path,
                glob_matches(y[i].0, y[i].1, path),
            );
        assert(z[x.len() + i] == y[i]);
    }
    if any_hit(z, path) {
        let i = choose|i: int|
            0 <= i < z.len() && glob_hit(
                #[trigger] z[i],
                path,
                glob_matches(z[i].0, z[i].1, path),
            );
        if i < x.len() {
            assert(z[i] == x[i]);
        } else {
            assert(z[i] == y[i - x.len()]);
        }
    }
}

/// Plain text before a final `*` matches what it begins, up to the next separator.
pub proof fn star_matches_the_rest_of_a_name(head: Seq<char>, rest: Seq<u8>)
    requires
        is_plain(head),
        !rest.contains(SLASH),
    ensures
        any_hit(path_globs(seq![head.push('*')]), encode_utf8(head) + rest),
{
    let p = head.push('*');
    let path = encode_utf8(head) + rest;
    let globs = path_globs(seq![p]);
    assert(p.drop_last() =~= head);
    assert(!is_plain_char(p[head.len() as int]));
    assert(globs[0] == (p, true));
    assert(encode_utf8(head).is_prefix_of(path));
    assert(path.skip(encode_utf8(head).len() as int) =~= rest);
    assert(glob_hit(globs[0], path, glob_matches(globs[0].0, globs[0].1, path)));
}

/// A final `/**` matches nothing outside its tree, nor the root of the tree itself.
pub proof fn tree_matches_nothing_else(head: Seq<char>, path: Seq<u8>)
    requires
        is_plain(head),
        any_hit(path_globs(seq![head + seq!['/', '*', '*']]), path),
    ensures
        encode_utf8(head).push(SLASH).is_prefix_of(path),
{
    let p = head + seq!['/', '*', '*'];
    let globs = path_globs(seq![p]);
    assert(p.take(p.len() - 3) =~= head);
    assert(p.skip(p.len() - 3) =~= seq!['/', '*', '*']);
    assert(!is_plain_char(p[p.len() - 1]));
    assert(!is_plain_char(p[p.len() - 2]));
    assert(p.drop_last()[p.len() - 2] == '*');
    assert(globs[0] == (p, true));
}

/// A compiled list answers for its patterns.
pub proof fn compiled_list_answers(set: PatternSet, path: Vec<u8>, r: bool)
    requires
        call_ensures(PatternSet::matches, (&set, &path), r),
    ensures
        r == any_hit(set@, path@),
{
}

/// What is gathered and compiled is the whole list.
pub proof fn compiling_keeps_the_list(
    patterns: Vec<String>,
    gathered: Result<Gathered, String>,
    built: Result<PatternSet, String>,
)
    requires
        call_ensures(gather, (&patterns,), gathered),
        gathered is Ok ==> call_ensures(Gathered::build, (gathered->Ok_0,), built),
    ensures
        gathered is Ok && built is Ok ==> {
            &&& (built->Ok_0)@.len() == patterns@.len()
            &&& forall|i: int|
                0 <= i < patterns@.len() ==> #[trigger] (built->Ok_0)@[i] == (patterns@[i]@, true)
        },
        (forall|i: int|
            0 <= i < patterns@.len() ==> (is_tree((#[trigger] patterns@[i])@) || (is_plain(
                patterns@[i]@,
            ) && patterns@[i]@.len() > 0)) && patterns@[i]@.len() < MAX_PATTERN_CHARS)
            ==> gathered is Ok && built is Ok,
{
    let all = texts(patterns@);
    assert forall|i: int| 0 <= i < patterns@.len() implies #[trigger] all[i] == patterns@[i]@ by {}
    if forall|i: int|
        0 <= i < patterns@.len() ==> (is_tree((#[trigger] patterns@[i])@) || (is_plain(
            patterns@[i]@,
        ) && patterns@[i]@.len() > 0)) && patterns@[i]@.len() < MAX_PATTERN_CHARS {
        assert forall|i: int| 0 <= i < all.len() implies (is_tree(#[trigger] all[i]) || (is_plain(
            all[i],
        ) && all[i].len() > 0)) && all[i].len() < MAX_PATTERN_CHARS by {
            assert(all[i] == patterns@[i]@);
        }
        plain_lists_are_accepted(all);
    }
}

/// The first pattern that is refused by itself gives the message; where none is, there
/// is none.
pub proof fn first_refused_pattern_is_reported(patterns: Seq<Seq<char>>, k: int)
    requires
        0 <= k <= patterns.len(),
        forall|j: int|
            0 <= j < k ==> is_beyond(#[trigger] patterns[j]) || glob_fault(
                patterns[j],
                glob_error(patterns[j], true),
            ) is None,
    ensures
        k == patterns.len() ==> first_fault(patterns) is None,
        k < patterns.len() && !is_beyond(patterns[k]) && !is_plain(patterns[k]) && !is_star(
            patterns[k],
        ) && !is_tree(patterns[k]) && glob_error(patterns[k], true) is Some ==> first_fault(
            patterns,
        ) == glob_error(patterns[k], true),
    decreases patterns.len(),
{
    if patterns.len() > 0 && k > 0 {
        let rest = patterns.drop_first();
        assert forall|j: int| 0 <= j < k - 1 implies is_beyond(#[trigger] rest[j]) || glob_fault(
            rest[j],
            glob_error(rest[j], true),
        ) is None by {
            assert(rest[j] == patterns[j + 1]);
        }
        assert(is_beyond(patterns[0]) || glob_fault(patterns[0], glob_error(patterns[0], true))
            is None);
        first_refused_pattern_is_reported(rest, k - 1);
        if k < patterns.len() {
            assert(rest[k - 1] == patterns[k]);
        }
    }
}

/// The first pattern that is nested too deep, or too long, is named.
pub proof fn first_pattern_beyond_is_named(patterns: Seq<Seq<char>>, k: int)
    requires
        0 <= k < patterns.len(),
        is_beyond(patterns[k]),
        forall|j: int| 0 <= j < k ==> !is_beyond(#[trigger] patterns[j]),
    ensures
        oversized(patterns) == Some(
            "error compiling glob '"@ + patterns[k] + "': nested too deep or too long"@,
        ),
{
    beyond_is_found(patterns, k);
}

proof fn beyond_is_found(patterns: Seq<Seq<char>>, k: int)
    requires
        0 <= k < patterns.len(),
        is_beyond(patterns[k]),
        forall|j: int| 0 <= j < k ==> !is_beyond(#[trigger] patterns[j]),
    ensures
        first_beyond(patterns) == Some(beyond_text(patterns[k])),
    decreases patterns.len(),
{
    if k > 0 {
        let rest = patterns.drop_first();
        assert(!is_beyond(patterns[0]));
        assert forall|j: int| 0 <= j < k - 1 implies !is_beyond(#[trigger] rest[j]) by {
            assert(rest[j] == patterns[j + 1]);
        }
        assert(rest[k - 1] == patterns[k]);
        beyond_is_found(rest, k - 1);
    }
}

/// A pattern that closes no alternatives is within the limits, unless it is matched by
/// its beginning or end and longer than can be compiled.
pub proof fn short_patterns_are_within_limits(pattern: Seq<char>)
    requires
        !pattern.contains('}'),
    ensures
        pattern.len() < 0x1000_0000 ==> !is_beyond(pattern),
        !is_head(pattern) && !is_tail(pattern) ==> !is_beyond(pattern),
        pattern.len() >= 0x1000_0000 && (is_head(pattern) || is_tail(pattern)) ==> is_beyond(
            pattern,
        ),
{
    nothing_closed(pattern);
}

proof fn one_more_place(s: Seq<char>, c: char)
    ensures
        place_at(s.push(c)) == place_behind(place_at(s), c),
        place_at(s) != Place::Open || (c != '{' && c != '}') ==> open_braces(s.push(c))
            == open_braces(s) && closed_braces(s.push(c)) == closed_braces(s),
{
    assert(s.push(c).drop_last() =~= s);
    assert(s.push(c).last() == c);
}

/// Braces that are escaped, or in a class, do not nest.
pub proof fn quoted_braces_do_not_nest(s: Seq<char>, c: char, d: char)
    requires
        place_at(s) == Place::Open,
        d != ']',
        c != '!' && c != '^',
    ensures
        open_braces(s.push('\\').push(c)) == open_braces(s),
        closed_braces(s.push('\\').push(c)) == closed_braces(s),
        place_at(s.push('\\').push(c)) == Place::Open,
        open_braces(s.push('[').push(c).push(d).push(']')) == open_braces(s),
        closed_braces(s.push('[').push(c).push(d).push(']')) == closed_braces(s),
        place_at(s.push('[').push(c).push(d).push(']')) == Place::Open,
{
    let e = s.push('\\');
    let a = s.push('[');
    let b = a.push(c);
    let g = b.push(d);
    one_more_place(s, '\\');
    one_more_place(e, c);
    one_more_place(s, '[');
    one_more_place(a, c);
    one_more_place(b, d);
    one_more_place(g, ']');
}

/// `n` braces opened, and `k` of them closed.
pub open spec fn nest(n: nat, k: nat) -> Seq<char> {
    Seq::new(
        n + k,
        |i: int|
            if i < n {
                '{'
            } else {
                '}'
            },
    )
}

proof fn nest_counts(n: nat, k: nat)
    requires
        k <= n,
    ensures
        place_at(nest(n, k)) == Place::Open,
        open_braces(nest(n, k)) == n - k,
        most_braces(nest(n, k)) == n,
        closed_braces(nest(n, k)) == k,
    decreases n + k,
{
    let s = nest(n, k);
    if k > 0 {
        let less = (k - 1) as nat;
        nest_counts(n, less);
        assert(s.drop_last() =~= nest(n, less));
        assert(s.last() == '}');
    } else if n > 0 {
        let less = (n - 1) as nat;
        nest_counts(less, 0);
        assert(s.drop_last() =~= nest(less, 0));
        assert(s.last() == '{');
    }
}

/// Alternatives may be nested a thousand deep, and no deeper.
pub proof fn alternatives_nest_to_a_limit(n: nat)
    ensures
        brace_depth(nest(n, n)) == n,
        n > 1000 ==> is_beyond(nest(n, n)),
        n <= 1000 ==> !is_beyond(nest(n, n)),
{
    nest_counts(n, n);
}

} // verus!
