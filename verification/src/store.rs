//! Replacing the rule store in one step: the new contents go to a file beside it,
//! which is then renamed.

use crate::paths::{
    has_parent, is_name, is_parent, joined, joined_name_is_child, name_of, parts, FilePath, SLASH,
};
use crate::text::{dec, decimal, decimal_is_digits, decimal_is_read_back};
use vstd::prelude::*;
use vstd::string::*;
use vstd::utf8::*;

verus! {

/// Whether `dir` is the directory a store lies in: that of its path, or the
/// current one where its path has none.
pub open spec fn is_store_dir(dir: Seq<u8>, path: Seq<u8>) -> bool {
    if has_parent(path) {
        is_parent(dir, path)
    } else {
        dir == encode_utf8("."@)
    }
}

/// The directory a store lies in.
pub fn store_dir(path: &FilePath) -> (r: FilePath)
    ensures
        is_store_dir(r@, path@),
{
    match path.parent() {
        Some(dir) => dir,
        None => FilePath::new("."),
    }
}

/// The name of the file that the new contents go to.
pub open spec fn temp_text(pid: u32, secs: u64, nanos: u32) -> Seq<char> {
    ".rules."@ + dec(pid as nat) + "."@ + dec(secs as nat) + "."@ + dec(nanos as nat) + ".tmp"@
}

/// The file that the new contents go to: named for the process and the time, in
/// the store's directory.
pub fn temp_path(dir: &FilePath, pid: u32, secs: u64, nanos: u32) -> (r: FilePath)
    ensures
        r@ == joined(dir@, encode_utf8(temp_text(pid, secs, nanos))),
{
    let mut name = ".rules.".to_owned();
    name.append(decimal(pid as u128).as_str());
    name.append(".");
    name.append(decimal(secs as u128).as_str());
    name.append(".");
    name.append(decimal(nanos as u128).as_str());
    name.append(".tmp");
    dir.join(&FilePath::new(name.as_str()))
}

proof fn ascii_bytes(s: Seq<char>, i: int)
    requires
        forall|k: int| 0 <= k < s.len() ==> (#[trigger] s[k]) as u32 <= 0x7f,
    ensures
        encode_utf8(s).len() == s.len(),
        0 <= i < s.len() ==> encode_utf8(s)[i] == s[i] as u32,
    decreases s.len(),
{
    if s.len() > 0 {
        let rest = s.drop_first();
        assert forall|k: int| 0 <= k < rest.len() implies (#[trigger] rest[k]) as u32 <= 0x7f by {
            assert(rest[k] == s[k + 1]);
        }
        ascii_bytes(rest, i - 1);
        let c = s[0] as u32;
        assert(c <= 0x7f);
        assert(encode_scalar(c) =~= seq![c as u8]) by {
            assert(c <= 0x7f ==> (c & 0x7f) as u8 == c as u8) by (bit_vector);
        }
        assert(encode_utf8(s) =~= seq![c as u8] + encode_utf8(rest));
        if 0 < i < s.len() {
            assert(rest[i - 1] == s[i]);
            assert(encode_utf8(s)[i] == encode_utf8(rest)[i - 1]);
        }
    }
}

proof fn not_a_separator(c: char)
    requires
        c != '/',
    ensures
        c as u32 != SLASH,
{
}

/// Whether a text is plain ASCII without a separator.
pub open spec fn name_chars(s: Seq<char>) -> bool {
    forall|k: int| 0 <= k < s.len() ==> (#[trigger] s[k]) as u32 <= 0x7f && s[k] != '/'
}

proof fn name_chars_concat(a: Seq<char>, b: Seq<char>)
    requires
        name_chars(a),
        name_chars(b),
    ensures
        name_chars(a + b),
{
    assert forall|k: int| 0 <= k < (a + b).len() implies (#[trigger] (a + b)[k]) as u32 <= 0x7f
        && (a + b)[k] != '/' by {
        if k < a.len() {
            assert((a + b)[k] == a[k]);
        } else {
            assert((a + b)[k] == b[k - a.len()]);
        }
    }
}

proof fn decimal_name_chars(n: nat)
    ensures
        name_chars(dec(n)),
{
    assert forall|k: int| 0 <= k < dec(n).len() implies (#[trigger] dec(n)[k]) as u32 <= 0x7f
        && dec(n)[k] != '/' by {
        decimal_is_digits(n, k);
    }
}

/// The new contents go to a file in the store's own directory, so that renaming
/// it never crosses a file system.
pub proof fn temp_file_is_beside_the_store(dir: Seq<u8>, pid: u32, secs: u64, nanos: u32)
    ensures
        ({
            let name = encode_utf8(temp_text(pid, secs, nanos));
            &&& parts(joined(dir, name)) == parts(dir).push(name)
            &&& name_of(joined(dir, name)) == Some(name)
        }),
{
    let text = temp_text(pid, secs, nanos);
    let name = encode_utf8(text);
    reveal_strlit(".rules.");
    reveal_strlit(".");
    reveal_strlit(".tmp");
    decimal_name_chars(pid as nat);
    decimal_name_chars(secs as nat);
    decimal_name_chars(nanos as nat);
    let t1 = ".rules."@ + dec(pid as nat);
    let t2 = t1 + "."@;
    let t3 = t2 + dec(secs as nat);
    let t4 = t3 + "."@;
    let t5 = t4 + dec(nanos as nat);
    name_chars_concat(".rules."@, dec(pid as nat));
    name_chars_concat(t1, "."@);
    name_chars_concat(t2, dec(secs as nat));
    name_chars_concat(t3, "."@);
    name_chars_concat(t4, dec(nanos as nat));
    name_chars_concat(t5, ".tmp"@);
    assert(text == t5 + ".tmp"@);
    ascii_bytes(text, 1);
    assert(name.len() == text.len());
    assert(text.len() > 2);
    assert forall|i: int| 0 <= i < name.len() implies #[trigger] name[i] != SLASH by {
        ascii_bytes(text, i);
        not_a_separator(text[i]);
    }
    assert(is_name(name));
    joined_name_is_child(dir, name);
}

/// The directory of a store has all components of its path but the last, and the new
/// contents go to a file in it.
pub proof fn store_lies_in_its_directory(
    dir: Seq<u8>,
    name: Seq<u8>,
    path: FilePath,
    r: FilePath,
    pid: u32,
    secs: u64,
    nanos: u32,
    temp: FilePath,
)
    requires
        call_ensures(store_dir, (&path,), r),
        call_ensures(temp_path, (&r, pid, secs, nanos), temp),
        name.len() > 0 && is_name(name),
        forall|i: int| 0 <= i < name.len() ==> #[trigger] name[i] != SLASH,
        path@ == joined(dir, name),
    ensures
        parts(r@) == parts(dir),
        parts(temp@).len() == parts(path@).len(),
        parts(temp@).drop_last() == parts(path@).drop_last(),
{
    joined_name_is_child(dir, name);
    assert(parts(path@).last() == name);
    assert(name != seq![SLASH]) by {
        assert(seq![SLASH][0] == SLASH);
    }
    assert(parts(path@).drop_last() =~= parts(dir));
    temp_file_is_beside_the_store(r@, pid, secs, nanos);
    assert(parts(temp@).drop_last() =~= parts(r@));
}

proof fn pieces_are_found(a: Seq<char>, x: Seq<char>, b: Seq<char>, y: Seq<char>)
    requires
        a + seq!['.'] + x == b + seq!['.'] + y,
        forall|i: int| 0 <= i < a.len() ==> #[trigger] a[i] != '.',
        forall|i: int| 0 <= i < b.len() ==> #[trigger] b[i] != '.',
    ensures
        a == b,
        x == y,
{
    let s = a + seq!['.'] + x;
    let t = b + seq!['.'] + y;
    assert(s[a.len() as int] == '.');
    assert(t[b.len() as int] == '.');
    if a.len() < b.len() {
        assert(t[a.len() as int] == b[a.len() as int]);
    }
    if b.len() < a.len() {
        assert(s[b.len() as int] == a[b.len() as int]);
    }
    assert forall|i: int| 0 <= i < a.len() implies a[i] == b[i] by {
        assert(s[i] == a[i] && t[i] == b[i]);
    }
    assert(a =~= b);
    assert(seq!['.'].len() == 1);
    assert(s.len() == a.len() + 1 + x.len());
    assert(t.len() == b.len() + 1 + y.len());
    assert forall|i: int| 0 <= i < x.len() implies x[i] == y[i] by {
        assert(s[a.len() + 1 + i] == x[i]);
        assert(t[a.len() + 1 + i] == y[i]);
    }
    assert(x =~= y);
}

proof fn decimal_has_no_dot(n: nat)
    ensures
        forall|i: int| 0 <= i < dec(n).len() ==> #[trigger] dec(n)[i] != '.',
{
    assert forall|i: int| 0 <= i < dec(n).len() implies #[trigger] dec(n)[i] != '.' by {
        decimal_is_digits(n, i);
    }
}

/// New contents of another process, or of another time, go to another file.
pub proof fn temp_files_do_not_clash(
    pid: u32,
    secs: u64,
    nanos: u32,
    pid2: u32,
    secs2: u64,
    nanos2: u32,
)
    requires
        temp_text(pid, secs, nanos) == temp_text(pid2, secs2, nanos2),
    ensures
        pid == pid2,
        secs == secs2,
        nanos == nanos2,
{
    reveal_strlit(".rules.");
    reveal_strlit(".");
    reveal_strlit(".tmp");
    let (p, s, n) = (dec(pid as nat), dec(secs as nat), dec(nanos as nat));
    let (p2, s2, n2) = (dec(pid2 as nat), dec(secs2 as nat), dec(nanos2 as nat));
    let tmp = seq!['t', 'm', 'p'];
    let dot = seq!['.'];
    let a = temp_text(pid, secs, nanos);
    let b = temp_text(pid2, secs2, nanos2);
    assert("."@ =~= dot);
    assert(".tmp"@ =~= dot + tmp);
    assert(a.skip(7) =~= p + dot + (s + dot + (n + dot + tmp)));
    assert(b.skip(7) =~= p2 + dot + (s2 + dot + (n2 + dot + tmp)));
    decimal_has_no_dot(pid as nat);
    decimal_has_no_dot(secs as nat);
    decimal_has_no_dot(nanos as nat);
    decimal_has_no_dot(pid2 as nat);
    decimal_has_no_dot(secs2 as nat);
    decimal_has_no_dot(nanos2 as nat);
    pieces_are_found(p, s + dot + (n + dot + tmp), p2, s2 + dot + (n2 + dot + tmp));
    pieces_are_found(s, n + dot + tmp, s2, n2 + dot + tmp);
    pieces_are_found(n, tmp, n2, tmp);
    decimal_is_read_back(pid as nat);
    decimal_is_read_back(secs as nat);
    decimal_is_read_back(nanos as nat);
    decimal_is_read_back(pid2 as nat);
    decimal_is_read_back(secs2 as nat);
    decimal_is_read_back(nanos2 as nat);
}

} // verus!
