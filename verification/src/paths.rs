//! Unix paths as byte strings, compared by their components.
//!
//! Repeated and trailing separators, and `.` components other than a leading
//! one, carry no meaning: `/a//b/./` and `/a/b` are the same path.

use vstd::prelude::*;
use vstd::string::*;
use vstd::utf8::*;

verus! {

pub const SLASH: u8 = 0x2f;

pub const DOT: u8 = 0x2e;

/// A path: any byte string.
#[derive(Debug)]
pub struct FilePath {
    pub bytes: Vec<u8>,
}

impl View for FilePath {
    type V = Seq<u8>;

    open spec fn view(&self) -> Seq<u8> {
        self.bytes@
    }
}

/// The byte strings held by a vector of them.
pub open spec fn rows(v: Seq<Vec<u8>>) -> Seq<Seq<u8>> {
    v.map_values(|r: Vec<u8>| r@)
}

/// How many bytes come before the first separator.
pub open spec fn head_len(p: Seq<u8>) -> nat
    decreases p.len(),
{
    if p.len() == 0 || p[0] == SLASH {
        0
    } else {
        1 + head_len(p.drop_first())
    }
}

/// The piece `h` as a component: empty pieces and `.` are none.
pub open spec fn kept(h: Seq<u8>) -> Seq<Seq<u8>> {
    if h.len() == 0 || h == seq![DOT] {
        Seq::empty()
    } else {
        seq![h]
    }
}

/// The components among the pieces between separators.
pub open spec fn body_parts(p: Seq<u8>) -> Seq<Seq<u8>>
    decreases p.len(),
{
    let n = head_len(p);
    if n < p.len() {
        kept(p.take(n as int)) + body_parts(p.skip(n as int + 1))
    } else {
        kept(p)
    }
}

/// What stands before the body: the root, or a leading `.`.
pub open spec fn lead_parts(p: Seq<u8>) -> Seq<Seq<u8>> {
    if p.len() > 0 && p[0] == SLASH {
        seq![seq![SLASH]]
    } else if p.len() > 0 && p[0] == DOT && (p.len() == 1 || p[1] == SLASH) {
        seq![seq![DOT]]
    } else {
        Seq::empty()
    }
}

/// The components of a path. The root is the component `/`.
pub open spec fn parts(p: Seq<u8>) -> Seq<Seq<u8>> {
    lead_parts(p) + body_parts(p)
}

/// Whether `p` is `base` or lies under it, counting whole components only.
pub open spec fn under(p: Seq<u8>, base: Seq<u8>) -> bool {
    parts(base).is_prefix_of(parts(p))
}

/// Whether two byte strings name the same path.
pub open spec fn same_path(a: Seq<u8>, b: Seq<u8>) -> bool {
    parts(a) == parts(b)
}

/// `q` taken relative to `p`; an absolute `q` stands for itself.
pub open spec fn joined(p: Seq<u8>, q: Seq<u8>) -> Seq<u8> {
    if q.len() > 0 && q[0] == SLASH {
        q
    } else if p.len() > 0 && p.last() != SLASH {
        p.push(SLASH) + q
    } else {
        p + q
    }
}

/// Whether a component is an ordinary name: not the root, `.` or `..`.
pub open spec fn is_name(part: Seq<u8>) -> bool {
    part != seq![SLASH] && part != seq![DOT] && part != seq![DOT, DOT]
}

/// The last component, when it is a name.
pub open spec fn name_of(p: Seq<u8>) -> Option<Seq<u8>> {
    if parts(p).len() > 0 && is_name(parts(p).last()) {
        Some(parts(p).last())
    } else {
        None
    }
}

/// Whether the path has a last component that can be left out.
pub open spec fn has_parent(p: Seq<u8>) -> bool {
    parts(p).len() > 0 && parts(p).last() != seq![SLASH]
}

/// Whether `d` is `p` up to the end of its last component but one.
pub open spec fn is_parent(d: Seq<u8>, p: Seq<u8>) -> bool {
    &&& d.is_prefix_of(p)
    &&& parts(d) == parts(p).drop_last()
    &&& forall|k: int| 0 <= k < d.len() ==> parts(#[trigger] p.take(k)) != parts(d)
}

proof fn head_len_bound(p: Seq<u8>)
    ensures
        head_len(p) <= p.len(),
        forall|i: int| 0 <= i < head_len(p) ==> #[trigger] p[i] != SLASH,
        head_len(p) < p.len() ==> p[head_len(p) as int] == SLASH,
    decreases p.len(),
{
    if p.len() > 0 && p[0] != SLASH {
        let q = p.drop_first();
        head_len_bound(q);
        assert forall|i: int| 0 <= i < head_len(p) implies #[trigger] p[i] != SLASH by {
            if i > 0 {
                assert(q[i - 1] == p[i]);
            }
        }
    }
}

/// The text before the first separator is determined by the separators alone.
proof fn head_len_is(p: Seq<u8>, n: int)
    requires
        0 <= n <= p.len(),
        forall|i: int| 0 <= i < n ==> #[trigger] p[i] != SLASH,
        n < p.len() ==> p[n] == SLASH,
    ensures
        head_len(p) == n,
    decreases p.len(),
{
    if n > 0 {
        let q = p.drop_first();
        assert forall|i: int| 0 <= i < n - 1 implies #[trigger] q[i] != SLASH by {
            assert(p[i + 1] != SLASH);
        }
        assert(p[0] != SLASH);
        head_len_is(q, n - 1);
    }
}

impl FilePath {
    /// The path that a text spells.
    pub fn new(text: &str) -> (r: FilePath)
        ensures
            r@ == encode_utf8(text@),
    {
        FilePath { bytes: text.as_bytes_vec() }
    }

    /// The path with these bytes.
    pub fn from_bytes(bytes: Vec<u8>) -> (r: FilePath)
        ensures
            r@ == bytes@,
    {
        FilePath { bytes }
    }

    /// The components.
    pub fn parts(&self) -> (r: Vec<Vec<u8>>)
        ensures
            rows(r@) == parts(self@),
    {
        parts_of(&self.bytes)
    }
}

fn parts_of(bytes: &Vec<u8>) -> (r: Vec<Vec<u8>>)
    ensures
        rows(r@) == parts(bytes@),
{
    let n = bytes.len();
    let ghost p = bytes@;
    let mut out: Vec<Vec<u8>> = Vec::new();
    if n > 0 && bytes[0] == SLASH {
        out.push(vec![SLASH]);
    } else if n > 0 && bytes[0] == DOT && (n == 1 || bytes[1] == SLASH) {
        out.push(vec![DOT]);
    }
    assert(rows(out@) =~~= lead_parts(p));
    let mut i: usize = 0;
    assert(p.skip(0) == p);
    let mut more = true;
    while more
        invariant
            p == bytes@,
            n == p.len(),
            i <= n,
            more ==> rows(out@) + body_parts(p.skip(i as int)) == parts(p),
            !more ==> rows(out@) == parts(p),
        decreases (if more { n - i + 1 } else { 0 }),
    {
        let ghost tail = p.skip(i as int);
        let mut piece: Vec<u8> = Vec::new();
        let mut j: usize = i;
        while j < n && bytes[j] != SLASH
            invariant
                p == bytes@,
                n == p.len(),
                i <= j <= n,
                tail == p.skip(i as int),
                piece@ == tail.take(j - i),
                forall|k: int| 0 <= k < j - i ==> #[trigger] tail[k] != SLASH,
            decreases n - j,
        {
            assert(tail[j - i] == p[j as int]);
            piece.push(bytes[j]);
            j += 1;
        }
        proof {
            if j < n {
                assert(tail[j - i] == SLASH);
            }
            head_len_is(tail, j - i);
            if j < n {
                assert(tail.skip(j - i + 1) == p.skip(j + 1));
            } else {
                assert(tail.take(j - i) == tail);
            }
        }
        let ghost before = rows(out@);
        let keep = piece.len() > 1 || (piece.len() == 1 && piece[0] != DOT);
        assert(keep == (kept(piece@).len() > 0)) by {
            if piece@.len() == 1 && piece@[0] == DOT {
                assert(piece@ == seq![DOT]);
            }
        }
        let ghost h = piece@;
        if keep {
            out.push(piece);
        }
        assert(rows(out@) =~= before + kept(h));
        if j < n {
            i = j + 1;
            assert(rows(out@) + body_parts(p.skip(i as int)) =~= before + body_parts(tail));
        } else {
            more = false;
            assert(rows(out@) =~= before + body_parts(tail));
        }
    }
    out
}

/// Whether two byte strings are equal.
fn same_bytes(a: &Vec<u8>, b: &Vec<u8>) -> (r: bool)
    ensures
        r == (a@ == b@),
{
    if a.len() != b.len() {
        return false;
    }
    let mut i: usize = 0;
    while i < a.len()
        invariant
            a.len() == b.len(),
            i <= a.len(),
            forall|k: int| 0 <= k < i ==> #[trigger] a@[k] == b@[k],
        decreases a.len() - i,
    {
        if a[i] != b[i] {
            return false;
        }
        i += 1;
    }
    assert(a@ =~= b@);
    true
}

/// How many leading components two lists share.
fn shared_len(a: &Vec<Vec<u8>>, b: &Vec<Vec<u8>>) -> (r: usize)
    ensures
        r <= a.len(),
        r <= b.len(),
        rows(a@).take(r as int) == rows(b@).take(r as int),
        r < a.len() && r < b.len() ==> a@[r as int]@ != b@[r as int]@,
{
    let mut i: usize = 0;
    while i < a.len() && i < b.len()
        invariant
            i <= a.len(),
            i <= b.len(),
            rows(a@).take(i as int) == rows(b@).take(i as int),
        decreases a.len() - i,
    {
        if !same_bytes(&a[i], &b[i]) {
            return i;
        }
        assert(rows(a@).take(i + 1) =~= rows(a@).take(i as int).push(a@[i as int]@));
        assert(rows(b@).take(i + 1) =~= rows(b@).take(i as int).push(b@[i as int]@));
        i += 1;
    }
    i
}

impl Clone for FilePath {
    fn clone(&self) -> (r: FilePath)
        ensures
            r@ == self@,
    {
        let bytes = self.bytes.clone();
        assert(bytes@ =~= self.bytes@);
        FilePath { bytes }
    }
}

impl PartialEq for FilePath {
    fn eq(&self, other: &FilePath) -> (r: bool) {
        let a = self.parts();
        let b = other.parts();
        let n = shared_len(&a, &b);
        assert(rows(a@).len() == a.len() && rows(b@).len() == b.len());
        if n == a.len() && n == b.len() {
            assert(rows(a@).take(n as int) =~= rows(a@));
            assert(rows(b@).take(n as int) =~= rows(b@));
            true
        } else {
            assert(parts(self@) != parts(other@)) by {
                if n < a.len() && n < b.len() {
                    assert(rows(a@)[n as int] != rows(b@)[n as int]);
                }
            }
            false
        }
    }
}

impl vstd::std_specs::cmp::PartialEqSpecImpl for FilePath {
    open spec fn obeys_eq_spec() -> bool {
        true
    }

    open spec fn eq_spec(&self, other: &FilePath) -> bool {
        same_path(self@, other@)
    }
}

impl Eq for FilePath {

}

impl FilePath {
    /// Whether this path is `base` or lies under it.
    pub fn starts_with(&self, base: &FilePath) -> (r: bool)
        ensures
            r == under(self@, base@),
    {
        let a = self.parts();
        let b = base.parts();
        let n = shared_len(&a, &b);
        assert(rows(a@).len() == a.len() && rows(b@).len() == b.len());
        if n == b.len() {
            assert(rows(b@).take(n as int) =~= rows(b@));
            assert(rows(b@).is_prefix_of(rows(a@)));
            true
        } else {
            assert(!rows(b@).is_prefix_of(rows(a@))) by {
                if n < a.len() {
                    assert(rows(a@)[n as int] != rows(b@)[n as int]);
                }
            }
            false
        }
    }

    /// Whether this is the same path as `other`.
    pub fn same_as(&self, other: &FilePath) -> (r: bool)
        ensures
            r == same_path(self@, other@),
    {
        self.eq(other)
    }

    /// Whether this path is spelled as `other` is.
    pub fn same_bytes_as(&self, other: &FilePath) -> (r: bool)
        ensures
            r == (self@ == other@),
    {
        same_bytes(&self.bytes, &other.bytes)
    }

    /// `tail` taken relative to this path.
    pub fn join(&self, tail: &FilePath) -> (r: FilePath)
        ensures
            r@ == joined(self@, tail@),
    {
        if tail.bytes.len() > 0 && tail.bytes[0] == SLASH {
            return tail.clone();
        }
        let mut out = self.clone();
        if out.bytes.len() > 0 && out.bytes[out.bytes.len() - 1] != SLASH {
            out.bytes.push(SLASH);
        }
        let mut rest = tail.clone();
        out.bytes.append(&mut rest.bytes);
        out
    }

    /// The last component, when it is a name.
    pub fn file_name(&self) -> (r: Option<FilePath>)
        ensures
            match (r, name_of(self@)) {
                (Some(f), Some(n)) => f@ == n,
                (None, None) => true,
                _ => false,
            },
    {
        let mut a = self.parts();
        let ghost all = rows(a@);
        match a.pop() {
            None => None,
            Some(last) => {
                assert(all.last() == last@);
                let single = last.len() == 1 && (last[0] == SLASH || last[0] == DOT);
                let double = last.len() == 2 && last[0] == DOT && last[1] == DOT;
                assert(is_name(last@) == (!single && !double)) by {
                    if last@.len() == 1 {
                        assert(last@ =~= seq![last@[0]]);
                    }
                    if last@.len() == 2 {
                        assert(last@ =~= seq![last@[0], last@[1]]);
                    }
                }
                if single || double {
                    None
                } else {
                    Some(FilePath { bytes: last })
                }
            },
        }
    }
}

/// What one more byte does to the components: nothing, a new last one, or a longer last one.
proof fn body_step(p: Seq<u8>)
    requires
        p.len() > 0,
    ensures
        ({
            let a = body_parts(p.drop_last());
            let b = body_parts(p);
            ||| a == b
            ||| b.len() > 0 && a == b.drop_last()
            ||| b.len() > 0 && a.len() == b.len() && a.drop_last() == b.drop_last()
        }),
        body_parts(p).len() > 0 ==> body_parts(p).last() != seq![SLASH],
    decreases p.len(),
{
    let q = p.drop_last();
    let n = head_len(p) as int;
    head_len_bound(p);
    if n == p.len() {
        assert forall|i: int| 0 <= i < q.len() implies #[trigger] q[i] != SLASH by {
            assert(p[i] != SLASH);
        }
        head_len_is(q, q.len() as int);
        assert(kept(q) =~~= kept(p) || kept(q) =~~= Seq::<Seq<u8>>::empty() || kept(q) =~~= seq![q]);
        if kept(p).len() > 0 {
            assert(kept(p).drop_last() =~= Seq::<Seq<u8>>::empty());
            assert(p[0] != SLASH);
            assert(kept(p).last() == p);
            assert(seq![SLASH][0] == SLASH);
        }
        if kept(q).len() > 0 {
            assert(kept(q).drop_last() =~= Seq::<Seq<u8>>::empty());
            assert(q[0] == p[0]);
            if kept(p).len() == 0 {
                assert(p == seq![DOT]);
                assert(q.len() == 0);
            }
        }
        if kept(q).len() == 0 && kept(p).len() > 0 {
            assert(kept(q) =~= kept(p).drop_last());
        }
    } else {
        let head = p.take(n);
        let rest = p.skip(n + 1);
        assert forall|i: int| 0 <= i < n implies #[trigger] q[i] != SLASH by {
            assert(p[i] != SLASH);
        }
        if n < q.len() {
            assert(q[n] == p[n]);
        }
        head_len_is(q, n);
        assert(kept(head).len() > 0 ==> kept(head).last() != seq![SLASH]) by {
            if kept(head).len() > 0 {
                assert(head[0] == p[0]);
                assert(seq![SLASH][0] == SLASH);
            }
        }
        if n == q.len() {
            assert(head == q);
            assert(rest.len() == 0);
            assert(head_len(rest) == 0);
            assert(body_parts(rest) =~= Seq::<Seq<u8>>::empty());
            assert(body_parts(p) =~= body_parts(q));
        } else {
            assert(q.take(n) == head);
            assert(q.skip(n + 1) == rest.drop_last());
            body_step(rest);
            let a = body_parts(rest.drop_last());
            let b = body_parts(rest);
            if b.len() > 0 {
                assert((kept(head) + b).drop_last() =~= kept(head) + b.drop_last());
                assert((kept(head) + b).last() == b.last());
            } else {
                assert(kept(head) + b =~= kept(head));
            }
            if a.len() > 0 {
                assert((kept(head) + a).drop_last() =~= kept(head) + a.drop_last());
            }
        }
    }
}

/// Some prefix of a path has all its components but the last.
proof fn parent_exists(p: Seq<u8>) -> (k: int)
    requires
        has_parent(p),
    ensures
        0 <= k <= p.len(),
        parts(p.take(k)) == parts(p).drop_last(),
    decreases p.len(),
{
    let q = p.drop_last();
    body_step(p);
    let target = parts(p).drop_last();
    if body_parts(p).len() == 0 {
        // Only a leading `.`: the empty path is left.
        assert(parts(p) =~= lead_parts(p));
        assert(target =~= Seq::<Seq<u8>>::empty());
        let e = p.take(0);
        assert(head_len(e) == 0);
        assert(parts(e) =~= target);
        0
    } else {
        assert(target =~= lead_parts(p) + body_parts(p).drop_last());
        if lead_parts(q) == lead_parts(p) {
            assert(p.take(p.len() - 1) == q);
            if body_parts(q) == body_parts(p).drop_last() {
                p.len() - 1
            } else {
                assert(parts(q).drop_last() =~= target);
                if body_parts(q) == body_parts(p) {
                } else {
                    assert(body_parts(q).len() > 0);
                }
                if q.len() > 0 {
                    body_step(q);
                }
                assert(parts(q).last() == body_parts(q).last());
                let k = parent_exists(q);
                assert(q.take(k) == p.take(k));
                k
            }
        } else {
            // The byte dropped turned the lead: `/`, `.x` or `./` at the very start.
            assert(p.len() <= 2);
            head_len_bound(p);
            if p.len() == 1 {
                assert(p =~= seq![p[0]]);
                assert(p[0] == SLASH || p[0] == DOT);
                if p[0] == SLASH {
                    let r = p.skip(1);
                    assert(head_len(p) == 0);
                    assert(head_len(r) == 0);
                    assert(body_parts(r) =~= Seq::<Seq<u8>>::empty());
                    assert(body_parts(p) =~= Seq::<Seq<u8>>::empty());
                } else {
                    head_len_is(p, 1);
                    assert(body_parts(p) =~= Seq::<Seq<u8>>::empty());
                }
                0
            } else {
                assert(p[0] == DOT && p[1] != SLASH);
                head_len_is(p, 2);
                assert(body_parts(p) == seq![p]);
                assert(target =~= Seq::<Seq<u8>>::empty());
                let e = p.take(0);
                assert(head_len(e) == 0);
                assert(parts(e) =~= target);
                0
            }
        }
    }
}

impl FilePath {
    /// The path up to its last component but one; `None` for the root and the empty path.
    pub fn parent(&self) -> (r: Option<FilePath>)
        ensures
            r is Some <==> has_parent(self@),
            r matches Some(d) ==> is_parent(d@, self@),
    {
        let mut target = self.parts();
        let ghost all = rows(target@);
        let last = match target.pop() {
            None => {
                return None;
            },
            Some(last) => last,
        };
        assert(all.last() == last@);
        assert(rows(target@) =~= all.drop_last());
        if last.len() == 1 && last[0] == SLASH {
            assert(last@ =~= seq![SLASH]);
            return None;
        }
        assert(last@ != seq![SLASH]) by {
            assert(seq![SLASH].len() == 1 && seq![SLASH][0] == SLASH);
        }
        let ghost goal = parent_exists(self@);
        let mut k: usize = 0;
        let mut dir: Vec<u8> = Vec::new();
        loop
            invariant
                k <= goal <= self@.len(),
                parts(self@.take(goal)) == rows(target@),
                rows(target@) == parts(self@).drop_last(),
                dir@ == self@.take(k as int),
                forall|j: int| 0 <= j < k ==> parts(#[trigger] self@.take(j)) != rows(target@),
            ensures
                parts(dir@) == rows(target@),
                dir@ == self@.take(k as int),
                k <= self@.len(),
                forall|j: int| 0 <= j < k ==> parts(#[trigger] self@.take(j)) != rows(target@),
            decreases goal - k,
        {
            let here = parts_of(&dir);
            let n = shared_len(&here, &target);
            assert(rows(here@).len() == here.len() && rows(target@).len() == target.len());
            if n == here.len() && n == target.len() {
                assert(rows(here@).take(n as int) =~= rows(here@));
                assert(rows(target@).take(n as int) =~= rows(target@));
                break;
            }
            assert(rows(here@) != rows(target@)) by {
                if n < here.len() && n < target.len() {
                    assert(rows(here@)[n as int] != rows(target@)[n as int]);
                }
            }
            assert(k < self.bytes.len());
            dir.push(self.bytes[k]);
            k += 1;
        }
        Some(FilePath { bytes: dir })
    }
}

/// Lexicographic order on byte strings.
pub open spec fn bytes_less(a: Seq<u8>, b: Seq<u8>) -> bool
    decreases a.len(),
{
    if a.len() == 0 || b.len() == 0 {
        a.len() < b.len()
    } else if a[0] != b[0] {
        a[0] < b[0]
    } else {
        bytes_less(a.drop_first(), b.drop_first())
    }
}

/// The root comes before `.`, that before `..`, and that before names.
pub open spec fn part_rank(a: Seq<u8>) -> nat {
    if a == seq![SLASH] {
        0
    } else if a == seq![DOT] {
        1
    } else if a == seq![DOT, DOT] {
        2
    } else {
        3
    }
}

/// Order on components: by kind, names among themselves by their bytes.
pub open spec fn part_less(a: Seq<u8>, b: Seq<u8>) -> bool {
    part_rank(a) < part_rank(b) || (part_rank(a) == part_rank(b) && bytes_less(a, b))
}

/// Lexicographic order on component lists.
pub open spec fn parts_less(a: Seq<Seq<u8>>, b: Seq<Seq<u8>>) -> bool
    decreases a.len(),
{
    if a.len() == 0 || b.len() == 0 {
        a.len() < b.len()
    } else if a[0] != b[0] {
        part_less(a[0], b[0])
    } else {
        parts_less(a.drop_first(), b.drop_first())
    }
}

/// Order on paths, component by component.
pub open spec fn path_less(a: Seq<u8>, b: Seq<u8>) -> bool {
    parts_less(parts(a), parts(b))
}

proof fn bytes_less_order(a: Seq<u8>, b: Seq<u8>, c: Seq<u8>)
    ensures
        !bytes_less(a, a),
        a != b ==> bytes_less(a, b) || bytes_less(b, a),
        bytes_less(a, b) && bytes_less(b, c) ==> bytes_less(a, c),
    decreases a.len() + b.len() + c.len(),
{
    if a.len() > 0 {
        bytes_less_order(a.drop_first(), Seq::empty(), Seq::empty());
    }
    if a.len() > 0 && b.len() > 0 && a[0] == b[0] {
        bytes_less_order(a.drop_first(), b.drop_first(), Seq::empty());
        if a.drop_first() == b.drop_first() {
            assert(a =~= seq![a[0]] + a.drop_first());
            assert(b =~= seq![b[0]] + b.drop_first());
        }
        if c.len() > 0 {
            bytes_less_order(a.drop_first(), b.drop_first(), c.drop_first());
        }
    }
    if a.len() == 0 && b.len() == 0 {
        assert(a =~= b);
    }
}

proof fn parts_less_order(a: Seq<Seq<u8>>, b: Seq<Seq<u8>>, c: Seq<Seq<u8>>)
    ensures
        !parts_less(a, a),
        a != b ==> parts_less(a, b) || parts_less(b, a),
        parts_less(a, b) && parts_less(b, c) ==> parts_less(a, c),
    decreases a.len() + b.len() + c.len(),
{
    if a.len() > 0 {
        parts_less_order(a.drop_first(), Seq::empty(), Seq::empty());
    }
    if a.len() > 0 && b.len() > 0 {
        bytes_less_order(a[0], b[0], if c.len() > 0 { c[0] } else { a[0] });
        bytes_less_order(b[0], a[0], b[0]);
        if a[0] == b[0] {
            parts_less_order(a.drop_first(), b.drop_first(), Seq::empty());
            if a.drop_first() == b.drop_first() {
                assert(a =~= seq![a[0]] + a.drop_first());
                assert(b =~= seq![b[0]] + b.drop_first());
            }
            if c.len() > 0 {
                parts_less_order(a.drop_first(), b.drop_first(), c.drop_first());
            }
        }
        if c.len() > 0 {
            bytes_less_order(b[0], c[0], a[0]);
        }
    }
    if a.len() == 0 && b.len() == 0 {
        assert(a =~= b);
    }
}

/// Paths are totally ordered, and two paths that neither precedes are the same path.
pub proof fn path_order_is_total(a: Seq<u8>, b: Seq<u8>, c: Seq<u8>)
    ensures
        !path_less(a, a),
        same_path(a, b) || path_less(a, b) || path_less(b, a),
        path_less(a, b) && path_less(b, c) ==> path_less(a, c),
{
    parts_less_order(parts(a), parts(b), parts(c));
}

fn before_bytes(a: &Vec<u8>, b: &Vec<u8>) -> (r: bool)
    ensures
        r == bytes_less(a@, b@),
{
    let mut i: usize = 0;
    assert(a@.skip(0) == a@ && b@.skip(0) == b@);
    while i < a.len() && i < b.len() && a[i] == b[i]
        invariant
            i <= a.len(),
            i <= b.len(),
            bytes_less(a@, b@) == bytes_less(a@.skip(i as int), b@.skip(i as int)),
        decreases a.len() - i,
    {
        assert(a@.skip(i as int).drop_first() == a@.skip(i + 1));
        assert(b@.skip(i as int).drop_first() == b@.skip(i + 1));
        i += 1;
    }
    if i < a.len() && i < b.len() {
        assert(a@.skip(i as int)[0] == a@[i as int] && b@.skip(i as int)[0] == b@[i as int]);
        a[i] < b[i]
    } else {
        a.len() < b.len()
    }
}

fn rank(a: &Vec<u8>) -> (r: u8)
    ensures
        r == part_rank(a@),
{
    if a.len() == 1 {
        assert(a@ =~= seq![a@[0]]);
        if a[0] == SLASH {
            return 0;
        }
        if a[0] == DOT {
            return 1;
        }
    } else if a.len() == 2 {
        assert(a@ =~= seq![a@[0], a@[1]]);
        if a[0] == DOT && a[1] == DOT {
            return 2;
        }
    }
    3
}

impl FilePath {
    /// Whether this path comes before `other`.
    pub fn precedes(&self, other: &FilePath) -> (r: bool)
        ensures
            r == path_less(self@, other@),
    {
        let a = self.parts();
        let b = other.parts();
        let mut i: usize = 0;
        let ghost x = rows(a@);
        let ghost y = rows(b@);
        assert(x.skip(0) == x && y.skip(0) == y);
        while i < a.len() && i < b.len()
            invariant
                x == rows(a@),
                y == rows(b@),
                x == parts(self@),
                y == parts(other@),
                i <= a.len(),
                i <= b.len(),
                parts_less(x, y) == parts_less(x.skip(i as int), y.skip(i as int)),
            decreases a.len() - i,
        {
            assert(x.skip(i as int)[0] == a@[i as int]@ && y.skip(i as int)[0] == b@[i as int]@);
            if !same_bytes(&a[i], &b[i]) {
                let ra = rank(&a[i]);
                let rb = rank(&b[i]);
                return ra < rb || (ra == rb && before_bytes(&a[i], &b[i]));
            }
            assert(x.skip(i as int).drop_first() == x.skip(i + 1));
            assert(y.skip(i as int).drop_first() == y.skip(i + 1));
            i += 1;
        }
        a.len() < b.len()
    }
}

/// Bytes shown as text, with every malformed part replaced.
pub uninterp spec fn lossy_text(bytes: Seq<u8>) -> Seq<char>;

/// How a byte string is shown: its text, where it is well-formed UTF-8.
pub open spec fn shown(bytes: Seq<u8>) -> Seq<char> {
    if valid_utf8(bytes) {
        decode_utf8(bytes)
    } else {
        lossy_text(bytes)
    }
}

/// Calls `String::from_utf8_lossy`: well-formed input comes back as its own
/// text; for any other input the result is a fixed function of the bytes.
#[verifier::external_body]
fn text_of_bytes(bytes: &Vec<u8>) -> (r: String)
    ensures
        valid_utf8(bytes@) ==> r@ == decode_utf8(bytes@),
        !valid_utf8(bytes@) ==> r@ == lossy_text(bytes@),
{
    String::from_utf8_lossy(bytes).into_owned()
}

impl FilePath {
    /// The path as text for people to read.
    pub fn display(&self) -> (r: String)
        ensures
            r@ == shown(self@),
    {
        text_of_bytes(&self.bytes)
    }
}

/// A path spelled by a text is shown as that text.
pub proof fn spelled_path_is_shown_unchanged(text: Seq<char>)
    ensures
        shown(encode_utf8(text)) == text,
{
    encode_utf8_valid_utf8(text);
    encode_utf8_decode_utf8(text);
}

proof fn body_concat(a: Seq<u8>, b: Seq<u8>)
    ensures
        body_parts(a.push(SLASH) + b) == body_parts(a) + body_parts(b),
    decreases a.len(),
{
    let w = a.push(SLASH) + b;
    let n = head_len(a) as int;
    head_len_bound(a);
    assert forall|i: int| 0 <= i < n implies #[trigger] w[i] != SLASH by {
        assert(w[i] == a[i]);
    }
    if n < a.len() {
        assert(w[n] == a[n]);
        head_len_is(w, n);
        assert(w.take(n) =~= a.take(n));
        assert(w.skip(n + 1) =~= a.skip(n + 1).push(SLASH) + b);
        body_concat(a.skip(n + 1), b);
        assert(body_parts(w) =~= body_parts(a) + body_parts(b));
    } else {
        assert(w[n] == SLASH);
        head_len_is(w, n);
        assert(w.take(n) =~= a);
        assert(w.skip(n + 1) =~= b);
    }
}

/// Joining a name onto a path adds that one component.
pub proof fn joined_name_is_child(p: Seq<u8>, name: Seq<u8>)
    requires
        name.len() > 0,
        forall|i: int| 0 <= i < name.len() ==> #[trigger] name[i] != SLASH,
        is_name(name),
    ensures
        parts(joined(p, name)) == parts(p).push(name),
        name_of(joined(p, name)) == Some(name),
        under(joined(p, name), p),
        !same_path(joined(p, name), p),
{
    let j = joined(p, name);
    assert(name[0] != SLASH);
    head_len_is(name, name.len() as int);
    assert(body_parts(name) == seq![name]);
    if p.len() == 0 {
        assert(j =~= name);
        assert(body_parts(p) =~= Seq::<Seq<u8>>::empty());
        if name.len() == 1 {
            assert(name =~= seq![name[0]]);
        }
        assert(lead_parts(j) =~= lead_parts(p));
    } else if p.last() == SLASH {
        let q = p.drop_last();
        assert(p =~= q.push(SLASH) + Seq::<u8>::empty());
        assert(j =~= q.push(SLASH) + name);
        body_concat(q, Seq::empty());
        body_concat(q, name);
        assert(body_parts(Seq::<u8>::empty()) =~= Seq::<Seq<u8>>::empty());
        assert(body_parts(p) =~= body_parts(q));
        assert(j[0] == p[0]);
        if p.len() > 1 {
            assert(j[1] == p[1]);
        }
        assert(lead_parts(j) =~~= lead_parts(p));
    } else {
        body_concat(p, name);
        assert(j[0] == p[0]);
        if p.len() > 1 {
            assert(j[1] == p[1]);
        }
        assert(lead_parts(j) =~~= lead_parts(p));
    }
    assert(parts(j) =~= parts(p).push(name));
    assert(parts(j).last() == name);
    assert(parts(p).is_prefix_of(parts(j)));
}

/// A path lies under itself, and what lies under a path lies under all above it.
pub proof fn under_is_an_order(a: Seq<u8>, b: Seq<u8>, c: Seq<u8>)
    ensures
        under(a, a),
        under(a, b) && under(b, c) ==> under(a, c),
        under(a, b) && under(b, a) ==> same_path(a, b),
{
    let (x, y, z) = (parts(a), parts(b), parts(c));
    if y.is_prefix_of(x) && z.is_prefix_of(y) {
        assert(z =~= x.subrange(0, z.len() as int));
    }
    if y.is_prefix_of(x) && x.is_prefix_of(y) {
        assert(x =~= y);
    }
}

proof fn body_has_no_root(p: Seq<u8>, i: int)
    requires
        0 <= i < body_parts(p).len(),
    ensures
        body_parts(p)[i] != seq![SLASH],
        body_parts(p)[i] != seq![DOT],
        body_parts(p)[i].len() > 0,
        forall|k: int| 0 <= k < body_parts(p)[i].len() ==> #[trigger] body_parts(p)[i][k] != SLASH,
    decreases p.len(),
{
    let n = head_len(p) as int;
    head_len_bound(p);
    let head = if n < p.len() {
        p.take(n)
    } else {
        p
    };
    if kept(head).len() > 0 {
        assert forall|k: int| 0 <= k < head.len() implies #[trigger] head[k] != SLASH by {
            assert(head[k] == p[k]);
        }
        assert(head[0] != SLASH);
        assert(seq![SLASH][0] == SLASH);
    }
    if n < p.len() && i >= kept(head).len() {
        body_has_no_root(p.skip(n + 1), i - kept(head).len());
    }
}

/// The root is a component of absolute paths only, and there the first.
pub proof fn relative_has_no_root(p: Seq<u8>)
    requires
        p.len() == 0 || p[0] != SLASH,
    ensures
        forall|i: int| 0 <= i < parts(p).len() ==> #[trigger] parts(p)[i] != seq![SLASH],
{
    assert(seq![DOT][0] != seq![SLASH][0]);
    assert forall|i: int| 0 <= i < parts(p).len() implies #[trigger] parts(p)[i] != seq![SLASH] by {
        if i >= lead_parts(p).len() {
            body_has_no_root(p, i - lead_parts(p).len());
        }
    }
}

/// Components hold no separator, and after the first none is the root or `.`.
pub proof fn components_are_pieces(p: Seq<u8>, i: int)
    requires
        0 < i < parts(p).len(),
    ensures
        parts(p)[i].len() > 0,
        parts(p)[i] != seq![DOT],
        forall|k: int| 0 <= k < parts(p)[i].len() ==> #[trigger] parts(p)[i][k] != SLASH,
{
    body_has_no_root(p, i - lead_parts(p).len());
}

proof fn piece_parts(name: Seq<u8>)
    requires
        name.len() > 0,
        name != seq![DOT],
        forall|i: int| 0 <= i < name.len() ==> #[trigger] name[i] != SLASH,
    ensures
        body_parts(name) == seq![name],
        lead_parts(name) == Seq::<Seq<u8>>::empty(),
{
    head_len_is(name, name.len() as int);
    if name.len() == 1 {
        assert(name =~= seq![name[0]]);
    }
}

proof fn nothing_has_no_parts()
    ensures
        parts(Seq::<u8>::empty()) == Seq::<Seq<u8>>::empty(),
        body_parts(Seq::<u8>::empty()) == Seq::<Seq<u8>>::empty(),
{
    let none = Seq::<u8>::empty();
    assert(head_len(none) == 0);
    assert(kept(none) =~= Seq::<Seq<u8>>::empty());
    assert(parts(none) =~= Seq::<Seq<u8>>::empty());
}

/// What stands before a separator has the components before it, what stands behind it
/// the others.
proof fn parts_split(p: Seq<u8>, q: Seq<u8>)
    requires
        p.len() > 0,
    ensures
        parts(p.push(SLASH) + q) == parts(p) + body_parts(q),
{
    let w = p.push(SLASH) + q;
    body_concat(p, q);
    assert(w[0] == p[0]);
    if p.len() > 1 {
        assert(w[1] == p[1]);
    } else {
        assert(w[1] == SLASH);
    }
    assert(lead_parts(w) =~~= lead_parts(p));
    assert(parts(w) =~= parts(p) + body_parts(q));
}

/// A separator and a piece without one add that piece as a component, whatever the piece
/// but `.`; an absolute path joined on stands for itself.
pub proof fn joined_piece_is_one_more(p: Seq<u8>, name: Seq<u8>, absolute: Seq<u8>)
    requires
        name.len() > 0,
        name != seq![DOT],
        forall|i: int| 0 <= i < name.len() ==> #[trigger] name[i] != SLASH,
    ensures
        parts(joined(p, name)) == parts(p).push(name),
        joined(p, seq![SLASH] + absolute) == seq![SLASH] + absolute,
{
    let j = joined(p, name);
    assert(name[0] != SLASH);
    piece_parts(name);
    nothing_has_no_parts();
    assert((seq![SLASH] + absolute)[0] == SLASH);
    if p.len() == 0 {
        assert(p =~= Seq::<u8>::empty());
        assert(j =~= name);
    } else if p.last() != SLASH {
        parts_split(p, name);
    } else if p.len() > 1 {
        let q = p.drop_last();
        assert(j =~= q.push(SLASH) + name);
        assert(p =~= q.push(SLASH) + Seq::<u8>::empty());
        parts_split(q, name);
        parts_split(q, Seq::empty());
        assert(parts(p) =~= parts(q));
    } else {
        let none = Seq::<u8>::empty();
        assert(p =~= none.push(SLASH) + none);
        assert(j =~= none.push(SLASH) + name);
        body_concat(none, none);
        body_concat(none, name);
        assert(body_parts(p) =~= Seq::<Seq<u8>>::empty());
        assert(lead_parts(j) =~~= lead_parts(p));
    }
    assert(parts(j) =~= parts(p).push(name));
}

/// Repeated and trailing separators and `.` components do not count.
pub proof fn redundant_pieces_do_not_count(p: Seq<u8>, q: Seq<u8>)
    requires
        p.len() > 0,
    ensures
        same_path(p.push(SLASH), p),
        same_path(p.push(SLASH).push(SLASH) + q, p.push(SLASH) + q),
        same_path(p.push(SLASH).push(DOT).push(SLASH) + q, p.push(SLASH) + q),
        parts(p.push(SLASH)) == parts(p),
        parts(p.push(SLASH).push(SLASH) + q) == parts(p.push(SLASH) + q),
        parts(p.push(SLASH).push(DOT).push(SLASH) + q) == parts(p.push(SLASH) + q),
{
    let none = Seq::<u8>::empty();
    nothing_has_no_parts();
    assert(p.push(SLASH) =~= p.push(SLASH) + none);
    parts_split(p, none);
    assert(parts(p) + body_parts(none) =~= parts(p));
    parts_split(p, q);
    parts_split(p.push(SLASH), q);
    let dotted = p.push(SLASH).push(DOT);
    let dot = seq![DOT];
    assert(dotted =~= p.push(SLASH) + dot);
    parts_split(p, dot);
    head_len_is(dot, 1);
    assert(body_parts(dot) =~= Seq::<Seq<u8>>::empty());
    assert(parts(dotted) =~= parts(p));
    parts_split(dotted, q);
}

/// The root alone has one component, and the empty path none.
pub proof fn shortest_paths()
    ensures
        parts(seq![SLASH]) == seq![seq![SLASH]],
        parts(Seq::<u8>::empty()).len() == 0,
        name_of(seq![SLASH]) is None,
        !has_parent(seq![SLASH]),
        !has_parent(Seq::<u8>::empty()),
{
    let none = Seq::<u8>::empty();
    nothing_has_no_parts();
    assert(seq![SLASH] =~= none.push(SLASH) + none);
    body_concat(none, none);
    assert(parts(seq![SLASH]) =~= seq![seq![SLASH]]);
}

/// What lies in a directory lies under it, and not the other way round; entries of
/// different names do not lie under each other, however alike the names begin.
pub proof fn siblings_are_apart(p: Seq<u8>, a: Seq<u8>, b: Seq<u8>)
    requires
        a != b,
        a.len() > 0 && a != seq![DOT],
        b.len() > 0 && b != seq![DOT],
        forall|i: int| 0 <= i < a.len() ==> #[trigger] a[i] != SLASH,
        forall|i: int| 0 <= i < b.len() ==> #[trigger] b[i] != SLASH,
    ensures
        under(joined(p, a), p),
        !under(p, joined(p, a)),
        !under(joined(p, a), joined(p, b)),
        !same_path(joined(p, a), joined(p, b)),
        !same_path(joined(p, a), p),
{
    joined_piece_is_one_more(p, a, Seq::empty());
    joined_piece_is_one_more(p, b, Seq::empty());
    let (x, y) = (parts(p).push(a), parts(p).push(b));
    assert(parts(p).is_prefix_of(x)) by {
        assert(x.subrange(0, parts(p).len() as int) =~= parts(p));
    }
    assert(x[parts(p).len() as int] != y[parts(p).len() as int]);
}

/// Comparing, joining and taking apart go by components, and only by them.
pub proof fn operations_go_by_components(
    p: FilePath,
    q: FilePath,
    starts: bool,
    same: bool,
    spelled: bool,
    before: bool,
    after: bool,
)
    requires
        call_ensures(FilePath::starts_with, (&p, &q), starts),
        call_ensures(FilePath::same_as, (&p, &q), same),
        call_ensures(FilePath::same_bytes_as, (&p, &q), spelled),
        call_ensures(FilePath::precedes, (&p, &q), before),
        call_ensures(FilePath::precedes, (&q, &p), after),
    ensures
        starts == parts(q@).is_prefix_of(parts(p@)),
        same == (parts(p@) == parts(q@)),
        spelled == (p@ == q@),
        spelled ==> same,
        same ==> starts,
        same <==> !before && !after,
        !(before && after),
{
    path_order_is_total(p@, q@, p@);
    path_order_is_total(q@, p@, q@);
    if parts(p@) == parts(q@) {
        assert(parts(q@).is_prefix_of(parts(p@))) by {
            assert(parts(p@).subrange(0, parts(p@).len() as int) =~= parts(p@));
        }
    }
}

/// An entry of a directory has its own name, and the directory as its parent.
pub proof fn entry_has_name_and_parent(
    dir: Seq<u8>,
    name: Seq<u8>,
    p: FilePath,
    last: Option<FilePath>,
    above: Option<FilePath>,
)
    requires
        name.len() > 0,
        name != seq![DOT] && name != seq![DOT, DOT],
        forall|i: int| 0 <= i < name.len() ==> #[trigger] name[i] != SLASH,
        p@ == joined(dir, name),
        call_ensures(FilePath::file_name, (&p,), last),
        call_ensures(FilePath::parent, (&p,), above),
    ensures
        last matches Some(n) && n@ == name,
        above matches Some(d) && parts(d@) == parts(dir) && d@.is_prefix_of(p@),
{
    joined_piece_is_one_more(dir, name, Seq::empty());
    assert(name != seq![SLASH]) by {
        assert(seq![SLASH][0] == SLASH);
    }
    assert(parts(p@).last() == name);
    assert(parts(p@).drop_last() =~= parts(dir));
}

proof fn bytes_less_at(c: Seq<u8>, a: Seq<u8>, b: Seq<u8>)
    ensures
        bytes_less(c + a, c + b) == bytes_less(a, b),
    decreases c.len(),
{
    if c.len() == 0 {
        assert(c + a =~= a);
        assert(c + b =~= b);
    } else {
        bytes_less_at(c.drop_first(), a, b);
        assert((c + a).drop_first() =~= c.drop_first() + a);
        assert((c + b).drop_first() =~= c.drop_first() + b);
    }
}

proof fn parts_less_at(c: Seq<Seq<u8>>, a: Seq<Seq<u8>>, b: Seq<Seq<u8>>)
    ensures
        parts_less(c + a, c + b) == parts_less(a, b),
    decreases c.len(),
{
    if c.len() == 0 {
        assert(c + a =~= a);
        assert(c + b =~= b);
    } else {
        parts_less_at(c.drop_first(), a, b);
        assert((c + a).drop_first() =~= c.drop_first() + a);
        assert((c + b).drop_first() =~= c.drop_first() + b);
    }
}

/// A directory comes before its entries. Two entries come in the order of the first
/// byte in which their names differ, and a name before the longer ones it begins.
pub proof fn entries_come_by_their_bytes(
    p: Seq<u8>,
    begin: Seq<u8>,
    a: Seq<u8>,
    b: Seq<u8>,
)
    requires
        (begin + a).len() > 0,
        (begin + b).len() > 0,
        is_name(begin + a),
        is_name(begin + b),
        forall|i: int| 0 <= i < (begin + a).len() ==> #[trigger] (begin + a)[i] != SLASH,
        forall|i: int| 0 <= i < (begin + b).len() ==> #[trigger] (begin + b)[i] != SLASH,
    ensures
        path_less(p, joined(p, begin + a)),
        a.len() > 0 && b.len() > 0 && a[0] < b[0] ==> path_less(
            joined(p, begin + a),
            joined(p, begin + b),
        ),
        a.len() == 0 && b.len() > 0 ==> path_less(joined(p, begin + a), joined(p, begin + b)),
{
    let (x, y) = (begin + a, begin + b);
    joined_piece_is_one_more(p, x, Seq::empty());
    joined_piece_is_one_more(p, y, Seq::empty());
    let none = Seq::<Seq<u8>>::empty();
    assert(parts(p) + none =~= parts(p));
    assert(parts(p) + seq![x] =~= parts(p).push(x));
    assert(parts(p) + seq![y] =~= parts(p).push(y));
    parts_less_at(parts(p), none, seq![x]);
    parts_less_at(parts(p), seq![x], seq![y]);
    bytes_less_at(begin, a, b);
    bytes_less_order(x, y, x);
}

/// Components come by their kinds: the root before `.`, that before `..`, and that before
/// names.
pub proof fn special_components_come_first(p: Seq<u8>, q: Seq<u8>)
    requires
        parts(p).len() > 0,
        parts(q).len() > 0,
    ensures
        parts(p)[0] == seq![SLASH] && parts(q)[0] != seq![SLASH] ==> path_less(p, q) && !path_less(
            q,
            p,
        ),
        parts(p)[0] == seq![DOT] && parts(q)[0] != seq![SLASH] && parts(q)[0] != seq![DOT]
            ==> path_less(p, q) && !path_less(q, p),
        parts(p)[0] == seq![DOT, DOT] && parts(q)[0] != seq![SLASH] && parts(q)[0] != seq![DOT]
            && parts(q)[0] != seq![DOT, DOT] ==> path_less(p, q) && !path_less(q, p),
{
    let (one, two) = (seq![DOT], seq![DOT, DOT]);
    assert(one.len() == 1 && two.len() == 2);
    assert(seq![SLASH].len() == 1 && seq![SLASH][0] != one[0]);
}

/// Joining puts one separator between two paths, unless the first ends in one or is
/// empty, and an absolute path stands for itself.
pub proof fn joining_is_spelled_out(p: FilePath, q: FilePath, r: FilePath)
    requires
        call_ensures(FilePath::join, (&p, &q), r),
    ensures
        q@.len() > 0 && q@[0] == SLASH ==> r@ == q@,
        (q@.len() == 0 || q@[0] != SLASH) && p@.len() > 0 && p@.last() != SLASH ==> r@ == p@
            + seq![SLASH] + q@,
        (q@.len() == 0 || q@[0] != SLASH) && p@.len() > 0 && p@.last() == SLASH ==> r@ == p@ + q@,
        (q@.len() == 0 || q@[0] != SLASH) && p@.len() == 0 ==> r@ == q@,
{
    assert(p@.push(SLASH) =~= p@ + seq![SLASH]);
    if p@.len() == 0 {
        assert(p@ + q@ =~= q@);
    }
}

/// Every path has a parent but the root and the empty one: the path without its last
/// component, spelled as it is and without a trailing separator.
pub proof fn parent_is_spelled_as_it_is(p: FilePath, r: Option<FilePath>)
    requires
        call_ensures(FilePath::parent, (&p,), r),
    ensures
        r is None <==> parts(p@).len() == 0 || parts(p@).last() == seq![SLASH],
        r matches Some(d) ==> d@.is_prefix_of(p@) && parts(d@) == parts(p@).drop_last() && (
        d@.len() > 0 ==> parts(d@.drop_last()) != parts(d@)),
{
    if let Some(d) = r {
        if d@.len() > 0 {
            let k = d@.len() - 1;
            assert(p@.take(k) =~= d@.drop_last());
        }
    }
}

} // verus!
