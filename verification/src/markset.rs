//! The marks the daemon has placed, kept in path order, and the dump made of them.

use crate::paths::{parts, path_less, path_order_is_total, same_path, shown, FilePath};
use crate::proto::{ControlRequest, DumpResponse, ObjKind, WatchedObject};
use crate::scan::WatchScan;
use vstd::prelude::*;
use vstd::string::*;

verus! {

/// One placed or attempted mark.
#[derive(Debug, PartialEq, Eq)]
pub struct MarkEntry {
    pub kind: ObjKind,
    /// Whether the covering watch takes in what lies below.
    pub recursive: bool,
    pub watch_root: FilePath,
    /// Whether the mark was placed. If not, there is a gap in coverage.
    pub ok: bool,
}

/// What an entry holds.
pub struct MarkView {
    pub kind: ObjKind,
    pub recursive: bool,
    pub watch_root: Seq<u8>,
    pub ok: bool,
}

impl View for MarkEntry {
    type V = MarkView;

    open spec fn view(&self) -> MarkView {
        MarkView {
            kind: self.kind,
            recursive: self.recursive,
            watch_root: self.watch_root@,
            ok: self.ok,
        }
    }
}

/// Marks in path order, no path twice.
pub open spec fn in_order(s: Seq<(Seq<u8>, MarkView)>) -> bool {
    forall|i: int, j: int|
        0 <= i < j < s.len() ==> path_less((#[trigger] s[i]).0, (#[trigger] s[j]).0)
}

/// `s` with the entry for `path` set. A path already present keeps its spelling.
pub open spec fn recorded(s: Seq<(Seq<u8>, MarkView)>, path: Seq<u8>, e: MarkView) -> Seq<
    (Seq<u8>, MarkView),
>
    decreases s.len(),
{
    if s.len() == 0 {
        seq![(path, e)]
    } else if same_path(s[0].0, path) {
        s.update(0, (s[0].0, e))
    } else if path_less(path, s[0].0) {
        seq![(path, e)] + s
    } else {
        seq![s[0]] + recorded(s.drop_first(), path, e)
    }
}

/// The entry for a path, where there is one.
pub open spec fn lookup(s: Seq<(Seq<u8>, MarkView)>, path: Seq<u8>) -> Option<MarkView>
    decreases s.len(),
{
    if s.len() == 0 {
        None
    } else if same_path(s[0].0, path) {
        Some(s[0].1)
    } else {
        lookup(s.drop_first(), path)
    }
}

/// The placed marks, by path.
#[derive(Debug)]
pub struct MarkSet {
    entries: Vec<(FilePath, MarkEntry)>,
}

/// What a list of marks holds.
pub open spec fn mark_views(v: Seq<(FilePath, MarkEntry)>) -> Seq<(Seq<u8>, MarkView)> {
    v.map_values(|e: (FilePath, MarkEntry)| (e.0@, e.1@))
}

impl View for MarkSet {
    type V = Seq<(Seq<u8>, MarkView)>;

    closed spec fn view(&self) -> Seq<(Seq<u8>, MarkView)> {
        mark_views(self.entries@)
    }
}

/// The front of an ordered list carries over.
proof fn recorded_past(s: Seq<(Seq<u8>, MarkView)>, k: int, path: Seq<u8>, e: MarkView)
    requires
        0 <= k <= s.len(),
        forall|i: int|
            0 <= i < k ==> !same_path((#[trigger] s[i]).0, path) && !path_less(path, s[i].0),
    ensures
        recorded(s, path, e) == s.take(k) + recorded(s.skip(k), path, e),
    decreases k,
{
    if k == 0 {
        assert(s.skip(0) =~= s);
        assert(s.take(0) + recorded(s, path, e) =~= recorded(s, path, e));
    } else {
        let rest = s.drop_first();
        assert(!same_path(s[0].0, path) && !path_less(path, s[0].0));
        assert forall|i: int| 0 <= i < k - 1 implies !same_path((#[trigger] rest[i]).0, path)
            && !path_less(path, rest[i].0) by {
            assert(rest[i] == s[i + 1]);
        }
        recorded_past(rest, k - 1, path, e);
        assert(rest.skip(k - 1) =~= s.skip(k));
        assert(s.take(k) =~= seq![s[0]] + rest.take(k - 1));
        assert(seq![s[0]] + (rest.take(k - 1) + recorded(s.skip(k), path, e)) =~= s.take(k)
            + recorded(s.skip(k), path, e));
    }
}

/// Recording keeps the order.
pub proof fn recording_keeps_order(s: Seq<(Seq<u8>, MarkView)>, path: Seq<u8>, e: MarkView)
    requires
        in_order(s),
    ensures
        in_order(recorded(s, path, e)),
        forall|p: Seq<u8>|
            s.len() > 0 && path_less(p, s[0].0) && path_less(p, path) ==> path_less(
                p,
                (#[trigger] recorded(s, path, e)[0]).0,
            ),
        recorded(s, path, e).len() > 0,
    decreases s.len(),
{
    let out = recorded(s, path, e);
    if s.len() == 0 {
    } else if same_path(s[0].0, path) {
        assert forall|i: int, j: int| 0 <= i < j < out.len() implies path_less(
            (#[trigger] out[i]).0,
            (#[trigger] out[j]).0,
        ) by {
            assert(out[i].0 == s[i].0);
            assert(out[j].0 == s[j].0);
        }
    } else if path_less(path, s[0].0) {
        assert forall|i: int, j: int| 0 <= i < j < out.len() implies path_less(
            (#[trigger] out[i]).0,
            (#[trigger] out[j]).0,
        ) by {
            assert(out[j] == s[j - 1]);
            if i == 0 {
                if j > 1 {
                    assert(path_less(s[0].0, s[j - 1].0));
                    path_order_is_total(path, s[0].0, s[j - 1].0);
                }
            } else {
                assert(out[i] == s[i - 1]);
            }
        }
    } else {
        path_order_is_total(path, s[0].0, path);
        let rest = s.drop_first();
        assert(in_order(rest)) by {
            assert forall|i: int, j: int| 0 <= i < j < rest.len() implies path_less(
                (#[trigger] rest[i]).0,
                (#[trigger] rest[j]).0,
            ) by {
                assert(rest[i] == s[i + 1] && rest[j] == s[j + 1]);
            }
        }
        recording_keeps_order(rest, path, e);
        let tail = recorded(rest, path, e);
        assert(path_less(s[0].0, tail[0].0)) by {
            if rest.len() > 0 {
                assert(rest[0] == s[1]);
                assert(path_less(s[0].0, s[1].0));
            }
        }
        assert forall|i: int, j: int| 0 <= i < j < out.len() implies path_less(
            (#[trigger] out[i]).0,
            (#[trigger] out[j]).0,
        ) by {
            assert(out[j] == tail[j - 1]);
            if i == 0 {
                if j > 1 {
                    assert(path_less(tail[0].0, tail[j - 1].0));
                    path_order_is_total(s[0].0, tail[0].0, tail[j - 1].0);
                }
            } else {
                assert(out[i] == tail[i - 1]);
            }
        }
    }
}

proof fn same_path_is_neither(a: Seq<u8>, b: Seq<u8>)
    requires
        same_path(a, b),
    ensures
        !path_less(a, b),
        !path_less(b, a),
{
    path_order_is_total(a, b, a);
}

/// What was recorded last for a path is what is found for it; other paths are untouched.
pub proof fn recording_sets_one_entry(
    s: Seq<(Seq<u8>, MarkView)>,
    path: Seq<u8>,
    e: MarkView,
    other: Seq<u8>,
)
    requires
        in_order(s),
    ensures
        lookup(recorded(s, path, e), other) == (if same_path(path, other) {
            Some(e)
        } else {
            lookup(s, other)
        }),
    decreases s.len(),
{
    let out = recorded(s, path, e);
    if s.len() == 0 {
        assert(out.drop_first() =~= s);
    } else if same_path(s[0].0, path) {
        assert(out.drop_first() =~= s.drop_first());
    } else if path_less(path, s[0].0) {
        assert(out.drop_first() =~= s);
    } else {
        let rest = s.drop_first();
        assert(in_order(rest)) by {
            assert forall|i: int, j: int| 0 <= i < j < rest.len() implies path_less(
                (#[trigger] rest[i]).0,
                (#[trigger] rest[j]).0,
            ) by {
                assert(rest[i] == s[i + 1] && rest[j] == s[j + 1]);
            }
        }
        recording_sets_one_entry(rest, path, e, other);
        assert(out[0] == s[0]);
        assert(out.drop_first() =~= recorded(rest, path, e));
    }
}

impl MarkSet {
    #[verifier::type_invariant]
    spec fn ordered(&self) -> bool {
        in_order(self@)
    }

    /// No marks.
    pub fn new() -> (r: MarkSet)
        ensures
            r@ == Seq::<(Seq<u8>, MarkView)>::empty(),
    {
        MarkSet { entries: Vec::new() }
    }

    /// Drops all marks.
    pub fn clear(&mut self)
        ensures
            final(self)@ == Seq::<(Seq<u8>, MarkView)>::empty(),
    {
        *self = MarkSet::new();
    }

    /// Records the mark for `path`, in place of an earlier one.
    pub fn record(&mut self, path: &FilePath, entry: MarkEntry)
        ensures
            final(self)@ == recorded(old(self)@, path@, entry@),
    {
        proof {
            use_type_invariant(&*self);
        }
        let ghost s = self@;
        let ghost e = entry@;
        let mut list: Vec<(FilePath, MarkEntry)> = Vec::new();
        std::mem::swap(&mut list, &mut self.entries);
        assert(mark_views(list@) == s);
        let mut k: usize = 0;
        while k < list.len() && list[k].0.precedes(path)
            invariant
                k <= list@.len(),
                mark_views(list@) == s,
                forall|i: int| 0 <= i < k ==> path_less((#[trigger] s[i]).0, path@),
            ensures
                k < list@.len() ==> !path_less(s[k as int].0, path@),
            decreases list@.len() - k,
        {
            assert(s[k as int].0 == list@[k as int].0@);
            k += 1;
        }
        proof {
            if k < list@.len() {
                assert(s[k as int].0 == list@[k as int].0@);
            }
            assert forall|i: int| 0 <= i < k implies !same_path((#[trigger] s[i]).0, path@)
                && !path_less(path@, s[i].0) by {
                path_order_is_total(s[i].0, path@, s[i].0);
                if same_path(s[i].0, path@) {
                    same_path_is_neither(s[i].0, path@);
                }
            }
            recorded_past(s, k as int, path@, e);
            recording_keeps_order(s, path@, e);
            if k < list@.len() {
                path_order_is_total(s[k as int].0, path@, s[k as int].0);
                assert(s.skip(k as int)[0] == s[k as int]);
            }
        }
        if k < list.len() && list[k].0.same_as(path) {
            let (spelled, _) = list.remove(k);
            list.insert(k, (spelled, entry));
            assert(mark_views(list@) =~= s.take(k as int) + s.skip(k as int).update(
                0,
                (s[k as int].0, e),
            ));
        } else {
            list.insert(k, (path.clone(), entry));
            assert(mark_views(list@) =~= s.take(k as int) + (seq![(path@, e)] + s.skip(k as int)));
            assert(k == s.len() ==> s.skip(k as int) =~= Seq::<(Seq<u8>, MarkView)>::empty());
            assert(mark_views(list@) =~= recorded(s, path@, e));
        }
        self.entries = list;
    }
}

/// How an entry reads in a dump; whether a directory is watched comes from outside.
pub open spec fn dumped(o: WatchedObject, m: (Seq<u8>, MarkView)) -> bool {
    &&& o.path@ == shown(m.0)
    &&& o.kind == m.1.kind
    &&& o.recursive == m.1.recursive
    &&& o.watch@ == shown(m.1.watch_root)
    &&& o.fanotify == m.1.ok
    &&& o.live_marked is Some <==> m.1.kind == ObjKind::Dir
}

/// Whether `live` is an answer of `is_watching` for the path with these bytes.
pub open spec fn answered<F: Fn(&FilePath) -> bool>(
    is_watching: F,
    path: Seq<u8>,
    live: bool,
) -> bool {
    exists|p: FilePath| p@ == path && #[trigger] call_ensures(is_watching, (&p,), live)
}

/// The dump: one object per mark, in path order. `is_watching` is asked for
/// directories only.
pub fn build_dump(marks: &MarkSet, is_watching: impl Fn(&FilePath) -> bool) -> (r: Vec<
    WatchedObject,
>)
    requires
        forall|p: &FilePath| #[trigger] call_requires(is_watching, (p,)),
    ensures
        in_order(marks@),
        r@.len() == marks@.len(),
        forall|i: int| 0 <= i < r@.len() ==> dumped(#[trigger] r@[i], marks@[i]),
        forall|i: int|
            0 <= i < r@.len() ==> ((#[trigger] r@[i]).live_marked matches Some(live) ==> answered(
                is_watching,
                marks@[i].0,
                live,
            )),
{
    proof {
        use_type_invariant(marks);
    }
    let mut out: Vec<WatchedObject> = Vec::new();
    let mut i: usize = 0;
    while i < marks.entries.len()
        invariant
            i <= marks.entries@.len(),
            out@.len() == i,
            forall|p: &FilePath| #[trigger] call_requires(is_watching, (p,)),
            forall|j: int| 0 <= j < i ==> dumped(#[trigger] out@[j], marks@[j]),
            forall|j: int|
                0 <= j < i ==> ((#[trigger] out@[j]).live_marked matches Some(live) ==> answered(
                    is_watching,
                    marks@[j].0,
                    live,
                )),
        decreases marks.entries@.len() - i,
    {
        let path = &marks.entries[i].0;
        let e = &marks.entries[i].1;
        assert(marks@[i as int] == (path@, e@));
        let live_marked = match e.kind {
            ObjKind::Dir => {
                let live = is_watching(path);
                assert(answered(is_watching, marks@[i as int].0, live)) by {
                    assert(call_ensures(is_watching, (path,), live));
                }
                Some(live)
            },
            ObjKind::File => None,
        };
        out.push(
            WatchedObject {
                path: path.display(),
                kind: e.kind,
                recursive: e.recursive,
                watch: e.watch_root.display(),
                fanotify: e.ok,
                live_marked,
            },
        );
        i += 1;
    }
    out
}

/// The reply to a control client, made at `now`.
pub fn control_reply(
    req: ControlRequest,
    pid: u32,
    now: u64,
    marks: &MarkSet,
    is_watching: impl Fn(&FilePath) -> bool,
) -> (r: DumpResponse)
    requires
        forall|p: &FilePath| #[trigger] call_requires(is_watching, (p,)),
    ensures
        r.pid == pid,
        r.generated_unix == now,
        in_order(marks@),
        r.objects@.len() == marks@.len(),
        forall|i: int| 0 <= i < r.objects@.len() ==> dumped(#[trigger] r.objects@[i], marks@[i]),
        forall|i: int|
            0 <= i < r.objects@.len() ==> ((#[trigger] r.objects@[i]).live_marked matches Some(live)
                ==> answered(is_watching, marks@[i].0, live)),
{
    match req {
        ControlRequest::Dump => DumpResponse {
            pid,
            generated_unix: now,
            objects: build_dump(marks, is_watching),
        },
    }
}

/// The marks attempted for one watch: what its root came to, and how each went.
pub struct WatchMarks {
    pub root: FilePath,
    pub scan: WatchScan,
    /// Whether the mark was placed, one for each path of the scan.
    pub ok: Vec<bool>,
}

impl WatchMarks {
    /// The paths of the scan, in order.
    pub open spec fn paths(&self) -> Seq<Seq<u8>> {
        match self.scan {
            WatchScan::Unresolved => Seq::empty(),
            WatchScan::File(p) => seq![p@],
            WatchScan::Dir(dirs) => crate::scan::path_views(dirs@),
        }
    }

    /// One outcome for each path.
    pub open spec fn wf(&self) -> bool {
        self.ok@.len() == self.paths().len()
    }

    /// The entry for path `i`. A single file takes in nothing below it.
    pub open spec fn entry(&self, i: int) -> MarkView {
        MarkView {
            kind: if self.scan is Dir {
                ObjKind::Dir
            } else {
                ObjKind::File
            },
            recursive: self.scan is Dir,
            watch_root: self.root@,
            ok: self.ok@[i],
        }
    }
}

/// `s` with the first `k` marks of a watch recorded.
pub open spec fn with_marks(s: Seq<(Seq<u8>, MarkView)>, w: WatchMarks, k: int) -> Seq<
    (Seq<u8>, MarkView),
>
    decreases k,
{
    if k <= 0 {
        s
    } else {
        recorded(with_marks(s, w, k - 1), w.paths()[k - 1], w.entry(k - 1))
    }
}

/// How many of the first `k` outcomes are good.
pub open spec fn placed(ok: Seq<bool>, k: int) -> nat
    decreases k,
{
    if k <= 0 {
        0
    } else {
        placed(ok, k - 1) + (if ok[k - 1] {
            1nat
        } else {
            0
        })
    }
}

/// The marks of all watches, recorded in order.
pub open spec fn all_marks(ws: Seq<WatchMarks>) -> Seq<(Seq<u8>, MarkView)>
    decreases ws.len(),
{
    if ws.len() == 0 {
        Seq::empty()
    } else {
        with_marks(all_marks(ws.drop_last()), ws.last(), ws.last().ok@.len() as int)
    }
}

/// How many marks were placed for all watches.
pub open spec fn all_placed(ws: Seq<WatchMarks>) -> nat
    decreases ws.len(),
{
    if ws.len() == 0 {
        0
    } else {
        all_placed(ws.drop_last()) + placed(ws.last().ok@, ws.last().ok@.len() as int)
    }
}

impl MarkSet {
    /// Records the marks attempted for one watch; returns how many were placed.
    pub fn record_watch(&mut self, w: &WatchMarks) -> (n: usize)
        requires
            w.wf(),
        ensures
            final(self)@ == with_marks(old(self)@, *w, w.ok@.len() as int),
            n == placed(w.ok@, w.ok@.len() as int),
    {
        let ghost s = self@;
        let mut n: usize = 0;
        let mut i: usize = 0;
        while i < w.ok.len()
            invariant
                w.wf(),
                i <= w.ok@.len(),
                n <= i,
                n == placed(w.ok@, i as int),
                self@ == with_marks(s, *w, i as int),
            decreases w.ok@.len() - i,
        {
            let (path, kind, recursive) = match &w.scan {
                WatchScan::File(p) => (p, ObjKind::File, false),
                WatchScan::Dir(dirs) => (&dirs[i], ObjKind::Dir, true),
                WatchScan::Unresolved => {
                    return n;
                },
            };
            let entry = MarkEntry { kind, recursive, watch_root: w.root.clone(), ok: w.ok[i] };
            assert(entry@ == w.entry(i as int));
            assert(path@ == w.paths()[i as int]);
            self.record(path, entry);
            if w.ok[i] {
                n += 1;
            }
            i += 1;
        }
        n
    }

    /// Starts over with the marks of all watches; returns how many were placed.
    pub fn rebuild(&mut self, watches: &Vec<WatchMarks>) -> (n: u128)
        requires
            forall|i: int| 0 <= i < watches@.len() ==> (#[trigger] watches@[i]).wf(),
        ensures
            final(self)@ == all_marks(watches@),
            n == all_placed(watches@),
    {
        self.clear();
        let mut n: u128 = 0;
        let mut i: usize = 0;
        while i < watches.len()
            invariant
                forall|j: int| 0 <= j < watches@.len() ==> (#[trigger] watches@[j]).wf(),
                i <= watches@.len(),
                self@ == all_marks(watches@.take(i as int)),
                n == all_placed(watches@.take(i as int)),
                n <= i * 0xffff_ffff_ffff_ffff,
            decreases watches@.len() - i,
        {
            let here = self.record_watch(&watches[i]);
            assert(watches@.take(i + 1).drop_last() =~= watches@.take(i as int));
            assert(watches@.take(i + 1).last() == watches@[i as int]);
            n += here as u128;
            i += 1;
        }
        assert(watches@.take(i as int) =~= watches@);
        n
    }
}

proof fn with_marks_order(s: Seq<(Seq<u8>, MarkView)>, w: WatchMarks, k: int)
    requires
        in_order(s),
    ensures
        in_order(with_marks(s, w, k)),
    decreases k,
{
    if k > 0 {
        with_marks_order(s, w, k - 1);
        recording_keeps_order(with_marks(s, w, k - 1), w.paths()[k - 1], w.entry(k - 1));
    }
}

/// Once a watch is recorded, every path of it has an entry that says how the last
/// attempt on that path went: a failed mark shows as a gap and is never silent.
pub proof fn every_attempt_is_recorded(s: Seq<(Seq<u8>, MarkView)>, w: WatchMarks, k: int, i: int)
    requires
        in_order(s),
        w.wf(),
        0 <= i < k <= w.ok@.len(),
        forall|j: int| i < j < k ==> !same_path(#[trigger] w.paths()[j], w.paths()[i]),
    ensures
        lookup(with_marks(s, w, k), w.paths()[i]) == Some(w.entry(i)),
    decreases k,
{
    with_marks_order(s, w, k - 1);
    recording_sets_one_entry(
        with_marks(s, w, k - 1),
        w.paths()[k - 1],
        w.entry(k - 1),
        w.paths()[i],
    );
    if i < k - 1 {
        assert(!same_path(w.paths()[k - 1], w.paths()[i]));
        every_attempt_is_recorded(s, w, k - 1, i);
    }
}

/// An entry says what was attempted: on a directory of a tree, or on a single file, for
/// which watch, and how it went.
pub proof fn entry_tells_the_attempt(s: Seq<(Seq<u8>, MarkView)>, w: WatchMarks, k: int, i: int)
    requires
        in_order(s),
        w.wf(),
        0 <= i < k <= w.ok@.len(),
        forall|j: int| i < j < k ==> !same_path(#[trigger] w.paths()[j], w.paths()[i]),
    ensures
        lookup(with_marks(s, w, k), w.paths()[i]) matches Some(m) && m.ok == w.ok@[i]
            && m.watch_root == w.root@ && (m.kind == ObjKind::Dir <==> w.scan is Dir) && (
        m.recursive <==> w.scan is Dir),
        w.scan matches WatchScan::File(p) ==> w.paths()[i] == p@,
        w.scan matches WatchScan::Dir(dirs) ==> w.paths()[i] == dirs@[i]@,
{
    every_attempt_is_recorded(s, w, k, i);
}

/// A path that nothing was attempted on keeps its entry, or has none.
pub proof fn unattempted_paths_are_untouched(
    s: Seq<(Seq<u8>, MarkView)>,
    w: WatchMarks,
    k: int,
    p: Seq<u8>,
)
    requires
        in_order(s),
        0 <= k,
        forall|j: int| 0 <= j < k ==> !same_path(#[trigger] w.paths()[j], p),
    ensures
        lookup(with_marks(s, w, k), p) == lookup(s, p),
    decreases k,
{
    if k > 0 {
        unattempted_paths_are_untouched(s, w, k - 1, p);
        with_marks_order(s, w, k - 1);
        assert(!same_path(w.paths()[k - 1], p));
        recording_sets_one_entry(with_marks(s, w, k - 1), w.paths()[k - 1], w.entry(k - 1), p);
    }
}

proof fn all_marks_order(ws: Seq<WatchMarks>)
    ensures
        in_order(all_marks(ws)),
    decreases ws.len(),
{
    if ws.len() > 0 {
        all_marks_order(ws.drop_last());
        with_marks_order(all_marks(ws.drop_last()), ws.last(), ws.last().ok@.len() as int);
    }
}

/// After a rebuild there are marks only on what was attempted this time: nothing stale
/// is left.
pub proof fn rebuilding_leaves_nothing_stale(ws: Seq<WatchMarks>, p: Seq<u8>)
    requires
        forall|i: int| 0 <= i < ws.len() ==> (#[trigger] ws[i]).wf(),
        forall|i: int, j: int|
            0 <= i < ws.len() && 0 <= j < ws[i].ok@.len() ==> !same_path(
                #[trigger] ws[i].paths()[j],
                p,
            ),
    ensures
        lookup(all_marks(ws), p) is None,
    decreases ws.len(),
{
    if ws.len() > 0 {
        let rest = ws.drop_last();
        assert forall|i: int| 0 <= i < rest.len() implies (#[trigger] rest[i]).wf() by {
            assert(rest[i] == ws[i]);
        }
        assert forall|i: int, j: int|
            0 <= i < rest.len() && 0 <= j < rest[i].ok@.len() implies !same_path(
            #[trigger] rest[i].paths()[j],
            p,
        ) by {
            assert(rest[i] == ws[i]);
            assert(!same_path(ws[i].paths()[j], p));
        }
        rebuilding_leaves_nothing_stale(rest, p);
        all_marks_order(rest);
        let n = ws.len() - 1;
        assert(ws[n] == ws.last());
        assert forall|j: int| 0 <= j < ws.last().ok@.len() implies !same_path(
            #[trigger] ws.last().paths()[j],
            p,
        ) by {
            assert(!same_path(ws[n].paths()[j], p));
        }
        unattempted_paths_are_untouched(all_marks(rest), ws.last(), ws.last().ok@.len() as int, p);
    }
}

/// The number returned counts the marks that were placed: with those that were not, it
/// makes all that were attempted.
pub proof fn placed_marks_are_counted(ok: Seq<bool>, k: int)
    requires
        0 <= k <= ok.len(),
    ensures
        placed(ok, k) + placed(ok.map_values(|b: bool| !b), k) == k,
        placed(ok, k) == 0 <==> forall|i: int| 0 <= i < k ==> !#[trigger] ok[i],
        k < ok.len() && ok[k] ==> placed(ok, k + 1) == placed(ok, k) + 1,
        k < ok.len() && !ok[k] ==> placed(ok, k + 1) == placed(ok, k),
    decreases k,
{
    if k > 0 {
        placed_marks_are_counted(ok, k - 1);
        if placed(ok, k) == 0 {
            assert forall|i: int| 0 <= i < k implies !#[trigger] ok[i] by {
                assert(placed(ok, k - 1) == 0);
            }
        }
        if forall|i: int| 0 <= i < k ==> !#[trigger] ok[i] {
            assert(!ok[k - 1]);
        }
    }
}

/// The marks of several watches are counted together.
pub proof fn placed_marks_add_up(ws: Seq<WatchMarks>, w: WatchMarks)
    ensures
        all_placed(Seq::<WatchMarks>::empty()) == 0,
        all_placed(ws.push(w)) == all_placed(ws) + placed(w.ok@, w.ok@.len() as int),
{
    assert(ws.push(w).drop_last() =~= ws);
}

/// A dump shows every mark as it is: where it lies, what it covers, and whether it is
/// in place; only directories say whether they are watched.
pub proof fn dump_shows_marks_as_they_are(o: WatchedObject, m: (Seq<u8>, MarkView))
    requires
        dumped(o, m),
    ensures
        o.path@ == shown(m.0),
        o.watch@ == shown(m.1.watch_root),
        o.fanotify <==> m.1.ok,
        o.recursive <==> m.1.recursive,
        o.kind == ObjKind::Dir <==> m.1.kind == ObjKind::Dir,
        o.live_marked is None <==> m.1.kind == ObjKind::File,
{
}

/// One outcome is kept for each path of a scan: one for a file, one for each directory
/// of a tree, and none where nothing was resolved.
pub proof fn outcomes_match_the_scan(w: WatchMarks)
    requires
        w.wf(),
    ensures
        w.scan is Unresolved ==> w.ok@.len() == 0,
        w.scan is File ==> w.ok@.len() == 1,
        w.scan matches WatchScan::Dir(dirs) ==> w.ok@.len() == dirs@.len(),
{
}

proof fn found_stays_found(
    s: Seq<(Seq<u8>, MarkView)>,
    w: WatchMarks,
    k: int,
    p: Seq<u8>,
)
    requires
        in_order(s),
        0 <= k,
        lookup(s, p) is Some || exists|j: int| 0 <= j < k && same_path(#[trigger] w.paths()[j], p),
    ensures
        lookup(with_marks(s, w, k), p) is Some,
    decreases k,
{
    if k > 0 {
        with_marks_order(s, w, k - 1);
        recording_sets_one_entry(with_marks(s, w, k - 1), w.paths()[k - 1], w.entry(k - 1), p);
        if !same_path(w.paths()[k - 1], p) {
            found_stays_found(s, w, k - 1, p);
        }
    }
}

/// After a rebuild every path that was attempted has a mark, whichever watch it was for.
pub proof fn rebuilding_records_every_attempt(ws: Seq<WatchMarks>, i: int, j: int)
    requires
        0 <= i < ws.len(),
        0 <= j < ws[i].ok@.len(),
    ensures
        lookup(all_marks(ws), ws[i].paths()[j]) is Some,
    decreases ws.len(),
{
    let rest = ws.drop_last();
    let p = ws[i].paths()[j];
    all_marks_order(rest);
    if i < rest.len() {
        assert(rest[i] == ws[i]);
        rebuilding_records_every_attempt(rest, i, j);
    } else {
        assert(same_path(ws.last().paths()[j], p));
    }
    found_stays_found(all_marks(rest), ws.last(), ws.last().ok@.len() as int, p);
}

/// Recording sets the mark of one path, however it is spelled, and no other; clearing
/// leaves none.
pub proof fn recording_changes_one_mark(
    marks: &mut MarkSet,
    path: FilePath,
    entry: MarkEntry,
    other: Seq<u8>,
    cleared: &mut MarkSet,
    fresh: MarkSet,
)
    requires
        call_ensures(MarkSet::record, (marks, &path, entry), ()),
        in_order(old(marks)@),
        call_ensures(MarkSet::clear, (cleared,), ()),
        call_ensures(MarkSet::new, (), fresh),
    ensures
        parts(other) == parts(path@) ==> lookup(final(marks)@, other) == Some(entry@),
        parts(other) != parts(path@) ==> lookup(final(marks)@, other) == lookup(old(marks)@, other),
        lookup(final(cleared)@, other) is None,
        lookup(fresh@, other) is None,
{
    recording_sets_one_entry(old(marks)@, path@, entry@, other);
}

/// Recording a watch and rebuilding count the marks that were placed, and what is
/// attempted has a mark afterwards.
pub proof fn rebuilding_counts_what_was_placed(
    marks: &mut MarkSet,
    ws: Vec<WatchMarks>,
    n: u128,
    some: &mut MarkSet,
    w: WatchMarks,
    m: usize,
    i: int,
    j: int,
)
    requires
        call_ensures(MarkSet::rebuild, (marks, &ws), n),
        call_ensures(MarkSet::record_watch, (some, &w), m),
        0 <= i < ws@.len(),
        0 <= j < ws@[i].ok@.len(),
    ensures
        n == all_placed(ws@),
        lookup(final(marks)@, ws@[i].paths()[j]) is Some,
        m <= w.ok@.len(),
        m == 0 <==> forall|k: int| 0 <= k < w.ok@.len() ==> !#[trigger] w.ok@[k],
        m == w.ok@.len() <==> forall|k: int| 0 <= k < w.ok@.len() ==> #[trigger] w.ok@[k],
{
    rebuilding_records_every_attempt(ws@, i, j);
    placed_marks_are_counted(w.ok@, w.ok@.len() as int);
    let missed = w.ok@.map_values(|b: bool| !b);
    placed_marks_are_counted(missed, w.ok@.len() as int);
    if forall|k: int| 0 <= k < w.ok@.len() ==> #[trigger] w.ok@[k] {
        assert forall|k: int| 0 <= k < w.ok@.len() implies !#[trigger] missed[k] by {
            assert(w.ok@[k]);
        }
    }
    if m == w.ok@.len() {
        assert forall|k: int| 0 <= k < w.ok@.len() implies #[trigger] w.ok@[k] by {
            assert(!missed[k]);
        }
    }
}

/// A directory is shown as watched exactly if asking about its path says so.
pub proof fn live_mark_is_what_was_asked<F: Fn(&FilePath) -> bool>(
    is_watching: F,
    watched: spec_fn(Seq<u8>) -> bool,
    path: Seq<u8>,
    live: bool,
)
    requires
        answered(is_watching, path, live),
        forall|p: FilePath, r: bool| #[trigger]
            call_ensures(is_watching, (&p,), r) ==> r == watched(p@),
    ensures
        live == watched(path),
{
}

} // verus!
