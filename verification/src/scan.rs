//! Finding what to mark: a watch root is a single file or a tree of directories.
//!
//! A tree is walked one directory at a time. The caller lists the directory that
//! the walk asks for and looks up what the entries are; the walk decides which
//! entries count. An excluded directory is left out with everything below it.

use crate::globs::any_hit;
use crate::paths::{is_name, joined, joined_name_is_child, parts, under, FilePath, SLASH};
use crate::policy::WatchPolicy;
use vstd::prelude::*;

verus! {

/// What a watch root came to on disk.
#[derive(Debug)]
pub enum WatchScan {
    /// Missing, or neither a regular file nor a directory.
    Unresolved,
    /// A single regular file.
    File(FilePath),
    /// A tree: its root and the directories below that are not excluded.
    Dir(Vec<FilePath>),
}

/// What a path is on disk; symbolic links are not followed.
#[derive(Debug, Clone, Copy, PartialEq, Eq, Structural)]
pub enum FileKind {
    File,
    Dir,
    Other,
}

/// The paths of a list.
pub open spec fn path_views(v: Seq<FilePath>) -> Seq<Seq<u8>> {
    v.map_values(|p: FilePath| p@)
}

/// The directories found so far, and those among them still to be listed.
pub struct WalkView {
    pub out: Seq<Seq<u8>>,
    pub stack: Seq<Seq<u8>>,
}

/// A walk through a tree.
#[derive(Debug)]
pub struct Walk {
    out: Vec<FilePath>,
    stack: Vec<FilePath>,
}

impl View for Walk {
    type V = WalkView;

    closed spec fn view(&self) -> WalkView {
        WalkView { out: path_views(self.out@), stack: path_views(self.stack@) }
    }
}

/// A walk that has found only its root.
pub open spec fn walk_start(root: Seq<u8>) -> WalkView {
    WalkView { out: seq![root], stack: seq![root] }
}

/// The walk with one directory taken off to be listed.
pub open spec fn walk_taken(w: WalkView) -> WalkView {
    WalkView { out: w.out, stack: w.stack.drop_last() }
}

/// The walk with directories added.
pub open spec fn walk_found(w: WalkView, dirs: Seq<Seq<u8>>) -> WalkView {
    WalkView { out: w.out + dirs, stack: w.stack + dirs }
}

/// The paths of the entries of `dir` that are not excluded.
pub open spec fn survivors(dir: Seq<u8>, names: Seq<Seq<u8>>, exclude: Seq<(Seq<char>, bool)>) -> Seq<
    Seq<u8>,
>
    decreases names.len(),
{
    if names.len() == 0 {
        Seq::empty()
    } else {
        let rest = survivors(dir, names.drop_last(), exclude);
        let path = joined(dir, names.last());
        if any_hit(exclude, path) {
            rest
        } else {
            rest.push(path)
        }
    }
}

/// The paths that are directories.
pub open spec fn directories(paths: Seq<Seq<u8>>, is_dir: Seq<bool>) -> Seq<Seq<u8>>
    decreases paths.len(),
{
    if paths.len() == 0 {
        Seq::empty()
    } else {
        let rest = directories(paths.drop_last(), is_dir);
        if is_dir[paths.len() - 1] {
            rest.push(paths.last())
        } else {
            rest
        }
    }
}

/// The paths of the entries of `dir` that are not excluded, in order.
pub fn candidates(watch: &WatchPolicy, dir: &FilePath, names: &Vec<FilePath>) -> (r: Vec<FilePath>)
    ensures
        path_views(r@) == survivors(dir@, path_views(names@), watch@.exclude),
{
    let mut out: Vec<FilePath> = Vec::new();
    let ghost all = path_views(names@);
    let mut i: usize = 0;
    assert(path_views(out@) =~= Seq::<Seq<u8>>::empty());
    while i < names.len()
        invariant
            i <= names@.len(),
            all == path_views(names@),
            path_views(out@) == survivors(dir@, all.take(i as int), watch@.exclude),
        decreases names@.len() - i,
    {
        assert(all.take(i + 1).drop_last() =~= all.take(i as int));
        assert(all.take(i + 1).last() == names@[i as int]@);
        let path = dir.join(&names[i]);
        if !watch.is_excluded(&path) {
            let ghost before = out@;
            let ghost bytes = path@;
            out.push(path);
            assert(path_views(out@) =~= path_views(before).push(bytes));
        }
        i += 1;
    }
    assert(all.take(i as int) =~= all);
    out
}

impl Walk {
    /// A walk of the tree at `root`, which itself always counts.
    pub fn start(root: &FilePath) -> (r: Walk)
        ensures
            r@ == walk_start(root@),
    {
        let r = Walk { out: vec![root.clone()], stack: vec![root.clone()] };
        assert(r@.out =~= seq![root@]);
        assert(r@.stack =~= seq![root@]);
        r
    }

    /// The directory to list next; nothing once the walk is done.
    pub fn next_dir(&mut self) -> (r: Option<FilePath>)
        ensures
            match r {
                Some(dir) => old(self)@.stack.len() > 0 && dir@ == old(self)@.stack.last()
                    && final(self)@ == walk_taken(old(self)@),
                None => old(self)@.stack.len() == 0 && final(self)@ == old(self)@,
            },
    {
        let ghost before = self@;
        let r = self.stack.pop();
        proof {
            if r is Some {
                assert(before.stack.last() == r->0@);
                assert(self@.stack =~= before.stack.drop_last());
            }
        }
        r
    }

    /// Adds those of `paths` that are directories.
    pub fn found(&mut self, paths: &Vec<FilePath>, is_dir: &Vec<bool>)
        requires
            is_dir@.len() == paths@.len(),
        ensures
            final(self)@ == walk_found(
                old(self)@,
                directories(path_views(paths@), is_dir@),
            ),
    {
        let ghost before = self@;
        let ghost all = path_views(paths@);
        let mut i: usize = 0;
        assert(self@.out =~= before.out + directories(all.take(0), is_dir@));
        assert(self@.stack =~= before.stack + directories(all.take(0), is_dir@));
        while i < paths.len()
            invariant
                i <= paths@.len(),
                is_dir@.len() == paths@.len(),
                all == path_views(paths@),
                self@.out == before.out + directories(all.take(i as int), is_dir@),
                self@.stack == before.stack + directories(all.take(i as int), is_dir@),
            decreases paths@.len() - i,
        {
            assert(all.take(i + 1).drop_last() =~= all.take(i as int));
            assert(all.take(i + 1).last() == paths@[i as int]@);
            if is_dir[i] {
                let ghost o = self@;
                self.out.push(paths[i].clone());
                self.stack.push(paths[i].clone());
                assert(self@.out =~= o.out.push(paths@[i as int]@));
                assert(self@.stack =~= o.stack.push(paths@[i as int]@));
            }
            assert(self@.out =~= before.out + directories(all.take(i + 1), is_dir@));
            assert(self@.stack =~= before.stack + directories(all.take(i + 1), is_dir@));
            i += 1;
        }
        assert(all.take(i as int) =~= all);
    }

    /// The directories found.
    pub fn into_dirs(self) -> (r: Vec<FilePath>)
        ensures
            path_views(r@) == self@.out,
    {
        self.out
    }
}

/// What to do with a watch root.
#[derive(Debug)]
pub enum ScanStart {
    /// Nothing is to be listed.
    Done(WatchScan),
    /// The root is a directory: walk it.
    Walk(Walk),
}

/// Classifies a watch root by what it is on disk, where it is anything. Exclude
/// patterns do not apply to the root itself.
pub fn scan_watch(watch: &WatchPolicy, kind: Option<FileKind>) -> (r: ScanStart)
    ensures
        match kind {
            Some(FileKind::File) => r matches ScanStart::Done(WatchScan::File(p)) && p@
                == watch@.root,
            Some(FileKind::Dir) => r matches ScanStart::Walk(w) && w@ == walk_start(watch@.root),
            _ => r matches ScanStart::Done(WatchScan::Unresolved),
        },
{
    match kind {
        Some(FileKind::File) => ScanStart::Done(WatchScan::File(watch.root().clone())),
        Some(FileKind::Dir) => ScanStart::Walk(Walk::start(watch.root())),
        _ => ScanStart::Done(WatchScan::Unresolved),
    }
}

/// The walk of a directory that has just appeared; nothing if it is excluded.
pub fn dirs_to_mark(watch: &WatchPolicy, new_dir: &FilePath) -> (r: Option<Walk>)
    ensures
        match r {
            Some(w) => !any_hit(watch@.exclude, new_dir@) && w@ == walk_start(new_dir@),
            None => any_hit(watch@.exclude, new_dir@),
        },
{
    if watch.is_excluded(new_dir) {
        None
    } else {
        Some(Walk::start(new_dir))
    }
}

/// The names in a directory listing.
pub open spec fn names_of(listing: Seq<(Seq<u8>, bool)>) -> Seq<Seq<u8>> {
    listing.map_values(|e: (Seq<u8>, bool)| e.0)
}

/// Which of the entries that are not excluded are directories.
pub open spec fn dir_flags(
    dir: Seq<u8>,
    listing: Seq<(Seq<u8>, bool)>,
    exclude: Seq<(Seq<char>, bool)>,
) -> Seq<bool>
    decreases listing.len(),
{
    if listing.len() == 0 {
        Seq::empty()
    } else {
        let rest = dir_flags(dir, listing.drop_last(), exclude);
        if any_hit(exclude, joined(dir, listing.last().0)) {
            rest
        } else {
            rest.push(listing.last().1)
        }
    }
}

/// The subdirectories of `dir` that count.
pub open spec fn subdirs(
    dir: Seq<u8>,
    listing: Seq<(Seq<u8>, bool)>,
    exclude: Seq<(Seq<char>, bool)>,
) -> Seq<Seq<u8>> {
    directories(
        survivors(dir, names_of(listing), exclude),
        dir_flags(dir, listing, exclude),
    )
}

/// Whether `p` is a subdirectory of `dir`, by its listing, and not excluded.
pub open spec fn is_subdir(
    p: Seq<u8>,
    dir: Seq<u8>,
    listing: Seq<(Seq<u8>, bool)>,
    exclude: Seq<(Seq<char>, bool)>,
) -> bool {
    &&& !any_hit(exclude, p)
    &&& exists|i: int| 0 <= i < listing.len() && (#[trigger] listing[i]).1 && p == joined(
        dir,
        listing[i].0,
    )
}

proof fn directories_front(paths: Seq<Seq<u8>>, flags: Seq<bool>, more: bool)
    requires
        flags.len() == paths.len(),
    ensures
        directories(paths, flags.push(more)) == directories(paths, flags),
    decreases paths.len(),
{
    directories_prefix(paths, flags, flags.push(more));
}

proof fn directories_prefix(paths: Seq<Seq<u8>>, a: Seq<bool>, b: Seq<bool>)
    requires
        a.len() >= paths.len(),
        b.len() >= paths.len(),
        forall|i: int| 0 <= i < paths.len() ==> #[trigger] a[i] == b[i],
    ensures
        directories(paths, a) == directories(paths, b),
    decreases paths.len(),
{
    if paths.len() > 0 {
        directories_prefix(paths.drop_last(), a, b);
    }
}

/// A listing gives exactly the directories in it that are not excluded.
pub proof fn subdirs_are_exact(
    dir: Seq<u8>,
    listing: Seq<(Seq<u8>, bool)>,
    exclude: Seq<(Seq<char>, bool)>,
    p: Seq<u8>,
)
    ensures
        survivors(dir, names_of(listing), exclude).len() == dir_flags(dir, listing, exclude).len(),
        subdirs(dir, listing, exclude).contains(p) <==> is_subdir(p, dir, listing, exclude),
    decreases listing.len(),
{
    let all = subdirs(dir, listing, exclude);
    if listing.len() == 0 {
        assert(all =~= Seq::<Seq<u8>>::empty());
    } else {
        let front = listing.drop_last();
        let last = listing.last();
        let path = joined(dir, last.0);
        subdirs_are_exact(dir, front, exclude, p);
        let paths = survivors(dir, names_of(front), exclude);
        let flags = dir_flags(dir, front, exclude);
        assert(names_of(listing).drop_last() =~= names_of(front));
        assert(names_of(listing).last() == last.0);
        let before = directories(paths, flags);
        if any_hit(exclude, path) {
            assert(all == before);
        } else {
            directories_front(paths, flags, last.1);
            assert(paths.push(path).drop_last() =~= paths);
            assert(all == (if last.1 {
                before.push(path)
            } else {
                before
            }));
            if last.1 {
                assert(before.push(path)[before.len() as int] == path);
                if before.contains(p) {
                    let i = choose|i: int| 0 <= i < before.len() && before[i] == p;
                    assert(before.push(path)[i] == p);
                }
            }
        }
        if is_subdir(p, dir, listing, exclude) {
            let i = choose|i: int|
                0 <= i < listing.len() && (#[trigger] listing[i]).1 && p == joined(
                    dir,
                    listing[i].0,
                );
            if i < front.len() {
                assert(front[i] == listing[i]);
                assert(is_subdir(p, dir, front, exclude));
            }
        }
        if is_subdir(p, dir, front, exclude) {
            let i = choose|i: int|
                0 <= i < front.len() && (#[trigger] front[i]).1 && p == joined(dir, front[i].0);
            assert(listing[i] == front[i]);
        }
        if last.1 && !any_hit(exclude, path) {
            assert(listing[listing.len() - 1] == last);
        }
    }
}

/// Whether `p` is reached from `root` in `steps` steps down, none of them excluded.
pub open spec fn reached(
    fs: spec_fn(Seq<u8>) -> Seq<(Seq<u8>, bool)>,
    exclude: Seq<(Seq<char>, bool)>,
    root: Seq<u8>,
    p: Seq<u8>,
    steps: nat,
) -> bool
    decreases steps,
{
    if steps == 0 {
        p == root
    } else {
        exists|q: Seq<u8>|
            reached(fs, exclude, root, q, (steps - 1) as nat) && #[trigger] is_subdir(
                p,
                q,
                fs(q),
                exclude,
            )
    }
}

/// A walk in progress: what it has found is reached from the root, and what it
/// has found and listed has no unfound subdirectory.
pub open spec fn walking(
    fs: spec_fn(Seq<u8>) -> Seq<(Seq<u8>, bool)>,
    exclude: Seq<(Seq<char>, bool)>,
    root: Seq<u8>,
    w: WalkView,
) -> bool {
    &&& w.out.contains(root)
    &&& forall|p: Seq<u8>| #[trigger]
        w.out.contains(p) ==> exists|n: nat| reached(fs, exclude, root, p, n)
    &&& forall|p: Seq<u8>| #[trigger] w.stack.contains(p) ==> w.out.contains(p)
    &&& forall|p: Seq<u8>, q: Seq<u8>| #[trigger]
        w.out.contains(q) && !w.stack.contains(q) && #[trigger] is_subdir(p, q, fs(q), exclude)
            ==> w.out.contains(p)
}

/// A walk starts well.
pub proof fn walk_starts(
    fs: spec_fn(Seq<u8>) -> Seq<(Seq<u8>, bool)>,
    exclude: Seq<(Seq<char>, bool)>,
    root: Seq<u8>,
)
    ensures
        walking(fs, exclude, root, walk_start(root)),
{
    let w = walk_start(root);
    assert(w.out[0] == root && w.stack[0] == root);
    assert(reached(fs, exclude, root, root, 0));
}

proof fn one_step_further(
    fs: spec_fn(Seq<u8>) -> Seq<(Seq<u8>, bool)>,
    exclude: Seq<(Seq<char>, bool)>,
    root: Seq<u8>,
    q: Seq<u8>,
    p: Seq<u8>,
    n: nat,
)
    requires
        reached(fs, exclude, root, q, n),
        is_subdir(p, q, fs(q), exclude),
    ensures
        reached(fs, exclude, root, p, n + 1),
{
    assert(reached(fs, exclude, root, q, ((n + 1) - 1) as nat));
}

proof fn one_step_back(
    fs: spec_fn(Seq<u8>) -> Seq<(Seq<u8>, bool)>,
    exclude: Seq<(Seq<char>, bool)>,
    root: Seq<u8>,
    p: Seq<u8>,
    n: nat,
) -> (q: Seq<u8>)
    requires
        n > 0,
        reached(fs, exclude, root, p, n),
    ensures
        reached(fs, exclude, root, q, (n - 1) as nat),
        is_subdir(p, q, fs(q), exclude),
{
    choose|q: Seq<u8>|
        reached(fs, exclude, root, q, (n - 1) as nat) && #[trigger] is_subdir(
            p,
            q,
            fs(q),
            exclude,
        )
}

/// Listing one directory and adding its subdirectories keeps a walk going well.
pub proof fn walk_steps(
    fs: spec_fn(Seq<u8>) -> Seq<(Seq<u8>, bool)>,
    exclude: Seq<(Seq<char>, bool)>,
    root: Seq<u8>,
    w: WalkView,
)
    requires
        walking(fs, exclude, root, w),
        w.stack.len() > 0,
    ensures
        walking(
            fs,
            exclude,
            root,
            walk_found(
                walk_taken(w),
                subdirs(w.stack.last(), fs(w.stack.last()), exclude),
            ),
        ),
{
    let dir = w.stack.last();
    let new = subdirs(dir, fs(dir), exclude);
    let v = walk_found(walk_taken(w), new);
    assert(w.stack.contains(dir)) by {
        assert(w.stack[w.stack.len() - 1] == dir);
    }
    assert(w.out.contains(dir));
    let n0 = choose|n: nat| reached(fs, exclude, root, dir, n);
    assert forall|p: Seq<u8>| #[trigger] v.out.contains(p) <==> w.out.contains(p) || new.contains(
        p,
    ) by {
        in_concat(w.out, new, p);
    }
    assert forall|p: Seq<u8>| #[trigger] v.stack.contains(p) <==> w.stack.drop_last().contains(p)
        || new.contains(p) by {
        in_concat(w.stack.drop_last(), new, p);
    }
    assert forall|p: Seq<u8>| #[trigger] v.out.contains(p) implies exists|n: nat|
        reached(fs, exclude, root, p, n) by {
        if !w.out.contains(p) {
            subdirs_are_exact(dir, fs(dir), exclude, p);
            one_step_further(fs, exclude, root, dir, p, n0);
        }
    }
    assert forall|p: Seq<u8>| #[trigger] v.stack.contains(p) implies v.out.contains(p) by {
        if w.stack.drop_last().contains(p) {
            let i = choose|i: int| 0 <= i < w.stack.drop_last().len() && w.stack.drop_last()[i] == p;
            assert(w.stack[i] == p);
            assert(w.stack.contains(p));
        }
    }
    assert forall|p: Seq<u8>, q: Seq<u8>| #[trigger]
        v.out.contains(q) && !v.stack.contains(q) && #[trigger] is_subdir(
            p,
            q,
            fs(q),
            exclude,
        ) implies v.out.contains(p) by {
        if q == dir {
            subdirs_are_exact(dir, fs(dir), exclude, p);
        } else {
            assert(w.out.contains(q));
            if w.stack.contains(q) {
                let i = choose|i: int| 0 <= i < w.stack.len() && w.stack[i] == q;
                assert(w.stack.drop_last()[i] == q);
            }
        }
    }
}

proof fn in_concat(a: Seq<Seq<u8>>, b: Seq<Seq<u8>>, p: Seq<u8>)
    ensures
        (a + b).contains(p) <==> a.contains(p) || b.contains(p),
{
    if a.contains(p) {
        let i = choose|i: int| 0 <= i < a.len() && a[i] == p;
        assert((a + b)[i] == p);
    }
    if b.contains(p) {
        let i = choose|i: int| 0 <= i < b.len() && b[i] == p;
        assert((a + b)[a.len() + i] == p);
    }
}

proof fn reached_is_found(
    fs: spec_fn(Seq<u8>) -> Seq<(Seq<u8>, bool)>,
    exclude: Seq<(Seq<char>, bool)>,
    root: Seq<u8>,
    w: WalkView,
    p: Seq<u8>,
    n: nat,
)
    requires
        walking(fs, exclude, root, w),
        w.stack.len() == 0,
        reached(fs, exclude, root, p, n),
    ensures
        w.out.contains(p),
    decreases n,
{
    if n > 0 {
        let q = one_step_back(fs, exclude, root, p, n);
        reached_is_found(fs, exclude, root, w, q, (n - 1) as nat);
        assert(!w.stack.contains(q));
    }
}

/// A finished walk has found exactly the directories reached from the root
/// through directories that are not excluded.
pub proof fn walk_finds_exactly_the_tree(
    fs: spec_fn(Seq<u8>) -> Seq<(Seq<u8>, bool)>,
    exclude: Seq<(Seq<char>, bool)>,
    root: Seq<u8>,
    w: WalkView,
    p: Seq<u8>,
)
    requires
        walking(fs, exclude, root, w),
        w.stack.len() == 0,
    ensures
        w.out.contains(p) <==> exists|n: nat| reached(fs, exclude, root, p, n),
{
    if exists|n: nat| reached(fs, exclude, root, p, n) {
        let n = choose|n: nat| reached(fs, exclude, root, p, n);
        reached_is_found(fs, exclude, root, w, p, n);
    }
}

/// No excluded directory is ever found, the root aside.
pub proof fn excluded_dirs_stay_out(
    fs: spec_fn(Seq<u8>) -> Seq<(Seq<u8>, bool)>,
    exclude: Seq<(Seq<char>, bool)>,
    root: Seq<u8>,
    w: WalkView,
    p: Seq<u8>,
)
    requires
        walking(fs, exclude, root, w),
        any_hit(exclude, p),
        p != root,
    ensures
        !w.out.contains(p),
{
    if w.out.contains(p) {
        let n = choose|n: nat| reached(fs, exclude, root, p, n);
        assert(n > 0);
    }
}

/// Whether every entry of every listing is an ordinary name.
pub open spec fn ordinary(fs: spec_fn(Seq<u8>) -> Seq<(Seq<u8>, bool)>) -> bool {
    forall|d: Seq<u8>, i: int| 0 <= i < fs(d).len() ==> is_entry_name((#[trigger] fs(d)[i]).0)
}

/// Whether a name is one that a directory can hold.
pub open spec fn is_entry_name(name: Seq<u8>) -> bool {
    &&& name.len() > 0
    &&& forall|i: int| 0 <= i < name.len() ==> #[trigger] name[i] != SLASH
    &&& is_name(name)
}

/// A subdirectory is its directory with a name joined on.
proof fn subdir_name(
    fs: spec_fn(Seq<u8>) -> Seq<(Seq<u8>, bool)>,
    exclude: Seq<(Seq<char>, bool)>,
    p: Seq<u8>,
    q: Seq<u8>,
) -> (name: Seq<u8>)
    requires
        ordinary(fs),
        is_subdir(p, q, fs(q), exclude),
    ensures
        p == joined(q, name),
        parts(p) == parts(q).push(name),
{
    let listing = fs(q);
    let i = choose|i: int|
        0 <= i < listing.len() && (#[trigger] listing[i]).1 && p == joined(q, listing[i].0);
    let name = fs(q)[i].0;
    assert(is_entry_name(name));
    joined_name_is_child(q, name);
    name
}

proof fn reached_depth(
    fs: spec_fn(Seq<u8>) -> Seq<(Seq<u8>, bool)>,
    exclude: Seq<(Seq<char>, bool)>,
    root: Seq<u8>,
    p: Seq<u8>,
    n: nat,
)
    requires
        ordinary(fs),
        reached(fs, exclude, root, p, n),
    ensures
        parts(p).len() == parts(root).len() + n,
    decreases n,
{
    if n > 0 {
        let q = one_step_back(fs, exclude, root, p, n);
        let name = subdir_name(fs, exclude, p, q);
        reached_depth(fs, exclude, root, q, (n - 1) as nat);
    }
}

/// What is reached with the same components is spelled the same.
proof fn reached_once(
    fs: spec_fn(Seq<u8>) -> Seq<(Seq<u8>, bool)>,
    exclude: Seq<(Seq<char>, bool)>,
    root: Seq<u8>,
    a: Seq<u8>,
    b: Seq<u8>,
    n: nat,
)
    requires
        ordinary(fs),
        reached(fs, exclude, root, a, n),
        reached(fs, exclude, root, b, n),
        parts(a) == parts(b),
    ensures
        a == b,
    decreases n,
{
    if n > 0 {
        let qa = one_step_back(fs, exclude, root, a, n);
        let qb = one_step_back(fs, exclude, root, b, n);
        let na = subdir_name(fs, exclude, a, qa);
        let nb = subdir_name(fs, exclude, b, qb);
        assert(parts(a).drop_last() =~= parts(qa));
        assert(parts(b).drop_last() =~= parts(qb));
        assert(parts(a).last() == na && parts(b).last() == nb);
        reached_once(fs, exclude, root, qa, qb, (n - 1) as nat);
    }
}

/// Every directory on the way down is reached, and not excluded.
proof fn way_down(
    fs: spec_fn(Seq<u8>) -> Seq<(Seq<u8>, bool)>,
    exclude: Seq<(Seq<char>, bool)>,
    root: Seq<u8>,
    p: Seq<u8>,
    n: nat,
    k: nat,
) -> (a: Seq<u8>)
    requires
        ordinary(fs),
        reached(fs, exclude, root, p, n),
        0 < k <= n,
    ensures
        reached(fs, exclude, root, a, k),
        parts(a) == parts(p).take((parts(root).len() + k) as int),
        !any_hit(exclude, a),
    decreases n,
{
    let q = one_step_back(fs, exclude, root, p, n);
    reached_depth(fs, exclude, root, p, n);
    if k == n {
        assert(parts(p).take((parts(root).len() + k) as int) =~= parts(p));
        p
    } else {
        let name = subdir_name(fs, exclude, p, q);
        let a = way_down(fs, exclude, root, q, (n - 1) as nat, k);
        reached_depth(fs, exclude, root, q, (n - 1) as nat);
        assert(parts(q).take((parts(root).len() + k) as int) =~= parts(p).take(
            (parts(root).len() + k) as int,
        ));
        a
    }
}

/// An excluded directory takes everything below it with it: no path under it is
/// reached, however deep.
pub proof fn excluded_dir_prunes_its_subtree(
    fs: spec_fn(Seq<u8>) -> Seq<(Seq<u8>, bool)>,
    exclude: Seq<(Seq<char>, bool)>,
    root: Seq<u8>,
    dir: Seq<u8>,
    name: Seq<u8>,
    p: Seq<u8>,
)
    requires
        ordinary(fs),
        is_entry_name(name),
        exists|m: nat| reached(fs, exclude, root, dir, m),
        any_hit(exclude, joined(dir, name)),
        under(p, joined(dir, name)),
    ensures
        forall|n: nat| !reached(fs, exclude, root, p, n),
{
    let m = choose|m: nat| reached(fs, exclude, root, dir, m);
    let d = joined(dir, name);
    joined_name_is_child(dir, name);
    reached_depth(fs, exclude, root, dir, m);
    assert forall|n: nat| !reached(fs, exclude, root, p, n) by {
        if reached(fs, exclude, root, p, n) {
            reached_depth(fs, exclude, root, p, n);
            assert(m + 1 <= n);
            let a = way_down(fs, exclude, root, p, n, m + 1);
            assert(parts(a) =~= parts(d));
            let qa = one_step_back(fs, exclude, root, a, m + 1);
            let na = subdir_name(fs, exclude, a, qa);
            assert(parts(a).drop_last() =~= parts(qa));
            assert(parts(d).drop_last() =~= parts(dir));
            assert(parts(a).last() == na && parts(d).last() == name);
            reached_once(fs, exclude, root, qa, dir, m);
            assert(a == d);
        }
    }
}

/// Whether no listing names an entry twice.
pub open spec fn listed_once(fs: spec_fn(Seq<u8>) -> Seq<(Seq<u8>, bool)>) -> bool {
    forall|d: Seq<u8>, i: int, j: int|
        0 <= i < j < fs(d).len() ==> (#[trigger] fs(d)[i]).0 != (#[trigger] fs(d)[j]).0
}

/// Whether a walk has found nothing twice so far: whatever it found below the root, it
/// found in a directory that it has already listed.
pub open spec fn walking_once(
    fs: spec_fn(Seq<u8>) -> Seq<(Seq<u8>, bool)>,
    exclude: Seq<(Seq<char>, bool)>,
    root: Seq<u8>,
    w: WalkView,
) -> bool {
    &&& w.out.no_duplicates()
    &&& w.stack.no_duplicates()
    &&& forall|p: Seq<u8>| #[trigger] w.out.contains(p) && p != root ==> found_below(
        fs,
        exclude,
        w,
        p,
    )
}

/// Whether `p` is a subdirectory of a directory that the walk has listed.
pub open spec fn found_below(
    fs: spec_fn(Seq<u8>) -> Seq<(Seq<u8>, bool)>,
    exclude: Seq<(Seq<char>, bool)>,
    w: WalkView,
    p: Seq<u8>,
) -> bool {
    exists|q: Seq<u8>|
        w.out.contains(q) && !w.stack.contains(q) && #[trigger] is_subdir(p, q, fs(q), exclude)
}

/// The subdirectories in a listing are found once each, where it names nothing twice.
proof fn subdirs_once(dir: Seq<u8>, listing: Seq<(Seq<u8>, bool)>, exclude: Seq<(Seq<char>, bool)>)
    requires
        forall|i: int| 0 <= i < listing.len() ==> is_entry_name((#[trigger] listing[i]).0),
        forall|i: int, j: int|
            0 <= i < j < listing.len() ==> (#[trigger] listing[i]).0 != (#[trigger] listing[j]).0,
    ensures
        subdirs(dir, listing, exclude).no_duplicates(),
    decreases listing.len(),
{
    if listing.len() == 0 {
        assert(subdirs(dir, listing, exclude) =~= Seq::<Seq<u8>>::empty());
    } else {
        let front = listing.drop_last();
        let last = listing.last();
        let path = joined(dir, last.0);
        assert forall|i: int| 0 <= i < front.len() implies is_entry_name((#[trigger] front[i]).0) by {
            assert(front[i] == listing[i]);
        }
        assert forall|i: int, j: int| 0 <= i < j < front.len() implies (#[trigger] front[i]).0 != (
        #[trigger] front[j]).0 by {
            assert(front[i] == listing[i] && front[j] == listing[j]);
        }
        subdirs_once(dir, front, exclude);
        subdirs_are_exact(dir, front, exclude, path);
        let paths = survivors(dir, names_of(front), exclude);
        let flags = dir_flags(dir, front, exclude);
        let before = directories(paths, flags);
        assert(names_of(listing).drop_last() =~= names_of(front));
        assert(names_of(listing).last() == last.0);
        assert(!before.contains(path)) by {
            if before.contains(path) {
                let i = choose|i: int|
                    0 <= i < front.len() && (#[trigger] front[i]).1 && path == joined(
                        dir,
                        front[i].0,
                    );
                assert(front[i] == listing[i]);
                assert(listing[listing.len() - 1] == last);
                joined_name_is_child(dir, listing[i].0);
                joined_name_is_child(dir, last.0);
                assert(parts(path).last() == listing[i].0 && parts(path).last() == last.0);
            }
        }
        if !any_hit(exclude, path) {
            directories_front(paths, flags, last.1);
            assert(paths.push(path).drop_last() =~= paths);
        }
    }
}

/// Directories with a subdirectory in common have the same components.
proof fn one_parent(
    fs: spec_fn(Seq<u8>) -> Seq<(Seq<u8>, bool)>,
    exclude: Seq<(Seq<char>, bool)>,
    p: Seq<u8>,
    a: Seq<u8>,
    b: Seq<u8>,
)
    requires
        ordinary(fs),
        is_subdir(p, a, fs(a), exclude),
        is_subdir(p, b, fs(b), exclude),
    ensures
        parts(a) == parts(b),
{
    let na = subdir_name(fs, exclude, p, a);
    let nb = subdir_name(fs, exclude, p, b);
    assert(parts(p).drop_last() =~= parts(a));
    assert(parts(p).drop_last() =~= parts(b));
}

/// Reached directories with a subdirectory in common are the same.
proof fn one_reached_parent(
    fs: spec_fn(Seq<u8>) -> Seq<(Seq<u8>, bool)>,
    exclude: Seq<(Seq<char>, bool)>,
    root: Seq<u8>,
    p: Seq<u8>,
    a: Seq<u8>,
    b: Seq<u8>,
    n: nat,
    m: nat,
)
    requires
        ordinary(fs),
        reached(fs, exclude, root, a, n),
        reached(fs, exclude, root, b, m),
        is_subdir(p, a, fs(a), exclude),
        is_subdir(p, b, fs(b), exclude),
    ensures
        a == b,
{
    one_parent(fs, exclude, p, a, b);
    reached_depth(fs, exclude, root, a, n);
    reached_depth(fs, exclude, root, b, m);
    reached_once(fs, exclude, root, a, b, n);
}

/// A subdirectory of something reached is not the root.
proof fn root_is_no_subdir(
    fs: spec_fn(Seq<u8>) -> Seq<(Seq<u8>, bool)>,
    exclude: Seq<(Seq<char>, bool)>,
    root: Seq<u8>,
    dir: Seq<u8>,
    n: nat,
)
    requires
        ordinary(fs),
        reached(fs, exclude, root, dir, n),
    ensures
        !is_subdir(root, dir, fs(dir), exclude),
{
    reached_depth(fs, exclude, root, dir, n);
    if is_subdir(root, dir, fs(dir), exclude) {
        let name = subdir_name(fs, exclude, root, dir);
        assert(parts(root).len() == parts(dir).len() + 1);
    }
}

/// What a walk finds in the directory it lists next is new to it.
#[verifier::spinoff_prover]
proof fn found_is_new(
    fs: spec_fn(Seq<u8>) -> Seq<(Seq<u8>, bool)>,
    exclude: Seq<(Seq<char>, bool)>,
    root: Seq<u8>,
    w: WalkView,
    p: Seq<u8>,
)
    requires
        ordinary(fs),
        walking(fs, exclude, root, w),
        walking_once(fs, exclude, root, w),
        w.stack.len() > 0,
        is_subdir(p, w.stack.last(), fs(w.stack.last()), exclude),
    ensures
        !w.out.contains(p),
{
    let dir = w.stack.last();
    assert(w.stack[w.stack.len() - 1] == dir);
    assert(w.stack.contains(dir));
    assert(w.out.contains(dir));
    let n = choose|n: nat| reached(fs, exclude, root, dir, n);
    root_is_no_subdir(fs, exclude, root, dir, n);
    if w.out.contains(p) {
        assert(found_below(fs, exclude, w, p));
        let q = choose|q: Seq<u8>|
            w.out.contains(q) && !w.stack.contains(q) && #[trigger] is_subdir(
                p,
                q,
                fs(q),
                exclude,
            );
        let m = choose|m: nat| reached(fs, exclude, root, q, m);
        one_reached_parent(fs, exclude, root, p, dir, q, n, m);
    }
}

/// Listing one directory finds nothing that was found before.
pub proof fn walk_steps_once(
    fs: spec_fn(Seq<u8>) -> Seq<(Seq<u8>, bool)>,
    exclude: Seq<(Seq<char>, bool)>,
    root: Seq<u8>,
    w: WalkView,
)
    requires
        ordinary(fs),
        listed_once(fs),
        walking(fs, exclude, root, w),
        walking_once(fs, exclude, root, w),
        w.stack.len() > 0,
    ensures
        walking_once(
            fs,
            exclude,
            root,
            walk_found(
                walk_taken(w),
                subdirs(w.stack.last(), fs(w.stack.last()), exclude),
            ),
        ),
{
    let dir = w.stack.last();
    let new = subdirs(dir, fs(dir), exclude);
    let rest = w.stack.drop_last();
    let v = walk_found(walk_taken(w), new);
    assert(w.stack[w.stack.len() - 1] == dir);
    assert(w.stack.contains(dir));
    subdirs_once(dir, fs(dir), exclude);
    assert forall|p: Seq<u8>| #[trigger] new.contains(p) implies !w.out.contains(p) by {
        subdirs_are_exact(dir, fs(dir), exclude, p);
        found_is_new(fs, exclude, root, w, p);
    }
    assert forall|p: Seq<u8>| #[trigger] rest.contains(p) implies w.stack.contains(p) && p != dir by {
        let i = choose|i: int| 0 <= i < rest.len() && rest[i] == p;
        assert(w.stack[i] == p);
    }
    assert(rest.no_duplicates()) by {
        assert forall|i: int, j: int| 0 <= i < rest.len() && 0 <= j < rest.len() && i != j implies rest[i]
            != rest[j] by {
            assert(w.stack[i] == rest[i] && w.stack[j] == rest[j]);
        }
    }
    apart_concat(w.out, new);
    assert forall|p: Seq<u8>| #[trigger] new.contains(p) implies !rest.contains(p) by {
        if rest.contains(p) {
            assert(w.stack.contains(p));
            assert(w.out.contains(p));
        }
    }
    apart_concat(rest, new);
    assert forall|p: Seq<u8>| #[trigger] v.out.contains(p) && p != root implies found_below(
        fs,
        exclude,
        v,
        p,
    ) by {
        in_concat(w.out, new, p);
        if new.contains(p) {
            subdirs_are_exact(dir, fs(dir), exclude, p);
            in_concat(w.out, new, dir);
            in_concat(rest, new, dir);
            assert(v.out.contains(dir) && !v.stack.contains(dir));
            assert(is_subdir(p, dir, fs(dir), exclude));
        } else {
            assert(w.out.contains(p));
            assert(found_below(fs, exclude, w, p));
            let q = choose|q: Seq<u8>|
                w.out.contains(q) && !w.stack.contains(q) && #[trigger] is_subdir(
                    p,
                    q,
                    fs(q),
                    exclude,
                );
            in_concat(w.out, new, q);
            in_concat(rest, new, q);
            assert(v.out.contains(q) && !v.stack.contains(q));
        }
    }
}

proof fn apart_concat(a: Seq<Seq<u8>>, b: Seq<Seq<u8>>)
    requires
        a.no_duplicates(),
        b.no_duplicates(),
        forall|p: Seq<u8>| #[trigger] b.contains(p) ==> !a.contains(p),
    ensures
        (a + b).no_duplicates(),
{
    let c = a + b;
    assert forall|i: int, j: int| 0 <= i < c.len() && 0 <= j < c.len() && i != j implies c[i]
        != c[j] by {
        if i < a.len() && j >= a.len() {
            assert(b.contains(b[j - a.len()]));
            assert(a.contains(a[i]));
        }
        if j < a.len() && i >= a.len() {
            assert(b.contains(b[i - a.len()]));
            assert(a.contains(a[j]));
        }
    }
}

/// Whether a walk has got from its start to `w` in `steps` listings.
pub open spec fn walked(
    fs: spec_fn(Seq<u8>) -> Seq<(Seq<u8>, bool)>,
    exclude: Seq<(Seq<char>, bool)>,
    root: Seq<u8>,
    w: WalkView,
    steps: nat,
) -> bool
    decreases steps,
{
    if steps == 0 {
        w == walk_start(root)
    } else {
        exists|v: WalkView|
            v.stack.len() > 0 && walked(fs, exclude, root, v, (steps - 1) as nat) && w
                == #[trigger] walk_listed(fs, exclude, v)
    }
}

/// The walk with its next directory listed and the subdirectories added.
pub open spec fn walk_listed(
    fs: spec_fn(Seq<u8>) -> Seq<(Seq<u8>, bool)>,
    exclude: Seq<(Seq<char>, bool)>,
    w: WalkView,
) -> WalkView {
    walk_found(walk_taken(w), subdirs(w.stack.last(), fs(w.stack.last()), exclude))
}

/// A walk finds no directory twice, where no listing names an entry twice.
pub proof fn walk_finds_nothing_twice(
    fs: spec_fn(Seq<u8>) -> Seq<(Seq<u8>, bool)>,
    exclude: Seq<(Seq<char>, bool)>,
    root: Seq<u8>,
    w: WalkView,
    steps: nat,
)
    requires
        ordinary(fs),
        listed_once(fs),
        walked(fs, exclude, root, w, steps),
    ensures
        w.out.no_duplicates(),
        walking(fs, exclude, root, w),
        walking_once(fs, exclude, root, w),
    decreases steps,
{
    if steps == 0 {
        walk_starts(fs, exclude, root);
        assert forall|p: Seq<u8>| #[trigger] w.out.contains(p) && p != root implies found_below(
            fs,
            exclude,
            w,
            p,
        ) by {
        }
    } else {
        let v = choose|v: WalkView|
            v.stack.len() > 0 && walked(fs, exclude, root, v, (steps - 1) as nat) && w
                == #[trigger] walk_listed(fs, exclude, v);
        walk_finds_nothing_twice(fs, exclude, root, v, (steps - 1) as nat);
        walk_steps(fs, exclude, root, v);
        walk_steps_once(fs, exclude, root, v);
    }
}

/// The entries that survive are exactly those that no pattern excludes, each as its
/// name joined onto the directory.
pub proof fn survivors_are_exact(
    dir: Seq<u8>,
    names: Seq<Seq<u8>>,
    exclude: Seq<(Seq<char>, bool)>,
    p: Seq<u8>,
)
    ensures
        survivors(dir, names, exclude).contains(p) <==> !any_hit(exclude, p) && exists|i: int|
            0 <= i < names.len() && p == joined(dir, #[trigger] names[i]),
        survivors(dir, names, exclude).len() <= names.len(),
        (forall|i: int|
            0 <= i < names.len() ==> !any_hit(exclude, joined(dir, #[trigger] names[i])))
            ==> survivors(dir, names, exclude) == names.map_values(|n: Seq<u8>| joined(dir, n)),
    decreases names.len(),
{
    let all = survivors(dir, names, exclude);
    let whole = names.map_values(|n: Seq<u8>| joined(dir, n));
    if names.len() == 0 {
        assert(all =~= Seq::<Seq<u8>>::empty());
        assert(all =~= whole);
    } else {
        let front = names.drop_last();
        let rest = survivors(dir, front, exclude);
        let path = joined(dir, names.last());
        survivors_are_exact(dir, front, exclude, p);
        assert(names[names.len() - 1] == names.last());
        if exists|i: int| 0 <= i < names.len() && p == joined(dir, #[trigger] names[i]) {
            let i = choose|i: int| 0 <= i < names.len() && p == joined(dir, #[trigger] names[i]);
            if i < front.len() {
                assert(front[i] == names[i]);
            }
        }
        if exists|i: int| 0 <= i < front.len() && p == joined(dir, #[trigger] front[i]) {
            let i = choose|i: int| 0 <= i < front.len() && p == joined(dir, #[trigger] front[i]);
            assert(names[i] == front[i]);
        }
        if !any_hit(exclude, path) {
            assert(rest.push(path)[rest.len() as int] == path);
            if rest.contains(p) {
                let i = choose|i: int| 0 <= i < rest.len() && rest[i] == p;
                assert(rest.push(path)[i] == p);
            }
        }
        if forall|i: int|
            0 <= i < names.len() ==> !any_hit(exclude, joined(dir, #[trigger] names[i])) {
            assert forall|i: int| 0 <= i < front.len() implies !any_hit(
                exclude,
                joined(dir, #[trigger] front[i]),
            ) by {
                assert(front[i] == names[i]);
            }
            assert(!any_hit(exclude, path));
            assert(all =~= whole);
        }
    }
}

/// What is taken up are exactly the paths that are directories.
pub proof fn directories_are_exact(paths: Seq<Seq<u8>>, is_dir: Seq<bool>, p: Seq<u8>)
    requires
        is_dir.len() >= paths.len(),
    ensures
        directories(paths, is_dir).contains(p) <==> exists|i: int|
            0 <= i < paths.len() && is_dir[i] && p == #[trigger] paths[i],
    decreases paths.len(),
{
    if paths.len() > 0 {
        let front = paths.drop_last();
        let rest = directories(front, is_dir);
        directories_are_exact(front, is_dir, p);
        assert(paths[paths.len() - 1] == paths.last());
        if exists|i: int| 0 <= i < paths.len() && is_dir[i] && p == #[trigger] paths[i] {
            let i = choose|i: int| 0 <= i < paths.len() && is_dir[i] && p == #[trigger] paths[i];
            if i < front.len() {
                assert(front[i] == paths[i]);
            }
        }
        if exists|i: int| 0 <= i < front.len() && is_dir[i] && p == #[trigger] front[i] {
            let i = choose|i: int| 0 <= i < front.len() && is_dir[i] && p == #[trigger] front[i];
            assert(paths[i] == front[i]);
        }
        if is_dir[paths.len() - 1] {
            assert(rest.push(paths.last())[rest.len() as int] == paths.last());
            if rest.contains(p) {
                let i = choose|i: int| 0 <= i < rest.len() && rest[i] == p;
                assert(rest.push(paths.last())[i] == p);
            }
        }
    }
}

/// A listing gives every directory in it that is not excluded, joined onto the listed
/// one, and nothing else.
pub proof fn listed_directories_count(
    dir: Seq<u8>,
    listing: Seq<(Seq<u8>, bool)>,
    exclude: Seq<(Seq<char>, bool)>,
    p: Seq<u8>,
)
    ensures
        subdirs(dir, listing, exclude).contains(p) <==> !any_hit(exclude, p) && exists|i: int|
            0 <= i < listing.len() && (#[trigger] listing[i]).1 && p == joined(dir, listing[i].0),
{
    subdirs_are_exact(dir, listing, exclude, p);
}

/// A finished walk has its root; with every directory in it, all subdirectories of that
/// one that are not excluded; and nothing else.
pub proof fn finished_walk_is_closed(
    fs: spec_fn(Seq<u8>) -> Seq<(Seq<u8>, bool)>,
    exclude: Seq<(Seq<char>, bool)>,
    root: Seq<u8>,
    w: WalkView,
    steps: nat,
    q: Seq<u8>,
    i: int,
)
    requires
        walked(fs, exclude, root, w, steps),
        w.stack.len() == 0,
    ensures
        w.out.contains(root),
        w.out.contains(q) && 0 <= i < fs(q).len() && fs(q)[i].1 && !any_hit(
            exclude,
            joined(q, fs(q)[i].0),
        ) ==> w.out.contains(joined(q, fs(q)[i].0)),
        w.out.contains(q) && q != root ==> !any_hit(exclude, q) && exists|d: Seq<u8>, m: int|
            w.out.contains(d) && 0 <= m < fs(d).len() && (#[trigger] fs(d)[m]).1 && q == joined(
                d,
                fs(d)[m].0,
            ),
{
    walked_is_walking(fs, exclude, root, w, steps);
    if w.out.contains(q) && 0 <= i < fs(q).len() && fs(q)[i].1 && !any_hit(
        exclude,
        joined(q, fs(q)[i].0),
    ) {
        assert(is_subdir(joined(q, fs(q)[i].0), q, fs(q), exclude));
        assert(!w.stack.contains(q));
    }
    if w.out.contains(q) && q != root {
        let n = choose|n: nat| reached(fs, exclude, root, q, n);
        let d = one_step_back(fs, exclude, root, q, n);
        reached_is_found(fs, exclude, root, w, d, (n - 1) as nat);
        let m = choose|m: int|
            0 <= m < fs(d).len() && (#[trigger] fs(d)[m]).1 && q == joined(d, fs(d)[m].0);
        assert(fs(d)[m].1);
    }
}

proof fn walked_is_walking(
    fs: spec_fn(Seq<u8>) -> Seq<(Seq<u8>, bool)>,
    exclude: Seq<(Seq<char>, bool)>,
    root: Seq<u8>,
    w: WalkView,
    steps: nat,
)
    requires
        walked(fs, exclude, root, w, steps),
    ensures
        walking(fs, exclude, root, w),
    decreases steps,
{
    if steps == 0 {
        walk_starts(fs, exclude, root);
    } else {
        let v = choose|v: WalkView|
            v.stack.len() > 0 && walked(fs, exclude, root, v, (steps - 1) as nat) && w
                == #[trigger] walk_listed(fs, exclude, v);
        walked_is_walking(fs, exclude, root, v, (steps - 1) as nat);
        walk_steps(fs, exclude, root, v);
    }
}

/// A walk starts with its root, still to be listed; it gives up one directory at a time
/// to be listed and keeps all it has found.
pub proof fn walk_keeps_what_it_found(root: Seq<u8>, w: WalkView, dirs: Seq<Seq<u8>>, p: Seq<u8>)
    ensures
        walk_start(root).out == seq![root],
        walk_start(root).stack == seq![root],
        w.stack.len() > 0 ==> walk_taken(w).out == w.out && walk_taken(w).stack.push(
            w.stack.last(),
        ) == w.stack,
        walk_found(w, dirs).out.contains(p) <==> w.out.contains(p) || dirs.contains(p),
        walk_found(w, dirs).stack.contains(p) <==> w.stack.contains(p) || dirs.contains(p),
{
    in_concat(w.out, dirs, p);
    in_concat(w.stack, dirs, p);
    if w.stack.len() > 0 {
        assert(w.stack.drop_last().push(w.stack.last()) =~= w.stack);
    }
}

/// A watch on a file marks that file, one on a directory walks it from the root, and one
/// on anything else, or nothing, is left unresolved. A new directory is walked unless
/// it is excluded. The entries handed on are those that survive.
pub proof fn scanning_starts_at_the_root(
    watch: WatchPolicy,
    kind: Option<FileKind>,
    start: ScanStart,
    dir: FilePath,
    names: Vec<FilePath>,
    walk: Option<Walk>,
    paths: Vec<FilePath>,
)
    requires
        call_ensures(scan_watch, (&watch, kind), start),
        call_ensures(dirs_to_mark, (&watch, &dir), walk),
        call_ensures(candidates, (&watch, &dir, &names), paths),
    ensures
        kind == Some(FileKind::File) ==> (start matches ScanStart::Done(WatchScan::File(p)) && p@
            == watch@.root),
        kind == Some(FileKind::Dir) ==> (start matches ScanStart::Walk(w) && w@.out
            == seq![watch@.root] && w@.stack == seq![watch@.root]),
        kind is None || kind == Some(FileKind::Other) ==> start matches ScanStart::Done(
            WatchScan::Unresolved,
        ),
        walk is None <==> any_hit(watch@.exclude, dir@),
        walk matches Some(w) ==> w@.out == seq![dir@] && w@.stack == seq![dir@],
        forall|i: int|
            0 <= i < paths@.len() ==> !any_hit(watch@.exclude, (#[trigger] paths@[i])@) && exists|
                m: int,
            |
                0 <= m < names@.len() && paths@[i]@ == joined(dir@, (#[trigger] names@[m])@),
        forall|m: int|
            0 <= m < names@.len() && !any_hit(
                watch@.exclude,
                joined(dir@, (#[trigger] names@[m])@),
            ) ==> path_views(paths@).contains(joined(dir@, names@[m]@)),
{
    let all = path_views(names@);
    assert forall|i: int| 0 <= i < paths@.len() implies !any_hit(
        watch@.exclude,
        (#[trigger] paths@[i])@,
    ) && exists|m: int|
        0 <= m < names@.len() && paths@[i]@ == joined(dir@, (#[trigger] names@[m])@) by {
        let p = paths@[i]@;
        assert(path_views(paths@)[i] == p);
        survivors_are_exact(dir@, all, watch@.exclude, p);
        let m = choose|m: int| 0 <= m < all.len() && p == joined(dir@, #[trigger] all[m]);
        assert(all[m] == names@[m]@);
    }
    assert forall|m: int|
        0 <= m < names@.len() && !any_hit(
            watch@.exclude,
            joined(dir@, (#[trigger] names@[m])@),
        ) implies path_views(paths@).contains(joined(dir@, names@[m]@)) by {
        assert(all[m] == names@[m]@);
        survivors_are_exact(dir@, all, watch@.exclude, joined(dir@, names@[m]@));
    }
}

/// A walk hands out each directory once to be listed, takes up the directories among
/// what was found there, and gives them all in the end.
pub proof fn walk_takes_up_directories(
    walk: &mut Walk,
    next: Option<FilePath>,
    other: &mut Walk,
    paths: Vec<FilePath>,
    is_dir: Vec<bool>,
    p: Seq<u8>,
    done: Walk,
    dirs: Vec<FilePath>,
    root: FilePath,
    fresh: Walk,
)
    requires
        call_ensures(Walk::next_dir, (walk,), next),
        is_dir@.len() == paths@.len(),
        call_ensures(Walk::found, (other, &paths, &is_dir), ()),
        call_ensures(Walk::into_dirs, (done,), dirs),
        call_ensures(Walk::start, (&root,), fresh),
    ensures
        next is None <==> old(walk)@.stack.len() == 0,
        final(walk)@.out == old(walk)@.out,
        next matches Some(dir) ==> final(walk)@.stack.push(dir@) == old(walk)@.stack,
        final(other)@.out.contains(p) <==> old(other)@.out.contains(p) || exists|i: int|
            0 <= i < paths@.len() && is_dir@[i] && p == (#[trigger] paths@[i])@,
        final(other)@.stack.contains(p) <==> old(other)@.stack.contains(p) || exists|i: int|
            0 <= i < paths@.len() && is_dir@[i] && p == (#[trigger] paths@[i])@,
        dirs@.len() == done@.out.len(),
        forall|i: int| 0 <= i < dirs@.len() ==> (#[trigger] dirs@[i])@ == done@.out[i],
        fresh@.out == seq![root@],
        fresh@.stack == seq![root@],
{
    if next is Some {
        assert(old(walk)@.stack.drop_last().push(old(walk)@.stack.last()) =~= old(walk)@.stack);
    }
    let all = path_views(paths@);
    let taken = directories(all, is_dir@);
    walk_keeps_what_it_found(root@, old(other)@, taken, p);
    directories_are_exact(all, is_dir@, p);
    if exists|i: int| 0 <= i < all.len() && is_dir@[i] && p == #[trigger] all[i] {
        let i = choose|i: int| 0 <= i < all.len() && is_dir@[i] && p == #[trigger] all[i];
        assert(paths@[i]@ == p);
    }
    if exists|i: int| 0 <= i < paths@.len() && is_dir@[i] && p == (#[trigger] paths@[i])@ {
        let i = choose|i: int|
            0 <= i < paths@.len() && is_dir@[i] && p == (#[trigger] paths@[i])@;
        assert(all[i] == p);
    }
    assert forall|i: int| 0 <= i < dirs@.len() implies (#[trigger] dirs@[i])@ == done@.out[i] by {
        assert(path_views(dirs@)[i] == dirs@[i]@);
    }
    assert(path_views(dirs@).len() == dirs@.len());
}

} // verus!
