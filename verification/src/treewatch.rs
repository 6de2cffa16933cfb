//! Keeping a tree covered as it grows: which directories are watched for new
//! subdirectories, and what a notification about one calls for.

use crate::globs::any_hit;
use crate::paths::{joined, parts, same_path, under, FilePath};
use crate::policy::{is_covered, is_first_cover, Policy, WatchView};
use crate::scan::{dirs_to_mark, walk_start, Walk};
use std::collections::HashMap;
use vstd::prelude::*;
use vstd::std_specs::iter::IteratorSpec;

verus! {

/// Something was created in a watched directory.
pub const IN_CREATE: u32 = 0x100;

/// Something was moved into a watched directory.
pub const IN_MOVED_TO: u32 = 0x80;

/// Watch directories only.
pub const IN_ONLYDIR: u32 = 0x0100_0000;

/// Notifications were lost.
pub const IN_Q_OVERFLOW: u32 = 0x4000;

/// The notification is about a directory.
pub const IN_ISDIR: u32 = 0x4000_0000;

/// What a directory is watched for: new entries, made or moved in.
pub fn watch_mask() -> (r: u32)
    ensures
        r == IN_CREATE | IN_MOVED_TO | IN_ONLYDIR,
{
    IN_CREATE | IN_MOVED_TO | IN_ONLYDIR
}

/// The watched directories, by the number of their watch.
#[derive(Debug)]
pub struct TreeWatch {
    dirs: HashMap<u64, FilePath>,
}

impl View for TreeWatch {
    type V = Map<u64, Seq<u8>>;

    closed spec fn view(&self) -> Map<u64, Seq<u8>> {
        self.dirs@.map_values(|dir: FilePath| dir@)
    }
}

/// A notification: which watch it came by, its flags, and the name it is about.
#[derive(Debug)]
pub struct Notice {
    pub id: u64,
    pub mask: u32,
    pub name: Option<FilePath>,
}

/// What a notification calls for.
#[derive(Debug)]
pub enum Growth {
    /// Nothing.
    Ignore,
    /// Notifications were lost: mark everything anew.
    Remark,
    /// A directory has appeared that this watch governs: walk it and mark what is found.
    Mark { watch: usize, walk: Walk },
}

impl TreeWatch {
    /// Nothing watched.
    pub fn new() -> (r: TreeWatch)
        ensures
            r@ == Map::<u64, Seq<u8>>::empty(),
    {
        let r = TreeWatch { dirs: HashMap::new() };
        assert(r@ =~= Map::<u64, Seq<u8>>::empty());
        r
    }

    /// Records that watch `id` is on `dir`.
    pub fn watch(&mut self, id: u64, dir: &FilePath)
        ensures
            final(self)@ == old(self)@.insert(id, dir@),
    {
        broadcast use vstd::std_specs::hash::group_hash_axioms;

        self.dirs.insert(id, dir.clone());
        assert(self@ =~= old(self)@.insert(id, dir@));
    }

    /// The directory that watch `id` is on.
    pub fn dir_of(&self, id: u64) -> (r: Option<&FilePath>)
        ensures
            match r {
                Some(dir) => self@.contains_key(id) && self@[id] == dir@,
                None => !self@.contains_key(id),
            },
    {
        broadcast use vstd::std_specs::hash::group_hash_axioms;

        self.dirs.get(&id)
    }

    /// Whether `dir` is watched for new subdirectories.
    pub fn is_watching(&self, dir: &FilePath) -> (r: bool)
        ensures
            r == watches_dir(self@, dir@),
    {
        broadcast use vstd::std_specs::hash::group_hash_axioms;

        let ghost all = self.dirs.values().remaining();
        for d in it: self.dirs.values()
            invariant
                it.seq() == all,
                all.unref().to_set() == self.dirs@.values(),
                forall|k: int| 0 <= k < it.index() ==> !same_path((#[trigger] all[k])@, dir@),
        {
            if d.same_as(dir) {
                proof {
                    assert(all.unref()[it.index()] == *d);
                    assert(all.unref().to_set().contains(*d));
                    let id = choose|id: u64| self.dirs@.contains_key(id) && self.dirs@[id] == *d;
                    assert(self@.contains_key(id));
                }
                return true;
            }
        }
        assert forall|id: u64| #[trigger] self@.contains_key(id) implies !same_path(
            self@[id],
            dir@,
        ) by {
            assert(self.dirs@.values().contains(self.dirs@[id]));
            let k = choose|k: int| 0 <= k < all.unref().len() && all.unref()[k] == self.dirs@[id];
            assert(!same_path(all[k]@, dir@));
        }
        false
    }

    /// How many directories are watched.
    pub fn len(&self) -> (r: usize)
        ensures
            r == self@.dom().len(),
    {
        broadcast use vstd::std_specs::hash::group_hash_axioms;

        assert(self@.dom() =~= self.dirs@.dom());
        self.dirs.len()
    }

    /// What a notification calls for.
    pub fn on_notice(&self, policy: &Policy, n: &Notice) -> (r: Growth)
        ensures
            ({
                let mine = n.mask & IN_ISDIR != 0 && n.name is Some && self@.contains_key(n.id);
                let dir = joined(self@[n.id], n.name->0@);
                if n.mask & IN_Q_OVERFLOW != 0 {
                    r is Remark
                } else if mine && is_covered(policy@, dir) && !excluded_at(policy@, dir) {
                    r matches Growth::Mark { watch, walk } && is_first_cover(
                        policy@,
                        dir,
                        watch as int,
                    ) && walk@ == walk_start(dir)
                } else {
                    r is Ignore
                }
            }),
    {
        if n.mask & IN_Q_OVERFLOW != 0 {
            return Growth::Remark;
        }
        if n.mask & IN_ISDIR == 0 {
            return Growth::Ignore;
        }
        let name = match &n.name {
            Some(name) => name,
            None => {
                return Growth::Ignore;
            },
        };
        let parent = match self.dir_of(n.id) {
            Some(dir) => dir,
            None => {
                return Growth::Ignore;
            },
        };
        let dir = parent.join(name);
        let k = match policy.covering(&dir) {
            Some(k) => k,
            None => {
                return Growth::Ignore;
            },
        };
        let watches = policy.watches();
        assert(policy@[k as int] == watches@[k as int]@);
        assert(is_first_cover(policy@, dir@, k as int));
        match dirs_to_mark(&watches[k], &dir) {
            Some(walk) => {
                assert(!excluded_at(policy@, dir@)) by {
                    if excluded_at(policy@, dir@) {
                        let j = choose|j: int| #[trigger]
                            is_first_cover(policy@, dir@, j) && any_hit(policy@[j].exclude, dir@);
                        assert(j == k);
                    }
                }
                Growth::Mark { watch: k, walk }
            },
            None => {
                assert(excluded_at(policy@, dir@));
                Growth::Ignore
            },
        }
    }
}

/// Whether the watch that governs a directory excludes it.
pub open spec fn excluded_at(ws: Seq<WatchView>, dir: Seq<u8>) -> bool {
    exists|k: int| #[trigger] is_first_cover(ws, dir, k) && any_hit(ws[k].exclude, dir)
}

/// Whether some watch is on `dir`.
pub open spec fn watches_dir(m: Map<u64, Seq<u8>>, dir: Seq<u8>) -> bool {
    exists|id: u64| #[trigger] m.contains_key(id) && same_path(m[id], dir)
}

/// A directory is watched once a watch on it is recorded.
pub proof fn recorded_watch_is_found(m: Map<u64, Seq<u8>>, id: u64, dir: Seq<u8>)
    ensures
        watches_dir(m.insert(id, dir), dir),
        !watches_dir(Map::empty(), dir),
{
    assert(m.insert(id, dir).contains_key(id));
}

/// A new directory is marked, at any depth below the root of the watch that governs it,
/// unless that watch excludes it: the walk starts at the directory itself.
pub proof fn new_directory_is_marked(
    tree: TreeWatch,
    policy: Policy,
    n: Notice,
    growth: Growth,
    k: int,
)
    requires
        call_ensures(TreeWatch::on_notice, (&tree, &policy, &n), growth),
        n.mask & 0x4000 == 0,
        n.mask & 0x4000_0000 != 0,
        n.name is Some,
        tree@.contains_key(n.id),
        0 <= k < policy@.len(),
        parts(policy@[k].root).is_prefix_of(parts(joined(tree@[n.id], n.name->0@))),
        forall|j: int|
            0 <= j < k ==> !parts((#[trigger] policy@[j]).root).is_prefix_of(
                parts(joined(tree@[n.id], n.name->0@)),
            ),
    ensures
        !any_hit(policy@[k].exclude, joined(tree@[n.id], n.name->0@)) ==> (growth matches Growth::Mark {
            watch,
            walk,
        } && watch == k && walk@.out == seq![joined(tree@[n.id], n.name->0@)] && walk@.stack
            == seq![joined(tree@[n.id], n.name->0@)]),
        any_hit(policy@[k].exclude, joined(tree@[n.id], n.name->0@)) ==> growth is Ignore,
{
    let ws = policy@;
    let dir = joined(tree@[n.id], n.name->0@);
    assert(under(dir, ws[k].root));
    assert forall|j: int| 0 <= j < k implies !under(dir, (#[trigger] ws[j]).root) by {}
    assert(is_first_cover(ws, dir, k));
    assert(is_covered(ws, dir));
    assert forall|j: int| #[trigger] is_first_cover(ws, dir, j) implies j == k by {
        assert(under(dir, ws[j].root));
        if k < j {
            assert(!under(dir, ws[k].root));
        }
    }
    if excluded_at(ws, dir) {
        let j = choose|j: int| #[trigger]
            is_first_cover(ws, dir, j) && any_hit(ws[j].exclude, dir);
        assert(j == k);
    }
}

/// Lost notifications call for marking everything anew. Otherwise nothing is done about
/// what is no directory, has no name, comes from an unknown watch or is not governed.
pub proof fn other_notices_are_ignored(
    tree: TreeWatch,
    policy: Policy,
    n: Notice,
    growth: Growth,
)
    requires
        call_ensures(TreeWatch::on_notice, (&tree, &policy, &n), growth),
    ensures
        n.mask & 0x4000 != 0 <==> growth is Remark,
        n.mask & 0x4000 == 0 && (n.mask & 0x4000_0000 == 0 || n.name is None
            || !tree@.contains_key(n.id)) ==> growth is Ignore,
        n.mask & 0x4000 == 0 && n.name is Some && (forall|j: int|
            0 <= j < policy@.len() ==> !parts((#[trigger] policy@[j]).root).is_prefix_of(
                parts(joined(tree@[n.id], n.name->0@)),
            )) ==> growth is Ignore,
{
    if n.name is Some {
        let dir = joined(tree@[n.id], n.name->0@);
        if forall|j: int|
            0 <= j < policy@.len() ==> !parts((#[trigger] policy@[j]).root).is_prefix_of(
                parts(dir),
            ) {
            assert(!is_covered(policy@, dir));
        }
    }
}

/// A directory counts as watched exactly if a recorded watch is on that path.
pub proof fn watched_is_what_was_recorded(
    tree: TreeWatch,
    dir: FilePath,
    id: u64,
    watching: bool,
    on: Option<&FilePath>,
)
    requires
        call_ensures(TreeWatch::is_watching, (&tree, &dir), watching),
        call_ensures(TreeWatch::dir_of, (&tree, id), on),
    ensures
        watching <==> exists|i: u64| #[trigger]
            tree@.contains_key(i) && parts(tree@[i]) == parts(dir@),
        on is Some <==> tree@.contains_key(id),
        on matches Some(d) ==> d@ == tree@[id],
{
    if watching {
        let i = choose|i: u64| #[trigger] tree@.contains_key(i) && same_path(tree@[i], dir@);
        assert(parts(tree@[i]) == parts(dir@));
    }
    if exists|i: u64| #[trigger] tree@.contains_key(i) && parts(tree@[i]) == parts(dir@) {
        let i = choose|i: u64| #[trigger] tree@.contains_key(i) && parts(tree@[i]) == parts(dir@);
        assert(same_path(tree@[i], dir@));
    }
}

/// New entries are noticed whether made or moved in.
pub proof fn both_ways_in_are_watched(mask: u32)
    requires
        call_ensures(watch_mask, (), mask),
    ensures
        mask & 0x100 != 0,
        mask & 0x80 != 0,
{
    assert((0x100u32 | 0x80u32 | 0x0100_0000u32) & 0x100u32 != 0) by (bit_vector);
    assert((0x100u32 | 0x80u32 | 0x0100_0000u32) & 0x80u32 != 0) by (bit_vector);
}

/// Watching a directory records it under its id and leaves the others; a fresh set has
/// none.
pub proof fn watching_records_one(
    tree: &mut TreeWatch,
    id: u64,
    dir: FilePath,
    other: u64,
    fresh: TreeWatch,
)
    requires
        call_ensures(TreeWatch::watch, (tree, id, &dir), ()),
        call_ensures(TreeWatch::new, (), fresh),
    ensures
        final(tree)@.contains_key(id),
        final(tree)@[id] == dir@,
        other != id ==> (final(tree)@.contains_key(other) <==> old(tree)@.contains_key(other)),
        other != id && old(tree)@.contains_key(other) ==> final(tree)@[other] == old(tree)@[other],
        !fresh@.contains_key(other),
{
}

} // verus!
