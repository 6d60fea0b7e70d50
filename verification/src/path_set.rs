//! Sets of paths, kept in a hash set of the crate `rustc-hash`.
//!
//! Two paths are the same member if their components are the same, so the components are what the
//! hash set holds.

use crate::path::{components, FilePath};
use crate::split::views;
use rustc_hash::{FxBuildHasher, FxHashSet};
use vstd::prelude::*;

verus! {

/// The hasher of `rustc_hash`, which a value of `FxHashSet` carries.
#[verifier::external_type_specification]
#[verifier::external_body]
pub struct ExFxBuildHasher(FxBuildHasher);

/// What a hash set holds: the component sequences that were put in.
pub uninterp spec fn members(set: FxHashSet<Vec<Vec<u8>>>) -> Set<Seq<Seq<u8>>>;

/// `FxHashSet::default` makes a set that holds nothing.
#[verifier::external_body]
fn empty_set() -> (set: FxHashSet<Vec<Vec<u8>>>)
    ensures
        members(set) == Set::<Seq<Seq<u8>>>::empty(),
{
    FxHashSet::default()
}

/// `HashSet::insert` on a set with the hasher of `rustc_hash` adds one member and keeps the
/// others.
#[verifier::external_body]
fn insert_key(set: &mut FxHashSet<Vec<Vec<u8>>>, key: Vec<Vec<u8>>)
    ensures
        members(*final(set)) == members(*old(set)).insert(views(key@)),
{
    set.insert(key);
}

/// `HashSet::contains` on a set with the hasher of `rustc_hash` tells whether an equal member is
/// in the set.
#[verifier::external_body]
fn contains_key(set: &FxHashSet<Vec<Vec<u8>>>, key: &Vec<Vec<u8>>) -> (res: bool)
    ensures
        res == members(*set).contains(views(key@)),
{
    set.contains(key)
}

/// A set of paths. Its view is the set of their component sequences.
#[derive(Debug)]
pub struct PathSet {
    keys: FxHashSet<Vec<Vec<u8>>>,
}

impl View for PathSet {
    type V = Set<Seq<Seq<u8>>>;

    closed spec fn view(&self) -> Set<Seq<Seq<u8>>> {
        members(self.keys)
    }
}

/// Whether one of `paths` is the same path as `path`.
pub open spec fn is_among(paths: Seq<Seq<u8>>, path: Seq<u8>) -> bool {
    exists|i: int|
        0 <= i < paths.len() && components(#[trigger] paths[i]) == components(path)
}

impl PathSet {
    /// The set of all of `paths`.
    pub fn from_paths(paths: &[FilePath]) -> (set: PathSet)
        ensures
            forall|key: Seq<Seq<u8>>| #[trigger]
                set@.contains(key) <==> exists|i: int|
                    0 <= i < paths@.len() && components((#[trigger] paths@[i])@) == key,
    {
        let mut keys = empty_set();
        for i in 0..paths.len()
            invariant
                forall|key: Seq<Seq<u8>>| #[trigger]
                    members(keys).contains(key) <==> exists|j: int|
                        0 <= j < i && components((#[trigger] paths@[j])@) == key,
        {
            let key = paths[i].components();
            let ghost before = members(keys);
            insert_key(&mut keys, key);
            proof {
                assert forall|k: Seq<Seq<u8>>| #[trigger]
                    members(keys).contains(k) <==> exists|j: int|
                        0 <= j < i + 1 && components((#[trigger] paths@[j])@) == k by {
                    if before.contains(k) {
                        let j = choose|j: int|
                            0 <= j < i && components((#[trigger] paths@[j])@) == k;
                        assert(0 <= j < i + 1 && components(paths@[j]@) == k);
                    }
                    if k == views(key@) {
                        assert(components(paths@[i as int]@) == k);
                    }
                }
            }
        }
        PathSet { keys }
    }

    /// Whether `path` is in the set.
    pub fn contains(&self, path: &FilePath) -> (res: bool)
        ensures
            res == self@.contains(components(path@)),
    {
        contains_key(&self.keys, &path.components())
    }
}

// ---------------------------------------------------------------------------------------------
// Laws.

/// A path is among paths if it is among all but the last or has the components of the last.
pub proof fn law_is_among(paths: Seq<Seq<u8>>, last: Seq<u8>, path: Seq<u8>)
    ensures
        !is_among(Seq::empty(), path),
        is_among(paths.push(last), path) <==> is_among(paths, path) || components(last)
            == components(path),
{
    let all = paths.push(last);
    if is_among(all, path) {
        let i = choose|i: int|
            0 <= i < all.len() && components(#[trigger] all[i]) == components(path);
        if i < paths.len() {
            assert(components(paths[i]) == components(path));
        }
    }
    if is_among(paths, path) {
        let i = choose|i: int|
            0 <= i < paths.len() && components(#[trigger] paths[i]) == components(path);
        assert(components(all[i]) == components(path));
    }
    if components(last) == components(path) {
        assert(components(all[paths.len() as int]) == components(path));
    }
}

} // verus!
