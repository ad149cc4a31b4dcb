//! The position-keyed color map.

use vstd::prelude::*;

use crate::model::distinct_keys;
use crate::model::first_index;
use crate::model::has_key;
use crate::model::lemma_first_index;
use crate::voxel::VoxelPoint;

verus! {

/// A mapping from voxel cell addresses to colors.
///
/// Entries are kept in insertion order, and well-formed maps carry pairwise
/// distinct addresses, so the map reads as both a sequence — for the
/// renderer's stable iteration — and a finite function from address to
/// color. The view is the entry sequence.
pub struct VoxelMap<T> {
    entries: Vec<(VoxelPoint, T)>,
}

impl<T> View for VoxelMap<T> {
    type V = Seq<(VoxelPoint, T)>;

    closed spec fn view(&self) -> Seq<(VoxelPoint, T)> {
        self.entries@
    }
}

impl<T> VoxelMap<T> {
    /// A well-formed map holds at most one entry per cell address.
    pub open spec fn wf(&self) -> bool {
        distinct_keys(self@)
    }

    /// An empty map.
    pub fn new() -> (m: VoxelMap<T>)
        ensures
            m@ == Seq::<(VoxelPoint, T)>::empty(),
    {
        VoxelMap { entries: Vec::new() }
    }

    /// Index of the first entry at `pos`, if any entry carries it.
    fn find(&self, pos: &VoxelPoint) -> (r: Option<usize>)
        ensures
            match r {
                Some(i) => has_key(self@, *pos) && i == first_index(self@, *pos),
                None => !has_key(self@, *pos),
            },
    {
        let n: usize = self.entries.len();
        let mut i: usize = 0;
        while i < n
            invariant
                0 <= i <= n,
                n == self@.len(),
                forall|j: int| 0 <= j < i ==> self@[j].0 != *pos,
            decreases n - i,
        {
            if self.entries[i].0 == *pos {
                proof {
                    assert(has_key(self@, *pos));
                    lemma_first_index(self@, *pos);
                    if first_index(self@, *pos) < i as int {
                        assert(self@[first_index(self@, *pos)].0 != *pos);
                    }
                }
                return Some(i);
            }
            i += 1;
        }
        None
    }

    /// Membership test for a cell address; reads the map and nothing more.
    pub fn check_pos(&self, pos: &VoxelPoint) -> (r: bool)
        ensures
            r == has_key(self@, *pos),
    {
        self.find(pos).is_some()
    }

    /// Store `color` at `pos`: a fresh address is appended, an occupied one
    /// is overwritten in place, so insertion order is kept either way.
    pub fn put(&mut self, pos: VoxelPoint, color: T)
        ensures
            has_key(old(self)@, pos) ==> final(self)@ == old(self)@.update(
                first_index(old(self)@, pos),
                (pos, color),
            ),
            !has_key(old(self)@, pos) ==> final(self)@ == old(self)@.push((pos, color)),
            old(self).wf() ==> final(self).wf(),
    {
        let ghost s0 = self@;
        match self.find(&pos) {
            Some(i) => {
                proof {
                    lemma_first_index(s0, pos);
                }
                self.entries.remove(i);
                self.entries.insert(i, (pos, color));
                proof {
                    assert(s0.remove(i as int).insert(i as int, (pos, color)) =~= s0.update(
                        i as int,
                        (pos, color),
                    ));
                }
            },
            None => {
                self.entries.push((pos, color));
            },
        }
    }

    /// First-wins insertion: a color for an address already present is
    /// discarded silently — that is the deduplication policy, not an error.
    pub fn insert_if_absent(&mut self, pos: VoxelPoint, color: T)
        ensures
            final(self)@ == if has_key(old(self)@, pos) {
                old(self)@
            } else {
                old(self)@.push((pos, color))
            },
            old(self).wf() ==> final(self).wf(),
    {
        if !self.check_pos(&pos) {
            self.entries.push((pos, color));
        }
    }

    /// The number of cells held.
    pub fn len(&self) -> (n: usize)
        ensures
            n == self@.len(),
    {
        self.entries.len()
    }

    /// The (address, color) entries in insertion order: a restartable,
    /// read-only traversal of the whole map.
    pub fn entries(&self) -> (v: &Vec<(VoxelPoint, T)>)
        ensures
            v@ == self@,
    {
        &self.entries
    }
}

} // verus!
