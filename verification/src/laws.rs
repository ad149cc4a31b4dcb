//! The laws the palette obeys, stated and proved over the model.
//!
//! Each law here speaks about `dedup_first`, the reduction that
//! `build_palette` is proved to compute, so each carries over verbatim to
//! the executable pipeline.

use vstd::prelude::*;

use crate::model::dedup_first;
use crate::model::distinct_keys;
use crate::model::has_key;
use crate::model::key_set;
use crate::model::lemma_dedup_absorb;
use crate::model::lemma_dedup_len_le;
use crate::model::lemma_dedup_of_distinct;
use crate::model::lemma_has_key_unlast;
use crate::voxel::VoxelPoint;

verus! {

/// Idempotent deduplication: a stream in which every pixel is presented
/// twice — the whole stream repeated after itself — builds exactly the
/// palette of the stream presented once.
pub proof fn lemma_palette_idempotent<T>(s: Seq<(VoxelPoint, T)>)
    ensures
        dedup_first(s + s) == dedup_first(s),
{
    assert forall|i: int| 0 <= i < s.len() implies has_key(s, #[trigger] s[i].0) by {
        assert(0 <= i < s.len() && s[i].0 == s[i].0);
    }
    lemma_dedup_absorb(s, s);
}

/// First-wins policy on a colliding pair: when two colors land in the same
/// cell, whichever is presented first is the one kept, in either order.
pub proof fn lemma_palette_first_wins<T>(a: (VoxelPoint, T), b: (VoxelPoint, T))
    requires
        a.0 == b.0,
    ensures
        dedup_first(seq![a, b]) == seq![a],
        dedup_first(seq![b, a]) == seq![b],
{
    lemma_pair_collapses(a, b);
    lemma_pair_collapses(b, a);
}

/// A colliding pair reduces to its first element.
proof fn lemma_pair_collapses<T>(a: (VoxelPoint, T), b: (VoxelPoint, T))
    requires
        a.0 == b.0,
    ensures
        dedup_first(seq![a, b]) == seq![a],
{
    let s = seq![a, b];
    assert(s.drop_last() =~= seq![a]);
    assert(has_key(seq![a], b.0)) by {
        assert(seq![a][0].0 == b.0);
    }
    lemma_dedup_of_distinct(seq![a]);
}

/// Cell count bound: a palette never holds more entries than the stream
/// that built it, and a stream free of collisions passes through whole.
pub proof fn lemma_palette_count_bound<T>(s: Seq<(VoxelPoint, T)>)
    ensures
        dedup_first(s).len() <= s.len(),
        distinct_keys(s) ==> dedup_first(s) == s,
{
    lemma_dedup_len_le(s);
    if distinct_keys(s) {
        lemma_dedup_of_distinct(s);
    }
}

/// The palette holds exactly one entry per distinct cell address in the
/// stream. In the degenerate build whose quantization passes every point
/// through unchanged — distinct points, distinct addresses — the palette
/// size is therefore the number of distinct points presented.
pub proof fn lemma_palette_counts_distinct_keys<T>(s: Seq<(VoxelPoint, T)>)
    ensures
        key_set(s).finite(),
        dedup_first(s).len() == key_set(s).len(),
    decreases s.len(),
{
    if s.len() == 0 {
        assert(key_set(s) =~= Set::<VoxelPoint>::empty());
    } else {
        let d = s.drop_last();
        let x = s.last().0;
        lemma_palette_counts_distinct_keys(d);
        assert forall|k: VoxelPoint| #[trigger] key_set(s).contains(k) == (key_set(d).contains(k)
            || k == x) by {
            lemma_has_key_unlast(s, k);
        }
        if has_key(d, x) {
            assert(key_set(s) =~= key_set(d));
        } else {
            assert(key_set(s) =~= key_set(d).insert(x));
            vstd::set::axiom_set_insert_finite(key_set(d), x);
            vstd::set::axiom_set_insert_len(key_set(d), x);
        }
    }
}

/// Monotonic coarsening: when every cell address of a second stream is the
/// image of the corresponding address of a first stream under one common
/// map — as when a coarser grid merges whole groups of finer cells — the
/// second palette is no larger than the first.
pub proof fn lemma_palette_coarsening<T>(
    s1: Seq<(VoxelPoint, T)>,
    s2: Seq<(VoxelPoint, T)>,
    h: spec_fn(VoxelPoint) -> VoxelPoint,
)
    requires
        s1.len() == s2.len(),
        forall|i: int| 0 <= i < s1.len() ==> (#[trigger] s2[i].0) == h(s1[i].0),
    ensures
        dedup_first(s2).len() <= dedup_first(s1).len(),
{
    lemma_palette_counts_distinct_keys(s1);
    lemma_palette_counts_distinct_keys(s2);
    assert(key_set(s1).map(h) =~= key_set(s2)) by {
        assert forall|b: VoxelPoint| key_set(s1).map(h).contains(b) implies key_set(s2).contains(
            b,
        ) by {
            let a = choose|a: VoxelPoint| key_set(s1).contains(a) && b == h(a);
            let i = choose|i: int| 0 <= i < s1.len() && s1[i].0 == a;
            assert(s2[i].0 == b);
        }
        assert forall|b: VoxelPoint| key_set(s2).contains(b) implies key_set(s1).map(h).contains(
            b,
        ) by {
            let i = choose|i: int| 0 <= i < s2.len() && s2[i].0 == b;
            assert(has_key(s1, s1[i].0));
            assert(key_set(s1).contains(s1[i].0));
            assert(b == h(s1[i].0));
        }
    }
    vstd::set_lib::lemma_map_size_bound(key_set(s1), key_set(s2), h);
}

} // verus!
