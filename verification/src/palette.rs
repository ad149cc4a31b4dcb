//! The whole-pipeline reduction: a keyed pixel stream into a palette.

use vstd::prelude::*;

use crate::color::Color;
use crate::map::VoxelMap;
use crate::model::dedup_first;
use crate::model::distinct_keys;
use crate::model::first_value;
use crate::model::has_key;
use crate::model::lemma_dedup_distinct;
use crate::model::lemma_dedup_first_value;
use crate::model::lemma_dedup_has_key;
use crate::model::lemma_dedup_len_le;
use crate::model::lemma_dedup_of_distinct;
use crate::voxel::VoxelPoint;

verus! {

/// Reduce a stream of quantized pixels — one `(cell address, color)` pair
/// per source pixel, in raster order — into the deduplicated palette.
///
/// One linear pass: each pair is kept only when its address has not been
/// seen before, so the result is exactly the first-wins reduction
/// `dedup_first` of the stream, with entries in order of first occurrence.
/// The palette keeps every address of the stream, maps each to the color
/// first presented for it, never holds more entries than the stream, and
/// passes a collision-free stream through whole.
pub fn build_palette(items: &Vec<(VoxelPoint, Color)>) -> (m: VoxelMap<Color>)
    ensures
        m@ == dedup_first(items@),
        m.wf(),
        m@.len() <= items@.len(),
        distinct_keys(items@) ==> m@ == items@,
        forall|k: VoxelPoint| #[trigger] has_key(items@, k) ==> has_key(m@, k) && first_value(
            m@,
            k,
        ) == first_value(items@, k),
{
    let mut m: VoxelMap<Color> = VoxelMap::new();
    let n: usize = items.len();
    let mut i: usize = 0;
    while i < n
        invariant
            0 <= i <= n,
            n == items@.len(),
            m@ == dedup_first(items@.take(i as int)),
        decreases n - i,
    {
        let (pos, color) = items[i];
        proof {
            lemma_dedup_has_key(items@.take(i as int), pos);
        }
        m.insert_if_absent(pos, color);
        proof {
            let t = items@.take(i as int + 1);
            assert(t.drop_last() =~= items@.take(i as int));
            assert(t.last() == items@[i as int]);
        }
        i += 1;
    }
    proof {
        assert(items@.take(n as int) =~= items@);
        lemma_dedup_distinct(items@);
        lemma_dedup_len_le(items@);
        if distinct_keys(items@) {
            lemma_dedup_of_distinct(items@);
        }
        assert forall|k: VoxelPoint| #[trigger] has_key(items@, k) implies has_key(m@, k)
            && first_value(m@, k) == first_value(items@, k) by {
            lemma_dedup_first_value(items@, k);
        }
    }
    m
}

} // verus!
