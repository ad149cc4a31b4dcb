//! The mathematical model of the palette.
//!
//! A palette build consumes a stream of `(VoxelPoint, color)` pairs and keeps,
//! for each distinct cell address, the color of the first pair that carried
//! it. `dedup_first` is that reduction stated over mathematical sequences;
//! the executable code in the rest of the crate is proved against it.

use vstd::prelude::*;

use crate::voxel::VoxelPoint;

verus! {

/// Whether some entry of `s` carries the cell address `k`.
pub open spec fn has_key<T>(s: Seq<(VoxelPoint, T)>, k: VoxelPoint) -> bool {
    exists|i: int| 0 <= i < s.len() && s[i].0 == k
}

/// Index of the first entry of `s` whose address is `k` (`s.len()` when no
/// entry carries `k`).
pub open spec fn first_index<T>(s: Seq<(VoxelPoint, T)>, k: VoxelPoint) -> int
    decreases s.len(),
{
    if s.len() == 0 {
        0
    } else if s[0].0 == k {
        0
    } else {
        1 + first_index(s.drop_first(), k)
    }
}

/// The color that first-wins deduplication owes the address `k`: the color
/// of the first entry of `s` that carries `k`. Meaningful only when
/// `has_key(s, k)`.
pub open spec fn first_value<T>(s: Seq<(VoxelPoint, T)>, k: VoxelPoint) -> T {
    s[first_index(s, k)].1
}

/// No two entries of `s` share a cell address.
pub open spec fn distinct_keys<T>(s: Seq<(VoxelPoint, T)>) -> bool {
    forall|i: int, j: int| 0 <= i < j < s.len() ==> s[i].0 != s[j].0
}

/// The set of distinct cell addresses that occur in `s`.
pub open spec fn key_set<T>(s: Seq<(VoxelPoint, T)>) -> Set<VoxelPoint> {
    Set::new(|k: VoxelPoint| has_key(s, k))
}

/// First-wins deduplication of a keyed stream: keeps exactly the entries
/// whose address has not occurred earlier in the stream, in stream order.
pub open spec fn dedup_first<T>(s: Seq<(VoxelPoint, T)>) -> Seq<(VoxelPoint, T)>
    decreases s.len(),
{
    if s.len() == 0 {
        Seq::empty()
    } else if has_key(s.drop_last(), s.last().0) {
        dedup_first(s.drop_last())
    } else {
        dedup_first(s.drop_last()).push(s.last())
    }
}

/// An address occurs in a nonempty stream iff it occurs before the last
/// entry or is carried by the last entry.
pub proof fn lemma_has_key_unlast<T>(s: Seq<(VoxelPoint, T)>, k: VoxelPoint)
    requires
        s.len() > 0,
    ensures
        has_key(s, k) <==> (has_key(s.drop_last(), k) || s.last().0 == k),
{
    let d = s.drop_last();
    if has_key(s, k) {
        let i = choose|i: int| 0 <= i < s.len() && s[i].0 == k;
        if i < s.len() - 1 {
            assert(d[i] == s[i]);
        }
    }
    if has_key(d, k) {
        let i = choose|i: int| 0 <= i < d.len() && d[i].0 == k;
        assert(s[i] == d[i]);
    }
    if s.last().0 == k {
        assert(s[s.len() - 1].0 == k);
    }
}

/// An address occurs in `s.push(e)` iff it occurs in `s` or is `e`'s.
pub proof fn lemma_has_key_push<T>(s: Seq<(VoxelPoint, T)>, e: (VoxelPoint, T), k: VoxelPoint)
    ensures
        has_key(s.push(e), k) <==> (has_key(s, k) || e.0 == k),
{
    let p = s.push(e);
    assert(p.drop_last() =~= s);
    lemma_has_key_unlast(p, k);
}

/// When `s` carries `k`, `first_index` lands on the first such entry.
pub proof fn lemma_first_index<T>(s: Seq<(VoxelPoint, T)>, k: VoxelPoint)
    requires
        has_key(s, k),
    ensures
        0 <= first_index(s, k) < s.len(),
        s[first_index(s, k)].0 == k,
        forall|j: int| 0 <= j < first_index(s, k) ==> s[j].0 != k,
    decreases s.len(),
{
    if s[0].0 == k {
    } else {
        let i = choose|i: int| 0 <= i < s.len() && s[i].0 == k;
        assert(s.drop_first()[i - 1] == s[i]);
        lemma_first_index(s.drop_first(), k);
        assert forall|j: int| 0 < j < first_index(s, k) implies s[j].0 != k by {
            assert(s.drop_first()[j - 1] == s[j]);
        }
    }
}

/// Dropping the last entry does not move the first occurrence of an address
/// that occurs before it.
pub proof fn lemma_first_index_unlast<T>(s: Seq<(VoxelPoint, T)>, k: VoxelPoint)
    requires
        s.len() > 0,
        has_key(s.drop_last(), k),
    ensures
        first_index(s, k) == first_index(s.drop_last(), k),
    decreases s.len(),
{
    let d = s.drop_last();
    let i = choose|i: int| 0 <= i < d.len() && d[i].0 == k;
    assert(d[0] == s[0]);
    if s[0].0 == k {
    } else {
        assert(i != 0);
        assert(d.drop_first()[i - 1] == d[i]);
        assert(s.drop_first().drop_last() =~= d.drop_first());
        lemma_first_index_unlast(s.drop_first(), k);
    }
}

/// Appending an entry does not move the first occurrence of an address the
/// stream already carries.
pub proof fn lemma_first_index_push<T>(s: Seq<(VoxelPoint, T)>, e: (VoxelPoint, T), k: VoxelPoint)
    requires
        has_key(s, k),
    ensures
        first_index(s.push(e), k) == first_index(s, k),
{
    assert(s.push(e).drop_last() =~= s);
    lemma_first_index_unlast(s.push(e), k);
}

/// Appending the first entry with address `k` puts its first occurrence at
/// the end.
pub proof fn lemma_first_index_push_absent<T>(
    s: Seq<(VoxelPoint, T)>,
    e: (VoxelPoint, T),
    k: VoxelPoint,
)
    requires
        !has_key(s, k),
        e.0 == k,
    ensures
        first_index(s.push(e), k) == s.len(),
    decreases s.len(),
{
    let p = s.push(e);
    if s.len() == 0 {
        assert(p[0] == e);
    } else {
        assert(p[0] == s[0]);
        assert(s[0].0 != k);
        assert(!has_key(s.drop_first(), k)) by {
            if has_key(s.drop_first(), k) {
                let i = choose|i: int| 0 <= i < s.drop_first().len() && s.drop_first()[i].0 == k;
                assert(s[i + 1] == s.drop_first()[i]);
            }
        }
        assert(p.drop_first() =~= s.drop_first().push(e));
        lemma_first_index_push_absent(s.drop_first(), e, k);
    }
}

/// Deduplication neither invents nor loses addresses.
pub proof fn lemma_dedup_has_key<T>(s: Seq<(VoxelPoint, T)>, k: VoxelPoint)
    ensures
        has_key(dedup_first(s), k) == has_key(s, k),
    decreases s.len(),
{
    if s.len() == 0 {
        assert(dedup_first(s) =~= Seq::<(VoxelPoint, T)>::empty());
    } else {
        let d = s.drop_last();
        let x = s.last();
        lemma_dedup_has_key(d, k);
        lemma_has_key_unlast(s, k);
        if has_key(d, x.0) {
            if k == x.0 {
            }
        } else {
            lemma_has_key_push(dedup_first(d), x, k);
        }
    }
}

/// The deduplicated stream has pairwise distinct addresses.
pub proof fn lemma_dedup_distinct<T>(s: Seq<(VoxelPoint, T)>)
    ensures
        distinct_keys(dedup_first(s)),
    decreases s.len(),
{
    if s.len() == 0 {
    } else {
        let d = s.drop_last();
        let x = s.last();
        lemma_dedup_distinct(d);
        if !has_key(d, x.0) {
            lemma_dedup_has_key(d, x.0);
            let dd = dedup_first(d);
            let r = dd.push(x);
            assert forall|i: int, j: int| 0 <= i < j < r.len() implies r[i].0 != r[j].0 by {
                if j < dd.len() {
                    assert(r[i] == dd[i]);
                    assert(r[j] == dd[j]);
                } else {
                    assert(r[i] == dd[i]);
                    assert(r[j] == x);
                    if dd[i].0 == x.0 {
                        assert(has_key(dd, x.0));
                    }
                }
            }
        }
    }
}

/// Deduplication never lengthens the stream.
pub proof fn lemma_dedup_len_le<T>(s: Seq<(VoxelPoint, T)>)
    ensures
        dedup_first(s).len() <= s.len(),
    decreases s.len(),
{
    if s.len() == 0 {
    } else {
        lemma_dedup_len_le(s.drop_last());
    }
}

/// A stream whose addresses are already pairwise distinct passes through
/// deduplication unchanged.
pub proof fn lemma_dedup_of_distinct<T>(s: Seq<(VoxelPoint, T)>)
    requires
        distinct_keys(s),
    ensures
        dedup_first(s) == s,
    decreases s.len(),
{
    if s.len() == 0 {
        assert(dedup_first(s) =~= s);
    } else {
        let d = s.drop_last();
        assert forall|i: int, j: int| 0 <= i < j < d.len() implies d[i].0 != d[j].0 by {
            assert(d[i] == s[i]);
            assert(d[j] == s[j]);
        }
        if has_key(d, s.last().0) {
            let i = choose|i: int| 0 <= i < d.len() && d[i].0 == s.last().0;
            assert(s[i] == d[i]);
            assert(s[i].0 == s[s.len() - 1].0);
            assert(false);
        }
        lemma_dedup_of_distinct(d);
        assert(d.push(s.last()) =~= s);
    }
}

/// A suffix whose addresses all occur in the prefix contributes nothing to
/// the deduplicated stream.
pub proof fn lemma_dedup_absorb<T>(s: Seq<(VoxelPoint, T)>, t: Seq<(VoxelPoint, T)>)
    requires
        forall|i: int| 0 <= i < t.len() ==> has_key(s, #[trigger] t[i].0),
    ensures
        dedup_first(s + t) == dedup_first(s),
    decreases t.len(),
{
    if t.len() == 0 {
        assert(s + t =~= s);
    } else {
        let u = s + t;
        let k = t.last().0;
        assert(u.drop_last() =~= s + t.drop_last());
        assert(u.last() == t.last());
        assert(has_key(s, k)) by {
            assert(t[t.len() - 1].0 == k);
        }
        let i = choose|i: int| 0 <= i < s.len() && s[i].0 == k;
        assert((s + t.drop_last())[i] == s[i]);
        assert(has_key(u.drop_last(), k));
        assert forall|i: int| 0 <= i < t.drop_last().len() implies has_key(
            s,
            #[trigger] t.drop_last()[i].0,
        ) by {
            assert(t.drop_last()[i] == t[i]);
        }
        lemma_dedup_absorb(s, t.drop_last());
    }
}

/// Deduplication keeps, for every address it carries, the color of the
/// stream's first entry with that address.
pub proof fn lemma_dedup_first_value<T>(s: Seq<(VoxelPoint, T)>, k: VoxelPoint)
    requires
        has_key(s, k),
    ensures
        has_key(dedup_first(s), k),
        first_value(dedup_first(s), k) == first_value(s, k),
    decreases s.len(),
{
    lemma_dedup_has_key(s, k);
    let d = s.drop_last();
    let x = s.last();
    lemma_has_key_unlast(s, k);
    if has_key(d, x.0) {
        if has_key(d, k) {
            lemma_dedup_first_value(d, k);
            lemma_first_index_unlast(s, k);
            lemma_first_index(d, k);
            assert(s[first_index(d, k)] == d[first_index(d, k)]);
        } else {
            assert(x.0 == k);
            assert(false);
        }
    } else {
        let t = dedup_first(d);
        if has_key(d, k) {
            lemma_dedup_first_value(d, k);
            lemma_first_index_unlast(s, k);
            lemma_first_index(d, k);
            assert(s[first_index(d, k)] == d[first_index(d, k)]);
            lemma_dedup_has_key(d, k);
            lemma_first_index_push(t, x, k);
            lemma_first_index(t, k);
            assert(t.push(x)[first_index(t, k)] == t[first_index(t, k)]);
        } else {
            assert(x.0 == k);
            lemma_first_index(s, k);
            if first_index(s, k) < s.len() - 1 {
                assert(d[first_index(s, k)] == s[first_index(s, k)]);
                assert(false);
            }
            assert(first_value(s, k) == x.1);
            lemma_dedup_has_key(d, k);
            lemma_first_index_push_absent(t, x, k);
            assert(t.push(x)[t.len() as int] == x);
        }
    }
}

} // verus!
