//! Hart selection by bit mask.
use vstd::prelude::*;

verus! {

/// Whether bit `i` of `mask` is set.
pub open spec fn bit_set(mask: usize, i: usize) -> bool {
    (mask >> i) & 1 == 1
}

/// Whether hart `id` is selected by `mask` counted from `base`.
pub open spec fn selected(mask: usize, base: usize, id: usize) -> bool {
    exists|i: usize| i < usize::BITS && #[trigger] bit_set(mask, i) && base + i == id
}

/// The candidates among the low `n` bits of `mask`, in ascending order: every
/// selected hart id that fits a `usize` and is not the primary hart.
pub open spec fn candidates_below(primary: usize, mask: usize, base: usize, n: nat) -> Seq<usize>
    decreases n,
{
    if n == 0 {
        Seq::empty()
    } else {
        let i = (n - 1) as usize;
        let lower = candidates_below(primary, mask, base, (n - 1) as nat);
        if bit_set(mask, i) && base + i <= usize::MAX && base + i != primary {
            lower.push((base + i) as usize)
        } else {
            lower
        }
    }
}

/// The candidate harts of a run, in ascending order.
pub open spec fn candidates_of(primary: usize, mask: usize, base: usize) -> Seq<usize> {
    candidates_below(primary, mask, base, usize::BITS as nat)
}

/// Strictly ascending order.
pub open spec fn ascending(ids: Seq<usize>) -> bool {
    forall|i: int, j: int| 0 <= i < j < ids.len() ==> ids[i] < ids[j]
}

/// Membership and order of the candidates among the low `n` bits.
pub proof fn lemma_candidates_below(primary: usize, mask: usize, base: usize, n: nat)
    requires
        n <= usize::BITS,
    ensures
        ascending(candidates_below(primary, mask, base, n)),
        candidates_below(primary, mask, base, n).len() <= n,
        forall|k: int|
            0 <= k < candidates_below(primary, mask, base, n).len() ==> base <= (
            #[trigger] candidates_below(primary, mask, base, n)[k]) < base + n,
        forall|id: usize|
            candidates_below(primary, mask, base, n).contains(id) <==> (id != primary && exists|
                i: usize,
            | i < n && #[trigger] bit_set(mask, i) && base + i == id),
    decreases n,
{
    let here = candidates_below(primary, mask, base, n);
    if n > 0 {
        let i = (n - 1) as usize;
        let lower = candidates_below(primary, mask, base, (n - 1) as nat);
        lemma_candidates_below(primary, mask, base, (n - 1) as nat);
        let taken = bit_set(mask, i) && base + i <= usize::MAX && base + i != primary;
        assert forall|id: usize|
            here.contains(id) <==> (id != primary && exists|j: usize|
                j < n && #[trigger] bit_set(mask, j) && base + j == id) by {
            if here.contains(id) {
                let k = choose|k: int| 0 <= k < here.len() && here[k] == id;
                if taken && k == lower.len() {
                    assert(bit_set(mask, i) && base + i == id);
                } else {
                    assert(lower[k] == id);
                    assert(lower.contains(id));
                    let j = choose|j: usize|
                        j < n - 1 && #[trigger] bit_set(mask, j) && base + j == id;
                    assert(j < n && bit_set(mask, j) && base + j == id);
                }
            }
            if id != primary && exists|j: usize|
                j < n && #[trigger] bit_set(mask, j) && base + j == id {
                let j = choose|j: usize| j < n && #[trigger] bit_set(mask, j) && base + j == id;
                if j == i {
                    assert(taken);
                    assert(here[lower.len() as int] == id);
                } else {
                    assert(j < n - 1 && bit_set(mask, j) && base + j == id);
                    assert(lower.contains(id));
                    let k = choose|k: int| 0 <= k < lower.len() && lower[k] == id;
                    assert(here[k] == id);
                }
            }
        }
    } else {
        assert forall|id: usize|
            here.contains(id) <==> (id != primary && exists|j: usize|
                j < n && #[trigger] bit_set(mask, j) && base + j == id) by {
        }
    }
}

/// The candidates are exactly the selected harts other than the primary, each
/// once and in ascending order, all within one machine word's span above `base`.
pub proof fn lemma_candidates(primary: usize, mask: usize, base: usize)
    ensures
        ascending(candidates_of(primary, mask, base)),
        candidates_of(primary, mask, base).no_duplicates(),
        candidates_of(primary, mask, base).len() <= usize::BITS,
        !candidates_of(primary, mask, base).contains(primary),
        forall|id: usize|
            candidates_of(primary, mask, base).contains(id) <==> (id != primary && selected(
                mask,
                base,
                id,
            )),
        forall|k: int|
            0 <= k < candidates_of(primary, mask, base).len() ==> base <= (
            #[trigger] candidates_of(primary, mask, base)[k]) < base + usize::BITS,
{
    lemma_candidates_below(primary, mask, base, usize::BITS as nat);
}

/// Lists the harts that `mask` selects above `base`, leaving out the primary
/// hart and any id too large for a `usize`.
pub fn candidates(primary: usize, mask: usize, base: usize) -> (ids: Vec<usize>)
    ensures
        ids@ == candidates_of(primary, mask, base),
{
    let mut ids: Vec<usize> = Vec::new();
    let mut i: usize = 0;
    while i < usize::BITS as usize
        invariant
            i <= usize::BITS,
            ids@ == candidates_below(primary, mask, base, i as nat),
        decreases usize::BITS - i,
    {
        if (mask >> i) & 1 == 1 {
            match base.checked_add(i) {
                Some(id) => {
                    if id != primary {
                        ids.push(id);
                    }
                },
                None => {},
            }
        }
        i += 1;
    }
    ids
}

/// Whether a non-empty list of harts lies within one machine word's span above
/// its first entry, so that one mask counted from that entry can name them all.
pub open spec fn spans_word(ids: Seq<usize>) -> bool {
    &&& ids.len() > 0
    &&& forall|k: int| 0 <= k < ids.len() ==> ids[0] <= #[trigger] ids[k] < ids[0] + usize::BITS
}

/// The mask, counted from `ids[0]`, that has one bit for each of the first `n`
/// entries of `ids`.
pub open spec fn mask_over(ids: Seq<usize>, n: nat) -> usize
    decreases n,
{
    if n == 0 {
        0
    } else {
        mask_over(ids, (n - 1) as nat) | (1usize << ((ids[n - 1] - ids[0]) as usize))
    }
}

/// The mask, counted from `ids[0]`, that selects exactly the harts in `ids`.
pub open spec fn group_mask_of(ids: Seq<usize>) -> usize {
    mask_over(ids, ids.len())
}

proof fn lemma_bit_of_zero(i: usize)
    requires
        i < usize::BITS,
    ensures
        !bit_set(0, i),
{
    assert((0usize >> i) & 1 == 0) by (bit_vector)
        requires
            i < usize::BITS,
    ;
}

proof fn lemma_bit_of_or(m: usize, k: usize, i: usize)
    requires
        i < usize::BITS,
        k < usize::BITS,
    ensures
        bit_set(m | (1usize << k), i) == (bit_set(m, i) || i == k),
{
    assert((((m | (1usize << k)) >> i) & 1 == 1) == (((m >> i) & 1 == 1) || i == k))
        by (bit_vector)
        requires
            i < usize::BITS,
            k < usize::BITS,
    ;
}

/// Bit `i` of the mask over the first `n` entries is set exactly when one of
/// those entries is the hart `ids[0] + i`.
pub proof fn lemma_mask_over(ids: Seq<usize>, n: nat, i: usize)
    requires
        spans_word(ids),
        n <= ids.len(),
        i < usize::BITS,
    ensures
        bit_set(mask_over(ids, n), i) <==> exists|k: int| 0 <= k < n && #[trigger] ids[k] == ids[0] + i,
    decreases n,
{
    if n == 0 {
        lemma_bit_of_zero(i);
    } else {
        let shift = (ids[n - 1] - ids[0]) as usize;
        lemma_mask_over(ids, (n - 1) as nat, i);
        lemma_bit_of_or(mask_over(ids, (n - 1) as nat), shift, i);
        if bit_set(mask_over(ids, n), i) {
            if i == shift {
                assert(ids[n - 1] == ids[0] + i);
            } else {
                let k = choose|k: int| 0 <= k < n - 1 && #[trigger] ids[k] == ids[0] + i;
                assert(0 <= k < n && ids[k] == ids[0] + i);
            }
        }
        if exists|k: int| 0 <= k < n && #[trigger] ids[k] == ids[0] + i {
            let k = choose|k: int| 0 <= k < n && #[trigger] ids[k] == ids[0] + i;
            if k < n - 1 {
                assert(0 <= k < n - 1 && ids[k] == ids[0] + i);
            }
        }
    }
}

/// The group mask selects, counted from the first hart, exactly the harts of
/// the list.
pub proof fn lemma_group_mask(ids: Seq<usize>)
    requires
        spans_word(ids),
    ensures
        forall|id: usize| selected(group_mask_of(ids), ids[0], id) <==> ids.contains(id),
{
    let mask = group_mask_of(ids);
    assert forall|id: usize| selected(mask, ids[0], id) <==> ids.contains(id) by {
        if selected(mask, ids[0], id) {
            let i = choose|i: usize|
                i < usize::BITS && #[trigger] bit_set(mask, i) && ids[0] + i == id;
            lemma_mask_over(ids, ids.len(), i);
        }
        if ids.contains(id) {
            let k = choose|k: int| 0 <= k < ids.len() && ids[k] == id;
            let i = (ids[k] - ids[0]) as usize;
            lemma_mask_over(ids, ids.len(), i);
            assert(bit_set(mask, i) && ids[0] + i == id);
        }
    }
}

/// Builds the mask, counted from `ids[first]`, that selects the harts
/// `ids[first..end]` for one interrupt to all of them.
pub fn group_mask(ids: &Vec<usize>, first: usize, end: usize) -> (mask: usize)
    requires
        first < end <= ids.len(),
        spans_word(ids@.subrange(first as int, end as int)),
    ensures
        mask == group_mask_of(ids@.subrange(first as int, end as int)),
{
    let ghost group = ids@.subrange(first as int, end as int);
    let origin: usize = ids[first];
    let mut mask: usize = 0;
    let mut k: usize = first;
    while k < end
        invariant
            first <= k <= end <= ids.len(),
            group == ids@.subrange(first as int, end as int),
            spans_word(group),
            origin == group[0],
            mask == mask_over(group, (k - first) as nat),
        decreases end - k,
    {
        assert(ids[k as int] == group[k - first]);
        let shift: usize = ids[k] - origin;
        mask = mask | (1usize << shift);
        k += 1;
    }
    mask
}

} // verus!
