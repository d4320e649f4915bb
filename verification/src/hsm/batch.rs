//! How the eligible harts are cut into batches.
use crate::hsm::engine::{State, TEST_BATCH_SIZE};
use vstd::prelude::*;

verus! {

/// How many batches the eligible harts make: as many full batches as there
/// are, and one more for the harts left over.
pub open spec fn batch_count(eligible: Seq<usize>) -> int {
    (eligible.len() + TEST_BATCH_SIZE - 1) / (TEST_BATCH_SIZE as int)
}

/// Index one past the last hart of batch `n`.
pub open spec fn batch_bound(eligible: Seq<usize>, n: int) -> int {
    if (n + 1) * TEST_BATCH_SIZE < eligible.len() {
        (n + 1) * TEST_BATCH_SIZE
    } else {
        eligible.len() as int
    }
}

/// Batch `n` of the eligible harts, counted from zero.
pub open spec fn nth_batch(eligible: Seq<usize>, n: int) -> Seq<usize> {
    eligible.subrange(n * TEST_BATCH_SIZE, batch_bound(eligible, n))
}

/// The first `n` batches put end to end.
pub open spec fn joined(eligible: Seq<usize>, n: nat) -> Seq<usize>
    decreases n,
{
    if n == 0 {
        Seq::empty()
    } else {
        joined(eligible, (n - 1) as nat) + nth_batch(eligible, n - 1)
    }
}

proof fn lemma_joined(eligible: Seq<usize>, n: nat)
    requires
        n <= batch_count(eligible),
    ensures
        joined(eligible, n) == eligible.take(
            if n * TEST_BATCH_SIZE < eligible.len() {
                n * TEST_BATCH_SIZE
            } else {
                eligible.len() as int
            },
        ),
    decreases n,
{
    if n == 0 {
        assert(eligible.take(0) =~= Seq::<usize>::empty());
    } else {
        lemma_joined(eligible, (n - 1) as nat);
        let from = (n - 1) * TEST_BATCH_SIZE;
        let to = batch_bound(eligible, n - 1);
        assert(from < eligible.len());
        assert(eligible.take(from) + eligible.subrange(from, to) =~= eligible.take(to));
    }
}

/// For every list of eligible harts, the batches put end to end are the list
/// itself: every eligible hart is in exactly one batch, the hart at index `i`
/// at place `i % TEST_BATCH_SIZE` of batch `i / TEST_BATCH_SIZE`. No batch is
/// empty, none holds more than `TEST_BATCH_SIZE` harts, and only the last may
/// hold fewer.
pub proof fn lemma_batches_cover(eligible: Seq<usize>)
    ensures
        joined(eligible, batch_count(eligible) as nat) == eligible,
        forall|n: int|
            0 <= n < batch_count(eligible) ==> 0 < (#[trigger] nth_batch(eligible, n)).len()
                <= TEST_BATCH_SIZE,
        forall|n: int|
            0 <= n < batch_count(eligible) - 1 ==> (#[trigger] nth_batch(eligible, n)).len()
                == TEST_BATCH_SIZE,
        forall|i: int|
            0 <= i < eligible.len() ==> 0 <= i / (TEST_BATCH_SIZE as int) < batch_count(eligible)
                && nth_batch(eligible, i / (TEST_BATCH_SIZE as int))[i % (TEST_BATCH_SIZE as int)]
                == #[trigger] eligible[i],
{
    let count = batch_count(eligible);
    lemma_joined(eligible, count as nat);
    assert(eligible.take(eligible.len() as int) =~= eligible);
}

/// While a batch is under way, it is one of the batches of the eligible
/// harts: the one numbered by how many batches came before it.
pub proof fn lemma_current_batch(state: State)
    requires
        state.wf(),
        state.phase.first_pass() || state.phase.second_pass(),
    ensures
        0 <= state.first / (TEST_BATCH_SIZE as int) < batch_count(state.eligible),
        state.batch() == nth_batch(state.eligible, state.first / (TEST_BATCH_SIZE as int)),
{
}

} // verus!
