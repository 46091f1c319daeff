//! Index-based reassembly of outcome records into the result array.
//!
//! Records arrive in arbitrary completion order; each one is written into
//! the slot named by its index. The reassembly is order-independent by
//! construction, which the lemmas here state and prove.

use vstd::prelude::*;
use crate::batch::ResultStruct;

verus! {

/// Every record in `outs` is addressed inside a result array of length `n`.
pub open spec fn wf_outcomes(outs: Seq<ResultStruct>, n: nat) -> bool {
    forall|j: int| 0 <= j < outs.len() ==> (#[trigger] outs[j]).addressed(n)
}

/// The result of writing each record of `outs`, in order, into `init` at
/// the slot named by its index: later records for the same slot win.
pub open spec fn apply_outcomes(init: Seq<isize>, outs: Seq<ResultStruct>) -> Seq<isize>
    decreases outs.len(),
{
    if outs.len() == 0 {
        init
    } else {
        apply_outcomes(init, outs.drop_last()).update(outs.last().number as int, outs.last().size)
    }
}

/// There is a record in `outs` addressed to slot `i`.
pub open spec fn has_record(outs: Seq<ResultStruct>, i: int) -> bool {
    exists|j: int| 0 <= j < outs.len() && (#[trigger] outs[j]).number == i
}

/// The size carried by the last record in `outs` addressed to slot `i`
/// (meaningful only where `has_record(outs, i)` holds).
pub open spec fn last_size(outs: Seq<ResultStruct>, i: int) -> isize
    decreases outs.len(),
{
    if outs.len() == 0 {
        0
    } else if outs.last().number == i {
        outs.last().size
    } else {
        last_size(outs.drop_last(), i)
    }
}

/// No two records of `outs` share an index.
pub open spec fn unique_indices(outs: Seq<ResultStruct>) -> bool {
    forall|j: int, k: int|
        0 <= j < outs.len() && 0 <= k < outs.len()
            && (#[trigger] outs[j]).number == (#[trigger] outs[k]).number ==> j == k
}

/// Every slot of a result array of length `n` has a record addressed to it.
pub open spec fn covers_all(outs: Seq<ResultStruct>, n: int) -> bool {
    forall|i: int| 0 <= i < n ==> has_record(outs, i)
}

/// Dropping the last record keeps the rest addressed.
proof fn lemma_wf_drop_last(outs: Seq<ResultStruct>, n: nat)
    requires
        wf_outcomes(outs, n),
        outs.len() > 0,
    ensures
        wf_outcomes(outs.drop_last(), n),
{
    assert forall|j: int| 0 <= j < outs.drop_last().len() implies (#[trigger] outs.drop_last()[j])
        .addressed(n) by {
        assert(outs.drop_last()[j] == outs[j]);
    }
}

/// Reassembly keeps the array's length.
pub proof fn lemma_apply_len(init: Seq<isize>, outs: Seq<ResultStruct>)
    requires
        wf_outcomes(outs, init.len()),
    ensures
        apply_outcomes(init, outs).len() == init.len(),
    decreases outs.len(),
{
    if outs.len() > 0 {
        lemma_wf_drop_last(outs, init.len());
        lemma_apply_len(init, outs.drop_last());
        assert(outs.last().addressed(init.len()));
    }
}

/// Reassembly acts pointwise: a slot some record is addressed to holds the
/// size of the last such record, and every other slot keeps its initial
/// value.
pub proof fn lemma_apply_pointwise(init: Seq<isize>, outs: Seq<ResultStruct>, i: int)
    requires
        wf_outcomes(outs, init.len()),
        0 <= i < init.len(),
    ensures
        has_record(outs, i) ==> apply_outcomes(init, outs)[i] == last_size(outs, i),
        !has_record(outs, i) ==> apply_outcomes(init, outs)[i] == init[i],
    decreases outs.len(),
{
    lemma_apply_len(init, outs);
    if outs.len() > 0 {
        let prev = outs.drop_last();
        lemma_wf_drop_last(outs, init.len());
        lemma_apply_pointwise(init, prev, i);
        lemma_apply_len(init, prev);
        assert(outs.last().addressed(init.len()));
        if outs.last().number == i {
            assert(has_record(outs, i)) by {
                assert(outs[outs.len() - 1].number == i);
            }
        } else {
            assert(has_record(outs, i) ==> has_record(prev, i)) by {
                if has_record(outs, i) {
                    let j = choose|j: int| 0 <= j < outs.len() && (#[trigger] outs[j]).number == i;
                    assert(j != outs.len() - 1);
                    assert(prev[j] == outs[j]);
                }
            }
            assert(has_record(prev, i) ==> has_record(outs, i)) by {
                if has_record(prev, i) {
                    let j = choose|j: int| 0 <= j < prev.len() && (#[trigger] prev[j]).number == i;
                    assert(outs[j] == prev[j]);
                }
            }
        }
    }
}

/// The last record addressed to a slot is itself one of the batch's
/// records.
pub proof fn lemma_last_size_witness(outs: Seq<ResultStruct>, i: int)
    requires
        has_record(outs, i),
    ensures
        exists|j: int|
            0 <= j < outs.len() && (#[trigger] outs[j]).number == i && outs[j].size == last_size(
                outs,
                i,
            ),
    decreases outs.len(),
{
    let prev = outs.drop_last();
    if outs.last().number == i {
        assert(outs[outs.len() - 1].number == i && outs[outs.len() - 1].size == last_size(outs, i));
    } else {
        assert(has_record(prev, i)) by {
            let j = choose|j: int| 0 <= j < outs.len() && (#[trigger] outs[j]).number == i;
            assert(j != outs.len() - 1);
            assert(prev[j] == outs[j]);
        }
        lemma_last_size_witness(prev, i);
        let j = choose|j: int|
            0 <= j < prev.len() && (#[trigger] prev[j]).number == i && prev[j].size == last_size(
                prev,
                i,
            );
        assert(outs[j] == prev[j]);
        assert(outs[j].number == i && outs[j].size == last_size(outs, i));
    }
}

/// With unique indices, the one record addressed to a slot decides it.
pub proof fn lemma_last_size_unique(outs: Seq<ResultStruct>, i: int, j: int)
    requires
        unique_indices(outs),
        0 <= j < outs.len(),
        outs[j].number == i,
    ensures
        last_size(outs, i) == outs[j].size,
    decreases outs.len(),
{
    if outs.last().number == i {
        assert(outs[j].number == outs[outs.len() - 1].number);
        assert(j == outs.len() - 1);
    } else {
        let prev = outs.drop_last();
        assert(j != outs.len() - 1);
        assert(prev[j] == outs[j]);
        assert(unique_indices(prev)) by {
            assert forall|a: int, b: int|
                0 <= a < prev.len() && 0 <= b < prev.len() && (#[trigger] prev[a]).number == (
                #[trigger] prev[b]).number implies a == b by {
                assert(prev[a] == outs[a]);
                assert(prev[b] == outs[b]);
            }
        }
        lemma_last_size_unique(prev, i, j);
    }
}

/// Slot `i` of the reassembled array holds the size reported by a record
/// of `outs` addressed to it.
pub open spec fn slot_from_record(init: Seq<isize>, outs: Seq<ResultStruct>, i: int) -> bool {
    exists|j: int|
        0 <= j < outs.len() && (#[trigger] outs[j]).number == i && apply_outcomes(init, outs)[i]
            == outs[j].size
}

/// Completeness: after reassembling a batch with a record addressed to
/// every slot, the array keeps its length and every slot holds the size
/// reported by a record addressed to it — no slot is left at its initial
/// value by accident.
pub proof fn lemma_completeness(init: Seq<isize>, outs: Seq<ResultStruct>)
    requires
        wf_outcomes(outs, init.len()),
        covers_all(outs, init.len() as int),
    ensures
        apply_outcomes(init, outs).len() == init.len(),
        forall|i: int| 0 <= i < init.len() ==> #[trigger] slot_from_record(init, outs, i),
{
    lemma_apply_len(init, outs);
    assert forall|i: int| 0 <= i < init.len() implies #[trigger] slot_from_record(
        init,
        outs,
        i,
    ) by {
        assert(has_record(outs, i));
        lemma_apply_pointwise(init, outs, i);
        lemma_last_size_witness(outs, i);
        let j = choose|j: int|
            0 <= j < outs.len() && (#[trigger] outs[j]).number == i && outs[j].size == last_size(
                outs,
                i,
            );
        assert(outs[j].number == i && apply_outcomes(init, outs)[i] == outs[j].size);
    }
}

/// Index fidelity: where no two records share an index, the slot a record
/// is addressed to ends up holding exactly the size that record reported.
pub proof fn lemma_slot_holds_own_record(init: Seq<isize>, outs: Seq<ResultStruct>, j: int)
    requires
        wf_outcomes(outs, init.len()),
        unique_indices(outs),
        0 <= j < outs.len(),
    ensures
        apply_outcomes(init, outs)[outs[j].number as int] == outs[j].size,
{
    let i = outs[j].number as int;
    assert(outs[j].addressed(init.len()));
    lemma_apply_pointwise(init, outs, i);
    assert(has_record(outs, i));
    lemma_last_size_unique(outs, i, j);
}

/// Index fidelity: reassembly is order-independent. Two drains that carry
/// the same records — in whatever completion orders — rebuild the same
/// array, provided no two records share an index.
pub proof fn lemma_reassembly_order_independent(
    init: Seq<isize>,
    outs1: Seq<ResultStruct>,
    outs2: Seq<ResultStruct>,
)
    requires
        wf_outcomes(outs1, init.len()),
        wf_outcomes(outs2, init.len()),
        unique_indices(outs1),
        unique_indices(outs2),
        outs1.to_multiset() == outs2.to_multiset(),
    ensures
        apply_outcomes(init, outs1) == apply_outcomes(init, outs2),
{
    broadcast use vstd::seq_lib::group_to_multiset_ensures;

    lemma_apply_len(init, outs1);
    lemma_apply_len(init, outs2);
    assert forall|i: int| 0 <= i < init.len() implies apply_outcomes(init, outs1)[i]
        == apply_outcomes(init, outs2)[i] by {
        lemma_apply_pointwise(init, outs1, i);
        lemma_apply_pointwise(init, outs2, i);
        assert(has_record(outs1, i) ==> has_record(outs2, i) && apply_outcomes(init, outs1)[i]
            == apply_outcomes(init, outs2)[i]) by {
            if has_record(outs1, i) {
                lemma_record_carries_over(init, outs1, outs2, i);
            }
        }
        assert(has_record(outs2, i) ==> has_record(outs1, i)) by {
            if has_record(outs2, i) {
                let j = choose|j: int| 0 <= j < outs2.len() && (#[trigger] outs2[j]).number == i;
                let r = outs2[j];
                assert(outs2.contains(r));
                assert(outs2.to_multiset().count(r) > 0);
                assert(outs1.to_multiset().count(r) > 0);
                assert(outs1.contains(r));
                let k = choose|k: int| 0 <= k < outs1.len() && outs1[k] == r;
                assert(outs1[k].number == i);
            }
        }
    }
    assert(apply_outcomes(init, outs1) =~= apply_outcomes(init, outs2));
}

/// A record addressed to slot `i` in one drain stands in the other drain
/// too, and both drains settle that slot on its size.
proof fn lemma_record_carries_over(
    init: Seq<isize>,
    outs1: Seq<ResultStruct>,
    outs2: Seq<ResultStruct>,
    i: int,
)
    requires
        wf_outcomes(outs1, init.len()),
        wf_outcomes(outs2, init.len()),
        unique_indices(outs1),
        unique_indices(outs2),
        outs1.to_multiset() == outs2.to_multiset(),
        0 <= i < init.len(),
        has_record(outs1, i),
    ensures
        has_record(outs2, i),
        apply_outcomes(init, outs1)[i] == apply_outcomes(init, outs2)[i],
{
    broadcast use vstd::seq_lib::group_to_multiset_ensures;

    lemma_apply_pointwise(init, outs1, i);
    lemma_apply_pointwise(init, outs2, i);
    let j = choose|j: int| 0 <= j < outs1.len() && (#[trigger] outs1[j]).number == i;
    let r = outs1[j];
    assert(outs1.contains(r));
    assert(outs1.to_multiset().count(r) > 0);
    assert(outs2.to_multiset().count(r) > 0);
    assert(outs2.contains(r));
    let k = choose|k: int| 0 <= k < outs2.len() && outs2[k] == r;
    assert(outs2[k].number == i);
    lemma_last_size_unique(outs1, i, j);
    lemma_last_size_unique(outs2, i, k);
}

/// Overwrites one slot of the result array in place.
fn write_slot(results: &mut Vec<isize>, i: usize, v: isize)
    requires
        i < old(results)@.len(),
    ensures
        final(results)@ == old(results)@.update(i as int, v),
{
    let ghost before = results@;
    let _: isize = results.remove(i);
    results.insert(i, v);
    proof {
        assert(results@ =~= before.update(i as int, v));
    }
}

/// The collector: writes every outcome record of the drained channel into
/// the result array at the slot named by the record's index.
///
/// Records may stand in `outcomes` in any completion order; each slot ends
/// up holding the size reported by the record addressed to it (the last
/// such record, if several share an index), and slots no record addresses
/// keep their prior value.
pub fn consume_results(outcomes: &Vec<ResultStruct>, results: &mut Vec<isize>)
    requires
        wf_outcomes(outcomes@, old(results)@.len()),
    ensures
        final(results)@ == apply_outcomes(old(results)@, outcomes@),
        final(results)@.len() == old(results)@.len(),
{
    let ghost init = results@;
    let n = results.len();
    let mut k: usize = 0;
    while k < outcomes.len()
        invariant
            k <= outcomes@.len(),
            wf_outcomes(outcomes@, init.len()),
            n == init.len(),
            results@ == apply_outcomes(init, outcomes@.take(k as int)),
            results@.len() == init.len(),
        decreases outcomes@.len() - k,
    {
        let number = outcomes[k].number;
        let size = outcomes[k].size;
        proof {
            assert(outcomes@[k as int].addressed(init.len()));
            assert(outcomes@.take(k + 1).drop_last() =~= outcomes@.take(k as int));
            assert(outcomes@.take(k + 1).last() == outcomes@[k as int]);
        }
        write_slot(results, number, size);
        k = k + 1;
    }
    proof {
        assert(outcomes@.take(outcomes@.len() as int) =~= outcomes@);
    }
}

} // verus!
