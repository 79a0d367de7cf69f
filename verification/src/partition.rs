//! What the registry validator's verdict means.
//!
//! The validator walks the consumed records and the produced records with
//! one cursor. Stated without the walk: it accepts exactly the transactions
//! whose outputs are their inputs with some ranges split. Such a transaction
//! changes nothing about which keys the registry covers, and it keeps ranges
//! that did not overlap from overlapping.

use vstd::prelude::*;
use crate::error::Error;
use crate::global_registry::{cover, linked_list_outcome, walk, RangeRecord};

verus! {

/// The outputs from `lo` up to `hi` rebuild the keys from `start` up to
/// `end`: there is at least one, each is a record whose range is not empty,
/// the first begins at `start`, each next one begins where the one before it
/// stopped, and the last stops at `end`.
pub open spec fn chain(outputs: Seq<RangeRecord>, lo: int, hi: int, start: nat, end: nat) -> bool {
    &&& 0 <= lo < hi <= outputs.len()
    &&& outputs[lo].start() == start
    &&& outputs[hi - 1].end() == end
    &&& forall|j: int|
        lo <= j < hi ==> (#[trigger] outputs[j]).is_record() && outputs[j].start()
            < outputs[j].end()
    &&& forall|j: int| lo <= j < hi - 1 ==> (#[trigger] outputs[j]).end() == outputs[j + 1].start()
}

/// `cuts` deals the outputs from `cursor` on out to the inputs from `from`
/// on, leaving none over: the outputs from `cuts[k]` up to `cuts[k + 1]`
/// rebuild the range of input `k`.
pub open spec fn splits_from(
    inputs: Seq<RangeRecord>,
    outputs: Seq<RangeRecord>,
    from: int,
    cursor: int,
    cuts: Seq<int>,
) -> bool {
    &&& cuts.len() == inputs.len() + 1
    &&& cuts[from] == cursor
    &&& cuts[inputs.len() as int] == outputs.len()
    &&& forall|k: int|
        from <= k < inputs.len() ==> (#[trigger] inputs[k]).is_record() && chain(
            outputs,
            cuts[k],
            cuts[k + 1],
            inputs[k].start(),
            inputs[k].end(),
        )
}

/// The outputs are the inputs with some ranges split: read from left to
/// right, they cover the keys of each input in turn by adjoining ranges that
/// are not empty, without a gap, an overlap or a range left over.
pub open spec fn refines(inputs: Seq<RangeRecord>, outputs: Seq<RangeRecord>) -> bool {
    exists|cuts: Seq<int>| splits_from(inputs, outputs, 0, 0, cuts)
}

/// Along a chain the keys at which the outputs stop grow.
proof fn lemma_chain_ends_grow(
    outputs: Seq<RangeRecord>,
    lo: int,
    hi: int,
    start: nat,
    end: nat,
    j: int,
)
    requires
        chain(outputs, lo, hi, start, end),
        lo <= j < hi - 1,
    ensures
        outputs[j].end() < end,
    decreases hi - j,
{
    if j + 1 < hi - 1 {
        lemma_chain_ends_grow(outputs, lo, hi, start, end, j + 1);
    }
}

/// Where the outputs from a cursor on can be used up to rebuild a range,
/// those that were used form a chain.
proof fn lemma_cover_gives_chain(outputs: Seq<RangeRecord>, cursor: int, start: nat, end: nat)
    requires
        cover(outputs, cursor, start, end) is Ok,
    ensures
        chain(outputs, cursor, cover(outputs, cursor, start, end)->Ok_0, start, end),
    decreases outputs.len() - cursor,
{
    let cell = outputs[cursor];
    if cell.end() != end {
        lemma_cover_gives_chain(outputs, cursor + 1, cell.end(), end);
    }
}

/// A chain of outputs is what rebuilding its range from its first output on
/// uses up.
proof fn lemma_chain_gives_cover(outputs: Seq<RangeRecord>, lo: int, hi: int, start: nat, end: nat)
    requires
        chain(outputs, lo, hi, start, end),
    ensures
        cover(outputs, lo, start, end) == Ok::<int, Error>(hi),
    decreases hi - lo,
{
    if hi != lo + 1 {
        lemma_chain_ends_grow(outputs, lo, hi, start, end, lo);
        lemma_chain_gives_cover(outputs, lo + 1, hi, outputs[lo].end(), end);
    }
}

/// Where the inputs from `from` on are accepted against the outputs from
/// `cursor` on, the outputs can be dealt out to them.
proof fn lemma_walk_gives_split(
    inputs: Seq<RangeRecord>,
    outputs: Seq<RangeRecord>,
    from: int,
    cursor: int,
)
    requires
        0 <= from <= inputs.len(),
        0 <= cursor <= outputs.len(),
        walk(inputs, outputs, from, cursor) is Ok,
    ensures
        exists|cuts: Seq<int>| splits_from(inputs, outputs, from, cursor, cuts),
    decreases inputs.len() - from,
{
    if from == inputs.len() {
        let cuts = Seq::new(inputs.len() + 1, |k: int| cursor);
        assert(splits_from(inputs, outputs, from, cursor, cuts));
    } else {
        let cell = inputs[from];
        let next = cover(outputs, cursor, cell.start(), cell.end())->Ok_0;
        lemma_cover_gives_chain(outputs, cursor, cell.start(), cell.end());
        let after = from + 1;
        lemma_walk_gives_split(inputs, outputs, after, next);
        let rest = choose|cuts: Seq<int>| splits_from(inputs, outputs, after, next, cuts);
        let cuts = rest.update(from, cursor);
        assert forall|k: int| from <= k < inputs.len() implies (#[trigger] inputs[k]).is_record()
            && chain(outputs, cuts[k], cuts[k + 1], inputs[k].start(), inputs[k].end()) by {
            if k > from {
                assert(inputs[k].is_record() && chain(
                    outputs,
                    rest[k],
                    rest[k + 1],
                    inputs[k].start(),
                    inputs[k].end(),
                ));
            }
        }
        assert(splits_from(inputs, outputs, from, cursor, cuts));
    }
}

/// Where the outputs from `cursor` on can be dealt out to the inputs from
/// `from` on, these inputs are accepted against those outputs.
proof fn lemma_split_gives_walk(
    inputs: Seq<RangeRecord>,
    outputs: Seq<RangeRecord>,
    from: int,
    cursor: int,
    cuts: Seq<int>,
)
    requires
        0 <= from <= inputs.len(),
        splits_from(inputs, outputs, from, cursor, cuts),
    ensures
        walk(inputs, outputs, from, cursor) is Ok,
    decreases inputs.len() - from,
{
    if from < inputs.len() {
        let cell = inputs[from];
        assert(cell.is_record() && chain(
            outputs,
            cuts[from],
            cuts[from + 1],
            cell.start(),
            cell.end(),
        ));
        lemma_chain_gives_cover(outputs, cursor, cuts[from + 1], cell.start(), cell.end());
        lemma_split_gives_walk(inputs, outputs, from + 1, cuts[from + 1], cuts);
    }
}

/// Partition conservation: a transaction is accepted exactly when its
/// outputs are its inputs with some ranges split. So the keys that the
/// consumed records covered are the keys that the produced records cover,
/// range for range and in the same order.
pub proof fn lemma_partition_conservation(inputs: Seq<RangeRecord>, outputs: Seq<RangeRecord>)
    ensures
        linked_list_outcome(inputs, outputs) is Ok <==> refines(inputs, outputs),
{
    if linked_list_outcome(inputs, outputs) is Ok {
        lemma_walk_gives_split(inputs, outputs, 0, 0);
    }
    if refines(inputs, outputs) {
        let cuts = choose|cuts: Seq<int>| splits_from(inputs, outputs, 0, 0, cuts);
        lemma_split_gives_walk(inputs, outputs, 0, 0, cuts);
    }
}

/// The range of some cell holds the key `x`.
pub open spec fn covered(cells: Seq<RangeRecord>, x: nat) -> bool {
    exists|i: int| 0 <= i < cells.len() && (#[trigger] cells[i]).holds(x)
}

/// No two of the cells have a key in common.
pub open spec fn disjoint(cells: Seq<RangeRecord>) -> bool {
    forall|a: int, b: int|
        0 <= a < cells.len() && 0 <= b < cells.len() && a != b ==> (#[trigger] cells[a]).end()
            <= (#[trigger] cells[b]).start() || cells[b].end() <= cells[a].start()
}

/// Every output of a chain lies within the range that the chain rebuilds.
proof fn lemma_chain_within(
    outputs: Seq<RangeRecord>,
    lo: int,
    hi: int,
    start: nat,
    end: nat,
    j: int,
)
    requires
        chain(outputs, lo, hi, start, end),
        lo <= j < hi,
    ensures
        start <= outputs[j].start() < outputs[j].end() <= end,
    decreases j - lo,
{
    if j < hi - 1 {
        lemma_chain_ends_grow(outputs, lo, hi, start, end, j);
    }
    if j > lo {
        lemma_chain_within(outputs, lo, hi, start, end, j - 1);
    }
}

/// Later outputs of a chain begin where earlier ones have stopped, or behind.
proof fn lemma_chain_in_order(
    outputs: Seq<RangeRecord>,
    lo: int,
    hi: int,
    start: nat,
    end: nat,
    a: int,
    b: int,
)
    requires
        chain(outputs, lo, hi, start, end),
        lo <= a < b < hi,
    ensures
        outputs[a].end() <= outputs[b].start(),
    decreases b - a,
{
    if b != a + 1 {
        lemma_chain_in_order(outputs, lo, hi, start, end, a, b - 1);
    }
}

/// A chain leaves no key of its range out: the output that holds `x`.
proof fn lemma_chain_covers(
    outputs: Seq<RangeRecord>,
    lo: int,
    hi: int,
    start: nat,
    end: nat,
    x: nat,
) -> (j: int)
    requires
        chain(outputs, lo, hi, start, end),
        start <= x < end,
    ensures
        lo <= j < hi,
        outputs[j].holds(x),
    decreases hi - lo,
{
    if x < outputs[lo].end() {
        lo
    } else {
        lemma_chain_covers(outputs, lo + 1, hi, outputs[lo].end(), end, x)
    }
}

/// The input to which a dealing-out gives output `j`, looked for from input
/// `from` on.
proof fn lemma_owner_of(
    inputs: Seq<RangeRecord>,
    outputs: Seq<RangeRecord>,
    cuts: Seq<int>,
    from: int,
    j: int,
) -> (k: int)
    requires
        splits_from(inputs, outputs, 0, 0, cuts),
        0 <= from <= inputs.len(),
        cuts[from] <= j < outputs.len(),
    ensures
        from <= k < inputs.len(),
        cuts[k] <= j < cuts[k + 1],
    decreases inputs.len() - from,
{
    assert(inputs[from].is_record() && chain(
        outputs,
        cuts[from],
        cuts[from + 1],
        inputs[from].start(),
        inputs[from].end(),
    ));
    if j < cuts[from + 1] {
        from
    } else {
        lemma_owner_of(inputs, outputs, cuts, from + 1, j)
    }
}

/// Splits only: in an accepted transaction every output is a record whose
/// range is not empty and lies within the range of one input.
pub proof fn lemma_outputs_within_inputs(inputs: Seq<RangeRecord>, outputs: Seq<RangeRecord>, j: int)
    requires
        linked_list_outcome(inputs, outputs) is Ok,
        0 <= j < outputs.len(),
    ensures
        outputs[j].is_record(),
        exists|k: int|
            0 <= k < inputs.len() && (#[trigger] inputs[k]).start() <= outputs[j].start()
                < outputs[j].end() <= inputs[k].end(),
{
    lemma_partition_conservation(inputs, outputs);
    let cuts = choose|cuts: Seq<int>| splits_from(inputs, outputs, 0, 0, cuts);
    let k = lemma_owner_of(inputs, outputs, cuts, 0, j);
    assert(inputs[k].is_record() && chain(
        outputs,
        cuts[k],
        cuts[k + 1],
        inputs[k].start(),
        inputs[k].end(),
    ));
    lemma_chain_within(outputs, cuts[k], cuts[k + 1], inputs[k].start(), inputs[k].end(), j);
}

/// Coverage is conserved: in an accepted transaction the produced records
/// hold exactly the keys that the consumed records held.
pub proof fn lemma_coverage_conserved(inputs: Seq<RangeRecord>, outputs: Seq<RangeRecord>, x: nat)
    requires
        linked_list_outcome(inputs, outputs) is Ok,
    ensures
        covered(inputs, x) <==> covered(outputs, x),
{
    lemma_partition_conservation(inputs, outputs);
    let cuts = choose|cuts: Seq<int>| splits_from(inputs, outputs, 0, 0, cuts);
    if covered(inputs, x) {
        let k = choose|k: int| 0 <= k < inputs.len() && (#[trigger] inputs[k]).holds(x);
        assert(inputs[k].is_record() && chain(
            outputs,
            cuts[k],
            cuts[k + 1],
            inputs[k].start(),
            inputs[k].end(),
        ));
        let j = lemma_chain_covers(
            outputs,
            cuts[k],
            cuts[k + 1],
            inputs[k].start(),
            inputs[k].end(),
            x,
        );
    }
    if covered(outputs, x) {
        let j = choose|j: int| 0 <= j < outputs.len() && (#[trigger] outputs[j]).holds(x);
        let k = lemma_owner_of(inputs, outputs, cuts, 0, j);
        assert(inputs[k].is_record() && chain(
            outputs,
            cuts[k],
            cuts[k + 1],
            inputs[k].start(),
            inputs[k].end(),
        ));
        lemma_chain_within(outputs, cuts[k], cuts[k + 1], inputs[k].start(), inputs[k].end(), j);
    }
}

/// The partition is kept: where the consumed records of an accepted
/// transaction have no key in common, neither have the produced records.
pub proof fn lemma_disjointness_kept(inputs: Seq<RangeRecord>, outputs: Seq<RangeRecord>)
    requires
        linked_list_outcome(inputs, outputs) is Ok,
        disjoint(inputs),
    ensures
        disjoint(outputs),
{
    lemma_partition_conservation(inputs, outputs);
    let cuts = choose|cuts: Seq<int>| splits_from(inputs, outputs, 0, 0, cuts);
    assert forall|a: int, b: int|
        0 <= a < outputs.len() && 0 <= b < outputs.len() && a != b implies (
    #[trigger] outputs[a]).end() <= (#[trigger] outputs[b]).start() || outputs[b].end()
        <= outputs[a].start() by {
        let ka = lemma_owner_of(inputs, outputs, cuts, 0, a);
        let kb = lemma_owner_of(inputs, outputs, cuts, 0, b);
        assert(inputs[ka].is_record() && chain(
            outputs,
            cuts[ka],
            cuts[ka + 1],
            inputs[ka].start(),
            inputs[ka].end(),
        ));
        assert(inputs[kb].is_record() && chain(
            outputs,
            cuts[kb],
            cuts[kb + 1],
            inputs[kb].start(),
            inputs[kb].end(),
        ));
        if ka == kb {
            if a < b {
                lemma_chain_in_order(
                    outputs,
                    cuts[ka],
                    cuts[ka + 1],
                    inputs[ka].start(),
                    inputs[ka].end(),
                    a,
                    b,
                );
            } else {
                lemma_chain_in_order(
                    outputs,
                    cuts[ka],
                    cuts[ka + 1],
                    inputs[ka].start(),
                    inputs[ka].end(),
                    b,
                    a,
                );
            }
        } else {
            lemma_chain_within(
                outputs,
                cuts[ka],
                cuts[ka + 1],
                inputs[ka].start(),
                inputs[ka].end(),
                a,
            );
            lemma_chain_within(
                outputs,
                cuts[kb],
                cuts[kb + 1],
                inputs[kb].start(),
                inputs[kb].end(),
                b,
            );
            assert(inputs[ka].end() <= inputs[kb].start() || inputs[kb].end()
                <= inputs[ka].start());
        }
    }
}

} // verus!
