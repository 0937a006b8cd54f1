use crate::position::precedes;
use crate::position::Position;
use vstd::laws_cmp::obeys_cmp;
use vstd::prelude::*;
use vstd::seq_lib::seq_to_set_is_finite;
use vstd::std_specs::btree::axiom_increasing_seq_meaning;
use vstd::std_specs::btree::increasing_seq;
use vstd::std_specs::cmp::OrdSpec;

verus! {

/// Whether `order` runs through its cells in strictly ascending order.
pub open spec fn is_ascending(order: Seq<Position>) -> bool {
    forall|i: int, j: int|
        0 <= i < j < order.len() ==> precedes(#[trigger] order[i], #[trigger] order[j])
}

/// Whether `order` holds exactly the cells of `cells`, in ascending order.
pub open spec fn lists(order: Seq<Position>, cells: Set<Position>) -> bool {
    &&& is_ascending(order)
    &&& forall|p: Position| cells.contains(p) <==> order.contains(p)
}

/// The cells of `cells` in ascending order. There is exactly one such
/// sequence, whatever the set: `lemma_ascending_lists`, `lemma_listing_unique`.
pub open spec fn ascending(cells: Set<Position>) -> Seq<Position> {
    choose|order: Seq<Position>| lists(order, cells)
}

/// An ascending sequence holds no cell twice.
pub proof fn lemma_ascending_no_duplicates(order: Seq<Position>)
    requires
        is_ascending(order),
    ensures
        order.no_duplicates(),
{
    assert forall|i: int, j: int| 0 <= i < order.len() && 0 <= j < order.len() && i != j implies order[i]
        != order[j] by {
        if i < j {
            assert(precedes(order[i], order[j]));
        } else {
            assert(precedes(order[j], order[i]));
        }
    }
}

/// Two ascending sequences that hold the same cells are equal.
pub proof fn lemma_listing_unique(a: Seq<Position>, b: Seq<Position>, cells: Set<Position>)
    requires
        lists(a, cells),
        lists(b, cells),
    ensures
        a == b,
    decreases a.len(),
{
    if a.len() == 0 {
        if b.len() > 0 {
            assert(b.contains(b[0]));
            assert(a.contains(b[0]));
        }
        assert(a =~= b);
    } else {
        let top = a.last();
        assert(a.contains(top));
        assert(b.contains(top));
        let k = choose|k: int| 0 <= k < b.len() && b[k] == top;
        assert(b.contains(b.last()));
        assert(a.contains(b.last()));
        let m = choose|m: int| 0 <= m < a.len() && a[m] == b.last();
        if m < a.len() - 1 {
            assert(precedes(a[m], a.last()));
            if k < b.len() - 1 {
                assert(precedes(b[k], b.last()));
            }
        }
        assert(b.last() == top);
        let rest = cells.remove(top);
        lemma_ascending_no_duplicates(a);
        lemma_ascending_no_duplicates(b);
        lemma_drop_last_lists(a, cells);
        lemma_drop_last_lists(b, cells);
        lemma_listing_unique(a.drop_last(), b.drop_last(), rest);
        assert(a =~= a.drop_last().push(top));
        assert(b =~= b.drop_last().push(top));
    }
}

/// Without its last cell, a listing lists the set without that cell.
proof fn lemma_drop_last_lists(order: Seq<Position>, cells: Set<Position>)
    requires
        lists(order, cells),
        order.len() > 0,
    ensures
        lists(order.drop_last(), cells.remove(order.last())),
{
    let front = order.drop_last();
    let top = order.last();
    assert forall|i: int, j: int| 0 <= i < j < front.len() implies precedes(
        #[trigger] front[i],
        #[trigger] front[j],
    ) by {
        assert(precedes(order[i], order[j]));
    }
    assert forall|p: Position| cells.remove(top).contains(p) <==> front.contains(p) by {
        if cells.remove(top).contains(p) {
            assert(order.contains(p));
            let i = choose|i: int| 0 <= i < order.len() && order[i] == p;
            assert(front[i] == p);
        }
        if front.contains(p) {
            let i = choose|i: int| 0 <= i < front.len() && front[i] == p;
            assert(order[i] == p);
            assert(precedes(order[i], order[order.len() - 1]));
            assert(order.contains(p));
        }
    }
}

/// Keys that a `BTreeMap` hands out in increasing order, as the standard
/// library compares pairs, are ascending as `precedes` has it.
pub proof fn lemma_increasing_keys_ascend(keys: Seq<&Position>)
    requires
        increasing_seq(keys),
    ensures
        is_ascending(keys.unref()),
{
    broadcast use vstd::laws_cmp::group_laws_cmp;

    assert(obeys_cmp::<&Position>());
    axiom_increasing_seq_meaning::<&Position>(keys);
    assert forall|i: int, j: int| 0 <= i < j < keys.len() implies precedes(
        #[trigger] keys.unref()[i],
        #[trigger] keys.unref()[j],
    ) by {
        assert((&keys[i]).cmp_spec(&keys[j]) is Less);
        assert(keys[i].cmp_spec(keys[j]) is Less);
    }
}

/// The place of a cell when all cells are counted in ascending order.
spec fn rank(p: Position) -> int {
    p.0 * 256 + p.1
}

/// The cell at place `rank`.
spec fn cell_at(rank: int) -> Position {
    ((rank / 256) as u8, (rank % 256) as u8)
}

/// The cells of `cells` whose place is below `bound`, in ascending order.
spec fn listed_below(cells: Set<Position>, bound: nat) -> Seq<Position>
    decreases bound,
{
    if bound == 0 {
        Seq::empty()
    } else {
        let earlier = listed_below(cells, (bound - 1) as nat);
        if cells.contains(cell_at(bound - 1)) {
            earlier.push(cell_at(bound - 1))
        } else {
            earlier
        }
    }
}

/// `listed_below` lists what it says.
proof fn lemma_listed_below(cells: Set<Position>, bound: nat)
    requires
        bound <= 65536,
    ensures
        is_ascending(listed_below(cells, bound)),
        forall|p: Position|
            #![trigger listed_below(cells, bound).contains(p)]
            #![trigger cells.contains(p)]
            listed_below(cells, bound).contains(p) <==> cells.contains(p) && rank(p) < bound,
    decreases bound,
{
    let listed = listed_below(cells, bound);
    if bound > 0 {
        let earlier = listed_below(cells, (bound - 1) as nat);
        let top = cell_at(bound - 1);
        lemma_listed_below(cells, (bound - 1) as nat);
        assert(rank(top) == bound - 1);
        assert forall|p: Position| rank(p) == bound - 1 implies p == top by {}
        if cells.contains(top) {
            assert forall|i: int, j: int| 0 <= i < j < listed.len() implies precedes(
                #[trigger] listed[i],
                #[trigger] listed[j],
            ) by {
                if j < earlier.len() {
                    assert(precedes(earlier[i], earlier[j]));
                } else {
                    assert(earlier.contains(earlier[i]));
                    assert(rank(earlier[i]) < rank(top));
                }
            }
            assert forall|p: Position| listed.contains(p) <==> cells.contains(p) && rank(p)
                < bound by {
                if listed.contains(p) {
                    let i = choose|i: int| 0 <= i < listed.len() && listed[i] == p;
                    if i < earlier.len() {
                        assert(earlier.contains(earlier[i]));
                    }
                }
                if cells.contains(p) && rank(p) < bound {
                    if rank(p) == bound - 1 {
                        assert(listed[earlier.len() as int] == p);
                    } else {
                        assert(earlier.contains(p));
                        let i = choose|i: int| 0 <= i < earlier.len() && earlier[i] == p;
                        assert(listed[i] == p);
                    }
                }
            }
        }
    }
}

/// Every set of cells has its ascending listing.
pub proof fn lemma_ascending_lists(cells: Set<Position>)
    ensures
        lists(ascending(cells), cells),
        ascending(cells).no_duplicates(),
{
    lemma_listed_below(cells, 65536);
    assert forall|p: Position| rank(p) < 65536 by {}
    assert(lists(listed_below(cells, 65536), cells));
    lemma_ascending_no_duplicates(ascending(cells));
}

/// There are only so many cells, so every set of cells is finite, and its
/// listing is as long as the set is large.
pub proof fn lemma_cells_finite(cells: Set<Position>)
    ensures
        cells.finite(),
        ascending(cells).len() == cells.len(),
{
    let order = ascending(cells);
    lemma_ascending_lists(cells);
    seq_to_set_is_finite(order);
    order.unique_seq_to_set();
    assert(order.to_set() =~= cells);
}

/// A sequence that lists `cells` is the one that `ascending` names.
pub proof fn lemma_ascending_is(order: Seq<Position>, cells: Set<Position>)
    requires
        lists(order, cells),
    ensures
        ascending(cells) == order,
{
    lemma_listing_unique(ascending(cells), order, cells);
}

} // verus!
