use crate::action::ShipAction;
use crate::model::BoardModel;
use crate::model::Proposal;
use crate::order::lemma_ascending_is;
use crate::order::lemma_ascending_lists;
use crate::order::lemma_cells_finite;
use crate::phases::lemma_applied_first_come_first_served;
use crate::phases::lemma_applied_keeps_count;
use crate::phases::lemma_applied_keeps_ship;
use crate::phases::lemma_applied_move_or_stay;
use crate::phases::lemma_applied_stays_on_board;
use crate::phases::lemma_proposals;
use crate::phases::lemma_proposals_aim_on_board;
use crate::position::lemma_wrap_over_edge;
use crate::position::on_board;
use crate::position::precedes;
use crate::position::Position;
use vstd::prelude::*;

verus! {

/// Deciding moves no ship: the same cells are occupied before and after, and
/// each ship has only advanced its own counters.
pub proof fn lemma_decided_keeps_cells(board: BoardModel)
    ensures
        board.decided().width == board.width,
        board.decided().height == board.height,
        board.decided().ships.dom() == board.ships.dom(),
        board.decided().count() == board.count(),
        forall|p: Position|
            board.occupied(p) ==> #[trigger] board.decided().ships[p] == board.ships[p].advanced(),
{
    assert(board.decided().ships.dom() =~= board.ships.dom());
}

/// A tick neither adds nor removes a ship.
pub proof fn lemma_tick_keeps_count(board: BoardModel)
    ensures
        board.ticked().width == board.width,
        board.ticked().height == board.height,
        board.ticked().count() == board.count(),
{
    lemma_decided_keeps_cells(board);
    lemma_applied_keeps_count(board.decided(), board.proposals());
}

/// However many ticks pass, the number of ships stays what it was.
pub proof fn lemma_ticks_keep_count(board: BoardModel, ticks: nat)
    ensures
        board.ticked_by(ticks).width == board.width,
        board.ticked_by(ticks).height == board.height,
        board.ticked_by(ticks).count() == board.count(),
    decreases ticks,
{
    if ticks > 0 {
        lemma_ticks_keep_count(board, (ticks - 1) as nat);
        lemma_tick_keeps_count(board.ticked_by((ticks - 1) as nat));
    }
}

/// What a tick does to each single ship: it advances the ship's counters,
/// and leaves the ship on its cell or puts it on the cell it was heading for.
/// No ship is lost, and none goes anywhere else. A ship that asked for nothing
/// stays.
pub proof fn lemma_tick_moves_or_keeps_each_ship(board: BoardModel, pos: Position)
    requires
        board.occupied(pos),
    ensures
        ({
            let after = board.ticked();
            let to = board.heading(pos);
            ||| after.occupied(to) && after.ships[to] == board.ships[pos].advanced()
            ||| after.occupied(pos) && after.ships[pos] == board.ships[pos].advanced()
        }),
{
    let moves = board.proposals();
    let decided = board.decided();
    lemma_proposals(board);
    assert(decided.ships.dom() =~= board.ships.dom());
    assert forall|i: int, j: int| 0 <= i < j < moves.len() implies (#[trigger] moves[i]).0 != (
    #[trigger] moves[j]).0 by {
        assert(precedes(moves[i].0, moves[j].0));
    }
    assert forall|i: int| 0 <= i < moves.len() implies decided.occupied((#[trigger] moves[i]).0) by {
        assert(board.occupied(moves[i].0));
    }
    match board.target(pos) {
        Some(to) => {
            assert(moves.contains((pos, board.target(pos)->0)));
            let turn = choose|i: int| 0 <= i < moves.len() && moves[i] == (pos, to);
            lemma_applied_move_or_stay(decided, moves, turn);
        },
        None => {
            assert forall|i: int| 0 <= i < moves.len() implies (#[trigger] moves[i]).0 != pos by {
                assert(board.target(moves[i].0) == Some(moves[i].1));
            }
            lemma_applied_keeps_ship(decided, moves, pos);
        },
    }
}

/// The collision rule of a tick. Where several ships ask for the same free
/// cell, the ship on the smallest cell gets it and every other one stays
/// where it is. All of them have decided, so the counters of all have
/// advanced.
pub proof fn lemma_tick_first_come_first_served(board: BoardModel, winner: Position, to: Position)
    requires
        board.occupied(winner),
        board.target(winner) == Some(to),
        !board.occupied(to),
        forall|p: Position|
            board.occupied(p) && precedes(p, winner) ==> #[trigger] board.target(p) != Some(to),
    ensures
        board.ticked().occupied(to),
        board.ticked().ships[to] == board.ships[winner].advanced(),
        forall|p: Position|
            board.occupied(p) && p != winner && #[trigger] board.target(p) == Some(to)
                ==> board.ticked().occupied(p) && board.ticked().ships[p] == board.ships[p].advanced(),
{
    let moves = board.proposals();
    let after = board.decided();
    lemma_proposals(board);
    assert(after.ships.dom() =~= board.ships.dom());
    assert(moves.contains((winner, board.target(winner)->0)));
    let first = choose|i: int| 0 <= i < moves.len() && moves[i] == (winner, to);
    assert forall|i: int, j: int| 0 <= i < j < moves.len() implies (#[trigger] moves[i]).0 != (
    #[trigger] moves[j]).0 by {
        assert(precedes(moves[i].0, moves[j].0));
    }
    assert forall|i: int| 0 <= i < first implies (#[trigger] moves[i]).1 != moves[first].1 by {
        assert(precedes(moves[i].0, moves[first].0));
        assert(board.target(moves[i].0) == Some(moves[i].1));
    }
    assert forall|i: int| 0 <= i < moves.len() implies after.occupied((#[trigger] moves[i]).0) by {
        assert(board.occupied(moves[i].0));
    }
    lemma_applied_first_come_first_served(after, moves, first);
    assert forall|p: Position|
        board.occupied(p) && p != winner && #[trigger] board.target(p) == Some(to) implies board.ticked().occupied(
        p,
    ) && board.ticked().ships[p] == board.ships[p].advanced() by {
        assert(moves.contains((p, board.target(p)->0)));
        let i = choose|i: int| 0 <= i < moves.len() && moves[i] == (p, to);
        assert(moves[i].1 == moves[first].1);
    }
}

/// A ship that is alone on the board always gets where it is heading: after
/// the tick it stands on the cell it asked for, or on its old cell if it asked
/// for nothing, and its counters have advanced.
pub proof fn lemma_tick_lone_ship(board: BoardModel, pos: Position)
    requires
        board.ships.dom() == set![pos],
    ensures
        board.ticked().ships == map![board.heading(pos) => board.ships[pos].advanced()],
{
    let cells = seq![pos];
    assert forall|p: Position| board.ships.dom().contains(p) <==> cells.contains(p) by {
        assert(cells[0] == pos);
    }
    lemma_ascending_is(cells, board.ships.dom());
    assert(cells.drop_last() =~= Seq::<Position>::empty());
    reveal_with_fuel(BoardModel::proposals_among, 2);
    reveal_with_fuel(BoardModel::applied, 2);
    let after = board.decided();
    lemma_decided_keeps_cells(board);
    match board.target(pos) {
        Some(to) => {
            let moves = seq![(pos, to)];
            assert(board.proposals() =~= moves);
            assert(moves.drop_last() =~= Seq::<Proposal>::empty());
            assert(after.applied(moves) == after.relocated(pos, to));
            assert(after.relocated(pos, to).ships =~= map![to => board.ships[pos].advanced()]);
        },
        None => {
            assert(board.proposals() =~= Seq::<Proposal>::empty());
            assert(after.ships =~= map![pos => board.ships[pos].advanced()]);
        },
    }
}

/// Two ships that ask for the same free cell at the same tick: the one on the
/// smaller cell gets it, the other stays where it is. Both have decided, so
/// the counters of both have advanced.
pub proof fn lemma_tick_contested_cell(board: BoardModel, first: Position, second: Position, to: Position)
    requires
        board.ships.dom() == set![first, second],
        precedes(first, second),
        board.target(first) == Some(to),
        board.target(second) == Some(to),
        !board.occupied(to),
    ensures
        board.ticked().ships == map![
            to => board.ships[first].advanced(),
            second => board.ships[second].advanced()
        ],
{
    let cells = seq![first, second];
    assert forall|p: Position| board.ships.dom().contains(p) <==> cells.contains(p) by {
        assert(cells[0] == first);
        assert(cells[1] == second);
    }
    lemma_ascending_is(cells, board.ships.dom());
    assert(cells.drop_last() =~= seq![first]);
    assert(seq![first].drop_last() =~= Seq::<Position>::empty());
    reveal_with_fuel(BoardModel::proposals_among, 3);
    reveal_with_fuel(BoardModel::applied, 3);
    let moves = seq![(first, to), (second, to)];
    assert(board.proposals_among(seq![first]) =~= seq![(first, to)]);
    assert(board.proposals() =~= moves);
    assert(moves.drop_last() =~= seq![(first, to)]);
    assert(seq![(first, to)].drop_last() =~= Seq::<Proposal>::empty());
    let after = board.decided();
    lemma_decided_keeps_cells(board);
    let halfway = after.relocated(first, to);
    assert(after.applied(seq![(first, to)]) == halfway);
    assert(board.ticked() == halfway.relocated(second, to));
    assert(halfway.occupied(to));
    assert(halfway.relocated(second, to).ships =~= map![
        to => board.ships[first].advanced(),
        second => board.ships[second].advanced()
    ]);
}

/// A ship on the bottom row of its column that asks to go one row down comes
/// out on the top row of the same column, provided that cell is free and no
/// ship that is served earlier asks for it too.
pub proof fn lemma_tick_wraps_bottom_row(board: BoardModel, x: u8)
    requires
        board.wf(),
        x < board.width,
        board.occupied((x, (board.height - 1) as u8)),
        board.ships[(x, (board.height - 1) as u8)].emitted() == ShipAction::Move(0, 1),
        !board.occupied((x, 0u8)),
        forall|p: Position|
            board.occupied(p) && precedes(p, (x, (board.height - 1) as u8)) ==> #[trigger] board.target(
                p,
            ) != Some((x, 0u8)),
    ensures
        board.ticked().occupied((x, 0u8)),
        board.ticked().ships[(x, 0u8)] == board.ships[(x, (board.height - 1) as u8)].advanced(),
{
    let pos = (x, (board.height - 1) as u8);
    lemma_wrap_over_edge(pos, board.width, board.height);
    lemma_tick_first_come_first_served(board, pos, (x, 0u8));
}

/// A tick takes no ship off the board: if every ship stood on a cell of the
/// board before, every ship does afterwards.
pub proof fn lemma_tick_stays_on_board(board: BoardModel)
    requires
        board.wf(),
        board.all_on_board(),
    ensures
        board.ticked().all_on_board(),
{
    lemma_decided_keeps_cells(board);
    assert forall|p: Position| board.decided().occupied(p) implies on_board(
        p,
        board.width,
        board.height,
    ) by {
        assert(board.occupied(p));
    }
    lemma_proposals_aim_on_board(board, board.cells());
    lemma_applied_stays_on_board(board.decided(), board.proposals());
}

/// The snapshot holds every ship exactly once: its cells are strictly
/// ascending, so no cell comes twice; each entry is an occupied cell with the
/// symbol of the ship on it; and every occupied cell has its entry.
pub proof fn lemma_snapshot_lists_each_ship_once(board: BoardModel)
    ensures
        board.snapshot().len() == board.count(),
        forall|i: int, j: int|
            0 <= i < j < board.snapshot().len() ==> precedes(
                (#[trigger] board.snapshot()[i]).0,
                (#[trigger] board.snapshot()[j]).0,
            ),
        forall|i: int|
            0 <= i < board.snapshot().len() ==> board.occupied((#[trigger] board.snapshot()[i]).0)
                && board.snapshot()[i].1 == board.ships[board.snapshot()[i].0].symbol,
        forall|p: Position|
            board.occupied(p) ==> exists|i: int|
                0 <= i < board.snapshot().len() && (#[trigger] board.snapshot()[i]).0 == p,
{
    let cells = board.cells();
    let shot = board.snapshot();
    lemma_ascending_lists(board.ships.dom());
    lemma_cells_finite(board.ships.dom());
    assert forall|i: int| 0 <= i < shot.len() implies board.occupied((#[trigger] shot[i]).0)
        && shot[i].1 == board.ships[shot[i].0].symbol by {
        assert(cells.contains(cells[i]));
    }
    assert forall|p: Position| board.occupied(p) implies exists|i: int|
        0 <= i < shot.len() && (#[trigger] shot[i]).0 == p by {
        assert(cells.contains(p));
        let k = choose|k: int| 0 <= k < cells.len() && cells[k] == p;
        assert(shot[k].0 == p);
    }
}

/// Two boards of the same size that hold the same ships on the same cells
/// stay alike however often both are ticked, and so do their snapshots.
pub proof fn lemma_same_start_same_snapshots(a: BoardModel, b: BoardModel, ticks: nat)
    requires
        a.width == b.width,
        a.height == b.height,
        forall|p: Position| a.occupied(p) == b.occupied(p),
        forall|p: Position| a.occupied(p) ==> a.ships[p] == b.ships[p],
    ensures
        a.ticked_by(ticks) == b.ticked_by(ticks),
        a.ticked_by(ticks).snapshot() == b.ticked_by(ticks).snapshot(),
{
    assert forall|p: Position| a.ships.contains_key(p) == b.ships.contains_key(p) by {
        assert(a.occupied(p) == b.occupied(p));
    }
    assert forall|p: Position| a.ships.contains_key(p) implies a.ships[p] == b.ships[p] by {
        assert(a.occupied(p));
    }
    assert(a.ships =~= b.ships);
}

} // verus!
