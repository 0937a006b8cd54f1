use crate::model::BoardModel;
use crate::model::Proposal;
use crate::order::is_ascending;
use crate::order::lemma_ascending_lists;
use crate::order::lemma_cells_finite;
use crate::position::lemma_wrapped_on_board;
use crate::position::on_board;
use crate::position::precedes;
use crate::position::Position;
use vstd::prelude::*;

verus! {

/// What the decide phase hands to the apply phase, for any cells taken in
/// ascending order: the moves start from cells of `cells`, in ascending order
/// themselves; each is what the ship on its starting cell asks for; and every
/// ship on `cells` that asks to move has its move in the list.
pub proof fn lemma_proposals_among(board: BoardModel, cells: Seq<Position>)
    requires
        is_ascending(cells),
    ensures
        forall|i: int, j: int|
            0 <= i < j < board.proposals_among(cells).len() ==> precedes(
                (#[trigger] board.proposals_among(cells)[i]).0,
                (#[trigger] board.proposals_among(cells)[j]).0,
            ),
        forall|i: int|
            0 <= i < board.proposals_among(cells).len() ==> cells.contains(
                (#[trigger] board.proposals_among(cells)[i]).0,
            ) && board.target(board.proposals_among(cells)[i].0) == Some(
                board.proposals_among(cells)[i].1,
            ),
        forall|k: int|
            0 <= k < cells.len() && board.target(#[trigger] cells[k]) is Some
                ==> board.proposals_among(cells).contains((cells[k], board.target(cells[k])->0)),
    decreases cells.len(),
{
    let moves = board.proposals_among(cells);
    if cells.len() > 0 {
        let front = cells.drop_last();
        let top = cells.last();
        let earlier = board.proposals_among(front);
        assert(is_ascending(front)) by {
            assert forall|i: int, j: int| 0 <= i < j < front.len() implies precedes(
                #[trigger] front[i],
                #[trigger] front[j],
            ) by {
                assert(precedes(cells[i], cells[j]));
            }
        }
        lemma_proposals_among(board, front);
        assert forall|i: int| 0 <= i < earlier.len() implies cells.contains(
            (#[trigger] earlier[i]).0,
        ) && precedes(earlier[i].0, top) by {
            assert(front.contains(earlier[i].0));
            let k = choose|k: int| 0 <= k < front.len() && front[k] == earlier[i].0;
            assert(cells[k] == earlier[i].0);
            assert(precedes(cells[k], cells[cells.len() - 1]));
        }
        assert forall|i: int| 0 <= i < moves.len() implies cells.contains((#[trigger] moves[i]).0)
            && board.target(moves[i].0) == Some(moves[i].1) by {
            if i < earlier.len() {
                assert(moves[i] == earlier[i]);
            } else {
                assert(cells[cells.len() - 1] == top);
            }
        }
        assert forall|i: int, j: int| 0 <= i < j < moves.len() implies precedes(
            (#[trigger] moves[i]).0,
            (#[trigger] moves[j]).0,
        ) by {
            assert(moves[i] == earlier[i]);
            if j < earlier.len() {
                assert(moves[j] == earlier[j]);
            }
        }
        assert forall|k: int|
            0 <= k < cells.len() && board.target(#[trigger] cells[k]) is Some implies moves.contains(
            (cells[k], board.target(cells[k])->0),
        ) by {
            if k < front.len() {
                assert(front[k] == cells[k]);
                let m = (cells[k], board.target(cells[k])->0);
                assert(earlier.contains(m));
                let i = choose|i: int| 0 <= i < earlier.len() && earlier[i] == m;
                assert(moves[i] == m);
            } else {
                assert(moves[moves.len() - 1] == (top, board.target(top)->0));
            }
        }
    }
}

/// The moves asked for at a tick start from occupied cells, in ascending
/// order, so that no ship is asked to move twice; each is what the ship on its
/// starting cell asks for; and every ship that asks to move has its move in
/// the list.
pub proof fn lemma_proposals(board: BoardModel)
    ensures
        forall|i: int, j: int|
            0 <= i < j < board.proposals().len() ==> precedes(
                (#[trigger] board.proposals()[i]).0,
                (#[trigger] board.proposals()[j]).0,
            ),
        forall|i: int|
            0 <= i < board.proposals().len() ==> board.occupied((#[trigger] board.proposals()[i]).0)
                && board.target(board.proposals()[i].0) == Some(board.proposals()[i].1),
        forall|p: Position|
            board.occupied(p) && board.target(p) is Some ==> board.proposals().contains(
                (p, #[trigger] board.target(p)->0),
            ),
{
    let cells = board.cells();
    let moves = board.proposals();
    lemma_ascending_lists(board.ships.dom());
    lemma_proposals_among(board, cells);
    assert forall|p: Position| board.occupied(p) && board.target(p) is Some implies moves.contains(
        (p, #[trigger] board.target(p)->0),
    ) by {
        assert(cells.contains(p));
        let k = choose|k: int| 0 <= k < cells.len() && cells[k] == p;
        assert(board.target(cells[k]) is Some);
    }
}

/// Every move that is asked for aims at a cell on the board.
pub proof fn lemma_proposals_aim_on_board(board: BoardModel, cells: Seq<Position>)
    requires
        board.wf(),
    ensures
        forall|i: int|
            0 <= i < board.proposals_among(cells).len() ==> on_board(
                (#[trigger] board.proposals_among(cells)[i]).1,
                board.width,
                board.height,
            ),
    decreases cells.len(),
{
    let moves = board.proposals_among(cells);
    if cells.len() > 0 {
        let earlier = board.proposals_among(cells.drop_last());
        lemma_proposals_aim_on_board(board, cells.drop_last());
        lemma_wrapped_on_board(cells.last(), board.width, board.height);
        assert forall|i: int| 0 <= i < moves.len() implies on_board(
            (#[trigger] moves[i]).1,
            board.width,
            board.height,
        ) by {
            if i < earlier.len() {
                assert(moves[i] == earlier[i]);
            }
        }
    }
}

/// Carrying out one list of moves and then another is carrying out the two
/// lists joined.
pub proof fn lemma_applied_in_two_parts(board: BoardModel, first: Seq<Proposal>, then: Seq<Proposal>)
    ensures
        board.applied(first + then) == board.applied(first).applied(then),
    decreases then.len(),
{
    if then.len() == 0 {
        assert(first + then =~= first);
    } else {
        assert((first + then).drop_last() =~= first + then.drop_last());
        lemma_applied_in_two_parts(board, first, then.drop_last());
    }
}

/// Asking a ship to move neither adds nor removes a ship, whether the move
/// is carried out or dropped.
pub proof fn lemma_relocated_keeps_count(board: BoardModel, from: Position, to: Position)
    ensures
        board.relocated(from, to).width == board.width,
        board.relocated(from, to).height == board.height,
        board.relocated(from, to).count() == board.count(),
{
    lemma_cells_finite(board.ships.dom());
    if board.occupied(from) && !board.collides(from, to) {
        let lifted = board.ships.remove(from);
        assert(lifted.dom() =~= board.ships.dom().remove(from));
        assert(lifted.insert(to, board.ships[from]).dom() =~= lifted.dom().insert(to));
    }
}

/// Carrying out any sequence of moves neither adds nor removes a ship.
pub proof fn lemma_applied_keeps_count(board: BoardModel, moves: Seq<Proposal>)
    ensures
        board.applied(moves).width == board.width,
        board.applied(moves).height == board.height,
        board.applied(moves).count() == board.count(),
    decreases moves.len(),
{
    if moves.len() > 0 {
        lemma_applied_keeps_count(board, moves.drop_last());
        lemma_relocated_keeps_count(board.applied(moves.drop_last()), moves.last().0, moves.last().1);
    }
}

/// A move that is carried out ends on its target, and a move that is dropped
/// leaves every ship where it was: if all ships were on the board and the
/// target is, all ships are on the board afterwards.
pub proof fn lemma_relocated_stays_on_board(board: BoardModel, from: Position, to: Position)
    requires
        board.all_on_board(),
        on_board(to, board.width, board.height),
    ensures
        board.relocated(from, to).all_on_board(),
{
    let after = board.relocated(from, to);
    assert forall|p: Position| after.occupied(p) implies on_board(p, after.width, after.height) by {
        if p != to {
            assert(board.occupied(p));
        }
    }
}

/// Moves that aim at cells on the board take no ship off the board.
pub proof fn lemma_applied_stays_on_board(board: BoardModel, moves: Seq<Proposal>)
    requires
        board.all_on_board(),
        forall|i: int| 0 <= i < moves.len() ==> on_board((#[trigger] moves[i]).1, board.width, board.height),
    ensures
        board.applied(moves).all_on_board(),
        board.applied(moves).width == board.width,
        board.applied(moves).height == board.height,
    decreases moves.len(),
{
    if moves.len() > 0 {
        assert forall|i: int| 0 <= i < moves.drop_last().len() implies on_board(
            (#[trigger] moves.drop_last()[i]).1,
            board.width,
            board.height,
        ) by {
            assert(moves.drop_last()[i] == moves[i]);
        }
        lemma_applied_stays_on_board(board, moves.drop_last());
        lemma_relocated_stays_on_board(board.applied(moves.drop_last()), moves.last().0, moves.last().1);
    }
}

/// A free cell that no move aims at stays free.
pub proof fn lemma_applied_keeps_free(board: BoardModel, moves: Seq<Proposal>, cell: Position)
    requires
        !board.occupied(cell),
        forall|i: int| 0 <= i < moves.len() ==> (#[trigger] moves[i]).1 != cell,
    ensures
        !board.applied(moves).occupied(cell),
    decreases moves.len(),
{
    if moves.len() > 0 {
        assert forall|i: int| 0 <= i < moves.drop_last().len() implies (#[trigger] moves.drop_last()[i]).1
            != cell by {
            assert(moves.drop_last()[i] == moves[i]);
        }
        lemma_applied_keeps_free(board, moves.drop_last(), cell);
        assert(moves.last() == moves[moves.len() - 1]);
    }
}

/// A ship that no move starts from stays on its cell: no other ship can take
/// the cell from it.
pub proof fn lemma_applied_keeps_ship(board: BoardModel, moves: Seq<Proposal>, cell: Position)
    requires
        board.occupied(cell),
        forall|i: int| 0 <= i < moves.len() ==> (#[trigger] moves[i]).0 != cell,
    ensures
        board.applied(moves).occupied(cell),
        board.applied(moves).ships[cell] == board.ships[cell],
    decreases moves.len(),
{
    if moves.len() > 0 {
        assert forall|i: int| 0 <= i < moves.drop_last().len() implies (#[trigger] moves.drop_last()[i]).0
            != cell by {
            assert(moves.drop_last()[i] == moves[i]);
        }
        lemma_applied_keeps_ship(board, moves.drop_last(), cell);
        assert(moves.last() == moves[moves.len() - 1]);
    }
}

/// Carrying out moves that start from occupied cells, no two from the same:
/// the ship of each move ends on the cell it asked for, or, if the move was
/// dropped, on the cell it started from.
pub proof fn lemma_applied_move_or_stay(board: BoardModel, moves: Seq<Proposal>, turn: int)
    requires
        0 <= turn < moves.len(),
        forall|i: int| 0 <= i < moves.len() ==> board.occupied((#[trigger] moves[i]).0),
        forall|i: int, j: int|
            0 <= i < j < moves.len() ==> (#[trigger] moves[i]).0 != (#[trigger] moves[j]).0,
    ensures
        ({
            let after = board.applied(moves);
            let from = moves[turn].0;
            let to = moves[turn].1;
            ||| after.occupied(to) && after.ships[to] == board.ships[from]
            ||| after.occupied(from) && after.ships[from] == board.ships[from]
        }),
{
    let from = moves[turn].0;
    let to = moves[turn].1;
    let before = moves.take(turn);
    let rest = moves.skip(turn + 1);
    let served = before.push(moves[turn]);
    assert(moves =~= served + rest);
    assert(served.drop_last() =~= before);
    lemma_applied_in_two_parts(board, served, rest);
    let at_turn = board.applied(before);
    lemma_applied_keeps_ship(board, before, from);
    let done = board.applied(served);
    assert(done == at_turn.relocated(from, to));
    if at_turn.collides(from, to) {
        assert forall|j: int| 0 <= j < rest.len() implies (#[trigger] rest[j]).0 != from by {
            assert(rest[j] == moves[turn + 1 + j]);
        }
        lemma_applied_keeps_ship(done, rest, from);
    } else {
        // A cell that a later move starts from is still occupied, so the
        // move would have collided there.
        assert forall|j: int| 0 <= j < rest.len() implies (#[trigger] rest[j]).0 != to by {
            assert(rest[j] == moves[turn + 1 + j]);
            if rest[j].0 == to {
                lemma_applied_keeps_ship(board, before, to);
            }
        }
        lemma_applied_keeps_ship(done, rest, to);
    }
}

/// Where several moves aim at one free cell, the first of them in the list
/// is carried out and the others are dropped. Stated for moves that start
/// from occupied cells, no two from the same: the ship of move `first`, the
/// earliest that aims at `moves[first].1`, ends on that cell, and the ship of
/// every other move that aims there ends where it started.
pub proof fn lemma_applied_first_come_first_served(board: BoardModel, moves: Seq<Proposal>, first: int)
    requires
        0 <= first < moves.len(),
        !board.occupied(moves[first].1),
        forall|i: int| 0 <= i < moves.len() ==> board.occupied((#[trigger] moves[i]).0),
        forall|i: int, j: int|
            0 <= i < j < moves.len() ==> (#[trigger] moves[i]).0 != (#[trigger] moves[j]).0,
        forall|i: int| 0 <= i < first ==> (#[trigger] moves[i]).1 != moves[first].1,
    ensures
        board.applied(moves).occupied(moves[first].1),
        board.applied(moves).ships[moves[first].1] == board.ships[moves[first].0],
        forall|i: int|
            0 <= i < moves.len() && i != first && (#[trigger] moves[i]).1 == moves[first].1
                ==> board.applied(moves).occupied(moves[i].0) && board.applied(moves).ships[moves[i].0]
                == board.ships[moves[i].0],
{
    let from = moves[first].0;
    let to = moves[first].1;
    let before = moves.take(first);
    let after = moves.skip(first + 1);
    let served = before.push(moves[first]);
    assert(moves =~= served + after);
    assert(served.drop_last() =~= before);
    lemma_applied_in_two_parts(board, served, after);
    // Up to its turn nothing has touched the first asker or its target.
    let at_turn = board.applied(before);
    lemma_applied_keeps_free(board, before, to);
    lemma_applied_keeps_ship(board, before, from);
    let taken = board.applied(served);
    assert(taken == at_turn.relocated(from, to));
    assert(taken.occupied(to) && taken.ships[to] == board.ships[from]);
    // Nothing that follows starts from the target, so the ship stays there.
    assert forall|i: int| 0 <= i < after.len() implies (#[trigger] after[i]).0 != to by {
        assert(after[i] == moves[first + 1 + i]);
        assert(board.occupied(moves[first + 1 + i].0));
    }
    lemma_applied_keeps_ship(taken, after, to);
    assert forall|i: int|
        0 <= i < moves.len() && i != first && (#[trigger] moves[i]).1 == to implies board.applied(
        moves,
    ).occupied(moves[i].0) && board.applied(moves).ships[moves[i].0] == board.ships[moves[i].0] by {
        let loser = moves[i].0;
        assert(i > first);
        let k = i - first - 1;
        let between = after.take(k);
        let rest = after.skip(k + 1);
        let tried = between.push(after[k]);
        assert(after[k] == moves[i]);
        assert(after =~= tried + rest);
        assert(tried.drop_last() =~= between);
        lemma_applied_in_two_parts(taken, tried, rest);
        // Up to its turn the loser has not been touched.
        assert forall|j: int| 0 <= j < served.len() implies (#[trigger] served[j]).0 != loser by {
            assert(served[j] == moves[j]);
        }
        lemma_applied_keeps_ship(board, served, loser);
        assert forall|j: int| 0 <= j < between.len() implies (#[trigger] between[j]).0 != loser
            && between[j].0 != to by {
            assert(between[j] == moves[first + 1 + j]);
            assert(board.occupied(moves[first + 1 + j].0));
        }
        lemma_applied_keeps_ship(taken, between, loser);
        lemma_applied_keeps_ship(taken, between, to);
        // At its turn the target is taken, so the loser stays.
        let at_try = taken.applied(between);
        assert(at_try.collides(loser, to));
        assert(taken.applied(tried) == at_try);
        assert forall|j: int| 0 <= j < rest.len() implies (#[trigger] rest[j]).0 != loser by {
            assert(rest[j] == moves[i + 1 + j]);
        }
        lemma_applied_keeps_ship(at_try, rest, loser);
    }
}

} // verus!
