use crate::action::ShipAction;
use crate::board::GameState;
use crate::laws::lemma_tick_keeps_count;
use crate::model::Proposal;
use crate::order::lemma_ascending_no_duplicates;
use crate::order::lists;
use crate::phases::lemma_applied_keeps_count;
use crate::position::Position;
use vstd::prelude::*;

verus! {

impl GameState {
    /// First half of a tick. Every ship decides, in ascending order of the
    /// cells; each looks at nothing but its own counters, and no ship enters,
    /// leaves or changes cell. The result holds the moves that were asked for,
    /// in the same order.
    pub fn decide_phase(&mut self) -> (moves: Vec<Proposal>)
        ensures
            old(self)@.wf(),
            final(self)@.wf(),
            final(self)@ == old(self)@.decided(),
            moves@ == old(self)@.proposals(),
    {
        let ghost before = self@;
        let cells = self.cells();
        let grid = self.grid();
        let mut moves: Vec<Proposal> = Vec::new();
        let mut i: usize = 0;
        proof {
            lemma_ascending_no_duplicates(cells@);
            assert(cells@.take(0) =~= Seq::<Position>::empty());
        }
        while i < cells.len()
            invariant
                i <= cells.len(),
                cells@ == before.cells(),
                lists(cells@, before.ships.dom()),
                cells@.no_duplicates(),
                before.wf(),
                self@.wf(),
                self@.width == before.width,
                self@.height == before.height,
                grid.width() == before.width,
                grid.height() == before.height,
                self@.ships.dom() == before.ships.dom(),
                forall|j: int|
                    0 <= j < i ==> self@.ships[#[trigger] cells@[j]] == before.ships[cells@[j]].advanced(),
                forall|j: int|
                    i <= j < cells@.len() ==> self@.ships[#[trigger] cells@[j]] == before.ships[cells@[j]],
                moves@ == before.proposals_among(cells@.take(i as int)),
            decreases cells.len() - i,
        {
            let pos = cells[i];
            assert(cells@.contains(pos));
            assert(cells@.take(i + 1).drop_last() =~= cells@.take(i as int));
            match self.decide_at(pos) {
                Some(ShipAction::Move(dx, dy)) => {
                    moves.push((pos, grid.wrapping_add(pos, dx, dy)));
                },
                Some(ShipAction::Stay) => {},
                None => {},
            }
            proof {
                assert(self@.ships.dom() =~= before.ships.dom());
                assert forall|j: int| 0 <= j < i + 1 implies self@.ships[#[trigger] cells@[j]]
                    == before.ships[cells@[j]].advanced() by {
                    if j < i {
                        assert(cells@[j] != pos);
                    }
                }
                assert forall|j: int| i + 1 <= j < cells@.len() implies self@.ships[#[trigger] cells@[j]]
                    == before.ships[cells@[j]] by {
                    assert(cells@[j] != pos);
                }
            }
            i += 1;
        }
        proof {
            assert(cells@.take(cells@.len() as int) =~= cells@);
            assert forall|p: Position| self@.ships.contains_key(p) implies self@.ships[p]
                == before.decided().ships[p] by {
                assert(cells@.contains(p));
                let j = choose|j: int| 0 <= j < cells@.len() && cells@[j] == p;
                assert(self@.ships[cells@[j]] == before.ships[cells@[j]].advanced());
            }
            assert(self@.ships =~= before.decided().ships);
        }
        moves
    }

    /// Second half of a tick. The moves are carried out one after the other,
    /// in the order given. A move that would collide is dropped and its ship
    /// stays where it is; the moves after it are still carried out.
    pub fn apply_phase(&mut self, moves: &Vec<Proposal>)
        ensures
            final(self)@ == old(self)@.applied(moves@),
            final(self)@.count() == old(self)@.count(),
    {
        let ghost before = self@;
        let mut i: usize = 0;
        proof {
            assert(moves@.take(0) =~= Seq::<Proposal>::empty());
            lemma_applied_keeps_count(before, moves@);
        }
        while i < moves.len()
            invariant
                i <= moves.len(),
                self@ == before.applied(moves@.take(i as int)),
            decreases moves.len() - i,
        {
            let (from, to) = moves[i];
            assert(moves@.take(i + 1).drop_last() =~= moves@.take(i as int));
            // A move that is rejected is dropped; the tick goes on.
            let _ = self.move_ship(from, to);
            i += 1;
        }
        proof {
            assert(moves@.take(moves@.len() as int) =~= moves@);
        }
    }

    /// Advances the simulation by one tick: first every ship decides on the
    /// board as it stands, then the moves that were asked for are carried out
    /// in ascending order of the cells they start from. Where two ships ask
    /// for the same free cell, the one that starts from the smaller cell gets
    /// it and the other stays. A tick always completes, and neither adds nor
    /// removes a ship.
    pub fn game_tick(&mut self)
        ensures
            final(self)@.wf(),
            final(self)@ == old(self)@.ticked(),
            final(self)@.count() == old(self)@.count(),
    {
        let moves = self.decide_phase();
        self.apply_phase(&moves);
        proof {
            lemma_tick_keeps_count(old(self)@);
        }
    }
}

} // verus!
