use crate::action::ShipAction;
use crate::order::ascending;
use crate::position::on_board;
use crate::position::wrapped;
use crate::position::Position;
use crate::ship::ShipModel;
use vstd::prelude::*;

verus! {

/// A move that a ship asked for: the cell it stands on, then the cell it
/// wants to reach.
pub type Proposal = (Position, Position);

/// The character drawn for a cell that holds no ship.
pub const FILLER: char = '*';

/// A board and the ships on it, as the contracts see them: at most one ship
/// per cell, since the ships are the values of a map keyed by cell.
pub struct BoardModel {
    /// The number of columns.
    pub width: u8,
    /// The number of rows.
    pub height: u8,
    /// The ships, each under the cell it stands on.
    pub ships: Map<Position, ShipModel>,
}

impl BoardModel {
    /// A board without ships.
    pub open spec fn empty(width: u8, height: u8) -> BoardModel {
        BoardModel { width, height, ships: Map::empty() }
    }

    /// Holds of every board: it has at least one column and one row.
    pub open spec fn wf(self) -> bool {
        self.width > 0 && self.height > 0
    }

    /// Whether a ship stands on `pos`.
    pub open spec fn occupied(self, pos: Position) -> bool {
        self.ships.contains_key(pos)
    }

    /// Whether every ship stands on a cell of the board.
    pub open spec fn all_on_board(self) -> bool {
        forall|p: Position| self.occupied(p) ==> on_board(p, self.width, self.height)
    }

    /// How many ships there are.
    pub open spec fn count(self) -> nat {
        self.ships.dom().len()
    }

    /// The board with `ship` put on `pos`.
    pub open spec fn placed(self, pos: Position, ship: ShipModel) -> BoardModel {
        BoardModel { ships: self.ships.insert(pos, ship), ..self }
    }

    /// The board with `pos` left empty.
    pub open spec fn cleared(self, pos: Position) -> BoardModel {
        BoardModel { ships: self.ships.remove(pos), ..self }
    }

    /// Whether a ship that leaves `from` for `to` would run into another ship.
    /// A ship never collides with itself.
    pub open spec fn collides(self, from: Position, to: Position) -> bool {
        to != from && self.occupied(to)
    }

    /// The board after the ship on `from` was asked to go to `to`. It goes
    /// unless it would collide; then, and when there is no ship on `from`,
    /// the board stays as it is.
    pub open spec fn relocated(self, from: Position, to: Position) -> BoardModel {
        if self.occupied(from) && !self.collides(from, to) {
            BoardModel { ships: self.ships.remove(from).insert(to, self.ships[from]), ..self }
        } else {
            self
        }
    }

    /// The occupied cells in ascending order.
    pub open spec fn cells(self) -> Seq<Position> {
        ascending(self.ships.dom())
    }

    /// The occupied cells in ascending order, each with its ship's symbol.
    pub open spec fn snapshot(self) -> Seq<(Position, char)> {
        self.cells().map_values(|p: Position| (p, self.ships[p].symbol))
    }

    /// The character drawn at column `x` of row `y`.
    pub open spec fn glyph(self, x: int, y: int) -> char {
        if 0 <= x < self.width && 0 <= y < self.height && self.occupied((x as u8, y as u8)) {
            self.ships[(x as u8, y as u8)].symbol
        } else {
            FILLER
        }
    }

    /// The board drawn row by row: `height` rows of `width` characters.
    pub open spec fn frame(self) -> Seq<Seq<char>> {
        Seq::new(
            self.height as nat,
            |y: int| Seq::new(self.width as nat, |x: int| self.glyph(x, y)),
        )
    }

    /// The board after every ship has decided: each ship's counters have
    /// advanced, and no ship has left its cell.
    pub open spec fn decided(self) -> BoardModel {
        BoardModel { ships: self.ships.map_values(|s: ShipModel| s.advanced()), ..self }
    }

    /// Where the ship on `pos` asks to go at the next tick, if it asks to move.
    pub open spec fn target(self, pos: Position) -> Option<Position> {
        match self.ships[pos].emitted() {
            ShipAction::Move(dx, dy) => Some(wrapped(pos, dx, dy, self.width, self.height)),
            ShipAction::Stay => None,
        }
    }

    /// The cell that the ship on `pos` heads for at the next tick: its target
    /// if it asks to move, else the cell it stands on.
    pub open spec fn heading(self, pos: Position) -> Position {
        match self.target(pos) {
            Some(to) => to,
            None => pos,
        }
    }

    /// The moves asked for by the ships on `cells`, in the order of `cells`.
    pub open spec fn proposals_among(self, cells: Seq<Position>) -> Seq<Proposal>
        decreases cells.len(),
    {
        if cells.len() == 0 {
            Seq::empty()
        } else {
            let earlier = self.proposals_among(cells.drop_last());
            match self.target(cells.last()) {
                Some(to) => earlier.push((cells.last(), to)),
                None => earlier,
            }
        }
    }

    /// The moves asked for at the next tick, in ascending order of the cell
    /// they start from.
    pub open spec fn proposals(self) -> Seq<Proposal> {
        self.proposals_among(self.cells())
    }

    /// The board after `moves` were carried out one after the other.
    pub open spec fn applied(self, moves: Seq<Proposal>) -> BoardModel
        decreases moves.len(),
    {
        if moves.len() == 0 {
            self
        } else {
            self.applied(moves.drop_last()).relocated(moves.last().0, moves.last().1)
        }
    }

    /// The board after one tick: all ships decide on the board as it stands,
    /// then the moves they asked for are carried out in ascending order of
    /// their starting cell.
    pub open spec fn ticked(self) -> BoardModel {
        self.decided().applied(self.proposals())
    }

    /// The board after `ticks` ticks.
    pub open spec fn ticked_by(self, ticks: nat) -> BoardModel
        decreases ticks,
    {
        if ticks == 0 {
            self
        } else {
            self.ticked_by((ticks - 1) as nat).ticked()
        }
    }
}

} // verus!
