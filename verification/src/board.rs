use crate::action::ShipAction;
use crate::error::SimError;
use crate::laws::lemma_snapshot_lists_each_ship_once;
use crate::model::BoardModel;
use crate::model::FILLER;
use crate::order::lemma_ascending_is;
use crate::order::lemma_cells_finite;
use crate::order::lemma_increasing_keys_ascend;
use crate::order::lists;
use crate::phases::lemma_relocated_keeps_count;
use crate::position::precedes;
use crate::position::Grid;
use crate::position::Position;
use crate::ship::Ship;
use crate::ship::ShipKind;
use crate::ship::ShipModel;
use std::collections::BTreeMap;
use vstd::prelude::*;
use vstd::std_specs::btree::spec_keys_iter;
use vstd::std_specs::iter::IteratorSpec;

verus! {

/// The number of columns of a board that is built without a size.
pub const GRID_WIDTH: u8 = 5;

/// The number of rows of a board that is built without a size.
pub const GRID_HEIGHT: u8 = 5;

/// The ships of a map of ships, each as the contracts see it.
spec fn ship_models(board: Map<Position, Ship>) -> Map<Position, ShipModel> {
    board.map_values(|s: Ship| s@)
}

/// The board and the ships on it. The ships are keyed by the cell they stand
/// on, so that no cell ever holds two.
pub struct GameState {
    board: BTreeMap<Position, Ship>,
    grid: Grid,
}

impl View for GameState {
    type V = BoardModel;

    closed spec fn view(&self) -> BoardModel {
        BoardModel {
            width: self.grid.width(),
            height: self.grid.height(),
            ships: ship_models(self.board@),
        }
    }
}

/// Looking at the ships as the contracts see them changes neither which
/// cells are occupied nor how many there are.
proof fn lemma_ship_models_dom(board: Map<Position, Ship>)
    ensures
        ship_models(board).dom() == board.dom(),
{
    assert(ship_models(board).dom() =~= board.dom());
}

/// `BTreeMap::get_mut`: a mutable reference to the ship stored under `pos`,
/// if there is one. The map afterwards is the map before with whatever the
/// caller leaves behind the reference stored under `pos`; without a ship under
/// `pos` the map is unchanged.
#[verifier::external_body]
fn ship_mut<'a>(board: &'a mut BTreeMap<Position, Ship>, pos: &Position) -> (r: Option<&'a mut Ship>)
    ensures
        match r {
            Some(ship) => old(board)@.contains_key(*pos) && *ship == old(board)@[*pos]
                && final(board)@ == old(board)@.insert(*pos, *final(ship)),
            None => !old(board)@.contains_key(*pos) && final(board)@ == old(board)@,
        },
{
    board.get_mut(pos)
}

impl GameState {
    /// An empty board of `GRID_WIDTH` columns and `GRID_HEIGHT` rows.
    pub fn new() -> (state: GameState)
        ensures
            state@ == BoardModel::empty(GRID_WIDTH, GRID_HEIGHT),
            state@.wf(),
    {
        GameState::with_size(GRID_WIDTH, GRID_HEIGHT)
    }

    /// An empty board of `width` columns and `height` rows.
    pub fn with_size(width: u8, height: u8) -> (state: GameState)
        requires
            width > 0,
            height > 0,
        ensures
            state@ == BoardModel::empty(width, height),
            state@.wf(),
    {
        let state = GameState { board: BTreeMap::new(), grid: Grid::new(width, height) };
        assert(state@.ships =~= Map::empty());
        proof {
            use_type_invariant(&state.grid);
        }
        state
    }

    /// The size of the board.
    pub fn grid(&self) -> (grid: Grid)
        ensures
            grid.width() == self@.width,
            grid.height() == self@.height,
    {
        self.grid
    }

    /// The number of columns.
    pub fn width(&self) -> (w: u8)
        ensures
            w == self@.width,
            w > 0,
    {
        self.grid.width()
    }

    /// The number of rows.
    pub fn height(&self) -> (h: u8)
        ensures
            h == self@.height,
            h > 0,
    {
        self.grid.height()
    }

    /// Whether a ship stands on `pos`.
    pub fn is_occupied(&self, pos: Position) -> (r: bool)
        ensures
            r == self@.occupied(pos),
    {
        self.board.contains_key(&pos)
    }

    /// How many ships there are.
    pub fn len(&self) -> (n: usize)
        ensures
            n == self@.count(),
            self@.wf(),
    {
        proof {
            use_type_invariant(&self.grid);
            lemma_ship_models_dom(self.board@);
        }
        self.board.len()
    }

    /// The symbol of the ship on `pos`, if there is one.
    pub fn symbol_at(&self, pos: Position) -> (r: Option<char>)
        ensures
            r == if self@.occupied(pos) {
                Some(self@.ships[pos].symbol)
            } else {
                None
            },
    {
        match self.board.get(&pos) {
            Some(ship) => Some(ship.symbol()),
            None => None,
        }
    }

    /// Puts `ship` on `pos`. A ship that already stands there is never
    /// replaced: the call fails and leaves the board as it was.
    pub fn add_ship(&mut self, pos: Position, ship: Ship) -> (r: Result<(), SimError>)
        ensures
            final(self)@.wf(),
            match r {
                Ok(_) => !old(self)@.occupied(pos) && final(self)@ == old(self)@.placed(pos, ship@)
                    && final(self)@.count() == old(self)@.count() + 1,
                Err(e) => old(self)@.occupied(pos) && e == SimError::PositionOccupied && final(self)@
                    == old(self)@,
            },
    {
        proof {
            use_type_invariant(&self.grid);
        }
        if self.board.contains_key(&pos) {
            Err(SimError::PositionOccupied)
        } else {
            self.board.insert(pos, ship);
            proof {
                assert(final(self)@.ships =~= old(self)@.ships.insert(pos, ship@));
                lemma_cells_finite(old(self)@.ships.dom());
            }
            Ok(())
        }
    }

    /// Takes the ship on `pos` off the board and hands it out. An empty cell
    /// is no error: the result is `None` and the board is unchanged.
    pub fn remove_ship(&mut self, pos: Position) -> (r: Option<Ship>)
        ensures
            final(self)@.wf(),
            match r {
                Some(ship) => old(self)@.occupied(pos) && ship@ == old(self)@.ships[pos] && final(self)@
                    == old(self)@.cleared(pos) && final(self)@.count() == old(self)@.count() - 1,
                None => !old(self)@.occupied(pos) && final(self)@ == old(self)@,
            },
    {
        proof {
            use_type_invariant(&self.grid);
        }
        let r = self.board.remove(&pos);
        proof {
            if r is Some {
                assert(final(self)@.ships =~= old(self)@.ships.remove(pos));
                lemma_cells_finite(old(self)@.ships.dom());
            } else {
                assert(final(self)@.ships =~= old(self)@.ships);
            }
        }
        r
    }

    /// Whether a ship that leaves `from` for `to` would run into another
    /// ship: `to` is occupied, and not by the mover itself.
    pub fn collision(&self, from: Position, to: Position) -> (r: bool)
        ensures
            r == self@.collides(from, to),
    {
        (to.0 != from.0 || to.1 != from.1) && self.board.contains_key(&to)
    }

    /// Moves the ship on `from` to `to`, in one step: there is no moment at
    /// which the ship is on neither cell or on both. If the move would collide,
    /// it is rejected and the ship stays on `from`; the ship that was on `to`
    /// first keeps its cell. Without a ship on `from` nothing happens.
    pub fn move_ship(&mut self, from: Position, to: Position) -> (r: Result<(), SimError>)
        ensures
            final(self)@.wf(),
            final(self)@ == old(self)@.relocated(from, to),
            final(self)@.count() == old(self)@.count(),
            match r {
                Ok(_) => !(old(self)@.occupied(from) && old(self)@.collides(from, to)),
                Err(e) => old(self)@.occupied(from) && old(self)@.collides(from, to) && e
                    == SimError::RelocationRejected,
            },
    {
        proof {
            use_type_invariant(&self.grid);
            lemma_relocated_keeps_count(self@, from, to);
        }
        if self.collision(from, to) {
            if self.board.contains_key(&from) {
                Err(SimError::RelocationRejected)
            } else {
                Ok(())
            }
        } else {
            match self.board.remove(&from) {
                Some(ship) => {
                    self.board.insert(to, ship);
                    proof {
                        assert(final(self)@.ships =~= old(self)@.ships.remove(from).insert(
                            to,
                            old(self)@.ships[from],
                        ));
                    }
                },
                None => {
                    proof {
                        assert(final(self)@.ships =~= old(self)@.ships);
                    }
                },
            }
            Ok(())
        }
    }

    /// Builds a ship of the given kind and puts it on `pos`. A kind that
    /// cannot be built is refused before the board is looked at; an occupied
    /// cell is refused next. Either way the board is left as it was.
    pub fn spawn(&mut self, pos: Position, kind: ShipKind) -> (r: Result<(), SimError>)
        ensures
            final(self)@.wf(),
            match r {
                Ok(_) => kind.valid() && !old(self)@.occupied(pos) && final(self)@ == old(self)@.placed(
                    pos,
                    kind.fresh(),
                ) && final(self)@.count() == old(self)@.count() + 1,
                Err(e) => final(self)@ == old(self)@ && if !kind.valid() {
                    e == SimError::InvalidConfiguration
                } else {
                    old(self)@.occupied(pos) && e == SimError::PositionOccupied
                },
            },
    {
        match Ship::build(kind) {
            Ok(ship) => self.add_ship(pos, ship),
            Err(e) => {
                proof {
                    use_type_invariant(&self.grid);
                }
                Err(e)
            },
        }
    }

    /// The occupied cells in ascending order.
    pub fn cells(&self) -> (r: Vec<Position>)
        ensures
            r@ == self@.cells(),
            lists(r@, self@.ships.dom()),
            self@.wf(),
    {
        let mut out: Vec<Position> = Vec::new();
        let ghost keys = spec_keys_iter(&self.board).remaining();
        for pos in it: self.board.keys()
            invariant
                it.seq() == keys,
                out@ == keys.take(it.index() as int).unref(),
        {
            out.push(*pos);
            assert(keys.take(it.index() + 1).unref() =~= keys.take(it.index() as int).unref().push(
                *pos,
            ));
        }
        proof {
            use_type_invariant(&self.grid);
            lemma_ship_models_dom(self.board@);
            assert(out@ == keys.unref());
            assert(out@.to_set() == self.board@.dom());
            lemma_increasing_keys_ascend(keys);
            assert forall|p: Position| self@.ships.dom().contains(p) <==> out@.contains(p) by {
                assert(out@.to_set().contains(p) <==> out@.contains(p));
            }
            lemma_ascending_is(out@, self@.ships.dom());
        }
        out
    }

    /// What there is to draw: every occupied cell with its ship's symbol, in
    /// ascending order of the cells. No cell comes twice.
    pub fn render_view(&self) -> (r: Vec<(Position, char)>)
        ensures
            r@ == self@.snapshot(),
            r@.len() == self@.count(),
            forall|i: int, j: int|
                0 <= i < j < r@.len() ==> precedes((#[trigger] r@[i]).0, (#[trigger] r@[j]).0),
            forall|i: int|
                0 <= i < r@.len() ==> self@.occupied((#[trigger] r@[i]).0) && r@[i].1
                    == self@.ships[r@[i].0].symbol,
            forall|p: Position|
                self@.occupied(p) ==> exists|i: int| 0 <= i < r@.len() && (#[trigger] r@[i]).0 == p,
    {
        let cells = self.cells();
        let mut out: Vec<(Position, char)> = Vec::new();
        let mut i: usize = 0;
        while i < cells.len()
            invariant
                i <= cells.len(),
                lists(cells@, self@.ships.dom()),
                out@.len() == i,
                forall|j: int|
                    0 <= j < i ==> out@[j] == (cells@[j], self@.ships[cells@[j]].symbol),
            decreases cells.len() - i,
        {
            let pos = cells[i];
            assert(cells@.contains(pos));
            if let Some(symbol) = self.symbol_at(pos) {
                out.push((pos, symbol));
            }
            i += 1;
        }
        proof {
            assert(out@ =~= self@.snapshot());
            lemma_snapshot_lists_each_ship_once(self@);
        }
        out
    }

    /// The board drawn row by row, top row first: `height` rows of `width`
    /// characters, a ship's symbol where one stands and `FILLER` elsewhere.
    pub fn render_frame(&self) -> (r: Vec<Vec<char>>)
        ensures
            r.deep_view() == self@.frame(),
    {
        let width = self.grid.width();
        let height = self.grid.height();
        let mut rows: Vec<Vec<char>> = Vec::new();
        let mut y: u8 = 0;
        while y < height
            invariant
                y <= height,
                width == self@.width,
                height == self@.height,
                rows@.len() == y,
                forall|j: int| 0 <= j < y ==> (#[trigger] rows@[j])@ == self@.frame()[j],
            decreases height - y,
        {
            let mut row: Vec<char> = Vec::new();
            let mut x: u8 = 0;
            while x < width
                invariant
                    x <= width,
                    y < height,
                    width == self@.width,
                    height == self@.height,
                    row@.len() == x,
                    forall|k: int| 0 <= k < x ==> #[trigger] row@[k] == self@.glyph(k, y as int),
                decreases width - x,
            {
                match self.symbol_at((x, y)) {
                    Some(symbol) => row.push(symbol),
                    None => row.push(FILLER),
                }
                x += 1;
            }
            assert(row@ =~= self@.frame()[y as int]);
            rows.push(row);
            y += 1;
        }
        proof {
            assert forall|j: int| 0 <= j < rows@.len() implies rows.deep_view()[j]
                == self@.frame()[j] by {
                assert(rows.deep_view()[j] =~= rows@[j]@);
            }
            assert(rows.deep_view() =~= self@.frame());
        }
        rows
    }

    /// Lets the ship on `pos` decide for the coming tick. Its counters
    /// advance in place; no ship enters, leaves or changes cell.
    pub fn decide_at(&mut self, pos: Position) -> (r: Option<ShipAction>)
        ensures
            final(self)@.wf(),
            match r {
                Some(action) => old(self)@.occupied(pos) && action == old(self)@.ships[pos].emitted()
                    && final(self)@ == old(self)@.placed(pos, old(self)@.ships[pos].advanced()),
                None => !old(self)@.occupied(pos) && final(self)@ == old(self)@,
            },
            final(self)@.count() == old(self)@.count(),
    {
        let r = match ship_mut(&mut self.board, &pos) {
            Some(ship) => Some(ship.decide()),
            None => None,
        };
        proof {
            use_type_invariant(&self.grid);
            assert(final(self)@.ships =~= if r is Some {
                old(self)@.ships.insert(pos, old(self)@.ships[pos].advanced())
            } else {
                old(self)@.ships
            });
            assert(final(self)@.ships.dom() =~= old(self)@.ships.dom());
        }
        r
    }
}

} // verus!
