use vstd::arithmetic::div_mod::lemma_mod_bound;
use vstd::arithmetic::div_mod::lemma_mod_multiples_vanish;
use vstd::arithmetic::div_mod::lemma_mod_self_0;
use vstd::arithmetic::div_mod::lemma_small_mod;
use vstd::prelude::*;

verus! {

/// A cell of the board: the column `x` first, the row `y` second.
pub type Position = (u8, u8);

/// The strict order in which cells are visited: by column, then by row.
pub open spec fn precedes(a: Position, b: Position) -> bool {
    a.0 < b.0 || (a.0 == b.0 && a.1 < b.1)
}

/// One coordinate `c` moved by `d` on an axis of `n` cells that closes on
/// itself: the result is the remainder of `c + d` in `0..n`.
pub open spec fn wrap_axis(c: u8, d: i8, n: u8) -> u8 {
    ((c + d) % (n as int)) as u8
}

/// The cell reached from `pos` by the offset `(dx, dy)` on a torus of
/// `width` columns and `height` rows.
pub open spec fn wrapped(pos: Position, dx: i8, dy: i8, width: u8, height: u8) -> Position {
    (wrap_axis(pos.0, dx, width), wrap_axis(pos.1, dy, height))
}

/// Whether `pos` lies on a board of `width` columns and `height` rows.
pub open spec fn on_board(pos: Position, width: u8, height: u8) -> bool {
    pos.0 < width && pos.1 < height
}

/// Wherever a move starts and whatever its offset, it ends on the board.
pub proof fn lemma_wrapped_on_board(pos: Position, width: u8, height: u8)
    requires
        width > 0,
        height > 0,
    ensures
        forall|dx: i8, dy: i8| on_board(#[trigger] wrapped(pos, dx, dy, width, height), width, height),
{
    assert forall|dx: i8, dy: i8| on_board(
        #[trigger] wrapped(pos, dx, dy, width, height),
        width,
        height,
    ) by {
        lemma_mod_bound(pos.0 + dx, width as int);
        lemma_mod_bound(pos.1 + dy, height as int);
    }
}

/// An offset within the board that does not reach an edge is plain addition.
pub proof fn lemma_wrapped_inside(pos: Position, dx: i8, dy: i8, width: u8, height: u8)
    requires
        0 <= pos.0 + dx < width,
        0 <= pos.1 + dy < height,
    ensures
        wrapped(pos, dx, dy, width, height) == ((pos.0 + dx) as u8, (pos.1 + dy) as u8),
{
    lemma_small_mod((pos.0 + dx) as nat, width as nat);
    lemma_small_mod((pos.1 + dy) as nat, height as nat);
}

/// One step over an edge of the board leads to the opposite edge: past the
/// last row to the first row of the same column, past the last column to the
/// first column of the same row, and the other way round.
pub proof fn lemma_wrap_over_edge(pos: Position, width: u8, height: u8)
    requires
        on_board(pos, width, height),
    ensures
        pos.1 == height - 1 ==> wrapped(pos, 0, 1, width, height) == (pos.0, 0u8),
        pos.0 == width - 1 ==> wrapped(pos, 1, 0, width, height) == (0u8, pos.1),
        pos.1 == 0 ==> wrapped(pos, 0, -1i8, width, height) == (pos.0, (height - 1) as u8),
        pos.0 == 0 ==> wrapped(pos, -1i8, 0, width, height) == ((width - 1) as u8, pos.1),
{
    lemma_small_mod(pos.0 as nat, width as nat);
    lemma_small_mod(pos.1 as nat, height as nat);
    lemma_mod_self_0(width as int);
    lemma_mod_self_0(height as int);
    lemma_mod_multiples_vanish(-1, width - 1, width as int);
    lemma_mod_multiples_vanish(-1, height - 1, height as int);
    lemma_small_mod((width - 1) as nat, width as nat);
    lemma_small_mod((height - 1) as nat, height as nat);
}

/// Computes `wrap_axis` without leaving the unsigned numbers.
fn shift_axis(c: u8, d: i8, n: u8) -> (r: u8)
    requires
        n > 0,
    ensures
        r == wrap_axis(c, d, n),
        r < n,
{
    // `128 * n` is a multiple of `n` that outweighs any negative offset.
    let lift: u32 = 128 * (n as u32);
    let sum: u32 = (c as i32 + d as i32 + lift as i32) as u32;
    proof {
        lemma_mod_multiples_vanish(128, c + d, n as int);
    }
    (sum % (n as u32)) as u8
}

/// The size of a board: at least one column and one row.
#[derive(Clone, Copy, Debug)]
pub struct Grid {
    width: u8,
    height: u8,
}

impl Grid {
    /// The number of columns.
    pub closed spec fn spec_width(&self) -> u8 {
        self.width
    }

    /// The number of rows.
    pub closed spec fn spec_height(&self) -> u8 {
        self.height
    }

    /// Holds of every grid: neither side is zero.
    #[verifier::type_invariant]
    pub open spec fn valid(&self) -> bool {
        self.spec_width() > 0 && self.spec_height() > 0
    }

    /// A grid of `width` columns and `height` rows.
    pub fn new(width: u8, height: u8) -> (grid: Grid)
        requires
            width > 0,
            height > 0,
        ensures
            grid.spec_width() == width,
            grid.spec_height() == height,
    {
        Grid { width, height }
    }

    /// The number of columns.
    #[verifier::when_used_as_spec(spec_width)]
    pub fn width(&self) -> (w: u8)
        ensures
            w == self.spec_width(),
            w > 0,
    {
        proof {
            use_type_invariant(self);
        }
        self.width
    }

    /// The number of rows.
    #[verifier::when_used_as_spec(spec_height)]
    pub fn height(&self) -> (h: u8)
        ensures
            h == self.spec_height(),
            h > 0,
    {
        proof {
            use_type_invariant(self);
        }
        self.height
    }

    /// Adds the offset `(dx, dy)` to `pos`, wrapping round each axis of the
    /// grid. Never fails: whatever `pos` and the offset are, the result lies
    /// on the grid.
    pub fn wrapping_add(&self, pos: Position, dx: i8, dy: i8) -> (r: Position)
        ensures
            r == wrapped(pos, dx, dy, self.width(), self.height()),
            on_board(r, self.width(), self.height()),
    {
        proof {
            use_type_invariant(self);
        }
        (shift_axis(pos.0, dx, self.width), shift_axis(pos.1, dy, self.height))
    }
}

} // verus!
