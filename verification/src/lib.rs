pub mod game_rule;

use vstd::prelude::*;
use vstd::arithmetic::div_mod::lemma_fundamental_div_mod;
use vstd::arithmetic::div_mod::lemma_mod_bound;
use vstd::std_specs::cmp::PartialEqSpec;

verus! {

/// A grid coordinate: an ordered pair of signed integers naming one cell.
#[derive(Copy, Clone, PartialEq, Eq, Structural, Debug)]
pub struct Position {
    pub x: i32,
    pub y: i32,
}

impl Position {
    /// Componentwise sum of two coordinates, used to move from a cell to one
    /// of its neighbours by an offset.
    pub fn add(self, other: Position) -> (sum: Position)
        requires
            i32::MIN <= self.x + other.x <= i32::MAX,
            i32::MIN <= self.y + other.y <= i32::MAX,
        ensures
            sum.x == self.x + other.x,
            sum.y == self.y + other.y,
    {
        Position { x: self.x + other.x, y: self.y + other.y }
    }
}

/// The state of one cell.
#[derive(Copy, Clone, PartialEq, Eq, Structural, Debug)]
pub enum State {
    Alive,
    Dead,
}

/// The canonical one-character rendering of a cell state: `'x'` for a live
/// cell, a space for a dead one.
pub open spec fn spec_glyph(state: State) -> char {
    match state {
        State::Alive => 'x',
        State::Dead => ' ',
    }
}

impl State {
    /// The canonical one-character rendering of this state.
    pub fn glyph(self) -> (c: char)
        ensures
            c == spec_glyph(self),
    {
        match self {
            State::Alive => 'x',
            State::Dead => ' ',
        }
    }
}

/// One immutable snapshot of the universe: a square grid of side `length`
/// holding one cell state per coordinate in `[0, length) x [0, length)`,
/// stored row-major (the cell at `(x, y)` sits at index `x * length + y`).
/// Every coordinate outside that square is permanently dead: lookups there
/// report no tracked state and neighbour counting treats them as dead.
pub struct GameOfLife {
    cells: Vec<State>,
    length: i32,
}

/// The cell at `(x, y)` of a row-major square of side `len` sits at an index
/// below `len * len`.
proof fn lemma_cell_index_bounds(len: int, x: int, y: int)
    requires
        0 <= x < len,
        0 <= y < len,
    ensures
        0 <= x * len + y < len * len,
{
    assert(0 <= x * len + y < len * len) by (nonlinear_arith)
        requires
            0 <= x < len,
            0 <= y < len,
    {
    }
}

/// In the rendered text, where each of the first `x2` rows holds `len`
/// glyphs and a terminator, the character of row `x1` at column `y1` stands
/// strictly before the character of row `x2` at column `y2` whenever
/// `(x1, y1)` precedes `(x2, y2)` in row-major order.
proof fn lemma_text_index_lt(len: int, x1: int, y1: int, x2: int, y2: int)
    requires
        0 <= len,
        0 <= x1,
        0 <= y1 <= len,
        0 <= y2,
        x1 < x2 || (x1 == x2 && y1 < y2),
    ensures
        x1 * (len + 1) + y1 < x2 * (len + 1) + y2,
{
    assert(x1 * (len + 1) + y1 < x2 * (len + 1) + y2) by (nonlinear_arith)
        requires
            0 <= len,
            0 <= x1,
            0 <= y1 <= len,
            0 <= y2,
            x1 < x2 || (x1 == x2 && y1 < y2),
    {
    }
}

/// Distinct coordinates of the square of side `len` have distinct row-major
/// indices.
proof fn lemma_cell_index_injective(len: int, x1: int, y1: int, x2: int, y2: int)
    requires
        0 <= x1 < len,
        0 <= y1 < len,
        0 <= x2 < len,
        0 <= y2 < len,
        x1 != x2 || y1 != y2,
    ensures
        x1 * len + y1 != x2 * len + y2,
{
    assert(x1 * len + y1 != x2 * len + y2) by (nonlinear_arith)
        requires
            0 <= x1 < len,
            0 <= y1 < len,
            0 <= x2 < len,
            0 <= y2 < len,
            x1 != x2 || y1 != y2,
    {
    }
}

impl GameOfLife {
    /// The side length of the tracked square.
    pub closed spec fn side(self) -> int {
        self.length as int
    }

    /// The stored cell states in row-major order.
    pub closed spec fn cell_seq(self) -> Seq<State> {
        self.cells@
    }

    /// The representation invariant: a non-negative side length whose square
    /// is addressable, and exactly one stored state per coordinate of the
    /// square.
    pub closed spec fn well_formed(self) -> bool {
        &&& 0 <= self.length
        &&& self.length * self.length <= usize::MAX
        &&& self.cells@.len() == self.length * self.length
    }

    /// Whether `(x, y)` lies inside the tracked square.
    pub open spec fn in_range(self, x: int, y: int) -> bool {
        0 <= x < self.side() && 0 <= y < self.side()
    }

    /// The state of the cell at `(x, y)`: the stored state inside the
    /// tracked square, and dead everywhere outside it.
    pub closed spec fn state_at(self, x: int, y: int) -> State {
        if self.in_range(x, y) {
            self.cell_seq()[x * self.side() + y]
        } else {
            State::Dead
        }
    }

    /// Builds the grid of side `length` with every cell dead.
    pub fn new(length: i32) -> (grid: GameOfLife)
        requires
            0 <= length,
            length * length <= usize::MAX,
        ensures
            grid.well_formed(),
            grid.side() == length,
            forall|x: int, y: int| grid.state_at(x, y) == State::Dead,
    {
        let count: usize = (length as usize) * (length as usize);
        let mut cells: Vec<State> = Vec::new();
        while cells.len() < count
            invariant
                cells@.len() <= count,
                forall|j: int| 0 <= j < cells@.len() ==> cells@[j] == State::Dead,
            decreases count - cells@.len(),
        {
            cells.push(State::Dead);
        }
        let grid = GameOfLife { cells, length };
        proof {
            assert forall|x: int, y: int| grid.state_at(x, y) == State::Dead by {
                if grid.in_range(x, y) {
                    lemma_cell_index_bounds(grid.side(), x, y);
                }
            }
        }
        grid
    }

    /// The stored state at `pos`: `Some` inside the tracked square, `None`
    /// outside it. Callers treat `None` as a dead cell, which is the boundary
    /// policy for neighbours of edge cells.
    pub fn get_state(&self, pos: &Position) -> (state: Option<&State>)
        requires
            self.well_formed(),
        ensures
            match state {
                Some(s) => self.in_range(pos.x as int, pos.y as int) && *s == self.state_at(
                    pos.x as int,
                    pos.y as int,
                ),
                None => !self.in_range(pos.x as int, pos.y as int),
            },
    {
        if pos.x >= 0 && pos.x < self.length && pos.y >= 0 && pos.y < self.length {
            proof {
                lemma_cell_index_bounds(self.side(), pos.x as int, pos.y as int);
            }
            let i: usize = (pos.x as usize) * (self.length as usize) + (pos.y as usize);
            Some(&self.cells[i])
        } else {
            None
        }
    }

    /// Writes `state` at `pos` when `pos` lies inside the tracked square and
    /// leaves every other cell as it was. A write outside the square changes
    /// nothing: the universe beyond the square is permanently dead and is not
    /// extensible.
    pub fn set_state(&mut self, pos: Position, state: State)
        requires
            old(self).well_formed(),
        ensures
            final(self).well_formed(),
            final(self).side() == old(self).side(),
            forall|x: int, y: int|
                final(self).state_at(x, y) == (if x == pos.x as int && y == pos.y as int
                    && old(self).in_range(x, y) {
                    state
                } else {
                    old(self).state_at(x, y)
                }),
    {
        if pos.x >= 0 && pos.x < self.length && pos.y >= 0 && pos.y < self.length {
            proof {
                lemma_cell_index_bounds(self.side(), pos.x as int, pos.y as int);
            }
            let i: usize = (pos.x as usize) * (self.length as usize) + (pos.y as usize);
            self.cells.set(i, state);
            proof {
                let px = pos.x as int;
                let py = pos.y as int;
                assert forall|x: int, y: int|
                    final(self).state_at(x, y) == (if x == px && y == py && old(self).in_range(
                        x,
                        y,
                    ) {
                        state
                    } else {
                        old(self).state_at(x, y)
                    }) by {
                    if old(self).in_range(x, y) {
                        lemma_cell_index_bounds(old(self).side(), x, y);
                        if x != px || y != py {
                            lemma_cell_index_injective(old(self).side(), x, y, px, py);
                        }
                    }
                }
            }
        }
    }

    /// 1 when the cell at `(x, y)` is alive, 0 when it is dead; dead covers
    /// every coordinate outside the tracked square.
    pub open spec fn live_at(self, x: int, y: int) -> int {
        if self.state_at(x, y) == State::Alive {
            1
        } else {
            0
        }
    }

    /// How many of the eight Moore neighbours of `(x, y)` are alive.
    pub open spec fn live_neighbour_count(self, x: int, y: int) -> int {
        self.live_at(x - 1, y - 1) + self.live_at(x - 1, y) + self.live_at(x - 1, y + 1)
            + self.live_at(x, y - 1) + self.live_at(x, y + 1) + self.live_at(x + 1, y - 1)
            + self.live_at(x + 1, y) + self.live_at(x + 1, y + 1)
    }

    /// Whether the cell at `(x, y)` is alive. The coordinates are taken wide
    /// so that the neighbours of any `i32` coordinate can be examined without
    /// overflow.
    fn is_alive(&self, x: i64, y: i64) -> (alive: bool)
        requires
            self.well_formed(),
        ensures
            alive == (self.state_at(x as int, y as int) == State::Alive),
    {
        if x >= 0 && x < self.length as i64 && y >= 0 && y < self.length as i64 {
            proof {
                lemma_cell_index_bounds(self.side(), x as int, y as int);
            }
            let i: usize = (x as usize) * (self.length as usize) + (y as usize);
            self.cells[i] == State::Alive
        } else {
            false
        }
    }

    /// Counts the live cells among the eight Moore neighbours of `position`,
    /// treating every coordinate outside the tracked square as dead.
    pub fn get_live_neighbours(&self, position: Position) -> (alive: u32)
        requires
            self.well_formed(),
        ensures
            alive == self.live_neighbour_count(position.x as int, position.y as int),
            alive <= 8,
    {
        let x = position.x as i64;
        let y = position.y as i64;
        let mut alive: u32 = 0;
        if self.is_alive(x - 1, y - 1) {
            alive = alive + 1;
        }
        if self.is_alive(x - 1, y) {
            alive = alive + 1;
        }
        if self.is_alive(x - 1, y + 1) {
            alive = alive + 1;
        }
        if self.is_alive(x, y - 1) {
            alive = alive + 1;
        }
        if self.is_alive(x, y + 1) {
            alive = alive + 1;
        }
        if self.is_alive(x + 1, y - 1) {
            alive = alive + 1;
        }
        if self.is_alive(x + 1, y) {
            alive = alive + 1;
        }
        if self.is_alive(x + 1, y + 1) {
            alive = alive + 1;
        }
        alive
    }

    /// The side length of the grid.
    pub fn len(&self) -> (length: i32)
        ensures
            length == self.side(),
    {
        self.length
    }

    /// Derives the next generation: a fresh grid of the same side length in
    /// which every tracked cell holds the state the decision table assigns it
    /// from its current state and its current live-neighbour count. The
    /// receiver is only read; the previous generation stays valid unchanged.
    pub fn get_next_generation(&self) -> (next: GameOfLife)
        requires
            self.well_formed(),
        ensures
            next.well_formed(),
            next.side() == self.side(),
            forall|x: int, y: int|
                next.in_range(x, y) ==> next.state_at(x, y) == game_rule::spec_next_state(
                    self.state_at(x, y),
                    self.live_neighbour_count(x, y),
                ),
    {
        let length = self.length;
        let mut next = GameOfLife::new(length);
        let mut x: i32 = 0;
        while x < length
            invariant
                self.well_formed(),
                0 <= x <= length,
                length == self.side(),
                next.well_formed(),
                next.side() == self.side(),
                forall|a: int, b: int|
                    next.in_range(a, b) && a < x ==> next.state_at(a, b)
                        == game_rule::spec_next_state(
                        self.state_at(a, b),
                        self.live_neighbour_count(a, b),
                    ),
                forall|a: int, b: int|
                    next.in_range(a, b) && a >= x ==> next.state_at(a, b) == State::Dead,
            decreases length - x,
        {
            let mut y: i32 = 0;
            while y < length
                invariant
                    self.well_formed(),
                    0 <= x < length,
                    0 <= y <= length,
                    length == self.side(),
                    next.well_formed(),
                    next.side() == self.side(),
                    forall|a: int, b: int|
                        next.in_range(a, b) && (a < x || (a == x && b < y)) ==> next.state_at(a, b)
                            == game_rule::spec_next_state(
                            self.state_at(a, b),
                            self.live_neighbour_count(a, b),
                        ),
                    forall|a: int, b: int|
                        next.in_range(a, b) && (a > x || (a == x && b >= y)) ==> next.state_at(
                            a,
                            b,
                        ) == State::Dead,
                decreases length - y,
            {
                let position = Position { x, y };
                let current = match self.get_state(&position) {
                    None => State::Dead,
                    Some(value) => *value,
                };
                let neighbours = self.get_live_neighbours(position);
                let new_state = game_rule::get_next_state(current, neighbours);
                next.set_state(position, new_state);
                y = y + 1;
            }
            x = x + 1;
        }
        next
    }

    /// Renders the grid as text for human inspection: one line per row, each
    /// of `length` glyph characters followed by a newline, where row `x` and
    /// column `y` show the glyph of the cell at `(x, y)`.
    pub fn to_display_text(&self) -> (text: String)
        requires
            self.well_formed(),
        ensures
            text@.len() == self.side() * (self.side() + 1),
            forall|x: int, y: int|
                self.in_range(x, y) ==> text@[x * (self.side() + 1) + y] == spec_glyph(
                    self.state_at(x, y),
                ),
            forall|x: int|
                0 <= x < self.side() ==> #[trigger] text@[x * (self.side() + 1) + self.side()]
                    == '\n',
    {
        let length = self.length;
        let mut text = String::new();
        let mut x: i32 = 0;
        while x < length
            invariant
                self.well_formed(),
                0 <= x <= length,
                length == self.side(),
                text@.len() == x * (length + 1),
                forall|a: int, b: int|
                    0 <= a < length && 0 <= b < length && a < x ==> text@[a * (length + 1) + b]
                        == spec_glyph(self.state_at(a, b)),
                forall|a: int| 0 <= a < x ==> #[trigger] text@[a * (length + 1) + length] == '\n',
            decreases length - x,
        {
            let mut y: i32 = 0;
            while y < length
                invariant
                    self.well_formed(),
                    0 <= x < length,
                    0 <= y <= length,
                    length == self.side(),
                    text@.len() == x * (length + 1) + y,
                    forall|a: int, b: int|
                        0 <= a < length && 0 <= b < length && (a < x || (a == x && b < y))
                            ==> text@[a * (length + 1) + b] == spec_glyph(self.state_at(a, b)),
                    forall|a: int| 0 <= a < x ==> #[trigger] text@[a * (length + 1) + length] == '\n',
                decreases length - y,
            {
                let position = Position { x, y };
                let current = match self.get_state(&position) {
                    None => State::Dead,
                    Some(value) => *value,
                };
                let ghost prefix = text@;
                match current {
                    State::Alive => text.append("x"),
                    State::Dead => text.append(" "),
                }
                proof {
                    reveal_strlit("x");
                    reveal_strlit(" ");
                    let len = length as int;
                    let xi = x as int;
                    let yi = y as int;
                    assert(text@.len() == prefix.len() + 1);
                    assert(text@[xi * (len + 1) + yi] == spec_glyph(self.state_at(xi, yi)));
                    assert forall|a: int, b: int|
                        0 <= a < len && 0 <= b < len && (a < xi || (a == xi && b < yi + 1))
                            implies text@[a * (len + 1) + b] == spec_glyph(
                        self.state_at(a, b),
                    ) by {
                        if a != xi || b != yi {
                            lemma_text_index_lt(len, a, b, xi, yi);
                            assert(text@[a * (len + 1) + b] == prefix[a * (len + 1) + b]);
                        }
                    }
                    assert forall|a: int| 0 <= a < xi implies #[trigger] text@[a * (len + 1) + len]
                        == '\n' by {
                        lemma_text_index_lt(len, a, len, xi, yi);
                        assert(text@[a * (len + 1) + len] == prefix[a * (len + 1) + len]);
                    }
                }
                y = y + 1;
            }
            let ghost prefix = text@;
            text.append("\n");
            proof {
                reveal_strlit("\n");
                let len = length as int;
                let xi = x as int;
                assert((xi + 1) * (len + 1) == xi * (len + 1) + (len + 1)) by (nonlinear_arith) {
                }
                assert(text@[xi * (len + 1) + len] == '\n');
                assert forall|a: int, b: int|
                    0 <= a < len && 0 <= b < len && a < xi + 1 implies text@[a * (len + 1) + b]
                        == spec_glyph(self.state_at(a, b)) by {
                    lemma_text_index_lt(len, a, b, xi, len);
                    assert(text@[a * (len + 1) + b] == prefix[a * (len + 1) + b]);
                }
                assert forall|a: int| 0 <= a < xi + 1 implies #[trigger] text@[a * (len + 1) + len]
                    == '\n' by {
                    if a < xi {
                        lemma_text_index_lt(len, a, len, xi, len);
                        assert(text@[a * (len + 1) + len] == prefix[a * (len + 1) + len]);
                    }
                }
            }
            x = x + 1;
        }
        text
    }

    /// The number of tracked coordinates: the square of the side length.
    pub fn cell_count(&self) -> (count: usize)
        requires
            self.well_formed(),
        ensures
            count == self.side() * self.side(),
    {
        self.cells.len()
    }
}

impl PartialEq for GameOfLife {
    /// Two grids are equal when they have the same side length and the same
    /// stored state at every tracked coordinate.
    fn eq(&self, other: &GameOfLife) -> (r: bool) {
        if self.length != other.length {
            return false;
        }
        if self.cells.len() != other.cells.len() {
            return false;
        }
        let n = self.cells.len();
        let mut i: usize = 0;
        while i < n
            invariant
                i <= n,
                n == self.cells@.len(),
                self.cells@.len() == other.cells@.len(),
                forall|j: int| 0 <= j < i ==> self.cells@[j] == other.cells@[j],
            decreases n - i,
        {
            if self.cells[i] != other.cells[i] {
                return false;
            }
            i = i + 1;
        }
        proof {
            assert(self.cells@ =~= other.cells@);
        }
        true
    }
}

impl vstd::std_specs::cmp::PartialEqSpecImpl for GameOfLife {
    open spec fn obeys_eq_spec() -> bool {
        true
    }

    closed spec fn eq_spec(&self, other: &GameOfLife) -> bool {
        self.length == other.length && self.cells@ == other.cells@
    }
}

/// Grid equality is exactly per-coordinate agreement: two well-formed grids
/// compare equal if and only if they have the same side length and the same
/// state at every coordinate; differing in even one cell makes them unequal.
pub proof fn lemma_grid_equality(a: GameOfLife, b: GameOfLife)
    requires
        a.well_formed(),
        b.well_formed(),
    ensures
        a.eq_spec(&b) <==> (a.side() == b.side() && forall|x: int, y: int|
            a.state_at(x, y) == b.state_at(x, y)),
{
    if a.eq_spec(&b) {
        assert forall|x: int, y: int| a.state_at(x, y) == b.state_at(x, y) by {}
    }
    if a.side() == b.side() && forall|x: int, y: int| a.state_at(x, y) == b.state_at(x, y) {
        let len = a.side();
        assert forall|i: int| 0 <= i < a.cells@.len() implies a.cells@[i] == b.cells@[i] by {
            assert(0 < len) by (nonlinear_arith)
                requires
                    0 <= len,
                    0 <= i < len * len,
            {
            }
            lemma_fundamental_div_mod(i, len);
            lemma_mod_bound(i, len);
            let x = i / len;
            let y = i % len;
            assert(0 <= x < len) by (nonlinear_arith)
                requires
                    0 < len,
                    0 <= i < len * len,
                    i == len * x + y,
                    0 <= y < len,
            {
            }
            assert(x * len + y == i) by (nonlinear_arith)
                requires
                    i == len * x + y,
            {
            }
            assert(a.state_at(x, y) == b.state_at(x, y));
        }
        assert(a.cells@ =~= b.cells@);
    }
}

/// In a grid with no live cells every cell has no live neighbours.
proof fn lemma_dead_grid_has_no_live_neighbours(grid: GameOfLife, x: int, y: int)
    requires
        forall|a: int, b: int| grid.state_at(a, b) == State::Dead,
    ensures
        grid.live_neighbour_count(x, y) == 0,
{
    assert(grid.state_at(x - 1, y - 1) == State::Dead);
    assert(grid.state_at(x - 1, y) == State::Dead);
    assert(grid.state_at(x - 1, y + 1) == State::Dead);
    assert(grid.state_at(x, y - 1) == State::Dead);
    assert(grid.state_at(x, y + 1) == State::Dead);
    assert(grid.state_at(x + 1, y - 1) == State::Dead);
    assert(grid.state_at(x + 1, y) == State::Dead);
    assert(grid.state_at(x + 1, y + 1) == State::Dead);
}

/// A grid with no live cells is a fixed point of stepping: every cell has no
/// live neighbours, the decision table keeps a dead cell with no live
/// neighbours dead, and so any grid that stepping derives from it is equal to
/// it.
pub proof fn lemma_empty_grid_fixed_point(grid: GameOfLife, next: GameOfLife)
    requires
        grid.well_formed(),
        next.well_formed(),
        next.side() == grid.side(),
        forall|x: int, y: int| grid.state_at(x, y) == State::Dead,
        forall|x: int, y: int|
            next.in_range(x, y) ==> next.state_at(x, y) == game_rule::spec_next_state(
                grid.state_at(x, y),
                grid.live_neighbour_count(x, y),
            ),
    ensures
        next.eq_spec(&grid),
{
    assert forall|x: int, y: int| next.state_at(x, y) == grid.state_at(x, y) by {
        if next.in_range(x, y) {
            lemma_dead_grid_has_no_live_neighbours(grid, x, y);
            assert(next.state_at(x, y) == game_rule::spec_next_state(State::Dead, 0));
        }
    }
    lemma_grid_equality(next, grid);
}

} // verus!
