//! The board, its neighbourhood structure and the generation step.
use vstd::prelude::*;
use vstd::arithmetic::div_mod::{lemma_fundamental_div_mod, lemma_fundamental_div_mod_converse};

use crate::cell::{Cell, State, count_alive, count_dead, rule};

verus! {

/// Number of columns of the board.
pub const WIDTH: usize = 50;

/// Number of rows of the board.
pub const HEIGHT: usize = 25;

/// Number of cells of the board.
pub const CELLS: usize = WIDTH * HEIGHT;

/// A column `x` and a row `y`.
#[derive(Debug, Clone, Copy, PartialEq, Eq, Structural)]
pub struct Coords {
    pub x: usize,
    pub y: usize,
}

/// Whether `(x, y)` lies on the board. Positions past an edge do not wrap.
pub open spec fn in_bounds(x: int, y: int) -> bool {
    0 <= x < WIDTH && 0 <= y < HEIGHT
}

/// Position of `(x, y)` in the row-major sequence of cells.
pub open spec fn index_of(x: int, y: int) -> int {
    y * WIDTH + x
}

/// 1 where `(x, y)` is on the board and its cell in `s` is alive, else 0.
pub open spec fn alive_at(s: Seq<Cell>, x: int, y: int) -> nat {
    if in_bounds(x, y) && s[index_of(x, y)].state == State::Alive {
        1
    } else {
        0
    }
}

/// 1 where `(x, y)` is on the board and its cell in `s` is dead, else 0.
pub open spec fn dead_at(s: Seq<Cell>, x: int, y: int) -> nat {
    if in_bounds(x, y) && s[index_of(x, y)].state == State::Dead {
        1
    } else {
        0
    }
}

/// 1 where `(x, y)` is on the board, else 0.
pub open spec fn present(x: int, y: int) -> nat {
    if in_bounds(x, y) {
        1
    } else {
        0
    }
}

/// Number of live cells among the up to eight cells around `(x, y)`.
pub open spec fn live_neighbors(s: Seq<Cell>, x: int, y: int) -> nat {
    alive_at(s, x - 1, y - 1) + alive_at(s, x, y - 1) + alive_at(s, x + 1, y - 1)
        + alive_at(s, x - 1, y) + alive_at(s, x + 1, y)
        + alive_at(s, x - 1, y + 1) + alive_at(s, x, y + 1) + alive_at(s, x + 1, y + 1)
}

/// Number of dead cells among the up to eight cells around `(x, y)`.
pub open spec fn dead_neighbors(s: Seq<Cell>, x: int, y: int) -> nat {
    dead_at(s, x - 1, y - 1) + dead_at(s, x, y - 1) + dead_at(s, x + 1, y - 1)
        + dead_at(s, x - 1, y) + dead_at(s, x + 1, y)
        + dead_at(s, x - 1, y + 1) + dead_at(s, x, y + 1) + dead_at(s, x + 1, y + 1)
}

/// Number of positions around `(x, y)` that lie on the board.
pub open spec fn neighbor_total(x: int, y: int) -> nat {
    present(x - 1, y - 1) + present(x, y - 1) + present(x + 1, y - 1)
        + present(x - 1, y) + present(x + 1, y)
        + present(x - 1, y + 1) + present(x, y + 1) + present(x + 1, y + 1)
}

/// The board in which exactly the positions listed in `live` are alive.
pub open spec fn seeded(live: Seq<Coords>) -> Seq<Cell> {
    Seq::new(
        CELLS as nat,
        |i: int|
            if exists|k: int| 0 <= k < live.len() && index_of(live[k].x as int, live[k].y as int) == i {
                Cell { state: State::Alive }
            } else {
                Cell { state: State::Dead }
            },
    )
}

/// The generation that follows `s`: each cell takes the state that the rule
/// gives for its current state and its live neighbours in `s`.
pub open spec fn next_gen(s: Seq<Cell>) -> Seq<Cell> {
    Seq::new(
        CELLS as nat,
        |i: int| Cell { state: rule(s[i].state, live_neighbors(s, i % WIDTH as int, i / WIDTH as int)) },
    )
}

/// A board of `WIDTH` x `HEIGHT` cells. Boards are never changed in place:
/// each generation is a new board.
#[derive(Debug)]
pub struct GameOfLife {
    cells: Vec<Cell>,
}

impl View for GameOfLife {
    type V = Seq<Cell>;

    /// The cells in row-major order: `(x, y)` stands at `index_of(x, y)`.
    closed spec fn view(&self) -> Seq<Cell> {
        self.cells@
    }
}

/// A position on the board has an index in range, from which its column and
/// row are recovered by remainder and quotient.
pub proof fn lemma_index_in_bounds(x: int, y: int)
    requires
        in_bounds(x, y),
    ensures
        0 <= index_of(x, y) < CELLS,
        index_of(x, y) % WIDTH as int == x,
        index_of(x, y) / WIDTH as int == y,
{
    lemma_fundamental_div_mod_converse(index_of(x, y), WIDTH as int, y, x);
}

impl GameOfLife {
    #[verifier::type_invariant]
    spec fn full(self) -> bool {
        self.cells@.len() == CELLS
    }

    /// A board on which the listed positions are alive and all others dead.
    pub fn new(live_cells: Vec<Coords>) -> (r: GameOfLife)
        requires
            forall|k: int| 0 <= k < live_cells@.len()
                ==> #[trigger] in_bounds(live_cells@[k].x as int, live_cells@[k].y as int),
        ensures
            r@ == seeded(live_cells@),
    {
        let mut cells: Vec<Cell> = Vec::new();
        let mut i: usize = 0;
        while i < CELLS
            invariant
                i <= CELLS,
                cells@.len() == i,
                forall|j: int| 0 <= j < i ==> #[trigger] cells@[j] == (Cell { state: State::Dead }),
            decreases CELLS - i,
        {
            cells.push(Cell::new(State::Dead));
            i = i + 1;
        }
        let mut k: usize = 0;
        while k < live_cells.len()
            invariant
                k <= live_cells@.len(),
                cells@.len() == CELLS,
                forall|m: int| 0 <= m < live_cells@.len()
                    ==> #[trigger] in_bounds(live_cells@[m].x as int, live_cells@[m].y as int),
                forall|j: int| 0 <= j < CELLS ==> #[trigger] cells@[j] == (
                    if exists|m: int| 0 <= m < k && index_of(live_cells@[m].x as int, live_cells@[m].y as int) == j {
                        Cell { state: State::Alive }
                    } else {
                        Cell { state: State::Dead }
                    }),
            decreases live_cells@.len() - k,
        {
            let c = live_cells[k];
            assert(in_bounds(live_cells@[k as int].x as int, live_cells@[k as int].y as int));
            let idx = c.y * WIDTH + c.x;
            cells.set(idx, Cell { state: State::Alive });
            assert forall|j: int| 0 <= j < CELLS implies #[trigger] cells@[j] == (
                if exists|m: int| 0 <= m < k + 1 && index_of(live_cells@[m].x as int, live_cells@[m].y as int) == j {
                    Cell { state: State::Alive }
                } else {
                    Cell { state: State::Dead }
                }) by {
                if j == idx {
                    assert(index_of(live_cells@[k as int].x as int, live_cells@[k as int].y as int) == j);
                }
            }
            k = k + 1;
        }
        assert(cells@ =~= seeded(live_cells@));
        GameOfLife { cells }
    }

    /// The next generation. Every cell is computed from this board, none from
    /// a partly updated one.
    pub fn next_frame(&self) -> (r: GameOfLife)
        ensures
            r@ == next_gen(self@),
    {
        proof {
            use_type_invariant(self);
        }
        let mut cells: Vec<Cell> = Vec::new();
        let mut i: usize = 0;
        while i < CELLS
            invariant
                i <= CELLS,
                self@.len() == CELLS,
                cells@.len() == i,
                forall|j: int| 0 <= j < i ==> #[trigger] cells@[j] == next_gen(self@)[j],
            decreases CELLS - i,
        {
            let coords = Coords { x: i % WIDTH, y: i / WIDTH };
            proof {
                lemma_index_in_bounds(coords.x as int, coords.y as int);
                lemma_fundamental_div_mod(i as int, WIDTH as int);
            }
            let prev_cell = self.get_cell_at(coords);
            cells.push(prev_cell.next_state(get_neighbors(coords, self)));
            i = i + 1;
        }
        assert(cells@ =~= next_gen(self@));
        GameOfLife { cells }
    }

    /// The cell at `coords`.
    pub fn get_cell_at(&self, coords: Coords) -> (r: Cell)
        requires
            in_bounds(coords.x as int, coords.y as int),
        ensures
            r == self@[index_of(coords.x as int, coords.y as int)],
    {
        proof {
            use_type_invariant(self);
        }
        self.cells[coords.y * WIDTH + coords.x]
    }
}

/// Appends the cell at `(x, y)` of `game` to `cells`.
fn push_neighbor(cells: &mut Vec<Cell>, game: &GameOfLife, x: usize, y: usize)
    requires
        in_bounds(x as int, y as int),
    ensures
        final(cells)@ == old(cells)@.push(game@[index_of(x as int, y as int)]),
        count_alive(final(cells)@) == count_alive(old(cells)@) + alive_at(game@, x as int, y as int),
        count_dead(final(cells)@) == count_dead(old(cells)@) + dead_at(game@, x as int, y as int),
{
    cells.push(game.get_cell_at(Coords { x, y }));
    proof {
        reveal(count_alive);
        reveal(count_dead);
        assert(cells@.drop_last() =~= old(cells)@);
    }
}

/// The cells around `coords`: those of the eight surrounding positions that
/// lie on the board, in no particular order.
#[verifier::rlimit(60)]
pub fn get_neighbors(coords: Coords, game: &GameOfLife) -> (r: Vec<Cell>)
    requires
        in_bounds(coords.x as int, coords.y as int),
    ensures
        r@.len() == neighbor_total(coords.x as int, coords.y as int),
        count_alive(r@) == live_neighbors(game@, coords.x as int, coords.y as int),
        count_dead(r@) == dead_neighbors(game@, coords.x as int, coords.y as int),
{
    let mut cells: Vec<Cell> = Vec::new();
    assert(count_alive(cells@) == 0 && count_dead(cells@) == 0) by {
        reveal(count_alive);
        reveal(count_dead);
    }
    let x = coords.x;
    let y = coords.y;
    let x_not_low = x != 0;
    let y_not_low = y != 0;
    let x_not_high = x != WIDTH - 1;
    let y_not_high = y != HEIGHT - 1;
    if x_not_low {
        if y_not_low {
            push_neighbor(&mut cells, game, x - 1, y - 1);
        }
        if y_not_high {
            push_neighbor(&mut cells, game, x - 1, y + 1);
        }
        push_neighbor(&mut cells, game, x - 1, y);
    }
    if y_not_low {
        if x_not_high {
            push_neighbor(&mut cells, game, x + 1, y - 1);
        }
        push_neighbor(&mut cells, game, x, y - 1);
    }
    if x_not_high {
        if y_not_high {
            push_neighbor(&mut cells, game, x + 1, y + 1);
        }
        push_neighbor(&mut cells, game, x + 1, y);
    }
    if y_not_high {
        push_neighbor(&mut cells, game, x, y + 1);
    }
    cells
}

/// The glyph that shows a cell: `o` when alive, `.` when dead.
pub open spec fn glyph(c: Cell) -> char {
    match c.state {
        State::Alive => 'o',
        State::Dead => '.',
    }
}

/// The text of a board: for each row, a line break and then one glyph per
/// column.
pub open spec fn render_text(s: Seq<Cell>) -> Seq<char> {
    Seq::new(
        (HEIGHT * (WIDTH + 1)) as nat,
        |k: int|
            if k % (WIDTH + 1) as int == 0 {
                '\n'
            } else {
                glyph(s[index_of(k % (WIDTH + 1) as int - 1, k / (WIDTH + 1) as int)])
            },
    )
}

impl GameOfLife {
    /// The board as text, as `render_text` lays it out.
    pub fn render(&self) -> (r: Vec<char>)
        ensures
            r@ == render_text(self@),
    {
        let total: usize = HEIGHT * (WIDTH + 1);
        let mut out: Vec<char> = Vec::new();
        let mut k: usize = 0;
        while k < total
            invariant
                total == HEIGHT * (WIDTH + 1),
                k <= total,
                out@.len() == k,
                forall|j: int| 0 <= j < k ==> #[trigger] out@[j] == render_text(self@)[j],
            decreases total - k,
        {
            let column = k % (WIDTH + 1);
            let row = k / (WIDTH + 1);
            assert(column < WIDTH + 1 && row < HEIGHT) by (nonlinear_arith)
                requires
                    column == k % 51,
                    row == k / 51,
                    k < 25 * 51,
            ;
            if column == 0 {
                out.push('\n');
            } else {
                let cell = self.get_cell_at(Coords { x: column - 1, y: row });
                let c = match cell.state {
                    State::Alive => 'o',
                    State::Dead => '.',
                };
                out.push(c);
            }
            k = k + 1;
        }
        assert(out@ =~= render_text(self@));
        out
    }
}

impl PartialEq for GameOfLife {
    fn eq(&self, other: &GameOfLife) -> (r: bool) {
        proof {
            use_type_invariant(self);
            use_type_invariant(other);
        }
        let mut i: usize = 0;
        while i < CELLS
            invariant
                i <= CELLS,
                self@.len() == CELLS,
                other@.len() == CELLS,
                forall|j: int| 0 <= j < i ==> #[trigger] self@[j] == other@[j],
            decreases CELLS - i,
        {
            if self.cells[i] != other.cells[i] {
                return false;
            }
            i = i + 1;
        }
        assert(self@ =~= other@);
        true
    }
}

impl vstd::std_specs::cmp::PartialEqSpecImpl for GameOfLife {
    open spec fn obeys_eq_spec() -> bool {
        true
    }

    open spec fn eq_spec(&self, other: &GameOfLife) -> bool {
        self@ == other@
    }
}

} // verus!
