//! Properties of the generation step, stated over the board model.
use vstd::prelude::*;

use crate::board::{
    CELLS, Coords, GameOfLife, HEIGHT, WIDTH, alive_at, dead_at, dead_neighbors, in_bounds,
    index_of, lemma_index_in_bounds, live_neighbors, neighbor_total, next_gen, present, seeded,
};
use crate::cell::{Cell, State};
use vstd::std_specs::cmp::PartialEqSpec;
use vstd::arithmetic::div_mod::lemma_fundamental_div_mod;

verus! {

/// Two positions on the board with the same index are the same position.
proof fn lemma_index_injective(x1: int, y1: int, x2: int, y2: int)
    requires
        in_bounds(x1, y1),
        in_bounds(x2, y2),
        index_of(x1, y1) == index_of(x2, y2),
    ensures
        x1 == x2,
        y1 == y2,
{
    lemma_index_in_bounds(x1, y1);
    lemma_index_in_bounds(x2, y2);
}

/// Stepping is deterministic: two boards that both follow `g` hold the same
/// cells, so they compare equal.
pub proof fn lemma_next_frame_deterministic(g: GameOfLife, a: GameOfLife, b: GameOfLife)
    requires
        a@ == next_gen(g@),
        b@ == next_gen(g@),
    ensures
        a@ == b@,
        a.eq_spec(&b),
{
}

/// Around every position of the board, the live and the dead neighbours
/// together are all the neighbours there are: eight inside the board, five on
/// an edge and three in a corner.
pub proof fn lemma_neighbor_counts(s: Seq<Cell>, x: int, y: int)
    requires
        s.len() == CELLS,
        in_bounds(x, y),
    ensures
        live_neighbors(s, x, y) + dead_neighbors(s, x, y) == neighbor_total(x, y),
        (x == 0 || x == WIDTH - 1) && (y == 0 || y == HEIGHT - 1) ==> neighbor_total(x, y) == 3,
        (x == 0 || x == WIDTH - 1) != (y == 0 || y == HEIGHT - 1) ==> neighbor_total(x, y) == 5,
        0 < x < WIDTH - 1 && 0 < y < HEIGHT - 1 ==> neighbor_total(x, y) == 8,
{
    assert forall|dx: int, dy: int| -1 <= dx <= 1 && -1 <= dy <= 1 implies
        #[trigger] alive_at(s, x + dx, y + dy) + dead_at(s, x + dx, y + dy) == present(x + dx, y + dy) by {
        if in_bounds(x + dx, y + dy) {
            lemma_index_in_bounds(x + dx, y + dy);
        }
    }
    assert(alive_at(s, x - 1, y - 1) + dead_at(s, x - 1, y - 1) == present(x - 1, y - 1));
    assert(alive_at(s, x + 0, y - 1) + dead_at(s, x + 0, y - 1) == present(x + 0, y - 1));
    assert(alive_at(s, x + 1, y - 1) + dead_at(s, x + 1, y - 1) == present(x + 1, y - 1));
    assert(alive_at(s, x - 1, y + 0) + dead_at(s, x - 1, y + 0) == present(x - 1, y + 0));
    assert(alive_at(s, x + 1, y + 0) + dead_at(s, x + 1, y + 0) == present(x + 1, y + 0));
    assert(alive_at(s, x - 1, y + 1) + dead_at(s, x - 1, y + 1) == present(x - 1, y + 1));
    assert(alive_at(s, x + 0, y + 1) + dead_at(s, x + 0, y + 1) == present(x + 0, y + 1));
    assert(alive_at(s, x + 1, y + 1) + dead_at(s, x + 1, y + 1) == present(x + 1, y + 1));
}

/// The board does not wrap: a cell that is more than one column or more than
/// one row away from `(x, y)` on the board, such as one in the last column
/// seen from the first, has no effect on the live neighbours of `(x, y)`,
/// whatever state it is given.
pub proof fn lemma_no_wraparound(s: Seq<Cell>, x: int, y: int, px: int, py: int, c: Cell)
    requires
        s.len() == CELLS,
        in_bounds(x, y),
        in_bounds(px, py),
        px < x - 1 || px > x + 1 || py < y - 1 || py > y + 1,
    ensures
        live_neighbors(s.update(index_of(px, py), c), x, y) == live_neighbors(s, x, y),
{
    lemma_index_in_bounds(px, py);
    let t = s.update(index_of(px, py), c);
    assert forall|dx: int, dy: int| -1 <= dx <= 1 && -1 <= dy <= 1 implies
        #[trigger] alive_at(t, x + dx, y + dy) == alive_at(s, x + dx, y + dy) by {
        if in_bounds(x + dx, y + dy) {
            lemma_index_in_bounds(x + dx, y + dy);
            if index_of(x + dx, y + dy) == index_of(px, py) {
                lemma_index_injective(x + dx, y + dy, px, py);
            }
        }
    }
    assert(alive_at(t, x - 1, y - 1) == alive_at(s, x - 1, y - 1));
    assert(alive_at(t, x + 0, y - 1) == alive_at(s, x + 0, y - 1));
    assert(alive_at(t, x + 1, y - 1) == alive_at(s, x + 1, y - 1));
    assert(alive_at(t, x - 1, y + 0) == alive_at(s, x - 1, y + 0));
    assert(alive_at(t, x + 1, y + 0) == alive_at(s, x + 1, y + 0));
    assert(alive_at(t, x - 1, y + 1) == alive_at(s, x - 1, y + 1));
    assert(alive_at(t, x + 0, y + 1) == alive_at(s, x + 0, y + 1));
    assert(alive_at(t, x + 1, y + 1) == alive_at(s, x + 1, y + 1));
}

/// A board on which every cell is dead stays so for the next generation.
pub proof fn lemma_empty_stays_empty(s: Seq<Cell>)
    requires
        s.len() == CELLS,
        forall|i: int| 0 <= i < CELLS ==> #[trigger] s[i].state == State::Dead,
    ensures
        forall|i: int| 0 <= i < CELLS ==> #[trigger] next_gen(s)[i].state == State::Dead,
{
    assert forall|x: int, y: int| #[trigger] alive_at(s, x, y) == 0 by {
        if in_bounds(x, y) {
            lemma_index_in_bounds(x, y);
            assert(s[index_of(x, y)].state == State::Dead);
        }
    }
    assert forall|i: int| 0 <= i < CELLS implies #[trigger] next_gen(s)[i].state == State::Dead by {
        let x = i % WIDTH as int;
        let y = i / WIDTH as int;
        assert(live_neighbors(s, x, y) == 0);
    }
}

/// The four positions of the 2 x 2 block whose top left cell is `(bx, by)`.
pub open spec fn block(bx: usize, by: usize) -> Seq<Coords> {
    seq![
        Coords { x: bx, y: by },
        Coords { x: (bx + 1) as usize, y: by },
        Coords { x: bx, y: (by + 1) as usize },
        Coords { x: (bx + 1) as usize, y: (by + 1) as usize },
    ]
}

/// On the board seeded with a block, a position holds a live cell exactly
/// when it is one of the block's four.
proof fn lemma_block_alive_at(bx: usize, by: usize, x: int, y: int)
    requires
        bx + 1 < WIDTH,
        by + 1 < HEIGHT,
    ensures
        alive_at(seeded(block(bx, by)), x, y) == if bx <= x <= bx + 1 && by <= y <= by + 1 {
            1nat
        } else {
            0nat
        },
{
    let b = block(bx, by);
    let s = seeded(b);
    if in_bounds(x, y) {
        lemma_index_in_bounds(x, y);
        let i = index_of(x, y);
        if bx <= x <= bx + 1 && by <= y <= by + 1 {
            let k = (x - bx) + 2 * (y - by);
            assert(0 <= k < b.len() && index_of(b[k].x as int, b[k].y as int) == i);
        } else {
            assert forall|k: int| 0 <= k < b.len() implies index_of(b[k].x as int, b[k].y as int) != i by {
                if index_of(b[k].x as int, b[k].y as int) == i {
                    lemma_index_injective(b[k].x as int, b[k].y as int, x, y);
                }
            }
        }
    }
}

/// A lone 2 x 2 block of live cells is a still life: the next generation is
/// the same board.
pub proof fn lemma_block_is_still(bx: usize, by: usize)
    requires
        bx + 1 < WIDTH,
        by + 1 < HEIGHT,
    ensures
        next_gen(seeded(block(bx, by))) == seeded(block(bx, by)),
{
    let s = seeded(block(bx, by));
    assert forall|i: int| 0 <= i < CELLS implies #[trigger] next_gen(s)[i] == s[i] by {
        let x = i % WIDTH as int;
        let y = i / WIDTH as int;
        lemma_fundamental_div_mod(i, WIDTH as int);
        assert(in_bounds(x, y));
        lemma_block_alive_at(bx, by, x, y);
        lemma_block_alive_at(bx, by, x - 1, y - 1);
        lemma_block_alive_at(bx, by, x, y - 1);
        lemma_block_alive_at(bx, by, x + 1, y - 1);
        lemma_block_alive_at(bx, by, x - 1, y);
        lemma_block_alive_at(bx, by, x + 1, y);
        lemma_block_alive_at(bx, by, x - 1, y + 1);
        lemma_block_alive_at(bx, by, x, y + 1);
        lemma_block_alive_at(bx, by, x + 1, y + 1);
    }
    assert(next_gen(s) =~= s);
}

} // verus!
