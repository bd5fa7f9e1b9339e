use game_of_life::board::{get_neighbors, Coords, GameOfLife, CELLS, HEIGHT, WIDTH};
use game_of_life::cell::{Cell, State};

fn at(x: usize, y: usize) -> Coords {
    Coords { x, y }
}

fn alive_count(cells: &[Cell]) -> usize {
    cells.iter().filter(|c| c.state == State::Alive).count()
}

fn dead_cells(n: usize) -> Vec<Cell> {
    vec![Cell::new(State::Dead); n]
}

fn mixed(alive: usize, dead: usize) -> Vec<Cell> {
    let mut v = vec![Cell::new(State::Alive); alive];
    v.extend(dead_cells(dead));
    v
}

#[test]
fn test_alternator() {
    let gol = GameOfLife::new(vec![at(0, 1), at(1, 1), at(2, 1)]);
    let second_frame = GameOfLife::new(vec![at(1, 0), at(1, 1), at(1, 2)]);
    assert_eq!(gol.next_frame(), second_frame)
}

#[test]
fn blinker_returns_after_two_generations() {
    let gol = GameOfLife::new(vec![at(0, 1), at(1, 1), at(2, 1)]);
    assert_eq!(gol.next_frame().next_frame(), gol);
    assert_ne!(gol.next_frame(), gol);
}

#[test]
fn isolated_cell_dies() {
    let gol = GameOfLife::new(vec![at(10, 10)]);
    assert_eq!(gol.next_frame(), GameOfLife::new(vec![]));
}

#[test]
fn dead_cell_birth_rule() {
    let dead = Cell::new(State::Dead);
    assert_eq!(dead.next_state(mixed(3, 5)).state, State::Alive);
    assert_eq!(dead.next_state(mixed(2, 6)).state, State::Dead);
    assert_eq!(dead.next_state(mixed(4, 4)).state, State::Dead);
    assert_eq!(dead.next_state(mixed(0, 3)).state, State::Dead);
}

#[test]
fn live_cell_survival_rule() {
    let alive = Cell::new(State::Alive);
    assert_eq!(alive.next_state(mixed(2, 6)).state, State::Alive);
    assert_eq!(alive.next_state(mixed(3, 5)).state, State::Alive);
    assert_eq!(alive.next_state(mixed(0, 8)).state, State::Dead);
    assert_eq!(alive.next_state(mixed(1, 7)).state, State::Dead);
    assert_eq!(alive.next_state(mixed(4, 4)).state, State::Dead);
    assert_eq!(alive.next_state(mixed(8, 0)).state, State::Dead);
    assert_eq!(alive.next_state(Vec::new()).state, State::Dead);
}

#[test]
fn rule_on_a_board() {
    // (5,5) has three live neighbours and is born; (1,1) has two and stays dead.
    let gol = GameOfLife::new(vec![at(4, 4), at(6, 4), at(5, 6), at(0, 0), at(2, 2)]);
    let next = gol.next_frame();
    assert_eq!(next.get_cell_at(at(5, 5)).state, State::Alive);
    assert_eq!(next.get_cell_at(at(1, 1)).state, State::Dead);
    // a live cell with four live neighbours dies
    let crowded = GameOfLife::new(vec![at(20, 20), at(19, 19), at(21, 19), at(19, 21), at(21, 21)]);
    assert_eq!(crowded.next_frame().get_cell_at(at(20, 20)).state, State::Dead);
}

#[test]
fn empty_board_stays_empty() {
    let empty = GameOfLife::new(vec![]);
    let next = empty.next_frame();
    assert_eq!(next, empty);
    for y in 0..HEIGHT {
        for x in 0..WIDTH {
            assert_eq!(next.get_cell_at(at(x, y)).state, State::Dead);
        }
    }
}

#[test]
fn block_is_still_life() {
    for &(bx, by) in &[(0usize, 0usize), (10, 7), (WIDTH - 2, HEIGHT - 2), (0, HEIGHT - 2)] {
        let block = GameOfLife::new(vec![at(bx, by), at(bx + 1, by), at(bx, by + 1), at(bx + 1, by + 1)]);
        assert_eq!(block.next_frame(), block);
    }
}

#[test]
fn next_frame_is_deterministic() {
    let gol = GameOfLife::new(vec![at(6, 0), at(6, 1), at(6, 2), at(5, 2), at(4, 1)]);
    assert_eq!(gol.next_frame(), gol.next_frame());
}

#[test]
fn neighbor_totals_by_position() {
    let gol = GameOfLife::new(vec![]);
    assert_eq!(get_neighbors(at(0, 0), &gol).len(), 3);
    assert_eq!(get_neighbors(at(WIDTH - 1, HEIGHT - 1), &gol).len(), 3);
    assert_eq!(get_neighbors(at(0, HEIGHT - 1), &gol).len(), 3);
    assert_eq!(get_neighbors(at(WIDTH - 1, 0), &gol).len(), 3);
    assert_eq!(get_neighbors(at(0, 5), &gol).len(), 5);
    assert_eq!(get_neighbors(at(7, 0), &gol).len(), 5);
    assert_eq!(get_neighbors(at(WIDTH - 1, 5), &gol).len(), 5);
    assert_eq!(get_neighbors(at(7, HEIGHT - 1), &gol).len(), 5);
    assert_eq!(get_neighbors(at(7, 5), &gol).len(), 8);
}

#[test]
fn neighbor_alive_and_dead_add_up() {
    let gol = GameOfLife::new(vec![at(0, 0), at(1, 0), at(1, 1), at(3, 3)]);
    let n = get_neighbors(at(0, 1), &gol);
    assert_eq!(n.len(), 5);
    assert_eq!(alive_count(&n), 3);
    let dead = n.iter().filter(|c| c.state == State::Dead).count();
    assert_eq!(alive_count(&n) + dead, n.len());
    let m = get_neighbors(at(2, 2), &gol);
    assert_eq!(m.len(), 8);
    assert_eq!(alive_count(&m), 2);
}

#[test]
fn board_does_not_wrap() {
    // a vertical line on the last column gives the first column no neighbours
    let gol = GameOfLife::new(vec![at(WIDTH - 1, 4), at(WIDTH - 1, 5), at(WIDTH - 1, 6)]);
    assert_eq!(alive_count(&get_neighbors(at(0, 5), &gol)), 0);
    let next = gol.next_frame();
    assert_eq!(next.get_cell_at(at(0, 5)).state, State::Dead);
    assert_eq!(next.get_cell_at(at(WIDTH - 2, 5)).state, State::Alive);
    // a line on the last row gives the first row no neighbours
    let rows = GameOfLife::new(vec![at(9, HEIGHT - 1), at(10, HEIGHT - 1), at(11, HEIGHT - 1)]);
    assert_eq!(alive_count(&get_neighbors(at(10, 0), &rows)), 0);
    assert_eq!(rows.next_frame().get_cell_at(at(10, 0)).state, State::Dead);
    // corner to corner
    let corners = GameOfLife::new(vec![at(WIDTH - 1, HEIGHT - 1), at(WIDTH - 1, 0), at(0, HEIGHT - 1)]);
    assert_eq!(alive_count(&get_neighbors(at(0, 0), &corners)), 0);
    assert_eq!(corners.next_frame().get_cell_at(at(0, 0)).state, State::Dead);
}

#[test]
fn new_places_live_cells() {
    let gol = GameOfLife::new(vec![at(3, 2), at(3, 2), at(49, 24)]);
    assert_eq!(gol.get_cell_at(at(3, 2)).state, State::Alive);
    assert_eq!(gol.get_cell_at(at(49, 24)).state, State::Alive);
    assert_eq!(gol.get_cell_at(at(2, 3)).state, State::Dead);
    let mut alive = 0;
    for y in 0..HEIGHT {
        for x in 0..WIDTH {
            if gol.get_cell_at(at(x, y)).state == State::Alive {
                alive += 1;
            }
        }
    }
    assert_eq!(alive, 2);
    assert_eq!(CELLS, 1250);
}

#[test]
fn render_lays_out_rows() {
    let gol = GameOfLife::new(vec![at(0, 0), at(2, 1)]);
    let text: String = gol.render().into_iter().collect();
    assert_eq!(text.len(), HEIGHT * (WIDTH + 1));
    let lines: Vec<&str> = text.split('\n').collect();
    assert_eq!(lines.len(), HEIGHT + 1);
    assert_eq!(lines[0], "");
    assert_eq!(lines[1], format!("o{}", ".".repeat(WIDTH - 1)));
    assert_eq!(lines[2], format!("..o{}", ".".repeat(WIDTH - 3)));
    assert_eq!(lines[3], ".".repeat(WIDTH));
}
