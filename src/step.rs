use vstd::prelude::*;

use crate::grid::{at_rest, cell, in_bounds, lemma_low_bit, live, set_cell, Grid};
use crate::neighbors::{count_neighbors_torus, torus_neighbors};

verus! {

/// Whether (r, c) is alive in the generation after `g`: a dead cell with
/// exactly three live neighbors is born, a live cell with two or three
/// survives, every other cell is dead.
pub open spec fn next_alive(g: Grid, r: int, c: int) -> bool {
    let n = torus_neighbors(g, r, c);
    if live(g, r, c) == 1 {
        n == 2 || n == 3
    } else {
        n == 3
    }
}

/// `h` is the generation after `g`, at rest.
pub open spec fn is_next_generation(g: Grid, h: Grid) -> bool {
    forall|r: int, c: int|
        in_bounds(r, c) ==> #[trigger] cell(h, r, c) == if next_alive(g, r, c) {
            1u8
        } else {
            0u8
        }
}

/// What (r, c) holds between the two passes of a step: its alive bit, with the
/// next generation's bit staged above it.
spec fn staged(g: Grid, r: int, c: int) -> u8 {
    if next_alive(g, r, c) {
        (cell(g, r, c) + 2) as u8
    } else {
        cell(g, r, c)
    }
}

/// Whether (r, c) comes before (row, col) in row-major order.
spec fn visited(row: int, col: int, r: int, c: int) -> bool {
    r < row || (r == row && c < col)
}

proof fn lemma_same_live_same_count(g: Grid, h: Grid, row: int, col: int)
    requires
        in_bounds(row, col),
        forall|r: int, c: int| in_bounds(r, c) ==> #[trigger] live(h, r, c) == live(g, r, c),
    ensures
        torus_neighbors(h, row, col) == torus_neighbors(g, row, col),
{
    assert(live(h, (row - 1) % 8, (col - 1) % 16) == live(g, (row - 1) % 8, (col - 1) % 16));
    assert(live(h, (row - 1) % 8, col % 16) == live(g, (row - 1) % 8, col % 16));
    assert(live(h, (row - 1) % 8, (col + 1) % 16) == live(g, (row - 1) % 8, (col + 1) % 16));
    assert(live(h, row % 8, (col - 1) % 16) == live(g, row % 8, (col - 1) % 16));
    assert(live(h, row % 8, (col + 1) % 16) == live(g, row % 8, (col + 1) % 16));
    assert(live(h, (row + 1) % 8, (col - 1) % 16) == live(g, (row + 1) % 8, (col - 1) % 16));
    assert(live(h, (row + 1) % 8, col % 16) == live(g, (row + 1) % 8, col % 16));
    assert(live(h, (row + 1) % 8, (col + 1) % 16) == live(g, (row + 1) % 8, (col + 1) % 16));
}

proof fn lemma_stage_bit(v: u8)
    requires
        v <= 1,
    ensures
        v | 2 == v + 2,
{
    assert(v <= 1 ==> v | 2 == v + 2) by (bit_vector);
}

proof fn lemma_commit_bit(v: u8)
    ensures
        v >> 1 == v / 2,
{
    assert(v >> 1 == v / 2) by (bit_vector);
}

/// Advances the grid by one generation in place. A first pass stages every
/// cell's next alive bit in bit 1, reading only bit 0; a second pass shifts
/// each cell right by one, committing the staged bit.
pub fn step_state(state: &mut Grid)
    requires
        at_rest(*old(state)),
    ensures
        is_next_generation(*old(state), *final(state)),
        at_rest(*final(state)),
{
    let ghost g = *state;
    let mut row: usize = 0;
    while row < 8
        invariant
            0 <= row <= 8,
            at_rest(g),
            forall|r: int, c: int|
                in_bounds(r, c) ==> #[trigger] cell(*state, r, c) == if visited(row as int, 0, r, c) {
                    staged(g, r, c)
                } else {
                    cell(g, r, c)
                },
        decreases 8 - row,
    {
        let mut col: usize = 0;
        while col < 16
            invariant
                0 <= row < 8,
                0 <= col <= 16,
                at_rest(g),
                forall|r: int, c: int|
                    in_bounds(r, c) ==> #[trigger] cell(*state, r, c) == if visited(
                        row as int,
                        col as int,
                        r,
                        c,
                    ) {
                        staged(g, r, c)
                    } else {
                        cell(g, r, c)
                    },
            decreases 16 - col,
        {
            proof {
                assert forall|r: int, c: int| in_bounds(r, c) implies #[trigger] live(*state, r, c)
                    == live(g, r, c) by {
                    assert(cell(*state, r, c) == cell(*state, r, c));
                    assert(cell(g, r, c) <= 1);
                }
                lemma_same_live_same_count(g, *state, row as int, col as int);
                lemma_low_bit(state[row as int][col as int]);
                assert(cell(*state, row as int, col as int) == cell(g, row as int, col as int));
                assert(cell(g, row as int, col as int) <= 1);
            }
            let neighbors = count_neighbors_torus(&state, row, col);
            let v = state[row][col];
            proof {
                lemma_stage_bit(v);
            }
            if v & 1 == 0 && neighbors == 3 {
                // dead, with three live neighbors: born
                set_cell(state, row, col, v | 0b10);
            } else if v & 1 == 1 && (neighbors == 2 || neighbors == 3) {
                // alive, with two or three live neighbors: survives
                set_cell(state, row, col, v | 0b10);
            }
            // otherwise the staged bit stays 0: the cell dies
            col += 1;
        }
        row += 1;
    }

    let mut row: usize = 0;
    while row < 8
        invariant
            0 <= row <= 8,
            at_rest(g),
            forall|r: int, c: int|
                in_bounds(r, c) ==> #[trigger] cell(*state, r, c) == if visited(row as int, 0, r, c) {
                    if next_alive(g, r, c) {
                        1u8
                    } else {
                        0u8
                    }
                } else {
                    staged(g, r, c)
                },
        decreases 8 - row,
    {
        let mut col: usize = 0;
        while col < 16
            invariant
                0 <= row < 8,
                0 <= col <= 16,
                at_rest(g),
                forall|r: int, c: int|
                    in_bounds(r, c) ==> #[trigger] cell(*state, r, c) == if visited(
                        row as int,
                        col as int,
                        r,
                        c,
                    ) {
                        if next_alive(g, r, c) {
                            1u8
                        } else {
                            0u8
                        }
                    } else {
                        staged(g, r, c)
                    },
            decreases 16 - col,
        {
            proof {
                lemma_commit_bit(state[row as int][col as int]);
                assert(cell(*state, row as int, col as int) == staged(g, row as int, col as int));
                assert(cell(g, row as int, col as int) <= 1);
            }
            let v = state[row][col];
            set_cell(state, row, col, v >> 1);
            col += 1;
        }
        row += 1;
    }
}

} // verus!
