use vstd::prelude::*;

use crate::grid::{in_bounds, lemma_low_bit, live, Grid};

verus! {

/// Alive bit of (r, c) when it lies on the grid; 0 beyond the edge.
pub open spec fn clamped_live(g: Grid, r: int, c: int) -> int {
    if in_bounds(r, c) {
        live(g, r, c)
    } else {
        0
    }
}

/// Live neighbors of (row, col) when the grid ends at its edges.
pub open spec fn clamped_neighbors(g: Grid, row: int, col: int) -> int {
    clamped_live(g, row - 1, col - 1) + clamped_live(g, row - 1, col) + clamped_live(
        g,
        row - 1,
        col + 1,
    ) + clamped_live(g, row, col - 1) + clamped_live(g, row, col + 1) + clamped_live(
        g,
        row + 1,
        col - 1,
    ) + clamped_live(g, row + 1, col) + clamped_live(g, row + 1, col + 1)
}

/// Alive bit of (r, c) with both coordinates wrapped around the torus.
pub open spec fn torus_live(g: Grid, r: int, c: int) -> int {
    live(g, r % 8, c % 16)
}

/// Live neighbors of (row, col) when the top edge meets the bottom edge and
/// the left edge meets the right edge.
pub open spec fn torus_neighbors(g: Grid, row: int, col: int) -> int {
    torus_live(g, row - 1, col - 1) + torus_live(g, row - 1, col) + torus_live(g, row - 1, col + 1)
        + torus_live(g, row, col - 1) + torus_live(g, row, col + 1) + torus_live(
        g,
        row + 1,
        col - 1,
    ) + torus_live(g, row + 1, col) + torus_live(g, row + 1, col + 1)
}

// Running sums of the clamped count, in the order the loops visit cells.
spec fn clamped_term(g: Grid, row: int, col: int, r: int, c: int) -> int {
    if r == row && c == col {
        0
    } else {
        live(g, r, c)
    }
}

spec fn clamped_row_sum(g: Grid, row: int, col: int, r: int, c_lo: int, c_end: int) -> int
    decreases c_end - c_lo,
{
    if c_end <= c_lo {
        0
    } else {
        clamped_row_sum(g, row, col, r, c_lo, c_end - 1) + clamped_term(g, row, col, r, c_end - 1)
    }
}

spec fn clamped_rows_sum(
    g: Grid,
    row: int,
    col: int,
    r_lo: int,
    r_end: int,
    c_lo: int,
    c_end: int,
) -> int
    decreases r_end - r_lo,
{
    if r_end <= r_lo {
        0
    } else {
        clamped_rows_sum(g, row, col, r_lo, r_end - 1, c_lo, c_end) + clamped_row_sum(
            g,
            row,
            col,
            r_end - 1,
            c_lo,
            c_end,
        )
    }
}

spec fn lower(x: int) -> int {
    if x == 0 {
        0
    } else {
        x - 1
    }
}

spec fn upper(x: int, last: int) -> int {
    if x + 1 < last {
        x + 1
    } else {
        last
    }
}

proof fn lemma_clamped_sums(g: Grid, row: int, col: int)
    requires
        in_bounds(row, col),
    ensures
        clamped_rows_sum(g, row, col, lower(row), upper(row, 7) + 1, lower(col), upper(col, 15) + 1)
            == clamped_neighbors(g, row, col),
{
    reveal_with_fuel(clamped_rows_sum, 4);
    reveal_with_fuel(clamped_row_sum, 4);
}

/// Counts the live neighbors of (row, col), treating cells beyond the edge as
/// absent: corners see three neighbors, other edge cells five.
pub fn count_neighbors_bounded(state: &Grid, row: usize, col: usize) -> (total: u8)
    requires
        in_bounds(row as int, col as int),
    ensures
        total as int == clamped_neighbors(*state, row as int, col as int),
        total <= 8,
{
    let r_lo = row.saturating_sub(1);
    let r_hi = if row + 1 < 7 {
        row + 1
    } else {
        7
    };
    let c_lo = col.saturating_sub(1);
    let c_hi = if col + 1 < 15 {
        col + 1
    } else {
        15
    };
    let ghost (g, gr, gc) = (*state, row as int, col as int);
    let mut total: u8 = 0;
    let mut r = r_lo;
    while r <= r_hi
        invariant
            r_lo <= r <= r_hi + 1,
            r_lo == lower(gr),
            r_hi == upper(gr, 7),
            c_lo == lower(gc),
            c_hi == upper(gc, 15),
            g == *state,
            gr == row,
            gc == col,
            in_bounds(gr, gc),
            total as int == clamped_rows_sum(g, gr, gc, r_lo as int, r as int, c_lo as int, c_hi + 1),
            total <= 3 * (r - r_lo),
        decreases r_hi + 1 - r,
    {
        let mut c = c_lo;
        while c <= c_hi
            invariant
                r_lo <= r <= r_hi,
                c_lo <= c <= c_hi + 1,
                r_lo == lower(gr),
                r_hi == upper(gr, 7),
                c_lo == lower(gc),
                c_hi == upper(gc, 15),
                g == *state,
                gr == row,
                gc == col,
                in_bounds(gr, gc),
                total as int == clamped_rows_sum(g, gr, gc, r_lo as int, r as int, c_lo as int, c_hi + 1)
                    + clamped_row_sum(g, gr, gc, r as int, c_lo as int, c as int),
                total <= 3 * (r - r_lo) + (c - c_lo),
            decreases c_hi + 1 - c,
        {
            if r == row && c == col {
                c += 1;
                continue;
            }
            proof {
                lemma_low_bit(state[r as int][c as int]);
            }
            total += state[r][c] & 1;
            c += 1;
        }
        r += 1;
    }
    proof {
        lemma_clamped_sums(g, gr, gc);
    }
    total
}

// Running sums of the toroidal count, in the order the loops visit offsets.
spec fn torus_term(g: Grid, row: int, col: int, roff: int, coff: int) -> int {
    if roff == 8 && coff == 16 {
        0
    } else {
        live(g, (row + roff) % 8, (col + coff) % 16)
    }
}

spec fn torus_row_sum(g: Grid, row: int, col: int, roff: int, coff_end: int) -> int
    decreases coff_end - 15,
{
    if coff_end <= 15 {
        0
    } else {
        torus_row_sum(g, row, col, roff, coff_end - 1) + torus_term(g, row, col, roff, coff_end - 1)
    }
}

spec fn torus_rows_sum(g: Grid, row: int, col: int, roff_end: int) -> int
    decreases roff_end - 7,
{
    if roff_end <= 7 {
        0
    } else {
        torus_rows_sum(g, row, col, roff_end - 1) + torus_row_sum(g, row, col, roff_end - 1, 18)
    }
}

proof fn lemma_torus_sums(g: Grid, row: int, col: int)
    requires
        in_bounds(row, col),
    ensures
        torus_rows_sum(g, row, col, 10) == torus_neighbors(g, row, col),
{
    reveal_with_fuel(torus_rows_sum, 4);
    reveal_with_fuel(torus_row_sum, 4);
    assert((row + 7) % 8 == (row - 1) % 8);
    assert((row + 9) % 8 == (row + 1) % 8);
    assert((row + 8) % 8 == row % 8);
    assert((col + 15) % 16 == (col - 1) % 16);
    assert((col + 17) % 16 == (col + 1) % 16);
    assert((col + 16) % 16 == col % 16);
}

/// Counts the live neighbors of (row, col) on the torus: all eight offsets,
/// each coordinate wrapped modulo its dimension.
pub fn count_neighbors_torus(state: &Grid, row: usize, col: usize) -> (total: u8)
    requires
        in_bounds(row as int, col as int),
    ensures
        total as int == torus_neighbors(*state, row as int, col as int),
        total <= 8,
{
    let ghost (g, gr, gc) = (*state, row as int, col as int);
    let mut total: u8 = 0;
    let mut roff: usize = 7;
    while roff <= 9
        invariant
            7 <= roff <= 10,
            g == *state,
            gr == row,
            gc == col,
            in_bounds(gr, gc),
            total as int == torus_rows_sum(g, gr, gc, roff as int),
            total <= 3 * (roff - 7),
        decreases 10 - roff,
    {
        let mut coff: usize = 15;
        while coff <= 17
            invariant
                7 <= roff <= 9,
                15 <= coff <= 18,
                g == *state,
                gr == row,
                gc == col,
                in_bounds(gr, gc),
                total as int == torus_rows_sum(g, gr, gc, roff as int) + torus_row_sum(
                    g,
                    gr,
                    gc,
                    roff as int,
                    coff as int,
                ),
                total <= 3 * (roff - 7) + (coff - 15),
            decreases 18 - coff,
        {
            if roff == 8 && coff == 16 {
                coff += 1;
                continue;
            }
            let r = (row + roff) % 8;
            let c = (col + coff) % 16;
            proof {
                lemma_low_bit(state[r as int][c as int]);
            }
            total += state[r][c] & 1;
            coff += 1;
        }
        roff += 1;
    }
    proof {
        lemma_torus_sums(g, gr, gc);
    }
    total
}

/// Both counts lie in 0..=8 for every cell. Beyond the edge there is nothing
/// to count: a corner sees at most three live neighbors under the clamped
/// count, any other cell of the border at most five.
pub proof fn lemma_neighbor_count_range(g: Grid, row: int, col: int)
    requires
        in_bounds(row, col),
    ensures
        0 <= torus_neighbors(g, row, col) <= 8,
        0 <= clamped_neighbors(g, row, col) <= 8,
        (row == 0 || row == 7) && (col == 0 || col == 15) ==> clamped_neighbors(g, row, col) <= 3,
        row == 0 || row == 7 || col == 0 || col == 15 ==> clamped_neighbors(g, row, col) <= 5,
{
}

/// On a torus where only (0, 0) is alive, exactly its eight wrapped
/// neighbors (7, 15), (7, 0), (7, 1), (0, 15), (0, 1), (1, 15), (1, 0) and
/// (1, 1) count one live neighbor; every other cell counts none.
pub proof fn lemma_torus_wraparound(g: Grid, row: int, col: int)
    requires
        in_bounds(row, col),
        forall|r: int, c: int|
            in_bounds(r, c) ==> #[trigger] live(g, r, c) == if r == 0 && c == 0 {
                1int
            } else {
                0int
            },
    ensures
        torus_neighbors(g, row, col) == if (row == 7 || row == 0 || row == 1) && (col == 15 || col
            == 0 || col == 1) && !(row == 0 && col == 0) {
            1int
        } else {
            0int
        },
{
    assert(live(g, (row - 1) % 8, (col - 1) % 16) == live(g, (row - 1) % 8, (col - 1) % 16));
    assert(live(g, (row - 1) % 8, col % 16) == live(g, (row - 1) % 8, col % 16));
    assert(live(g, (row - 1) % 8, (col + 1) % 16) == live(g, (row - 1) % 8, (col + 1) % 16));
    assert(live(g, row % 8, (col - 1) % 16) == live(g, row % 8, (col - 1) % 16));
    assert(live(g, row % 8, (col + 1) % 16) == live(g, row % 8, (col + 1) % 16));
    assert(live(g, (row + 1) % 8, (col - 1) % 16) == live(g, (row + 1) % 8, (col - 1) % 16));
    assert(live(g, (row + 1) % 8, col % 16) == live(g, (row + 1) % 8, col % 16));
    assert(live(g, (row + 1) % 8, (col + 1) % 16) == live(g, (row + 1) % 8, (col + 1) % 16));
}

} // verus!
