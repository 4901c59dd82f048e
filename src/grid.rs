use vstd::prelude::*;

verus! {

/// Number of rows of the automaton's grid.
pub const ROWS: usize = 8;

/// Number of columns of the automaton's grid.
pub const COLS: usize = 16;

/// Cell states, row by row. Bit 0 of a cell is its committed alive bit; bit 1
/// stages the next generation while a step is in progress.
pub type Grid = [[u8; 16]; 8];

/// The byte stored at (r, c).
pub open spec fn cell(g: Grid, r: int, c: int) -> u8 {
    g@[r]@[c]
}

/// (r, c) lies on the grid.
pub open spec fn in_bounds(r: int, c: int) -> bool {
    0 <= r < ROWS && 0 <= c < COLS
}

/// 1 when the alive bit of (r, c) is set, 0 otherwise.
pub open spec fn live(g: Grid, r: int, c: int) -> int {
    (cell(g, r, c) % 2) as int
}

/// Between steps every cell holds exactly 0 or 1: no pending bit, no other bit.
pub open spec fn at_rest(g: Grid) -> bool {
    forall|r: int, c: int| in_bounds(r, c) ==> #[trigger] cell(g, r, c) <= 1
}

/// Writes `v` at (row, col) and leaves every other cell as it was.
pub(crate) fn set_cell(state: &mut Grid, row: usize, col: usize, v: u8)
    requires
        in_bounds(row as int, col as int),
    ensures
        forall|r: int, c: int|
            in_bounds(r, c) ==> #[trigger] cell(*final(state), r, c) == if r == row && c == col {
                v
            } else {
                cell(*old(state), r, c)
            },
{
    state[row][col] = v;
}

/// The alive bit of a byte, as `& 1` computes it.
pub(crate) proof fn lemma_low_bit(v: u8)
    ensures
        v & 1 == v % 2,
        v & 1 <= 1,
{
    assert(v & 1 == v % 2) by (bit_vector);
}

} // verus!
