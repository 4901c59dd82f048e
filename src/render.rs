use vstd::prelude::*;

use crate::grid::{cell, in_bounds, lemma_low_bit, live, set_cell, Grid};

verus! {

/// Brightness written for a live cell; dead cells get 0.
pub const ON_BRIGHTNESS: u8 = 15;

/// Brightness of (r, c) for the committed state `g`.
pub open spec fn brightness(g: Grid, r: int, c: int) -> u8 {
    if live(g, r, c) == 1 {
        ON_BRIGHTNESS
    } else {
        0
    }
}

/// `image` holds the brightness of every cell of `g`.
pub open spec fn is_render_of(image: Grid, g: Grid) -> bool {
    forall|r: int, c: int| in_bounds(r, c) ==> #[trigger] cell(image, r, c) == brightness(g, r, c)
}

/// Fills the framebuffer `image` from the alive bits of `state`.
pub fn show_state(state: &Grid, image: &mut Grid)
    ensures
        is_render_of(*final(image), *state),
{
    let mut row: usize = 0;
    while row < 8
        invariant
            0 <= row <= 8,
            forall|r: int, c: int|
                in_bounds(r, c) && r < row ==> #[trigger] cell(*image, r, c) == brightness(
                    *state,
                    r,
                    c,
                ),
        decreases 8 - row,
    {
        let mut col: usize = 0;
        while col < 16
            invariant
                0 <= row < 8,
                0 <= col <= 16,
                forall|r: int, c: int|
                    in_bounds(r, c) && (r < row || (r == row && c < col)) ==> #[trigger] cell(
                        *image,
                        r,
                        c,
                    ) == brightness(*state, r, c),
            decreases 16 - col,
        {
            proof {
                lemma_low_bit(state[row as int][col as int]);
            }
            let v = if state[row][col] & 1 == 1 {
                ON_BRIGHTNESS
            } else {
                0
            };
            set_cell(image, row, col, v);
            col += 1;
        }
        row += 1;
    }
}

/// Rendering is a function of the committed state alone: two framebuffers
/// rendered from the same grid hold the same values.
pub proof fn lemma_render_deterministic(g: Grid, a: Grid, b: Grid)
    requires
        is_render_of(a, g),
        is_render_of(b, g),
    ensures
        a == b,
{
    assert forall|r: int| 0 <= r < 8 implies a@[r] == b@[r] by {
        assert forall|c: int| 0 <= c < 16 implies a@[r]@[c] == b@[r]@[c] by {
            assert(cell(a, r, c) == cell(b, r, c));
        }
        assert(a@[r]@ =~= b@[r]@);
    }
    assert(a@ =~= b@);
}

} // verus!
