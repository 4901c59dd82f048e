use life_matrix::grid::Grid;
use life_matrix::neighbors::{count_neighbors_bounded, count_neighbors_torus};
use life_matrix::render::{show_state, ON_BRIGHTNESS};
use life_matrix::scheduler::{initial_pattern, Life, FRAME_DURATION, INITIAL_TIMEOUT};
use life_matrix::step::step_state;

fn empty() -> Grid {
    [[0; 16]; 8]
}

fn with_live(cells: &[(usize, usize)]) -> Grid {
    let mut g = empty();
    for &(r, c) in cells {
        g[r][c] = 1;
    }
    g
}

fn live_cells(g: &Grid) -> Vec<(usize, usize)> {
    let mut out = Vec::new();
    for r in 0..8 {
        for c in 0..16 {
            if g[r][c] == 1 {
                out.push((r, c));
            }
        }
    }
    out
}

fn assert_at_rest(g: &Grid) {
    for r in 0..8 {
        for c in 0..16 {
            assert!(g[r][c] <= 1, "cell ({}, {}) holds {}", r, c, g[r][c]);
        }
    }
}

#[test]
fn torus_counts_on_initial_pattern() {
    let g = initial_pattern();
    assert_eq!(count_neighbors_torus(&g, 3, 5), 4);
    assert_eq!(count_neighbors_torus(&g, 4, 4), 4);
    assert_eq!(count_neighbors_torus(&g, 0, 0), 0);
    let row4: Vec<u8> = (0..16).map(|c| count_neighbors_torus(&g, 4, c)).collect();
    assert_eq!(row4, vec![2, 4, 5, 3, 4, 4, 5, 5, 7, 4, 3, 0, 0, 0, 0, 0]);
}

#[test]
fn bounded_counts_on_initial_pattern() {
    let g = initial_pattern();
    assert_eq!(count_neighbors_bounded(&g, 3, 5), 4);
    assert_eq!(count_neighbors_bounded(&g, 4, 4), 4);
    assert_eq!(count_neighbors_bounded(&g, 0, 0), 0);
}

#[test]
fn counts_on_full_grid() {
    let g: Grid = [[1; 16]; 8];
    assert_eq!(count_neighbors_bounded(&g, 0, 0), 3);
    assert_eq!(count_neighbors_bounded(&g, 7, 15), 3);
    assert_eq!(count_neighbors_bounded(&g, 0, 15), 3);
    assert_eq!(count_neighbors_bounded(&g, 7, 0), 3);
    assert_eq!(count_neighbors_bounded(&g, 0, 5), 5);
    assert_eq!(count_neighbors_bounded(&g, 4, 0), 5);
    assert_eq!(count_neighbors_bounded(&g, 7, 9), 5);
    assert_eq!(count_neighbors_bounded(&g, 3, 15), 5);
    assert_eq!(count_neighbors_bounded(&g, 3, 3), 8);
    for r in 0..8 {
        for c in 0..16 {
            assert_eq!(count_neighbors_torus(&g, r, c), 8);
            assert!(count_neighbors_bounded(&g, r, c) <= 8);
        }
    }
}

#[test]
fn counts_ignore_pending_bit() {
    let mut g = empty();
    g[0][1] = 0b10;
    g[1][0] = 0b11;
    assert_eq!(count_neighbors_torus(&g, 0, 0), 1);
    assert_eq!(count_neighbors_bounded(&g, 0, 0), 1);
}

#[test]
fn only_torus_wraps_edges() {
    let g = with_live(&[(7, 15)]);
    assert_eq!(count_neighbors_torus(&g, 0, 0), 1);
    assert_eq!(count_neighbors_bounded(&g, 0, 0), 0);
}

#[test]
fn torus_wraparound_from_origin() {
    let g = with_live(&[(0, 0)]);
    let expected = [(7, 15), (7, 0), (7, 1), (0, 15), (0, 1), (1, 15), (1, 0), (1, 1)];
    for r in 0..8 {
        for c in 0..16 {
            let want = if expected.contains(&(r, c)) { 1 } else { 0 };
            assert_eq!(count_neighbors_torus(&g, r, c), want, "at ({}, {})", r, c);
        }
    }
}

#[test]
fn block_steps_to_ring() {
    let mut cells = Vec::new();
    for r in 2..5 {
        for c in 5..8 {
            cells.push((r, c));
        }
    }
    let mut g = with_live(&cells);
    step_state(&mut g);
    let expected = with_live(&[
        (1, 6),
        (2, 5),
        (2, 7),
        (3, 4),
        (3, 8),
        (4, 5),
        (4, 7),
        (5, 6),
    ]);
    assert_eq!(g, expected);
}

#[test]
fn initial_pattern_one_step() {
    let mut g = initial_pattern();
    step_state(&mut g);
    let expected: Grid = [
        [0, 0, 0, 0, 0, 0, 0, 0, 0, 0, 0, 0, 0, 0, 0, 0],
        [0, 0, 0, 0, 0, 0, 0, 0, 0, 0, 0, 0, 0, 0, 0, 0],
        [0, 0, 0, 0, 1, 1, 1, 0, 1, 0, 0, 0, 0, 0, 0, 0],
        [0, 0, 1, 0, 0, 0, 0, 1, 1, 1, 0, 0, 0, 0, 0, 0],
        [0, 0, 0, 1, 0, 0, 0, 0, 0, 0, 1, 0, 0, 0, 0, 0],
        [0, 0, 1, 0, 0, 0, 0, 1, 1, 1, 0, 0, 0, 0, 0, 0],
        [0, 0, 1, 1, 1, 0, 0, 0, 1, 0, 0, 0, 0, 0, 0, 0],
        [0, 0, 0, 0, 0, 0, 0, 0, 0, 0, 0, 0, 0, 0, 0, 0],
    ];
    assert_eq!(g, expected);
}

#[test]
fn glider_moves_diagonally_in_four_steps() {
    let mut g = with_live(&[(0, 1), (1, 2), (2, 0), (2, 1), (2, 2)]);
    for _ in 0..4 {
        step_state(&mut g);
        assert_at_rest(&g);
    }
    assert_eq!(live_cells(&g), vec![(1, 2), (2, 3), (3, 1), (3, 2), (3, 3)]);
}

#[test]
fn steps_leave_grid_at_rest() {
    let mut g = initial_pattern();
    for _ in 0..20 {
        step_state(&mut g);
        assert_at_rest(&g);
    }
}

#[test]
fn empty_grid_stays_empty() {
    let mut g = empty();
    step_state(&mut g);
    assert_eq!(g, empty());
}

#[test]
fn render_maps_alive_to_brightness() {
    let g = with_live(&[(0, 0), (7, 15), (3, 4)]);
    let mut image: Grid = [[9; 16]; 8];
    show_state(&g, &mut image);
    for r in 0..8 {
        for c in 0..16 {
            let want = if g[r][c] == 1 { ON_BRIGHTNESS } else { 0 };
            assert_eq!(image[r][c], want);
        }
    }
    assert_eq!(image[3][4], 15);
    assert_eq!(image[3][5], 0);
}

#[test]
fn render_twice_gives_same_image() {
    let g = initial_pattern();
    let mut first: Grid = [[0; 16]; 8];
    let mut second: Grid = [[7; 16]; 8];
    show_state(&g, &mut first);
    show_state(&g, &mut second);
    assert_eq!(first, second);
}

fn count_generations(duration: u32, timeout: u32, n: usize) -> usize {
    let mut image: Grid = [[0; 16]; 8];
    let mut life = Life::new(initial_pattern(), duration, timeout, &mut image);
    let mut generations = 0;
    for _ in 0..n {
        if life.iterate(&mut image).advanced {
            generations += 1;
        }
    }
    generations
}

#[test]
fn cadence_counts_generations() {
    assert_eq!(count_generations(FRAME_DURATION, INITIAL_TIMEOUT, 0), 0);
    assert_eq!(count_generations(FRAME_DURATION, INITIAL_TIMEOUT, 50), 0);
    assert_eq!(count_generations(FRAME_DURATION, INITIAL_TIMEOUT, 100), 0);
    assert_eq!(count_generations(FRAME_DURATION, INITIAL_TIMEOUT, 101), 1);
    assert_eq!(count_generations(FRAME_DURATION, INITIAL_TIMEOUT, 108), 1);
    assert_eq!(count_generations(FRAME_DURATION, INITIAL_TIMEOUT, 109), 2);
    // (150 - 100) / 8 + 1
    assert_eq!(count_generations(FRAME_DURATION, INITIAL_TIMEOUT, 150), 7);
    assert_eq!(count_generations(3, 5, 20), 5);
    assert_eq!(count_generations(1, 0, 10), 10);
}

#[test]
fn iteration_renders_then_steps() {
    let start = initial_pattern();
    let mut image: Grid = [[0; 16]; 8];
    let mut life = Life::new(start, 2, 0, &mut image);
    let mut rendered: Grid = [[0; 16]; 8];
    show_state(&start, &mut rendered);
    assert_eq!(image, rendered);

    let it = life.iterate(&mut image);
    assert!(it.advanced);
    assert_eq!(image, rendered);
    let mut next = start;
    step_state(&mut next);
    assert_eq!(life.state, next);
    assert_eq!(life.frame_timeout, 1);

    let it = life.iterate(&mut image);
    assert!(!it.advanced);
    assert_eq!(life.state, next);
    assert_eq!(image, rendered);
    assert_eq!(life.frame_timeout, 0);
}

#[test]
fn display_serviced_every_iteration() {
    let mut image: Grid = [[0; 16]; 8];
    let mut life = Life::new(initial_pattern(), FRAME_DURATION, 3, &mut image);
    let mut services = 0;
    let mut toggles = 0;
    let mut advances = 0;
    for _ in 0..40 {
        let it = life.iterate(&mut image);
        assert!(it.service_display);
        assert!(it.toggle_heartbeat);
        if it.service_display {
            services += 1;
        }
        if it.toggle_heartbeat {
            toggles += 1;
        }
        if it.advanced {
            advances += 1;
        }
    }
    assert_eq!(services, 40);
    assert_eq!(toggles, 40);
    assert_eq!(advances, 5);
}
