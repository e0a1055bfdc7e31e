use lattice::bands::{band_layout, fill_band, rows_per_chunk};
use lattice::grid::Grid;
use lattice::life::{get_index, live_neighbor_count, update_cell, BoundaryMode};

fn grid_with(width: usize, height: usize, mode: BoundaryMode, live: &[(usize, usize)]) -> Grid {
    let mut grid = Grid::new(width, height, mode);
    for &(x, y) in live {
        grid.set_cell(x, y, true);
    }
    grid
}

fn live_cells(grid: &Grid) -> Vec<(usize, usize)> {
    let mut out = Vec::new();
    for y in 0..grid.height() {
        for x in 0..grid.width() {
            if grid.cells()[grid.get_index(x, y)] == 1 {
                out.push((x, y));
            }
        }
    }
    out
}

#[test]
fn test_get_index() {
    let grid = Grid::new(5, 5, BoundaryMode::Wrap);

    // Top-left corner
    assert_eq!(grid.get_index(0, 0), 0);

    // Start of the second row (skipped one full row of 5)
    assert_eq!(grid.get_index(0, 1), 5);

    // Middle of the grid (Row 2, Column 3) -> (2 * 5) + 3 = 13
    assert_eq!(grid.get_index(3, 2), 13);

    // Bottom-right corner (Row 4, Column 4) -> (4 * 5) + 4 = 24
    assert_eq!(grid.get_index(4, 4), 24);
}

#[test]
fn test_parallel_correctness() {
    // Create two identical randomized grids
    let mut grid_seq = Grid::new(100, 100, BoundaryMode::Wrap);
    grid_seq.randomize();

    let mut grid_par = Grid::new(100, 100, BoundaryMode::Wrap);
    grid_par.load_cells(grid_seq.cells());

    // Run both for 10 generations
    for _ in 0..10 {
        grid_seq.step();
        grid_par.step_in_bands(4);
    }

    // Assert they are byte-for-byte identical
    assert_eq!(grid_seq.cells(), grid_par.cells());
}

#[test]
fn free_get_index_is_row_major() {
    assert_eq!(get_index(7, 0, 0), 0);
    assert_eq!(get_index(7, 6, 0), 6);
    assert_eq!(get_index(7, 0, 1), 7);
    assert_eq!(get_index(7, 3, 4), 31);
}

#[test]
fn new_grid_is_all_dead() {
    let grid = Grid::new(4, 3, BoundaryMode::Fixed);
    assert_eq!(grid.width(), 4);
    assert_eq!(grid.height(), 3);
    assert_eq!(grid.boundary_mode(), BoundaryMode::Fixed);
    assert_eq!(grid.cells(), &vec![0u8; 12]);
}

#[test]
fn neighbor_count_wraps_around_corners() {
    // 4x4 torus, live cells in the three other corners of (0, 0).
    let grid = grid_with(4, 4, BoundaryMode::Wrap, &[(3, 0), (0, 3), (3, 3)]);
    assert_eq!(live_neighbor_count(grid.cells(), 4, 4, &BoundaryMode::Wrap, 0, 0), 3);
    // With fixed edges none of them touches (0, 0).
    assert_eq!(live_neighbor_count(grid.cells(), 4, 4, &BoundaryMode::Fixed, 0, 0), 0);
    // (3, 3) sees (3, 0) and (0, 3) across the edges, and not itself.
    assert_eq!(live_neighbor_count(grid.cells(), 4, 4, &BoundaryMode::Wrap, 3, 3), 2);
}

#[test]
fn neighbor_count_in_the_interior() {
    let grid = grid_with(5, 5, BoundaryMode::Fixed, &[(1, 1), (2, 1), (3, 1), (1, 2), (3, 3), (2, 2)]);
    // (2, 2) itself is not counted.
    assert_eq!(live_neighbor_count(grid.cells(), 5, 5, &BoundaryMode::Fixed, 2, 2), 5);
    assert_eq!(live_neighbor_count(grid.cells(), 5, 5, &BoundaryMode::Fixed, 0, 0), 1);
    assert_eq!(live_neighbor_count(grid.cells(), 5, 5, &BoundaryMode::Fixed, 4, 4), 1);
}

#[test]
fn small_torus_counts_a_cell_more_than_once() {
    // On a 1x1 torus every neighbor is the cell itself.
    let cells = vec![1u8];
    assert_eq!(live_neighbor_count(&cells, 1, 1, &BoundaryMode::Wrap, 0, 0), 8);
    assert_eq!(live_neighbor_count(&cells, 1, 1, &BoundaryMode::Fixed, 0, 0), 0);
    // 2x2 torus: each neighbor offset lands on one of the four cells.
    let cells = vec![1u8, 1, 1, 1];
    assert_eq!(live_neighbor_count(&cells, 2, 2, &BoundaryMode::Wrap, 0, 0), 8);
}

#[test]
fn rule_is_b3_s23() {
    // A row of three cells through the middle of a 5x5 grid.
    let grid = grid_with(5, 5, BoundaryMode::Fixed, &[(1, 2), (2, 2), (3, 2)]);
    let cells = grid.cells();
    let mode = BoundaryMode::Fixed;
    // Live with two neighbors survives.
    assert_eq!(update_cell(cells, 5, 5, &mode, 2, 2), 1);
    // Live with one neighbor dies.
    assert_eq!(update_cell(cells, 5, 5, &mode, 1, 2), 0);
    // Dead with three neighbors is born.
    assert_eq!(update_cell(cells, 5, 5, &mode, 2, 1), 1);
    // Dead with two neighbors stays dead.
    assert_eq!(update_cell(cells, 5, 5, &mode, 1, 1), 0);
    // Live with four neighbors dies of overcrowding.
    let crowded = grid_with(3, 3, BoundaryMode::Fixed, &[(0, 0), (2, 0), (1, 1), (0, 2), (2, 2)]);
    assert_eq!(update_cell(crowded.cells(), 3, 3, &mode, 1, 1), 0);
    // Live with three neighbors survives.
    let three = grid_with(3, 3, BoundaryMode::Fixed, &[(0, 0), (2, 0), (1, 1), (0, 2)]);
    assert_eq!(update_cell(three.cells(), 3, 3, &mode, 1, 1), 1);
}

#[test]
fn only_a_byte_of_one_counts_as_alive() {
    // A cell holding 2 is not alive: with three live neighbors it is "born" as 1,
    // with two it becomes 0.
    let cells = vec![1u8, 1, 1, 0, 2, 0, 0, 0, 0];
    assert_eq!(update_cell(&cells, 3, 3, &BoundaryMode::Fixed, 1, 1), 1);
    let cells = vec![1u8, 1, 0, 0, 2, 0, 0, 0, 0];
    assert_eq!(update_cell(&cells, 3, 3, &BoundaryMode::Fixed, 1, 1), 0);
}

#[test]
fn blinker_oscillates_with_period_two() {
    let mut grid = grid_with(5, 5, BoundaryMode::Fixed, &[(1, 2), (2, 2), (3, 2)]);
    let start = grid.cells().clone();
    grid.step();
    assert_eq!(live_cells(&grid), vec![(2, 1), (2, 2), (2, 3)]);
    // The scratch buffer now holds the previous generation: stepping back gives it.
    grid.step();
    assert_eq!(grid.cells(), &start);
}

#[test]
fn block_is_a_still_life() {
    let mut grid = grid_with(4, 4, BoundaryMode::Wrap, &[(1, 1), (2, 1), (1, 2), (2, 2)]);
    let start = grid.cells().clone();
    for _ in 0..5 {
        grid.step();
        assert_eq!(grid.cells(), &start);
    }
}

#[test]
fn glider_travels_across_the_torus() {
    let glider = [(1, 0), (2, 1), (0, 2), (1, 2), (2, 2)];
    let mut grid = grid_with(8, 8, BoundaryMode::Wrap, &glider);
    for _ in 0..4 {
        grid.step();
    }
    let moved: Vec<(usize, usize)> = vec![(2, 1), (3, 2), (1, 3), (2, 3), (3, 3)];
    let mut expected = moved.clone();
    expected.sort_by_key(|&(x, y)| (y, x));
    assert_eq!(live_cells(&grid), expected);
    // After 32 generations it has gone once around the 8x8 torus.
    let start = grid_with(8, 8, BoundaryMode::Wrap, &glider);
    let mut grid = grid_with(8, 8, BoundaryMode::Wrap, &glider);
    for _ in 0..32 {
        grid.step();
    }
    assert_eq!(grid.cells(), start.cells());
}

#[test]
fn glider_dies_against_a_fixed_corner() {
    let glider = [(1, 0), (2, 1), (0, 2), (1, 2), (2, 2)];
    let mut grid = grid_with(5, 5, BoundaryMode::Fixed, &glider);
    for _ in 0..20 {
        grid.step();
    }
    // It ends as a block in the bottom-right corner.
    assert_eq!(live_cells(&grid), vec![(3, 3), (4, 3), (3, 4), (4, 4)]);
}

#[test]
fn empty_grid_stays_empty() {
    let mut grid = Grid::new(6, 6, BoundaryMode::Wrap);
    for _ in 0..3 {
        grid.step();
        assert!(grid.cells().iter().all(|&c| c == 0));
    }
}

#[test]
fn set_clear_and_load_cells() {
    let mut grid = Grid::new(3, 2, BoundaryMode::Fixed);
    grid.set_cell(2, 1, true);
    assert_eq!(grid.cells(), &vec![0, 0, 0, 0, 0, 1]);
    grid.set_cell(2, 1, false);
    grid.set_cell(0, 0, true);
    assert_eq!(grid.cells(), &vec![1, 0, 0, 0, 0, 0]);
    grid.clear();
    assert_eq!(grid.cells(), &vec![0u8; 6]);
    grid.load_cells(&[1, 1, 0, 0, 1, 1]);
    assert_eq!(grid.cells(), &vec![1, 1, 0, 0, 1, 1]);
}

#[test]
fn seed_sets_cells_from_flags() {
    let mut grid = Grid::new(2, 2, BoundaryMode::Wrap);
    grid.seed(&vec![true, false, false, true]);
    assert_eq!(grid.cells(), &vec![1, 0, 0, 1]);
}

#[test]
fn randomize_keeps_cells_binary() {
    let mut grid = Grid::new(50, 40, BoundaryMode::Wrap);
    grid.randomize();
    assert_eq!(grid.cells().len(), 2000);
    assert!(grid.cells().iter().all(|&c| c <= 1));
    // With 2000 cells drawn at 1 in 5, some are alive and most are dead.
    let alive = grid.cells().iter().filter(|&&c| c == 1).count();
    assert!(alive > 0 && alive < 1000);
}

#[test]
fn swap_in_generation_exchanges_buffers() {
    let mut grid = grid_with(2, 2, BoundaryMode::Fixed, &[(0, 0)]);
    let mut next = vec![0u8, 1, 1, 0];
    grid.swap_in_generation(&mut next);
    assert_eq!(grid.cells(), &vec![0, 1, 1, 0]);
    assert_eq!(next, vec![1, 0, 0, 0]);
}

#[test]
fn paint_pixels_colors_each_cell() {
    let grid = grid_with(2, 2, BoundaryMode::Fixed, &[(1, 0)]);
    let mut buffer = vec![7u32; 6];
    grid.paint_pixels(&mut buffer);
    assert_eq!(buffer, vec![0x00_11_11_11, 0x00_00_FF_88, 0x00_11_11_11, 0x00_11_11_11, 7, 7]);
}

#[test]
fn render_draws_rows_of_glyphs() {
    let grid = grid_with(3, 2, BoundaryMode::Fixed, &[(0, 0), (2, 1)]);
    assert_eq!(grid.render(), "█ . . \n. . █ \n");
    assert_eq!(Grid::new(0, 2, BoundaryMode::Fixed).render(), "\n\n");
}

#[test]
fn rows_per_chunk_rounds_up() {
    assert_eq!(rows_per_chunk(100, 4), 25);
    assert_eq!(rows_per_chunk(10, 3), 4);
    assert_eq!(rows_per_chunk(7, 16), 1);
    assert_eq!(rows_per_chunk(0, 4), 0);
}

#[test]
fn fill_band_writes_whole_rows_only() {
    // Row 1 of a 3x3 blinker, written into a chunk with one spare byte.
    let grid = grid_with(3, 3, BoundaryMode::Fixed, &[(0, 1), (1, 1), (2, 1)]);
    let mut chunk = vec![9u8; 4];
    fill_band(grid.cells(), 3, 3, &BoundaryMode::Fixed, 1, &mut chunk);
    assert_eq!(chunk, vec![0, 1, 0, 9]);
    // Bands of the whole grid match one step.
    let mut next = vec![0u8; 9];
    for (k, band) in next.chunks_mut(3).enumerate() {
        fill_band(grid.cells(), 3, 3, &BoundaryMode::Fixed, k, band);
    }
    let mut stepped = grid_with(3, 3, BoundaryMode::Fixed, &[(0, 1), (1, 1), (2, 1)]);
    stepped.step();
    assert_eq!(&next, stepped.cells());
}

#[test]
fn banded_step_matches_step_for_any_thread_count() {
    let mut base = Grid::new(13, 11, BoundaryMode::Fixed);
    base.randomize();
    for threads in [1usize, 2, 3, 4, 5, 11, 16] {
        let mut seq = Grid::new(13, 11, BoundaryMode::Fixed);
        seq.load_cells(base.cells());
        let mut par = Grid::new(13, 11, BoundaryMode::Fixed);
        par.load_cells(base.cells());
        for _ in 0..3 {
            seq.step();
            par.step_in_bands(threads);
        }
        assert_eq!(seq.cells(), par.cells());
    }
}

#[test]
fn band_layout_gives_rows_and_band_length() {
    assert_eq!(band_layout(100, 100, 4), (25, 2500));
    assert_eq!(band_layout(7, 10, 3), (4, 28));
    assert_eq!(band_layout(5, 3, 8), (1, 5));
}

#[test]
fn step_in_bands_runs_a_blinker() {
    let mut a = grid_with(5, 5, BoundaryMode::Fixed, &[(1, 2), (2, 2), (3, 2)]);
    let start = a.cells().clone();
    a.step_in_bands(2);
    assert_eq!(live_cells(&a), vec![(2, 1), (2, 2), (2, 3)]);
    a.step_in_bands(7);
    assert_eq!(a.cells(), &start);
}

fn shift(grid: &Grid, a: usize, b: usize) -> Grid {
    let (w, h) = (grid.width(), grid.height());
    let mut out = Grid::new(w, h, grid.boundary_mode());
    for y in 0..h {
        for x in 0..w {
            if grid.cells()[y * w + x] == 1 {
                out.set_cell((x + a) % w, (y + b) % h, true);
            }
        }
    }
    out
}

fn mirror(grid: &Grid, left_right: bool) -> Grid {
    let (w, h) = (grid.width(), grid.height());
    let mut out = Grid::new(w, h, grid.boundary_mode());
    for y in 0..h {
        for x in 0..w {
            if grid.cells()[y * w + x] == 1 {
                if left_right {
                    out.set_cell(w - 1 - x, y, true);
                } else {
                    out.set_cell(x, h - 1 - y, true);
                }
            }
        }
    }
    out
}

#[test]
fn stepping_commutes_with_shift_on_the_torus() {
    let mut g1 = Grid::new(9, 7, BoundaryMode::Wrap);
    g1.randomize();
    let mut g2 = shift(&g1, 4, 5);
    for _ in 0..3 {
        g1.step();
        g2.step();
        assert_eq!(shift(&g1, 4, 5).cells(), g2.cells());
    }
}

#[test]
fn stepping_keeps_mirror_images() {
    for mode in [BoundaryMode::Wrap, BoundaryMode::Fixed] {
        for left_right in [true, false] {
            let mut g1 = Grid::new(8, 6, mode);
            g1.randomize();
            let mut g2 = mirror(&g1, left_right);
            for _ in 0..3 {
                g1.step();
                g2.step();
                assert_eq!(mirror(&g1, left_right).cells(), g2.cells());
            }
        }
    }
}

#[test]
fn fixed_count_never_exceeds_wrapping_count() {
    let mut grid = Grid::new(6, 5, BoundaryMode::Wrap);
    grid.randomize();
    for y in 0..5 {
        for x in 0..6 {
            let fixed = live_neighbor_count(grid.cells(), 6, 5, &BoundaryMode::Fixed, x, y);
            let wrap = live_neighbor_count(grid.cells(), 6, 5, &BoundaryMode::Wrap, x, y);
            assert!(fixed <= wrap);
            if x >= 1 && x + 2 <= 6 && y >= 1 && y + 2 <= 5 {
                assert_eq!(fixed, wrap);
            }
        }
    }
}

#[test]
fn a_cell_does_not_count_itself() {
    let mut grid = Grid::new(3, 3, BoundaryMode::Wrap);
    grid.seed(&vec![true; 9]);
    let full = live_neighbor_count(grid.cells(), 3, 3, &BoundaryMode::Wrap, 1, 1);
    grid.set_cell(1, 1, false);
    assert_eq!(live_neighbor_count(grid.cells(), 3, 3, &BoundaryMode::Wrap, 1, 1), full);
    assert_eq!(full, 8);
}
