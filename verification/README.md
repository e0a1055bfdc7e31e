# lattice

Conway's Game of Life (B3/S23) on a flat, double-buffered `Vec<u8>` grid,
with its rule, neighbor counting, row-band partitioning for multi-threaded
steps and the interactive draw session proved correct with Verus.

- `src/life.rs` — boundary modes, the neighbor count and the cell rule, with
  their mathematical model (`live_neighbors`, `next_cell`, `next_generation`).
- `src/grid.rs` — the grid: construction, one step, editing, seeding,
  rendering to text and to pixels.
- `src/bands.rs` — the band layout, the band of rows that one worker
  computes, and the proof that bands computed independently make up the next
  generation (`Grid::step_in_bands` runs them in turn).
- `src/symmetry.rs` — the laws that stepping commutes with cyclic shifts on
  the torus and keeps mirror images.
- `src/session.rs` — what one frame of keyboard and mouse input does.
- `src/random.rs` — the random source used to seed a grid.
- `app/` — the command-line program: windows, threads, the Metal engine and
  the benchmarks.
