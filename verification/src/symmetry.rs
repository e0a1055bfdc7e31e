//! Symmetries of the rule: the next generation of a shifted or mirrored grid
//! is the shifted or mirrored next generation.

use vstd::prelude::*;
use crate::life::{
    BoundaryMode, flat_index, live_neighbors, neighbor_cell, neighbor_offset, neighbor_sum,
    neighbor_value, next_generation, lemma_index_layout, lemma_neighbors_in_grid,
    lemma_next_generation_at, lemma_wrap_step,
};

verus! {

/// `shifted` is `cells` moved cyclically by `a` columns and `b` rows on a
/// `width` by `height` torus.
pub open spec fn is_cyclic_shift(cells: Seq<u8>, shifted: Seq<u8>, width: int, height: int, a: int, b: int) -> bool {
    forall|x: int, y: int| 0 <= x < width && 0 <= y < height ==>
        shifted[flat_index(width, (x + a) % width, (y + b) % height)] == #[trigger] cells[flat_index(width, x, y)]
}

/// `mirrored` is `cells` reflected left to right.
pub open spec fn is_mirror_left_right(cells: Seq<u8>, mirrored: Seq<u8>, width: int, height: int) -> bool {
    forall|x: int, y: int| 0 <= x < width && 0 <= y < height ==>
        mirrored[flat_index(width, width - 1 - x, y)] == #[trigger] cells[flat_index(width, x, y)]
}

/// `mirrored` is `cells` reflected top to bottom.
pub open spec fn is_mirror_top_bottom(cells: Seq<u8>, mirrored: Seq<u8>, width: int, height: int) -> bool {
    forall|x: int, y: int| 0 <= x < width && 0 <= y < height ==>
        mirrored[flat_index(width, x, height - 1 - y)] == #[trigger] cells[flat_index(width, x, y)]
}

/// On the torus, stepping commutes with cyclic translation: the next
/// generation of a shifted grid is the shifted next generation.
pub proof fn lemma_step_commutes_with_shift(
    cells: Seq<u8>,
    shifted: Seq<u8>,
    width: nat,
    height: nat,
    a: int,
    b: int,
)
    requires
        width >= 1,
        height >= 1,
        cells.len() == width * height,
        shifted.len() == width * height,
        is_cyclic_shift(cells, shifted, width as int, height as int, a, b),
    ensures
        is_cyclic_shift(
            next_generation(cells, width, height, BoundaryMode::Wrap),
            next_generation(shifted, width, height, BoundaryMode::Wrap),
            width as int,
            height as int,
            a,
            b,
        ),
{
    let (w, h) = (width as int, height as int);
    let mode = BoundaryMode::Wrap;
    let n1 = next_generation(cells, width, height, mode);
    let n2 = next_generation(shifted, width, height, mode);
    assert forall|x: int, y: int| 0 <= x < w && 0 <= y < h implies
        n2[flat_index(w, (x + a) % w, (y + b) % h)] == #[trigger] n1[flat_index(w, x, y)] by {
        let xs = (x + a) % w;
        let ys = (y + b) % h;
        vstd::arithmetic::div_mod::lemma_mod_bound(x + a, w);
        vstd::arithmetic::div_mod::lemma_mod_bound(y + b, h);
        lemma_next_generation_at(cells, width, height, mode, x, y);
        lemma_next_generation_at(shifted, width, height, mode, xs, ys);
        assert(shifted[flat_index(w, xs, ys)] == cells[flat_index(w, x, y)]);
        assert forall|k: int| 0 <= k < 8 implies
            #[trigger] neighbor_value(shifted, w, h, mode, xs, ys, k)
                == neighbor_value(cells, w, h, mode, x, y, k) by {
            let (dx, dy) = neighbor_offset(k);
            let xx = (x + dx) % w;
            let yy = (y + dy) % h;
            lemma_wrap_step(x, dx, w);
            lemma_wrap_step(y, dy, h);
            vstd::arithmetic::div_mod::lemma_add_mod_noop_right(dx, x + a, w);
            vstd::arithmetic::div_mod::lemma_add_mod_noop_right(a, x + dx, w);
            vstd::arithmetic::div_mod::lemma_add_mod_noop_right(dy, y + b, h);
            vstd::arithmetic::div_mod::lemma_add_mod_noop_right(b, y + dy, h);
            assert((xs + dx) % w == (xx + a) % w);
            assert((ys + dy) % h == (yy + b) % h);
            assert(shifted[flat_index(w, (xx + a) % w, (yy + b) % h)] == cells[flat_index(w, xx, yy)]);
        }
        reveal_with_fuel(neighbor_sum, 9);
    }
}

/// Neighbor `k` of the reflected cell holds what neighbor `m` of the cell
/// holds, where `m` is `k` reflected left to right.
proof fn lemma_mirror_left_right_neighbor(
    cells: Seq<u8>,
    mirrored: Seq<u8>,
    width: int,
    height: int,
    mode: BoundaryMode,
    x: int,
    y: int,
    k: int,
    m: int,
)
    requires
        0 <= x < width,
        0 <= y < height,
        0 <= k < 8,
        0 <= m < 8,
        neighbor_offset(m).0 == -neighbor_offset(k).0,
        neighbor_offset(m).1 == neighbor_offset(k).1,
        is_mirror_left_right(cells, mirrored, width, height),
    ensures
        neighbor_value(mirrored, width, height, mode, width - 1 - x, y, k)
            == neighbor_value(cells, width, height, mode, x, y, m),
{
    let (dx, dy) = neighbor_offset(k);
    lemma_wrap_step(x, -dx, width);
    lemma_wrap_step(width - 1 - x, dx, width);
    lemma_wrap_step(y, dy, height);
    lemma_neighbors_in_grid(width, height, mode, x, y);
    match neighbor_cell(width, height, mode, x, y, m) {
        Some((nx, ny)) => {
            assert(mirrored[flat_index(width, width - 1 - nx, ny)] == cells[flat_index(width, nx, ny)]);
        },
        None => {},
    }
}

/// Neighbor `k` of the reflected cell holds what neighbor `m` of the cell
/// holds, where `m` is `k` reflected top to bottom.
proof fn lemma_mirror_top_bottom_neighbor(
    cells: Seq<u8>,
    mirrored: Seq<u8>,
    width: int,
    height: int,
    mode: BoundaryMode,
    x: int,
    y: int,
    k: int,
    m: int,
)
    requires
        0 <= x < width,
        0 <= y < height,
        0 <= k < 8,
        0 <= m < 8,
        neighbor_offset(m).0 == neighbor_offset(k).0,
        neighbor_offset(m).1 == -neighbor_offset(k).1,
        is_mirror_top_bottom(cells, mirrored, width, height),
    ensures
        neighbor_value(mirrored, width, height, mode, x, height - 1 - y, k)
            == neighbor_value(cells, width, height, mode, x, y, m),
{
    let (dx, dy) = neighbor_offset(k);
    lemma_wrap_step(y, -dy, height);
    lemma_wrap_step(height - 1 - y, dy, height);
    lemma_wrap_step(x, dx, width);
    lemma_neighbors_in_grid(width, height, mode, x, y);
    match neighbor_cell(width, height, mode, x, y, m) {
        Some((nx, ny)) => {
            assert(mirrored[flat_index(width, nx, height - 1 - ny)] == cells[flat_index(width, nx, ny)]);
        },
        None => {},
    }
}

/// The rule treats left and right alike: the next generation of a grid
/// reflected left to right is the reflected next generation, in both modes.
pub proof fn lemma_step_keeps_left_right_mirror(
    cells: Seq<u8>,
    mirrored: Seq<u8>,
    width: nat,
    height: nat,
    mode: BoundaryMode,
)
    requires
        cells.len() == width * height,
        mirrored.len() == width * height,
        is_mirror_left_right(cells, mirrored, width as int, height as int),
    ensures
        is_mirror_left_right(
            next_generation(cells, width, height, mode),
            next_generation(mirrored, width, height, mode),
            width as int,
            height as int,
        ),
{
    let (w, h) = (width as int, height as int);
    let n1 = next_generation(cells, width, height, mode);
    let n2 = next_generation(mirrored, width, height, mode);
    assert forall|x: int, y: int| 0 <= x < w && 0 <= y < h implies
        n2[flat_index(w, w - 1 - x, y)] == #[trigger] n1[flat_index(w, x, y)] by {
        lemma_next_generation_at(cells, width, height, mode, x, y);
        lemma_next_generation_at(mirrored, width, height, mode, w - 1 - x, y);
        lemma_mirror_left_right_neighbor(cells, mirrored, w, h, mode, x, y, 0, 2);
        lemma_mirror_left_right_neighbor(cells, mirrored, w, h, mode, x, y, 1, 1);
        lemma_mirror_left_right_neighbor(cells, mirrored, w, h, mode, x, y, 2, 0);
        lemma_mirror_left_right_neighbor(cells, mirrored, w, h, mode, x, y, 3, 4);
        lemma_mirror_left_right_neighbor(cells, mirrored, w, h, mode, x, y, 4, 3);
        lemma_mirror_left_right_neighbor(cells, mirrored, w, h, mode, x, y, 5, 7);
        lemma_mirror_left_right_neighbor(cells, mirrored, w, h, mode, x, y, 6, 6);
        lemma_mirror_left_right_neighbor(cells, mirrored, w, h, mode, x, y, 7, 5);
        reveal_with_fuel(neighbor_sum, 9);
        assert(live_neighbors(mirrored, w, h, mode, w - 1 - x, y) == live_neighbors(cells, w, h, mode, x, y));
    }
}

/// The rule treats up and down alike: the next generation of a grid
/// reflected top to bottom is the reflected next generation, in both modes.
pub proof fn lemma_step_keeps_top_bottom_mirror(
    cells: Seq<u8>,
    mirrored: Seq<u8>,
    width: nat,
    height: nat,
    mode: BoundaryMode,
)
    requires
        cells.len() == width * height,
        mirrored.len() == width * height,
        is_mirror_top_bottom(cells, mirrored, width as int, height as int),
    ensures
        is_mirror_top_bottom(
            next_generation(cells, width, height, mode),
            next_generation(mirrored, width, height, mode),
            width as int,
            height as int,
        ),
{
    let (w, h) = (width as int, height as int);
    let n1 = next_generation(cells, width, height, mode);
    let n2 = next_generation(mirrored, width, height, mode);
    assert forall|x: int, y: int| 0 <= x < w && 0 <= y < h implies
        n2[flat_index(w, x, h - 1 - y)] == #[trigger] n1[flat_index(w, x, y)] by {
        lemma_next_generation_at(cells, width, height, mode, x, y);
        lemma_next_generation_at(mirrored, width, height, mode, x, h - 1 - y);
        lemma_mirror_top_bottom_neighbor(cells, mirrored, w, h, mode, x, y, 0, 5);
        lemma_mirror_top_bottom_neighbor(cells, mirrored, w, h, mode, x, y, 1, 6);
        lemma_mirror_top_bottom_neighbor(cells, mirrored, w, h, mode, x, y, 2, 7);
        lemma_mirror_top_bottom_neighbor(cells, mirrored, w, h, mode, x, y, 3, 3);
        lemma_mirror_top_bottom_neighbor(cells, mirrored, w, h, mode, x, y, 4, 4);
        lemma_mirror_top_bottom_neighbor(cells, mirrored, w, h, mode, x, y, 5, 0);
        lemma_mirror_top_bottom_neighbor(cells, mirrored, w, h, mode, x, y, 6, 1);
        lemma_mirror_top_bottom_neighbor(cells, mirrored, w, h, mode, x, y, 7, 2);
        reveal_with_fuel(neighbor_sum, 9);
        assert(live_neighbors(mirrored, w, h, mode, x, h - 1 - y) == live_neighbors(cells, w, h, mode, x, y));
    }
}

} // verus!
