//! The cell rule: neighbor counting under both boundary modes and the B3/S23 update.

use vstd::prelude::*;

verus! {

/// How the edge of the grid is treated when counting neighbors.
#[derive(Clone, Copy, Debug, PartialEq, Eq, Structural)]
pub enum BoundaryMode {
    /// The grid is a torus: the row above the top row is the bottom row, and so on.
    Wrap,
    /// Cells outside the grid count as dead.
    Fixed,
}

/// The eight neighbor offsets `(dx, dy)`, in the order the count visits them.
pub open spec fn neighbor_offset(k: int) -> (int, int) {
    if k == 0 {
        (-1, -1)
    } else if k == 1 {
        (0, -1)
    } else if k == 2 {
        (1, -1)
    } else if k == 3 {
        (-1, 0)
    } else if k == 4 {
        (1, 0)
    } else if k == 5 {
        (-1, 1)
    } else if k == 6 {
        (0, 1)
    } else {
        (1, 1)
    }
}

/// The coordinates that neighbor `k` of `(x, y)` refers to, or `None` where it
/// lies outside a grid with fixed edges.
pub open spec fn neighbor_cell(width: int, height: int, mode: BoundaryMode, x: int, y: int, k: int) -> Option<(int, int)> {
    let (dx, dy) = neighbor_offset(k);
    match mode {
        BoundaryMode::Wrap => Some(((x + dx) % width, (y + dy) % height)),
        BoundaryMode::Fixed => if 0 <= x + dx < width && 0 <= y + dy < height {
            Some((x + dx, y + dy))
        } else {
            None
        },
    }
}

/// Flat index of `(x, y)` in a row-major grid of the given width.
pub open spec fn flat_index(width: int, x: int, y: int) -> int {
    y * width + x
}

/// The value that neighbor `k` of `(x, y)` contributes to the count.
pub open spec fn neighbor_value(cells: Seq<u8>, width: int, height: int, mode: BoundaryMode, x: int, y: int, k: int) -> int {
    match neighbor_cell(width, height, mode, x, y, k) {
        Some((nx, ny)) => cells[flat_index(width, nx, ny)] as int,
        None => 0,
    }
}

/// Sum of the first `n` neighbor values of `(x, y)`.
pub open spec fn neighbor_sum(cells: Seq<u8>, width: int, height: int, mode: BoundaryMode, x: int, y: int, n: nat) -> int
    decreases n,
{
    if n == 0 {
        0
    } else {
        neighbor_sum(cells, width, height, mode, x, y, (n - 1) as nat)
            + neighbor_value(cells, width, height, mode, x, y, n - 1)
    }
}

/// Sum of the values of all eight neighbors of `(x, y)`.
pub open spec fn live_neighbors(cells: Seq<u8>, width: int, height: int, mode: BoundaryMode, x: int, y: int) -> int {
    neighbor_sum(cells, width, height, mode, x, y, 8)
}

/// B3/S23: a live cell with two or three live neighbors survives, a dead cell
/// with exactly three is born, every other cell is dead in the next generation.
pub open spec fn life_rule(alive: bool, neighbors: int) -> u8 {
    if (alive && (neighbors == 2 || neighbors == 3)) || (!alive && neighbors == 3) {
        1
    } else {
        0
    }
}

/// State of `(x, y)` in the generation after `cells`. A cell is alive when its byte is 1.
pub open spec fn next_cell(cells: Seq<u8>, width: int, height: int, mode: BoundaryMode, x: int, y: int) -> u8 {
    life_rule(cells[flat_index(width, x, y)] == 1, live_neighbors(cells, width, height, mode, x, y))
}

/// The whole generation after `cells`, cell by cell in row-major order.
pub open spec fn next_generation(cells: Seq<u8>, width: nat, height: nat, mode: BoundaryMode) -> Seq<u8> {
    Seq::new(width * height, |i: int| next_cell(cells, width as int, height as int, mode, i % (width as int), i / (width as int)))
}

/// Every cell of the grid is 0 (dead) or 1 (alive).
pub open spec fn all_binary(cells: Seq<u8>) -> bool {
    forall|i: int| 0 <= i < cells.len() ==> #[trigger] cells[i] <= 1
}

/// Where each neighbor of `(x, y)` that the count reads lies inside the grid.
pub open spec fn neighbors_in_grid(width: int, height: int, mode: BoundaryMode, x: int, y: int) -> bool {
    forall|k: int| 0 <= k < 8 ==> match #[trigger] neighbor_cell(width, height, mode, x, y, k) {
        Some((nx, ny)) => 0 <= nx < width && 0 <= ny < height,
        None => true,
    }
}

/// Flat index of cell `(x, y)` in a grid `width` cells wide: `y * width + x`.
pub fn get_index(width: usize, x: usize, y: usize) -> (index: usize)
    requires
        y * width + x <= usize::MAX,
    ensures
        index == flat_index(width as int, x as int, y as int),
{
    proof {
        vstd::arithmetic::mul::lemma_mul_nonnegative(y as int, width as int);
    }
    y * width + x
}

/// The row-major layout is a bijection between the cells of a `width` by
/// `height` grid and the indices below `width * height`: a cell's index is in
/// range, and its column and row are recovered from it by remainder and quotient.
pub proof fn lemma_index_layout(width: int, height: int, x: int, y: int)
    requires
        0 <= x < width,
        0 <= y < height,
    ensures
        0 <= flat_index(width, x, y) < width * height,
        flat_index(width, x, y) % width == x,
        flat_index(width, x, y) / width == y,
{
    assert(0 <= y * width + x < width * height) by (nonlinear_arith)
        requires
            0 <= x < width,
            0 <= y < height,
    ;
    vstd::arithmetic::div_mod::lemma_fundamental_div_mod_converse(y * width + x, width, y, x);
}

/// Each neighbor that the count reads lies inside the grid, in both modes,
/// whenever the grid is non-empty in the wrapping mode.
pub proof fn lemma_neighbors_in_grid(width: int, height: int, mode: BoundaryMode, x: int, y: int)
    requires
        mode == BoundaryMode::Wrap ==> width > 0 && height > 0,
    ensures
        neighbors_in_grid(width, height, mode, x, y),
{
}

/// Partial neighbor sums never exceed the full count.
pub proof fn lemma_neighbor_sum_monotone(cells: Seq<u8>, width: int, height: int, mode: BoundaryMode, x: int, y: int, n: nat, m: nat)
    requires
        n <= m,
    ensures
        0 <= neighbor_sum(cells, width, height, mode, x, y, n) <= neighbor_sum(cells, width, height, mode, x, y, m),
    decreases m,
{
    if m > n {
        lemma_neighbor_sum_monotone(cells, width, height, mode, x, y, n, (m - 1) as nat);
        assert(neighbor_value(cells, width, height, mode, x, y, m - 1) >= 0);
    } else if n > 0 {
        lemma_neighbor_sum_monotone(cells, width, height, mode, x, y, (n - 1) as nat, (n - 1) as nat);
    }
}

/// On a grid whose cells are all 0 or 1, a cell has between 0 and 8 live neighbors.
pub proof fn lemma_live_neighbors_bounded(cells: Seq<u8>, width: int, height: int, mode: BoundaryMode, x: int, y: int)
    requires
        all_binary(cells),
        width * height <= cells.len(),
        mode == BoundaryMode::Wrap ==> width > 0 && height > 0,
    ensures
        0 <= live_neighbors(cells, width, height, mode, x, y) <= 8,
{
    lemma_neighbors_in_grid(width, height, mode, x, y);
    assert forall|k: int| 0 <= k < 8 implies 0 <= #[trigger] neighbor_value(cells, width, height, mode, x, y, k) <= 1 by {
        match neighbor_cell(width, height, mode, x, y, k) {
            Some((nx, ny)) => {
                lemma_index_layout(width, height, nx, ny);
            },
            None => {},
        }
    }
    lemma_neighbor_sum_monotone(cells, width, height, mode, x, y, 0, 8);
    reveal_with_fuel(neighbor_sum, 9);
}

/// The cell at `(x, y)` of the next generation is the B3/S23 rule applied to
/// that cell and its live-neighbor count.
pub proof fn lemma_next_generation_at(cells: Seq<u8>, width: nat, height: nat, mode: BoundaryMode, x: int, y: int)
    requires
        0 <= x < width,
        0 <= y < height,
    ensures
        next_generation(cells, width, height, mode).len() == width * height,
        next_generation(cells, width, height, mode)[flat_index(width as int, x, y)]
            == life_rule(cells[flat_index(width as int, x, y)] == 1, live_neighbors(cells, width as int, height as int, mode, x, y)),
{
    lemma_index_layout(width as int, height as int, x, y);
}

/// Every generation after the first holds only 0s and 1s, whatever bytes the grid started with.
pub proof fn lemma_next_generation_binary(cells: Seq<u8>, width: nat, height: nat, mode: BoundaryMode)
    ensures
        all_binary(next_generation(cells, width, height, mode)),
{
}

/// With no live cell anywhere, nothing is born: an empty grid stays empty.
pub proof fn lemma_empty_stays_empty(cells: Seq<u8>, width: nat, height: nat, mode: BoundaryMode)
    requires
        cells.len() == width * height,
        forall|i: int| 0 <= i < cells.len() ==> #[trigger] cells[i] == 0,
    ensures
        next_generation(cells, width, height, mode) == cells,
{
    let next = next_generation(cells, width, height, mode);
    assert forall|i: int| 0 <= i < next.len() implies #[trigger] next[i] == 0 by {
        let x = i % (width as int);
        let y = i / (width as int);
        assert(width > 0) by (nonlinear_arith)
            requires 0 <= i < width * height;
        vstd::arithmetic::div_mod::lemma_fundamental_div_mod(i, width as int);
        assert(0 <= x < width);
        assert(0 <= y < height) by (nonlinear_arith)
            requires i == width * y + x, 0 <= x < width, 0 <= i < width * height, width > 0;
        lemma_neighbors_in_grid(width as int, height as int, mode, x, y);
        assert forall|k: int| 0 <= k < 8 implies #[trigger] neighbor_value(cells, width as int, height as int, mode, x, y, k) == 0 by {
            match neighbor_cell(width as int, height as int, mode, x, y, k) {
                Some((nx, ny)) => {
                    lemma_index_layout(width as int, height as int, nx, ny);
                },
                None => {},
            }
        }
        reveal_with_fuel(neighbor_sum, 9);
        lemma_index_layout(width as int, height as int, x, y);
    }
    assert(next =~= cells);
}

/// One step along a row or column of a torus: from `x` by `d` (-1, 0 or 1)
/// lands on `x + d`, or wraps around to the other end.
pub proof fn lemma_wrap_step(x: int, d: int, n: int)
    requires
        0 <= x < n,
        -1 <= d <= 1,
    ensures
        (x + d) % n == (if x + d < 0 { n - 1 } else if x + d >= n { 0 } else { x + d }),
{
    if x + d < 0 {
        vstd::arithmetic::div_mod::lemma_fundamental_div_mod_converse(x + d, n, -1, n - 1);
    } else if x + d >= n {
        vstd::arithmetic::div_mod::lemma_fundamental_div_mod_converse(x + d, n, 1, 0);
    } else {
        vstd::arithmetic::div_mod::lemma_fundamental_div_mod_converse(x + d, n, 0, x + d);
    }
}

/// With fixed edges a cell never has more live neighbors than on the torus,
/// and a cell at least one row and column away from every edge has exactly
/// as many: its neighbors never reach the boundary.
pub proof fn lemma_fixed_count_at_most_wrap(cells: Seq<u8>, width: int, height: int, x: int, y: int)
    requires
        0 <= x < width,
        0 <= y < height,
        width * height <= cells.len(),
    ensures
        live_neighbors(cells, width, height, BoundaryMode::Fixed, x, y)
            <= live_neighbors(cells, width, height, BoundaryMode::Wrap, x, y),
        1 <= x && x + 2 <= width && 1 <= y && y + 2 <= height ==>
            live_neighbors(cells, width, height, BoundaryMode::Fixed, x, y)
                == live_neighbors(cells, width, height, BoundaryMode::Wrap, x, y),
{
    let interior = 1 <= x && x + 2 <= width && 1 <= y && y + 2 <= height;
    assert forall|k: int| 0 <= k < 8 implies
        #[trigger] neighbor_value(cells, width, height, BoundaryMode::Fixed, x, y, k)
            <= neighbor_value(cells, width, height, BoundaryMode::Wrap, x, y, k)
        && (interior ==> neighbor_value(cells, width, height, BoundaryMode::Fixed, x, y, k)
            == neighbor_value(cells, width, height, BoundaryMode::Wrap, x, y, k)) by {
        let (dx, dy) = neighbor_offset(k);
        lemma_wrap_step(x, dx, width);
        lemma_wrap_step(y, dy, height);
    }
    reveal_with_fuel(neighbor_sum, 9);
}

/// A cell is never its own neighbor: changing cell `(x, y)` alone does not
/// change its live-neighbor count. On the torus this needs at least two
/// columns and two rows; with fewer, a neighbor offset wraps back onto the cell.
pub proof fn lemma_cell_not_its_own_neighbor(
    cells: Seq<u8>,
    other: Seq<u8>,
    width: int,
    height: int,
    mode: BoundaryMode,
    x: int,
    y: int,
)
    requires
        0 <= x < width,
        0 <= y < height,
        width * height <= cells.len(),
        other.len() == cells.len(),
        forall|i: int| 0 <= i < cells.len() && i != flat_index(width, x, y) ==> #[trigger] other[i] == cells[i],
        mode == BoundaryMode::Fixed || (width >= 2 && height >= 2),
    ensures
        live_neighbors(cells, width, height, mode, x, y) == live_neighbors(other, width, height, mode, x, y),
{
    lemma_neighbors_in_grid(width, height, mode, x, y);
    lemma_index_layout(width, height, x, y);
    assert forall|k: int| 0 <= k < 8 implies
        #[trigger] neighbor_value(cells, width, height, mode, x, y, k)
            == neighbor_value(other, width, height, mode, x, y, k) by {
        let (dx, dy) = neighbor_offset(k);
        lemma_wrap_step(x, dx, width);
        lemma_wrap_step(y, dy, height);
        match neighbor_cell(width, height, mode, x, y, k) {
            Some((nx, ny)) => {
                assert(nx != x || ny != y);
                lemma_index_layout(width, height, nx, ny);
                assert(flat_index(width, nx, ny) != flat_index(width, x, y));
            },
            None => {},
        }
    }
    reveal_with_fuel(neighbor_sum, 9);
}

/// B3/S23, stated on its own: the next state is 1 exactly when the count is
/// 3, or the cell is alive and the count is 2; otherwise it is 0.
pub proof fn lemma_rule_is_b3_s23(alive: bool, neighbors: int)
    ensures
        life_rule(alive, neighbors) == 0 || life_rule(alive, neighbors) == 1,
        life_rule(alive, neighbors) == 1 <==> (neighbors == 3 || (alive && neighbors == 2)),
{
}

/// Each cell of the next generation follows B3/S23 over the cell `y * width + x`
/// and its live-neighbor count: a dead cell is born only with exactly three
/// live neighbors, a live one survives only with two or three.
pub proof fn lemma_next_generation_follows_b3_s23(cells: Seq<u8>, width: nat, height: nat, mode: BoundaryMode, x: int, y: int)
    requires
        0 <= x < width,
        0 <= y < height,
    ensures
        next_generation(cells, width, height, mode).len() == width * height,
        0 <= y * width + x < width * height,
        ({
            let n = live_neighbors(cells, width as int, height as int, mode, x, y);
            let next = next_generation(cells, width, height, mode)[y * width + x];
            &&& next == 0 || next == 1
            &&& next == 1 <==> (n == 3 || (cells[y * width + x] == 1 && n == 2))
        }),
{
    lemma_next_generation_at(cells, width, height, mode, x, y);
    lemma_index_layout(width as int, height as int, x, y);
}

/// The previous and next positions along a row or column of length `n`,
/// wrapping at the ends.
pub proof fn lemma_wrap_neighbors(x: int, n: int)
    requires
        0 <= x < n,
    ensures
        (x + n - 1) % n == (if x == 0 { n - 1 } else { x - 1 }),
        (x + 1) % n == (if x + 1 == n { 0 } else { x + 1 }),
        (x - 1) % n == (x + n - 1) % n,
{
    if x == 0 {
        vstd::arithmetic::div_mod::lemma_fundamental_div_mod_converse(x + n - 1, n, 0, n - 1);
    } else {
        vstd::arithmetic::div_mod::lemma_fundamental_div_mod_converse(x + n - 1, n, 1, x - 1);
    }
    lemma_wrap_step(x, 1, n);
    lemma_wrap_step(x, -1, n);
}

/// On the torus the count is the sum of the eight cells around `(x, y)`: the
/// rows above and below and the columns left and right, each wrapping
/// around the edge.
pub proof fn lemma_wrap_count_is_sum_of_eight(cells: Seq<u8>, width: int, height: int, x: int, y: int)
    requires
        0 <= x < width,
        0 <= y < height,
    ensures
        ({
            let (xm, xp) = ((x + width - 1) % width, (x + 1) % width);
            let (ym, yp) = ((y + height - 1) % height, (y + 1) % height);
            live_neighbors(cells, width, height, BoundaryMode::Wrap, x, y)
                == cells[ym * width + xm] + cells[ym * width + x] + cells[ym * width + xp]
                 + cells[y * width + xm] + cells[y * width + xp]
                 + cells[yp * width + xm] + cells[yp * width + x] + cells[yp * width + xp]
        }),
{
    lemma_wrap_neighbors(x, width);
    lemma_wrap_neighbors(y, height);
    lemma_wrap_step(x, 0, width);
    lemma_wrap_step(y, 0, height);
    reveal_with_fuel(neighbor_sum, 9);
}

/// With fixed edges the count is the sum of those of the eight cells around
/// `(x, y)` that lie inside the grid.
pub proof fn lemma_fixed_count_is_sum_of_eight(cells: Seq<u8>, width: int, height: int, x: int, y: int)
    requires
        0 <= x < width,
        0 <= y < height,
    ensures
        live_neighbors(cells, width, height, BoundaryMode::Fixed, x, y)
            == (if x >= 1 && y >= 1 { cells[(y - 1) * width + (x - 1)] as int } else { 0 })
             + (if y >= 1 { cells[(y - 1) * width + x] as int } else { 0 })
             + (if x + 1 < width && y >= 1 { cells[(y - 1) * width + (x + 1)] as int } else { 0 })
             + (if x >= 1 { cells[y * width + (x - 1)] as int } else { 0 })
             + (if x + 1 < width { cells[y * width + (x + 1)] as int } else { 0 })
             + (if x >= 1 && y + 1 < height { cells[(y + 1) * width + (x - 1)] as int } else { 0 })
             + (if y + 1 < height { cells[(y + 1) * width + x] as int } else { 0 })
             + (if x + 1 < width && y + 1 < height { cells[(y + 1) * width + (x + 1)] as int } else { 0 }),
{
    reveal_with_fuel(neighbor_sum, 9);
}

/// Number of live neighbors of `(x, y)`: the sum of the bytes of its eight
/// neighbors, wrapping around the edges or counting cells beyond them as dead.
pub fn live_neighbor_count(
    current: &[u8],
    width: usize,
    height: usize,
    boundary_mode: &BoundaryMode,
    x: usize,
    y: usize,
) -> (count: u8)
    requires
        width <= isize::MAX,
        height <= isize::MAX,
        x < isize::MAX,
        y < isize::MAX,
        *boundary_mode == BoundaryMode::Wrap ==> width > 0 && height > 0,
        width * height <= current@.len(),
        live_neighbors(current@, width as int, height as int, *boundary_mode, x as int, y as int) <= u8::MAX,
    ensures
        count == live_neighbors(current@, width as int, height as int, *boundary_mode, x as int, y as int),
{
    let len = current.len();
    let ghost cells = current@;
    let ghost (w, h, mode) = (width as int, height as int, *boundary_mode);
    let mut count: u8 = 0;
    let offsets: [(isize, isize); 8] = [
        (-1, -1), (0, -1), (1, -1),
        (-1,  0),          (1,  0),
        (-1,  1), (0,  1), (1,  1),
    ];
    assert(forall|k: int| 0 <= k < 8 ==> (#[trigger] offsets@[k]).0 == neighbor_offset(k).0 && offsets@[k].1 == neighbor_offset(k).1);
    proof {
        lemma_neighbors_in_grid(w, h, mode, x as int, y as int);
    }
    let mut k: usize = 0;
    while k < 8
        invariant
            0 <= k <= 8,
            cells == current@,
            w == width,
            h == height,
            mode == *boundary_mode,
            width <= isize::MAX,
            height <= isize::MAX,
            x < isize::MAX,
            y < isize::MAX,
            width * height <= cells.len(),
            len == cells.len(),
            mode == BoundaryMode::Wrap ==> width > 0 && height > 0,
            live_neighbors(cells, w, h, mode, x as int, y as int) <= u8::MAX,
            neighbors_in_grid(w, h, mode, x as int, y as int),
            forall|j: int| 0 <= j < 8 ==> (#[trigger] offsets@[j]).0 == neighbor_offset(j).0 && offsets@[j].1 == neighbor_offset(j).1,
            count == neighbor_sum(cells, w, h, mode, x as int, y as int, k as nat),
        decreases 8 - k,
    {
        let (dx, dy) = offsets[k];
        assert(offsets@[k as int].0 == dx && offsets@[k as int].1 == dy);
        let ghost nc = neighbor_cell(w, h, mode, x as int, y as int, k as int);
        proof {
            lemma_neighbor_sum_monotone(cells, w, h, mode, x as int, y as int, (k + 1) as nat, 8);
        }
        match boundary_mode {
            BoundaryMode::Wrap => {
                let nx = (x as isize + dx).checked_rem_euclid(width as isize).unwrap() as usize;
                let ny = (y as isize + dy).checked_rem_euclid(height as isize).unwrap() as usize;
                assert(nc == Some((nx as int, ny as int)));
                proof {
                    lemma_index_layout(w, h, nx as int, ny as int);
                }
                let index = get_index(width, nx, ny);
                count += current[index];
            }
            BoundaryMode::Fixed => {
                let nx = x as isize + dx;
                let ny = y as isize + dy;
                if nx >= 0 && nx < width as isize && ny >= 0 && ny < height as isize {
                    assert(nc == Some((nx as int, ny as int)));
                    proof {
                        lemma_index_layout(w, h, nx as int, ny as int);
                    }
                    let index = get_index(width, nx as usize, ny as usize);
                    count += current[index];
                } else {
                    assert(nc is None);
                }
            }
        }
        k += 1;
    }
    count
}

/// Next state of cell `(x, y)` under B3/S23: 1 when it is alive (its byte is 1)
/// with two or three live neighbors or dead with exactly three, else 0.
pub fn update_cell(
    current: &[u8],
    width: usize,
    height: usize,
    boundary_mode: &BoundaryMode,
    x: usize,
    y: usize,
) -> (state: u8)
    requires
        width <= isize::MAX,
        height <= isize::MAX,
        x < isize::MAX,
        y < isize::MAX,
        *boundary_mode == BoundaryMode::Wrap ==> width > 0 && height > 0,
        width * height <= current@.len(),
        flat_index(width as int, x as int, y as int) < current@.len(),
        live_neighbors(current@, width as int, height as int, *boundary_mode, x as int, y as int) <= u8::MAX,
    ensures
        state == next_cell(current@, width as int, height as int, *boundary_mode, x as int, y as int),
{
    let len = current.len();
    let index = get_index(width, x, y);
    let alive = current[index] == 1;
    let neighbors = live_neighbor_count(current, width, height, boundary_mode, x, y);
    match (alive, neighbors) {
        (true, 2) | (true, 3) => 1,
        (false, 3) => 1,
        _ => 0,
    }
}

} // verus!
