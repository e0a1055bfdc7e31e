//! Row-band partitioning: the next generation is split into bands of whole
//! rows, each of which can be computed on its own, into its own disjoint
//! slice of the output buffer.

use vstd::prelude::*;
use crate::life::{
    BoundaryMode, all_binary, live_neighbors, next_cell, next_generation, update_cell,
    lemma_index_layout, lemma_live_neighbors_bounded,
};

verus! {

/// Rows per band when `height` rows are shared among `threads` workers:
/// `height / threads`, rounded up.
pub open spec fn band_rows(height: int, threads: int) -> int {
    (height + threads - 1) / threads
}

/// Number of pieces that a buffer of `len` items falls into when it is cut
/// into consecutive pieces of `size` items (the last one may be shorter).
pub open spec fn chunk_count(len: int, size: int) -> int {
    (len + size - 1) / size
}

/// Length of piece `k` when `len` items are cut into pieces of `size` items.
pub open spec fn chunk_len(len: int, size: int, k: int) -> int {
    if (k + 1) * size <= len { size } else { len - k * size }
}

/// Piece `k` of `buf` cut into consecutive pieces of `size` items.
pub open spec fn chunk_at(buf: Seq<u8>, size: int, k: int) -> Seq<u8> {
    buf.subrange(k * size, k * size + chunk_len(buf.len() as int, size, k))
}

/// `chunk` holds, row after row, the next-generation cells of the whole rows
/// that start at row `start_y`.
pub open spec fn band_holds(chunk: Seq<u8>, cells: Seq<u8>, width: int, height: int, mode: BoundaryMode, start_y: int) -> bool {
    forall|i: int| 0 <= i < ((chunk.len() as int) / width) * width ==>
        #[trigger] chunk[i] == next_cell(cells, width, height, mode, i % width, start_y + i / width)
}

/// Rows per band for `num_threads` workers: `height` divided by
/// `num_threads`, rounded up.
pub fn rows_per_chunk(height: usize, num_threads: usize) -> (rows: usize)
    requires
        num_threads > 0,
        height + num_threads <= usize::MAX,
    ensures
        rows == band_rows(height as int, num_threads as int),
{
    (height + num_threads - 1) / num_threads
}

/// Computes one band of the next generation: the rows from `start_y` on, as
/// many as `next_chunk` holds whole rows, written into `next_chunk` row after
/// row. Items past the last whole row are left as they were.
pub fn fill_band(
    current: &[u8],
    width: usize,
    height: usize,
    boundary_mode: &BoundaryMode,
    start_y: usize,
    next_chunk: &mut [u8],
)
    requires
        0 < width <= isize::MAX,
        height <= isize::MAX,
        *boundary_mode == BoundaryMode::Wrap ==> height > 0,
        width * height <= current@.len(),
        start_y + (old(next_chunk)@.len() as int) / (width as int) <= height,
        forall|x: int, y: int|
            0 <= x < width && start_y <= y < start_y + (old(next_chunk)@.len() as int) / (width as int) ==>
            #[trigger] live_neighbors(current@, width as int, height as int, *boundary_mode, x, y) <= u8::MAX,
    ensures
        final(next_chunk)@.len() == old(next_chunk)@.len(),
        band_holds(final(next_chunk)@, current@, width as int, height as int, *boundary_mode, start_y as int),
        forall|i: int| ((old(next_chunk)@.len() as int) / (width as int)) * width <= i < old(next_chunk)@.len() ==>
            #[trigger] final(next_chunk)@[i] == old(next_chunk)@[i],
{
    let ghost (w, h, mode) = (width as int, height as int, *boundary_mode);
    let ghost old_chunk = next_chunk@;
    let chunk_len = next_chunk.len();
    let chunk_height = chunk_len / width;
    assert(chunk_height * width <= chunk_len) by (nonlinear_arith)
        requires chunk_height == chunk_len / width, width > 0;
    assert(0 * width == 0);
    for dy in 0..chunk_height
        invariant
            w == width,
            h == height,
            mode == *boundary_mode,
            0 < width <= isize::MAX,
            height <= isize::MAX,
            mode == BoundaryMode::Wrap ==> height > 0,
            width * height <= current@.len(),
            chunk_len == old_chunk.len(),
            chunk_height == chunk_len / width,
            chunk_height * width <= chunk_len,
            start_y + chunk_height <= height,
            next_chunk@.len() == chunk_len,
            forall|x: int, y: int|
                0 <= x < width && start_y <= y < start_y + chunk_height ==>
                #[trigger] live_neighbors(current@, w, h, mode, x, y) <= u8::MAX,
            forall|i: int| 0 <= i < dy * width ==>
                #[trigger] next_chunk@[i] == next_cell(current@, w, h, mode, i % w, start_y + i / w),
            forall|i: int| chunk_height * width <= i < chunk_len ==> #[trigger] next_chunk@[i] == old_chunk[i],
    {
        let y = start_y + dy;
        assert(dy * width + width <= chunk_height * width) by (nonlinear_arith)
            requires dy < chunk_height;
        for x in 0..width
            invariant
                w == width,
                h == height,
                mode == *boundary_mode,
                0 < width <= isize::MAX,
                height <= isize::MAX,
                mode == BoundaryMode::Wrap ==> height > 0,
                width * height <= current@.len(),
                chunk_len == old_chunk.len(),
                chunk_height * width <= chunk_len,
                dy < chunk_height,
                y == start_y + dy,
                start_y + chunk_height <= height,
                dy * width + width <= chunk_height * width,
                next_chunk@.len() == chunk_len,
                live_neighbors(current@, w, h, mode, x as int, y as int) <= u8::MAX
                    || x >= width,
                forall|xx: int| 0 <= xx < width ==>
                    #[trigger] live_neighbors(current@, w, h, mode, xx, y as int) <= u8::MAX,
                forall|i: int| 0 <= i < dy * width + x ==>
                    #[trigger] next_chunk@[i] == next_cell(current@, w, h, mode, i % w, start_y + i / w),
                forall|i: int| chunk_height * width <= i < chunk_len ==> #[trigger] next_chunk@[i] == old_chunk[i],
        {
            proof {
                lemma_index_layout(w, h, x as int, y as int);
                lemma_index_layout(w, chunk_height as int, x as int, dy as int);
            }
            next_chunk[dy * width + x] = update_cell(current, width, height, boundary_mode, x, y);
        }
        assert((dy + 1) * width == dy * width + width) by (nonlinear_arith);
    }
}

/// The band layout for `num_threads` workers on a `width` by `height` grid:
/// rows per band, and items per band (`rows * width`), the size of each piece
/// the output buffer is cut into.
pub fn band_layout(width: usize, height: usize, num_threads: usize) -> (layout: (usize, usize))
    requires
        num_threads > 0,
        height + num_threads <= usize::MAX,
        width * height <= usize::MAX,
    ensures
        layout.0 == band_rows(height as int, num_threads as int),
        layout.1 == layout.0 * width,
        layout.0 <= height,
{
    let rows = rows_per_chunk(height, num_threads);
    proof {
        lemma_band_rows_at_most_height(height as int, num_threads as int);
    }
    assert(rows * width <= width * height) by (nonlinear_arith)
        requires rows <= height;
    (rows, rows * width)
}

/// Bands never hold more rows than the grid has.
pub proof fn lemma_band_rows_at_most_height(height: int, threads: int)
    requires
        height >= 0,
        threads > 0,
    ensures
        0 <= band_rows(height, threads) <= height,
{
    vstd::arithmetic::div_mod::lemma_fundamental_div_mod(height + threads - 1, threads);
    vstd::arithmetic::div_mod::lemma_mod_pos_bound(height + threads - 1, threads);
    let q = band_rows(height, threads);
    let r = (height + threads - 1) % threads;
    assert(0 <= q <= height) by (nonlinear_arith)
        requires
            height + threads - 1 == threads * q + r,
            0 <= r < threads,
            height >= 0,
            threads > 0,
    {
        if q > height {
            assert(threads * q >= threads * (height + 1));
        }
        if q < 0 {
            assert(threads * q <= -threads);
        }
    }
}

/// Fills `buf` band after band, each band `rows` whole rows long and
/// starting right after the one before, the first at row `start_y`: the
/// pieces that the threaded step hands to its workers, computed in turn.
pub(crate) fn fill_bands(
    current: &[u8],
    width: usize,
    height: usize,
    boundary_mode: &BoundaryMode,
    rows: usize,
    start_y: usize,
    buf: &mut [u8],
)
    requires
        0 < width <= isize::MAX,
        height <= isize::MAX,
        *boundary_mode == BoundaryMode::Wrap ==> height > 0,
        width * height <= current@.len(),
        all_binary(current@),
        rows > 0,
        rows * width <= usize::MAX,
        (old(buf)@.len() as int) % (width as int) == 0,
        start_y + (old(buf)@.len() as int) / (width as int) <= height,
    ensures
        final(buf)@.len() == old(buf)@.len(),
        band_holds(final(buf)@, current@, width as int, height as int, *boundary_mode, start_y as int),
    decreases old(buf)@.len(),
{
    let ghost (w, h, mode) = (width as int, height as int, *boundary_mode);
    let ghost len = buf@.len() as int;
    let size = rows * width;
    assert(size >= width) by (nonlinear_arith)
        requires size == rows * width, rows > 0, width > 0;
    assert forall|x: int, y: int| 0 <= x < width && 0 <= y < height implies
        #[trigger] live_neighbors(current@, w, h, mode, x, y) <= u8::MAX by {
        lemma_live_neighbors_bounded(current@, w, h, mode, x, y);
    }
    if buf.len() <= size {
        fill_band(current, width, height, boundary_mode, start_y, buf);
        assert(((len / w) * w) == len) by {
            vstd::arithmetic::div_mod::lemma_fundamental_div_mod(len, w);
        }
    } else {
        let (chunk, rest) = buf.split_at_mut(size);
        let ghost rest_len = len - size;
        proof {
            assert(rows * width == width * rows) by (nonlinear_arith);
            vstd::arithmetic::div_mod::lemma_fundamental_div_mod_converse(size as int, w, rows as int, 0);
            vstd::arithmetic::div_mod::lemma_fundamental_div_mod(len, w);
            let q = len / w;
            assert(rest_len == w * (q - rows)) by (nonlinear_arith)
                requires len == w * q + 0, rest_len == len - size, size == rows * width, w == width;
            assert(rest_len > 0);
            assert(q - rows >= 0) by (nonlinear_arith)
                requires rest_len == w * (q - rows), rest_len > 0, w > 0;
            vstd::arithmetic::div_mod::lemma_fundamental_div_mod_converse(rest_len, w, q - rows, 0);
            assert(q == len / w);
            assert((rest_len / w) * w == rest_len) by (nonlinear_arith)
                requires rest_len / w == q - rows, rest_len == w * (q - rows);
            assert((len / w) * w == len) by (nonlinear_arith)
                requires len / w == q, len == w * q + 0;
        }
        fill_band(current, width, height, boundary_mode, start_y, chunk);
        fill_bands(current, width, height, boundary_mode, rows, start_y + rows, rest);
        let ghost out = buf@;
        assert forall|i: int| 0 <= i < (len / w) * w implies
            #[trigger] out[i] == next_cell(current@, w, h, mode, i % w, start_y + i / w) by {
            if i >= size {
                let j = i - size;
                assert(out[i] == rest@[j]);
                assert(j < (rest_len / w) * w);
                vstd::arithmetic::div_mod::lemma_fundamental_div_mod(j, w);
                vstd::arithmetic::div_mod::lemma_mod_pos_bound(j, w);
                assert(i == (rows + j / w) * w + j % w) by (nonlinear_arith)
                    requires i == j + size, j == w * (j / w) + j % w, size == rows * width, w == width;
                vstd::arithmetic::div_mod::lemma_fundamental_div_mod_converse(i, w, rows + j / w, j % w);
            } else {
                assert(out[i] == chunk@[i]);
            }
        }
    }
}

/// The row-band plan for `threads` workers on a non-empty grid: bands of
/// `band_rows` whole rows (the last one possibly shorter) cover every row, no
/// more than `threads` bands are made, and each band ends inside the grid.
pub proof fn lemma_band_plan(width: int, height: int, threads: int)
    requires
        width > 0,
        height > 0,
        threads > 0,
    ensures
        band_rows(height, threads) > 0,
        band_rows(height, threads) * threads >= height,
        chunk_count(width * height, band_rows(height, threads) * width) <= threads,
        forall|k: int| 0 <= k < chunk_count(width * height, band_rows(height, threads) * width) ==> {
            let c = #[trigger] chunk_len(width * height, band_rows(height, threads) * width, k);
            &&& 0 < c
            &&& c % width == 0
            &&& k * band_rows(height, threads) + c / width <= height
        },
{
    let rows = band_rows(height, threads);
    let size = rows * width;
    let len = width * height;
    vstd::arithmetic::div_mod::lemma_fundamental_div_mod(height + threads - 1, threads);
    let r = (height + threads - 1) % threads;
    assert(height + threads - 1 == threads * rows + r);
    vstd::arithmetic::div_mod::lemma_mod_pos_bound(height + threads - 1, threads);
    assert(rows * threads >= height) by (nonlinear_arith)
        requires height + threads - 1 == threads * rows + r, r < threads;
    assert(rows > 0) by (nonlinear_arith)
        requires rows * threads >= height, height > 0, threads > 0;
    assert(size > 0) by (nonlinear_arith)
        requires size == rows * width, rows > 0, width > 0;
    // number of bands
    let count = chunk_count(len, size);
    vstd::arithmetic::div_mod::lemma_fundamental_div_mod(len + size - 1, size);
    vstd::arithmetic::div_mod::lemma_mod_pos_bound(len + size - 1, size);
    let r2 = (len + size - 1) % size;
    assert(len + size - 1 == size * count + r2);
    assert(count * rows < height + rows) by (nonlinear_arith)
        requires
            len + size - 1 == size * count + r2,
            0 <= r2,
            size == rows * width,
            len == width * height,
            width > 0,
            rows > 0,
    {
        assert(width * (count * rows) == size * count);
        assert(width * (count * rows) <= width * height + width * rows - 1);
        assert(width * (count * rows) < width * (height + rows));
    }
    assert(count <= threads) by (nonlinear_arith)
        requires
            count * rows < height + rows,
            rows * threads >= height,
            height + threads - 1 == threads * rows + r,
            0 <= r < threads,
            rows > 0,
    {
        if count > threads {
            assert(count * rows >= (threads + 1) * rows);
            assert((threads + 1) * rows == threads * rows + rows);
        }
    }
    assert forall|k: int| 0 <= k < count implies {
        let c = #[trigger] chunk_len(len, size, k);
        &&& 0 < c
        &&& c % width == 0
        &&& k * rows + c / width <= height
    } by {
        let c = chunk_len(len, size, k);
        assert(k * size < len) by (nonlinear_arith)
            requires
                len + size - 1 == size * count + r2,
                0 <= r2 < size,
                0 <= k < count,
                size > 0,
        {
            assert(size * k <= size * (count - 1));
        }
        if (k + 1) * size <= len {
            assert(c == rows * width);
            vstd::arithmetic::div_mod::lemma_fundamental_div_mod_converse(c, width, rows, 0);
            assert(k * rows + rows <= height) by (nonlinear_arith)
                requires (k + 1) * size <= len, size == rows * width, len == width * height, width > 0;
        } else {
            assert(c == width * (height - k * rows)) by (nonlinear_arith)
                requires c == len - k * size, size == rows * width, len == width * height;
            vstd::arithmetic::div_mod::lemma_fundamental_div_mod_converse(c, width, height - k * rows, 0);
            assert(height - k * rows > 0) by (nonlinear_arith)
                requires c == width * (height - k * rows), c > 0, width > 0;
        }
    }
}

/// Bands computed independently make up the next generation: when every
/// piece of `buf`, cut into bands of `rows` whole rows, holds the next
/// generation of its own rows, `buf` is the whole next generation.
pub proof fn lemma_bands_make_generation(
    cells: Seq<u8>,
    width: nat,
    height: nat,
    mode: BoundaryMode,
    rows: nat,
    buf: Seq<u8>,
)
    requires
        width > 0,
        rows > 0,
        buf.len() == width * height,
        forall|k: int| 0 <= k < chunk_count((width * height) as int, (rows * width) as int) ==>
            band_holds(#[trigger] chunk_at(buf, (rows * width) as int, k), cells, width as int, height as int, mode, k * rows),
    ensures
        buf == next_generation(cells, width, height, mode),
{
    let w = width as int;
    let size = (rows * width) as int;
    let len = (width * height) as int;
    let target = next_generation(cells, width, height, mode);
    assert(size > 0) by (nonlinear_arith)
        requires size == rows * width, rows > 0, width > 0;
    assert forall|i: int| 0 <= i < len implies #[trigger] buf[i] == target[i] by {
        let k = i / size;
        let j = i % size;
        vstd::arithmetic::div_mod::lemma_fundamental_div_mod(i, size);
        vstd::arithmetic::div_mod::lemma_mod_pos_bound(i, size);
        assert(0 <= k) by (nonlinear_arith)
            requires i == size * k + j, 0 <= i, j < size, size > 0;
        let count = chunk_count(len, size);
        vstd::arithmetic::div_mod::lemma_fundamental_div_mod(len + size - 1, size);
        vstd::arithmetic::div_mod::lemma_mod_pos_bound(len + size - 1, size);
        assert(k < count) by (nonlinear_arith)
            requires
                i == size * k + j,
                0 <= j < size,
                i < len,
                len + size - 1 == size * count + (len + size - 1) % size,
                0 <= (len + size - 1) % size < size,
                size > 0,
        {
            if k >= count {
                assert(size * k >= size * count);
            }
        }
        let chunk = chunk_at(buf, size, k);
        assert(band_holds(chunk, cells, w, height as int, mode, k * rows));
        let c = chunk_len(len, size, k);
        assert(k * size == size * k) by (nonlinear_arith);
        assert((k + 1) * size == k * size + size) by (nonlinear_arith);
        assert(0 <= k * size) by (nonlinear_arith)
            requires 0 <= k, size > 0;
        assert(k * size + c <= len);
        assert(j < c);
        assert(chunk.len() == c);
        assert(chunk[j] == buf[i]);
        // the piece holds whole rows
        let m = if (k + 1) * size <= len { rows as int } else { height - k * rows };
        assert(c == w * m) by (nonlinear_arith)
            requires
                c == (if (k + 1) * size <= len { size } else { len - k * size }),
                m == (if (k + 1) * size <= len { rows as int } else { height - k * rows }),
                size == rows * width,
                len == width * height,
                w == width;
        assert(m >= 0) by (nonlinear_arith)
            requires c == w * m, j < c, 0 <= j, w > 0;
        vstd::arithmetic::div_mod::lemma_fundamental_div_mod_converse(c, w, m, 0);
        assert(j < (c / w) * w) by (nonlinear_arith)
            requires c / w == m, c == w * m, j < c;
        assert(chunk[j] == next_cell(cells, w, height as int, mode, j % w, k * rows + j / w));
        // the cell's coordinates
        vstd::arithmetic::div_mod::lemma_fundamental_div_mod(j, w);
        vstd::arithmetic::div_mod::lemma_mod_pos_bound(j, w);
        assert(i == (k * rows + j / w) * w + j % w) by (nonlinear_arith)
            requires
                i == size * k + j,
                j == w * (j / w) + j % w,
                size == rows * width,
                w == width;
        vstd::arithmetic::div_mod::lemma_fundamental_div_mod_converse(i, w, k * rows + j / w, j % w);
    }
    assert(buf =~= target);
}

} // verus!
