//! A double-buffered Game of Life grid stored as one flat row-major vector.

use vstd::prelude::*;
use crate::life::{
    BoundaryMode, all_binary, flat_index, next_cell, next_generation, update_cell,
    lemma_index_layout, lemma_live_neighbors_bounded,
};
use crate::random::{thread_rng, random_ratio};
use crate::bands::{band_layout, fill_bands};

verus! {

/// A `width` by `height` grid of cells (1 alive, 0 dead), indexed
/// `y * width + x`. Generation N is read from `current` while generation N+1
/// is written to `next`; the two buffers are then swapped.
pub struct Grid {
    width: usize,
    height: usize,
    boundary_mode: BoundaryMode,
    current: Vec<u8>,
    next: Vec<u8>,
}

/// The state that a byte of the grid stands for.
pub open spec fn cell_byte(alive: bool) -> u8 {
    if alive { 1 } else { 0 }
}

/// A grid of `len` dead cells.
pub open spec fn dead_cells(len: nat) -> Seq<u8> {
    Seq::new(len, |i: int| 0u8)
}

/// The grid whose cell `i` is alive exactly when `alive[i]` holds.
pub open spec fn cells_from_flags(alive: Seq<bool>) -> Seq<u8> {
    Seq::new(alive.len(), |i: int| cell_byte(alive[i]))
}

/// The color of a cell in a rendered frame: green when alive, dark grey when dead.
pub open spec fn cell_color(cell: u8) -> u32 {
    if cell == 1 { 0x00_00_FF_88 } else { 0x00_11_11_11 }
}

/// The text of one cell in the terminal view.
pub open spec fn cell_glyph(cell: u8) -> Seq<char> {
    if cell == 1 { "█ "@ } else { ". "@ }
}

/// The text of the first `n` cells of row `y`.
pub open spec fn row_text(cells: Seq<u8>, width: int, y: int, n: nat) -> Seq<char>
    decreases n,
{
    if n == 0 {
        Seq::empty()
    } else {
        row_text(cells, width, y, (n - 1) as nat) + cell_glyph(cells[flat_index(width, n - 1, y)])
    }
}

/// The text of the first `rows` rows, each ended by a line break.
pub open spec fn grid_text(cells: Seq<u8>, width: nat, rows: nat) -> Seq<char>
    decreases rows,
{
    if rows == 0 {
        Seq::empty()
    } else {
        grid_text(cells, width, (rows - 1) as nat) + row_text(cells, width as int, rows - 1, width) + "\n"@
    }
}

/// A live cell's byte is 1 and a dead cell's is 0.
pub proof fn lemma_cell_byte(alive: bool)
    ensures
        cell_byte(true) == 1,
        cell_byte(false) == 0,
        cell_byte(alive) == 1 <==> alive,
{
}

/// Each cell is drawn as two characters: `█` or `.`, then a space.
proof fn lemma_cell_glyph(cell: u8)
    ensures
        cell_glyph(cell).len() == 2,
        cell_glyph(cell)[0] == (if cell == 1 { '█' } else { '.' }),
        cell_glyph(cell)[1] == ' ',
{
    reveal_strlit("█ ");
    reveal_strlit(". ");
}

proof fn lemma_row_text_len(cells: Seq<u8>, width: int, y: int, n: nat)
    ensures
        row_text(cells, width, y, n).len() == 2 * n,
    decreases n,
{
    if n > 0 {
        lemma_row_text_len(cells, width, y, (n - 1) as nat);
        lemma_cell_glyph(cells[flat_index(width, n - 1, y)]);
    }
}

/// Column `x` of a row's text is cell `y * width + x`, drawn at characters
/// `2 * x` and `2 * x + 1`.
pub proof fn lemma_row_text_at(cells: Seq<u8>, width: int, y: int, n: nat, x: int)
    requires
        0 <= x < n,
    ensures
        row_text(cells, width, y, n).len() == 2 * n,
        row_text(cells, width, y, n)[2 * x] == (if cells[y * width + x] == 1 { '█' } else { '.' }),
        row_text(cells, width, y, n)[2 * x + 1] == ' ',
    decreases n,
{
    lemma_row_text_len(cells, width, y, n);
    lemma_row_text_len(cells, width, y, (n - 1) as nat);
    lemma_cell_glyph(cells[flat_index(width, n - 1, y)]);
    if x < n - 1 {
        lemma_row_text_at(cells, width, y, (n - 1) as nat, x);
    }
}

proof fn lemma_grid_text_len(cells: Seq<u8>, width: nat, rows: nat)
    ensures
        grid_text(cells, width, rows).len() == (2 * width + 1) * rows,
    decreases rows,
{
    if rows > 0 {
        lemma_grid_text_len(cells, width, (rows - 1) as nat);
        lemma_row_text_len(cells, width as int, rows - 1, width);
        reveal_strlit("\n");
        assert((2 * width + 1) * (rows - 1) + 2 * width + 1 == (2 * width + 1) * rows) by (nonlinear_arith);
    } else {
        assert((2 * width + 1) * rows == 0) by (nonlinear_arith)
            requires rows == 0;
    }
}

/// The terminal text of a `width` by `rows` grid has one line of
/// `2 * width + 1` characters per row: in line `y`, characters `2 * x` and
/// `2 * x + 1` draw cell `y * width + x` (`█` alive, `.` dead, then a
/// space), and the last character is a line break.
pub proof fn lemma_grid_text_layout(cells: Seq<u8>, width: nat, rows: nat, x: int, y: int)
    requires
        0 <= x < width,
        0 <= y < rows,
    ensures
        grid_text(cells, width, rows).len() == (2 * width + 1) * rows,
        grid_text(cells, width, rows)[(2 * width + 1) * y + 2 * x]
            == (if cells[y * width + x] == 1 { '█' } else { '.' }),
        grid_text(cells, width, rows)[(2 * width + 1) * y + 2 * x + 1] == ' ',
        grid_text(cells, width, rows)[(2 * width + 1) * y + 2 * width] == '\n',
    decreases rows,
{
    lemma_grid_text_len(cells, width, rows);
    lemma_grid_text_len(cells, width, (rows - 1) as nat);
    lemma_row_text_len(cells, width as int, rows - 1, width);
    reveal_strlit("\n");
    if y == rows - 1 {
        lemma_row_text_at(cells, width as int, y, width, x);
    } else {
        lemma_grid_text_layout(cells, width, (rows - 1) as nat, x, y);
        assert((2 * width + 1) * y + 2 * width < (2 * width + 1) * (rows - 1)) by (nonlinear_arith)
            requires y < rows - 1, y >= 0;
    }
}

impl Grid {
    pub closed spec fn spec_width(&self) -> usize {
        self.width
    }

    pub closed spec fn spec_height(&self) -> usize {
        self.height
    }

    pub closed spec fn spec_boundary_mode(&self) -> BoundaryMode {
        self.boundary_mode
    }

    pub closed spec fn spec_cells(&self) -> &Vec<u8> {
        &self.current
    }

    /// The buffer that the next generation is written into; after a step it
    /// holds the generation before.
    pub closed spec fn scratch(&self) -> Seq<u8> {
        self.next@
    }

    /// Both buffers hold `width * height` cells, the grid fits in memory, and
    /// every cell of the current generation is 0 or 1.
    pub open spec fn wf(&self) -> bool {
        &&& self.width() * self.height() <= isize::MAX
        &&& self.cells()@.len() == self.width() * self.height()
        &&& self.scratch().len() == self.width() * self.height()
        &&& all_binary(self.cells()@)
    }

    /// Number of columns.
    #[verifier::when_used_as_spec(spec_width)]
    pub fn width(&self) -> (w: usize)
        ensures
            w == self.width(),
    {
        self.width
    }

    /// Number of rows.
    #[verifier::when_used_as_spec(spec_height)]
    pub fn height(&self) -> (h: usize)
        ensures
            h == self.height(),
    {
        self.height
    }

    /// How neighbors beyond the edge are counted.
    #[verifier::when_used_as_spec(spec_boundary_mode)]
    pub fn boundary_mode(&self) -> (mode: BoundaryMode)
        ensures
            mode == self.boundary_mode(),
    {
        self.boundary_mode
    }

    /// The cells of the current generation, row by row.
    #[verifier::when_used_as_spec(spec_cells)]
    pub fn cells(&self) -> (cells: &Vec<u8>)
        ensures
            cells == self.cells(),
    {
        &self.current
    }

    /// A `width` by `height` grid of dead cells.
    pub fn new(width: usize, height: usize, boundary_mode: BoundaryMode) -> (grid: Self)
        requires
            width * height <= isize::MAX,
        ensures
            grid.wf(),
            grid.width() == width,
            grid.height() == height,
            grid.boundary_mode() == boundary_mode,
            grid.cells()@ == dead_cells((width * height) as nat),
            grid.scratch() == dead_cells((width * height) as nat),
    {
        let total_size = width * height;
        let current = Self::dead_buffer(total_size);
        let next = Self::dead_buffer(total_size);
        Grid { width, height, boundary_mode, current, next }
    }

    fn dead_buffer(len: usize) -> (buffer: Vec<u8>)
        ensures
            buffer@ == dead_cells(len as nat),
    {
        let buffer = vec![0; len];
        assert forall|i: int| 0 <= i < len implies buffer@[i] == 0u8 by {
            assert(cloned(0u8, buffer@[i]));
        }
        assert(buffer@ =~= dead_cells(len as nat));
        buffer
    }

    /// Flat index of cell `(x, y)`: `y * width + x`.
    pub fn get_index(&self, x: usize, y: usize) -> (index: usize)
        requires
            y * self.width() + x <= usize::MAX,
        ensures
            index == flat_index(self.width() as int, x as int, y as int),
    {
        crate::life::get_index(self.width, x, y)
    }

    /// Advances the grid by one generation: every cell is updated from the
    /// generation before at once, and the buffer of the old generation becomes
    /// the scratch buffer.
    pub fn step(&mut self)
        requires
            old(self).wf(),
        ensures
            final(self).wf(),
            final(self).width() == old(self).width(),
            final(self).height() == old(self).height(),
            final(self).boundary_mode() == old(self).boundary_mode(),
            final(self).cells()@ == next_generation(
                old(self).cells()@,
                old(self).width() as nat,
                old(self).height() as nat,
                old(self).boundary_mode(),
            ),
            final(self).scratch() == old(self).cells()@,
    {
        let ghost cur = self.current@;
        let ghost (w, h, mode) = (self.width as int, self.height as int, self.boundary_mode);
        let width = self.width;
        let height = self.height;
        assert(0 * width == 0);
        for y in 0..height
            invariant
                self.width == width,
                self.height == height,
                self.boundary_mode == mode,
                w == width,
                h == height,
                self.current@ == cur,
                width * height <= isize::MAX,
                cur.len() == width * height,
                self.next@.len() == width * height,
                all_binary(cur),
                forall|i: int| 0 <= i < y * width ==> #[trigger] self.next@[i] == next_cell(cur, w, h, mode, i % w, i / w),
        {
            for x in 0..width
                invariant
                    self.width == width,
                    self.height == height,
                    self.boundary_mode == mode,
                    w == width,
                    h == height,
                    0 <= y < height,
                    self.current@ == cur,
                    width * height <= isize::MAX,
                    cur.len() == width * height,
                    self.next@.len() == width * height,
                    all_binary(cur),
                    forall|i: int| 0 <= i < y * width + x ==> #[trigger] self.next@[i] == next_cell(cur, w, h, mode, i % w, i / w),
            {
                proof {
                    lemma_index_layout(w, h, x as int, y as int);
                    lemma_live_neighbors_bounded(cur, w, h, mode, x as int, y as int);
                    assert(width <= isize::MAX && height <= isize::MAX) by (nonlinear_arith)
                        requires
                            width * height <= isize::MAX,
                            x < width,
                            y < height,
                    ;
                }
                let index = self.get_index(x, y);
                self.next[index] = update_cell(&self.current, self.width, self.height, &self.boundary_mode, x, y);
                assert((y + 1) * width == y * width + width) by (nonlinear_arith);
            }
            assert((y + 1) * width == y * width + width) by (nonlinear_arith);
        }
        assert(height * width == width * height) by (nonlinear_arith);
        assert(self.next@ =~= next_generation(cur, width as nat, height as nat, mode));
        std::mem::swap(&mut self.current, &mut self.next);
        proof {
            crate::life::lemma_next_generation_binary(cur, width as nat, height as nat, mode);
        }
    }

    /// Advances the grid by one generation computed in row bands, the way the
    /// threaded step splits the work among `num_threads` workers: the output
    /// buffer is cut into bands of `band_rows(height, num_threads)` whole rows,
    /// each band is filled from the current generation, and the buffers are
    /// swapped. The result is the same as that of `step`, for any number of
    /// workers.
    pub fn step_in_bands(&mut self, num_threads: usize)
        requires
            old(self).wf(),
            num_threads > 0,
            old(self).height() + num_threads <= usize::MAX,
            old(self).width() > 0,
            old(self).height() > 0,
        ensures
            final(self).wf(),
            final(self).width() == old(self).width(),
            final(self).height() == old(self).height(),
            final(self).boundary_mode() == old(self).boundary_mode(),
            final(self).cells()@ == next_generation(
                old(self).cells()@,
                old(self).width() as nat,
                old(self).height() as nat,
                old(self).boundary_mode(),
            ),
            final(self).scratch() == old(self).cells()@,
    {
        let ghost cur = self.current@;
        let width = self.width;
        let height = self.height;
        let (rows, _band_len) = band_layout(width, height, num_threads);
        assert(rows > 0) by {
            crate::bands::lemma_band_plan(width as int, height as int, num_threads as int);
        }
        assert(width <= isize::MAX && height <= isize::MAX) by (nonlinear_arith)
            requires width * height <= isize::MAX, width > 0, height > 0;
        assert(rows * width <= width * height) by (nonlinear_arith)
            requires rows <= height;
        proof {
            vstd::arithmetic::div_mod::lemma_fundamental_div_mod_converse((width * height) as int, width as int, height as int, 0);
        }
        fill_bands(self.current.as_slice(), width, height, &self.boundary_mode, rows, 0, self.next.as_mut_slice());
        proof {
            let w = width as int;
            let next = self.next@;
            let target = next_generation(cur, width as nat, height as nat, self.boundary_mode);
            assert(((next.len() as int) / w) * w == next.len()) by (nonlinear_arith)
                requires (next.len() as int) / w == height, next.len() == width * height, w == width;
            assert forall|i: int| 0 <= i < next.len() implies #[trigger] next[i] == target[i] by {}
            assert(next =~= target);
            crate::life::lemma_next_generation_binary(cur, width as nat, height as nat, self.boundary_mode);
        }
        std::mem::swap(&mut self.current, &mut self.next);
    }

    /// Makes cell `(x, y)` alive or dead.
    pub fn set_cell(&mut self, x: usize, y: usize, alive: bool)
        requires
            old(self).wf(),
            x < old(self).width(),
            y < old(self).height(),
        ensures
            final(self).wf(),
            final(self).width() == old(self).width(),
            final(self).height() == old(self).height(),
            final(self).boundary_mode() == old(self).boundary_mode(),
            final(self).cells()@ == old(self).cells()@.update(
                flat_index(old(self).width() as int, x as int, y as int),
                cell_byte(alive),
            ),
            final(self).scratch() == old(self).scratch(),
    {
        proof {
            lemma_index_layout(self.width as int, self.height as int, x as int, y as int);
        }
        let index = self.get_index(x, y);
        if alive {
            self.current[index] = 1;
        } else {
            self.current[index] = 0;
        }
    }

    /// Kills every cell.
    pub fn clear(&mut self)
        requires
            old(self).wf(),
        ensures
            final(self).wf(),
            final(self).width() == old(self).width(),
            final(self).height() == old(self).height(),
            final(self).boundary_mode() == old(self).boundary_mode(),
            final(self).cells()@ == dead_cells(old(self).cells()@.len()),
            final(self).scratch() == old(self).scratch(),
    {
        let len = self.current.len();
        for i in 0..len
            invariant
                self.width == old(self).width,
                self.height == old(self).height,
                self.boundary_mode == old(self).boundary_mode,
                self.next == old(self).next,
                self.current@.len() == len,
                len == old(self).current@.len(),
                all_binary(self.current@),
                forall|j: int| 0 <= j < i ==> #[trigger] self.current@[j] == 0u8,
        {
            self.current[i] = 0;
        }
        assert(self.current@ =~= dead_cells(len as nat));
    }

    /// Replaces the current generation by a copy of `cells`.
    pub fn load_cells(&mut self, cells: &[u8])
        requires
            old(self).wf(),
            cells@.len() == old(self).cells()@.len(),
            all_binary(cells@),
        ensures
            final(self).wf(),
            final(self).width() == old(self).width(),
            final(self).height() == old(self).height(),
            final(self).boundary_mode() == old(self).boundary_mode(),
            final(self).cells()@ == cells@,
            final(self).scratch() == old(self).scratch(),
    {
        let len = cells.len();
        for i in 0..len
            invariant
                self.width == old(self).width,
                self.height == old(self).height,
                self.boundary_mode == old(self).boundary_mode,
                self.next == old(self).next,
                self.current@.len() == len,
                len == cells@.len(),
                all_binary(self.current@),
                all_binary(cells@),
                forall|j: int| 0 <= j < i ==> #[trigger] self.current@[j] == cells@[j],
        {
            self.current[i] = cells[i];
        }
        assert(self.current@ =~= cells@);
    }

    /// Makes cell `i` (in row-major order) alive exactly when `alive[i]` holds.
    pub fn seed(&mut self, alive: &Vec<bool>)
        requires
            old(self).wf(),
            alive@.len() == old(self).cells()@.len(),
        ensures
            final(self).wf(),
            final(self).width() == old(self).width(),
            final(self).height() == old(self).height(),
            final(self).boundary_mode() == old(self).boundary_mode(),
            final(self).cells()@ == cells_from_flags(alive@),
            final(self).scratch() == old(self).scratch(),
    {
        let len = alive.len();
        for i in 0..len
            invariant
                self.width == old(self).width,
                self.height == old(self).height,
                self.boundary_mode == old(self).boundary_mode,
                self.next == old(self).next,
                self.current@.len() == len,
                len == alive@.len(),
                all_binary(self.current@),
                forall|j: int| 0 <= j < i ==> #[trigger] self.current@[j] == cell_byte(alive@[j]),
        {
            if alive[i] {
                self.current[i] = 1;
            } else {
                self.current[i] = 0;
            }
        }
        assert(self.current@ =~= cells_from_flags(alive@));
    }

    /// Seeds the grid at random: each cell is drawn alive with chance 1 in 5.
    pub fn randomize(&mut self)
        requires
            old(self).wf(),
        ensures
            final(self).wf(),
            final(self).width() == old(self).width(),
            final(self).height() == old(self).height(),
            final(self).boundary_mode() == old(self).boundary_mode(),
            final(self).cells()@.len() == old(self).cells()@.len(),
            all_binary(final(self).cells()@),
            final(self).scratch() == old(self).scratch(),
    {
        let mut rng = thread_rng();
        let len = self.current.len();
        let mut alive: Vec<bool> = Vec::new();
        for i in 0..len
            invariant
                alive@.len() == i,
        {
            let coin = random_ratio(&mut rng, 1, 5);
            alive.push(coin);
        }
        self.seed(&alive);
    }

    /// Puts the cells of `next` in place as the current generation and hands
    /// the buffer of the old generation back in `next`, to be reused.
    pub fn swap_in_generation(&mut self, next: &mut Vec<u8>)
        requires
            old(self).wf(),
            old(next)@.len() == old(self).cells()@.len(),
            all_binary(old(next)@),
        ensures
            final(self).wf(),
            final(self).width() == old(self).width(),
            final(self).height() == old(self).height(),
            final(self).boundary_mode() == old(self).boundary_mode(),
            final(self).cells()@ == old(next)@,
            final(next)@ == old(self).cells()@,
            final(self).scratch() == old(self).scratch(),
    {
        std::mem::swap(&mut self.current, next);
    }

    /// Writes the color of each cell into the pixel at the same index.
    pub fn paint_pixels(&self, buffer: &mut Vec<u32>)
        requires
            self.wf(),
            old(buffer)@.len() >= self.cells()@.len(),
        ensures
            final(buffer)@.len() == old(buffer)@.len(),
            forall|i: int| 0 <= i < self.cells()@.len() ==> #[trigger] final(buffer)@[i] == cell_color(self.cells()@[i]),
            forall|i: int| self.cells()@.len() <= i < old(buffer)@.len() ==> #[trigger] final(buffer)@[i] == old(buffer)@[i],
    {
        let len = self.current.len();
        for i in 0..len
            invariant
                len == self.current@.len(),
                buffer@.len() == old(buffer)@.len(),
                buffer@.len() >= len,
                forall|j: int| 0 <= j < i ==> #[trigger] buffer@[j] == cell_color(self.current@[j]),
                forall|j: int| i <= j < buffer@.len() ==> #[trigger] buffer@[j] == old(buffer)@[j],
        {
            buffer[i] = if self.current[i] == 1 { 0x00_00_FF_88 } else { 0x00_11_11_11 };
        }
    }

    /// The grid as terminal text: each live cell drawn as `█ `, each dead one
    /// as `. `, one line per row.
    pub fn render(&self) -> (text: String)
        requires
            self.wf(),
        ensures
            text@ == grid_text(self.cells()@, self.width() as nat, self.height() as nat),
    {
        let width = self.width;
        let height = self.height;
        let ghost cells = self.current@;
        let mut text = String::new();
        for y in 0..height
            invariant
                width == self.width,
                height == self.height,
                cells == self.current@,
                width * height <= isize::MAX,
                cells.len() == width * height,
                text@ == grid_text(cells, width as nat, y as nat),
        {
            let ghost before = text@;
            for x in 0..width
                invariant
                    width == self.width,
                    height == self.height,
                    cells == self.current@,
                    0 <= y < height,
                    width * height <= isize::MAX,
                    cells.len() == width * height,
                    before == grid_text(cells, width as nat, y as nat),
                    text@ == before + row_text(cells, width as int, y as int, x as nat),
            {
                proof {
                    lemma_index_layout(width as int, height as int, x as int, y as int);
                }
                let index = self.get_index(x, y);
                let symbol = if self.current[index] == 1 { "█ " } else { ". " };
                text.append(symbol);
                assert(text@ =~= before + row_text(cells, width as int, y as int, (x + 1) as nat));
            }
            text.append("\n");
            assert(text@ =~= grid_text(cells, width as nat, (y + 1) as nat));
        }
        text
    }
}

} // verus!
