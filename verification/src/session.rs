//! The interactive session: what one frame of keyboard and mouse input does
//! to the grid and to the mode the window shows.

use vstd::prelude::*;
use crate::grid::{Grid, cell_byte, dead_cells};
use crate::life::{flat_index, next_generation};

verus! {

/// Whether the user is drawing cells or watching the simulation run.
#[derive(Clone, Copy, Debug, PartialEq, Eq, Structural)]
pub enum DrawModeState {
    Editing,
    Simulating,
}

/// What the user did during one frame.
pub struct FrameInput {
    /// The reset key is held down.
    pub reset: bool,
    /// The start key was pressed (not held over from an earlier frame).
    pub start: bool,
    /// The cell under the mouse pointer, if the pointer is over the window.
    pub pointer: Option<(usize, usize)>,
    /// The left button (draw) is held down.
    pub left_down: bool,
    /// The right button (erase) is held down.
    pub right_down: bool,
}

/// A running session: the grid, its mode, whether drawing is enabled, and the
/// cell last painted during the current press of a button.
pub struct Session {
    grid: Grid,
    state: DrawModeState,
    is_draw: bool,
    last_click_pos: Option<(usize, usize)>,
}

/// Frames per second that the window runs at in each mode.
pub open spec fn spec_target_fps(state: DrawModeState) -> usize {
    match state {
        DrawModeState::Editing => 60,
        DrawModeState::Simulating => 8,
    }
}

/// Frames per second that the window runs at in each mode: fast while
/// drawing, slow enough to follow while simulating.
#[verifier::when_used_as_spec(spec_target_fps)]
pub fn target_fps(state: DrawModeState) -> (fps: usize)
    ensures
        fps == target_fps(state),
{
    match state {
        DrawModeState::Editing => 60,
        DrawModeState::Simulating => 8,
    }
}

/// The window title: the drawing title while editing and the simulating
/// title while simulating in a drawing session; the plain title in a session
/// without drawing, whose mode never changes.
pub fn window_title(state: DrawModeState, is_draw: bool) -> (title: &'static str)
    ensures
        !is_draw ==> title@ == "Lattice - Game of Life"@,
        is_draw && state == DrawModeState::Editing ==> title@ == "Lattice - Draw Mode | Space to Start | R to Reset"@,
        is_draw && state == DrawModeState::Simulating ==> title@ == "Lattice - Simulating | R to Reset"@,
{
    if !is_draw {
        "Lattice - Game of Life"
    } else {
        match state {
            DrawModeState::Editing => "Lattice - Draw Mode | Space to Start | R to Reset",
            DrawModeState::Simulating => "Lattice - Simulating | R to Reset",
        }
    }
}

/// The mode once a frame's reset key has been handled.
pub open spec fn mode_after_reset(state: DrawModeState, is_draw: bool, input: FrameInput) -> DrawModeState {
    if input.reset && is_draw { DrawModeState::Editing } else { state }
}

/// The cells once a frame's reset key has been handled.
pub open spec fn cells_after_reset(cells: Seq<u8>, input: FrameInput) -> Seq<u8> {
    if input.reset { dead_cells(cells.len()) } else { cells }
}

/// The cell under the pointer, where the pointer is over the grid.
pub open spec fn pointed_cell(input: FrameInput, width: usize, height: usize) -> Option<(usize, usize)> {
    match input.pointer {
        Some((x, y)) => if x < width && y < height { Some((x, y)) } else { None },
        None => None,
    }
}

/// Every cell inside the grid can be pointed at, and nothing else: the
/// pointer names cell `(x, y)` exactly when it is over `(x, y)` with
/// `x < width` and `y < height`.
pub proof fn lemma_pointer_reaches_every_cell(input: FrameInput, width: usize, height: usize, x: usize, y: usize)
    ensures
        pointed_cell(input, width, height) == Some((x, y))
            <==> (input.pointer == Some((x, y)) && x < width && y < height),
        input.pointer is None ==> pointed_cell(input, width, height) is None,
{
}

/// The reset key kills every cell, whatever else happens in the frame, and
/// keeps the grid's size; without it the cells are left as they are. In a
/// drawing session it returns to editing.
pub proof fn lemma_reset_kills_every_cell(cells: Seq<u8>, state: DrawModeState, is_draw: bool, input: FrameInput)
    ensures
        cells_after_reset(cells, input).len() == cells.len(),
        input.reset ==> forall|i: int| 0 <= i < cells.len() ==> #[trigger] cells_after_reset(cells, input)[i] == 0,
        !input.reset ==> cells_after_reset(cells, input) == cells,
        input.reset && is_draw ==> mode_after_reset(state, is_draw, input) == DrawModeState::Editing,
        !(input.reset && is_draw) ==> mode_after_reset(state, is_draw, input) == state,
{
}

impl Session {
    pub closed spec fn spec_grid(&self) -> &Grid {
        &self.grid
    }

    pub closed spec fn spec_state(&self) -> DrawModeState {
        self.state
    }

    pub closed spec fn spec_is_draw(&self) -> bool {
        self.is_draw
    }

    pub closed spec fn spec_last_click(&self) -> Option<(usize, usize)> {
        self.last_click_pos
    }

    /// The session's grid is well formed.
    pub closed spec fn wf(&self) -> bool {
        self.grid.wf()
    }

    /// The grid being edited or simulated.
    #[verifier::when_used_as_spec(spec_grid)]
    pub fn grid(&self) -> (grid: &Grid)
        ensures
            grid == self.grid(),
    {
        &self.grid
    }

    /// The current mode.
    #[verifier::when_used_as_spec(spec_state)]
    pub fn state(&self) -> (state: DrawModeState)
        ensures
            state == self.state(),
    {
        self.state
    }

    /// Whether drawing is enabled.
    #[verifier::when_used_as_spec(spec_is_draw)]
    pub fn is_draw(&self) -> (is_draw: bool)
        ensures
            is_draw == self.is_draw(),
    {
        self.is_draw
    }

    /// The cell last painted during the current press, if any.
    #[verifier::when_used_as_spec(spec_last_click)]
    pub fn last_click(&self) -> (pos: Option<(usize, usize)>)
        ensures
            pos == self.last_click(),
    {
        self.last_click_pos
    }

    /// A session on `grid`: drawing sessions start in the editing mode, the
    /// others simulate from the start.
    pub fn new(grid: Grid, is_draw: bool) -> (session: Self)
        requires
            grid.wf(),
        ensures
            session.wf(),
            session.grid() == grid,
            session.is_draw() == is_draw,
            session.state() == (if is_draw { DrawModeState::Editing } else { DrawModeState::Simulating }),
            session.last_click() == None::<(usize, usize)>,
    {
        let state = if is_draw { DrawModeState::Editing } else { DrawModeState::Simulating };
        Session { grid, state, is_draw, last_click_pos: None }
    }

    /// Handles one frame. The reset key kills every cell and, when drawing is
    /// enabled, returns to editing. While editing, the start key switches to
    /// simulating, and a held button paints the cell under the pointer (left:
    /// alive, right: dead) once per cell entered; releasing the buttons over
    /// the grid ends the press. While simulating, the grid advances one
    /// generation. Returns the mode whose title and frame rate the window must
    /// now show, where the mode was switched during the frame.
    pub fn frame(&mut self, input: &FrameInput) -> (shown: Option<DrawModeState>)
        requires
            old(self).wf(),
        ensures
            final(self).wf(),
            final(self).is_draw() == old(self).is_draw(),
            final(self).grid().width() == old(self).grid().width(),
            final(self).grid().height() == old(self).grid().height(),
            final(self).grid().boundary_mode() == old(self).grid().boundary_mode(),
            ({
                let grid = old(self).grid();
                let state1 = mode_after_reset(old(self).state(), old(self).is_draw(), *input);
                let cells1 = cells_after_reset(grid.cells()@, *input);
                let target = pointed_cell(*input, grid.width(), grid.height());
                let pressed = input.left_down || input.right_down;
                &&& shown == (if state1 == DrawModeState::Editing && input.start {
                    Some(DrawModeState::Simulating)
                } else if input.reset && old(self).is_draw() {
                    Some(DrawModeState::Editing)
                } else {
                    None
                })
                &&& state1 == DrawModeState::Simulating ==> {
                    &&& final(self).state() == DrawModeState::Simulating
                    &&& final(self).grid().cells()@ == next_generation(cells1, grid.width() as nat, grid.height() as nat, grid.boundary_mode())
                    &&& final(self).last_click() == old(self).last_click()
                }
                &&& state1 == DrawModeState::Editing ==> {
                    &&& final(self).state() == (if input.start { DrawModeState::Simulating } else { DrawModeState::Editing })
                    &&& match target {
                        Some((x, y)) => if !pressed {
                            &&& final(self).grid().cells()@ == cells1
                            &&& final(self).last_click() == None::<(usize, usize)>
                        } else if old(self).last_click() == Some((x, y)) {
                            &&& final(self).grid().cells()@ == cells1
                            &&& final(self).last_click() == old(self).last_click()
                        } else {
                            &&& final(self).grid().cells()@ == cells1.update(flat_index(grid.width() as int, x as int, y as int), cell_byte(input.left_down))
                            &&& final(self).last_click() == Some((x, y))
                        },
                        None => {
                            &&& final(self).grid().cells()@ == cells1
                            &&& final(self).last_click() == old(self).last_click()
                        },
                    }
                }
            }),
    {
        let mut shown: Option<DrawModeState> = None;
        if input.reset {
            self.grid.clear();
            if self.is_draw {
                self.state = DrawModeState::Editing;
                shown = Some(DrawModeState::Editing);
            }
        }
        match self.state {
            DrawModeState::Editing => {
                if input.start {
                    self.state = DrawModeState::Simulating;
                    shown = Some(DrawModeState::Simulating);
                }
                if let Some((tx, ty)) = input.pointer {
                    if tx < self.grid.width() && ty < self.grid.height() {
                        if input.left_down || input.right_down {
                            let repeated = match self.last_click_pos {
                                Some((lx, ly)) => lx == tx && ly == ty,
                                None => false,
                            };
                            if !repeated {
                                self.grid.set_cell(tx, ty, input.left_down);
                                self.last_click_pos = Some((tx, ty));
                            }
                        } else {
                            self.last_click_pos = None;
                        }
                    }
                }
            }
            DrawModeState::Simulating => {
                self.grid.step();
            }
        }
        shown
    }
}

} // verus!
