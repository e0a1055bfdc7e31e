use lattice::grid::Grid;
use lattice::life::BoundaryMode;
use lattice::session::{target_fps, window_title, DrawModeState, FrameInput, Session};

fn idle() -> FrameInput {
    FrameInput { reset: false, start: false, pointer: None, left_down: false, right_down: false }
}

fn at(x: usize, y: usize, left: bool, right: bool) -> FrameInput {
    FrameInput { reset: false, start: false, pointer: Some((x, y)), left_down: left, right_down: right }
}

#[test]
fn frame_rates_per_mode() {
    assert_eq!(target_fps(DrawModeState::Editing), 60);
    assert_eq!(target_fps(DrawModeState::Simulating), 8);
}

#[test]
fn draw_session_starts_editing_and_visual_session_simulating() {
    let draw = Session::new(Grid::new(5, 5, BoundaryMode::Wrap), true);
    assert_eq!(draw.state(), DrawModeState::Editing);
    assert!(draw.is_draw());
    let visual = Session::new(Grid::new(5, 5, BoundaryMode::Wrap), false);
    assert_eq!(visual.state(), DrawModeState::Simulating);
    assert_eq!(visual.last_click(), None);
}

#[test]
fn left_button_paints_and_right_button_erases() {
    let mut s = Session::new(Grid::new(4, 4, BoundaryMode::Wrap), true);
    assert_eq!(s.frame(&at(1, 2, true, false)), None);
    assert_eq!(s.grid().cells()[9], 1);
    assert_eq!(s.last_click(), Some((1, 2)));
    // Holding the button over the same cell does nothing more.
    s.frame(&at(1, 2, false, true));
    assert_eq!(s.grid().cells()[9], 1);
    // Moving to another cell paints it; the right button erases.
    s.frame(&at(1, 2, false, false));
    assert_eq!(s.last_click(), None);
    s.frame(&at(1, 2, false, true));
    assert_eq!(s.grid().cells()[9], 0);
    // A pointer outside the grid leaves everything as it was.
    s.frame(&at(4, 0, true, false));
    assert_eq!(s.grid().cells(), &vec![0u8; 16]);
    assert_eq!(s.last_click(), Some((1, 2)));
}

#[test]
fn start_key_switches_to_simulating_and_steps_after() {
    let mut s = Session::new(Grid::new(5, 5, BoundaryMode::Fixed), true);
    for x in 1..4 {
        s.frame(&at(x, 2, false, false));
        s.frame(&at(x, 2, true, false));
    }
    let mut press = idle();
    press.start = true;
    assert_eq!(s.frame(&press), Some(DrawModeState::Simulating));
    assert_eq!(s.state(), DrawModeState::Simulating);
    // The switching frame does not step yet.
    assert_eq!(s.grid().cells()[11..14], [1, 1, 1]);
    assert_eq!(s.frame(&idle()), None);
    // The blinker turned vertical.
    assert_eq!(s.grid().cells()[7], 1);
    assert_eq!(s.grid().cells()[12], 1);
    assert_eq!(s.grid().cells()[17], 1);
    assert_eq!(s.grid().cells()[11], 0);
}

#[test]
fn reset_clears_and_returns_to_editing() {
    let mut s = Session::new(Grid::new(3, 3, BoundaryMode::Wrap), true);
    s.frame(&at(0, 0, true, false));
    let mut press = idle();
    press.start = true;
    s.frame(&press);
    let mut reset = idle();
    reset.reset = true;
    assert_eq!(s.frame(&reset), Some(DrawModeState::Editing));
    assert_eq!(s.state(), DrawModeState::Editing);
    assert_eq!(s.grid().cells(), &vec![0u8; 9]);
}

#[test]
fn reset_and_start_together_end_simulating() {
    let mut s = Session::new(Grid::new(3, 3, BoundaryMode::Wrap), true);
    let input = FrameInput { reset: true, start: true, pointer: None, left_down: false, right_down: false };
    assert_eq!(s.frame(&input), Some(DrawModeState::Simulating));
    assert_eq!(s.state(), DrawModeState::Simulating);
}

#[test]
fn visual_session_steps_every_frame_and_reset_only_clears() {
    let mut grid = Grid::new(4, 4, BoundaryMode::Wrap);
    for (x, y) in [(1, 1), (2, 1), (1, 2), (2, 2)] {
        grid.set_cell(x, y, true);
    }
    let block = grid.cells().clone();
    let mut s = Session::new(grid, false);
    assert_eq!(s.frame(&idle()), None);
    assert_eq!(s.grid().cells(), &block);
    // Painting is ignored while simulating.
    s.frame(&at(0, 0, true, false));
    assert_eq!(s.grid().cells(), &block);
    let mut reset = idle();
    reset.reset = true;
    assert_eq!(s.frame(&reset), None);
    assert_eq!(s.state(), DrawModeState::Simulating);
    assert_eq!(s.grid().cells(), &vec![0u8; 16]);
}

#[test]
fn window_titles() {
    assert_eq!(window_title(DrawModeState::Editing, true), "Lattice - Draw Mode | Space to Start | R to Reset");
    assert_eq!(window_title(DrawModeState::Simulating, true), "Lattice - Simulating | R to Reset");
    assert_eq!(window_title(DrawModeState::Simulating, false), "Lattice - Game of Life");
}
