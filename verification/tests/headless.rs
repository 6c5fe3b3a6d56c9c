use alacritty_terminal::grid::Dimensions;
use pty_host::headless::HeadlessTerminal;
use pty_host::protocol::WindowSize;

fn make_size(cols: u16, rows: u16) -> WindowSize {
    WindowSize { cols, rows, cell_width: 8, cell_height: 16 }
}

#[test]
fn create_headless_terminal() {
    let size = make_size(80, 24);
    let term = HeadlessTerminal::new(&size, 1000);
    let grid = term.term.grid();
    assert_eq!(grid.columns(), 80);
    assert_eq!(grid.screen_lines(), 24);
    assert_eq!(
        term.current_size(),
        WindowSize { cols: 80, rows: 24, cell_width: 0, cell_height: 0 }
    );
}

#[test]
fn resize_updates_dimensions() {
    let size = make_size(80, 24);
    let mut term = HeadlessTerminal::new(&size, 100);
    assert_eq!(term.term.grid().columns(), 80);
    assert_eq!(term.term.grid().screen_lines(), 24);

    term.resize(&WindowSize { cols: 120, rows: 40, cell_width: 8, cell_height: 16 });
    assert_eq!(term.term().grid().columns(), 120);
    assert_eq!(term.term().grid().screen_lines(), 40);
}

#[test]
fn sizes_that_cannot_be_had_are_left_alone() {
    let mut term = HeadlessTerminal::new(&make_size(80, 24), 100);
    assert!(!term.try_resize(&make_size(1, 24)));
    assert!(!term.try_resize(&make_size(80, 0)));
    assert_eq!(term.current_size().cols, 80);
    assert!(term.try_resize(&make_size(2, 1)));
    let size = term.current_size();
    assert_eq!((size.cols, size.rows), (2, 1));
    assert!(term.try_resize(&make_size(80, 24)));
    assert_eq!(term.current_size().cols, 80);
}
