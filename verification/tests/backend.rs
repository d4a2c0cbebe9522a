use oelung::{size, BackendMemory, Cell, Color, Error, Position, Size};

fn cell(c: char, fg: Color, bg: Color) -> Cell {
    Cell { content: c, foreground_color: fg, background_color: bg }
}

#[test]
fn new_backend_is_blank() {
    let b = BackendMemory::new(Size { height: 2, width: 3 });
    assert_eq!(b.grid, vec![vec![Cell::default(); 3]; 2]);
    assert_eq!(Cell::default(), cell(' ', Color::Reset, Color::Reset));
    assert_eq!(b.cursor_position, None);
    assert!(!b.is_cursor_shown);
    assert!(b.rendered_grids.is_empty());
    assert!(matches!(b.size(), Ok(Size { height: 2, width: 3 })));
}

#[test]
fn print_writes_at_the_cursor_in_the_current_colors() {
    let mut b = BackendMemory::new(Size { height: 2, width: 5 });
    b.queue_move_cursor(1, 1).unwrap();
    b.queue_set_foreground_color(Color::Red).unwrap();
    b.queue_set_background_color(Color::Blue).unwrap();
    b.queue_print("ab").unwrap();
    assert_eq!(b.grid[0], vec![Cell::default(); 5]);
    assert_eq!(
        b.grid[1],
        vec![
            Cell::default(),
            cell('a', Color::Red, Color::Blue),
            cell('b', Color::Red, Color::Blue),
            Cell::default(),
            Cell::default(),
        ]
    );
    assert_eq!(b.cursor_position, Some(Position { row: 1, column: 3 }));
}

#[test]
fn prints_continue_where_the_last_one_ended() {
    let mut twice = BackendMemory::new(Size { height: 1, width: 6 });
    twice.queue_move_cursor(1, 0).unwrap();
    twice.queue_print("ab").unwrap();
    twice.queue_print("cd").unwrap();
    let mut once = BackendMemory::new(Size { height: 1, width: 6 });
    once.queue_move_cursor(1, 0).unwrap();
    once.queue_print("abcd").unwrap();
    assert_eq!(twice.grid, once.grid);
    assert_eq!(twice.cursor_position, once.cursor_position);
}

#[test]
fn cursor_moves_by_bytes() {
    let mut b = BackendMemory::new(Size { height: 1, width: 6 });
    b.queue_move_cursor(0, 0).unwrap();
    b.queue_print("é").unwrap();
    assert_eq!(b.grid[0][0].content, 'é');
    assert_eq!(b.grid[0][1], Cell::default());
    assert_eq!(b.cursor_position, Some(Position { row: 0, column: 2 }));
}

#[test]
fn cursor_shows_only_when_shown() {
    let mut b = BackendMemory::new(Size { height: 1, width: 6 });
    assert_eq!(b.current_cursor_position(), None);
    b.queue_move_cursor(4, 0).unwrap();
    assert_eq!(b.current_cursor_position(), None);
    b.queue_show_cursor().unwrap();
    assert_eq!(b.current_cursor_position(), Some(Position { row: 0, column: 4 }));
    b.queue_hide_cursor().unwrap();
    assert_eq!(b.current_cursor_position(), None);
    b.flush().unwrap();
    assert_eq!(b.cursor_position, Some(Position { row: 0, column: 4 }));
}

#[test]
fn finished_render_keeps_a_copy_of_the_screen() {
    let mut b = BackendMemory::new(Size { height: 1, width: 2 });
    b.finished_render();
    b.queue_move_cursor(0, 0).unwrap();
    b.queue_print("x").unwrap();
    b.finished_render();
    assert_eq!(b.rendered_grids.len(), 2);
    assert_eq!(b.rendered_grids[0], vec![vec![Cell::default(); 2]]);
    assert_eq!(b.rendered_grids[1], b.grid);
}

#[test]
fn size_from_the_terminal() {
    assert!(matches!(size(Some((80, 24))), Ok(Size { height: 24, width: 80 })));
    match size(None) {
        Err(Error::Crossterm(m)) => assert_eq!(m, "size failed"),
        _ => panic!("expected the size error"),
    }
}

#[test]
fn empty_print_anywhere_changes_nothing() {
    let mut b = BackendMemory::new(Size { height: 1, width: 2 });
    b.queue_move_cursor(9, 7).unwrap();
    b.queue_print("").unwrap();
    assert_eq!(b.grid, vec![vec![Cell::default(); 2]]);
    assert_eq!(b.cursor_position, Some(Position { row: 7, column: 9 }));
}
