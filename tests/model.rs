use chess::model::{Board, CellPosition, ChessColor};
use chess::state::{AppState, ChessCell, ChessCellState, MoveState};
use chess::titles::{TitleLocale, Titles};

#[test]
fn opposite_colors() {
    assert_eq!(ChessColor::BLACK, ChessColor::WHITE.opposite());
    assert_eq!(ChessColor::WHITE, ChessColor::BLACK.opposite());
    assert_eq!(ChessColor::WHITE, ChessColor::default());
}

#[test]
fn board_range() {
    let board = Board::new();
    assert_eq!(0..8, board.cell_range());
    assert!(!board.is_cell_out_of_range(&CellPosition { i: 0, j: 7 }));
    assert!(board.is_cell_out_of_range(&CellPosition { i: 8, j: 0 }));
    assert!(board.is_cell_out_of_range(&CellPosition { i: 3, j: -1 }));
}

#[test]
fn cell_colors_alternate() {
    let cell = ChessCell::from(0, 0);
    assert_eq!(ChessCellState::NONE, cell.state);
    assert_eq!(ChessColor::WHITE, cell.color());
    assert_eq!(ChessColor::BLACK, ChessCell::from(0, 1).color());
    assert_eq!(ChessColor::WHITE, ChessCell::from(7, 7).color());
    assert_eq!(ChessColor::BLACK, ChessCell::from(-1, 0).color());
}

#[test]
fn next_move_passes_the_turn() {
    let mut state = MoveState::default();
    state.selected_piece = Some(3);
    state.selected_cell = Some(9);
    state.move_in_action = true;
    state.check_state = Some(ChessColor::BLACK);
    state.next_move();
    assert_eq!(None, state.selected_piece);
    assert_eq!(None, state.selected_cell);
    assert!(!state.move_in_action);
    assert_eq!(ChessColor::BLACK, state.current_collor);
    assert_eq!(Some(ChessColor::BLACK), state.check_state);
    state.next_move();
    assert_eq!(ChessColor::WHITE, state.current_collor);
    assert_eq!(AppState::MainMenu, AppState::default());
}

#[test]
fn titles_by_locale() {
    let en = Titles::new(TitleLocale::EN);
    assert_eq!("Chess Game", en.title);
    assert_eq!("Check", en.check);
    assert_eq!("Mate", en.mate);
    assert_eq!("Exit", en.button_exit_game);
    let ru = Titles::new(TitleLocale::RU);
    assert_eq!("Шахматы", ru.title);
    assert_eq!("Мат", ru.mate);
    assert_eq!("Продолжить", ru.button_continue_game);
}
