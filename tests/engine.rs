use chess::game::find_piece_on;
use chess::model::{Board, CellPosition, ChessColor, ChessPiece, PieceType};

fn cell(i: i8, j: i8) -> CellPosition {
    CellPosition { i, j }
}

fn sorted(mut v: Vec<CellPosition>) -> Vec<(i8, i8)> {
    let mut out: Vec<(i8, i8)> = v.drain(..).map(|c| (c.i, c.j)).collect();
    out.sort();
    out
}

#[test]
fn test_chess_piece_king_mate_true() {
    let rook1 = ChessPiece::new(0, 7, ChessColor::WHITE, PieceType::ROOK);
    let rook2 = ChessPiece::new(0, 6, ChessColor::WHITE, PieceType::ROOK);
    let king = ChessPiece::new(5, 7, ChessColor::BLACK, PieceType::KING);

    let pieces = vec![rook1, rook2, king];
    let board = Board::new();
    let is_mate = ChessPiece::is_king_under_mate(&ChessColor::BLACK, &pieces, &board);
    assert_eq!(true, is_mate);
}

#[test]
fn test_chess_piece_king_mate_false() {
    let rook1 = ChessPiece::new(0, 7, ChessColor::WHITE, PieceType::ROOK);
    let rook2 = ChessPiece::new(0, 6, ChessColor::WHITE, PieceType::ROOK);
    let king = ChessPiece::new(5, 6, ChessColor::BLACK, PieceType::KING);

    let pieces = vec![rook1, rook2, king];
    let board = Board::new();
    let is_mate = ChessPiece::is_king_under_mate(&ChessColor::BLACK, &pieces, &board);
    assert_eq!(false, is_mate);
}

#[test]
fn lone_rook_has_fourteen_destinations_everywhere() {
    let board = Board::new();
    for i in 0..8 {
        for j in 0..8 {
            let rook = ChessPiece::new(i, j, ChessColor::WHITE, PieceType::ROOK);
            let cells = rook.get_available_cells_for_move(&board, &vec![rook]);
            assert_eq!(14, cells.len());
            assert!(cells.iter().all(|c| (c.i == i) != (c.j == j)));
        }
    }
}

#[test]
fn rook_rays_stop_at_pieces() {
    let board = Board::new();
    let rook = ChessPiece::new(3, 3, ChessColor::WHITE, PieceType::ROOK);
    let ally = ChessPiece::new(3, 5, ChessColor::WHITE, PieceType::PAWN);
    let enemy = ChessPiece::new(1, 3, ChessColor::BLACK, PieceType::PAWN);
    let cells = rook.get_available_cells_for_move(&board, &vec![rook, ally, enemy]);
    assert_eq!(
        vec![
            cell(4, 3),
            cell(5, 3),
            cell(6, 3),
            cell(7, 3),
            cell(2, 3),
            cell(1, 3),
            cell(3, 2),
            cell(3, 1),
            cell(3, 0),
            cell(3, 4)
        ],
        cells
    );
}

#[test]
fn pawn_on_start_rank_has_two_forward_moves() {
    let board = Board::new();
    let white = ChessPiece::new(4, 1, ChessColor::WHITE, PieceType::PAWN);
    assert_eq!(
        vec![cell(4, 2), cell(4, 3)],
        white.get_available_cells_for_move(&board, &vec![white])
    );
    let black = ChessPiece::new(4, 6, ChessColor::BLACK, PieceType::PAWN);
    assert_eq!(
        vec![cell(4, 5), cell(4, 4)],
        black.get_available_cells_for_move(&board, &vec![black])
    );
}

#[test]
fn moved_pawn_has_one_forward_move_and_captures() {
    let board = Board::new();
    let pawn = ChessPiece::new(4, 2, ChessColor::WHITE, PieceType::PAWN);
    assert_eq!(vec![cell(4, 3)], pawn.get_available_cells_for_move(&board, &vec![pawn]));
    let right = ChessPiece::new(5, 3, ChessColor::BLACK, PieceType::KNIGHT);
    let left = ChessPiece::new(3, 3, ChessColor::BLACK, PieceType::KNIGHT);
    let ally = ChessPiece::new(5, 1, ChessColor::WHITE, PieceType::KNIGHT);
    assert_eq!(
        vec![cell(4, 3), cell(5, 3), cell(3, 3)],
        pawn.get_available_cells_for_move(&board, &vec![pawn, right, left, ally])
    );
}

#[test]
fn pawn_is_blocked_by_any_piece_ahead() {
    let board = Board::new();
    let pawn = ChessPiece::new(4, 1, ChessColor::WHITE, PieceType::PAWN);
    let blocker = ChessPiece::new(4, 2, ChessColor::BLACK, PieceType::ROOK);
    assert!(pawn.get_available_cells_for_move(&board, &vec![pawn, blocker]).is_empty());
    let far = ChessPiece::new(4, 3, ChessColor::BLACK, PieceType::ROOK);
    assert_eq!(vec![cell(4, 2)], pawn.get_available_cells_for_move(&board, &vec![pawn, far]));
}

#[test]
fn pawn_on_last_rank_stays_on_the_board() {
    let board = Board::new();
    let pawn = ChessPiece::new(0, 7, ChessColor::WHITE, PieceType::PAWN);
    assert!(pawn.get_available_cells_for_move(&board, &vec![pawn]).is_empty());
}

#[test]
fn knight_jumps_in_order_and_skips_allies() {
    let board = Board::new();
    let knight = ChessPiece::new(0, 0, ChessColor::WHITE, PieceType::KNIGHT);
    assert_eq!(
        vec![cell(2, 1), cell(1, 2)],
        knight.get_available_cells_for_move(&board, &vec![knight])
    );
    let ally = ChessPiece::new(2, 1, ChessColor::WHITE, PieceType::PAWN);
    let enemy = ChessPiece::new(1, 2, ChessColor::BLACK, PieceType::PAWN);
    assert_eq!(
        vec![cell(1, 2)],
        knight.get_available_cells_for_move(&board, &vec![knight, ally, enemy])
    );
    let center = ChessPiece::new(4, 4, ChessColor::BLACK, PieceType::KNIGHT);
    assert_eq!(8, center.get_available_cells_for_move(&board, &vec![center]).len());
}

#[test]
fn bishop_and_queen_on_empty_board() {
    let board = Board::new();
    let bishop = ChessPiece::new(3, 3, ChessColor::WHITE, PieceType::BISHOP);
    let cells = bishop.get_available_cells_for_move(&board, &vec![bishop]);
    assert_eq!(13, cells.len());
    assert_eq!(vec![cell(4, 4), cell(5, 5), cell(6, 6), cell(7, 7)], cells[0..4].to_vec());
    let queen = ChessPiece::new(3, 3, ChessColor::BLACK, PieceType::QUEEN);
    assert_eq!(27, queen.get_available_cells_for_move(&board, &vec![queen]).len());
}

#[test]
fn king_avoids_attacked_cells() {
    let board = Board::new();
    let king = ChessPiece::new(4, 0, ChessColor::WHITE, PieceType::KING);
    let rook = ChessPiece::new(0, 1, ChessColor::BLACK, PieceType::ROOK);
    let cells = king.get_available_cells_for_move(&board, &vec![king, rook]);
    assert_eq!(vec![(3, 0), (5, 0)], sorted(cells));
    let unfiltered = king.available_cells_for_king(&board, &vec![king, rook], true);
    assert_eq!(5, unfiltered.len());
}

#[test]
fn kings_keep_apart() {
    let board = Board::new();
    let white = ChessPiece::new(4, 4, ChessColor::WHITE, PieceType::KING);
    let black = ChessPiece::new(4, 6, ChessColor::BLACK, PieceType::KING);
    let cells = white.get_available_cells_for_move(&board, &vec![white, black]);
    assert_eq!(vec![(3, 3), (3, 4), (4, 3), (5, 3), (5, 4)], sorted(cells));
}

#[test]
fn attacks_come_from_the_other_side_only() {
    let board = Board::new();
    let rook = ChessPiece::new(0, 0, ChessColor::WHITE, PieceType::ROOK);
    let king = ChessPiece::new(7, 7, ChessColor::BLACK, PieceType::KING);
    let pieces = vec![rook, king];
    assert!(ChessPiece::is_cell_on_enemy_path(&ChessColor::BLACK, &cell(0, 5), &pieces, &board));
    assert!(!ChessPiece::is_cell_on_enemy_path(&ChessColor::WHITE, &cell(0, 5), &pieces, &board));
    assert!(ChessPiece::is_cell_on_enemy_path(&ChessColor::WHITE, &cell(6, 6), &pieces, &board));
    assert!(!ChessPiece::is_cell_on_enemy_path(&ChessColor::BLACK, &cell(6, 6), &pieces, &board));
}

#[test]
fn no_king_means_no_check() {
    let board = Board::new();
    let rook = ChessPiece::new(0, 0, ChessColor::BLACK, PieceType::ROOK);
    let pieces = vec![rook];
    assert!(!ChessPiece::is_king_under_check(&ChessColor::WHITE, &pieces, &board));
    assert!(!ChessPiece::is_king_under_check(&ChessColor::WHITE, &vec![], &board));
}

#[test]
fn king_in_check_from_rook() {
    let board = Board::new();
    let king = ChessPiece::new(4, 0, ChessColor::WHITE, PieceType::KING);
    let rook = ChessPiece::new(4, 7, ChessColor::BLACK, PieceType::ROOK);
    assert!(ChessPiece::is_king_under_check(&ChessColor::WHITE, &vec![king, rook], &board));
    let shield = ChessPiece::new(4, 3, ChessColor::WHITE, PieceType::PAWN);
    assert!(!ChessPiece::is_king_under_check(&ChessColor::WHITE, &vec![king, rook, shield], &board));
}

#[test]
fn pieces_after_move_captures_and_leaves_input_alone() {
    let rook = ChessPiece::new(0, 0, ChessColor::WHITE, PieceType::ROOK);
    let knight = ChessPiece::new(0, 5, ChessColor::BLACK, PieceType::KNIGHT);
    let king = ChessPiece::new(4, 0, ChessColor::WHITE, PieceType::KING);
    let pieces = vec![rook, knight, king];
    let before = pieces.clone();
    let mut moving = rook;
    let (captured, after) = ChessPiece::pieces_after_move(&pieces, &cell(0, 5), &mut moving);
    assert_eq!(before, pieces);
    assert_eq!(Some(knight), captured);
    assert_eq!(cell(0, 5), moving.pos);
    assert_eq!(vec![king, ChessPiece::new(0, 5, ChessColor::WHITE, PieceType::ROOK)], after);
}

#[test]
fn pieces_after_move_to_an_empty_cell() {
    let rook = ChessPiece::new(0, 0, ChessColor::WHITE, PieceType::ROOK);
    let king = ChessPiece::new(4, 0, ChessColor::WHITE, PieceType::KING);
    let pieces = vec![rook, king];
    let mut moving = rook;
    let (captured, after) = ChessPiece::pieces_after_move(&pieces, &cell(0, 3), &mut moving);
    assert_eq!(None, captured);
    assert_eq!(2, after.len());
    assert_eq!(vec![king, ChessPiece::new(0, 3, ChessColor::WHITE, PieceType::ROOK)], after);
    assert_eq!(2, pieces.len());
    assert_eq!(cell(0, 0), pieces[0].pos);
}

#[test]
fn pinned_piece_still_moves_in_generation() {
    let board = Board::new();
    let king = ChessPiece::new(4, 0, ChessColor::WHITE, PieceType::KING);
    let bishop = ChessPiece::new(4, 1, ChessColor::WHITE, PieceType::BISHOP);
    let rook = ChessPiece::new(4, 7, ChessColor::BLACK, PieceType::ROOK);
    let pieces = vec![king, bishop, rook];
    let cells = bishop.get_available_cells_for_move(&board, &pieces);
    assert!(cells.contains(&cell(5, 2)));
    let mut moving = bishop;
    let (_, after) = ChessPiece::pieces_after_move(&pieces, &cell(5, 2), &mut moving);
    assert!(ChessPiece::is_king_under_check(&ChessColor::WHITE, &after, &board));
}

#[test]
fn find_piece_on_takes_the_first() {
    let a = ChessPiece::new(1, 1, ChessColor::WHITE, PieceType::PAWN);
    let b = ChessPiece::new(1, 1, ChessColor::BLACK, PieceType::QUEEN);
    assert_eq!(Some(a), find_piece_on(&vec![a, b], &cell(1, 1)));
    assert_eq!(None, find_piece_on(&vec![a, b], &cell(2, 1)));
}

#[test]
fn commit_move_refuses_moves_that_expose_the_king() {
    let board = Board::new();
    let king = ChessPiece::new(4, 0, ChessColor::WHITE, PieceType::KING);
    let bishop = ChessPiece::new(4, 1, ChessColor::WHITE, PieceType::BISHOP);
    let rook = ChessPiece::new(4, 7, ChessColor::BLACK, PieceType::ROOK);
    let pieces = vec![king, bishop, rook];
    assert!(ChessPiece::commit_move(&pieces, &board, 1, &cell(5, 2)).is_none());
    assert!(ChessPiece::commit_move(&pieces, &board, 1, &cell(4, 1)).is_none());
    assert!(ChessPiece::commit_move(&pieces, &board, 1, &cell(4, 2)).is_none());
}

#[test]
fn commit_move_reports_mate() {
    let board = Board::new();
    let rook1 = ChessPiece::new(1, 0, ChessColor::WHITE, PieceType::ROOK);
    let rook2 = ChessPiece::new(0, 6, ChessColor::WHITE, PieceType::ROOK);
    let king = ChessPiece::new(5, 7, ChessColor::BLACK, PieceType::KING);
    let pieces = vec![rook1, rook2, king];
    let outcome = ChessPiece::commit_move(&pieces, &board, 0, &cell(1, 7)).unwrap();
    assert_eq!(Some(ChessColor::BLACK), outcome.mate_state);
    assert_eq!(None, outcome.check_state);
    assert_eq!(None, outcome.removed);
    assert_eq!(
        vec![rook2, king, ChessPiece::new(1, 7, ChessColor::WHITE, PieceType::ROOK)],
        outcome.pieces
    );
}

#[test]
fn commit_move_reports_check_and_capture() {
    let board = Board::new();
    let rook = ChessPiece::new(0, 0, ChessColor::WHITE, PieceType::ROOK);
    let pawn = ChessPiece::new(0, 7, ChessColor::BLACK, PieceType::PAWN);
    let king = ChessPiece::new(5, 7, ChessColor::BLACK, PieceType::KING);
    let pieces = vec![rook, pawn, king];
    let outcome = ChessPiece::commit_move(&pieces, &board, 0, &cell(0, 7)).unwrap();
    assert_eq!(Some(ChessColor::BLACK), outcome.check_state);
    assert_eq!(None, outcome.mate_state);
    assert_eq!(Some(pawn), outcome.removed);
    assert_eq!(2, outcome.pieces.len());
}

#[test]
fn commit_move_quiet() {
    let board = Board::new();
    let knight = ChessPiece::new(1, 0, ChessColor::WHITE, PieceType::KNIGHT);
    let king = ChessPiece::new(4, 7, ChessColor::BLACK, PieceType::KING);
    let pieces = vec![knight, king];
    let outcome = ChessPiece::commit_move(&pieces, &board, 0, &cell(2, 2)).unwrap();
    assert_eq!(None, outcome.check_state);
    assert_eq!(None, outcome.mate_state);
    assert_eq!(None, outcome.removed);
    assert_eq!(vec![king, ChessPiece::new(2, 2, ChessColor::WHITE, PieceType::KNIGHT)], outcome.pieces);
    assert_eq!(vec![knight, king], pieces);
}
