use chess::model::{Board, CellPosition, ChessColor, ChessPiece, PieceType};
use chess::parser::PieceParser;

#[test]
fn test_parse_map() {
    let result = PieceParser::parse_tile_map(PieceParser::default_tile_map());
    assert_eq!(64, result.len());
    for p in &result[0..16] {
        assert!(p.is_some())
    }
    for p in &result[16..48] {
        assert!(p.is_none())
    }
    for p in &result[48..64] {
        assert!(p.is_some())
    }
}

#[test]
fn test_parse_piece() {
    let result = PieceParser::parse_piece("w_bi", 0, 1);
    assert!(result.is_some());
    let chess_piece = result.unwrap();

    assert_eq!(PieceType::BISHOP, chess_piece.piece_type);
    assert_eq!(ChessColor::WHITE, chess_piece.color);
    assert_eq!(CellPosition { i: 0, j: 1 }, chess_piece.pos);
}

fn standard_position() -> Vec<ChessPiece> {
    let back = [
        PieceType::ROOK,
        PieceType::KNIGHT,
        PieceType::BISHOP,
        PieceType::QUEEN,
        PieceType::KING,
        PieceType::BISHOP,
        PieceType::KNIGHT,
        PieceType::ROOK,
    ];
    let mut pieces = Vec::new();
    for i in 0..8 {
        pieces.push(ChessPiece::new(i, 0, ChessColor::WHITE, back[i as usize]));
        pieces.push(ChessPiece::new(i, 1, ChessColor::WHITE, PieceType::PAWN));
        pieces.push(ChessPiece::new(i, 6, ChessColor::BLACK, PieceType::PAWN));
        pieces.push(ChessPiece::new(i, 7, ChessColor::BLACK, back[i as usize]));
    }
    pieces
}

#[test]
fn standard_position_round_trip() {
    let board = Board::new();
    let pieces = standard_position();
    let text = PieceParser::save_tile_map(&pieces, &board);
    let decoded = PieceParser::parse_tile_map(text);
    assert_eq!(64, decoded.len());
    assert_eq!(32, decoded.iter().filter(|p| p.is_none()).count());
    for p in &decoded[16..48] {
        assert!(p.is_none());
    }
    for p in &pieces {
        let k = p.pos.j as usize * 8 + p.pos.i as usize;
        assert_eq!(Some(*p), decoded[k]);
    }
}

#[test]
fn default_map_is_the_starting_position() {
    let decoded = PieceParser::parse_tile_map(PieceParser::default_tile_map());
    assert_eq!(Some(ChessPiece::new(0, 0, ChessColor::WHITE, PieceType::ROOK)), decoded[0]);
    assert_eq!(Some(ChessPiece::new(3, 0, ChessColor::WHITE, PieceType::KING)), decoded[3]);
    assert_eq!(Some(ChessPiece::new(4, 7, ChessColor::BLACK, PieceType::QUEEN)), decoded[60]);
    assert_eq!(Some(ChessPiece::new(5, 6, ChessColor::BLACK, PieceType::PAWN)), decoded[53]);
}

#[test]
fn test_map_holds_back_ranks_only() {
    let decoded = PieceParser::parse_tile_map(PieceParser::test_tile_map());
    assert_eq!(64, decoded.len());
    assert_eq!(10, decoded.iter().filter(|p| p.is_some()).count());
    assert_eq!(Some(ChessPiece::new(4, 0, ChessColor::WHITE, PieceType::QUEEN)), decoded[4]);
    assert_eq!(None, decoded[5]);
}

#[test]
fn encodes_small_board_exactly() {
    let board = Board { first_element: 0, last_element: 1 };
    let king = ChessPiece::new(0, 0, ChessColor::WHITE, PieceType::KING);
    let queen = ChessPiece::new(1, 1, ChessColor::BLACK, PieceType::QUEEN);
    assert_eq!(
        "|none|b_qu|\n|w_ki|none|\n",
        PieceParser::save_tile_map(&vec![king, queen], &board)
    );
    assert_eq!("", PieceParser::save_tile_map(&vec![], &Board { first_element: 1, last_element: 0 }));
}

#[test]
fn encodes_every_symbol() {
    let board = Board { first_element: 0, last_element: 5 };
    let kinds = [
        PieceType::PAWN,
        PieceType::ROOK,
        PieceType::KNIGHT,
        PieceType::BISHOP,
        PieceType::KING,
        PieceType::QUEEN,
    ];
    let mut pieces = Vec::new();
    for (i, k) in kinds.iter().enumerate() {
        pieces.push(ChessPiece::new(i as i8, 0, ChessColor::WHITE, *k));
    }
    let text = PieceParser::save_tile_map(&pieces, &board);
    assert!(text.ends_with("|w_pa|w_ro|w_kn|w_bi|w_ki|w_qu|\n"));
    assert!(text.starts_with("|none|none|none|none|none|none|\n"));
}

#[test]
fn unknown_symbols_decode_as_empty() {
    let decoded = PieceParser::parse_tile_map("|x_yy|w_pa| w_ro|none|\n".to_string());
    assert_eq!(
        vec![None, Some(ChessPiece::new(1, 0, ChessColor::WHITE, PieceType::PAWN)), None, None],
        decoded
    );
    assert_eq!(None, PieceParser::parse_piece("none", 0, 0));
    assert_eq!(None, PieceParser::parse_piece("w_p", 0, 0));
    assert_eq!(
        Some(ChessPiece::new(2, 3, ChessColor::BLACK, PieceType::KNIGHT)),
        PieceParser::parse_piece("b_kn", 2, 3)
    );
}

#[test]
fn blank_lines_and_fields_are_skipped() {
    let text = "\n   \n|w_ki||b_ki|\n\t\n|b_pa|\n".to_string();
    let decoded = PieceParser::parse_tile_map(text);
    assert_eq!(
        vec![
            Some(ChessPiece::new(0, 0, ChessColor::BLACK, PieceType::PAWN)),
            Some(ChessPiece::new(0, 1, ChessColor::WHITE, PieceType::KING)),
            Some(ChessPiece::new(1, 1, ChessColor::BLACK, PieceType::KING)),
        ],
        decoded
    );
    assert!(PieceParser::parse_tile_map(String::new()).is_empty());
}
