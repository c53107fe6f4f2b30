use vstd::prelude::*;

use crate::model::{CellPosition, ChessColor, ChessPiece, PieceType};

verus! {

/// The screen the application shows.
#[derive(Clone, Copy, PartialEq, Eq, Structural, Debug, Hash)]
pub enum AppState {
    MainMenu,
    Game,
}

impl Default for AppState {
    fn default() -> (r: AppState)
        ensures
            r == AppState::MainMenu,
    {
        AppState::MainMenu
    }
}

/// Whether a game starts afresh or goes on from a saved position.
#[allow(non_camel_case_types)]
#[derive(Clone, Copy, PartialEq, Eq, Structural, Debug)]
pub enum GameState {
    NEW,
    CONTINUE,
}

/// The side of the board where captured pieces are laid out.
#[allow(non_camel_case_types)]
#[derive(Clone, Copy, PartialEq, Eq, Structural, Debug)]
pub enum DiscardArea {
    TOP,
    BOTTOM,
}

/// Marks the camera that looks at the board.
pub struct MainCamera;

impl Default for ChessColor {
    fn default() -> (r: ChessColor)
        ensures
            r == ChessColor::WHITE,
    {
        ChessColor::WHITE
    }
}

/// The progress of the current turn. Pieces and cells are named by their
/// index in the caller's collections.
#[derive(Clone, Copy, PartialEq, Eq, Structural, Debug)]
pub struct MoveState {
    pub selected_piece: Option<usize>,
    pub selected_cell: Option<usize>,
    pub move_in_action: bool,
    pub current_collor: ChessColor,
    pub check_state: Option<ChessColor>,
    pub mate_state: Option<ChessColor>,
    pub is_stalemate_state: Option<ChessColor>,
}

impl Default for MoveState {
    fn default() -> (r: MoveState)
        ensures
            r.selected_piece is None,
            r.selected_cell is None,
            !r.move_in_action,
            r.current_collor == ChessColor::WHITE,
            r.check_state is None,
            r.mate_state is None,
            r.is_stalemate_state is None,
    {
        MoveState {
            selected_piece: None,
            selected_cell: None,
            move_in_action: false,
            current_collor: ChessColor::WHITE,
            check_state: None,
            mate_state: None,
            is_stalemate_state: None,
        }
    }
}

impl MoveState {
    /// Ends the turn: nothing is selected or moving, and the other side
    /// plays. Check, mate and stalemate marks stay.
    pub fn next_move(&mut self)
        ensures
            final(self).selected_piece is None,
            final(self).selected_cell is None,
            !final(self).move_in_action,
            final(self).current_collor == old(self).current_collor.other(),
            final(self).check_state == old(self).check_state,
            final(self).mate_state == old(self).mate_state,
            final(self).is_stalemate_state == old(self).is_stalemate_state,
    {
        self.move_in_action = false;
        self.selected_cell = None;
        self.selected_piece = None;
        self.current_collor = self.current_collor.opposite();
    }
}

/// How a board cell is shown.
#[allow(non_camel_case_types)]
#[derive(Clone, Copy, PartialEq, Eq, Structural, Debug)]
pub enum ChessCellState {
    NONE,
    HIGHLIGHTED,
    SELECTED,
    ATTACKED,
}

/// A board cell and how it is shown.
#[derive(Clone, Copy, PartialEq, Eq, Structural, Debug)]
pub struct ChessCell {
    pub pos: CellPosition,
    pub state: ChessCellState,
}

impl ChessCell {
    /// The cell at file `i`, rank `j`, shown plainly.
    pub fn from(i: i8, j: i8) -> (r: ChessCell)
        ensures
            r.pos == (CellPosition { i, j }),
            r.state == ChessCellState::NONE,
    {
        ChessCell { pos: CellPosition { i, j }, state: ChessCellState::NONE }
    }

    /// The cell's color: white where file plus rank is even.
    pub fn color(&self) -> (r: ChessColor)
        ensures
            r == if (self.pos.i + self.pos.j) % 2 == 0 {
                ChessColor::WHITE
            } else {
                ChessColor::BLACK
            },
    {
        let sum: i16 = self.pos.j as i16 + self.pos.i as i16;
        if sum % 2 == 0 {
            ChessColor::WHITE
        } else {
            ChessColor::BLACK
        }
    }
}

/// A piece taken off the board, numbered in the order of capture.
#[derive(Clone, Copy, PartialEq, Eq, Structural, Debug)]
pub struct RemovedChessPiece {
    pub color: ChessColor,
    pub piece_type: PieceType,
    pub num: i8,
}

/// Announces that a piece was captured.
#[derive(Clone, Copy, PartialEq, Eq, Structural, Debug)]
pub struct ChessPieceRemovedEvent {
    pub chess_piece: ChessPiece,
}

} // verus!
