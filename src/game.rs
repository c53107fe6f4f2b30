use vstd::prelude::*;

use crate::model::{Board, CellPosition, ChessColor, ChessPiece, PieceType};
use crate::moves::{attacked, cells_contain, destinations};

verus! {

/// `k` is the first index of `ps` whose piece stands on `c`.
pub open spec fn first_on(ps: Seq<ChessPiece>, c: CellPosition, k: int) -> bool {
    &&& 0 <= k < ps.len()
    &&& ps[k].pos == c
    &&& forall|m: int| 0 <= m < k ==> ps[m].pos != c
}

/// The first piece of `ps` on `c`, if any.
pub open spec fn piece_on(ps: Seq<ChessPiece>, c: CellPosition) -> Option<ChessPiece> {
    if exists|k: int| first_on(ps, c, k) {
        Some(ps[choose|k: int| first_on(ps, c, k)])
    } else {
        None
    }
}

pub open spec fn is_king_of(p: ChessPiece, color: ChessColor) -> bool {
    p.color == color && p.piece_type == PieceType::KING
}

/// `k` is the first index of `ps` that holds the king of `color`.
pub open spec fn first_king(ps: Seq<ChessPiece>, color: ChessColor, k: int) -> bool {
    &&& 0 <= k < ps.len()
    &&& is_king_of(ps[k], color)
    &&& forall|m: int| 0 <= m < k ==> !is_king_of(ps[m], color)
}

/// The first king of `color` in `ps`, if any.
pub open spec fn king_of(ps: Seq<ChessPiece>, color: ChessColor) -> Option<ChessPiece> {
    if exists|k: int| first_king(ps, color, k) {
        Some(ps[choose|k: int| first_king(ps, color, k)])
    } else {
        None
    }
}

/// The king of `color` is present and its cell is attacked.
pub open spec fn in_check(color: ChessColor, ps: Seq<ChessPiece>, b: Board) -> bool {
    match king_of(ps, color) {
        Some(king) => attacked(color, king.pos, ps, b),
        None => false,
    }
}

/// `p` moved to `c`.
pub open spec fn relocated(p: ChessPiece, c: CellPosition) -> ChessPiece {
    ChessPiece { pos: c, ..p }
}

/// The pieces that stay where they are when a piece on `from` moves to `to`.
pub open spec fn stays(from: CellPosition, to: CellPosition) -> spec_fn(ChessPiece) -> bool {
    |p: ChessPiece| p.pos != from && p.pos != to
}

/// The snapshot after `moving` goes to `c`: the pieces on its old cell and on
/// `c` leave, then the moved piece is added at the end.
pub open spec fn after_move(ps: Seq<ChessPiece>, c: CellPosition, moving: ChessPiece) -> Seq<
    ChessPiece,
> {
    ps.filter(stays(moving.pos, c)).push(relocated(moving, c))
}

/// Every destination of every piece of `color` leaves its king in check; so
/// also when no piece of `color` has a destination at all.
pub open spec fn mated(color: ChessColor, ps: Seq<ChessPiece>, b: Board) -> bool {
    forall|k: int, c: CellPosition|
        0 <= k < ps.len() && ps[k].color == color && #[trigger] destinations(ps[k], b, ps).contains(
            c,
        ) ==> in_check(color, after_move(ps, c, ps[k]), b)
}

/// No two pieces of `ps` share a cell.
pub open spec fn distinct_cells(ps: Seq<ChessPiece>) -> bool {
    forall|a: int, c: int| 0 <= a < ps.len() && 0 <= c < ps.len() && a != c ==> ps[a].pos != ps[c].pos
}

/// How many pieces of `ps` stand on `c`.
pub open spec fn count_on(ps: Seq<ChessPiece>, c: CellPosition) -> nat
    decreases ps.len(),
{
    if ps.len() == 0 {
        0
    } else {
        count_on(ps.drop_last(), c) + if ps.last().pos == c {
            1nat
        } else {
            0nat
        }
    }
}

proof fn lemma_stays_len(ps: Seq<ChessPiece>, a: CellPosition, c: CellPosition)
    requires
        a != c,
    ensures
        ps.filter(stays(a, c)).len() == ps.len() - count_on(ps, a) - count_on(ps, c),
    decreases ps.len(),
{
    reveal(Seq::filter);
    if ps.len() > 0 {
        lemma_stays_len(ps.drop_last(), a, c);
    }
}

proof fn lemma_count_distinct(ps: Seq<ChessPiece>, c: CellPosition)
    requires
        distinct_cells(ps),
    ensures
        count_on(ps, c) == if exists|k: int| 0 <= k < ps.len() && ps[k].pos == c {
            1nat
        } else {
            0nat
        },
    decreases ps.len(),
{
    if ps.len() > 0 {
        let rest = ps.drop_last();
        assert(distinct_cells(rest)) by {
            assert forall|a: int, e: int| 0 <= a < rest.len() && 0 <= e < rest.len() && a != e implies rest[a].pos != rest[e].pos by {
                assert(rest[a] == ps[a] && rest[e] == ps[e]);
            }
        }
        lemma_count_distinct(rest, c);
        if exists|k: int| 0 <= k < rest.len() && rest[k].pos == c {
            let k = choose|k: int| 0 <= k < rest.len() && rest[k].pos == c;
            assert(ps[k] == rest[k]);
        }
        if exists|k: int| 0 <= k < ps.len() && ps[k].pos == c {
            let k = choose|k: int| 0 <= k < ps.len() && ps[k].pos == c;
            if k < rest.len() {
                assert(rest[k] == ps[k]);
            }
        }
    }
}

/// Moving one piece of a snapshot with at most one piece per cell to another
/// cell relocates that piece and captures at most one: the result holds one
/// piece fewer when a piece stood on the destination and as many otherwise;
/// its last piece is the moved one; the others are the pieces of the
/// snapshot on neither cell, all of them.
pub proof fn lemma_one_move(ps: Seq<ChessPiece>, k: int, c: CellPosition)
    requires
        distinct_cells(ps),
        0 <= k < ps.len(),
        ps[k].pos != c,
    ensures
        after_move(ps, c, ps[k]).len() == ps.len() - if piece_on(ps, c) is Some {
            1int
        } else {
            0int
        },
        after_move(ps, c, ps[k]).last() == relocated(ps[k], c),
        forall|m: int|
            0 <= m < ps.len() && ps[m].pos != ps[k].pos && ps[m].pos != c ==> after_move(
                ps,
                c,
                ps[k],
            ).contains(#[trigger] ps[m]),
        forall|m: int|
            0 <= m < after_move(ps, c, ps[k]).len() - 1 ==> ps.contains(
                #[trigger] after_move(ps, c, ps[k])[m],
            ) && after_move(ps, c, ps[k])[m].pos != ps[k].pos && after_move(ps, c, ps[k])[m].pos
                != c,
{
    let from = ps[k].pos;
    let keep = stays(from, c);
    let kept = ps.filter(keep);
    let after = after_move(ps, c, ps[k]);
    lemma_stays_len(ps, from, c);
    lemma_count_distinct(ps, from);
    lemma_count_distinct(ps, c);
    if piece_on(ps, c) is None {
        if exists|m: int| 0 <= m < ps.len() && ps[m].pos == c {
            assert(!exists|m: int| first_on(ps, c, m));
            let m = choose|m: int| 0 <= m < ps.len() && ps[m].pos == c;
            assert forall|e: int| 0 <= e < m implies ps[e].pos != c by {
                if ps[e].pos == c {
                    assert(e == m);
                }
            }
            assert(first_on(ps, c, m));
        }
    }
    assert forall|m: int| 0 <= m < ps.len() && ps[m].pos != from && ps[m].pos != c implies after.contains(#[trigger] ps[m]) by {
        ps.lemma_filter_contains(keep, m);
        let e = choose|e: int| 0 <= e < kept.len() && kept[e] == ps[m];
        assert(after[e] == ps[m]);
    }
    assert forall|m: int| 0 <= m < after.len() - 1 implies ps.contains(#[trigger] after[m]) && after[m].pos != from && after[m].pos != c by {
        assert(after[m] == kept[m]);
        ps.lemma_filter_pred(keep, m);
        ps.lemma_filter_contains_rev(keep, kept[m]);
    }
}

/// Moving piece `k` of `ps` to `c` may be committed: `c` is another cell
/// among the piece's destinations, and after the move the mover's own king
/// is not in check.
pub open spec fn commit_allowed(ps: Seq<ChessPiece>, b: Board, k: int, c: CellPosition) -> bool {
    &&& c != ps[k].pos
    &&& destinations(ps[k], b, ps).contains(c)
    &&& !in_check(ps[k].color, after_move(ps, c, ps[k]), b)
}

/// What a committed move leaves behind.
#[derive(Debug)]
pub struct MoveOutcome {
    /// The piece captured on the destination, if any.
    pub removed: Option<ChessPiece>,
    /// The snapshot after the move.
    pub pieces: Vec<ChessPiece>,
    /// The side now in check but not mated, if any.
    pub check_state: Option<ChessColor>,
    /// The side now mated, if any.
    pub mate_state: Option<ChessColor>,
}

/// The first piece of `pieces` on `cell`.
pub fn find_piece_on(pieces: &Vec<ChessPiece>, cell: &CellPosition) -> (r: Option<ChessPiece>)
    ensures
        r == piece_on(pieces@, *cell),
        r is Some ==> r->0.pos == *cell,
        r is None ==> forall|m: int| 0 <= m < pieces.len() ==> pieces@[m].pos != *cell,
{
    let mut k: usize = 0;
    while k < pieces.len()
        invariant
            k <= pieces.len(),
            forall|m: int| 0 <= m < k ==> pieces@[m].pos != *cell,
        decreases pieces.len() - k,
    {
        if pieces[k].pos == *cell {
            assert(first_on(pieces@, *cell, k as int));
            proof {
                let c = choose|m: int| first_on(pieces@, *cell, m);
                assert(c == k);
            }
            return Some(pieces[k]);
        }
        k = k + 1;
    }
    assert(!exists|k: int| first_on(pieces@, *cell, k));
    None
}

impl ChessPiece {
    /// Simulates moving `cloned_selected_piece` to `cell_position`: returns
    /// the first piece of `pieces` on that cell, which the move captures, and
    /// the snapshot after the move. `pieces` itself is left as it is; the
    /// piece handed in is moved to the cell.
    pub fn pieces_after_move(
        pieces: &Vec<ChessPiece>,
        cell_position: &CellPosition,
        cloned_selected_piece: &mut ChessPiece,
    ) -> (r: (Option<ChessPiece>, Vec<ChessPiece>))
        ensures
            r.0 == piece_on(pieces@, *cell_position),
            r.1@ == after_move(pieces@, *cell_position, *old(cloned_selected_piece)),
            *final(cloned_selected_piece) == relocated(*old(cloned_selected_piece), *cell_position),
    {
        let maybe_removed_piece = find_piece_on(pieces, cell_position);
        let from = cloned_selected_piece.pos;
        let ghost keep = stays(from, *cell_position);
        let mut pieces_after_move: Vec<ChessPiece> = Vec::new();
        let mut k: usize = 0;
        while k < pieces.len()
            invariant
                k <= pieces.len(),
                keep == stays(from, *cell_position),
                maybe_removed_piece == piece_on(pieces@, *cell_position),
                maybe_removed_piece is Some ==> maybe_removed_piece->0.pos == *cell_position,
                maybe_removed_piece is None ==> forall|m: int| 0 <= m < pieces.len() ==> pieces@[m].pos != *cell_position,
                pieces_after_move@ == pieces@.take(k as int).filter(keep),
            decreases pieces.len() - k,
        {
            let piece = pieces[k];
            let ghost pre = pieces_after_move@;
            assert(pieces@.take(k as int + 1) == pieces@.take(k as int).push(piece));
            proof {
                pieces@.take(k as int).lemma_filter_push(piece, keep);
            }
            let kept = piece.pos != from && match maybe_removed_piece {
                Some(rm_piece) => piece.pos != rm_piece.pos,
                None => true,
            };
            assert(kept == keep(piece));
            if kept {
                pieces_after_move.push(piece);
            }
            k = k + 1;
        }
        assert(pieces@.take(pieces.len() as int) == pieces@);
        cloned_selected_piece.pos = *cell_position;
        pieces_after_move.push(*cloned_selected_piece);
        (maybe_removed_piece, pieces_after_move)
    }

    /// Whether the king of `color` stands on a cell that the other side
    /// attacks; `false` when `pieces` holds no king of `color`.
    pub fn is_king_under_check(color: &ChessColor, pieces: &Vec<ChessPiece>, board: &Board) -> (r:
        bool)
        ensures
            r == in_check(*color, pieces@, *board),
            (forall|k: int| 0 <= k < pieces.len() ==> !is_king_of(#[trigger] pieces@[k], *color))
                ==> !r,
    {
        let mut k: usize = 0;
        while k < pieces.len()
            invariant
                k <= pieces.len(),
                forall|m: int| 0 <= m < k ==> !is_king_of(#[trigger] pieces@[m], *color),
            decreases pieces.len() - k,
        {
            let piece = pieces[k];
            if piece.color == *color && piece.piece_type == PieceType::KING {
                assert(first_king(pieces@, *color, k as int));
                proof {
                    let c = choose|m: int| first_king(pieces@, *color, m);
                    assert(c == k);
                }
                return ChessPiece::is_cell_on_enemy_path(color, &piece.pos, pieces, board);
            }
            k = k + 1;
        }
        assert(!exists|k: int| first_king(pieces@, *color, k));
        false
    }

    /// Whether `color` is mated: no destination of any of its pieces gets
    /// its king out of check.
    pub fn is_king_under_mate(color: &ChessColor, pieces: &Vec<ChessPiece>, board: &Board) -> (r:
        bool)
        ensures
            r == mated(*color, pieces@, *board),
    {
        let mut k: usize = 0;
        while k < pieces.len()
            invariant
                k <= pieces.len(),
                forall|kk: int, c: CellPosition|
                    0 <= kk < k && pieces@[kk].color == *color && #[trigger] destinations(
                        pieces@[kk],
                        *board,
                        pieces@,
                    ).contains(c) ==> in_check(*color, after_move(pieces@, c, pieces@[kk]), *board),
            decreases pieces.len() - k,
        {
            let ally_piece = pieces[k];
            if ally_piece.color == *color {
                let cells = ally_piece.get_available_cells_for_move(board, pieces);
                let mut m: usize = 0;
                while m < cells.len()
                    invariant
                        k < pieces.len(),
                        ally_piece == pieces@[k as int],
                        ally_piece.color == *color,
                        cells@ == destinations(ally_piece, *board, pieces@),
                        m <= cells.len(),
                        forall|mm: int|
                            0 <= mm < m ==> in_check(
                                *color,
                                after_move(pieces@, #[trigger] cells@[mm], ally_piece),
                                *board,
                            ),
                    decreases cells.len() - m,
                {
                    let mut cloned_selected_piece = ally_piece;
                    let (_, pieces_after_move) = ChessPiece::pieces_after_move(
                        pieces,
                        &cells[m],
                        &mut cloned_selected_piece,
                    );
                    if !ChessPiece::is_king_under_check(color, &pieces_after_move, board) {
                        assert(destinations(pieces@[k as int], *board, pieces@).contains(cells@[m as int]));
                        return false;
                    }
                    m = m + 1;
                }
                assert forall|c: CellPosition|
                    #[trigger] destinations(pieces@[k as int], *board, pieces@).contains(c)
                        implies in_check(*color, after_move(pieces@, c, pieces@[k as int]), *board) by {
                    let mm = choose|mm: int| 0 <= mm < cells@.len() && cells@[mm] == c;
                    assert(in_check(*color, after_move(pieces@, cells@[mm], ally_piece), *board));
                }
            }
            k = k + 1;
        }
        true
    }
    /// Commits the move of piece `piece_index` to `cell_position` when it is
    /// allowed, and reports what it leaves: the captured piece, the new
    /// snapshot, and whether the other side is in check or mated there.
    /// `None` when the move is not allowed; `pieces` is never changed.
    pub fn commit_move(
        pieces: &Vec<ChessPiece>,
        board: &Board,
        piece_index: usize,
        cell_position: &CellPosition,
    ) -> (r: Option<MoveOutcome>)
        requires
            piece_index < pieces.len(),
        ensures
            r is Some <==> commit_allowed(pieces@, *board, piece_index as int, *cell_position),
            r is Some ==> ({
                let mover = pieces@[piece_index as int];
                let after = after_move(pieces@, *cell_position, mover);
                let other = mover.color.other();
                &&& r->0.removed == piece_on(pieces@, *cell_position)
                &&& r->0.pieces@ == after
                &&& r->0.check_state == if in_check(other, after, *board) && !mated(
                    other,
                    after,
                    *board,
                ) {
                    Some(other)
                } else {
                    None
                }
                &&& r->0.mate_state == if in_check(other, after, *board) && mated(
                    other,
                    after,
                    *board,
                ) {
                    Some(other)
                } else {
                    None
                }
            }),
    {
        let selected_piece = pieces[piece_index];
        if selected_piece.pos == *cell_position {
            return None;
        }
        let available_cells = selected_piece.get_available_cells_for_move(board, pieces);
        if !cells_contain(&available_cells, cell_position) {
            return None;
        }
        let mut cloned_selected_piece = selected_piece;
        let (maybe_removed_piece, pieces_after_move) = ChessPiece::pieces_after_move(
            pieces,
            cell_position,
            &mut cloned_selected_piece,
        );
        if ChessPiece::is_king_under_check(&selected_piece.color, &pieces_after_move, board) {
            return None;
        }
        let color = selected_piece.color.opposite();
        let mut check_state: Option<ChessColor> = None;
        let mut mate_state: Option<ChessColor> = None;
        if ChessPiece::is_king_under_check(&color, &pieces_after_move, board) {
            if ChessPiece::is_king_under_mate(&color, &pieces_after_move, board) {
                mate_state = Some(color);
            } else {
                check_state = Some(color);
            }
        }
        Some(
            MoveOutcome {
                removed: maybe_removed_piece,
                pieces: pieces_after_move,
                check_state,
                mate_state,
            },
        )
    }
}

} // verus!
