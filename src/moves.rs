use vstd::prelude::*;

use bevy::utils::HashSet;

use crate::model::{cell_at, Board, CellPosition, ChessColor, ChessPiece, PieceType};

verus! {

/// Some piece of `color` stands on `c`.
pub open spec fn ally_at(ps: Seq<ChessPiece>, color: ChessColor, c: CellPosition) -> bool {
    exists|k: int| 0 <= k < ps.len() && ps[k].pos == c && ps[k].color == color
}

/// Some piece of a color other than `color` stands on `c`.
pub open spec fn enemy_at(ps: Seq<ChessPiece>, color: ChessColor, c: CellPosition) -> bool {
    exists|k: int| 0 <= k < ps.len() && ps[k].pos == c && ps[k].color != color
}

/// No piece of either side stands on `c`.
pub open spec fn vacant(ps: Seq<ChessPiece>, color: ChessColor, c: CellPosition) -> bool {
    !ally_at(ps, color, c) && !enemy_at(ps, color, c)
}

/// How many steps a ray may take at most: the width of the board.
pub open spec fn max_steps(b: Board) -> nat {
    if b.first_element <= b.last_element {
        (b.last_element - b.first_element + 1) as nat
    } else {
        0
    }
}

/// The cells that a sliding piece of `color` standing on `(i, j)` reaches in
/// direction `(di, dj)`: it moves while the cells are on the board and empty,
/// stops before a piece of its own side and stops on a piece of the other.
pub open spec fn ray(
    b: Board,
    ps: Seq<ChessPiece>,
    color: ChessColor,
    i: int,
    j: int,
    di: int,
    dj: int,
    steps: nat,
) -> Seq<CellPosition>
    decreases steps,
{
    let next = cell_at(i + di, j + dj);
    if steps == 0 || !b.in_range(i + di, j + dj) || ally_at(ps, color, next) {
        Seq::empty()
    } else if enemy_at(ps, color, next) {
        seq![next]
    } else {
        seq![next] + ray(b, ps, color, i + di, j + dj, di, dj, (steps - 1) as nat)
    }
}

/// The ray of piece `p` in direction `(di, dj)`.
pub open spec fn line(p: ChessPiece, b: Board, ps: Seq<ChessPiece>, di: int, dj: int) -> Seq<
    CellPosition,
> {
    ray(b, ps, p.color, p.pos.i as int, p.pos.j as int, di, dj, max_steps(b))
}

/// Rook moves: right, left, down, up.
pub open spec fn rook_cells(p: ChessPiece, b: Board, ps: Seq<ChessPiece>) -> Seq<CellPosition> {
    line(p, b, ps, 1, 0) + line(p, b, ps, -1, 0) + line(p, b, ps, 0, -1) + line(p, b, ps, 0, 1)
}

/// Bishop moves: up-right, up-left, down-right, down-left.
pub open spec fn bishop_cells(p: ChessPiece, b: Board, ps: Seq<ChessPiece>) -> Seq<CellPosition> {
    line(p, b, ps, 1, 1) + line(p, b, ps, -1, 1) + line(p, b, ps, 1, -1) + line(p, b, ps, -1, -1)
}

/// Queen moves: the rook's, then the bishop's.
pub open spec fn queen_cells(p: ChessPiece, b: Board, ps: Seq<ChessPiece>) -> Seq<CellPosition> {
    rook_cells(p, b, ps) + bishop_cells(p, b, ps)
}

/// Cells at Chebyshev distance at most one from `pos`.
pub open spec fn near(pos: CellPosition) -> spec_fn(CellPosition) -> bool {
    |c: CellPosition|
        pos.i - 1 <= c.i <= pos.i + 1 && pos.j - 1 <= c.j <= pos.j + 1
}

/// King moves before any attack filter: the queen's moves next to the king.
pub open spec fn king_step_cells(p: ChessPiece, b: Board, ps: Seq<ChessPiece>) -> Seq<
    CellPosition,
> {
    queen_cells(p, b, ps).filter(near(p.pos))
}

/// The knight's jumps, in the order they are tried.
pub open spec fn knight_offset(k: int) -> (int, int) {
    if k == 0 {
        (2, 1)
    } else if k == 1 {
        (2, -1)
    } else if k == 2 {
        (-2, 1)
    } else if k == 3 {
        (-2, -1)
    } else if k == 4 {
        (1, 2)
    } else if k == 5 {
        (1, -2)
    } else if k == 6 {
        (-1, 2)
    } else {
        (-1, -2)
    }
}

/// The first `n` knight jumps of `p` that land on the board and not on a
/// piece of its own side.
pub open spec fn knight_jumps(p: ChessPiece, b: Board, ps: Seq<ChessPiece>, n: int) -> Seq<
    CellPosition,
>
    decreases n,
{
    if n <= 0 {
        Seq::empty()
    } else {
        let prev = knight_jumps(p, b, ps, n - 1);
        let (di, dj) = knight_offset(n - 1);
        let ni = p.pos.i + di;
        let nj = p.pos.j + dj;
        if b.in_range(ni, nj) && !ally_at(ps, p.color, cell_at(ni, nj)) {
            prev.push(cell_at(ni, nj))
        } else {
            prev
        }
    }
}

pub open spec fn knight_cells(p: ChessPiece, b: Board, ps: Seq<ChessPiece>) -> Seq<CellPosition> {
    knight_jumps(p, b, ps, 8)
}

/// The direction in which pawns of `color` move along the rank axis.
pub open spec fn forward(color: ChessColor) -> int {
    if color == ChessColor::WHITE {
        1
    } else {
        -1
    }
}

/// Whether a pawn of `p`'s side stands on its starting rank.
pub open spec fn on_start_rank(p: ChessPiece, b: Board) -> bool {
    if p.color == ChessColor::WHITE {
        p.pos.j == b.first_element + 1
    } else {
        p.pos.j == b.last_element - 1
    }
}

/// `seq![c]` when `ok`, else nothing.
pub open spec fn when(ok: bool, c: CellPosition) -> Seq<CellPosition> {
    if ok {
        seq![c]
    } else {
        Seq::empty()
    }
}

/// Pawn moves: one step forward onto an empty cell; two steps from the
/// starting rank when both cells ahead are empty; one step diagonally
/// forward, right then left, only onto a piece of the other side.
pub open spec fn pawn_cells(p: ChessPiece, b: Board, ps: Seq<ChessPiece>) -> Seq<CellPosition> {
    let d = forward(p.color);
    let i = p.pos.i as int;
    let j = p.pos.j as int;
    let one = cell_at(i, j + d);
    let two = cell_at(i, j + 2 * d);
    let right = cell_at(i + 1, j + d);
    let left = cell_at(i - 1, j + d);
    let one_ok = b.in_range(i, j + d) && vacant(ps, p.color, one);
    let two_ok = on_start_rank(p, b) && one_ok && b.in_range(i, j + 2 * d) && vacant(
        ps,
        p.color,
        two,
    );
    let right_ok = b.in_range(i + 1, j + d) && enemy_at(ps, p.color, right);
    let left_ok = b.in_range(i - 1, j + d) && enemy_at(ps, p.color, left);
    when(one_ok, one) + when(two_ok, two) + when(right_ok, right) + when(left_ok, left)
}

/// The cells that `p` reaches by its movement pattern, taking the pieces in
/// its way into account; a king's cells are not checked for attacks.
pub open spec fn reach(p: ChessPiece, b: Board, ps: Seq<ChessPiece>) -> Seq<CellPosition> {
    match p.piece_type {
        PieceType::PAWN => pawn_cells(p, b, ps),
        PieceType::ROOK => rook_cells(p, b, ps),
        PieceType::BISHOP => bishop_cells(p, b, ps),
        PieceType::KNIGHT => knight_cells(p, b, ps),
        PieceType::QUEEN => queen_cells(p, b, ps),
        PieceType::KING => king_step_cells(p, b, ps),
    }
}

/// Some piece of the side other than `defender` reaches `c`.
pub open spec fn attacked(defender: ChessColor, c: CellPosition, ps: Seq<ChessPiece>, b: Board) -> bool {
    exists|k: int| 0 <= k < ps.len() && ps[k].color != defender && #[trigger] reach(ps[k], b, ps).contains(c)
}

/// Cells that the side other than `defender` does not attack.
pub open spec fn safe_for(defender: ChessColor, ps: Seq<ChessPiece>, b: Board) -> spec_fn(CellPosition) -> bool {
    |c: CellPosition| !attacked(defender, c, ps, b)
}

/// The destinations of `p`: its reach, and for a king only the cells that the
/// other side does not attack.
pub open spec fn destinations(p: ChessPiece, b: Board, ps: Seq<ChessPiece>) -> Seq<CellPosition> {
    if p.piece_type == PieceType::KING {
        reach(p, b, ps).filter(safe_for(p.color, ps, b))
    } else {
        reach(p, b, ps)
    }
}

/// A set of cells, as `(file, rank)` pairs, held in bevy's hash set.
#[verifier::external_body]
pub struct CellSet {
    cells: HashSet<(i8, i8)>,
}

/// The cells that a `CellSet` holds.
pub uninterp spec fn set_cells(s: CellSet) -> Set<(i8, i8)>;

impl CellSet {
    /// Relies on `Default` for hashbrown's `HashSet` (bevy's `HashSet`): it
    /// starts empty.
    #[verifier::external_body]
    fn new() -> (r: CellSet)
        ensures
            set_cells(r) == Set::<(i8, i8)>::empty(),
    {
        CellSet { cells: HashSet::default() }
    }

    /// Relies on hashbrown's `HashSet::insert`: the value is in the set
    /// afterwards and the other values stay as they were.
    #[verifier::external_body]
    fn insert(&mut self, c: (i8, i8))
        ensures
            set_cells(*final(self)) == set_cells(*old(self)).insert(c),
    {
        self.cells.insert(c);
    }

    /// Relies on hashbrown's `HashSet::contains`: whether the value is in the
    /// set.
    #[verifier::external_body]
    fn contains(&self, c: (i8, i8)) -> (r: bool)
        ensures
            r == set_cells(*self).contains(c),
    {
        self.cells.contains(&c)
    }
}

/// `allies` and `enemies` hold exactly the cells of the pieces of `color`'s
/// side and of the other side.
pub open spec fn occupancy(
    allies: Set<(i8, i8)>,
    enemies: Set<(i8, i8)>,
    ps: Seq<ChessPiece>,
    color: ChessColor,
) -> bool {
    &&& forall|c: CellPosition| #[trigger] allies.contains((c.i, c.j)) <==> ally_at(ps, color, c)
    &&& forall|c: CellPosition| #[trigger] enemies.contains((c.i, c.j)) <==> enemy_at(ps, color, c)
}

/// The knight jump tried at step `k`.
fn knight_jump(k: usize) -> (r: (i8, i8))
    requires
        k < 8,
    ensures
        r.0 as int == knight_offset(k as int).0,
        r.1 as int == knight_offset(k as int).1,
{
    if k == 0 {
        (2, 1)
    } else if k == 1 {
        (2, -1)
    } else if k == 2 {
        (-2, 1)
    } else if k == 3 {
        (-2, -1)
    } else if k == 4 {
        (1, 2)
    } else if k == 5 {
        (1, -2)
    } else if k == 6 {
        (-1, 2)
    } else {
        (-1, -2)
    }
}

/// How far `(i, j)` is from the edge of the board in the axis direction
/// `(di, dj)`.
pub open spec fn room(b: Board, i: int, j: int, di: int, dj: int) -> int {
    if di == 1 {
        b.last_element - i
    } else if di == -1 {
        i - b.first_element
    } else if dj == 1 {
        b.last_element - j
    } else {
        j - b.first_element
    }
}

/// Along an axis, a piece alone on the board slides to the edge.
proof fn lemma_lone_ray(p: ChessPiece, b: Board, i: int, j: int, di: int, dj: int, steps: nat)
    requires
        (di == 0 && (dj == 1 || dj == -1)) || (dj == 0 && (di == 1 || di == -1)),
        b.in_range(i, j),
        dj == 0 ==> j == p.pos.j && (di == 1 ==> i >= p.pos.i) && (di == -1 ==> i <= p.pos.i),
        di == 0 ==> i == p.pos.i && (dj == 1 ==> j >= p.pos.j) && (dj == -1 ==> j <= p.pos.j),
        steps >= room(b, i, j, di, dj),
    ensures
        ray(b, seq![p], p.color, i, j, di, dj, steps).len() == room(b, i, j, di, dj),
    decreases steps,
{
    let ps = seq![p];
    let next = cell_at(i + di, j + dj);
    if steps > 0 && b.in_range(i + di, j + dj) {
        assert(next.i as int == i + di && next.j as int == j + dj);
        assert(next != p.pos);
        assert(!ally_at(ps, p.color, next));
        assert(!enemy_at(ps, p.color, next));
        lemma_lone_ray(p, b, i + di, j + dj, di, dj, (steps - 1) as nat);
    }
}

/// A rook alone on the board reaches every other cell of its file and of its
/// rank: `2 * (width - 1)` destinations, 14 on the 8 by 8 board, wherever it
/// stands.
pub proof fn lemma_lone_rook(p: ChessPiece, b: Board)
    requires
        p.piece_type == PieceType::ROOK,
        b.holds(p.pos),
    ensures
        destinations(p, b, seq![p]).len() == 2 * (b.width() - 1),
{
    let i = p.pos.i as int;
    let j = p.pos.j as int;
    lemma_lone_ray(p, b, i, j, 1, 0, max_steps(b));
    lemma_lone_ray(p, b, i, j, -1, 0, max_steps(b));
    lemma_lone_ray(p, b, i, j, 0, -1, max_steps(b));
    lemma_lone_ray(p, b, i, j, 0, 1, max_steps(b));
}

/// A pawn's destinations are the cell ahead, the cell two ahead from its
/// starting rank only, and the two cells diagonally ahead. From the starting
/// rank, with both cells ahead on the board and empty, it has both forward
/// destinations.
pub proof fn lemma_pawn_forward(p: ChessPiece, b: Board, ps: Seq<ChessPiece>)
    requires
        p.piece_type == PieceType::PAWN,
    ensures
        ({
            let d = forward(p.color);
            let i = p.pos.i as int;
            let j = p.pos.j as int;
            forall|c: CellPosition|
                #[trigger] destinations(p, b, ps).contains(c) ==> c == cell_at(i, j + d) || (
                on_start_rank(p, b) && c == cell_at(i, j + 2 * d)) || c == cell_at(i + 1, j + d)
                    || c == cell_at(i - 1, j + d)
        }),
        ({
            let d = forward(p.color);
            let i = p.pos.i as int;
            let j = p.pos.j as int;
            on_start_rank(p, b) && b.in_range(i, j + d) && b.in_range(i, j + 2 * d) && vacant(
                ps,
                p.color,
                cell_at(i, j + d),
            ) && vacant(ps, p.color, cell_at(i, j + 2 * d)) ==> destinations(p, b, ps).contains(
                cell_at(i, j + d),
            ) && destinations(p, b, ps).contains(cell_at(i, j + 2 * d))
        }),
{
    let d = forward(p.color);
    let i = p.pos.i as int;
    let j = p.pos.j as int;
    let one = cell_at(i, j + d);
    let two = cell_at(i, j + 2 * d);
    let right = cell_at(i + 1, j + d);
    let left = cell_at(i - 1, j + d);
    let one_ok = b.in_range(i, j + d) && vacant(ps, p.color, one);
    let two_ok = on_start_rank(p, b) && one_ok && b.in_range(i, j + 2 * d) && vacant(ps, p.color, two);
    let right_ok = b.in_range(i + 1, j + d) && enemy_at(ps, p.color, right);
    let left_ok = b.in_range(i - 1, j + d) && enemy_at(ps, p.color, left);
    let all = destinations(p, b, ps);
    assert(all == when(one_ok, one) + when(two_ok, two) + when(right_ok, right) + when(left_ok, left));
    assert forall|c: CellPosition| #[trigger] all.contains(c) implies c == one || (on_start_rank(p, b) && c == two) || c == right || c == left by {
        let k = choose|k: int| 0 <= k < all.len() && all[k] == c;
    }
    if two_ok {
        assert(all[0] == one);
        assert(all[1] == two);
    }
}

/// Only the other side attacks: a cell is attacked for `defender` exactly
/// when a piece of `defender`'s opposite reaches it, so where that side has
/// no piece nothing is attacked for `defender`.
pub proof fn lemma_attacker_side(defender: ChessColor, c: CellPosition, ps: Seq<ChessPiece>, b: Board)
    ensures
        attacked(defender, c, ps, b) <==> exists|k: int|
            0 <= k < ps.len() && ps[k].color == defender.other() && #[trigger] reach(
                ps[k],
                b,
                ps,
            ).contains(c),
        (forall|k: int| 0 <= k < ps.len() ==> #[trigger] ps[k].color == defender) ==> !attacked(
            defender,
            c,
            ps,
            b,
        ),
{
    if attacked(defender, c, ps, b) {
        let k = choose|k: int| 0 <= k < ps.len() && ps[k].color != defender && #[trigger] reach(ps[k], b, ps).contains(c);
        assert(ps[k].color == defender.other());
    }
}

/// Whether `v` holds `c`.
pub fn cells_contain(v: &Vec<CellPosition>, c: &CellPosition) -> (r: bool)
    ensures
        r == v@.contains(*c),
{
    let mut k: usize = 0;
    while k < v.len()
        invariant
            k <= v.len(),
            forall|m: int| 0 <= m < k ==> v@[m] != *c,
        decreases v.len() - k,
    {
        if v[k] == *c {
            return true;
        }
        k = k + 1;
    }
    false
}

impl ChessPiece {
    /// The cells of the pieces of this piece's side and of the other side.
    fn split_pieces_by_color(&self, pieces: &Vec<ChessPiece>) -> (r: (CellSet, CellSet))
        ensures
            occupancy(set_cells(r.0), set_cells(r.1), pieces@, self.color),
    {
        let mut allies = CellSet::new();
        let mut enemies = CellSet::new();
        let mut k: usize = 0;
        while k < pieces.len()
            invariant
                k <= pieces.len(),
                occupancy(set_cells(allies), set_cells(enemies), pieces@.take(k as int), self.color),
            decreases pieces.len() - k,
        {
            let p = pieces[k];
            let ghost pre = pieces@.take(k as int);
            let ghost post = pieces@.take(k as int + 1);
            assert(post == pre.push(p));
            let ghost old_allies = set_cells(allies);
            let ghost old_enemies = set_cells(enemies);
            if self.color == p.color {
                allies.insert((p.pos.i, p.pos.j));
            } else {
                enemies.insert((p.pos.i, p.pos.j));
            }
            assert forall|c: CellPosition| ally_at(post, self.color, c) <==> (ally_at(pre, self.color, c) || (p.pos == c && p.color == self.color)) by {
                if ally_at(post, self.color, c) {
                    let m = choose|m: int| 0 <= m < post.len() && post[m].pos == c && post[m].color == self.color;
                    if m < k {
                        assert(pre[m] == post[m]);
                    }
                }
                if ally_at(pre, self.color, c) {
                    let m = choose|m: int| 0 <= m < pre.len() && pre[m].pos == c && pre[m].color == self.color;
                    assert(post[m] == pre[m]);
                }
                if p.pos == c && p.color == self.color {
                    assert(post[k as int] == p);
                }
            }
            assert forall|c: CellPosition| enemy_at(post, self.color, c) <==> (enemy_at(pre, self.color, c) || (p.pos == c && p.color != self.color)) by {
                if enemy_at(post, self.color, c) {
                    let m = choose|m: int| 0 <= m < post.len() && post[m].pos == c && post[m].color != self.color;
                    if m < k {
                        assert(pre[m] == post[m]);
                    }
                }
                if enemy_at(pre, self.color, c) {
                    let m = choose|m: int| 0 <= m < pre.len() && pre[m].pos == c && pre[m].color != self.color;
                    assert(post[m] == pre[m]);
                }
                if p.pos == c && p.color != self.color {
                    assert(post[k as int] == p);
                }
            }
            assert forall|c: CellPosition| #[trigger] set_cells(allies).contains((c.i, c.j)) <==> ally_at(post, self.color, c) by {
                assert(old_allies.contains((c.i, c.j)) <==> ally_at(pre, self.color, c));
                assert((c.i, c.j) == (p.pos.i, p.pos.j) <==> c == p.pos);
            }
            assert forall|c: CellPosition| #[trigger] set_cells(enemies).contains((c.i, c.j)) <==> enemy_at(post, self.color, c) by {
                assert(old_enemies.contains((c.i, c.j)) <==> enemy_at(pre, self.color, c));
                assert((c.i, c.j) == (p.pos.i, p.pos.j) <==> c == p.pos);
            }
            k = k + 1;
        }
        assert(pieces@.take(pieces.len() as int) == pieces@);
        (allies, enemies)
    }

    /// Walks the ray from this piece in direction `(di, dj)`.
    fn available_line_cells(
        &self,
        board: &Board,
        di: i8,
        dj: i8,
        ally_cells: &CellSet,
        enemy_cells: &CellSet,
        Ghost(ps): Ghost<Seq<ChessPiece>>,
    ) -> (r: Vec<CellPosition>)
        requires
            -1 <= di <= 1,
            -1 <= dj <= 1,
            occupancy(set_cells(*ally_cells), set_cells(*enemy_cells), ps, self.color),
        ensures
            r@ == line(*self, *board, ps, di as int, dj as int),
    {
        let mut out: Vec<CellPosition> = Vec::new();
        let first = board.first_element as i16;
        let last = board.last_element as i16;
        let mut left: i16 = if first <= last { last - first + 1 } else { 0 };
        let mut ci: i16 = self.pos.i as i16;
        let mut cj: i16 = self.pos.j as i16;
        let ghost whole = line(*self, *board, ps, di as int, dj as int);
        loop
            invariant
                -128 <= ci <= 127,
                -128 <= cj <= 127,
                0 <= left <= 256,
                -1 <= di <= 1,
                -1 <= dj <= 1,
                first == board.first_element,
                last == board.last_element,
                occupancy(set_cells(*ally_cells), set_cells(*enemy_cells), ps, self.color),
                whole == line(*self, *board, ps, di as int, dj as int),
                out@ + ray(*board, ps, self.color, ci as int, cj as int, di as int, dj as int, left as nat) == whole,
            decreases left,
        {
            let ghost rest = ray(*board, ps, self.color, ci as int, cj as int, di as int, dj as int, left as nat);
            if left == 0 {
                assert(out@ + rest == out@);
                return out;
            }
            let ni: i16 = ci + di as i16;
            let nj: i16 = cj + dj as i16;
            if ni < first || ni > last || nj < first || nj > last {
                assert(out@ + rest == out@);
                return out;
            }
            let c = CellPosition { i: ni as i8, j: nj as i8 };
            assert(c == cell_at(ni as int, nj as int));
            if ally_cells.contains((c.i, c.j)) {
                assert(out@ + rest == out@);
                return out;
            }
            if enemy_cells.contains((c.i, c.j)) {
                out.push(c);
                return out;
            }
            let ghost before = out@;
            out.push(c);
            assert(before + rest == out@ + ray(*board, ps, self.color, ni as int, nj as int, di as int, dj as int, (left - 1) as nat));
            ci = ni;
            cj = nj;
            left = left - 1;
        }
    }

    /// Rook moves, one ray after the other.
    fn available_cells_for_rook(
        &self,
        board: &Board,
        ally_cells: &CellSet,
        enemy_cells: &CellSet,
        Ghost(ps): Ghost<Seq<ChessPiece>>,
    ) -> (r: Vec<CellPosition>)
        requires
            occupancy(set_cells(*ally_cells), set_cells(*enemy_cells), ps, self.color),
        ensures
            r@ == rook_cells(*self, *board, ps),
    {
        let mut range_right = self.available_line_cells(board, 1, 0, ally_cells, enemy_cells, Ghost(ps));
        let mut range_left = self.available_line_cells(board, -1, 0, ally_cells, enemy_cells, Ghost(ps));
        let mut range_down = self.available_line_cells(board, 0, -1, ally_cells, enemy_cells, Ghost(ps));
        let mut range_up = self.available_line_cells(board, 0, 1, ally_cells, enemy_cells, Ghost(ps));
        range_right.append(&mut range_left);
        range_right.append(&mut range_down);
        range_right.append(&mut range_up);
        range_right
    }

    /// Bishop moves, one diagonal after the other.
    fn available_cells_for_bishop(
        &self,
        board: &Board,
        ally_cells: &CellSet,
        enemy_cells: &CellSet,
        Ghost(ps): Ghost<Seq<ChessPiece>>,
    ) -> (r: Vec<CellPosition>)
        requires
            occupancy(set_cells(*ally_cells), set_cells(*enemy_cells), ps, self.color),
        ensures
            r@ == bishop_cells(*self, *board, ps),
    {
        let mut range_top_right = self.available_line_cells(board, 1, 1, ally_cells, enemy_cells, Ghost(ps));
        let mut range_top_left = self.available_line_cells(board, -1, 1, ally_cells, enemy_cells, Ghost(ps));
        let mut range_down_right = self.available_line_cells(board, 1, -1, ally_cells, enemy_cells, Ghost(ps));
        let mut range_down_left = self.available_line_cells(board, -1, -1, ally_cells, enemy_cells, Ghost(ps));
        range_top_right.append(&mut range_top_left);
        range_top_right.append(&mut range_down_right);
        range_top_right.append(&mut range_down_left);
        range_top_right
    }

    /// Queen moves: the rook's, then the bishop's.
    fn available_cells_for_queen(
        &self,
        board: &Board,
        ally_cells: &CellSet,
        enemy_cells: &CellSet,
        Ghost(ps): Ghost<Seq<ChessPiece>>,
    ) -> (r: Vec<CellPosition>)
        requires
            occupancy(set_cells(*ally_cells), set_cells(*enemy_cells), ps, self.color),
        ensures
            r@ == queen_cells(*self, *board, ps),
    {
        let mut cells_for_rook = self.available_cells_for_rook(board, ally_cells, enemy_cells, Ghost(ps));
        let mut cells_for_bishop = self.available_cells_for_bishop(board, ally_cells, enemy_cells, Ghost(ps));
        cells_for_rook.append(&mut cells_for_bishop);
        cells_for_rook
    }

    /// Knight jumps that stay on the board and do not land on an ally.
    fn available_cells_for_knight(
        &self,
        board: &Board,
        ally_cells: &CellSet,
        Ghost(ps): Ghost<Seq<ChessPiece>>,
    ) -> (r: Vec<CellPosition>)
        requires
            forall|c: CellPosition| #[trigger] set_cells(*ally_cells).contains((c.i, c.j)) <==> ally_at(ps, self.color, c),
        ensures
            r@ == knight_cells(*self, *board, ps),
    {
        let mut out: Vec<CellPosition> = Vec::new();
        let mut k: usize = 0;
        while k < 8
            invariant
                k <= 8,
                forall|c: CellPosition| #[trigger] set_cells(*ally_cells).contains((c.i, c.j)) <==> ally_at(ps, self.color, c),
                out@ == knight_jumps(*self, *board, ps, k as int),
            decreases 8 - k,
        {
            let (di, dj) = knight_jump(k);
            let ni: i16 = self.pos.i as i16 + di as i16;
            let nj: i16 = self.pos.j as i16 + dj as i16;
            let first = board.first_element as i16;
            let last = board.last_element as i16;
            if first <= ni && ni <= last && first <= nj && nj <= last {
                let c = CellPosition { i: ni as i8, j: nj as i8 };
                assert(c == cell_at(ni as int, nj as int));
                if !ally_cells.contains((c.i, c.j)) {
                    out.push(c);
                }
            }
            k = k + 1;
        }
        out
    }

    /// Pawn moves: forward steps onto empty cells, diagonal steps onto
    /// pieces of the other side.
    fn available_cells_for_pawn(
        &self,
        board: &Board,
        ally_cells: &CellSet,
        enemy_cells: &CellSet,
        Ghost(ps): Ghost<Seq<ChessPiece>>,
    ) -> (r: Vec<CellPosition>)
        requires
            occupancy(set_cells(*ally_cells), set_cells(*enemy_cells), ps, self.color),
        ensures
            r@ == pawn_cells(*self, *board, ps),
    {
        let mut available_cells: Vec<CellPosition> = Vec::new();
        let first = board.first_element as i16;
        let last = board.last_element as i16;
        let i = self.pos.i as i16;
        let j = self.pos.j as i16;
        let is_first_move = (self.color == ChessColor::WHITE && j == first + 1) || (self.color
            == ChessColor::BLACK && j == last - 1);
        let direction_coefficient: i16 = match self.color {
            ChessColor::WHITE => 1,
            ChessColor::BLACK => -1,
        };
        let ghost d = forward(self.color);
        assert(direction_coefficient == d);
        assert(is_first_move == on_start_rank(*self, *board));
        let j1 = j + direction_coefficient;
        let j2 = j + 2 * direction_coefficient;
        let mut one_free = false;
        if first <= j1 && j1 <= last && first <= i && i <= last {
            let cell_1 = CellPosition { i: i as i8, j: j1 as i8 };
            assert(cell_1 == cell_at(i as int, j1 as int));
            if !ally_cells.contains((cell_1.i, cell_1.j)) && !enemy_cells.contains((cell_1.i, cell_1.j)) {
                one_free = true;
                available_cells.push(cell_1);
            }
        }
        let ghost s1 = available_cells@;
        if is_first_move && one_free && first <= j2 && j2 <= last {
            let cell_2 = CellPosition { i: i as i8, j: j2 as i8 };
            assert(cell_2 == cell_at(i as int, j2 as int));
            if !ally_cells.contains((cell_2.i, cell_2.j)) && !enemy_cells.contains((cell_2.i, cell_2.j)) {
                available_cells.push(cell_2);
            }
        }
        let ghost s2 = available_cells@;
        if first <= j1 && j1 <= last && first <= i + 1 && i + 1 <= last {
            let cell_enemy_right = CellPosition { i: (i + 1) as i8, j: j1 as i8 };
            assert(cell_enemy_right == cell_at(i + 1, j1 as int));
            if enemy_cells.contains((cell_enemy_right.i, cell_enemy_right.j)) {
                available_cells.push(cell_enemy_right);
            }
        }
        let ghost s3 = available_cells@;
        if first <= j1 && j1 <= last && first <= i - 1 && i - 1 <= last {
            let cell_enemy_left = CellPosition { i: (i - 1) as i8, j: j1 as i8 };
            assert(cell_enemy_left == cell_at(i - 1, j1 as int));
            if enemy_cells.contains((cell_enemy_left.i, cell_enemy_left.j)) {
                available_cells.push(cell_enemy_left);
            }
        }
        proof {
            let p = *self;
            let b = *board;
            let one = cell_at(i as int, j + d);
            let two = cell_at(i as int, j + 2 * d);
            let right = cell_at(i + 1, j + d);
            let left = cell_at(i - 1, j + d);
            let one_ok = b.in_range(i as int, j + d) && vacant(ps, p.color, one);
            assert(s1 == when(one_ok, one));
            let two_ok = on_start_rank(p, b) && one_ok && b.in_range(i as int, j + 2 * d) && vacant(ps, p.color, two);
            assert(s2 == when(one_ok, one) + when(two_ok, two));
            let right_ok = b.in_range(i + 1, j + d) && enemy_at(ps, p.color, right);
            assert(s3 == when(one_ok, one) + when(two_ok, two) + when(right_ok, right));
        }
        available_cells
    }

    /// The king's one-step moves, before any attack filter.
    fn king_step_cells(&self, board: &Board, ally_cells: &CellSet, enemy_cells: &CellSet, Ghost(ps): Ghost<Seq<ChessPiece>>) -> (r: Vec<CellPosition>)
        requires
            occupancy(set_cells(*ally_cells), set_cells(*enemy_cells), ps, self.color),
        ensures
            r@ == king_step_cells(*self, *board, ps),
    {
        let cells = self.available_cells_for_queen(board, ally_cells, enemy_cells, Ghost(ps));
        let mut out: Vec<CellPosition> = Vec::new();
        let i = self.pos.i as i16;
        let j = self.pos.j as i16;
        let mut k: usize = 0;
        while k < cells.len()
            invariant
                k <= cells.len(),
                i == self.pos.i,
                j == self.pos.j,
                out@ == cells@.take(k as int).filter(near(self.pos)),
            decreases cells.len() - k,
        {
            let c = cells[k];
            assert(cells@.take(k as int + 1).drop_last() == cells@.take(k as int));
            let ci = c.i as i16;
            let cj = c.j as i16;
            let ghost pre = out@;
            let ghost next = cells@.take(k as int + 1);
            assert(next == cells@.take(k as int).push(c));
            proof {
                cells@.take(k as int).lemma_filter_push(c, near(self.pos));
            }
            if i - 1 <= ci && ci <= i + 1 && j - 1 <= cj && cj <= j + 1 {
                assert(near(self.pos)(c));
                out.push(c);
                assert(out@ == pre.push(c));
            } else {
                assert(!near(self.pos)(c));
            }
            assert(out@ == next.filter(near(self.pos)));
            k = k + 1;
        }
        assert(cells@.take(cells.len() as int) == cells@);
        out
    }

    /// The cells that this piece reaches by its movement pattern; for a king,
    /// without looking at attacks.
    fn reachable_cells(&self, board: &Board, pieces: &Vec<ChessPiece>) -> (r: Vec<CellPosition>)
        ensures
            r@ == reach(*self, *board, pieces@),
    {
        let (ally_cells, enemy_cells) = self.split_pieces_by_color(pieces);
        let ghost ps = pieces@;
        match self.piece_type {
            PieceType::PAWN => self.available_cells_for_pawn(board, &ally_cells, &enemy_cells, Ghost(ps)),
            PieceType::ROOK => self.available_cells_for_rook(board, &ally_cells, &enemy_cells, Ghost(ps)),
            PieceType::BISHOP => self.available_cells_for_bishop(board, &ally_cells, &enemy_cells, Ghost(ps)),
            PieceType::KNIGHT => self.available_cells_for_knight(board, &ally_cells, Ghost(ps)),
            PieceType::QUEEN => self.available_cells_for_queen(board, &ally_cells, &enemy_cells, Ghost(ps)),
            PieceType::KING => self.king_step_cells(board, &ally_cells, &enemy_cells, Ghost(ps)),
        }
    }

    /// Whether some piece of the side other than `color` reaches `cell`; an
    /// attacking king counts with its one-step moves, unfiltered.
    pub fn is_cell_on_enemy_path(
        color: &ChessColor,
        cell_position: &CellPosition,
        pieces: &Vec<ChessPiece>,
        board: &Board,
    ) -> (r: bool)
        ensures
            r == attacked(*color, *cell_position, pieces@, *board),
    {
        let mut k: usize = 0;
        while k < pieces.len()
            invariant
                k <= pieces.len(),
                forall|m: int| 0 <= m < k && pieces@[m].color != *color ==> !reach(pieces@[m], *board, pieces@).contains(*cell_position),
            decreases pieces.len() - k,
        {
            let enemy_piece = pieces[k];
            if enemy_piece.color != *color {
                let cells = enemy_piece.reachable_cells(board, pieces);
                if cells_contain(&cells, cell_position) {
                    assert(reach(pieces@[k as int], *board, pieces@).contains(*cell_position));
                    return true;
                }
            }
            k = k + 1;
        }
        false
    }

    /// King moves: one step in any direction onto a cell that is not an
    /// ally's and, unless `skip_check_enemy_king_state`, that the other side
    /// does not attack.
    pub fn available_cells_for_king(
        &self,
        board: &Board,
        pieces: &Vec<ChessPiece>,
        skip_check_enemy_king_state: bool,
    ) -> (r: Vec<CellPosition>)
        ensures
            skip_check_enemy_king_state ==> r@ == king_step_cells(*self, *board, pieces@),
            !skip_check_enemy_king_state ==> r@ == king_step_cells(*self, *board, pieces@).filter(
                safe_for(self.color, pieces@, *board),
            ),
    {
        let (ally_cells, enemy_cells) = self.split_pieces_by_color(pieces);
        let cells = self.king_step_cells(board, &ally_cells, &enemy_cells, Ghost(pieces@));
        if skip_check_enemy_king_state {
            return cells;
        }
        let ghost safe = safe_for(self.color, pieces@, *board);
        let mut out: Vec<CellPosition> = Vec::new();
        let mut k: usize = 0;
        while k < cells.len()
            invariant
                k <= cells.len(),
                safe == safe_for(self.color, pieces@, *board),
                out@ == cells@.take(k as int).filter(safe),
            decreases cells.len() - k,
        {
            let c = cells[k];
            assert(cells@.take(k as int + 1).drop_last() == cells@.take(k as int));
            let ghost pre = out@;
            let ghost next = cells@.take(k as int + 1);
            assert(next == cells@.take(k as int).push(c));
            proof {
                cells@.take(k as int).lemma_filter_push(c, safe);
            }
            if !ChessPiece::is_cell_on_enemy_path(&self.color, &c, pieces, board) {
                assert(safe(c));
                out.push(c);
                assert(out@ == pre.push(c));
            } else {
                assert(!safe(c));
            }
            assert(out@ == next.filter(safe));
            k = k + 1;
        }
        assert(cells@.take(cells.len() as int) == cells@);
        out
    }

    /// The destinations of this piece on `board` among `pieces`. Other
    /// pieces' moves are pseudo-legal: they may leave their own king in
    /// check. A king's exclude the cells that the other side attacks.
    pub fn get_available_cells_for_move(&self, board: &Board, pieces: &Vec<ChessPiece>) -> (r: Vec<
        CellPosition,
    >)
        ensures
            r@ == destinations(*self, *board, pieces@),
    {
        match self.piece_type {
            PieceType::KING => self.available_cells_for_king(board, pieces, false),
            _ => self.reachable_cells(board, pieces),
        }
    }
}

} // verus!
