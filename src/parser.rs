use vstd::prelude::*;

use crate::game::{distinct_cells, find_piece_on, first_on, piece_on};
use crate::model::{cell_at, Board, CellPosition, ChessColor, ChessPiece, PieceType};

verus! {

/// A white-space character in Unicode's sense (the `White_Space` property).
pub open spec fn is_space(c: char) -> bool {
    let u = c as u32;
    ||| 0x9 <= u <= 0xd
    ||| u == 0x20
    ||| u == 0x85
    ||| u == 0xa0
    ||| u == 0x1680
    ||| 0x2000 <= u <= 0x200a
    ||| u == 0x2028
    ||| u == 0x2029
    ||| u == 0x202f
    ||| u == 0x205f
    ||| u == 0x3000
}

/// Text that is empty or all white space.
pub open spec fn blank(t: Seq<char>) -> bool {
    forall|k: int| 0 <= k < t.len() ==> is_space(#[trigger] t[k])
}

/// Reading `s` left to right, split at `sep`: the finished non-blank fields
/// and the field still open.
pub open spec fn split_state(s: Seq<char>, sep: char) -> (Seq<Seq<char>>, Seq<char>)
    decreases s.len(),
{
    if s.len() == 0 {
        (Seq::empty(), Seq::empty())
    } else {
        let (done, cur) = split_state(s.drop_last(), sep);
        if s.last() == sep {
            (if blank(cur) { done } else { done.push(cur) }, Seq::empty())
        } else {
            (done, cur.push(s.last()))
        }
    }
}

/// The parts of `s` between occurrences of `sep`, blank parts left out.
pub open spec fn fields(s: Seq<char>, sep: char) -> Seq<Seq<char>> {
    let (done, cur) = split_state(s, sep);
    if blank(cur) {
        done
    } else {
        done.push(cur)
    }
}

pub open spec fn views(v: Seq<Vec<char>>) -> Seq<Seq<char>> {
    v.map_values(|x: Vec<char>| x@)
}

fn is_space_char(c: char) -> (r: bool)
    ensures
        r == is_space(c),
{
    let u = c as u32;
    (0x9 <= u && u <= 0xd) || u == 0x20 || u == 0x85 || u == 0xa0 || u == 0x1680 || (0x2000 <= u
        && u <= 0x200a) || u == 0x2028 || u == 0x2029 || u == 0x202f || u == 0x205f || u == 0x3000
}

fn is_blank(t: &Vec<char>) -> (r: bool)
    ensures
        r == blank(t@),
{
    let mut k: usize = 0;
    while k < t.len()
        invariant
            k <= t.len(),
            forall|m: int| 0 <= m < k ==> is_space(#[trigger] t@[m]),
        decreases t.len() - k,
    {
        if !is_space_char(t[k]) {
            return false;
        }
        k = k + 1;
    }
    true
}

/// The characters of `s`.
fn to_chars(s: &str) -> (r: Vec<char>)
    ensures
        r@ == s@,
{
    let n = s.unicode_len();
    let mut out: Vec<char> = Vec::new();
    let mut k: usize = 0;
    while k < n
        invariant
            n == s@.len(),
            k <= n,
            out@ == s@.take(k as int),
        decreases n - k,
    {
        out.push(s.get_char(k));
        assert(s@.take(k as int + 1) == s@.take(k as int).push(s@[k as int]));
        k = k + 1;
    }
    assert(s@.take(n as int) == s@);
    out
}

/// Splits `text` at `sep` into its non-blank fields.
fn split_fields(text: &Vec<char>, sep: char) -> (r: Vec<Vec<char>>)
    ensures
        views(r@) == fields(text@, sep),
{
    let mut done: Vec<Vec<char>> = Vec::new();
    let mut cur: Vec<char> = Vec::new();
    let mut k: usize = 0;
    while k < text.len()
        invariant
            k <= text.len(),
            (views(done@), cur@) == split_state(text@.take(k as int), sep),
        decreases text.len() - k,
    {
        let c = text[k];
        assert(text@.take(k as int + 1).drop_last() == text@.take(k as int));
        let ghost old_done = done@;
        if c == sep {
            if !is_blank(&cur) {
                done.push(cur);
                assert(views(done@) == views(old_done).push(done@.last()@));
            }
            cur = Vec::new();
        } else {
            cur.push(c);
        }
        k = k + 1;
    }
    assert(text@.take(text.len() as int) == text@);
    let ghost old_done = done@;
    if !is_blank(&cur) {
        done.push(cur);
        assert(views(done@) == views(old_done).push(done@.last()@));
    }
    done
}

/// The letter that stands for a side.
pub open spec fn color_letter(c: ChessColor) -> char {
    match c {
        ChessColor::WHITE => 'w',
        ChessColor::BLACK => 'b',
    }
}

/// The two letters that stand for a kind of piece.
pub open spec fn kind_letters(t: PieceType) -> Seq<char> {
    match t {
        PieceType::PAWN => seq!['p', 'a'],
        PieceType::ROOK => seq!['r', 'o'],
        PieceType::KNIGHT => seq!['k', 'n'],
        PieceType::BISHOP => seq!['b', 'i'],
        PieceType::KING => seq!['k', 'i'],
        PieceType::QUEEN => seq!['q', 'u'],
    }
}

/// The symbol of a piece: side letter, `_`, kind letters.
pub open spec fn symbol_of(c: ChessColor, t: PieceType) -> Seq<char> {
    seq![color_letter(c), '_'] + kind_letters(t)
}

/// The symbol of an empty cell.
pub open spec fn none_symbol() -> Seq<char> {
    seq!['n', 'o', 'n', 'e']
}

pub open spec fn color_of_letter(c: char) -> Option<ChessColor> {
    if c == 'w' {
        Some(ChessColor::WHITE)
    } else if c == 'b' {
        Some(ChessColor::BLACK)
    } else {
        None
    }
}

pub open spec fn kind_of_letters(a: char, b: char) -> Option<PieceType> {
    if a == 'p' && b == 'a' {
        Some(PieceType::PAWN)
    } else if a == 'r' && b == 'o' {
        Some(PieceType::ROOK)
    } else if a == 'k' && b == 'n' {
        Some(PieceType::KNIGHT)
    } else if a == 'b' && b == 'i' {
        Some(PieceType::BISHOP)
    } else if a == 'k' && b == 'i' {
        Some(PieceType::KING)
    } else if a == 'q' && b == 'u' {
        Some(PieceType::QUEEN)
    } else {
        None
    }
}

/// What a symbol stands for; `None` for `none` and for anything that is not
/// a piece's symbol.
pub open spec fn symbol_meaning(t: Seq<char>) -> Option<(ChessColor, PieceType)> {
    if t.len() == 4 && t[1] == '_' {
        match (color_of_letter(t[0]), kind_of_letters(t[2], t[3])) {
            (Some(c), Some(k)) => Some((c, k)),
            _ => None,
        }
    } else {
        None
    }
}

/// The piece that symbol `t` puts on file `i`, rank `j`.
pub open spec fn piece_of_symbol(t: Seq<char>, i: int, j: int) -> Option<ChessPiece> {
    match symbol_meaning(t) {
        Some((c, k)) => Some(
            ChessPiece { pos: CellPosition { i: i as i8, j: j as i8 }, color: c, piece_type: k },
        ),
        None => None,
    }
}

/// The cells of one line of the grid, on rank `j`, by increasing file.
pub open spec fn row_pieces(line: Seq<char>, j: int) -> Seq<Option<ChessPiece>> {
    let symbols = fields(line, '|');
    Seq::new(symbols.len(), |i: int| piece_of_symbol(symbols[i], i, j))
}

/// The cells of the lowest `n` ranks, rank by rank; the last of `lines` is
/// rank 0.
pub open spec fn decode_rows(lines: Seq<Seq<char>>, n: int) -> Seq<Option<ChessPiece>>
    decreases n,
{
    if n <= 0 {
        Seq::empty()
    } else {
        decode_rows(lines, n - 1) + row_pieces(lines[lines.len() - n], n - 1)
    }
}

/// What a grid text decodes to: one entry per symbol, rank 0 first.
pub open spec fn decoded(text: Seq<char>) -> Seq<Option<ChessPiece>> {
    let lines = fields(text, '\n');
    decode_rows(lines, lines.len() as int)
}

/// The symbol written for the cell at file `i`, rank `j`: that of the first
/// piece on it, or `none`.
pub open spec fn cell_symbol(ps: Seq<ChessPiece>, i: int, j: int) -> Seq<char> {
    match piece_on(ps, cell_at(i, j)) {
        Some(p) => symbol_of(p.color, p.piece_type),
        None => none_symbol(),
    }
}

/// The symbols of rank `j` for the files below `i`, each followed by `|`.
pub open spec fn row_cells(ps: Seq<ChessPiece>, b: Board, j: int, i: int) -> Seq<char>
    decreases i - b.first_element,
{
    if i <= b.first_element {
        Seq::empty()
    } else {
        row_cells(ps, b, j, i - 1) + cell_symbol(ps, i - 1, j) + seq!['|']
    }
}

/// The line of rank `j`.
pub open spec fn row_text(ps: Seq<ChessPiece>, b: Board, j: int) -> Seq<char> {
    seq!['|'] + row_cells(ps, b, j, b.last_element + 1) + seq!['\n']
}

/// The lines of the ranks from the highest down to `j`.
pub open spec fn rows_from(ps: Seq<ChessPiece>, b: Board, j: int) -> Seq<char>
    decreases b.last_element - j + 1,
{
    if j > b.last_element {
        Seq::empty()
    } else {
        rows_from(ps, b, j + 1) + row_text(ps, b, j)
    }
}

/// The grid text of `ps` on board `b`.
pub open spec fn encoded(ps: Seq<ChessPiece>, b: Board) -> Seq<char> {
    rows_from(ps, b, b.first_element as int)
}

fn color_symbol(c: ChessColor) -> (r: &'static str)
    ensures
        r@ == seq![color_letter(c)],
{
    match c {
        ChessColor::WHITE => {
            proof {
                reveal_strlit("w");
            }
            assert("w"@ =~= seq!['w']);
            "w"
        },
        ChessColor::BLACK => {
            proof {
                reveal_strlit("b");
            }
            assert("b"@ =~= seq!['b']);
            "b"
        },
    }
}

fn type_symbol(t: PieceType) -> (r: &'static str)
    ensures
        r@ == kind_letters(t),
{
    match t {
        PieceType::PAWN => {
            proof {
                reveal_strlit("pa");
            }
            assert("pa"@ =~= seq!['p', 'a']);
            "pa"
        },
        PieceType::ROOK => {
            proof {
                reveal_strlit("ro");
            }
            assert("ro"@ =~= seq!['r', 'o']);
            "ro"
        },
        PieceType::KNIGHT => {
            proof {
                reveal_strlit("kn");
            }
            assert("kn"@ =~= seq!['k', 'n']);
            "kn"
        },
        PieceType::BISHOP => {
            proof {
                reveal_strlit("bi");
            }
            assert("bi"@ =~= seq!['b', 'i']);
            "bi"
        },
        PieceType::KING => {
            proof {
                reveal_strlit("ki");
            }
            assert("ki"@ =~= seq!['k', 'i']);
            "ki"
        },
        PieceType::QUEEN => {
            proof {
                reveal_strlit("qu");
            }
            assert("qu"@ =~= seq!['q', 'u']);
            "qu"
        },
    }
}

/// Appends the symbol of `piece`, or `none`.
fn push_symbol(out: &mut String, piece: Option<ChessPiece>)
    ensures
        final(out)@ == old(out)@ + match piece {
            Some(p) => symbol_of(p.color, p.piece_type),
            None => none_symbol(),
        },
{
    match piece {
        Some(p) => {
            proof {
                reveal_strlit("_");
            }
            assert("_"@ =~= seq!['_']);
            out.append(color_symbol(p.color));
            out.append("_");
            out.append(type_symbol(p.piece_type));
            assert(out@ =~= old(out)@ + symbol_of(p.color, p.piece_type));
        },
        None => {
            proof {
                reveal_strlit("none");
            }
            assert("none"@ =~= none_symbol());
            out.append("none");
        },
    }
}

fn color_of_char(c: char) -> (r: Option<ChessColor>)
    ensures
        r == color_of_letter(c),
{
    if c == 'w' {
        Some(ChessColor::WHITE)
    } else if c == 'b' {
        Some(ChessColor::BLACK)
    } else {
        None
    }
}

fn kind_of_chars(a: char, b: char) -> (r: Option<PieceType>)
    ensures
        r == kind_of_letters(a, b),
{
    if a == 'p' && b == 'a' {
        Some(PieceType::PAWN)
    } else if a == 'r' && b == 'o' {
        Some(PieceType::ROOK)
    } else if a == 'k' && b == 'n' {
        Some(PieceType::KNIGHT)
    } else if a == 'b' && b == 'i' {
        Some(PieceType::BISHOP)
    } else if a == 'k' && b == 'i' {
        Some(PieceType::KING)
    } else if a == 'q' && b == 'u' {
        Some(PieceType::QUEEN)
    } else {
        None
    }
}

/// What the symbol `t` stands for.
fn mappings(t: &Vec<char>) -> (r: Option<(ChessColor, PieceType)>)
    ensures
        r == symbol_meaning(t@),
{
    if t.len() == 4 && t[1] == '_' {
        match (color_of_char(t[0]), kind_of_chars(t[2], t[3])) {
            (Some(c), Some(k)) => Some((c, k)),
            _ => None,
        }
    } else {
        None
    }
}

fn piece_from_chars(symbol: &Vec<char>, i: usize, j: usize) -> (r: Option<ChessPiece>)
    ensures
        r == piece_of_symbol(symbol@, i as int, j as int),
{
    match mappings(symbol) {
        Some((color, piece_type)) => Some(ChessPiece::new(i as i8, j as i8, color, piece_type)),
        None => None,
    }
}

/// The grid encoding of positions: one line per rank, highest rank first,
/// each `|`-delimited with one symbol per file (`none` or side and kind,
/// such as `w_pa`).
pub struct PieceParser;

impl PieceParser {
    /// The grid of the standard starting position.
    pub fn default_tile_map() -> (r: String)
        ensures
            r@ == "|b_ro|b_kn|b_bi|b_ki|b_qu|b_bi|b_kn|b_ro|\n
                            |b_pa|b_pa|b_pa|b_pa|b_pa|b_pa|b_pa|b_pa|\n
                            |none|none|none|none|none|none|none|none|\n
                            |none|none|none|none|none|none|none|none|\n
                            |none|none|none|none|none|none|none|none|\n
                            |none|none|none|none|none|none|none|none|\n
                            |w_pa|w_pa|w_pa|w_pa|w_pa|w_pa|w_pa|w_pa|\n
                            |w_ro|w_kn|w_bi|w_ki|w_qu|w_bi|w_kn|w_ro|\n
                            "@,
    {
        let string = "|b_ro|b_kn|b_bi|b_ki|b_qu|b_bi|b_kn|b_ro|\n
                            |b_pa|b_pa|b_pa|b_pa|b_pa|b_pa|b_pa|b_pa|\n
                            |none|none|none|none|none|none|none|none|\n
                            |none|none|none|none|none|none|none|none|\n
                            |none|none|none|none|none|none|none|none|\n
                            |none|none|none|none|none|none|none|none|\n
                            |w_pa|w_pa|w_pa|w_pa|w_pa|w_pa|w_pa|w_pa|\n
                            |w_ro|w_kn|w_bi|w_ki|w_qu|w_bi|w_kn|w_ro|\n
                            ";
        String::from_str(string)
    }

    /// A grid with the back ranks only, without the king-side pieces.
    pub fn test_tile_map() -> (r: String)
        ensures
            r@ == "|b_ro|b_kn|b_bi|b_ki|b_qu|none|none|none|\n
                            |none|none|none|none|none|none|none|none|\n
                            |none|none|none|none|none|none|none|none|\n
                            |none|none|none|none|none|none|none|none|\n
                            |none|none|none|none|none|none|none|none|\n
                            |none|none|none|none|none|none|none|none|\n
                            |none|none|none|none|none|none|none|none|\n
                            |w_ro|w_kn|w_bi|w_ki|w_qu|none|none|none|\n
                            "@,
    {
        let string = "|b_ro|b_kn|b_bi|b_ki|b_qu|none|none|none|\n
                            |none|none|none|none|none|none|none|none|\n
                            |none|none|none|none|none|none|none|none|\n
                            |none|none|none|none|none|none|none|none|\n
                            |none|none|none|none|none|none|none|none|\n
                            |none|none|none|none|none|none|none|none|\n
                            |none|none|none|none|none|none|none|none|\n
                            |w_ro|w_kn|w_bi|w_ki|w_qu|none|none|none|\n
                            ";
        String::from_str(string)
    }

    /// The piece that `symbol` puts on file `i`, rank `j`; `None` for
    /// `none` and for unknown symbols.
    pub fn parse_piece(symbol: &str, i: usize, j: usize) -> (r: Option<ChessPiece>)
        ensures
            r == piece_of_symbol(symbol@, i as int, j as int),
    {
        let chars = to_chars(symbol);
        piece_from_chars(&chars, i, j)
    }

    /// Decodes a grid: the lines that are not blank, the last as rank 0;
    /// in each, the `|`-delimited symbols that are not blank, the first as
    /// file 0. One entry per symbol, rank by rank; unknown symbols decode as
    /// empty cells.
    pub fn parse_tile_map(map: String) -> (r: Vec<Option<ChessPiece>>)
        ensures
            r@ == decoded(map@),
    {
        let chars = to_chars(map.as_str());
        let lines = split_fields(&chars, '\n');
        let ghost ls = views(lines@);
        let n = lines.len();
        let mut out: Vec<Option<ChessPiece>> = Vec::new();
        let mut j: usize = 0;
        while j < n
            invariant
                n == lines.len(),
                ls == views(lines@),
                ls == fields(chars@, '\n'),
                j <= n,
                out@ == decode_rows(ls, j as int),
            decreases n - j,
        {
            let line = &lines[n - 1 - j];
            assert(line@ == ls[n - (j + 1)]);
            let symbols = split_fields(line, '|');
            let ghost row = row_pieces(line@, j as int);
            let ghost start = out@;
            let mut i: usize = 0;
            while i < symbols.len()
                invariant
                    i <= symbols.len(),
                    views(symbols@) == fields(line@, '|'),
                    row == row_pieces(line@, j as int),
                    out@ == start + row.take(i as int),
                decreases symbols.len() - i,
            {
                let p = piece_from_chars(&symbols[i], i, j);
                assert(symbols@[i as int]@ == views(symbols@)[i as int]);
                assert(row.take(i as int + 1) == row.take(i as int).push(p));
                out.push(p);
                i = i + 1;
            }
            assert(row.take(symbols.len() as int) == row);
            j = j + 1;
        }
        out
    }

    /// Encodes `tiles` as a grid: for each rank from the highest down, a line
    /// `|` followed by, for each file from the lowest up, the symbol of the
    /// first piece on the cell (or `none`) and `|`, then a line break.
    pub fn save_tile_map(tiles: &Vec<ChessPiece>, board: &Board) -> (r: String)
        ensures
            r@ == encoded(tiles@, *board),
    {
        let ghost ps = tiles@;
        let ghost b = *board;
        proof {
            reveal_strlit("|");
            reveal_strlit("\n");
        }
        assert("|"@ =~= seq!['|']);
        assert("\n"@ =~= seq!['\n']);
        let first = board.first_element as i16;
        let last = board.last_element as i16;
        let mut out = String::new();
        let mut j: i16 = last;
        while j >= first
            invariant
                first == b.first_element,
                last == b.last_element,
                b == *board,
                ps == tiles@,
                "|"@ == seq!['|'],
                "\n"@ == seq!['\n'],
                (first - 1 <= j <= last) || (j == last && last < first),
                out@ == rows_from(ps, b, j + 1),
            decreases j - first + 1,
        {
            let ghost upper = out@;
            out.append("|");
            let mut i: i16 = first;
            while i <= last
                invariant
                    first == b.first_element,
                    last == b.last_element,
                    b == *board,
                    ps == tiles@,
                    "|"@ == seq!['|'],
                    first <= j <= last,
                    first <= i <= last + 1,
                    out@ == upper + seq!['|'] + row_cells(ps, b, j as int, i as int),
                decreases last - i + 1,
            {
                let cell = CellPosition { i: i as i8, j: j as i8 };
                assert(cell == cell_at(i as int, j as int));
                let piece = find_piece_on(tiles, &cell);
                push_symbol(&mut out, piece);
                out.append("|");
                assert(out@ =~= upper + seq!['|'] + row_cells(ps, b, j as int, i + 1));
                i = i + 1;
            }
            out.append("\n");
            assert(out@ =~= rows_from(ps, b, j as int));
            j = j - 1;
        }
        out
    }
}

/// Text without `sep` only extends the open field.
proof fn lemma_split_extend(s: Seq<char>, t: Seq<char>, sep: char)
    requires
        forall|k: int| 0 <= k < t.len() ==> t[k] != sep,
    ensures
        split_state(s + t, sep) == (split_state(s, sep).0, split_state(s, sep).1 + t),
    decreases t.len(),
{
    if t.len() == 0 {
        assert(s + t =~= s);
        assert(split_state(s, sep).1 + t =~= split_state(s, sep).1);
    } else {
        lemma_split_extend(s, t.drop_last(), sep);
        assert((s + t).drop_last() =~= s + t.drop_last());
        assert((split_state(s, sep).1 + t.drop_last()).push(t.last()) =~= split_state(s, sep).1 + t);
    }
}

/// A non-blank field `t` followed by `sep`, read where no field is open,
/// is added to the finished fields.
proof fn lemma_split_close(s: Seq<char>, t: Seq<char>, sep: char)
    requires
        forall|k: int| 0 <= k < t.len() ==> t[k] != sep,
        split_state(s, sep).1 == Seq::<char>::empty(),
        !blank(t),
    ensures
        split_state(s + t + seq![sep], sep) == (split_state(s, sep).0.push(t), Seq::<char>::empty()),
{
    lemma_split_extend(s, t, sep);
    assert((s + t + seq![sep]).drop_last() =~= s + t);
    assert(Seq::<char>::empty() + t =~= t);
}

/// The symbol written for a cell holds no separator, is not blank, and
/// reads back as the first piece on the cell.
proof fn lemma_cell_symbol(ps: Seq<ChessPiece>, i: int, j: int)
    requires
        i8::MIN <= i <= i8::MAX,
        i8::MIN <= j <= i8::MAX,
    ensures
        forall|k: int|
            0 <= k < cell_symbol(ps, i, j).len() ==> #[trigger] cell_symbol(ps, i, j)[k] != '|'
                && cell_symbol(ps, i, j)[k] != '\n',
        !blank(cell_symbol(ps, i, j)),
        piece_of_symbol(cell_symbol(ps, i, j), i, j) == piece_on(ps, cell_at(i, j)),
{
    let sym = cell_symbol(ps, i, j);
    match piece_on(ps, cell_at(i, j)) {
        Some(p) => {
            let k = choose|k: int| first_on(ps, cell_at(i, j), k);
            assert(p.pos == cell_at(i, j));
            assert(sym.len() == 4);
            assert(!is_space(sym[0]));
            match p.piece_type {
                PieceType::PAWN => {},
                PieceType::ROOK => {},
                PieceType::KNIGHT => {},
                PieceType::BISHOP => {},
                PieceType::KING => {},
                PieceType::QUEEN => {},
            }
            assert(symbol_meaning(sym) == Some((p.color, p.piece_type)));
        },
        None => {
            assert(sym =~= none_symbol());
            assert(!is_space(sym[0]));
        },
    }
}

/// The content of the line of rank `j`, without its line break.
pub open spec fn line_of(ps: Seq<ChessPiece>, b: Board, j: int) -> Seq<char> {
    seq!['|'] + row_cells(ps, b, j, b.last_element + 1)
}

/// Reading a line up to file `i` gives the symbols of the files below `i`.
proof fn lemma_row_fields(ps: Seq<ChessPiece>, b: Board, j: int, i: int)
    requires
        b.first_element == 0,
        0 <= i <= b.last_element + 1,
        0 <= j <= b.last_element,
    ensures
        split_state(seq!['|'] + row_cells(ps, b, j, i), '|') == (
            Seq::new(i as nat, |m: int| cell_symbol(ps, m, j)),
            Seq::<char>::empty(),
        ),
        forall|k: int| 0 <= k < row_cells(ps, b, j, i).len() ==> #[trigger] row_cells(ps, b, j, i)[k] != '\n',
    decreases i,
{
    if i == 0 {
        assert(seq!['|'] + row_cells(ps, b, j, i) =~= seq!['|']);
        let bar = seq!['|'];
        assert(bar.drop_last() =~= Seq::<char>::empty());
        assert(split_state(bar.drop_last(), '|') == (Seq::<Seq<char>>::empty(), Seq::<char>::empty()));
        assert(blank(Seq::<char>::empty()));
        assert(split_state(bar, '|') == (Seq::<Seq<char>>::empty(), Seq::<char>::empty()));
        assert(Seq::new(0, |m: int| cell_symbol(ps, m, j)) =~= Seq::<Seq<char>>::empty());
    } else {
        lemma_row_fields(ps, b, j, i - 1);
        lemma_cell_symbol(ps, i - 1, j);
        let x = seq!['|'] + row_cells(ps, b, j, i - 1);
        let sym = cell_symbol(ps, i - 1, j);
        assert(seq!['|'] + row_cells(ps, b, j, i) =~= x + sym + seq!['|']);
        lemma_split_close(x, sym, '|');
        assert(Seq::new((i - 1) as nat, |m: int| cell_symbol(ps, m, j)).push(sym) =~= Seq::new(
            i as nat,
            |m: int| cell_symbol(ps, m, j),
        ));
        let r = row_cells(ps, b, j, i);
        assert forall|k: int| 0 <= k < r.len() implies #[trigger] r[k] != '\n' by {
            let prev = row_cells(ps, b, j, i - 1);
            if k < prev.len() {
                assert(r[k] == prev[k]);
            } else if k < prev.len() + sym.len() {
                assert(r[k] == sym[k - prev.len()]);
            }
        }
    }
}

/// The lines of a board whose coordinates start at 0, highest rank first.
pub open spec fn grid_lines(ps: Seq<ChessPiece>, b: Board) -> Seq<Seq<char>> {
    Seq::new(b.width() as nat, |m: int| line_of(ps, b, b.last_element - m))
}

/// Reading the lines of the ranks from the highest down to `j`.
proof fn lemma_rows_split(ps: Seq<ChessPiece>, b: Board, j: int)
    requires
        b.first_element == 0,
        0 <= j <= b.last_element + 1,
    ensures
        split_state(rows_from(ps, b, j), '\n') == (
            Seq::new((b.last_element + 1 - j) as nat, |m: int| line_of(ps, b, b.last_element - m)),
            Seq::<char>::empty(),
        ),
    decreases b.last_element + 1 - j,
{
    if j > b.last_element {
        assert(Seq::new(0, |m: int| line_of(ps, b, b.last_element - m)) =~= Seq::<Seq<char>>::empty());
    } else {
        lemma_rows_split(ps, b, j + 1);
        lemma_row_fields(ps, b, j, b.last_element + 1);
        let line = line_of(ps, b, j);
        let cells = row_cells(ps, b, j, b.last_element + 1);
        assert forall|k: int| 0 <= k < line.len() implies line[k] != '\n' by {
            if k > 0 {
                assert(line[k] == cells[k - 1]);
            }
        }
        assert(!is_space(line[0]));
        assert(rows_from(ps, b, j) =~= rows_from(ps, b, j + 1) + line + seq!['\n']);
        lemma_split_close(rows_from(ps, b, j + 1), line, '\n');
        assert(Seq::new((b.last_element - j) as nat, |m: int| line_of(ps, b, b.last_element - m)).push(line)
            =~= Seq::new((b.last_element + 1 - j) as nat, |m: int| line_of(ps, b, b.last_element - m)));
    }
}

/// The entries decoded from the lowest `n` lines of the grid.
proof fn lemma_decode_rows(ps: Seq<ChessPiece>, b: Board, n: int)
    requires
        b.first_element == 0,
        0 <= b.last_element,
        0 <= n <= b.width(),
    ensures
        decode_rows(grid_lines(ps, b), n).len() == n * b.width(),
        forall|i: int, j: int|
            0 <= i < b.width() && 0 <= j < n ==> decode_rows(grid_lines(ps, b), n)[j * b.width() + i]
                == #[trigger] piece_on(ps, cell_at(i, j)),
    decreases n,
{
    let w = b.width();
    let lines = grid_lines(ps, b);
    if n > 0 {
        lemma_decode_rows(ps, b, n - 1);
        let line = lines[lines.len() - n];
        assert(line == line_of(ps, b, n - 1));
        lemma_row_fields(ps, b, n - 1, w);
        let symbols = fields(line, '|');
        assert(symbols == Seq::new(w as nat, |m: int| cell_symbol(ps, m, n - 1)));
        let row = row_pieces(line, n - 1);
        assert forall|i: int| 0 <= i < w implies row[i] == piece_on(ps, cell_at(i, n - 1)) by {
            lemma_cell_symbol(ps, i, n - 1);
        }
        let prev = decode_rows(lines, n - 1);
        let all = decode_rows(lines, n);
        assert(all == prev + row);
        assert((n - 1) * w + w == n * w) by (nonlinear_arith);
        assert forall|i: int, j: int| 0 <= i < w && 0 <= j < n implies all[j * w + i] == #[trigger] piece_on(ps, cell_at(i, j)) by {
            if j < n - 1 {
                assert(j * w + i < (n - 1) * w) by (nonlinear_arith)
                    requires 0 <= i < w, 0 <= j < n - 1;
                assert(j * w + i >= 0) by (nonlinear_arith)
                    requires 0 <= i < w, 0 <= j;
            } else {
                assert(j * w + i - (n - 1) * w == i) by (nonlinear_arith)
                    requires j == n - 1;
            }
        }
    }
}

/// Decoding the grid text of any snapshot, on a board whose coordinates
/// start at 0, gives one entry per cell: at index `j * width + i` the first
/// piece of the snapshot on file `i`, rank `j`, or `None`.
pub proof fn lemma_decode_encode(ps: Seq<ChessPiece>, b: Board)
    requires
        b.first_element == 0,
        0 <= b.last_element,
    ensures
        decoded(encoded(ps, b)).len() == b.width() * b.width(),
        forall|i: int, j: int|
            0 <= i < b.width() && 0 <= j < b.width() ==> decoded(encoded(ps, b))[j * b.width() + i]
                == #[trigger] piece_on(ps, cell_at(i, j)),
{
    lemma_rows_split(ps, b, 0);
    assert(fields(encoded(ps, b), '\n') == grid_lines(ps, b));
    lemma_decode_rows(ps, b, b.width());
}

/// Every piece of `ps` stands on the board.
pub open spec fn on_board(ps: Seq<ChessPiece>, b: Board) -> bool {
    forall|k: int| 0 <= k < ps.len() ==> b.holds(#[trigger] ps[k].pos)
}

/// For a snapshot on a board whose coordinates start at 0, with one piece
/// per cell at most, the grid text decodes back to the same pieces: each
/// piece at the entry of its cell, and no entry that is not a piece of the
/// snapshot.
pub proof fn lemma_round_trip(ps: Seq<ChessPiece>, b: Board)
    requires
        b.first_element == 0,
        0 <= b.last_element,
        on_board(ps, b),
        distinct_cells(ps),
    ensures
        forall|k: int|
            0 <= k < ps.len() ==> decoded(encoded(ps, b))[ps[k].pos.j * b.width() + ps[k].pos.i]
                == Some(#[trigger] ps[k]),
        forall|m: int|
            0 <= m < decoded(encoded(ps, b)).len() && #[trigger] decoded(encoded(ps, b))[m] is Some
                ==> ps.contains(decoded(encoded(ps, b))[m]->0),
{
    let w = b.width();
    let d = decoded(encoded(ps, b));
    lemma_decode_encode(ps, b);
    assert forall|k: int| 0 <= k < ps.len() implies d[ps[k].pos.j * w + ps[k].pos.i] == Some(#[trigger] ps[k]) by {
        let c = ps[k].pos;
        assert(b.holds(c));
        assert(c == cell_at(c.i as int, c.j as int));
        assert(first_on(ps, c, k));
        let f = choose|f: int| first_on(ps, c, f);
        assert(f == k);
        assert(d[c.j * w + c.i] == piece_on(ps, cell_at(c.i as int, c.j as int)));
    }
    assert forall|m: int| 0 <= m < d.len() && #[trigger] d[m] is Some implies ps.contains(d[m]->0) by {
        vstd::arithmetic::div_mod::lemma_fundamental_div_mod(m, w);
        vstd::arithmetic::div_mod::lemma_mod_bound(m, w);
        let i = m % w;
        let j = m / w;
        assert(0 <= j < w) by {
            vstd::arithmetic::div_mod::lemma_div_pos_is_pos(m, w);
            if j >= w {
                assert(w * j >= w * w) by (nonlinear_arith)
                    requires j >= w, w > 0;
            }
        }
        assert(m == j * w + i) by (nonlinear_arith)
            requires m == w * (m / w) + (m % w), i == m % w, j == m / w;
        assert(d[m] == piece_on(ps, cell_at(i, j)));
        let f = choose|f: int| first_on(ps, cell_at(i, j), f);
        assert(ps[f] == d[m]->0);
    }
}

} // verus!
