//! The text formats of the move server: board layouts, side states and
//! squares as written in request headers, and a board written for answers.
use vstd::prelude::*;

use crate::chessembly::board::{initial_side, Board, BoardState, BothBoardState, BoardStatus};
use crate::chessembly::semantics::{reg_set, SideV};
use crate::chessembly::text::{
    char_is_whitespace, find_from, find_in_range, lemma_find_from_range, parse_u8_range,
    parse_u8_v, range_eq_str, split, str_chars, trim, trim_range, all_digits, digits_value, is_digit,
};
use crate::chessembly::interp::same_position;
use crate::chessembly::semantics::{
    color_on_v, dp_lookup, filter_v, first_where, lemma_first_where, lemma_first_where_at,
    make_move_v, moves_at_v, BoardV, Ctx, DpV, ScriptV,
};
use crate::chessembly::text::str_eq;
use crate::chessembly::{
    move_dest, move_promotion, moves_v, moves_wf, opt_str_v, pairs_v, CellV, ChessMove,
    ChessemblyCompiled, Color, MoveV, Piece, PieceSpan, PieceV, Position,
};

verus! {

// ---------------------------------------------------------------------------
// Pieces of text
// ---------------------------------------------------------------------------

/// The text before the first `c` and the text after it (`str::split_once`).
pub open spec fn split_once_v(s: Seq<char>, c: char) -> Option<(Seq<char>, Seq<char>)> {
    match find_from(s, c, 0) {
        Some(k) => Some((s.subrange(0, k), s.subrange(k + 1, s.len() as int))),
        None => None,
    }
}

/// A number as the server reads it: `str::parse::<u8>`, 0 when that fails.
pub open spec fn u8_or_zero(s: Seq<char>) -> u8 {
    match parse_u8_v(s) {
        Some(v) => v,
        None => 0,
    }
}

/// A square written `x,y`.
pub open spec fn coord_v(s: Seq<char>) -> Option<Position> {
    match split_once_v(s, ',') {
        Some((a, b)) => Some((u8_or_zero(a), u8_or_zero(b))),
        None => None,
    }
}

pub open spec fn coords_of(ps: Seq<Seq<char>>) -> Seq<Position>
    decreases ps.len(),
{
    if ps.len() == 0 {
        seq![]
    } else {
        let r = coords_of(ps.drop_last());
        match coord_v(ps.last()) {
            Some(p) => r.push(p),
            None => r,
        }
    }
}

/// The squares of a `/`-separated list of `x,y` pairs (pieces without a
/// comma are skipped).
pub open spec fn positions_v(s: Seq<char>) -> Seq<Position> {
    coords_of(split(s, '/'))
}

pub open spec fn registers_of(ps: Seq<Seq<char>>) -> Seq<(Seq<char>, u8)>
    decreases ps.len(),
{
    if ps.len() == 0 {
        seq![]
    } else {
        let r = registers_of(ps.drop_last());
        match split_once_v(ps.last(), ',') {
            Some((k, v)) => reg_set(r, k, u8_or_zero(v)),
            None => r,
        }
    }
}

/// The registers of a `/`-separated list of `key,value` pairs; a later pair
/// replaces an earlier one with the same key.
pub open spec fn registers_v(s: Seq<char>) -> Seq<(Seq<char>, u8)> {
    registers_of(split(s, '/'))
}

/// The split text: pieces between the cuts at `c`, as index ranges.
proof fn lemma_split_step(s: Seq<char>, c: char, start: int)
    requires
        0 <= start <= s.len(),
    ensures
        match find_from(s.subrange(start, s.len() as int), c, 0) {
            Some(k) => {
                &&& 0 <= k < s.len() - start
                &&& split(s.subrange(start, s.len() as int), c) == seq![s.subrange(start, start + k)] + split(
                    s.subrange(start + k + 1, s.len() as int),
                    c,
                )
                &&& forall|t: int| start <= t < start + k ==> s[t] != c
                &&& s[start + k] == c
            },
            None => {
                &&& split(s.subrange(start, s.len() as int), c) == seq![s.subrange(start, s.len() as int)]
                &&& forall|t: int| start <= t < s.len() ==> s[t] != c
            },
        },
{
    let rest = s.subrange(start, s.len() as int);
    lemma_find_from_range(rest, c, 0);
    match find_from(rest, c, 0) {
        Some(k) => {
            assert(rest.subrange(0, k) =~= s.subrange(start, start + k));
            assert(rest.subrange(k + 1, rest.len() as int) =~= s.subrange(start + k + 1, s.len() as int));
            assert forall|t: int| start <= t < start + k implies s[t] != c by {
                assert(rest[t - start] == s[t]);
            }
            assert(rest[k] == s[start + k]);
        },
        None => {
            assert forall|t: int| start <= t < s.len() implies s[t] != c by {
                assert(rest[t - start] == s[t]);
            }
        },
    }
}

/// Finds the first `c` in `cs[lo..hi]` and splits there.
fn split_once_range(cs: &Vec<char>, lo: usize, hi: usize, c: char) -> (r: Option<usize>)
    requires
        lo <= hi <= cs@.len(),
    ensures
        match r {
            Some(k) => lo <= k < hi && split_once_v(cs@.subrange(lo as int, hi as int), c) == Some(
                (cs@.subrange(lo as int, k as int), cs@.subrange(k + 1, hi as int)),
            ),
            None => split_once_v(cs@.subrange(lo as int, hi as int), c) is None,
        },
{
    let r = find_in_range(cs, lo, hi, c);
    match r {
        Some(k) => {
            let ghost t = cs@.subrange(lo as int, hi as int);
            assert(t.subrange(0, k - lo) =~= cs@.subrange(lo as int, k as int));
            assert(t.subrange(k - lo + 1, t.len() as int) =~= cs@.subrange(k + 1, hi as int));
        },
        None => {},
    }
    r
}

fn u8_or_zero_range(cs: &Vec<char>, lo: usize, hi: usize) -> (r: u8)
    requires
        lo <= hi <= cs@.len(),
    ensures
        r == u8_or_zero(cs@.subrange(lo as int, hi as int)),
{
    match parse_u8_range(cs, lo, hi) {
        Some(v) => v,
        None => 0,
    }
}

/// The squares of a `/`-separated list of `x,y` pairs (pieces without a
/// comma are skipped; a number that does not parse counts as 0).
pub fn parse_positions(s: &str) -> (r: Vec<Position>)
    ensures
        r@ == positions_v(s@),
{
    let cs = str_chars(s);
    let n = cs.len();
    let mut r: Vec<Position> = Vec::new();
    let mut start: usize = 0;
    let ghost mut done: Seq<Seq<char>> = seq![];
    assert(cs@.subrange(0, n as int) =~= s@);
    loop
        invariant_except_break
            start <= n,
            n == cs@.len(),
            cs@ == s@,
            split(s@, '/') == done + split(cs@.subrange(start as int, n as int), '/'),
            r@ == coords_of(done),
        ensures
            r@ == coords_of(split(s@, '/')),
        decreases n - start,
    {
        proof {
            lemma_split_step(cs@, '/', start as int);
        }
        let found = find_in_range(&cs, start, n, '/');
        let hi = match found {
            Some(k) => k,
            None => n,
        };
        let ghost piece = cs@.subrange(start as int, hi as int);
        match split_once_range(&cs, start, hi, ',') {
            Some(k) => {
                let x = u8_or_zero_range(&cs, start, k);
                let y = u8_or_zero_range(&cs, k + 1, hi);
                r.push((x, y));
            },
            None => {},
        }
        proof {
            assert(done.push(piece).drop_last() =~= done);
            done = done.push(piece);
        }
        match found {
            Some(k) => {
                assert(split(s@, '/') =~= done + split(cs@.subrange(k + 1, n as int), '/'));
                start = k + 1;
            },
            None => {
                assert(split(s@, '/') =~= done);
                break;
            },
        }
    }
    r
}

/// The registers of a `/`-separated list of `key,value` pairs; a later pair
/// replaces an earlier one with the same key.
pub fn parse_registers<'a>(s: &'a str) -> (r: Vec<(&'a str, u8)>)
    ensures
        pairs_v(r@) == registers_v(s@),
{
    let cs = str_chars(s);
    let n = cs.len();
    let mut st = BoardState { castling_oo: true, castling_ooo: true, enpassant: Vec::new(), register: Vec::new() };
    assert(pairs_v(st.register@) =~= seq![]);
    let mut start: usize = 0;
    let ghost mut done: Seq<Seq<char>> = seq![];
    assert(cs@.subrange(0, n as int) =~= s@);
    loop
        invariant_except_break
            start <= n,
            n == cs@.len(),
            cs@ == s@,
            split(s@, '/') == done + split(cs@.subrange(start as int, n as int), '/'),
            st@.register == registers_of(done),
        ensures
            st@.register == registers_of(split(s@, '/')),
        decreases n - start,
    {
        proof {
            lemma_split_step(cs@, '/', start as int);
        }
        let found = find_in_range(&cs, start, n, '/');
        let hi = match found {
            Some(k) => k,
            None => n,
        };
        let ghost piece = cs@.subrange(start as int, hi as int);
        match split_once_range(&cs, start, hi, ',') {
            Some(k) => {
                let key = s.substring_char(start, k);
                let v = u8_or_zero_range(&cs, k + 1, hi);
                st.set_register(key, v);
            },
            None => {},
        }
        proof {
            assert(done.push(piece).drop_last() =~= done);
            done = done.push(piece);
        }
        match found {
            Some(k) => {
                assert(split(s@, '/') =~= done + split(cs@.subrange(k + 1, n as int), '/'));
                start = k + 1;
            },
            None => {
                assert(split(s@, '/') =~= done);
                break;
            },
        }
    }
    st.register
}

/// The side a turn header names: white for `white`, black for anything else.
pub open spec fn turn_v(s: Seq<char>) -> Color {
    if s == "white"@ {
        Color::White
    } else {
        Color::Black
    }
}

/// The side a turn header names: white for `white`, black for anything else.
pub fn parse_turn(s: &str) -> (r: Color)
    ensures
        r == turn_v(s@),
{
    if str_eq(s, "white") {
        Color::White
    } else {
        Color::Black
    }
}

/// The two flags of a castling header: white's (first character `1`) and
/// black's (second character `1`).
pub open spec fn castling_v(s: Seq<char>) -> (bool, bool) {
    (s.len() > 0 && s[0] == '1', s.len() > 1 && s[1] == '1')
}

/// The two flags of a castling header: white's (first character `1`) and
/// black's (second character `1`).
pub fn parse_castling(s: &str) -> (r: (bool, bool))
    ensures
        r == castling_v(s@),
{
    let n = s.unicode_len();
    let a = n > 0 && s.get_char(0) == '1';
    let b = n > 1 && s.get_char(1) == '1';
    (a, b)
}

/// A square written `col,row` (white space around the numbers allowed; a
/// number that does not parse counts as 0).
pub fn parse_target(s: &str) -> (r: Option<Position>)
    ensures
        r == (match split_once_v(s@, ',') {
            Some((a, b)) => Some((u8_or_zero(trim(a)), u8_or_zero(trim(b)))),
            None => None,
        }),
{
    let cs = str_chars(s);
    let n = cs.len();
    assert(cs@.subrange(0, n as int) =~= s@);
    match split_once_range(&cs, 0, n, ',') {
        Some(k) => {
            let (a0, a1) = trim_range(&cs, 0, k);
            let (b0, b1) = trim_range(&cs, k + 1, n);
            Some((u8_or_zero_range(&cs, a0, a1), u8_or_zero_range(&cs, b0, b1)))
        },
        None => None,
    }
}

// ---------------------------------------------------------------------------
// Board layouts
// ---------------------------------------------------------------------------

/// The end of the run of non-white-space characters starting at `i`.
pub open spec fn word_end(s: Seq<char>, i: int) -> int
    decreases s.len() - i,
{
    if i < 0 || i >= s.len() || char_is_whitespace(s[i]) {
        i
    } else {
        word_end(s, i + 1)
    }
}

proof fn lemma_word_end(s: Seq<char>, i: int)
    requires
        0 <= i <= s.len(),
    ensures
        i <= word_end(s, i) <= s.len(),
        i < s.len() && !char_is_whitespace(s[i]) ==> word_end(s, i) > i,
        forall|t: int| i <= t < word_end(s, i) ==> !char_is_whitespace(s[t]),
        word_end(s, i) < s.len() ==> char_is_whitespace(s[word_end(s, i)]),
    decreases s.len() - i,
{
    if i < s.len() && !char_is_whitespace(s[i]) {
        lemma_word_end(s, i + 1);
    }
}

/// The white-space separated words of `s` from index `i` on
/// (`str::split_whitespace`).
pub open spec fn words_from(s: Seq<char>, i: int) -> Seq<Seq<char>>
    decreases s.len() - i,
{
    if i < 0 || i >= s.len() {
        seq![]
    } else if char_is_whitespace(s[i]) {
        words_from(s, i + 1)
    } else {
        let e = word_end(s, i);
        if e <= i || e > s.len() {
            seq![]
        } else {
            seq![s.subrange(i, e)] + words_from(s, e)
        }
    }
}

/// The piece a layout word `name:color` stands for (`white`, or black for
/// any other color); `None` for a word without `:`.
pub open spec fn word_piece(w: Seq<char>) -> Option<PieceV> {
    match split_once_v(w, ':') {
        Some((name, color)) => Some(
            PieceV { piece_type: name, color: if color == "white"@ { Color::White } else { Color::Black } },
        ),
        None => None,
    }
}

/// Square (x, y) of a layout: rows separated by `/`, squares by white space.
pub open spec fn layout_cell(text: Seq<char>, x: int, y: int) -> CellV {
    let rows = split(text, '/');
    if 0 <= y < rows.len() {
        let ws = words_from(rows[y], 0);
        if 0 <= x < ws.len() {
            match word_piece(ws[x]) {
                Some(p) => CellV::Piece(p),
                None => CellV::Empty,
            }
        } else {
            CellV::Empty
        }
    } else {
        CellV::Empty
    }
}

/// Every piece of the layout falls on the 8x8 board.
pub open spec fn layout_fits(text: Seq<char>) -> bool {
    let rows = split(text, '/');
    forall|y: int, x: int| #![trigger words_from(rows[y], 0)[x]]
        0 <= y < rows.len() && 0 <= x < words_from(rows[y], 0).len() && word_piece(words_from(rows[y], 0)[x])
            is Some ==> y < 8 && x < 8
}

/// The end of the word starting at `k` in `cs[lo..hi]`.
fn scan_word(cs: &Vec<char>, lo: usize, hi: usize, k: usize) -> (r: usize)
    requires
        lo <= k <= hi <= cs@.len(),
    ensures
        r - lo == word_end(cs@.subrange(lo as int, hi as int), k - lo),
        k <= r <= hi,
{
    let ghost row = cs@.subrange(lo as int, hi as int);
    let mut e = k;
    while e < hi && !crate::chessembly::text::is_whitespace(cs[e])
        invariant
            lo <= k <= e <= hi <= cs@.len(),
            row == cs@.subrange(lo as int, hi as int),
            word_end(row, k - lo) == word_end(row, e - lo),
        decreases hi - e,
    {
        assert(row[e - lo] == cs@[e as int]);
        e += 1;
    }
    if e < hi {
        assert(row[e - lo] == cs@[e as int]);
    }
    e
}

/// The 8x8 board laid out by `position` (rows separated by `/`, squares by
/// white space, a square `name:color` holding a piece), with the given side
/// states and side to move.
pub fn setup_board<'a, const MACHO: bool, const IMPRISONED: bool>(
    compiled: &'a ChessemblyCompiled<'a>,
    position: &'a str,
    board_state: BothBoardState<'a>,
    turn: Color,
) -> (r: Board<'a, MACHO, IMPRISONED, 8>)
    requires
        layout_fits(position@),
    ensures
        Board::<'a, MACHO, IMPRISONED, 8>::shaped(r@),
        forall|y: int, x: int| #![trigger r@.cells[y][x]]
            0 <= y < 8 && 0 <= x < 8 ==> r@.cells[y][x] == layout_cell(position@, x, y),
        r@.white == board_state.white@,
        r@.black == board_state.black@,
        r@.turn == turn,
        r@.status == BoardStatus::Ongoing,
        r.dp@.len() == 0,
        r.script == compiled,
{
    let mut board = Board::<'a, MACHO, IMPRISONED, 8>::empty(compiled);
    let cs = str_chars(position);
    let n = cs.len();
    let ghost text = position@;
    let ghost rows = split(text, '/');
    assert(cs@.subrange(0, n as int) =~= text);
    let mut start: usize = 0;
    let mut i: usize = 0;
    let ghost mut done: Seq<Seq<char>> = seq![];
    loop
        invariant_except_break
            start <= n,
            n == cs@.len(),
            cs@ == text,
            text == position@,
            rows == split(text, '/'),
            layout_fits(text),
            rows == done + split(cs@.subrange(start as int, n as int), '/'),
            i == done.len(),
            i <= start,
            Board::<'a, MACHO, IMPRISONED, 8>::shaped(board@),
            forall|y: int, x: int| #![trigger board@.cells[y][x]]
                0 <= y < 8 && 0 <= x < 8 ==> board@.cells[y][x] == (if y < i {
                    layout_cell(text, x, y)
                } else {
                    CellV::Empty
                }),
            board.dp@.len() == 0,
            board.script == compiled,
            board@.turn == Color::White,
            board@.status == BoardStatus::Ongoing,
        ensures
            Board::<'a, MACHO, IMPRISONED, 8>::shaped(board@),
            forall|y: int, x: int| #![trigger board@.cells[y][x]]
                0 <= y < 8 && 0 <= x < 8 ==> board@.cells[y][x] == layout_cell(text, x, y),
            board.dp@.len() == 0,
            board.script == compiled,
            board@.status == BoardStatus::Ongoing,
        decreases n - start,
    {
        proof {
            lemma_split_step(cs@, '/', start as int);
        }
        let found = find_in_range(&cs, start, n, '/');
        let hi = match found {
            Some(k) => k,
            None => n,
        };
        let ghost row = cs@.subrange(start as int, hi as int);
        assert(rows[i as int] == row);
        let ghost all_words = words_from(row, 0);
        let mut k = start;
        let mut j: usize = 0;
        let ghost mut wdone: Seq<Seq<char>> = seq![];
        while k < hi
            invariant
                start <= k <= hi <= n,
                n == cs@.len(),
                cs@ == text,
                text == position@,
                rows == split(text, '/'),
                layout_fits(text),
                row == cs@.subrange(start as int, hi as int),
                rows[i as int] == row,
                i < rows.len(),
                all_words == words_from(row, 0),
                all_words == wdone + words_from(row, k - start),
                j == wdone.len(),
                j <= k - start,
                Board::<'a, MACHO, IMPRISONED, 8>::shaped(board@),
                forall|y: int, x: int| #![trigger board@.cells[y][x]]
                    0 <= y < 8 && 0 <= x < 8 ==> board@.cells[y][x] == (if y < i || (y == i && x < j) {
                        layout_cell(text, x, y)
                    } else {
                        CellV::Empty
                    }),
                board.dp@.len() == 0,
                board.script == compiled,
                board@.turn == Color::White,
                board@.status == BoardStatus::Ongoing,
            decreases hi - k,
        {
            assert(row[k - start] == cs@[k as int]);
            if crate::chessembly::text::is_whitespace(cs[k]) {
                k += 1;
            } else {
                let e = scan_word(&cs, start, hi, k);
                proof {
                    lemma_word_end(row, k - start);
                }
                let ghost w = row.subrange(k - start, e - start);
                assert(w =~= cs@.subrange(k as int, e as int));
                assert(words_from(row, k - start) == seq![w] + words_from(row, e - start));
                assert(all_words[j as int] == w) by {
                    assert(all_words == (wdone + seq![w]) + words_from(row, e - start));
                }
                match split_once_range(&cs, k, e, ':') {
                    Some(c) => {
                        assert(word_piece(words_from(rows[i as int], 0)[j as int]) is Some);
                        assert(i < 8 && j < 8);
                        let name = position.substring_char(k, c);
                        let white = range_eq_str(&cs, c + 1, e, "white");
                        let color = if white {
                            Color::White
                        } else {
                            Color::Black
                        };
                        board.set_cell(j, i, PieceSpan::Piece(Piece { piece_type: name, color }));
                        assert(layout_cell(text, j as int, i as int) == CellV::Piece(PieceV { piece_type: name@, color }));
                    },
                    None => {
                        assert(layout_cell(text, j as int, i as int) == CellV::Empty);
                    },
                }
                proof {
                    wdone = wdone.push(w);
                    assert(all_words =~= wdone + words_from(row, e - start));
                }
                j += 1;
                k = e;
            }
        }
        assert(words_from(row, hi - start) == Seq::<Seq<char>>::empty());
        assert(wdone =~= all_words);
        proof {
            assert(done.push(row).drop_last() =~= done);
            done = done.push(row);
        }
        match found {
            Some(k) => {
                assert(rows =~= done + split(cs@.subrange(k + 1, n as int), '/'));
                i += 1;
                start = k + 1;
            },
            None => {
                assert(rows =~= done);
                assert forall|y: int, x: int| 0 <= y < 8 && 0 <= x < 8 implies #[trigger] board@.cells[y][x]
                    == layout_cell(text, x, y) by {
                    if y > i {
                        assert(y >= rows.len());
                    }
                }
                break;
            },
        }
    }
    board.board_state = board_state;
    board.turn = turn;
    board
}

// ---------------------------------------------------------------------------
// A board written for answers
// ---------------------------------------------------------------------------

/// A board written as text: the squares (`name:color` or `.`, separated by
/// spaces, rows by `/`), the side to move, the castling flags (white's then
/// black's, `1` or `0`) and each side's en-passant squares (`x,y` separated
/// by `/`, or `.`).
pub struct BoardStateResponse {
    pub position: String,
    pub turn: String,
    pub castling_oo: String,
    pub castling_ooo: String,
    pub en_passant_white: String,
    pub en_passant_black: String,
}

pub open spec fn color_name(c: Color) -> Seq<char> {
    if c == Color::White {
        "white"@
    } else {
        "black"@
    }
}

pub open spec fn cell_text(c: CellV) -> Seq<char> {
    match c {
        CellV::Empty => "."@,
        CellV::Piece(pc) => pc.piece_type + ":"@ + color_name(pc.color),
    }
}

/// The first `x` squares of row `y`, separated by spaces.
pub open spec fn row_enc(b: crate::chessembly::semantics::BoardV, y: int, x: int) -> Seq<char>
    decreases x,
{
    if x <= 0 {
        seq![]
    } else if x == 1 {
        cell_text(b.cells[y][0])
    } else {
        row_enc(b, y, x - 1) + " "@ + cell_text(b.cells[y][x - 1])
    }
}

/// The first `y` rows, separated by `/`.
pub open spec fn rows_enc(b: crate::chessembly::semantics::BoardV, y: int) -> Seq<char>
    decreases y,
{
    if y <= 0 {
        seq![]
    } else if y == 1 {
        row_enc(b, 0, 8)
    } else {
        rows_enc(b, y - 1) + "/"@ + row_enc(b, y - 1, 8)
    }
}

/// The decimal digits of `n`.
pub open spec fn decimal(n: u8) -> Seq<char> {
    if n < 10 {
        seq![digit_char(n as int)]
    } else if n < 100 {
        seq![digit_char(n as int / 10), digit_char(n as int % 10)]
    } else {
        seq![digit_char(n as int / 100), digit_char((n as int / 10) % 10), digit_char(n as int % 10)]
    }
}

pub open spec fn digit_char(d: int) -> char {
    "0123456789"@[d]
}

pub open spec fn square_text(p: Position) -> Seq<char> {
    decimal(p.0) + ","@ + decimal(p.1)
}

/// The squares `x,y` separated by `/`.
pub open spec fn squares_text(v: Seq<Position>) -> Seq<char>
    decreases v.len(),
{
    if v.len() == 0 {
        seq![]
    } else if v.len() == 1 {
        square_text(v[0])
    } else {
        squares_text(v.drop_last()) + "/"@ + square_text(v.last())
    }
}

pub open spec fn ep_text(v: Seq<Position>) -> Seq<char> {
    if v.len() == 0 {
        "."@
    } else {
        squares_text(v)
    }
}

pub open spec fn flag_char(b: bool) -> Seq<char> {
    if b {
        "1"@
    } else {
        "0"@
    }
}

fn color_text(c: Color) -> (r: &'static str)
    ensures
        r@ == color_name(c),
{
    match c {
        Color::White => "white",
        Color::Black => "black",
    }
}

fn flag_text(b: bool) -> (r: &'static str)
    ensures
        r@ == flag_char(b),
{
    if b {
        "1"
    } else {
        "0"
    }
}

fn append_decimal(out: &mut String, n: u8)
    ensures
        final(out)@ == old(out)@ + decimal(n),
{
    let digits = "0123456789";
    proof {
        reveal_strlit("0123456789");
    }
    assert(digits@.len() == 10);
    if n < 10 {
        out.append(digits.substring_char(n as usize, n as usize + 1));
    } else if n < 100 {
        let a = (n / 10) as usize;
        let b = (n % 10) as usize;
        out.append(digits.substring_char(a, a + 1));
        out.append(digits.substring_char(b, b + 1));
    } else {
        let a = (n / 100) as usize;
        let b = ((n / 10) % 10) as usize;
        let c = (n % 10) as usize;
        out.append(digits.substring_char(a, a + 1));
        out.append(digits.substring_char(b, b + 1));
        out.append(digits.substring_char(c, c + 1));
    }
    assert(out@ =~= old(out)@ + decimal(n));
}

fn encode_squares(v: &Vec<Position>) -> (r: String)
    ensures
        r@ == ep_text(v@),
{
    let mut out = String::new();
    if v.len() == 0 {
        out.append(".");
        assert(out@ =~= ep_text(v@));
        return out;
    }
    let mut i: usize = 0;
    while i < v.len()
        invariant
            i <= v@.len(),
            v@.len() > 0,
            out@ == squares_text(v@.subrange(0, i as int)),
        decreases v@.len() - i,
    {
        let ghost before = out@;
        if i > 0 {
            out.append("/");
        }
        let p = v[i];
        append_decimal(&mut out, p.0);
        out.append(",");
        append_decimal(&mut out, p.1);
        let ghost sub = v@.subrange(0, i + 1);
        assert(sub.drop_last() =~= v@.subrange(0, i as int));
        assert(sub.last() == p);
        if i > 0 {
            assert(out@ =~= squares_text(sub.drop_last()) + "/"@ + square_text(sub.last()));
        } else {
            assert(out@ =~= square_text(sub[0]));
        }
        i += 1;
    }
    assert(v@.subrange(0, v@.len() as int) =~= v@);
    out
}

/// Whether `r` is the board `b` written as text.
pub open spec fn encodes(r: BoardStateResponse, b: BoardV) -> bool {
    &&& r.position@ == rows_enc(b, 8)
    &&& r.turn@ == color_name(b.turn)
    &&& r.castling_oo@ == flag_char(b.white.castling_oo) + flag_char(b.black.castling_oo)
    &&& r.castling_ooo@ == flag_char(b.white.castling_ooo) + flag_char(b.black.castling_ooo)
    &&& r.en_passant_white@ == ep_text(b.white.enpassant)
    &&& r.en_passant_black@ == ep_text(b.black.enpassant)
}

/// The board written as text (see `BoardStateResponse`).
pub fn encode_board_response<'a, const MACHO: bool, const IMPRISONED: bool, const SIZE: usize>(
    board: &Board<'a, MACHO, IMPRISONED, SIZE>,
) -> (r: BoardStateResponse)
    requires
        SIZE == 8,
    ensures
        r.position@ == rows_enc(board@, 8),
        r.turn@ == color_name(board@.turn),
        r.castling_oo@ == flag_char(board@.white.castling_oo) + flag_char(board@.black.castling_oo),
        r.castling_ooo@ == flag_char(board@.white.castling_ooo) + flag_char(board@.black.castling_ooo),
        r.en_passant_white@ == ep_text(board@.white.enpassant),
        r.en_passant_black@ == ep_text(board@.black.enpassant),
        encodes(r, board@),
{
    let mut position = String::new();
    let mut y: usize = 0;
    while y < 8
        invariant
            y <= 8,
            SIZE == 8,
            position@ == rows_enc(board@, y as int),
        decreases 8 - y,
    {
        let ghost before = position@;
        if y > 0 {
            position.append("/");
        }
        let ghost row_start = position@;
        let mut x: usize = 0;
        while x < 8
            invariant
                x <= 8,
                y < 8,
                SIZE == 8,
                position@ == row_start + row_enc(board@, y as int, x as int),
            decreases 8 - x,
        {
            if x > 0 {
                position.append(" ");
            }
            let c = board.get_cell(x, y);
            match c {
                PieceSpan::Piece(p) => {
                    position.append(p.piece_type);
                    position.append(":");
                    position.append(color_text(p.color));
                },
                PieceSpan::Empty => {
                    position.append(".");
                },
            }
            assert(c@ == board@.cells[y as int][x as int]);
            assert(position@ =~= row_start + row_enc(board@, y as int, x + 1));
            x += 1;
        }
        assert(position@ =~= rows_enc(board@, y + 1));
        y += 1;
    }
    let mut oo = String::new();
    oo.append(flag_text(board.board_state.white.castling_oo));
    oo.append(flag_text(board.board_state.black.castling_oo));
    let mut ooo = String::new();
    ooo.append(flag_text(board.board_state.white.castling_ooo));
    ooo.append(flag_text(board.board_state.black.castling_ooo));
    let mut turn = String::new();
    turn.append(color_text(board.turn));
    assert(oo@ =~= flag_char(board@.white.castling_oo) + flag_char(board@.black.castling_oo));
    assert(ooo@ =~= flag_char(board@.white.castling_ooo) + flag_char(board@.black.castling_ooo));
    assert(turn@ =~= color_name(board@.turn));
    BoardStateResponse {
        position,
        turn,
        castling_oo: oo,
        castling_ooo: ooo,
        en_passant_white: encode_squares(&board.board_state.white.enpassant),
        en_passant_black: encode_squares(&board.board_state.black.enpassant),
    }
}

// ---------------------------------------------------------------------------
// Scripts as sent by the client
// ---------------------------------------------------------------------------

/// The text `urlencoding::decode` makes of `s` (`None` when the decoded
/// bytes are not UTF-8).
pub uninterp spec fn url_decoded(s: Seq<char>) -> Option<Seq<char>>;

/// Calls `urlencoding::decode`, which replaces `%XX` escapes by their bytes
/// and fails when the result is not UTF-8; its source returns a text without
/// `%` unchanged. The contract names the result and states that last fact.
#[verifier::external_body]
fn url_decode(s: &str) -> (r: Option<String>)
    ensures
        r is Some <==> url_decoded(s@) is Some,
        r is Some ==> url_decoded(s@) == Some(r->0@),
        !s@.contains('%') ==> r is Some && r->0@ == s@,
{
    match urlencoding::decode(s) {
        Ok(c) => Some(c.into_owned()),
        Err(_) => None,
    }
}

/// `s` with a space on each side of every brace.
pub open spec fn spaced_braces(s: Seq<char>) -> Seq<char>
    decreases s.len(),
{
    if s.len() == 0 {
        seq![]
    } else {
        let c = s.last();
        spaced_braces(s.drop_last()) + (if c == '{' {
            seq![' ', '{', ' ']
        } else if c == '}' {
            seq![' ', '}', ' ']
        } else {
            seq![c]
        })
    }
}

/// A script text with a space on each side of every brace (so that braces
/// stand as instructions of their own).
pub fn space_braces(s: &str) -> (r: String)
    ensures
        r@ == spaced_braces(s@),
{
    let n = s.unicode_len();
    let mut out = String::new();
    let mut i: usize = 0;
    proof {
        reveal_strlit(" { ");
        reveal_strlit(" } ");
    }
    while i < n
        invariant
            i <= n,
            n == s@.len(),
            out@ == spaced_braces(s@.subrange(0, i as int)),
            " { "@ == seq![' ', '{', ' '],
            " } "@ == seq![' ', '}', ' '],
        decreases n - i,
    {
        let c = s.get_char(i);
        if c == '{' {
            out.append(" { ");
        } else if c == '}' {
            out.append(" } ");
        } else {
            out.append(s.substring_char(i, i + 1));
        }
        assert(s@.subrange(0, i + 1).drop_last() =~= s@.subrange(0, i as int));
        assert(out@ =~= spaced_braces(s@.subrange(0, i + 1)));
        i += 1;
    }
    assert(s@.subrange(0, n as int) =~= s@);
    out
}

/// The script text a client sends (percent-encoded), decoded and with its
/// braces spaced; `None` when the decoded text is not UTF-8.
pub fn prepare_script(raw: &str) -> (r: Option<String>)
    ensures
        match url_decoded(raw@) {
            Some(d) => r matches Some(t) && t@ == spaced_braces(d),
            None => r is None,
        },
{
    match url_decode(raw) {
        Some(d) => Some(space_braces(d.as_str())),
        None => None,
    }
}

/// Two squares written `x,y/x,y` (the second part is everything after the
/// first `/`).
pub fn parse_target_pair(s: &str) -> (r: Option<(Position, Position)>)
    ensures
        r == (match split_once_v(s@, '/') {
            Some((a, b)) => match (coord_v(a), coord_v(b)) {
                (Some(p), Some(q)) => Some((p, q)),
                _ => None,
            },
            None => None,
        }),
{
    let cs = str_chars(s);
    let n = cs.len();
    assert(cs@.subrange(0, n as int) =~= s@);
    match split_once_range(&cs, 0, n, '/') {
        Some(k) => {
            let p = match split_once_range(&cs, 0, k, ',') {
                Some(c) => Some((u8_or_zero_range(&cs, 0, c), u8_or_zero_range(&cs, c + 1, k))),
                None => None,
            };
            let q = match split_once_range(&cs, k + 1, n, ',') {
                Some(c) => Some((u8_or_zero_range(&cs, k + 1, c), u8_or_zero_range(&cs, c + 1, n))),
                None => None,
            };
            match (p, q) {
                (Some(p), Some(q)) => Some((p, q)),
                _ => None,
            }
        },
        None => None,
    }
}

/// Whether every piece of a layout falls on the 8x8 board (what
/// `setup_board` needs).
pub fn layout_fits_board(position: &str) -> (r: bool)
    ensures
        r == layout_fits(position@),
{
    let cs = str_chars(position);
    let n = cs.len();
    let ghost text = position@;
    let ghost rows = split(text, '/');
    assert(cs@.subrange(0, n as int) =~= text);
    let mut start: usize = 0;
    let mut i: usize = 0;
    let ghost mut done: Seq<Seq<char>> = seq![];
    loop
        invariant_except_break
            start <= n,
            n == cs@.len(),
            cs@ == text,
            text == position@,
            rows == split(text, '/'),
            rows == done + split(cs@.subrange(start as int, n as int), '/'),
            i == done.len(),
            i <= start,
            forall|y: int, x: int| #![trigger words_from(rows[y], 0)[x]]
                0 <= y < i && 0 <= x < words_from(rows[y], 0).len() && word_piece(words_from(rows[y], 0)[x]) is Some
                    ==> y < 8 && x < 8,
        ensures
            layout_fits(text),
        decreases n - start,
    {
        proof {
            lemma_split_step(cs@, '/', start as int);
        }
        let found = find_in_range(&cs, start, n, '/');
        let hi = match found {
            Some(k) => k,
            None => n,
        };
        let ghost row = cs@.subrange(start as int, hi as int);
        assert(rows[i as int] == row);
        let ghost all_words = words_from(row, 0);
        let mut k = start;
        let mut j: usize = 0;
        let ghost mut wdone: Seq<Seq<char>> = seq![];
        while k < hi
            invariant
                start <= k <= hi <= n,
                n == cs@.len(),
                cs@ == text,
                row == cs@.subrange(start as int, hi as int),
                text == position@,
                rows == split(text, '/'),
                i < rows.len(),
                rows[i as int] == row,
                all_words == words_from(row, 0),
                all_words == wdone + words_from(row, k - start),
                j == wdone.len(),
                j <= k - start,
                forall|x: int| 0 <= x < j && word_piece(#[trigger] wdone[x]) is Some ==> i < 8 && x < 8,
            decreases hi - k,
        {
            assert(row[k - start] == cs@[k as int]);
            if crate::chessembly::text::is_whitespace(cs[k]) {
                k += 1;
            } else {
                let e = scan_word(&cs, start, hi, k);
                proof {
                    lemma_word_end(row, k - start);
                }
                let ghost w = row.subrange(k - start, e - start);
                assert(w =~= cs@.subrange(k as int, e as int));
                assert(words_from(row, k - start) == seq![w] + words_from(row, e - start));
                match split_once_range(&cs, k, e, ':') {
                    Some(_) => {
                        if i >= 8 || j >= 8 {
                            assert(all_words == (wdone + seq![w]) + words_from(row, e - start));
                            assert(all_words[j as int] == w);
                            assert(word_piece(words_from(rows[i as int], 0)[j as int]) is Some);
                            assert(!layout_fits(position@));
                            return false;
                        }
                    },
                    None => {},
                }
                proof {
                    wdone = wdone.push(w);
                    assert(all_words =~= wdone + words_from(row, e - start));
                }
                j += 1;
                k = e;
            }
        }
        assert(words_from(row, hi - start) == Seq::<Seq<char>>::empty());
        assert(wdone =~= all_words);
        proof {
            assert(done.push(row).drop_last() =~= done);
            done = done.push(row);
        }
        match found {
            Some(k) => {
                assert(rows =~= done + split(cs@.subrange(k + 1, n as int), '/'));
                i += 1;
                start = k + 1;
            },
            None => {
                assert(rows =~= done);
                break;
            },
        }
    }
    true
}

// ---------------------------------------------------------------------------
// Moves of one piece and the requested move
// ---------------------------------------------------------------------------

/// Whether the moves cached for `target`, if any, are none or come from an
/// occupied square (the legality filter reads the side of a move's piece).
pub open spec fn cache_consistent_at(b: BoardV, dp: DpV, target: Position) -> bool {
    match dp_lookup(dp, target) {
        Some(c) => c.len() == 0 || color_on_v(b, target) is Some,
        None => true,
    }
}

/// The legal moves of the piece on `target`: its moves (checks considered)
/// that the legality filter keeps.
pub open spec fn legal_moves_v(ctx: Ctx, b: BoardV, dp: DpV, target: Position, sc: ScriptV) -> Seq<MoveV> {
    filter_v(ctx, b, moves_at_v(ctx, b, dp, target, true, sc).0, 0)
}

/// The legal moves of the piece on `target`.
pub fn legal_moves_at<'a, const MACHO: bool, const IMPRISONED: bool>(
    board: &mut Board<'a, MACHO, IMPRISONED, 8>,
    target: Position,
) -> (r: Vec<ChessMove<'a>>)
    requires
        old(board).wf(),
        MACHO ==> cache_consistent_at(old(board)@, old(board).dp_v(), target),
    ensures
        moves_v(r@) == legal_moves_v(old(board).ctx(), old(board)@, old(board).dp_v(), target, old(board).script@),
        moves_wf(moves_v(r@)),
        final(board).dp_v() == moves_at_v(
            old(board).ctx(),
            old(board)@,
            old(board).dp_v(),
            target,
            true,
            old(board).script@,
        ).1,
        same_position(*old(board), *final(board)),
{
    let script = board.script;
    let raw = script.get_moves(board, &target, true);
    proof {
        let ms = moves_v(raw@);
        if MACHO {
            assert forall|i: int| 0 <= i < ms.len() implies color_on_v(board@, crate::chessembly::move_source(#[trigger] ms[i])) is Some by {
                assert(crate::chessembly::move_source(ms[i]) == target);
            }
        }
    }
    script.filter_nodes(raw, board)
}

/// Whether a move ends on `to` with the promotion `tr`.
pub open spec fn requested(to: Position, tr: Option<Seq<char>>) -> spec_fn(MoveV) -> bool {
    |m: MoveV| move_dest(m) == to && move_promotion(m) == tr
}

/// Whether the move `m` ends on `to` with the promotion `tr`.
fn is_requested(m: &ChessMove, to: Position, tr: Option<&str>) -> (r: bool)
    requires
        m.has_unit(),
    ensures
        r == requested(to, opt_str_v(tr))(m@),
{
    let dest = m.get_dest();
    if !(dest.0 == to.0 && dest.1 == to.1) {
        return false;
    }
    match (*m.get_promotion(), tr) {
        (Some(a), Some(b)) => str_eq(a, b),
        (None, None) => true,
        _ => false,
    }
}

/// The position after the move of the piece on `from` to `move_to` with
/// the promotion `transition`, written as text: the first legal move of
/// that piece that matches, or `None` when none does.
pub fn apply_requested_move<'a, const MACHO: bool, const IMPRISONED: bool>(
    board: Board<'a, MACHO, IMPRISONED, 8>,
    from: Position,
    move_to: Position,
    transition: Option<&str>,
) -> (r: Option<BoardStateResponse>)
    requires
        board.wf(),
        MACHO ==> cache_consistent_at(board@, board.dp_v(), from),
    ensures
        match first_where(
            legal_moves_v(board.ctx(), board@, board.dp_v(), from, board.script@),
            requested(move_to, opt_str_v(transition)),
        ) {
            None => r is None,
            Some(i) => r matches Some(resp) && encodes(
                resp,
                make_move_v(board.ctx(), board@, legal_moves_v(board.ctx(), board@, board.dp_v(), from, board.script@)[i]).0,
            ),
        },
{
    let ghost b0 = board;
    let mut work = board;
    let moves = legal_moves_at(&mut work, from);
    let ghost ms = moves_v(moves@);
    let ghost f = requested(move_to, opt_str_v(transition));
    proof {
        lemma_first_where(ms, f);
    }
    let mut i: usize = 0;
    while i < moves.len()
        invariant
            i <= moves@.len(),
            ms == moves_v(moves@),
            moves_wf(ms),
            f == requested(move_to, opt_str_v(transition)),
            forall|j: int| 0 <= j < i ==> !f(#[trigger] ms[j]),
            work.wf(),
            b0 == board,
            work@ == b0@,
            work.script == b0.script,
            ms == legal_moves_v(b0.ctx(), b0@, b0.dp_v(), from, b0.script@),
        decreases moves@.len() - i,
    {
        assert(ms[i as int] == moves@[i as int]@);
        if is_requested(&moves[i], move_to, transition) {
            proof {
                lemma_first_where_at(ms, f, i as int);
            }
            let next = work.make_move_new(&moves[i]);
            let resp = encode_board_response(&next);
            proof {
                assert(work.ctx() == b0.ctx());
                assert(first_where(ms, f) == Some(i as int));
            }
            return Some(resp);
        }
        i += 1;
    }
    None
}

// ---------------------------------------------------------------------------
// Reading back a written board
// ---------------------------------------------------------------------------

/// Whether `c` does not occur in `s`.
pub open spec fn free_of(s: Seq<char>, c: char) -> bool {
    forall|i: int| 0 <= i < s.len() ==> s[i] != c
}

/// Splitting a text at `c` after appending `c` and a piece free of `c`
/// gives the pieces of the text and then that piece.
proof fn lemma_split_append(x: Seq<char>, c: char, r: Seq<char>)
    requires
        free_of(r, c),
    ensures
        split(x + seq![c] + r, c) == split(x, c) + seq![r],
    decreases x.len(),
{
    let s = x + seq![c] + r;
    lemma_find_from_range(s, c, 0);
    lemma_find_from_range(x, c, 0);
    match find_from(x, c, 0) {
        Some(i) => {
            assert(s[i] == x[i]);
            assert forall|t: int| 0 <= t < i implies s[t] != c by {
                assert(s[t] == x[t]);
            }
            lemma_find_from_first(s, c, i);
            let x2 = x.subrange(i + 1, x.len() as int);
            lemma_split_append(x2, c, r);
            assert(s.subrange(0, i) =~= x.subrange(0, i));
            assert(s.subrange(i + 1, s.len() as int) =~= x2 + seq![c] + r);
            assert(split(x, c) == seq![x.subrange(0, i)] + split(x2, c));
            assert(split(s, c) =~= seq![x.subrange(0, i)] + (split(x2, c) + seq![r]));
        },
        None => {
            assert forall|t: int| 0 <= t < x.len() implies s[t] != c by {
                assert(s[t] == x[t]);
            }
            assert(s[x.len() as int] == c);
            lemma_find_from_first(s, c, x.len() as int);
            assert(s.subrange(0, x.len() as int) =~= x);
            assert(s.subrange(x.len() as int + 1, s.len() as int) =~= r);
            lemma_find_from_range(r, c, 0);
            assert(find_from(r, c, 0) is None);
            assert(split(r, c) == seq![r]);
            assert(split(x, c) == seq![x]);
            assert(split(s, c) == seq![s.subrange(0, x.len() as int)] + split(s.subrange(x.len() as int + 1, s.len() as int), c));
            assert(split(s, c) =~= seq![x] + seq![r]);
        },
    }
}

/// `find_from` from 0 finds the first occurrence.
proof fn lemma_find_from_first(s: Seq<char>, c: char, i: int)
    requires
        0 <= i < s.len(),
        s[i] == c,
        forall|t: int| 0 <= t < i ==> s[t] != c,
    ensures
        find_from(s, c, 0) == Some(i),
{
    lemma_find_from_first_from(s, c, i, 0);
}

proof fn lemma_find_from_first_from(s: Seq<char>, c: char, i: int, k: int)
    requires
        0 <= k <= i < s.len(),
        s[i] == c,
        forall|t: int| k <= t < i ==> s[t] != c,
    ensures
        find_from(s, c, k) == Some(i),
    decreases i - k,
{
    if k < i {
        lemma_find_from_first_from(s, c, i, k + 1);
    }
}

/// Whether no character of `s` is white space.
pub open spec fn no_white_space(s: Seq<char>) -> bool {
    forall|i: int| 0 <= i < s.len() ==> !char_is_whitespace(#[trigger] s[i])
}

proof fn lemma_word_end_to_end(s: Seq<char>, k: int)
    requires
        0 <= k <= s.len(),
        forall|t: int| k <= t < s.len() ==> !char_is_whitespace(#[trigger] s[t]),
    ensures
        word_end(s, k) == s.len(),
    decreases s.len() - k,
{
    if k < s.len() {
        lemma_word_end_to_end(s, k + 1);
    }
}

proof fn lemma_word_end_prefix(x: Seq<char>, s: Seq<char>, k: int)
    requires
        0 <= k <= x.len() < s.len(),
        s.subrange(0, x.len() as int) == x,
        char_is_whitespace(s[x.len() as int]),
    ensures
        word_end(s, k) == word_end(x, k),
    decreases x.len() - k,
{
    if k < x.len() {
        assert(s[k] == x[k]);
        if !char_is_whitespace(x[k]) {
            lemma_word_end_prefix(x, s, k + 1);
        }
    }
}

proof fn lemma_words_append_from(x: Seq<char>, w: Seq<char>, i: int)
    requires
        0 <= i <= x.len(),
        char_is_whitespace(' '),
        w.len() > 0,
        no_white_space(w),
    ensures
        words_from(x + seq![' '] + w, i) == words_from(x, i) + seq![w],
    decreases x.len() - i,
{
    let s = x + seq![' '] + w;
    let n = x.len() as int;
    assert(s.subrange(0, n) =~= x);
    assert(s[n] == ' ');
    if i == n {
        assert forall|t: int| n + 1 <= t < s.len() implies !char_is_whitespace(#[trigger] s[t]) by {
            assert(s[t] == w[t - n - 1]);
        }
        assert(s[n + 1] == w[0]);
        lemma_word_end_to_end(s, n + 1);
        assert(s.subrange(n + 1, s.len() as int) =~= w);
        assert(words_from(s, n + 1) == seq![w] + words_from(s, s.len() as int));
        assert(words_from(s, n) == words_from(s, n + 1));
        assert(words_from(x, n) =~= seq![]);
        assert(words_from(s, i) =~= words_from(x, i) + seq![w]);
    } else {
        assert(s[i] == x[i]);
        if char_is_whitespace(x[i]) {
            lemma_words_append_from(x, w, i + 1);
        } else {
            lemma_word_end_prefix(x, s, i);
            lemma_word_end(x, i);
            let e = word_end(x, i);
            assert(i < e <= n);
            lemma_words_append_from(x, w, e);
            assert(s.subrange(i, e) =~= x.subrange(i, e));
            assert(words_from(s, i) == seq![s.subrange(i, e)] + words_from(s, e));
            assert(words_from(x, i) == seq![x.subrange(i, e)] + words_from(x, e));
            assert(words_from(s, i) =~= words_from(x, i) + seq![w]);
        }
    }
}

proof fn lemma_words_single(w: Seq<char>)
    requires
        w.len() > 0,
        no_white_space(w),
    ensures
        words_from(w, 0) == seq![w],
{
    lemma_word_end_to_end(w, 0);
    assert(w.subrange(0, w.len() as int) =~= w);
    assert(words_from(w, 0) =~= seq![w] + words_from(w, w.len() as int));
}

proof fn lemma_free_concat(a: Seq<char>, b: Seq<char>, c: char)
    requires
        free_of(a, c),
        free_of(b, c),
    ensures
        free_of(a + b, c),
{
    assert forall|i: int| 0 <= i < (a + b).len() implies (a + b)[i] != c by {
        if i < a.len() {
            assert((a + b)[i] == a[i]);
        } else {
            assert((a + b)[i] == b[i - a.len()]);
        }
    }
}

proof fn lemma_no_space_concat(a: Seq<char>, b: Seq<char>)
    requires
        no_white_space(a),
        no_white_space(b),
    ensures
        no_white_space(a + b),
{
    assert forall|i: int| 0 <= i < (a + b).len() implies !char_is_whitespace(#[trigger] (a + b)[i]) by {
        if i < a.len() {
            assert((a + b)[i] == a[i]);
        } else {
            assert((a + b)[i] == b[i - a.len()]);
        }
    }
}

/// Piece names that a written board keeps apart: no white space, no `/`
/// (which separates rows) and no `:` (which separates a name from its
/// color).
pub open spec fn names_writable(b: BoardV) -> bool {
    forall|y: int, x: int| #![trigger b.cells[y][x]]
        0 <= y < 8 && 0 <= x < 8 ==> (b.cells[y][x] matches CellV::Piece(pc) ==> {
            &&& no_white_space(pc.piece_type)
            &&& free_of(pc.piece_type, '/')
            &&& free_of(pc.piece_type, ':')
        })
}

/// What the server takes for white space: a space is, and no character of
/// `.`, `:`, `white` or `black` is.
pub open spec fn separators_as_written() -> bool {
    &&& char_is_whitespace(' ')
    &&& no_white_space("."@)
    &&& no_white_space(":"@)
    &&& no_white_space("white"@)
    &&& no_white_space("black"@)
}

proof fn lemma_separators_as_written()
    ensures
        separators_as_written(),
{
    reveal_strlit(".");
    reveal_strlit(":");
    reveal_strlit("white");
    reveal_strlit("black");
    assert("white"@ == seq!['w', 'h', 'i', 't', 'e']);
    assert("black"@ == seq!['b', 'l', 'a', 'c', 'k']);
}

proof fn lemma_cell_text(c: CellV)
    requires
        separators_as_written(),
        c matches CellV::Piece(pc) ==> no_white_space(pc.piece_type) && free_of(pc.piece_type, '/') && free_of(
            pc.piece_type,
            ':',
        ),
    ensures
        cell_text(c).len() > 0,
        no_white_space(cell_text(c)),
        free_of(cell_text(c), '/'),
        word_piece(cell_text(c)) == (match c {
            CellV::Piece(pc) => Some(pc),
            CellV::Empty => None::<PieceV>,
        }),
{
    reveal_strlit(".");
    reveal_strlit(":");
    reveal_strlit("white");
    reveal_strlit("black");
    match c {
        CellV::Empty => {
            let t = "."@;
            assert(t == seq!['.']);
            lemma_find_from_range(t, ':', 0);
            assert(find_from(t, ':', 0) is None);
        },
        CellV::Piece(pc) => {
            let name = pc.piece_type;
            let col = color_name(pc.color);
            assert(no_white_space(col));
            assert(free_of(col, '/'));
            assert(free_of(":"@, '/'));
            lemma_no_space_concat(name, ":"@);
            lemma_no_space_concat(name + ":"@, col);
            lemma_free_concat(name, ":"@, '/');
            lemma_free_concat(name + ":"@, col, '/');
            let t = name + ":"@ + col;
            assert(t[name.len() as int] == ':');
            assert forall|k: int| 0 <= k < name.len() implies t[k] != ':' by {
                assert(t[k] == name[k]);
            }
            lemma_find_from_first(t, ':', name.len() as int);
            assert(t.subrange(0, name.len() as int) =~= name);
            assert(t.subrange(name.len() as int + 1, t.len() as int) =~= col);
            assert("black"@ != "white"@) by {
                assert("black"@[0] != "white"@[0]);
            }
        },
    }
}

proof fn lemma_row_words(b: BoardV, y: int, n: int)
    requires
        1 <= n <= 8,
        0 <= y < 8,
        separators_as_written(),
        names_writable(b),
    ensures
        words_from(row_enc(b, y, n), 0) == Seq::new(n as nat, |x: int| cell_text(b.cells[y][x])),
        free_of(row_enc(b, y, n), '/'),
    decreases n,
{
    reveal_strlit(" ");
    lemma_cell_text(b.cells[y][n - 1]);
    if n == 1 {
        lemma_words_single(cell_text(b.cells[y][0]));
        assert(words_from(row_enc(b, y, n), 0) =~= Seq::new(n as nat, |x: int| cell_text(b.cells[y][x])));
    } else {
        lemma_row_words(b, y, n - 1);
        assert(" "@ == seq![' ']);
        let w = cell_text(b.cells[y][n - 1]);
        lemma_words_append_from(row_enc(b, y, n - 1), w, 0);
        assert(words_from(row_enc(b, y, n), 0) =~= Seq::new(n as nat, |x: int| cell_text(b.cells[y][x])));
        assert(free_of(" "@, '/'));
        lemma_free_concat(row_enc(b, y, n - 1), " "@, '/');
        lemma_free_concat(row_enc(b, y, n - 1) + " "@, w, '/');
    }
}

proof fn lemma_rows_split(b: BoardV, n: int)
    requires
        1 <= n <= 8,
        separators_as_written(),
        names_writable(b),
    ensures
        split(rows_enc(b, n), '/') == Seq::new(n as nat, |y: int| row_enc(b, y, 8)),
    decreases n,
{
    reveal_strlit("/");
    lemma_row_words(b, n - 1, 8);
    if n == 1 {
        let r = row_enc(b, 0, 8);
        lemma_find_from_range(r, '/', 0);
        assert(find_from(r, '/', 0) is None);
        assert(split(rows_enc(b, n), '/') =~= Seq::new(n as nat, |y: int| row_enc(b, y, 8)));
    } else {
        lemma_rows_split(b, n - 1);
        assert("/"@ == seq!['/']);
        lemma_split_append(rows_enc(b, n - 1), '/', row_enc(b, n - 1, 8));
        assert(split(rows_enc(b, n), '/') =~= Seq::new(n as nat, |y: int| row_enc(b, y, 8)));
    }
}

/// A board written by `encode_board_response` is read back by
/// `setup_board`: the position text lays out the same squares and fits the
/// 8x8 board. This holds for piece names without white space, `/` and `:`.
pub proof fn law_layout_round_trip(b: BoardV, x: int, y: int)
    requires
        names_writable(b),
        0 <= x < 8,
        0 <= y < 8,
    ensures
        layout_cell(rows_enc(b, 8), x, y) == b.cells[y][x],
        layout_fits(rows_enc(b, 8)),
{
    lemma_separators_as_written();
    lemma_rows_split(b, 8);
    lemma_row_words(b, y, 8);
    lemma_cell_text(b.cells[y][x]);
    let rows = split(rows_enc(b, 8), '/');
    assert forall|yy: int, xx: int| #![trigger words_from(rows[yy], 0)[xx]]
        0 <= yy < rows.len() && 0 <= xx < words_from(rows[yy], 0).len() && word_piece(words_from(rows[yy], 0)[xx])
            is Some implies yy < 8 && xx < 8 by {
        lemma_row_words(b, yy, 8);
    }
}

/// The side to move written by `encode_board_response` is read back by
/// `parse_turn`.
pub proof fn law_turn_round_trip(c: Color)
    ensures
        turn_v(color_name(c)) == c,
{
    reveal_strlit("white");
    reveal_strlit("black");
    assert("black"@[0] != "white"@[0]);
}

/// The castling flags written by `encode_board_response` are read back by
/// `parse_castling`.
pub proof fn law_castling_round_trip(white: bool, black: bool)
    ensures
        castling_v(flag_char(white) + flag_char(black)) == (white, black),
{
    reveal_strlit("1");
    reveal_strlit("0");
    let t = flag_char(white) + flag_char(black);
    assert(t[0] == flag_char(white)[0]);
    assert(t[1] == flag_char(black)[0]);
}

proof fn lemma_digit_char(d: int)
    requires
        0 <= d < 10,
    ensures
        is_digit(digit_char(d)),
        digit_char(d) as int - '0' as int == d,
        digit_char(d) != '/',
        digit_char(d) != ',',
        digit_char(d) != '+',
{
    reveal_strlit("0123456789");
    assert("0123456789"@ == seq!['0', '1', '2', '3', '4', '5', '6', '7', '8', '9']);
    if d == 0 {
    } else if d == 1 {
    } else if d == 2 {
    } else if d == 3 {
    } else if d == 4 {
    } else if d == 5 {
    } else if d == 6 {
    } else if d == 7 {
    } else if d == 8 {
    } else {
    }
}

proof fn lemma_digits_value_push(s: Seq<char>, c: char)
    ensures
        digits_value(s.push(c)) == digits_value(s) * 10 + (c as int - '0' as int),
{
    assert(s.push(c).drop_last() =~= s);
}

proof fn lemma_decimal(n: u8)
    ensures
        decimal(n).len() > 0,
        parse_u8_v(decimal(n)) == Some(n),
        free_of(decimal(n), '/'),
        free_of(decimal(n), ','),
{
    let t = decimal(n);
    let e: Seq<char> = seq![];
    assert(digits_value(e) == 0);
    if n < 10 {
        lemma_digit_char(n as int);
        lemma_digits_value_push(e, digit_char(n as int));
        assert(e.push(digit_char(n as int)) =~= t);
    } else if n < 100 {
        lemma_digit_char(n as int / 10);
        lemma_digit_char(n as int % 10);
        lemma_digits_value_push(e, digit_char(n as int / 10));
        let u = e.push(digit_char(n as int / 10));
        lemma_digits_value_push(u, digit_char(n as int % 10));
        assert(u.push(digit_char(n as int % 10)) =~= t);
        assert((n as int / 10) * 10 + n as int % 10 == n);
    } else {
        lemma_digit_char(n as int / 100);
        lemma_digit_char((n as int / 10) % 10);
        lemma_digit_char(n as int % 10);
        lemma_digits_value_push(e, digit_char(n as int / 100));
        let u = e.push(digit_char(n as int / 100));
        lemma_digits_value_push(u, digit_char((n as int / 10) % 10));
        let w = u.push(digit_char((n as int / 10) % 10));
        lemma_digits_value_push(w, digit_char(n as int % 10));
        assert(w.push(digit_char(n as int % 10)) =~= t);
        assert(((n as int / 100) * 10 + (n as int / 10) % 10) * 10 + n as int % 10 == n);
    }
    assert(all_digits(t));
}

proof fn lemma_square_text(p: Position)
    ensures
        coord_v(square_text(p)) == Some(p),
        free_of(square_text(p), '/'),
{
    reveal_strlit(",");
    lemma_decimal(p.0);
    lemma_decimal(p.1);
    let a = decimal(p.0);
    let b = decimal(p.1);
    let t = a + ","@ + b;
    assert(","@ == seq![',']);
    assert(t[a.len() as int] == ',');
    assert forall|k: int| 0 <= k < a.len() implies t[k] != ',' by {
        assert(t[k] == a[k]);
    }
    lemma_find_from_first(t, ',', a.len() as int);
    assert(t.subrange(0, a.len() as int) =~= a);
    assert(t.subrange(a.len() as int + 1, t.len() as int) =~= b);
    assert(free_of(","@, '/'));
    lemma_free_concat(a, ","@, '/');
    lemma_free_concat(a + ","@, b, '/');
}

proof fn lemma_squares_split(v: Seq<Position>)
    requires
        v.len() > 0,
    ensures
        split(squares_text(v), '/') == v.map_values(|p: Position| square_text(p)),
    decreases v.len(),
{
    reveal_strlit("/");
    lemma_square_text(v.last());
    if v.len() == 1 {
        let r = square_text(v[0]);
        lemma_find_from_range(r, '/', 0);
        assert(find_from(r, '/', 0) is None);
        assert(split(squares_text(v), '/') =~= v.map_values(|p: Position| square_text(p)));
    } else {
        lemma_squares_split(v.drop_last());
        assert("/"@ == seq!['/']);
        lemma_split_append(squares_text(v.drop_last()), '/', square_text(v.last()));
        assert(split(squares_text(v), '/') =~= v.map_values(|p: Position| square_text(p)));
    }
}

proof fn lemma_coords_of_squares(v: Seq<Position>)
    ensures
        coords_of(v.map_values(|p: Position| square_text(p))) == v,
    decreases v.len(),
{
    let t = v.map_values(|p: Position| square_text(p));
    if v.len() > 0 {
        lemma_coords_of_squares(v.drop_last());
        assert(t.drop_last() =~= v.drop_last().map_values(|p: Position| square_text(p)));
        lemma_square_text(v.last());
        assert(t.last() == square_text(v.last()));
        assert(v.drop_last().push(v.last()) =~= v);
    } else {
        assert(t.len() == 0);
        assert(coords_of(t) =~= v);
    }
}

/// The en-passant squares written by `encode_board_response` are read back
/// by `parse_positions`.
pub proof fn law_en_passant_round_trip(v: Seq<Position>)
    ensures
        positions_v(ep_text(v)) == v,
{
    if v.len() == 0 {
        reveal_strlit(".");
        let t = "."@;
        assert(t == seq!['.']);
        lemma_find_from_range(t, '/', 0);
        lemma_find_from_range(t, ',', 0);
        assert(split(t, '/') == seq![t]);
        assert(coord_v(t) is None);
        let ps = split(t, '/');
        assert(ps.drop_last() =~= seq![]);
        assert(coords_of(ps.drop_last()) == Seq::<Position>::empty());
        assert(ps.last() == t);
        assert(positions_v(ep_text(v)) =~= v);
    } else {
        lemma_squares_split(v);
        lemma_coords_of_squares(v);
    }
}

} // verus!
