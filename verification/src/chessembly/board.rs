//! The board: squares, side states, the side to move and the move cache.
use vstd::prelude::*;

use super::behavior::behavior_wf;
use super::semantics::{
    apply_move_v, apply_unit_v, cell_v, color_on_v, dp_wf, piece_on_v, BoardV, DpV, SideV,
};
use super::text::str_eq;
use super::{
    copy_moves, moves_v, opt_str_v, pairs_v, ChessMove, ChessMoveUnit, ChessemblyCompiled,
    Color, MoveType, MoveV, Piece, PieceSpan, PieceV, Position, UnitV, CellV, unit_wf, move_wf, in_board,
};

verus! {

/// Whether the game goes on.
#[derive(Copy, Clone, PartialEq, Eq, Structural, PartialOrd, Debug)]
pub enum BoardStatus {
    Ongoing,
    Stalemate,
    Checkmate,
}

/// One side's castling rights, en-passant squares and script registers.
#[derive(PartialEq, Eq, Debug)]
pub struct BoardState<'a> {
    pub castling_oo: bool,
    pub castling_ooo: bool,
    pub enpassant: Vec<Position>,
    pub register: Vec<(&'a str, u8)>,
}

/// The states of both sides.
#[derive(PartialEq, Eq, Debug)]
pub struct BothBoardState<'a> {
    pub black: BoardState<'a>,
    pub white: BoardState<'a>,
}

/// A position of a chess variant whose pieces move by `script`. `MACHO`
/// selects the variant where a king must advance to the far rank, and
/// `IMPRISONED` the one where kings cannot move. `dp` caches the moves found
/// for each square of this position.
#[derive(Debug)]
pub struct Board<'a, const MACHO: bool, const IMPRISONED: bool, const SIZE: usize> {
    pub board: [[PieceSpan<'a>; SIZE]; SIZE],
    pub board_state: BothBoardState<'a>,
    pub turn: Color,
    pub script: &'a ChessemblyCompiled<'a>,
    pub status: BoardStatus,
    pub dp: Vec<(Position, Vec<ChessMove<'a>>)>,
}

impl<'a> View for BoardState<'a> {
    type V = SideV;

    open spec fn view(&self) -> SideV {
        SideV {
            castling_oo: self.castling_oo,
            castling_ooo: self.castling_ooo,
            enpassant: self.enpassant@,
            register: pairs_v(self.register@),
        }
    }
}

pub open spec fn row_v<'a, const SIZE: usize>(row: [PieceSpan<'a>; SIZE]) -> Seq<CellV> {
    row@.map_values(|c: PieceSpan<'a>| c@)
}

impl<'a, const MACHO: bool, const IMPRISONED: bool, const SIZE: usize> View for Board<
    'a,
    MACHO,
    IMPRISONED,
    SIZE,
> {
    type V = BoardV;

    open spec fn view(&self) -> BoardV {
        BoardV {
            cells: self.board@.map_values(|row: [PieceSpan<'a>; SIZE]| row_v(row)),
            white: self.board_state.white@,
            black: self.board_state.black@,
            turn: self.turn,
            status: self.status,
        }
    }
}

/// A copy of a list of squares.
pub fn copy_positions(v: &Vec<Position>) -> (r: Vec<Position>)
    ensures
        r@ == v@,
{
    let mut r: Vec<Position> = Vec::new();
    let mut i: usize = 0;
    while i < v.len()
        invariant
            i <= v@.len(),
            r@ =~= v@.subrange(0, i as int),
        decreases v@.len() - i,
    {
        r.push(v[i]);
        i += 1;
    }
    assert(v@.subrange(0, v@.len() as int) =~= v@);
    r
}

impl<'a> BoardState<'a> {
    /// A fresh side state: both castlings allowed, nothing else.
    pub fn initial() -> (s: BoardState<'a>)
        ensures
            s@ == (SideV { castling_oo: true, castling_ooo: true, enpassant: seq![], register: seq![] }),
    {
        let s = BoardState {
            castling_oo: true,
            castling_ooo: true,
            enpassant: Vec::new(),
            register: Vec::new(),
        };
        assert(pairs_v(s.register@) =~= seq![]);
        s
    }

    /// A copy of this state.
    pub fn copy(&self) -> (s: BoardState<'a>)
        ensures
            s@ == self@,
    {
        BoardState {
            castling_oo: self.castling_oo,
            castling_ooo: self.castling_ooo,
            enpassant: copy_positions(&self.enpassant),
            register: super::copy_pairs(&self.register),
        }
    }

    /// Register `key` (0 when it was never set).
    pub fn get_register(&self, key: &str) -> (r: u8)
        ensures
            r == super::semantics::reg_get(self@.register, key@),
    {
        let ghost reg = pairs_v(self.register@);
        let mut i: usize = 0;
        while i < self.register.len()
            invariant
                i <= self.register@.len(),
                reg == pairs_v(self.register@),
                forall|k: int| 0 <= k < i ==> !(#[trigger] super::semantics::at_key(key@)(reg[k])),
            decreases self.register@.len() - i,
        {
            assert(reg[i as int].0 == self.register@[i as int].0@);
            if str_eq(self.register[i].0, key) {
                proof {
                    super::semantics::lemma_first_where_at(reg, super::semantics::at_key(key@), i as int);
                }
                return self.register[i].1;
            }
            i += 1;
        }
        proof {
            super::semantics::lemma_first_where(reg, super::semantics::at_key(key@));
        }
        0
    }

    /// Sets register `key` to `value`, replacing an earlier value of the same key.
    pub fn set_register(&mut self, key: &'a str, value: u8)
        ensures
            final(self).castling_oo == old(self).castling_oo,
            final(self).castling_ooo == old(self).castling_ooo,
            final(self).enpassant@ == old(self).enpassant@,
            final(self)@.register == super::semantics::reg_set(old(self)@.register, key@, value),
    {
        let mut i: usize = 0;
        while i < self.register.len()
            invariant
                i <= self.register@.len(),
                self.register@ == old(self).register@,
                self.castling_oo == old(self).castling_oo,
                self.castling_ooo == old(self).castling_ooo,
                self.enpassant@ == old(self).enpassant@,
                forall|k: int| 0 <= k < i ==> (#[trigger] self.register@[k]).0@ != key@,
            decreases self.register@.len() - i,
        {
            if str_eq(self.register[i].0, key) {
                let ghost reg = pairs_v(self.register@);
                assert(reg[i as int].0 == key@);
                proof {
                    assert forall|j: int| 0 <= j < i implies !(#[trigger] super::semantics::at_key(key@)(reg[j])) by {
                        assert(reg[j].0 == self.register@[j].0@);
                    }
                    super::semantics::lemma_first_where_at(reg, super::semantics::at_key(key@), i as int);
                }
                self.register.set(i, (key, value));
                assert(pairs_v(self.register@) =~= reg.update(i as int, (key@, value)));
                return;
            }
            i += 1;
        }
        let ghost reg = pairs_v(self.register@);
        proof {
            super::semantics::lemma_first_where(reg, super::semantics::at_key(key@));
            if super::semantics::first_where(reg, super::semantics::at_key(key@)) is Some {
                let j = super::semantics::first_where(reg, super::semantics::at_key(key@))->0;
                assert(reg[j].0 == self.register@[j].0@);
            }
        }
        self.register.push((key, value));
        assert(pairs_v(self.register@) =~= reg.push((key@, value)));
    }
}

impl<'a> BothBoardState<'a> {
    /// A copy of both states.
    pub fn copy(&self) -> (s: BothBoardState<'a>)
        ensures
            s.black@ == self.black@,
            s.white@ == self.white@,
    {
        BothBoardState { black: self.black.copy(), white: self.white.copy() }
    }
}

pub open spec fn dp_view<'a>(dp: Seq<(Position, Vec<ChessMove<'a>>)>) -> DpV {
    dp.map_values(|e: (Position, Vec<ChessMove<'a>>)| (e.0, moves_v(e.1@)))
}

impl<'a, const MACHO: bool, const IMPRISONED: bool, const SIZE: usize> Board<
    'a,
    MACHO,
    IMPRISONED,
    SIZE,
> {
    /// The variant flags and the board's script.
    pub open spec fn ctx(&self) -> super::semantics::Ctx {
        super::semantics::Ctx { macho: MACHO, impr: IMPRISONED, bs: self.script@ }
    }

    /// The move cache as a sequence of (square, moves) entries.
    pub open spec fn dp_v(&self) -> DpV {
        dp_view(self.dp@)
    }

    /// An 8x8 board, a script whose instructions all run safely, and a cache
    /// whose entries are well-formed moves starting at their square.
    pub open spec fn wf(&self) -> bool {
        &&& SIZE == 8
        &&& self.script.wf()
        &&& dp_wf(self.dp_v())
    }

    /// The board with every square empty.
    pub open spec fn cells_empty(b: BoardV) -> bool {
        &&& b.cells.len() == 8
        &&& forall|y: int| 0 <= y < 8 ==> (#[trigger] b.cells[y]).len() == 8
        &&& forall|y: int, x: int| 0 <= y < 8 && 0 <= x < 8 ==> b.cells[y][x] is Empty
    }

    /// The piece name on a square, if the square is on the board and occupied.
    #[inline]
    pub fn piece_on(&self, position: &Position) -> (r: Option<&'a str>)
        requires
            1 <= SIZE <= 255,
        ensures
            opt_str_v(r) == super::semantics::piece_on_sized(self@, SIZE as int, *position),
            SIZE == 8 ==> opt_str_v(r) == piece_on_v(self@, *position),
            SIZE >= 8 && in_board(*position) ==> opt_str_v(r) == piece_on_v(self@, *position),
    {
        let last = (SIZE as u8) - 1;
        if position.0 > last || position.1 > last {
            return None;
        }
        let row = self.board[position.1 as usize];
        match row[position.0 as usize] {
            PieceSpan::Piece(piece) => Some(piece.piece_type),
            PieceSpan::Empty => None,
        }
    }

    /// The side of the piece on a square, if the square is on the board and occupied.
    #[inline]
    pub fn color_on(&self, position: &Position) -> (r: Option<Color>)
        requires
            1 <= SIZE <= 255,
        ensures
            r == super::semantics::color_on_sized(self@, SIZE as int, *position),
            SIZE == 8 ==> r == color_on_v(self@, *position),
            SIZE >= 8 && in_board(*position) ==> r == color_on_v(self@, *position),
    {
        let last = (SIZE as u8) - 1;
        if position.0 > last || position.1 > last {
            return None;
        }
        let row = self.board[position.1 as usize];
        match row[position.0 as usize] {
            PieceSpan::Piece(piece) => Some(piece.color),
            PieceSpan::Empty => None,
        }
    }

    #[inline]
    pub fn status(&self) -> (r: BoardStatus)
        ensures
            r == self.status,
    {
        self.status
    }

    #[inline]
    pub fn side_to_move(&self) -> (r: Color)
        ensures
            r == self.turn,
    {
        self.turn
    }

    #[inline]
    pub fn get_width(&self) -> (r: usize)
        ensures
            r == 8,
    {
        8
    }

    #[inline]
    pub fn get_height(&self) -> (r: usize)
        ensures
            r == 8,
    {
        8
    }

    /// Writes a square.
    pub fn set_cell(&mut self, x: usize, y: usize, p: PieceSpan<'a>)
        requires
            x < SIZE,
            y < SIZE,
        ensures
            final(self)@ == (BoardV {
                cells: old(self)@.cells.update(y as int, old(self)@.cells[y as int].update(x as int, p@)),
                ..old(self)@
            }),
            final(self).dp == old(self).dp,
            final(self).script == old(self).script,
    {
        let mut row = self.board[y];
        let ghost old_row = row;
        row.set(x, p);
        assert(row@ == old_row@.update(x as int, p));
        assert(row_v(row) =~= row_v(old_row).update(x as int, p@));
        self.board.set(y, row);
        assert(self.board@ == old(self).board@.update(y as int, row));
        assert(self@.cells =~= old(self)@.cells.update(
            y as int,
            old(self)@.cells[y as int].update(x as int, p@),
        ));
    }

    /// Reads a square.
    pub fn get_cell(&self, x: usize, y: usize) -> (p: PieceSpan<'a>)
        requires
            x < SIZE,
            y < SIZE,
        ensures
            p@ == self@.cells[y as int][x as int],
            x < 256 && y < 256 ==> p@ == cell_v(self@, (x as u8, y as u8)),
    {
        let row = self.board[y];
        row[x]
    }

    /// A copy of the position with an empty move cache.
    #[inline]
    pub fn clone_without_dp(&self) -> (b: Board<'a, MACHO, IMPRISONED, SIZE>)
        ensures
            b@ == self@,
            b.script == self.script,
            b.dp@.len() == 0,
    {
        Board {
            board: self.board,
            board_state: self.board_state.copy(),
            turn: self.turn,
            script: self.script,
            status: self.status,
            dp: Vec::new(),
        }
    }
}

impl<'a, const MACHO: bool, const IMPRISONED: bool, const SIZE: usize> Board<
    'a,
    MACHO,
    IMPRISONED,
    SIZE,
> {
    /// Swaps two squares of row `y`.
    fn swap_cells(&mut self, y: u8, x1: u8, x2: u8)
        requires
            x1 < SIZE,
            x2 < SIZE,
            y < SIZE,
        ensures
            final(self)@ == super::semantics::swap_cells_v(old(self)@, y, x1, x2),
            final(self).dp == old(self).dp,
            final(self).script == old(self).script,
    {
        let c1 = self.get_cell(x1 as usize, y as usize);
        let c2 = self.get_cell(x2 as usize, y as usize);
        self.set_cell(x1 as usize, y as usize, c2);
        self.set_cell(x2 as usize, y as usize, c1);
    }

    /// The piece arriving from `from`: the transition piece (of the mover's
    /// side) if there is one, else the mover itself.
    fn arriving(&self, from: Position, transition: Option<&'a str>) -> (p: PieceSpan<'a>)
        requires
            from.0 < SIZE,
            from.1 < SIZE,
        ensures
            p@ == super::semantics::arriving_v(self@, from, opt_str_v(transition)),
    {
        let here = self.get_cell(from.0 as usize, from.1 as usize);
        match transition {
            Some(x) => PieceSpan::Piece(
                Piece {
                    piece_type: x,
                    color: match here {
                        PieceSpan::Empty => Color::White,
                        PieceSpan::Piece(piece) => piece.color,
                    },
                },
            ),
            None => here,
        }
    }

    /// Applies one state change for the side to move.
    fn apply_state_change(&mut self, key: &str, n: u8, move_to: Position)
        ensures
            final(self)@ == super::semantics::apply_state_change_v(old(self)@, key@, n, move_to),
            final(self).dp == old(self).dp,
            final(self).script == old(self).script,
            final(self).board == old(self).board,
    {
        if str_eq(key, "castling-oo") {
            if self.turn == Color::White {
                self.board_state.white.castling_oo = n > 0;
            } else {
                self.board_state.black.castling_oo = n > 0;
            }
        } else if str_eq(key, "castling-ooo") {
            if self.turn == Color::White {
                self.board_state.white.castling_ooo = n > 0;
            } else {
                self.board_state.black.castling_ooo = n > 0;
            }
        } else if str_eq(key, "en-passant") {
            if self.turn == Color::White {
                self.board_state.black.enpassant.push(move_to);
            } else {
                self.board_state.white.enpassant.push(move_to);
            }
        }
    }

    /// Plays one move unit on `ret` (the side to move stays the same).
    pub fn run_node_unit(ret: &mut Board<'a, MACHO, IMPRISONED, SIZE>, node: &ChessMoveUnit<'a>)
        requires
            unit_fits(node@, SIZE as int),
        ensures
            final(ret)@ == apply_unit_v(old(ret)@, node@),
            final(ret).dp == old(ret).dp,
            final(ret).script == old(ret).script,
    {
        let ghost b0 = ret@;
        if node.move_type == MoveType::Castling {
            ret.swap_cells(node.move_to.1, node.move_to.0, node.from.0);
            if node.from.0 < node.move_to.0 {
                ret.swap_cells(node.move_to.1, 7, 5);
            } else if node.from.0 > node.move_to.0 {
                ret.swap_cells(node.move_to.1, 0, 3);
            }
        } else if node.move_type == MoveType::Shift {
            let shifter = ret.arriving(node.from, node.transition);
            let there = ret.get_cell(node.move_to.0 as usize, node.move_to.1 as usize);
            ret.set_cell(node.from.0 as usize, node.from.1 as usize, there);
            ret.set_cell(node.move_to.0 as usize, node.move_to.1 as usize, shifter);
        } else {
            ret.set_cell(node.take.0 as usize, node.take.1 as usize, PieceSpan::Empty);
            let arriving = ret.arriving(node.from, node.transition);
            ret.set_cell(node.move_to.0 as usize, node.move_to.1 as usize, arriving);
            ret.set_cell(node.from.0 as usize, node.from.1 as usize, PieceSpan::Empty);
        }
        let ghost b1 = ret@;
        assert(b1 == super::semantics::move_cells_v(b0, node@));
        match &node.state_change {
            Some(sc) => {
                let ghost scv = pairs_v(sc@);
                let mut i: usize = 0;
                while i < sc.len()
                    invariant
                        i <= sc@.len(),
                        scv == pairs_v(sc@),
                        ret@ == super::semantics::apply_state_changes_v(b1, scv.subrange(0, i as int), node.move_to),
                        ret.dp == old(ret).dp,
                        ret.script == old(ret).script,
                    decreases sc@.len() - i,
                {
                    let (key, n) = sc[i];
                    ret.apply_state_change(key, n, node.move_to);
                    assert(scv.subrange(0, i + 1).drop_last() =~= scv.subrange(0, i as int));
                    i += 1;
                }
                assert(scv.subrange(0, sc@.len() as int) =~= scv);
            },
            None => {},
        }
    }

    /// The position after `node`, with an empty move cache and the same side
    /// to move.
    pub fn apply_move(&self, node: &ChessMove<'a>) -> (r: Board<'a, MACHO, IMPRISONED, SIZE>)
        requires
            SIZE == 8,
            move_wf(node@),
        ensures
            r@ == apply_move_v(self@, node@),
            r.dp@.len() == 0,
            r.script == self.script,
    {
        let mut ret = self.clone_without_dp();
        match node {
            ChessMove::Single(u) => Self::run_node_unit(&mut ret, u),
            ChessMove::Multiple(us) => {
                let ghost uv = super::units_v(us@);
                let mut i: usize = 0;
                while i < us.len()
                    invariant
                        i <= us@.len(),
                        SIZE == 8,
                        uv == super::units_v(us@),
                        move_wf(node@),
                        node@ == super::MoveV::Multiple(uv),
                        ret@ == super::semantics::apply_units_v(self@, uv.subrange(0, i as int)),
                        ret.dp@.len() == 0,
                        ret.script == self.script,
                    decreases us@.len() - i,
                {
                    assert(unit_wf(uv[i as int]));
                    Self::run_node_unit(&mut ret, &us[i]);
                    assert(uv.subrange(0, i + 1).drop_last() =~= uv.subrange(0, i as int));
                    i += 1;
                }
                assert(uv.subrange(0, us@.len() as int) =~= uv);
            },
        }
        ret
    }
}

/// A fresh side state: both castlings allowed, nothing else.
pub open spec fn initial_side() -> SideV {
    SideV { castling_oo: true, castling_ooo: true, enpassant: seq![], register: seq![] }
}

/// The piece standing on column `x` of a back rank at the start.
pub open spec fn back_rank(x: int) -> Seq<char> {
    if x == 0 || x == 7 {
        "rook"@
    } else if x == 1 || x == 6 {
        "knight"@
    } else if x == 2 || x == 5 {
        "bishop"@
    } else if x == 3 {
        "queen"@
    } else {
        "king"@
    }
}

/// The standard starting position: black on rows 0 and 1, white on rows 6 and 7.
pub open spec fn start_cell(x: int, y: int) -> CellV {
    if y == 0 {
        CellV::Piece(PieceV { piece_type: back_rank(x), color: Color::Black })
    } else if y == 1 {
        CellV::Piece(PieceV { piece_type: "pawn"@, color: Color::Black })
    } else if y == 6 {
        CellV::Piece(PieceV { piece_type: "pawn"@, color: Color::White })
    } else if y == 7 {
        CellV::Piece(PieceV { piece_type: back_rank(x), color: Color::White })
    } else {
        CellV::Empty
    }
}

/// The piece a placement character stands for (upper case white, lower case
/// black), or an empty square.
pub open spec fn piece_of_char(c: char) -> CellV {
    let (name, color) = if c == 'Q' {
        ("queen"@, Color::White)
    } else if c == 'N' {
        ("knight"@, Color::White)
    } else if c == 'K' {
        ("king"@, Color::White)
    } else if c == 'B' {
        ("bishop"@, Color::White)
    } else if c == 'R' {
        ("rook"@, Color::White)
    } else if c == 'P' {
        ("pawn"@, Color::White)
    } else if c == 'q' {
        ("queen"@, Color::Black)
    } else if c == 'n' {
        ("knight"@, Color::Black)
    } else if c == 'k' {
        ("king"@, Color::Black)
    } else if c == 'b' {
        ("bishop"@, Color::Black)
    } else if c == 'r' {
        ("rook"@, Color::Black)
    } else if c == 'p' {
        ("pawn"@, Color::Black)
    } else {
        (seq![], Color::White)
    };
    if name.len() == 0 {
        CellV::Empty
    } else {
        CellV::Piece(PieceV { piece_type: name, color })
    }
}

/// Square (x, y) of a placement text: its character at `9*y + x` (rows of
/// eight characters and a separator).
pub open spec fn placement_cell(cs: Seq<char>, x: int, y: int) -> CellV {
    if y * 9 + x < cs.len() {
        piece_of_char(cs[y * 9 + x])
    } else {
        CellV::Empty
    }
}

/// The character drawing a square: a letter for the standard pieces (upper
/// case white), the name's first character for the others, a space for an
/// empty square.
pub open spec fn cell_char(c: CellV) -> char {
    match c {
        CellV::Empty => ' ',
        CellV::Piece(pc) => {
            let w = pc.color == Color::White;
            let n = pc.piece_type;
            if n == "pawn"@ {
                if w { 'P' } else { 'p' }
            } else if n == "rook"@ {
                if w { 'R' } else { 'r' }
            } else if n == "bishop"@ {
                if w { 'B' } else { 'b' }
            } else if n == "knight"@ {
                if w { 'N' } else { 'n' }
            } else if n == "king"@ {
                if w { 'K' } else { 'k' }
            } else if n == "queen"@ {
                if w { 'Q' } else { 'q' }
            } else {
                n[0]
            }
        },
    }
}

/// Rows `0..y` drawn, each followed by a line break.
pub open spec fn rows_text(b: BoardV, y: int) -> Seq<char>
    decreases y,
{
    if y <= 0 {
        seq![]
    } else {
        rows_text(b, y - 1) + row_text(b, y - 1, 8) + seq!['\n']
    }
}

/// The first `x` squares of row `y`, drawn.
pub open spec fn row_text(b: BoardV, y: int, x: int) -> Seq<char>
    decreases x,
{
    if x <= 0 {
        seq![]
    } else {
        row_text(b, y, x - 1).push(cell_char(b.cells[y][x - 1]))
    }
}

/// Whether the squares a unit reads and writes lie on a board `n` squares
/// wide and high: for castling the king's and rook's files on the
/// destination rank (files 7 and 5, or 0 and 3, when it moves sideways);
/// for a shift its source and destination; otherwise also its captured
/// square.
pub open spec fn unit_fits(u: UnitV, n: int) -> bool {
    if u.move_type == MoveType::Castling {
        &&& u.move_to.0 < n
        &&& u.move_to.1 < n
        &&& u.from.0 < n
        &&& (u.from.0 < u.move_to.0 ==> 7 < n)
        &&& (u.from.0 > u.move_to.0 ==> 3 < n)
    } else if u.move_type == MoveType::Shift {
        u.from.0 < n && u.from.1 < n && u.move_to.0 < n && u.move_to.1 < n
    } else {
        &&& u.from.0 < n && u.from.1 < n
        &&& u.move_to.0 < n && u.move_to.1 < n
        &&& u.take.0 < n && u.take.1 < n
    }
}

/// Every piece has a non-empty name.
pub open spec fn names_nonempty(b: BoardV) -> bool {
    forall|y: int, x: int| #![trigger b.cells[y][x]]
        0 <= y < 8 && 0 <= x < 8 ==> (b.cells[y][x] matches CellV::Piece(pc) ==> pc.piece_type.len() > 0)
}

impl<'a, const MACHO: bool, const IMPRISONED: bool, const SIZE: usize> Board<
    'a,
    MACHO,
    IMPRISONED,
    SIZE,
> {
    /// The 8x8 shape of the squares.
    pub open spec fn shaped(b: BoardV) -> bool {
        &&& b.cells.len() == 8
        &&& forall|y: int| 0 <= y < 8 ==> (#[trigger] b.cells[y]).len() == 8
    }

    /// An empty board, white to move.
    pub fn empty(script: &'a ChessemblyCompiled<'a>) -> (r: Board<'a, MACHO, IMPRISONED, SIZE>)
        ensures
            r@.cells.len() == SIZE,
            forall|y: int| 0 <= y < SIZE ==> (#[trigger] r@.cells[y]).len() == SIZE,
            forall|y: int, x: int| 0 <= y < SIZE && 0 <= x < SIZE ==> r@.cells[y][x] is Empty,
            SIZE == 8 ==> Self::cells_empty(r@),
            r@.white == initial_side(),
            r@.black == initial_side(),
            r@.turn == Color::White,
            r@.status == BoardStatus::Ongoing,
            r.dp@.len() == 0,
            r.script == script,
    {
        let row: [PieceSpan<'a>; SIZE] = [PieceSpan::Empty; SIZE];
        let r = Board {
            dp: Vec::new(),
            board: [row; SIZE],
            board_state: BothBoardState { black: BoardState::initial(), white: BoardState::initial() },
            script,
            turn: Color::White,
            status: BoardStatus::Ongoing,
        };
        assert forall|y: int| 0 <= y < SIZE implies (#[trigger] r@.cells[y]).len() == SIZE by {
            assert(r.board@[y] == row);
        }
        assert forall|y: int, x: int| 0 <= y < SIZE && 0 <= x < SIZE implies r@.cells[y][x] is Empty by {
            assert(r.board@[y] == row);
            assert(row@[x] == PieceSpan::<'a>::Empty);
        }
        r
    }

    /// The standard starting position, white to move.
    pub fn new(script: &'a ChessemblyCompiled<'a>) -> (r: Board<'a, MACHO, IMPRISONED, 8>)
        ensures
            Board::<'a, MACHO, IMPRISONED, 8>::shaped(r@),
            forall|y: int, x: int| #![trigger r@.cells[y][x]]
                0 <= y < 8 && 0 <= x < 8 ==> r@.cells[y][x] == start_cell(x, y),
            r@.white == initial_side(),
            r@.black == initial_side(),
            r@.turn == Color::White,
            r@.status == BoardStatus::Ongoing,
            r.dp@.len() == 0,
            r.script == script,
    {
        let mut r = Board::<'a, MACHO, IMPRISONED, 8>::empty(script);
        let names = ["rook", "knight", "bishop", "queen", "king", "bishop", "knight", "rook"];
        let mut x: usize = 0;
        while x < 8
            invariant
                x <= 8,
                names@ == seq!["rook", "knight", "bishop", "queen", "king", "bishop", "knight", "rook"],
                Board::<'a, MACHO, IMPRISONED, 8>::shaped(r@),
                forall|y: int, k: int| #![trigger r@.cells[y][k]]
                    0 <= y < 8 && 0 <= k < 8 ==> r@.cells[y][k] == (if k < x { start_cell(k, y) } else { CellV::Empty }),
                r@.white == initial_side(),
                r@.black == initial_side(),
                r@.turn == Color::White,
                r@.status == BoardStatus::Ongoing,
                r.dp@.len() == 0,
                r.script == script,
            decreases 8 - x,
        {
            let name = names[x];
            proof {
                reveal_strlit("rook");
                reveal_strlit("knight");
                reveal_strlit("bishop");
                reveal_strlit("queen");
                reveal_strlit("king");
            }
            assert(name@ == back_rank(x as int));
            r.set_cell(x, 0, PieceSpan::Piece(Piece { piece_type: name, color: Color::Black }));
            r.set_cell(x, 1, PieceSpan::Piece(Piece { piece_type: "pawn", color: Color::Black }));
            r.set_cell(x, 6, PieceSpan::Piece(Piece { piece_type: "pawn", color: Color::White }));
            r.set_cell(x, 7, PieceSpan::Piece(Piece { piece_type: name, color: Color::White }));
            x += 1;
        }
        r
    }

    /// A position read from a placement text: the character at `9*i + j`
    /// gives square (j, i), `QNKBRP` white, `qnkbrp` black, anything else
    /// (or a missing character) an empty square; white to move.
    pub fn from_str(placement: &str, script: &'a ChessemblyCompiled<'a>) -> (r: Board<'a, MACHO, IMPRISONED, 8>)
        ensures
            Board::<'a, MACHO, IMPRISONED, 8>::shaped(r@),
            forall|y: int, x: int| #![trigger r@.cells[y][x]]
                0 <= y < 8 && 0 <= x < 8 ==> r@.cells[y][x] == placement_cell(placement@, x, y),
            r@.white == initial_side(),
            r@.black == initial_side(),
            r@.turn == Color::White,
            r@.status == BoardStatus::Ongoing,
            r.dp@.len() == 0,
            r.script == script,
    {
        let mut r = Board::<'a, MACHO, IMPRISONED, 8>::empty(script);
        let n = placement.unicode_len();
        let mut k: usize = 0;
        while k < 64
            invariant
                k <= 64,
                n == placement@.len(),
                Board::<'a, MACHO, IMPRISONED, 8>::shaped(r@),
                forall|y: int, x: int| #![trigger r@.cells[y][x]]
                    0 <= y < 8 && 0 <= x < 8 ==> r@.cells[y][x] == (if y * 8 + x < k {
                        placement_cell(placement@, x, y)
                    } else {
                        CellV::Empty
                    }),
                r@.white == initial_side(),
                r@.black == initial_side(),
                r@.turn == Color::White,
                r@.status == BoardStatus::Ongoing,
                r.dp@.len() == 0,
                r.script == script,
            decreases 64 - k,
        {
            let i = k / 8;
            let j = k % 8;
            let idx = i * 9 + j;
            if idx < n {
                let c = placement.get_char(idx);
                let piece: Option<(&'static str, Color)> = match c {
                    'Q' => Some(("queen", Color::White)),
                    'N' => Some(("knight", Color::White)),
                    'K' => Some(("king", Color::White)),
                    'B' => Some(("bishop", Color::White)),
                    'R' => Some(("rook", Color::White)),
                    'P' => Some(("pawn", Color::White)),
                    'q' => Some(("queen", Color::Black)),
                    'n' => Some(("knight", Color::Black)),
                    'k' => Some(("king", Color::Black)),
                    'b' => Some(("bishop", Color::Black)),
                    'r' => Some(("rook", Color::Black)),
                    'p' => Some(("pawn", Color::Black)),
                    _ => None,
                };
                proof {
                    reveal_strlit("queen");
                    reveal_strlit("knight");
                    reveal_strlit("king");
                    reveal_strlit("bishop");
                    reveal_strlit("rook");
                    reveal_strlit("pawn");
                }
                match piece {
                    Some((name, color)) => {
                        r.set_cell(j, i, PieceSpan::Piece(Piece { piece_type: name, color }));
                    },
                    None => {},
                }
            }
            k += 1;
        }
        r
    }

    /// The squares drawn row by row from the top, each row followed by a line
    /// break (see `cell_char`).
    pub fn to_string(&self) -> (r: String)
        requires
            SIZE == 8,
            Self::shaped(self@),
            names_nonempty(self@),
        ensures
            r@ == rows_text(self@, 8),
    {
        let mut ret = String::new();
        let mut j: u8 = 0;
        while j < 8
            invariant
                j <= 8,
                SIZE == 8,
                Self::shaped(self@),
                names_nonempty(self@),
                ret@ == rows_text(self@, j as int),
            decreases 8 - j,
        {
            let ghost before = ret@;
            let mut i: u8 = 0;
            while i < 8
                invariant
                    i <= 8,
                    j < 8,
                    SIZE == 8,
                    Self::shaped(self@),
                    names_nonempty(self@),
                    ret@ == before + row_text(self@, j as int, i as int),
                decreases 8 - i,
            {
                let cell = self.get_cell(i as usize, j as usize);
                let ghost cv = self@.cells[j as int][i as int];
                assert(cell@ == cv);
                proof {
                    reveal_strlit(" ");
                    reveal_strlit("P");
                    reveal_strlit("p");
                    reveal_strlit("R");
                    reveal_strlit("r");
                    reveal_strlit("B");
                    reveal_strlit("b");
                    reveal_strlit("N");
                    reveal_strlit("n");
                    reveal_strlit("K");
                    reveal_strlit("k");
                    reveal_strlit("Q");
                    reveal_strlit("q");
                }
                let s: &str = match cell {
                    PieceSpan::Empty => " ",
                    PieceSpan::Piece(p) => {
                        let w = p.color == Color::White;
                        if str_eq(p.piece_type, "pawn") {
                            if w { "P" } else { "p" }
                        } else if str_eq(p.piece_type, "rook") {
                            if w { "R" } else { "r" }
                        } else if str_eq(p.piece_type, "bishop") {
                            if w { "B" } else { "b" }
                        } else if str_eq(p.piece_type, "knight") {
                            if w { "N" } else { "n" }
                        } else if str_eq(p.piece_type, "king") {
                            if w { "K" } else { "k" }
                        } else if str_eq(p.piece_type, "queen") {
                            if w { "Q" } else { "q" }
                        } else {
                            assert(p.piece_type@.len() > 0);
                            p.piece_type.substring_char(0, 1)
                        }
                    },
                };
                assert(s@ =~= seq![cell_char(cv)]);
                ret.append(s);
                assert(ret@ =~= before + row_text(self@, j as int, i + 1));
                i += 1;
            }
            proof {
                reveal_strlit("\n");
            }
            ret.append("\n");
            assert(ret@ =~= rows_text(self@, j + 1));
            j += 1;
        }
        ret
    }

    /// The position after `node` with its status decided; with `decide`
    /// false, only the move itself is played (same side to move).
    pub fn make_move_new_nc(&self, node: &ChessMove<'a>, decide: bool) -> (r: Board<'a, MACHO, IMPRISONED, SIZE>)
        requires
            self.wf(),
            move_wf(node@),
        ensures
            !decide ==> r@ == apply_move_v(self@, node@) && r.dp@.len() == 0,
            decide ==> r@ == super::semantics::make_move_v(self.ctx(), self@, node@).0 && r.dp_v()
                == super::semantics::make_move_v(self.ctx(), self@, node@).1,
            decide && !MACHO && self.status == BoardStatus::Ongoing ==> {
                let a = super::semantics::next_turn_v(self@, node@);
                let (any, dp1) = super::semantics::has_any_v(self.ctx(), a, seq![], r.turn, true, 0);
                &&& r.turn == super::invert_v(self.turn)
                &&& super::semantics::side_v(r@, self.turn).enpassant == Seq::<Position>::empty()
                &&& r@ == (BoardV { status: r.status, ..a })
                &&& r.status == (if any {
                    BoardStatus::Ongoing
                } else if super::semantics::is_check_v(self.ctx(), a, dp1, self.turn).0 {
                    BoardStatus::Checkmate
                } else {
                    BoardStatus::Stalemate
                })
            },
            r.script == self.script,
            r.wf(),
    {
        proof {
            if !MACHO && self.status == BoardStatus::Ongoing {
                super::laws::law_decided_move_status(self.ctx(), self@, node@);
            }
        }
        let mut ret = self.apply_move(node);
        assert(ret.dp_v() =~= Seq::<(Position, Seq<MoveV>)>::empty());
        if !decide {
            return ret;
        }
        if ret.turn == Color::White {
            ret.board_state.white.enpassant.clear();
        } else {
            ret.board_state.black.enpassant.clear();
        }
        ret.turn = ret.turn.invert();
        assert(ret@ == super::semantics::next_turn_v(self@, node@));
        let ghost a = ret@;
        let turn = ret.side_to_move();
        assert(ret.wf());
        assert(ret.ctx() == self.ctx());
        let any = super::movegen::MoveGen::has_any_moves(&mut ret, turn, true);
        assert(any == super::semantics::has_any_v(self.ctx(), a, seq![], turn, true, 0).0);
        if MACHO {
            if !any {
                ret.status = BoardStatus::Checkmate;
            } else {
                let mut found_king = false;
                let mut lost = false;
                let mut k: usize = 0;
                let far: u8 = if turn == Color::White { 0 } else { 7 };
                while k < 64
                    invariant
                        k <= 64,
                        ret@ == a,
                        SIZE == 8,
                        far == super::semantics::far_rank(turn),
                        found_king == (exists|x: u8, y: u8| #![trigger cell_v(a, (x, y))]
                            x < 8 && y < 8 && (y as int) * 8 + (x as int) < k && color_on_v(a, (x, y)) == Some(turn)
                                && piece_on_v(a, (x, y)) == Some("king"@)),
                        lost == (exists|x: u8| #![trigger cell_v(a, (x, far))]
                            x < 8 && (far as int) * 8 + (x as int) < k && color_on_v(a, (x, far)) == Some(turn)
                                && piece_on_v(a, (x, far)) == Some("king"@)),
                    decreases 64 - k,
                {
                    let x = (k % 8) as u8;
                    let y = (k / 8) as u8;
                    let here = ret.color_on(&(x, y)) == Some(turn) && match ret.piece_on(&(x, y)) {
                        Some(p) => str_eq(p, "king"),
                        None => false,
                    };
                    if here {
                        found_king = true;
                        if y == far {
                            lost = true;
                        }
                    }
                    assert(found_king == (exists|x2: u8, y2: u8| #![trigger cell_v(a, (x2, y2))]
                        x2 < 8 && y2 < 8 && (y2 as int) * 8 + (x2 as int) < k + 1 && color_on_v(a, (x2, y2)) == Some(turn)
                            && piece_on_v(a, (x2, y2)) == Some("king"@))) by {
                        if here {
                            assert(cell_v(a, (x, y)) == cell_v(a, (x, y)));
                        }
                    }
                    k += 1;
                }
                assert(super::semantics::macho_king_lost(a, turn) == (lost || !found_king));
                if lost || !found_king {
                    ret.status = BoardStatus::Checkmate;
                }
            }
        } else {
            if !any {
                let script = self.script;
                if script.is_check(&mut ret, turn.invert()) {
                    ret.status = BoardStatus::Checkmate;
                } else {
                    ret.status = BoardStatus::Stalemate;
                }
            }
        }
        ret
    }

    /// The position after `node`, the other side to move, with its status
    /// decided.
    #[inline]
    pub fn make_move_new(&self, node: &ChessMove<'a>) -> (r: Board<'a, MACHO, IMPRISONED, SIZE>)
        requires
            self.wf(),
            move_wf(node@),
        ensures
            r@ == super::semantics::make_move_v(self.ctx(), self@, node@).0,
            r.dp_v() == super::semantics::make_move_v(self.ctx(), self@, node@).1,
            r.script == self.script,
            r.wf(),
    {
        self.make_move_new_nc(node, true)
    }
}

} // verus!
