//! All moves of a side, attacked squares, checks and the legality filter.
use vstd::prelude::*;

use super::board::{dp_view, Board};
use super::interp::same_position;
use super::semantics::{
    all_moves_v, at_square, danger_bits_v, danger_zones_v, dp_insert, dp_lookup, dp_wf, filter_v,
    first_where, has_any_v, is_capture, is_check_v, keep_move_v, king_among, lemma_dp_insert_wf,
    lemma_first_where, lemma_first_where_at, move_bits, moves_at_v, moves_bits, move_takes,
    moves_takes, unit_bit, units_bits, units_takes, after_move_v, bit_at, color_on_v, DpV,
    is_native, native_moves_v,
};
use super::laws::leaves_no_check;
use super::text::str_eq;
use super::{
    copy_moves, in_board, invert_v, move_dest, move_source, move_wf, moves_v, moves_wf,
    moves_wf_from, unit_wf, units_v, ChessMove, ChessMoveUnit, ChessemblyCompiled, Color,
    MoveType, MoveV, Position, UnitV,
};

verus! {

/// The character drawn for square (x, y): the first character of the name
/// of the piece on it, or a space when it is empty.
pub open spec fn picture_char(b: super::semantics::BoardV, x: int, y: int) -> char {
    match super::semantics::piece_on_v(b, (x as u8, y as u8)) {
        Some(name) => name[0],
        None => ' ',
    }
}

/// Square (x, y) in the danger picture: its character in brackets when it
/// is among `zones`, between spaces otherwise.
pub open spec fn picture_cell(b: super::semantics::BoardV, zones: Seq<Position>, x: int, y: int) -> Seq<char> {
    if zones.contains((x as u8, y as u8)) {
        seq!['[', picture_char(b, x, y), ']']
    } else {
        seq![' ', picture_char(b, x, y), ' ']
    }
}

/// The first `n` squares of rank `y` in the danger picture, left to right.
pub open spec fn picture_row(b: super::semantics::BoardV, zones: Seq<Position>, y: int, n: int) -> Seq<char>
    decreases n,
{
    if n <= 0 {
        seq![]
    } else {
        picture_row(b, zones, y, n - 1) + picture_cell(b, zones, n - 1, y)
    }
}

/// Whether `p` is among `zones`.
fn contains_position(zones: &Vec<Position>, p: Position) -> (r: bool)
    ensures
        r == zones@.contains(p),
{
    let mut i: usize = 0;
    while i < zones.len()
        invariant
            i <= zones@.len(),
            forall|k: int| 0 <= k < i ==> zones@[k] != p,
        decreases zones@.len() - i,
    {
        if zones[i].0 == p.0 && zones[i].1 == p.1 {
            assert(zones@[i as int] == p);
            return true;
        }
        i += 1;
    }
    false
}

/// Move generation over a whole side.
pub struct MoveGen {}

impl<'a, const MACHO: bool, const IMPRISONED: bool, const SIZE: usize> Board<
    'a,
    MACHO,
    IMPRISONED,
    SIZE,
> {
    /// The cached moves of square `p`, if any.
    fn dp_get(&self, p: &Position) -> (r: Option<Vec<ChessMove<'a>>>)
        requires
            dp_wf(self.dp_v()),
        ensures
            match r {
                Some(v) => dp_lookup(self.dp_v(), *p) == Some(moves_v(v@)) && moves_wf_from(moves_v(v@), *p),
                None => dp_lookup(self.dp_v(), *p) is None,
            },
    {
        let ghost d = self.dp_v();
        let mut i: usize = 0;
        while i < self.dp.len()
            invariant
                i <= self.dp@.len(),
                d == self.dp_v(),
                dp_wf(d),
                d.len() == self.dp@.len(),
                forall|j: int| 0 <= j < i ==> !at_square(*p)(#[trigger] d[j]),
            decreases self.dp@.len() - i,
        {
            assert(d[i as int] == (self.dp@[i as int].0, moves_v(self.dp@[i as int].1@)));
            let k = self.dp[i].0;
            if k.0 == p.0 && k.1 == p.1 {
                assert(k == *p);
                proof {
                    lemma_first_where_at(d, at_square(*p), i as int);
                    assert(moves_wf_from(d[i as int].1, d[i as int].0));
                }
                return Some(copy_moves(&self.dp[i].1));
            }
            i += 1;
        }
        proof {
            lemma_first_where(d, at_square(*p));
        }
        None
    }

    /// Caches `m` for square `p`.
    fn dp_store(&mut self, p: Position, m: Vec<ChessMove<'a>>)
        requires
            dp_wf(old(self).dp_v()),
            moves_wf_from(moves_v(m@), p),
        ensures
            final(self).dp_v() == dp_insert(old(self).dp_v(), p, moves_v(m@)),
            dp_wf(final(self).dp_v()),
            final(self)@ == old(self)@,
            final(self).script == old(self).script,
    {
        let ghost d = self.dp_v();
        proof {
            lemma_dp_insert_wf(d, p, moves_v(m@));
        }
        let mut i: usize = 0;
        while i < self.dp.len()
            invariant
                i <= self.dp@.len(),
                d == self.dp_v(),
                d == old(self).dp_v(),
                *self == *old(self),
                dp_wf(dp_insert(d, p, moves_v(m@))),
                d.len() == self.dp@.len(),
                forall|j: int| 0 <= j < i ==> !at_square(p)(#[trigger] d[j]),
            decreases self.dp@.len() - i,
        {
            assert(d[i as int] == (self.dp@[i as int].0, moves_v(self.dp@[i as int].1@)));
            let k = self.dp[i].0;
            if k.0 == p.0 && k.1 == p.1 {
                assert(k == p);
                proof {
                    lemma_first_where_at(d, at_square(p), i as int);
                }
                self.dp.set(i, (p, m));
                assert(self.dp_v() =~= d.update(i as int, (p, moves_v(m@))));
                return;
            }
            i += 1;
        }
        proof {
            lemma_first_where(d, at_square(p));
        }
        self.dp.push((p, m));
        assert(self.dp_v() =~= d.push((p, moves_v(m@))));
    }
}

/// The square numbered `k` (row-major, from the top-left corner).
fn square_of(k: usize) -> (p: Position)
    requires
        k < 64,
    ensures
        p == ((k % 8) as u8, (k / 8) as u8),
        in_board(p),
{
    ((k % 8) as u8, (k / 8) as u8)
}

/// Appends all of `b` to `a`.
fn extend_moves<'a>(a: &mut Vec<ChessMove<'a>>, b: Vec<ChessMove<'a>>)
    ensures
        moves_v(final(a)@) == moves_v(old(a)@) + moves_v(b@),
{
    let mut b = b;
    let ghost bv = b@;
    a.append(&mut b);
    assert(moves_v(a@) =~= moves_v(old(a)@) + moves_v(bv));
}

proof fn lemma_wf_concat(x: Seq<MoveV>, y: Seq<MoveV>)
    requires
        moves_wf(x),
        moves_wf(y),
    ensures
        moves_wf(x + y),
{
    assert forall|i: int| 0 <= i < (x + y).len() implies move_wf(#[trigger] (x + y)[i]) by {
        if i < x.len() {
            assert((x + y)[i] == x[i]);
        } else {
            assert((x + y)[i] == y[i - x.len()]);
        }
    }
}

impl MoveGen {
    /// The moves of `turn`'s pieces, square by square (row by row from the
    /// top), passed through the legality filter when `check_danger` is set or
    /// in the macho variant.
    pub fn get_all_moves<'a, const MACHO: bool, const IMPRISONED: bool, const SIZE: usize>(
        board: &mut Board<'a, MACHO, IMPRISONED, SIZE>,
        turn: Color,
        check_danger: bool,
    ) -> (r: Vec<ChessMove<'a>>)
        requires
            old(board).wf(),
        ensures
            moves_v(r@) == all_moves_v(old(board).ctx(), old(board)@, old(board).dp_v(), turn, check_danger, 0).0,
            final(board).dp_v() == all_moves_v(
                old(board).ctx(),
                old(board)@,
                old(board).dp_v(),
                turn,
                check_danger,
                0,
            ).1,
            moves_wf(moves_v(r@)),
            forall|k: int| #![trigger moves_v(r@)[k]]
                0 <= k < moves_v(r@).len() ==> color_on_v(old(board)@, move_source(moves_v(r@)[k])) == Some(turn),
            check_danger && !MACHO ==> forall|k: int| #![trigger moves_v(r@)[k]]
                0 <= k < moves_v(r@).len() ==> leaves_no_check(old(board).ctx(), old(board)@, moves_v(r@)[k]),
            same_position(*old(board), *final(board)),
        decreases (if check_danger { 1int } else { 0int }), 10int, 0int,
    {
        let ghost ctx = board.ctx();
        let ghost b = board@;
        let ghost target = all_moves_v(ctx, b, board.dp_v(), turn, check_danger, 0);
        let mut ret: Vec<ChessMove<'a>> = Vec::new();
        assert(moves_v(ret@) =~= seq![]);
        let mut k: usize = 0;
        while k < 64
            invariant
                k <= 64,
                board.wf(),
                same_position(*old(board), *board),
                ctx == board.ctx(),
                b == board@,
                moves_wf(moves_v(ret@)),
                forall|i: int| #![trigger moves_v(ret@)[i]]
                    0 <= i < moves_v(ret@).len() ==> color_on_v(b, move_source(moves_v(ret@)[i])) == Some(turn),
                check_danger && !MACHO ==> forall|i: int| #![trigger moves_v(ret@)[i]]
                    0 <= i < moves_v(ret@).len() ==> leaves_no_check(ctx, b, moves_v(ret@)[i]),
                moves_v(ret@) + all_moves_v(ctx, b, board.dp_v(), turn, check_danger, k as int).0 == target.0,
                all_moves_v(ctx, b, board.dp_v(), turn, check_danger, k as int).1 == target.1,
            decreases 64 - k,
        {
            let p = square_of(k);
            let ghost r0 = moves_v(ret@);
            let ghost dp0 = board.dp_v();
            if board.color_on(&p) == Some(turn) {
                let script = board.script;
                let a = script.get_moves(board, &p, check_danger);
                let ghost av = moves_v(a@);
                if check_danger || MACHO {
                    let f = script.filter_nodes(a, board);
                    proof {
                        lemma_wf_concat(moves_v(ret@), moves_v(f@));
                        assert forall|i: int| 0 <= i < av.len() implies move_source(#[trigger] av[i]) == p by {}
                        super::laws::lemma_filter_keeps_source(ctx, b, av, 0, p);
                        if !MACHO {
                            super::laws::lemma_filter_leaves_no_check(ctx, b, av);
                        }
                    }
                    let ghost r0 = moves_v(ret@);
                    let ghost fv = moves_v(f@);
                    extend_moves(&mut ret, f);
                    proof {
                        assert forall|i: int| #![trigger moves_v(ret@)[i]] 0 <= i < moves_v(ret@).len() implies color_on_v(
                            b,
                            move_source(moves_v(ret@)[i]),
                        ) == Some(turn) && (check_danger && !MACHO ==> leaves_no_check(ctx, b, moves_v(ret@)[i])) by {
                            if i < r0.len() {
                                assert(moves_v(ret@)[i] == r0[i]);
                            } else {
                                assert(moves_v(ret@)[i] == fv[i - r0.len()]);
                            }
                        }
                    }
                } else {
                    proof {
                        lemma_wf_concat(moves_v(ret@), moves_v(a@));
                    }
                    let ghost r0 = moves_v(ret@);
                    extend_moves(&mut ret, a);
                    proof {
                        assert forall|i: int| #![trigger moves_v(ret@)[i]] 0 <= i < moves_v(ret@).len() implies color_on_v(
                            b,
                            move_source(moves_v(ret@)[i]),
                        ) == Some(turn) by {
                            if i < r0.len() {
                                assert(moves_v(ret@)[i] == r0[i]);
                            } else {
                                assert(moves_v(ret@)[i] == av[i - r0.len()]);
                            }
                        }
                    }
                }
                assert(moves_v(ret@) + all_moves_v(ctx, b, board.dp_v(), turn, check_danger, k + 1).0 =~= r0
                    + all_moves_v(ctx, b, dp0, turn, check_danger, k as int).0);
            }
            k += 1;
        }
        ret
    }

    /// Whether one of `turn`'s pieces has a move (filtered as in
    /// `get_all_moves`); the scan stops at the first such piece.
    pub fn has_any_moves<'a, const MACHO: bool, const IMPRISONED: bool, const SIZE: usize>(
        board: &mut Board<'a, MACHO, IMPRISONED, SIZE>,
        turn: Color,
        check_danger: bool,
    ) -> (r: bool)
        requires
            old(board).wf(),
        ensures
            r == has_any_v(old(board).ctx(), old(board)@, old(board).dp_v(), turn, check_danger, 0).0,
            final(board).dp_v() == has_any_v(
                old(board).ctx(),
                old(board)@,
                old(board).dp_v(),
                turn,
                check_danger,
                0,
            ).1,
            same_position(*old(board), *final(board)),
        decreases (if check_danger { 1int } else { 0int }), 10int, 0int,
    {
        let ghost ctx = board.ctx();
        let ghost b = board@;
        let ghost target = has_any_v(ctx, b, board.dp_v(), turn, check_danger, 0);
        let mut k: usize = 0;
        while k < 64
            invariant
                k <= 64,
                ctx == old(board).ctx(),
                b == old(board)@,
                target == has_any_v(old(board).ctx(), old(board)@, old(board).dp_v(), turn, check_danger, 0),
                board.wf(),
                same_position(*old(board), *board),
                ctx == board.ctx(),
                b == board@,
                has_any_v(ctx, b, board.dp_v(), turn, check_danger, k as int) == target,
            decreases 64 - k,
        {
            let p = square_of(k);
            let ghost dp0 = board.dp_v();
            if board.color_on(&p) == Some(turn) {
                let script = board.script;
                let a = script.get_moves(board, &p, check_danger);
                let ghost dp1 = board.dp_v();
                if check_danger || MACHO {
                    let f = script.filter_nodes(a, board);
                    if f.len() > 0 {
                        assert(has_any_v(ctx, b, dp0, turn, check_danger, k as int) == (true, dp1));
                        return true;
                    }
                } else {
                    if a.len() > 0 {
                        assert(has_any_v(ctx, b, dp0, turn, check_danger, k as int) == (true, dp1));
                        return true;
                    }
                }
            }
            k += 1;
        }
        false
    }

    /// The legal moves of the side to move.
    #[inline]
    pub fn new_legal<'a, const MACHO: bool, const IMPRISONED: bool, const SIZE: usize>(
        board: &mut Board<'a, MACHO, IMPRISONED, SIZE>,
    ) -> (r: Vec<ChessMove<'a>>)
        requires
            old(board).wf(),
        ensures
            moves_v(r@) == all_moves_v(old(board).ctx(), old(board)@, old(board).dp_v(), old(board).turn, true, 0).0,
            final(board).dp_v() == all_moves_v(
                old(board).ctx(),
                old(board)@,
                old(board).dp_v(),
                old(board).turn,
                true,
                0,
            ).1,
            forall|k: int| #![trigger moves_v(r@)[k]]
                0 <= k < moves_v(r@).len() ==> color_on_v(old(board)@, move_source(moves_v(r@)[k])) == Some(old(board).turn),
            !MACHO ==> forall|k: int| #![trigger moves_v(r@)[k]]
                0 <= k < moves_v(r@).len() ==> leaves_no_check(old(board).ctx(), old(board)@, moves_v(r@)[k]),
            same_position(*old(board), *final(board)),
    {
        let turn = board.side_to_move();
        MoveGen::get_all_moves(board, turn, true)
    }

    /// The squares `enemy`'s unfiltered moves capture on, in move order.
    pub fn get_danger_zones<'a, const MACHO: bool, const IMPRISONED: bool, const SIZE: usize>(
        board: &mut Board<'a, MACHO, IMPRISONED, SIZE>,
        enemy: Color,
    ) -> (r: Vec<Position>)
        requires
            old(board).wf(),
        ensures
            r@ == danger_zones_v(old(board).ctx(), old(board)@, old(board).dp_v(), enemy).0,
            final(board).dp_v() == danger_zones_v(old(board).ctx(), old(board)@, old(board).dp_v(), enemy).1,
            same_position(*old(board), *final(board)),
        decreases 1int, 0int, 0int,
    {
        let all_moves = MoveGen::get_all_moves(board, enemy, false);
        let ghost ms = moves_v(all_moves@);
        let mut ret: Vec<Position> = Vec::new();
        let mut i: usize = 0;
        while i < all_moves.len()
            invariant
                i <= all_moves@.len(),
                ms == moves_v(all_moves@),
                ret@ == moves_takes(ms.subrange(0, i as int)),
            decreases all_moves@.len() - i,
        {
            assert(ms[i as int] == all_moves@[i as int]@);
            match &all_moves[i] {
                ChessMove::Multiple(v) => {
                    let ghost uv = units_v(v@);
                    let ghost r0 = ret@;
                    let mut j: usize = 0;
                    while j < v.len()
                        invariant
                            j <= v@.len(),
                            uv == units_v(v@),
                            ret@ == r0 + units_takes(uv.subrange(0, j as int)),
                        decreases v@.len() - j,
                    {
                        assert(uv[j as int] == v@[j as int]@);
                        let t = v[j].move_type;
                        if t == MoveType::Take || t == MoveType::TakeMove || t == MoveType::TakeJump || t
                            == MoveType::Catch {
                            ret.push(v[j].take);
                        }
                        assert(uv.subrange(0, j + 1).drop_last() =~= uv.subrange(0, j as int));
                        assert(ret@ =~= r0 + units_takes(uv.subrange(0, j + 1)));
                        j += 1;
                    }
                    assert(uv.subrange(0, v@.len() as int) =~= uv);
                },
                ChessMove::Single(n) => {
                    let t = n.move_type;
                    if t == MoveType::Take || t == MoveType::TakeMove || t == MoveType::TakeJump || t
                        == MoveType::Catch {
                        ret.push(n.take);
                    }
                },
            }
            assert(ms.subrange(0, i + 1).drop_last() =~= ms.subrange(0, i as int));
            assert(ret@ =~= moves_takes(ms.subrange(0, i + 1)));
            i += 1;
        }
        assert(ms.subrange(0, ms.len() as int) =~= ms);
        ret
    }

    /// The squares `enemy`'s unfiltered moves capture on, as a mask with bit
    /// `8*y + x` for square `(x, y)`.
    pub fn get_danger_zones_bit<'a, const MACHO: bool, const IMPRISONED: bool, const SIZE: usize>(
        board: &mut Board<'a, MACHO, IMPRISONED, SIZE>,
        enemy: Color,
    ) -> (r: u64)
        requires
            old(board).wf(),
        ensures
            r == danger_bits_v(old(board).ctx(), old(board)@, old(board).dp_v(), enemy).0,
            final(board).dp_v() == danger_bits_v(old(board).ctx(), old(board)@, old(board).dp_v(), enemy).1,
            same_position(*old(board), *final(board)),
        decreases 1int, 0int, 0int,
    {
        let all_moves = MoveGen::get_all_moves(board, enemy, false);
        let ghost ms = moves_v(all_moves@);
        let mut ret: u64 = 0;
        let mut i: usize = 0;
        while i < all_moves.len()
            invariant
                i <= all_moves@.len(),
                ms == moves_v(all_moves@),
                moves_wf(ms),
                ret == moves_bits(ms.subrange(0, i as int)),
            decreases all_moves@.len() - i,
        {
            assert(ms[i as int] == all_moves@[i as int]@);
            assert(move_wf(ms[i as int]));
            let bits: u64 = match &all_moves[i] {
                ChessMove::Multiple(v) => {
                    let ghost uv = units_v(v@);
                    let mut acc: u64 = 0;
                    let mut j: usize = 0;
                    while j < v.len()
                        invariant
                            j <= v@.len(),
                            uv == units_v(v@),
                            forall|k: int| 0 <= k < uv.len() ==> unit_wf(#[trigger] uv[k]),
                            acc == units_bits(uv.subrange(0, j as int)),
                        decreases v@.len() - j,
                    {
                        assert(uv[j as int] == v@[j as int]@);
                        assert(unit_wf(uv[j as int]));
                        let t = v[j].move_type;
                        let tk = v[j].take;
                        let b1: u64 = if t == MoveType::Take || t == MoveType::TakeMove || t == MoveType::TakeJump
                            || t == MoveType::Catch {
                            1u64 << ((tk.1 * 8 + tk.0) as u64)
                        } else {
                            0
                        };
                        assert(b1 == unit_bit(uv[j as int]));
                        acc = acc | b1;
                        assert(uv.subrange(0, j + 1).drop_last() =~= uv.subrange(0, j as int));
                        j += 1;
                    }
                    assert(uv.subrange(0, v@.len() as int) =~= uv);
                    acc
                },
                ChessMove::Single(n) => {
                    let t = n.move_type;
                    if t == MoveType::Take || t == MoveType::TakeMove || t == MoveType::TakeJump || t
                        == MoveType::Catch {
                        1u64 << ((n.take.1 * 8 + n.take.0) as u64)
                    } else {
                        0
                    }
                },
            };
            assert(bits == move_bits(ms[i as int]));
            ret = ret | bits;
            assert(ms.subrange(0, i + 1).drop_last() =~= ms.subrange(0, i as int));
            i += 1;
        }
        assert(ms.subrange(0, ms.len() as int) =~= ms);
        ret
    }
}

impl<'a> ChessemblyCompiled<'a> {
    /// Whether `color`'s unfiltered moves capture on `position`.
    pub fn is_danger<const MACHO: bool, const IMPRISONED: bool, const SIZE: usize>(
        &self,
        board: &mut Board<'a, MACHO, IMPRISONED, SIZE>,
        position: &Position,
        color: Color,
    ) -> (r: bool)
        requires
            old(board).wf(),
            in_board(*position),
        ensures
            r == bit_at(danger_bits_v(old(board).ctx(), old(board)@, old(board).dp_v(), color).0, *position),
            final(board).dp_v() == danger_bits_v(old(board).ctx(), old(board)@, old(board).dp_v(), color).1,
            same_position(*old(board), *final(board)),
        decreases 1int, 0int, 1int,
    {
        let danger_zones = MoveGen::get_danger_zones_bit(board, color);
        ChessemblyCompiled::is_danger_bit(danger_zones, position.0, position.1)
    }

    /// Whether `color`'s unfiltered moves capture on a square holding a king.
    pub fn is_check<const MACHO: bool, const IMPRISONED: bool, const SIZE: usize>(
        &self,
        board: &mut Board<'a, MACHO, IMPRISONED, SIZE>,
        color: Color,
    ) -> (r: bool)
        requires
            old(board).wf(),
        ensures
            r == is_check_v(old(board).ctx(), old(board)@, old(board).dp_v(), color).0,
            final(board).dp_v() == is_check_v(old(board).ctx(), old(board)@, old(board).dp_v(), color).1,
            same_position(*old(board), *final(board)),
        decreases 1int, 1int, 0int,
    {
        let danger_zones = MoveGen::get_danger_zones(board, color);
        self.king_among_zones(board, &danger_zones)
    }

    /// `is_check`, together with a picture of the squares `color` attacks:
    /// one line per rank y from 0 to 7, each square (x, y) drawn left to
    /// right as the first character of its piece's name (a space when
    /// empty), in brackets when attacked and between spaces otherwise.
    pub fn is_check_dbg<const MACHO: bool, const IMPRISONED: bool, const SIZE: usize>(
        &self,
        board: &mut Board<'a, MACHO, IMPRISONED, SIZE>,
        color: Color,
    ) -> (r: (bool, Vec<String>))
        requires
            old(board).wf(),
            super::board::names_nonempty(old(board)@),
        ensures
            r.0 == is_check_v(old(board).ctx(), old(board)@, old(board).dp_v(), color).0,
            final(board).dp_v() == is_check_v(old(board).ctx(), old(board)@, old(board).dp_v(), color).1,
            same_position(*old(board), *final(board)),
            r.1@.len() == 8,
            forall|y: int| 0 <= y < 8 ==> (#[trigger] r.1@[y])@ == picture_row(
                old(board)@,
                danger_zones_v(old(board).ctx(), old(board)@, old(board).dp_v(), color).0,
                y,
                8,
            ),
        decreases 1int, 1int, 0int,
    {
        let danger_zones = MoveGen::get_danger_zones(board, color);
        let ghost b = board@;
        let ghost zs = danger_zones@;
        let mut rows: Vec<String> = Vec::new();
        let mut i: u8 = 0;
        while i < 8
            invariant
                i <= 8,
                b == board@,
                zs == danger_zones@,
                SIZE == 8,
                super::board::names_nonempty(b),
                rows@.len() == i,
                forall|y: int| 0 <= y < i ==> (#[trigger] rows@[y])@ == picture_row(b, zs, y, 8),
            decreases 8 - i,
        {
            let mut line = String::new();
            assert(line@ =~= picture_row(b, zs, i as int, 0));
            let mut j: u8 = 0;
            while j < 8
                invariant
                    i < 8,
                    j <= 8,
                    b == board@,
                    zs == danger_zones@,
                    SIZE == 8,
                    super::board::names_nonempty(b),
                    line@ == picture_row(b, zs, i as int, j as int),
                decreases 8 - j,
            {
                let ghost before = line@;
                proof {
                    reveal_strlit("[");
                    reveal_strlit("]");
                    reveal_strlit(" ");
                }
                let c: &str = match board.piece_on(&(j, i)) {
                    Some(name) => {
                        assert(b.cells[i as int][j as int] matches super::CellV::Piece(pc) && pc.piece_type == name@);
                        assert(name@.len() > 0);
                        assert(super::semantics::piece_on_v(b, (j, i)) == Some(name@));
                        assert(picture_char(b, j as int, i as int) == name@[0]);
                        let t = name.substring_char(0, 1);
                        assert(t@ =~= seq![picture_char(b, j as int, i as int)]);
                        t
                    },
                    None => {
                        assert(" "@ =~= seq![picture_char(b, j as int, i as int)]);
                        " "
                    },
                };
                assert(c@ =~= seq![picture_char(b, j as int, i as int)]);
                if contains_position(&danger_zones, (j, i)) {
                    line.append("[");
                    line.append(c);
                    line.append("]");
                } else {
                    line.append(" ");
                    line.append(c);
                    line.append(" ");
                }
                assert(line@ =~= before + picture_cell(b, zs, j as int, i as int));
                j += 1;
            }
            rows.push(line);
            i += 1;
        }
        let check = self.king_among_zones(board, &danger_zones);
        (check, rows)
    }

    /// Whether a king stands on one of `zones`.
    fn king_among_zones<const MACHO: bool, const IMPRISONED: bool, const SIZE: usize>(
        &self,
        board: &Board<'a, MACHO, IMPRISONED, SIZE>,
        zones: &Vec<Position>,
    ) -> (r: bool)
        requires
            SIZE == 8,
        ensures
            r == king_among(board@, zones@),
    {
        let mut i: usize = 0;
        while i < zones.len()
            invariant
                i <= zones@.len(),
                SIZE == 8,
                forall|k: int| 0 <= k < i ==> super::semantics::piece_on_v(board@, #[trigger] zones@[k]) != Some(
                    "king"@,
                ),
            decreases zones@.len() - i,
        {
            let hit = match board.piece_on(&zones[i]) {
                Some(p) => str_eq(p, "king"),
                None => false,
            };
            if hit {
                assert(super::semantics::piece_on_v(board@, zones@[i as int]) == Some("king"@));
                return true;
            }
            i += 1;
        }
        false
    }

    /// The verdict of the legality filter on one move.
    fn keep_move<const MACHO: bool, const IMPRISONED: bool, const SIZE: usize>(
        &self,
        m: &ChessMove<'a>,
        board: &Board<'a, MACHO, IMPRISONED, SIZE>,
    ) -> (r: Option<ChessMove<'a>>)
        requires
            board.wf(),
            move_wf(m@),
            MACHO ==> color_on_v(board@, move_source(m@)) is Some,
        ensures
            match r {
                Some(x) => keep_move_v(board.ctx(), board@, m@) == Some(x@) && move_wf(x@),
                None => keep_move_v(board.ctx(), board@, m@) is None,
            },
        decreases (if MACHO { 0int } else { 1int }), 7int, 0int,
    {
        if MACHO {
            let src = m.get_source();
            let dst = m.get_dest();
            let piece_color = board.color_on(&src).unwrap();
            if (src.1 < dst.1 && piece_color == Color::Black) || (src.1 > dst.1 && piece_color == Color::White) {
                Some(m.clone())
            } else if src.1 == dst.1 {
                match m {
                    ChessMove::Single(n) => {
                        if board.color_on(&n.take) == Some(piece_color.invert()) {
                            let u = n.clone();
                            Some(ChessMove::Single(ChessMoveUnit { move_type: MoveType::Take, ..u }))
                        } else {
                            None
                        }
                    },
                    ChessMove::Multiple(_) => None,
                }
            } else {
                None
            }
        } else {
            let mut new_board = board.apply_move(m);
            let turn = new_board.turn;
            new_board.turn = turn.invert();
            assert(new_board.dp_v() =~= Seq::<(Position, Seq<MoveV>)>::empty());
            assert(new_board.wf());
            assert(new_board@ == after_move_v(board@, m@));
            assert(new_board.ctx() == board.ctx());
            if !self.is_check(&mut new_board, turn.invert()) {
                Some(m.clone())
            } else {
                None
            }
        }
    }

    /// The moves that survive the variant's legality test: in the macho
    /// variant, moves forward (a sideways move only as a capture); otherwise,
    /// moves after which the other side does not capture on a king's square.
    pub fn filter_nodes<const MACHO: bool, const IMPRISONED: bool, const SIZE: usize>(
        &self,
        nodes: Vec<ChessMove<'a>>,
        board: &Board<'a, MACHO, IMPRISONED, SIZE>,
    ) -> (r: Vec<ChessMove<'a>>)
        requires
            board.wf(),
            moves_wf(moves_v(nodes@)),
            MACHO ==> forall|i: int|
                0 <= i < nodes@.len() ==> color_on_v(board@, move_source(#[trigger] moves_v(nodes@)[i])) is Some,
        ensures
            moves_v(r@) == filter_v(board.ctx(), board@, moves_v(nodes@), 0),
            moves_wf(moves_v(r@)),
        decreases (if MACHO { 0int } else { 1int }), 8int, 0int,
    {
        let ghost ms = moves_v(nodes@);
        let ghost ctx = board.ctx();
        let mut ret: Vec<ChessMove<'a>> = Vec::new();
        assert(moves_v(ret@) =~= seq![]);
        let mut i: usize = 0;
        while i < nodes.len()
            invariant
                i <= nodes@.len(),
                ms == moves_v(nodes@),
                ctx == board.ctx(),
                board.wf(),
                moves_wf(ms),
                moves_wf(moves_v(ret@)),
                MACHO ==> forall|k: int| 0 <= k < nodes@.len() ==> color_on_v(board@, move_source(#[trigger] ms[k])) is Some,
                moves_v(ret@) + filter_v(ctx, board@, ms, i as int) == filter_v(ctx, board@, ms, 0),
            decreases nodes@.len() - i,
        {
            assert(ms[i as int] == nodes@[i as int]@);
            let k = self.keep_move(&nodes[i], board);
            let ghost r0 = moves_v(ret@);
            match k {
                Some(x) => {
                    ret.push(x);
                    assert(moves_v(ret@) =~= r0.push(x@));
                    assert(moves_v(ret@) + filter_v(ctx, board@, ms, i + 1) =~= r0 + filter_v(ctx, board@, ms, i as int));
                    assert(moves_wf(moves_v(ret@))) by {
                        assert forall|j: int| 0 <= j < moves_v(ret@).len() implies move_wf(#[trigger] moves_v(ret@)[j]) by {
                            if j < r0.len() {
                                assert(moves_v(ret@)[j] == r0[j]);
                            }
                        }
                    }
                },
                None => {},
            }
            i += 1;
        }
        ret
    }
}

impl<'a> ChessemblyCompiled<'a> {
    /// The built-in generator of the piece named `name` on `position`.
    fn native_moves<const MACHO: bool, const IMPRISONED: bool, const SIZE: usize>(
        &self,
        board: &mut Board<'a, MACHO, IMPRISONED, SIZE>,
        position: &Position,
        name: &str,
        check_danger: bool,
    ) -> (r: Vec<ChessMove<'a>>)
        requires
            old(board).wf(),
            color_on_v(old(board)@, *position) is Some,
            is_native(name@),
        ensures
            moves_v(r@) == native_moves_v(old(board).ctx(), old(board)@, old(board).dp_v(), *position, name@, check_danger).0,
            final(board).dp_v() == native_moves_v(
                old(board).ctx(),
                old(board)@,
                old(board).dp_v(),
                *position,
                name@,
                check_danger,
            ).1,
            moves_wf_from(moves_v(r@), *position),
            same_position(*old(board), *final(board)),
        decreases (if check_danger { 1int } else { 0int }), 7int, 0int,
    {
        if str_eq(name, "pawn") {
            self.generate_pawn_moves(board, position)
        } else if str_eq(name, "king") {
            let danger_zones = if check_danger {
                let enemy = board.color_on(position).unwrap().invert();
                MoveGen::get_danger_zones_bit(board, enemy)
            } else {
                0
            };
            self.generate_king_moves(board, position, danger_zones)
        } else if str_eq(name, "rook") {
            self.generate_rook_moves(board, position)
        } else if str_eq(name, "knight") {
            self.generate_knight_moves(board, position)
        } else if str_eq(name, "bishop") {
            self.generate_bishop_moves(board, position)
        } else if str_eq(name, "queen") {
            self.generate_queen_moves(board, position)
        } else if str_eq(name, "tempest-rook") {
            self.generate_tempest_rook_moves(board, position)
        } else if str_eq(name, "bouncing-bishop") {
            self.generate_bouncing_bishop_moves(board, position)
        } else if str_eq(name, "dozer") {
            self.generate_dozer_moves(board, position)
        } else if str_eq(name, "alfil") {
            self.generate_alfil_moves(board, position)
        } else if str_eq(name, "bard") {
            self.generate_bard_moves(board, position)
        } else if str_eq(name, "wasp") {
            self.generate_wasp_moves(board, position)
        } else if str_eq(name, "amazon") {
            self.generate_amazon_moves(board, position)
        } else if str_eq(name, "chancellor") {
            self.generate_chancellor_moves(board, position)
        } else if str_eq(name, "archbishop") {
            self.generate_archbishop_moves(board, position)
        } else if str_eq(name, "centaur") {
            self.generate_centaur_moves(board, position)
        } else if str_eq(name, "zebra") {
            self.generate_ij_moves(board, position, 3, 2)
        } else if str_eq(name, "giraffe") {
            self.generate_ij_moves(board, position, 4, 1)
        } else if str_eq(name, "camel") {
            self.generate_ij_moves(board, position, 3, 1)
        } else if str_eq(name, "beacon") {
            self.generate_beacon_moves(board, position)
        } else if str_eq(name, "chameleon") {
            self.generate_chameleon_moves(board, position)
        } else if str_eq(name, "mirrored-pawn") || str_eq(name, "mirrored-bishop") || str_eq(name, "mirrored-rook")
            || str_eq(name, "mirrored-knight") || str_eq(name, "mirrored-queen") {
            self.generate_mirrored_moves(board, position, name)
        } else if str_eq(name, "windmill-rook") {
            self.generate_windmill_rook_moves(board, position)
        } else {
            self.generate_windmill_bishop_moves(board, position)
        }
    }

    /// The moves of the piece on `position`: from the board's move cache if
    /// present, else from its built-in generator or from this script (and
    /// then cached); none for an empty square.
    pub fn get_moves<const MACHO: bool, const IMPRISONED: bool, const SIZE: usize>(
        &self,
        board: &mut Board<'a, MACHO, IMPRISONED, SIZE>,
        position: &Position,
        check_danger: bool,
    ) -> (r: Vec<ChessMove<'a>>)
        requires
            old(board).wf(),
            self.wf(),
        ensures
            moves_v(r@) == moves_at_v(old(board).ctx(), old(board)@, old(board).dp_v(), *position, check_danger, self@).0,
            final(board).dp_v() == moves_at_v(
                old(board).ctx(),
                old(board)@,
                old(board).dp_v(),
                *position,
                check_danger,
                self@,
            ).1,
            moves_wf_from(moves_v(r@), *position),
            same_position(*old(board), *final(board)),
        decreases (if check_danger { 1int } else { 0int }), 9int, 0int,
    {
        if let Some(cached) = board.dp_get(position) {
            return cached;
        }
        let piece_on = board.piece_on(position);
        let piece = match piece_on {
            Some(p) => p,
            None => {
                let r: Vec<ChessMove<'a>> = Vec::new();
                assert(moves_v(r@) =~= seq![]);
                return r;
            },
        };
        let ret = if is_native_name(piece) {
            self.native_moves(board, position, piece, check_danger)
        } else {
            match self.generate_moves(board, position, check_danger) {
                Ok(v) => v,
                Err(_) => Vec::new(),
            }
        };
        board.dp_store(*position, copy_moves(&ret));
        ret
    }
}

/// Whether `name` has a built-in generator.
fn is_native_name(name: &str) -> (r: bool)
    ensures
        r == is_native(name@),
{
    str_eq(name, "pawn") || str_eq(name, "king") || str_eq(name, "rook") || str_eq(name, "knight")
        || str_eq(name, "bishop") || str_eq(name, "queen") || str_eq(name, "tempest-rook") || str_eq(
        name,
        "bouncing-bishop",
    ) || str_eq(name, "dozer") || str_eq(name, "alfil") || str_eq(name, "bard") || str_eq(name, "wasp")
        || str_eq(name, "amazon") || str_eq(name, "chancellor") || str_eq(name, "archbishop") || str_eq(
        name,
        "centaur",
    ) || str_eq(name, "zebra") || str_eq(name, "giraffe") || str_eq(name, "camel") || str_eq(name, "beacon")
        || str_eq(name, "chameleon") || str_eq(name, "mirrored-pawn") || str_eq(name, "mirrored-bishop")
        || str_eq(name, "mirrored-rook") || str_eq(name, "mirrored-knight") || str_eq(name, "mirrored-queen")
        || str_eq(name, "windmill-rook") || str_eq(name, "windmill-bishop")
}

} // verus!
