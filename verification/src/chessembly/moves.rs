//! The built-in move generators of the standard and fairy pieces.
use vstd::prelude::*;

use super::behavior::delta_ok;
use super::board::Board;
use super::semantics::{
    alfil_deltas, bard_deltas, color_at, color_on_v, diagonal, dozer_deltas, ij_deltas,
    king_deltas, king_reset, king_step_v, king_steps, king_v, leap_v, leaps, moved, orthogonal,
    pawn_to, pawn_v, piece_on_v, plain, promotions, slide_v, slides, unit_v, wall_v, castling_v,
    en_passant, side_v, bit_at, beacon_v, WallCollision,
};
use super::behavior::{Behavior, BehaviorV};
use super::interp::same_position;
use super::semantics::{
    bouncing_bishop_text, chameleon_catches, chameleon_script, mirror_move, mirror_of,
    mirrored_base_v, cannon_move_chain, cannon_script, cannon_take_chain, gen_script_v,
    pseudo_pawn_script, repeat_chain, rook_script, tempest_script, text_script_moves, wasp_script,
    windmill_bishop_text, windmill_rook_text,
};
use super::{
    chain_v, in_board, invert_v, moves_v, moves_wf_from, ChessMove, ChessMoveUnit,
    ChessemblyCompiled, Color, DeltaPosition, MoveType, MoveV, Position,
};

verus! {

/// A unit with no state change and no transition.
fn plain_move<'a>(from: Position, take: Position, move_to: Position, t: MoveType) -> (r: ChessMove<'a>)
    ensures
        r@ == plain(from, take, move_to, t),
{
    ChessMove::Single(
        ChessMoveUnit { from, take, move_to, move_type: t, state_change: None, transition: None },
    )
}

/// Appends `m` to `v`.
fn push_move<'a>(v: &mut Vec<ChessMove<'a>>, m: ChessMove<'a>)
    ensures
        moves_v(final(v)@) == moves_v(old(v)@).push(m@),
{
    v.push(m);
    assert(moves_v(v@) =~= moves_v(old(v)@).push(m@));
}

pub proof fn lemma_wf_push(ms: Seq<MoveV>, m: MoveV, p: Position)
    requires
        moves_wf_from(ms, p),
        super::move_wf(m),
        super::move_source(m) == p,
    ensures
        moves_wf_from(ms.push(m), p),
{
    assert forall|i: int| 0 <= i < ms.push(m).len() implies super::move_wf(#[trigger] ms.push(m)[i])
        && super::move_source(ms.push(m)[i]) == p by {
        if i < ms.len() {
            assert(ms.push(m)[i] == ms[i]);
        }
    }
}

pub proof fn lemma_wf_concat_from(x: Seq<MoveV>, y: Seq<MoveV>, p: Position)
    requires
        moves_wf_from(x, p),
        moves_wf_from(y, p),
    ensures
        moves_wf_from(x + y, p),
{
    assert forall|i: int| 0 <= i < (x + y).len() implies super::move_wf(#[trigger] (x + y)[i])
        && super::move_source((x + y)[i]) == p by {
        if i < x.len() {
            assert((x + y)[i] == x[i]);
        } else {
            assert((x + y)[i] == y[i - x.len()]);
        }
    }
}

/// Appends `m`, a well-formed move from `p`, to well-formed moves from `p`.
fn push_move_from<'a>(v: &mut Vec<ChessMove<'a>>, m: ChessMove<'a>, Ghost(p): Ghost<Position>)
    requires
        moves_wf_from(moves_v(old(v)@), p),
        super::move_wf(m@),
        super::move_source(m@) == p,
    ensures
        moves_v(final(v)@) == moves_v(old(v)@).push(m@),
        moves_wf_from(moves_v(final(v)@), p),
{
    proof {
        lemma_wf_push(moves_v(v@), m@, p);
    }
    push_move(v, m);
}

proof fn lemma_moves_v_push<'a>(v: Seq<ChessMove<'a>>, m: ChessMove<'a>)
    ensures
        moves_v(v.push(m)) == moves_v(v).push(m@),
{
    assert(moves_v(v.push(m)) =~= moves_v(v).push(m@));
}

impl<'a> ChessemblyCompiled<'a> {
    /// One leap of the piece on `position` by `delta` onto an empty square or
    /// an enemy; returns whether a slide in that direction may go on.
    pub fn generate_ij_abs_take_move<const MACHO: bool, const IMPRISONED: bool, const SIZE: usize>(
        &self,
        moves: &mut Vec<ChessMove<'a>>,
        board: &mut Board<'a, MACHO, IMPRISONED, SIZE>,
        position: &Position,
        delta: &DeltaPosition,
    ) -> (r: bool)
        requires
            8 <= SIZE <= 255,
            color_on_v(old(board)@, *position) is Some,
            super::interp::step_fits(*position, *delta),
        ensures
            moves_v(final(moves)@) == moves_v(old(moves)@) + leap_v(old(board)@, *position, *delta).0,
            r == leap_v(old(board)@, *position, *delta).1,
            *final(board) == *old(board),
            moves_wf_from(moves_v(old(moves)@), *position) ==> moves_wf_from(moves_v(final(moves)@), *position),
    {
        let color = board.color_on(position).unwrap();
        let ghost b = board@;
        let wc = super::interp::wall_collision(position, delta, color);
        if wc == WallCollision::NoCollision {
            proof {
                super::interp::lemma_wall_color(*position, *delta, color);
            }
            let anchor = super::interp::moved_by(position, delta);
            let color_on = board.color_on(&anchor);
            match color_on {
                Some(c) => {
                    if c == color {
                        assert(moves_v(moves@) =~= moves_v(moves@) + seq![]);
                        false
                    } else {
                        let ghost m0 = moves_v(moves@);
                        push_move(moves, plain_move(*position, anchor, anchor, MoveType::TakeMove));
                        assert(moves_v(moves@) =~= m0 + seq![plain(*position, anchor, anchor, MoveType::TakeMove)]);
                        proof {
                            if moves_wf_from(m0, *position) {
                                lemma_wf_push(m0, plain(*position, anchor, anchor, MoveType::TakeMove), *position);
                            }
                        }
                        false
                    }
                },
                None => {
                    let ghost m0 = moves_v(moves@);
                    push_move(moves, plain_move(*position, anchor, anchor, MoveType::TakeMove));
                    assert(moves_v(moves@) =~= m0 + seq![plain(*position, anchor, anchor, MoveType::TakeMove)]);
                    proof {
                        if moves_wf_from(m0, *position) {
                            lemma_wf_push(m0, plain(*position, anchor, anchor, MoveType::TakeMove), *position);
                        }
                    }
                    true
                },
            }
        } else {
            assert(moves_v(moves@) =~= moves_v(moves@) + seq![]);
            false
        }
    }

    /// Leaps by `delta`, `2*delta`, ... while the squares passed are empty.
    pub fn generate_ij_abs_take_move_slide<const MACHO: bool, const IMPRISONED: bool, const SIZE: usize>(
        &self,
        moves: &mut Vec<ChessMove<'a>>,
        board: &mut Board<'a, MACHO, IMPRISONED, SIZE>,
        position: &Position,
        delta: &DeltaPosition,
    )
        requires
            8 <= SIZE <= 255,
            color_on_v(old(board)@, *position) is Some,
            delta_ok(*delta),
        ensures
            moves_v(final(moves)@) == moves_v(old(moves)@) + slide_v(old(board)@, *position, *delta, 1),
            *final(board) == *old(board),
            moves_wf_from(moves_v(old(moves)@), *position) ==> moves_wf_from(moves_v(final(moves)@), *position),
    {
        let ghost b = board@;
        let ghost d = *delta;
        let ghost total = moves_v(moves@) + slide_v(b, *position, d, 1);
        let mut sliding = *delta;
        let ghost mut k: int = 1;
        assert(sliding == ((k * d.0) as i8, (k * d.1) as i8));
        loop
            invariant_except_break
                1 <= k <= 8,
                sliding.0 as int == k * d.0,
                sliding.1 as int == k * d.1,
                delta_ok(sliding),
                *board == *old(board),
                b == board@,
                d == *delta,
                delta_ok(d),
                8 <= SIZE <= 255,
                color_on_v(b, *position) is Some,
                total == moves_v(moves@) + slide_v(b, *position, d, k),
                moves_wf_from(moves_v(old(moves)@), *position) ==> moves_wf_from(moves_v(moves@), *position),
            ensures
                total == moves_v(moves@),
                *board == *old(board),
                moves_wf_from(moves_v(old(moves)@), *position) ==> moves_wf_from(moves_v(moves@), *position),
            decreases 8 - k,
        {
            assert(sliding == ((k * d.0) as i8, (k * d.1) as i8));
            let ghost m0 = moves_v(moves@);
            let go = self.generate_ij_abs_take_move(moves, board, position, &sliding);
            if !go {
                assert(slide_v(b, *position, d, k) == leap_v(b, *position, sliding).0);
                assert(total == m0 + slide_v(b, *position, d, k));
                assert(moves_v(moves@) == m0 + leap_v(b, *position, sliding).0);
                assert(total =~= moves_v(moves@));
                break;
            }
            proof {
                let c = color_at(b, *position);
                assert(wall_v(*position, sliding, c) == WallCollision::NoCollision);
                if d.0 == 0 && d.1 == 0 {
                    assert(k * d.0 == 0 && k * d.1 == 0) by (nonlinear_arith)
                        requires
                            d.0 == 0,
                            d.1 == 0,
                    ;
                    assert(moved(*position, sliding) == *position);
                    assert(!leap_v(b, *position, sliding).1);
                }
                let a = k * d.0;
                let e = k * d.1;
                assert(-7 <= a <= 7 && -7 <= e <= 7);
                assert(k < 8) by (nonlinear_arith)
                    requires
                        1 <= k <= 8,
                        a == k * d.0,
                        e == k * d.1,
                        -7 <= a <= 7,
                        -7 <= e <= 7,
                        d.0 != 0 || d.1 != 0,
                ;
                assert(-7 <= d.0 <= 7 && -7 <= d.1 <= 7) by (nonlinear_arith)
                    requires
                        1 <= k,
                        a == k * d.0,
                        e == k * d.1,
                        -7 <= a <= 7,
                        -7 <= e <= 7,
                ;
                assert((k + 1) * d.0 == a + d.0 && (k + 1) * d.1 == e + d.1) by (nonlinear_arith)
                    requires
                        a == k * d.0,
                        e == k * d.1,
                ;
                assert(total == m0 + slide_v(b, *position, d, k));
                assert(slide_v(b, *position, d, k) == leap_v(b, *position, sliding).0 + slide_v(
                    b,
                    *position,
                    d,
                    k + 1,
                ));
                assert(total =~= moves_v(moves@) + slide_v(b, *position, d, k + 1));
            }
            sliding.0 = sliding.0 + delta.0;
            sliding.1 = sliding.1 + delta.1;
            proof {
                k = k + 1;
            }
        }
    }
}

/// All displacements of `ds` can be added to a square without overflow.
pub open spec fn deltas_ok(ds: Seq<DeltaPosition>) -> bool {
    forall|i: int| 0 <= i < ds.len() ==> delta_ok(#[trigger] ds[i])
}

impl<'a> ChessemblyCompiled<'a> {
    /// One leap by each displacement of `ds`, in order.
    fn leap_all<const MACHO: bool, const IMPRISONED: bool, const SIZE: usize>(
        &self,
        moves: &mut Vec<ChessMove<'a>>,
        board: &mut Board<'a, MACHO, IMPRISONED, SIZE>,
        position: &Position,
        ds: &Vec<DeltaPosition>,
    )
        requires
            8 <= SIZE <= 255,
            color_on_v(old(board)@, *position) is Some,
            deltas_ok(ds@),
        ensures
            moves_v(final(moves)@) == moves_v(old(moves)@) + leaps(old(board)@, *position, ds@),
            *final(board) == *old(board),
            moves_wf_from(moves_v(old(moves)@), *position) ==> moves_wf_from(moves_v(final(moves)@), *position),
    {
        let mut i: usize = 0;
        while i < ds.len()
            invariant
                i <= ds@.len(),
                8 <= SIZE <= 255,
                color_on_v(board@, *position) is Some,
                deltas_ok(ds@),
                *board == *old(board),
                moves_v(moves@) == moves_v(old(moves)@) + leaps(board@, *position, ds@.subrange(0, i as int)),
                moves_wf_from(moves_v(old(moves)@), *position) ==> moves_wf_from(moves_v(moves@), *position),
            decreases ds@.len() - i,
        {
            let ghost m0 = moves_v(moves@);
            let d = ds[i];
            assert(delta_ok(ds@[i as int]));
            self.generate_ij_abs_take_move(moves, board, position, &d);
            assert(ds@.subrange(0, i + 1).drop_last() =~= ds@.subrange(0, i as int));
            assert(moves_v(moves@) =~= moves_v(old(moves)@) + leaps(board@, *position, ds@.subrange(0, i + 1)));
            i += 1;
        }
        assert(ds@.subrange(0, ds@.len() as int) =~= ds@);
    }

    /// One slide along each displacement of `ds`, in order.
    fn slide_all<const MACHO: bool, const IMPRISONED: bool, const SIZE: usize>(
        &self,
        moves: &mut Vec<ChessMove<'a>>,
        board: &mut Board<'a, MACHO, IMPRISONED, SIZE>,
        position: &Position,
        ds: &Vec<DeltaPosition>,
    )
        requires
            8 <= SIZE <= 255,
            color_on_v(old(board)@, *position) is Some,
            deltas_ok(ds@),
        ensures
            moves_v(final(moves)@) == moves_v(old(moves)@) + slides(old(board)@, *position, ds@),
            *final(board) == *old(board),
            moves_wf_from(moves_v(old(moves)@), *position) ==> moves_wf_from(moves_v(final(moves)@), *position),
    {
        let mut i: usize = 0;
        while i < ds.len()
            invariant
                i <= ds@.len(),
                8 <= SIZE <= 255,
                color_on_v(board@, *position) is Some,
                deltas_ok(ds@),
                *board == *old(board),
                moves_v(moves@) == moves_v(old(moves)@) + slides(board@, *position, ds@.subrange(0, i as int)),
                moves_wf_from(moves_v(old(moves)@), *position) ==> moves_wf_from(moves_v(moves@), *position),
            decreases ds@.len() - i,
        {
            let d = ds[i];
            assert(delta_ok(ds@[i as int]));
            self.generate_ij_abs_take_move_slide(moves, board, position, &d);
            assert(ds@.subrange(0, i + 1).drop_last() =~= ds@.subrange(0, i as int));
            assert(moves_v(moves@) =~= moves_v(old(moves)@) + slides(board@, *position, ds@.subrange(0, i + 1)));
            i += 1;
        }
        assert(ds@.subrange(0, ds@.len() as int) =~= ds@);
    }
}

fn orthogonal_vec() -> (r: Vec<DeltaPosition>)
    ensures
        r@ == orthogonal(),
        deltas_ok(r@),
{
    let r = vec![(1i8, 0i8), (-1i8, 0i8), (0i8, 1i8), (0i8, -1i8)];
    assert(r@ =~= orthogonal());
    r
}

fn diagonal_vec() -> (r: Vec<DeltaPosition>)
    ensures
        r@ == diagonal(),
        deltas_ok(r@),
{
    let r = vec![(1i8, 1i8), (1i8, -1i8), (-1i8, 1i8), (-1i8, -1i8)];
    assert(r@ =~= diagonal());
    r
}

fn all_directions_vec() -> (r: Vec<DeltaPosition>)
    ensures
        r@ == orthogonal() + diagonal(),
        deltas_ok(r@),
{
    let r = vec![
        (1i8, 0i8),
        (-1i8, 0i8),
        (0i8, 1i8),
        (0i8, -1i8),
        (1i8, 1i8),
        (1i8, -1i8),
        (-1i8, 1i8),
        (-1i8, -1i8),
    ];
    assert(r@ =~= orthogonal() + diagonal());
    r
}

/// The built-ins that only read the board, with the board unchanged.
impl<'a> ChessemblyCompiled<'a> {
    pub fn generate_bishop_moves<const MACHO: bool, const IMPRISONED: bool, const SIZE: usize>(
        &self,
        board: &mut Board<'a, MACHO, IMPRISONED, SIZE>,
        position: &Position,
    ) -> (r: Vec<ChessMove<'a>>)
        requires
            8 <= SIZE <= 255,
            color_on_v(old(board)@, *position) is Some,
        ensures
            moves_v(r@) == slides(old(board)@, *position, diagonal()),
            *final(board) == *old(board),
            moves_wf_from(moves_v(r@), *position),
    {
        let mut moves: Vec<ChessMove<'a>> = Vec::new();
        assert(moves_v(moves@) =~= seq![]);
        self.slide_all(&mut moves, board, position, &diagonal_vec());
        assert(moves_v(moves@) =~= slides(board@, *position, diagonal()));
        moves
    }

    pub fn generate_queen_moves<const MACHO: bool, const IMPRISONED: bool, const SIZE: usize>(
        &self,
        board: &mut Board<'a, MACHO, IMPRISONED, SIZE>,
        position: &Position,
    ) -> (r: Vec<ChessMove<'a>>)
        requires
            8 <= SIZE <= 255,
            color_on_v(old(board)@, *position) is Some,
        ensures
            moves_v(r@) == super::semantics::queen_v(old(board)@, *position),
            *final(board) == *old(board),
            moves_wf_from(moves_v(r@), *position),
    {
        let mut moves: Vec<ChessMove<'a>> = Vec::new();
        assert(moves_v(moves@) =~= seq![]);
        self.slide_all(&mut moves, board, position, &all_directions_vec());
        assert(moves_v(moves@) =~= super::semantics::queen_v(board@, *position));
        moves
    }

    pub fn generate_pseudo_rook_moves<const MACHO: bool, const IMPRISONED: bool, const SIZE: usize>(
        &self,
        board: &mut Board<'a, MACHO, IMPRISONED, SIZE>,
        position: &Position,
    ) -> (r: Vec<ChessMove<'a>>)
        requires
            8 <= SIZE <= 255,
            color_on_v(old(board)@, *position) is Some,
        ensures
            moves_v(r@) == slides(old(board)@, *position, orthogonal()),
            *final(board) == *old(board),
            moves_wf_from(moves_v(r@), *position),
    {
        let mut moves: Vec<ChessMove<'a>> = Vec::new();
        assert(moves_v(moves@) =~= seq![]);
        self.slide_all(&mut moves, board, position, &orthogonal_vec());
        assert(moves_v(moves@) =~= slides(board@, *position, orthogonal()));
        moves
    }

    /// The eight leaps `(±i, ±j)` and `(±j, ±i)`.
    pub fn generate_ij_moves<const MACHO: bool, const IMPRISONED: bool, const SIZE: usize>(
        &self,
        board: &mut Board<'a, MACHO, IMPRISONED, SIZE>,
        position: &Position,
        i: i8,
        j: i8,
    ) -> (r: Vec<ChessMove<'a>>)
        requires
            8 <= SIZE <= 255,
            color_on_v(old(board)@, *position) is Some,
            -120 <= i <= 120,
            -120 <= j <= 120,
        ensures
            moves_v(r@) == leaps(old(board)@, *position, ij_deltas(i, j)),
            *final(board) == *old(board),
            moves_wf_from(moves_v(r@), *position),
    {
        let ni: i8 = -i;
        let nj: i8 = -j;
        let ds = vec![(i, j), (ni, j), (i, nj), (ni, nj), (j, i), (nj, i), (j, ni), (nj, ni)];
        assert(ds@ =~= ij_deltas(i, j));
        let mut ret: Vec<ChessMove<'a>> = Vec::new();
        assert(moves_v(ret@) =~= seq![]);
        self.leap_all(&mut ret, board, position, &ds);
        assert(moves_v(ret@) =~= leaps(board@, *position, ij_deltas(i, j)));
        ret
    }

    pub fn generate_knight_moves<const MACHO: bool, const IMPRISONED: bool, const SIZE: usize>(
        &self,
        board: &mut Board<'a, MACHO, IMPRISONED, SIZE>,
        position: &Position,
    ) -> (r: Vec<ChessMove<'a>>)
        requires
            8 <= SIZE <= 255,
            color_on_v(old(board)@, *position) is Some,
        ensures
            moves_v(r@) == super::semantics::knight_v(old(board)@, *position),
            *final(board) == *old(board),
            moves_wf_from(moves_v(r@), *position),
    {
        self.generate_ij_moves(board, position, 2, 1)
    }

    pub fn generate_dozer_moves<const MACHO: bool, const IMPRISONED: bool, const SIZE: usize>(
        &self,
        board: &mut Board<'a, MACHO, IMPRISONED, SIZE>,
        position: &Position,
    ) -> (r: Vec<ChessMove<'a>>)
        requires
            8 <= SIZE <= 255,
            color_on_v(old(board)@, *position) is Some,
        ensures
            moves_v(r@) == leaps(old(board)@, *position, dozer_deltas(color_at(old(board)@, *position))),
            *final(board) == *old(board),
            moves_wf_from(moves_v(r@), *position),
    {
        let ds = if board.color_on(position) == Some(Color::Black) {
            vec![(-2i8, -1i8), (-1i8, -1i8), (0i8, -1i8), (1i8, -1i8), (2i8, -1i8)]
        } else {
            vec![(-2i8, 1i8), (-1i8, 1i8), (0i8, 1i8), (1i8, 1i8), (2i8, 1i8)]
        };
        assert(ds@ =~= dozer_deltas(color_at(board@, *position)));
        let mut moves: Vec<ChessMove<'a>> = Vec::new();
        assert(moves_v(moves@) =~= seq![]);
        self.leap_all(&mut moves, board, position, &ds);
        assert(moves_v(moves@) =~= leaps(board@, *position, ds@));
        moves
    }

    pub fn generate_alfil_moves<const MACHO: bool, const IMPRISONED: bool, const SIZE: usize>(
        &self,
        board: &mut Board<'a, MACHO, IMPRISONED, SIZE>,
        position: &Position,
    ) -> (r: Vec<ChessMove<'a>>)
        requires
            8 <= SIZE <= 255,
            color_on_v(old(board)@, *position) is Some,
        ensures
            moves_v(r@) == leaps(old(board)@, *position, alfil_deltas()),
            *final(board) == *old(board),
            moves_wf_from(moves_v(r@), *position),
    {
        let ds = vec![(2i8, 2i8), (2i8, -2i8), (-2i8, 2i8), (-2i8, -2i8)];
        assert(ds@ =~= alfil_deltas());
        let mut ret: Vec<ChessMove<'a>> = Vec::new();
        assert(moves_v(ret@) =~= seq![]);
        self.leap_all(&mut ret, board, position, &ds);
        assert(moves_v(ret@) =~= leaps(board@, *position, ds@));
        ret
    }

    pub fn generate_bard_moves<const MACHO: bool, const IMPRISONED: bool, const SIZE: usize>(
        &self,
        board: &mut Board<'a, MACHO, IMPRISONED, SIZE>,
        position: &Position,
    ) -> (r: Vec<ChessMove<'a>>)
        requires
            8 <= SIZE <= 255,
            color_on_v(old(board)@, *position) is Some,
        ensures
            moves_v(r@) == leaps(old(board)@, *position, bard_deltas()),
            *final(board) == *old(board),
            moves_wf_from(moves_v(r@), *position),
    {
        let ds = vec![
            (2i8, 0i8),
            (-2i8, 0i8),
            (0i8, 2i8),
            (0i8, -2i8),
            (2i8, 2i8),
            (2i8, -2i8),
            (-2i8, 2i8),
            (-2i8, -2i8),
        ];
        assert(ds@ =~= bard_deltas());
        let mut ret: Vec<ChessMove<'a>> = Vec::new();
        assert(moves_v(ret@) =~= seq![]);
        self.leap_all(&mut ret, board, position, &ds);
        assert(moves_v(ret@) =~= leaps(board@, *position, ds@));
        ret
    }

    pub fn generate_amazon_moves<const MACHO: bool, const IMPRISONED: bool, const SIZE: usize>(
        &self,
        board: &mut Board<'a, MACHO, IMPRISONED, SIZE>,
        position: &Position,
    ) -> (r: Vec<ChessMove<'a>>)
        requires
            8 <= SIZE <= 255,
            color_on_v(old(board)@, *position) is Some,
        ensures
            moves_v(r@) == super::semantics::knight_v(old(board)@, *position) + slides(
                old(board)@,
                *position,
                orthogonal() + diagonal(),
            ),
            *final(board) == *old(board),
            moves_wf_from(moves_v(r@), *position),
    {
        let mut moves = self.generate_knight_moves(board, position);
        self.slide_all(&mut moves, board, position, &all_directions_vec());
        moves
    }

    pub fn generate_centaur_moves<const MACHO: bool, const IMPRISONED: bool, const SIZE: usize>(
        &self,
        board: &mut Board<'a, MACHO, IMPRISONED, SIZE>,
        position: &Position,
    ) -> (r: Vec<ChessMove<'a>>)
        requires
            8 <= SIZE <= 255,
            color_on_v(old(board)@, *position) is Some,
        ensures
            moves_v(r@) == super::semantics::knight_v(old(board)@, *position) + leaps(
                old(board)@,
                *position,
                orthogonal() + diagonal(),
            ),
            *final(board) == *old(board),
            moves_wf_from(moves_v(r@), *position),
    {
        let mut moves = self.generate_knight_moves(board, position);
        self.leap_all(&mut moves, board, position, &all_directions_vec());
        moves
    }

    pub fn generate_archbishop_moves<const MACHO: bool, const IMPRISONED: bool, const SIZE: usize>(
        &self,
        board: &mut Board<'a, MACHO, IMPRISONED, SIZE>,
        position: &Position,
    ) -> (r: Vec<ChessMove<'a>>)
        requires
            8 <= SIZE <= 255,
            color_on_v(old(board)@, *position) is Some,
        ensures
            moves_v(r@) == super::semantics::knight_v(old(board)@, *position) + slides(
                old(board)@,
                *position,
                diagonal(),
            ),
            *final(board) == *old(board),
            moves_wf_from(moves_v(r@), *position),
    {
        let mut moves = self.generate_knight_moves(board, position);
        self.slide_all(&mut moves, board, position, &diagonal_vec());
        moves
    }

    pub fn generate_chancellor_moves<const MACHO: bool, const IMPRISONED: bool, const SIZE: usize>(
        &self,
        board: &mut Board<'a, MACHO, IMPRISONED, SIZE>,
        position: &Position,
    ) -> (r: Vec<ChessMove<'a>>)
        requires
            8 <= SIZE <= 255,
            color_on_v(old(board)@, *position) is Some,
        ensures
            moves_v(r@) == super::semantics::knight_v(old(board)@, *position) + slides(
                old(board)@,
                *position,
                orthogonal(),
            ),
            *final(board) == *old(board),
            moves_wf_from(moves_v(r@), *position),
    {
        let mut moves = self.generate_knight_moves(board, position);
        self.slide_all(&mut moves, board, position, &orthogonal_vec());
        moves
    }

    /// Swaps with any friendly piece but pawns and beacons.
    pub fn generate_beacon_moves<const MACHO: bool, const IMPRISONED: bool, const SIZE: usize>(
        &self,
        board: &mut Board<'a, MACHO, IMPRISONED, SIZE>,
        position: &Position,
    ) -> (r: Vec<ChessMove<'a>>)
        requires
            8 <= SIZE <= 255,
            color_on_v(old(board)@, *position) is Some,
        ensures
            moves_v(r@) == beacon_v(old(board)@, *position, 0),
            *final(board) == *old(board),
            moves_wf_from(moves_v(r@), *position),
    {
        let color = board.color_on(position).unwrap();
        let mut moves: Vec<ChessMove<'a>> = Vec::new();
        let mut k: usize = 0;
        assert(moves_v(moves@) =~= seq![]);
        while k < 64
            invariant
                k <= 64,
                8 <= SIZE <= 255,
                color == color_at(board@, *position),
                *board == *old(board),
                moves_v(moves@) + beacon_v(board@, *position, k as int) == beacon_v(board@, *position, 0),
                in_board(*position),
                moves_wf_from(moves_v(moves@), *position),
            decreases 64 - k,
        {
            let t: Position = ((k % 8) as u8, (k / 8) as u8);
            let ghost m0 = moves_v(moves@);
            let hit = match board.color_on(&t) {
                Some(c) => if c == color {
                    match board.piece_on(&t) {
                        Some(p) => !super::text::str_eq(p, "pawn") && !super::text::str_eq(p, "beacon"),
                        None => false,
                    }
                } else {
                    false
                },
                None => false,
            };
            if hit {
                push_move_from(&mut moves, plain_move(*position, *position, t, MoveType::Shift), Ghost(*position));
                assert(m0 + beacon_v(board@, *position, k as int) =~= moves_v(moves@) + beacon_v(
                    board@,
                    *position,
                    k + 1,
                ));
            }
            k += 1;
        }
        moves
    }
}

fn king_reset_vec<'a>() -> (r: Vec<(&'a str, u8)>)
    ensures
        super::pairs_v(r@) == king_reset(),
{
    let r = vec![("castling-oo", 0u8), ("castling-ooo", 0u8)];
    assert(super::pairs_v(r@) =~= king_reset());
    r
}

fn is_named(o: Option<&str>, name: &str) -> (r: bool)
    ensures
        r == (super::opt_str_v(o) == Some(name@)),
{
    match o {
        Some(p) => super::text::str_eq(p, name),
        None => false,
    }
}

impl<'a> ChessemblyCompiled<'a> {
    /// Whether bit `8*y + x` of the mask is set.
    pub fn is_danger_bit(danger_zones_bit: u64, x: u8, y: u8) -> (r: bool)
        requires
            8 * y + x < 64,
        ensures
            r == bit_at(danger_zones_bit, (x, y)),
    {
        (danger_zones_bit & (1u64 << ((8 * y + x) as u64))) != 0
    }

    fn king_step<const MACHO: bool, const IMPRISONED: bool, const SIZE: usize>(
        board: &Board<'a, MACHO, IMPRISONED, SIZE>,
        ret: &mut Vec<ChessMove<'a>>,
        position: &Position,
        danger_zones: u64,
        d: DeltaPosition,
    )
        requires
            SIZE == 8,
            color_on_v(board@, *position) is Some,
            delta_ok(d),
        ensures
            moves_v(final(ret)@) == moves_v(old(ret)@) + king_step_v(MACHO, board@, *position, danger_zones, d),
            moves_wf_from(moves_v(old(ret)@), *position) ==> moves_wf_from(moves_v(final(ret)@), *position),
    {
        let color = board.color_on(position).unwrap();
        let wc = super::interp::wall_collision(position, &d, color);
        if wc == WallCollision::NoCollision {
            proof {
                super::interp::lemma_wall_color(*position, d, color);
            }
            let t = super::interp::moved_by(position, &d);
            if board.color_on(&t) != board.color_on(position) {
                if MACHO || !ChessemblyCompiled::is_danger_bit(danger_zones, t.0, t.1) {
                    let m = ChessMove::Single(
                        ChessMoveUnit {
                            from: *position,
                            take: t,
                            move_to: t,
                            move_type: MoveType::TakeMove,
                            state_change: Some(king_reset_vec()),
                            transition: None,
                        },
                    );
                    let ghost m0 = moves_v(ret@);
                    push_move(ret, m);
                    proof {
                        if moves_wf_from(m0, *position) {
                            lemma_wf_push(m0, m@, *position);
                        }
                    }
                    assert(moves_v(ret@) =~= m0 + king_step_v(MACHO, board@, *position, danger_zones, d));
                    return;
                }
            }
        }
        assert(moves_v(ret@) =~= moves_v(ret@) + seq![]);
    }

    fn castling<const MACHO: bool, const IMPRISONED: bool, const SIZE: usize>(
        board: &Board<'a, MACHO, IMPRISONED, SIZE>,
        ret: &mut Vec<ChessMove<'a>>,
        position: &Position,
        danger_zones: u64,
        rook_x: u8,
        to_x: u8,
        empty: &Vec<u8>,
    )
        requires
            SIZE == 8,
            to_x < 8,
            in_board(*position),
            color_on_v(board@, *position) is Some,
        ensures
            moves_v(final(ret)@) == moves_v(old(ret)@) + castling_v(
                board@,
                *position,
                danger_zones,
                rook_x,
                to_x,
                empty@,
            ),
            moves_wf_from(moves_v(old(ret)@), *position) ==> moves_wf_from(moves_v(final(ret)@), *position),
    {
        let color = board.color_on(position).unwrap();
        let y = position.1;
        let mut clear = true;
        let mut i: usize = 0;
        while i < empty.len()
            invariant
                i <= empty@.len(),
                SIZE == 8,
                clear == (forall|k: int| 0 <= k < i ==> color_on_v(board@, (#[trigger] empty@[k], y)) is None),
            decreases empty@.len() - i,
        {
            if board.color_on(&(empty[i], y)).is_some() {
                clear = false;
            }
            i += 1;
        }
        if is_named(board.piece_on(&(rook_x, y)), "rook") && board.color_on(&(rook_x, y)) == Some(color)
            && clear && !ChessemblyCompiled::is_danger_bit(danger_zones, position.0, position.1) {
            let m = ChessMove::Single(
                ChessMoveUnit {
                    from: *position,
                    take: (to_x, y),
                    move_to: (to_x, y),
                    move_type: MoveType::Castling,
                    state_change: Some(king_reset_vec()),
                    transition: None,
                },
            );
            let ghost m0 = moves_v(ret@);
            push_move(ret, m);
            proof {
                if moves_wf_from(m0, *position) {
                    lemma_wf_push(m0, m@, *position);
                }
            }
            assert(moves_v(ret@) =~= m0 + castling_v(board@, *position, danger_zones, rook_x, to_x, empty@));
        } else {
            assert(moves_v(ret@) =~= moves_v(ret@) + seq![]);
        }
    }

    /// The king's steps (not onto squares of `danger_zones` outside the macho
    /// variant) and castlings; none in the imprisoned variant.
    pub fn generate_king_moves<const MACHO: bool, const IMPRISONED: bool, const SIZE: usize>(
        &self,
        board: &mut Board<'a, MACHO, IMPRISONED, SIZE>,
        position: &Position,
        danger_zones: u64,
    ) -> (r: Vec<ChessMove<'a>>)
        requires
            SIZE == 8,
            color_on_v(old(board)@, *position) is Some,
        ensures
            moves_v(r@) == king_v(MACHO, IMPRISONED, old(board)@, *position, danger_zones),
            *final(board) == *old(board),
            moves_wf_from(moves_v(r@), *position),
    {
        if IMPRISONED {
            let r: Vec<ChessMove<'a>> = Vec::new();
            assert(moves_v(r@) =~= seq![]);
            return r;
        }
        let ds = vec![
            (-1i8, -1i8),
            (-1i8, 0i8),
            (-1i8, 1i8),
            (0i8, -1i8),
            (0i8, 1i8),
            (1i8, -1i8),
            (1i8, 0i8),
            (1i8, 1i8),
        ];
        assert(ds@ =~= king_deltas());
        let mut ret: Vec<ChessMove<'a>> = Vec::new();
        assert(moves_v(ret@) =~= seq![]);
        let mut i: usize = 0;
        while i < ds.len()
            invariant
                i <= ds@.len(),
                ds@ == king_deltas(),
                SIZE == 8,
                color_on_v(board@, *position) is Some,
                *board == *old(board),
                moves_v(ret@) == king_steps(MACHO, board@, *position, danger_zones, ds@.subrange(0, i as int)),
                moves_wf_from(moves_v(ret@), *position),
            decreases ds@.len() - i,
        {
            Self::king_step(board, &mut ret, position, danger_zones, ds[i]);
            assert(ds@.subrange(0, i + 1).drop_last() =~= ds@.subrange(0, i as int));
            i += 1;
        }
        assert(ds@.subrange(0, 8) =~= ds@);
        if MACHO {
            return ret;
        }
        let color = board.color_on(position).unwrap();
        let st = if color == Color::White {
            &board.board_state.white
        } else {
            &board.board_state.black
        };
        let oo = st.castling_oo;
        let ooo = st.castling_ooo;
        let ghost steps = moves_v(ret@);
        let e1 = vec![6u8, 5u8];
        let e2 = vec![1u8, 2u8, 3u8];
        assert(e1@ =~= seq![6u8, 5u8]);
        assert(e2@ =~= seq![1u8, 2u8, 3u8]);
        if oo {
            Self::castling(board, &mut ret, position, danger_zones, 7, 6, &e1);
        }
        let ghost with_oo = moves_v(ret@);
        if ooo {
            Self::castling(board, &mut ret, position, danger_zones, 0, 2, &e2);
        }
        proof {
            let b = board@;
            let oo_v = if side_v(b, color_at(b, *position)).castling_oo {
                castling_v(b, *position, danger_zones, 7, 6, seq![6u8, 5u8])
            } else {
                seq![]
            };
            let ooo_v = if side_v(b, color_at(b, *position)).castling_ooo {
                castling_v(b, *position, danger_zones, 0, 2, seq![1u8, 2u8, 3u8])
            } else {
                seq![]
            };
            assert(with_oo =~= steps + oo_v);
            assert(moves_v(ret@) =~= steps + oo_v + ooo_v);
        }
        ret
    }
}

/// Appends a pawn's step or capture onto `to`: four promotions on the last
/// rank (outside the macho variant), a plain move otherwise.
fn push_pawn_to<'a>(ret: &mut Vec<ChessMove<'a>>, macho: bool, pos: Position, to: Position, t: MoveType, promo: u8)
    requires
        in_board(pos),
        in_board(to),
        moves_wf_from(moves_v(old(ret)@), pos),
    ensures
        moves_v(final(ret)@) == moves_v(old(ret)@) + pawn_to(macho, pos, to, t, promo),
        moves_wf_from(moves_v(final(ret)@), pos),
{
    let ghost m0 = moves_v(ret@);
    if pos.1 == promo && !macho {
        push_move_from(
            ret,
            ChessMove::Single(
                ChessMoveUnit { from: pos, take: to, move_to: to, move_type: t, state_change: None, transition: Some("knight") },
            ),
            Ghost(pos),
        );
        push_move_from(
            ret,
            ChessMove::Single(
                ChessMoveUnit { from: pos, take: to, move_to: to, move_type: t, state_change: None, transition: Some("bishop") },
            ),
            Ghost(pos),
        );
        push_move_from(
            ret,
            ChessMove::Single(
                ChessMoveUnit { from: pos, take: to, move_to: to, move_type: t, state_change: None, transition: Some("rook") },
            ),
            Ghost(pos),
        );
        push_move_from(
            ret,
            ChessMove::Single(
                ChessMoveUnit { from: pos, take: to, move_to: to, move_type: t, state_change: None, transition: Some("queen") },
            ),
            Ghost(pos),
        );
        assert(moves_v(ret@) =~= m0 + promotions(pos, to, t));
    } else {
        push_move_from(ret, plain_move(pos, to, to, t), Ghost(pos));
        assert(moves_v(ret@) =~= m0 + seq![plain(pos, to, to, t)]);
    }
}

/// Whether `p` is among the squares of `v`.
fn contains_pos(v: &Vec<Position>, p: Position) -> (r: bool)
    ensures
        r == v@.contains(p),
{
    let mut i: usize = 0;
    while i < v.len()
        invariant
            i <= v@.len(),
            forall|k: int| 0 <= k < i ==> v@[k] != p,
        decreases v@.len() - i,
    {
        if v[i].0 == p.0 && v[i].1 == p.1 {
            assert(v@[i as int] == p);
            return true;
        }
        i += 1;
    }
    false
}

impl<'a> ChessemblyCompiled<'a> {
    #[verifier::rlimit(60)]
    /// A pawn's steps (double from its starting rank, marked for en passant),
    /// diagonal captures, en-passant captures and promotions (none in the
    /// macho variant, where an en-passant capture also discards the moves
    /// found before it).
    pub fn generate_pawn_moves<const MACHO: bool, const IMPRISONED: bool, const SIZE: usize>(
        &self,
        board: &mut Board<'a, MACHO, IMPRISONED, SIZE>,
        position: &Position,
    ) -> (r: Vec<ChessMove<'a>>)
        requires
            SIZE == 8,
            color_on_v(old(board)@, *position) is Some,
        ensures
            moves_v(r@) == pawn_v(MACHO, old(board)@, *position),
            *final(board) == *old(board),
            moves_wf_from(moves_v(r@), *position),
    {
        let ghost b = board@;
        let mut ret: Vec<ChessMove<'a>> = Vec::new();
        assert(moves_v(ret@) =~= seq![]);
        let color = board.color_on(position).unwrap();
        let white = color == Color::White;
        let rank: u8 = if white { 6 } else { 1 };
        let promotion: u8 = if white { 1 } else { 6 };
        let wall: u8 = if white { 0 } else { 7 };
        if position.1 == wall {
            return ret;
        }
        let step1: u8 = if white { position.1 - 1 } else { position.1 + 1 };
        let x = position.0;
        if board.color_on(&(x, step1)).is_none() {
            push_pawn_to(&mut ret, MACHO, *position, (x, step1), MoveType::Move, promotion);
            if position.1 == rank {
                let step2: u8 = if white { 4 } else { 3 };
                if board.color_on(&(x, step2)).is_none() {
                    let sc = vec![("enpassant", 1u8)];
                    assert(super::pairs_v(sc@) =~= seq![("enpassant"@, 1u8)]);
                    push_move_from(
                        &mut ret,
                        ChessMove::Single(
                            ChessMoveUnit {
                                from: *position,
                                take: (x, step2),
                                move_to: (x, step2),
                                move_type: MoveType::Move,
                                state_change: Some(sc),
                                transition: None,
                            },
                        ),
                        Ghost(*position),
                    );
                }
            }
        }
        let ghost r1 = moves_v(ret@);
        let ep_rank: u8 = if white { 3 } else { 4 };
        if position.1 == ep_rank {
            let st = if white {
                &board.board_state.white
            } else {
                &board.board_state.black
            };
            if x > 0 {
                if contains_pos(&st.enpassant, (x - 1, position.1)) {
                    if MACHO {
                        ret.clear();
                        assert(moves_v(ret@) =~= seq![]);
                    }
                    push_move_from(&mut ret, plain_move(*position, (x - 1, position.1), (x - 1, step1), MoveType::TakeJump), Ghost(*position));
                }
            }
            if x < 7 {
                if contains_pos(&st.enpassant, (x + 1, position.1)) {
                    if MACHO {
                        ret.clear();
                        assert(moves_v(ret@) =~= seq![]);
                    }
                    push_move_from(&mut ret, plain_move(*position, (x + 1, position.1), (x + 1, step1), MoveType::TakeJump), Ghost(*position));
                }
            }
        }
        let ghost r2 = moves_v(ret@);
        if x > 0 {
            if board.color_on(&(x - 1, step1)) == Some(color.invert()) {
                push_pawn_to(&mut ret, MACHO, *position, (x - 1, step1), MoveType::Take, promotion);
            }
        }
        if x < 7 {
            if board.color_on(&(x + 1, step1)) == Some(color.invert()) {
                push_pawn_to(&mut ret, MACHO, *position, (x + 1, step1), MoveType::Take, promotion);
            }
        }
        ret
    }
}

/// A chain `prefix, take-move(d), repeat(1)`.
fn repeat_chain_vec<'a>(prefix: Option<(&'a str, u8)>, d: DeltaPosition) -> (r: Vec<Behavior<'a>>)
    ensures
        chain_v(r@) == repeat_chain(
            match prefix {
                Some(p) => seq![BehaviorV::SetState((p.0@, p.1))],
                None => seq![],
            },
            d,
        ),
{
    let r = match prefix {
        Some(p) => vec![Behavior::SetState(p), Behavior::TakeMove(d), Behavior::Repeat(1)],
        None => vec![Behavior::TakeMove(d), Behavior::Repeat(1)],
    };
    assert(chain_v(r@) =~= repeat_chain(
        match prefix {
            Some(p) => seq![BehaviorV::SetState((p.0@, p.1))],
            None => seq![],
        },
        d,
    ));
    r
}

/// Two-instruction-and-repeat chain.
fn chain3<'a>(a: Behavior<'a>, b: Behavior<'a>, c: Behavior<'a>) -> (r: Vec<Behavior<'a>>)
    ensures
        chain_v(r@) == seq![a@, b@, c@],
{
    let r = vec![a, b, c];
    assert(chain_v(r@) =~= seq![a@, b@, c@]);
    r
}

fn chain2<'a>(a: Behavior<'a>, b: Behavior<'a>) -> (r: Vec<Behavior<'a>>)
    ensures
        chain_v(r@) == seq![a@, b@],
{
    let r = vec![a, b];
    assert(chain_v(r@) =~= seq![a@, b@]);
    r
}

fn chain1<'a>(a: Behavior<'a>) -> (r: Vec<Behavior<'a>>)
    ensures
        chain_v(r@) == seq![a@],
{
    let r = vec![a];
    assert(chain_v(r@) =~= seq![a@]);
    r
}

fn cannon_take_vec<'a>(d: DeltaPosition) -> (r: Vec<Behavior<'a>>)
    ensures
        chain_v(r@) == cannon_take_chain(d),
{
    let r = vec![
        Behavior::Do,
        Behavior::Take(d),
        Behavior::Enemy((0, 0)),
        Behavior::Not,
        Behavior::While,
        Behavior::Jump(d),
        Behavior::Repeat(1),
    ];
    assert(chain_v(r@) =~= cannon_take_chain(d));
    r
}

fn cannon_move_vec<'a>(d: DeltaPosition) -> (r: Vec<Behavior<'a>>)
    ensures
        chain_v(r@) == cannon_move_chain(d),
{
    let r = vec![
        Behavior::Do,
        Behavior::Peek(d),
        Behavior::While,
        Behavior::Friendly((0, 0)),
        Behavior::Move(d),
        Behavior::Repeat(1),
    ];
    assert(chain_v(r@) =~= cannon_move_chain(d));
    r
}

/// A script of the given chains.
fn script_of<'a>(chains: Vec<Vec<Behavior<'a>>>) -> (r: ChessemblyCompiled<'a>)
    ensures
        r@ == chains@.map_values(|c: Vec<Behavior<'a>>| chain_v(c@)),
{
    ChessemblyCompiled { chains }
}

impl<'a> ChessemblyCompiled<'a> {
    /// Runs a built-in script with attacked squares ignored.
    fn run_builtin<const MACHO: bool, const IMPRISONED: bool, const SIZE: usize>(
        sc: &ChessemblyCompiled<'a>,
        board: &mut Board<'a, MACHO, IMPRISONED, SIZE>,
        position: &Position,
    ) -> (r: Vec<ChessMove<'a>>)
        requires
            old(board).wf(),
            sc.wf(),
            color_on_v(old(board)@, *position) is Some,
        ensures
            moves_v(r@) == gen_script_v(old(board).ctx(), old(board)@, old(board).dp_v(), *position, false, sc@).0,
            final(board).dp_v() == gen_script_v(old(board).ctx(), old(board)@, old(board).dp_v(), *position, false, sc@).1,
            moves_wf_from(moves_v(r@), *position),
            same_position(*old(board), *final(board)),
        decreases 0int, 5int, 1int,
    {
        match sc.generate_moves(board, position, false) {
            Ok(v) => v,
            Err(_) => Vec::new(),
        }
    }

    /// The rook's slides; a rook on its home corner also clears the matching
    /// castling right.
    pub fn generate_rook_moves<const MACHO: bool, const IMPRISONED: bool, const SIZE: usize>(
        &self,
        board: &mut Board<'a, MACHO, IMPRISONED, SIZE>,
        position: &Position,
    ) -> (r: Vec<ChessMove<'a>>)
        requires
            old(board).wf(),
            color_on_v(old(board)@, *position) is Some,
        ensures
            moves_v(r@) == gen_script_v(
                old(board).ctx(),
                old(board)@,
                old(board).dp_v(),
                *position,
                false,
                rook_script(old(board)@, *position),
            ).0,
            final(board).dp_v() == gen_script_v(
                old(board).ctx(),
                old(board)@,
                old(board).dp_v(),
                *position,
                false,
                rook_script(old(board)@, *position),
            ).1,
            moves_wf_from(moves_v(r@), *position),
            same_position(*old(board), *final(board)),
        decreases 0int, 6int, 0int,
    {
        let c = board.color_on(position).unwrap();
        let x = position.0;
        let y = position.1;
        let st: Option<(&'a str, u8)> = if x == 0 && y == 7 && c == Color::White {
            Some(("castling-ooo", 0u8))
        } else if x == 7 && y == 7 && c == Color::White {
            Some(("castling-oo", 0u8))
        } else if x == 0 && y == 0 && c == Color::Black {
            Some(("castling-ooo", 0u8))
        } else if x == 7 && y == 0 && c == Color::Black {
            Some(("castling-oo", 0u8))
        } else {
            None
        };
        let c1 = repeat_chain_vec(st, (1i8, 0i8));
        let c2 = repeat_chain_vec(st, (-1i8, 0i8));
        let c3 = repeat_chain_vec(st, (0i8, 1i8));
        let c4 = repeat_chain_vec(st, (0i8, -1i8));
        let sc = script_of(vec![c1, c2, c3, c4]);
        assert(sc@ =~= rook_script(board@, *position));
        assert(sc.wf());
        Self::run_builtin(&sc, board, position)
    }

    pub fn generate_wasp_moves<const MACHO: bool, const IMPRISONED: bool, const SIZE: usize>(
        &self,
        board: &mut Board<'a, MACHO, IMPRISONED, SIZE>,
        position: &Position,
    ) -> (r: Vec<ChessMove<'a>>)
        requires
            old(board).wf(),
            color_on_v(old(board)@, *position) is Some,
        ensures
            moves_v(r@) == gen_script_v(old(board).ctx(), old(board)@, old(board).dp_v(), *position, false, wasp_script()).0,
            final(board).dp_v() == gen_script_v(
                old(board).ctx(),
                old(board)@,
                old(board).dp_v(),
                *position,
                false,
                wasp_script(),
            ).1,
            moves_wf_from(moves_v(r@), *position),
            same_position(*old(board), *final(board)),
        decreases 0int, 6int, 0int,
    {
        let sc = script_of(
            vec![
                chain2(Behavior::TakeMove((0, 1)), Behavior::Repeat(1)),
                chain2(Behavior::Move((1, -1)), Behavior::Repeat(1)),
                chain2(Behavior::Move((-1, -1)), Behavior::Repeat(1)),
            ],
        );
        assert(sc@ =~= wasp_script());
        assert(sc.wf());
        Self::run_builtin(&sc, board, position)
    }

    pub fn generate_tempest_rook_moves<const MACHO: bool, const IMPRISONED: bool, const SIZE: usize>(
        &self,
        board: &mut Board<'a, MACHO, IMPRISONED, SIZE>,
        position: &Position,
    ) -> (r: Vec<ChessMove<'a>>)
        requires
            old(board).wf(),
            color_on_v(old(board)@, *position) is Some,
        ensures
            moves_v(r@) == gen_script_v(old(board).ctx(), old(board)@, old(board).dp_v(), *position, false, tempest_script()).0,
            final(board).dp_v() == gen_script_v(
                old(board).ctx(),
                old(board)@,
                old(board).dp_v(),
                *position,
                false,
                tempest_script(),
            ).1,
            moves_wf_from(moves_v(r@), *position),
            same_position(*old(board), *final(board)),
        decreases 0int, 6int, 0int,
    {
        let sc = script_of(
            vec![
                chain3(Behavior::TakeMove((1, 1)), Behavior::TakeMove((1, 0)), Behavior::Repeat(1)),
                chain3(Behavior::TakeMove((1, 1)), Behavior::TakeMove((0, 1)), Behavior::Repeat(1)),
                chain3(Behavior::TakeMove((1, -1)), Behavior::TakeMove((1, 0)), Behavior::Repeat(1)),
                chain3(Behavior::TakeMove((1, -1)), Behavior::TakeMove((0, -1)), Behavior::Repeat(1)),
                chain3(Behavior::TakeMove((-1, 1)), Behavior::TakeMove((-1, 0)), Behavior::Repeat(1)),
                chain3(Behavior::TakeMove((-1, 1)), Behavior::TakeMove((0, 1)), Behavior::Repeat(1)),
                chain3(Behavior::TakeMove((-1, -1)), Behavior::TakeMove((-1, 0)), Behavior::Repeat(1)),
                chain3(Behavior::TakeMove((-1, -1)), Behavior::TakeMove((0, -1)), Behavior::Repeat(1)),
            ],
        );
        assert(sc@ =~= tempest_script());
        assert(sc.wf());
        Self::run_builtin(&sc, board, position)
    }

    pub fn generate_pseudo_pawn_moves<const MACHO: bool, const IMPRISONED: bool, const SIZE: usize>(
        &self,
        board: &mut Board<'a, MACHO, IMPRISONED, SIZE>,
        position: &Position,
    ) -> (r: Vec<ChessMove<'a>>)
        requires
            old(board).wf(),
            color_on_v(old(board)@, *position) is Some,
        ensures
            moves_v(r@) == gen_script_v(old(board).ctx(), old(board)@, old(board).dp_v(), *position, false, pseudo_pawn_script()).0,
            final(board).dp_v() == gen_script_v(
                old(board).ctx(),
                old(board)@,
                old(board).dp_v(),
                *position,
                false,
                pseudo_pawn_script(),
            ).1,
            moves_wf_from(moves_v(r@), *position),
            same_position(*old(board), *final(board)),
        decreases 0int, 6int, 0int,
    {
        let sc = script_of(
            vec![
                chain1(Behavior::Move((0, 1))),
                chain1(Behavior::Take((1, 1))),
                chain1(Behavior::Take((-1, 1))),
            ],
        );
        assert(sc@ =~= pseudo_pawn_script());
        assert(sc.wf());
        Self::run_builtin(&sc, board, position)
    }

    /// The cannon: slides to capture the first enemy behind a screen, or moves
    #[verifier::rlimit(100)]
    /// along empty lines. (No piece name selects it.)
    pub fn generate_cannon_moves<const MACHO: bool, const IMPRISONED: bool, const SIZE: usize>(
        &self,
        board: &mut Board<'a, MACHO, IMPRISONED, SIZE>,
        position: &Position,
    ) -> (r: Vec<ChessMove<'a>>)
        requires
            old(board).wf(),
            color_on_v(old(board)@, *position) is Some,
        ensures
            moves_v(r@) == gen_script_v(old(board).ctx(), old(board)@, old(board).dp_v(), *position, false, cannon_script()).0,
            final(board).dp_v() == gen_script_v(
                old(board).ctx(),
                old(board)@,
                old(board).dp_v(),
                *position,
                false,
                cannon_script(),
            ).1,
            moves_wf_from(moves_v(r@), *position),
            same_position(*old(board), *final(board)),
        decreases 0int, 6int, 0int,
    {
        let chains = vec![
            cannon_take_vec((1, 0)),
            cannon_take_vec((-1, 0)),
            cannon_take_vec((0, 1)),
            cannon_take_vec((0, -1)),
            cannon_move_vec((1, 0)),
            cannon_move_vec((-1, 0)),
            cannon_move_vec((0, 1)),
            cannon_move_vec((0, -1)),
        ];
        let sc = script_of(chains);
        assert(sc@ =~= cannon_script());
        assert(sc.wf());
        Self::run_builtin(&sc, board, position)
    }

    /// A script compiled from `text`, run if all of its instructions are safe.
    fn run_text<const MACHO: bool, const IMPRISONED: bool, const SIZE: usize>(
        text: &'a str,
        board: &mut Board<'a, MACHO, IMPRISONED, SIZE>,
        position: &Position,
    ) -> (r: Vec<ChessMove<'a>>)
        requires
            old(board).wf(),
            color_on_v(old(board)@, *position) is Some,
        ensures
            moves_v(r@) == text_script_moves(old(board).ctx(), old(board)@, old(board).dp_v(), *position, text@).0,
            final(board).dp_v() == text_script_moves(
                old(board).ctx(),
                old(board)@,
                old(board).dp_v(),
                *position,
                text@,
            ).1,
            moves_wf_from(moves_v(r@), *position),
            same_position(*old(board), *final(board)),
        decreases 0int, 6int, 1int,
    {
        match ChessemblyCompiled::from_script(text) {
            Ok(fs) => {
                if fs.is_wf() {
                    Self::run_builtin(&fs, board, position)
                } else {
                    let r: Vec<ChessMove<'a>> = Vec::new();
                    assert(moves_v(r@) =~= seq![]);
                    r
                }
            },
            Err(_) => Vec::new(),
        }
    }

    pub fn generate_bouncing_bishop_moves<const MACHO: bool, const IMPRISONED: bool, const SIZE: usize>(
        &self,
        board: &mut Board<'a, MACHO, IMPRISONED, SIZE>,
        position: &Position,
    ) -> (r: Vec<ChessMove<'a>>)
        requires
            old(board).wf(),
            color_on_v(old(board)@, *position) is Some,
        ensures
            moves_v(r@) == text_script_moves(
                old(board).ctx(),
                old(board)@,
                old(board).dp_v(),
                *position,
                bouncing_bishop_text(),
            ).0,
            final(board).dp_v() == text_script_moves(
                old(board).ctx(),
                old(board)@,
                old(board).dp_v(),
                *position,
                bouncing_bishop_text(),
            ).1,
            moves_wf_from(moves_v(r@), *position),
            same_position(*old(board), *final(board)),
        decreases 0int, 6int, 2int,
    {
        Self::run_text(
            "do take-move(1, 1) while peek(0, 0) edge-right(1, 1) jne(0) take-move(-1, 1) repeat(1) label(0) edge-top(1, 1) jne(1) take-move(1, -1) repeat(1) label(1);do take-move(-1, 1) while peek(0, 0) edge-left(-1, 1) jne(0) take-move(1, 1) repeat(1) label(0) edge-top(-1, 1) jne(1) take-move(-1, -1) repeat(1) label(1);do take-move(1, -1) while peek(0, 0) edge-right(1, -1) jne(0) take-move(-1, -1) repeat(1) label(0) edge-bottom(1, -1) jne(1) take-move(1, 1) repeat(1) label(1);do take-move(-1, -1) while peek(0, 0) edge-left(-1, -1) jne(0) take-move(1, -1) repeat(1) label(0) edge-bottom(-1, -1) jne(1) take-move(-1, 1) repeat(1) label(1);",
            board,
            position,
        )
    }

    pub fn generate_windmill_rook_moves<const MACHO: bool, const IMPRISONED: bool, const SIZE: usize>(
        &self,
        board: &mut Board<'a, MACHO, IMPRISONED, SIZE>,
        position: &Position,
    ) -> (r: Vec<ChessMove<'a>>)
        requires
            old(board).wf(),
            color_on_v(old(board)@, *position) is Some,
        ensures
            moves_v(r@) == text_script_moves(
                old(board).ctx(),
                old(board)@,
                old(board).dp_v(),
                *position,
                windmill_rook_text(),
            ).0,
            final(board).dp_v() == text_script_moves(
                old(board).ctx(),
                old(board)@,
                old(board).dp_v(),
                *position,
                windmill_rook_text(),
            ).1,
            moves_wf_from(moves_v(r@), *position),
            same_position(*old(board), *final(board)),
        decreases 0int, 6int, 2int,
    {
        Self::run_text(
            "piece(windmill-rook) transition(windmill-bishop) { take-move(1, 0) repeat(1) } { take-move(0, 1) repeat(1) } { take-move(-1, 0) repeat(1) } { take-move(0, -1) repeat(1) };",
            board,
            position,
        )
    }

    pub fn generate_windmill_bishop_moves<const MACHO: bool, const IMPRISONED: bool, const SIZE: usize>(
        &self,
        board: &mut Board<'a, MACHO, IMPRISONED, SIZE>,
        position: &Position,
    ) -> (r: Vec<ChessMove<'a>>)
        requires
            old(board).wf(),
            color_on_v(old(board)@, *position) is Some,
        ensures
            moves_v(r@) == text_script_moves(
                old(board).ctx(),
                old(board)@,
                old(board).dp_v(),
                *position,
                windmill_bishop_text(),
            ).0,
            final(board).dp_v() == text_script_moves(
                old(board).ctx(),
                old(board)@,
                old(board).dp_v(),
                *position,
                windmill_bishop_text(),
            ).1,
            moves_wf_from(moves_v(r@), *position),
            same_position(*old(board), *final(board)),
        decreases 0int, 6int, 2int,
    {
        Self::run_text(
            "piece(windmill-bishop) transition(windmill-rook) { take-move(1, 1) repeat(1) } { take-move(-1, 1) repeat(1) } { take-move(1, -1) repeat(1) } { take-move(-1, -1) repeat(1) };",
            board,
            position,
        )
    }
}

/// The mirrored piece a capture of `name` turns into.
fn mirror_name(name: &str) -> (r: Option<&'static str>)
    ensures
        super::opt_str_v(r) == mirror_of(name@),
{
    if super::text::str_eq(name, "pawn") {
        Some("mirrored-pawn")
    } else if super::text::str_eq(name, "bishop") {
        Some("mirrored-bishop")
    } else if super::text::str_eq(name, "rook") {
        Some("mirrored-rook")
    } else if super::text::str_eq(name, "knight") {
        Some("mirrored-knight")
    } else if super::text::str_eq(name, "queen") {
        Some("mirrored-queen")
    } else {
        None
    }
}

impl<'a> ChessemblyCompiled<'a> {
    /// Steps to the eight neighbours, and captures of pawns, knights,
    /// bishops, rooks and queens two squares away diagonally that turn it into
    /// the mirrored piece.
    pub fn generate_chameleon_moves<const MACHO: bool, const IMPRISONED: bool, const SIZE: usize>(
        &self,
        board: &mut Board<'a, MACHO, IMPRISONED, SIZE>,
        position: &Position,
    ) -> (r: Vec<ChessMove<'a>>)
        requires
            old(board).wf(),
            color_on_v(old(board)@, *position) is Some,
        ensures
            moves_v(r@) == gen_script_v(
                old(board).ctx(),
                old(board)@,
                old(board).dp_v(),
                *position,
                false,
                chameleon_script(),
            ).0 + chameleon_catches(old(board)@, *position, alfil_deltas()),
            final(board).dp_v() == gen_script_v(
                old(board).ctx(),
                old(board)@,
                old(board).dp_v(),
                *position,
                false,
                chameleon_script(),
            ).1,
            moves_wf_from(moves_v(r@), *position),
            same_position(*old(board), *final(board)),
        decreases 0int, 6int, 0int,
    {
        let sc = script_of(
            vec![
                chain1(Behavior::Move((1, 0))),
                chain1(Behavior::Move((-1, 0))),
                chain1(Behavior::Move((0, 1))),
                chain1(Behavior::Move((0, -1))),
                chain1(Behavior::Move((1, 1))),
                chain1(Behavior::Move((1, -1))),
                chain1(Behavior::Move((-1, 1))),
                chain1(Behavior::Move((-1, -1))),
            ],
        );
        assert(sc@ =~= chameleon_script());
        assert(sc.wf());
        let mut moves = Self::run_builtin(&sc, board, position);
        let ghost base = moves_v(moves@);
        let ghost b = board@;
        let catch_list = vec![(2i8, 2i8), (2i8, -2i8), (-2i8, 2i8), (-2i8, -2i8)];
        assert(catch_list@ =~= alfil_deltas());
        let color = board.color_on(position).unwrap();
        let mut i: usize = 0;
        while i < catch_list.len()
            invariant
                i <= catch_list@.len(),
                catch_list@ == alfil_deltas(),
                SIZE == 8,
                b == board@,
                color == color_at(b, *position),
                color_on_v(b, *position) is Some,
                moves_v(moves@) == base + chameleon_catches(b, *position, catch_list@.subrange(0, i as int)),
                moves_wf_from(moves_v(moves@), *position),
            decreases catch_list@.len() - i,
        {
            let d = catch_list[i];
            let ghost m0 = moves_v(moves@);
            assert(catch_list@.subrange(0, i + 1).drop_last() =~= catch_list@.subrange(0, i as int));
            let wc = super::interp::wall_collision(position, &d, color);
            if wc == WallCollision::NoCollision {
                proof {
                    super::interp::lemma_wall_color(*position, d, color);
                }
                let anchor = super::interp::moved_by(position, &d);
                if board.color_on(&anchor) == Some(color.invert()) {
                    let name = board.piece_on(&anchor).unwrap();
                    match mirror_name(name) {
                        Some(t) => {
                            let m = ChessMove::Single(
                                ChessMoveUnit {
                                    from: *position,
                                    take: anchor,
                                    move_to: *position,
                                    move_type: MoveType::Catch,
                                    state_change: None,
                                    transition: Some(t),
                                },
                            );
                            push_move(&mut moves, m);
                            proof {
                                lemma_wf_push(m0, m@, *position);
                            }
                        },
                        None => {},
                    }
                }
            }
            assert(moves_v(moves@) =~= base + chameleon_catches(b, *position, catch_list@.subrange(0, i + 1)));
            i += 1;
        }
        assert(catch_list@.subrange(0, 4) =~= catch_list@);
        moves
    }

    /// The moves of the mirrored pawn, bishop, rook, knight or queen, where a
    /// capture of one of those pieces turns the mover into its mirrored form.
    pub fn generate_mirrored_moves<const MACHO: bool, const IMPRISONED: bool, const SIZE: usize>(
        &self,
        board: &mut Board<'a, MACHO, IMPRISONED, SIZE>,
        position: &Position,
        piece: &str,
    ) -> (r: Vec<ChessMove<'a>>)
        requires
            old(board).wf(),
            color_on_v(old(board)@, *position) is Some,
        ensures
            moves_v(r@) == mirrored_base_v(old(board).ctx(), old(board)@, old(board).dp_v(), *position, piece@).0.map_values(
                |x: MoveV| mirror_move(old(board)@, invert_v(color_at(old(board)@, *position)), x),
            ),
            final(board).dp_v() == mirrored_base_v(
                old(board).ctx(),
                old(board)@,
                old(board).dp_v(),
                *position,
                piece@,
            ).1,
            moves_wf_from(moves_v(r@), *position),
            same_position(*old(board), *final(board)),
        decreases 0int, 6int, 1int,
    {
        let moves = if super::text::str_eq(piece, "mirrored-pawn") {
            self.generate_pseudo_pawn_moves(board, position)
        } else if super::text::str_eq(piece, "mirrored-bishop") {
            self.generate_bishop_moves(board, position)
        } else if super::text::str_eq(piece, "mirrored-rook") {
            self.generate_pseudo_rook_moves(board, position)
        } else if super::text::str_eq(piece, "mirrored-knight") {
            self.generate_knight_moves(board, position)
        } else if super::text::str_eq(piece, "mirrored-queen") {
            self.generate_queen_moves(board, position)
        } else {
            let v: Vec<ChessMove<'a>> = Vec::new();
            assert(moves_v(v@) =~= seq![]);
            v
        };
        let ghost b = board@;
        let enemy_color = board.color_on(position).unwrap().invert();
        let ghost mv = moves_v(moves@);
        let ghost f = |x: MoveV| mirror_move(b, enemy_color, x);
        let mut ret: Vec<ChessMove<'a>> = Vec::new();
        let mut i: usize = 0;
        while i < moves.len()
            invariant
                i <= moves@.len(),
                SIZE == 8,
                b == board@,
                mv == moves_v(moves@),
                moves_wf_from(mv, *position),
                f == (|x: MoveV| mirror_move(b, enemy_color, x)),
                moves_v(ret@) == mv.subrange(0, i as int).map_values(f),
                moves_wf_from(moves_v(ret@), *position),
            decreases moves@.len() - i,
        {
            assert(mv[i as int] == moves@[i as int]@);
            assert(super::move_wf(mv[i as int]));
            let node_raw = moves[i].clone();
            let out = match node_raw {
                ChessMove::Single(node) => {
                    if board.color_on(&node.take) == Some(enemy_color) {
                        let name = board.piece_on(&node.take).unwrap();
                        match mirror_name(name) {
                            Some(t) => ChessMove::Single(
                                ChessMoveUnit { state_change: None, transition: Some(t), ..node },
                            ),
                            None => ChessMove::Single(node),
                        }
                    } else {
                        ChessMove::Single(node)
                    }
                },
                ChessMove::Multiple(v) => ChessMove::Multiple(v),
            };
            assert(out@ == f(mv[i as int]));
            let ghost r0 = moves_v(ret@);
            push_move(&mut ret, out);
            proof {
                lemma_wf_push(r0, out@, *position);
            }
            assert(moves_v(ret@) =~= mv.subrange(0, i + 1).map_values(f));
            i += 1;
        }
        assert(mv.subrange(0, mv.len() as int) =~= mv);
        ret
    }
}

} // verus!
