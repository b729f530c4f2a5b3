//! What the built-in king and pawn generators, moves on the board and the
//! instructions of the interpreter promise, stated over squares and pieces.
use vstd::prelude::*;

use super::semantics::{
    bit_at, cell_v, color_at, color_on_v, king_deltas, king_step_v, king_steps, king_v, pawn_v,
    piece_on_v, push_node_v, side_v, BoardV,
};
use super::{first_unit, invert_v, Color, MoveType, MoveV, Position};

verus! {

/// Every step of the king is an ordinary move (never a castling).
proof fn lemma_king_steps_plain(
    macho: bool,
    b: BoardV,
    pos: Position,
    bits: u64,
    ds: Seq<super::DeltaPosition>,
)
    ensures
        forall|k: int| #![trigger king_steps(macho, b, pos, bits, ds)[k]]
            0 <= k < king_steps(macho, b, pos, bits, ds).len() ==> first_unit(
                king_steps(macho, b, pos, bits, ds)[k],
            ).move_type == MoveType::TakeMove,
    decreases ds.len(),
{
    if ds.len() > 0 {
        lemma_king_steps_plain(macho, b, pos, bits, ds.drop_last());
        let a = king_steps(macho, b, pos, bits, ds.drop_last());
        let c = king_step_v(macho, b, pos, bits, ds.last());
        assert forall|k: int| 0 <= k < (a + c).len() implies first_unit(#[trigger] (a + c)[k]).move_type
            == MoveType::TakeMove by {
            if k < a.len() {
                assert((a + c)[k] == a[k]);
            } else {
                assert((a + c)[k] == c[k - a.len()]);
            }
        }
    }
}

/// A king step: to a neighbouring square on the board, not holding a piece
/// of the king's side, outside the squares it may not step onto (unless in
/// the macho variant), clearing both castling rights.
pub open spec fn king_step_ok(macho: bool, b: BoardV, pos: Position, bits: u64, m: MoveV) -> bool {
    let u = first_unit(m);
    let dx = u.move_to.0 - pos.0;
    let dy = u.move_to.1 - pos.1;
    &&& m is Single
    &&& u.move_type == MoveType::TakeMove
    &&& u.from == pos
    &&& u.take == u.move_to
    &&& super::in_board(u.move_to)
    &&& -1 <= dx <= 1 && -1 <= dy <= 1 && (dx != 0 || dy != 0)
    &&& color_on_v(b, u.move_to) != color_on_v(b, pos)
    &&& (macho || !bit_at(bits, u.move_to))
    &&& u.state_change == Some(super::semantics::king_reset())
    &&& u.transition is None
}

proof fn lemma_king_steps_ok(macho: bool, b: BoardV, pos: Position, bits: u64, ds: Seq<super::DeltaPosition>)
    requires
        forall|i: int| 0 <= i < ds.len() ==> -1 <= (#[trigger] ds[i]).0 <= 1 && -1 <= ds[i].1 <= 1 && (ds[i].0 != 0
            || ds[i].1 != 0),
    ensures
        forall|k: int| 0 <= k < king_steps(macho, b, pos, bits, ds).len() ==> #[trigger] king_step_ok(
            macho,
            b,
            pos,
            bits,
            king_steps(macho, b, pos, bits, ds)[k],
        ),
    decreases ds.len(),
{
    if ds.len() > 0 {
        lemma_king_steps_ok(macho, b, pos, bits, ds.drop_last());
        let a = king_steps(macho, b, pos, bits, ds.drop_last());
        let d = ds.last();
        let c = king_step_v(macho, b, pos, bits, d);
        if c.len() > 0 {
            super::semantics::lemma_no_collision_in_board(pos, d, color_at(b, pos));
            assert(king_step_ok(macho, b, pos, bits, c[0]));
        }
        assert forall|k: int| 0 <= k < (a + c).len() implies #[trigger] king_step_ok(macho, b, pos, bits, (a + c)[k]) by {
            if k < a.len() {
                assert((a + c)[k] == a[k]);
            } else {
                assert((a + c)[k] == c[k - a.len()]);
            }
        }
    }
}

/// Every king move other than castling is a step to a neighbouring square
/// on the board that holds no piece of the king's side and (outside the macho
/// variant) is not among the squares the king may not step onto; it clears
/// both castling rights. The imprisoned variant gives the king no move.
pub proof fn law_king_steps_to_neighbours(macho: bool, impr: bool, b: BoardV, pos: Position, bits: u64, k: int)
    requires
        0 <= k < king_v(macho, impr, b, pos, bits).len(),
        first_unit(king_v(macho, impr, b, pos, bits)[k]).move_type != MoveType::Castling,
    ensures
        !impr,
        king_step_ok(macho, b, pos, bits, king_v(macho, impr, b, pos, bits)[k]),
{
    let r = king_v(macho, impr, b, pos, bits);
    let ds = king_deltas();
    assert forall|i: int| 0 <= i < ds.len() implies -1 <= (#[trigger] ds[i]).0 <= 1 && -1 <= ds[i].1 <= 1 && (ds[i].0
        != 0 || ds[i].1 != 0) by {}
    lemma_king_steps_ok(macho, b, pos, bits, ds);
    let steps = king_steps(macho, b, pos, bits, ds);
    assert(!impr);
    if !macho {
        let st = side_v(b, color_at(b, pos));
        let oo = if st.castling_oo {
            super::semantics::castling_v(b, pos, bits, 7, 6, seq![6u8, 5u8])
        } else {
            seq![]
        };
        let ooo = if st.castling_ooo {
            super::semantics::castling_v(b, pos, bits, 0, 2, seq![1u8, 2u8, 3u8])
        } else {
            seq![]
        };
        assert(r == steps + oo + ooo);
        if k < steps.len() {
            assert(r[k] == steps[k]);
        } else if k < steps.len() + oo.len() {
            assert(r[k] == oo[k - steps.len()]);
        } else {
            assert(r[k] == ooo[k - steps.len() - oo.len()]);
        }
    }
}

/// Castling is only ever generated outside the macho and imprisoned
/// variants, for a king that is not attacked and whose side still has the
/// right, towards a rook of its own side on the same rank: king-side to the
/// g-file with the f- and g-files empty and the rook on the h-file,
/// queen-side to the c-file with the b-, c- and d-files empty and the rook
/// on the a-file.
pub proof fn law_castling_needs_rook_and_empty_path(
    macho: bool,
    impr: bool,
    b: BoardV,
    pos: Position,
    bits: u64,
    k: int,
)
    requires
        0 <= k < king_v(macho, impr, b, pos, bits).len(),
        first_unit(king_v(macho, impr, b, pos, bits)[k]).move_type == MoveType::Castling,
    ensures
        ({
            let u = first_unit(king_v(macho, impr, b, pos, bits)[k]);
            let y = pos.1;
            let c = color_at(b, pos);
            let st = side_v(b, c);
            &&& !macho
            &&& !impr
            &&& !bit_at(bits, pos)
            &&& u.from == pos
            &&& u.move_to.1 == y
            &&& u.take == u.move_to
            &&& (u.move_to.0 == 6 || u.move_to.0 == 2)
            &&& u.move_to.0 == 6 ==> {
                &&& st.castling_oo
                &&& color_on_v(b, (5, y)) is None
                &&& color_on_v(b, (6, y)) is None
                &&& piece_on_v(b, (7, y)) == Some("rook"@)
                &&& color_on_v(b, (7, y)) == Some(c)
            }
            &&& u.move_to.0 == 2 ==> {
                &&& st.castling_ooo
                &&& color_on_v(b, (1, y)) is None
                &&& color_on_v(b, (2, y)) is None
                &&& color_on_v(b, (3, y)) is None
                &&& piece_on_v(b, (0, y)) == Some("rook"@)
                &&& color_on_v(b, (0, y)) == Some(c)
            }
        }),
{
    let r = king_v(macho, impr, b, pos, bits);
    lemma_king_steps_plain(macho, b, pos, bits, king_deltas());
    let steps = king_steps(macho, b, pos, bits, king_deltas());
    let c = color_at(b, pos);
    let st = side_v(b, c);
    let y = pos.1;
    assert(!impr);
    assert(!macho) by {
        if macho {
            assert(r == steps);
        }
    }
    let oo = if st.castling_oo {
        super::semantics::castling_v(b, pos, bits, 7, 6, seq![6u8, 5u8])
    } else {
        seq![]
    };
    let ooo = if st.castling_ooo {
        super::semantics::castling_v(b, pos, bits, 0, 2, seq![1u8, 2u8, 3u8])
    } else {
        seq![]
    };
    assert(r == steps + oo + ooo);
    if k < steps.len() {
        assert(r[k] == steps[k]);
        assert(false);
    } else if k < steps.len() + oo.len() {
        assert(r[k] == oo[k - steps.len()]);
        assert(st.castling_oo);
        let e = seq![6u8, 5u8];
        assert(color_on_v(b, (e[0], y)) is None);
        assert(color_on_v(b, (e[1], y)) is None);
    } else {
        assert(r[k] == ooo[k - steps.len() - oo.len()]);
        assert(st.castling_ooo);
        let e = seq![1u8, 2u8, 3u8];
        assert(color_on_v(b, (e[0], y)) is None);
        assert(color_on_v(b, (e[1], y)) is None);
        assert(color_on_v(b, (e[2], y)) is None);
    }
}

/// The rank `n` steps ahead of `pos` for `c` (white moves towards row 0).
pub open spec fn ahead(c: Color, pos: Position, n: int) -> int {
    if c == Color::White {
        pos.1 - n
    } else {
        pos.1 + n
    }
}

/// A pawn move that follows the rules of pawns: a single unit from the
/// pawn's square; a forward step (`Move`) stays on the file and lands on an
/// empty square one rank ahead, or two ranks ahead from the pawn's starting
/// rank with both squares empty; a capture (`Take`) goes one file aside and
/// one rank ahead and takes a piece of the other side there; an en-passant
/// capture (`TakeJump`) goes one file aside and one rank ahead and takes the
/// pawn beside it, on a square its side may capture en passant. A promotion
/// piece (knight, bishop, rook or queen) is given exactly for steps and
/// captures from the rank before the last, outside the macho variant; only
/// the double step carries a state change, the one that marks the pawn as
/// capturable en passant.
pub open spec fn pawn_move_respects_colors(macho: bool, b: BoardV, pos: Position, m: MoveV) -> bool {
    let u = first_unit(m);
    let c = color_at(b, pos);
    let white = c == Color::White;
    let start: u8 = if white { 6 } else { 1 };
    let promo: u8 = if white { 1 } else { 6 };
    let aside = u.move_to.0 == pos.0 + 1 || u.move_to.0 == pos.0 - 1;
    let promoting = !macho && pos.1 == promo && u.move_type != MoveType::TakeJump;
    &&& m is Single
    &&& u.from == pos
    &&& (u.move_type == MoveType::Move || u.move_type == MoveType::Take || u.move_type == MoveType::TakeJump)
    &&& u.move_type == MoveType::Move ==> {
        &&& u.move_to.0 == pos.0
        &&& u.take == u.move_to
        &&& color_on_v(b, u.move_to) is None
        &&& (u.move_to.1 == ahead(c, pos, 1) || (pos.1 == start && u.move_to.1 == ahead(c, pos, 2)
            && color_on_v(b, (pos.0, ahead(c, pos, 1) as u8)) is None))
    }
    &&& u.move_type == MoveType::Take ==> {
        &&& aside
        &&& u.move_to.1 == ahead(c, pos, 1)
        &&& u.take == u.move_to
        &&& color_on_v(b, u.move_to) == Some(invert_v(c))
    }
    &&& u.move_type == MoveType::TakeJump ==> {
        &&& aside
        &&& u.move_to.1 == ahead(c, pos, 1)
        &&& u.take == (u.move_to.0, pos.1)
        &&& side_v(b, c).enpassant.contains(u.take)
    }
    &&& (promoting && u.move_to.1 == ahead(c, pos, 1)) == (u.transition is Some)
    &&& (u.state_change is Some) == (u.move_type == MoveType::Move && u.move_to.1 == ahead(c, pos, 2))
    &&& (u.state_change matches Some(sc) ==> sc == seq![("enpassant"@, 1u8)])
    &&& (u.transition matches Some(n) ==> n == "knight"@ || n == "bishop"@ || n == "rook"@ || n == "queen"@)
}

pub open spec fn all_pawn_moves_ok(macho: bool, b: BoardV, pos: Position, ms: Seq<MoveV>) -> bool {
    forall|k: int| 0 <= k < ms.len() ==> #[trigger] pawn_move_respects_colors(macho, b, pos, ms[k])
}

proof fn lemma_ok_concat(macho: bool, b: BoardV, pos: Position, x: Seq<MoveV>, y: Seq<MoveV>)
    requires
        all_pawn_moves_ok(macho, b, pos, x),
        all_pawn_moves_ok(macho, b, pos, y),
    ensures
        all_pawn_moves_ok(macho, b, pos, x + y),
{
    assert forall|k: int| 0 <= k < (x + y).len() implies #[trigger] pawn_move_respects_colors(macho, b, pos, (x + y)[k]) by {
        if k < x.len() {
            assert((x + y)[k] == x[k]);
        } else {
            assert((x + y)[k] == y[k - x.len()]);
        }
    }
}

proof fn lemma_ok_push(macho: bool, b: BoardV, pos: Position, x: Seq<MoveV>, m: MoveV)
    requires
        all_pawn_moves_ok(macho, b, pos, x),
        pawn_move_respects_colors(macho, b, pos, m),
    ensures
        all_pawn_moves_ok(macho, b, pos, x.push(m)),
{
    assert forall|k: int| 0 <= k < x.push(m).len() implies #[trigger] pawn_move_respects_colors(macho, b, pos, x.push(m)[k]) by {
        if k < x.len() {
            assert(x.push(m)[k] == x[k]);
        }
    }
}

proof fn lemma_pawn_to_ok(macho: bool, b: BoardV, pos: Position, to: Position, t: MoveType, promo: u8)
    requires
        to.1 == ahead(color_at(b, pos), pos, 1),
        promo == (if color_at(b, pos) == Color::White { 1u8 } else { 6u8 }),
        t == MoveType::Move ==> to.0 == pos.0 && color_on_v(b, to) is None,
        t == MoveType::Take ==> (to.0 == pos.0 + 1 || to.0 == pos.0 - 1) && color_on_v(b, to) == Some(
            invert_v(color_at(b, pos)),
        ),
        t == MoveType::Move || t == MoveType::Take,
    ensures
        all_pawn_moves_ok(macho, b, pos, super::semantics::pawn_to(macho, pos, to, t, promo)),
{
    let r = super::semantics::pawn_to(macho, pos, to, t, promo);
    assert forall|k: int| 0 <= k < r.len() implies #[trigger] pawn_move_respects_colors(macho, b, pos, r[k]) by {
        if pos.1 == promo && !macho {
            assert(r[k] is Single && first_unit(r[k]).from == pos && first_unit(r[k]).move_to == to
                && first_unit(r[k]).take == to && first_unit(r[k]).move_type == t && first_unit(r[k]).transition is Some);
        }
    }
}

/// Every move of a pawn respects the colors on the board: forward steps land
/// on empty squares of its file, captures leave the file and take a piece of
/// the other side, and no pawn move takes a piece of its own side other than
/// by en passant.
pub proof fn law_pawn_moves_respect_colors(macho: bool, b: BoardV, pos: Position)
    ensures
        all_pawn_moves_ok(macho, b, pos, pawn_v(macho, b, pos)),
{
    let color = color_at(b, pos);
    let white = color == Color::White;
    let rank: u8 = if white { 6 } else { 1 };
    let promo: u8 = if white { 1 } else { 6 };
    let wall: u8 = if white { 0 } else { 7 };
    if pos.1 != wall {
        let step1: u8 = if white { (pos.1 - 1) as u8 } else { (pos.1 + 1) as u8 };
        let x = pos.0;
        let r1 = if color_on_v(b, (x, step1)) is None {
            let a = super::semantics::pawn_to(macho, pos, (x, step1), MoveType::Move, promo);
            lemma_pawn_to_ok(macho, b, pos, (x, step1), MoveType::Move, promo);
            let step2: u8 = if white { 4 } else { 3 };
            if pos.1 == rank && color_on_v(b, (x, step2)) is None {
                let m = MoveV::Single(
                    super::semantics::unit_v(
                        pos,
                        (x, step2),
                        (x, step2),
                        MoveType::Move,
                        Some(seq![("enpassant"@, 1u8)]),
                        None,
                    ),
                );
                assert(pawn_move_respects_colors(macho, b, pos, m));
                lemma_ok_push(macho, b, pos, a, m);
                a.push(m)
            } else {
                a
            }
        } else {
            seq![]
        };
        assert(all_pawn_moves_ok(macho, b, pos, r1));
        let ep = side_v(b, color).enpassant;
        let r2 = if pos.1 == (if white { 3u8 } else { 4u8 }) {
            let ra = if x > 0 && ep.contains(((x - 1) as u8, pos.1)) {
                let m = super::semantics::plain(pos, ((x - 1) as u8, pos.1), ((x - 1) as u8, step1), MoveType::TakeJump);
                let prev = if macho { seq![] } else { r1 };
                assert(all_pawn_moves_ok(macho, b, pos, prev));
                assert(pawn_move_respects_colors(macho, b, pos, m));
                lemma_ok_push(macho, b, pos, prev, m);
                super::semantics::en_passant(macho, pos, (x - 1) as u8, step1, r1)
            } else {
                r1
            };
            assert(all_pawn_moves_ok(macho, b, pos, ra));
            if x < 7 && ep.contains(((x + 1) as u8, pos.1)) {
                let m = super::semantics::plain(pos, ((x + 1) as u8, pos.1), ((x + 1) as u8, step1), MoveType::TakeJump);
                let prev = if macho { seq![] } else { ra };
                assert(all_pawn_moves_ok(macho, b, pos, prev));
                assert(pawn_move_respects_colors(macho, b, pos, m));
                lemma_ok_push(macho, b, pos, prev, m);
                super::semantics::en_passant(macho, pos, (x + 1) as u8, step1, ra)
            } else {
                ra
            }
        } else {
            r1
        };
        assert(all_pawn_moves_ok(macho, b, pos, r2));
        let r3 = if x > 0 && color_on_v(b, ((x - 1) as u8, step1)) == Some(invert_v(color)) {
            lemma_pawn_to_ok(macho, b, pos, ((x - 1) as u8, step1), MoveType::Take, promo);
            lemma_ok_concat(macho, b, pos, r2, super::semantics::pawn_to(macho, pos, ((x - 1) as u8, step1), MoveType::Take, promo));
            r2 + super::semantics::pawn_to(macho, pos, ((x - 1) as u8, step1), MoveType::Take, promo)
        } else {
            r2
        };
        assert(all_pawn_moves_ok(macho, b, pos, r3));
        if x < 7 && color_on_v(b, ((x + 1) as u8, step1)) == Some(invert_v(color)) {
            lemma_pawn_to_ok(macho, b, pos, ((x + 1) as u8, step1), MoveType::Take, promo);
            lemma_ok_concat(macho, b, pos, r3, super::semantics::pawn_to(macho, pos, ((x + 1) as u8, step1), MoveType::Take, promo));
        }
    }
}

proof fn lemma_state_changes_keep_cells(b: BoardV, sc: Seq<(Seq<char>, u8)>, t: Position)
    ensures
        super::semantics::apply_state_changes_v(b, sc, t).cells == b.cells,
    decreases sc.len(),
{
    if sc.len() > 0 {
        lemma_state_changes_keep_cells(b, sc.drop_last(), t);
    }
}

/// The squares of an 8x8 board are laid out 8 by 8.
pub open spec fn shaped8(b: BoardV) -> bool {
    &&& b.cells.len() == 8
    &&& forall|y: int| 0 <= y < 8 ==> (#[trigger] b.cells[y]).len() == 8
}

/// Castling moves the king and its rook along the rank: the king's square
/// and its destination swap, and the rook on the a-file (queen-side, the king
/// moving to a lower file) swaps with the d-file, or the rook on the h-file
/// (king-side) swaps with the f-file. The other squares keep what they held.
pub proof fn law_castling_moves_king_and_rook(b: BoardV, u: super::UnitV, p: Position)
    requires
        u.move_type == MoveType::Castling,
        shaped8(b),
        u.move_to.1 < 8,
        u.move_to.0 < 8,
        u.from.0 < 8,
        p.0 < 8,
        p.1 < 8,
    ensures
        ({
            let a = super::semantics::apply_unit_v(b, u);
            let y = u.move_to.1;
            let kf = u.from.0;
            let kt = u.move_to.0;
            &&& u.from.0 > u.move_to.0 && kf != 0 && kf != 3 && kt != 0 && kt != 3 ==> {
                &&& cell_v(a, (kt, y)) == cell_v(b, (kf, y))
                &&& cell_v(a, (kf, y)) == cell_v(b, (kt, y))
                &&& cell_v(a, (3, y)) == cell_v(b, (0, y))
                &&& cell_v(a, (0, y)) == cell_v(b, (3, y))
                &&& (p.1 != y || (p.0 != kf && p.0 != kt && p.0 != 0 && p.0 != 3)) ==> cell_v(a, p) == cell_v(b, p)
            }
            &&& u.from.0 < u.move_to.0 && kf != 5 && kf != 7 && kt != 5 && kt != 7 ==> {
                &&& cell_v(a, (kt, y)) == cell_v(b, (kf, y))
                &&& cell_v(a, (kf, y)) == cell_v(b, (kt, y))
                &&& cell_v(a, (5, y)) == cell_v(b, (7, y))
                &&& cell_v(a, (7, y)) == cell_v(b, (5, y))
                &&& (p.1 != y || (p.0 != kf && p.0 != kt && p.0 != 5 && p.0 != 7)) ==> cell_v(a, p) == cell_v(b, p)
            }
        }),
{
    let b1 = super::semantics::move_cells_v(b, u);
    match u.state_change {
        Some(sc) => lemma_state_changes_keep_cells(b1, sc, u.move_to),
        None => {},
    }
}

/// `observe(d)` only looks: it never moves the anchor, adds no move and
/// leaves every stack as it was; it advances to the next instruction, and its
/// test holds exactly when the square at `d` from the anchor is on the board
/// and empty (otherwise the current test is set to false).
pub proof fn law_observe_keeps_anchor(
    ctx: super::semantics::Ctx,
    b: BoardV,
    chain: Seq<super::behavior::BehaviorV>,
    pos: Position,
    color: Color,
    cd: bool,
    d: super::DeltaPosition,
    s: super::semantics::InterpV,
)
    ensures
        ({
            let t = super::semantics::exec_inst_v(
                ctx,
                b,
                chain,
                pos,
                color,
                cd,
                super::behavior::BehaviorV::Observe(d),
                s,
            );
            let a = super::semantics::anchor(s);
            let free = super::semantics::wall_v(a, d, color) == super::semantics::WallCollision::NoCollision && color_on_v(
                b,
                super::semantics::moved(a, d),
            ) is None;
            &&& t.stack == s.stack
            &&& super::semantics::anchor(t) == a
            &&& t.anchors == s.anchors
            &&& t.take_stack == s.take_stack
            &&& t.nodes == s.nodes
            &&& t.dp == s.dp
            &&& t.transition == s.transition
            &&& t.state_change == s.state_change
            &&& t.halted == s.halted
            &&& t.rip == s.rip + 1
            &&& t.states == (if free {
                s.states
            } else {
                s.states.update(s.states.len() - 1, false)
            })
        }),
{
}

/// The piece that arrives on the destination of a unit from `from`: the
/// promotion piece `tr` names, of the side that stood on `from` (white when
/// `from` was empty), or else whatever stood on `from`.
pub open spec fn arriving_piece(b: BoardV, from: Position, tr: Option<Seq<char>>) -> super::CellV {
    match tr {
        Some(n) => super::CellV::Piece(
            super::PieceV {
                piece_type: n,
                color: match cell_v(b, from) {
                    super::CellV::Piece(pc) => pc.color,
                    super::CellV::Empty => Color::White,
                },
            },
        ),
        None => cell_v(b, from),
    }
}

/// An ordinary unit (neither castling nor shift) moves the piece from its
/// square to its destination, promoted when the unit names a piece; it
/// empties the source and the captured square, and leaves every other square
/// as it was.
pub proof fn law_unit_moves_piece(b: BoardV, u: super::UnitV, p: Position)
    requires
        u.move_type != MoveType::Castling,
        u.move_type != MoveType::Shift,
        shaped8(b),
        super::in_board(u.from),
        super::in_board(u.take),
        super::in_board(u.move_to),
        super::in_board(p),
        u.from != u.move_to,
        u.take != u.from,
    ensures
        ({
            let a = super::semantics::apply_unit_v(b, u);
            &&& cell_v(a, u.move_to) == arriving_piece(b, u.from, u.transition)
            &&& cell_v(a, u.from) is Empty
            &&& u.take != u.move_to ==> cell_v(a, u.take) is Empty
            &&& p != u.from && p != u.take && p != u.move_to ==> cell_v(a, p) == cell_v(b, p)
        }),
{
    let b1 = super::semantics::move_cells_v(b, u);
    match u.state_change {
        Some(sc) => lemma_state_changes_keep_cells(b1, sc, u.move_to),
        None => {},
    }
}

/// A shift swaps the piece on its square (promoted when the unit names a
/// piece) with whatever stands on its destination; every other square keeps
/// what it held.
pub proof fn law_shift_swaps(b: BoardV, u: super::UnitV, p: Position)
    requires
        u.move_type == MoveType::Shift,
        shaped8(b),
        super::in_board(u.from),
        super::in_board(u.move_to),
        super::in_board(p),
        u.from != u.move_to,
    ensures
        ({
            let a = super::semantics::apply_unit_v(b, u);
            &&& cell_v(a, u.move_to) == arriving_piece(b, u.from, u.transition)
            &&& cell_v(a, u.from) == cell_v(b, u.move_to)
            &&& p != u.from && p != u.move_to ==> cell_v(a, p) == cell_v(b, p)
        }),
{
    let b1 = super::semantics::move_cells_v(b, u);
    match u.state_change {
        Some(sc) => lemma_state_changes_keep_cells(b1, sc, u.move_to),
        None => {},
    }
}

/// The state changes a move carries act on the side to move: `castling-oo`
/// and `castling-ooo` set its castling rights (kept when the value is above
/// 0), `en-passant` offers the destination to the other side for an
/// en-passant capture; other keys change nothing. The squares, the side to
/// move and the status are never touched.
pub proof fn law_state_change_effects(b: BoardV, key: Seq<char>, n: u8, t: Position)
    ensures
        ({
            let a = super::semantics::apply_state_change_v(b, key, n, t);
            let me = b.turn;
            let other = invert_v(b.turn);
            &&& a.cells == b.cells && a.turn == b.turn && a.status == b.status
            &&& key == "castling-oo"@ ==> side_v(a, me) == (super::semantics::SideV { castling_oo: n > 0, ..side_v(b, me) })
                && side_v(a, other) == side_v(b, other)
            &&& key == "castling-ooo"@ ==> side_v(a, me) == (super::semantics::SideV { castling_ooo: n > 0, ..side_v(b, me) })
                && side_v(a, other) == side_v(b, other)
            &&& key == "en-passant"@ ==> side_v(a, other) == (super::semantics::SideV {
                enpassant: side_v(b, other).enpassant.push(t),
                ..side_v(b, other)
            }) && side_v(a, me) == side_v(b, me)
            &&& key != "castling-oo"@ && key != "castling-ooo"@ && key != "en-passant"@ ==> a == b
        }),
{
    reveal_strlit("castling-oo");
    reveal_strlit("castling-ooo");
    reveal_strlit("en-passant");
    assert("castling-oo"@.len() != "castling-ooo"@.len());
    assert("castling-oo"@.len() != "en-passant"@.len());
    assert("castling-ooo"@.len() != "en-passant"@.len());
}

/// The state after running `inst` at `s` (a shorthand for the laws below).
pub open spec fn after_inst(
    ctx: super::semantics::Ctx,
    b: BoardV,
    chain: Seq<super::behavior::BehaviorV>,
    pos: Position,
    color: Color,
    cd: bool,
    inst: super::behavior::BehaviorV,
    s: super::semantics::InterpV,
) -> super::semantics::InterpV {
    super::semantics::exec_inst_v(ctx, b, chain, pos, color, cd, inst, s)
}

/// Whether the square `d` away from the anchor is on the board.
pub open spec fn step_on_board(s: super::semantics::InterpV, d: super::DeltaPosition, color: Color) -> bool {
    super::semantics::wall_v(super::semantics::anchor(s), d, color) == super::semantics::WallCollision::NoCollision
}

/// The square `d` away from the anchor.
pub open spec fn step_square(s: super::semantics::InterpV, d: super::DeltaPosition) -> Position {
    super::semantics::moved(super::semantics::anchor(s), d)
}

/// The tests look at the square `d` away from the anchor without moving:
/// `enemy(d)` holds exactly when it is on the board and holds a piece of the
/// other side, `friendly(d)` when it holds a piece of the mover's side, and
/// `piece-on(name, d)` when it holds a piece named `name`; none of them moves
/// the anchor or adds a move.
pub proof fn law_square_tests(
    ctx: super::semantics::Ctx,
    b: BoardV,
    chain: Seq<super::behavior::BehaviorV>,
    pos: Position,
    color: Color,
    cd: bool,
    d: super::DeltaPosition,
    name: Seq<char>,
    s: super::semantics::InterpV,
)
    ensures
        ({
            let last = s.states.len() - 1;
            let on = step_on_board(s, d, color);
            let q = step_square(s, d);
            let e = after_inst(ctx, b, chain, pos, color, cd, super::behavior::BehaviorV::Enemy(d), s);
            let f = after_inst(ctx, b, chain, pos, color, cd, super::behavior::BehaviorV::Friendly(d), s);
            let n = after_inst(ctx, b, chain, pos, color, cd, super::behavior::BehaviorV::PieceOn((name, d)), s);
            &&& e.states == s.states.update(last, on && color_on_v(b, q) == Some(invert_v(color)))
            &&& f.states == s.states.update(last, on && color_on_v(b, q) == Some(color))
            &&& n.states == s.states.update(last, on && piece_on_v(b, q) == Some(name))
            &&& e.stack == s.stack && f.stack == s.stack && n.stack == s.stack
            &&& e.nodes == s.nodes && f.nodes == s.nodes && n.nodes == s.nodes
            &&& e.rip == s.rip + 1 && f.rip == s.rip + 1 && n.rip == s.rip + 1
        }),
{
}

/// `peek(d)` moves the anchor onto the square `d` away when that square is
/// on the board and empty, and otherwise fails where it stands; `anchor(d)`
/// moves the anchor whenever the square is on the board. Neither adds a move.
pub proof fn law_peek_and_anchor_move(
    ctx: super::semantics::Ctx,
    b: BoardV,
    chain: Seq<super::behavior::BehaviorV>,
    pos: Position,
    color: Color,
    cd: bool,
    d: super::DeltaPosition,
    s: super::semantics::InterpV,
)
    requires
        s.stack.len() > 0,
    ensures
        ({
            let last = s.states.len() - 1;
            let on = step_on_board(s, d, color);
            let q = step_square(s, d);
            let pk = after_inst(ctx, b, chain, pos, color, cd, super::behavior::BehaviorV::Peek(d), s);
            let an = after_inst(ctx, b, chain, pos, color, cd, super::behavior::BehaviorV::Anchor(d), s);
            &&& pk.nodes == s.nodes && an.nodes == s.nodes
            &&& pk.rip == s.rip + 1 && an.rip == s.rip + 1
            &&& pk.stack.len() == s.stack.len() && an.stack.len() == s.stack.len()
            &&& if on && color_on_v(b, q) is None {
                &&& super::semantics::anchor(pk) == q
                &&& pk.states == s.states
            } else {
                &&& pk.stack == s.stack
                &&& pk.states == s.states.update(last, false)
            }
            &&& if on {
                &&& super::semantics::anchor(an) == q
                &&& an.states == s.states
            } else {
                &&& an.stack == s.stack
                &&& an.states == s.states.update(last, false)
            }
        }),
{
}

/// The unit a displacing instruction adds: from the piece's square, taking
/// on `q` and landing on `to`, with the chain's pending state changes and
/// promotion.
pub open spec fn chain_move(s: super::semantics::InterpV, pos: Position, q: Position, to: Position, t: MoveType) -> super::UnitV {
    super::UnitV {
        from: pos,
        take: q,
        move_to: to,
        move_type: t,
        state_change: s.state_change,
        transition: s.transition,
    }
}

/// The displacing instructions never move onto, or capture, a piece of the
/// mover's side: `take-move(d)` adds a move to the square `d` away when it is
/// on the board and not friendly (and goes on only when it was empty); `move(d)`
/// adds one only onto an empty square; `take(d)` and `catch(d)` add one only
/// onto a piece of the other side (`catch` capturing without moving). A
/// friendly or off-board square stops the chain without a move.
pub proof fn law_displacements_respect_colors(
    ctx: super::semantics::Ctx,
    b: BoardV,
    chain: Seq<super::behavior::BehaviorV>,
    pos: Position,
    color: Color,
    cd: bool,
    d: super::DeltaPosition,
    s: super::semantics::InterpV,
)
    ensures
        ({
            let last = s.states.len() - 1;
            let on = step_on_board(s, d, color);
            let q = step_square(s, d);
            let mine = color_on_v(b, q) == Some(color);
            let theirs = color_on_v(b, q) == Some(invert_v(color));
            let empty = color_on_v(b, q) is None;
            let tm = after_inst(ctx, b, chain, pos, color, cd, super::behavior::BehaviorV::TakeMove(d), s);
            let mv = after_inst(ctx, b, chain, pos, color, cd, super::behavior::BehaviorV::Move(d), s);
            let tk = after_inst(ctx, b, chain, pos, color, cd, super::behavior::BehaviorV::Take(d), s);
            let ct = after_inst(ctx, b, chain, pos, color, cd, super::behavior::BehaviorV::Catch(d), s);
            &&& tm.nodes == (if on && !mine {
                push_node_v(s.nodes, chain_move(s, pos, q, q, MoveType::TakeMove))
            } else {
                s.nodes
            })
            &&& tm.states == (if on && empty { s.states } else { s.states.update(last, false) })
            &&& mv.nodes == (if on && empty {
                push_node_v(s.nodes, chain_move(s, pos, q, q, MoveType::Move))
            } else {
                s.nodes
            })
            &&& mv.states == (if on && empty { s.states } else { s.states.update(last, false) })
            &&& tk.nodes == (if on && theirs {
                push_node_v(s.nodes, chain_move(s, pos, q, q, MoveType::Take))
            } else {
                s.nodes
            })
            &&& tk.states == (if on && !mine { s.states } else { s.states.update(last, false) })
            &&& ct.nodes == (if on && theirs {
                push_node_v(s.nodes, chain_move(s, pos, q, pos, MoveType::Catch))
            } else {
                s.nodes
            })
            &&& ct.states == (if on && !mine { s.states } else { s.states.update(last, false) })
            &&& tm.rip == s.rip + 1 && mv.rip == s.rip + 1 && tk.rip == s.rip + 1 && ct.rip == s.rip + 1
        }),
{
}

/// The flag registers remember what is written: `write(i)` stores the
/// current test in flag `i` and makes the test true; `read(i)` then gives it
/// back as the test. Registers past 15 make both fail.
pub proof fn law_write_then_read(
    ctx: super::semantics::Ctx,
    b: BoardV,
    chain: Seq<super::behavior::BehaviorV>,
    pos: Position,
    color: Color,
    cd: bool,
    i: u8,
    s: super::semantics::InterpV,
)
    requires
        i < 16,
        s.states.len() > 0,
    ensures
        ({
            let w = after_inst(ctx, b, chain, pos, color, cd, super::behavior::BehaviorV::Write(i), s);
            let r = after_inst(ctx, b, chain, pos, color, cd, super::behavior::BehaviorV::Read(i), w);
            &&& super::semantics::top(w)
            &&& super::semantics::top(r) == super::semantics::top(s)
            &&& r.stack == s.stack && r.nodes == s.nodes
            &&& r.rip == s.rip + 2
        }),
{
    let va = s.value_array;
    if super::semantics::top(s) {
        assert((va | (1u16 << i)) & (1u16 << i) != 0) by (bit_vector)
            requires
                i < 16,
        ;
    } else {
        assert((va & !(1u16 << i)) & (1u16 << i) == 0) by (bit_vector)
            requires
                i < 16,
        ;
    }
}

/// The anchor registers remember squares: `write-anchor(i)` stores the
/// anchor, and after moving the anchor anywhere with `absolute(p)`,
/// `read-anchor(i)` brings it back.
pub proof fn law_anchor_register_round_trip(
    ctx: super::semantics::Ctx,
    b: BoardV,
    chain: Seq<super::behavior::BehaviorV>,
    pos: Position,
    color: Color,
    cd: bool,
    i: u8,
    p: Position,
    s: super::semantics::InterpV,
)
    requires
        i < 16,
        s.stack.len() > 0,
        s.anchors.len() == 16,
        super::in_board(p),
    ensures
        ({
            let w = after_inst(ctx, b, chain, pos, color, cd, super::behavior::BehaviorV::WriteAnchor(i), s);
            let m = after_inst(ctx, b, chain, pos, color, cd, super::behavior::BehaviorV::Absoulte(p), w);
            let r = after_inst(ctx, b, chain, pos, color, cd, super::behavior::BehaviorV::ReadAnchor(i), m);
            &&& super::semantics::anchor(m) == p
            &&& super::semantics::anchor(r) == super::semantics::anchor(s)
            &&& r.stack == s.stack
            &&& r.states == s.states
            &&& r.nodes == s.nodes
        }),
{
    let w = after_inst(ctx, b, chain, pos, color, cd, super::behavior::BehaviorV::WriteAnchor(i), s);
    let m = after_inst(ctx, b, chain, pos, color, cd, super::behavior::BehaviorV::Absoulte(p), w);
    let r = after_inst(ctx, b, chain, pos, color, cd, super::behavior::BehaviorV::ReadAnchor(i), m);
    assert(r.stack =~= s.stack);
}

/// A block starts at the anchor it was entered with and with a true test;
/// closing it gives back the anchor and tests of the enclosing block.
pub proof fn law_block_restores_anchor(
    ctx: super::semantics::Ctx,
    b: BoardV,
    chain: Seq<super::behavior::BehaviorV>,
    pos: Position,
    color: Color,
    cd: bool,
    s: super::semantics::InterpV,
)
    requires
        s.stack.len() > 0,
        s.states.len() > 0,
    ensures
        ({
            let o = after_inst(ctx, b, chain, pos, color, cd, super::behavior::BehaviorV::BlockOpen, s);
            let c = after_inst(ctx, b, chain, pos, color, cd, super::behavior::BehaviorV::BlockClose, o);
            &&& super::semantics::anchor(o) == super::semantics::anchor(s)
            &&& super::semantics::top(o)
            &&& c.stack == s.stack
            &&& c.states == s.states
            &&& c.nodes == s.nodes
        }),
{
    let o = after_inst(ctx, b, chain, pos, color, cd, super::behavior::BehaviorV::BlockOpen, s);
    assert(o.stack.drop_last() =~= s.stack);
    assert(o.states.drop_last() =~= s.states);
}

/// `repeat(n)` goes back `n` instructions when there are that many before
/// it, and otherwise ends the chain; it changes nothing else.
pub proof fn law_repeat_goes_back(
    ctx: super::semantics::Ctx,
    b: BoardV,
    chain: Seq<super::behavior::BehaviorV>,
    pos: Position,
    color: Color,
    cd: bool,
    n: i8,
    s: super::semantics::InterpV,
)
    ensures
        ({
            let r = after_inst(ctx, b, chain, pos, color, cd, super::behavior::BehaviorV::Repeat(n), s);
            &&& 0 < n <= s.rip ==> r == (super::semantics::InterpV { rip: s.rip - n, ..s })
            &&& !(0 < n <= s.rip) ==> r == (super::semantics::InterpV { halted: true, ..s })
        }),
{
}

/// `jump(d)` turns the chain's last capture into a capture-and-land: the
/// capture on square `c` is dropped and a move is added that takes on `c`
/// and lands on the square `d` away from the anchor, which must be on the
/// board and empty; a zero displacement, an occupied or off-board landing
/// square, or no capture to jump from adds no landing move.
pub proof fn law_jump_lands_on_empty_square(
    ctx: super::semantics::Ctx,
    b: BoardV,
    chain: Seq<super::behavior::BehaviorV>,
    pos: Position,
    color: Color,
    cd: bool,
    d: super::DeltaPosition,
    s: super::semantics::InterpV,
)
    ensures
        ({
            let r = after_inst(ctx, b, chain, pos, color, cd, super::behavior::BehaviorV::Jump(d), s);
            let last = s.states.len() - 1;
            let q = step_square(s, d);
            if s.take_stack.len() > 0 && s.take_stack.last() is Some {
                let c = s.take_stack.last()->0;
                let kept = super::semantics::remove_take_trace(s.nodes, c);
                let lands = (d.0 != 0 || d.1 != 0) && step_on_board(s, d, color) && color_on_v(b, q) is None;
                &&& r.nodes == (if lands {
                    push_node_v(kept, chain_move(s, pos, c, q, MoveType::TakeJump))
                } else {
                    kept
                })
                &&& r.states == (if lands { s.states } else { s.states.update(last, false) })
            } else {
                &&& r.nodes == s.nodes
                &&& r.states == s.states.update(last, false)
            }
        }),
{
}

/// The displacement `k` times `d` (as the generators compute it).
pub open spec fn times(k: int, d: super::DeltaPosition) -> super::DeltaPosition {
    ((k * d.0) as i8, (k * d.1) as i8)
}

/// Whether the `k`-th square along `d` from `pos` is on the board.
pub open spec fn along_on_board(b: BoardV, pos: Position, d: super::DeltaPosition, k: int) -> bool {
    super::semantics::wall_v(pos, times(k, d), color_at(b, pos)) == super::semantics::WallCollision::NoCollision
}

/// The `k`-th square along `d` from `pos`.
pub open spec fn along(pos: Position, d: super::DeltaPosition, k: int) -> Position {
    super::semantics::moved(pos, times(k, d))
}

/// Whether the squares before the `k`-th along `d` are on the board and empty.
pub open spec fn path_clear(b: BoardV, pos: Position, d: super::DeltaPosition, k: int) -> bool {
    forall|j: int| 1 <= j < k ==> #[trigger] along_on_board(b, pos, d, j) && color_on_v(b, along(pos, d, j)) is None
}

/// A sliding move: along `d`, to the `k`-th square for some `k` from 1 to 8,
/// which is on the board and holds no piece of the mover's side, every square
/// passed on the way being empty.
pub open spec fn slide_move_ok(b: BoardV, pos: Position, d: super::DeltaPosition, m: MoveV) -> bool {
    exists|k: int|
        1 <= k <= 8 && #[trigger] along_on_board(b, pos, d, k) && path_clear(b, pos, d, k) && color_on_v(
            b,
            along(pos, d, k),
        ) != Some(color_at(b, pos)) && m == super::semantics::plain(
            pos,
            along(pos, d, k),
            along(pos, d, k),
            MoveType::TakeMove,
        )
}

proof fn lemma_slide_from(b: BoardV, pos: Position, d: super::DeltaPosition, n: int)
    requires
        1 <= n,
        path_clear(b, pos, d, n),
    ensures
        forall|i: int| 0 <= i < super::semantics::slide_v(b, pos, d, n).len() ==> #[trigger] slide_move_ok(
            b,
            pos,
            d,
            super::semantics::slide_v(b, pos, d, n)[i],
        ),
    decreases 9 - n,
{
    if n <= 8 {
        let (m, go) = super::semantics::leap_v(b, pos, times(n, d));
        let r = super::semantics::slide_v(b, pos, d, n);
        assert forall|i: int| 0 <= i < m.len() implies #[trigger] slide_move_ok(b, pos, d, m[i]) by {
            assert(along_on_board(b, pos, d, n));
        }
        if go {
            assert(path_clear(b, pos, d, n + 1)) by {
                assert forall|j: int| 1 <= j < n + 1 implies #[trigger] along_on_board(b, pos, d, j) && color_on_v(
                    b,
                    along(pos, d, j),
                ) is None by {
                    if j < n {
                        assert(along_on_board(b, pos, d, j));
                    }
                }
            }
            lemma_slide_from(b, pos, d, n + 1);
            let rest = super::semantics::slide_v(b, pos, d, n + 1);
            assert(r == m + rest);
            assert forall|i: int| 0 <= i < r.len() implies #[trigger] slide_move_ok(b, pos, d, r[i]) by {
                if i < m.len() {
                    assert(r[i] == m[i]);
                } else {
                    assert(r[i] == rest[i - m.len()]);
                }
            }
        }
    }
}

/// Every move of a slide along `d` (a rook's, bishop's or queen's line) stops
/// on the board, on a square without a piece of the mover's side, after
/// passing only empty squares: sliders neither jump over pieces nor capture
/// their own.
pub proof fn law_slides_stop_at_pieces(b: BoardV, pos: Position, d: super::DeltaPosition, i: int)
    requires
        0 <= i < super::semantics::slide_v(b, pos, d, 1).len(),
    ensures
        slide_move_ok(b, pos, d, super::semantics::slide_v(b, pos, d, 1)[i]),
{
    lemma_slide_from(b, pos, d, 1);
}

/// Whether `m` is a sliding move along one of the directions `ds`.
pub open spec fn slides_along_one_of(b: BoardV, pos: Position, ds: Seq<super::DeltaPosition>, m: MoveV) -> bool {
    exists|j: int| 0 <= j < ds.len() && #[trigger] slide_move_ok(b, pos, ds[j], m)
}

/// Every move of a rook, bishop or queen (slides along several directions)
/// is a slide along one of them that passes only empty squares and stops on
/// a square without a piece of its own side.
pub proof fn law_slider_moves(b: BoardV, pos: Position, ds: Seq<super::DeltaPosition>)
    ensures
        forall|i: int| 0 <= i < super::semantics::slides(b, pos, ds).len() ==> #[trigger] slides_along_one_of(
            b,
            pos,
            ds,
            super::semantics::slides(b, pos, ds)[i],
        ),
    decreases ds.len(),
{
    if ds.len() > 0 {
        let init = ds.drop_last();
        law_slider_moves(b, pos, init);
        let a = super::semantics::slides(b, pos, init);
        let c = super::semantics::slide_v(b, pos, ds.last(), 1);
        lemma_slide_from(b, pos, ds.last(), 1);
        assert forall|i: int| 0 <= i < (a + c).len() implies #[trigger] slides_along_one_of(b, pos, ds, (a + c)[i]) by {
            if i < a.len() {
                assert((a + c)[i] == a[i]);
                assert(slides_along_one_of(b, pos, init, a[i]));
                let j = choose|j: int| 0 <= j < init.len() && #[trigger] slide_move_ok(b, pos, init[j], a[i]);
                assert(ds[j] == init[j]);
            } else {
                assert((a + c)[i] == c[i - a.len()]);
                assert(slide_move_ok(b, pos, ds[ds.len() - 1], c[i - a.len()]));
            }
        }
    }
}

/// A leaping move (a knight's, for instance): by one of the displacements
/// `ds`, onto a square on the board without a piece of the mover's side,
/// whatever stands in between.
pub open spec fn leap_move_ok(b: BoardV, pos: Position, ds: Seq<super::DeltaPosition>, m: MoveV) -> bool {
    exists|j: int|
        0 <= j < ds.len() && #[trigger] along_on_board(b, pos, ds[j], 1) && color_on_v(b, along(pos, ds[j], 1)) != Some(
            color_at(b, pos),
        ) && m == super::semantics::plain(pos, along(pos, ds[j], 1), along(pos, ds[j], 1), MoveType::TakeMove)
}

/// Every move of a leaper lands, by one of its displacements, on a square on
/// the board that holds no piece of its own side.
pub proof fn law_leaper_moves(b: BoardV, pos: Position, ds: Seq<super::DeltaPosition>)
    ensures
        forall|i: int| 0 <= i < super::semantics::leaps(b, pos, ds).len() ==> #[trigger] leap_move_ok(
            b,
            pos,
            ds,
            super::semantics::leaps(b, pos, ds)[i],
        ),
    decreases ds.len(),
{
    if ds.len() > 0 {
        let init = ds.drop_last();
        law_leaper_moves(b, pos, init);
        let a = super::semantics::leaps(b, pos, init);
        let d = ds.last();
        let c = super::semantics::leap_moves(b, pos, d);
        assert(times(1, d) == d);
        assert forall|i: int| 0 <= i < (a + c).len() implies #[trigger] leap_move_ok(b, pos, ds, (a + c)[i]) by {
            if i < a.len() {
                assert((a + c)[i] == a[i]);
                assert(leap_move_ok(b, pos, init, a[i]));
                let j = choose|j: int|
                    0 <= j < init.len() && #[trigger] along_on_board(b, pos, init[j], 1) && color_on_v(
                        b,
                        along(pos, init[j], 1),
                    ) != Some(color_at(b, pos)) && a[i] == super::semantics::plain(
                        pos,
                        along(pos, init[j], 1),
                        along(pos, init[j], 1),
                        MoveType::TakeMove,
                    );
                assert(ds[j] == init[j]);
            } else {
                assert((a + c)[i] == c[i - a.len()]);
                assert(along_on_board(b, pos, ds[ds.len() - 1], 1));
            }
        }
    }
}

/// `shift(d)` moves the anchor to the square `d` away when it is on the
/// board and, when a piece (of either side) stands there, adds a move that
/// swaps places with it; off the board it fails where it stands.
pub proof fn law_shift_swaps_with_any_piece(
    ctx: super::semantics::Ctx,
    b: BoardV,
    chain: Seq<super::behavior::BehaviorV>,
    pos: Position,
    color: Color,
    cd: bool,
    d: super::DeltaPosition,
    s: super::semantics::InterpV,
)
    requires
        s.stack.len() > 0,
    ensures
        ({
            let r = after_inst(ctx, b, chain, pos, color, cd, super::behavior::BehaviorV::Shift(d), s);
            let q = step_square(s, d);
            let last = s.states.len() - 1;
            &&& r.rip == s.rip + 1
            &&& if step_on_board(s, d, color) {
                &&& super::semantics::anchor(r) == q
                &&& r.states == s.states
                &&& r.nodes == (if color_on_v(b, q) is Some {
                    push_node_v(s.nodes, chain_move(s, pos, pos, q, MoveType::Shift))
                } else {
                    s.nodes
                })
            } else {
                &&& r.stack == s.stack
                &&& r.nodes == s.nodes
                &&& r.states == s.states.update(last, false)
            }
        }),
{
}

} // verus!
