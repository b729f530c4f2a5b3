//! Properties that hold across the operations of the library.
use vstd::prelude::*;

use super::behavior::{reflect_v, BehaviorV};
use super::semantics::{
    all_moves_v, apply_move_v, apply_state_change_v, apply_state_changes_v, apply_unit_v,
    apply_units_v, at_key, at_square, dp_insert, dp_lookup, first_where, has_any_v,
    lemma_first_where, lemma_first_where_at, make_move_v, moves_at_v, next_turn_v, push_node_v,
    reg_get, reg_set, same_target, same_target_index, swap_remove_v, BoardV, Ctx, DpV, ScriptV,
};
use super::{invert_v, move_dest, move_source, move_take, Color, MoveV, Position, UnitV};

verus! {

/// Inverting a color twice gives it back.
pub proof fn law_invert_involution(c: Color)
    ensures
        invert_v(invert_v(c)) == c,
{
}

/// The move cache behaves as a map: after caching `m` for `p`, looking `p`
/// up gives `m`, and looking up any other square gives what it gave before.
pub proof fn law_cache_lookup_after_insert(dp: DpV, p: Position, m: Seq<MoveV>, q: Position)
    ensures
        dp_lookup(dp_insert(dp, p, m), q) == (if q == p { Some(m) } else { dp_lookup(dp, q) }),
{
    let d2 = dp_insert(dp, p, m);
    lemma_first_where(dp, at_square(p));
    lemma_first_where(dp, at_square(q));
    lemma_first_where(d2, at_square(q));
    match first_where(dp, at_square(p)) {
        Some(i) => {
            assert(d2 == dp.update(i, (p, m)));
            if q == p {
                assert(at_square(q)(d2[i]));
                assert forall|j: int| 0 <= j < i implies !at_square(q)(#[trigger] d2[j]) by {
                    assert(d2[j] == dp[j]);
                }
                lemma_first_where_at(d2, at_square(q), i);
            } else {
                match first_where(dp, at_square(q)) {
                    Some(k) => {
                        assert(k != i);
                        assert(d2[k] == dp[k]);
                        assert forall|j: int| 0 <= j < k implies !at_square(q)(#[trigger] d2[j]) by {
                            if j != i {
                                assert(d2[j] == dp[j]);
                            }
                        }
                        lemma_first_where_at(d2, at_square(q), k);
                    },
                    None => {
                        assert forall|j: int| 0 <= j < d2.len() implies !at_square(q)(#[trigger] d2[j]) by {
                            if j != i {
                                assert(d2[j] == dp[j]);
                            }
                        }
                    },
                }
            }
        },
        None => {
            assert(d2 == dp.push((p, m)));
            if q == p {
                assert forall|j: int| 0 <= j < dp.len() implies !at_square(q)(#[trigger] d2[j]) by {
                    assert(d2[j] == dp[j]);
                }
                lemma_first_where_at(d2, at_square(q), dp.len() as int);
            } else {
                match first_where(dp, at_square(q)) {
                    Some(k) => {
                        assert(d2[k] == dp[k]);
                        assert forall|j: int| 0 <= j < k implies !at_square(q)(#[trigger] d2[j]) by {
                            assert(d2[j] == dp[j]);
                        }
                        lemma_first_where_at(d2, at_square(q), k);
                    },
                    None => {
                        assert forall|j: int| 0 <= j < d2.len() implies !at_square(q)(#[trigger] d2[j]) by {
                            if j < dp.len() {
                                assert(d2[j] == dp[j]);
                            }
                        }
                    },
                }
            }
        },
    }
}

/// Script registers behave as a map: after setting `key` to `v`, reading
/// `key` gives `v`, and reading another key gives what it gave before.
pub proof fn law_register_read_after_write(reg: Seq<(Seq<char>, u8)>, key: Seq<char>, v: u8, k2: Seq<char>)
    ensures
        reg_get(reg_set(reg, key, v), k2) == (if k2 == key { v } else { reg_get(reg, k2) }),
{
    let r2 = reg_set(reg, key, v);
    lemma_first_where(reg, at_key(key));
    lemma_first_where(reg, at_key(k2));
    lemma_first_where(r2, at_key(k2));
    match first_where(reg, at_key(key)) {
        Some(i) => {
            assert(r2 == reg.update(i, (key, v)));
            if k2 == key {
                assert forall|j: int| 0 <= j < i implies !at_key(k2)(#[trigger] r2[j]) by {
                    assert(r2[j] == reg[j]);
                }
                lemma_first_where_at(r2, at_key(k2), i);
            } else {
                match first_where(reg, at_key(k2)) {
                    Some(k) => {
                        assert(r2[k] == reg[k]);
                        assert forall|j: int| 0 <= j < k implies !at_key(k2)(#[trigger] r2[j]) by {
                            if j != i {
                                assert(r2[j] == reg[j]);
                            }
                        }
                        lemma_first_where_at(r2, at_key(k2), k);
                    },
                    None => {
                        assert forall|j: int| 0 <= j < r2.len() implies !at_key(k2)(#[trigger] r2[j]) by {
                            if j != i {
                                assert(r2[j] == reg[j]);
                            }
                        }
                    },
                }
            }
        },
        None => {
            assert(r2 == reg.push((key, v)));
            if k2 == key {
                assert forall|j: int| 0 <= j < reg.len() implies !at_key(k2)(#[trigger] r2[j]) by {
                    assert(r2[j] == reg[j]);
                }
                lemma_first_where_at(r2, at_key(k2), reg.len() as int);
            } else {
                match first_where(reg, at_key(k2)) {
                    Some(k) => {
                        assert(r2[k] == reg[k]);
                        assert forall|j: int| 0 <= j < k implies !at_key(k2)(#[trigger] r2[j]) by {
                            assert(r2[j] == reg[j]);
                        }
                        lemma_first_where_at(r2, at_key(k2), k);
                    },
                    None => {
                        assert forall|j: int| 0 <= j < r2.len() implies !at_key(k2)(#[trigger] r2[j]) by {
                            if j < reg.len() {
                                assert(r2[j] == reg[j]);
                            }
                        }
                    },
                }
            }
        },
    }
}

/// The moves of an occupied square are cached: afterwards the cache holds
/// exactly the moves returned, so asking again (in any mode, with any
/// script) gives the same moves.
pub proof fn law_moves_are_cached(ctx: Ctx, b: BoardV, dp: DpV, pos: Position, cd: bool, sc: ScriptV, cd2: bool, sc2: ScriptV)
    requires
        super::semantics::piece_on_v(b, pos) is Some,
    ensures
        dp_lookup(moves_at_v(ctx, b, dp, pos, cd, sc).1, pos) == Some(moves_at_v(ctx, b, dp, pos, cd, sc).0),
        moves_at_v(ctx, b, moves_at_v(ctx, b, dp, pos, cd, sc).1, pos, cd2, sc2).0 == moves_at_v(ctx, b, dp, pos, cd, sc).0,
{
    let r = moves_at_v(ctx, b, dp, pos, cd, sc);
    match dp_lookup(dp, pos) {
        Some(c) => {},
        None => {
            let name = super::semantics::piece_on_v(b, pos)->0;
            let (m, dp1) = if super::semantics::is_native(name) {
                super::semantics::native_moves_v(ctx, b, dp, pos, name, cd)
            } else {
                super::semantics::gen_script_v(ctx, b, dp, pos, cd, sc)
            };
            law_cache_lookup_after_insert(dp1, pos, m, pos);
        },
    }
}

/// `has_any` scanning from square `k` answers whether the full scan from `k`
/// finds a move.
proof fn lemma_has_any_from(ctx: Ctx, b: BoardV, dp: DpV, turn: Color, cd: bool, k: int)
    ensures
        has_any_v(ctx, b, dp, turn, cd, k).0 == (all_moves_v(ctx, b, dp, turn, cd, k).0.len() > 0),
    decreases 64 - k,
{
    if 0 <= k < 64 {
        let p = ((k % 8) as u8, (k / 8) as u8);
        if super::semantics::color_on_v(b, p) == Some(turn) {
            let (a, dp1) = moves_at_v(ctx, b, dp, p, cd, ctx.bs);
            lemma_has_any_from(ctx, b, dp1, turn, cd, k + 1);
        } else {
            lemma_has_any_from(ctx, b, dp, turn, cd, k + 1);
        }
    }
}

/// Whether a side has a move is whether its list of moves is non-empty.
pub proof fn law_has_any_iff_moves(ctx: Ctx, b: BoardV, dp: DpV, turn: Color, cd: bool)
    ensures
        has_any_v(ctx, b, dp, turn, cd, 0).0 == (all_moves_v(ctx, b, dp, turn, cd, 0).0.len() > 0),
{
    lemma_has_any_from(ctx, b, dp, turn, cd, 0);
}

/// No two moves share a destination and a captured square.
pub open spec fn targets_unique(ms: Seq<MoveV>) -> bool {
    forall|i: int, j: int|
        0 <= i < j < ms.len() ==> !(move_dest(#[trigger] ms[i]) == move_dest(#[trigger] ms[j]) && move_take(ms[i])
            == move_take(ms[j]))
}

/// Adding a found move keeps at most one move per destination and captured
/// square, and the new move ends the list.
pub proof fn law_push_node_unique(ms: Seq<MoveV>, u: UnitV)
    requires
        targets_unique(ms),
    ensures
        targets_unique(push_node_v(ms, u)),
        push_node_v(ms, u).last() == MoveV::Single(u),
{
    lemma_first_where(ms, same_target(u));
    let r = push_node_v(ms, u);
    match same_target_index(ms, u) {
        Some(i) => {
            let s = swap_remove_v(ms, i);
            assert forall|a: int, c: int| 0 <= a < c < r.len() implies !(move_dest(#[trigger] r[a]) == move_dest(
                #[trigger] r[c],
            ) && move_take(r[a]) == move_take(r[c])) by {
                let ia = if a == i { ms.len() - 1 } else { a };
                if c == r.len() - 1 {
                    assert(r[c] == MoveV::Single(u));
                    assert(r[a] == ms[ia]);
                    if ia != i {
                        assert(ms[ia] != ms[i] || ia == i);
                        if move_dest(ms[ia]) == u.move_to && move_take(ms[ia]) == u.take {
                            assert(same_target(u)(ms[ia]));
                            assert(same_target(u)(ms[i]));
                            if ia < i {
                                assert(!same_target(u)(ms[ia]));
                            } else {
                                assert(move_dest(ms[i]) == move_dest(ms[ia]) && move_take(ms[i]) == move_take(ms[ia]));
                            }
                        }
                    }
                } else {
                    let ic = if c == i { ms.len() - 1 } else { c };
                    assert(r[a] == ms[ia]);
                    assert(r[c] == ms[ic]);
                    assert(ia != ic);
                    if ia < ic {
                        assert(!(move_dest(ms[ia]) == move_dest(ms[ic]) && move_take(ms[ia]) == move_take(ms[ic])));
                    } else {
                        assert(!(move_dest(ms[ic]) == move_dest(ms[ia]) && move_take(ms[ic]) == move_take(ms[ia])));
                    }
                }
            }
        },
        None => {
            assert forall|a: int, c: int| 0 <= a < c < r.len() implies !(move_dest(#[trigger] r[a]) == move_dest(
                #[trigger] r[c],
            ) && move_take(r[a]) == move_take(r[c])) by {
                assert(r[a] == ms[a]);
                if c < ms.len() {
                    assert(r[c] == ms[c]);
                } else {
                    assert(!same_target(u)(ms[a]));
                }
            }
        },
    }
}

proof fn lemma_state_changes_turn(b: BoardV, sc: Seq<(Seq<char>, u8)>, t: Position)
    ensures
        apply_state_changes_v(b, sc, t).turn == b.turn,
        apply_state_changes_v(b, sc, t).status == b.status,
    decreases sc.len(),
{
    if sc.len() > 0 {
        lemma_state_changes_turn(b, sc.drop_last(), t);
    }
}

proof fn lemma_unit_turn(b: BoardV, u: UnitV)
    ensures
        apply_unit_v(b, u).turn == b.turn,
        apply_unit_v(b, u).status == b.status,
{
    let b1 = super::semantics::move_cells_v(b, u);
    match u.state_change {
        Some(sc) => lemma_state_changes_turn(b1, sc, u.move_to),
        None => {},
    }
}

proof fn lemma_units_turn(b: BoardV, us: Seq<UnitV>)
    ensures
        apply_units_v(b, us).turn == b.turn,
        apply_units_v(b, us).status == b.status,
    decreases us.len(),
{
    if us.len() > 0 {
        lemma_units_turn(b, us.drop_last());
        lemma_unit_turn(apply_units_v(b, us.drop_last()), us.last());
    }
}

/// Playing a move keeps the side to move and the status; the decided move
/// hands the turn to the other side.
pub proof fn law_move_passes_turn(ctx: Ctx, b: BoardV, m: MoveV)
    ensures
        apply_move_v(b, m).turn == b.turn,
        make_move_v(ctx, b, m).0.turn == invert_v(b.turn),
{
    match m {
        MoveV::Single(u) => lemma_unit_turn(b, u),
        MoveV::Multiple(us) => lemma_units_turn(b, us),
    }
}

/// Mirroring an instruction for black twice gives it back, except
/// `corner-top-right`, which mirrors to `corner-top-left`; mirroring for
/// white changes nothing else.
pub proof fn law_reflect_involution(x: BehaviorV)
    requires
        super::behavior::reflectable(x),
        !(x is CornerTopRight),
    ensures
        reflect_v(reflect_v(x, Color::Black), Color::Black) == x,
        reflect_v(x, Color::White) == x,
{
}

proof fn lemma_or_bit(x: u64, y: u64, m: u64)
    ensures
        ((x | y) & m != 0) == ((x & m != 0) || (y & m != 0)),
{
    assert(((x | y) & m != 0) == ((x & m != 0) || (y & m != 0))) by (bit_vector);
}

proof fn lemma_single_bits(a: u64, b: u64)
    requires
        a < 64,
        b < 64,
    ensures
        ((1u64 << a) & (1u64 << b) != 0) == (a == b),
        (0u64 & (1u64 << b)) == 0,
{
    assert(((1u64 << a) & (1u64 << b) != 0) == (a == b)) by (bit_vector)
        requires
            a < 64,
            b < 64,
    ;
    assert((0u64 & (1u64 << b)) == 0) by (bit_vector);
}

/// The capture mask of one unit has the bit of an on-board square `p` exactly
/// when the unit captures on `p`.
proof fn lemma_unit_bit(u: UnitV, p: Position)
    requires
        super::unit_wf(u),
        super::in_board(p),
    ensures
        super::semantics::bit_at(super::semantics::unit_bit(u), p) == (super::semantics::is_capture(u.move_type)
            && u.take == p),
{
    let a = ((u.take.1 * 8 + u.take.0) as u64);
    let b = ((p.1 * 8 + p.0) as u64);
    lemma_single_bits(a, b);
    assert((a == b) == (u.take == p));
}

proof fn lemma_units_bits(us: Seq<UnitV>, p: Position)
    requires
        forall|i: int| 0 <= i < us.len() ==> super::unit_wf(#[trigger] us[i]),
        super::in_board(p),
    ensures
        super::semantics::bit_at(super::semantics::units_bits(us), p) == super::semantics::units_takes(us).contains(p),
    decreases us.len(),
{
    if us.len() > 0 {
        let init = us.drop_last();
        assert forall|i: int| 0 <= i < init.len() implies super::unit_wf(#[trigger] init[i]) by {
            assert(init[i] == us[i]);
        }
        lemma_units_bits(init, p);
        lemma_unit_bit(us.last(), p);
        lemma_or_bit(super::semantics::units_bits(init), super::semantics::unit_bit(us.last()), super::semantics::square_bit(p));
        let t0 = super::semantics::units_takes(init);
        if super::semantics::is_capture(us.last().move_type) {
            let t = t0.push(us.last().take);
            assert(t.contains(p) == (t0.contains(p) || us.last().take == p)) by {
                if t.contains(p) {
                    let i = choose|i: int| 0 <= i < t.len() && t[i] == p;
                    if i < t0.len() {
                        assert(t0[i] == p);
                    }
                }
                if t0.contains(p) {
                    let i = choose|i: int| 0 <= i < t0.len() && t0[i] == p;
                    assert(t[i] == p);
                }
                if us.last().take == p {
                    assert(t[t0.len() as int] == p);
                }
            }
        }
    } else {
        assert(super::semantics::units_bits(us) == 0);
        lemma_single_bits(0, ((p.1 * 8 + p.0) as u64));
    }
}

/// For well-formed moves, the capture mask (what `get_danger_zones_bit`
/// computes) has the bit of an on-board square exactly when the square is
/// among the capture squares (what `get_danger_zones` lists).
pub proof fn law_danger_bits_match_zones(ms: Seq<MoveV>, p: Position)
    requires
        super::moves_wf(ms),
        super::in_board(p),
    ensures
        super::semantics::bit_at(super::semantics::moves_bits(ms), p) == super::semantics::moves_takes(ms).contains(p),
    decreases ms.len(),
{
    if ms.len() > 0 {
        let init = ms.drop_last();
        assert forall|i: int| 0 <= i < init.len() implies super::move_wf(#[trigger] init[i]) by {
            assert(init[i] == ms[i]);
        }
        law_danger_bits_match_zones(init, p);
        let m = ms.last();
        assert(super::move_wf(m));
        let mb = super::semantics::move_bits(m);
        let mt = super::semantics::move_takes(m);
        match m {
            MoveV::Single(u) => {
                lemma_unit_bit(u, p);
                assert(mt.contains(p) == (super::semantics::is_capture(u.move_type) && u.take == p)) by {
                    if super::semantics::is_capture(u.move_type) {
                        assert(mt[0] == u.take);
                    }
                }
            },
            MoveV::Multiple(us) => {
                lemma_units_bits(us, p);
            },
        }
        lemma_or_bit(super::semantics::moves_bits(init), mb, super::semantics::square_bit(p));
        let t0 = super::semantics::moves_takes(init);
        let t = t0 + mt;
        assert(t.contains(p) == (t0.contains(p) || mt.contains(p))) by {
            if t.contains(p) {
                let i = choose|i: int| 0 <= i < t.len() && t[i] == p;
                if i < t0.len() {
                    assert(t0[i] == p);
                } else {
                    assert(mt[i - t0.len()] == p);
                }
            }
            if t0.contains(p) {
                let i = choose|i: int| 0 <= i < t0.len() && t0[i] == p;
                assert(t[i] == p);
            }
            if mt.contains(p) {
                let i = choose|i: int| 0 <= i < mt.len() && mt[i] == p;
                assert(t[t0.len() + i] == p);
            }
        }
    } else {
        assert(super::semantics::moves_bits(ms) == 0);
        lemma_single_bits(0, ((p.1 * 8 + p.0) as u64));
    }
}

proof fn lemma_inst_keeps_cache(
    ctx: Ctx,
    b: BoardV,
    chain: Seq<BehaviorV>,
    pos: Position,
    color: Color,
    inst: BehaviorV,
    st: super::semantics::InterpV,
)
    ensures
        super::semantics::exec_inst_v(ctx, b, chain, pos, color, false, inst, st).dp == st.dp,
{
}

proof fn lemma_run_keeps_cache(
    ctx: Ctx,
    b: BoardV,
    chain: Seq<BehaviorV>,
    pos: Position,
    color: Color,
    st: super::semantics::InterpV,
    loops: int,
)
    ensures
        super::semantics::run_v(ctx, b, chain, pos, color, false, st, loops).dp == st.dp,
    decreases 1000 - loops,
{
    if !(st.halted || st.rip < 0 || st.rip >= chain.len() || loops >= 1000) {
        let skip = !super::semantics::top(st) && !super::semantics::is_control(chain[st.rip]);
        if !(skip && st.stack.len() <= 1) {
            let s1 = if skip {
                super::semantics::InterpV { rip: st.stack.last().1 as int, ..st }
            } else {
                st
            };
            if s1.rip < chain.len() {
                lemma_inst_keeps_cache(ctx, b, chain, pos, color, reflect_v(chain[s1.rip], color), s1);
            }
        }
        let n = super::semantics::step_v(ctx, b, chain, pos, color, false, st);
        lemma_run_keeps_cache(ctx, b, chain, pos, color, n, loops + 1);
    }
}

proof fn lemma_chains_keep_cache(
    ctx: Ctx,
    b: BoardV,
    sc: ScriptV,
    pos: Position,
    color: Color,
    nodes: Seq<MoveV>,
    dp: DpV,
    c: int,
)
    ensures
        super::semantics::chains_v(ctx, b, sc, pos, color, false, nodes, dp, c).1 == dp,
    decreases sc.len() - c,
{
    if 0 <= c < sc.len() {
        let chain = sc[c];
        let st = super::semantics::init_state(pos, chain.len() as usize, nodes, dp);
        lemma_run_keeps_cache(ctx, b, chain, pos, color, st, 0);
        let r = super::semantics::run_v(ctx, b, chain, pos, color, false, st, 0);
        lemma_chains_keep_cache(ctx, b, sc, pos, color, r.nodes, r.dp, c + 1);
    }
}

/// Running a script with attacked squares ignored leaves the move cache as
/// it was.
pub proof fn law_plain_generation_keeps_cache(ctx: Ctx, b: BoardV, dp: DpV, pos: Position, sc: ScriptV)
    ensures
        super::semantics::gen_script_v(ctx, b, dp, pos, false, sc).1 == dp,
{
    match super::semantics::color_on_v(b, pos) {
        Some(color) => lemma_chains_keep_cache(ctx, b, sc, pos, color, seq![], dp, 0),
        None => {},
    }
}

/// Every legal move (outside the macho variant) leaves the other side unable
/// to capture on a square holding a king.
pub proof fn law_legal_moves_leave_no_check(ctx: Ctx, b: BoardV, ms: Seq<MoveV>, i: int)
    requires
        !ctx.macho,
    ensures
        forall|k: int| #![trigger super::semantics::filter_v(ctx, b, ms, i)[k]]
            0 <= k < super::semantics::filter_v(ctx, b, ms, i).len() ==> !super::semantics::is_check_v(
                ctx,
                super::semantics::after_move_v(b, super::semantics::filter_v(ctx, b, ms, i)[k]),
                seq![],
                super::semantics::after_move_v(b, super::semantics::filter_v(ctx, b, ms, i)[k]).turn,
            ).0,
    decreases ms.len() - i,
{
    if 0 <= i < ms.len() {
        law_legal_moves_leave_no_check(ctx, b, ms, i + 1);
        let rest = super::semantics::filter_v(ctx, b, ms, i + 1);
        let f = super::semantics::filter_v(ctx, b, ms, i);
        match super::semantics::keep_move_v(ctx, b, ms[i]) {
            Some(m) => {
                assert(f == seq![m] + rest);
                assert forall|k: int| 0 <= k < f.len() implies !super::semantics::is_check_v(
                    ctx,
                    super::semantics::after_move_v(b, #[trigger] f[k]),
                    seq![],
                    super::semantics::after_move_v(b, f[k]).turn,
                ).0 by {
                    if k > 0 {
                        assert(f[k] == rest[k - 1]);
                    }
                }
            },
            None => {},
        }
    }
}

/// A square drawn by `cell_char` that `piece_of_char` reads back: empty, or
/// one of the six standard pieces.
pub open spec fn standard_cell(c: super::CellV) -> bool {
    match c {
        super::CellV::Empty => true,
        super::CellV::Piece(pc) => pc.piece_type == "pawn"@ || pc.piece_type == "rook"@ || pc.piece_type
            == "bishop"@ || pc.piece_type == "knight"@ || pc.piece_type == "king"@ || pc.piece_type == "queen"@,
    }
}

proof fn lemma_char_round_trip(c: super::CellV)
    requires
        standard_cell(c),
    ensures
        super::board::piece_of_char(super::board::cell_char(c)) == c,
{
    reveal_strlit("pawn");
    reveal_strlit("rook");
    reveal_strlit("bishop");
    reveal_strlit("knight");
    reveal_strlit("king");
    reveal_strlit("queen");
}

proof fn lemma_row_text(b: BoardV, y: int, x: int)
    requires
        0 <= x,
    ensures
        super::board::row_text(b, y, x).len() == x,
        forall|i: int| 0 <= i < x ==> #[trigger] super::board::row_text(b, y, x)[i] == super::board::cell_char(b.cells[y][i]),
    decreases x,
{
    if x > 0 {
        lemma_row_text(b, y, x - 1);
        let r0 = super::board::row_text(b, y, x - 1);
        assert forall|i: int| 0 <= i < x implies #[trigger] super::board::row_text(b, y, x)[i] == super::board::cell_char(
            b.cells[y][i],
        ) by {
            if i < x - 1 {
                assert(super::board::row_text(b, y, x)[i] == r0[i]);
            }
        }
    }
}

proof fn lemma_rows_text(b: BoardV, y: int)
    requires
        0 <= y,
    ensures
        super::board::rows_text(b, y).len() == 9 * y,
        forall|y0: int, x: int| #![trigger super::board::rows_text(b, y)[9 * y0 + x]]
            0 <= y0 < y && 0 <= x < 8 ==> super::board::rows_text(b, y)[9 * y0 + x] == super::board::cell_char(
                b.cells[y0][x],
            ),
    decreases y,
{
    if y > 0 {
        lemma_rows_text(b, y - 1);
        lemma_row_text(b, y - 1, 8);
        let prev = super::board::rows_text(b, y - 1);
        let row = super::board::row_text(b, y - 1, 8);
        let all = super::board::rows_text(b, y);
        assert(all == prev + row + seq!['\n']);
        assert forall|y0: int, x: int| 0 <= y0 < y && 0 <= x < 8 implies #[trigger] all[9 * y0 + x]
            == super::board::cell_char(b.cells[y0][x]) by {
            if y0 < y - 1 {
                assert(all[9 * y0 + x] == prev[9 * y0 + x]);
            } else {
                assert(all[9 * y0 + x] == row[x]);
            }
        }
    }
}

/// Drawing a position of standard pieces and reading the drawing back as a
/// placement gives the same squares (`to_string` then `from_str`).
pub proof fn law_placement_round_trip(b: BoardV)
    requires
        forall|y: int, x: int| #![trigger b.cells[y][x]] 0 <= y < 8 && 0 <= x < 8 ==> standard_cell(b.cells[y][x]),
    ensures
        forall|y: int, x: int| #![trigger b.cells[y][x]]
            0 <= y < 8 && 0 <= x < 8 ==> super::board::placement_cell(super::board::rows_text(b, 8), x, y)
                == b.cells[y][x],
{
    lemma_rows_text(b, 8);
    assert forall|y: int, x: int| 0 <= y < 8 && 0 <= x < 8 implies super::board::placement_cell(
        super::board::rows_text(b, 8),
        x,
        y,
    ) == #[trigger] b.cells[y][x] by {
        assert(y * 9 + x == 9 * y + x);
        assert(super::board::rows_text(b, 8)[9 * y + x] == super::board::cell_char(b.cells[y][x]));
        assert(standard_cell(b.cells[y][x]));
        lemma_char_round_trip(b.cells[y][x]);
    }
}

/// In the macho variant the filter keeps only moves that advance (upwards
/// for white, downwards for black) and sideways moves that capture, which it
/// marks as captures.
pub proof fn law_macho_moves_advance(ctx: Ctx, b: BoardV, ms: Seq<MoveV>, i: int)
    requires
        ctx.macho,
    ensures
        forall|k: int| #![trigger super::semantics::filter_v(ctx, b, ms, i)[k]]
            0 <= k < super::semantics::filter_v(ctx, b, ms, i).len() ==> {
                let m = super::semantics::filter_v(ctx, b, ms, i)[k];
                let src = super::move_source(m);
                let dst = super::move_dest(m);
                ||| (super::semantics::color_on_v(b, src) == Some(Color::White) && dst.1 < src.1)
                ||| (super::semantics::color_on_v(b, src) == Some(Color::Black) && dst.1 > src.1)
                ||| (dst.1 == src.1 && m is Single && super::first_unit(m).move_type == super::MoveType::Take)
            },
    decreases ms.len() - i,
{
    if 0 <= i < ms.len() {
        law_macho_moves_advance(ctx, b, ms, i + 1);
        let rest = super::semantics::filter_v(ctx, b, ms, i + 1);
        let f = super::semantics::filter_v(ctx, b, ms, i);
        match super::semantics::keep_move_v(ctx, b, ms[i]) {
            Some(m) => {
                assert(f == seq![m] + rest);
                assert forall|k: int| 0 <= k < f.len() implies {
                    let m = #[trigger] f[k];
                    let src = super::move_source(m);
                    let dst = super::move_dest(m);
                    ||| (super::semantics::color_on_v(b, src) == Some(Color::White) && dst.1 < src.1)
                    ||| (super::semantics::color_on_v(b, src) == Some(Color::Black) && dst.1 > src.1)
                    ||| (dst.1 == src.1 && m is Single && super::first_unit(m).move_type == super::MoveType::Take)
                } by {
                    if k > 0 {
                        assert(f[k] == rest[k - 1]);
                    }
                }
            },
            None => {},
        }
    }
}

/// A unit without transition or state change that captures on its
/// destination (or on an empty square) moves the piece: the destination
/// holds what the source held, and the source is empty.
pub proof fn law_plain_unit_relocates(b: BoardV, u: UnitV)
    requires
        super::unit_wf(u),
        u.move_type != super::MoveType::Castling,
        u.move_type != super::MoveType::Shift,
        u.transition is None,
        u.state_change is None,
        u.take != u.from,
        u.move_to != u.from,
        b.cells.len() == 8,
        forall|y: int| 0 <= y < 8 ==> (#[trigger] b.cells[y]).len() == 8,
    ensures
        super::semantics::cell_v(apply_unit_v(b, u), u.move_to) == super::semantics::cell_v(b, u.from),
        super::semantics::cell_v(apply_unit_v(b, u), u.from) is Empty,
{
}

/// Whether playing `m` leaves the opponent's pieces unable to capture on a
/// square holding a king (what the legality filter asks of a move).
pub open spec fn leaves_no_check(ctx: Ctx, b: BoardV, m: MoveV) -> bool {
    !super::semantics::is_check_v(ctx, super::semantics::after_move_v(b, m), seq![], invert_v(b.turn)).0
}

proof fn lemma_filter_from(ctx: Ctx, b: BoardV, ms: Seq<MoveV>, i: int)
    requires
        !ctx.macho,
        0 <= i <= ms.len(),
    ensures
        super::semantics::filter_v(ctx, b, ms, i) == ms.subrange(i, ms.len() as int).filter(
            |m: MoveV| leaves_no_check(ctx, b, m),
        ),
    decreases ms.len() - i,
{
    let p = |m: MoveV| leaves_no_check(ctx, b, m);
    if i == ms.len() {
        assert(ms.subrange(i, ms.len() as int) =~= Seq::<MoveV>::empty());
        assert(Seq::<MoveV>::empty().filter(p) =~= Seq::<MoveV>::empty()) by {
            Seq::<MoveV>::empty().lemma_filter_len(p);
        }
    } else {
        lemma_filter_from(ctx, b, ms, i + 1);
        let one = seq![ms[i]];
        let rest = ms.subrange(i + 1, ms.len() as int);
        assert(ms.subrange(i, ms.len() as int) =~= one + rest);
        Seq::filter_distributes_over_add(one, rest, p);
        assert(one.drop_last() =~= Seq::<MoveV>::empty());
        assert(Seq::<MoveV>::empty().filter(p) =~= Seq::<MoveV>::empty()) by {
            Seq::<MoveV>::empty().lemma_filter_len(p);
        }
        law_move_passes_turn(ctx, b, ms[i]);
        reveal_with_fuel(Seq::filter, 2);
        let nb = super::semantics::after_move_v(b, ms[i]);
        assert(nb.turn == invert_v(b.turn));
        if leaves_no_check(ctx, b, ms[i]) {
            assert(one.filter(p) =~= one);
            assert(super::semantics::keep_move_v(ctx, b, ms[i]) == Some(ms[i]));
        } else {
            assert(one.filter(p) =~= Seq::<MoveV>::empty());
            assert(super::semantics::keep_move_v(ctx, b, ms[i]) is None);
        }
        assert(super::semantics::filter_v(ctx, b, ms, i) =~= one.filter(p) + rest.filter(p));
    }
}

/// Outside the macho variant, the legality filter keeps, in order, exactly
/// the moves after which the opponent attacks no king; the position it
/// tests is the one `make_move_new_nc` gives without deciding
/// (`apply_move_v`), with the turn handed to the other side.
pub proof fn law_filter_keeps_moves_leaving_no_check(ctx: Ctx, b: BoardV, ms: Seq<MoveV>, m: MoveV)
    requires
        !ctx.macho,
    ensures
        super::semantics::filter_v(ctx, b, ms, 0) == ms.filter(|x: MoveV| leaves_no_check(ctx, b, x)),
        super::semantics::after_move_v(b, m) == (BoardV { turn: invert_v(b.turn), ..apply_move_v(b, m) }),
{
    lemma_filter_from(ctx, b, ms, 0);
    assert(ms.subrange(0, ms.len() as int) =~= ms);
    law_move_passes_turn(ctx, b, m);
}

proof fn lemma_swap_remove_multiset<A>(s: Seq<A>, i: int)
    requires
        0 <= i < s.len(),
    ensures
        super::semantics::swap_remove_v(s, i).to_multiset() == s.to_multiset().remove(s[i]),
        super::semantics::swap_remove_v(s, i).len() == s.len() - 1,
{
    broadcast use vstd::multiset::group_multiset_axioms;

    let n = s.len() - 1;
    let t = s.update(i, s.last());
    vstd::seq_lib::to_multiset_update(s, i, s.last());
    vstd::seq_lib::to_multiset_remove(t, n);
    assert(t.remove(n) =~= t.drop_last());
    assert(t[n] == s.last());
    assert(s.to_multiset().insert(s.last()).remove(s[i]).remove(s.last()) =~= s.to_multiset().remove(s[i]));
}

/// The legality filter keeps the squares moves start from: when every
/// candidate starts on `p`, so does every move it keeps.
pub proof fn lemma_filter_keeps_source(ctx: Ctx, b: BoardV, ms: Seq<MoveV>, i: int, p: Position)
    requires
        forall|k: int| 0 <= k < ms.len() ==> move_source(#[trigger] ms[k]) == p,
    ensures
        forall|k: int| #![trigger super::semantics::filter_v(ctx, b, ms, i)[k]]
            0 <= k < super::semantics::filter_v(ctx, b, ms, i).len() ==> move_source(
                super::semantics::filter_v(ctx, b, ms, i)[k],
            ) == p,
    decreases ms.len() - i,
{
    if 0 <= i < ms.len() {
        lemma_filter_keeps_source(ctx, b, ms, i + 1, p);
        let rest = super::semantics::filter_v(ctx, b, ms, i + 1);
        let f = super::semantics::filter_v(ctx, b, ms, i);
        assert(move_source(ms[i]) == p);
        match super::semantics::keep_move_v(ctx, b, ms[i]) {
            Some(m) => {
                assert(move_source(m) == p);
                assert(f == seq![m] + rest);
                assert forall|k: int| 0 <= k < f.len() implies move_source(#[trigger] f[k]) == p by {
                    if k > 0 {
                        assert(f[k] == rest[k - 1]);
                    }
                }
            },
            None => {},
        }
    }
}

/// Outside the macho variant, every move the legality filter keeps leaves
/// no king attacked (`leaves_no_check`).
pub proof fn lemma_filter_leaves_no_check(ctx: Ctx, b: BoardV, ms: Seq<MoveV>)
    requires
        !ctx.macho,
    ensures
        forall|k: int| #![trigger super::semantics::filter_v(ctx, b, ms, 0)[k]]
            0 <= k < super::semantics::filter_v(ctx, b, ms, 0).len() ==> leaves_no_check(
                ctx,
                b,
                super::semantics::filter_v(ctx, b, ms, 0)[k],
            ),
{
    law_legal_moves_leave_no_check(ctx, b, ms, 0);
    let f = super::semantics::filter_v(ctx, b, ms, 0);
    assert forall|k: int| 0 <= k < f.len() implies leaves_no_check(ctx, b, #[trigger] f[k]) by {
        law_move_passes_turn(ctx, b, f[k]);
    }
}

/// Adding a found move replaces the move with the same destination and
/// captured square, if there is one, and otherwise adds one move: the list
/// keeps its length or grows by one, and holds the same moves but the
/// replaced one, plus the new one.
pub proof fn law_push_node_replaces_or_adds(ms: Seq<MoveV>, u: UnitV)
    ensures
        match super::semantics::same_target_index(ms, u) {
            Some(i) => {
                &&& push_node_v(ms, u).len() == ms.len()
                &&& push_node_v(ms, u).to_multiset() == ms.to_multiset().remove(ms[i]).insert(MoveV::Single(u))
            },
            None => {
                &&& push_node_v(ms, u).len() == ms.len() + 1
                &&& push_node_v(ms, u).to_multiset() == ms.to_multiset().insert(MoveV::Single(u))
            },
        },
{
    lemma_first_where(ms, same_target(u));
    match super::semantics::same_target_index(ms, u) {
        Some(i) => {
            lemma_swap_remove_multiset(ms, i);
            vstd::seq_lib::to_multiset_build(super::semantics::swap_remove_v(ms, i), MoveV::Single(u));
        },
        None => {
            vstd::seq_lib::to_multiset_build(ms, MoveV::Single(u));
        },
    }
}

/// Outside the macho variant, a decided move from a game that goes on hands
/// the turn to the other side, clears the en-passant squares of the side
/// that moved, and decides the status: the game goes on when the side to
/// move has a legal move, else it is checkmate when the side that moved
/// attacks a king, and stalemate otherwise.
pub proof fn law_decided_move_status(ctx: Ctx, b: BoardV, m: MoveV)
    requires
        !ctx.macho,
        b.status == super::board::BoardStatus::Ongoing,
    ensures
        make_move_v(ctx, b, m).0.turn == invert_v(b.turn),
        super::semantics::side_v(make_move_v(ctx, b, m).0, b.turn).enpassant == Seq::<Position>::empty(),
        ({
            let a = super::semantics::next_turn_v(b, m);
            let (any, dp1) = super::semantics::has_any_v(ctx, a, seq![], invert_v(b.turn), true, 0);
            make_move_v(ctx, b, m).0.status == (if any {
                super::board::BoardStatus::Ongoing
            } else if super::semantics::is_check_v(ctx, a, dp1, b.turn).0 {
                super::board::BoardStatus::Checkmate
            } else {
                super::board::BoardStatus::Stalemate
            })
        }),
{
    law_move_passes_turn(ctx, b, m);
    match m {
        MoveV::Single(u) => lemma_unit_turn(b, u),
        MoveV::Multiple(us) => lemma_units_turn(b, us),
    }
    law_invert_involution(b.turn);
}

} // verus!
