//! Running the chains of a script for the piece on one square.
use vstd::prelude::*;

use super::behavior::{behavior_wf, delta_ok, reflect_v, Behavior, BehaviorV};
use super::board::Board;
use super::semantics::{
    add_node, adv, anchor, block_end, chain_unit, chains_v, color_on_v, displace_step, exec_inst_v,
    fail, find_label, first_where, gen_script_v, halt, init_state, is_control, is_label,
    is_take_of, jump_step, lemma_dp_insert_wf, lemma_first_where, lemma_first_where_at, moved,
    probe_step, push_node_v, remove_take_trace, run_v, same_target, same_target_index,
    script_wf, set_anchor, set_top, shift_step, step_v, swap_remove_v, take_trace_index, top,
    wall_v, while_back, Ctx, DpV, InterpV, WallCollision,
};
use super::{
    chain_v, copy_pairs, in_board, moves_have_units, lemma_wf_has_units, move_dest, move_take, move_wf, moves_v, moves_wf_from,
    opt_str_v, state_change_v, unit_wf, ChessMove, ChessMoveUnit, ChessemblyCompiled, Color,
    DeltaPosition, MoveType, MoveV, Position, UnitV,
};

verus! {

/// The interpreter's registers while one chain runs.
struct Interp<'a> {
    rip: usize,
    stack: Vec<(Position, usize)>,
    take_stack: Vec<Option<Position>>,
    states: Vec<bool>,
    transition: Option<&'a str>,
    state_change: Option<Vec<(&'a str, u8)>>,
    value_array: u16,
    anchors: [Position; 16],
    halted: bool,
    nodes: Vec<ChessMove<'a>>,
}

/// What the interpreter keeps true for a chain of `n` instructions run for
/// the piece on `pos`.
pub open spec fn interp_inv(s: InterpV, n: int, pos: Position) -> bool {
    &&& s.stack.len() >= 1
    &&& (!s.halted ==> s.states.len() >= 1)
    &&& 0 <= s.rip <= n
    &&& forall|k: int| 0 <= k < s.stack.len() ==> in_board((#[trigger] s.stack[k]).0) && s.stack[k].1 <= n
    &&& forall|k: int| 0 <= k < s.take_stack.len() ==> (#[trigger] s.take_stack[k] matches Some(p) ==> in_board(p))
    &&& s.anchors.len() == 16
    &&& forall|k: int| 0 <= k < 16 ==> in_board(#[trigger] s.anchors[k])
    &&& moves_wf_from(s.nodes, pos)
}

impl<'a> Interp<'a> {
    spec fn view_with(&self, dp: DpV) -> InterpV {
        InterpV {
            rip: self.rip as int,
            stack: self.stack@,
            take_stack: self.take_stack@,
            states: self.states@,
            transition: opt_str_v(self.transition),
            state_change: state_change_v(self.state_change),
            value_array: self.value_array,
            anchors: self.anchors@,
            halted: self.halted,
            nodes: moves_v(self.nodes@),
            dp,
        }
    }

    fn new(pos: Position, n: usize, nodes: Vec<ChessMove<'a>>) -> (r: Interp<'a>)
        requires
            in_board(pos),
        ensures
            forall|dp: DpV| #[trigger] r.view_with(dp) == init_state(pos, n, moves_v(nodes@), dp),
            r.nodes@ == nodes@,
    {
        let r = Interp {
            rip: 0,
            stack: vec![(pos, n)],
            take_stack: vec![None],
            states: vec![true],
            transition: None,
            state_change: None,
            value_array: 0,
            anchors: [(0u8, 0u8); 16],
            halted: false,
            nodes,
        };
        assert(r.anchors@ =~= Seq::new(16, |i: int| (0u8, 0u8)));
        assert(r.stack@ =~= seq![(pos, n)]);
        assert(r.take_stack@ =~= seq![None]);
        assert(r.states@ =~= seq![true]);
        r
    }

    fn top(&self) -> (r: bool)
        requires
            self.states@.len() >= 1,
        ensures
            r == self.states@.last(),
    {
        self.states[self.states.len() - 1]
    }

    fn set_top(&mut self, v: bool, Ghost(dp): Ghost<DpV>)
        requires
            old(self).states@.len() >= 1,
        ensures
            final(self).view_with(dp) == set_top(old(self).view_with(dp), v),
            final(self).nodes@ == old(self).nodes@,
    {
        let k = self.states.len() - 1;
        self.states.set(k, v);
    }

    fn adv(&mut self, Ghost(dp): Ghost<DpV>)
        requires
            old(self).rip < usize::MAX,
        ensures
            final(self).view_with(dp) == adv(old(self).view_with(dp)),
            final(self).nodes@ == old(self).nodes@,
    {
        self.rip = self.rip + 1;
    }

    fn fail(&mut self, Ghost(dp): Ghost<DpV>)
        requires
            old(self).states@.len() >= 1,
            old(self).rip < usize::MAX,
        ensures
            final(self).view_with(dp) == fail(old(self).view_with(dp)),
            final(self).nodes@ == old(self).nodes@,
    {
        self.set_top(false, Ghost(dp));
        self.adv(Ghost(dp));
    }

    fn halt(&mut self, Ghost(dp): Ghost<DpV>)
        ensures
            final(self).view_with(dp) == halt(old(self).view_with(dp)),
            final(self).nodes@ == old(self).nodes@,
    {
        self.halted = true;
    }

    fn anchor(&self) -> (r: Position)
        requires
            self.stack@.len() >= 1,
        ensures
            r == self.stack@.last().0,
    {
        self.stack[self.stack.len() - 1].0
    }

    fn set_anchor(&mut self, p: Position, Ghost(dp): Ghost<DpV>)
        requires
            old(self).stack@.len() >= 1,
        ensures
            final(self).view_with(dp) == set_anchor(old(self).view_with(dp), p),
            final(self).nodes@ == old(self).nodes@,
    {
        let k = self.stack.len() - 1;
        let end = self.stack[k].1;
        self.stack.set(k, (p, end));
    }

    /// A unit carrying the pending state changes and transition.
    fn unit(&self, pos: Position, take: Position, move_to: Position, t: MoveType) -> (r: ChessMoveUnit<'a>)
        ensures
            forall|dp: DpV| #[trigger] chain_unit(self.view_with(dp), pos, take, move_to, t) == r@,
    {
        ChessMoveUnit {
            from: pos,
            take,
            move_to,
            move_type: t,
            state_change: match &self.state_change {
                Some(v) => Some(copy_pairs(v)),
                None => None,
            },
            transition: self.transition,
        }
    }

    fn add_node(&mut self, u: ChessMoveUnit<'a>, Ghost(dp): Ghost<DpV>)
        requires
            moves_have_units(moves_v(old(self).nodes@)),
        ensures
            final(self).view_with(dp) == add_node(old(self).view_with(dp), u@),
            moves_have_units(moves_v(final(self).nodes@)),
    {
        ChessemblyCompiled::push_node(&mut self.nodes, u);
    }
}

/// Where moving `anchor` by `delta` hits the board's walls, named from
/// `color`'s side.
/// Whether the square `anchor` moved by `delta` (x + dx, y - dy) stays
/// within a signed byte, as the arithmetic on squares asks.
pub open spec fn step_fits(anchor: Position, delta: DeltaPosition) -> bool {
    -128 <= anchor.0 + delta.0 <= 127 && -128 <= anchor.1 - delta.1 <= 127
}

pub(crate) fn wall_collision(anchor: &Position, delta: &DeltaPosition, color: Color) -> (r: WallCollision)
    requires
        in_board(*anchor),
        step_fits(*anchor, *delta),
    ensures
        r == wall_v(*anchor, *delta, color),
{
    let a0: i8 = (anchor.0 as i8) + delta.0;
    let a1: i8 = (anchor.1 as i8) - delta.1;
    let w = match color {
        Color::White => true,
        Color::Black => false,
    };
    if a0 < 0 && a1 < 0 {
        if w { WallCollision::CornerTopLeft } else { WallCollision::CornerBottomRight }
    } else if a0 >= 8 && a1 < 0 {
        if w { WallCollision::CornerTopRight } else { WallCollision::CornerBottomLeft }
    } else if a0 < 0 && a1 >= 8 {
        if w { WallCollision::CornerBottomLeft } else { WallCollision::CornerTopRight }
    } else if (a0 == 8 && a1 == 8) || (a0 > 8 && a1 > 8) {
        if w { WallCollision::CornerBottomRight } else { WallCollision::CornerTopLeft }
    } else if a0 < 0 {
        if w { WallCollision::EdgeLeft } else { WallCollision::EdgeRight }
    } else if a0 >= 8 {
        if w { WallCollision::EdgeRight } else { WallCollision::EdgeLeft }
    } else if a1 < 0 {
        if w { WallCollision::EdgeTop } else { WallCollision::EdgeBottom }
    } else if a1 >= 8 {
        if w { WallCollision::EdgeBottom } else { WallCollision::EdgeTop }
    } else {
        WallCollision::NoCollision
    }
}

/// `anchor` moved by `delta`, known to stay on the board.
pub(crate) fn moved_by(anchor: &Position, delta: &DeltaPosition) -> (r: Position)
    requires
        in_board(*anchor),
        step_fits(*anchor, *delta),
        wall_v(*anchor, *delta, Color::White) == WallCollision::NoCollision,
    ensures
        r == moved(*anchor, *delta),
        in_board(r),
{
    ((anchor.0 as i8 + delta.0) as u8, (anchor.1 as i8 - delta.1) as u8)
}

pub proof fn lemma_wall_color(anchor: Position, d: DeltaPosition, c: Color)
    ensures
        (wall_v(anchor, d, c) == WallCollision::NoCollision) == (wall_v(anchor, d, Color::White)
            == WallCollision::NoCollision),
{
}

/// Whether the name `name` denotes the side `c` (`white` or `black`).
fn color_named(name: &str, c: Color) -> (r: bool)
    ensures
        r == super::semantics::color_matches(name@, c),
{
    if super::text::str_eq(name, "white") {
        c == Color::White
    } else if super::text::str_eq(name, "black") {
        c == Color::Black
    } else {
        false
    }
}

impl<'a> Interp<'a> {
    /// `take-move`, `take`, `catch` and `move`.
    fn displace<const MACHO: bool, const IMPRISONED: bool, const SIZE: usize>(
        &mut self,
        board: &Board<'a, MACHO, IMPRISONED, SIZE>,
        pos: Position,
        color: Color,
        inst: Behavior<'a>,
        d: DeltaPosition,
        Ghost(dp): Ghost<DpV>,
        Ghost(n): Ghost<int>,
    )
        requires
            SIZE == 8,
            interp_inv(old(self).view_with(dp), n, pos),
            !old(self).halted,
            old(self).rip < n <= usize::MAX,
            in_board(pos),
            delta_ok(d),
            inst@ == BehaviorV::TakeMove(d) || inst@ == BehaviorV::Take(d) || inst@ == BehaviorV::Catch(d)
                || inst@ == BehaviorV::Move(d),
        ensures
            final(self).view_with(dp) == displace_step(board@, pos, color, inst@, d, old(self).view_with(dp)),
            interp_inv(final(self).view_with(dp), n, pos),
    {
        proof {
            lemma_wf_has_units(moves_v(self.nodes@), pos);
        }
        let ghost s0 = self.view_with(dp);
        let a = self.anchor();
        let wc = wall_collision(&a, &d, color);
        if wc != WallCollision::NoCollision {
            self.fail(Ghost(dp));
            return;
        }
        proof {
            lemma_wall_color(a, d, color);
        }
        let a2 = moved_by(&a, &d);
        let c = board.color_on(&a2);
        let friendly = match c {
            Some(x) => x == color,
            None => false,
        };
        let enemy = match c {
            Some(x) => x != color,
            None => false,
        };
        assert(friendly == (color_on_v(board@, a2) == Some(color)));
        assert(enemy == (color_on_v(board@, a2) == Some(super::invert_v(color))));
        match inst {
            Behavior::TakeMove(_) => {
                if friendly {
                    self.fail(Ghost(dp));
                } else {
                    let u = self.unit(pos, a2, a2, MoveType::TakeMove);
                    self.set_anchor(a2, Ghost(dp));
                    self.add_node(u, Ghost(dp));
                    proof {
                        super::semantics::lemma_push_node_wf(s0.nodes, u@, pos);
                    }
                    if enemy {
                        self.fail(Ghost(dp));
                    } else {
                        self.adv(Ghost(dp));
                    }
                }
            },
            Behavior::Take(_) => {
                if friendly {
                    self.fail(Ghost(dp));
                } else if enemy {
                    let u = self.unit(pos, a2, a2, MoveType::Take);
                    self.set_anchor(a2, Ghost(dp));
                    self.add_node(u, Ghost(dp));
                    proof {
                        super::semantics::lemma_push_node_wf(s0.nodes, u@, pos);
                    }
                    let k = self.take_stack.len();
                    if k > 0 {
                        self.take_stack.set(k - 1, Some(a2));
                    } else {
                        self.take_stack.push(Some(a2));
                    }
                    self.adv(Ghost(dp));
                } else {
                    self.set_anchor(a2, Ghost(dp));
                    self.adv(Ghost(dp));
                }
            },
            Behavior::Catch(_) => {
                if friendly {
                    self.fail(Ghost(dp));
                } else if enemy {
                    let u = self.unit(pos, a2, pos, MoveType::Catch);
                    self.set_anchor(a2, Ghost(dp));
                    self.add_node(u, Ghost(dp));
                    proof {
                        super::semantics::lemma_push_node_wf(s0.nodes, u@, pos);
                    }
                    self.adv(Ghost(dp));
                } else {
                    self.set_anchor(a2, Ghost(dp));
                    self.adv(Ghost(dp));
                }
            },
            _ => {
                if friendly || enemy {
                    self.fail(Ghost(dp));
                } else {
                    let u = self.unit(pos, a2, a2, MoveType::Move);
                    self.set_anchor(a2, Ghost(dp));
                    self.add_node(u, Ghost(dp));
                    proof {
                        super::semantics::lemma_push_node_wf(s0.nodes, u@, pos);
                    }
                    self.adv(Ghost(dp));
                }
            },
        }
    }

    /// `peek`, `observe`, `enemy`, `friendly`, `piece-on`, `color-on` and `anchor`.
    fn probe<const MACHO: bool, const IMPRISONED: bool, const SIZE: usize>(
        &mut self,
        board: &Board<'a, MACHO, IMPRISONED, SIZE>,
        pos: Position,
        color: Color,
        inst: Behavior<'a>,
        d: DeltaPosition,
        Ghost(dp): Ghost<DpV>,
        Ghost(n): Ghost<int>,
    )
        requires
            SIZE == 8,
            interp_inv(old(self).view_with(dp), n, pos),
            !old(self).halted,
            old(self).rip < n <= usize::MAX,
            delta_ok(d),
            inst@ == BehaviorV::Peek(d) || inst@ == BehaviorV::Observe(d) || inst@ == BehaviorV::Enemy(d)
                || inst@ == BehaviorV::Friendly(d) || inst@ == BehaviorV::Anchor(d) || (
            inst@ matches BehaviorV::PieceOn((_, e)) && e == d) || (inst@ matches BehaviorV::ColorOn((
                _,
                e,
            )) && e == d),
        ensures
            final(self).view_with(dp) == probe_step(board@, color, inst@, d, old(self).view_with(dp)),
            interp_inv(final(self).view_with(dp), n, pos),
    {
        let a = self.anchor();
        let wc = wall_collision(&a, &d, color);
        if wc != WallCollision::NoCollision {
            self.fail(Ghost(dp));
            return;
        }
        proof {
            lemma_wall_color(a, d, color);
        }
        let a2 = moved_by(&a, &d);
        let c = board.color_on(&a2);
        match inst {
            Behavior::Peek(_) => {
                if c.is_some() {
                    self.fail(Ghost(dp));
                } else {
                    self.set_anchor(a2, Ghost(dp));
                    self.adv(Ghost(dp));
                }
            },
            Behavior::Observe(_) => {
                if c.is_some() {
                    self.fail(Ghost(dp));
                } else {
                    self.adv(Ghost(dp));
                }
            },
            Behavior::Enemy(_) => {
                let r = ChessemblyCompiled::is_enemy(&a2, board, color);
                self.set_top(r, Ghost(dp));
                self.adv(Ghost(dp));
            },
            Behavior::Friendly(_) => {
                let r = ChessemblyCompiled::is_friendly(&a2, board, color);
                self.set_top(r, Ghost(dp));
                self.adv(Ghost(dp));
            },
            Behavior::PieceOn((name, _)) => {
                let r = match board.piece_on(&a2) {
                    Some(p) => super::text::str_eq(p, name),
                    None => false,
                };
                self.set_top(r, Ghost(dp));
                self.adv(Ghost(dp));
            },
            Behavior::ColorOn((name, _)) => {
                let r = match c {
                    Some(x) => color_named(name, x),
                    None => false,
                };
                self.set_top(r, Ghost(dp));
                self.adv(Ghost(dp));
            },
            _ => {
                self.set_anchor(a2, Ghost(dp));
                self.adv(Ghost(dp));
            },
        }
    }

    /// `shift`.
    fn shift<const MACHO: bool, const IMPRISONED: bool, const SIZE: usize>(
        &mut self,
        board: &Board<'a, MACHO, IMPRISONED, SIZE>,
        pos: Position,
        color: Color,
        d: DeltaPosition,
        Ghost(dp): Ghost<DpV>,
        Ghost(n): Ghost<int>,
    )
        requires
            SIZE == 8,
            interp_inv(old(self).view_with(dp), n, pos),
            !old(self).halted,
            old(self).rip < n <= usize::MAX,
            in_board(pos),
            delta_ok(d),
        ensures
            final(self).view_with(dp) == shift_step(board@, pos, color, d, old(self).view_with(dp)),
            interp_inv(final(self).view_with(dp), n, pos),
    {
        proof {
            lemma_wf_has_units(moves_v(self.nodes@), pos);
        }
        let ghost s0 = self.view_with(dp);
        let a = self.anchor();
        let wc = wall_collision(&a, &d, color);
        if wc != WallCollision::NoCollision {
            self.fail(Ghost(dp));
            return;
        }
        proof {
            lemma_wall_color(a, d, color);
        }
        let a2 = moved_by(&a, &d);
        if board.color_on(&a2).is_some() {
            let u = self.unit(pos, pos, a2, MoveType::Shift);
            self.set_anchor(a2, Ghost(dp));
            self.add_node(u, Ghost(dp));
            proof {
                super::semantics::lemma_push_node_wf(s0.nodes, u@, pos);
            }
        } else {
            self.set_anchor(a2, Ghost(dp));
        }
        self.adv(Ghost(dp));
    }

    /// Removes the first plain capture of `t` from the moves found.
    fn remove_trace(&mut self, t: Position, Ghost(dp): Ghost<DpV>, Ghost(pos): Ghost<Position>)
        requires
            moves_wf_from(moves_v(old(self).nodes@), pos),
        ensures
            final(self).view_with(dp) == (InterpV {
                nodes: remove_take_trace(old(self).view_with(dp).nodes, t),
                ..old(self).view_with(dp)
            }),
    {
        let ghost ms = moves_v(self.nodes@);
        let ghost f = |m: MoveV| is_take_of(m, t);
        let mut i: usize = 0;
        while i < self.nodes.len()
            invariant
                i <= self.nodes@.len(),
                self.nodes@ == old(self).nodes@,
                self.view_with(dp) == old(self).view_with(dp),
                ms == moves_v(self.nodes@),
                f == (|m: MoveV| is_take_of(m, t)),
                forall|j: int| 0 <= j < i ==> !f(#[trigger] ms[j]),
            decreases self.nodes@.len() - i,
        {
            assert(ms[i as int] == self.nodes@[i as int]@);
            let hit = match &self.nodes[i] {
                ChessMove::Single(u) => u.move_type == MoveType::Take && u.take.0 == t.0 && u.take.1 == t.1,
                ChessMove::Multiple(_) => false,
            };
            if hit {
                proof {
                    lemma_first_where_at(ms, f, i as int);
                }
                self.nodes.swap_remove(i);
                assert(moves_v(self.nodes@) =~= swap_remove_v(ms, i as int));
                return;
            }
            i += 1;
        }
        proof {
            lemma_first_where(ms, f);
        }
    }

    /// `jump`.
    fn jump<const MACHO: bool, const IMPRISONED: bool, const SIZE: usize>(
        &mut self,
        board: &Board<'a, MACHO, IMPRISONED, SIZE>,
        pos: Position,
        color: Color,
        d: DeltaPosition,
        Ghost(dp): Ghost<DpV>,
        Ghost(n): Ghost<int>,
    )
        requires
            SIZE == 8,
            interp_inv(old(self).view_with(dp), n, pos),
            !old(self).halted,
            old(self).rip < n <= usize::MAX,
            in_board(pos),
            delta_ok(d),
        ensures
            final(self).view_with(dp) == jump_step(board@, pos, color, d, old(self).view_with(dp)),
            interp_inv(final(self).view_with(dp), n, pos),
    {
        let ghost s0 = self.view_with(dp);
        let k = self.take_stack.len();
        if k == 0 {
            self.fail(Ghost(dp));
            return;
        }
        let tp = self.take_stack[k - 1];
        match tp {
            None => {
                self.fail(Ghost(dp));
            },
            Some(tpc) => {
                let u = self.unit(pos, tpc, pos, MoveType::TakeJump);
                assert(u@ == chain_unit(self.view_with(dp), pos, tpc, pos, MoveType::TakeJump));
                self.remove_trace(tpc, Ghost(dp), Ghost(pos));
                proof {
                    super::semantics::lemma_remove_trace_wf(s0.nodes, tpc, pos);
                    lemma_wf_has_units(moves_v(self.nodes@), pos);
                }
                let ghost s1 = self.view_with(dp);
                if d.0 == 0 && d.1 == 0 {
                    self.fail(Ghost(dp));
                    return;
                }
                let a = self.anchor();
                let wc = wall_collision(&a, &d, color);
                if wc != WallCollision::NoCollision {
                    self.fail(Ghost(dp));
                    return;
                }
                proof {
                    lemma_wall_color(a, d, color);
                }
                let a2 = moved_by(&a, &d);
                self.set_anchor(a2, Ghost(dp));
                if board.color_on(&a2).is_none() {
                    let u2 = ChessMoveUnit { move_to: a2, ..u };
                    assert(u2@ == chain_unit(s0, pos, tpc, a2, MoveType::TakeJump));
                    self.add_node(u2, Ghost(dp));
                    proof {
                        assert(s0.take_stack[k - 1] == Some(tpc));
                        super::semantics::lemma_push_node_wf(s1.nodes, u2@, pos);
                    }
                    self.adv(Ghost(dp));
                } else {
                    self.fail(Ghost(dp));
                }
            },
        }
    }
}

/// Mirroring keeps an instruction safe to run.
pub proof fn lemma_reflect_wf(b: BehaviorV, c: Color)
    requires
        behavior_wf(b),
    ensures
        behavior_wf(reflect_v(b, c)),
{
}

/// Mirroring keeps the instructions without a displacement.
pub proof fn lemma_reflect_shape(b: BehaviorV, c: Color)
    ensures
        reflect_v(b, c) is BlockOpen ==> b is BlockOpen,
        reflect_v(b, c) is While ==> b is While,
{
}

/// The end of the block opened at `rip`.
fn find_block_end(chain: &Vec<Behavior>, rip: usize) -> (r: usize)
    requires
        rip < chain@.len(),
        chain@[rip as int]@ is BlockOpen,
    ensures
        r as int == block_end(chain_v(chain@), rip as int, 0),
        r <= chain@.len(),
{
    let ghost cv = chain_v(chain@);
    let mut end = rip;
    let mut ss: usize = 0;
    loop
        invariant_except_break
            rip <= end < chain@.len() + 1,
            cv == chain_v(chain@),
            cv.len() == chain@.len(),
            block_end(cv, rip as int, 0) == block_end(cv, end as int, ss as int),
            ss <= end - rip,
            end > rip ==> ss >= 1,
            end == rip ==> ss == 0 && chain@[rip as int]@ is BlockOpen,
        ensures
            end as int == block_end(cv, rip as int, 0),
            end <= chain@.len(),
        decreases chain@.len() - end,
    {
        if end >= chain.len() {
            break;
        }
        assert(cv[end as int] == chain@[end as int]@);
        match &chain[end] {
            Behavior::BlockOpen => {
                ss = ss + 1;
            },
            Behavior::BlockClose => {
                ss = ss - 1;
                if ss == 0 {
                    break;
                }
            },
            _ => {},
        }
        end = end + 1;
    }
    end
}

/// The `do` matching the `while` at `rip`, scanning backwards.
fn find_do(chain: &Vec<Behavior>, rip: usize) -> (r: usize)
    requires
        rip < chain@.len(),
        chain@[rip as int]@ is While,
    ensures
        r as int == while_back(chain_v(chain@), rip as int, 0),
        r <= rip,
{
    let ghost cv = chain_v(chain@);
    let len = chain.len();
    let mut r = rip;
    let mut ss: usize = 0;
    loop
        invariant_except_break
            r <= rip < chain@.len(),
            len == chain@.len(),
            cv == chain_v(chain@),
            cv.len() == chain@.len(),
            while_back(cv, rip as int, 0) == while_back(cv, r as int, ss as int),
            r == rip ==> ss == 0 && chain@[rip as int]@ is While,
            r < rip ==> ss >= 1,
            ss <= rip - r,
        ensures
            r as int == while_back(cv, rip as int, 0),
            r <= rip,
        decreases r,
    {
        assert(cv[r as int] == chain@[r as int]@);
        match &chain[r] {
            Behavior::While => {
                ss = ss + 1;
            },
            Behavior::Do => {
                ss = ss - 1;
                if ss == 0 {
                    break;
                }
            },
            _ => {},
        }
        if r == 0 {
            break;
        }
        r = r - 1;
    }
    r
}

/// The first `label(l)` of the chain.
fn find_label_in(chain: &Vec<Behavior>, l: u8) -> (r: Option<usize>)
    ensures
        match r {
            Some(i) => find_label(chain_v(chain@), l) == Some(i as int) && i < chain@.len(),
            None => find_label(chain_v(chain@), l) is None,
        },
{
    let ghost cv = chain_v(chain@);
    let mut i: usize = 0;
    while i < chain.len()
        invariant
            i <= chain@.len(),
            cv == chain_v(chain@),
            cv.len() == chain@.len(),
            forall|j: int| 0 <= j < i ==> !is_label(l)(#[trigger] cv[j]),
        decreases chain@.len() - i,
    {
        assert(cv[i as int] == chain@[i as int]@);
        let hit = match &chain[i] {
            Behavior::Label(x) => *x == l,
            _ => false,
        };
        if hit {
            proof {
                lemma_first_where_at(cv, is_label(l), i as int);
            }
            return Some(i);
        }
        i += 1;
    }
    proof {
        lemma_first_where(cv, is_label(l));
    }
    None
}

/// Whether `b` runs even while the current state is false.
fn is_control_inst(b: &Behavior) -> (r: bool)
    ensures
        r == is_control(b@),
{
    match b {
        Behavior::While => true,
        Behavior::Jmp(_) => true,
        Behavior::Jne(_) => true,
        Behavior::Label(_) => true,
        Behavior::Not => true,
        Behavior::True => true,
        Behavior::False => true,
        Behavior::Write(_) => true,
        Behavior::Read(_) => true,
        Behavior::ReadAnd(_) => true,
        Behavior::ReadOr(_) => true,
        Behavior::ReadXor(_) => true,
        _ => false,
    }
}

impl<'a> Interp<'a> {
    /// Instructions that move the anchor or test a square.
    #[verifier::rlimit(40)]
    fn exec_motion<const MACHO: bool, const IMPRISONED: bool, const SIZE: usize>(
        &mut self,
        board: &Board<'a, MACHO, IMPRISONED, SIZE>,
        chain: &Vec<Behavior<'a>>,
        pos: Position,
        color: Color,
        inst: Behavior<'a>,
        Ghost(dp): Ghost<DpV>,
        Ghost(ctx): Ghost<Ctx>,
        Ghost(cd): Ghost<bool>,
    )
        requires
            SIZE == 8,
            interp_inv(old(self).view_with(dp), chain@.len() as int, pos),
            !old(self).halted,
            old(self).rip < chain@.len(),
            in_board(pos),
            color_on_v(board@, pos) == Some(color),
            behavior_wf(inst@),
            inst@ == reflect_v(chain_v(chain@)[old(self).rip as int], color),
            inst@ is TakeMove || inst@ is Take || inst@ is Catch || inst@ is Move || inst@ is Jump || inst@ is Peek || inst@ is Observe || inst@ is Enemy || inst@ is Friendly || inst@ is PieceOn || inst@ is ColorOn || inst@ is Anchor || inst@ is Shift,
        ensures
            final(self).view_with(dp) == exec_inst_v(
                ctx,
                board@,
                chain_v(chain@),
                pos,
                color,
                cd,
                inst@,
                old(self).view_with(dp),
            ),
            interp_inv(final(self).view_with(dp), chain@.len() as int, pos),
    {
        let len = chain.len();
        let ghost n = chain@.len() as int;
        let ghost s0 = self.view_with(dp);
        let ghost cv = chain_v(chain@);
        proof {
            lemma_reflect_shape(cv[s0.rip], color);
            assert(cv[s0.rip] == chain@[s0.rip]@);
        }
        match inst {
            Behavior::TakeMove(d) => self.displace(board, pos, color, inst, d, Ghost(dp), Ghost(n)),
            Behavior::Take(d) => self.displace(board, pos, color, inst, d, Ghost(dp), Ghost(n)),
            Behavior::Catch(d) => self.displace(board, pos, color, inst, d, Ghost(dp), Ghost(n)),
            Behavior::Move(d) => self.displace(board, pos, color, inst, d, Ghost(dp), Ghost(n)),
            Behavior::Jump(d) => self.jump(board, pos, color, d, Ghost(dp), Ghost(n)),
            Behavior::Peek(d) => self.probe(board, pos, color, inst, d, Ghost(dp), Ghost(n)),
            Behavior::Observe(d) => self.probe(board, pos, color, inst, d, Ghost(dp), Ghost(n)),
            Behavior::Enemy(d) => self.probe(board, pos, color, inst, d, Ghost(dp), Ghost(n)),
            Behavior::Friendly(d) => self.probe(board, pos, color, inst, d, Ghost(dp), Ghost(n)),
            Behavior::PieceOn((_, d)) => self.probe(board, pos, color, inst, d, Ghost(dp), Ghost(n)),
            Behavior::ColorOn((_, d)) => self.probe(board, pos, color, inst, d, Ghost(dp), Ghost(n)),
            Behavior::Anchor(d) => self.probe(board, pos, color, inst, d, Ghost(dp), Ghost(n)),
            Behavior::Shift(d) => self.shift(board, pos, color, d, Ghost(dp), Ghost(n)),
            _ => {},
        }
    }

    /// Blocks and loops.
    #[verifier::rlimit(40)]
    fn exec_flow<const MACHO: bool, const IMPRISONED: bool, const SIZE: usize>(
        &mut self,
        board: &Board<'a, MACHO, IMPRISONED, SIZE>,
        chain: &Vec<Behavior<'a>>,
        pos: Position,
        color: Color,
        inst: Behavior<'a>,
        Ghost(dp): Ghost<DpV>,
        Ghost(ctx): Ghost<Ctx>,
        Ghost(cd): Ghost<bool>,
    )
        requires
            SIZE == 8,
            interp_inv(old(self).view_with(dp), chain@.len() as int, pos),
            !old(self).halted,
            old(self).rip < chain@.len(),
            in_board(pos),
            color_on_v(board@, pos) == Some(color),
            behavior_wf(inst@),
            inst@ == reflect_v(chain_v(chain@)[old(self).rip as int], color),
            inst@ is BlockOpen || inst@ is BlockClose || inst@ is Do || inst@ is While,
        ensures
            final(self).view_with(dp) == exec_inst_v(
                ctx,
                board@,
                chain_v(chain@),
                pos,
                color,
                cd,
                inst@,
                old(self).view_with(dp),
            ),
            interp_inv(final(self).view_with(dp), chain@.len() as int, pos),
    {
        let len = chain.len();
        let ghost n = chain@.len() as int;
        let ghost s0 = self.view_with(dp);
        let ghost cv = chain_v(chain@);
        proof {
            lemma_reflect_shape(cv[s0.rip], color);
            assert(cv[s0.rip] == chain@[s0.rip]@);
        }
        match inst {
            Behavior::BlockOpen => {
                let end = find_block_end(chain, self.rip);
                let a = self.anchor();
                let k = self.take_stack.len();
                let t = if k > 0 {
                    self.take_stack[k - 1]
                } else {
                    None
                };
                self.stack.push((a, end));
                self.take_stack.push(t);
                self.states.push(true);
                self.adv(Ghost(dp));
                assert(self.view_with(dp).stack == s0.stack.push((anchor(s0), end)));
            },
            Behavior::BlockClose => {
                if self.stack.len() > 1 && self.states.len() > 1 {
                    self.stack.pop();
                    self.states.pop();
                    self.adv(Ghost(dp));
                    assert(self.view_with(dp).stack =~= s0.stack.drop_last());
                    assert(self.view_with(dp).states =~= s0.states.drop_last());
                } else {
                    self.halt(Ghost(dp));
                }
            },
            Behavior::Do => {
                if self.rip + 1 < chain.len() {
                    assert(cv[s0.rip + 1] == chain@[s0.rip + 1]@);
                    let next_is_while = match &chain[self.rip + 1] {
                        Behavior::While => true,
                        _ => false,
                    };
                    if next_is_while {
                        self.rip = self.rip + 2;
                    } else {
                        self.states.push(true);
                        self.adv(Ghost(dp));
                    }
                } else {
                    self.halt(Ghost(dp));
                }
            },
            Behavior::While => {
                if self.top() {
                    assert(cv[s0.rip] is While);
                    self.rip = find_do(chain, self.rip);
                } else {
                    self.states.pop();
                    assert(self.states@ =~= s0.states.drop_last());
                    if self.states.len() == 0 {
                        self.halt(Ghost(dp));
                    } else {
                        self.adv(Ghost(dp));
                    }
                }
            },
            _ => {},
        }
    }

    /// Jumps to labels.
    #[verifier::rlimit(100)]
    fn exec_jumps<const MACHO: bool, const IMPRISONED: bool, const SIZE: usize>(
        &mut self,
        board: &Board<'a, MACHO, IMPRISONED, SIZE>,
        chain: &Vec<Behavior<'a>>,
        pos: Position,
        color: Color,
        inst: Behavior<'a>,
        Ghost(dp): Ghost<DpV>,
        Ghost(ctx): Ghost<Ctx>,
        Ghost(cd): Ghost<bool>,
    )
        requires
            SIZE == 8,
            interp_inv(old(self).view_with(dp), chain@.len() as int, pos),
            !old(self).halted,
            old(self).rip < chain@.len(),
            in_board(pos),
            color_on_v(board@, pos) == Some(color),
            behavior_wf(inst@),
            inst@ == reflect_v(chain_v(chain@)[old(self).rip as int], color),
            inst@ is Jmp || inst@ is Jne,
        ensures
            final(self).view_with(dp) == exec_inst_v(
                ctx,
                board@,
                chain_v(chain@),
                pos,
                color,
                cd,
                inst@,
                old(self).view_with(dp),
            ),
            interp_inv(final(self).view_with(dp), chain@.len() as int, pos),
    {
        let len = chain.len();
        let ghost n = chain@.len() as int;
        let ghost s0 = self.view_with(dp);
        let ghost cv = chain_v(chain@);
        proof {
            lemma_reflect_shape(cv[s0.rip], color);
            assert(cv[s0.rip] == chain@[s0.rip]@);
        }
        match inst {
            Behavior::Jmp(l) => {
                if self.top() {
                    self.goto_label(chain, l, Ghost(dp), Ghost(pos));
                } else {
                    self.set_top(true, Ghost(dp));
                    self.adv(Ghost(dp));
                }
            },
            Behavior::Jne(l) => {
                if !self.top() {
                    self.goto_label(chain, l, Ghost(dp), Ghost(pos));
                } else {
                    self.set_top(true, Ghost(dp));
                    self.adv(Ghost(dp));
                }
            },
            _ => {},
        }
    }

    /// Labels and repetition.
    #[verifier::rlimit(100)]
    fn exec_repeat<const MACHO: bool, const IMPRISONED: bool, const SIZE: usize>(
        &mut self,
        board: &Board<'a, MACHO, IMPRISONED, SIZE>,
        chain: &Vec<Behavior<'a>>,
        pos: Position,
        color: Color,
        inst: Behavior<'a>,
        Ghost(dp): Ghost<DpV>,
        Ghost(ctx): Ghost<Ctx>,
        Ghost(cd): Ghost<bool>,
    )
        requires
            SIZE == 8,
            interp_inv(old(self).view_with(dp), chain@.len() as int, pos),
            !old(self).halted,
            old(self).rip < chain@.len(),
            in_board(pos),
            color_on_v(board@, pos) == Some(color),
            behavior_wf(inst@),
            inst@ == reflect_v(chain_v(chain@)[old(self).rip as int], color),
            inst@ is Label || inst@ is Repeat,
        ensures
            final(self).view_with(dp) == exec_inst_v(
                ctx,
                board@,
                chain_v(chain@),
                pos,
                color,
                cd,
                inst@,
                old(self).view_with(dp),
            ),
            interp_inv(final(self).view_with(dp), chain@.len() as int, pos),
    {
        let len = chain.len();
        let ghost n = chain@.len() as int;
        let ghost s0 = self.view_with(dp);
        let ghost cv = chain_v(chain@);
        proof {
            lemma_reflect_shape(cv[s0.rip], color);
            assert(cv[s0.rip] == chain@[s0.rip]@);
        }
        match inst {
            Behavior::Label(_) => {
                self.adv(Ghost(dp));
            },
            Behavior::Repeat(k) => {
                self.repeat(k, Ghost(dp), Ghost(pos), Ghost(len as int));
            },


            _ => {},
        }
    }

    /// Tests of the piece, the walls and the registers of the board.
    #[verifier::rlimit(40)]
    fn exec_tests<const MACHO: bool, const IMPRISONED: bool, const SIZE: usize>(
        &mut self,
        board: &Board<'a, MACHO, IMPRISONED, SIZE>,
        chain: &Vec<Behavior<'a>>,
        pos: Position,
        color: Color,
        inst: Behavior<'a>,
        Ghost(dp): Ghost<DpV>,
        Ghost(ctx): Ghost<Ctx>,
        Ghost(cd): Ghost<bool>,
    )
        requires
            SIZE == 8,
            interp_inv(old(self).view_with(dp), chain@.len() as int, pos),
            !old(self).halted,
            old(self).rip < chain@.len(),
            in_board(pos),
            color_on_v(board@, pos) == Some(color),
            behavior_wf(inst@),
            inst@ == reflect_v(chain_v(chain@)[old(self).rip as int], color),
            inst@ is Piece || inst@ is Color || inst@ is Bound || inst@ is Edge || inst@ is Corner || inst@ is EdgeTop || inst@ is EdgeBottom || inst@ is EdgeLeft || inst@ is EdgeRight || inst@ is CornerTopLeft || inst@ is CornerTopRight || inst@ is CornerBottomLeft || inst@ is CornerBottomRight || inst@ is IfState,
        ensures
            final(self).view_with(dp) == exec_inst_v(
                ctx,
                board@,
                chain_v(chain@),
                pos,
                color,
                cd,
                inst@,
                old(self).view_with(dp),
            ),
            interp_inv(final(self).view_with(dp), chain@.len() as int, pos),
    {
        let len = chain.len();
        let ghost n = chain@.len() as int;
        let ghost s0 = self.view_with(dp);
        let ghost cv = chain_v(chain@);
        proof {
            lemma_reflect_shape(cv[s0.rip], color);
            assert(cv[s0.rip] == chain@[s0.rip]@);
        }
        match inst {
            Behavior::Piece(name) => {
                let r = match board.piece_on(&pos) {
                    Some(p) => super::text::str_eq(p, name),
                    None => false,
                };
                self.set_top(r, Ghost(dp));
                self.adv(Ghost(dp));
            },
            Behavior::Color(name) => {
                let r = match board.color_on(&pos) {
                    Some(c) => color_named(name, c),
                    None => false,
                };
                self.set_top(r, Ghost(dp));
                self.adv(Ghost(dp));
            },
            Behavior::Bound(d) => {
                let wc = wall_collision(&self.anchor(), &d, color);
                self.set_top(wc != WallCollision::NoCollision, Ghost(dp));
                self.adv(Ghost(dp));
            },
            Behavior::Edge(d) => {
                let wc = wall_collision(&self.anchor(), &d, color);
                let r = match wc {
                    WallCollision::EdgeTop => true,
                    WallCollision::EdgeBottom => true,
                    WallCollision::EdgeLeft => true,
                    WallCollision::EdgeRight => true,
                    _ => false,
                };
                self.set_top(r, Ghost(dp));
                self.adv(Ghost(dp));
            },
            Behavior::Corner(d) => {
                let wc = wall_collision(&self.anchor(), &d, color);
                let r = match wc {
                    WallCollision::CornerTopLeft => true,
                    WallCollision::CornerTopRight => true,
                    WallCollision::CornerBottomLeft => true,
                    WallCollision::CornerBottomRight => true,
                    _ => false,
                };
                self.set_top(r, Ghost(dp));
                self.adv(Ghost(dp));
            },
            Behavior::EdgeTop(d) => {
                let wc = wall_collision(&self.anchor(), &d, color);
                self.set_top(wc == WallCollision::EdgeTop, Ghost(dp));
                self.adv(Ghost(dp));
            },
            Behavior::EdgeBottom(d) => {
                let wc = wall_collision(&self.anchor(), &d, color);
                self.set_top(wc == WallCollision::EdgeBottom, Ghost(dp));
                self.adv(Ghost(dp));
            },
            Behavior::EdgeLeft(d) => {
                let wc = wall_collision(&self.anchor(), &d, color);
                self.set_top(wc == WallCollision::EdgeLeft, Ghost(dp));
                self.adv(Ghost(dp));
            },
            Behavior::EdgeRight(d) => {
                let wc = wall_collision(&self.anchor(), &d, color);
                self.set_top(wc == WallCollision::EdgeRight, Ghost(dp));
                self.adv(Ghost(dp));
            },
            Behavior::CornerTopLeft(d) => {
                let wc = wall_collision(&self.anchor(), &d, color);
                self.set_top(wc == WallCollision::CornerTopLeft, Ghost(dp));
                self.adv(Ghost(dp));
            },
            Behavior::CornerTopRight(d) => {
                let wc = wall_collision(&self.anchor(), &d, color);
                self.set_top(wc == WallCollision::CornerTopRight, Ghost(dp));
                self.adv(Ghost(dp));
            },
            Behavior::CornerBottomLeft(d) => {
                let wc = wall_collision(&self.anchor(), &d, color);
                self.set_top(wc == WallCollision::CornerBottomLeft, Ghost(dp));
                self.adv(Ghost(dp));
            },
            Behavior::CornerBottomRight(d) => {
                let wc = wall_collision(&self.anchor(), &d, color);
                self.set_top(wc == WallCollision::CornerBottomRight, Ghost(dp));
                self.adv(Ghost(dp));
            },
            Behavior::IfState((key, v)) => {
                match board.color_on(&pos) {
                    Some(Color::White) => {
                        let r = board.board_state.white.get_register(key);
                        self.set_top(r == v, Ghost(dp));
                    },
                    Some(Color::Black) => {
                        let r = board.board_state.black.get_register(key);
                        self.set_top(r == v, Ghost(dp));
                    },
                    None => {},
                }
                self.adv(Ghost(dp));
            },
            _ => {},
        }
    }

    /// The pending move data, the state bits and the anchor registers.
    #[verifier::rlimit(40)]
    fn exec_regs<const MACHO: bool, const IMPRISONED: bool, const SIZE: usize>(
        &mut self,
        board: &Board<'a, MACHO, IMPRISONED, SIZE>,
        chain: &Vec<Behavior<'a>>,
        pos: Position,
        color: Color,
        inst: Behavior<'a>,
        Ghost(dp): Ghost<DpV>,
        Ghost(ctx): Ghost<Ctx>,
        Ghost(cd): Ghost<bool>,
    )
        requires
            SIZE == 8,
            interp_inv(old(self).view_with(dp), chain@.len() as int, pos),
            !old(self).halted,
            old(self).rip < chain@.len(),
            in_board(pos),
            color_on_v(board@, pos) == Some(color),
            behavior_wf(inst@),
            inst@ == reflect_v(chain_v(chain@)[old(self).rip as int], color),
            inst@ is SetState || inst@ is Transition || inst@ is Not || inst@ is True || inst@ is False || inst@ is ReadAnd || inst@ is ReadOr || inst@ is ReadXor || inst@ is Read || inst@ is Write || inst@ is AbsoulteX || inst@ is AbsoulteY || inst@ is Absoulte || inst@ is ReadAnchor || inst@ is WriteAnchor,
        ensures
            final(self).view_with(dp) == exec_inst_v(
                ctx,
                board@,
                chain_v(chain@),
                pos,
                color,
                cd,
                inst@,
                old(self).view_with(dp),
            ),
            interp_inv(final(self).view_with(dp), chain@.len() as int, pos),
    {
        let len = chain.len();
        let ghost n = chain@.len() as int;
        let ghost s0 = self.view_with(dp);
        let ghost cv = chain_v(chain@);
        proof {
            lemma_reflect_shape(cv[s0.rip], color);
            assert(cv[s0.rip] == chain@[s0.rip]@);
        }
        match inst {
            Behavior::SetState((key, v)) => {
                let old_sc = self.state_change.take();
                match old_sc {
                    Some(mut w) => {
                        let ghost w0 = w@;
                        w.push((key, v));
                        assert(super::pairs_v(w@) =~= super::pairs_v(w0).push((key@, v)));
                        self.state_change = Some(w);
                    },
                    None => {
                        let w = vec![(key, v)];
                        assert(super::pairs_v(w@) =~= seq![(key@, v)]);
                        self.state_change = Some(w);
                    },
                }
                self.adv(Ghost(dp));
            },
            Behavior::Transition(name) => {
                if name.unicode_len() == 0 {
                    self.transition = None;
                } else {
                    self.transition = Some(name);
                }
                self.adv(Ghost(dp));
            },
            Behavior::Not => {
                let t = self.top();
                self.set_top(!t, Ghost(dp));
                self.adv(Ghost(dp));
            },
            Behavior::True => {
                self.set_top(true, Ghost(dp));
                self.adv(Ghost(dp));
            },
            Behavior::False => {
                self.set_top(false, Ghost(dp));
                self.adv(Ghost(dp));
            },
            Behavior::ReadAnd(i) => {
                if i >= 16 {
                    self.fail(Ghost(dp));
                } else {
                    let t = self.top();
                    self.set_top(t && (self.value_array & (1u16 << i)) != 0, Ghost(dp));
                    self.adv(Ghost(dp));
                }
            },
            Behavior::ReadOr(i) => {
                if i >= 16 {
                    self.fail(Ghost(dp));
                } else {
                    let t = self.top();
                    self.set_top(t || (self.value_array & (1u16 << i)) != 0, Ghost(dp));
                    self.adv(Ghost(dp));
                }
            },
            Behavior::ReadXor(i) => {
                if i >= 16 {
                    self.fail(Ghost(dp));
                } else {
                    let t = self.top();
                    self.set_top(t != ((self.value_array & (1u16 << i)) != 0), Ghost(dp));
                    self.adv(Ghost(dp));
                }
            },
            Behavior::Read(i) => {
                if i >= 16 {
                    self.fail(Ghost(dp));
                } else {
                    self.set_top((self.value_array & (1u16 << i)) != 0, Ghost(dp));
                    self.adv(Ghost(dp));
                }
            },
            Behavior::Write(i) => {
                if i >= 16 {
                    self.fail(Ghost(dp));
                } else {
                    if self.top() {
                        self.value_array = self.value_array | (1u16 << i);
                    } else {
                        self.value_array = self.value_array & !(1u16 << i);
                    }
                    self.set_top(true, Ghost(dp));
                    self.adv(Ghost(dp));
                }
            },
            Behavior::AbsoulteX(x) => {
                if x < 8 {
                    let a = self.anchor();
                    self.set_anchor((x, a.1), Ghost(dp));
                    self.adv(Ghost(dp));
                } else {
                    self.fail(Ghost(dp));
                }
            },
            Behavior::AbsoulteY(y) => {
                if y < 8 {
                    let a = self.anchor();
                    self.set_anchor((a.0, y), Ghost(dp));
                    self.adv(Ghost(dp));
                } else {
                    self.fail(Ghost(dp));
                }
            },
            Behavior::Absoulte(p) => {
                if p.0 < 8 && p.1 < 8 {
                    self.set_anchor(p, Ghost(dp));
                    self.adv(Ghost(dp));
                } else {
                    self.fail(Ghost(dp));
                }
            },
            Behavior::ReadAnchor(i) => {
                if i < 16 {
                    let p = self.anchors[i as usize];
                    self.set_anchor(p, Ghost(dp));
                    self.adv(Ghost(dp));
                } else {
                    self.fail(Ghost(dp));
                }
            },
            Behavior::WriteAnchor(i) => {
                if i < 16 {
                    let a = self.anchor();
                    self.anchors.set(i as usize, a);
                    self.adv(Ghost(dp));
                } else {
                    self.fail(Ghost(dp));
                }
            },

            _ => {},
        }
    }

    /// Every instruction but `danger`, on a board that stays as it is.
    fn exec_plain<const MACHO: bool, const IMPRISONED: bool, const SIZE: usize>(
        &mut self,
        board: &Board<'a, MACHO, IMPRISONED, SIZE>,
        chain: &Vec<Behavior<'a>>,
        pos: Position,
        color: Color,
        inst: Behavior<'a>,
        Ghost(dp): Ghost<DpV>,
        Ghost(ctx): Ghost<Ctx>,
        Ghost(cd): Ghost<bool>,
    )
        requires
            SIZE == 8,
            interp_inv(old(self).view_with(dp), chain@.len() as int, pos),
            !old(self).halted,
            old(self).rip < chain@.len(),
            in_board(pos),
            color_on_v(board@, pos) == Some(color),
            behavior_wf(inst@),
            inst@ == reflect_v(chain_v(chain@)[old(self).rip as int], color),
            !(inst@ is Danger),
        ensures
            final(self).view_with(dp) == exec_inst_v(
                ctx,
                board@,
                chain_v(chain@),
                pos,
                color,
                cd,
                inst@,
                old(self).view_with(dp),
            ),
            interp_inv(final(self).view_with(dp), chain@.len() as int, pos),
    {
        match inst {
            Behavior::TakeMove(..) | Behavior::Take(..) | Behavior::Catch(..) | Behavior::Move(..) | Behavior::Jump(..) | Behavior::Peek(..) | Behavior::Observe(..) | Behavior::Enemy(..) | Behavior::Friendly(..) | Behavior::PieceOn(..) | Behavior::ColorOn(..) | Behavior::Anchor(..) | Behavior::Shift(..) => {
                self.exec_motion(board, chain, pos, color, inst, Ghost(dp), Ghost(ctx), Ghost(cd));
            },
            Behavior::BlockOpen | Behavior::BlockClose | Behavior::Do | Behavior::While => {
                self.exec_flow(board, chain, pos, color, inst, Ghost(dp), Ghost(ctx), Ghost(cd));
            },
            Behavior::Jmp(..) | Behavior::Jne(..) => {
                self.exec_jumps(board, chain, pos, color, inst, Ghost(dp), Ghost(ctx), Ghost(cd));
            },
            Behavior::Label(..) | Behavior::Repeat(..) => {
                self.exec_repeat(board, chain, pos, color, inst, Ghost(dp), Ghost(ctx), Ghost(cd));
            },
            Behavior::Piece(..) | Behavior::Color(..) | Behavior::Bound(..) | Behavior::Edge(..) | Behavior::Corner(..) | Behavior::EdgeTop(..) | Behavior::EdgeBottom(..) | Behavior::EdgeLeft(..) | Behavior::EdgeRight(..) | Behavior::CornerTopLeft(..) | Behavior::CornerTopRight(..) | Behavior::CornerBottomLeft(..) | Behavior::CornerBottomRight(..) | Behavior::IfState(..) => {
                self.exec_tests(board, chain, pos, color, inst, Ghost(dp), Ghost(ctx), Ghost(cd));
            },
            Behavior::SetState(..) | Behavior::Transition(..) | Behavior::Not | Behavior::True | Behavior::False | Behavior::ReadAnd(..) | Behavior::ReadOr(..) | Behavior::ReadXor(..) | Behavior::Read(..) | Behavior::Write(..) | Behavior::AbsoulteX(..) | Behavior::AbsoulteY(..) | Behavior::Absoulte(..) | Behavior::ReadAnchor(..) | Behavior::WriteAnchor(..) => {
                self.exec_regs(board, chain, pos, color, inst, Ghost(dp), Ghost(ctx), Ghost(cd));
            },
            _ => {
                self.halt(Ghost(dp));
            },
        }
    }
}

impl<'a> Interp<'a> {
    /// Jumps to the first `label(l)`, or stops when there is none.
    fn goto_label(&mut self, chain: &Vec<Behavior<'a>>, l: u8, Ghost(dp): Ghost<DpV>, Ghost(pos): Ghost<Position>)
        requires
            interp_inv(old(self).view_with(dp), chain@.len() as int, pos),
        ensures
            final(self).view_with(dp) == (match find_label(chain_v(chain@), l) {
                Some(i) => InterpV { rip: i, ..old(self).view_with(dp) },
                None => halt(old(self).view_with(dp)),
            }),
            interp_inv(final(self).view_with(dp), chain@.len() as int, pos),
    {
        match find_label_in(chain, l) {
            Some(i) => {
                self.rip = i;
            },
            None => {
                self.halt(Ghost(dp));
            },
        }
    }

    /// `repeat(k)`: back `k` instructions, or stop.
    fn repeat(&mut self, k: i8, Ghost(dp): Ghost<DpV>, Ghost(pos): Ghost<Position>, Ghost(n): Ghost<int>)
        requires
            interp_inv(old(self).view_with(dp), n, pos),
        ensures
            final(self).view_with(dp) == (if k <= 0 || k > old(self).rip {
                halt(old(self).view_with(dp))
            } else {
                InterpV { rip: old(self).rip - k, ..old(self).view_with(dp) }
            }),
            interp_inv(final(self).view_with(dp), n, pos),
    {
        if k <= 0 || (k as usize) > self.rip {
            self.halt(Ghost(dp));
        } else {
            self.rip = self.rip - (k as usize);
        }
    }
}

/// The state after `danger(d)` when attacked squares are looked at.
pub open spec fn danger_step(ctx: Ctx, b: super::semantics::BoardV, color: Color, d: DeltaPosition, s: InterpV) -> InterpV {
    if wall_v(anchor(s), d, color) != WallCollision::NoCollision {
        fail(s)
    } else {
        let (bits, dp2) = super::semantics::danger_bits_v(ctx, b, s.dp, color);
        InterpV { dp: dp2, ..set_top(s, super::semantics::bit_at(bits, moved(anchor(s), d))) }
    }
}

/// The board keeps its squares, side states and script, and stays well formed.
pub open spec fn same_position<'a, const MACHO: bool, const IMPRISONED: bool, const SIZE: usize>(
    b0: Board<'a, MACHO, IMPRISONED, SIZE>,
    b1: Board<'a, MACHO, IMPRISONED, SIZE>,
) -> bool {
    &&& b1@ == b0@
    &&& b1.script == b0.script
    &&& b1.wf()
}

impl<'a> Interp<'a> {
    fn exec_danger<const MACHO: bool, const IMPRISONED: bool, const SIZE: usize>(
        &mut self,
        board: &mut Board<'a, MACHO, IMPRISONED, SIZE>,
        pos: Position,
        color: Color,
        d: DeltaPosition,
        Ghost(n): Ghost<int>,
    )
        requires
            old(board).wf(),
            interp_inv(old(self).view_with(old(board).dp_v()), n, pos),
            !old(self).halted,
            old(self).rip < n <= usize::MAX,
            delta_ok(d),
        ensures
            final(self).view_with(final(board).dp_v()) == danger_step(
                old(board).ctx(),
                old(board)@,
                color,
                d,
                old(self).view_with(old(board).dp_v()),
            ),
            interp_inv(final(self).view_with(final(board).dp_v()), n, pos),
            same_position(*old(board), *final(board)),
        decreases 1int, 0int, 2int,
    {
        let ghost dp = board.dp_v();
        let a = self.anchor();
        let wc = wall_collision(&a, &d, color);
        if wc != WallCollision::NoCollision {
            self.fail(Ghost(dp));
            return;
        }
        proof {
            lemma_wall_color(a, d, color);
        }
        let a2 = moved_by(&a, &d);
        let script = board.script;
        let r = script.is_danger(board, &a2, color);
        let ghost dp2 = board.dp_v();
        assert(self.view_with(dp2) == InterpV { dp: dp2, ..self.view_with(dp) });
        self.set_top(r, Ghost(dp2));
    }

    fn exec_inst<const MACHO: bool, const IMPRISONED: bool, const SIZE: usize>(
        &mut self,
        board: &mut Board<'a, MACHO, IMPRISONED, SIZE>,
        chain: &Vec<Behavior<'a>>,
        pos: Position,
        color: Color,
        cd: bool,
        inst: Behavior<'a>,
    )
        requires
            old(board).wf(),
            interp_inv(old(self).view_with(old(board).dp_v()), chain@.len() as int, pos),
            !old(self).halted,
            old(self).rip < chain@.len(),
            in_board(pos),
            color_on_v(old(board)@, pos) == Some(color),
            behavior_wf(inst@),
            inst@ == reflect_v(chain_v(chain@)[old(self).rip as int], color),
        ensures
            final(self).view_with(final(board).dp_v()) == exec_inst_v(
                old(board).ctx(),
                old(board)@,
                chain_v(chain@),
                pos,
                color,
                cd,
                inst@,
                old(self).view_with(old(board).dp_v()),
            ),
            interp_inv(final(self).view_with(final(board).dp_v()), chain@.len() as int, pos),
            same_position(*old(board), *final(board)),
        decreases (if cd { 1int } else { 0int }), 1int, 0int,
    {
        let ghost dp = board.dp_v();
        let len = chain.len();
        match inst {
            Behavior::Danger(d) => {
                if !cd {
                    self.set_top(false, Ghost(dp));
                } else {
                    self.exec_danger(board, pos, color, d, Ghost(chain@.len() as int));
                }
            },
            _ => {
                self.exec_plain(&*board, chain, pos, color, inst, Ghost(dp), Ghost(board.ctx()), Ghost(cd));
            },
        }
    }

    fn step<const MACHO: bool, const IMPRISONED: bool, const SIZE: usize>(
        &mut self,
        board: &mut Board<'a, MACHO, IMPRISONED, SIZE>,
        chain: &Vec<Behavior<'a>>,
        pos: Position,
        color: Color,
        cd: bool,
    )
        requires
            old(board).wf(),
            interp_inv(old(self).view_with(old(board).dp_v()), chain@.len() as int, pos),
            !old(self).halted,
            old(self).rip < chain@.len(),
            in_board(pos),
            color_on_v(old(board)@, pos) == Some(color),
            forall|i: int| 0 <= i < chain@.len() ==> behavior_wf(#[trigger] chain@[i]@),
        ensures
            final(self).view_with(final(board).dp_v()) == step_v(
                old(board).ctx(),
                old(board)@,
                chain_v(chain@),
                pos,
                color,
                cd,
                old(self).view_with(old(board).dp_v()),
            ),
            interp_inv(final(self).view_with(final(board).dp_v()), chain@.len() as int, pos),
            same_position(*old(board), *final(board)),
        decreases (if cd { 1int } else { 0int }), 2int, 0int,
    {
        let ghost dp = board.dp_v();
        let ghost cv = chain_v(chain@);
        assert(cv[self.rip as int] == chain@[self.rip as int]@);
        let ctl = is_control_inst(&chain[self.rip]);
        let t = self.top();
        if !t && !ctl {
            if self.stack.len() > 1 {
                self.rip = self.stack[self.stack.len() - 1].1;
            } else {
                self.halt(Ghost(dp));
                return;
            }
        }
        if self.rip >= chain.len() {
            self.halt(Ghost(dp));
            return;
        }
        assert(cv[self.rip as int] == chain@[self.rip as int]@);
        let inst = chain[self.rip].reflect_turn(color);
        proof {
            lemma_reflect_wf(chain@[self.rip as int]@, color);
        }
        self.exec_inst(board, chain, pos, color, cd, inst);
    }
}

impl<'a> ChessemblyCompiled<'a> {
    /// Runs one chain for the piece on `pos`, adding to `nodes`.
    fn run_chain<const MACHO: bool, const IMPRISONED: bool, const SIZE: usize>(
        board: &mut Board<'a, MACHO, IMPRISONED, SIZE>,
        chain: &Vec<Behavior<'a>>,
        pos: Position,
        color: Color,
        cd: bool,
        nodes: Vec<ChessMove<'a>>,
    ) -> (r: Vec<ChessMove<'a>>)
        requires
            old(board).wf(),
            in_board(pos),
            color_on_v(old(board)@, pos) == Some(color),
            forall|i: int| 0 <= i < chain@.len() ==> behavior_wf(#[trigger] chain@[i]@),
            moves_wf_from(moves_v(nodes@), pos),
        ensures
            ({
                let s = run_v(
                    old(board).ctx(),
                    old(board)@,
                    chain_v(chain@),
                    pos,
                    color,
                    cd,
                    init_state(pos, chain@.len() as usize, moves_v(nodes@), old(board).dp_v()),
                    0,
                );
                moves_v(r@) == s.nodes && final(board).dp_v() == s.dp
            }),
            moves_wf_from(moves_v(r@), pos),
            same_position(*old(board), *final(board)),
        decreases (if cd { 1int } else { 0int }), 3int, 0int,
    {
        let ghost ctx = board.ctx();
        let ghost b = board@;
        let ghost cv = chain_v(chain@);
        let len = chain.len();
        let mut it = Interp::new(pos, len, nodes);
        let ghost target = run_v(ctx, b, cv, pos, color, cd, it.view_with(board.dp_v()), 0);
        let mut loops: usize = 0;
        while !it.halted && it.rip < chain.len() && loops < 1000
            invariant
                board.wf(),
                same_position(*old(board), *board),
                ctx == board.ctx(),
                b == board@,
                cv == chain_v(chain@),
                len == chain@.len(),
                in_board(pos),
                color_on_v(b, pos) == Some(color),
                forall|i: int| 0 <= i < chain@.len() ==> behavior_wf(#[trigger] chain@[i]@),
                loops <= 1000,
                interp_inv(it.view_with(board.dp_v()), len as int, pos),
                run_v(ctx, b, cv, pos, color, cd, it.view_with(board.dp_v()), loops as int) == target,
            decreases 1000 - loops,
        {
            it.step(board, chain, pos, color, cd);
            loops += 1;
        }
        it.nodes
    }

    /// Runs every chain of this script for the piece on `position`, in order,
    /// collecting the moves they find; `check_danger` says whether `danger`
    /// looks at attacked squares.
    pub fn generate_moves<const MACHO: bool, const IMPRISONED: bool, const SIZE: usize>(
        &self,
        board: &mut Board<'a, MACHO, IMPRISONED, SIZE>,
        position: &Position,
        check_danger: bool,
    ) -> (r: Result<Vec<ChessMove<'a>>, ()>)
        requires
            old(board).wf(),
            self.wf(),
            color_on_v(old(board)@, *position) is Some,
        ensures
            r matches Ok(v) && moves_v(v@) == gen_script_v(
                old(board).ctx(),
                old(board)@,
                old(board).dp_v(),
                *position,
                check_danger,
                self@,
            ).0,
            final(board).dp_v() == gen_script_v(
                old(board).ctx(),
                old(board)@,
                old(board).dp_v(),
                *position,
                check_danger,
                self@,
            ).1,
            r matches Ok(v) && moves_wf_from(moves_v(v@), *position),
            same_position(*old(board), *final(board)),
        decreases (if check_danger { 1int } else { 0int }), 5int, 0int,
    {
        let ghost ctx = board.ctx();
        let ghost b = board@;
        let ghost sc = self@;
        let mut nodes: Vec<ChessMove<'a>> = Vec::new();
        assert(moves_v(nodes@) =~= seq![]);
        let piece_color = board.color_on(position).unwrap();
        let pos = *position;
        let ghost target = chains_v(ctx, b, sc, pos, piece_color, check_danger, seq![], board.dp_v(), 0);
        let mut c: usize = 0;
        while c < self.chains.len()
            invariant
                board.wf(),
                same_position(*old(board), *board),
                ctx == board.ctx(),
                b == board@,
                sc == self@,
                self.wf(),
                c <= self.chains@.len(),
                in_board(pos),
                color_on_v(b, pos) == Some(piece_color),
                moves_wf_from(moves_v(nodes@), pos),
                chains_v(ctx, b, sc, pos, piece_color, check_danger, moves_v(nodes@), board.dp_v(), c as int) == target,
            decreases self.chains@.len() - c,
        {
            let chain = &self.chains[c];
            assert(sc[c as int] == chain_v(chain@));
            assert forall|i: int| 0 <= i < chain@.len() implies behavior_wf(#[trigger] chain@[i]@) by {
                assert(sc[c as int][i] == chain@[i]@);
            }
            nodes = Self::run_chain(board, chain, pos, piece_color, check_danger, nodes);
            c += 1;
        }
        Ok(nodes)
    }
}

} // verus!
