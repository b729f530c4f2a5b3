//! The meaning of boards, scripts and move generation, as mathematical
//! functions. The executable code in the sibling modules is proved to compute
//! exactly these values.
use vstd::prelude::*;

use super::behavior::{behavior_wf, reflect_v, script_text_v, BehaviorV};
use super::board::BoardStatus;
use super::{
    first_unit, invert_v, move_dest, move_source, move_take, CellV, Color, DeltaPosition, MoveType,
    MoveV, PieceV, Position, UnitV,
};

verus! {

/// Where a displaced anchor lands relative to the board's walls, as seen from
/// the mover's side.
#[derive(Clone, Copy, Debug, PartialEq, Eq, Structural)]
pub enum WallCollision {
    EdgeTop,
    EdgeBottom,
    EdgeLeft,
    EdgeRight,
    CornerTopLeft,
    CornerTopRight,
    CornerBottomLeft,
    CornerBottomRight,
    NoCollision,
}

/// One side's state.
pub struct SideV {
    pub castling_oo: bool,
    pub castling_ooo: bool,
    pub enpassant: Seq<Position>,
    pub register: Seq<(Seq<char>, u8)>,
}

/// A position: `cells[y][x]` is the square (x, y).
pub struct BoardV {
    pub cells: Seq<Seq<CellV>>,
    pub white: SideV,
    pub black: SideV,
    pub turn: Color,
    pub status: BoardStatus,
}

/// A move cache: (square, moves) entries; the first entry of a square counts.
pub type DpV = Seq<(Position, Seq<MoveV>)>;

/// A script: chains of instructions.
pub type ScriptV = Seq<Seq<BehaviorV>>;

/// What stays fixed while moves are generated: the variant flags and the
/// board's own script.
pub struct Ctx {
    pub macho: bool,
    pub impr: bool,
    pub bs: ScriptV,
}

// ---------------------------------------------------------------------------
// First matching element
// ---------------------------------------------------------------------------

/// The index of the first element of `s` satisfying `f`.
#[verifier::opaque]
pub open spec fn first_where<A>(s: Seq<A>, f: spec_fn(A) -> bool) -> Option<int> {
    if exists|i: int| 0 <= i < s.len() && f(#[trigger] s[i]) {
        Some(
            choose|i: int|
                0 <= i < s.len() && f(#[trigger] s[i]) && forall|j: int| 0 <= j < i ==> !f(#[trigger] s[j]),
        )
    } else {
        None
    }
}

proof fn lemma_first_exists<A>(s: Seq<A>, f: spec_fn(A) -> bool, k: int)
    requires
        0 <= k <= s.len(),
        forall|j: int| 0 <= j < k ==> !f(#[trigger] s[j]),
        exists|i: int| 0 <= i < s.len() && f(#[trigger] s[i]),
    ensures
        exists|i: int| 0 <= i < s.len() && f(#[trigger] s[i]) && forall|j: int| 0 <= j < i ==> !f(#[trigger] s[j]),
    decreases s.len() - k,
{
    if k < s.len() {
        if f(s[k]) {
            assert(0 <= k < s.len() && f(s[k]) && forall|j: int| 0 <= j < k ==> !f(#[trigger] s[j]));
        } else {
            lemma_first_exists(s, f, k + 1);
        }
    } else {
        let i = choose|i: int| 0 <= i < s.len() && f(#[trigger] s[i]);
        assert(!f(s[i]));
    }
}

/// What `first_where` returns: the first satisfying index, or `None` when
/// no element satisfies `f`.
pub proof fn lemma_first_where<A>(s: Seq<A>, f: spec_fn(A) -> bool)
    ensures
        first_where(s, f) matches Some(i) ==> 0 <= i < s.len() && f(s[i]) && forall|j: int|
            0 <= j < i ==> !f(#[trigger] s[j]),
        first_where(s, f) is None ==> forall|i: int| 0 <= i < s.len() ==> !f(#[trigger] s[i]),
{
    reveal(first_where);
    if exists|i: int| 0 <= i < s.len() && f(#[trigger] s[i]) {
        lemma_first_exists(s, f, 0);
    }
}

/// `k` is the first satisfying index.
pub proof fn lemma_first_where_at<A>(s: Seq<A>, f: spec_fn(A) -> bool, k: int)
    requires
        0 <= k < s.len(),
        f(s[k]),
        forall|j: int| 0 <= j < k ==> !f(#[trigger] s[j]),
    ensures
        first_where(s, f) == Some(k),
{
    lemma_first_where(s, f);
    let i = first_where(s, f)->0;
    if i < k {
        assert(!f(s[i]));
    }
    if k < i {
        assert(!f(s[k]));
    }
}

// ---------------------------------------------------------------------------
// Squares
// ---------------------------------------------------------------------------

pub open spec fn cell_v(b: BoardV, p: Position) -> CellV {
    b.cells[p.1 as int][p.0 as int]
}

/// The side of the piece on `p`, on a board `n` squares wide and high.
pub open spec fn color_on_sized(b: BoardV, n: int, p: Position) -> Option<Color> {
    if p.0 >= n || p.1 >= n {
        None
    } else {
        match cell_v(b, p) {
            CellV::Piece(pc) => Some(pc.color),
            CellV::Empty => None,
        }
    }
}

/// The name of the piece on `p`, on a board `n` squares wide and high.
pub open spec fn piece_on_sized(b: BoardV, n: int, p: Position) -> Option<Seq<char>> {
    if p.0 >= n || p.1 >= n {
        None
    } else {
        match cell_v(b, p) {
            CellV::Piece(pc) => Some(pc.piece_type),
            CellV::Empty => None,
        }
    }
}

pub open spec fn color_on_v(b: BoardV, p: Position) -> Option<Color> {
    if p.0 > 7 || p.1 > 7 {
        None
    } else {
        match cell_v(b, p) {
            CellV::Piece(pc) => Some(pc.color),
            CellV::Empty => None,
        }
    }
}

pub open spec fn piece_on_v(b: BoardV, p: Position) -> Option<Seq<char>> {
    if p.0 > 7 || p.1 > 7 {
        None
    } else {
        match cell_v(b, p) {
            CellV::Piece(pc) => Some(pc.piece_type),
            CellV::Empty => None,
        }
    }
}

pub open spec fn side_v(b: BoardV, c: Color) -> SideV {
    if c == Color::White {
        b.white
    } else {
        b.black
    }
}

/// The wall hit when moving `anchor` by `d` (`dy` counts upwards).
pub open spec fn wall_v(anchor: Position, d: DeltaPosition, color: Color) -> WallCollision {
    let a0 = anchor.0 as int + d.0 as int;
    let a1 = anchor.1 as int - d.1 as int;
    let w = color == Color::White;
    if a0 < 0 && a1 < 0 {
        if w { WallCollision::CornerTopLeft } else { WallCollision::CornerBottomRight }
    } else if a0 >= 8 && a1 < 0 {
        if w { WallCollision::CornerTopRight } else { WallCollision::CornerBottomLeft }
    } else if a0 < 0 && a1 >= 8 {
        if w { WallCollision::CornerBottomLeft } else { WallCollision::CornerTopRight }
    } else if (a0 == 8 && a1 == 8) || (a0 > 8 && a1 > 8) {
        if w { WallCollision::CornerBottomRight } else { WallCollision::CornerTopLeft }
    } else if a0 < 0 {
        if w { WallCollision::EdgeLeft } else { WallCollision::EdgeRight }
    } else if a0 >= 8 {
        if w { WallCollision::EdgeRight } else { WallCollision::EdgeLeft }
    } else if a1 < 0 {
        if w { WallCollision::EdgeTop } else { WallCollision::EdgeBottom }
    } else if a1 >= 8 {
        if w { WallCollision::EdgeBottom } else { WallCollision::EdgeTop }
    } else {
        WallCollision::NoCollision
    }
}

/// `anchor` moved by `d`.
pub open spec fn moved(anchor: Position, d: DeltaPosition) -> Position {
    ((anchor.0 as int + d.0 as int) as u8, (anchor.1 as int - d.1 as int) as u8)
}

pub proof fn lemma_no_collision_in_board(anchor: Position, d: DeltaPosition, color: Color)
    requires
        wall_v(anchor, d, color) == WallCollision::NoCollision,
    ensures
        anchor.0 as int + d.0 as int >= 0,
        anchor.0 as int + d.0 as int <= 7,
        anchor.1 as int - d.1 as int >= 0,
        anchor.1 as int - d.1 as int <= 7,
        super::in_board(moved(anchor, d)),
        moved(anchor, d).0 as int == anchor.0 as int + d.0 as int,
        moved(anchor, d).1 as int == anchor.1 as int - d.1 as int,
{
}

/// A move unit of the generators that take, promote or change state.
pub open spec fn unit_v(
    from: Position,
    take: Position,
    move_to: Position,
    t: MoveType,
    sc: Option<Seq<(Seq<char>, u8)>>,
    tr: Option<Seq<char>>,
) -> UnitV {
    UnitV { from, take, move_to, move_type: t, state_change: sc, transition: tr }
}

// ---------------------------------------------------------------------------
// Lists of moves and the move cache
// ---------------------------------------------------------------------------

/// `s` without element `i`, the last element taking its place (`Vec::swap_remove`).
pub open spec fn swap_remove_v<A>(s: Seq<A>, i: int) -> Seq<A> {
    s.update(i, s.last()).drop_last()
}

/// A move with the same destination and captured square as `u`.
pub open spec fn same_target(u: UnitV) -> spec_fn(MoveV) -> bool {
    |m: MoveV| move_dest(m) == u.move_to && move_take(m) == u.take
}

/// The first move whose destination and captured square are those of `u`.
pub open spec fn same_target_index(nodes: Seq<MoveV>, u: UnitV) -> Option<int> {
    first_where(nodes, same_target(u))
}

/// Adds `u`, replacing (by swap-removal) the first move with the same
/// destination and captured square.
pub open spec fn push_node_v(nodes: Seq<MoveV>, u: UnitV) -> Seq<MoveV> {
    match same_target_index(nodes, u) {
        Some(i) => swap_remove_v(nodes, i).push(MoveV::Single(u)),
        None => nodes.push(MoveV::Single(u)),
    }
}

pub open spec fn at_square(p: Position) -> spec_fn((Position, Seq<MoveV>)) -> bool {
    |e: (Position, Seq<MoveV>)| e.0 == p
}

/// The cached moves of square `p` (its first entry).
pub open spec fn dp_lookup(dp: DpV, p: Position) -> Option<Seq<MoveV>> {
    match first_where(dp, at_square(p)) {
        Some(i) => Some(dp[i].1),
        None => None,
    }
}

/// Caches `m` for `p`, replacing an earlier entry of `p`.
pub open spec fn dp_insert(dp: DpV, p: Position, m: Seq<MoveV>) -> DpV {
    match first_where(dp, at_square(p)) {
        Some(i) => dp.update(i, (p, m)),
        None => dp.push((p, m)),
    }
}

/// Every cached move is well formed and starts at its entry's square.
pub open spec fn dp_wf(dp: DpV) -> bool {
    forall|i: int| #![trigger dp[i]] 0 <= i < dp.len() ==> super::moves_wf_from(dp[i].1, dp[i].0)
}

pub proof fn lemma_dp_insert_wf(dp: DpV, p: Position, m: Seq<MoveV>)
    requires
        dp_wf(dp),
        super::moves_wf_from(m, p),
    ensures
        dp_wf(dp_insert(dp, p, m)),
{
    lemma_first_where(dp, at_square(p));
    let d2 = dp_insert(dp, p, m);
    assert forall|k: int| #![trigger d2[k]] 0 <= k < d2.len() implies super::moves_wf_from(d2[k].1, d2[k].0) by {
        match first_where(dp, at_square(p)) {
            Some(i) => if k != i {
                assert(d2[k] == dp[k]);
            },
            None => if k < dp.len() {
                assert(d2[k] == dp[k]);
            },
        }
    }
}

pub open spec fn at_key(key: Seq<char>) -> spec_fn((Seq<char>, u8)) -> bool {
    |e: (Seq<char>, u8)| e.0 == key
}

/// Register `key` (0 when unset).
pub open spec fn reg_get(reg: Seq<(Seq<char>, u8)>, key: Seq<char>) -> u8 {
    match first_where(reg, at_key(key)) {
        Some(i) => reg[i].1,
        None => 0,
    }
}

/// Register `key` set to `v`, replacing an earlier value.
pub open spec fn reg_set(reg: Seq<(Seq<char>, u8)>, key: Seq<char>, v: u8) -> Seq<(Seq<char>, u8)> {
    match first_where(reg, at_key(key)) {
        Some(i) => reg.update(i, (key, v)),
        None => reg.push((key, v)),
    }
}

// ---------------------------------------------------------------------------
// Applying a move to the squares
// ---------------------------------------------------------------------------

pub open spec fn set_cell_v(b: BoardV, p: Position, c: CellV) -> BoardV {
    BoardV { cells: b.cells.update(p.1 as int, b.cells[p.1 as int].update(p.0 as int, c)), ..b }
}

pub open spec fn swap_cells_v(b: BoardV, y: u8, x1: u8, x2: u8) -> BoardV {
    let c1 = cell_v(b, (x1, y));
    let c2 = cell_v(b, (x2, y));
    set_cell_v(set_cell_v(b, (x1, y), c2), (x2, y), c1)
}

/// The piece `tr` names, of the side of the piece on `from` (white if empty);
/// or the content of `from` itself when there is no transition.
pub open spec fn arriving_v(b: BoardV, from: Position, tr: Option<Seq<char>>) -> CellV {
    match tr {
        Some(name) => CellV::Piece(
            PieceV {
                piece_type: name,
                color: match cell_v(b, from) {
                    CellV::Empty => Color::White,
                    CellV::Piece(pc) => pc.color,
                },
            },
        ),
        None => cell_v(b, from),
    }
}

/// One state change of a unit, applied for the side to move.
pub open spec fn apply_state_change_v(b: BoardV, key: Seq<char>, n: u8, move_to: Position) -> BoardV {
    if key == "castling-oo"@ {
        if b.turn == Color::White {
            BoardV { white: SideV { castling_oo: n > 0, ..b.white }, ..b }
        } else {
            BoardV { black: SideV { castling_oo: n > 0, ..b.black }, ..b }
        }
    } else if key == "castling-ooo"@ {
        if b.turn == Color::White {
            BoardV { white: SideV { castling_ooo: n > 0, ..b.white }, ..b }
        } else {
            BoardV { black: SideV { castling_ooo: n > 0, ..b.black }, ..b }
        }
    } else if key == "en-passant"@ {
        if b.turn == Color::White {
            BoardV { black: SideV { enpassant: b.black.enpassant.push(move_to), ..b.black }, ..b }
        } else {
            BoardV { white: SideV { enpassant: b.white.enpassant.push(move_to), ..b.white }, ..b }
        }
    } else {
        b
    }
}

pub open spec fn apply_state_changes_v(b: BoardV, sc: Seq<(Seq<char>, u8)>, move_to: Position) -> BoardV
    decreases sc.len(),
{
    if sc.len() == 0 {
        b
    } else {
        apply_state_change_v(
            apply_state_changes_v(b, sc.drop_last(), move_to),
            sc.last().0,
            sc.last().1,
            move_to,
        )
    }
}

/// The squares after one unit, before its state changes.
pub open spec fn move_cells_v(b: BoardV, u: UnitV) -> BoardV {
    if u.move_type == MoveType::Castling {
        let b1 = swap_cells_v(b, u.move_to.1, u.move_to.0, u.from.0);
        if u.from.0 < u.move_to.0 {
            swap_cells_v(b1, u.move_to.1, 7, 5)
        } else if u.from.0 > u.move_to.0 {
            swap_cells_v(b1, u.move_to.1, 0, 3)
        } else {
            b1
        }
    } else if u.move_type == MoveType::Shift {
        let shifter = arriving_v(b, u.from, u.transition);
        let b1 = set_cell_v(b, u.from, cell_v(b, u.move_to));
        set_cell_v(b1, u.move_to, shifter)
    } else {
        let b1 = set_cell_v(b, u.take, CellV::Empty);
        let b2 = set_cell_v(b1, u.move_to, arriving_v(b1, u.from, u.transition));
        set_cell_v(b2, u.from, CellV::Empty)
    }
}

/// The position after one unit (squares, then state changes).
pub open spec fn apply_unit_v(b: BoardV, u: UnitV) -> BoardV {
    let b1 = move_cells_v(b, u);
    match u.state_change {
        Some(sc) => apply_state_changes_v(b1, sc, u.move_to),
        None => b1,
    }
}

pub open spec fn apply_units_v(b: BoardV, us: Seq<UnitV>) -> BoardV
    decreases us.len(),
{
    if us.len() == 0 {
        b
    } else {
        apply_unit_v(apply_units_v(b, us.drop_last()), us.last())
    }
}

/// The position after a move, with the same side to move.
pub open spec fn apply_move_v(b: BoardV, m: MoveV) -> BoardV {
    match m {
        MoveV::Single(u) => apply_unit_v(b, u),
        MoveV::Multiple(us) => apply_units_v(b, us),
    }
}

// ---------------------------------------------------------------------------
// The script interpreter
// ---------------------------------------------------------------------------

/// The interpreter's state while it runs one chain for the piece on `pos`.
pub struct InterpV {
    pub rip: int,
    pub stack: Seq<(Position, usize)>,
    pub take_stack: Seq<Option<Position>>,
    pub states: Seq<bool>,
    pub transition: Option<Seq<char>>,
    pub state_change: Option<Seq<(Seq<char>, u8)>>,
    pub value_array: u16,
    pub anchors: Seq<Position>,
    pub halted: bool,
    pub nodes: Seq<MoveV>,
    pub dp: DpV,
}

pub open spec fn init_state(pos: Position, chain_len: usize, nodes: Seq<MoveV>, dp: DpV) -> InterpV {
    InterpV {
        rip: 0,
        stack: seq![(pos, chain_len)],
        take_stack: seq![None],
        states: seq![true],
        transition: None,
        state_change: None,
        value_array: 0,
        anchors: Seq::new(16, |i: int| (0u8, 0u8)),
        halted: false,
        nodes,
        dp,
    }
}

pub open spec fn top(s: InterpV) -> bool {
    s.states.last()
}

pub open spec fn set_top(s: InterpV, v: bool) -> InterpV {
    InterpV { states: s.states.update(s.states.len() - 1, v), ..s }
}

pub open spec fn adv(s: InterpV) -> InterpV {
    InterpV { rip: s.rip + 1, ..s }
}

pub open spec fn fail(s: InterpV) -> InterpV {
    adv(set_top(s, false))
}

pub open spec fn anchor(s: InterpV) -> Position {
    s.stack.last().0
}

pub open spec fn set_anchor(s: InterpV, p: Position) -> InterpV {
    InterpV { stack: s.stack.update(s.stack.len() - 1, (p, s.stack.last().1)), ..s }
}

pub open spec fn halt(s: InterpV) -> InterpV {
    InterpV { halted: true, ..s }
}

/// A unit made by the chain, carrying its pending state changes and transition.
pub open spec fn chain_unit(s: InterpV, pos: Position, take: Position, move_to: Position, t: MoveType) -> UnitV {
    unit_v(pos, take, move_to, t, s.state_change, s.transition)
}

pub open spec fn add_node(s: InterpV, u: UnitV) -> InterpV {
    InterpV { nodes: push_node_v(s.nodes, u), ..s }
}

/// Instructions that run even when the current state is false.
pub open spec fn is_control(b: BehaviorV) -> bool {
    match b {
        BehaviorV::While | BehaviorV::Jmp(_) | BehaviorV::Jne(_) | BehaviorV::Label(_)
        | BehaviorV::Not | BehaviorV::True | BehaviorV::False | BehaviorV::Write(_)
        | BehaviorV::Read(_) | BehaviorV::ReadAnd(_) | BehaviorV::ReadOr(_)
        | BehaviorV::ReadXor(_) => true,
        _ => false,
    }
}

/// The index of the `}` closing the block opened at or after `end` (the
/// chain's length if there is none).
pub open spec fn block_end(chain: Seq<BehaviorV>, end: int, ss: int) -> int
    decreases chain.len() - end,
{
    if end < 0 || end >= chain.len() {
        end
    } else {
        let ss2 = match chain[end] {
            BehaviorV::BlockOpen => ss + 1,
            BehaviorV::BlockClose => ss - 1,
            _ => ss,
        };
        if chain[end] is BlockClose && ss2 == 0 {
            end
        } else {
            block_end(chain, end + 1, ss2)
        }
    }
}

/// The index of the `do` matching the `while` at `r` (scanning backwards; 0
/// if there is none).
pub open spec fn while_back(chain: Seq<BehaviorV>, r: int, ss: int) -> int
    decreases r,
{
    if r < 0 || r >= chain.len() {
        r
    } else {
        let ss2 = if chain[r] is While {
            ss + 1
        } else if chain[r] is Do {
            ss - 1
        } else {
            ss
        };
        if chain[r] is Do && ss2 == 0 {
            r
        } else if r == 0 {
            r
        } else {
            while_back(chain, r - 1, ss2)
        }
    }
}

pub open spec fn is_label(l: u8) -> spec_fn(BehaviorV) -> bool {
    |b: BehaviorV| b == BehaviorV::Label(l)
}

/// The first `label(l)` of the chain.
pub open spec fn find_label(chain: Seq<BehaviorV>, l: u8) -> Option<int> {
    first_where(chain, is_label(l))
}

/// The first plain capture (`take`) of square `p` among the moves found so far.
pub open spec fn take_trace_index(nodes: Seq<MoveV>, p: Position) -> Option<int> {
    first_where(nodes, |m: MoveV| is_take_of(m, p))
}

pub open spec fn is_take_of(m: MoveV, p: Position) -> bool {
    match m {
        MoveV::Single(n) => n.move_type == MoveType::Take && n.take == p,
        MoveV::Multiple(_) => false,
    }
}

pub open spec fn remove_take_trace(nodes: Seq<MoveV>, p: Position) -> Seq<MoveV> {
    match take_trace_index(nodes, p) {
        Some(i) => swap_remove_v(nodes, i),
        None => nodes,
    }
}

pub open spec fn color_matches(name: Seq<char>, c: Color) -> bool {
    if name == "white"@ {
        c == Color::White
    } else if name == "black"@ {
        c == Color::Black
    } else {
        false
    }
}

pub open spec fn bit_set(va: u16, i: u8) -> bool {
    (va & (1u16 << i)) != 0
}

pub open spec fn is_edge(wc: WallCollision) -> bool {
    wc == WallCollision::EdgeTop || wc == WallCollision::EdgeBottom || wc == WallCollision::EdgeLeft
        || wc == WallCollision::EdgeRight
}

pub open spec fn is_corner(wc: WallCollision) -> bool {
    wc == WallCollision::CornerTopLeft || wc == WallCollision::CornerTopRight || wc
        == WallCollision::CornerBottomLeft || wc == WallCollision::CornerBottomRight
}

/// `take-move`, `take`, `catch` and `move`: move the anchor and act on what is there.
pub open spec fn displace_step(b: BoardV, pos: Position, color: Color, inst: BehaviorV, d: DeltaPosition, s: InterpV) -> InterpV {
    let a = anchor(s);
    if wall_v(a, d, color) != WallCollision::NoCollision {
        fail(s)
    } else {
        let a2 = moved(a, d);
        let friendly = color_on_v(b, a2) == Some(color);
        let enemy = color_on_v(b, a2) == Some(invert_v(color));
        let s2 = set_anchor(s, a2);
        match inst {
            BehaviorV::TakeMove(_) => if friendly {
                fail(s)
            } else if enemy {
                fail(add_node(s2, chain_unit(s, pos, a2, a2, MoveType::TakeMove)))
            } else {
                adv(add_node(s2, chain_unit(s, pos, a2, a2, MoveType::TakeMove)))
            },
            BehaviorV::Take(_) => if friendly {
                fail(s)
            } else if enemy {
                let s3 = add_node(s2, chain_unit(s, pos, a2, a2, MoveType::Take));
                let ts = if s.take_stack.len() > 0 {
                    s.take_stack.update(s.take_stack.len() - 1, Some(a2))
                } else {
                    s.take_stack.push(Some(a2))
                };
                adv(InterpV { take_stack: ts, ..s3 })
            } else {
                adv(s2)
            },
            BehaviorV::Catch(_) => if friendly {
                fail(s)
            } else if enemy {
                adv(add_node(s2, chain_unit(s, pos, a2, pos, MoveType::Catch)))
            } else {
                adv(s2)
            },
            _ => if friendly || enemy {
                fail(s)
            } else {
                adv(add_node(s2, chain_unit(s, pos, a2, a2, MoveType::Move)))
            },
        }
    }
}

/// `jump`: turn the last capture into a capture-and-land.
pub open spec fn jump_step(b: BoardV, pos: Position, color: Color, d: DeltaPosition, s: InterpV) -> InterpV {
    if s.take_stack.len() > 0 && s.take_stack.last() is Some {
        let tpc = s.take_stack.last()->0;
        let s1 = InterpV { nodes: remove_take_trace(s.nodes, tpc), ..s };
        if d.0 == 0 && d.1 == 0 {
            fail(s1)
        } else if wall_v(anchor(s1), d, color) != WallCollision::NoCollision {
            fail(s1)
        } else {
            let a2 = moved(anchor(s1), d);
            let s2 = set_anchor(s1, a2);
            if color_on_v(b, a2) is None {
                adv(add_node(s2, chain_unit(s, pos, tpc, a2, MoveType::TakeJump)))
            } else {
                fail(s2)
            }
        }
    } else {
        fail(s)
    }
}

/// A test of the square the anchor would reach by `d` (the anchor stays).
pub open spec fn probe_step(b: BoardV, color: Color, inst: BehaviorV, d: DeltaPosition, s: InterpV) -> InterpV {
    let a = anchor(s);
    if wall_v(a, d, color) != WallCollision::NoCollision {
        fail(s)
    } else {
        let a2 = moved(a, d);
        match inst {
            BehaviorV::Peek(_) => if color_on_v(b, a2) is Some {
                fail(s)
            } else {
                adv(set_anchor(s, a2))
            },
            BehaviorV::Observe(_) => if color_on_v(b, a2) is Some {
                fail(s)
            } else {
                adv(s)
            },
            BehaviorV::Enemy(_) => adv(set_top(s, color_on_v(b, a2) == Some(invert_v(color)))),
            BehaviorV::Friendly(_) => adv(set_top(s, color_on_v(b, a2) == Some(color))),
            BehaviorV::PieceOn((name, _)) => adv(set_top(s, piece_on_v(b, a2) == Some(name))),
            BehaviorV::ColorOn((name, _)) => adv(
                set_top(
                    s,
                    match color_on_v(b, a2) {
                        Some(c) => color_matches(name, c),
                        None => false,
                    },
                ),
            ),
            _ => adv(set_anchor(s, a2)),
        }
    }
}

/// `shift`: move the anchor and swap places with the piece found there.
pub open spec fn shift_step(b: BoardV, pos: Position, color: Color, d: DeltaPosition, s: InterpV) -> InterpV {
    let a = anchor(s);
    if wall_v(a, d, color) != WallCollision::NoCollision {
        fail(s)
    } else {
        let a2 = moved(a, d);
        let s2 = set_anchor(s, a2);
        if color_on_v(b, a2) is Some {
            adv(add_node(s2, chain_unit(s, pos, pos, a2, MoveType::Shift)))
        } else {
            adv(s2)
        }
    }
}

/// The state after running the (already mirrored) instruction `inst` at `s.rip`.
pub open spec fn exec_inst_v(
    ctx: Ctx,
    b: BoardV,
    chain: Seq<BehaviorV>,
    pos: Position,
    color: Color,
    cd: bool,
    inst: BehaviorV,
    s: InterpV,
) -> InterpV
    decreases (if cd { 1int } else { 0int }), 1int, 0int,
{
    match inst {
        BehaviorV::TakeMove(d) => displace_step(b, pos, color, inst, d, s),
        BehaviorV::Take(d) => displace_step(b, pos, color, inst, d, s),
        BehaviorV::Catch(d) => displace_step(b, pos, color, inst, d, s),
        BehaviorV::Move(d) => displace_step(b, pos, color, inst, d, s),
        BehaviorV::Jump(d) => jump_step(b, pos, color, d, s),
        BehaviorV::Peek(d) => probe_step(b, color, inst, d, s),
        BehaviorV::Observe(d) => probe_step(b, color, inst, d, s),
        BehaviorV::Enemy(d) => probe_step(b, color, inst, d, s),
        BehaviorV::Friendly(d) => probe_step(b, color, inst, d, s),
        BehaviorV::PieceOn((_, d)) => probe_step(b, color, inst, d, s),
        BehaviorV::ColorOn((_, d)) => probe_step(b, color, inst, d, s),
        BehaviorV::Anchor(d) => probe_step(b, color, inst, d, s),
        BehaviorV::Shift(d) => shift_step(b, pos, color, d, s),
        BehaviorV::BlockOpen => {
            let end = block_end(chain, s.rip, 0);
            let ts = s.take_stack;
            adv(
                InterpV {
                    stack: s.stack.push((anchor(s), end as usize)),
                    take_stack: ts.push(if ts.len() > 0 { ts.last() } else { None }),
                    states: s.states.push(true),
                    ..s
                },
            )
        },
        BehaviorV::BlockClose => if s.stack.len() > 1 && s.states.len() > 1 {
            adv(InterpV { stack: s.stack.drop_last(), states: s.states.drop_last(), ..s })
        } else {
            halt(s)
        },
        BehaviorV::Piece(name) => adv(set_top(s, piece_on_v(b, pos) == Some(name))),
        BehaviorV::Color(name) => adv(
            set_top(
                s,
                match color_on_v(b, pos) {
                    Some(c) => color_matches(name, c),
                    None => false,
                },
            ),
        ),
        BehaviorV::Bound(d) => adv(set_top(s, wall_v(anchor(s), d, color) != WallCollision::NoCollision)),
        BehaviorV::Edge(d) => adv(set_top(s, is_edge(wall_v(anchor(s), d, color)))),
        BehaviorV::Corner(d) => adv(set_top(s, is_corner(wall_v(anchor(s), d, color)))),
        BehaviorV::EdgeTop(d) => adv(set_top(s, wall_v(anchor(s), d, color) == WallCollision::EdgeTop)),
        BehaviorV::EdgeBottom(d) => adv(set_top(s, wall_v(anchor(s), d, color) == WallCollision::EdgeBottom)),
        BehaviorV::EdgeLeft(d) => adv(set_top(s, wall_v(anchor(s), d, color) == WallCollision::EdgeLeft)),
        BehaviorV::EdgeRight(d) => adv(set_top(s, wall_v(anchor(s), d, color) == WallCollision::EdgeRight)),
        BehaviorV::CornerTopLeft(d) => adv(
            set_top(s, wall_v(anchor(s), d, color) == WallCollision::CornerTopLeft),
        ),
        BehaviorV::CornerTopRight(d) => adv(
            set_top(s, wall_v(anchor(s), d, color) == WallCollision::CornerTopRight),
        ),
        BehaviorV::CornerBottomLeft(d) => adv(
            set_top(s, wall_v(anchor(s), d, color) == WallCollision::CornerBottomLeft),
        ),
        BehaviorV::CornerBottomRight(d) => adv(
            set_top(s, wall_v(anchor(s), d, color) == WallCollision::CornerBottomRight),
        ),
        BehaviorV::Danger(d) => if !cd {
            set_top(s, false)
        } else if wall_v(anchor(s), d, color) != WallCollision::NoCollision {
            fail(s)
        } else {
            let a2 = moved(anchor(s), d);
            let (bits, dp2) = danger_bits_v(ctx, b, s.dp, color);
            InterpV { dp: dp2, ..set_top(s, bit_at(bits, a2)) }
        },
        BehaviorV::IfState((key, n)) => if color_on_v(b, pos) == Some(Color::White) {
            adv(set_top(s, reg_get(b.white.register, key) == n))
        } else if color_on_v(b, pos) == Some(Color::Black) {
            adv(set_top(s, reg_get(b.black.register, key) == n))
        } else {
            adv(s)
        },
        BehaviorV::SetState((key, n)) => adv(
            InterpV {
                state_change: Some(
                    match s.state_change {
                        Some(v) => v.push((key, n)),
                        None => seq![(key, n)],
                    },
                ),
                ..s
            },
        ),
        BehaviorV::Transition(name) => adv(
            InterpV { transition: if name.len() == 0 { None } else { Some(name) }, ..s },
        ),
        BehaviorV::Repeat(n) => if n <= 0 || n > s.rip {
            halt(s)
        } else {
            InterpV { rip: s.rip - n, ..s }
        },
        BehaviorV::Not => adv(set_top(s, !top(s))),
        BehaviorV::True => adv(set_top(s, true)),
        BehaviorV::False => adv(set_top(s, false)),
        BehaviorV::ReadAnd(i) => if i >= 16 {
            fail(s)
        } else {
            adv(set_top(s, top(s) && bit_set(s.value_array, i)))
        },
        BehaviorV::ReadOr(i) => if i >= 16 {
            fail(s)
        } else {
            adv(set_top(s, top(s) || bit_set(s.value_array, i)))
        },
        BehaviorV::ReadXor(i) => if i >= 16 {
            fail(s)
        } else {
            adv(set_top(s, top(s) != bit_set(s.value_array, i)))
        },
        BehaviorV::Read(i) => if i >= 16 {
            fail(s)
        } else {
            adv(set_top(s, bit_set(s.value_array, i)))
        },
        BehaviorV::Write(i) => if i >= 16 {
            fail(s)
        } else {
            let va = if top(s) {
                s.value_array | (1u16 << i)
            } else {
                s.value_array & !(1u16 << i)
            };
            adv(set_top(InterpV { value_array: va, ..s }, true))
        },
        BehaviorV::Do => if s.rip + 1 < chain.len() {
            if chain[s.rip + 1] is While {
                InterpV { rip: s.rip + 2, ..s }
            } else {
                adv(InterpV { states: s.states.push(true), ..s })
            }
        } else {
            halt(s)
        },
        BehaviorV::While => if top(s) {
            InterpV { rip: while_back(chain, s.rip, 0), ..s }
        } else if s.states.len() <= 1 {
            halt(InterpV { states: s.states.drop_last(), ..s })
        } else {
            adv(InterpV { states: s.states.drop_last(), ..s })
        },
        BehaviorV::Label(_) => adv(s),
        BehaviorV::Jmp(l) => if top(s) {
            match find_label(chain, l) {
                Some(i) => InterpV { rip: i, ..s },
                None => halt(s),
            }
        } else {
            adv(set_top(s, true))
        },
        BehaviorV::Jne(l) => if !top(s) {
            match find_label(chain, l) {
                Some(i) => InterpV { rip: i, ..s },
                None => halt(s),
            }
        } else {
            adv(set_top(s, true))
        },
        BehaviorV::AbsoulteX(x) => if x < 8 {
            adv(set_anchor(s, (x, anchor(s).1)))
        } else {
            fail(s)
        },
        BehaviorV::AbsoulteY(y) => if y < 8 {
            adv(set_anchor(s, (anchor(s).0, y)))
        } else {
            fail(s)
        },
        BehaviorV::Absoulte(p) => if p.0 < 8 && p.1 < 8 {
            adv(set_anchor(s, p))
        } else {
            fail(s)
        },
        BehaviorV::ReadAnchor(i) => if i < 16 {
            adv(set_anchor(s, s.anchors[i as int]))
        } else {
            fail(s)
        },
        BehaviorV::WriteAnchor(i) => if i < 16 {
            adv(InterpV { anchors: s.anchors.update(i as int, anchor(s)), ..s })
        } else {
            fail(s)
        },
        _ => halt(s),
    }
}

/// One turn of the interpreter loop: an instruction that is not a control
/// instruction, met while the current state is false, sends the interpreter
/// to the end of the current block (or ends the chain outside any block).
pub open spec fn step_v(
    ctx: Ctx,
    b: BoardV,
    chain: Seq<BehaviorV>,
    pos: Position,
    color: Color,
    cd: bool,
    s: InterpV,
) -> InterpV
    decreases (if cd { 1int } else { 0int }), 2int, 0int,
{
    let skip = !top(s) && !is_control(chain[s.rip]);
    if skip && s.stack.len() <= 1 {
        halt(s)
    } else {
        let s1 = if skip {
            InterpV { rip: s.stack.last().1 as int, ..s }
        } else {
            s
        };
        if s1.rip >= chain.len() {
            halt(s1)
        } else {
            exec_inst_v(ctx, b, chain, pos, color, cd, reflect_v(chain[s1.rip], color), s1)
        }
    }
}

/// The interpreter after at most `1000 - loops` more turns.
pub open spec fn run_v(
    ctx: Ctx,
    b: BoardV,
    chain: Seq<BehaviorV>,
    pos: Position,
    color: Color,
    cd: bool,
    s: InterpV,
    loops: int,
) -> InterpV
    decreases (if cd { 1int } else { 0int }), 3int, 1000 - loops,
{
    if s.halted || s.rip < 0 || s.rip >= chain.len() || loops >= 1000 {
        s
    } else {
        run_v(ctx, b, chain, pos, color, cd, step_v(ctx, b, chain, pos, color, cd, s), loops + 1)
    }
}

/// Runs the chains from index `c` on, each starting afresh at the piece's
/// square; the moves found accumulate across chains.
pub open spec fn chains_v(
    ctx: Ctx,
    b: BoardV,
    script: ScriptV,
    pos: Position,
    color: Color,
    cd: bool,
    nodes: Seq<MoveV>,
    dp: DpV,
    c: int,
) -> (Seq<MoveV>, DpV)
    decreases (if cd { 1int } else { 0int }), 4int, script.len() - c,
{
    if c < 0 || c >= script.len() {
        (nodes, dp)
    } else {
        let chain = script[c];
        let r = run_v(ctx, b, chain, pos, color, cd, init_state(pos, chain.len() as usize, nodes, dp), 0);
        chains_v(ctx, b, script, pos, color, cd, r.nodes, r.dp, c + 1)
    }
}

/// The moves a script gives the piece on `pos`, and the move cache afterwards.
pub open spec fn gen_script_v(ctx: Ctx, b: BoardV, dp: DpV, pos: Position, cd: bool, script: ScriptV) -> (
    Seq<MoveV>,
    DpV,
)
    decreases (if cd { 1int } else { 0int }), 5int, 0int,
{
    match color_on_v(b, pos) {
        Some(color) => chains_v(ctx, b, script, pos, color, cd, seq![], dp, 0),
        None => (seq![], dp),
    }
}

// ---------------------------------------------------------------------------
// Attacked squares and checks
// ---------------------------------------------------------------------------

pub open spec fn is_capture(t: MoveType) -> bool {
    t == MoveType::Take || t == MoveType::TakeMove || t == MoveType::TakeJump || t == MoveType::Catch
}

/// The bit of square `p` in a 64-bit board mask.
pub open spec fn square_bit(p: Position) -> u64 {
    1u64 << ((p.1 * 8 + p.0) as u64)
}

pub open spec fn bit_at(bits: u64, p: Position) -> bool {
    (bits & square_bit(p)) != 0
}

pub open spec fn unit_bit(u: UnitV) -> u64 {
    if is_capture(u.move_type) {
        square_bit(u.take)
    } else {
        0
    }
}

pub open spec fn units_bits(us: Seq<UnitV>) -> u64
    decreases us.len(),
{
    if us.len() == 0 {
        0
    } else {
        units_bits(us.drop_last()) | unit_bit(us.last())
    }
}

pub open spec fn move_bits(m: MoveV) -> u64 {
    match m {
        MoveV::Single(u) => unit_bit(u),
        MoveV::Multiple(us) => units_bits(us),
    }
}

/// The squares the moves capture on, as a mask.
pub open spec fn moves_bits(ms: Seq<MoveV>) -> u64
    decreases ms.len(),
{
    if ms.len() == 0 {
        0
    } else {
        moves_bits(ms.drop_last()) | move_bits(ms.last())
    }
}

pub open spec fn units_takes(us: Seq<UnitV>) -> Seq<Position>
    decreases us.len(),
{
    if us.len() == 0 {
        seq![]
    } else if is_capture(us.last().move_type) {
        units_takes(us.drop_last()).push(us.last().take)
    } else {
        units_takes(us.drop_last())
    }
}

pub open spec fn move_takes(m: MoveV) -> Seq<Position> {
    match m {
        MoveV::Single(u) => if is_capture(u.move_type) {
            seq![u.take]
        } else {
            seq![]
        },
        MoveV::Multiple(us) => units_takes(us),
    }
}

/// The squares the moves capture on, in order.
pub open spec fn moves_takes(ms: Seq<MoveV>) -> Seq<Position>
    decreases ms.len(),
{
    if ms.len() == 0 {
        seq![]
    } else {
        moves_takes(ms.drop_last()) + move_takes(ms.last())
    }
}

/// The capture mask of `color`'s unfiltered moves.
pub open spec fn danger_bits_v(ctx: Ctx, b: BoardV, dp: DpV, color: Color) -> (u64, DpV)
    decreases 1int, 0int, 0int,
{
    let (ms, dp2) = all_moves_v(ctx, b, dp, color, false, 0);
    (moves_bits(ms), dp2)
}

/// The capture squares of `color`'s unfiltered moves.
pub open spec fn danger_zones_v(ctx: Ctx, b: BoardV, dp: DpV, color: Color) -> (Seq<Position>, DpV)
    decreases 1int, 0int, 0int,
{
    let (ms, dp2) = all_moves_v(ctx, b, dp, color, false, 0);
    (moves_takes(ms), dp2)
}

/// A king stands on one of the squares.
pub open spec fn king_among(b: BoardV, zs: Seq<Position>) -> bool {
    exists|i: int| 0 <= i < zs.len() && piece_on_v(b, #[trigger] zs[i]) == Some("king"@)
}

/// Whether `color`'s moves capture on a square holding a king.
pub open spec fn is_check_v(ctx: Ctx, b: BoardV, dp: DpV, color: Color) -> (bool, DpV)
    decreases 1int, 1int, 0int,
{
    let (zs, dp2) = danger_zones_v(ctx, b, dp, color);
    (king_among(b, zs), dp2)
}

/// The position a move leads to, with the other side to move.
pub open spec fn after_move_v(b: BoardV, m: MoveV) -> BoardV {
    let a = apply_move_v(b, m);
    BoardV { turn: invert_v(a.turn), ..a }
}

/// Whether a candidate move survives the variant's legality test.
pub open spec fn keep_move_v(ctx: Ctx, b: BoardV, m: MoveV) -> Option<MoveV>
    decreases (if ctx.macho { 0int } else { 1int }), 7int, 0int,
{
    if ctx.macho {
        let src = move_source(m);
        let dst = move_dest(m);
        match color_on_v(b, src) {
            Some(c) => if (src.1 < dst.1 && c == Color::Black) || (src.1 > dst.1 && c == Color::White) {
                Some(m)
            } else if src.1 == dst.1 {
                match m {
                    MoveV::Single(n) => if color_on_v(b, n.take) == Some(invert_v(c)) {
                        Some(MoveV::Single(UnitV { move_type: MoveType::Take, ..n }))
                    } else {
                        None
                    },
                    MoveV::Multiple(_) => None,
                }
            } else {
                None
            },
            None => None,
        }
    } else {
        let nb = after_move_v(b, m);
        if !is_check_v(ctx, nb, seq![], nb.turn).0 {
            Some(m)
        } else {
            None
        }
    }
}

/// The moves from index `i` on that survive the legality test.
pub open spec fn filter_v(ctx: Ctx, b: BoardV, ms: Seq<MoveV>, i: int) -> Seq<MoveV>
    decreases (if ctx.macho { 0int } else { 1int }), 8int, ms.len() - i,
{
    if i < 0 || i >= ms.len() {
        seq![]
    } else {
        match keep_move_v(ctx, b, ms[i]) {
            Some(m) => seq![m] + filter_v(ctx, b, ms, i + 1),
            None => filter_v(ctx, b, ms, i + 1),
        }
    }
}

/// The moves of `turn`'s pieces on squares `k..64` (square `k` being
/// `(k % 8, k / 8)`), filtered when `cd` or in the macho variant.
pub open spec fn all_moves_v(ctx: Ctx, b: BoardV, dp: DpV, turn: Color, cd: bool, k: int) -> (
    Seq<MoveV>,
    DpV,
)
    decreases (if cd { 1int } else { 0int }), 10int, 64 - k,
{
    if k < 0 || k >= 64 {
        (seq![], dp)
    } else {
        let p = ((k % 8) as u8, (k / 8) as u8);
        if color_on_v(b, p) == Some(turn) {
            let (a, dp1) = moves_at_v(ctx, b, dp, p, cd, ctx.bs);
            let a2 = if cd || ctx.macho {
                filter_v(ctx, b, a, 0)
            } else {
                a
            };
            let (rest, dp2) = all_moves_v(ctx, b, dp1, turn, cd, k + 1);
            (a2 + rest, dp2)
        } else {
            all_moves_v(ctx, b, dp, turn, cd, k + 1)
        }
    }
}

/// Whether one of `turn`'s pieces on squares `k..64` has a move (filtered
/// when `cd` or in the macho variant); the scan stops at the first such
/// piece.
pub open spec fn has_any_v(ctx: Ctx, b: BoardV, dp: DpV, turn: Color, cd: bool, k: int) -> (bool, DpV)
    decreases (if cd { 1int } else { 0int }), 10int, 64 - k,
{
    if k < 0 || k >= 64 {
        (false, dp)
    } else {
        let p = ((k % 8) as u8, (k / 8) as u8);
        if color_on_v(b, p) == Some(turn) {
            let (a, dp1) = moves_at_v(ctx, b, dp, p, cd, ctx.bs);
            let a2 = if cd || ctx.macho {
                filter_v(ctx, b, a, 0)
            } else {
                a
            };
            if a2.len() > 0 {
                (true, dp1)
            } else {
                has_any_v(ctx, b, dp1, turn, cd, k + 1)
            }
        } else {
            has_any_v(ctx, b, dp, turn, cd, k + 1)
        }
    }
}

/// The moves of the piece on `pos` (cached, by its built-in generator, or by
/// the script `sc`), and the cache afterwards.
pub open spec fn moves_at_v(ctx: Ctx, b: BoardV, dp: DpV, pos: Position, cd: bool, sc: ScriptV) -> (
    Seq<MoveV>,
    DpV,
)
    decreases (if cd { 1int } else { 0int }), 9int, 0int,
{
    match dp_lookup(dp, pos) {
        Some(c) => (c, dp),
        None => match piece_on_v(b, pos) {
            None => (seq![], dp),
            Some(name) => {
                let (r, dp1) = if is_native(name) {
                    native_moves_v(ctx, b, dp, pos, name, cd)
                } else {
                    gen_script_v(ctx, b, dp, pos, cd, sc)
                };
                (r, dp_insert(dp1, pos, r))
            },
        },
    }
}

// ---------------------------------------------------------------------------
// Built-in pieces
// ---------------------------------------------------------------------------

/// A unit with no state change and no transition.
pub open spec fn plain(from: Position, take: Position, move_to: Position, t: MoveType) -> MoveV {
    MoveV::Single(unit_v(from, take, move_to, t, None, None))
}

/// The color of the piece on `pos` (white for an empty square).
pub open spec fn color_at(b: BoardV, pos: Position) -> Color {
    match color_on_v(b, pos) {
        Some(c) => c,
        None => Color::White,
    }
}

/// One leap by `d` that moves to an empty square or captures an enemy; the
/// flag says whether a slide may go on past it.
pub open spec fn leap_v(b: BoardV, pos: Position, d: DeltaPosition) -> (Seq<MoveV>, bool) {
    let color = color_at(b, pos);
    if wall_v(pos, d, color) != WallCollision::NoCollision {
        (seq![], false)
    } else {
        let a = moved(pos, d);
        match color_on_v(b, a) {
            Some(c) => if c == color {
                (seq![], false)
            } else {
                (seq![plain(pos, a, a, MoveType::TakeMove)], false)
            },
            None => (seq![plain(pos, a, a, MoveType::TakeMove)], true),
        }
    }
}

pub open spec fn leap_moves(b: BoardV, pos: Position, d: DeltaPosition) -> Seq<MoveV> {
    leap_v(b, pos, d).0
}

/// Leaps by `n*d`, `(n+1)*d`, ... while the squares are empty.
pub open spec fn slide_v(b: BoardV, pos: Position, d: DeltaPosition, n: int) -> Seq<MoveV>
    decreases 9 - n,
{
    if n < 1 || n > 8 {
        seq![]
    } else {
        let (m, go) = leap_v(b, pos, ((n * d.0) as i8, (n * d.1) as i8));
        if go {
            m + slide_v(b, pos, d, n + 1)
        } else {
            m
        }
    }
}

pub open spec fn slides(b: BoardV, pos: Position, ds: Seq<DeltaPosition>) -> Seq<MoveV>
    decreases ds.len(),
{
    if ds.len() == 0 {
        seq![]
    } else {
        slides(b, pos, ds.drop_last()) + slide_v(b, pos, ds.last(), 1)
    }
}

pub open spec fn leaps(b: BoardV, pos: Position, ds: Seq<DeltaPosition>) -> Seq<MoveV>
    decreases ds.len(),
{
    if ds.len() == 0 {
        seq![]
    } else {
        leaps(b, pos, ds.drop_last()) + leap_moves(b, pos, ds.last())
    }
}

pub open spec fn orthogonal() -> Seq<DeltaPosition> {
    seq![(1i8, 0i8), (-1i8, 0i8), (0i8, 1i8), (0i8, -1i8)]
}

pub open spec fn diagonal() -> Seq<DeltaPosition> {
    seq![(1i8, 1i8), (1i8, -1i8), (-1i8, 1i8), (-1i8, -1i8)]
}

/// The eight leaps `(±i, ±j)` and `(±j, ±i)`.
pub open spec fn ij_deltas(i: i8, j: i8) -> Seq<DeltaPosition> {
    seq![
        (i, j),
        ((-i) as i8, j),
        (i, (-j) as i8),
        ((-i) as i8, (-j) as i8),
        (j, i),
        ((-j) as i8, i),
        (j, (-i) as i8),
        ((-j) as i8, (-i) as i8),
    ]
}

pub open spec fn knight_v(b: BoardV, pos: Position) -> Seq<MoveV> {
    leaps(b, pos, ij_deltas(2, 1))
}

pub open spec fn queen_v(b: BoardV, pos: Position) -> Seq<MoveV> {
    slides(b, pos, orthogonal() + diagonal())
}

/// The four moves of a pawn reaching the last rank, one per promotion piece.
pub open spec fn promotions(pos: Position, to: Position, t: MoveType) -> Seq<MoveV> {
    seq![
        MoveV::Single(unit_v(pos, to, to, t, None, Some("knight"@))),
        MoveV::Single(unit_v(pos, to, to, t, None, Some("bishop"@))),
        MoveV::Single(unit_v(pos, to, to, t, None, Some("rook"@))),
        MoveV::Single(unit_v(pos, to, to, t, None, Some("queen"@))),
    ]
}

/// A pawn's step or capture onto `to`, with promotions on the last rank
/// (outside the macho variant).
pub open spec fn pawn_to(macho: bool, pos: Position, to: Position, t: MoveType, promo_rank: u8) -> Seq<MoveV> {
    if pos.1 == promo_rank && !macho {
        promotions(pos, to, t)
    } else {
        seq![plain(pos, to, to, t)]
    }
}

/// An en-passant capture of the pawn on `(x, pos.1)`, landing on `(x, step1)`.
pub open spec fn en_passant(macho: bool, pos: Position, x: u8, step1: u8, prev: Seq<MoveV>) -> Seq<MoveV> {
    (if macho { seq![] } else { prev }).push(plain(pos, (x, pos.1), (x, step1), MoveType::TakeJump))
}

pub open spec fn pawn_v(macho: bool, b: BoardV, pos: Position) -> Seq<MoveV> {
    let color = color_at(b, pos);
    let white = color == Color::White;
    let rank: u8 = if white { 6 } else { 1 };
    let promo: u8 = if white { 1 } else { 6 };
    let wall: u8 = if white { 0 } else { 7 };
    if pos.1 == wall {
        seq![]
    } else {
        let step1: u8 = if white { (pos.1 - 1) as u8 } else { (pos.1 + 1) as u8 };
        let x = pos.0;
        let r1 = if color_on_v(b, (x, step1)) is None {
            let a = pawn_to(macho, pos, (x, step1), MoveType::Move, promo);
            let step2: u8 = if white { 4 } else { 3 };
            if pos.1 == rank && color_on_v(b, (x, step2)) is None {
                a.push(
                    MoveV::Single(
                        unit_v(pos, (x, step2), (x, step2), MoveType::Move, Some(seq![("enpassant"@, 1u8)]), None),
                    ),
                )
            } else {
                a
            }
        } else {
            seq![]
        };
        let ep = side_v(b, color).enpassant;
        let r2 = if pos.1 == (if white { 3u8 } else { 4u8 }) {
            let ra = if x > 0 && ep.contains(((x - 1) as u8, pos.1)) {
                en_passant(macho, pos, (x - 1) as u8, step1, r1)
            } else {
                r1
            };
            if x < 7 && ep.contains(((x + 1) as u8, pos.1)) {
                en_passant(macho, pos, (x + 1) as u8, step1, ra)
            } else {
                ra
            }
        } else {
            r1
        };
        let r3 = if x > 0 && color_on_v(b, ((x - 1) as u8, step1)) == Some(invert_v(color)) {
            r2 + pawn_to(macho, pos, ((x - 1) as u8, step1), MoveType::Take, promo)
        } else {
            r2
        };
        if x < 7 && color_on_v(b, ((x + 1) as u8, step1)) == Some(invert_v(color)) {
            r3 + pawn_to(macho, pos, ((x + 1) as u8, step1), MoveType::Take, promo)
        } else {
            r3
        }
    }
}

/// The castling-rights reset carried by every king move.
pub open spec fn king_reset() -> Seq<(Seq<char>, u8)> {
    seq![("castling-oo"@, 0u8), ("castling-ooo"@, 0u8)]
}

pub open spec fn king_step_v(macho: bool, b: BoardV, pos: Position, bits: u64, d: DeltaPosition) -> Seq<MoveV> {
    let color = color_at(b, pos);
    if wall_v(pos, d, color) == WallCollision::NoCollision && color_on_v(b, moved(pos, d)) != color_on_v(b, pos)
        && (macho || !bit_at(bits, moved(pos, d))) {
        seq![
            MoveV::Single(
                unit_v(pos, moved(pos, d), moved(pos, d), MoveType::TakeMove, Some(king_reset()), None),
            ),
        ]
    } else {
        seq![]
    }
}

/// The king's eight neighbours, column offset outermost.
pub open spec fn king_deltas() -> Seq<DeltaPosition> {
    seq![(-1i8, -1i8), (-1i8, 0i8), (-1i8, 1i8), (0i8, -1i8), (0i8, 1i8), (1i8, -1i8), (1i8, 0i8), (1i8, 1i8)]
}

pub open spec fn king_steps(macho: bool, b: BoardV, pos: Position, bits: u64, ds: Seq<DeltaPosition>) -> Seq<MoveV>
    decreases ds.len(),
{
    if ds.len() == 0 {
        seq![]
    } else {
        king_steps(macho, b, pos, bits, ds.drop_last()) + king_step_v(macho, b, pos, bits, ds.last())
    }
}

pub open spec fn castling_v(b: BoardV, pos: Position, bits: u64, rook_x: u8, to_x: u8, empty: Seq<u8>) -> Seq<MoveV> {
    let color = color_at(b, pos);
    let y = pos.1;
    if piece_on_v(b, (rook_x, y)) == Some("rook"@) && color_on_v(b, (rook_x, y)) == Some(color) && (forall|
        i: int,
    | 0 <= i < empty.len() ==> color_on_v(b, (#[trigger] empty[i], y)) is None) && !bit_at(bits, pos) {
        seq![MoveV::Single(unit_v(pos, (to_x, y), (to_x, y), MoveType::Castling, Some(king_reset()), None))]
    } else {
        seq![]
    }
}

/// A king's moves; `bits` are the squares it may not step onto.
pub open spec fn king_v(macho: bool, impr: bool, b: BoardV, pos: Position, bits: u64) -> Seq<MoveV> {
    if impr {
        seq![]
    } else {
        let steps = king_steps(macho, b, pos, bits, king_deltas());
        if macho {
            steps
        } else {
            let st = side_v(b, color_at(b, pos));
            let oo = if st.castling_oo {
                castling_v(b, pos, bits, 7, 6, seq![6u8, 5u8])
            } else {
                seq![]
            };
            let ooo = if st.castling_ooo {
                castling_v(b, pos, bits, 0, 2, seq![1u8, 2u8, 3u8])
            } else {
                seq![]
            };
            steps + oo + ooo
        }
    }
}

/// A script of one-instruction-and-repeat chains.
pub open spec fn repeat_chain(prefix: Seq<BehaviorV>, d: DeltaPosition) -> Seq<BehaviorV> {
    prefix + seq![BehaviorV::TakeMove(d), BehaviorV::Repeat(1)]
}

/// The rook's script; a rook on its home corner also clears the matching
/// castling right.
pub open spec fn rook_script(b: BoardV, pos: Position) -> ScriptV {
    let c = color_at(b, pos);
    let prefix: Seq<BehaviorV> = if pos.0 == 0 && pos.1 == 7 && c == Color::White {
        seq![BehaviorV::SetState(("castling-ooo"@, 0u8))]
    } else if pos.0 == 7 && pos.1 == 7 && c == Color::White {
        seq![BehaviorV::SetState(("castling-oo"@, 0u8))]
    } else if pos.0 == 0 && pos.1 == 0 && c == Color::Black {
        seq![BehaviorV::SetState(("castling-ooo"@, 0u8))]
    } else if pos.0 == 7 && pos.1 == 0 && c == Color::Black {
        seq![BehaviorV::SetState(("castling-oo"@, 0u8))]
    } else {
        seq![]
    };
    seq![
        repeat_chain(prefix, (1i8, 0i8)),
        repeat_chain(prefix, (-1i8, 0i8)),
        repeat_chain(prefix, (0i8, 1i8)),
        repeat_chain(prefix, (0i8, -1i8)),
    ]
}

pub open spec fn wasp_script() -> ScriptV {
    seq![
        seq![BehaviorV::TakeMove((0i8, 1i8)), BehaviorV::Repeat(1)],
        seq![BehaviorV::Move((1i8, -1i8)), BehaviorV::Repeat(1)],
        seq![BehaviorV::Move((-1i8, -1i8)), BehaviorV::Repeat(1)],
    ]
}

pub open spec fn tempest_chain(d1: DeltaPosition, d2: DeltaPosition) -> Seq<BehaviorV> {
    seq![BehaviorV::TakeMove(d1), BehaviorV::TakeMove(d2), BehaviorV::Repeat(1)]
}

pub open spec fn tempest_script() -> ScriptV {
    seq![
        tempest_chain((1i8, 1i8), (1i8, 0i8)),
        tempest_chain((1i8, 1i8), (0i8, 1i8)),
        tempest_chain((1i8, -1i8), (1i8, 0i8)),
        tempest_chain((1i8, -1i8), (0i8, -1i8)),
        tempest_chain((-1i8, 1i8), (-1i8, 0i8)),
        tempest_chain((-1i8, 1i8), (0i8, 1i8)),
        tempest_chain((-1i8, -1i8), (-1i8, 0i8)),
        tempest_chain((-1i8, -1i8), (0i8, -1i8)),
    ]
}

pub open spec fn cannon_take_chain(d: DeltaPosition) -> Seq<BehaviorV> {
    seq![
        BehaviorV::Do,
        BehaviorV::Take(d),
        BehaviorV::Enemy((0i8, 0i8)),
        BehaviorV::Not,
        BehaviorV::While,
        BehaviorV::Jump(d),
        BehaviorV::Repeat(1),
    ]
}

pub open spec fn cannon_move_chain(d: DeltaPosition) -> Seq<BehaviorV> {
    seq![
        BehaviorV::Do,
        BehaviorV::Peek(d),
        BehaviorV::While,
        BehaviorV::Friendly((0i8, 0i8)),
        BehaviorV::Move(d),
        BehaviorV::Repeat(1),
    ]
}

pub open spec fn cannon_script() -> ScriptV {
    seq![
        cannon_take_chain((1i8, 0i8)),
        cannon_take_chain((-1i8, 0i8)),
        cannon_take_chain((0i8, 1i8)),
        cannon_take_chain((0i8, -1i8)),
        cannon_move_chain((1i8, 0i8)),
        cannon_move_chain((-1i8, 0i8)),
        cannon_move_chain((0i8, 1i8)),
        cannon_move_chain((0i8, -1i8)),
    ]
}

pub open spec fn chameleon_script() -> ScriptV {
    seq![
        seq![BehaviorV::Move((1i8, 0i8))],
        seq![BehaviorV::Move((-1i8, 0i8))],
        seq![BehaviorV::Move((0i8, 1i8))],
        seq![BehaviorV::Move((0i8, -1i8))],
        seq![BehaviorV::Move((1i8, 1i8))],
        seq![BehaviorV::Move((1i8, -1i8))],
        seq![BehaviorV::Move((-1i8, 1i8))],
        seq![BehaviorV::Move((-1i8, -1i8))],
    ]
}

pub open spec fn pseudo_pawn_script() -> ScriptV {
    seq![
        seq![BehaviorV::Move((0i8, 1i8))],
        seq![BehaviorV::Take((1i8, 1i8))],
        seq![BehaviorV::Take((-1i8, 1i8))],
    ]
}

/// The mirrored piece a chameleon or mirrored piece turns into when it
/// captures `name`.
pub open spec fn mirror_of(name: Seq<char>) -> Option<Seq<char>> {
    if name == "pawn"@ {
        Some("mirrored-pawn"@)
    } else if name == "bishop"@ {
        Some("mirrored-bishop"@)
    } else if name == "rook"@ {
        Some("mirrored-rook"@)
    } else if name == "knight"@ {
        Some("mirrored-knight"@)
    } else if name == "queen"@ {
        Some("mirrored-queen"@)
    } else {
        None
    }
}

pub open spec fn chameleon_catch(b: BoardV, pos: Position, d: DeltaPosition) -> Seq<MoveV> {
    let color = color_at(b, pos);
    if wall_v(pos, d, color) == WallCollision::NoCollision && color_on_v(b, moved(pos, d)) == Some(
        invert_v(color),
    ) {
        match piece_on_v(b, moved(pos, d)) {
            Some(name) => match mirror_of(name) {
                Some(m) => seq![
                    MoveV::Single(unit_v(pos, moved(pos, d), pos, MoveType::Catch, None, Some(m))),
                ],
                None => seq![],
            },
            None => seq![],
        }
    } else {
        seq![]
    }
}

pub open spec fn chameleon_catches(b: BoardV, pos: Position, ds: Seq<DeltaPosition>) -> Seq<MoveV>
    decreases ds.len(),
{
    if ds.len() == 0 {
        seq![]
    } else {
        chameleon_catches(b, pos, ds.drop_last()) + chameleon_catch(b, pos, ds.last())
    }
}

/// A capture of an enemy named in `mirror_of` turns the mover into the
/// mirrored piece (dropping state changes); other moves stay as they are.
pub open spec fn mirror_move(b: BoardV, enemy: Color, m: MoveV) -> MoveV {
    match m {
        MoveV::Single(n) => if color_on_v(b, n.take) == Some(enemy) {
            match piece_on_v(b, n.take) {
                Some(name) => match mirror_of(name) {
                    Some(t) => MoveV::Single(UnitV { state_change: None, transition: Some(t), ..n }),
                    None => m,
                },
                None => m,
            }
        } else {
            m
        },
        MoveV::Multiple(_) => m,
    }
}

/// The beacon's swaps with friendly pieces on squares `k..64` (row-major),
/// pawns and beacons excluded.
pub open spec fn beacon_v(b: BoardV, pos: Position, k: int) -> Seq<MoveV>
    decreases 64 - k,
{
    if k < 0 || k >= 64 {
        seq![]
    } else {
        let t = ((k % 8) as u8, (k / 8) as u8);
        let rest = beacon_v(b, pos, k + 1);
        if color_on_v(b, t) == Some(color_at(b, pos)) && piece_on_v(b, t) != Some("pawn"@)
            && piece_on_v(b, t) != Some("beacon"@) {
            seq![plain(pos, pos, t, MoveType::Shift)] + rest
        } else {
            rest
        }
    }
}

/// Every instruction of the script runs safely.
pub open spec fn script_wf(sc: ScriptV) -> bool {
    forall|c: int, i: int| 0 <= c < sc.len() && 0 <= i < sc[c].len() ==> behavior_wf(#[trigger] sc[c][i])
}

pub open spec fn bouncing_bishop_text() -> Seq<char> {
    "do take-move(1, 1) while peek(0, 0) edge-right(1, 1) jne(0) take-move(-1, 1) repeat(1) label(0) edge-top(1, 1) jne(1) take-move(1, -1) repeat(1) label(1);do take-move(-1, 1) while peek(0, 0) edge-left(-1, 1) jne(0) take-move(1, 1) repeat(1) label(0) edge-top(-1, 1) jne(1) take-move(-1, -1) repeat(1) label(1);do take-move(1, -1) while peek(0, 0) edge-right(1, -1) jne(0) take-move(-1, -1) repeat(1) label(0) edge-bottom(1, -1) jne(1) take-move(1, 1) repeat(1) label(1);do take-move(-1, -1) while peek(0, 0) edge-left(-1, -1) jne(0) take-move(1, -1) repeat(1) label(0) edge-bottom(-1, -1) jne(1) take-move(-1, 1) repeat(1) label(1);"@
}

pub open spec fn windmill_rook_text() -> Seq<char> {
    "piece(windmill-rook) transition(windmill-bishop) { take-move(1, 0) repeat(1) } { take-move(0, 1) repeat(1) } { take-move(-1, 0) repeat(1) } { take-move(0, -1) repeat(1) };"@
}

pub open spec fn windmill_bishop_text() -> Seq<char> {
    "piece(windmill-bishop) transition(windmill-rook) { take-move(1, 1) repeat(1) } { take-move(-1, 1) repeat(1) } { take-move(1, -1) repeat(1) } { take-move(-1, -1) repeat(1) };"@
}

/// The moves given by the script written in `text` (none if an instruction of
/// it could not run safely).
pub open spec fn text_script_moves(ctx: Ctx, b: BoardV, dp: DpV, pos: Position, text: Seq<char>) -> (
    Seq<MoveV>,
    DpV,
)
    decreases 0int, 6int, 0int,
{
    let sc = script_text_v(text);
    if script_wf(sc) {
        gen_script_v(ctx, b, dp, pos, false, sc)
    } else {
        (seq![], dp)
    }
}

pub open spec fn dozer_deltas(c: Color) -> Seq<DeltaPosition> {
    if c == Color::Black {
        seq![(-2i8, -1i8), (-1i8, -1i8), (0i8, -1i8), (1i8, -1i8), (2i8, -1i8)]
    } else {
        seq![(-2i8, 1i8), (-1i8, 1i8), (0i8, 1i8), (1i8, 1i8), (2i8, 1i8)]
    }
}

pub open spec fn alfil_deltas() -> Seq<DeltaPosition> {
    seq![(2i8, 2i8), (2i8, -2i8), (-2i8, 2i8), (-2i8, -2i8)]
}

pub open spec fn bard_deltas() -> Seq<DeltaPosition> {
    seq![(2i8, 0i8), (-2i8, 0i8), (0i8, 2i8), (0i8, -2i8)] + alfil_deltas()
}

/// The pieces with a built-in move generator.
pub open spec fn is_native(name: Seq<char>) -> bool {
    name == "pawn"@ || name == "king"@ || name == "rook"@ || name == "knight"@ || name == "bishop"@
        || name == "queen"@ || name == "tempest-rook"@ || name == "bouncing-bishop"@ || name
        == "dozer"@ || name == "alfil"@ || name == "bard"@ || name == "wasp"@ || name == "amazon"@
        || name == "chancellor"@ || name == "archbishop"@ || name == "centaur"@ || name == "zebra"@
        || name == "giraffe"@ || name == "camel"@ || name == "beacon"@ || name == "chameleon"@
        || mirror_base(name) || name == "windmill-rook"@ || name == "windmill-bishop"@
}

pub open spec fn mirror_base(name: Seq<char>) -> bool {
    name == "mirrored-pawn"@ || name == "mirrored-bishop"@ || name == "mirrored-rook"@ || name
        == "mirrored-knight"@ || name == "mirrored-queen"@
}

/// The moves a mirrored piece has before its captures are marked.
pub open spec fn mirrored_base_v(ctx: Ctx, b: BoardV, dp: DpV, pos: Position, name: Seq<char>) -> (
    Seq<MoveV>,
    DpV,
)
    decreases 0int, 6int, 0int,
{
    if name == "mirrored-pawn"@ {
        gen_script_v(ctx, b, dp, pos, false, pseudo_pawn_script())
    } else if name == "mirrored-bishop"@ {
        (slides(b, pos, diagonal()), dp)
    } else if name == "mirrored-rook"@ {
        (slides(b, pos, orthogonal()), dp)
    } else if name == "mirrored-knight"@ {
        (knight_v(b, pos), dp)
    } else if name == "mirrored-queen"@ {
        (queen_v(b, pos), dp)
    } else {
        (seq![], dp)
    }
}

/// The built-in generator of piece `name` on `pos`.
pub open spec fn native_moves_v(ctx: Ctx, b: BoardV, dp: DpV, pos: Position, name: Seq<char>, cd: bool) -> (
    Seq<MoveV>,
    DpV,
)
    decreases (if cd { 1int } else { 0int }), 7int, 0int,
{
    let color = color_at(b, pos);
    if name == "pawn"@ {
        (pawn_v(ctx.macho, b, pos), dp)
    } else if name == "king"@ {
        if cd {
            let (bits, dp1) = danger_bits_v(ctx, b, dp, invert_v(color));
            (king_v(ctx.macho, ctx.impr, b, pos, bits), dp1)
        } else {
            (king_v(ctx.macho, ctx.impr, b, pos, 0), dp)
        }
    } else if name == "rook"@ {
        gen_script_v(ctx, b, dp, pos, false, rook_script(b, pos))
    } else if name == "knight"@ {
        (knight_v(b, pos), dp)
    } else if name == "bishop"@ {
        (slides(b, pos, diagonal()), dp)
    } else if name == "queen"@ {
        (queen_v(b, pos), dp)
    } else if name == "tempest-rook"@ {
        gen_script_v(ctx, b, dp, pos, false, tempest_script())
    } else if name == "bouncing-bishop"@ {
        text_script_moves(ctx, b, dp, pos, bouncing_bishop_text())
    } else if name == "dozer"@ {
        (leaps(b, pos, dozer_deltas(color)), dp)
    } else if name == "alfil"@ {
        (leaps(b, pos, alfil_deltas()), dp)
    } else if name == "bard"@ {
        (leaps(b, pos, bard_deltas()), dp)
    } else if name == "wasp"@ {
        gen_script_v(ctx, b, dp, pos, false, wasp_script())
    } else if name == "amazon"@ {
        (knight_v(b, pos) + slides(b, pos, orthogonal() + diagonal()), dp)
    } else if name == "chancellor"@ {
        (knight_v(b, pos) + slides(b, pos, orthogonal()), dp)
    } else if name == "archbishop"@ {
        (knight_v(b, pos) + slides(b, pos, diagonal()), dp)
    } else if name == "centaur"@ {
        (knight_v(b, pos) + leaps(b, pos, orthogonal() + diagonal()), dp)
    } else if name == "zebra"@ {
        (leaps(b, pos, ij_deltas(3, 2)), dp)
    } else if name == "giraffe"@ {
        (leaps(b, pos, ij_deltas(4, 1)), dp)
    } else if name == "camel"@ {
        (leaps(b, pos, ij_deltas(3, 1)), dp)
    } else if name == "beacon"@ {
        (beacon_v(b, pos, 0), dp)
    } else if name == "chameleon"@ {
        let (m, dp1) = gen_script_v(ctx, b, dp, pos, false, chameleon_script());
        (m + chameleon_catches(b, pos, alfil_deltas()), dp1)
    } else if mirror_base(name) {
        let (m, dp1) = mirrored_base_v(ctx, b, dp, pos, name);
        (m.map_values(|x: MoveV| mirror_move(b, invert_v(color), x)), dp1)
    } else if name == "windmill-rook"@ {
        text_script_moves(ctx, b, dp, pos, windmill_rook_text())
    } else if name == "windmill-bishop"@ {
        text_script_moves(ctx, b, dp, pos, windmill_bishop_text())
    } else {
        (seq![], dp)
    }
}

// ---------------------------------------------------------------------------
// Lists of moves stay well formed
// ---------------------------------------------------------------------------

pub proof fn lemma_swap_remove_wf(ms: Seq<MoveV>, i: int, p: Position)
    requires
        super::moves_wf_from(ms, p),
        0 <= i < ms.len(),
    ensures
        super::moves_wf_from(swap_remove_v(ms, i), p),
{
    let r = swap_remove_v(ms, i);
    assert forall|k: int| 0 <= k < r.len() implies super::move_wf(#[trigger] r[k]) && move_source(r[k]) == p by {
        if k == i {
            assert(r[k] == ms.last());
        } else {
            assert(r[k] == ms[k]);
        }
    }
}

pub proof fn lemma_push_node_wf(ms: Seq<MoveV>, u: UnitV, p: Position)
    requires
        super::moves_wf_from(ms, p),
        super::unit_wf(u),
        u.from == p,
    ensures
        super::moves_wf_from(push_node_v(ms, u), p),
{
    match same_target_index(ms, u) {
        Some(i) => {
            lemma_first_where(ms, same_target(u));
            lemma_swap_remove_wf(ms, i, p);
            let r = swap_remove_v(ms, i);
            assert forall|k: int| 0 <= k < r.push(MoveV::Single(u)).len() implies super::move_wf(
                #[trigger] r.push(MoveV::Single(u))[k],
            ) && move_source(r.push(MoveV::Single(u))[k]) == p by {
                if k < r.len() {
                    assert(r.push(MoveV::Single(u))[k] == r[k]);
                }
            }
        },
        None => {
            assert forall|k: int| 0 <= k < ms.push(MoveV::Single(u)).len() implies super::move_wf(
                #[trigger] ms.push(MoveV::Single(u))[k],
            ) && move_source(ms.push(MoveV::Single(u))[k]) == p by {
                if k < ms.len() {
                    assert(ms.push(MoveV::Single(u))[k] == ms[k]);
                }
            }
        },
    }
}

pub proof fn lemma_remove_trace_wf(ms: Seq<MoveV>, t: Position, p: Position)
    requires
        super::moves_wf_from(ms, p),
    ensures
        super::moves_wf_from(remove_take_trace(ms, t), p),
{
    match take_trace_index(ms, t) {
        Some(i) => {
            lemma_first_where(ms, |m: MoveV| is_take_of(m, t));
            lemma_swap_remove_wf(ms, i, p);
        },
        None => {},
    }
}

// ---------------------------------------------------------------------------
// Playing a move for real
// ---------------------------------------------------------------------------

/// The rank `turn`'s king must not reach in the macho variant.
pub open spec fn far_rank(turn: Color) -> u8 {
    if turn == Color::White {
        0
    } else {
        7
    }
}

/// Whether `turn` has lost its king in the macho variant: no king left, or a
/// king standing on the far rank it has to reach first.
pub open spec fn macho_king_lost(b: BoardV, turn: Color) -> bool {
    let far = far_rank(turn);
    (forall|x: u8, y: u8| #![trigger cell_v(b, (x, y))]
        x < 8 && y < 8 ==> !(color_on_v(b, (x, y)) == Some(turn) && piece_on_v(b, (x, y)) == Some("king"@)))
        || (exists|x: u8| #![trigger cell_v(b, (x, far))]
        x < 8 && color_on_v(b, (x, far)) == Some(turn) && piece_on_v(b, (x, far)) == Some("king"@))
}

/// The position after a move, before the game's status is decided: the
/// en-passant squares of the mover are cleared and the other side is to move.
pub open spec fn next_turn_v(b: BoardV, m: MoveV) -> BoardV {
    let a = apply_move_v(b, m);
    let a1 = if a.turn == Color::White {
        BoardV { white: SideV { enpassant: seq![], ..a.white }, ..a }
    } else {
        BoardV { black: SideV { enpassant: seq![], ..a.black }, ..a }
    };
    BoardV { turn: invert_v(a.turn), ..a1 }
}

/// The position after a move, with its status decided (checkmate or
/// stalemate when the side to move has no move), and the move cache the
/// decision left on the new position.
pub open spec fn make_move_v(ctx: Ctx, b: BoardV, m: MoveV) -> (BoardV, DpV) {
    let a = next_turn_v(b, m);
    let t = a.turn;
    let (any, dp1) = has_any_v(ctx, a, seq![], t, true, 0);
    if ctx.macho {
        if !any || macho_king_lost(a, t) {
            (BoardV { status: super::board::BoardStatus::Checkmate, ..a }, dp1)
        } else {
            (a, dp1)
        }
    } else if !any {
        let (chk, dp2) = is_check_v(ctx, a, dp1, invert_v(t));
        (
            BoardV {
                status: if chk {
                    super::board::BoardStatus::Checkmate
                } else {
                    super::board::BoardStatus::Stalemate
                },
                ..a
            },
            dp2,
        )
    } else {
        (a, dp1)
    }
}

} // verus!
