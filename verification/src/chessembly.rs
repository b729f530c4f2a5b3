use vstd::prelude::*;

pub mod behavior;
pub mod board;
pub mod interp;
pub mod laws;
pub mod move_laws;
pub mod parse_laws;
pub mod movegen;
pub mod moves;
pub mod semantics;
pub mod text;

pub use behavior::{Behavior, BehaviorChain, BehaviorV};
pub use board::{Board, BoardState, BoardStatus, BothBoardState};
pub use movegen::MoveGen;

verus! {

/// How a game ended.
#[derive(Copy, Clone, PartialEq, Eq, Structural, PartialOrd, Ord, Debug, Hash)]
pub enum GameResult {
    WhiteCheckmates,
    WhiteResigns,
    BlackCheckmates,
    BlackResigns,
    Stalemate,
    DrawAccepted,
    DrawDeclared,
}

/// The two sides.
#[derive(Copy, Clone, PartialEq, Eq, Structural, PartialOrd, Debug, Hash)]
pub enum Color {
    White,
    Black,
}

/// The other side.
pub open spec fn invert_v(c: Color) -> Color {
    match c {
        Color::White => Color::Black,
        Color::Black => Color::White,
    }
}

impl Color {
    pub fn invert(&self) -> (c: Color)
        ensures
            c == invert_v(*self),
    {
        match self {
            Color::White => Color::Black,
            Color::Black => Color::White,
        }
    }
}

/// A piece: its name (as written in scripts and placements) and its side.
#[derive(Clone, Copy, PartialEq, Eq, Debug)]
pub struct Piece<'a> {
    pub piece_type: &'a str,
    pub color: Color,
}

/// The content of one square.
#[derive(Clone, Copy, PartialEq, Eq, Debug)]
pub enum PieceSpan<'a> {
    Piece(Piece<'a>),
    Empty,
}

/// The kinds of move units.
#[derive(Copy, Clone, PartialEq, Eq, Structural, PartialOrd, Ord, Debug, Hash)]
pub enum MoveType {
    Move,
    TakeMove,
    Take,
    TakeJump,
    Catch,
    Shift,
    Castling,
}

/// A square: (column, row), row 0 being the top (black's home side).
pub type Position = (u8, u8);

/// A displacement: (dx, dy) with dy counted upwards.
pub type DeltaPosition = (i8, i8);

/// One elementary step of a move.
#[derive(Eq, PartialOrd, PartialEq, Debug, Hash)]
pub struct ChessMoveUnit<'a> {
    pub from: Position,
    pub take: Position,
    pub move_to: Position,
    pub move_type: MoveType,
    pub state_change: Option<Vec<(&'a str, u8)>>,
    pub transition: Option<&'a str>,
}

/// A move: one unit, or several applied in order.
#[derive(Eq, PartialOrd, PartialEq, Debug, Hash)]
pub enum ChessMove<'a> {
    Single(ChessMoveUnit<'a>),
    Multiple(Vec<ChessMoveUnit<'a>>),
}

// ---------------------------------------------------------------------------
// Mathematical views
// ---------------------------------------------------------------------------

/// A piece, with its name as a character sequence.
pub struct PieceV {
    pub piece_type: Seq<char>,
    pub color: Color,
}

/// The content of a square.
pub enum CellV {
    Piece(PieceV),
    Empty,
}

/// A move unit, with names as character sequences.
pub struct UnitV {
    pub from: Position,
    pub take: Position,
    pub move_to: Position,
    pub move_type: MoveType,
    pub state_change: Option<Seq<(Seq<char>, u8)>>,
    pub transition: Option<Seq<char>>,
}

/// A move.
pub enum MoveV {
    Single(UnitV),
    Multiple(Seq<UnitV>),
}

impl<'a> View for Piece<'a> {
    type V = PieceV;

    open spec fn view(&self) -> PieceV {
        PieceV { piece_type: self.piece_type@, color: self.color }
    }
}

impl<'a> View for PieceSpan<'a> {
    type V = CellV;

    open spec fn view(&self) -> CellV {
        match self {
            PieceSpan::Piece(p) => CellV::Piece(p@),
            PieceSpan::Empty => CellV::Empty,
        }
    }
}

pub open spec fn opt_str_v(o: Option<&str>) -> Option<Seq<char>> {
    match o {
        Some(s) => Some(s@),
        None => None,
    }
}

pub open spec fn pairs_v(s: Seq<(&str, u8)>) -> Seq<(Seq<char>, u8)> {
    s.map_values(|p: (&str, u8)| (p.0@, p.1))
}

pub open spec fn state_change_v(o: Option<Vec<(&str, u8)>>) -> Option<Seq<(Seq<char>, u8)>> {
    match o {
        Some(v) => Some(pairs_v(v@)),
        None => None,
    }
}

impl<'a> View for ChessMoveUnit<'a> {
    type V = UnitV;

    open spec fn view(&self) -> UnitV {
        UnitV {
            from: self.from,
            take: self.take,
            move_to: self.move_to,
            move_type: self.move_type,
            state_change: state_change_v(self.state_change),
            transition: opt_str_v(self.transition),
        }
    }
}

pub open spec fn units_v(s: Seq<ChessMoveUnit>) -> Seq<UnitV> {
    s.map_values(|u: ChessMoveUnit| u@)
}

impl<'a> View for ChessMove<'a> {
    type V = MoveV;

    open spec fn view(&self) -> MoveV {
        match self {
            ChessMove::Single(u) => MoveV::Single(u@),
            ChessMove::Multiple(v) => MoveV::Multiple(units_v(v@)),
        }
    }
}

pub open spec fn moves_v(s: Seq<ChessMove>) -> Seq<MoveV> {
    s.map_values(|m: ChessMove| m@)
}

/// A square on the 8x8 board.
pub open spec fn in_board(p: Position) -> bool {
    p.0 < 8 && p.1 < 8
}

pub open spec fn unit_wf(u: UnitV) -> bool {
    in_board(u.from) && in_board(u.take) && in_board(u.move_to)
}

/// A move whose squares are all on the board, and which has at least one unit.
pub open spec fn move_wf(m: MoveV) -> bool {
    match m {
        MoveV::Single(u) => unit_wf(u),
        MoveV::Multiple(v) => v.len() > 0 && forall|i: int| 0 <= i < v.len() ==> unit_wf(#[trigger] v[i]),
    }
}

/// The unit that stands for a move: the single one, or the first of several.
pub open spec fn first_unit(m: MoveV) -> UnitV {
    match m {
        MoveV::Single(u) => u,
        MoveV::Multiple(v) => v[0],
    }
}

pub open spec fn move_source(m: MoveV) -> Position {
    first_unit(m).from
}

pub open spec fn move_dest(m: MoveV) -> Position {
    first_unit(m).move_to
}

pub open spec fn move_take(m: MoveV) -> Position {
    first_unit(m).take
}

pub open spec fn move_promotion(m: MoveV) -> Option<Seq<char>> {
    first_unit(m).transition
}

/// Every move is well formed and starts at `p`.
pub open spec fn moves_wf_from(ms: Seq<MoveV>, p: Position) -> bool {
    forall|i: int| 0 <= i < ms.len() ==> move_wf(#[trigger] ms[i]) && move_source(ms[i]) == p
}

pub open spec fn moves_wf(ms: Seq<MoveV>) -> bool {
    forall|i: int| 0 <= i < ms.len() ==> move_wf(#[trigger] ms[i])
}

/// A copy of a list of state changes.
pub fn copy_pairs<'a>(v: &Vec<(&'a str, u8)>) -> (r: Vec<(&'a str, u8)>)
    ensures
        pairs_v(r@) == pairs_v(v@),
{
    let mut r: Vec<(&'a str, u8)> = Vec::new();
    let mut i: usize = 0;
    while i < v.len()
        invariant
            i <= v@.len(),
            r@ == v@.subrange(0, i as int),
        decreases v@.len() - i,
    {
        r.push(v[i]);
        i += 1;
    }
    assert(r@ =~= v@);
    r
}

impl<'a> Clone for ChessMoveUnit<'a> {
    fn clone(&self) -> (r: Self)
        ensures
            r@ == self@,
    {
        ChessMoveUnit {
            from: self.from,
            take: self.take,
            move_to: self.move_to,
            move_type: self.move_type,
            state_change: match &self.state_change {
                Some(v) => Some(copy_pairs(v)),
                None => None,
            },
            transition: self.transition,
        }
    }
}

/// A copy of a list of move units.
pub fn copy_units<'a>(v: &Vec<ChessMoveUnit<'a>>) -> (r: Vec<ChessMoveUnit<'a>>)
    ensures
        units_v(r@) == units_v(v@),
{
    let mut r: Vec<ChessMoveUnit<'a>> = Vec::new();
    let mut i: usize = 0;
    while i < v.len()
        invariant
            i <= v@.len(),
            r@.len() == i,
            forall|k: int| 0 <= k < i ==> #[trigger] r@[k]@ == v@[k]@,
        decreases v@.len() - i,
    {
        r.push(v[i].clone());
        i += 1;
    }
    assert(units_v(r@) =~= units_v(v@));
    r
}

impl<'a> Clone for ChessMove<'a> {
    fn clone(&self) -> (r: Self)
        ensures
            r@ == self@,
    {
        match self {
            ChessMove::Single(u) => ChessMove::Single(u.clone()),
            ChessMove::Multiple(v) => ChessMove::Multiple(copy_units(v)),
        }
    }
}

/// A copy of a list of moves.
pub fn copy_moves<'a>(v: &Vec<ChessMove<'a>>) -> (r: Vec<ChessMove<'a>>)
    ensures
        moves_v(r@) == moves_v(v@),
{
    let mut r: Vec<ChessMove<'a>> = Vec::new();
    let mut i: usize = 0;
    while i < v.len()
        invariant
            i <= v@.len(),
            r@.len() == i,
            forall|k: int| 0 <= k < i ==> #[trigger] r@[k]@ == v@[k]@,
        decreases v@.len() - i,
    {
        r.push(v[i].clone());
        i += 1;
    }
    assert(moves_v(r@) =~= moves_v(v@));
    r
}

impl<'a> ChessMove<'a> {
    /// A `Multiple` move has at least one unit.
    pub open spec fn has_unit(&self) -> bool {
        match self {
            ChessMove::Single(_) => true,
            ChessMove::Multiple(v) => v.len() > 0,
        }
    }

    /// The square the piece comes from.
    #[inline]
    pub fn get_source(&self) -> (p: Position)
        requires
            self.has_unit(),
        ensures
            p == move_source(self@),
    {
        match self {
            ChessMove::Single(n) => n.from,
            ChessMove::Multiple(v) => v[0].from,
        }
    }

    /// The square the piece goes to.
    #[inline]
    pub fn get_dest(&self) -> (p: Position)
        requires
            self.has_unit(),
        ensures
            p == move_dest(self@),
    {
        match self {
            ChessMove::Single(n) => n.move_to,
            ChessMove::Multiple(v) => v[0].move_to,
        }
    }

    /// The piece the mover turns into, if any.
    #[inline]
    pub fn get_promotion(&self) -> (p: &Option<&'a str>)
        requires
            self.has_unit(),
        ensures
            opt_str_v(*p) == move_promotion(self@),
    {
        match self {
            ChessMove::Single(n) => &n.transition,
            ChessMove::Multiple(v) => &v[0].transition,
        }
    }

    /// The square whose piece is captured (for the first unit).
    pub fn get_take(&self) -> (p: Position)
        requires
            self.has_unit(),
        ensures
            p == move_take(self@),
    {
        match self {
            ChessMove::Single(n) => n.take,
            ChessMove::Multiple(v) => v[0].take,
        }
    }
}

/// A compiled script: one chain of instructions per `;`-separated piece.
#[derive(Debug, PartialEq, Eq)]
pub struct ChessemblyCompiled<'a> {
    pub chains: Vec<BehaviorChain<'a>>,
}

pub open spec fn chain_v(c: Seq<Behavior>) -> Seq<BehaviorV> {
    c.map_values(|b: Behavior| b@)
}

impl<'a> View for ChessemblyCompiled<'a> {
    type V = Seq<Seq<BehaviorV>>;

    open spec fn view(&self) -> Seq<Seq<BehaviorV>> {
        self.chains@.map_values(|c: BehaviorChain<'a>| chain_v(c@))
    }
}

impl<'a> ChessemblyCompiled<'a> {
    /// Every instruction runs safely (see `behavior_wf`).
    pub open spec fn wf(&self) -> bool {
        semantics::script_wf(self@)
    }
}

/// Every `Multiple` move has a unit.
pub open spec fn moves_have_units(ms: Seq<MoveV>) -> bool {
    forall|i: int| 0 <= i < ms.len() ==> (#[trigger] ms[i] matches MoveV::Multiple(v) ==> v.len() > 0)
}

pub proof fn lemma_wf_has_units(ms: Seq<MoveV>, p: Position)
    requires
        moves_wf_from(ms, p),
    ensures
        moves_have_units(ms),
{
    assert forall|i: int| 0 <= i < ms.len() implies (#[trigger] ms[i] matches MoveV::Multiple(v) ==> v.len()
        > 0) by {
        assert(move_wf(ms[i]));
    }
}

impl<'a> ChessemblyCompiled<'a> {
    /// An empty script.
    pub fn new() -> (r: ChessemblyCompiled<'a>)
        ensures
            r@ == Seq::<Seq<BehaviorV>>::empty(),
    {
        let r = ChessemblyCompiled { chains: Vec::new() };
        assert(r@ =~= Seq::<Seq<BehaviorV>>::empty());
        r
    }

    /// Starts a new, empty chain.
    #[inline]
    pub fn add_command(&mut self)
        ensures
            final(self)@ == old(self)@.push(seq![]),
    {
        let c: Vec<Behavior<'a>> = Vec::new();
        assert(chain_v(c@) =~= Seq::<BehaviorV>::empty());
        self.chains.push(c);
        assert(self@ =~= old(self)@.push(seq![]));
    }

    /// Appends an instruction to the last chain (nothing happens when there is
    /// no chain).
    #[inline]
    pub fn push_behavior(&mut self, behavior: Behavior<'a>)
        ensures
            old(self)@.len() == 0 ==> final(self)@ == old(self)@,
            old(self)@.len() > 0 ==> final(self)@ == old(self)@.update(
                old(self)@.len() - 1,
                old(self)@.last().push(behavior@),
            ),
    {
        let n = self.chains.len();
        if n > 0 {
            let mut last = self.chains.pop().unwrap();
            last.push(behavior);
            self.chains.push(last);
            assert(chain_v(last@) =~= old(self)@.last().push(behavior@));
            assert(self@ =~= old(self)@.update(old(self)@.len() - 1, old(self)@.last().push(behavior@)));
        }
    }

    /// Adds `node` to the moves found, replacing (by swap-removal) the first
    /// move with the same destination and captured square.
    pub fn push_node(nodes: &mut Vec<ChessMove<'a>>, node: ChessMoveUnit<'a>)
        requires
            moves_have_units(moves_v(old(nodes)@)),
        ensures
            moves_v(final(nodes)@) == semantics::push_node_v(moves_v(old(nodes)@), node@),
            moves_have_units(moves_v(final(nodes)@)),
    {
        let ghost ms = moves_v(nodes@);
        let ghost f = semantics::same_target(node@);
        let mut i: usize = 0;
        while i < nodes.len()
            invariant
                i <= nodes@.len(),
                nodes@ == old(nodes)@,
                ms == moves_v(nodes@),
                f == semantics::same_target(node@),
                moves_have_units(ms),
                forall|j: int| 0 <= j < i ==> !f(#[trigger] ms[j]),
            decreases nodes@.len() - i,
        {
            assert(ms[i as int] == nodes@[i as int]@);
            let d = nodes[i].get_dest();
            let t = nodes[i].get_take();
            if d.0 == node.move_to.0 && d.1 == node.move_to.1 && t.0 == node.take.0 && t.1 == node.take.1 {
                proof {
                    semantics::lemma_first_where_at(ms, f, i as int);
                }
                nodes.swap_remove(i);
                nodes.push(ChessMove::Single(node));
                assert(moves_v(nodes@) =~= semantics::swap_remove_v(ms, i as int).push(MoveV::Single(node@)));
                assert(moves_have_units(moves_v(nodes@))) by {
                    assert forall|k: int| 0 <= k < moves_v(nodes@).len() implies (#[trigger] moves_v(nodes@)[k] matches MoveV::Multiple(v) ==> v.len() > 0) by {
                        if k < nodes@.len() - 1 {
                            if k == i {
                                assert(moves_v(nodes@)[k] == ms.last());
                            } else {
                                assert(moves_v(nodes@)[k] == ms[k]);
                            }
                        }
                    }
                }
                return;
            }
            i += 1;
        }
        proof {
            semantics::lemma_first_where(ms, f);
        }
        nodes.push(ChessMove::Single(node));
        assert(moves_v(nodes@) =~= ms.push(MoveV::Single(node@)));
        assert(moves_have_units(moves_v(nodes@))) by {
            assert forall|k: int| 0 <= k < moves_v(nodes@).len() implies (#[trigger] moves_v(nodes@)[k] matches MoveV::Multiple(v) ==> v.len() > 0) by {
                if k < ms.len() {
                    assert(moves_v(nodes@)[k] == ms[k]);
                }
            }
        }
    }
}

impl<'a> ChessemblyCompiled<'a> {
    /// Moves `anchor` back by `delta` (undoing a move by `delta`).
    pub fn cancel_move_anchor(anchor: &mut Position, delta: &DeltaPosition)
        requires
            old(anchor).0 < 128,
            old(anchor).1 < 128,
            0 <= old(anchor).0 - delta.0 < 128,
            0 <= old(anchor).1 + delta.1 < 128,
        ensures
            final(anchor).0 == old(anchor).0 - delta.0,
            final(anchor).1 == old(anchor).1 + delta.1,
    {
        anchor.0 = ((anchor.0 as i8) - delta.0) as u8;
        anchor.1 = ((anchor.1 as i8) + delta.1) as u8;
    }

    /// Whether an enemy of `color` stands on `anchor`.
    pub fn is_enemy<const MACHO: bool, const IMPRISONED: bool, const SIZE: usize>(
        anchor: &Position,
        board: &Board<'a, MACHO, IMPRISONED, SIZE>,
        color: Color,
    ) -> (r: bool)
        requires
            1 <= SIZE <= 255,
        ensures
            r == (semantics::color_on_sized(board@, SIZE as int, *anchor) == Some(invert_v(color))),
            SIZE == 8 ==> r == (semantics::color_on_v(board@, *anchor) == Some(invert_v(color))),
    {
        if board.color_on(anchor) == Some(color.invert()) {
            return true;
        }
        false
    }

    /// Whether a piece of `color` stands on `anchor`.
    pub fn is_friendly<const MACHO: bool, const IMPRISONED: bool, const SIZE: usize>(
        anchor: &Position,
        board: &Board<'a, MACHO, IMPRISONED, SIZE>,
        color: Color,
    ) -> (r: bool)
        requires
            1 <= SIZE <= 255,
        ensures
            r == (semantics::color_on_sized(board@, SIZE as int, *anchor) == Some(color)),
            SIZE == 8 ==> r == (semantics::color_on_v(board@, *anchor) == Some(color)),
    {
        if board.color_on(anchor) == Some(color) {
            return true;
        }
        false
    }

    /// Whether `delta` is (0, 0).
    pub fn is_zero_vector(delta: &DeltaPosition) -> (r: bool)
        ensures
            r == (delta.0 == 0 && delta.1 == 0),
    {
        delta.0 == 0 && delta.1 == 0
    }
}

/// Whether `b` is safe to run (see `behavior_wf`).
fn behavior_ok(b: &Behavior) -> (r: bool)
    ensures
        r == behavior::behavior_wf(b@),
{
    let d = match b {
        Behavior::TakeMove(d) | Behavior::Take(d) | Behavior::Move(d) | Behavior::Catch(d) | Behavior::Shift(
            d,
        ) | Behavior::Anchor(d) | Behavior::Peek(d) | Behavior::Observe(d) | Behavior::Jump(d) | Behavior::Bound(
            d,
        ) | Behavior::Edge(d) | Behavior::EdgeTop(d) | Behavior::EdgeLeft(d) | Behavior::EdgeRight(d)
        | Behavior::EdgeBottom(d) | Behavior::Corner(d) | Behavior::CornerTopLeft(d) | Behavior::CornerTopRight(
            d,
        ) | Behavior::CornerBottomLeft(d) | Behavior::CornerBottomRight(d) | Behavior::Danger(d)
        | Behavior::Enemy(d) | Behavior::Friendly(d) => Some(*d),
        Behavior::PieceOn((_, d)) | Behavior::ColorOn((_, d)) => Some(*d),
        _ => None,
    };
    let delta_fine = match d {
        Some(d) => -120 <= d.0 && d.0 <= 120 && -120 <= d.1 && d.1 <= 120,
        None => true,
    };
    let rest = match b {
        Behavior::AbsoulteX(x) => *x <= 7,
        Behavior::AbsoulteY(y) => *y <= 7,
        Behavior::Absoulte(p) => p.0 <= 7 && p.1 <= 7,
        Behavior::Check => false,
        _ => true,
    };
    delta_fine && rest
}

impl<'a> ChessemblyCompiled<'a> {
    /// Whether every instruction of the script is safe to run.
    pub fn is_wf(&self) -> (r: bool)
        ensures
            r == self.wf(),
    {
        let mut c: usize = 0;
        while c < self.chains.len()
            invariant
                c <= self.chains@.len(),
                forall|k: int, i: int| 0 <= k < c && 0 <= i < self@[k].len() ==> behavior::behavior_wf(
                    #[trigger] self@[k][i],
                ),
            decreases self.chains@.len() - c,
        {
            let chain = &self.chains[c];
            assert(self@[c as int] == chain_v(chain@));
            let mut i: usize = 0;
            while i < chain.len()
                invariant
                    i <= chain@.len(),
                    c < self.chains@.len(),
                    self@[c as int] == chain_v(chain@),
                    forall|k: int, t: int| 0 <= k < c && 0 <= t < self@[k].len() ==> behavior::behavior_wf(
                        #[trigger] self@[k][t],
                    ),
                    forall|t: int| 0 <= t < i ==> behavior::behavior_wf(#[trigger] self@[c as int][t]),
                decreases chain@.len() - i,
            {
                assert(self@[c as int][i as int] == chain@[i as int]@);
                if !behavior_ok(&chain[i]) {
                    return false;
                }
                i += 1;
            }
            c += 1;
        }
        true
    }

    /// Splits one chain text `cs[lo..hi]` into instructions and appends them
    /// to the last chain.
    fn push_chain_tokens(&mut self, script: &'a str, cs: &Vec<char>, lo: usize, hi: usize)
        requires
            cs@ == script@,
            lo < hi <= cs@.len(),
            old(self)@.len() > 0,
        ensures
            final(self)@ == old(self)@.update(
                old(self)@.len() - 1,
                old(self)@.last() + behavior::chain_tokens(cs@.subrange(lo as int, hi as int), 0, 0),
            ),
    {
        let ghost piece = cs@.subrange(lo as int, hi as int);
        let ghost all = behavior::chain_tokens(piece, 0, 0);
        let ghost base = old(self)@.last();
        let len = hi - lo;
        let mut i = lo;
        let mut j = lo;
        let ghost mut acc: Seq<BehaviorV> = seq![];
        loop
            invariant_except_break
                lo <= i <= j <= hi,
                lo < hi,
                old(self)@.len() > 0,
                cs@ == script@,
                hi <= cs@.len(),
                len == hi - lo,
                piece == cs@.subrange(lo as int, hi as int),
                self@.len() == old(self)@.len(),
                self@ == old(self)@.update(old(self)@.len() - 1, base + acc),
                acc + behavior::chain_tokens(piece, i - lo, j - lo) == all,
            ensures
                lo <= i <= j <= hi,
                self@ == old(self)@.update(old(self)@.len() - 1, base + acc),
                acc + behavior::chain_tokens(piece, i - lo, j - lo) == all,
                !behavior::before_last_byte(piece, j - lo),
            decreases hi - j,
        {
            let rel = j - lo;
            let go = rel < len - 1 || (rel == len - 1 && (cs[j] as u32) >= 128);
            assert(go == behavior::before_last_byte(piece, j - lo)) by {
                if rel < len {
                    assert(piece[rel as int] == cs@[j as int]);
                }
            }
            if !go {
                break;
            }
            assert(piece[rel as int] == cs@[j as int]);
            let ws = text::is_whitespace(cs[j]);
            let next_ok = if j + 1 >= hi {
                true
            } else {
                assert(piece[rel + 1] == cs@[j + 1]);
                let c = cs[j + 1];
                text::is_alphabetic(c) || c == '{' || c == '}'
            };
            if ws && next_ok {
                let (a, b) = text::trim_range(cs, i, j);
                assert(cs@.subrange(i as int, j as int) =~= piece.subrange(i - lo, j - lo));
                if a < b {
                    let frag = script.substring_char(a, b);
                    let beh = Behavior::from_str(frag);
                    let ghost acc0 = acc;
                    let ghost prev = self@;
                    assert(prev.last() == base + acc0);
                    self.push_behavior(beh);
                    proof {
                        acc = acc.push(beh@);
                        assert((base + acc0).push(beh@) =~= base + acc);
                    }
                    assert(self@ =~= old(self)@.update(old(self)@.len() - 1, base + acc));
                    i = j;
                }
            }
            j = j + 1;
        }
        assert(cs@.subrange(i as int, hi as int) =~= piece.subrange(i - lo, piece.len() as int));
        if !text::range_all_whitespace(cs, i, hi) {
            let (a, b) = text::trim_range(cs, i, hi);
            let frag = script.substring_char(a, b);
            let beh = Behavior::from_str(frag);
            let ghost acc0 = acc;
            let ghost prev = self@;
            assert(prev.last() == base + acc0);
            self.push_behavior(beh);
            proof {
                acc = acc.push(beh@);
                assert((base + acc0).push(beh@) =~= base + acc);
            }
        }
        assert(acc =~= all);
        assert(self@ =~= old(self)@.update(old(self)@.len() - 1, base + all));
    }

    /// Compiles a script: its `;`-separated pieces, comments (`#`) and blank
    /// pieces left out, each split into instructions at white space followed
    /// by a letter, a brace or the end.
    pub fn from_script(script: &'a str) -> (r: Result<ChessemblyCompiled<'a>, ()>)
        ensures
            r matches Ok(c) && c@ == behavior::script_text_v(script@),
    {
        let cs = text::str_chars(script);
        let n = cs.len();
        let mut ret = ChessemblyCompiled::new();
        let mut start: usize = 0;
        let ghost mut done: Seq<Seq<char>> = seq![];
        assert(cs@.subrange(0, n as int) =~= script@);
        assert(done + text::split(cs@.subrange(0, n as int), ';') =~= text::split(script@, ';'));
        loop
            invariant_except_break
                start <= n,
                n == cs@.len(),
                cs@ == script@,
                text::split(script@, ';') == done + text::split(cs@.subrange(start as int, n as int), ';'),
                ret@ == behavior::chain_texts_v(done),
            ensures
                ret@ == behavior::chain_texts_v(text::split(script@, ';')),
            decreases n - start,
        {
            let ghost rest = cs@.subrange(start as int, n as int);
            let found = text::find_in_range(&cs, start, n, ';');
            let hi = match found {
                Some(k) => k,
                None => n,
            };
            proof {
                text::lemma_find_from_range(rest, ';', 0);
            }
            let ghost piece = cs@.subrange(start as int, hi as int);
            assert(piece =~= rest.subrange(0, hi - start));
            let (tlo, thi) = text::trim_range(&cs, start, hi);
            let comment = tlo < thi && cs[tlo] == '#';
            assert(comment == (text::trim(piece).len() > 0 && text::trim(piece)[0] == '#')) by {
                if tlo < thi {
                    assert(cs@.subrange(tlo as int, thi as int)[0] == cs@[tlo as int]);
                }
            }
            if !comment && !text::range_all_whitespace(&cs, start, hi) {
                ret.add_command();
                assert(start < hi) by {
                    if start == hi {
                        assert(text::all_whitespace(cs@.subrange(start as int, hi as int)));
                    }
                }
                ret.push_chain_tokens(script, &cs, start, hi);
                assert(ret@ =~= behavior::chain_texts_v(done).push(behavior::chain_tokens(piece, 0, 0)));
            }
            proof {
                assert(done.push(piece).drop_last() =~= done);
                done = done.push(piece);
            }
            match found {
                Some(k) => {
                    assert(cs@.subrange(k + 1, n as int) =~= rest.subrange(k - start + 1, rest.len() as int));
                    assert(text::split(rest, ';') == seq![piece] + text::split(cs@.subrange(k + 1, n as int), ';'));
                    assert(text::split(script@, ';') =~= done + text::split(cs@.subrange(k + 1, n as int), ';'));
                    start = k + 1;
                },
                None => {
                    assert(text::split(rest, ';') == seq![rest]);
                    assert(text::split(script@, ';') =~= done);
                    break;
                },
            }
        }
        Ok(ret)
    }
}

} // verus!
