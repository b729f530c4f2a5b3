//! The interfaces a game offers to the search: its moves and its states.
use vstd::prelude::*;

use crate::chessembly::{move_dest, move_source, ChessMove};

pub mod game_logic;
pub mod search;

verus! {

/// A move of some game. Equality is needed to compare killer moves.
pub trait GameMove: Sized + Clone + PartialEq + std::fmt::Debug {
    /// Whether the move has the data its hash reads.
    spec fn hashable(&self) -> bool;

    /// A hash of the move for the history heuristic (0 when the game
    /// provides none).
    fn move_hash(&self) -> (r: u64)
        requires
            self.hashable(),
        default_ensures
            r == 0,
    {
        0
    }
}

/// The hash of a move from `src` to `dst`: the four coordinates packed into
/// the low four bytes.
pub open spec fn square_pair_hash(src: (u8, u8), dst: (u8, u8)) -> u64 {
    (src.0 as u64) | ((src.1 as u64) << 8u64) | ((dst.0 as u64) << 16u64) | ((dst.1 as u64) << 24u64)
}

impl<'a> GameMove for ChessMove<'a> {
    open spec fn hashable(&self) -> bool {
        self.has_unit()
    }

    /// Packs the source and destination squares of the (first) unit.
    fn move_hash(&self) -> (r: u64)
        ensures
            r == square_pair_hash(move_source(self@), move_dest(self@)),
    {
        let src = self.get_source();
        let dst = self.get_dest();
        (src.0 as u64) | ((src.1 as u64) << 8u64) | ((dst.0 as u64) << 16u64) | ((dst.1 as u64) << 24u64)
    }
}

/// A game state the search can explore: its legal moves, the state after a
/// move, whether the game is over, and the scores that guide the search.
/// The spec functions name what the methods return (for the three loudness
/// methods, which have defaults, see `loudness_follows_spec`); the methods
/// that take `&mut self` (to fill caches) keep all of them.
pub trait GameState: Sized + Clone {
    type Move: GameMove;

    /// Whether the game is over in this state.
    spec fn terminal_v(&self) -> bool;

    /// The static score of this state for the side to move.
    spec fn eval_v(&self) -> i32;

    /// The legal moves of the side to move, in the order they are listed.
    spec fn moves_v(&self) -> Seq<Self::Move>;

    /// The state after `m`.
    spec fn next_v(&self, m: Self::Move) -> Self;

    /// The ordering score of `m` in this state.
    spec fn score_v(&self, m: Self::Move) -> i32;

    /// Whether `m` is loud (a capture or a promotion): what `is_capture`
    /// answers (see `loudness_follows_spec`).
    spec fn capture_v(&self, m: Self::Move) -> bool;

    /// The material gain `m` may bring (`i32::MAX`: unknown, always
    /// searched): what `loud_move_gain` answers.
    spec fn gain_v(&self, m: Self::Move) -> i32;

    /// The static exchange score of `m` (`i32::MAX`: never pruned): what
    /// `static_exchange_evaluation_move` answers.
    spec fn see_v(&self, m: Self::Move) -> i32;

    /// The legal moves of the side to move.
    fn get_legal_moves(&mut self) -> (r: Vec<Self::Move>)
        ensures
            r@ == old(self).moves_v(),
            final(self).terminal_v() == old(self).terminal_v(),
            final(self).eval_v() == old(self).eval_v(),
            final(self).moves_v() == old(self).moves_v(),
            forall|m: Self::Move| #[trigger] final(self).next_v(m) == old(self).next_v(m),
            forall|m: Self::Move| #[trigger] final(self).score_v(m) == old(self).score_v(m),
            forall|m: Self::Move| #[trigger] final(self).capture_v(m) == old(self).capture_v(m),
            forall|m: Self::Move| #[trigger] final(self).gain_v(m) == old(self).gain_v(m),
            forall|m: Self::Move| #[trigger] final(self).see_v(m) == old(self).see_v(m),
    ;

    /// The state after `m`.
    fn make_move(&self, m: &Self::Move) -> (r: Self)
        ensures
            r == self.next_v(*m),
    ;

    /// Whether the game is over.
    fn is_terminal(&self) -> (r: bool)
        ensures
            r == self.terminal_v(),
    ;

    /// The score of the state for the side to move; never `i32::MIN`, so
    /// that the search can negate it.
    fn evaluate(&mut self) -> (r: i32)
        ensures
            r == old(self).eval_v(),
            r > i32::MIN,
            final(self).terminal_v() == old(self).terminal_v(),
            final(self).eval_v() == old(self).eval_v(),
            final(self).moves_v() == old(self).moves_v(),
            forall|m: Self::Move| #[trigger] final(self).next_v(m) == old(self).next_v(m),
            forall|m: Self::Move| #[trigger] final(self).score_v(m) == old(self).score_v(m),
            forall|m: Self::Move| #[trigger] final(self).capture_v(m) == old(self).capture_v(m),
            forall|m: Self::Move| #[trigger] final(self).gain_v(m) == old(self).gain_v(m),
            forall|m: Self::Move| #[trigger] final(self).see_v(m) == old(self).see_v(m),
    ;

    /// An ordering score for `m` (higher is searched first).
    fn score_move(&self, m: &Self::Move) -> (r: i32)
        ensures
            r == self.score_v(*m),
    ;

    /// A hash of the state for the transposition table (0: no table).
    fn board_hash(&self) -> (r: u64)
        default_ensures
            r == 0,
    {
        0
    }

    /// Whether `m` is loud (capture-like): by default, whether its ordering
    /// score is above 500.
    fn is_capture(&self, m: &Self::Move) -> (r: bool)
        default_ensures
            r == (self.score_v(*m) > 500),
    {
        self.score_move(m) > 500
    }

    /// The material gain `m` may bring; by default `i32::MAX`, so that delta
    /// pruning never skips a move.
    fn loud_move_gain(&self, m: &Self::Move) -> (r: i32)
        default_ensures
            r == i32::MAX,
    {
        i32::MAX
    }

    /// The static exchange score of `m`; by default `i32::MAX`, so that no
    /// move is pruned as a losing exchange.
    fn static_exchange_evaluation_move(&self, m: &Self::Move) -> (r: i32)
        default_ensures
            r == i32::MAX,
    {
        i32::MAX
    }
}

/// Whether the loudness answers of `S` (`is_capture`, `loud_move_gain` and
/// `static_exchange_evaluation_move`, its own or the defaults) are the ones
/// its spec functions `capture_v`, `gain_v` and `see_v` name, in every state.
pub open spec fn loudness_follows_spec<S: GameState>() -> bool {
    &&& forall|s: &S, m: &S::Move, r: bool| #[trigger] call_ensures(S::is_capture, (s, m), r) ==> r == s.capture_v(*m)
    &&& forall|s: &S, m: &S::Move, r: i32|
        #[trigger] call_ensures(S::loud_move_gain, (s, m), r) ==> r == s.gain_v(*m)
    &&& forall|s: &S, m: &S::Move, r: i32|
        #[trigger] call_ensures(S::static_exchange_evaluation_move, (s, m), r) ==> r == s.see_v(*m)
}

/// Whether two states answer every query of the search alike.
pub open spec fn same_game<S: GameState>(a: S, b: S) -> bool {
    &&& a.terminal_v() == b.terminal_v()
    &&& a.eval_v() == b.eval_v()
    &&& a.moves_v() == b.moves_v()
    &&& forall|m: S::Move| #[trigger] a.next_v(m) == b.next_v(m)
    &&& forall|m: S::Move| #[trigger] a.score_v(m) == b.score_v(m)
    &&& forall|m: S::Move| #[trigger] a.capture_v(m) == b.capture_v(m)
    &&& forall|m: S::Move| #[trigger] a.gain_v(m) == b.gain_v(m)
    &&& forall|m: S::Move| #[trigger] a.see_v(m) == b.see_v(m)
}

} // verus!
