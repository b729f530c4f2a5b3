//! The tables an alpha-beta search keeps between nodes: killer moves per
//! depth, a history score per move and a transposition table per position.
use std::collections::HashMap;
use vstd::pervasive::VecAdditionalExecFns;
use vstd::prelude::*;
use vstd::std_specs::cmp::PartialEqSpec;

use super::{loudness_follows_spec, same_game, GameState};

verus! {

/// The default search depth.
pub const SEARCH_DEPTH: u8 = 3;

/// The hard limit on the depth of the main search.
pub const HARD_DEPTH: u8 = 6;

/// The most plies the quiescence search adds.
pub const QUIESCENCE_DEPTH: u8 = 6;

/// The safety margin of delta pruning (centipawns): a loud move is skipped
/// when even its gain plus this margin cannot lift the stand-pat score
/// above alpha.
pub const DELTA_MARGIN: i32 = 200;

/// The score a move gets for being one of the killers of its depth.
pub const KILLER_BONUS: i32 = 9000;

/// Per depth, the two latest quiet moves that caused a beta cutoff (the
/// latest first).
pub struct KillerTable<M: Clone + PartialEq> {
    table: Vec<(Option<M>, Option<M>)>,
}

impl<M: Clone + PartialEq> View for KillerTable<M> {
    type V = Seq<(Option<M>, Option<M>)>;

    closed spec fn view(&self) -> Seq<(Option<M>, Option<M>)> {
        self.table@
    }
}

/// Whether `slot` holds a move equal to `m`.
pub open spec fn slot_matches<M: PartialEq>(slot: Option<M>, m: M) -> bool {
    match slot {
        Some(k) => k.eq_spec(&m),
        None => false,
    }
}

/// The slots of a depth after `m` became its latest killer: the former
/// first killer is now second, and a clone of `m` is first.
pub open spec fn killer_pushed<M: Clone>(before: (Option<M>, Option<M>), after: (Option<M>, Option<M>), m: M) -> bool {
    &&& after.1 == before.0
    &&& (after.0 matches Some(c) && cloned(m, c))
}

impl<M: Clone + PartialEq> KillerTable<M> {
    /// An empty table for the depths 0 to `max_depth`.
    pub fn new(max_depth: usize) -> (r: Self)
        requires
            max_depth < usize::MAX,
        ensures
            r@.len() == max_depth + 1,
            forall|i: int| 0 <= i < r@.len() ==> #[trigger] r@[i] == (None::<M>, None::<M>),
    {
        let mut table: Vec<(Option<M>, Option<M>)> = Vec::new();
        let mut i: usize = 0;
        while i <= max_depth
            invariant
                i <= max_depth + 1,
                max_depth < usize::MAX,
                table@.len() == i,
                forall|j: int| 0 <= j < i ==> #[trigger] table@[j] == (None::<M>, None::<M>),
            decreases max_depth + 1 - i,
        {
            table.push((None, None));
            i += 1;
        }
        KillerTable { table }
    }

    /// Whether the first killer of depth `d` equals `m`.
    fn first_is(&self, d: usize, m: &M) -> (r: bool)
        requires
            d < self@.len(),
        ensures
            M::obeys_eq_spec() ==> r == slot_matches(self@[d as int].0, *m),
    {
        match &self.table[d].0 {
            Some(k) => k.eq(m),
            None => false,
        }
    }

    /// Whether the second killer of depth `d` equals `m`.
    fn second_is(&self, d: usize, m: &M) -> (r: bool)
        requires
            d < self@.len(),
        ensures
            M::obeys_eq_spec() ==> r == slot_matches(self@[d as int].1, *m),
    {
        match &self.table[d].1 {
            Some(k) => k.eq(m),
            None => false,
        }
    }

    /// Records `m` as the latest killer of `depth`: unless it already is
    /// the first killer there, the first killer moves to the second slot
    /// and a clone of `m` takes the first. Depths beyond the table are
    /// ignored.
    pub fn store(&mut self, depth: u8, m: &M)
        ensures
            final(self)@.len() == old(self)@.len(),
            forall|i: int| 0 <= i < old(self)@.len() && i != depth ==> #[trigger] final(self)@[i] == old(self)@[i],
            depth < old(self)@.len() ==> {
                ||| final(self)@[depth as int] == old(self)@[depth as int]
                ||| killer_pushed(old(self)@[depth as int], final(self)@[depth as int], *m)
            },
            depth < old(self)@.len() && M::obeys_eq_spec() ==> if slot_matches(old(self)@[depth as int].0, *m) {
                final(self)@[depth as int] == old(self)@[depth as int]
            } else {
                killer_pushed(old(self)@[depth as int], final(self)@[depth as int], *m)
            },
    {
        let d = depth as usize;
        if d >= self.table.len() {
            return;
        }
        if !self.first_is(d, m) {
            let mut slot: (Option<M>, Option<M>) = (None, None);
            self.table.set_and_swap(d, &mut slot);
            let (first, _) = slot;
            let c = m.clone();
            self.table.set(d, (Some(c), first));
        }
    }

    /// `KILLER_BONUS` when `m` is one of the two killers of `depth`, else 0.
    pub fn get_bonus(&self, depth: u8, m: &M) -> (r: i32)
        ensures
            r == 0 || r == KILLER_BONUS,
            depth >= self@.len() ==> r == 0,
            depth < self@.len() && M::obeys_eq_spec() ==> r == (if slot_matches(self@[depth as int].0, *m)
                || slot_matches(self@[depth as int].1, *m) {
                KILLER_BONUS
            } else {
                0
            }),
    {
        let d = depth as usize;
        if d >= self.table.len() {
            return 0;
        }
        if self.first_is(d, m) || self.second_is(d, m) {
            KILLER_BONUS
        } else {
            0
        }
    }
}

/// The score of `key` in a history table: 0 when it has none.
pub open spec fn history_score(m: Map<u64, i32>, key: u64) -> int {
    if m.contains_key(key) {
        m[key] as int
    } else {
        0
    }
}

/// Per move (by its hash), the sum of depth² over the beta cutoffs it caused.
pub struct HistoryTable {
    scores: HashMap<u64, i32>,
}

impl View for HistoryTable {
    type V = Map<u64, i32>;

    closed spec fn view(&self) -> Map<u64, i32> {
        self.scores@
    }
}

impl HistoryTable {
    /// An empty table.
    pub fn new() -> (r: Self)
        ensures
            r@ == Map::<u64, i32>::empty(),
    {
        HistoryTable { scores: HashMap::new() }
    }

    /// Adds depth² to the score of `key`; the key 0 (a move without a hash)
    /// is ignored.
    pub fn update(&mut self, key: u64, depth: u8)
        requires
            key != 0 ==> history_score(old(self)@, key) + depth * depth <= i32::MAX,
        ensures
            final(self)@ == (if key == 0 {
                old(self)@
            } else {
                old(self)@.insert(key, (history_score(old(self)@, key) + depth * depth) as i32)
            }),
    {
        if key == 0 {
            return;
        }
        let d = depth as i32;
        assert(d * d <= 255 * 255) by (nonlinear_arith)
            requires
                0 <= d <= 255,
        ;
        let old_score = self.get(key);
        self.scores.insert(key, old_score + d * d);
    }

    /// The score of `key`: 0 for the key 0 and for keys without a score.
    pub fn get(&self, key: u64) -> (r: i32)
        ensures
            r == (if key == 0 {
                0
            } else {
                history_score(self@, key)
            }),
    {
        if key == 0 {
            return 0;
        }
        match self.scores.get(&key) {
            Some(v) => *v,
            None => 0,
        }
    }
}

/// How a stored score relates to the true score of its position.
#[derive(Clone, Copy, PartialEq, Eq, Structural, Debug)]
pub enum NodeType {
    /// The score lay inside the window: it is exact.
    Exact,
    /// The search failed high: the true score is at least this.
    LowerBound,
    /// The search failed low: the true score is at most this.
    UpperBound,
}

/// A stored search result.
#[derive(Clone, Copy, Debug)]
pub struct TtEntry {
    pub depth: u8,
    pub score: i32,
    pub node_type: NodeType,
    /// The hash of the best move found there (0: none).
    pub best_move: u64,
}

/// Search results per position (by its hash).
pub struct TranspositionTable {
    table: HashMap<u64, TtEntry>,
}

impl View for TranspositionTable {
    type V = Map<u64, TtEntry>;

    closed spec fn view(&self) -> Map<u64, TtEntry> {
        self.table@
    }
}

/// The score a probe of `key` gives back for a search of `depth` with the
/// window (alpha, beta): the stored score when it was searched at least as
/// deep and is exact, or a bound that already falls outside the window.
pub open spec fn probe_v(m: Map<u64, TtEntry>, key: u64, depth: u8, alpha: i32, beta: i32) -> Option<i32> {
    if !m.contains_key(key) || m[key].depth < depth {
        None
    } else {
        let e = m[key];
        match e.node_type {
            NodeType::Exact => Some(e.score),
            NodeType::LowerBound => if e.score >= beta {
                Some(e.score)
            } else {
                None
            },
            NodeType::UpperBound => if e.score <= alpha {
                Some(e.score)
            } else {
                None
            },
        }
    }
}

/// The table after storing a result for `key` searched to `depth`: it
/// replaces the entry there unless that one was searched deeper.
pub open spec fn store_v(m: Map<u64, TtEntry>, key: u64, e: TtEntry) -> Map<u64, TtEntry> {
    if !m.contains_key(key) || e.depth >= m[key].depth {
        m.insert(key, e)
    } else {
        m
    }
}

impl TranspositionTable {
    /// An empty table.
    pub fn new() -> (r: Self)
        ensures
            r@ == Map::<u64, TtEntry>::empty(),
    {
        TranspositionTable { table: HashMap::new() }
    }

    /// The stored score of `key` that a search of `depth` with the window
    /// (alpha, beta) can return at once, if any.
    pub fn probe(&self, key: u64, depth: u8, alpha: i32, beta: i32) -> (r: Option<i32>)
        ensures
            r == probe_v(self@, key, depth, alpha, beta),
    {
        let e = match self.table.get(&key) {
            Some(e) => e,
            None => return None,
        };
        if e.depth < depth {
            return None;
        }
        match e.node_type {
            NodeType::Exact => Some(e.score),
            NodeType::LowerBound => if e.score >= beta {
                Some(e.score)
            } else {
                None
            },
            NodeType::UpperBound => if e.score <= alpha {
                Some(e.score)
            } else {
                None
            },
        }
    }

    /// Stores a result for `key`, unless the entry there was searched deeper.
    pub fn store(&mut self, key: u64, depth: u8, score: i32, node_type: NodeType, best_move: u64)
        ensures
            final(self)@ == store_v(old(self)@, key, TtEntry { depth, score, node_type, best_move }),
    {
        let replace = match self.table.get(&key) {
            None => true,
            Some(e) => depth >= e.depth,
        };
        if replace {
            self.table.insert(key, TtEntry { depth, score, node_type, best_move });
        }
    }

    /// The hash of the best move stored for `key` (0 when there is none),
    /// whatever depth it was searched to.
    pub fn get_best_move(&self, key: u64) -> (r: u64)
        ensures
            r == (if self@.contains_key(key) {
                self@[key].best_move
            } else {
                0
            }),
    {
        match self.table.get(&key) {
            Some(e) => e.best_move,
            None => 0,
        }
    }
}

/// The larger of two scores.
pub open spec fn max_score(a: i32, b: i32) -> i32 {
    if a >= b {
        a
    } else {
        b
    }
}

/// The larger of two numbers.
pub open spec fn max_int(a: int, b: int) -> int {
    if a >= b {
        a
    } else {
        b
    }
}

/// Whether delta pruning skips a loud move worth `gain` (unless it is
/// `i32::MAX`, which marks a move that is always searched): when the
/// stand-pat score plus the gain plus the margin does not exceed alpha.
pub open spec fn delta_prunes(stand_pat: i32, gain: i32, alpha: int) -> bool {
    gain != i32::MAX && stand_pat + gain + DELTA_MARGIN <= alpha
}

/// Whether delta pruning skips a loud move worth `gain`.
pub fn delta_prune(stand_pat: i32, gain: i32, alpha: i32) -> (r: bool)
    ensures
        r == delta_prunes(stand_pat, gain, alpha as int),
{
    gain != i32::MAX && (stand_pat as i64) + (gain as i64) + (DELTA_MARGIN as i64) <= (alpha as i64)
}

/// What a node of the quiescence search does next: return a score, or go
/// on with a new alpha.
#[derive(Clone, Copy, PartialEq, Eq, Structural, Debug)]
pub enum QuiescenceStep {
    Return(i32),
    Continue(i32),
}

/// What a quiescence node does with its static score (stand pat): it
/// returns beta when the stand pat reaches beta; otherwise alpha is raised
/// to the stand pat, and returned at once when no depth is left.
pub fn stand_pat_step(stand_pat: i32, alpha: i32, beta: i32, depth_limit: u8) -> (r: QuiescenceStep)
    ensures
        r == (if stand_pat >= beta {
            QuiescenceStep::Return(beta)
        } else if depth_limit == 0 {
            QuiescenceStep::Return(max_score(alpha, stand_pat))
        } else {
            QuiescenceStep::Continue(max_score(alpha, stand_pat))
        }),
{
    if stand_pat >= beta {
        return QuiescenceStep::Return(beta);
    }
    let mut alpha = alpha;
    if stand_pat > alpha {
        alpha = stand_pat;
    }
    if depth_limit == 0 {
        return QuiescenceStep::Return(alpha);
    }
    QuiescenceStep::Continue(alpha)
}

/// What a quiescence node does with the score of a searched move: it
/// returns beta when the score reaches beta (fail-hard cutoff); otherwise
/// alpha is raised to the score.
pub fn child_step(score: i32, alpha: i32, beta: i32) -> (r: QuiescenceStep)
    ensures
        r == (if score >= beta {
            QuiescenceStep::Return(beta)
        } else {
            QuiescenceStep::Continue(max_score(alpha, score))
        }),
{
    if score >= beta {
        return QuiescenceStep::Return(beta);
    }
    if score > alpha {
        QuiescenceStep::Continue(score)
    } else {
        QuiescenceStep::Continue(alpha)
    }
}

/// `e` placed before the first entry of `r` with a smaller score (after
/// every entry with a score at least as high).
pub open spec fn insert_desc<M>(r: Seq<(i32, M)>, e: (i32, M)) -> Seq<(i32, M)>
    decreases r.len(),
{
    if r.len() == 0 {
        seq![e]
    } else if r[0].0 < e.0 {
        seq![e] + r
    } else {
        seq![r[0]] + insert_desc(r.drop_first(), e)
    }
}

/// The entries in descending order of their scores, entries with equal
/// scores in the order they came.
pub open spec fn sort_desc<M>(s: Seq<(i32, M)>) -> Seq<(i32, M)>
    decreases s.len(),
{
    if s.len() == 0 {
        s
    } else {
        insert_desc(sort_desc(s.drop_last()), s.last())
    }
}

proof fn lemma_insert_desc_index<M>(r: Seq<(i32, M)>, e: (i32, M), j: int)
    requires
        0 <= j <= r.len(),
        forall|k: int| 0 <= k < j ==> r[k].0 >= e.0,
        j < r.len() ==> r[j].0 < e.0,
    ensures
        insert_desc(r, e) == r.insert(j, e),
    decreases r.len(),
{
    if r.len() == 0 {
        assert(r.insert(j, e) =~= seq![e]);
    } else if r[0].0 < e.0 {
        assert(r.insert(j, e) =~= seq![e] + r);
    } else {
        let t = r.drop_first();
        assert forall|k: int| 0 <= k < j - 1 implies t[k].0 >= e.0 by {
            assert(t[k] == r[k + 1]);
        }
        lemma_insert_desc_index(t, e, j - 1);
        assert(r.insert(j, e) =~= seq![r[0]] + t.insert(j - 1, e));
    }
}

/// The moves in descending order of their scores, keeping the order of
/// moves with equal scores.
fn sort_by_score_desc<M>(scored: Vec<(i32, M)>) -> (r: Vec<(i32, M)>)
    ensures
        r@ == sort_desc(scored@),
{
    let ghost all = scored@;
    let mut rest = scored;
    let mut r: Vec<(i32, M)> = Vec::new();
    let ghost mut k: int = 0;
    while rest.len() > 0
        invariant
            0 <= k <= all.len(),
            rest@ == all.subrange(k, all.len() as int),
            r@ == sort_desc(all.subrange(0, k)),
        decreases rest@.len(),
    {
        let e = rest.remove(0);
        let mut j: usize = 0;
        while j < r.len() && r[j].0 >= e.0
            invariant
                j <= r@.len(),
                forall|q: int| 0 <= q < j ==> r@[q].0 >= e.0,
            decreases r@.len() - j,
        {
            j += 1;
        }
        proof {
            lemma_insert_desc_index(r@, e, j as int);
            let w = all.subrange(0, k + 1);
            assert(w.drop_last() =~= all.subrange(0, k));
            assert(w.last() == e);
        }
        r.insert(j, e);
        proof {
            k = k + 1;
            assert(rest@ =~= all.subrange(k, all.len() as int));
        }
    }
    assert(all.subrange(0, k) =~= all);
    r
}

/// The loud moves among `ms` (captures whose static exchange does not
/// lose), in order, each with its ordering score.
pub open spec fn loud_entries<S: GameState>(s: S, ms: Seq<S::Move>) -> Seq<(i32, S::Move)>
    decreases ms.len(),
{
    if ms.len() == 0 {
        seq![]
    } else {
        loud_entries(s, ms.drop_last()) + (if s.capture_v(ms.last()) && s.see_v(ms.last()) >= 0 {
            seq![(s.score_v(ms.last()), ms.last())]
        } else {
            seq![]
        })
    }
}

/// The loud moves of `s` in the order the quiescence search tries them:
/// best ordering score first.
pub open spec fn loud_order<S: GameState>(s: S) -> Seq<(i32, S::Move)> {
    sort_desc(loud_entries(s, s.moves_v()))
}

/// The value of the quiescence search of `s` with the window (alpha, beta)
/// and `depth` plies left: the evaluation of a finished game; beta when the
/// stand pat reaches it; else alpha raised to the stand pat, and, with plies
/// left, raised further by the loud moves (`loud_loop`).
pub open spec fn quiescence_v<S: GameState>(s: S, alpha: int, beta: int, depth: u8) -> int
    decreases depth as int, 1int, 0int,
{
    if s.terminal_v() {
        s.eval_v() as int
    } else if s.eval_v() >= beta {
        beta
    } else if depth == 0 {
        max_int(alpha, s.eval_v() as int)
    } else {
        loud_loop(s, s.eval_v(), loud_order(s), beta, max_int(alpha, s.eval_v() as int), depth)
    }
}

/// The loud moves `ms` of `s` tried in turn: one whose gain cannot lift the
/// stand pat above alpha is skipped; the others are searched from the
/// opponent's side with the window (-beta, -alpha); a score reaching beta
/// ends the node with beta, a higher score raises alpha; at the end, alpha.
pub open spec fn loud_loop<S: GameState>(
    s: S,
    stand_pat: i32,
    ms: Seq<(i32, S::Move)>,
    beta: int,
    alpha: int,
    depth: u8,
) -> int
    decreases depth as int, 0int, ms.len(),
{
    if ms.len() == 0 || depth == 0 {
        alpha
    } else {
        let m = ms[0].1;
        if delta_prunes(stand_pat, s.gain_v(m), alpha) {
            loud_loop(s, stand_pat, ms.drop_first(), beta, alpha, depth)
        } else {
            let score = -quiescence_v(s.next_v(m), -beta, -alpha, (depth - 1) as u8);
            if score >= beta {
                beta
            } else {
                loud_loop(s, stand_pat, ms.drop_first(), beta, max_int(alpha, score), depth)
            }
        }
    }
}

/// The quiescence search, adding one to `qnodes` (wrapping around at
/// 2^64) for every node it visits.
fn quiescence_counted<S: GameState>(state: &mut S, alpha: i32, beta: i32, depth_limit: u8, qnodes: &mut u64) -> (r: i32)
    requires
        loudness_follows_spec::<S>(),
        alpha > i32::MIN,
        beta > i32::MIN,
    ensures
        r == quiescence_v(*old(state), alpha as int, beta as int, depth_limit),
        r > i32::MIN,
        old(state).terminal_v() ==> r == old(state).eval_v(),
        !old(state).terminal_v() && old(state).eval_v() >= beta ==> r == beta,
        !old(state).terminal_v() && old(state).eval_v() < beta ==> {
            ||| r == beta
            ||| max_score(alpha, old(state).eval_v()) <= r < beta
            ||| (alpha >= beta && r == alpha)
        },
        !old(state).terminal_v() && old(state).eval_v() < beta && depth_limit == 0 ==> r == max_score(
            alpha,
            old(state).eval_v(),
        ),
    decreases depth_limit,
{
    let ghost alpha_in = alpha;
    let ghost s0 = *old(state);
    *qnodes = qnodes.wrapping_add(1);
    if state.is_terminal() {
        return state.evaluate();
    }
    let stand_pat = state.evaluate();
    let mut cur = match stand_pat_step(stand_pat, alpha, beta, depth_limit) {
        QuiescenceStep::Return(v) => return v,
        QuiescenceStep::Continue(a) => a,
    };
    let ghost alpha0 = cur;

    let mut moves = state.get_legal_moves();
    let ghost all = moves@;
    assert(all == s0.moves_v());
    assert(same_game(*state, s0));
    let mut scored: Vec<(i32, S::Move)> = Vec::new();
    let ghost mut k: int = 0;
    while moves.len() > 0
        invariant
            0 <= k <= all.len(),
            moves@ == all.subrange(k, all.len() as int),
            scored@ == loud_entries(s0, all.subrange(0, k)),
            same_game(*state, s0),
            loudness_follows_spec::<S>(),
        decreases moves@.len(),
    {
        let m = moves.remove(0);
        proof {
            let w = all.subrange(0, k + 1);
            assert(w.drop_last() =~= all.subrange(0, k));
            assert(w.last() == m);
        }
        if state.is_capture(&m) && state.static_exchange_evaluation_move(&m) >= 0 {
            let score = state.score_move(&m);
            scored.push((score, m));
        } else {
            assert(scored@ =~= scored@ + seq![]);
        }
        proof {
            k = k + 1;
            assert(moves@ =~= all.subrange(k, all.len() as int));
        }
    }
    assert(all.subrange(0, k) =~= all);
    let loud_moves = sort_by_score_desc(scored);
    let ghost lm = loud_moves@;
    assert(lm == loud_order(s0));
    assert(lm.subrange(0, lm.len() as int) =~= lm);
    assert(quiescence_v(s0, alpha_in as int, beta as int, depth_limit) == loud_loop(
        s0,
        stand_pat,
        lm,
        beta as int,
        alpha0 as int,
        depth_limit,
    ));
    let mut i: usize = 0;
    while i < loud_moves.len()
        invariant
            i <= lm.len(),
            lm == loud_moves@,
            lm == loud_order(s0),
            cur > i32::MIN,
            beta > i32::MIN,
            depth_limit > 0,
            !s0.terminal_v(),
            stand_pat == s0.eval_v(),
            stand_pat < beta,
            s0 == *old(state),
            same_game(*state, s0),
            loudness_follows_spec::<S>(),
            alpha0 == max_score(alpha_in, stand_pat),
            alpha0 <= cur < beta || cur == alpha0,
            alpha_in == alpha,
            loud_loop(s0, stand_pat, lm.subrange(i as int, lm.len() as int), beta as int, cur as int, depth_limit)
                == loud_loop(s0, stand_pat, lm, beta as int, alpha0 as int, depth_limit),
            quiescence_v(s0, alpha_in as int, beta as int, depth_limit) == loud_loop(
                s0,
                stand_pat,
                lm,
                beta as int,
                alpha0 as int,
                depth_limit,
            ),
        decreases lm.len() - i,
    {
        let ghost rest = lm.subrange(i as int, lm.len() as int);
        assert(rest[0] == lm[i as int]);
        assert(rest.drop_first() =~= lm.subrange(i + 1, lm.len() as int));
        let m = &loud_moves[i].1;
        assert(*m == rest[0].1);
        let gain = state.loud_move_gain(m);
        assert(gain == s0.gain_v(*m));
        if delta_prune(stand_pat, gain, cur) {
            i += 1;
            continue;
        }
        let mut new_state = state.make_move(m);
        assert(new_state == s0.next_v(*m));
        let child = quiescence_counted(&mut new_state, -beta, -cur, depth_limit - 1, qnodes);
        assert(child == quiescence_v(s0.next_v(*m), -beta, -cur, (depth_limit - 1) as u8));
        let score = -child;
        match child_step(score, cur, beta) {
            QuiescenceStep::Return(v) => {
                assert(loud_loop(s0, stand_pat, rest, beta as int, cur as int, depth_limit) == beta);
                assert(v == beta);
                assert(v == quiescence_v(s0, alpha_in as int, beta as int, depth_limit));
                return v;
            },
            QuiescenceStep::Continue(a) => cur = a,
        }
        i += 1;
    }
    assert(lm.subrange(i as int, lm.len() as int) =~= Seq::<(i32, S::Move)>::empty());
    cur
}

/// Quiescence search: from a leaf of the main search, only loud moves
/// (captures and promotions whose static exchange is not losing) are
/// searched, best-scored first, so that the score does not stop in the
/// middle of an exchange. The static score of the state (stand pat) bounds
/// the result from below; a score reaching beta cuts the search off with
/// beta (fail-hard); a loud move whose gain cannot lift the stand pat
/// above alpha is skipped. The result is `quiescence_v`, over the spec
/// functions that name the state's loudness answers (`loudness_follows_spec`).
pub fn quiescence_search<S: GameState>(state: &mut S, alpha: i32, beta: i32, depth_limit: u8) -> (r: i32)
    requires
        loudness_follows_spec::<S>(),
        alpha > i32::MIN,
        beta > i32::MIN,
    ensures
        r == quiescence_v(*old(state), alpha as int, beta as int, depth_limit),
        r > i32::MIN,
        old(state).terminal_v() ==> r == old(state).eval_v(),
        !old(state).terminal_v() && old(state).eval_v() >= beta ==> r == beta,
        !old(state).terminal_v() && old(state).eval_v() < beta ==> {
            ||| r == beta
            ||| max_score(alpha, old(state).eval_v()) <= r < beta
            ||| (alpha >= beta && r == alpha)
        },
        !old(state).terminal_v() && old(state).eval_v() < beta && depth_limit == 0 ==> r == max_score(
            alpha,
            old(state).eval_v(),
        ),
{
    let mut qnodes: u64 = 0;
    quiescence_counted(state, alpha, beta, depth_limit, &mut qnodes)
}

/// Counters of a search, for its debug report.
pub struct SearchStats {
    pub nodes: u64,
    pub qnodes: u64,
    pub tt_hits: u64,
    pub tt_lookups: u64,
    pub beta_cutoffs: u64,
    pub cutoff_first_move: u64,
    pub asp_retries: u64,
}

impl SearchStats {
    /// All counters at 0.
    pub fn new() -> (r: Self)
        ensures
            r.nodes == 0 && r.qnodes == 0 && r.tt_hits == 0 && r.tt_lookups == 0,
            r.beta_cutoffs == 0 && r.cutoff_first_move == 0 && r.asp_retries == 0,
    {
        SearchStats {
            nodes: 0,
            qnodes: 0,
            tt_hits: 0,
            tt_lookups: 0,
            beta_cutoffs: 0,
            cutoff_first_move: 0,
            asp_retries: 0,
        }
    }
}

/// `quiescence_search`, counting the nodes it visits in `stats.qnodes`
/// (wrapping around at 2^64); the other counters stay.
pub fn quiescence_search_debug<S: GameState>(
    state: &mut S,
    alpha: i32,
    beta: i32,
    depth_limit: u8,
    stats: &mut SearchStats,
) -> (r: i32)
    requires
        loudness_follows_spec::<S>(),
        alpha > i32::MIN,
        beta > i32::MIN,
    ensures
        r == quiescence_v(*old(state), alpha as int, beta as int, depth_limit),
        r > i32::MIN,
        old(state).terminal_v() ==> r == old(state).eval_v(),
        !old(state).terminal_v() && old(state).eval_v() >= beta ==> r == beta,
        !old(state).terminal_v() && old(state).eval_v() < beta ==> {
            ||| r == beta
            ||| max_score(alpha, old(state).eval_v()) <= r < beta
            ||| (alpha >= beta && r == alpha)
        },
        !old(state).terminal_v() && old(state).eval_v() < beta && depth_limit == 0 ==> r == max_score(
            alpha,
            old(state).eval_v(),
        ),
        final(stats).nodes == old(stats).nodes,
        final(stats).tt_hits == old(stats).tt_hits,
        final(stats).tt_lookups == old(stats).tt_lookups,
        final(stats).beta_cutoffs == old(stats).beta_cutoffs,
        final(stats).cutoff_first_move == old(stats).cutoff_first_move,
        final(stats).asp_retries == old(stats).asp_retries,
{
    quiescence_counted(state, alpha, beta, depth_limit, &mut stats.qnodes)
}

proof fn lemma_loud_entries_empty<S: GameState>(s: S, ms: Seq<S::Move>)
    requires
        forall|i: int| 0 <= i < ms.len() ==> !(s.capture_v(#[trigger] ms[i]) && s.see_v(ms[i]) >= 0),
    ensures
        loud_entries(s, ms) == Seq::<(i32, S::Move)>::empty(),
    decreases ms.len(),
{
    if ms.len() > 0 {
        let t = ms.drop_last();
        assert forall|i: int| 0 <= i < t.len() implies !(s.capture_v(#[trigger] t[i]) && s.see_v(t[i]) >= 0) by {
            assert(t[i] == ms[i]);
        }
        lemma_loud_entries_empty(s, t);
        assert(!(s.capture_v(ms[ms.len() - 1]) && s.see_v(ms[ms.len() - 1]) >= 0));
        assert(loud_entries(s, ms) =~= Seq::<(i32, S::Move)>::empty());
    }
}

/// A quiet position stands pat: when no legal move is a capture whose
/// static exchange does not lose, the quiescence search of a game that goes
/// on gives its static score, raised to alpha and cut at beta.
pub proof fn law_quiet_position_stands_pat<S: GameState>(s: S, alpha: int, beta: int, depth: u8)
    requires
        !s.terminal_v(),
        forall|i: int|
            0 <= i < s.moves_v().len() ==> !(s.capture_v(#[trigger] s.moves_v()[i]) && s.see_v(s.moves_v()[i]) >= 0),
    ensures
        quiescence_v(s, alpha, beta, depth) == (if s.eval_v() >= beta {
            beta
        } else {
            max_int(alpha, s.eval_v() as int)
        }),
{
    lemma_loud_entries_empty(s, s.moves_v());
    assert(loud_order(s) =~= Seq::<(i32, S::Move)>::empty());
}

/// Whether the scores of `s` never rise from one entry to the next.
pub open spec fn descending<M>(s: Seq<(i32, M)>) -> bool {
    forall|i: int, j: int| 0 <= i < j < s.len() ==> s[i].0 >= s[j].0
}

proof fn lemma_insert_desc_keeps<M>(r: Seq<(i32, M)>, e: (i32, M))
    requires
        descending(r),
    ensures
        descending(insert_desc(r, e)),
        insert_desc(r, e).to_multiset() == r.to_multiset().insert(e),
{
    let j = first_smaller(r, e.0);
    lemma_first_smaller(r, e.0);
    lemma_insert_desc_index(r, e, j);
    vstd::seq_lib::to_multiset_insert(r, j, e);
    let q = r.insert(j, e);
    assert forall|a: int, b: int| 0 <= a < b < q.len() implies q[a].0 >= q[b].0 by {
        if b < j {
        } else if b == j {
            assert(q[a] == r[a]);
        } else if a < j {
            assert(q[a] == r[a] && q[b] == r[b - 1]);
        } else if a == j {
            assert(q[b] == r[b - 1]);
        } else {
            assert(q[a] == r[a - 1] && q[b] == r[b - 1]);
        }
    }
}

/// The index of the first entry of `r` scored below `k` (the length when
/// there is none).
spec fn first_smaller<M>(r: Seq<(i32, M)>, k: i32) -> int
    decreases r.len(),
{
    if r.len() == 0 || r[0].0 < k {
        0
    } else {
        1 + first_smaller(r.drop_first(), k)
    }
}

proof fn lemma_first_smaller<M>(r: Seq<(i32, M)>, k: i32)
    ensures
        0 <= first_smaller(r, k) <= r.len(),
        forall|q: int| 0 <= q < first_smaller(r, k) ==> r[q].0 >= k,
        first_smaller(r, k) < r.len() ==> r[first_smaller(r, k)].0 < k,
    decreases r.len(),
{
    if r.len() > 0 && r[0].0 >= k {
        let t = r.drop_first();
        lemma_first_smaller(t, k);
        assert forall|q: int| 0 <= q < first_smaller(r, k) implies r[q].0 >= k by {
            if q > 0 {
                assert(r[q] == t[q - 1]);
            }
        }
    }
}

/// `sort_desc` orders the entries by descending score and keeps each of
/// them as often as it occurs.
pub proof fn law_sort_desc_descending_permutation<M>(s: Seq<(i32, M)>)
    ensures
        descending(sort_desc(s)),
        sort_desc(s).to_multiset() == s.to_multiset(),
    decreases s.len(),
{
    if s.len() > 0 {
        let t = s.drop_last();
        law_sort_desc_descending_permutation(t);
        lemma_insert_desc_keeps(sort_desc(t), s.last());
        assert(t.push(s.last()) =~= s);
        vstd::seq_lib::to_multiset_build(t, s.last());
    }
}

/// The entries of `s` scored `k`, in order.
pub open spec fn with_score<M>(s: Seq<(i32, M)>, k: i32) -> Seq<(i32, M)>
    decreases s.len(),
{
    if s.len() == 0 {
        seq![]
    } else {
        with_score(s.drop_last(), k) + (if s.last().0 == k {
            seq![s.last()]
        } else {
            seq![]
        })
    }
}

proof fn lemma_with_score_concat<M>(a: Seq<(i32, M)>, b: Seq<(i32, M)>, k: i32)
    ensures
        with_score(a + b, k) == with_score(a, k) + with_score(b, k),
    decreases b.len(),
{
    if b.len() == 0 {
        assert(a + b =~= a);
        assert(with_score(a, k) + with_score(b, k) =~= with_score(a, k));
    } else {
        lemma_with_score_concat(a, b.drop_last(), k);
        assert((a + b).drop_last() =~= a + b.drop_last());
        assert((a + b).last() == b.last());
        assert(with_score(a + b, k) =~= with_score(a, k) + with_score(b, k));
    }
}

proof fn lemma_with_score_below<M>(r: Seq<(i32, M)>, k: i32)
    requires
        forall|i: int| 0 <= i < r.len() ==> r[i].0 < k,
    ensures
        with_score(r, k) == Seq::<(i32, M)>::empty(),
    decreases r.len(),
{
    if r.len() > 0 {
        let t = r.drop_last();
        assert forall|i: int| 0 <= i < t.len() implies t[i].0 < k by {
            assert(t[i] == r[i]);
        }
        lemma_with_score_below(t, k);
        assert(with_score(r, k) =~= Seq::<(i32, M)>::empty());
    }
}

proof fn lemma_insert_desc_stable<M>(r: Seq<(i32, M)>, e: (i32, M), k: i32)
    requires
        descending(r),
    ensures
        with_score(insert_desc(r, e), k) == with_score(r, k) + (if e.0 == k {
            seq![e]
        } else {
            seq![]
        }),
{
    let j = first_smaller(r, e.0);
    lemma_first_smaller(r, e.0);
    lemma_insert_desc_index(r, e, j);
    let pre = r.subrange(0, j);
    let post = r.subrange(j, r.len() as int);
    assert(r.insert(j, e) =~= pre + seq![e] + post);
    assert(r =~= pre + post);
    lemma_with_score_concat(pre + seq![e], post, k);
    lemma_with_score_concat(pre, seq![e], k);
    lemma_with_score_concat(pre, post, k);
    assert(seq![e].drop_last() =~= Seq::<(i32, M)>::empty());
    let z = seq![e].drop_last();
    assert(z.len() == 0);
    assert(with_score(z, k) =~= Seq::<(i32, M)>::empty());
    assert(seq![e].last() == e);
    assert(with_score(seq![e], k) =~= (if e.0 == k { seq![e] } else { seq![] }));
    if e.0 == k {
        assert forall|i: int| 0 <= i < post.len() implies post[i].0 < k by {
            assert(post[i] == r[j + i]);
            if i > 0 {
                assert(r[j].0 >= r[j + i].0);
            }
        }
        lemma_with_score_below(post, k);
        assert(with_score(pre, k) + with_score(post, k) =~= with_score(pre, k));
    } else {
        assert(with_score(pre, k) + seq![] =~= with_score(pre, k));
    }
}

/// `sort_desc` is stable: for each score, the entries with that score come
/// out in the order they went in.
pub proof fn law_sort_desc_stable<M>(s: Seq<(i32, M)>, k: i32)
    ensures
        with_score(sort_desc(s), k) == with_score(s, k),
    decreases s.len(),
{
    if s.len() > 0 {
        let t = s.drop_last();
        law_sort_desc_stable(t, k);
        law_sort_desc_descending_permutation(t);
        lemma_insert_desc_stable(sort_desc(t), s.last(), k);
    }
}

/// A move just stored as a killer of a depth earns the killer bonus there,
/// for move types whose equality follows their specification and whose
/// clones equal the move they copy.
pub proof fn law_stored_killer_earns_bonus<M: Clone + PartialEq>(
    before: (Option<M>, Option<M>),
    after: (Option<M>, Option<M>),
    m: M,
)
    requires
        M::obeys_eq_spec(),
        forall|c: M| cloned(m, c) ==> #[trigger] c.eq_spec(&m),
        if slot_matches(before.0, m) {
            after == before
        } else {
            killer_pushed(before, after, m)
        },
    ensures
        slot_matches(after.0, m) || slot_matches(after.1, m),
{
}

/// Whether the two killer slots of a depth hold moves that differ.
pub open spec fn slots_apart<M: PartialEq>(slots: (Option<M>, Option<M>)) -> bool {
    !(slots.0 matches Some(x) && slot_matches(slots.1, x))
}

/// The two killers of a depth stay different moves when a move is stored,
/// for move types whose equality follows its specification, is symmetric
/// and transitive, and whose clones equal the move they copy.
pub proof fn law_killer_slots_stay_apart<M: Clone + PartialEq>(
    before: (Option<M>, Option<M>),
    after: (Option<M>, Option<M>),
    m: M,
)
    requires
        M::obeys_eq_spec(),
        forall|c: M| cloned(m, c) ==> #[trigger] c.eq_spec(&m),
        forall|a: M, b: M| #[trigger] a.eq_spec(&b) ==> b.eq_spec(&a),
        forall|a: M, b: M, c: M| #![trigger a.eq_spec(&b), b.eq_spec(&c)] a.eq_spec(&b) && b.eq_spec(&c) ==> a.eq_spec(&c),
        slots_apart(before),
        if slot_matches(before.0, m) {
            after == before
        } else {
            killer_pushed(before, after, m)
        },
    ensures
        slots_apart(after),
{
    if !slot_matches(before.0, m) {
        let c = after.0->0;
        assert(c.eq_spec(&m));
        match after.1 {
            Some(y) => {
                if y.eq_spec(&c) {
                    assert(y.eq_spec(&m));
                    assert(slot_matches(before.0, m));
                }
            },
            None => {},
        }
    }
}

/// The history table reads back what an update adds: the updated move's
/// score grows by depth², every other score stays.
pub proof fn law_history_update_adds_depth_squared(m: Map<u64, i32>, key: u64, depth: u8, other: u64)
    requires
        key != 0,
        history_score(m, key) + depth * depth <= i32::MAX,
    ensures
        history_score(m.insert(key, (history_score(m, key) + depth * depth) as i32), key)
            == history_score(m, key) + depth * depth,
        other != key ==> history_score(m.insert(key, (history_score(m, key) + depth * depth) as i32), other)
            == history_score(m, other),
{
    assert(0 <= depth * depth) by (nonlinear_arith);
    assert(history_score(m, key) >= i32::MIN);
}

/// A stored result is found again: an exact score is returned to any search
/// that is not deeper, a lower bound to one whose beta it reaches, an upper
/// bound to one whose alpha it does not exceed; the best move is kept; the
/// other positions keep their entries.
pub proof fn law_transposition_store_then_probe(
    m: Map<u64, TtEntry>,
    key: u64,
    e: TtEntry,
    depth: u8,
    alpha: i32,
    beta: i32,
    other: u64,
)
    requires
        !m.contains_key(key) || e.depth >= m[key].depth,
    ensures
        depth <= e.depth && e.node_type == NodeType::Exact ==> probe_v(store_v(m, key, e), key, depth, alpha, beta) == Some(e.score),
        depth <= e.depth && e.node_type == NodeType::LowerBound && e.score >= beta ==> probe_v(store_v(m, key, e), key, depth, alpha, beta) == Some(e.score),
        depth <= e.depth && e.node_type == NodeType::UpperBound && e.score <= alpha ==> probe_v(store_v(m, key, e), key, depth, alpha, beta) == Some(e.score),
        depth > e.depth ==> probe_v(store_v(m, key, e), key, depth, alpha, beta) is None,
        store_v(m, key, e)[key].best_move == e.best_move,
        other != key ==> probe_v(store_v(m, key, e), other, depth, alpha, beta) == probe_v(m, other, depth, alpha, beta),
{
}

/// An entry is never replaced by the result of a shallower search.
pub proof fn law_transposition_keeps_deeper(m: Map<u64, TtEntry>, key: u64, e: TtEntry)
    requires
        m.contains_key(key),
        e.depth < m[key].depth,
    ensures
        store_v(m, key, e) == m,
{
}

} // verus!
