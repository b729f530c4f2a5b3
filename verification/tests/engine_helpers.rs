use chessembly_bot::chessembly::{Board, ChessemblyCompiled, Color};
use chessembly_bot::engine::game_logic::{attacker_values, signed_byte, sort_values};
use chessembly_bot::engine::search::{
    child_step, delta_prune, quiescence_search, stand_pat_step, QuiescenceStep, quiescence_search_debug, HistoryTable, KillerTable, NodeType, SearchStats, TranspositionTable,
    KILLER_BONUS,
};
use chessembly_bot::engine::{GameMove, GameState};

fn place(rows: [&str; 8]) -> String {
    rows.join("\n")
}

#[test]
fn find_king_on_start_position() {
    let script = ChessemblyCompiled::new();
    let board = Board::<false, false, 8>::new(&script);
    assert_eq!(board.find_king(Color::White), Some((4, 7)));
    assert_eq!(board.find_king(Color::Black), Some((4, 0)));
    let empty = Board::<false, false, 8>::empty(&script);
    assert_eq!(empty.find_king(Color::White), None);
}

#[test]
fn find_king_takes_the_first_by_file() {
    let script = ChessemblyCompiled::new();
    let text = place(["......K.", "........", "..K.....", "........", "........", "........", "........", "........"]);
    let board = Board::<false, false, 8>::from_str(&text, &script);
    assert_eq!(board.find_king(Color::White), Some((2, 2)));
}

#[test]
fn pawn_shield_on_start_position() {
    let script = ChessemblyCompiled::new();
    let board = Board::<false, false, 8>::new(&script);
    assert_eq!(board.count_pawn_shield(4, 7, Color::White), 3);
    assert_eq!(board.count_pawn_shield(4, 0, Color::Black), 3);
    // on the edge only two files are on the board
    assert_eq!(board.count_pawn_shield(0, 7, Color::White), 2);
}

#[test]
fn pawn_shield_counts_two_ranks() {
    let script = ChessemblyCompiled::new();
    let text = place(["........", "........", "........", "........", "........", "...P....", "..P.P...", "...K...."]);
    let board = Board::<false, false, 8>::from_str(&text, &script);
    // files 2..4, ranks 6 and 5: (2,6), (4,6), (3,5)
    assert_eq!(board.count_pawn_shield(3, 7, Color::White), 3);
    assert_eq!(board.count_pawn_shield(3, 7, Color::Black), 0);
}

#[test]
fn passed_pawn_detection() {
    let script = ChessemblyCompiled::new();
    let start = Board::<false, false, 8>::new(&script);
    assert!(!start.is_passed_pawn(4, 6, Color::White));
    assert!(!start.is_passed_pawn(4, 1, Color::Black));
    let text = place(["........", "p.......", "........", "....P...", "........", "........", "P.......", "........"]);
    let board = Board::<false, false, 8>::from_str(&text, &script);
    // nothing black on files 3..5 ahead of (4, 3)
    assert!(board.is_passed_pawn(4, 3, Color::White));
    // the black pawn on (0, 1) blocks the white pawn on (0, 6)
    assert!(!board.is_passed_pawn(0, 6, Color::White));
    // the white pawn on (0, 6) stands ahead of the black pawn on (0, 1)
    assert!(!board.is_passed_pawn(0, 1, Color::Black));
}

#[test]
fn attackers_on_start_position() {
    let script = ChessemblyCompiled::new();
    let board = Board::<false, false, 8>::new(&script);
    assert_eq!(board.get_attackers_of((4, 5), Color::White), vec![(100, (3, 6)), (100, (5, 6))]);
    // (5, 5) is covered by two pawns and the knight on (6, 7)
    assert_eq!(board.get_attackers_of((5, 5), Color::White), vec![(100, (4, 6)), (100, (6, 6)), (320, (6, 7))]);
    assert_eq!(board.get_attackers_of((4, 4), Color::White), vec![]);
}

#[test]
fn attackers_along_lines_stop_at_the_first_piece() {
    let script = ChessemblyCompiled::new();
    let text = place(["R..Q....", "........", "........", "B.......", "........", "........", "........", "K......."]);
    let board = Board::<false, false, 8>::from_str(&text, &script);
    // (0, 0): the rook is on the square itself; the queen on (3, 0) looks
    // along the rank from the right; the bishop on (0, 3) does not attack
    // along a file, and the king on (0, 7) is behind it.
    assert_eq!(board.get_attackers_of((1, 0), Color::White), vec![(500, (0, 0)), (900, (3, 0))]);
    // (1, 2): the bishop on (0, 3) and, along the other diagonal, the queen
    assert_eq!(board.get_attackers_of((1, 2), Color::White), vec![(330, (0, 3)), (900, (3, 0))]);
    assert_eq!(board.get_attackers_of((1, 6), Color::White), vec![(20000, (0, 7))]);
}

#[test]
fn exchange_with_and_without_defender() {
    let script = ChessemblyCompiled::new();
    let defended = place(["........", "........", ".....p..", "....n...", "...P....", "........", "........", "........"]);
    let board = Board::<false, false, 8>::from_str(&defended, &script);
    // pawn takes knight (320), the black pawn on (5, 2) takes back the pawn (100)
    assert_eq!(board.static_exchange_evaluation((3, 4), (4, 3), 320, 100), 220);
    let alone = place(["........", "........", "........", "....n...", "...P....", "........", "........", "........"]);
    let board = Board::<false, false, 8>::from_str(&alone, &script);
    assert_eq!(board.static_exchange_evaluation((3, 4), (4, 3), 320, 100), 320);
    // an empty source or target gives 0
    assert_eq!(board.static_exchange_evaluation((0, 0), (4, 3), 320, 100), 0);
    assert_eq!(board.static_exchange_evaluation((3, 4), (0, 0), 320, 100), 0);
}

#[test]
fn exchange_stops_when_going_on_would_lose() {
    let script = ChessemblyCompiled::new();
    // the queen takes a pawn defended by a pawn: taking back costs white the
    // queen, so the exchange is worth 100 - 900
    let text = place(["........", "........", ".....p..", "....p...", "........", "........", "........", "....Q..."]);
    let board = Board::<false, false, 8>::from_str(&text, &script);
    assert_eq!(board.static_exchange_evaluation((4, 7), (4, 3), 100, 900), -800);
}

#[test]
fn killer_table_store_and_bonus() {
    let mut killers: KillerTable<u32> = KillerTable::new(4);
    assert_eq!(killers.get_bonus(2, &7), 0);
    killers.store(2, &7);
    assert_eq!(killers.get_bonus(2, &7), KILLER_BONUS);
    killers.store(2, &8);
    assert_eq!(killers.get_bonus(2, &7), KILLER_BONUS);
    assert_eq!(killers.get_bonus(2, &8), KILLER_BONUS);
    killers.store(2, &9);
    // the oldest killer falls out
    assert_eq!(killers.get_bonus(2, &7), 0);
    // storing the first killer again changes nothing
    killers.store(2, &9);
    assert_eq!(killers.get_bonus(2, &8), KILLER_BONUS);
    // other depths and depths beyond the table
    assert_eq!(killers.get_bonus(3, &9), 0);
    killers.store(200, &1);
    assert_eq!(killers.get_bonus(200, &1), 0);
}

#[test]
fn history_table_adds_depth_squared() {
    let mut history = HistoryTable::new();
    assert_eq!(history.get(5), 0);
    history.update(5, 3);
    assert_eq!(history.get(5), 9);
    history.update(5, 2);
    assert_eq!(history.get(5), 13);
    history.update(0, 7);
    assert_eq!(history.get(0), 0);
    assert_eq!(history.get(6), 0);
}

#[test]
fn transposition_table_probe_and_store() {
    let mut tt = TranspositionTable::new();
    assert_eq!(tt.probe(1, 0, -10, 10), None);
    assert_eq!(tt.get_best_move(1), 0);
    tt.store(1, 3, 42, NodeType::Exact, 77);
    assert_eq!(tt.probe(1, 3, -10, 10), Some(42));
    assert_eq!(tt.probe(1, 4, -10, 10), None);
    assert_eq!(tt.get_best_move(1), 77);
    // a shallower result does not replace a deeper one
    tt.store(1, 2, 5, NodeType::Exact, 78);
    assert_eq!(tt.probe(1, 1, -10, 10), Some(42));
    // bounds answer only outside the window
    tt.store(2, 3, 20, NodeType::LowerBound, 0);
    assert_eq!(tt.probe(2, 3, -10, 10), Some(20));
    assert_eq!(tt.probe(2, 3, -10, 30), None);
    tt.store(3, 3, -20, NodeType::UpperBound, 0);
    assert_eq!(tt.probe(3, 3, -10, 10), Some(-20));
    assert_eq!(tt.probe(3, 3, -30, 10), None);
}

/// A tiny game: a counter that moves may raise; the side to move scores
/// `value`, the game ends at `end`.
#[derive(Clone)]
struct Counter {
    value: i32,
    end: i32,
}

#[derive(Clone, PartialEq, Debug)]
struct Step(i32);

impl GameMove for Step {
    fn hashable(&self) -> bool {
        true
    }

    fn move_hash(&self) -> u64 {
        self.0 as u64
    }
}

impl GameState for Counter {
    type Move = Step;

    fn terminal_v(&self) -> bool {
        self.is_terminal()
    }

    fn eval_v(&self) -> i32 {
        self.value
    }

    fn score_v(&self, m: Step) -> i32 {
        1000 * m.0
    }

    fn moves_v(&self) -> vstd::seq::Seq<Step> {
        panic!("a specification, not run")
    }

    fn next_v(&self, m: Step) -> Counter {
        self.make_move(&m)
    }

    fn capture_v(&self, m: Step) -> bool {
        self.is_capture(&m)
    }

    fn gain_v(&self, m: Step) -> i32 {
        self.loud_move_gain(&m)
    }

    fn see_v(&self, m: Step) -> i32 {
        self.static_exchange_evaluation_move(&m)
    }

    fn get_legal_moves(&mut self) -> Vec<Step> {
        vec![Step(1), Step(5)]
    }

    fn make_move(&self, m: &Step) -> Counter {
        Counter { value: -(self.value + m.0), end: self.end }
    }

    fn is_terminal(&self) -> bool {
        self.value.abs() >= self.end
    }

    fn evaluate(&mut self) -> i32 {
        self.value
    }

    fn score_move(&self, m: &Step) -> i32 {
        1000 * m.0
    }
}

#[test]
fn loudness_defaults() {
    let state = Counter { value: 3, end: 100 };
    // an ordering score above 500 makes a move loud
    assert!(state.is_capture(&Step(1)));
    assert!(!state.is_capture(&Step(0)));
    assert!(!state.is_capture(&Step(-2)));
    // without a gain or exchange estimate, nothing is pruned
    assert_eq!(state.loud_move_gain(&Step(1)), i32::MAX);
    assert_eq!(state.static_exchange_evaluation_move(&Step(5)), i32::MAX);
}

#[test]
fn quiescence_stand_pat_and_cutoff() {
    let mut state = Counter { value: 3, end: 100 };
    // depth 0: the stand pat raised to alpha
    assert_eq!(quiescence_search(&mut state, -10, 10, 0), 3);
    assert_eq!(quiescence_search(&mut state, 5, 10, 0), 5);
    // a stand pat at or above beta cuts off with beta
    assert_eq!(quiescence_search(&mut state, -10, 2, 3), 2);
    // a terminal state gives its evaluation
    let mut over = Counter { value: 150, end: 100 };
    assert_eq!(quiescence_search(&mut over, -10, 10, 3), 150);
}

#[test]
fn quiescence_debug_counts_nodes() {
    let mut state = Counter { value: 3, end: 100 };
    let mut stats = SearchStats::new();
    let r = quiescence_search_debug(&mut state, -10, 10, 0, &mut stats);
    assert_eq!(r, 3);
    assert_eq!(stats.qnodes, 1);
    assert_eq!(stats.nodes, 0);
    let mut plain = Counter { value: 3, end: 100 };
    let r2 = quiescence_search(&mut plain, -50, 50, 2);
    let r3 = quiescence_search_debug(&mut plain.clone(), -50, 50, 2, &mut stats);
    assert_eq!(r2, r3);
    assert!(stats.qnodes > 1);
}

#[test]
fn sorting_values_ascending() {
    assert_eq!(sort_values(&vec![3, 1, 2, 1]), vec![1, 1, 2, 3]);
    assert_eq!(sort_values(&vec![]), Vec::<i32>::new());
    assert_eq!(sort_values(&vec![900, -5, 320]), vec![-5, 320, 900]);
}

#[test]
fn attacker_values_skip_one_square() {
    let entries = vec![(100, (3, 6)), (320, (6, 7)), (100, (5, 6))];
    assert_eq!(attacker_values(&entries, Some((6, 7))), vec![100, 100]);
    assert_eq!(attacker_values(&entries, None), vec![100, 320, 100]);
}

#[test]
fn signed_bytes() {
    assert_eq!(signed_byte(5), 5);
    assert_eq!(signed_byte(200), -56);
    assert_eq!(signed_byte(255), -1);
}

#[test]
fn delta_pruning_rule() {
    // 10 + 50 + 200 <= 300: skipped
    assert!(delta_prune(10, 50, 300));
    assert!(!delta_prune(10, 50, 259));
    // i32::MAX marks a move that is always searched
    assert!(!delta_prune(10, i32::MAX, i32::MAX));
    // no overflow on large values
    assert!(!delta_prune(i32::MAX, i32::MAX - 1, 0));
}

#[test]
fn quiescence_node_steps() {
    assert_eq!(stand_pat_step(50, 0, 40, 3), QuiescenceStep::Return(40));
    assert_eq!(stand_pat_step(10, 0, 40, 3), QuiescenceStep::Continue(10));
    assert_eq!(stand_pat_step(-10, 0, 40, 3), QuiescenceStep::Continue(0));
    assert_eq!(stand_pat_step(10, 0, 40, 0), QuiescenceStep::Return(10));
    assert_eq!(child_step(45, 0, 40), QuiescenceStep::Return(40));
    assert_eq!(child_step(25, 10, 40), QuiescenceStep::Continue(25));
    assert_eq!(child_step(5, 10, 40), QuiescenceStep::Continue(10));
}

#[test]
fn white_pawn_on_last_rank_has_nothing_ahead() {
    let script = ChessemblyCompiled::new();
    let text = place(["...Pp...", "........", "........", "........", "........", "........", "........", "........"]);
    let board = Board::<false, false, 8>::from_str(&text, &script);
    // no rank lies ahead of the white pawn on (3, 0); the black pawn beside it does not count
    assert!(board.is_passed_pawn(3, 0, Color::White));
}
