use chessembly_bot::chessembly::{
    Board, BoardState, BoardStatus, BothBoardState, ChessMove, ChessMoveUnit, ChessemblyCompiled,
    Color, MoveGen, MoveType, Piece, PieceSpan,
};
use chessembly_bot::engine::GameMove;
use chessembly_bot::protocol;

fn unit<'a>(from: (u8, u8), take: (u8, u8), to: (u8, u8), t: MoveType) -> ChessMoveUnit<'a> {
    ChessMoveUnit { from, take, move_to: to, move_type: t, state_change: None, transition: None }
}

fn empty_state<'a>() -> BothBoardState<'a> {
    BothBoardState {
        white: BoardState { castling_oo: true, castling_ooo: true, enpassant: Vec::new(), register: Vec::new() },
        black: BoardState { castling_oo: true, castling_ooo: true, enpassant: Vec::new(), register: Vec::new() },
    }
}

#[test]
fn invert_twice_is_identity() {
    assert_eq!(Color::White.invert(), Color::Black);
    assert_eq!(Color::White.invert().invert(), Color::White);
    assert_eq!(Color::Black.invert().invert(), Color::Black);
}

#[test]
fn asking_twice_gives_cached_moves() {
    let script = ChessemblyCompiled::new();
    let mut board = Board::<false, false, 8>::new(&script);
    let first = script.get_moves(&mut board, &(6, 7), true);
    assert_eq!(board.dp.len(), 1);
    let second = script.get_moves(&mut board, &(6, 7), false);
    assert_eq!(first.len(), second.len());
    for (a, b) in first.iter().zip(second.iter()) {
        assert_eq!(a.get_dest(), b.get_dest());
    }
}

#[test]
fn has_any_moves_matches_move_list() {
    let script = ChessemblyCompiled::new();
    let mut board = Board::<false, false, 8>::new(&script);
    assert!(MoveGen::has_any_moves(&mut board, Color::White, true));
    let mut lone = Board::<false, false, 8>::empty(&script);
    lone.set_cell(0, 0, PieceSpan::Piece(Piece { piece_type: "king", color: Color::Black }));
    lone.set_cell(1, 2, PieceSpan::Piece(Piece { piece_type: "queen", color: Color::White }));
    lone.set_cell(2, 1, PieceSpan::Piece(Piece { piece_type: "king", color: Color::White }));
    lone.turn = Color::Black;
    let any = MoveGen::has_any_moves(&mut lone, Color::Black, true);
    let mut lone2 = lone.clone_without_dp();
    let all = MoveGen::get_all_moves(&mut lone2, Color::Black, true);
    assert_eq!(any, !all.is_empty());
    assert!(!any);
}

#[test]
fn push_node_replaces_same_target() {
    let mut nodes: Vec<ChessMove> = Vec::new();
    ChessemblyCompiled::push_node(&mut nodes, unit((0, 0), (1, 1), (1, 1), MoveType::Move));
    ChessemblyCompiled::push_node(&mut nodes, unit((0, 0), (2, 2), (2, 2), MoveType::Move));
    ChessemblyCompiled::push_node(&mut nodes, unit((0, 0), (1, 1), (1, 1), MoveType::TakeMove));
    assert_eq!(nodes.len(), 2);
    assert_eq!(nodes[0].get_dest(), (2, 2));
    match &nodes[1] {
        ChessMove::Single(u) => assert_eq!(u.move_type, MoveType::TakeMove),
        _ => panic!("expected a single move"),
    }
}

#[test]
fn a_move_passes_the_turn() {
    let script = ChessemblyCompiled::new();
    let board = Board::<false, false, 8>::new(&script);
    let m = ChessMove::Single(unit((4, 6), (4, 4), (4, 4), MoveType::Move));
    let same = board.make_move_new_nc(&m, false);
    assert_eq!(same.side_to_move(), Color::White);
    let next = board.make_move_new(&m);
    assert_eq!(next.side_to_move(), Color::Black);
    assert_eq!(next.status(), BoardStatus::Ongoing);
    assert_eq!(next.piece_on(&(4, 4)), Some("pawn"));
    assert_eq!(next.piece_on(&(4, 6)), None);
}

#[test]
fn danger_mask_matches_danger_list() {
    let script = ChessemblyCompiled::new();
    let mut board = Board::<false, false, 8>::new(&script);
    let zones = MoveGen::get_danger_zones(&mut board, Color::White);
    let mut board2 = board.clone_without_dp();
    let bits = MoveGen::get_danger_zones_bit(&mut board2, Color::White);
    for y in 0..8u8 {
        for x in 0..8u8 {
            assert_eq!(ChessemblyCompiled::is_danger_bit(bits, x, y), zones.contains(&(x, y)));
        }
    }
    assert!(ChessemblyCompiled::is_danger_bit(1u64 << 9, 1, 1));
    assert!(!ChessemblyCompiled::is_danger_bit(1u64 << 9, 2, 1));
}

#[test]
fn plain_generation_keeps_cache() {
    let script = ChessemblyCompiled::from_script("take-move(1, 0) repeat(1);").unwrap();
    let mut board = Board::<false, false, 8>::empty(&script);
    board.set_cell(0, 0, PieceSpan::Piece(Piece { piece_type: "slider", color: Color::White }));
    let before = board.dp.len();
    let moves = script.generate_moves(&mut board, &(0, 0), false).unwrap();
    assert_eq!(moves.len(), 7);
    assert_eq!(board.dp.len(), before);
}

#[test]
fn legal_moves_leave_no_check() {
    let script = ChessemblyCompiled::new();
    let mut board = Board::<false, false, 8>::empty(&script);
    board.set_cell(4, 7, PieceSpan::Piece(Piece { piece_type: "king", color: Color::White }));
    board.set_cell(4, 6, PieceSpan::Piece(Piece { piece_type: "rook", color: Color::White }));
    board.set_cell(4, 0, PieceSpan::Piece(Piece { piece_type: "rook", color: Color::Black }));
    board.set_cell(0, 0, PieceSpan::Piece(Piece { piece_type: "king", color: Color::Black }));
    let raw = script.get_moves(&mut board, &(4, 6), true);
    let legal = script.filter_nodes(raw, &board);
    // the pinned rook may only move along the file
    for m in &legal {
        assert_eq!(m.get_dest().0, 4);
    }
    assert_eq!(legal.len(), 6);
}

#[test]
fn filter_tests_moves_from_empty_squares() {
    let script = ChessemblyCompiled::new();
    let mut board = Board::<false, false, 8>::empty(&script);
    board.set_cell(4, 7, PieceSpan::Piece(Piece { piece_type: "king", color: Color::White }));
    board.set_cell(4, 0, PieceSpan::Piece(Piece { piece_type: "rook", color: Color::Black }));
    // a move from an empty square changes nothing: the king stays attacked
    let from_empty = vec![ChessMove::Single(unit((2, 2), (2, 3), (2, 3), MoveType::TakeMove))];
    assert_eq!(script.filter_nodes(from_empty, &board).len(), 0);
    // once the file is blocked, the same move leaves no king attacked
    board.set_cell(4, 3, PieceSpan::Piece(Piece { piece_type: "rook", color: Color::White }));
    let again = vec![ChessMove::Single(unit((2, 2), (2, 3), (2, 3), MoveType::TakeMove))];
    assert_eq!(script.filter_nodes(again, &board).len(), 1);
}

#[test]
fn legal_moves_start_on_own_pieces() {
    let script = ChessemblyCompiled::new();
    let mut board = Board::<false, false, 8>::new(&script);
    let moves = MoveGen::new_legal(&mut board);
    assert_eq!(moves.len(), 20);
    for m in &moves {
        assert_eq!(board.color_on(&m.get_source()), Some(Color::White));
        let mut after = board.make_move_new_nc(m, false);
        after.turn = Color::Black;
        assert!(!script.is_check(&mut after, Color::Black));
    }
}

#[test]
fn macho_keeps_forward_moves() {
    let script = ChessemblyCompiled::new();
    let mut board = Board::<true, false, 8>::empty(&script);
    board.set_cell(3, 4, PieceSpan::Piece(Piece { piece_type: "rook", color: Color::White }));
    let raw = script.get_moves(&mut board, &(3, 4), true);
    let kept = script.filter_nodes(raw, &board);
    assert_eq!(kept.len(), 4);
    for m in &kept {
        assert!(m.get_dest().1 < 4);
    }
}

#[test]
fn placement_round_trip() {
    let script = ChessemblyCompiled::new();
    let board = Board::<false, false, 8>::new(&script);
    let text = board.to_string();
    let back = Board::<false, false, 8>::from_str(&text, &script);
    for y in 0..8u8 {
        for x in 0..8u8 {
            assert_eq!(back.piece_on(&(x, y)), board.piece_on(&(x, y)));
            assert_eq!(back.color_on(&(x, y)), board.color_on(&(x, y)));
        }
    }
}

#[test]
fn register_read_after_write() {
    let mut st = BoardState { castling_oo: true, castling_ooo: true, enpassant: Vec::new(), register: Vec::new() };
    assert_eq!(st.get_register("a"), 0);
    st.set_register("a", 3);
    st.set_register("b", 4);
    st.set_register("a", 5);
    assert_eq!(st.get_register("a"), 5);
    assert_eq!(st.get_register("b"), 4);
    assert_eq!(st.register.len(), 2);
}

#[test]
fn plain_move_relocates_piece() {
    let script = ChessemblyCompiled::new();
    let mut board = Board::<false, false, 8>::new(&script);
    Board::run_node_unit(&mut board, &unit((1, 7), (2, 5), (2, 5), MoveType::TakeMove));
    assert_eq!(board.piece_on(&(2, 5)), Some("knight"));
    assert_eq!(board.piece_on(&(1, 7)), None);
}

#[test]
fn castling_moves_both_pieces() {
    let script = ChessemblyCompiled::new();
    let mut board = Board::<false, false, 8>::from_str("....k...\n........\n........\n........\n........\n........\n........\n....K..R", &script);
    let moves = script.get_moves(&mut board, &(4, 7), true);
    let castle = moves
        .iter()
        .find(|m| match m {
            ChessMove::Single(u) => u.move_type == MoveType::Castling,
            _ => false,
        })
        .expect("castling available")
        .clone();
    assert_eq!(castle.get_dest(), (6, 7));
    let after = board.make_move_new(&castle);
    assert_eq!(after.piece_on(&(6, 7)), Some("king"));
    assert_eq!(after.piece_on(&(5, 7)), Some("rook"));
    assert!(!after.board_state.white.castling_oo);
}

#[test]
fn pawn_promotes_four_ways() {
    let script = ChessemblyCompiled::new();
    let mut board = Board::<false, false, 8>::empty(&script);
    board.set_cell(0, 1, PieceSpan::Piece(Piece { piece_type: "pawn", color: Color::White }));
    let moves = script.get_moves(&mut board, &(0, 1), false);
    let names: Vec<Option<&str>> = moves.iter().map(|m| *m.get_promotion()).collect();
    assert_eq!(names, vec![Some("knight"), Some("bishop"), Some("rook"), Some("queen")]);
}

#[test]
fn move_hash_packs_squares() {
    let m = ChessMove::Single(unit((1, 2), (3, 4), (3, 4), MoveType::Move));
    assert_eq!(m.move_hash(), 1 | (2 << 8) | (3 << 16) | (4 << 24));
}

#[test]
fn header_lists_are_parsed() {
    assert_eq!(protocol::parse_positions("1,2/3,4/bad"), vec![(1, 2), (3, 4)]);
    assert_eq!(protocol::parse_positions("."), Vec::<(u8, u8)>::new());
    assert_eq!(protocol::parse_positions("x,300"), vec![(0, 0)]);
    assert_eq!(protocol::parse_registers("a,1/b,2/a,3"), vec![("a", 3), ("b", 2)]);
    assert_eq!(protocol::parse_castling("10"), (true, false));
    assert_eq!(protocol::parse_castling(""), (false, false));
    assert_eq!(protocol::parse_target(" 3 , 4"), Some((3, 4)));
    assert_eq!(protocol::parse_target("34"), None);
    assert_eq!(protocol::parse_target_pair("1,2/3,4"), Some(((1, 2), (3, 4))));
    assert_eq!(protocol::parse_target_pair("1,2"), None);
}

#[test]
fn scripts_are_decoded_and_spaced() {
    assert_eq!(protocol::space_braces("a{b}c").as_str(), "a { b } c");
    assert_eq!(protocol::prepare_script("take-move(1%2C%200)%7Brepeat(1)%7D").unwrap().as_str(), "take-move(1, 0) { repeat(1) } ");
    assert_eq!(protocol::prepare_script("plain").unwrap().as_str(), "plain");
    assert!(protocol::prepare_script("%FF").is_none());
}

#[test]
fn layout_is_set_up_and_encoded() {
    let script = ChessemblyCompiled::new();
    let text = "rook:black . king:black/./. . . queen:white";
    assert!(protocol::layout_fits_board(text));
    let mut state = empty_state();
    state.white.enpassant.push((3, 2));
    state.white.enpassant.push((10, 255));
    state.black.castling_oo = false;
    let board = protocol::setup_board::<false, false>(&script, text, state, Color::Black);
    assert_eq!(board.piece_on(&(0, 0)), Some("rook"));
    assert_eq!(board.piece_on(&(2, 0)), Some("king"));
    assert_eq!(board.piece_on(&(3, 2)), Some("queen"));
    assert_eq!(board.color_on(&(3, 2)), Some(Color::White));
    let r = protocol::encode_board_response(&board);
    let mut rows = vec![String::new(); 8];
    rows[0] = "rook:black . king:black . . . . .".to_string();
    rows[1] = ". . . . . . . .".to_string();
    rows[2] = ". . . queen:white . . . .".to_string();
    for i in 3..8 {
        rows[i] = ". . . . . . . .".to_string();
    }
    assert_eq!(r.position, rows.join("/"));
    assert_eq!(r.turn, "black");
    assert_eq!(r.castling_oo, "10");
    assert_eq!(r.castling_ooo, "11");
    assert_eq!(r.en_passant_white, "3,2/10,255");
    assert_eq!(r.en_passant_black, ".");
}

#[test]
fn layout_off_the_board_is_detected() {
    assert!(!protocol::layout_fits_board("a:white a:white a:white a:white a:white a:white a:white a:white a:white"));
    assert!(protocol::layout_fits_board("a b c d e f g h i j"));
    assert!(!protocol::layout_fits_board("./././././././././x:black"));
}

#[test]
fn legal_moves_of_one_piece() {
    let script = ChessemblyCompiled::new();
    let mut board = Board::<false, false, 8>::new(&script);
    let moves = protocol::legal_moves_at(&mut board, (1, 7));
    let mut dests: Vec<(u8, u8)> = moves.iter().map(|m| m.get_dest()).collect();
    dests.sort();
    assert_eq!(dests, vec![(0, 5), (2, 5)]);
    assert!(protocol::legal_moves_at(&mut board, (4, 4)).is_empty());
}

#[test]
fn requested_move_is_applied_or_refused() {
    let script = ChessemblyCompiled::new();
    let board = Board::<false, false, 8>::new(&script);
    let resp = protocol::apply_requested_move(board, (4, 6), (4, 4), None).expect("legal move");
    assert_eq!(resp.turn, "black");
    let row4: Vec<&str> = resp.position.split('/').nth(4).unwrap().split(' ').collect();
    assert_eq!(row4[4], "pawn:white");
    let row6: Vec<&str> = resp.position.split('/').nth(6).unwrap().split(' ').collect();
    assert_eq!(row6[4], ".");
    let board = Board::<false, false, 8>::new(&script);
    assert!(protocol::apply_requested_move(board, (4, 6), (4, 3), None).is_none());
    let board = Board::<false, false, 8>::new(&script);
    assert!(protocol::apply_requested_move(board, (4, 6), (4, 4), Some("queen")).is_none());
}

#[test]
fn written_board_reads_back() {
    let script = ChessemblyCompiled::new();
    let mut board = Board::<false, false, 8>::new(&script);
    board.board_state.white.enpassant = vec![(3, 5), (12, 200)];
    board.board_state.black.castling_oo = false;
    board.turn = Color::Black;
    let resp = protocol::encode_board_response(&board);
    let state = BothBoardState {
        white: BoardState {
            castling_oo: protocol::parse_castling(&resp.castling_oo).0,
            castling_ooo: protocol::parse_castling(&resp.castling_ooo).0,
            enpassant: protocol::parse_positions(&resp.en_passant_white),
            register: Vec::new(),
        },
        black: BoardState {
            castling_oo: protocol::parse_castling(&resp.castling_oo).1,
            castling_ooo: protocol::parse_castling(&resp.castling_ooo).1,
            enpassant: protocol::parse_positions(&resp.en_passant_black),
            register: Vec::new(),
        },
    };
    assert!(protocol::layout_fits_board(&resp.position));
    let back = protocol::setup_board::<false, false>(&script, &resp.position, state, protocol::parse_turn(&resp.turn));
    for y in 0..8u8 {
        for x in 0..8u8 {
            assert_eq!(back.piece_on(&(x, y)), board.piece_on(&(x, y)));
            assert_eq!(back.color_on(&(x, y)), board.color_on(&(x, y)));
        }
    }
    assert_eq!(back.board_state.white.enpassant, vec![(3, 5), (12, 200)]);
    assert!(back.board_state.black.enpassant.is_empty());
    assert_eq!(back.board_state.white.castling_oo, true);
    assert_eq!(back.board_state.black.castling_oo, false);
    assert_eq!(back.side_to_move(), Color::Black);
}

#[test]
fn turn_header() {
    assert_eq!(protocol::parse_turn("white"), Color::White);
    assert_eq!(protocol::parse_turn("black"), Color::Black);
    assert_eq!(protocol::parse_turn("White"), Color::Black);
}
