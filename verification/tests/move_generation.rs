use chessembly_bot::chessembly::{
    Board, BoardStatus, ChessMove, ChessMoveUnit, ChessemblyCompiled, Color, MoveGen, MoveType,
    Piece, PieceSpan,
};

fn unit(m: &ChessMove) -> ChessMoveUnit<'static> {
    match m {
        ChessMove::Single(u) => ChessMoveUnit {
            from: u.from,
            take: u.take,
            move_to: u.move_to,
            move_type: u.move_type,
            state_change: None,
            transition: None,
        },
        ChessMove::Multiple(_) => panic!("unexpected multiple move"),
    }
}

fn dests(moves: &Vec<ChessMove>) -> Vec<(u8, u8)> {
    let mut v: Vec<(u8, u8)> = moves.iter().map(|m| m.get_dest()).collect();
    v.sort();
    v
}

#[test]
fn start_position_has_twenty_moves() {
    let script = ChessemblyCompiled::new();
    let mut board = Board::<false, false, 8>::new(&script);
    let moves = MoveGen::new_legal(&mut board);
    assert_eq!(moves.len(), 20);
}

#[test]
fn knight_on_b1_has_two_moves() {
    let script = ChessemblyCompiled::new();
    let mut board = Board::<false, false, 8>::new(&script);
    let moves = script.get_moves(&mut board, &(1, 7), true);
    assert_eq!(dests(&moves), vec![(0, 5), (2, 5)]);
    for m in &moves {
        assert_eq!(unit(m).move_type, MoveType::TakeMove);
        assert_eq!(m.get_source(), (1, 7));
    }
}

#[test]
fn pawn_double_step_is_marked() {
    let script = ChessemblyCompiled::new();
    let mut board = Board::<false, false, 8>::new(&script);
    let moves = script.get_moves(&mut board, &(4, 6), true);
    assert_eq!(moves.len(), 2);
    match &moves[1] {
        ChessMove::Single(u) => {
            assert_eq!(u.move_to, (4, 4));
            assert_eq!(u.state_change, Some(vec![("enpassant", 1u8)]));
        }
        _ => panic!("expected a single move"),
    }
}

#[test]
fn script_piece_slides_along_the_rank() {
    let script = ChessemblyCompiled::from_script("take-move(1, 0) repeat(1);").unwrap();
    let mut board = Board::<false, false, 8>::empty(&script);
    board.set_cell(0, 7, PieceSpan::Piece(Piece { piece_type: "slider", color: Color::White }));
    let moves = script.get_moves(&mut board, &(0, 7), false);
    assert_eq!(dests(&moves), vec![(1, 7), (2, 7), (3, 7), (4, 7), (5, 7), (6, 7), (7, 7)]);
}

#[test]
fn script_piece_is_mirrored_for_black() {
    let script = ChessemblyCompiled::from_script("take-move(0, 1);").unwrap();
    let mut board = Board::<false, false, 8>::empty(&script);
    board.set_cell(3, 3, PieceSpan::Piece(Piece { piece_type: "stepper", color: Color::Black }));
    board.set_cell(5, 5, PieceSpan::Piece(Piece { piece_type: "stepper", color: Color::White }));
    let black = script.get_moves(&mut board, &(3, 3), false);
    let white = script.get_moves(&mut board, &(5, 5), false);
    assert_eq!(dests(&black), vec![(3, 4)]);
    assert_eq!(dests(&white), vec![(5, 4)]);
}

fn play<'a>(b: &Board<'a, false, false, 8>, from: (u8, u8), to: (u8, u8)) -> Board<'a, false, false, 8> {
    let mut b2 = b.clone_without_dp();
    let moves = MoveGen::new_legal(&mut b2);
    let m = moves
        .iter()
        .find(|m| m.get_source() == from && m.get_dest() == to)
        .expect("move not found")
        .clone();
    b.make_move_new(&m)
}

#[test]
fn fools_mate_is_checkmate() {
    let script = ChessemblyCompiled::new();
    let board = Board::<false, false, 8>::new(&script);
    let b1 = play(&board, (5, 6), (5, 5));
    assert_eq!(b1.side_to_move(), Color::Black);
    let b2 = play(&b1, (4, 1), (4, 3));
    let b3 = play(&b2, (6, 6), (6, 4));
    let b4 = play(&b3, (3, 0), (7, 4));
    assert_eq!(b4.status(), BoardStatus::Checkmate);
}

#[test]
fn start_position_drawing() {
    let script = ChessemblyCompiled::new();
    let board = Board::<false, false, 8>::new(&script);
    assert_eq!(
        board.to_string(),
        "rnbqkbnr\npppppppp\n        \n        \n        \n        \nPPPPPPPP\nRNBQKBNR\n"
    );
}

#[test]
fn placement_text_round_trip() {
    let script = ChessemblyCompiled::new();
    let text = "r...k..r\npppppppp\n........\n....Q...\n........\n........\nPPPPPPPP\nR...K..R\n";
    let board = Board::<false, false, 8>::from_str(text, &script);
    assert_eq!(board.piece_on(&(4, 3)), Some("queen"));
    assert_eq!(board.color_on(&(4, 3)), Some(Color::White));
    assert_eq!(board.color_on(&(1, 0)), None);
    assert_eq!(
        board.to_string(),
        "r   k  r\npppppppp\n        \n    Q   \n        \n        \nPPPPPPPP\nR   K  R\n"
    );
}

#[test]
fn danger_picture_of_start_position() {
    let script = ChessemblyCompiled::new();
    let mut board = Board::<false, false, 8>::new(&script);
    let (check, rows) = script.is_check_dbg(&mut board, Color::White);
    assert!(!check);
    assert_eq!(rows.len(), 8);
    // the knights' unfiltered moves reach (0, 5), (2, 5), (5, 5) and (7, 5)
    assert_eq!(rows[5], "[ ]   [ ]      [ ]   [ ]");
    assert_eq!(rows[7], " r  k  b  q  k  b  k  r ");
    assert_eq!(rows[3], "                        ");
    let mut again = Board::<false, false, 8>::new(&script);
    assert_eq!(script.is_check(&mut again, Color::White), check);
}

#[test]
fn far_leap_from_the_first_file_leaves_the_board() {
    let script = ChessemblyCompiled::new();
    let mut board = Board::<false, false, 8>::new(&script);
    let mut moves: Vec<ChessMove> = Vec::new();
    // 0 + 121 fits a signed byte and lies beyond the board: no move, no capture
    let r = script.generate_ij_abs_take_move(&mut moves, &mut board, &(0, 7), &(121, 0));
    assert!(!r);
    assert!(moves.is_empty());
    // a leap onto an empty square adds the move and lets a slide go on
    let r = script.generate_ij_abs_take_move(&mut moves, &mut board, &(1, 7), &(1, 2));
    assert!(r);
    assert_eq!(moves.len(), 1);
    assert_eq!(moves[0].get_dest(), (2, 5));
}

#[test]
fn small_board_accessors_and_units() {
    let script = ChessemblyCompiled::new();
    let mut board = Board::<false, false, 4>::empty(&script);
    assert_eq!(board.turn, Color::White);
    assert_eq!(board.status, BoardStatus::Ongoing);
    for y in 0..4u8 {
        for x in 0..4u8 {
            assert_eq!(board.piece_on(&(x, y)), None);
        }
    }
    board.set_cell(1, 2, PieceSpan::Piece(Piece { piece_type: "rook", color: Color::Black }));
    board.set_cell(3, 3, PieceSpan::Piece(Piece { piece_type: "pawn", color: Color::White }));
    assert_eq!(board.piece_on(&(1, 2)), Some("rook"));
    assert_eq!(board.color_on(&(1, 2)), Some(Color::Black));
    // squares past the fourth file or rank are off this board
    assert_eq!(board.piece_on(&(4, 0)), None);
    assert_eq!(board.color_on(&(0, 4)), None);
    assert_eq!(board.color_on(&(200, 200)), None);
    assert!(ChessemblyCompiled::is_enemy(&(1, 2), &board, Color::White));
    assert!(!ChessemblyCompiled::is_enemy(&(3, 3), &board, Color::White));
    assert!(!ChessemblyCompiled::is_enemy(&(0, 0), &board, Color::White));
    assert!(!ChessemblyCompiled::is_enemy(&(5, 5), &board, Color::White));
    assert!(ChessemblyCompiled::is_friendly(&(3, 3), &board, Color::White));
    // the white pawn captures the rook: it lands on (1, 2), (3, 3) is emptied
    let u = ChessMoveUnit {
        from: (3, 3),
        take: (1, 2),
        move_to: (1, 2),
        move_type: MoveType::TakeMove,
        state_change: None,
        transition: Some("queen"),
    };
    Board::<false, false, 4>::run_node_unit(&mut board, &u);
    assert_eq!(board.piece_on(&(1, 2)), Some("queen"));
    assert_eq!(board.color_on(&(1, 2)), Some(Color::White));
    assert_eq!(board.piece_on(&(3, 3)), None);
    assert_eq!(board.turn, Color::White);
}

#[test]
fn queen_moves_on_a_wider_board() {
    let script = ChessemblyCompiled::new();
    let mut wide = Board::<false, false, 10>::empty(&script);
    wide.set_cell(3, 3, PieceSpan::Piece(Piece { piece_type: "queen", color: Color::White }));
    wide.set_cell(9, 9, PieceSpan::Piece(Piece { piece_type: "rook", color: Color::Black }));
    let mut narrow = Board::<false, false, 8>::empty(&script);
    narrow.set_cell(3, 3, PieceSpan::Piece(Piece { piece_type: "queen", color: Color::White }));
    let q_wide = script.generate_queen_moves(&mut wide, &(3, 3));
    let q_narrow = script.generate_queen_moves(&mut narrow, &(3, 3));
    // the walls stand after the eighth file and rank, whatever the board's size
    assert_eq!(q_wide.len(), 27);
    assert_eq!(q_wide.len(), q_narrow.len());
    for (a, b) in q_wide.iter().zip(q_narrow.iter()) {
        assert_eq!(a.get_dest(), b.get_dest());
    }
    // queen moves are the rook's moves followed by the bishop's
    let rook = script.generate_pseudo_rook_moves(&mut wide, &(3, 3));
    let bishop = script.generate_bishop_moves(&mut wide, &(3, 3));
    let joined: Vec<(u8, u8)> = rook.iter().chain(bishop.iter()).map(|m| m.get_dest()).collect();
    let queen: Vec<(u8, u8)> = q_wide.iter().map(|m| m.get_dest()).collect();
    assert_eq!(queen, joined);
}
