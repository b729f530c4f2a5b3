use chessembly_bot::chessembly::{
    Behavior, Board, ChessMove, ChessMoveUnit, ChessemblyCompiled, Color, MoveType, Piece,
    PieceSpan,
};

fn single<'a, 'b>(m: &'b ChessMove<'a>) -> &'b ChessMoveUnit<'a> {
    match m {
        ChessMove::Single(u) => u,
        ChessMove::Multiple(_) => panic!("unexpected multiple move"),
    }
}

fn dests(moves: &Vec<ChessMove>) -> Vec<(u8, u8)> {
    let mut v: Vec<(u8, u8)> = moves.iter().map(|m| m.get_dest()).collect();
    v.sort();
    v
}

fn board_with<'a>(
    script: &'a ChessemblyCompiled<'a>,
    pieces: &[((u8, u8), &'a str, Color)],
) -> Board<'a, false, false, 8> {
    let mut board = Board::<false, false, 8>::empty(script);
    for (p, name, color) in pieces {
        board.set_cell(p.0 as usize, p.1 as usize, PieceSpan::Piece(Piece { piece_type: name, color: *color }));
    }
    board
}

#[test]
fn instruction_parsing() {
    assert!(matches!(Behavior::from_str("take-move(1, -2)"), Behavior::TakeMove((1, -2))));
    assert!(matches!(Behavior::from_str("repeat(3)"), Behavior::Repeat(3)));
    assert!(matches!(Behavior::from_str("piece(knight)"), Behavior::Piece("knight")));
    assert!(matches!(Behavior::from_str("{"), Behavior::BlockOpen));
    assert!(matches!(Behavior::from_str("while"), Behavior::While));
}

#[test]
fn mirroring_for_black() {
    let b = Behavior::from_str("take-move(1, -2)");
    assert!(matches!(b.reflect_turn(Color::Black), Behavior::TakeMove((-1, 2))));
    assert!(matches!(b.reflect_turn(Color::White), Behavior::TakeMove((1, -2))));
    let c = Behavior::from_str("corner-top-right(1, 1)");
    assert!(matches!(c.reflect_turn(Color::Black), Behavior::CornerTopLeft((-1, -1))));
}

#[test]
fn comments_and_blank_pieces_are_skipped() {
    let c = ChessemblyCompiled::from_script("# a comment; take-move(1, 0) repeat(1);  ;").unwrap();
    assert_eq!(c.chains.len(), 1);
    assert_eq!(c.chains[0].len(), 2);
    assert!(matches!(c.chains[0][0], Behavior::TakeMove((1, 0))));
    assert!(matches!(c.chains[0][1], Behavior::Repeat(1)));
}

#[test]
fn braces_become_instructions() {
    let c = ChessemblyCompiled::from_script("piece(slider) { take-move(1, 0) repeat(1) } { take-move(0, 1) }").unwrap();
    assert_eq!(c.chains.len(), 1);
    let chain = &c.chains[0];
    assert_eq!(chain.len(), 8);
    assert!(matches!(chain[0], Behavior::Piece("slider")));
    assert!(matches!(chain[1], Behavior::BlockOpen));
    assert!(matches!(chain[4], Behavior::BlockClose));
    assert!(matches!(chain[7], Behavior::BlockClose));
}

#[test]
fn blocks_run_from_the_same_anchor() {
    let script = ChessemblyCompiled::from_script("{ take-move(1, 0) } { take-move(0, 1) };").unwrap();
    let mut board = board_with(&script, &[((3, 3), "hopper", Color::White)]);
    let moves = script.get_moves(&mut board, &(3, 3), false);
    assert_eq!(dests(&moves), vec![(3, 2), (4, 3)]);
}

#[test]
fn failed_test_skips_to_block_end() {
    let script =
        ChessemblyCompiled::from_script("{ piece(king) take-move(1, 0) } take-move(0, 1);").unwrap();
    let mut board = board_with(&script, &[((3, 3), "hopper", Color::White)]);
    let moves = script.get_moves(&mut board, &(3, 3), false);
    assert_eq!(dests(&moves), vec![(3, 2)]);
}

#[test]
fn take_only_captures() {
    let script = ChessemblyCompiled::from_script("take(1, 0) repeat(1);").unwrap();
    let mut board = board_with(
        &script,
        &[((0, 0), "hunter", Color::White), ((4, 0), "target", Color::Black)],
    );
    let moves = script.get_moves(&mut board, &(0, 0), false);
    assert_eq!(moves.len(), 1);
    let u = single(&moves[0]);
    assert_eq!(u.move_type, MoveType::Take);
    assert_eq!(u.take, (4, 0));
}

#[test]
fn peek_moves_the_anchor_over_empty_squares() {
    let script = ChessemblyCompiled::from_script("peek(1, 0) take-move(1, 0);").unwrap();
    let mut board = board_with(&script, &[((0, 4), "jumper", Color::White)]);
    let moves = script.get_moves(&mut board, &(0, 4), false);
    assert_eq!(dests(&moves), vec![(2, 4)]);
}

#[test]
fn do_while_loops() {
    let script = ChessemblyCompiled::from_script("do take-move(1, 0) while;").unwrap();
    let mut board = board_with(&script, &[((0, 5), "runner", Color::White)]);
    let moves = script.get_moves(&mut board, &(0, 5), false);
    assert_eq!(moves.len(), 7);
}

#[test]
fn transition_and_state_change_are_attached() {
    let script =
        ChessemblyCompiled::from_script("transition(queen) set-state(ready, 2) move(0, 1);").unwrap();
    let mut board = board_with(&script, &[((2, 2), "pupil", Color::White)]);
    let moves = script.get_moves(&mut board, &(2, 2), false);
    assert_eq!(moves.len(), 1);
    let u = single(&moves[0]);
    assert_eq!(u.transition, Some("queen"));
    assert_eq!(u.state_change, Some(vec![("ready", 2u8)]));
    assert_eq!(u.move_to, (2, 1));
}

#[test]
fn jumps_to_labels() {
    let script = ChessemblyCompiled::from_script("jmp(1) move(1, 0) label(1) move(0, 1);").unwrap();
    let mut board = board_with(&script, &[((4, 4), "skipper", Color::White)]);
    let moves = script.get_moves(&mut board, &(4, 4), false);
    assert_eq!(dests(&moves), vec![(4, 3)]);
}

#[test]
fn catch_captures_without_moving() {
    let script = ChessemblyCompiled::from_script("catch(0, 1);").unwrap();
    let mut board = board_with(
        &script,
        &[((4, 4), "archer", Color::White), ((4, 3), "target", Color::Black)],
    );
    let moves = script.get_moves(&mut board, &(4, 4), false);
    assert_eq!(moves.len(), 1);
    let u = single(&moves[0]);
    assert_eq!(u.move_type, MoveType::Catch);
    assert_eq!(u.take, (4, 3));
    assert_eq!(u.move_to, (4, 4));
    let after = board.make_move_new_nc(&moves[0], false);
    assert_eq!(after.piece_on(&(4, 4)), None);
    assert_eq!(after.piece_on(&(4, 3)), None);
}

#[test]
fn shift_swaps_places() {
    let script = ChessemblyCompiled::from_script("shift(1, 0);").unwrap();
    let mut board = board_with(
        &script,
        &[((2, 2), "swapper", Color::White), ((3, 2), "friend", Color::White)],
    );
    let moves = script.get_moves(&mut board, &(2, 2), false);
    assert_eq!(moves.len(), 1);
    let after = board.make_move_new_nc(&moves[0], false);
    assert_eq!(after.piece_on(&(3, 2)), Some("swapper"));
    assert_eq!(after.piece_on(&(2, 2)), Some("friend"));
}

#[test]
fn registers_and_value_bits() {
    let script = ChessemblyCompiled::from_script("false write(3) read(3) move(0, 1);").unwrap();
    let mut board = board_with(&script, &[((5, 5), "reader", Color::White)]);
    let moves = script.get_moves(&mut board, &(5, 5), false);
    assert_eq!(moves.len(), 0);
    let script2 = ChessemblyCompiled::from_script("true write(3) false read(3) move(0, 1);").unwrap();
    let mut board2 = board_with(&script2, &[((5, 5), "reader", Color::White)]);
    let moves2 = script2.get_moves(&mut board2, &(5, 5), false);
    assert_eq!(moves2.len(), 1);
}

#[test]
fn unsafe_instructions_are_detected() {
    let ok = ChessemblyCompiled::from_script("take-move(1, 0);").unwrap();
    assert!(ok.is_wf());
    let bad = ChessemblyCompiled::from_script("check;").unwrap();
    assert!(!bad.is_wf());
    let far = ChessemblyCompiled::from_script("take-move(127, 0);").unwrap();
    assert!(!far.is_wf());
}

#[test]
fn mirroring_for_black_without_wf() {
    assert!(matches!(Behavior::Take((1, 2)).reflect_turn(Color::Black), Behavior::Take((-1, -2))));
    assert!(matches!(Behavior::Absoulte((1, 2)).reflect_turn(Color::Black), Behavior::Absoulte((6, 5))));
    assert!(matches!(Behavior::Repeat(3).reflect_turn(Color::Black), Behavior::Repeat(3)));
    assert!(matches!(Behavior::Check.reflect_turn(Color::Black), Behavior::Check));
    assert!(matches!(Behavior::Take((125, -127)).reflect_turn(Color::Black), Behavior::Take((-125, 127))));
    assert!(matches!(Behavior::Take((1, 2)).reflect_turn(Color::White), Behavior::Take((1, 2))));
}

#[test]
fn unicode_white_space_separates_instructions() {
    let plain = ChessemblyCompiled::from_script("piece(slider) take-move(1, 0) repeat(1);").unwrap();
    let wide = ChessemblyCompiled::from_script(
        "piece(slider)\u{3000}take-move(1,\u{A0}0)\u{2003}repeat(1)\u{85};",
    )
    .unwrap();
    let board_a = board_with(&plain, &[((0, 3), "slider", Color::White)]);
    let board_b = board_with(&wide, &[((0, 3), "slider", Color::White)]);
    let mut a = board_a;
    let mut b = board_b;
    let ma = plain.generate_moves(&mut a, &(0, 3), false).unwrap();
    let mb = wide.generate_moves(&mut b, &(0, 3), false).unwrap();
    assert_eq!(dests(&ma), dests(&mb));
    assert_eq!(ma.len(), 7);
}
