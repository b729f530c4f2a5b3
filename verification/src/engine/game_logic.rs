//! Board queries that the evaluation of a position builds on: where the
//! king stands, the pawns that shield it, passed pawns, the pieces that
//! attack a square and the outcome of an exchange on it.
use vstd::prelude::*;

use crate::chessembly::semantics::{color_on_v, piece_on_v, BoardV};
use crate::chessembly::text::str_eq;
use crate::chessembly::{in_board, invert_v, Board, Color, Position};

verus! {

/// Whether square `p` holds a piece named `name` of side `c`.
pub open spec fn holds_v(b: BoardV, p: Position, name: Seq<char>, c: Color) -> bool {
    piece_on_v(b, p) == Some(name) && color_on_v(b, p) == Some(c)
}

/// Whether `p` comes before `q` when the board is walked file by file
/// (x outer, y inner).
pub open spec fn file_major_before(p: Position, q: Position) -> bool {
    p.0 < q.0 || (p.0 == q.0 && p.1 < q.1)
}

/// The value of a byte read as a signed byte (two's complement).
pub open spec fn i8v(u: u8) -> int {
    if u < 128 {
        u as int
    } else {
        u - 256
    }
}

/// 1 for true, 0 for false.
pub open spec fn b2i(b: bool) -> int {
    if b {
        1
    } else {
        0
    }
}

/// The direction in which the pawns of side `c` advance along y.
pub open spec fn forward(c: Color) -> int {
    if c == Color::White {
        -1
    } else {
        1
    }
}

/// Whether the square `dist` ranks ahead of (sx, sy), `dx` files aside,
/// is on the board and holds a pawn of side `c`.
pub open spec fn shield_at(b: BoardV, sx: int, sy: int, c: Color, dx: int, dist: int) -> bool {
    let nx = sx + dx;
    let ny = sy + forward(c) * dist;
    0 <= nx <= 7 && 0 <= ny <= 7 && holds_v(b, (nx as u8, ny as u8), "pawn"@, c)
}

/// The shielding pawns on file `sx + dx`: one and two ranks ahead.
pub open spec fn shield_file(b: BoardV, sx: int, sy: int, c: Color, dx: int) -> int {
    b2i(shield_at(b, sx, sy, c, dx, 1)) + b2i(shield_at(b, sx, sy, c, dx, 2))
}

/// The shielding pawns on the files `sx - 1` up to `sx + upto - 1`.
pub open spec fn shield_files(b: BoardV, sx: int, sy: int, c: Color, upto: int) -> int
    decreases upto + 1,
{
    if upto <= -1 {
        0
    } else {
        shield_files(b, sx, sy, c, upto - 1) + shield_file(b, sx, sy, c, upto - 1)
    }
}

/// The pawns of side `c` one or two ranks ahead of (sx, sy), on its file and
/// the two next to it.
pub open spec fn pawn_shield_v(b: BoardV, sx: int, sy: int, c: Color) -> int {
    shield_files(b, sx, sy, c, 2)
}

/// Whether the signed coordinates (sx, sy) leave room for the shield's
/// offsets in a signed byte.
pub open spec fn shield_fits(sx: int, sy: int, c: Color) -> bool {
    &&& -127 <= sx <= 126
    &&& -128 <= sy + 2 * forward(c) <= 127
}

/// Whether an enemy pawn stands on the files next to or on file `px`, on the
/// ranks ahead of rank `py` as the pawn of side `c` advances (for white the
/// ranks 0 to `py - 1`, none when `py` is 0; for black `py + 1` to 7).
pub open spec fn enemy_pawn_ahead(b: BoardV, px: u8, py: u8, c: Color) -> bool {
    let ys: int = if c == Color::White { 0 } else { py + 1 };
    let ye: int = if c == Color::White { py - 1 } else { 7 };
    let xs: int = if px >= 1 { px - 1 } else { 0 };
    let xe: int = if px + 1 <= 7 { px + 1 } else { 7 };
    exists|x: u8, y: u8|
        xs <= x <= xe && ys <= y <= ye && #[trigger] holds_v(b, (x, y), "pawn"@, invert_v(c))
}

/// The entry for a piece named `name` of side `c`, worth `v`, at (x, y):
/// one entry when that square is on the board and holds such a piece.
pub open spec fn hit_v(b: BoardV, x: int, y: int, name: Seq<char>, c: Color, v: i32) -> Seq<(i32, Position)> {
    if 0 <= x < 8 && 0 <= y < 8 && holds_v(b, (x as u8, y as u8), name, c) {
        seq![(v, (x as u8, y as u8))]
    } else {
        seq![]
    }
}

/// The first occupied square of the board met from (x, y) on, stepping by
/// (dx, dy), each a single step.
pub open spec fn ray_first(b: BoardV, x: int, y: int, dx: int, dy: int) -> Option<Position>
    decreases (if dx > 0 {
        8 - x
    } else if dx < 0 {
        x + 1
    } else if dy > 0 {
        8 - y
    } else {
        y + 1
    }),
{
    if !(0 <= x < 8 && 0 <= y < 8) || (dx == 0 && dy == 0) || !(-1 <= dx <= 1 && -1 <= dy <= 1) {
        None
    } else if piece_on_v(b, (x as u8, y as u8)) is Some {
        Some((x as u8, y as u8))
    } else {
        ray_first(b, x + dx, y + dy, dx, dy)
    }
}

/// The entry for the first piece met from (sx, sy) along (dx, dy): when it
/// is of side `c`, a piece named `name` worth `v`, or a queen worth 900.
pub open spec fn ray_hit_v(
    b: BoardV,
    sx: int,
    sy: int,
    dx: int,
    dy: int,
    c: Color,
    name: Seq<char>,
    v: i32,
) -> Seq<(i32, Position)> {
    match ray_first(b, sx + dx, sy + dy, dx, dy) {
        Some(p) => if color_on_v(b, p) == Some(c) && piece_on_v(b, p) == Some(name) {
            seq![(v, p)]
        } else if color_on_v(b, p) == Some(c) && piece_on_v(b, p) == Some("queen"@) {
            seq![(900i32, p)]
        } else {
            seq![]
        },
        None => seq![],
    }
}

/// The pieces of side `c` that attack (sx, sy), each with its value: pawns
/// (100), knights (320), bishops and queens along the diagonals (330, 900),
/// rooks and queens along the lines (500, 900) and the king (20000), in
/// that order. Pieces behind the first one on a line are not counted.
pub open spec fn attackers_v(b: BoardV, sx: int, sy: int, c: Color) -> Seq<(i32, Position)> {
    let pdy: int = if c == Color::White { 1 } else { -1 };
    hit_v(b, sx - 1, sy + pdy, "pawn"@, c, 100)
        + hit_v(b, sx + 1, sy + pdy, "pawn"@, c, 100)
        + hit_v(b, sx - 2, sy - 1, "knight"@, c, 320)
        + hit_v(b, sx - 2, sy + 1, "knight"@, c, 320)
        + hit_v(b, sx - 1, sy - 2, "knight"@, c, 320)
        + hit_v(b, sx - 1, sy + 2, "knight"@, c, 320)
        + hit_v(b, sx + 1, sy - 2, "knight"@, c, 320)
        + hit_v(b, sx + 1, sy + 2, "knight"@, c, 320)
        + hit_v(b, sx + 2, sy - 1, "knight"@, c, 320)
        + hit_v(b, sx + 2, sy + 1, "knight"@, c, 320)
        + ray_hit_v(b, sx, sy, -1, -1, c, "bishop"@, 330)
        + ray_hit_v(b, sx, sy, -1, 1, c, "bishop"@, 330)
        + ray_hit_v(b, sx, sy, 1, -1, c, "bishop"@, 330)
        + ray_hit_v(b, sx, sy, 1, 1, c, "bishop"@, 330)
        + ray_hit_v(b, sx, sy, -1, 0, c, "rook"@, 500)
        + ray_hit_v(b, sx, sy, 1, 0, c, "rook"@, 500)
        + ray_hit_v(b, sx, sy, 0, -1, c, "rook"@, 500)
        + ray_hit_v(b, sx, sy, 0, 1, c, "rook"@, 500)
        + hit_v(b, sx - 1, sy - 1, "king"@, c, 20000)
        + hit_v(b, sx - 1, sy, "king"@, c, 20000)
        + hit_v(b, sx - 1, sy + 1, "king"@, c, 20000)
        + hit_v(b, sx, sy - 1, "king"@, c, 20000)
        + hit_v(b, sx, sy + 1, "king"@, c, 20000)
        + hit_v(b, sx + 1, sy - 1, "king"@, c, 20000)
        + hit_v(b, sx + 1, sy, "king"@, c, 20000)
        + hit_v(b, sx + 1, sy + 1, "king"@, c, 20000)
}

/// An attacker entry: a square on the board holding a piece of side `c`,
/// with the value of its kind.
pub open spec fn attacker_entry_ok(b: BoardV, c: Color, e: (i32, Position)) -> bool {
    let name = piece_on_v(b, e.1);
    &&& in_board(e.1)
    &&& color_on_v(b, e.1) == Some(c)
    &&& {
        ||| e.0 == 100 && name == Some("pawn"@)
        ||| e.0 == 320 && name == Some("knight"@)
        ||| e.0 == 330 && name == Some("bishop"@)
        ||| e.0 == 500 && name == Some("rook"@)
        ||| e.0 == 900 && name == Some("queen"@)
        ||| e.0 == 20000 && name == Some("king"@)
    }
}

/// Every entry of `s` is an attacker entry for side `c`.
pub open spec fn all_attacker_entries(b: BoardV, c: Color, s: Seq<(i32, Position)>) -> bool {
    forall|i: int| 0 <= i < s.len() ==> attacker_entry_ok(b, c, #[trigger] s[i])
}

proof fn lemma_entries_concat(b: BoardV, c: Color, s: Seq<(i32, Position)>, t: Seq<(i32, Position)>)
    requires
        all_attacker_entries(b, c, s),
        all_attacker_entries(b, c, t),
    ensures
        all_attacker_entries(b, c, s + t),
{
    assert forall|i: int| 0 <= i < (s + t).len() implies attacker_entry_ok(b, c, #[trigger] (s + t)[i]) by {
        if i < s.len() {
            assert((s + t)[i] == s[i]);
        } else {
            assert((s + t)[i] == t[i - s.len()]);
        }
    }
}

proof fn lemma_hit_entries(b: BoardV, x: int, y: int, name: Seq<char>, c: Color, v: i32)
    requires
        (v == 100 && name == "pawn"@) || (v == 320 && name == "knight"@) || (v == 20000 && name == "king"@),
    ensures
        all_attacker_entries(b, c, hit_v(b, x, y, name, c, v)),
{
}

proof fn lemma_ray_entries(b: BoardV, sx: int, sy: int, dx: int, dy: int, c: Color, name: Seq<char>, v: i32)
    requires
        (v == 330 && name == "bishop"@) || (v == 500 && name == "rook"@),
    ensures
        all_attacker_entries(b, c, ray_hit_v(b, sx, sy, dx, dy, c, name, v)),
{
    lemma_ray_first_occupied(b, sx + dx, sy + dy, dx, dy);
}

/// Every entry `attackers_v` lists is a piece of side `c` with the value of
/// its kind.
pub proof fn lemma_attackers_entries(b: BoardV, sx: int, sy: int, c: Color)
    ensures
        all_attacker_entries(b, c, attackers_v(b, sx, sy, c)),
{
    let pdy: int = if c == Color::White { 1 } else { -1 };
    let t0 = hit_v(b, sx - 1, sy + pdy, "pawn"@, c, 100);
    lemma_hit_entries(b, sx - 1, sy + pdy, "pawn"@, c, 100);
    let h1 = hit_v(b, sx + 1, sy + pdy, "pawn"@, c, 100);
    lemma_hit_entries(b, sx + 1, sy + pdy, "pawn"@, c, 100);
    lemma_entries_concat(b, c, t0, h1);
    let t1 = t0 + h1;
    let h2 = hit_v(b, sx - 2, sy - 1, "knight"@, c, 320);
    lemma_hit_entries(b, sx - 2, sy - 1, "knight"@, c, 320);
    lemma_entries_concat(b, c, t1, h2);
    let t2 = t1 + h2;
    let h3 = hit_v(b, sx - 2, sy + 1, "knight"@, c, 320);
    lemma_hit_entries(b, sx - 2, sy + 1, "knight"@, c, 320);
    lemma_entries_concat(b, c, t2, h3);
    let t3 = t2 + h3;
    let h4 = hit_v(b, sx - 1, sy - 2, "knight"@, c, 320);
    lemma_hit_entries(b, sx - 1, sy - 2, "knight"@, c, 320);
    lemma_entries_concat(b, c, t3, h4);
    let t4 = t3 + h4;
    let h5 = hit_v(b, sx - 1, sy + 2, "knight"@, c, 320);
    lemma_hit_entries(b, sx - 1, sy + 2, "knight"@, c, 320);
    lemma_entries_concat(b, c, t4, h5);
    let t5 = t4 + h5;
    let h6 = hit_v(b, sx + 1, sy - 2, "knight"@, c, 320);
    lemma_hit_entries(b, sx + 1, sy - 2, "knight"@, c, 320);
    lemma_entries_concat(b, c, t5, h6);
    let t6 = t5 + h6;
    let h7 = hit_v(b, sx + 1, sy + 2, "knight"@, c, 320);
    lemma_hit_entries(b, sx + 1, sy + 2, "knight"@, c, 320);
    lemma_entries_concat(b, c, t6, h7);
    let t7 = t6 + h7;
    let h8 = hit_v(b, sx + 2, sy - 1, "knight"@, c, 320);
    lemma_hit_entries(b, sx + 2, sy - 1, "knight"@, c, 320);
    lemma_entries_concat(b, c, t7, h8);
    let t8 = t7 + h8;
    let h9 = hit_v(b, sx + 2, sy + 1, "knight"@, c, 320);
    lemma_hit_entries(b, sx + 2, sy + 1, "knight"@, c, 320);
    lemma_entries_concat(b, c, t8, h9);
    let t9 = t8 + h9;
    let h10 = ray_hit_v(b, sx, sy, -1, -1, c, "bishop"@, 330);
    lemma_ray_entries(b, sx, sy, -1, -1, c, "bishop"@, 330);
    lemma_entries_concat(b, c, t9, h10);
    let t10 = t9 + h10;
    let h11 = ray_hit_v(b, sx, sy, -1, 1, c, "bishop"@, 330);
    lemma_ray_entries(b, sx, sy, -1, 1, c, "bishop"@, 330);
    lemma_entries_concat(b, c, t10, h11);
    let t11 = t10 + h11;
    let h12 = ray_hit_v(b, sx, sy, 1, -1, c, "bishop"@, 330);
    lemma_ray_entries(b, sx, sy, 1, -1, c, "bishop"@, 330);
    lemma_entries_concat(b, c, t11, h12);
    let t12 = t11 + h12;
    let h13 = ray_hit_v(b, sx, sy, 1, 1, c, "bishop"@, 330);
    lemma_ray_entries(b, sx, sy, 1, 1, c, "bishop"@, 330);
    lemma_entries_concat(b, c, t12, h13);
    let t13 = t12 + h13;
    let h14 = ray_hit_v(b, sx, sy, -1, 0, c, "rook"@, 500);
    lemma_ray_entries(b, sx, sy, -1, 0, c, "rook"@, 500);
    lemma_entries_concat(b, c, t13, h14);
    let t14 = t13 + h14;
    let h15 = ray_hit_v(b, sx, sy, 1, 0, c, "rook"@, 500);
    lemma_ray_entries(b, sx, sy, 1, 0, c, "rook"@, 500);
    lemma_entries_concat(b, c, t14, h15);
    let t15 = t14 + h15;
    let h16 = ray_hit_v(b, sx, sy, 0, -1, c, "rook"@, 500);
    lemma_ray_entries(b, sx, sy, 0, -1, c, "rook"@, 500);
    lemma_entries_concat(b, c, t15, h16);
    let t16 = t15 + h16;
    let h17 = ray_hit_v(b, sx, sy, 0, 1, c, "rook"@, 500);
    lemma_ray_entries(b, sx, sy, 0, 1, c, "rook"@, 500);
    lemma_entries_concat(b, c, t16, h17);
    let t17 = t16 + h17;
    let h18 = hit_v(b, sx - 1, sy - 1, "king"@, c, 20000);
    lemma_hit_entries(b, sx - 1, sy - 1, "king"@, c, 20000);
    lemma_entries_concat(b, c, t17, h18);
    let t18 = t17 + h18;
    let h19 = hit_v(b, sx - 1, sy, "king"@, c, 20000);
    lemma_hit_entries(b, sx - 1, sy, "king"@, c, 20000);
    lemma_entries_concat(b, c, t18, h19);
    let t19 = t18 + h19;
    let h20 = hit_v(b, sx - 1, sy + 1, "king"@, c, 20000);
    lemma_hit_entries(b, sx - 1, sy + 1, "king"@, c, 20000);
    lemma_entries_concat(b, c, t19, h20);
    let t20 = t19 + h20;
    let h21 = hit_v(b, sx, sy - 1, "king"@, c, 20000);
    lemma_hit_entries(b, sx, sy - 1, "king"@, c, 20000);
    lemma_entries_concat(b, c, t20, h21);
    let t21 = t20 + h21;
    let h22 = hit_v(b, sx, sy + 1, "king"@, c, 20000);
    lemma_hit_entries(b, sx, sy + 1, "king"@, c, 20000);
    lemma_entries_concat(b, c, t21, h22);
    let t22 = t21 + h22;
    let h23 = hit_v(b, sx + 1, sy - 1, "king"@, c, 20000);
    lemma_hit_entries(b, sx + 1, sy - 1, "king"@, c, 20000);
    lemma_entries_concat(b, c, t22, h23);
    let t23 = t22 + h23;
    let h24 = hit_v(b, sx + 1, sy, "king"@, c, 20000);
    lemma_hit_entries(b, sx + 1, sy, "king"@, c, 20000);
    lemma_entries_concat(b, c, t23, h24);
    let t24 = t23 + h24;
    let h25 = hit_v(b, sx + 1, sy + 1, "king"@, c, 20000);
    lemma_hit_entries(b, sx + 1, sy + 1, "king"@, c, 20000);
    lemma_entries_concat(b, c, t24, h25);
    let t25 = t24 + h25;
    assert(t25 == attackers_v(b, sx, sy, c));
}

/// Whether (sx, sy) leaves room in a signed byte for the offsets around it.
pub open spec fn attack_fits(sx: int, sy: int) -> bool {
    -126 <= sx <= 125 && -126 <= sy <= 125
}

/// The square `ray_first` finds is on the board and occupied.
pub proof fn lemma_ray_first_occupied(b: BoardV, x: int, y: int, dx: int, dy: int)
    ensures
        ray_first(b, x, y, dx, dy) matches Some(p) ==> in_board(p) && piece_on_v(b, p) is Some,
    decreases (if dx > 0 {
        8 - x
    } else if dx < 0 {
        x + 1
    } else if dy > 0 {
        8 - y
    } else {
        y + 1
    }),
{
    if !(0 <= x < 8 && 0 <= y < 8) || (dx == 0 && dy == 0) || !(-1 <= dx <= 1 && -1 <= dy <= 1) {
    } else if piece_on_v(b, (x as u8, y as u8)) is Some {
    } else {
        lemma_ray_first_occupied(b, x + dx, y + dy, dx, dy);
    }
}

/// `x` placed before the first element of `s` that is not smaller.
pub open spec fn insert_sorted(s: Seq<i32>, x: i32) -> Seq<i32>
    decreases s.len(),
{
    if s.len() == 0 {
        seq![x]
    } else if x <= s[0] {
        seq![x] + s
    } else {
        seq![s[0]] + insert_sorted(s.drop_first(), x)
    }
}

/// `s` in ascending order.
pub open spec fn sort_v(s: Seq<i32>) -> Seq<i32>
    decreases s.len(),
{
    if s.len() == 0 {
        s
    } else {
        insert_sorted(sort_v(s.drop_last()), s.last())
    }
}

/// The values of the entries of `s`, leaving out those standing on `skip`
/// when it is given.
pub open spec fn values_except(s: Seq<(i32, Position)>, skip: Option<Position>) -> Seq<i32>
    decreases s.len(),
{
    if s.len() == 0 {
        seq![]
    } else {
        values_except(s.drop_last(), skip) + (if skip == Some(s.last().1) {
            seq![]
        } else {
            seq![s.last().0]
        })
    }
}

/// The value of the piece that captures at step `j` of an exchange: the
/// first capture is made by the piece worth `attacker`, then the defenders
/// (`opp`) and the further attackers (`our`) recapture in turn, each side
/// with its cheapest piece first.
pub open spec fn exchange_piece(attacker: i32, our: Seq<i32>, opp: Seq<i32>, j: int) -> i32 {
    if j == 0 {
        attacker
    } else if j % 2 == 1 {
        opp[(j - 1) / 2]
    } else {
        our[(j - 2) / 2]
    }
}

/// The number of captures of the exchange: it stops when the side to
/// recapture has no piece left.
pub open spec fn exchange_len(our: Seq<i32>, opp: Seq<i32>) -> int {
    if opp.len() <= our.len() {
        2 * (opp.len() as int)
    } else {
        2 * (our.len() as int) + 1
    }
}

/// What the side that captures at step `i` loses from then on, each side
/// being free to stop the exchange when going on would cost it.
pub open spec fn exchange_back(attacker: i32, our: Seq<i32>, opp: Seq<i32>, i: int) -> int
    decreases exchange_len(our, opp) - i,
{
    if i >= exchange_len(our, opp) || i < 0 {
        0
    } else {
        let d = exchange_piece(attacker, our, opp, i) - exchange_back(attacker, our, opp, i + 1);
        if d > 0 {
            d
        } else {
            0
        }
    }
}

/// The material outcome of the exchange for the side that starts it by
/// taking a piece worth `captured`.
pub open spec fn exchange_v(captured: i32, attacker: i32, our: Seq<i32>, opp: Seq<i32>) -> int {
    captured - exchange_back(attacker, our, opp, 0)
}

/// Whether every difference the exchange computes fits in an `i32`.
pub open spec fn exchange_fits(captured: i32, attacker: i32, our: Seq<i32>, opp: Seq<i32>) -> bool {
    &&& forall|t: int|
        0 <= t < exchange_len(our, opp) ==> i32::MIN <= exchange_piece(attacker, our, opp, t)
            - #[trigger] exchange_back(attacker, our, opp, t + 1)
    &&& i32::MIN <= captured - exchange_back(attacker, our, opp, 0)
}

/// The values of the further attackers of `to` on the side of the piece on
/// `from`, and of its defenders, each in ascending order.
pub open spec fn exchange_sides(b: BoardV, from: Position, to: Position) -> (Seq<i32>, Seq<i32>) {
    let ours = color_on_v(b, from)->0;
    (
        sort_v(values_except(attackers_v(b, i8v(to.0), i8v(to.1), ours), Some(from))),
        sort_v(values_except(attackers_v(b, i8v(to.0), i8v(to.1), invert_v(ours)), None)),
    )
}

/// The static exchange evaluation of the capture from `from` on `to`: 0
/// when `from` or `to` is empty, else the outcome of the exchange.
pub open spec fn static_exchange_v(b: BoardV, from: Position, to: Position, captured: i32, attacker: i32) -> int {
    if color_on_v(b, from) is None || piece_on_v(b, to) is None {
        0
    } else {
        exchange_v(captured, attacker, exchange_sides(b, from, to).0, exchange_sides(b, from, to).1)
    }
}

proof fn lemma_insert_sorted_index(s: Seq<i32>, x: i32, j: int)
    requires
        0 <= j <= s.len(),
        forall|k: int| 0 <= k < j ==> s[k] < x,
        j < s.len() ==> x <= s[j],
    ensures
        insert_sorted(s, x) == s.insert(j, x),
    decreases s.len(),
{
    if s.len() == 0 {
        assert(s.insert(j, x) =~= seq![x]);
    } else if x <= s[0] {
        assert(s.insert(j, x) =~= seq![x] + s);
    } else {
        let t = s.drop_first();
        assert forall|k: int| 0 <= k < j - 1 implies t[k] < x by {
            assert(t[k] == s[k + 1]);
        }
        lemma_insert_sorted_index(t, x, j - 1);
        assert(s.insert(j, x) =~= seq![s[0]] + t.insert(j - 1, x));
    }
}

/// Sorts a list of values in ascending order.
pub fn sort_values(v: &Vec<i32>) -> (r: Vec<i32>)
    ensures
        r@ == sort_v(v@),
{
    let mut r: Vec<i32> = Vec::new();
    let mut i: usize = 0;
    while i < v.len()
        invariant
            i <= v@.len(),
            r@ == sort_v(v@.subrange(0, i as int)),
            r@.len() == i,
        decreases v@.len() - i,
    {
        let x = v[i];
        let mut j: usize = 0;
        while j < r.len() && r[j] < x
            invariant
                j <= r@.len(),
                forall|k: int| 0 <= k < j ==> r@[k] < x,
            decreases r@.len() - j,
        {
            j += 1;
        }
        proof {
            lemma_insert_sorted_index(r@, x, j as int);
            let w = v@.subrange(0, i + 1);
            assert(w.drop_last() =~= v@.subrange(0, i as int));
            assert(w.last() == x);
        }
        r.insert(j, x);
        proof {
            lemma_insert_sorted_len(sort_v(v@.subrange(0, i as int)), x);
        }
        i += 1;
    }
    assert(v@.subrange(0, v@.len() as int) =~= v@);
    r
}

proof fn lemma_insert_sorted_len(s: Seq<i32>, x: i32)
    ensures
        insert_sorted(s, x).len() == s.len() + 1,
    decreases s.len(),
{
    if s.len() > 0 && x > s[0] {
        lemma_insert_sorted_len(s.drop_first(), x);
    }
}

/// The values of the entries of `s`, leaving out those standing on `skip`
/// when it is given.
pub fn attacker_values(s: &Vec<(i32, Position)>, skip: Option<Position>) -> (r: Vec<i32>)
    ensures
        r@ == values_except(s@, skip),
{
    let mut r: Vec<i32> = Vec::new();
    let mut i: usize = 0;
    while i < s.len()
        invariant
            i <= s@.len(),
            r@ == values_except(s@.subrange(0, i as int), skip),
        decreases s@.len() - i,
    {
        let e = s[i];
        proof {
            let w = s@.subrange(0, i + 1);
            assert(w.drop_last() =~= s@.subrange(0, i as int));
            assert(w.last() == e);
        }
        let keep = match skip {
            Some(p) => !(p.0 == e.1.0 && p.1 == e.1.1),
            None => true,
        };
        if keep {
            r.push(e.0);
        } else {
            assert(r@ =~= r@ + seq![]);
        }
        i += 1;
    }
    assert(s@.subrange(0, s@.len() as int) =~= s@);
    r
}

proof fn lemma_exchange_back_bounds(attacker: i32, our: Seq<i32>, opp: Seq<i32>, i: int)
    ensures
        0 <= exchange_back(attacker, our, opp, i) <= i32::MAX,
    decreases exchange_len(our, opp) - i,
{
    if i >= exchange_len(our, opp) || i < 0 {
    } else {
        lemma_exchange_back_bounds(attacker, our, opp, i + 1);
    }
}

/// Every element of `s` lies in [lo, hi].
pub open spec fn within(s: Seq<i32>, lo: int, hi: int) -> bool {
    forall|i: int| 0 <= i < s.len() ==> lo <= #[trigger] s[i] <= hi
}

proof fn lemma_insert_sorted_within(s: Seq<i32>, x: i32, lo: int, hi: int)
    requires
        within(s, lo, hi),
        lo <= x <= hi,
    ensures
        within(insert_sorted(s, x), lo, hi),
    decreases s.len(),
{
    if s.len() > 0 && x > s[0] {
        let t = s.drop_first();
        assert(within(t, lo, hi)) by {
            assert forall|i: int| 0 <= i < t.len() implies lo <= #[trigger] t[i] <= hi by {
                assert(t[i] == s[i + 1]);
            }
        }
        lemma_insert_sorted_within(t, x, lo, hi);
        let r = seq![s[0]] + insert_sorted(t, x);
        assert forall|i: int| 0 <= i < r.len() implies lo <= #[trigger] r[i] <= hi by {
            if i > 0 {
                assert(r[i] == insert_sorted(t, x)[i - 1]);
            }
        }
    } else if s.len() > 0 {
        let r = seq![x] + s;
        assert forall|i: int| 0 <= i < r.len() implies lo <= #[trigger] r[i] <= hi by {
            if i > 0 {
                assert(r[i] == s[i - 1]);
            }
        }
    }
}

/// Sorting keeps every value within the bounds the values had.
pub proof fn lemma_sort_within(s: Seq<i32>, lo: int, hi: int)
    requires
        within(s, lo, hi),
    ensures
        within(sort_v(s), lo, hi),
    decreases s.len(),
{
    if s.len() > 0 {
        let t = s.drop_last();
        assert(within(t, lo, hi)) by {
            assert forall|i: int| 0 <= i < t.len() implies lo <= #[trigger] t[i] <= hi by {
                assert(t[i] == s[i]);
            }
        }
        lemma_sort_within(t, lo, hi);
        lemma_insert_sorted_within(sort_v(t), s.last(), lo, hi);
    }
}

proof fn lemma_values_within(b: BoardV, c: Color, s: Seq<(i32, Position)>, skip: Option<Position>)
    requires
        all_attacker_entries(b, c, s),
    ensures
        within(values_except(s, skip), 100, 20000),
    decreases s.len(),
{
    if s.len() > 0 {
        let t = s.drop_last();
        assert(all_attacker_entries(b, c, t)) by {
            assert forall|i: int| 0 <= i < t.len() implies attacker_entry_ok(b, c, #[trigger] t[i]) by {
                assert(t[i] == s[i]);
            }
        }
        lemma_values_within(b, c, t, skip);
        assert(attacker_entry_ok(b, c, s[s.len() - 1]));
        let u = values_except(t, skip);
        let tail: Seq<i32> = if skip == Some(s.last().1) { seq![] } else { seq![s.last().0] };
        assert forall|i: int| 0 <= i < (u + tail).len() implies 100 <= #[trigger] (u + tail)[i] <= 20000 by {
            if i < u.len() {
                assert((u + tail)[i] == u[i]);
            }
        }
    }
}

proof fn lemma_exchange_back_at_most(attacker: i32, our: Seq<i32>, opp: Seq<i32>, i: int, hi: int)
    requires
        0 <= hi,
        attacker <= hi,
        within(our, i32::MIN as int, hi),
        within(opp, i32::MIN as int, hi),
    ensures
        exchange_back(attacker, our, opp, i) <= hi,
    decreases exchange_len(our, opp) - i,
{
    if i >= exchange_len(our, opp) || i < 0 {
    } else {
        lemma_exchange_back_at_most(attacker, our, opp, i + 1, hi);
        lemma_exchange_back_bounds(attacker, our, opp, i + 1);
        if i > 0 && i % 2 == 1 {
            assert(opp[(i - 1) / 2] <= hi);
        } else if i > 0 {
            assert(our[(i - 2) / 2] <= hi);
        }
    }
}

/// With values of at most 2^30 in magnitude, the exchange's arithmetic
/// stays within an `i32`.
pub proof fn lemma_exchange_fits_small(captured: i32, attacker: i32, our: Seq<i32>, opp: Seq<i32>)
    requires
        -0x4000_0000 <= captured <= 0x4000_0000,
        -0x4000_0000 <= attacker <= 0x4000_0000,
        within(our, -0x4000_0000, 0x4000_0000),
        within(opp, -0x4000_0000, 0x4000_0000),
    ensures
        exchange_fits(captured, attacker, our, opp),
{
    assert(within(our, i32::MIN as int, 0x4000_0000));
    assert(within(opp, i32::MIN as int, 0x4000_0000));
    assert forall|t: int| 0 <= t < exchange_len(our, opp) implies i32::MIN <= exchange_piece(attacker, our, opp, t)
        - #[trigger] exchange_back(attacker, our, opp, t + 1) by {
        lemma_exchange_back_at_most(attacker, our, opp, t + 1, 0x4000_0000);
        if t > 0 && t % 2 == 1 {
            assert(-0x4000_0000 <= opp[(t - 1) / 2]);
        } else if t > 0 {
            assert(-0x4000_0000 <= our[(t - 2) / 2]);
        }
    }
    lemma_exchange_back_at_most(attacker, our, opp, 0, 0x4000_0000);
}

/// With piece values of at most 2^30 in magnitude, the exchange on `to`
/// stays within an `i32`: the attackers' own values are those of the six
/// kinds of pieces.
pub proof fn law_exchange_fits_with_small_values(b: BoardV, from: Position, to: Position, captured: i32, attacker: i32)
    requires
        -0x4000_0000 <= captured <= 0x4000_0000,
        -0x4000_0000 <= attacker <= 0x4000_0000,
        color_on_v(b, from) is Some,
    ensures
        exchange_fits(captured, attacker, exchange_sides(b, from, to).0, exchange_sides(b, from, to).1),
{
    let ours = color_on_v(b, from)->0;
    let sx = i8v(to.0);
    let sy = i8v(to.1);
    lemma_attackers_entries(b, sx, sy, ours);
    lemma_attackers_entries(b, sx, sy, invert_v(ours));
    lemma_values_within(b, ours, attackers_v(b, sx, sy, ours), Some(from));
    lemma_values_within(b, invert_v(ours), attackers_v(b, sx, sy, invert_v(ours)), None);
    lemma_sort_within(values_except(attackers_v(b, sx, sy, ours), Some(from)), 100, 20000);
    lemma_sort_within(values_except(attackers_v(b, sx, sy, invert_v(ours)), None), 100, 20000);
    let (o, p) = exchange_sides(b, from, to);
    assert(within(o, -0x4000_0000, 0x4000_0000));
    assert(within(p, -0x4000_0000, 0x4000_0000));
    lemma_exchange_fits_small(captured, attacker, o, p);
}

/// The side that starts an exchange never ends with more than the piece it
/// takes first; with no defender it keeps that piece; and, taking with a
/// piece of non-negative value, it never loses more than that piece.
pub proof fn law_exchange_bounds(captured: i32, attacker: i32, our: Seq<i32>, opp: Seq<i32>)
    ensures
        exchange_v(captured, attacker, our, opp) <= captured,
        opp.len() == 0 ==> exchange_v(captured, attacker, our, opp) == captured,
        attacker >= 0 ==> exchange_v(captured, attacker, our, opp) >= captured - attacker,
{
    lemma_exchange_back_bounds(attacker, our, opp, 0);
    lemma_exchange_back_bounds(attacker, our, opp, 1);
}

/// Whether `s` is in ascending order.
pub open spec fn ascending(s: Seq<i32>) -> bool {
    forall|i: int, j: int| 0 <= i < j < s.len() ==> s[i] <= s[j]
}

/// The index of the first element of `s` that is not smaller than `x`
/// (the length when there is none).
spec fn first_not_less(s: Seq<i32>, x: i32) -> int
    decreases s.len(),
{
    if s.len() == 0 || x <= s[0] {
        0
    } else {
        1 + first_not_less(s.drop_first(), x)
    }
}

proof fn lemma_first_not_less(s: Seq<i32>, x: i32)
    ensures
        0 <= first_not_less(s, x) <= s.len(),
        forall|k: int| 0 <= k < first_not_less(s, x) ==> s[k] < x,
        first_not_less(s, x) < s.len() ==> x <= s[first_not_less(s, x)],
    decreases s.len(),
{
    if s.len() > 0 && x > s[0] {
        let t = s.drop_first();
        lemma_first_not_less(t, x);
        assert forall|k: int| 0 <= k < first_not_less(s, x) implies s[k] < x by {
            if k > 0 {
                assert(s[k] == t[k - 1]);
            }
        }
    }
}

proof fn lemma_insert_sorted_keeps(s: Seq<i32>, x: i32)
    requires
        ascending(s),
    ensures
        ascending(insert_sorted(s, x)),
        insert_sorted(s, x).to_multiset() == s.to_multiset().insert(x),
{
    lemma_first_not_less(s, x);
    let j = first_not_less(s, x);
    lemma_insert_sorted_index(s, x, j);
    vstd::seq_lib::to_multiset_insert(s, j, x);
    let r = s.insert(j, x);
    assert forall|a: int, b: int| 0 <= a < b < r.len() implies r[a] <= r[b] by {
        if b < j {
        } else if b == j {
            assert(r[a] == s[a]);
        } else if a < j {
            assert(r[a] == s[a] && r[b] == s[b - 1]);
            assert(s[a] < x);
        } else if a == j {
            assert(r[b] == s[b - 1]);
            assert(x <= s[j]);
        } else {
            assert(r[a] == s[a - 1] && r[b] == s[b - 1]);
        }
    }
}

/// `sort_v` puts the values in ascending order and keeps each of them as
/// often as it occurs.
pub proof fn law_sort_ascending_permutation(s: Seq<i32>)
    ensures
        ascending(sort_v(s)),
        sort_v(s).to_multiset() == s.to_multiset(),
    decreases s.len(),
{
    if s.len() > 0 {
        let t = s.drop_last();
        law_sort_ascending_permutation(t);
        lemma_insert_sorted_keeps(sort_v(t), s.last());
        assert(t.push(s.last()) =~= s);
        vstd::seq_lib::to_multiset_build(t, s.last());
    }
}

/// A byte read as a signed byte.
pub fn signed_byte(u: u8) -> (r: i8)
    ensures
        r == i8v(u),
{
    let r = u as i8;
    assert(r == i8v(u)) by (bit_vector)
        requires
            r == u as i8,
    ;
    r
}

impl<'a, const MACHO: bool, const IMPRISONED: bool> Board<'a, MACHO, IMPRISONED, 8> {
    /// Whether square `p` holds a piece named `name` of side `c`.
    pub fn holds(&self, p: Position, name: &str, c: Color) -> (r: bool)
        ensures
            r == holds_v(self@, p, name@, c),
    {
        match self.piece_on(&p) {
            Some(piece) => str_eq(piece, name) && self.color_on(&p) == Some(c),
            None => false,
        }
    }

    /// The square of the king of side `color`: the first one found walking
    /// the board file by file, or `None` when that side has no king.
    pub fn find_king(&self, color: Color) -> (r: Option<Position>)
        ensures
            match r {
                None => forall|p: Position| in_board(p) ==> !holds_v(self@, p, "king"@, color),
                Some(p) => {
                    &&& in_board(p)
                    &&& holds_v(self@, p, "king"@, color)
                    &&& forall|q: Position|
                        in_board(q) && #[trigger] file_major_before(q, p) ==> !holds_v(
                            self@,
                            q,
                            "king"@,
                            color,
                        )
                },
            },
    {
        let mut x: u8 = 0;
        while x < 8
            invariant
                x <= 8,
                forall|q: Position| in_board(q) && q.0 < x ==> !holds_v(self@, q, "king"@, color),
            decreases 8 - x,
        {
            let mut y: u8 = 0;
            while y < 8
                invariant
                    x < 8,
                    y <= 8,
                    forall|q: Position| in_board(q) && q.0 < x ==> !holds_v(self@, q, "king"@, color),
                    forall|q: Position| q.0 == x && q.1 < y ==> !holds_v(self@, q, "king"@, color),
                decreases 8 - y,
            {
                if self.holds((x, y), "king", color) {
                    return Some((x, y));
                }
                y += 1;
            }
            x += 1;
        }
        None
    }

    /// Appends the entry of a piece named `name` of side `c`, worth `v`, at
    /// (x, y), when that square is on the board and holds such a piece.
    fn push_hit(&self, result: &mut Vec<(i32, Position)>, x: i8, y: i8, name: &str, c: Color, v: i32)
        ensures
            final(result)@ == old(result)@ + hit_v(self@, x as int, y as int, name@, c, v),
    {
        if x >= 0 && x < 8 && y >= 0 && y < 8 {
            let pos = (x as u8, y as u8);
            if self.holds(pos, name, c) {
                result.push((v, pos));
                return;
            }
        }
        assert(hit_v(self@, x as int, y as int, name@, c, v) =~= seq![]);
        assert(result@ =~= old(result)@ + seq![]);
    }

    /// Appends the entry of the first piece met from (sx, sy) along (dx, dy)
    /// when it is of side `c` and named `name` (worth `v`) or a queen.
    fn push_ray(
        &self,
        result: &mut Vec<(i32, Position)>,
        sx: i8,
        sy: i8,
        dx: i8,
        dy: i8,
        c: Color,
        name: &str,
        v: i32,
    )
        requires
            attack_fits(sx as int, sy as int),
            -1 <= dx <= 1,
            -1 <= dy <= 1,
            dx != 0 || dy != 0,
        ensures
            final(result)@ == old(result)@ + ray_hit_v(self@, sx as int, sy as int, dx as int, dy as int, c, name@, v),
    {
        let mut px = sx + dx;
        let mut py = sy + dy;
        while px >= 0 && px < 8 && py >= 0 && py < 8
            invariant
                -1 <= dx <= 1,
                -1 <= dy <= 1,
                dx != 0 || dy != 0,
                -127 <= px <= 126,
                -127 <= py <= 126,
                result@ == old(result)@,
                ray_first(self@, px as int, py as int, dx as int, dy as int) == ray_first(
                    self@,
                    sx + dx,
                    sy + dy,
                    dx as int,
                    dy as int,
                ),
            decreases (if dx > 0 {
                8 - px
            } else if dx < 0 {
                px + 1
            } else if dy > 0 {
                8 - py
            } else {
                py + 1
            }),
        {
            let pos = (px as u8, py as u8);
            if let Some(p) = self.piece_on(&pos) {
                assert(ray_first(self@, px as int, py as int, dx as int, dy as int) == Some(pos));
                if self.color_on(&pos) == Some(c) {
                    if str_eq(p, name) {
                        result.push((v, pos));
                    } else if str_eq(p, "queen") {
                        result.push((900, pos));
                    } else {
                        assert(result@ =~= old(result)@ + seq![]);
                    }
                } else {
                    assert(result@ =~= old(result)@ + seq![]);
                }
                return;
            }
            px += dx;
            py += dy;
        }
        assert(result@ =~= old(result)@ + seq![]);
    }

    /// The pieces of side `color` that attack square `sq`, each with its
    /// value, in the order of `attackers_v`. The coordinates are read as
    /// signed bytes, as the offsets are added to them.
    pub fn get_attackers_of(&self, sq: Position, color: Color) -> (r: Vec<(i32, Position)>)
        requires
            attack_fits(i8v(sq.0), i8v(sq.1)),
        ensures
            r@ == attackers_v(self@, i8v(sq.0), i8v(sq.1), color),
            forall|i: int| 0 <= i < r@.len() ==> attacker_entry_ok(self@, color, #[trigger] r@[i]),
    {
        let mut result: Vec<(i32, Position)> = Vec::new();
        assert(result@ =~= seq![]);
        let sx = signed_byte(sq.0);
        let sy = signed_byte(sq.1);
        let pawn_dy: i8 = if color == Color::White { 1 } else { -1 };
        self.push_hit(&mut result, sx - 1, sy + pawn_dy, "pawn", color, 100);
        self.push_hit(&mut result, sx + 1, sy + pawn_dy, "pawn", color, 100);
        self.push_hit(&mut result, sx - 2, sy - 1, "knight", color, 320);
        self.push_hit(&mut result, sx - 2, sy + 1, "knight", color, 320);
        self.push_hit(&mut result, sx - 1, sy - 2, "knight", color, 320);
        self.push_hit(&mut result, sx - 1, sy + 2, "knight", color, 320);
        self.push_hit(&mut result, sx + 1, sy - 2, "knight", color, 320);
        self.push_hit(&mut result, sx + 1, sy + 2, "knight", color, 320);
        self.push_hit(&mut result, sx + 2, sy - 1, "knight", color, 320);
        self.push_hit(&mut result, sx + 2, sy + 1, "knight", color, 320);
        self.push_ray(&mut result, sx, sy, -1, -1, color, "bishop", 330);
        self.push_ray(&mut result, sx, sy, -1, 1, color, "bishop", 330);
        self.push_ray(&mut result, sx, sy, 1, -1, color, "bishop", 330);
        self.push_ray(&mut result, sx, sy, 1, 1, color, "bishop", 330);
        self.push_ray(&mut result, sx, sy, -1, 0, color, "rook", 500);
        self.push_ray(&mut result, sx, sy, 1, 0, color, "rook", 500);
        self.push_ray(&mut result, sx, sy, 0, -1, color, "rook", 500);
        self.push_ray(&mut result, sx, sy, 0, 1, color, "rook", 500);
        self.push_hit(&mut result, sx - 1, sy - 1, "king", color, 20000);
        self.push_hit(&mut result, sx - 1, sy, "king", color, 20000);
        self.push_hit(&mut result, sx - 1, sy + 1, "king", color, 20000);
        self.push_hit(&mut result, sx, sy - 1, "king", color, 20000);
        self.push_hit(&mut result, sx, sy + 1, "king", color, 20000);
        self.push_hit(&mut result, sx + 1, sy - 1, "king", color, 20000);
        self.push_hit(&mut result, sx + 1, sy, "king", color, 20000);
        self.push_hit(&mut result, sx + 1, sy + 1, "king", color, 20000);
        proof {
            lemma_attackers_entries(self@, sx as int, sy as int, color);
        }
        result
    }

    /// The static exchange evaluation of the capture from `from` on `to`:
    /// the material the capturing side ends with when both sides recapture
    /// on `to` with their cheapest pieces and either may stop when going on
    /// would cost it. `captured_value` and `attacker_value` are the values of
    /// the piece on `to` and of the piece on `from` (a pawn when `from` is
    /// empty) in the evaluation's piece-value table. Pieces behind the first
    /// one on a line are not counted.
    pub fn static_exchange_evaluation(&self, from: Position, to: Position, captured_value: i32, attacker_value: i32) -> (r: i32)
        requires
            color_on_v(self@, from) is Some && piece_on_v(self@, to) is Some ==> exchange_fits(
                captured_value,
                attacker_value,
                exchange_sides(self@, from, to).0,
                exchange_sides(self@, from, to).1,
            ),
        ensures
            r == static_exchange_v(self@, from, to, captured_value, attacker_value),
    {
        let our_color = match self.color_on(&from) {
            Some(c) => c,
            None => return 0,
        };
        let opp_color = our_color.invert();
        if self.piece_on(&to).is_none() {
            return 0;
        }
        let our_all = self.get_attackers_of(to, our_color);
        let our_atts = sort_values(&attacker_values(&our_all, Some(from)));
        let opp_all = self.get_attackers_of(to, opp_color);
        let opp_atts = sort_values(&attacker_values(&opp_all, None));
        let ghost our = our_atts@;
        let ghost opp = opp_atts@;
        let ghost k = exchange_len(our, opp);

        let mut gain: Vec<i32> = Vec::with_capacity(16);
        gain.push(captured_value);
        let mut cur_val = attacker_value;
        let mut our_i: usize = 0;
        let mut opp_i: usize = 0;
        let mut opp_turn = true;
        loop
            invariant
                our == our_atts@,
                opp == opp_atts@,
                k == exchange_len(our, opp),
                our_i <= our.len(),
                opp_i <= opp.len(),
                opp_i == our_i || opp_i == our_i + 1,
                opp_turn <==> opp_i == our_i,
                cur_val == exchange_piece(attacker_value, our, opp, opp_i + our_i),
                opp_i + our_i <= k,
                gain@.len() == 1 + opp_i + our_i,
                gain@[0] == captured_value,
                forall|t: int| 0 <= t < opp_i + our_i ==> #[trigger] gain@[1 + t] == exchange_piece(attacker_value, our, opp, t),
            ensures
                gain@.len() == 1 + k,
                gain@[0] == captured_value,
                forall|t: int| 0 <= t < k ==> #[trigger] gain@[1 + t] == exchange_piece(attacker_value, our, opp, t),
            decreases (opp.len() - opp_i) + (our.len() - our_i),
        {
            if opp_turn {
                if opp_i >= opp_atts.len() {
                    break;
                }
                gain.push(cur_val);
                cur_val = opp_atts[opp_i];
                opp_i += 1;
            } else {
                if our_i >= our_atts.len() {
                    break;
                }
                gain.push(cur_val);
                cur_val = our_atts[our_i];
                our_i += 1;
            }
            opp_turn = !opp_turn;
        }

        let mut running: i32 = 0;
        let mut idx: usize = gain.len();
        while idx > 1
            invariant
                k == exchange_len(our, opp),
                1 <= idx <= k + 1,
                gain@.len() == 1 + k,
                forall|t: int| 0 <= t < k ==> #[trigger] gain@[1 + t] == exchange_piece(attacker_value, our, opp, t),
                exchange_fits(captured_value, attacker_value, our, opp),
                running == exchange_back(attacker_value, our, opp, idx - 1),
            decreases idx,
        {
            idx -= 1;
            assert(gain@[1 + (idx - 1)] == exchange_piece(attacker_value, our, opp, idx - 1));
            assert(i32::MIN <= exchange_piece(attacker_value, our, opp, idx - 1) - exchange_back(attacker_value, our, opp, (idx - 1) + 1));
            proof {
                lemma_exchange_back_bounds(attacker_value, our, opp, idx as int);
            }
            let d = gain[idx] - running;
            running = if d > 0 { d } else { 0 };

        }
        proof {
            lemma_exchange_back_bounds(attacker_value, our, opp, 0);
        }
        gain[0] - running
    }

    /// The pawns of its own side on the file `kx + dx`, one and two ranks
    /// ahead of (kx, ky).
    fn shield_on_file(&self, kx: i8, ky: i8, dx: i8, color: Color) -> (n: u8)
        requires
            -1 <= dx <= 1,
            shield_fits(kx as int, ky as int, color),
        ensures
            n == shield_file(self@, kx as int, ky as int, color, dx as int),
    {
        let dy: i8 = if color == Color::White { -1 } else { 1 };
        let mut n: u8 = 0;
        let mut dist: i8 = 1;
        while dist <= 2
            invariant
                1 <= dist <= 3,
                -1 <= dx <= 1,
                dy == forward(color),
                shield_fits(kx as int, ky as int, color),
                n == (if dist >= 2 { b2i(shield_at(self@, kx as int, ky as int, color, dx as int, 1)) } else { 0 })
                    + (if dist >= 3 { b2i(shield_at(self@, kx as int, ky as int, color, dx as int, 2)) } else { 0 }),
            decreases 3 - dist,
        {
            let nx = kx + dx;
            assert(dy * dist == forward(color) * dist) by (nonlinear_arith)
                requires dy == forward(color);
            assert(-2 <= dy * dist <= 2) by (nonlinear_arith)
                requires -1 <= dy <= 1, 1 <= dist <= 2;
            assert(ky + dy * dist == ky + forward(color) * dist);
            let ny = ky + dy * dist;
            if !(nx < 0 || nx > 7 || ny < 0 || ny > 7) {
                if self.holds((nx as u8, ny as u8), "pawn", color) {
                    n += 1;
                }
            }
            dist += 1;
        }
        n
    }

    /// The pawns of side `color` one or two ranks ahead of its king at
    /// (kx, ky), on the king's file and the two next to it. The coordinates
    /// are read as signed bytes, as the offsets are added to them.
    pub fn count_pawn_shield(&self, kx: u8, ky: u8, color: Color) -> (r: u8)
        requires
            shield_fits(i8v(kx), i8v(ky), color),
        ensures
            r == pawn_shield_v(self@, i8v(kx), i8v(ky), color),
    {
        let sx = signed_byte(kx);
        let sy = signed_byte(ky);
        let mut count: u8 = 0;
        let mut dx: i8 = -1;
        while dx <= 1
            invariant
                -1 <= dx <= 2,
                sx == i8v(kx),
                sy == i8v(ky),
                shield_fits(sx as int, sy as int, color),
                count == shield_files(self@, sx as int, sy as int, color, dx as int),
                count <= 2 * (dx + 1),
            decreases 2 - dx,
        {
            let n = self.shield_on_file(sx, sy, dx, color);
            count += n;
            dx += 1;
        }
        count
    }

    /// Whether the pawn of side `color` at (px, py) is passed: no enemy pawn
    /// stands ahead of it on its file or the two next to it.
    pub fn is_passed_pawn(&self, px: u8, py: u8, color: Color) -> (r: bool)
        requires
            px < 255,
            color == Color::Black ==> py < 255,
        ensures
            r == !enemy_pawn_ahead(self@, px, py, color),
    {
        let enemy = color.invert();
        if color == Color::White && py == 0 {
            // no rank lies ahead of a white pawn on rank 0
            return true;
        }
        let (y_start, y_end): (u8, u8) = match color {
            Color::White => (0, py - 1),
            Color::Black => (py + 1, 7),
        };
        if y_start > y_end {
            return true;
        }
        let x_start = px.saturating_sub(1);
        let x_end = if px + 1 < 7 { px + 1 } else { 7 };
        let mut x = x_start;
        while x <= x_end
            invariant
                x_start <= x,
                x <= x_end + 1 || x == x_start,
                x_end <= 7,
                y_start <= y_end <= 254,
                enemy == invert_v(color),
                x_start == (if px >= 1 { px - 1 } else { 0 }),
                x_end == (if px + 1 <= 7 { px + 1 } else { 7 }),
                y_start == (if color == Color::White { 0 } else { py + 1 }),
                y_end == (if color == Color::White { py - 1 } else { 7 }),
                forall|xx: u8, yy: u8|
                    x_start <= xx < x && y_start <= yy <= y_end ==> !#[trigger] holds_v(
                        self@,
                        (xx, yy),
                        "pawn"@,
                        enemy,
                    ),
            decreases x_end + 1 - x,
        {
            let mut y = y_start;
            while y <= y_end
                invariant
                    x_start <= x <= x_end,
                    x_end <= 7,
                    y_start <= y <= y_end + 1,
                    y_end <= 254,
                    enemy == invert_v(color),
                    x_start == (if px >= 1 { px - 1 } else { 0 }),
                    x_end == (if px + 1 <= 7 { px + 1 } else { 7 }),
                    y_start == (if color == Color::White { 0 } else { py + 1 }),
                    y_end == (if color == Color::White { py - 1 } else { 7 }),
                    forall|xx: u8, yy: u8|
                        x_start <= xx < x && y_start <= yy <= y_end ==> !#[trigger] holds_v(
                            self@,
                            (xx, yy),
                            "pawn"@,
                            enemy,
                        ),
                    forall|yy: u8| y_start <= yy < y ==> !#[trigger] holds_v(self@, (x, yy), "pawn"@, enemy),
                decreases y_end + 1 - y,
            {
                if self.holds((x, y), "pawn", enemy) {
                    assert(holds_v(self@, (x, y), "pawn"@, invert_v(color)));
                    return false;
                }
                y += 1;
            }
            x += 1;
        }
        true
    }
}

} // verus!
