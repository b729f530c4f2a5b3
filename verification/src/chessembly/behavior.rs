//! Script instructions, their parsing and their mirroring for black.
use vstd::prelude::*;

use super::text::{
    all_whitespace, char_is_alphabetic, char_is_whitespace, find_from, find_in_range, lemma_find_from_range, parse_i8_range, parse_i8_v, parse_u8_range,
    parse_u8_v, range_eq_str, range_starts_with, split, str_chars, trim, trim_range,
};
use super::{Color, DeltaPosition, Position};

verus! {

/// One instruction of a piece script.
#[derive(Debug, Clone, Copy, PartialEq, Eq)]
pub enum Behavior<'a> {
    TakeMove(DeltaPosition),
    Take(DeltaPosition),
    Repeat(i8),
    Move(DeltaPosition),
    Catch(DeltaPosition),
    Shift(DeltaPosition),
    Anchor(DeltaPosition),
    Peek(DeltaPosition),
    Observe(DeltaPosition),
    While,
    Jump(DeltaPosition),
    Do,
    Bound(DeltaPosition),
    Edge(DeltaPosition),
    EdgeTop(DeltaPosition),
    EdgeLeft(DeltaPosition),
    EdgeRight(DeltaPosition),
    EdgeBottom(DeltaPosition),
    Corner(DeltaPosition),
    CornerTopLeft(DeltaPosition),
    CornerTopRight(DeltaPosition),
    CornerBottomLeft(DeltaPosition),
    CornerBottomRight(DeltaPosition),
    Not,
    Jmp(u8),
    Jne(u8),
    BlockOpen,
    BlockClose,
    Label(u8),
    End,
    Danger(DeltaPosition),
    Check,
    Enemy(DeltaPosition),
    Friendly(DeltaPosition),
    PieceOn((&'a str, DeltaPosition)),
    ColorOn((&'a str, DeltaPosition)),
    SetState((&'a str, u8)),
    IfState((&'a str, u8)),
    Transition(&'a str),
    Piece(&'a str),
    Color(&'a str),
    Write(u8),
    Read(u8),
    ReadAnd(u8),
    ReadOr(u8),
    ReadXor(u8),
    WriteAnchor(u8),
    ReadAnchor(u8),
    AbsoulteX(u8),
    AbsoulteY(u8),
    Absoulte(Position),
    True,
    False,
}

/// A chain of instructions, run from its start.
pub type BehaviorChain<'a> = Vec<Behavior<'a>>;

/// An instruction, with names as character sequences.
pub enum BehaviorV {
    TakeMove(DeltaPosition),
    Take(DeltaPosition),
    Repeat(i8),
    Move(DeltaPosition),
    Catch(DeltaPosition),
    Shift(DeltaPosition),
    Anchor(DeltaPosition),
    Peek(DeltaPosition),
    Observe(DeltaPosition),
    While,
    Jump(DeltaPosition),
    Do,
    Bound(DeltaPosition),
    Edge(DeltaPosition),
    EdgeTop(DeltaPosition),
    EdgeLeft(DeltaPosition),
    EdgeRight(DeltaPosition),
    EdgeBottom(DeltaPosition),
    Corner(DeltaPosition),
    CornerTopLeft(DeltaPosition),
    CornerTopRight(DeltaPosition),
    CornerBottomLeft(DeltaPosition),
    CornerBottomRight(DeltaPosition),
    Not,
    Jmp(u8),
    Jne(u8),
    BlockOpen,
    BlockClose,
    Label(u8),
    End,
    Danger(DeltaPosition),
    Check,
    Enemy(DeltaPosition),
    Friendly(DeltaPosition),
    PieceOn((Seq<char>, DeltaPosition)),
    ColorOn((Seq<char>, DeltaPosition)),
    SetState((Seq<char>, u8)),
    IfState((Seq<char>, u8)),
    Transition(Seq<char>),
    Piece(Seq<char>),
    Color(Seq<char>),
    Write(u8),
    Read(u8),
    ReadAnd(u8),
    ReadOr(u8),
    ReadXor(u8),
    WriteAnchor(u8),
    ReadAnchor(u8),
    AbsoulteX(u8),
    AbsoulteY(u8),
    Absoulte(Position),
    True,
    False,
}

impl<'a> View for Behavior<'a> {
    type V = BehaviorV;

    open spec fn view(&self) -> BehaviorV {
        match *self {
            Behavior::TakeMove(d) => BehaviorV::TakeMove(d),
            Behavior::Take(d) => BehaviorV::Take(d),
            Behavior::Repeat(n) => BehaviorV::Repeat(n),
            Behavior::Move(d) => BehaviorV::Move(d),
            Behavior::Catch(d) => BehaviorV::Catch(d),
            Behavior::Shift(d) => BehaviorV::Shift(d),
            Behavior::Anchor(d) => BehaviorV::Anchor(d),
            Behavior::Peek(d) => BehaviorV::Peek(d),
            Behavior::Observe(d) => BehaviorV::Observe(d),
            Behavior::While => BehaviorV::While,
            Behavior::Jump(d) => BehaviorV::Jump(d),
            Behavior::Do => BehaviorV::Do,
            Behavior::Bound(d) => BehaviorV::Bound(d),
            Behavior::Edge(d) => BehaviorV::Edge(d),
            Behavior::EdgeTop(d) => BehaviorV::EdgeTop(d),
            Behavior::EdgeLeft(d) => BehaviorV::EdgeLeft(d),
            Behavior::EdgeRight(d) => BehaviorV::EdgeRight(d),
            Behavior::EdgeBottom(d) => BehaviorV::EdgeBottom(d),
            Behavior::Corner(d) => BehaviorV::Corner(d),
            Behavior::CornerTopLeft(d) => BehaviorV::CornerTopLeft(d),
            Behavior::CornerTopRight(d) => BehaviorV::CornerTopRight(d),
            Behavior::CornerBottomLeft(d) => BehaviorV::CornerBottomLeft(d),
            Behavior::CornerBottomRight(d) => BehaviorV::CornerBottomRight(d),
            Behavior::Not => BehaviorV::Not,
            Behavior::Jmp(l) => BehaviorV::Jmp(l),
            Behavior::Jne(l) => BehaviorV::Jne(l),
            Behavior::BlockOpen => BehaviorV::BlockOpen,
            Behavior::BlockClose => BehaviorV::BlockClose,
            Behavior::Label(l) => BehaviorV::Label(l),
            Behavior::End => BehaviorV::End,
            Behavior::Danger(d) => BehaviorV::Danger(d),
            Behavior::Check => BehaviorV::Check,
            Behavior::Enemy(d) => BehaviorV::Enemy(d),
            Behavior::Friendly(d) => BehaviorV::Friendly(d),
            Behavior::PieceOn((s, d)) => BehaviorV::PieceOn((s@, d)),
            Behavior::ColorOn((s, d)) => BehaviorV::ColorOn((s@, d)),
            Behavior::SetState((s, n)) => BehaviorV::SetState((s@, n)),
            Behavior::IfState((s, n)) => BehaviorV::IfState((s@, n)),
            Behavior::Transition(s) => BehaviorV::Transition(s@),
            Behavior::Piece(s) => BehaviorV::Piece(s@),
            Behavior::Color(s) => BehaviorV::Color(s@),
            Behavior::Write(i) => BehaviorV::Write(i),
            Behavior::Read(i) => BehaviorV::Read(i),
            Behavior::ReadAnd(i) => BehaviorV::ReadAnd(i),
            Behavior::ReadOr(i) => BehaviorV::ReadOr(i),
            Behavior::ReadXor(i) => BehaviorV::ReadXor(i),
            Behavior::WriteAnchor(i) => BehaviorV::WriteAnchor(i),
            Behavior::ReadAnchor(i) => BehaviorV::ReadAnchor(i),
            Behavior::AbsoulteX(x) => BehaviorV::AbsoulteX(x),
            Behavior::AbsoulteY(y) => BehaviorV::AbsoulteY(y),
            Behavior::Absoulte(p) => BehaviorV::Absoulte(p),
            Behavior::True => BehaviorV::True,
            Behavior::False => BehaviorV::False,
        }
    }
}

/// A displacement that can be mirrored and added to a square without overflow.
pub open spec fn delta_ok(d: DeltaPosition) -> bool {
    -120 <= d.0 <= 120 && -120 <= d.1 <= 120
}

/// The displacement an instruction carries, if it carries one.
pub open spec fn delta_of(b: BehaviorV) -> Option<DeltaPosition> {
    match b {
        BehaviorV::TakeMove(d) => Some(d),
        BehaviorV::Take(d) => Some(d),
        BehaviorV::Move(d) => Some(d),
        BehaviorV::Catch(d) => Some(d),
        BehaviorV::Shift(d) => Some(d),
        BehaviorV::Anchor(d) => Some(d),
        BehaviorV::Peek(d) => Some(d),
        BehaviorV::Observe(d) => Some(d),
        BehaviorV::Jump(d) => Some(d),
        BehaviorV::Bound(d) => Some(d),
        BehaviorV::Edge(d) => Some(d),
        BehaviorV::EdgeTop(d) => Some(d),
        BehaviorV::EdgeLeft(d) => Some(d),
        BehaviorV::EdgeRight(d) => Some(d),
        BehaviorV::EdgeBottom(d) => Some(d),
        BehaviorV::Corner(d) => Some(d),
        BehaviorV::CornerTopLeft(d) => Some(d),
        BehaviorV::CornerTopRight(d) => Some(d),
        BehaviorV::CornerBottomLeft(d) => Some(d),
        BehaviorV::CornerBottomRight(d) => Some(d),
        BehaviorV::Danger(d) => Some(d),
        BehaviorV::Enemy(d) => Some(d),
        BehaviorV::Friendly(d) => Some(d),
        BehaviorV::PieceOn((_, d)) => Some(d),
        BehaviorV::ColorOn((_, d)) => Some(d),
        _ => None,
    }
}

/// An instruction that the interpreter can run without an arithmetic overflow
/// and without recursing forever: its displacement is within 120 squares, its
/// absolute squares are on the board, and it is not `check` (which, evaluated
/// while the same side's moves are being generated, re-enters itself).
pub open spec fn behavior_wf(b: BehaviorV) -> bool {
    &&& (delta_of(b) matches Some(d) ==> delta_ok(d))
    &&& (b matches BehaviorV::AbsoulteX(x) ==> x <= 7)
    &&& (b matches BehaviorV::AbsoulteY(y) ==> y <= 7)
    &&& (b matches BehaviorV::Absoulte(p) ==> p.0 <= 7 && p.1 <= 7)
    &&& !(b is Check)
}

/// An instruction that mirrors for black without an arithmetic overflow:
/// its displacement has no component -128 and its absolute squares are on
/// the board.
pub open spec fn reflectable(b: BehaviorV) -> bool {
    &&& (delta_of(b) matches Some(d) ==> d.0 != -128 && d.1 != -128)
    &&& (b matches BehaviorV::AbsoulteX(x) ==> x <= 7)
    &&& (b matches BehaviorV::AbsoulteY(y) ==> y <= 7)
    &&& (b matches BehaviorV::Absoulte(p) ==> p.0 <= 7 && p.1 <= 7)
}

pub open spec fn reflect_delta(d: DeltaPosition, turn: Color) -> DeltaPosition {
    if turn == Color::Black {
        ((-d.0) as i8, (-d.1) as i8)
    } else {
        d
    }
}

pub open spec fn reflect_abs(p: Position, turn: Color) -> Position {
    if turn == Color::Black {
        ((7 - p.0) as u8, (7 - p.1) as u8)
    } else {
        p
    }
}

/// An instruction as seen from `turn`'s side: displacements (and absolute
/// squares) are mirrored for black. `corner-top-right` comes out as
/// `corner-top-left`.
pub open spec fn reflect_v(b: BehaviorV, turn: Color) -> BehaviorV {
    match b {
        BehaviorV::Bound(d) => BehaviorV::Bound(reflect_delta(d, turn)),
        BehaviorV::Edge(d) => BehaviorV::Edge(reflect_delta(d, turn)),
        BehaviorV::Corner(d) => BehaviorV::Corner(reflect_delta(d, turn)),
        BehaviorV::EdgeTop(d) => BehaviorV::EdgeTop(reflect_delta(d, turn)),
        BehaviorV::EdgeBottom(d) => BehaviorV::EdgeBottom(reflect_delta(d, turn)),
        BehaviorV::EdgeLeft(d) => BehaviorV::EdgeLeft(reflect_delta(d, turn)),
        BehaviorV::EdgeRight(d) => BehaviorV::EdgeRight(reflect_delta(d, turn)),
        BehaviorV::CornerTopLeft(d) => BehaviorV::CornerTopLeft(reflect_delta(d, turn)),
        BehaviorV::CornerTopRight(d) => BehaviorV::CornerTopLeft(reflect_delta(d, turn)),
        BehaviorV::CornerBottomLeft(d) => BehaviorV::CornerBottomLeft(reflect_delta(d, turn)),
        BehaviorV::CornerBottomRight(d) => BehaviorV::CornerBottomRight(reflect_delta(d, turn)),
        BehaviorV::Enemy(d) => BehaviorV::Enemy(reflect_delta(d, turn)),
        BehaviorV::Friendly(d) => BehaviorV::Friendly(reflect_delta(d, turn)),
        BehaviorV::Danger(d) => BehaviorV::Danger(reflect_delta(d, turn)),
        BehaviorV::Take(d) => BehaviorV::Take(reflect_delta(d, turn)),
        BehaviorV::Jump(d) => BehaviorV::Jump(reflect_delta(d, turn)),
        BehaviorV::TakeMove(d) => BehaviorV::TakeMove(reflect_delta(d, turn)),
        BehaviorV::Move(d) => BehaviorV::Move(reflect_delta(d, turn)),
        BehaviorV::Catch(d) => BehaviorV::Catch(reflect_delta(d, turn)),
        BehaviorV::Observe(d) => BehaviorV::Observe(reflect_delta(d, turn)),
        BehaviorV::Peek(d) => BehaviorV::Peek(reflect_delta(d, turn)),
        BehaviorV::Absoulte(p) => BehaviorV::Absoulte(reflect_abs(p, turn)),
        BehaviorV::AbsoulteX(x) => BehaviorV::AbsoulteX(reflect_abs((x, 0), turn).0),
        BehaviorV::AbsoulteY(y) => BehaviorV::AbsoulteY(reflect_abs((0, y), turn).1),
        BehaviorV::PieceOn((p, d)) => BehaviorV::PieceOn((p, reflect_delta(d, turn))),
        _ => b,
    }
}

// ---------------------------------------------------------------------------
// Parsing one instruction
// ---------------------------------------------------------------------------

/// The parameters written between the first `(` and the following `)`, split
/// at commas and trimmed, with the command name before the `(`.
pub open spec fn call_parts(f: Seq<char>) -> Option<(Seq<char>, Seq<Seq<char>>)> {
    match find_from(f, '(', 0) {
        None => None,
        Some(i) => {
            let pwr = f.subrange(i + 1, f.len() as int);
            match find_from(pwr, ')', 0) {
                None => None,
                Some(k) => Some(
                    (
                        f.subrange(0, i),
                        split(pwr.subrange(0, k), ',').map_values(|p: Seq<char>| trim(p)),
                    ),
                ),
            }
        },
    }
}

/// Parameter `i` as a `u8` (0 when missing or malformed).
pub open spec fn param_u8(pv: Seq<Seq<char>>, i: int) -> u8 {
    if 0 <= i < pv.len() {
        match parse_u8_v(pv[i]) {
            Some(v) => v,
            None => 0,
        }
    } else {
        0
    }
}

/// Parameter `i` as an `i8` (0 when missing or malformed).
pub open spec fn param_i8(pv: Seq<Seq<char>>, i: int) -> i8 {
    if 0 <= i < pv.len() {
        match parse_i8_v(pv[i]) {
            Some(v) => v,
            None => 0,
        }
    } else {
        0
    }
}

/// Parameter `i` as text (empty when missing).
pub open spec fn param_str(pv: Seq<Seq<char>>, i: int) -> Seq<char> {
    if 0 <= i < pv.len() {
        pv[i]
    } else {
        ""@
    }
}

pub open spec fn param_delta(pv: Seq<Seq<char>>, i: int) -> DeltaPosition {
    (param_i8(pv, i), param_i8(pv, i + 1))
}

/// The instruction named by a command with parameters.
pub open spec fn command_v(cmd: Seq<char>, pv: Seq<Seq<char>>) -> BehaviorV {
    if cmd == "label"@ {
        BehaviorV::Label(param_u8(pv, 0))
    } else if cmd == "jmp"@ {
        BehaviorV::Jmp(param_u8(pv, 0))
    } else if cmd == "read"@ {
        BehaviorV::Read(param_u8(pv, 0))
    } else if cmd == "read-and"@ {
        BehaviorV::ReadAnd(param_u8(pv, 0))
    } else if cmd == "read-or"@ {
        BehaviorV::ReadOr(param_u8(pv, 0))
    } else if cmd == "read-xor"@ {
        BehaviorV::ReadXor(param_u8(pv, 0))
    } else if cmd == "write"@ {
        BehaviorV::Write(param_u8(pv, 0))
    } else if cmd == "read-anchor"@ {
        BehaviorV::ReadAnchor(param_u8(pv, 0))
    } else if cmd == "write-anchor"@ {
        BehaviorV::WriteAnchor(param_u8(pv, 0))
    } else if cmd == "absolute-x"@ {
        BehaviorV::AbsoulteX(param_u8(pv, 0))
    } else if cmd == "absolute-y"@ {
        BehaviorV::AbsoulteY(param_u8(pv, 0))
    } else if cmd == "jne"@ {
        BehaviorV::Jne(param_u8(pv, 0))
    } else if cmd == "repeat"@ {
        BehaviorV::Repeat(param_i8(pv, 0))
    } else if cmd == "transition"@ {
        BehaviorV::Transition(param_str(pv, 0))
    } else if cmd == "color"@ {
        BehaviorV::Color(param_str(pv, 0))
    } else if cmd == "piece"@ {
        BehaviorV::Piece(param_str(pv, 0))
    } else if cmd == "set-state"@ {
        BehaviorV::SetState((param_str(pv, 0), param_u8(pv, 1)))
    } else if cmd == "if-state"@ {
        BehaviorV::IfState((param_str(pv, 0), param_u8(pv, 1)))
    } else if cmd == "piece-on"@ {
        BehaviorV::PieceOn((param_str(pv, 0), param_delta(pv, 1)))
    } else if cmd == "color-on"@ {
        BehaviorV::ColorOn((param_str(pv, 0), param_delta(pv, 1)))
    } else if cmd == "absolute"@ {
        BehaviorV::Absoulte((param_u8(pv, 0), param_u8(pv, 1)))
    } else if cmd == "take-move"@ {
        BehaviorV::TakeMove(param_delta(pv, 0))
    } else if cmd == "take"@ {
        BehaviorV::Take(param_delta(pv, 0))
    } else if cmd == "jump"@ {
        BehaviorV::Jump(param_delta(pv, 0))
    } else if cmd == "move"@ {
        BehaviorV::Move(param_delta(pv, 0))
    } else if cmd == "catch"@ {
        BehaviorV::Catch(param_delta(pv, 0))
    } else if cmd == "shift"@ {
        BehaviorV::Shift(param_delta(pv, 0))
    } else if cmd == "danger"@ {
        BehaviorV::Danger(param_delta(pv, 0))
    } else if cmd == "enemy"@ {
        BehaviorV::Enemy(param_delta(pv, 0))
    } else if cmd == "friendly"@ {
        BehaviorV::Friendly(param_delta(pv, 0))
    } else if cmd == "peek"@ {
        BehaviorV::Peek(param_delta(pv, 0))
    } else if cmd == "anchor"@ {
        BehaviorV::Anchor(param_delta(pv, 0))
    } else if cmd == "observe"@ {
        BehaviorV::Observe(param_delta(pv, 0))
    } else if cmd == "bound"@ {
        BehaviorV::Bound(param_delta(pv, 0))
    } else if cmd == "edge"@ {
        BehaviorV::Edge(param_delta(pv, 0))
    } else if cmd == "corner"@ {
        BehaviorV::Corner(param_delta(pv, 0))
    } else if cmd == "edge-left"@ {
        BehaviorV::EdgeLeft(param_delta(pv, 0))
    } else if cmd == "edge-right"@ {
        BehaviorV::EdgeRight(param_delta(pv, 0))
    } else if cmd == "edge-top"@ {
        BehaviorV::EdgeTop(param_delta(pv, 0))
    } else if cmd == "edge-bottom"@ {
        BehaviorV::EdgeBottom(param_delta(pv, 0))
    } else if cmd == "corner-top-left"@ {
        BehaviorV::CornerTopLeft(param_delta(pv, 0))
    } else if cmd == "corner-top-right"@ {
        BehaviorV::CornerTopRight(param_delta(pv, 0))
    } else if cmd == "corner-bottom-left"@ {
        BehaviorV::CornerBottomLeft(param_delta(pv, 0))
    } else if cmd == "corner-bottom-right"@ {
        BehaviorV::CornerBottomRight(param_delta(pv, 0))
    } else {
        BehaviorV::End
    }
}

/// The instruction a fragment of script text denotes. Keywords are recognised
/// by prefix; a command is `name(p1, p2, ...)`; anything else is `end`.
pub open spec fn parse_behavior(f: Seq<char>) -> BehaviorV {
    if "end"@.is_prefix_of(f) {
        BehaviorV::End
    } else if "while"@.is_prefix_of(f) {
        BehaviorV::While
    } else if "do"@.is_prefix_of(f) {
        BehaviorV::Do
    } else if "not"@.is_prefix_of(f) {
        BehaviorV::Not
    } else if "true"@.is_prefix_of(f) {
        BehaviorV::True
    } else if "false"@.is_prefix_of(f) {
        BehaviorV::False
    } else if "check"@.is_prefix_of(f) {
        BehaviorV::Check
    } else if f == "transition"@ {
        BehaviorV::Transition(""@)
    } else if "}"@.is_prefix_of(f) {
        BehaviorV::BlockClose
    } else if "{"@.is_prefix_of(f) {
        BehaviorV::BlockOpen
    } else {
        match call_parts(f) {
            None => BehaviorV::End,
            Some((cmd, pv)) => command_v(cmd, pv),
        }
    }
}

/// `pr[t]` delimits `pv[t]` inside `s`, for every `t`.
pub open spec fn ranges_match(s: Seq<char>, pr: Seq<(usize, usize)>, pv: Seq<Seq<char>>) -> bool {
    &&& pr.len() == pv.len()
    &&& forall|t: int|
        #![trigger pr[t]]
        0 <= t < pr.len() ==> pr[t].0 <= pr[t].1 <= s.len() && s.subrange(
            pr[t].0 as int,
            pr[t].1 as int,
        ) == pv[t]
}

/// The ranges of `s` that `split(s[lo..hi], c)` yields, each trimmed.
fn split_trimmed_ranges(s: &Vec<char>, lo: usize, hi: usize, c: char) -> (r: Vec<(usize, usize)>)
    requires
        lo <= hi <= s@.len(),
    ensures
        ranges_match(
            s@,
            r@,
            split(s@.subrange(lo as int, hi as int), c).map_values(|p: Seq<char>| trim(p)),
        ),
{
    let ghost whole = split(s@.subrange(lo as int, hi as int), c);
    let mut r: Vec<(usize, usize)> = Vec::new();
    let mut cur = lo;
    loop
        invariant
            lo <= cur <= hi <= s@.len(),
            whole == split(s@.subrange(lo as int, hi as int), c),
            whole =~= whole.subrange(0, r@.len() as int) + split(
                s@.subrange(cur as int, hi as int),
                c,
            ),
            r@.len() <= whole.len(),
            forall|t: int|
                #![trigger r@[t]]
                0 <= t < r@.len() ==> r@[t].0 <= r@[t].1 <= s@.len() && s@.subrange(
                    r@[t].0 as int,
                    r@[t].1 as int,
                ) == trim(whole[t]),
        decreases hi - cur,
    {
        let ghost rest = s@.subrange(cur as int, hi as int);
        match find_in_range(s, cur, hi, c) {
            None => {
                assert(split(rest, c) == seq![rest]);
                let tr = trim_range(s, cur, hi);
                r.push(tr);
                assert(whole[r@.len() - 1] == rest);
                assert(whole.subrange(0, r@.len() as int) =~= whole);
                assert(ranges_match(s@, r@, whole.map_values(|p: Seq<char>| trim(p))));
                return r;
            },
            Some(k) => {
                proof {
                    lemma_find_from_range(rest, c, 0);
                }
                assert(split(rest, c) == seq![rest.subrange(0, k - cur)] + split(
                    rest.subrange(k - cur + 1, rest.len() as int),
                    c,
                ));
                assert(rest.subrange(0, k - cur) =~= s@.subrange(cur as int, k as int));
                assert(rest.subrange(k - cur + 1, rest.len() as int) =~= s@.subrange(
                    k + 1,
                    hi as int,
                ));
                let tr = trim_range(s, cur, k);
                let ghost old_len = r@.len();
                r.push(tr);
                assert(whole[old_len as int] == s@.subrange(cur as int, k as int));
                assert(whole.subrange(0, r@.len() as int) =~= whole.subrange(0, old_len as int)
                    + seq![s@.subrange(cur as int, k as int)]);
                cur = k + 1;
            },
        }
    }
}

/// Parameter `i` as a `u8`, from trimmed ranges.
fn range_param_u8(s: &Vec<char>, pr: &Vec<(usize, usize)>, i: usize, Ghost(pv): Ghost<
    Seq<Seq<char>>,
>) -> (r: u8)
    requires
        ranges_match(s@, pr@, pv),
    ensures
        r == param_u8(pv, i as int),
{
    if i < pr.len() {
        let (a, b) = pr[i];
        match parse_u8_range(s, a, b) {
            Some(v) => v,
            None => 0,
        }
    } else {
        0
    }
}

/// Parameter `i` as an `i8`, from trimmed ranges.
fn range_param_i8(s: &Vec<char>, pr: &Vec<(usize, usize)>, i: usize, Ghost(pv): Ghost<
    Seq<Seq<char>>,
>) -> (r: i8)
    requires
        ranges_match(s@, pr@, pv),
    ensures
        r == param_i8(pv, i as int),
{
    if i < pr.len() {
        let (a, b) = pr[i];
        match parse_i8_range(s, a, b) {
            Some(v) => v,
            None => 0,
        }
    } else {
        0
    }
}

/// Parameter `i` as a slice of the fragment, from trimmed ranges.
fn range_param_str<'a>(
    f: &'a str,
    s: &Vec<char>,
    pr: &Vec<(usize, usize)>,
    i: usize,
    Ghost(pv): Ghost<Seq<Seq<char>>>,
) -> (r: &'a str)
    requires
        s@ == f@,
        ranges_match(s@, pr@, pv),
    ensures
        r@ == param_str(pv, i as int),
{
    if i < pr.len() {
        let (a, b) = pr[i];
        f.substring_char(a, b)
    } else {
        ""
    }
}

fn range_param_delta(s: &Vec<char>, pr: &Vec<(usize, usize)>, i: usize, Ghost(pv): Ghost<
    Seq<Seq<char>>,
>) -> (r: DeltaPosition)
    requires
        i < 100,
        ranges_match(s@, pr@, pv),
    ensures
        r == param_delta(pv, i as int),
{
    (range_param_i8(s, pr, i, Ghost(pv)), range_param_i8(s, pr, i + 1, Ghost(pv)))
}

impl<'a> Behavior<'a> {
    /// Parses one instruction of a script, e.g. `take-move(1, 0)` or `while`.
    /// Malformed or unknown text gives `End`; malformed numbers read as 0.
    pub fn from_str(fragment: &'a str) -> (b: Behavior<'a>)
        ensures
            b@ == parse_behavior(fragment@),
    {
        let s = str_chars(fragment);
        let n = s.len();
        assert(s@.subrange(0, n as int) =~= s@);
        if range_starts_with(&s, 0, n, "end") {
            return Behavior::End;
        } else if range_starts_with(&s, 0, n, "while") {
            return Behavior::While;
        } else if range_starts_with(&s, 0, n, "do") {
            return Behavior::Do;
        } else if range_starts_with(&s, 0, n, "not") {
            return Behavior::Not;
        } else if range_starts_with(&s, 0, n, "true") {
            return Behavior::True;
        } else if range_starts_with(&s, 0, n, "false") {
            return Behavior::False;
        } else if range_starts_with(&s, 0, n, "check") {
            return Behavior::Check;
        } else if range_eq_str(&s, 0, n, "transition") {
            return Behavior::Transition("");
        } else if range_starts_with(&s, 0, n, "}") {
            return Behavior::BlockClose;
        } else if range_starts_with(&s, 0, n, "{") {
            return Behavior::BlockOpen;
        }
        let i = match find_in_range(&s, 0, n, '(') {
            None => {
                return Behavior::End;
            },
            Some(i) => i,
        };
        let ghost pwr = s@.subrange(i + 1, n as int);
        let k = match find_in_range(&s, i + 1, n, ')') {
            None => {
                return Behavior::End;
            },
            Some(k) => k,
        };
        assert(pwr.subrange(0, k - (i + 1)) =~= s@.subrange(i + 1, k as int));
        let pr = split_trimmed_ranges(&s, i + 1, k, ',');
        let ghost pv = split(s@.subrange(i + 1, k as int), ',').map_values(
            |p: Seq<char>| trim(p),
        );
        assert(call_parts(s@) == Some((s@.subrange(0, i as int), pv)));

        let g = Ghost(pv);
        if range_eq_str(&s, 0, i, "label") {
            Behavior::Label(range_param_u8(&s, &pr, 0, g))
        } else if range_eq_str(&s, 0, i, "jmp") {
            Behavior::Jmp(range_param_u8(&s, &pr, 0, g))
        } else if range_eq_str(&s, 0, i, "read") {
            Behavior::Read(range_param_u8(&s, &pr, 0, g))
        } else if range_eq_str(&s, 0, i, "read-and") {
            Behavior::ReadAnd(range_param_u8(&s, &pr, 0, g))
        } else if range_eq_str(&s, 0, i, "read-or") {
            Behavior::ReadOr(range_param_u8(&s, &pr, 0, g))
        } else if range_eq_str(&s, 0, i, "read-xor") {
            Behavior::ReadXor(range_param_u8(&s, &pr, 0, g))
        } else if range_eq_str(&s, 0, i, "write") {
            Behavior::Write(range_param_u8(&s, &pr, 0, g))
        } else if range_eq_str(&s, 0, i, "read-anchor") {
            Behavior::ReadAnchor(range_param_u8(&s, &pr, 0, g))
        } else if range_eq_str(&s, 0, i, "write-anchor") {
            Behavior::WriteAnchor(range_param_u8(&s, &pr, 0, g))
        } else if range_eq_str(&s, 0, i, "absolute-x") {
            Behavior::AbsoulteX(range_param_u8(&s, &pr, 0, g))
        } else if range_eq_str(&s, 0, i, "absolute-y") {
            Behavior::AbsoulteY(range_param_u8(&s, &pr, 0, g))
        } else if range_eq_str(&s, 0, i, "jne") {
            Behavior::Jne(range_param_u8(&s, &pr, 0, g))
        } else if range_eq_str(&s, 0, i, "repeat") {
            Behavior::Repeat(range_param_i8(&s, &pr, 0, g))
        } else if range_eq_str(&s, 0, i, "transition") {
            Behavior::Transition(range_param_str(fragment, &s, &pr, 0, g))
        } else if range_eq_str(&s, 0, i, "color") {
            Behavior::Color(range_param_str(fragment, &s, &pr, 0, g))
        } else if range_eq_str(&s, 0, i, "piece") {
            Behavior::Piece(range_param_str(fragment, &s, &pr, 0, g))
        } else if range_eq_str(&s, 0, i, "set-state") {
            Behavior::SetState(
                (range_param_str(fragment, &s, &pr, 0, g), range_param_u8(&s, &pr, 1, g)),
            )
        } else if range_eq_str(&s, 0, i, "if-state") {
            Behavior::IfState(
                (range_param_str(fragment, &s, &pr, 0, g), range_param_u8(&s, &pr, 1, g)),
            )
        } else if range_eq_str(&s, 0, i, "piece-on") {
            Behavior::PieceOn(
                (range_param_str(fragment, &s, &pr, 0, g), range_param_delta(&s, &pr, 1, g)),
            )
        } else if range_eq_str(&s, 0, i, "color-on") {
            Behavior::ColorOn(
                (range_param_str(fragment, &s, &pr, 0, g), range_param_delta(&s, &pr, 1, g)),
            )
        } else if range_eq_str(&s, 0, i, "absolute") {
            Behavior::Absoulte((range_param_u8(&s, &pr, 0, g), range_param_u8(&s, &pr, 1, g)))
        } else if range_eq_str(&s, 0, i, "take-move") {
            Behavior::TakeMove(range_param_delta(&s, &pr, 0, g))
        } else if range_eq_str(&s, 0, i, "take") {
            Behavior::Take(range_param_delta(&s, &pr, 0, g))
        } else if range_eq_str(&s, 0, i, "jump") {
            Behavior::Jump(range_param_delta(&s, &pr, 0, g))
        } else if range_eq_str(&s, 0, i, "move") {
            Behavior::Move(range_param_delta(&s, &pr, 0, g))
        } else if range_eq_str(&s, 0, i, "catch") {
            Behavior::Catch(range_param_delta(&s, &pr, 0, g))
        } else if range_eq_str(&s, 0, i, "shift") {
            Behavior::Shift(range_param_delta(&s, &pr, 0, g))
        } else if range_eq_str(&s, 0, i, "danger") {
            Behavior::Danger(range_param_delta(&s, &pr, 0, g))
        } else if range_eq_str(&s, 0, i, "enemy") {
            Behavior::Enemy(range_param_delta(&s, &pr, 0, g))
        } else if range_eq_str(&s, 0, i, "friendly") {
            Behavior::Friendly(range_param_delta(&s, &pr, 0, g))
        } else if range_eq_str(&s, 0, i, "peek") {
            Behavior::Peek(range_param_delta(&s, &pr, 0, g))
        } else if range_eq_str(&s, 0, i, "anchor") {
            Behavior::Anchor(range_param_delta(&s, &pr, 0, g))
        } else if range_eq_str(&s, 0, i, "observe") {
            Behavior::Observe(range_param_delta(&s, &pr, 0, g))
        } else if range_eq_str(&s, 0, i, "bound") {
            Behavior::Bound(range_param_delta(&s, &pr, 0, g))
        } else if range_eq_str(&s, 0, i, "edge") {
            Behavior::Edge(range_param_delta(&s, &pr, 0, g))
        } else if range_eq_str(&s, 0, i, "corner") {
            Behavior::Corner(range_param_delta(&s, &pr, 0, g))
        } else if range_eq_str(&s, 0, i, "edge-left") {
            Behavior::EdgeLeft(range_param_delta(&s, &pr, 0, g))
        } else if range_eq_str(&s, 0, i, "edge-right") {
            Behavior::EdgeRight(range_param_delta(&s, &pr, 0, g))
        } else if range_eq_str(&s, 0, i, "edge-top") {
            Behavior::EdgeTop(range_param_delta(&s, &pr, 0, g))
        } else if range_eq_str(&s, 0, i, "edge-bottom") {
            Behavior::EdgeBottom(range_param_delta(&s, &pr, 0, g))
        } else if range_eq_str(&s, 0, i, "corner-top-left") {
            Behavior::CornerTopLeft(range_param_delta(&s, &pr, 0, g))
        } else if range_eq_str(&s, 0, i, "corner-top-right") {
            Behavior::CornerTopRight(range_param_delta(&s, &pr, 0, g))
        } else if range_eq_str(&s, 0, i, "corner-bottom-left") {
            Behavior::CornerBottomLeft(range_param_delta(&s, &pr, 0, g))
        } else if range_eq_str(&s, 0, i, "corner-bottom-right") {
            Behavior::CornerBottomRight(range_param_delta(&s, &pr, 0, g))
        } else {
            Behavior::End
        }
    }

    fn reflect_turn_vector(position: &DeltaPosition, turn: Color) -> (r: DeltaPosition)
        requires
            turn == Color::Black ==> position.0 != -128 && position.1 != -128,
        ensures
            r == reflect_delta(*position, turn),
    {
        if turn == Color::Black {
            return (-position.0, -position.1);
        } else {
            return *position;
        }
    }

    fn reflect_abs_vector(position: &Position, turn: Color) -> (r: Position)
        requires
            turn == Color::Black ==> position.0 <= 7 && position.1 <= 7,
        ensures
            r == reflect_abs(*position, turn),
    {
        if turn == Color::Black {
            return (7 - position.0, 7 - position.1);
        } else {
            return *position;
        }
    }

    /// The instruction as seen from `turn`'s side (see `reflect_v`).
    pub fn reflect_turn(&self, turn: Color) -> (b: Behavior<'a>)
        requires
            turn == Color::Black ==> reflectable(self@),
        ensures
            b@ == reflect_v(self@, turn),
    {
        match self {
            Behavior::Bound(delta) => Behavior::Bound(Behavior::reflect_turn_vector(delta, turn)),
            Behavior::Edge(delta) => Behavior::Edge(Behavior::reflect_turn_vector(delta, turn)),
            Behavior::Corner(delta) => Behavior::Corner(Behavior::reflect_turn_vector(delta, turn)),
            Behavior::EdgeTop(delta) => Behavior::EdgeTop(
                Behavior::reflect_turn_vector(delta, turn),
            ),
            Behavior::EdgeBottom(delta) => Behavior::EdgeBottom(
                Behavior::reflect_turn_vector(delta, turn),
            ),
            Behavior::EdgeLeft(delta) => Behavior::EdgeLeft(
                Behavior::reflect_turn_vector(delta, turn),
            ),
            Behavior::EdgeRight(delta) => Behavior::EdgeRight(
                Behavior::reflect_turn_vector(delta, turn),
            ),
            Behavior::CornerTopLeft(delta) => Behavior::CornerTopLeft(
                Behavior::reflect_turn_vector(delta, turn),
            ),
            Behavior::CornerTopRight(delta) => Behavior::CornerTopLeft(
                Behavior::reflect_turn_vector(delta, turn),
            ),
            Behavior::CornerBottomLeft(delta) => Behavior::CornerBottomLeft(
                Behavior::reflect_turn_vector(delta, turn),
            ),
            Behavior::CornerBottomRight(delta) => Behavior::CornerBottomRight(
                Behavior::reflect_turn_vector(delta, turn),
            ),
            Behavior::Enemy(delta) => Behavior::Enemy(Behavior::reflect_turn_vector(delta, turn)),
            Behavior::Friendly(delta) => Behavior::Friendly(
                Behavior::reflect_turn_vector(delta, turn),
            ),
            Behavior::Danger(delta) => Behavior::Danger(Behavior::reflect_turn_vector(delta, turn)),
            Behavior::Take(delta) => Behavior::Take(Behavior::reflect_turn_vector(delta, turn)),
            Behavior::Jump(delta) => Behavior::Jump(Behavior::reflect_turn_vector(delta, turn)),
            Behavior::TakeMove(delta) => Behavior::TakeMove(
                Behavior::reflect_turn_vector(delta, turn),
            ),
            Behavior::Move(delta) => Behavior::Move(Behavior::reflect_turn_vector(delta, turn)),
            Behavior::Catch(delta) => Behavior::Catch(Behavior::reflect_turn_vector(delta, turn)),
            Behavior::Observe(delta) => Behavior::Observe(
                Behavior::reflect_turn_vector(delta, turn),
            ),
            Behavior::Peek(delta) => Behavior::Peek(Behavior::reflect_turn_vector(delta, turn)),
            Behavior::Absoulte(coord) => Behavior::Absoulte(
                Behavior::reflect_abs_vector(coord, turn),
            ),
            Behavior::AbsoulteX(x) => Behavior::AbsoulteX(
                Behavior::reflect_abs_vector(&(*x, 0), turn).0,
            ),
            Behavior::AbsoulteY(y) => Behavior::AbsoulteY(
                Behavior::reflect_abs_vector(&(0, *y), turn).1,
            ),
            Behavior::PieceOn((piece, delta)) => Behavior::PieceOn(
                (piece, Behavior::reflect_turn_vector(delta, turn)),
            ),
            _ => *self,
        }
    }
}

// ---------------------------------------------------------------------------
// Splitting a script into chains and instructions
// ---------------------------------------------------------------------------

/// A character after which an instruction may start: a letter or a brace.
pub open spec fn starts_token(c: char) -> bool {
    char_is_alphabetic(c) || c == '{' || c == '}'
}

/// Whether the byte offset of character `j` lies before the last byte of the
/// text: every character but the last, and the last one if it takes more
/// than one byte.
pub open spec fn before_last_byte(cs: Seq<char>, j: int) -> bool {
    j < cs.len() - 1 || (j == cs.len() - 1 && (cs[j] as u32) >= 128)
}

/// The instructions of one chain, scanning from character `j` with the
/// current instruction starting at `i`: an instruction ends at a white-space
/// character followed by a letter, a brace or the end of the text.
pub open spec fn chain_tokens(cs: Seq<char>, i: int, j: int) -> Seq<BehaviorV>
    decreases cs.len() - j,
{
    if j < 0 || i < 0 || i > j || !before_last_byte(cs, j) {
        let rest = cs.subrange(i, cs.len() as int);
        if all_whitespace(rest) {
            seq![]
        } else {
            seq![parse_behavior(trim(rest))]
        }
    } else if char_is_whitespace(cs[j]) && (j + 1 >= cs.len() || starts_token(cs[j + 1])) && trim(
        cs.subrange(i, j),
    ).len() > 0 {
        seq![parse_behavior(trim(cs.subrange(i, j)))] + chain_tokens(cs, j, j + 1)
    } else {
        chain_tokens(cs, i, j + 1)
    }
}

/// A chain text: `None` for a comment (starting with `#`) or a blank text.
pub open spec fn chain_text_v(piece: Seq<char>) -> Option<Seq<BehaviorV>> {
    let t = trim(piece);
    if t.len() > 0 && t[0] == '#' {
        None
    } else if all_whitespace(piece) {
        None
    } else {
        Some(chain_tokens(piece, 0, 0))
    }
}

pub open spec fn chain_texts_v(ps: Seq<Seq<char>>) -> Seq<Seq<BehaviorV>>
    decreases ps.len(),
{
    if ps.len() == 0 {
        seq![]
    } else {
        let r = chain_texts_v(ps.drop_last());
        match chain_text_v(ps.last()) {
            Some(c) => r.push(c),
            None => r,
        }
    }
}

/// The chains of a script: its `;`-separated pieces, comments and blank
/// pieces left out.
pub open spec fn script_text_v(s: Seq<char>) -> Seq<Seq<BehaviorV>> {
    chain_texts_v(split(s, ';'))
}

} // verus!
