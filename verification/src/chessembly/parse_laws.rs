//! What parsing a fragment of script text gives: each keyword and command
//! name denotes its own instruction, with the arguments written after it.
use vstd::prelude::*;


verus! {

/// The arguments of a command written `name(q`: the text up to the first `)`
/// of `q`, split at commas and trimmed.
pub open spec fn written_args(q: Seq<char>) -> Seq<Seq<char>> {
    match super::text::find_from(q, ')', 0) {
        Some(k) => super::text::split(q.subrange(0, k), ',').map_values(|p: Seq<char>| super::text::trim(p)),
        None => seq![],
    }
}

proof fn lemma_find_first(s: Seq<char>, c: char, i: int, j: int)
    requires
        0 <= i <= j < s.len(),
        s[j] == c,
        forall|t: int| i <= t < j ==> s[t] != c,
    ensures
        super::text::find_from(s, c, i) == Some(j),
    decreases j - i,
{
    if i < j {
        lemma_find_first(s, c, i + 1, j);
    }
}

/// `name(q` splits into the command `name` and the arguments of `q`.
proof fn lemma_call_parts(name: Seq<char>, q: Seq<char>)
    requires
        forall|t: int| 0 <= t < name.len() ==> name[t] != '(',
    ensures
        ({
            let f = name + seq!['('] + q;
            super::text::find_from(q, ')', 0) is Some ==> super::behavior::call_parts(f) == Some(
                (name, written_args(q)),
            )
        }),
{
    let f = name + seq!['('] + q;
    assert(f[name.len() as int] == '(');
    assert forall|t: int| 0 <= t < name.len() implies f[t] != '(' by {
        assert(f[t] == name[t]);
    }
    lemma_find_first(f, '(', 0, name.len() as int);
    assert(f.subrange(name.len() as int + 1, f.len() as int) =~= q);
    assert(f.subrange(0, name.len() as int) =~= name);
}

/// No keyword that is recognised before commands starts `f`.
pub open spec fn no_keyword_prefix(f: Seq<char>) -> bool {
    &&& !"end"@.is_prefix_of(f)
    &&& !"while"@.is_prefix_of(f)
    &&& !"do"@.is_prefix_of(f)
    &&& !"not"@.is_prefix_of(f)
    &&& !"true"@.is_prefix_of(f)
    &&& !"false"@.is_prefix_of(f)
    &&& !"check"@.is_prefix_of(f)
    &&& f != "transition"@
    &&& !"}"@.is_prefix_of(f)
    &&& !"{"@.is_prefix_of(f)
}

proof fn lemma_differs(w: Seq<char>, f: Seq<char>, i: int)
    requires
        0 <= i < w.len(),
        i < f.len(),
        w[i] != f[i],
    ensures
        !w.is_prefix_of(f),
        w != f,
{
    if w.is_prefix_of(f) {
        assert(f.subrange(0, w.len() as int)[i] == f[i]);
    }
}

proof fn lemma_command_take_move(pv: Seq<Seq<char>>)
    ensures
        super::behavior::command_v("take-move"@, pv) == super::behavior::BehaviorV::TakeMove(super::behavior::param_delta(pv, 0)),
{
    reveal_strlit("take-move");
    reveal_strlit("label");
    assert("label"@.len() != "take-move"@.len());
    reveal_strlit("jmp");
    assert("jmp"@.len() != "take-move"@.len());
    reveal_strlit("read");
    assert("read"@.len() != "take-move"@.len());
    reveal_strlit("read-and");
    assert("read-and"@.len() != "take-move"@.len());
    reveal_strlit("read-or");
    assert("read-or"@.len() != "take-move"@.len());
    reveal_strlit("read-xor");
    assert("read-xor"@.len() != "take-move"@.len());
    reveal_strlit("write");
    assert("write"@.len() != "take-move"@.len());
    reveal_strlit("read-anchor");
    assert("read-anchor"@.len() != "take-move"@.len());
    reveal_strlit("write-anchor");
    assert("write-anchor"@.len() != "take-move"@.len());
    reveal_strlit("absolute-x");
    assert("absolute-x"@.len() != "take-move"@.len());
    reveal_strlit("absolute-y");
    assert("absolute-y"@.len() != "take-move"@.len());
    reveal_strlit("jne");
    assert("jne"@.len() != "take-move"@.len());
    reveal_strlit("repeat");
    assert("repeat"@.len() != "take-move"@.len());
    reveal_strlit("transition");
    assert("transition"@.len() != "take-move"@.len());
    reveal_strlit("color");
    assert("color"@.len() != "take-move"@.len());
    reveal_strlit("piece");
    assert("piece"@.len() != "take-move"@.len());
    reveal_strlit("set-state");
    lemma_differs("set-state"@, "take-move"@, 0);
    reveal_strlit("if-state");
    assert("if-state"@.len() != "take-move"@.len());
    reveal_strlit("piece-on");
    assert("piece-on"@.len() != "take-move"@.len());
    reveal_strlit("color-on");
    assert("color-on"@.len() != "take-move"@.len());
    reveal_strlit("absolute");
    assert("absolute"@.len() != "take-move"@.len());
}

proof fn lemma_parse_take_move(q: Seq<char>)
    requires
        super::text::find_from(q, ')', 0) is Some,
    ensures
        super::behavior::parse_behavior("take-move("@ + q) == super::behavior::BehaviorV::TakeMove(
            super::behavior::param_delta(written_args(q), 0),
        ),
{
    reveal_strlit("take-move(");
    reveal_strlit("take-move");
    let name = "take-move"@;
    let f = "take-move("@ + q;
    assert(f =~= name + seq!['('] + q);
    lemma_call_parts(name, q);
    reveal_strlit("end");
    lemma_differs("end"@, f, 0);
    reveal_strlit("while");
    lemma_differs("while"@, f, 0);
    reveal_strlit("do");
    lemma_differs("do"@, f, 0);
    reveal_strlit("not");
    lemma_differs("not"@, f, 0);
    reveal_strlit("true");
    lemma_differs("true"@, f, 1);
    reveal_strlit("false");
    lemma_differs("false"@, f, 0);
    reveal_strlit("check");
    lemma_differs("check"@, f, 0);
    reveal_strlit("transition");
    lemma_differs("transition"@, f, 1);
    reveal_strlit("}");
    lemma_differs("}"@, f, 0);
    reveal_strlit("{");
    lemma_differs("{"@, f, 0);
    assert(no_keyword_prefix(f));
    lemma_command_take_move(written_args(q));
}

proof fn lemma_command_take(pv: Seq<Seq<char>>)
    ensures
        super::behavior::command_v("take"@, pv) == super::behavior::BehaviorV::Take(super::behavior::param_delta(pv, 0)),
{
    reveal_strlit("take");
    reveal_strlit("label");
    assert("label"@.len() != "take"@.len());
    reveal_strlit("jmp");
    assert("jmp"@.len() != "take"@.len());
    reveal_strlit("read");
    lemma_differs("read"@, "take"@, 0);
    reveal_strlit("read-and");
    assert("read-and"@.len() != "take"@.len());
    reveal_strlit("read-or");
    assert("read-or"@.len() != "take"@.len());
    reveal_strlit("read-xor");
    assert("read-xor"@.len() != "take"@.len());
    reveal_strlit("write");
    assert("write"@.len() != "take"@.len());
    reveal_strlit("read-anchor");
    assert("read-anchor"@.len() != "take"@.len());
    reveal_strlit("write-anchor");
    assert("write-anchor"@.len() != "take"@.len());
    reveal_strlit("absolute-x");
    assert("absolute-x"@.len() != "take"@.len());
    reveal_strlit("absolute-y");
    assert("absolute-y"@.len() != "take"@.len());
    reveal_strlit("jne");
    assert("jne"@.len() != "take"@.len());
    reveal_strlit("repeat");
    assert("repeat"@.len() != "take"@.len());
    reveal_strlit("transition");
    assert("transition"@.len() != "take"@.len());
    reveal_strlit("color");
    assert("color"@.len() != "take"@.len());
    reveal_strlit("piece");
    assert("piece"@.len() != "take"@.len());
    reveal_strlit("set-state");
    assert("set-state"@.len() != "take"@.len());
    reveal_strlit("if-state");
    assert("if-state"@.len() != "take"@.len());
    reveal_strlit("piece-on");
    assert("piece-on"@.len() != "take"@.len());
    reveal_strlit("color-on");
    assert("color-on"@.len() != "take"@.len());
    reveal_strlit("absolute");
    assert("absolute"@.len() != "take"@.len());
    reveal_strlit("take-move");
    assert("take-move"@.len() != "take"@.len());
}

proof fn lemma_parse_take(q: Seq<char>)
    requires
        super::text::find_from(q, ')', 0) is Some,
    ensures
        super::behavior::parse_behavior("take("@ + q) == super::behavior::BehaviorV::Take(
            super::behavior::param_delta(written_args(q), 0),
        ),
{
    reveal_strlit("take(");
    reveal_strlit("take");
    let name = "take"@;
    let f = "take("@ + q;
    assert(f =~= name + seq!['('] + q);
    lemma_call_parts(name, q);
    reveal_strlit("end");
    lemma_differs("end"@, f, 0);
    reveal_strlit("while");
    lemma_differs("while"@, f, 0);
    reveal_strlit("do");
    lemma_differs("do"@, f, 0);
    reveal_strlit("not");
    lemma_differs("not"@, f, 0);
    reveal_strlit("true");
    lemma_differs("true"@, f, 1);
    reveal_strlit("false");
    lemma_differs("false"@, f, 0);
    reveal_strlit("check");
    lemma_differs("check"@, f, 0);
    reveal_strlit("transition");
    lemma_differs("transition"@, f, 1);
    reveal_strlit("}");
    lemma_differs("}"@, f, 0);
    reveal_strlit("{");
    lemma_differs("{"@, f, 0);
    assert(no_keyword_prefix(f));
    lemma_command_take(written_args(q));
}

proof fn lemma_command_jump(pv: Seq<Seq<char>>)
    ensures
        super::behavior::command_v("jump"@, pv) == super::behavior::BehaviorV::Jump(super::behavior::param_delta(pv, 0)),
{
    reveal_strlit("jump");
    reveal_strlit("label");
    assert("label"@.len() != "jump"@.len());
    reveal_strlit("jmp");
    assert("jmp"@.len() != "jump"@.len());
    reveal_strlit("read");
    lemma_differs("read"@, "jump"@, 0);
    reveal_strlit("read-and");
    assert("read-and"@.len() != "jump"@.len());
    reveal_strlit("read-or");
    assert("read-or"@.len() != "jump"@.len());
    reveal_strlit("read-xor");
    assert("read-xor"@.len() != "jump"@.len());
    reveal_strlit("write");
    assert("write"@.len() != "jump"@.len());
    reveal_strlit("read-anchor");
    assert("read-anchor"@.len() != "jump"@.len());
    reveal_strlit("write-anchor");
    assert("write-anchor"@.len() != "jump"@.len());
    reveal_strlit("absolute-x");
    assert("absolute-x"@.len() != "jump"@.len());
    reveal_strlit("absolute-y");
    assert("absolute-y"@.len() != "jump"@.len());
    reveal_strlit("jne");
    assert("jne"@.len() != "jump"@.len());
    reveal_strlit("repeat");
    assert("repeat"@.len() != "jump"@.len());
    reveal_strlit("transition");
    assert("transition"@.len() != "jump"@.len());
    reveal_strlit("color");
    assert("color"@.len() != "jump"@.len());
    reveal_strlit("piece");
    assert("piece"@.len() != "jump"@.len());
    reveal_strlit("set-state");
    assert("set-state"@.len() != "jump"@.len());
    reveal_strlit("if-state");
    assert("if-state"@.len() != "jump"@.len());
    reveal_strlit("piece-on");
    assert("piece-on"@.len() != "jump"@.len());
    reveal_strlit("color-on");
    assert("color-on"@.len() != "jump"@.len());
    reveal_strlit("absolute");
    assert("absolute"@.len() != "jump"@.len());
    reveal_strlit("take-move");
    assert("take-move"@.len() != "jump"@.len());
    reveal_strlit("take");
    lemma_differs("take"@, "jump"@, 0);
}

proof fn lemma_parse_jump(q: Seq<char>)
    requires
        super::text::find_from(q, ')', 0) is Some,
    ensures
        super::behavior::parse_behavior("jump("@ + q) == super::behavior::BehaviorV::Jump(
            super::behavior::param_delta(written_args(q), 0),
        ),
{
    reveal_strlit("jump(");
    reveal_strlit("jump");
    let name = "jump"@;
    let f = "jump("@ + q;
    assert(f =~= name + seq!['('] + q);
    lemma_call_parts(name, q);
    reveal_strlit("end");
    lemma_differs("end"@, f, 0);
    reveal_strlit("while");
    lemma_differs("while"@, f, 0);
    reveal_strlit("do");
    lemma_differs("do"@, f, 0);
    reveal_strlit("not");
    lemma_differs("not"@, f, 0);
    reveal_strlit("true");
    lemma_differs("true"@, f, 0);
    reveal_strlit("false");
    lemma_differs("false"@, f, 0);
    reveal_strlit("check");
    lemma_differs("check"@, f, 0);
    reveal_strlit("transition");
    lemma_differs("transition"@, f, 0);
    reveal_strlit("}");
    lemma_differs("}"@, f, 0);
    reveal_strlit("{");
    lemma_differs("{"@, f, 0);
    assert(no_keyword_prefix(f));
    lemma_command_jump(written_args(q));
}

proof fn lemma_command_move(pv: Seq<Seq<char>>)
    ensures
        super::behavior::command_v("move"@, pv) == super::behavior::BehaviorV::Move(super::behavior::param_delta(pv, 0)),
{
    reveal_strlit("move");
    reveal_strlit("label");
    assert("label"@.len() != "move"@.len());
    reveal_strlit("jmp");
    assert("jmp"@.len() != "move"@.len());
    reveal_strlit("read");
    lemma_differs("read"@, "move"@, 0);
    reveal_strlit("read-and");
    assert("read-and"@.len() != "move"@.len());
    reveal_strlit("read-or");
    assert("read-or"@.len() != "move"@.len());
    reveal_strlit("read-xor");
    assert("read-xor"@.len() != "move"@.len());
    reveal_strlit("write");
    assert("write"@.len() != "move"@.len());
    reveal_strlit("read-anchor");
    assert("read-anchor"@.len() != "move"@.len());
    reveal_strlit("write-anchor");
    assert("write-anchor"@.len() != "move"@.len());
    reveal_strlit("absolute-x");
    assert("absolute-x"@.len() != "move"@.len());
    reveal_strlit("absolute-y");
    assert("absolute-y"@.len() != "move"@.len());
    reveal_strlit("jne");
    assert("jne"@.len() != "move"@.len());
    reveal_strlit("repeat");
    assert("repeat"@.len() != "move"@.len());
    reveal_strlit("transition");
    assert("transition"@.len() != "move"@.len());
    reveal_strlit("color");
    assert("color"@.len() != "move"@.len());
    reveal_strlit("piece");
    assert("piece"@.len() != "move"@.len());
    reveal_strlit("set-state");
    assert("set-state"@.len() != "move"@.len());
    reveal_strlit("if-state");
    assert("if-state"@.len() != "move"@.len());
    reveal_strlit("piece-on");
    assert("piece-on"@.len() != "move"@.len());
    reveal_strlit("color-on");
    assert("color-on"@.len() != "move"@.len());
    reveal_strlit("absolute");
    assert("absolute"@.len() != "move"@.len());
    reveal_strlit("take-move");
    assert("take-move"@.len() != "move"@.len());
    reveal_strlit("take");
    lemma_differs("take"@, "move"@, 0);
    reveal_strlit("jump");
    lemma_differs("jump"@, "move"@, 0);
}

proof fn lemma_parse_move(q: Seq<char>)
    requires
        super::text::find_from(q, ')', 0) is Some,
    ensures
        super::behavior::parse_behavior("move("@ + q) == super::behavior::BehaviorV::Move(
            super::behavior::param_delta(written_args(q), 0),
        ),
{
    reveal_strlit("move(");
    reveal_strlit("move");
    let name = "move"@;
    let f = "move("@ + q;
    assert(f =~= name + seq!['('] + q);
    lemma_call_parts(name, q);
    reveal_strlit("end");
    lemma_differs("end"@, f, 0);
    reveal_strlit("while");
    lemma_differs("while"@, f, 0);
    reveal_strlit("do");
    lemma_differs("do"@, f, 0);
    reveal_strlit("not");
    lemma_differs("not"@, f, 0);
    reveal_strlit("true");
    lemma_differs("true"@, f, 0);
    reveal_strlit("false");
    lemma_differs("false"@, f, 0);
    reveal_strlit("check");
    lemma_differs("check"@, f, 0);
    reveal_strlit("transition");
    lemma_differs("transition"@, f, 0);
    reveal_strlit("}");
    lemma_differs("}"@, f, 0);
    reveal_strlit("{");
    lemma_differs("{"@, f, 0);
    assert(no_keyword_prefix(f));
    lemma_command_move(written_args(q));
}

proof fn lemma_command_catch(pv: Seq<Seq<char>>)
    ensures
        super::behavior::command_v("catch"@, pv) == super::behavior::BehaviorV::Catch(super::behavior::param_delta(pv, 0)),
{
    reveal_strlit("catch");
    reveal_strlit("label");
    lemma_differs("label"@, "catch"@, 0);
    reveal_strlit("jmp");
    assert("jmp"@.len() != "catch"@.len());
    reveal_strlit("read");
    assert("read"@.len() != "catch"@.len());
    reveal_strlit("read-and");
    assert("read-and"@.len() != "catch"@.len());
    reveal_strlit("read-or");
    assert("read-or"@.len() != "catch"@.len());
    reveal_strlit("read-xor");
    assert("read-xor"@.len() != "catch"@.len());
    reveal_strlit("write");
    lemma_differs("write"@, "catch"@, 0);
    reveal_strlit("read-anchor");
    assert("read-anchor"@.len() != "catch"@.len());
    reveal_strlit("write-anchor");
    assert("write-anchor"@.len() != "catch"@.len());
    reveal_strlit("absolute-x");
    assert("absolute-x"@.len() != "catch"@.len());
    reveal_strlit("absolute-y");
    assert("absolute-y"@.len() != "catch"@.len());
    reveal_strlit("jne");
    assert("jne"@.len() != "catch"@.len());
    reveal_strlit("repeat");
    assert("repeat"@.len() != "catch"@.len());
    reveal_strlit("transition");
    assert("transition"@.len() != "catch"@.len());
    reveal_strlit("color");
    lemma_differs("color"@, "catch"@, 1);
    reveal_strlit("piece");
    lemma_differs("piece"@, "catch"@, 0);
    reveal_strlit("set-state");
    assert("set-state"@.len() != "catch"@.len());
    reveal_strlit("if-state");
    assert("if-state"@.len() != "catch"@.len());
    reveal_strlit("piece-on");
    assert("piece-on"@.len() != "catch"@.len());
    reveal_strlit("color-on");
    assert("color-on"@.len() != "catch"@.len());
    reveal_strlit("absolute");
    assert("absolute"@.len() != "catch"@.len());
    reveal_strlit("take-move");
    assert("take-move"@.len() != "catch"@.len());
    reveal_strlit("take");
    assert("take"@.len() != "catch"@.len());
    reveal_strlit("jump");
    assert("jump"@.len() != "catch"@.len());
    reveal_strlit("move");
    assert("move"@.len() != "catch"@.len());
}

proof fn lemma_parse_catch(q: Seq<char>)
    requires
        super::text::find_from(q, ')', 0) is Some,
    ensures
        super::behavior::parse_behavior("catch("@ + q) == super::behavior::BehaviorV::Catch(
            super::behavior::param_delta(written_args(q), 0),
        ),
{
    reveal_strlit("catch(");
    reveal_strlit("catch");
    let name = "catch"@;
    let f = "catch("@ + q;
    assert(f =~= name + seq!['('] + q);
    lemma_call_parts(name, q);
    reveal_strlit("end");
    lemma_differs("end"@, f, 0);
    reveal_strlit("while");
    lemma_differs("while"@, f, 0);
    reveal_strlit("do");
    lemma_differs("do"@, f, 0);
    reveal_strlit("not");
    lemma_differs("not"@, f, 0);
    reveal_strlit("true");
    lemma_differs("true"@, f, 0);
    reveal_strlit("false");
    lemma_differs("false"@, f, 0);
    reveal_strlit("check");
    lemma_differs("check"@, f, 1);
    reveal_strlit("transition");
    lemma_differs("transition"@, f, 0);
    reveal_strlit("}");
    lemma_differs("}"@, f, 0);
    reveal_strlit("{");
    lemma_differs("{"@, f, 0);
    assert(no_keyword_prefix(f));
    lemma_command_catch(written_args(q));
}

proof fn lemma_command_shift(pv: Seq<Seq<char>>)
    ensures
        super::behavior::command_v("shift"@, pv) == super::behavior::BehaviorV::Shift(super::behavior::param_delta(pv, 0)),
{
    reveal_strlit("shift");
    reveal_strlit("label");
    lemma_differs("label"@, "shift"@, 0);
    reveal_strlit("jmp");
    assert("jmp"@.len() != "shift"@.len());
    reveal_strlit("read");
    assert("read"@.len() != "shift"@.len());
    reveal_strlit("read-and");
    assert("read-and"@.len() != "shift"@.len());
    reveal_strlit("read-or");
    assert("read-or"@.len() != "shift"@.len());
    reveal_strlit("read-xor");
    assert("read-xor"@.len() != "shift"@.len());
    reveal_strlit("write");
    lemma_differs("write"@, "shift"@, 0);
    reveal_strlit("read-anchor");
    assert("read-anchor"@.len() != "shift"@.len());
    reveal_strlit("write-anchor");
    assert("write-anchor"@.len() != "shift"@.len());
    reveal_strlit("absolute-x");
    assert("absolute-x"@.len() != "shift"@.len());
    reveal_strlit("absolute-y");
    assert("absolute-y"@.len() != "shift"@.len());
    reveal_strlit("jne");
    assert("jne"@.len() != "shift"@.len());
    reveal_strlit("repeat");
    assert("repeat"@.len() != "shift"@.len());
    reveal_strlit("transition");
    assert("transition"@.len() != "shift"@.len());
    reveal_strlit("color");
    lemma_differs("color"@, "shift"@, 0);
    reveal_strlit("piece");
    lemma_differs("piece"@, "shift"@, 0);
    reveal_strlit("set-state");
    assert("set-state"@.len() != "shift"@.len());
    reveal_strlit("if-state");
    assert("if-state"@.len() != "shift"@.len());
    reveal_strlit("piece-on");
    assert("piece-on"@.len() != "shift"@.len());
    reveal_strlit("color-on");
    assert("color-on"@.len() != "shift"@.len());
    reveal_strlit("absolute");
    assert("absolute"@.len() != "shift"@.len());
    reveal_strlit("take-move");
    assert("take-move"@.len() != "shift"@.len());
    reveal_strlit("take");
    assert("take"@.len() != "shift"@.len());
    reveal_strlit("jump");
    assert("jump"@.len() != "shift"@.len());
    reveal_strlit("move");
    assert("move"@.len() != "shift"@.len());
    reveal_strlit("catch");
    lemma_differs("catch"@, "shift"@, 0);
}

proof fn lemma_parse_shift(q: Seq<char>)
    requires
        super::text::find_from(q, ')', 0) is Some,
    ensures
        super::behavior::parse_behavior("shift("@ + q) == super::behavior::BehaviorV::Shift(
            super::behavior::param_delta(written_args(q), 0),
        ),
{
    reveal_strlit("shift(");
    reveal_strlit("shift");
    let name = "shift"@;
    let f = "shift("@ + q;
    assert(f =~= name + seq!['('] + q);
    lemma_call_parts(name, q);
    reveal_strlit("end");
    lemma_differs("end"@, f, 0);
    reveal_strlit("while");
    lemma_differs("while"@, f, 0);
    reveal_strlit("do");
    lemma_differs("do"@, f, 0);
    reveal_strlit("not");
    lemma_differs("not"@, f, 0);
    reveal_strlit("true");
    lemma_differs("true"@, f, 0);
    reveal_strlit("false");
    lemma_differs("false"@, f, 0);
    reveal_strlit("check");
    lemma_differs("check"@, f, 0);
    reveal_strlit("transition");
    lemma_differs("transition"@, f, 0);
    reveal_strlit("}");
    lemma_differs("}"@, f, 0);
    reveal_strlit("{");
    lemma_differs("{"@, f, 0);
    assert(no_keyword_prefix(f));
    lemma_command_shift(written_args(q));
}

proof fn lemma_command_danger(pv: Seq<Seq<char>>)
    ensures
        super::behavior::command_v("danger"@, pv) == super::behavior::BehaviorV::Danger(super::behavior::param_delta(pv, 0)),
{
    reveal_strlit("danger");
    reveal_strlit("label");
    assert("label"@.len() != "danger"@.len());
    reveal_strlit("jmp");
    assert("jmp"@.len() != "danger"@.len());
    reveal_strlit("read");
    assert("read"@.len() != "danger"@.len());
    reveal_strlit("read-and");
    assert("read-and"@.len() != "danger"@.len());
    reveal_strlit("read-or");
    assert("read-or"@.len() != "danger"@.len());
    reveal_strlit("read-xor");
    assert("read-xor"@.len() != "danger"@.len());
    reveal_strlit("write");
    assert("write"@.len() != "danger"@.len());
    reveal_strlit("read-anchor");
    assert("read-anchor"@.len() != "danger"@.len());
    reveal_strlit("write-anchor");
    assert("write-anchor"@.len() != "danger"@.len());
    reveal_strlit("absolute-x");
    assert("absolute-x"@.len() != "danger"@.len());
    reveal_strlit("absolute-y");
    assert("absolute-y"@.len() != "danger"@.len());
    reveal_strlit("jne");
    assert("jne"@.len() != "danger"@.len());
    reveal_strlit("repeat");
    lemma_differs("repeat"@, "danger"@, 0);
    reveal_strlit("transition");
    assert("transition"@.len() != "danger"@.len());
    reveal_strlit("color");
    assert("color"@.len() != "danger"@.len());
    reveal_strlit("piece");
    assert("piece"@.len() != "danger"@.len());
    reveal_strlit("set-state");
    assert("set-state"@.len() != "danger"@.len());
    reveal_strlit("if-state");
    assert("if-state"@.len() != "danger"@.len());
    reveal_strlit("piece-on");
    assert("piece-on"@.len() != "danger"@.len());
    reveal_strlit("color-on");
    assert("color-on"@.len() != "danger"@.len());
    reveal_strlit("absolute");
    assert("absolute"@.len() != "danger"@.len());
    reveal_strlit("take-move");
    assert("take-move"@.len() != "danger"@.len());
    reveal_strlit("take");
    assert("take"@.len() != "danger"@.len());
    reveal_strlit("jump");
    assert("jump"@.len() != "danger"@.len());
    reveal_strlit("move");
    assert("move"@.len() != "danger"@.len());
    reveal_strlit("catch");
    assert("catch"@.len() != "danger"@.len());
    reveal_strlit("shift");
    assert("shift"@.len() != "danger"@.len());
}

proof fn lemma_parse_danger(q: Seq<char>)
    requires
        super::text::find_from(q, ')', 0) is Some,
    ensures
        super::behavior::parse_behavior("danger("@ + q) == super::behavior::BehaviorV::Danger(
            super::behavior::param_delta(written_args(q), 0),
        ),
{
    reveal_strlit("danger(");
    reveal_strlit("danger");
    let name = "danger"@;
    let f = "danger("@ + q;
    assert(f =~= name + seq!['('] + q);
    lemma_call_parts(name, q);
    reveal_strlit("end");
    lemma_differs("end"@, f, 0);
    reveal_strlit("while");
    lemma_differs("while"@, f, 0);
    reveal_strlit("do");
    lemma_differs("do"@, f, 1);
    reveal_strlit("not");
    lemma_differs("not"@, f, 0);
    reveal_strlit("true");
    lemma_differs("true"@, f, 0);
    reveal_strlit("false");
    lemma_differs("false"@, f, 0);
    reveal_strlit("check");
    lemma_differs("check"@, f, 0);
    reveal_strlit("transition");
    lemma_differs("transition"@, f, 0);
    reveal_strlit("}");
    lemma_differs("}"@, f, 0);
    reveal_strlit("{");
    lemma_differs("{"@, f, 0);
    assert(no_keyword_prefix(f));
    lemma_command_danger(written_args(q));
}

proof fn lemma_command_enemy(pv: Seq<Seq<char>>)
    ensures
        super::behavior::command_v("enemy"@, pv) == super::behavior::BehaviorV::Enemy(super::behavior::param_delta(pv, 0)),
{
    reveal_strlit("enemy");
    reveal_strlit("label");
    lemma_differs("label"@, "enemy"@, 0);
    reveal_strlit("jmp");
    assert("jmp"@.len() != "enemy"@.len());
    reveal_strlit("read");
    assert("read"@.len() != "enemy"@.len());
    reveal_strlit("read-and");
    assert("read-and"@.len() != "enemy"@.len());
    reveal_strlit("read-or");
    assert("read-or"@.len() != "enemy"@.len());
    reveal_strlit("read-xor");
    assert("read-xor"@.len() != "enemy"@.len());
    reveal_strlit("write");
    lemma_differs("write"@, "enemy"@, 0);
    reveal_strlit("read-anchor");
    assert("read-anchor"@.len() != "enemy"@.len());
    reveal_strlit("write-anchor");
    assert("write-anchor"@.len() != "enemy"@.len());
    reveal_strlit("absolute-x");
    assert("absolute-x"@.len() != "enemy"@.len());
    reveal_strlit("absolute-y");
    assert("absolute-y"@.len() != "enemy"@.len());
    reveal_strlit("jne");
    assert("jne"@.len() != "enemy"@.len());
    reveal_strlit("repeat");
    assert("repeat"@.len() != "enemy"@.len());
    reveal_strlit("transition");
    assert("transition"@.len() != "enemy"@.len());
    reveal_strlit("color");
    lemma_differs("color"@, "enemy"@, 0);
    reveal_strlit("piece");
    lemma_differs("piece"@, "enemy"@, 0);
    reveal_strlit("set-state");
    assert("set-state"@.len() != "enemy"@.len());
    reveal_strlit("if-state");
    assert("if-state"@.len() != "enemy"@.len());
    reveal_strlit("piece-on");
    assert("piece-on"@.len() != "enemy"@.len());
    reveal_strlit("color-on");
    assert("color-on"@.len() != "enemy"@.len());
    reveal_strlit("absolute");
    assert("absolute"@.len() != "enemy"@.len());
    reveal_strlit("take-move");
    assert("take-move"@.len() != "enemy"@.len());
    reveal_strlit("take");
    assert("take"@.len() != "enemy"@.len());
    reveal_strlit("jump");
    assert("jump"@.len() != "enemy"@.len());
    reveal_strlit("move");
    assert("move"@.len() != "enemy"@.len());
    reveal_strlit("catch");
    lemma_differs("catch"@, "enemy"@, 0);
    reveal_strlit("shift");
    lemma_differs("shift"@, "enemy"@, 0);
    reveal_strlit("danger");
    assert("danger"@.len() != "enemy"@.len());
}

proof fn lemma_parse_enemy(q: Seq<char>)
    requires
        super::text::find_from(q, ')', 0) is Some,
    ensures
        super::behavior::parse_behavior("enemy("@ + q) == super::behavior::BehaviorV::Enemy(
            super::behavior::param_delta(written_args(q), 0),
        ),
{
    reveal_strlit("enemy(");
    reveal_strlit("enemy");
    let name = "enemy"@;
    let f = "enemy("@ + q;
    assert(f =~= name + seq!['('] + q);
    lemma_call_parts(name, q);
    reveal_strlit("end");
    lemma_differs("end"@, f, 2);
    reveal_strlit("while");
    lemma_differs("while"@, f, 0);
    reveal_strlit("do");
    lemma_differs("do"@, f, 0);
    reveal_strlit("not");
    lemma_differs("not"@, f, 0);
    reveal_strlit("true");
    lemma_differs("true"@, f, 0);
    reveal_strlit("false");
    lemma_differs("false"@, f, 0);
    reveal_strlit("check");
    lemma_differs("check"@, f, 0);
    reveal_strlit("transition");
    lemma_differs("transition"@, f, 0);
    reveal_strlit("}");
    lemma_differs("}"@, f, 0);
    reveal_strlit("{");
    lemma_differs("{"@, f, 0);
    assert(no_keyword_prefix(f));
    lemma_command_enemy(written_args(q));
}

proof fn lemma_command_friendly(pv: Seq<Seq<char>>)
    ensures
        super::behavior::command_v("friendly"@, pv) == super::behavior::BehaviorV::Friendly(super::behavior::param_delta(pv, 0)),
{
    reveal_strlit("friendly");
    reveal_strlit("label");
    assert("label"@.len() != "friendly"@.len());
    reveal_strlit("jmp");
    assert("jmp"@.len() != "friendly"@.len());
    reveal_strlit("read");
    assert("read"@.len() != "friendly"@.len());
    reveal_strlit("read-and");
    lemma_differs("read-and"@, "friendly"@, 0);
    reveal_strlit("read-or");
    assert("read-or"@.len() != "friendly"@.len());
    reveal_strlit("read-xor");
    lemma_differs("read-xor"@, "friendly"@, 0);
    reveal_strlit("write");
    assert("write"@.len() != "friendly"@.len());
    reveal_strlit("read-anchor");
    assert("read-anchor"@.len() != "friendly"@.len());
    reveal_strlit("write-anchor");
    assert("write-anchor"@.len() != "friendly"@.len());
    reveal_strlit("absolute-x");
    assert("absolute-x"@.len() != "friendly"@.len());
    reveal_strlit("absolute-y");
    assert("absolute-y"@.len() != "friendly"@.len());
    reveal_strlit("jne");
    assert("jne"@.len() != "friendly"@.len());
    reveal_strlit("repeat");
    assert("repeat"@.len() != "friendly"@.len());
    reveal_strlit("transition");
    assert("transition"@.len() != "friendly"@.len());
    reveal_strlit("color");
    assert("color"@.len() != "friendly"@.len());
    reveal_strlit("piece");
    assert("piece"@.len() != "friendly"@.len());
    reveal_strlit("set-state");
    assert("set-state"@.len() != "friendly"@.len());
    reveal_strlit("if-state");
    lemma_differs("if-state"@, "friendly"@, 0);
    reveal_strlit("piece-on");
    lemma_differs("piece-on"@, "friendly"@, 0);
    reveal_strlit("color-on");
    lemma_differs("color-on"@, "friendly"@, 0);
    reveal_strlit("absolute");
    lemma_differs("absolute"@, "friendly"@, 0);
    reveal_strlit("take-move");
    assert("take-move"@.len() != "friendly"@.len());
    reveal_strlit("take");
    assert("take"@.len() != "friendly"@.len());
    reveal_strlit("jump");
    assert("jump"@.len() != "friendly"@.len());
    reveal_strlit("move");
    assert("move"@.len() != "friendly"@.len());
    reveal_strlit("catch");
    assert("catch"@.len() != "friendly"@.len());
    reveal_strlit("shift");
    assert("shift"@.len() != "friendly"@.len());
    reveal_strlit("danger");
    assert("danger"@.len() != "friendly"@.len());
    reveal_strlit("enemy");
    assert("enemy"@.len() != "friendly"@.len());
}

proof fn lemma_parse_friendly(q: Seq<char>)
    requires
        super::text::find_from(q, ')', 0) is Some,
    ensures
        super::behavior::parse_behavior("friendly("@ + q) == super::behavior::BehaviorV::Friendly(
            super::behavior::param_delta(written_args(q), 0),
        ),
{
    reveal_strlit("friendly(");
    reveal_strlit("friendly");
    let name = "friendly"@;
    let f = "friendly("@ + q;
    assert(f =~= name + seq!['('] + q);
    lemma_call_parts(name, q);
    reveal_strlit("end");
    lemma_differs("end"@, f, 0);
    reveal_strlit("while");
    lemma_differs("while"@, f, 0);
    reveal_strlit("do");
    lemma_differs("do"@, f, 0);
    reveal_strlit("not");
    lemma_differs("not"@, f, 0);
    reveal_strlit("true");
    lemma_differs("true"@, f, 0);
    reveal_strlit("false");
    lemma_differs("false"@, f, 1);
    reveal_strlit("check");
    lemma_differs("check"@, f, 0);
    reveal_strlit("transition");
    lemma_differs("transition"@, f, 0);
    reveal_strlit("}");
    lemma_differs("}"@, f, 0);
    reveal_strlit("{");
    lemma_differs("{"@, f, 0);
    assert(no_keyword_prefix(f));
    lemma_command_friendly(written_args(q));
}

proof fn lemma_command_peek(pv: Seq<Seq<char>>)
    ensures
        super::behavior::command_v("peek"@, pv) == super::behavior::BehaviorV::Peek(super::behavior::param_delta(pv, 0)),
{
    reveal_strlit("peek");
    reveal_strlit("label");
    assert("label"@.len() != "peek"@.len());
    reveal_strlit("jmp");
    assert("jmp"@.len() != "peek"@.len());
    reveal_strlit("read");
    lemma_differs("read"@, "peek"@, 0);
    reveal_strlit("read-and");
    assert("read-and"@.len() != "peek"@.len());
    reveal_strlit("read-or");
    assert("read-or"@.len() != "peek"@.len());
    reveal_strlit("read-xor");
    assert("read-xor"@.len() != "peek"@.len());
    reveal_strlit("write");
    assert("write"@.len() != "peek"@.len());
    reveal_strlit("read-anchor");
    assert("read-anchor"@.len() != "peek"@.len());
    reveal_strlit("write-anchor");
    assert("write-anchor"@.len() != "peek"@.len());
    reveal_strlit("absolute-x");
    assert("absolute-x"@.len() != "peek"@.len());
    reveal_strlit("absolute-y");
    assert("absolute-y"@.len() != "peek"@.len());
    reveal_strlit("jne");
    assert("jne"@.len() != "peek"@.len());
    reveal_strlit("repeat");
    assert("repeat"@.len() != "peek"@.len());
    reveal_strlit("transition");
    assert("transition"@.len() != "peek"@.len());
    reveal_strlit("color");
    assert("color"@.len() != "peek"@.len());
    reveal_strlit("piece");
    assert("piece"@.len() != "peek"@.len());
    reveal_strlit("set-state");
    assert("set-state"@.len() != "peek"@.len());
    reveal_strlit("if-state");
    assert("if-state"@.len() != "peek"@.len());
    reveal_strlit("piece-on");
    assert("piece-on"@.len() != "peek"@.len());
    reveal_strlit("color-on");
    assert("color-on"@.len() != "peek"@.len());
    reveal_strlit("absolute");
    assert("absolute"@.len() != "peek"@.len());
    reveal_strlit("take-move");
    assert("take-move"@.len() != "peek"@.len());
    reveal_strlit("take");
    lemma_differs("take"@, "peek"@, 0);
    reveal_strlit("jump");
    lemma_differs("jump"@, "peek"@, 0);
    reveal_strlit("move");
    lemma_differs("move"@, "peek"@, 0);
    reveal_strlit("catch");
    assert("catch"@.len() != "peek"@.len());
    reveal_strlit("shift");
    assert("shift"@.len() != "peek"@.len());
    reveal_strlit("danger");
    assert("danger"@.len() != "peek"@.len());
    reveal_strlit("enemy");
    assert("enemy"@.len() != "peek"@.len());
    reveal_strlit("friendly");
    assert("friendly"@.len() != "peek"@.len());
}

proof fn lemma_parse_peek(q: Seq<char>)
    requires
        super::text::find_from(q, ')', 0) is Some,
    ensures
        super::behavior::parse_behavior("peek("@ + q) == super::behavior::BehaviorV::Peek(
            super::behavior::param_delta(written_args(q), 0),
        ),
{
    reveal_strlit("peek(");
    reveal_strlit("peek");
    let name = "peek"@;
    let f = "peek("@ + q;
    assert(f =~= name + seq!['('] + q);
    lemma_call_parts(name, q);
    reveal_strlit("end");
    lemma_differs("end"@, f, 0);
    reveal_strlit("while");
    lemma_differs("while"@, f, 0);
    reveal_strlit("do");
    lemma_differs("do"@, f, 0);
    reveal_strlit("not");
    lemma_differs("not"@, f, 0);
    reveal_strlit("true");
    lemma_differs("true"@, f, 0);
    reveal_strlit("false");
    lemma_differs("false"@, f, 0);
    reveal_strlit("check");
    lemma_differs("check"@, f, 0);
    reveal_strlit("transition");
    lemma_differs("transition"@, f, 0);
    reveal_strlit("}");
    lemma_differs("}"@, f, 0);
    reveal_strlit("{");
    lemma_differs("{"@, f, 0);
    assert(no_keyword_prefix(f));
    lemma_command_peek(written_args(q));
}

proof fn lemma_command_anchor(pv: Seq<Seq<char>>)
    ensures
        super::behavior::command_v("anchor"@, pv) == super::behavior::BehaviorV::Anchor(super::behavior::param_delta(pv, 0)),
{
    reveal_strlit("anchor");
    reveal_strlit("label");
    assert("label"@.len() != "anchor"@.len());
    reveal_strlit("jmp");
    assert("jmp"@.len() != "anchor"@.len());
    reveal_strlit("read");
    assert("read"@.len() != "anchor"@.len());
    reveal_strlit("read-and");
    assert("read-and"@.len() != "anchor"@.len());
    reveal_strlit("read-or");
    assert("read-or"@.len() != "anchor"@.len());
    reveal_strlit("read-xor");
    assert("read-xor"@.len() != "anchor"@.len());
    reveal_strlit("write");
    assert("write"@.len() != "anchor"@.len());
    reveal_strlit("read-anchor");
    assert("read-anchor"@.len() != "anchor"@.len());
    reveal_strlit("write-anchor");
    assert("write-anchor"@.len() != "anchor"@.len());
    reveal_strlit("absolute-x");
    assert("absolute-x"@.len() != "anchor"@.len());
    reveal_strlit("absolute-y");
    assert("absolute-y"@.len() != "anchor"@.len());
    reveal_strlit("jne");
    assert("jne"@.len() != "anchor"@.len());
    reveal_strlit("repeat");
    lemma_differs("repeat"@, "anchor"@, 0);
    reveal_strlit("transition");
    assert("transition"@.len() != "anchor"@.len());
    reveal_strlit("color");
    assert("color"@.len() != "anchor"@.len());
    reveal_strlit("piece");
    assert("piece"@.len() != "anchor"@.len());
    reveal_strlit("set-state");
    assert("set-state"@.len() != "anchor"@.len());
    reveal_strlit("if-state");
    assert("if-state"@.len() != "anchor"@.len());
    reveal_strlit("piece-on");
    assert("piece-on"@.len() != "anchor"@.len());
    reveal_strlit("color-on");
    assert("color-on"@.len() != "anchor"@.len());
    reveal_strlit("absolute");
    assert("absolute"@.len() != "anchor"@.len());
    reveal_strlit("take-move");
    assert("take-move"@.len() != "anchor"@.len());
    reveal_strlit("take");
    assert("take"@.len() != "anchor"@.len());
    reveal_strlit("jump");
    assert("jump"@.len() != "anchor"@.len());
    reveal_strlit("move");
    assert("move"@.len() != "anchor"@.len());
    reveal_strlit("catch");
    assert("catch"@.len() != "anchor"@.len());
    reveal_strlit("shift");
    assert("shift"@.len() != "anchor"@.len());
    reveal_strlit("danger");
    lemma_differs("danger"@, "anchor"@, 0);
    reveal_strlit("enemy");
    assert("enemy"@.len() != "anchor"@.len());
    reveal_strlit("friendly");
    assert("friendly"@.len() != "anchor"@.len());
    reveal_strlit("peek");
    assert("peek"@.len() != "anchor"@.len());
}

proof fn lemma_parse_anchor(q: Seq<char>)
    requires
        super::text::find_from(q, ')', 0) is Some,
    ensures
        super::behavior::parse_behavior("anchor("@ + q) == super::behavior::BehaviorV::Anchor(
            super::behavior::param_delta(written_args(q), 0),
        ),
{
    reveal_strlit("anchor(");
    reveal_strlit("anchor");
    let name = "anchor"@;
    let f = "anchor("@ + q;
    assert(f =~= name + seq!['('] + q);
    lemma_call_parts(name, q);
    reveal_strlit("end");
    lemma_differs("end"@, f, 0);
    reveal_strlit("while");
    lemma_differs("while"@, f, 0);
    reveal_strlit("do");
    lemma_differs("do"@, f, 0);
    reveal_strlit("not");
    lemma_differs("not"@, f, 0);
    reveal_strlit("true");
    lemma_differs("true"@, f, 0);
    reveal_strlit("false");
    lemma_differs("false"@, f, 0);
    reveal_strlit("check");
    lemma_differs("check"@, f, 0);
    reveal_strlit("transition");
    lemma_differs("transition"@, f, 0);
    reveal_strlit("}");
    lemma_differs("}"@, f, 0);
    reveal_strlit("{");
    lemma_differs("{"@, f, 0);
    assert(no_keyword_prefix(f));
    lemma_command_anchor(written_args(q));
}

proof fn lemma_command_observe(pv: Seq<Seq<char>>)
    ensures
        super::behavior::command_v("observe"@, pv) == super::behavior::BehaviorV::Observe(super::behavior::param_delta(pv, 0)),
{
    reveal_strlit("observe");
    reveal_strlit("label");
    assert("label"@.len() != "observe"@.len());
    reveal_strlit("jmp");
    assert("jmp"@.len() != "observe"@.len());
    reveal_strlit("read");
    assert("read"@.len() != "observe"@.len());
    reveal_strlit("read-and");
    assert("read-and"@.len() != "observe"@.len());
    reveal_strlit("read-or");
    lemma_differs("read-or"@, "observe"@, 0);
    reveal_strlit("read-xor");
    assert("read-xor"@.len() != "observe"@.len());
    reveal_strlit("write");
    assert("write"@.len() != "observe"@.len());
    reveal_strlit("read-anchor");
    assert("read-anchor"@.len() != "observe"@.len());
    reveal_strlit("write-anchor");
    assert("write-anchor"@.len() != "observe"@.len());
    reveal_strlit("absolute-x");
    assert("absolute-x"@.len() != "observe"@.len());
    reveal_strlit("absolute-y");
    assert("absolute-y"@.len() != "observe"@.len());
    reveal_strlit("jne");
    assert("jne"@.len() != "observe"@.len());
    reveal_strlit("repeat");
    assert("repeat"@.len() != "observe"@.len());
    reveal_strlit("transition");
    assert("transition"@.len() != "observe"@.len());
    reveal_strlit("color");
    assert("color"@.len() != "observe"@.len());
    reveal_strlit("piece");
    assert("piece"@.len() != "observe"@.len());
    reveal_strlit("set-state");
    assert("set-state"@.len() != "observe"@.len());
    reveal_strlit("if-state");
    assert("if-state"@.len() != "observe"@.len());
    reveal_strlit("piece-on");
    assert("piece-on"@.len() != "observe"@.len());
    reveal_strlit("color-on");
    assert("color-on"@.len() != "observe"@.len());
    reveal_strlit("absolute");
    assert("absolute"@.len() != "observe"@.len());
    reveal_strlit("take-move");
    assert("take-move"@.len() != "observe"@.len());
    reveal_strlit("take");
    assert("take"@.len() != "observe"@.len());
    reveal_strlit("jump");
    assert("jump"@.len() != "observe"@.len());
    reveal_strlit("move");
    assert("move"@.len() != "observe"@.len());
    reveal_strlit("catch");
    assert("catch"@.len() != "observe"@.len());
    reveal_strlit("shift");
    assert("shift"@.len() != "observe"@.len());
    reveal_strlit("danger");
    assert("danger"@.len() != "observe"@.len());
    reveal_strlit("enemy");
    assert("enemy"@.len() != "observe"@.len());
    reveal_strlit("friendly");
    assert("friendly"@.len() != "observe"@.len());
    reveal_strlit("peek");
    assert("peek"@.len() != "observe"@.len());
    reveal_strlit("anchor");
    assert("anchor"@.len() != "observe"@.len());
}

proof fn lemma_parse_observe(q: Seq<char>)
    requires
        super::text::find_from(q, ')', 0) is Some,
    ensures
        super::behavior::parse_behavior("observe("@ + q) == super::behavior::BehaviorV::Observe(
            super::behavior::param_delta(written_args(q), 0),
        ),
{
    reveal_strlit("observe(");
    reveal_strlit("observe");
    let name = "observe"@;
    let f = "observe("@ + q;
    assert(f =~= name + seq!['('] + q);
    lemma_call_parts(name, q);
    reveal_strlit("end");
    lemma_differs("end"@, f, 0);
    reveal_strlit("while");
    lemma_differs("while"@, f, 0);
    reveal_strlit("do");
    lemma_differs("do"@, f, 0);
    reveal_strlit("not");
    lemma_differs("not"@, f, 0);
    reveal_strlit("true");
    lemma_differs("true"@, f, 0);
    reveal_strlit("false");
    lemma_differs("false"@, f, 0);
    reveal_strlit("check");
    lemma_differs("check"@, f, 0);
    reveal_strlit("transition");
    lemma_differs("transition"@, f, 0);
    reveal_strlit("}");
    lemma_differs("}"@, f, 0);
    reveal_strlit("{");
    lemma_differs("{"@, f, 0);
    assert(no_keyword_prefix(f));
    lemma_command_observe(written_args(q));
}

proof fn lemma_command_bound(pv: Seq<Seq<char>>)
    ensures
        super::behavior::command_v("bound"@, pv) == super::behavior::BehaviorV::Bound(super::behavior::param_delta(pv, 0)),
{
    reveal_strlit("bound");
    reveal_strlit("label");
    lemma_differs("label"@, "bound"@, 0);
    reveal_strlit("jmp");
    assert("jmp"@.len() != "bound"@.len());
    reveal_strlit("read");
    assert("read"@.len() != "bound"@.len());
    reveal_strlit("read-and");
    assert("read-and"@.len() != "bound"@.len());
    reveal_strlit("read-or");
    assert("read-or"@.len() != "bound"@.len());
    reveal_strlit("read-xor");
    assert("read-xor"@.len() != "bound"@.len());
    reveal_strlit("write");
    lemma_differs("write"@, "bound"@, 0);
    reveal_strlit("read-anchor");
    assert("read-anchor"@.len() != "bound"@.len());
    reveal_strlit("write-anchor");
    assert("write-anchor"@.len() != "bound"@.len());
    reveal_strlit("absolute-x");
    assert("absolute-x"@.len() != "bound"@.len());
    reveal_strlit("absolute-y");
    assert("absolute-y"@.len() != "bound"@.len());
    reveal_strlit("jne");
    assert("jne"@.len() != "bound"@.len());
    reveal_strlit("repeat");
    assert("repeat"@.len() != "bound"@.len());
    reveal_strlit("transition");
    assert("transition"@.len() != "bound"@.len());
    reveal_strlit("color");
    lemma_differs("color"@, "bound"@, 0);
    reveal_strlit("piece");
    lemma_differs("piece"@, "bound"@, 0);
    reveal_strlit("set-state");
    assert("set-state"@.len() != "bound"@.len());
    reveal_strlit("if-state");
    assert("if-state"@.len() != "bound"@.len());
    reveal_strlit("piece-on");
    assert("piece-on"@.len() != "bound"@.len());
    reveal_strlit("color-on");
    assert("color-on"@.len() != "bound"@.len());
    reveal_strlit("absolute");
    assert("absolute"@.len() != "bound"@.len());
    reveal_strlit("take-move");
    assert("take-move"@.len() != "bound"@.len());
    reveal_strlit("take");
    assert("take"@.len() != "bound"@.len());
    reveal_strlit("jump");
    assert("jump"@.len() != "bound"@.len());
    reveal_strlit("move");
    assert("move"@.len() != "bound"@.len());
    reveal_strlit("catch");
    lemma_differs("catch"@, "bound"@, 0);
    reveal_strlit("shift");
    lemma_differs("shift"@, "bound"@, 0);
    reveal_strlit("danger");
    assert("danger"@.len() != "bound"@.len());
    reveal_strlit("enemy");
    lemma_differs("enemy"@, "bound"@, 0);
    reveal_strlit("friendly");
    assert("friendly"@.len() != "bound"@.len());
    reveal_strlit("peek");
    assert("peek"@.len() != "bound"@.len());
    reveal_strlit("anchor");
    assert("anchor"@.len() != "bound"@.len());
    reveal_strlit("observe");
    assert("observe"@.len() != "bound"@.len());
}

proof fn lemma_parse_bound(q: Seq<char>)
    requires
        super::text::find_from(q, ')', 0) is Some,
    ensures
        super::behavior::parse_behavior("bound("@ + q) == super::behavior::BehaviorV::Bound(
            super::behavior::param_delta(written_args(q), 0),
        ),
{
    reveal_strlit("bound(");
    reveal_strlit("bound");
    let name = "bound"@;
    let f = "bound("@ + q;
    assert(f =~= name + seq!['('] + q);
    lemma_call_parts(name, q);
    reveal_strlit("end");
    lemma_differs("end"@, f, 0);
    reveal_strlit("while");
    lemma_differs("while"@, f, 0);
    reveal_strlit("do");
    lemma_differs("do"@, f, 0);
    reveal_strlit("not");
    lemma_differs("not"@, f, 0);
    reveal_strlit("true");
    lemma_differs("true"@, f, 0);
    reveal_strlit("false");
    lemma_differs("false"@, f, 0);
    reveal_strlit("check");
    lemma_differs("check"@, f, 0);
    reveal_strlit("transition");
    lemma_differs("transition"@, f, 0);
    reveal_strlit("}");
    lemma_differs("}"@, f, 0);
    reveal_strlit("{");
    lemma_differs("{"@, f, 0);
    assert(no_keyword_prefix(f));
    lemma_command_bound(written_args(q));
}

proof fn lemma_command_edge(pv: Seq<Seq<char>>)
    ensures
        super::behavior::command_v("edge"@, pv) == super::behavior::BehaviorV::Edge(super::behavior::param_delta(pv, 0)),
{
    reveal_strlit("edge");
    reveal_strlit("label");
    assert("label"@.len() != "edge"@.len());
    reveal_strlit("jmp");
    assert("jmp"@.len() != "edge"@.len());
    reveal_strlit("read");
    lemma_differs("read"@, "edge"@, 0);
    reveal_strlit("read-and");
    assert("read-and"@.len() != "edge"@.len());
    reveal_strlit("read-or");
    assert("read-or"@.len() != "edge"@.len());
    reveal_strlit("read-xor");
    assert("read-xor"@.len() != "edge"@.len());
    reveal_strlit("write");
    assert("write"@.len() != "edge"@.len());
    reveal_strlit("read-anchor");
    assert("read-anchor"@.len() != "edge"@.len());
    reveal_strlit("write-anchor");
    assert("write-anchor"@.len() != "edge"@.len());
    reveal_strlit("absolute-x");
    assert("absolute-x"@.len() != "edge"@.len());
    reveal_strlit("absolute-y");
    assert("absolute-y"@.len() != "edge"@.len());
    reveal_strlit("jne");
    assert("jne"@.len() != "edge"@.len());
    reveal_strlit("repeat");
    assert("repeat"@.len() != "edge"@.len());
    reveal_strlit("transition");
    assert("transition"@.len() != "edge"@.len());
    reveal_strlit("color");
    assert("color"@.len() != "edge"@.len());
    reveal_strlit("piece");
    assert("piece"@.len() != "edge"@.len());
    reveal_strlit("set-state");
    assert("set-state"@.len() != "edge"@.len());
    reveal_strlit("if-state");
    assert("if-state"@.len() != "edge"@.len());
    reveal_strlit("piece-on");
    assert("piece-on"@.len() != "edge"@.len());
    reveal_strlit("color-on");
    assert("color-on"@.len() != "edge"@.len());
    reveal_strlit("absolute");
    assert("absolute"@.len() != "edge"@.len());
    reveal_strlit("take-move");
    assert("take-move"@.len() != "edge"@.len());
    reveal_strlit("take");
    lemma_differs("take"@, "edge"@, 0);
    reveal_strlit("jump");
    lemma_differs("jump"@, "edge"@, 0);
    reveal_strlit("move");
    lemma_differs("move"@, "edge"@, 0);
    reveal_strlit("catch");
    assert("catch"@.len() != "edge"@.len());
    reveal_strlit("shift");
    assert("shift"@.len() != "edge"@.len());
    reveal_strlit("danger");
    assert("danger"@.len() != "edge"@.len());
    reveal_strlit("enemy");
    assert("enemy"@.len() != "edge"@.len());
    reveal_strlit("friendly");
    assert("friendly"@.len() != "edge"@.len());
    reveal_strlit("peek");
    lemma_differs("peek"@, "edge"@, 0);
    reveal_strlit("anchor");
    assert("anchor"@.len() != "edge"@.len());
    reveal_strlit("observe");
    assert("observe"@.len() != "edge"@.len());
    reveal_strlit("bound");
    assert("bound"@.len() != "edge"@.len());
}

proof fn lemma_parse_edge(q: Seq<char>)
    requires
        super::text::find_from(q, ')', 0) is Some,
    ensures
        super::behavior::parse_behavior("edge("@ + q) == super::behavior::BehaviorV::Edge(
            super::behavior::param_delta(written_args(q), 0),
        ),
{
    reveal_strlit("edge(");
    reveal_strlit("edge");
    let name = "edge"@;
    let f = "edge("@ + q;
    assert(f =~= name + seq!['('] + q);
    lemma_call_parts(name, q);
    reveal_strlit("end");
    lemma_differs("end"@, f, 1);
    reveal_strlit("while");
    lemma_differs("while"@, f, 0);
    reveal_strlit("do");
    lemma_differs("do"@, f, 0);
    reveal_strlit("not");
    lemma_differs("not"@, f, 0);
    reveal_strlit("true");
    lemma_differs("true"@, f, 0);
    reveal_strlit("false");
    lemma_differs("false"@, f, 0);
    reveal_strlit("check");
    lemma_differs("check"@, f, 0);
    reveal_strlit("transition");
    lemma_differs("transition"@, f, 0);
    reveal_strlit("}");
    lemma_differs("}"@, f, 0);
    reveal_strlit("{");
    lemma_differs("{"@, f, 0);
    assert(no_keyword_prefix(f));
    lemma_command_edge(written_args(q));
}

proof fn lemma_command_corner(pv: Seq<Seq<char>>)
    ensures
        super::behavior::command_v("corner"@, pv) == super::behavior::BehaviorV::Corner(super::behavior::param_delta(pv, 0)),
{
    reveal_strlit("corner");
    reveal_strlit("label");
    assert("label"@.len() != "corner"@.len());
    reveal_strlit("jmp");
    assert("jmp"@.len() != "corner"@.len());
    reveal_strlit("read");
    assert("read"@.len() != "corner"@.len());
    reveal_strlit("read-and");
    assert("read-and"@.len() != "corner"@.len());
    reveal_strlit("read-or");
    assert("read-or"@.len() != "corner"@.len());
    reveal_strlit("read-xor");
    assert("read-xor"@.len() != "corner"@.len());
    reveal_strlit("write");
    assert("write"@.len() != "corner"@.len());
    reveal_strlit("read-anchor");
    assert("read-anchor"@.len() != "corner"@.len());
    reveal_strlit("write-anchor");
    assert("write-anchor"@.len() != "corner"@.len());
    reveal_strlit("absolute-x");
    assert("absolute-x"@.len() != "corner"@.len());
    reveal_strlit("absolute-y");
    assert("absolute-y"@.len() != "corner"@.len());
    reveal_strlit("jne");
    assert("jne"@.len() != "corner"@.len());
    reveal_strlit("repeat");
    lemma_differs("repeat"@, "corner"@, 0);
    reveal_strlit("transition");
    assert("transition"@.len() != "corner"@.len());
    reveal_strlit("color");
    assert("color"@.len() != "corner"@.len());
    reveal_strlit("piece");
    assert("piece"@.len() != "corner"@.len());
    reveal_strlit("set-state");
    assert("set-state"@.len() != "corner"@.len());
    reveal_strlit("if-state");
    assert("if-state"@.len() != "corner"@.len());
    reveal_strlit("piece-on");
    assert("piece-on"@.len() != "corner"@.len());
    reveal_strlit("color-on");
    assert("color-on"@.len() != "corner"@.len());
    reveal_strlit("absolute");
    assert("absolute"@.len() != "corner"@.len());
    reveal_strlit("take-move");
    assert("take-move"@.len() != "corner"@.len());
    reveal_strlit("take");
    assert("take"@.len() != "corner"@.len());
    reveal_strlit("jump");
    assert("jump"@.len() != "corner"@.len());
    reveal_strlit("move");
    assert("move"@.len() != "corner"@.len());
    reveal_strlit("catch");
    assert("catch"@.len() != "corner"@.len());
    reveal_strlit("shift");
    assert("shift"@.len() != "corner"@.len());
    reveal_strlit("danger");
    lemma_differs("danger"@, "corner"@, 0);
    reveal_strlit("enemy");
    assert("enemy"@.len() != "corner"@.len());
    reveal_strlit("friendly");
    assert("friendly"@.len() != "corner"@.len());
    reveal_strlit("peek");
    assert("peek"@.len() != "corner"@.len());
    reveal_strlit("anchor");
    lemma_differs("anchor"@, "corner"@, 0);
    reveal_strlit("observe");
    assert("observe"@.len() != "corner"@.len());
    reveal_strlit("bound");
    assert("bound"@.len() != "corner"@.len());
    reveal_strlit("edge");
    assert("edge"@.len() != "corner"@.len());
}

proof fn lemma_parse_corner(q: Seq<char>)
    requires
        super::text::find_from(q, ')', 0) is Some,
    ensures
        super::behavior::parse_behavior("corner("@ + q) == super::behavior::BehaviorV::Corner(
            super::behavior::param_delta(written_args(q), 0),
        ),
{
    reveal_strlit("corner(");
    reveal_strlit("corner");
    let name = "corner"@;
    let f = "corner("@ + q;
    assert(f =~= name + seq!['('] + q);
    lemma_call_parts(name, q);
    reveal_strlit("end");
    lemma_differs("end"@, f, 0);
    reveal_strlit("while");
    lemma_differs("while"@, f, 0);
    reveal_strlit("do");
    lemma_differs("do"@, f, 0);
    reveal_strlit("not");
    lemma_differs("not"@, f, 0);
    reveal_strlit("true");
    lemma_differs("true"@, f, 0);
    reveal_strlit("false");
    lemma_differs("false"@, f, 0);
    reveal_strlit("check");
    lemma_differs("check"@, f, 1);
    reveal_strlit("transition");
    lemma_differs("transition"@, f, 0);
    reveal_strlit("}");
    lemma_differs("}"@, f, 0);
    reveal_strlit("{");
    lemma_differs("{"@, f, 0);
    assert(no_keyword_prefix(f));
    lemma_command_corner(written_args(q));
}

proof fn lemma_command_edge_left(pv: Seq<Seq<char>>)
    ensures
        super::behavior::command_v("edge-left"@, pv) == super::behavior::BehaviorV::EdgeLeft(super::behavior::param_delta(pv, 0)),
{
    reveal_strlit("edge-left");
    reveal_strlit("label");
    assert("label"@.len() != "edge-left"@.len());
    reveal_strlit("jmp");
    assert("jmp"@.len() != "edge-left"@.len());
    reveal_strlit("read");
    assert("read"@.len() != "edge-left"@.len());
    reveal_strlit("read-and");
    assert("read-and"@.len() != "edge-left"@.len());
    reveal_strlit("read-or");
    assert("read-or"@.len() != "edge-left"@.len());
    reveal_strlit("read-xor");
    assert("read-xor"@.len() != "edge-left"@.len());
    reveal_strlit("write");
    assert("write"@.len() != "edge-left"@.len());
    reveal_strlit("read-anchor");
    assert("read-anchor"@.len() != "edge-left"@.len());
    reveal_strlit("write-anchor");
    assert("write-anchor"@.len() != "edge-left"@.len());
    reveal_strlit("absolute-x");
    assert("absolute-x"@.len() != "edge-left"@.len());
    reveal_strlit("absolute-y");
    assert("absolute-y"@.len() != "edge-left"@.len());
    reveal_strlit("jne");
    assert("jne"@.len() != "edge-left"@.len());
    reveal_strlit("repeat");
    assert("repeat"@.len() != "edge-left"@.len());
    reveal_strlit("transition");
    assert("transition"@.len() != "edge-left"@.len());
    reveal_strlit("color");
    assert("color"@.len() != "edge-left"@.len());
    reveal_strlit("piece");
    assert("piece"@.len() != "edge-left"@.len());
    reveal_strlit("set-state");
    lemma_differs("set-state"@, "edge-left"@, 0);
    reveal_strlit("if-state");
    assert("if-state"@.len() != "edge-left"@.len());
    reveal_strlit("piece-on");
    assert("piece-on"@.len() != "edge-left"@.len());
    reveal_strlit("color-on");
    assert("color-on"@.len() != "edge-left"@.len());
    reveal_strlit("absolute");
    assert("absolute"@.len() != "edge-left"@.len());
    reveal_strlit("take-move");
    lemma_differs("take-move"@, "edge-left"@, 0);
    reveal_strlit("take");
    assert("take"@.len() != "edge-left"@.len());
    reveal_strlit("jump");
    assert("jump"@.len() != "edge-left"@.len());
    reveal_strlit("move");
    assert("move"@.len() != "edge-left"@.len());
    reveal_strlit("catch");
    assert("catch"@.len() != "edge-left"@.len());
    reveal_strlit("shift");
    assert("shift"@.len() != "edge-left"@.len());
    reveal_strlit("danger");
    assert("danger"@.len() != "edge-left"@.len());
    reveal_strlit("enemy");
    assert("enemy"@.len() != "edge-left"@.len());
    reveal_strlit("friendly");
    assert("friendly"@.len() != "edge-left"@.len());
    reveal_strlit("peek");
    assert("peek"@.len() != "edge-left"@.len());
    reveal_strlit("anchor");
    assert("anchor"@.len() != "edge-left"@.len());
    reveal_strlit("observe");
    assert("observe"@.len() != "edge-left"@.len());
    reveal_strlit("bound");
    assert("bound"@.len() != "edge-left"@.len());
    reveal_strlit("edge");
    assert("edge"@.len() != "edge-left"@.len());
    reveal_strlit("corner");
    assert("corner"@.len() != "edge-left"@.len());
}

proof fn lemma_parse_edge_left(q: Seq<char>)
    requires
        super::text::find_from(q, ')', 0) is Some,
    ensures
        super::behavior::parse_behavior("edge-left("@ + q) == super::behavior::BehaviorV::EdgeLeft(
            super::behavior::param_delta(written_args(q), 0),
        ),
{
    reveal_strlit("edge-left(");
    reveal_strlit("edge-left");
    let name = "edge-left"@;
    let f = "edge-left("@ + q;
    assert(f =~= name + seq!['('] + q);
    lemma_call_parts(name, q);
    reveal_strlit("end");
    lemma_differs("end"@, f, 1);
    reveal_strlit("while");
    lemma_differs("while"@, f, 0);
    reveal_strlit("do");
    lemma_differs("do"@, f, 0);
    reveal_strlit("not");
    lemma_differs("not"@, f, 0);
    reveal_strlit("true");
    lemma_differs("true"@, f, 0);
    reveal_strlit("false");
    lemma_differs("false"@, f, 0);
    reveal_strlit("check");
    lemma_differs("check"@, f, 0);
    reveal_strlit("transition");
    lemma_differs("transition"@, f, 0);
    reveal_strlit("}");
    lemma_differs("}"@, f, 0);
    reveal_strlit("{");
    lemma_differs("{"@, f, 0);
    assert(no_keyword_prefix(f));
    lemma_command_edge_left(written_args(q));
}

proof fn lemma_command_edge_right(pv: Seq<Seq<char>>)
    ensures
        super::behavior::command_v("edge-right"@, pv) == super::behavior::BehaviorV::EdgeRight(super::behavior::param_delta(pv, 0)),
{
    reveal_strlit("edge-right");
    reveal_strlit("label");
    assert("label"@.len() != "edge-right"@.len());
    reveal_strlit("jmp");
    assert("jmp"@.len() != "edge-right"@.len());
    reveal_strlit("read");
    assert("read"@.len() != "edge-right"@.len());
    reveal_strlit("read-and");
    assert("read-and"@.len() != "edge-right"@.len());
    reveal_strlit("read-or");
    assert("read-or"@.len() != "edge-right"@.len());
    reveal_strlit("read-xor");
    assert("read-xor"@.len() != "edge-right"@.len());
    reveal_strlit("write");
    assert("write"@.len() != "edge-right"@.len());
    reveal_strlit("read-anchor");
    assert("read-anchor"@.len() != "edge-right"@.len());
    reveal_strlit("write-anchor");
    assert("write-anchor"@.len() != "edge-right"@.len());
    reveal_strlit("absolute-x");
    lemma_differs("absolute-x"@, "edge-right"@, 0);
    reveal_strlit("absolute-y");
    lemma_differs("absolute-y"@, "edge-right"@, 0);
    reveal_strlit("jne");
    assert("jne"@.len() != "edge-right"@.len());
    reveal_strlit("repeat");
    assert("repeat"@.len() != "edge-right"@.len());
    reveal_strlit("transition");
    lemma_differs("transition"@, "edge-right"@, 0);
    reveal_strlit("color");
    assert("color"@.len() != "edge-right"@.len());
    reveal_strlit("piece");
    assert("piece"@.len() != "edge-right"@.len());
    reveal_strlit("set-state");
    assert("set-state"@.len() != "edge-right"@.len());
    reveal_strlit("if-state");
    assert("if-state"@.len() != "edge-right"@.len());
    reveal_strlit("piece-on");
    assert("piece-on"@.len() != "edge-right"@.len());
    reveal_strlit("color-on");
    assert("color-on"@.len() != "edge-right"@.len());
    reveal_strlit("absolute");
    assert("absolute"@.len() != "edge-right"@.len());
    reveal_strlit("take-move");
    assert("take-move"@.len() != "edge-right"@.len());
    reveal_strlit("take");
    assert("take"@.len() != "edge-right"@.len());
    reveal_strlit("jump");
    assert("jump"@.len() != "edge-right"@.len());
    reveal_strlit("move");
    assert("move"@.len() != "edge-right"@.len());
    reveal_strlit("catch");
    assert("catch"@.len() != "edge-right"@.len());
    reveal_strlit("shift");
    assert("shift"@.len() != "edge-right"@.len());
    reveal_strlit("danger");
    assert("danger"@.len() != "edge-right"@.len());
    reveal_strlit("enemy");
    assert("enemy"@.len() != "edge-right"@.len());
    reveal_strlit("friendly");
    assert("friendly"@.len() != "edge-right"@.len());
    reveal_strlit("peek");
    assert("peek"@.len() != "edge-right"@.len());
    reveal_strlit("anchor");
    assert("anchor"@.len() != "edge-right"@.len());
    reveal_strlit("observe");
    assert("observe"@.len() != "edge-right"@.len());
    reveal_strlit("bound");
    assert("bound"@.len() != "edge-right"@.len());
    reveal_strlit("edge");
    assert("edge"@.len() != "edge-right"@.len());
    reveal_strlit("corner");
    assert("corner"@.len() != "edge-right"@.len());
    reveal_strlit("edge-left");
    assert("edge-left"@.len() != "edge-right"@.len());
}

proof fn lemma_parse_edge_right(q: Seq<char>)
    requires
        super::text::find_from(q, ')', 0) is Some,
    ensures
        super::behavior::parse_behavior("edge-right("@ + q) == super::behavior::BehaviorV::EdgeRight(
            super::behavior::param_delta(written_args(q), 0),
        ),
{
    reveal_strlit("edge-right(");
    reveal_strlit("edge-right");
    let name = "edge-right"@;
    let f = "edge-right("@ + q;
    assert(f =~= name + seq!['('] + q);
    lemma_call_parts(name, q);
    reveal_strlit("end");
    lemma_differs("end"@, f, 1);
    reveal_strlit("while");
    lemma_differs("while"@, f, 0);
    reveal_strlit("do");
    lemma_differs("do"@, f, 0);
    reveal_strlit("not");
    lemma_differs("not"@, f, 0);
    reveal_strlit("true");
    lemma_differs("true"@, f, 0);
    reveal_strlit("false");
    lemma_differs("false"@, f, 0);
    reveal_strlit("check");
    lemma_differs("check"@, f, 0);
    reveal_strlit("transition");
    lemma_differs("transition"@, f, 0);
    reveal_strlit("}");
    lemma_differs("}"@, f, 0);
    reveal_strlit("{");
    lemma_differs("{"@, f, 0);
    assert(no_keyword_prefix(f));
    lemma_command_edge_right(written_args(q));
}

proof fn lemma_command_edge_top(pv: Seq<Seq<char>>)
    ensures
        super::behavior::command_v("edge-top"@, pv) == super::behavior::BehaviorV::EdgeTop(super::behavior::param_delta(pv, 0)),
{
    reveal_strlit("edge-top");
    reveal_strlit("label");
    assert("label"@.len() != "edge-top"@.len());
    reveal_strlit("jmp");
    assert("jmp"@.len() != "edge-top"@.len());
    reveal_strlit("read");
    assert("read"@.len() != "edge-top"@.len());
    reveal_strlit("read-and");
    lemma_differs("read-and"@, "edge-top"@, 0);
    reveal_strlit("read-or");
    assert("read-or"@.len() != "edge-top"@.len());
    reveal_strlit("read-xor");
    lemma_differs("read-xor"@, "edge-top"@, 0);
    reveal_strlit("write");
    assert("write"@.len() != "edge-top"@.len());
    reveal_strlit("read-anchor");
    assert("read-anchor"@.len() != "edge-top"@.len());
    reveal_strlit("write-anchor");
    assert("write-anchor"@.len() != "edge-top"@.len());
    reveal_strlit("absolute-x");
    assert("absolute-x"@.len() != "edge-top"@.len());
    reveal_strlit("absolute-y");
    assert("absolute-y"@.len() != "edge-top"@.len());
    reveal_strlit("jne");
    assert("jne"@.len() != "edge-top"@.len());
    reveal_strlit("repeat");
    assert("repeat"@.len() != "edge-top"@.len());
    reveal_strlit("transition");
    assert("transition"@.len() != "edge-top"@.len());
    reveal_strlit("color");
    assert("color"@.len() != "edge-top"@.len());
    reveal_strlit("piece");
    assert("piece"@.len() != "edge-top"@.len());
    reveal_strlit("set-state");
    assert("set-state"@.len() != "edge-top"@.len());
    reveal_strlit("if-state");
    lemma_differs("if-state"@, "edge-top"@, 0);
    reveal_strlit("piece-on");
    lemma_differs("piece-on"@, "edge-top"@, 0);
    reveal_strlit("color-on");
    lemma_differs("color-on"@, "edge-top"@, 0);
    reveal_strlit("absolute");
    lemma_differs("absolute"@, "edge-top"@, 0);
    reveal_strlit("take-move");
    assert("take-move"@.len() != "edge-top"@.len());
    reveal_strlit("take");
    assert("take"@.len() != "edge-top"@.len());
    reveal_strlit("jump");
    assert("jump"@.len() != "edge-top"@.len());
    reveal_strlit("move");
    assert("move"@.len() != "edge-top"@.len());
    reveal_strlit("catch");
    assert("catch"@.len() != "edge-top"@.len());
    reveal_strlit("shift");
    assert("shift"@.len() != "edge-top"@.len());
    reveal_strlit("danger");
    assert("danger"@.len() != "edge-top"@.len());
    reveal_strlit("enemy");
    assert("enemy"@.len() != "edge-top"@.len());
    reveal_strlit("friendly");
    lemma_differs("friendly"@, "edge-top"@, 0);
    reveal_strlit("peek");
    assert("peek"@.len() != "edge-top"@.len());
    reveal_strlit("anchor");
    assert("anchor"@.len() != "edge-top"@.len());
    reveal_strlit("observe");
    assert("observe"@.len() != "edge-top"@.len());
    reveal_strlit("bound");
    assert("bound"@.len() != "edge-top"@.len());
    reveal_strlit("edge");
    assert("edge"@.len() != "edge-top"@.len());
    reveal_strlit("corner");
    assert("corner"@.len() != "edge-top"@.len());
    reveal_strlit("edge-left");
    assert("edge-left"@.len() != "edge-top"@.len());
    reveal_strlit("edge-right");
    assert("edge-right"@.len() != "edge-top"@.len());
}

proof fn lemma_parse_edge_top(q: Seq<char>)
    requires
        super::text::find_from(q, ')', 0) is Some,
    ensures
        super::behavior::parse_behavior("edge-top("@ + q) == super::behavior::BehaviorV::EdgeTop(
            super::behavior::param_delta(written_args(q), 0),
        ),
{
    reveal_strlit("edge-top(");
    reveal_strlit("edge-top");
    let name = "edge-top"@;
    let f = "edge-top("@ + q;
    assert(f =~= name + seq!['('] + q);
    lemma_call_parts(name, q);
    reveal_strlit("end");
    lemma_differs("end"@, f, 1);
    reveal_strlit("while");
    lemma_differs("while"@, f, 0);
    reveal_strlit("do");
    lemma_differs("do"@, f, 0);
    reveal_strlit("not");
    lemma_differs("not"@, f, 0);
    reveal_strlit("true");
    lemma_differs("true"@, f, 0);
    reveal_strlit("false");
    lemma_differs("false"@, f, 0);
    reveal_strlit("check");
    lemma_differs("check"@, f, 0);
    reveal_strlit("transition");
    lemma_differs("transition"@, f, 0);
    reveal_strlit("}");
    lemma_differs("}"@, f, 0);
    reveal_strlit("{");
    lemma_differs("{"@, f, 0);
    assert(no_keyword_prefix(f));
    lemma_command_edge_top(written_args(q));
}

proof fn lemma_command_edge_bottom(pv: Seq<Seq<char>>)
    ensures
        super::behavior::command_v("edge-bottom"@, pv) == super::behavior::BehaviorV::EdgeBottom(super::behavior::param_delta(pv, 0)),
{
    reveal_strlit("edge-bottom");
    reveal_strlit("label");
    assert("label"@.len() != "edge-bottom"@.len());
    reveal_strlit("jmp");
    assert("jmp"@.len() != "edge-bottom"@.len());
    reveal_strlit("read");
    assert("read"@.len() != "edge-bottom"@.len());
    reveal_strlit("read-and");
    assert("read-and"@.len() != "edge-bottom"@.len());
    reveal_strlit("read-or");
    assert("read-or"@.len() != "edge-bottom"@.len());
    reveal_strlit("read-xor");
    assert("read-xor"@.len() != "edge-bottom"@.len());
    reveal_strlit("write");
    assert("write"@.len() != "edge-bottom"@.len());
    reveal_strlit("read-anchor");
    lemma_differs("read-anchor"@, "edge-bottom"@, 0);
    reveal_strlit("write-anchor");
    assert("write-anchor"@.len() != "edge-bottom"@.len());
    reveal_strlit("absolute-x");
    assert("absolute-x"@.len() != "edge-bottom"@.len());
    reveal_strlit("absolute-y");
    assert("absolute-y"@.len() != "edge-bottom"@.len());
    reveal_strlit("jne");
    assert("jne"@.len() != "edge-bottom"@.len());
    reveal_strlit("repeat");
    assert("repeat"@.len() != "edge-bottom"@.len());
    reveal_strlit("transition");
    assert("transition"@.len() != "edge-bottom"@.len());
    reveal_strlit("color");
    assert("color"@.len() != "edge-bottom"@.len());
    reveal_strlit("piece");
    assert("piece"@.len() != "edge-bottom"@.len());
    reveal_strlit("set-state");
    assert("set-state"@.len() != "edge-bottom"@.len());
    reveal_strlit("if-state");
    assert("if-state"@.len() != "edge-bottom"@.len());
    reveal_strlit("piece-on");
    assert("piece-on"@.len() != "edge-bottom"@.len());
    reveal_strlit("color-on");
    assert("color-on"@.len() != "edge-bottom"@.len());
    reveal_strlit("absolute");
    assert("absolute"@.len() != "edge-bottom"@.len());
    reveal_strlit("take-move");
    assert("take-move"@.len() != "edge-bottom"@.len());
    reveal_strlit("take");
    assert("take"@.len() != "edge-bottom"@.len());
    reveal_strlit("jump");
    assert("jump"@.len() != "edge-bottom"@.len());
    reveal_strlit("move");
    assert("move"@.len() != "edge-bottom"@.len());
    reveal_strlit("catch");
    assert("catch"@.len() != "edge-bottom"@.len());
    reveal_strlit("shift");
    assert("shift"@.len() != "edge-bottom"@.len());
    reveal_strlit("danger");
    assert("danger"@.len() != "edge-bottom"@.len());
    reveal_strlit("enemy");
    assert("enemy"@.len() != "edge-bottom"@.len());
    reveal_strlit("friendly");
    assert("friendly"@.len() != "edge-bottom"@.len());
    reveal_strlit("peek");
    assert("peek"@.len() != "edge-bottom"@.len());
    reveal_strlit("anchor");
    assert("anchor"@.len() != "edge-bottom"@.len());
    reveal_strlit("observe");
    assert("observe"@.len() != "edge-bottom"@.len());
    reveal_strlit("bound");
    assert("bound"@.len() != "edge-bottom"@.len());
    reveal_strlit("edge");
    assert("edge"@.len() != "edge-bottom"@.len());
    reveal_strlit("corner");
    assert("corner"@.len() != "edge-bottom"@.len());
    reveal_strlit("edge-left");
    assert("edge-left"@.len() != "edge-bottom"@.len());
    reveal_strlit("edge-right");
    assert("edge-right"@.len() != "edge-bottom"@.len());
    reveal_strlit("edge-top");
    assert("edge-top"@.len() != "edge-bottom"@.len());
}

proof fn lemma_parse_edge_bottom(q: Seq<char>)
    requires
        super::text::find_from(q, ')', 0) is Some,
    ensures
        super::behavior::parse_behavior("edge-bottom("@ + q) == super::behavior::BehaviorV::EdgeBottom(
            super::behavior::param_delta(written_args(q), 0),
        ),
{
    reveal_strlit("edge-bottom(");
    reveal_strlit("edge-bottom");
    let name = "edge-bottom"@;
    let f = "edge-bottom("@ + q;
    assert(f =~= name + seq!['('] + q);
    lemma_call_parts(name, q);
    reveal_strlit("end");
    lemma_differs("end"@, f, 1);
    reveal_strlit("while");
    lemma_differs("while"@, f, 0);
    reveal_strlit("do");
    lemma_differs("do"@, f, 0);
    reveal_strlit("not");
    lemma_differs("not"@, f, 0);
    reveal_strlit("true");
    lemma_differs("true"@, f, 0);
    reveal_strlit("false");
    lemma_differs("false"@, f, 0);
    reveal_strlit("check");
    lemma_differs("check"@, f, 0);
    reveal_strlit("transition");
    lemma_differs("transition"@, f, 0);
    reveal_strlit("}");
    lemma_differs("}"@, f, 0);
    reveal_strlit("{");
    lemma_differs("{"@, f, 0);
    assert(no_keyword_prefix(f));
    lemma_command_edge_bottom(written_args(q));
}

proof fn lemma_command_corner_top_left(pv: Seq<Seq<char>>)
    ensures
        super::behavior::command_v("corner-top-left"@, pv) == super::behavior::BehaviorV::CornerTopLeft(super::behavior::param_delta(pv, 0)),
{
    reveal_strlit("corner-top-left");
    reveal_strlit("label");
    assert("label"@.len() != "corner-top-left"@.len());
    reveal_strlit("jmp");
    assert("jmp"@.len() != "corner-top-left"@.len());
    reveal_strlit("read");
    assert("read"@.len() != "corner-top-left"@.len());
    reveal_strlit("read-and");
    assert("read-and"@.len() != "corner-top-left"@.len());
    reveal_strlit("read-or");
    assert("read-or"@.len() != "corner-top-left"@.len());
    reveal_strlit("read-xor");
    assert("read-xor"@.len() != "corner-top-left"@.len());
    reveal_strlit("write");
    assert("write"@.len() != "corner-top-left"@.len());
    reveal_strlit("read-anchor");
    assert("read-anchor"@.len() != "corner-top-left"@.len());
    reveal_strlit("write-anchor");
    assert("write-anchor"@.len() != "corner-top-left"@.len());
    reveal_strlit("absolute-x");
    assert("absolute-x"@.len() != "corner-top-left"@.len());
    reveal_strlit("absolute-y");
    assert("absolute-y"@.len() != "corner-top-left"@.len());
    reveal_strlit("jne");
    assert("jne"@.len() != "corner-top-left"@.len());
    reveal_strlit("repeat");
    assert("repeat"@.len() != "corner-top-left"@.len());
    reveal_strlit("transition");
    assert("transition"@.len() != "corner-top-left"@.len());
    reveal_strlit("color");
    assert("color"@.len() != "corner-top-left"@.len());
    reveal_strlit("piece");
    assert("piece"@.len() != "corner-top-left"@.len());
    reveal_strlit("set-state");
    assert("set-state"@.len() != "corner-top-left"@.len());
    reveal_strlit("if-state");
    assert("if-state"@.len() != "corner-top-left"@.len());
    reveal_strlit("piece-on");
    assert("piece-on"@.len() != "corner-top-left"@.len());
    reveal_strlit("color-on");
    assert("color-on"@.len() != "corner-top-left"@.len());
    reveal_strlit("absolute");
    assert("absolute"@.len() != "corner-top-left"@.len());
    reveal_strlit("take-move");
    assert("take-move"@.len() != "corner-top-left"@.len());
    reveal_strlit("take");
    assert("take"@.len() != "corner-top-left"@.len());
    reveal_strlit("jump");
    assert("jump"@.len() != "corner-top-left"@.len());
    reveal_strlit("move");
    assert("move"@.len() != "corner-top-left"@.len());
    reveal_strlit("catch");
    assert("catch"@.len() != "corner-top-left"@.len());
    reveal_strlit("shift");
    assert("shift"@.len() != "corner-top-left"@.len());
    reveal_strlit("danger");
    assert("danger"@.len() != "corner-top-left"@.len());
    reveal_strlit("enemy");
    assert("enemy"@.len() != "corner-top-left"@.len());
    reveal_strlit("friendly");
    assert("friendly"@.len() != "corner-top-left"@.len());
    reveal_strlit("peek");
    assert("peek"@.len() != "corner-top-left"@.len());
    reveal_strlit("anchor");
    assert("anchor"@.len() != "corner-top-left"@.len());
    reveal_strlit("observe");
    assert("observe"@.len() != "corner-top-left"@.len());
    reveal_strlit("bound");
    assert("bound"@.len() != "corner-top-left"@.len());
    reveal_strlit("edge");
    assert("edge"@.len() != "corner-top-left"@.len());
    reveal_strlit("corner");
    assert("corner"@.len() != "corner-top-left"@.len());
    reveal_strlit("edge-left");
    assert("edge-left"@.len() != "corner-top-left"@.len());
    reveal_strlit("edge-right");
    assert("edge-right"@.len() != "corner-top-left"@.len());
    reveal_strlit("edge-top");
    assert("edge-top"@.len() != "corner-top-left"@.len());
    reveal_strlit("edge-bottom");
    assert("edge-bottom"@.len() != "corner-top-left"@.len());
}

proof fn lemma_parse_corner_top_left(q: Seq<char>)
    requires
        super::text::find_from(q, ')', 0) is Some,
    ensures
        super::behavior::parse_behavior("corner-top-left("@ + q) == super::behavior::BehaviorV::CornerTopLeft(
            super::behavior::param_delta(written_args(q), 0),
        ),
{
    reveal_strlit("corner-top-left(");
    reveal_strlit("corner-top-left");
    let name = "corner-top-left"@;
    let f = "corner-top-left("@ + q;
    assert(f =~= name + seq!['('] + q);
    lemma_call_parts(name, q);
    reveal_strlit("end");
    lemma_differs("end"@, f, 0);
    reveal_strlit("while");
    lemma_differs("while"@, f, 0);
    reveal_strlit("do");
    lemma_differs("do"@, f, 0);
    reveal_strlit("not");
    lemma_differs("not"@, f, 0);
    reveal_strlit("true");
    lemma_differs("true"@, f, 0);
    reveal_strlit("false");
    lemma_differs("false"@, f, 0);
    reveal_strlit("check");
    lemma_differs("check"@, f, 1);
    reveal_strlit("transition");
    lemma_differs("transition"@, f, 0);
    reveal_strlit("}");
    lemma_differs("}"@, f, 0);
    reveal_strlit("{");
    lemma_differs("{"@, f, 0);
    assert(no_keyword_prefix(f));
    lemma_command_corner_top_left(written_args(q));
}

proof fn lemma_command_corner_top_right(pv: Seq<Seq<char>>)
    ensures
        super::behavior::command_v("corner-top-right"@, pv) == super::behavior::BehaviorV::CornerTopRight(super::behavior::param_delta(pv, 0)),
{
    reveal_strlit("corner-top-right");
    reveal_strlit("label");
    assert("label"@.len() != "corner-top-right"@.len());
    reveal_strlit("jmp");
    assert("jmp"@.len() != "corner-top-right"@.len());
    reveal_strlit("read");
    assert("read"@.len() != "corner-top-right"@.len());
    reveal_strlit("read-and");
    assert("read-and"@.len() != "corner-top-right"@.len());
    reveal_strlit("read-or");
    assert("read-or"@.len() != "corner-top-right"@.len());
    reveal_strlit("read-xor");
    assert("read-xor"@.len() != "corner-top-right"@.len());
    reveal_strlit("write");
    assert("write"@.len() != "corner-top-right"@.len());
    reveal_strlit("read-anchor");
    assert("read-anchor"@.len() != "corner-top-right"@.len());
    reveal_strlit("write-anchor");
    assert("write-anchor"@.len() != "corner-top-right"@.len());
    reveal_strlit("absolute-x");
    assert("absolute-x"@.len() != "corner-top-right"@.len());
    reveal_strlit("absolute-y");
    assert("absolute-y"@.len() != "corner-top-right"@.len());
    reveal_strlit("jne");
    assert("jne"@.len() != "corner-top-right"@.len());
    reveal_strlit("repeat");
    assert("repeat"@.len() != "corner-top-right"@.len());
    reveal_strlit("transition");
    assert("transition"@.len() != "corner-top-right"@.len());
    reveal_strlit("color");
    assert("color"@.len() != "corner-top-right"@.len());
    reveal_strlit("piece");
    assert("piece"@.len() != "corner-top-right"@.len());
    reveal_strlit("set-state");
    assert("set-state"@.len() != "corner-top-right"@.len());
    reveal_strlit("if-state");
    assert("if-state"@.len() != "corner-top-right"@.len());
    reveal_strlit("piece-on");
    assert("piece-on"@.len() != "corner-top-right"@.len());
    reveal_strlit("color-on");
    assert("color-on"@.len() != "corner-top-right"@.len());
    reveal_strlit("absolute");
    assert("absolute"@.len() != "corner-top-right"@.len());
    reveal_strlit("take-move");
    assert("take-move"@.len() != "corner-top-right"@.len());
    reveal_strlit("take");
    assert("take"@.len() != "corner-top-right"@.len());
    reveal_strlit("jump");
    assert("jump"@.len() != "corner-top-right"@.len());
    reveal_strlit("move");
    assert("move"@.len() != "corner-top-right"@.len());
    reveal_strlit("catch");
    assert("catch"@.len() != "corner-top-right"@.len());
    reveal_strlit("shift");
    assert("shift"@.len() != "corner-top-right"@.len());
    reveal_strlit("danger");
    assert("danger"@.len() != "corner-top-right"@.len());
    reveal_strlit("enemy");
    assert("enemy"@.len() != "corner-top-right"@.len());
    reveal_strlit("friendly");
    assert("friendly"@.len() != "corner-top-right"@.len());
    reveal_strlit("peek");
    assert("peek"@.len() != "corner-top-right"@.len());
    reveal_strlit("anchor");
    assert("anchor"@.len() != "corner-top-right"@.len());
    reveal_strlit("observe");
    assert("observe"@.len() != "corner-top-right"@.len());
    reveal_strlit("bound");
    assert("bound"@.len() != "corner-top-right"@.len());
    reveal_strlit("edge");
    assert("edge"@.len() != "corner-top-right"@.len());
    reveal_strlit("corner");
    assert("corner"@.len() != "corner-top-right"@.len());
    reveal_strlit("edge-left");
    assert("edge-left"@.len() != "corner-top-right"@.len());
    reveal_strlit("edge-right");
    assert("edge-right"@.len() != "corner-top-right"@.len());
    reveal_strlit("edge-top");
    assert("edge-top"@.len() != "corner-top-right"@.len());
    reveal_strlit("edge-bottom");
    assert("edge-bottom"@.len() != "corner-top-right"@.len());
    reveal_strlit("corner-top-left");
    assert("corner-top-left"@.len() != "corner-top-right"@.len());
}

proof fn lemma_parse_corner_top_right(q: Seq<char>)
    requires
        super::text::find_from(q, ')', 0) is Some,
    ensures
        super::behavior::parse_behavior("corner-top-right("@ + q) == super::behavior::BehaviorV::CornerTopRight(
            super::behavior::param_delta(written_args(q), 0),
        ),
{
    reveal_strlit("corner-top-right(");
    reveal_strlit("corner-top-right");
    let name = "corner-top-right"@;
    let f = "corner-top-right("@ + q;
    assert(f =~= name + seq!['('] + q);
    lemma_call_parts(name, q);
    reveal_strlit("end");
    lemma_differs("end"@, f, 0);
    reveal_strlit("while");
    lemma_differs("while"@, f, 0);
    reveal_strlit("do");
    lemma_differs("do"@, f, 0);
    reveal_strlit("not");
    lemma_differs("not"@, f, 0);
    reveal_strlit("true");
    lemma_differs("true"@, f, 0);
    reveal_strlit("false");
    lemma_differs("false"@, f, 0);
    reveal_strlit("check");
    lemma_differs("check"@, f, 1);
    reveal_strlit("transition");
    lemma_differs("transition"@, f, 0);
    reveal_strlit("}");
    lemma_differs("}"@, f, 0);
    reveal_strlit("{");
    lemma_differs("{"@, f, 0);
    assert(no_keyword_prefix(f));
    lemma_command_corner_top_right(written_args(q));
}

proof fn lemma_command_corner_bottom_left(pv: Seq<Seq<char>>)
    ensures
        super::behavior::command_v("corner-bottom-left"@, pv) == super::behavior::BehaviorV::CornerBottomLeft(super::behavior::param_delta(pv, 0)),
{
    reveal_strlit("corner-bottom-left");
    reveal_strlit("label");
    assert("label"@.len() != "corner-bottom-left"@.len());
    reveal_strlit("jmp");
    assert("jmp"@.len() != "corner-bottom-left"@.len());
    reveal_strlit("read");
    assert("read"@.len() != "corner-bottom-left"@.len());
    reveal_strlit("read-and");
    assert("read-and"@.len() != "corner-bottom-left"@.len());
    reveal_strlit("read-or");
    assert("read-or"@.len() != "corner-bottom-left"@.len());
    reveal_strlit("read-xor");
    assert("read-xor"@.len() != "corner-bottom-left"@.len());
    reveal_strlit("write");
    assert("write"@.len() != "corner-bottom-left"@.len());
    reveal_strlit("read-anchor");
    assert("read-anchor"@.len() != "corner-bottom-left"@.len());
    reveal_strlit("write-anchor");
    assert("write-anchor"@.len() != "corner-bottom-left"@.len());
    reveal_strlit("absolute-x");
    assert("absolute-x"@.len() != "corner-bottom-left"@.len());
    reveal_strlit("absolute-y");
    assert("absolute-y"@.len() != "corner-bottom-left"@.len());
    reveal_strlit("jne");
    assert("jne"@.len() != "corner-bottom-left"@.len());
    reveal_strlit("repeat");
    assert("repeat"@.len() != "corner-bottom-left"@.len());
    reveal_strlit("transition");
    assert("transition"@.len() != "corner-bottom-left"@.len());
    reveal_strlit("color");
    assert("color"@.len() != "corner-bottom-left"@.len());
    reveal_strlit("piece");
    assert("piece"@.len() != "corner-bottom-left"@.len());
    reveal_strlit("set-state");
    assert("set-state"@.len() != "corner-bottom-left"@.len());
    reveal_strlit("if-state");
    assert("if-state"@.len() != "corner-bottom-left"@.len());
    reveal_strlit("piece-on");
    assert("piece-on"@.len() != "corner-bottom-left"@.len());
    reveal_strlit("color-on");
    assert("color-on"@.len() != "corner-bottom-left"@.len());
    reveal_strlit("absolute");
    assert("absolute"@.len() != "corner-bottom-left"@.len());
    reveal_strlit("take-move");
    assert("take-move"@.len() != "corner-bottom-left"@.len());
    reveal_strlit("take");
    assert("take"@.len() != "corner-bottom-left"@.len());
    reveal_strlit("jump");
    assert("jump"@.len() != "corner-bottom-left"@.len());
    reveal_strlit("move");
    assert("move"@.len() != "corner-bottom-left"@.len());
    reveal_strlit("catch");
    assert("catch"@.len() != "corner-bottom-left"@.len());
    reveal_strlit("shift");
    assert("shift"@.len() != "corner-bottom-left"@.len());
    reveal_strlit("danger");
    assert("danger"@.len() != "corner-bottom-left"@.len());
    reveal_strlit("enemy");
    assert("enemy"@.len() != "corner-bottom-left"@.len());
    reveal_strlit("friendly");
    assert("friendly"@.len() != "corner-bottom-left"@.len());
    reveal_strlit("peek");
    assert("peek"@.len() != "corner-bottom-left"@.len());
    reveal_strlit("anchor");
    assert("anchor"@.len() != "corner-bottom-left"@.len());
    reveal_strlit("observe");
    assert("observe"@.len() != "corner-bottom-left"@.len());
    reveal_strlit("bound");
    assert("bound"@.len() != "corner-bottom-left"@.len());
    reveal_strlit("edge");
    assert("edge"@.len() != "corner-bottom-left"@.len());
    reveal_strlit("corner");
    assert("corner"@.len() != "corner-bottom-left"@.len());
    reveal_strlit("edge-left");
    assert("edge-left"@.len() != "corner-bottom-left"@.len());
    reveal_strlit("edge-right");
    assert("edge-right"@.len() != "corner-bottom-left"@.len());
    reveal_strlit("edge-top");
    assert("edge-top"@.len() != "corner-bottom-left"@.len());
    reveal_strlit("edge-bottom");
    assert("edge-bottom"@.len() != "corner-bottom-left"@.len());
    reveal_strlit("corner-top-left");
    assert("corner-top-left"@.len() != "corner-bottom-left"@.len());
    reveal_strlit("corner-top-right");
    assert("corner-top-right"@.len() != "corner-bottom-left"@.len());
}

proof fn lemma_parse_corner_bottom_left(q: Seq<char>)
    requires
        super::text::find_from(q, ')', 0) is Some,
    ensures
        super::behavior::parse_behavior("corner-bottom-left("@ + q) == super::behavior::BehaviorV::CornerBottomLeft(
            super::behavior::param_delta(written_args(q), 0),
        ),
{
    reveal_strlit("corner-bottom-left(");
    reveal_strlit("corner-bottom-left");
    let name = "corner-bottom-left"@;
    let f = "corner-bottom-left("@ + q;
    assert(f =~= name + seq!['('] + q);
    lemma_call_parts(name, q);
    reveal_strlit("end");
    lemma_differs("end"@, f, 0);
    reveal_strlit("while");
    lemma_differs("while"@, f, 0);
    reveal_strlit("do");
    lemma_differs("do"@, f, 0);
    reveal_strlit("not");
    lemma_differs("not"@, f, 0);
    reveal_strlit("true");
    lemma_differs("true"@, f, 0);
    reveal_strlit("false");
    lemma_differs("false"@, f, 0);
    reveal_strlit("check");
    lemma_differs("check"@, f, 1);
    reveal_strlit("transition");
    lemma_differs("transition"@, f, 0);
    reveal_strlit("}");
    lemma_differs("}"@, f, 0);
    reveal_strlit("{");
    lemma_differs("{"@, f, 0);
    assert(no_keyword_prefix(f));
    lemma_command_corner_bottom_left(written_args(q));
}

proof fn lemma_command_corner_bottom_right(pv: Seq<Seq<char>>)
    ensures
        super::behavior::command_v("corner-bottom-right"@, pv) == super::behavior::BehaviorV::CornerBottomRight(super::behavior::param_delta(pv, 0)),
{
    reveal_strlit("corner-bottom-right");
    reveal_strlit("label");
    assert("label"@.len() != "corner-bottom-right"@.len());
    reveal_strlit("jmp");
    assert("jmp"@.len() != "corner-bottom-right"@.len());
    reveal_strlit("read");
    assert("read"@.len() != "corner-bottom-right"@.len());
    reveal_strlit("read-and");
    assert("read-and"@.len() != "corner-bottom-right"@.len());
    reveal_strlit("read-or");
    assert("read-or"@.len() != "corner-bottom-right"@.len());
    reveal_strlit("read-xor");
    assert("read-xor"@.len() != "corner-bottom-right"@.len());
    reveal_strlit("write");
    assert("write"@.len() != "corner-bottom-right"@.len());
    reveal_strlit("read-anchor");
    assert("read-anchor"@.len() != "corner-bottom-right"@.len());
    reveal_strlit("write-anchor");
    assert("write-anchor"@.len() != "corner-bottom-right"@.len());
    reveal_strlit("absolute-x");
    assert("absolute-x"@.len() != "corner-bottom-right"@.len());
    reveal_strlit("absolute-y");
    assert("absolute-y"@.len() != "corner-bottom-right"@.len());
    reveal_strlit("jne");
    assert("jne"@.len() != "corner-bottom-right"@.len());
    reveal_strlit("repeat");
    assert("repeat"@.len() != "corner-bottom-right"@.len());
    reveal_strlit("transition");
    assert("transition"@.len() != "corner-bottom-right"@.len());
    reveal_strlit("color");
    assert("color"@.len() != "corner-bottom-right"@.len());
    reveal_strlit("piece");
    assert("piece"@.len() != "corner-bottom-right"@.len());
    reveal_strlit("set-state");
    assert("set-state"@.len() != "corner-bottom-right"@.len());
    reveal_strlit("if-state");
    assert("if-state"@.len() != "corner-bottom-right"@.len());
    reveal_strlit("piece-on");
    assert("piece-on"@.len() != "corner-bottom-right"@.len());
    reveal_strlit("color-on");
    assert("color-on"@.len() != "corner-bottom-right"@.len());
    reveal_strlit("absolute");
    assert("absolute"@.len() != "corner-bottom-right"@.len());
    reveal_strlit("take-move");
    assert("take-move"@.len() != "corner-bottom-right"@.len());
    reveal_strlit("take");
    assert("take"@.len() != "corner-bottom-right"@.len());
    reveal_strlit("jump");
    assert("jump"@.len() != "corner-bottom-right"@.len());
    reveal_strlit("move");
    assert("move"@.len() != "corner-bottom-right"@.len());
    reveal_strlit("catch");
    assert("catch"@.len() != "corner-bottom-right"@.len());
    reveal_strlit("shift");
    assert("shift"@.len() != "corner-bottom-right"@.len());
    reveal_strlit("danger");
    assert("danger"@.len() != "corner-bottom-right"@.len());
    reveal_strlit("enemy");
    assert("enemy"@.len() != "corner-bottom-right"@.len());
    reveal_strlit("friendly");
    assert("friendly"@.len() != "corner-bottom-right"@.len());
    reveal_strlit("peek");
    assert("peek"@.len() != "corner-bottom-right"@.len());
    reveal_strlit("anchor");
    assert("anchor"@.len() != "corner-bottom-right"@.len());
    reveal_strlit("observe");
    assert("observe"@.len() != "corner-bottom-right"@.len());
    reveal_strlit("bound");
    assert("bound"@.len() != "corner-bottom-right"@.len());
    reveal_strlit("edge");
    assert("edge"@.len() != "corner-bottom-right"@.len());
    reveal_strlit("corner");
    assert("corner"@.len() != "corner-bottom-right"@.len());
    reveal_strlit("edge-left");
    assert("edge-left"@.len() != "corner-bottom-right"@.len());
    reveal_strlit("edge-right");
    assert("edge-right"@.len() != "corner-bottom-right"@.len());
    reveal_strlit("edge-top");
    assert("edge-top"@.len() != "corner-bottom-right"@.len());
    reveal_strlit("edge-bottom");
    assert("edge-bottom"@.len() != "corner-bottom-right"@.len());
    reveal_strlit("corner-top-left");
    assert("corner-top-left"@.len() != "corner-bottom-right"@.len());
    reveal_strlit("corner-top-right");
    assert("corner-top-right"@.len() != "corner-bottom-right"@.len());
    reveal_strlit("corner-bottom-left");
    assert("corner-bottom-left"@.len() != "corner-bottom-right"@.len());
}

proof fn lemma_parse_corner_bottom_right(q: Seq<char>)
    requires
        super::text::find_from(q, ')', 0) is Some,
    ensures
        super::behavior::parse_behavior("corner-bottom-right("@ + q) == super::behavior::BehaviorV::CornerBottomRight(
            super::behavior::param_delta(written_args(q), 0),
        ),
{
    reveal_strlit("corner-bottom-right(");
    reveal_strlit("corner-bottom-right");
    let name = "corner-bottom-right"@;
    let f = "corner-bottom-right("@ + q;
    assert(f =~= name + seq!['('] + q);
    lemma_call_parts(name, q);
    reveal_strlit("end");
    lemma_differs("end"@, f, 0);
    reveal_strlit("while");
    lemma_differs("while"@, f, 0);
    reveal_strlit("do");
    lemma_differs("do"@, f, 0);
    reveal_strlit("not");
    lemma_differs("not"@, f, 0);
    reveal_strlit("true");
    lemma_differs("true"@, f, 0);
    reveal_strlit("false");
    lemma_differs("false"@, f, 0);
    reveal_strlit("check");
    lemma_differs("check"@, f, 1);
    reveal_strlit("transition");
    lemma_differs("transition"@, f, 0);
    reveal_strlit("}");
    lemma_differs("}"@, f, 0);
    reveal_strlit("{");
    lemma_differs("{"@, f, 0);
    assert(no_keyword_prefix(f));
    lemma_command_corner_bottom_right(written_args(q));
}

proof fn lemma_command_label(pv: Seq<Seq<char>>)
    ensures
        super::behavior::command_v("label"@, pv) == super::behavior::BehaviorV::Label(super::behavior::param_u8(pv, 0)),
{
    reveal_strlit("label");
}

proof fn lemma_parse_label(q: Seq<char>)
    requires
        super::text::find_from(q, ')', 0) is Some,
    ensures
        super::behavior::parse_behavior("label("@ + q) == super::behavior::BehaviorV::Label(super::behavior::param_u8(written_args(q), 0)),
{
    reveal_strlit("label(");
    reveal_strlit("label");
    let name = "label"@;
    let f = "label("@ + q;
    assert(f =~= name + seq!['('] + q);
    lemma_call_parts(name, q);
    reveal_strlit("end");
    lemma_differs("end"@, f, 0);
    reveal_strlit("while");
    lemma_differs("while"@, f, 0);
    reveal_strlit("do");
    lemma_differs("do"@, f, 0);
    reveal_strlit("not");
    lemma_differs("not"@, f, 0);
    reveal_strlit("true");
    lemma_differs("true"@, f, 0);
    reveal_strlit("false");
    lemma_differs("false"@, f, 0);
    reveal_strlit("check");
    lemma_differs("check"@, f, 0);
    reveal_strlit("transition");
    lemma_differs("transition"@, f, 0);
    reveal_strlit("}");
    lemma_differs("}"@, f, 0);
    reveal_strlit("{");
    lemma_differs("{"@, f, 0);
    assert(no_keyword_prefix(f));
    lemma_command_label(written_args(q));
}

proof fn lemma_command_jmp(pv: Seq<Seq<char>>)
    ensures
        super::behavior::command_v("jmp"@, pv) == super::behavior::BehaviorV::Jmp(super::behavior::param_u8(pv, 0)),
{
    reveal_strlit("jmp");
    reveal_strlit("label");
    assert("label"@.len() != "jmp"@.len());
}

proof fn lemma_parse_jmp(q: Seq<char>)
    requires
        super::text::find_from(q, ')', 0) is Some,
    ensures
        super::behavior::parse_behavior("jmp("@ + q) == super::behavior::BehaviorV::Jmp(super::behavior::param_u8(written_args(q), 0)),
{
    reveal_strlit("jmp(");
    reveal_strlit("jmp");
    let name = "jmp"@;
    let f = "jmp("@ + q;
    assert(f =~= name + seq!['('] + q);
    lemma_call_parts(name, q);
    reveal_strlit("end");
    lemma_differs("end"@, f, 0);
    reveal_strlit("while");
    lemma_differs("while"@, f, 0);
    reveal_strlit("do");
    lemma_differs("do"@, f, 0);
    reveal_strlit("not");
    lemma_differs("not"@, f, 0);
    reveal_strlit("true");
    lemma_differs("true"@, f, 0);
    reveal_strlit("false");
    lemma_differs("false"@, f, 0);
    reveal_strlit("check");
    lemma_differs("check"@, f, 0);
    reveal_strlit("transition");
    lemma_differs("transition"@, f, 0);
    reveal_strlit("}");
    lemma_differs("}"@, f, 0);
    reveal_strlit("{");
    lemma_differs("{"@, f, 0);
    assert(no_keyword_prefix(f));
    lemma_command_jmp(written_args(q));
}

proof fn lemma_command_read(pv: Seq<Seq<char>>)
    ensures
        super::behavior::command_v("read"@, pv) == super::behavior::BehaviorV::Read(super::behavior::param_u8(pv, 0)),
{
    reveal_strlit("read");
    reveal_strlit("label");
    assert("label"@.len() != "read"@.len());
    reveal_strlit("jmp");
    assert("jmp"@.len() != "read"@.len());
}

proof fn lemma_parse_read(q: Seq<char>)
    requires
        super::text::find_from(q, ')', 0) is Some,
    ensures
        super::behavior::parse_behavior("read("@ + q) == super::behavior::BehaviorV::Read(super::behavior::param_u8(written_args(q), 0)),
{
    reveal_strlit("read(");
    reveal_strlit("read");
    let name = "read"@;
    let f = "read("@ + q;
    assert(f =~= name + seq!['('] + q);
    lemma_call_parts(name, q);
    reveal_strlit("end");
    lemma_differs("end"@, f, 0);
    reveal_strlit("while");
    lemma_differs("while"@, f, 0);
    reveal_strlit("do");
    lemma_differs("do"@, f, 0);
    reveal_strlit("not");
    lemma_differs("not"@, f, 0);
    reveal_strlit("true");
    lemma_differs("true"@, f, 0);
    reveal_strlit("false");
    lemma_differs("false"@, f, 0);
    reveal_strlit("check");
    lemma_differs("check"@, f, 0);
    reveal_strlit("transition");
    lemma_differs("transition"@, f, 0);
    reveal_strlit("}");
    lemma_differs("}"@, f, 0);
    reveal_strlit("{");
    lemma_differs("{"@, f, 0);
    assert(no_keyword_prefix(f));
    lemma_command_read(written_args(q));
}

proof fn lemma_command_read_and(pv: Seq<Seq<char>>)
    ensures
        super::behavior::command_v("read-and"@, pv) == super::behavior::BehaviorV::ReadAnd(super::behavior::param_u8(pv, 0)),
{
    reveal_strlit("read-and");
    reveal_strlit("label");
    assert("label"@.len() != "read-and"@.len());
    reveal_strlit("jmp");
    assert("jmp"@.len() != "read-and"@.len());
    reveal_strlit("read");
    assert("read"@.len() != "read-and"@.len());
}

proof fn lemma_parse_read_and(q: Seq<char>)
    requires
        super::text::find_from(q, ')', 0) is Some,
    ensures
        super::behavior::parse_behavior("read-and("@ + q) == super::behavior::BehaviorV::ReadAnd(super::behavior::param_u8(written_args(q), 0)),
{
    reveal_strlit("read-and(");
    reveal_strlit("read-and");
    let name = "read-and"@;
    let f = "read-and("@ + q;
    assert(f =~= name + seq!['('] + q);
    lemma_call_parts(name, q);
    reveal_strlit("end");
    lemma_differs("end"@, f, 0);
    reveal_strlit("while");
    lemma_differs("while"@, f, 0);
    reveal_strlit("do");
    lemma_differs("do"@, f, 0);
    reveal_strlit("not");
    lemma_differs("not"@, f, 0);
    reveal_strlit("true");
    lemma_differs("true"@, f, 0);
    reveal_strlit("false");
    lemma_differs("false"@, f, 0);
    reveal_strlit("check");
    lemma_differs("check"@, f, 0);
    reveal_strlit("transition");
    lemma_differs("transition"@, f, 0);
    reveal_strlit("}");
    lemma_differs("}"@, f, 0);
    reveal_strlit("{");
    lemma_differs("{"@, f, 0);
    assert(no_keyword_prefix(f));
    lemma_command_read_and(written_args(q));
}

proof fn lemma_command_read_or(pv: Seq<Seq<char>>)
    ensures
        super::behavior::command_v("read-or"@, pv) == super::behavior::BehaviorV::ReadOr(super::behavior::param_u8(pv, 0)),
{
    reveal_strlit("read-or");
    reveal_strlit("label");
    assert("label"@.len() != "read-or"@.len());
    reveal_strlit("jmp");
    assert("jmp"@.len() != "read-or"@.len());
    reveal_strlit("read");
    assert("read"@.len() != "read-or"@.len());
    reveal_strlit("read-and");
    assert("read-and"@.len() != "read-or"@.len());
}

proof fn lemma_parse_read_or(q: Seq<char>)
    requires
        super::text::find_from(q, ')', 0) is Some,
    ensures
        super::behavior::parse_behavior("read-or("@ + q) == super::behavior::BehaviorV::ReadOr(super::behavior::param_u8(written_args(q), 0)),
{
    reveal_strlit("read-or(");
    reveal_strlit("read-or");
    let name = "read-or"@;
    let f = "read-or("@ + q;
    assert(f =~= name + seq!['('] + q);
    lemma_call_parts(name, q);
    reveal_strlit("end");
    lemma_differs("end"@, f, 0);
    reveal_strlit("while");
    lemma_differs("while"@, f, 0);
    reveal_strlit("do");
    lemma_differs("do"@, f, 0);
    reveal_strlit("not");
    lemma_differs("not"@, f, 0);
    reveal_strlit("true");
    lemma_differs("true"@, f, 0);
    reveal_strlit("false");
    lemma_differs("false"@, f, 0);
    reveal_strlit("check");
    lemma_differs("check"@, f, 0);
    reveal_strlit("transition");
    lemma_differs("transition"@, f, 0);
    reveal_strlit("}");
    lemma_differs("}"@, f, 0);
    reveal_strlit("{");
    lemma_differs("{"@, f, 0);
    assert(no_keyword_prefix(f));
    lemma_command_read_or(written_args(q));
}

proof fn lemma_command_read_xor(pv: Seq<Seq<char>>)
    ensures
        super::behavior::command_v("read-xor"@, pv) == super::behavior::BehaviorV::ReadXor(super::behavior::param_u8(pv, 0)),
{
    reveal_strlit("read-xor");
    reveal_strlit("label");
    assert("label"@.len() != "read-xor"@.len());
    reveal_strlit("jmp");
    assert("jmp"@.len() != "read-xor"@.len());
    reveal_strlit("read");
    assert("read"@.len() != "read-xor"@.len());
    reveal_strlit("read-and");
    lemma_differs("read-and"@, "read-xor"@, 5);
    reveal_strlit("read-or");
    assert("read-or"@.len() != "read-xor"@.len());
}

proof fn lemma_parse_read_xor(q: Seq<char>)
    requires
        super::text::find_from(q, ')', 0) is Some,
    ensures
        super::behavior::parse_behavior("read-xor("@ + q) == super::behavior::BehaviorV::ReadXor(super::behavior::param_u8(written_args(q), 0)),
{
    reveal_strlit("read-xor(");
    reveal_strlit("read-xor");
    let name = "read-xor"@;
    let f = "read-xor("@ + q;
    assert(f =~= name + seq!['('] + q);
    lemma_call_parts(name, q);
    reveal_strlit("end");
    lemma_differs("end"@, f, 0);
    reveal_strlit("while");
    lemma_differs("while"@, f, 0);
    reveal_strlit("do");
    lemma_differs("do"@, f, 0);
    reveal_strlit("not");
    lemma_differs("not"@, f, 0);
    reveal_strlit("true");
    lemma_differs("true"@, f, 0);
    reveal_strlit("false");
    lemma_differs("false"@, f, 0);
    reveal_strlit("check");
    lemma_differs("check"@, f, 0);
    reveal_strlit("transition");
    lemma_differs("transition"@, f, 0);
    reveal_strlit("}");
    lemma_differs("}"@, f, 0);
    reveal_strlit("{");
    lemma_differs("{"@, f, 0);
    assert(no_keyword_prefix(f));
    lemma_command_read_xor(written_args(q));
}

proof fn lemma_command_write(pv: Seq<Seq<char>>)
    ensures
        super::behavior::command_v("write"@, pv) == super::behavior::BehaviorV::Write(super::behavior::param_u8(pv, 0)),
{
    reveal_strlit("write");
    reveal_strlit("label");
    lemma_differs("label"@, "write"@, 0);
    reveal_strlit("jmp");
    assert("jmp"@.len() != "write"@.len());
    reveal_strlit("read");
    assert("read"@.len() != "write"@.len());
    reveal_strlit("read-and");
    assert("read-and"@.len() != "write"@.len());
    reveal_strlit("read-or");
    assert("read-or"@.len() != "write"@.len());
    reveal_strlit("read-xor");
    assert("read-xor"@.len() != "write"@.len());
}

proof fn lemma_parse_write(q: Seq<char>)
    requires
        super::text::find_from(q, ')', 0) is Some,
    ensures
        super::behavior::parse_behavior("write("@ + q) == super::behavior::BehaviorV::Write(super::behavior::param_u8(written_args(q), 0)),
{
    reveal_strlit("write(");
    reveal_strlit("write");
    let name = "write"@;
    let f = "write("@ + q;
    assert(f =~= name + seq!['('] + q);
    lemma_call_parts(name, q);
    reveal_strlit("end");
    lemma_differs("end"@, f, 0);
    reveal_strlit("while");
    lemma_differs("while"@, f, 1);
    reveal_strlit("do");
    lemma_differs("do"@, f, 0);
    reveal_strlit("not");
    lemma_differs("not"@, f, 0);
    reveal_strlit("true");
    lemma_differs("true"@, f, 0);
    reveal_strlit("false");
    lemma_differs("false"@, f, 0);
    reveal_strlit("check");
    lemma_differs("check"@, f, 0);
    reveal_strlit("transition");
    lemma_differs("transition"@, f, 0);
    reveal_strlit("}");
    lemma_differs("}"@, f, 0);
    reveal_strlit("{");
    lemma_differs("{"@, f, 0);
    assert(no_keyword_prefix(f));
    lemma_command_write(written_args(q));
}

proof fn lemma_command_read_anchor(pv: Seq<Seq<char>>)
    ensures
        super::behavior::command_v("read-anchor"@, pv) == super::behavior::BehaviorV::ReadAnchor(super::behavior::param_u8(pv, 0)),
{
    reveal_strlit("read-anchor");
    reveal_strlit("label");
    assert("label"@.len() != "read-anchor"@.len());
    reveal_strlit("jmp");
    assert("jmp"@.len() != "read-anchor"@.len());
    reveal_strlit("read");
    assert("read"@.len() != "read-anchor"@.len());
    reveal_strlit("read-and");
    assert("read-and"@.len() != "read-anchor"@.len());
    reveal_strlit("read-or");
    assert("read-or"@.len() != "read-anchor"@.len());
    reveal_strlit("read-xor");
    assert("read-xor"@.len() != "read-anchor"@.len());
    reveal_strlit("write");
    assert("write"@.len() != "read-anchor"@.len());
}

proof fn lemma_parse_read_anchor(q: Seq<char>)
    requires
        super::text::find_from(q, ')', 0) is Some,
    ensures
        super::behavior::parse_behavior("read-anchor("@ + q) == super::behavior::BehaviorV::ReadAnchor(super::behavior::param_u8(written_args(q), 0)),
{
    reveal_strlit("read-anchor(");
    reveal_strlit("read-anchor");
    let name = "read-anchor"@;
    let f = "read-anchor("@ + q;
    assert(f =~= name + seq!['('] + q);
    lemma_call_parts(name, q);
    reveal_strlit("end");
    lemma_differs("end"@, f, 0);
    reveal_strlit("while");
    lemma_differs("while"@, f, 0);
    reveal_strlit("do");
    lemma_differs("do"@, f, 0);
    reveal_strlit("not");
    lemma_differs("not"@, f, 0);
    reveal_strlit("true");
    lemma_differs("true"@, f, 0);
    reveal_strlit("false");
    lemma_differs("false"@, f, 0);
    reveal_strlit("check");
    lemma_differs("check"@, f, 0);
    reveal_strlit("transition");
    lemma_differs("transition"@, f, 0);
    reveal_strlit("}");
    lemma_differs("}"@, f, 0);
    reveal_strlit("{");
    lemma_differs("{"@, f, 0);
    assert(no_keyword_prefix(f));
    lemma_command_read_anchor(written_args(q));
}

proof fn lemma_command_write_anchor(pv: Seq<Seq<char>>)
    ensures
        super::behavior::command_v("write-anchor"@, pv) == super::behavior::BehaviorV::WriteAnchor(super::behavior::param_u8(pv, 0)),
{
    reveal_strlit("write-anchor");
    reveal_strlit("label");
    assert("label"@.len() != "write-anchor"@.len());
    reveal_strlit("jmp");
    assert("jmp"@.len() != "write-anchor"@.len());
    reveal_strlit("read");
    assert("read"@.len() != "write-anchor"@.len());
    reveal_strlit("read-and");
    assert("read-and"@.len() != "write-anchor"@.len());
    reveal_strlit("read-or");
    assert("read-or"@.len() != "write-anchor"@.len());
    reveal_strlit("read-xor");
    assert("read-xor"@.len() != "write-anchor"@.len());
    reveal_strlit("write");
    assert("write"@.len() != "write-anchor"@.len());
    reveal_strlit("read-anchor");
    assert("read-anchor"@.len() != "write-anchor"@.len());
}

proof fn lemma_parse_write_anchor(q: Seq<char>)
    requires
        super::text::find_from(q, ')', 0) is Some,
    ensures
        super::behavior::parse_behavior("write-anchor("@ + q) == super::behavior::BehaviorV::WriteAnchor(super::behavior::param_u8(written_args(q), 0)),
{
    reveal_strlit("write-anchor(");
    reveal_strlit("write-anchor");
    let name = "write-anchor"@;
    let f = "write-anchor("@ + q;
    assert(f =~= name + seq!['('] + q);
    lemma_call_parts(name, q);
    reveal_strlit("end");
    lemma_differs("end"@, f, 0);
    reveal_strlit("while");
    lemma_differs("while"@, f, 1);
    reveal_strlit("do");
    lemma_differs("do"@, f, 0);
    reveal_strlit("not");
    lemma_differs("not"@, f, 0);
    reveal_strlit("true");
    lemma_differs("true"@, f, 0);
    reveal_strlit("false");
    lemma_differs("false"@, f, 0);
    reveal_strlit("check");
    lemma_differs("check"@, f, 0);
    reveal_strlit("transition");
    lemma_differs("transition"@, f, 0);
    reveal_strlit("}");
    lemma_differs("}"@, f, 0);
    reveal_strlit("{");
    lemma_differs("{"@, f, 0);
    assert(no_keyword_prefix(f));
    lemma_command_write_anchor(written_args(q));
}

proof fn lemma_command_absolute_x(pv: Seq<Seq<char>>)
    ensures
        super::behavior::command_v("absolute-x"@, pv) == super::behavior::BehaviorV::AbsoulteX(super::behavior::param_u8(pv, 0)),
{
    reveal_strlit("absolute-x");
    reveal_strlit("label");
    assert("label"@.len() != "absolute-x"@.len());
    reveal_strlit("jmp");
    assert("jmp"@.len() != "absolute-x"@.len());
    reveal_strlit("read");
    assert("read"@.len() != "absolute-x"@.len());
    reveal_strlit("read-and");
    assert("read-and"@.len() != "absolute-x"@.len());
    reveal_strlit("read-or");
    assert("read-or"@.len() != "absolute-x"@.len());
    reveal_strlit("read-xor");
    assert("read-xor"@.len() != "absolute-x"@.len());
    reveal_strlit("write");
    assert("write"@.len() != "absolute-x"@.len());
    reveal_strlit("read-anchor");
    assert("read-anchor"@.len() != "absolute-x"@.len());
    reveal_strlit("write-anchor");
    assert("write-anchor"@.len() != "absolute-x"@.len());
}

proof fn lemma_parse_absolute_x(q: Seq<char>)
    requires
        super::text::find_from(q, ')', 0) is Some,
    ensures
        super::behavior::parse_behavior("absolute-x("@ + q) == super::behavior::BehaviorV::AbsoulteX(super::behavior::param_u8(written_args(q), 0)),
{
    reveal_strlit("absolute-x(");
    reveal_strlit("absolute-x");
    let name = "absolute-x"@;
    let f = "absolute-x("@ + q;
    assert(f =~= name + seq!['('] + q);
    lemma_call_parts(name, q);
    reveal_strlit("end");
    lemma_differs("end"@, f, 0);
    reveal_strlit("while");
    lemma_differs("while"@, f, 0);
    reveal_strlit("do");
    lemma_differs("do"@, f, 0);
    reveal_strlit("not");
    lemma_differs("not"@, f, 0);
    reveal_strlit("true");
    lemma_differs("true"@, f, 0);
    reveal_strlit("false");
    lemma_differs("false"@, f, 0);
    reveal_strlit("check");
    lemma_differs("check"@, f, 0);
    reveal_strlit("transition");
    lemma_differs("transition"@, f, 0);
    reveal_strlit("}");
    lemma_differs("}"@, f, 0);
    reveal_strlit("{");
    lemma_differs("{"@, f, 0);
    assert(no_keyword_prefix(f));
    lemma_command_absolute_x(written_args(q));
}

proof fn lemma_command_absolute_y(pv: Seq<Seq<char>>)
    ensures
        super::behavior::command_v("absolute-y"@, pv) == super::behavior::BehaviorV::AbsoulteY(super::behavior::param_u8(pv, 0)),
{
    reveal_strlit("absolute-y");
    reveal_strlit("label");
    assert("label"@.len() != "absolute-y"@.len());
    reveal_strlit("jmp");
    assert("jmp"@.len() != "absolute-y"@.len());
    reveal_strlit("read");
    assert("read"@.len() != "absolute-y"@.len());
    reveal_strlit("read-and");
    assert("read-and"@.len() != "absolute-y"@.len());
    reveal_strlit("read-or");
    assert("read-or"@.len() != "absolute-y"@.len());
    reveal_strlit("read-xor");
    assert("read-xor"@.len() != "absolute-y"@.len());
    reveal_strlit("write");
    assert("write"@.len() != "absolute-y"@.len());
    reveal_strlit("read-anchor");
    assert("read-anchor"@.len() != "absolute-y"@.len());
    reveal_strlit("write-anchor");
    assert("write-anchor"@.len() != "absolute-y"@.len());
    reveal_strlit("absolute-x");
    lemma_differs("absolute-x"@, "absolute-y"@, 9);
}

proof fn lemma_parse_absolute_y(q: Seq<char>)
    requires
        super::text::find_from(q, ')', 0) is Some,
    ensures
        super::behavior::parse_behavior("absolute-y("@ + q) == super::behavior::BehaviorV::AbsoulteY(super::behavior::param_u8(written_args(q), 0)),
{
    reveal_strlit("absolute-y(");
    reveal_strlit("absolute-y");
    let name = "absolute-y"@;
    let f = "absolute-y("@ + q;
    assert(f =~= name + seq!['('] + q);
    lemma_call_parts(name, q);
    reveal_strlit("end");
    lemma_differs("end"@, f, 0);
    reveal_strlit("while");
    lemma_differs("while"@, f, 0);
    reveal_strlit("do");
    lemma_differs("do"@, f, 0);
    reveal_strlit("not");
    lemma_differs("not"@, f, 0);
    reveal_strlit("true");
    lemma_differs("true"@, f, 0);
    reveal_strlit("false");
    lemma_differs("false"@, f, 0);
    reveal_strlit("check");
    lemma_differs("check"@, f, 0);
    reveal_strlit("transition");
    lemma_differs("transition"@, f, 0);
    reveal_strlit("}");
    lemma_differs("}"@, f, 0);
    reveal_strlit("{");
    lemma_differs("{"@, f, 0);
    assert(no_keyword_prefix(f));
    lemma_command_absolute_y(written_args(q));
}

proof fn lemma_command_jne(pv: Seq<Seq<char>>)
    ensures
        super::behavior::command_v("jne"@, pv) == super::behavior::BehaviorV::Jne(super::behavior::param_u8(pv, 0)),
{
    reveal_strlit("jne");
    reveal_strlit("label");
    assert("label"@.len() != "jne"@.len());
    reveal_strlit("jmp");
    lemma_differs("jmp"@, "jne"@, 1);
    reveal_strlit("read");
    assert("read"@.len() != "jne"@.len());
    reveal_strlit("read-and");
    assert("read-and"@.len() != "jne"@.len());
    reveal_strlit("read-or");
    assert("read-or"@.len() != "jne"@.len());
    reveal_strlit("read-xor");
    assert("read-xor"@.len() != "jne"@.len());
    reveal_strlit("write");
    assert("write"@.len() != "jne"@.len());
    reveal_strlit("read-anchor");
    assert("read-anchor"@.len() != "jne"@.len());
    reveal_strlit("write-anchor");
    assert("write-anchor"@.len() != "jne"@.len());
    reveal_strlit("absolute-x");
    assert("absolute-x"@.len() != "jne"@.len());
    reveal_strlit("absolute-y");
    assert("absolute-y"@.len() != "jne"@.len());
}

proof fn lemma_parse_jne(q: Seq<char>)
    requires
        super::text::find_from(q, ')', 0) is Some,
    ensures
        super::behavior::parse_behavior("jne("@ + q) == super::behavior::BehaviorV::Jne(super::behavior::param_u8(written_args(q), 0)),
{
    reveal_strlit("jne(");
    reveal_strlit("jne");
    let name = "jne"@;
    let f = "jne("@ + q;
    assert(f =~= name + seq!['('] + q);
    lemma_call_parts(name, q);
    reveal_strlit("end");
    lemma_differs("end"@, f, 0);
    reveal_strlit("while");
    lemma_differs("while"@, f, 0);
    reveal_strlit("do");
    lemma_differs("do"@, f, 0);
    reveal_strlit("not");
    lemma_differs("not"@, f, 0);
    reveal_strlit("true");
    lemma_differs("true"@, f, 0);
    reveal_strlit("false");
    lemma_differs("false"@, f, 0);
    reveal_strlit("check");
    lemma_differs("check"@, f, 0);
    reveal_strlit("transition");
    lemma_differs("transition"@, f, 0);
    reveal_strlit("}");
    lemma_differs("}"@, f, 0);
    reveal_strlit("{");
    lemma_differs("{"@, f, 0);
    assert(no_keyword_prefix(f));
    lemma_command_jne(written_args(q));
}

proof fn lemma_command_repeat(pv: Seq<Seq<char>>)
    ensures
        super::behavior::command_v("repeat"@, pv) == super::behavior::BehaviorV::Repeat(super::behavior::param_i8(pv, 0)),
{
    reveal_strlit("repeat");
    reveal_strlit("label");
    assert("label"@.len() != "repeat"@.len());
    reveal_strlit("jmp");
    assert("jmp"@.len() != "repeat"@.len());
    reveal_strlit("read");
    assert("read"@.len() != "repeat"@.len());
    reveal_strlit("read-and");
    assert("read-and"@.len() != "repeat"@.len());
    reveal_strlit("read-or");
    assert("read-or"@.len() != "repeat"@.len());
    reveal_strlit("read-xor");
    assert("read-xor"@.len() != "repeat"@.len());
    reveal_strlit("write");
    assert("write"@.len() != "repeat"@.len());
    reveal_strlit("read-anchor");
    assert("read-anchor"@.len() != "repeat"@.len());
    reveal_strlit("write-anchor");
    assert("write-anchor"@.len() != "repeat"@.len());
    reveal_strlit("absolute-x");
    assert("absolute-x"@.len() != "repeat"@.len());
    reveal_strlit("absolute-y");
    assert("absolute-y"@.len() != "repeat"@.len());
    reveal_strlit("jne");
    assert("jne"@.len() != "repeat"@.len());
}

proof fn lemma_parse_repeat(q: Seq<char>)
    requires
        super::text::find_from(q, ')', 0) is Some,
    ensures
        super::behavior::parse_behavior("repeat("@ + q) == super::behavior::BehaviorV::Repeat(super::behavior::param_i8(written_args(q), 0)),
{
    reveal_strlit("repeat(");
    reveal_strlit("repeat");
    let name = "repeat"@;
    let f = "repeat("@ + q;
    assert(f =~= name + seq!['('] + q);
    lemma_call_parts(name, q);
    reveal_strlit("end");
    lemma_differs("end"@, f, 0);
    reveal_strlit("while");
    lemma_differs("while"@, f, 0);
    reveal_strlit("do");
    lemma_differs("do"@, f, 0);
    reveal_strlit("not");
    lemma_differs("not"@, f, 0);
    reveal_strlit("true");
    lemma_differs("true"@, f, 0);
    reveal_strlit("false");
    lemma_differs("false"@, f, 0);
    reveal_strlit("check");
    lemma_differs("check"@, f, 0);
    reveal_strlit("transition");
    lemma_differs("transition"@, f, 0);
    reveal_strlit("}");
    lemma_differs("}"@, f, 0);
    reveal_strlit("{");
    lemma_differs("{"@, f, 0);
    assert(no_keyword_prefix(f));
    lemma_command_repeat(written_args(q));
}

proof fn lemma_command_transition(pv: Seq<Seq<char>>)
    ensures
        super::behavior::command_v("transition"@, pv) == super::behavior::BehaviorV::Transition(super::behavior::param_str(pv, 0)),
{
    reveal_strlit("transition");
    reveal_strlit("label");
    assert("label"@.len() != "transition"@.len());
    reveal_strlit("jmp");
    assert("jmp"@.len() != "transition"@.len());
    reveal_strlit("read");
    assert("read"@.len() != "transition"@.len());
    reveal_strlit("read-and");
    assert("read-and"@.len() != "transition"@.len());
    reveal_strlit("read-or");
    assert("read-or"@.len() != "transition"@.len());
    reveal_strlit("read-xor");
    assert("read-xor"@.len() != "transition"@.len());
    reveal_strlit("write");
    assert("write"@.len() != "transition"@.len());
    reveal_strlit("read-anchor");
    assert("read-anchor"@.len() != "transition"@.len());
    reveal_strlit("write-anchor");
    assert("write-anchor"@.len() != "transition"@.len());
    reveal_strlit("absolute-x");
    lemma_differs("absolute-x"@, "transition"@, 0);
    reveal_strlit("absolute-y");
    lemma_differs("absolute-y"@, "transition"@, 0);
    reveal_strlit("jne");
    assert("jne"@.len() != "transition"@.len());
    reveal_strlit("repeat");
    assert("repeat"@.len() != "transition"@.len());
}

proof fn lemma_parse_transition(q: Seq<char>)
    requires
        super::text::find_from(q, ')', 0) is Some,
    ensures
        super::behavior::parse_behavior("transition("@ + q) == super::behavior::BehaviorV::Transition(super::behavior::param_str(written_args(q), 0)),
{
    reveal_strlit("transition(");
    reveal_strlit("transition");
    let name = "transition"@;
    let f = "transition("@ + q;
    assert(f =~= name + seq!['('] + q);
    lemma_call_parts(name, q);
    reveal_strlit("end");
    lemma_differs("end"@, f, 0);
    reveal_strlit("while");
    lemma_differs("while"@, f, 0);
    reveal_strlit("do");
    lemma_differs("do"@, f, 0);
    reveal_strlit("not");
    lemma_differs("not"@, f, 0);
    reveal_strlit("true");
    lemma_differs("true"@, f, 2);
    reveal_strlit("false");
    lemma_differs("false"@, f, 0);
    reveal_strlit("check");
    lemma_differs("check"@, f, 0);
    reveal_strlit("transition");
    assert(f.len() != "transition"@.len());
    reveal_strlit("}");
    lemma_differs("}"@, f, 0);
    reveal_strlit("{");
    lemma_differs("{"@, f, 0);
    assert(no_keyword_prefix(f));
    lemma_command_transition(written_args(q));
}

proof fn lemma_command_color(pv: Seq<Seq<char>>)
    ensures
        super::behavior::command_v("color"@, pv) == super::behavior::BehaviorV::Color(super::behavior::param_str(pv, 0)),
{
    reveal_strlit("color");
    reveal_strlit("label");
    lemma_differs("label"@, "color"@, 0);
    reveal_strlit("jmp");
    assert("jmp"@.len() != "color"@.len());
    reveal_strlit("read");
    assert("read"@.len() != "color"@.len());
    reveal_strlit("read-and");
    assert("read-and"@.len() != "color"@.len());
    reveal_strlit("read-or");
    assert("read-or"@.len() != "color"@.len());
    reveal_strlit("read-xor");
    assert("read-xor"@.len() != "color"@.len());
    reveal_strlit("write");
    lemma_differs("write"@, "color"@, 0);
    reveal_strlit("read-anchor");
    assert("read-anchor"@.len() != "color"@.len());
    reveal_strlit("write-anchor");
    assert("write-anchor"@.len() != "color"@.len());
    reveal_strlit("absolute-x");
    assert("absolute-x"@.len() != "color"@.len());
    reveal_strlit("absolute-y");
    assert("absolute-y"@.len() != "color"@.len());
    reveal_strlit("jne");
    assert("jne"@.len() != "color"@.len());
    reveal_strlit("repeat");
    assert("repeat"@.len() != "color"@.len());
    reveal_strlit("transition");
    assert("transition"@.len() != "color"@.len());
}

proof fn lemma_parse_color(q: Seq<char>)
    requires
        super::text::find_from(q, ')', 0) is Some,
    ensures
        super::behavior::parse_behavior("color("@ + q) == super::behavior::BehaviorV::Color(super::behavior::param_str(written_args(q), 0)),
{
    reveal_strlit("color(");
    reveal_strlit("color");
    let name = "color"@;
    let f = "color("@ + q;
    assert(f =~= name + seq!['('] + q);
    lemma_call_parts(name, q);
    reveal_strlit("end");
    lemma_differs("end"@, f, 0);
    reveal_strlit("while");
    lemma_differs("while"@, f, 0);
    reveal_strlit("do");
    lemma_differs("do"@, f, 0);
    reveal_strlit("not");
    lemma_differs("not"@, f, 0);
    reveal_strlit("true");
    lemma_differs("true"@, f, 0);
    reveal_strlit("false");
    lemma_differs("false"@, f, 0);
    reveal_strlit("check");
    lemma_differs("check"@, f, 1);
    reveal_strlit("transition");
    lemma_differs("transition"@, f, 0);
    reveal_strlit("}");
    lemma_differs("}"@, f, 0);
    reveal_strlit("{");
    lemma_differs("{"@, f, 0);
    assert(no_keyword_prefix(f));
    lemma_command_color(written_args(q));
}

proof fn lemma_command_piece(pv: Seq<Seq<char>>)
    ensures
        super::behavior::command_v("piece"@, pv) == super::behavior::BehaviorV::Piece(super::behavior::param_str(pv, 0)),
{
    reveal_strlit("piece");
    reveal_strlit("label");
    lemma_differs("label"@, "piece"@, 0);
    reveal_strlit("jmp");
    assert("jmp"@.len() != "piece"@.len());
    reveal_strlit("read");
    assert("read"@.len() != "piece"@.len());
    reveal_strlit("read-and");
    assert("read-and"@.len() != "piece"@.len());
    reveal_strlit("read-or");
    assert("read-or"@.len() != "piece"@.len());
    reveal_strlit("read-xor");
    assert("read-xor"@.len() != "piece"@.len());
    reveal_strlit("write");
    lemma_differs("write"@, "piece"@, 0);
    reveal_strlit("read-anchor");
    assert("read-anchor"@.len() != "piece"@.len());
    reveal_strlit("write-anchor");
    assert("write-anchor"@.len() != "piece"@.len());
    reveal_strlit("absolute-x");
    assert("absolute-x"@.len() != "piece"@.len());
    reveal_strlit("absolute-y");
    assert("absolute-y"@.len() != "piece"@.len());
    reveal_strlit("jne");
    assert("jne"@.len() != "piece"@.len());
    reveal_strlit("repeat");
    assert("repeat"@.len() != "piece"@.len());
    reveal_strlit("transition");
    assert("transition"@.len() != "piece"@.len());
    reveal_strlit("color");
    lemma_differs("color"@, "piece"@, 0);
}

proof fn lemma_parse_piece(q: Seq<char>)
    requires
        super::text::find_from(q, ')', 0) is Some,
    ensures
        super::behavior::parse_behavior("piece("@ + q) == super::behavior::BehaviorV::Piece(super::behavior::param_str(written_args(q), 0)),
{
    reveal_strlit("piece(");
    reveal_strlit("piece");
    let name = "piece"@;
    let f = "piece("@ + q;
    assert(f =~= name + seq!['('] + q);
    lemma_call_parts(name, q);
    reveal_strlit("end");
    lemma_differs("end"@, f, 0);
    reveal_strlit("while");
    lemma_differs("while"@, f, 0);
    reveal_strlit("do");
    lemma_differs("do"@, f, 0);
    reveal_strlit("not");
    lemma_differs("not"@, f, 0);
    reveal_strlit("true");
    lemma_differs("true"@, f, 0);
    reveal_strlit("false");
    lemma_differs("false"@, f, 0);
    reveal_strlit("check");
    lemma_differs("check"@, f, 0);
    reveal_strlit("transition");
    lemma_differs("transition"@, f, 0);
    reveal_strlit("}");
    lemma_differs("}"@, f, 0);
    reveal_strlit("{");
    lemma_differs("{"@, f, 0);
    assert(no_keyword_prefix(f));
    lemma_command_piece(written_args(q));
}

proof fn lemma_command_set_state(pv: Seq<Seq<char>>)
    ensures
        super::behavior::command_v("set-state"@, pv) == super::behavior::BehaviorV::SetState((super::behavior::param_str(pv, 0), super::behavior::param_u8(pv, 1))),
{
    reveal_strlit("set-state");
    reveal_strlit("label");
    assert("label"@.len() != "set-state"@.len());
    reveal_strlit("jmp");
    assert("jmp"@.len() != "set-state"@.len());
    reveal_strlit("read");
    assert("read"@.len() != "set-state"@.len());
    reveal_strlit("read-and");
    assert("read-and"@.len() != "set-state"@.len());
    reveal_strlit("read-or");
    assert("read-or"@.len() != "set-state"@.len());
    reveal_strlit("read-xor");
    assert("read-xor"@.len() != "set-state"@.len());
    reveal_strlit("write");
    assert("write"@.len() != "set-state"@.len());
    reveal_strlit("read-anchor");
    assert("read-anchor"@.len() != "set-state"@.len());
    reveal_strlit("write-anchor");
    assert("write-anchor"@.len() != "set-state"@.len());
    reveal_strlit("absolute-x");
    assert("absolute-x"@.len() != "set-state"@.len());
    reveal_strlit("absolute-y");
    assert("absolute-y"@.len() != "set-state"@.len());
    reveal_strlit("jne");
    assert("jne"@.len() != "set-state"@.len());
    reveal_strlit("repeat");
    assert("repeat"@.len() != "set-state"@.len());
    reveal_strlit("transition");
    assert("transition"@.len() != "set-state"@.len());
    reveal_strlit("color");
    assert("color"@.len() != "set-state"@.len());
    reveal_strlit("piece");
    assert("piece"@.len() != "set-state"@.len());
}

proof fn lemma_parse_set_state(q: Seq<char>)
    requires
        super::text::find_from(q, ')', 0) is Some,
    ensures
        super::behavior::parse_behavior("set-state("@ + q) == super::behavior::BehaviorV::SetState((super::behavior::param_str(written_args(q), 0), super::behavior::param_u8(written_args(q), 1))),
{
    reveal_strlit("set-state(");
    reveal_strlit("set-state");
    let name = "set-state"@;
    let f = "set-state("@ + q;
    assert(f =~= name + seq!['('] + q);
    lemma_call_parts(name, q);
    reveal_strlit("end");
    lemma_differs("end"@, f, 0);
    reveal_strlit("while");
    lemma_differs("while"@, f, 0);
    reveal_strlit("do");
    lemma_differs("do"@, f, 0);
    reveal_strlit("not");
    lemma_differs("not"@, f, 0);
    reveal_strlit("true");
    lemma_differs("true"@, f, 0);
    reveal_strlit("false");
    lemma_differs("false"@, f, 0);
    reveal_strlit("check");
    lemma_differs("check"@, f, 0);
    reveal_strlit("transition");
    lemma_differs("transition"@, f, 0);
    reveal_strlit("}");
    lemma_differs("}"@, f, 0);
    reveal_strlit("{");
    lemma_differs("{"@, f, 0);
    assert(no_keyword_prefix(f));
    lemma_command_set_state(written_args(q));
}

proof fn lemma_command_if_state(pv: Seq<Seq<char>>)
    ensures
        super::behavior::command_v("if-state"@, pv) == super::behavior::BehaviorV::IfState((super::behavior::param_str(pv, 0), super::behavior::param_u8(pv, 1))),
{
    reveal_strlit("if-state");
    reveal_strlit("label");
    assert("label"@.len() != "if-state"@.len());
    reveal_strlit("jmp");
    assert("jmp"@.len() != "if-state"@.len());
    reveal_strlit("read");
    assert("read"@.len() != "if-state"@.len());
    reveal_strlit("read-and");
    lemma_differs("read-and"@, "if-state"@, 0);
    reveal_strlit("read-or");
    assert("read-or"@.len() != "if-state"@.len());
    reveal_strlit("read-xor");
    lemma_differs("read-xor"@, "if-state"@, 0);
    reveal_strlit("write");
    assert("write"@.len() != "if-state"@.len());
    reveal_strlit("read-anchor");
    assert("read-anchor"@.len() != "if-state"@.len());
    reveal_strlit("write-anchor");
    assert("write-anchor"@.len() != "if-state"@.len());
    reveal_strlit("absolute-x");
    assert("absolute-x"@.len() != "if-state"@.len());
    reveal_strlit("absolute-y");
    assert("absolute-y"@.len() != "if-state"@.len());
    reveal_strlit("jne");
    assert("jne"@.len() != "if-state"@.len());
    reveal_strlit("repeat");
    assert("repeat"@.len() != "if-state"@.len());
    reveal_strlit("transition");
    assert("transition"@.len() != "if-state"@.len());
    reveal_strlit("color");
    assert("color"@.len() != "if-state"@.len());
    reveal_strlit("piece");
    assert("piece"@.len() != "if-state"@.len());
    reveal_strlit("set-state");
    assert("set-state"@.len() != "if-state"@.len());
}

proof fn lemma_parse_if_state(q: Seq<char>)
    requires
        super::text::find_from(q, ')', 0) is Some,
    ensures
        super::behavior::parse_behavior("if-state("@ + q) == super::behavior::BehaviorV::IfState((super::behavior::param_str(written_args(q), 0), super::behavior::param_u8(written_args(q), 1))),
{
    reveal_strlit("if-state(");
    reveal_strlit("if-state");
    let name = "if-state"@;
    let f = "if-state("@ + q;
    assert(f =~= name + seq!['('] + q);
    lemma_call_parts(name, q);
    reveal_strlit("end");
    lemma_differs("end"@, f, 0);
    reveal_strlit("while");
    lemma_differs("while"@, f, 0);
    reveal_strlit("do");
    lemma_differs("do"@, f, 0);
    reveal_strlit("not");
    lemma_differs("not"@, f, 0);
    reveal_strlit("true");
    lemma_differs("true"@, f, 0);
    reveal_strlit("false");
    lemma_differs("false"@, f, 0);
    reveal_strlit("check");
    lemma_differs("check"@, f, 0);
    reveal_strlit("transition");
    lemma_differs("transition"@, f, 0);
    reveal_strlit("}");
    lemma_differs("}"@, f, 0);
    reveal_strlit("{");
    lemma_differs("{"@, f, 0);
    assert(no_keyword_prefix(f));
    lemma_command_if_state(written_args(q));
}

proof fn lemma_command_piece_on(pv: Seq<Seq<char>>)
    ensures
        super::behavior::command_v("piece-on"@, pv) == super::behavior::BehaviorV::PieceOn((super::behavior::param_str(pv, 0), super::behavior::param_delta(pv, 1))),
{
    reveal_strlit("piece-on");
    reveal_strlit("label");
    assert("label"@.len() != "piece-on"@.len());
    reveal_strlit("jmp");
    assert("jmp"@.len() != "piece-on"@.len());
    reveal_strlit("read");
    assert("read"@.len() != "piece-on"@.len());
    reveal_strlit("read-and");
    lemma_differs("read-and"@, "piece-on"@, 0);
    reveal_strlit("read-or");
    assert("read-or"@.len() != "piece-on"@.len());
    reveal_strlit("read-xor");
    lemma_differs("read-xor"@, "piece-on"@, 0);
    reveal_strlit("write");
    assert("write"@.len() != "piece-on"@.len());
    reveal_strlit("read-anchor");
    assert("read-anchor"@.len() != "piece-on"@.len());
    reveal_strlit("write-anchor");
    assert("write-anchor"@.len() != "piece-on"@.len());
    reveal_strlit("absolute-x");
    assert("absolute-x"@.len() != "piece-on"@.len());
    reveal_strlit("absolute-y");
    assert("absolute-y"@.len() != "piece-on"@.len());
    reveal_strlit("jne");
    assert("jne"@.len() != "piece-on"@.len());
    reveal_strlit("repeat");
    assert("repeat"@.len() != "piece-on"@.len());
    reveal_strlit("transition");
    assert("transition"@.len() != "piece-on"@.len());
    reveal_strlit("color");
    assert("color"@.len() != "piece-on"@.len());
    reveal_strlit("piece");
    assert("piece"@.len() != "piece-on"@.len());
    reveal_strlit("set-state");
    assert("set-state"@.len() != "piece-on"@.len());
    reveal_strlit("if-state");
    lemma_differs("if-state"@, "piece-on"@, 0);
}

proof fn lemma_parse_piece_on(q: Seq<char>)
    requires
        super::text::find_from(q, ')', 0) is Some,
    ensures
        super::behavior::parse_behavior("piece-on("@ + q) == super::behavior::BehaviorV::PieceOn((super::behavior::param_str(written_args(q), 0), super::behavior::param_delta(written_args(q), 1))),
{
    reveal_strlit("piece-on(");
    reveal_strlit("piece-on");
    let name = "piece-on"@;
    let f = "piece-on("@ + q;
    assert(f =~= name + seq!['('] + q);
    lemma_call_parts(name, q);
    reveal_strlit("end");
    lemma_differs("end"@, f, 0);
    reveal_strlit("while");
    lemma_differs("while"@, f, 0);
    reveal_strlit("do");
    lemma_differs("do"@, f, 0);
    reveal_strlit("not");
    lemma_differs("not"@, f, 0);
    reveal_strlit("true");
    lemma_differs("true"@, f, 0);
    reveal_strlit("false");
    lemma_differs("false"@, f, 0);
    reveal_strlit("check");
    lemma_differs("check"@, f, 0);
    reveal_strlit("transition");
    lemma_differs("transition"@, f, 0);
    reveal_strlit("}");
    lemma_differs("}"@, f, 0);
    reveal_strlit("{");
    lemma_differs("{"@, f, 0);
    assert(no_keyword_prefix(f));
    lemma_command_piece_on(written_args(q));
}

proof fn lemma_command_color_on(pv: Seq<Seq<char>>)
    ensures
        super::behavior::command_v("color-on"@, pv) == super::behavior::BehaviorV::ColorOn((super::behavior::param_str(pv, 0), super::behavior::param_delta(pv, 1))),
{
    reveal_strlit("color-on");
    reveal_strlit("label");
    assert("label"@.len() != "color-on"@.len());
    reveal_strlit("jmp");
    assert("jmp"@.len() != "color-on"@.len());
    reveal_strlit("read");
    assert("read"@.len() != "color-on"@.len());
    reveal_strlit("read-and");
    lemma_differs("read-and"@, "color-on"@, 0);
    reveal_strlit("read-or");
    assert("read-or"@.len() != "color-on"@.len());
    reveal_strlit("read-xor");
    lemma_differs("read-xor"@, "color-on"@, 0);
    reveal_strlit("write");
    assert("write"@.len() != "color-on"@.len());
    reveal_strlit("read-anchor");
    assert("read-anchor"@.len() != "color-on"@.len());
    reveal_strlit("write-anchor");
    assert("write-anchor"@.len() != "color-on"@.len());
    reveal_strlit("absolute-x");
    assert("absolute-x"@.len() != "color-on"@.len());
    reveal_strlit("absolute-y");
    assert("absolute-y"@.len() != "color-on"@.len());
    reveal_strlit("jne");
    assert("jne"@.len() != "color-on"@.len());
    reveal_strlit("repeat");
    assert("repeat"@.len() != "color-on"@.len());
    reveal_strlit("transition");
    assert("transition"@.len() != "color-on"@.len());
    reveal_strlit("color");
    assert("color"@.len() != "color-on"@.len());
    reveal_strlit("piece");
    assert("piece"@.len() != "color-on"@.len());
    reveal_strlit("set-state");
    assert("set-state"@.len() != "color-on"@.len());
    reveal_strlit("if-state");
    lemma_differs("if-state"@, "color-on"@, 0);
    reveal_strlit("piece-on");
    lemma_differs("piece-on"@, "color-on"@, 0);
}

proof fn lemma_parse_color_on(q: Seq<char>)
    requires
        super::text::find_from(q, ')', 0) is Some,
    ensures
        super::behavior::parse_behavior("color-on("@ + q) == super::behavior::BehaviorV::ColorOn((super::behavior::param_str(written_args(q), 0), super::behavior::param_delta(written_args(q), 1))),
{
    reveal_strlit("color-on(");
    reveal_strlit("color-on");
    let name = "color-on"@;
    let f = "color-on("@ + q;
    assert(f =~= name + seq!['('] + q);
    lemma_call_parts(name, q);
    reveal_strlit("end");
    lemma_differs("end"@, f, 0);
    reveal_strlit("while");
    lemma_differs("while"@, f, 0);
    reveal_strlit("do");
    lemma_differs("do"@, f, 0);
    reveal_strlit("not");
    lemma_differs("not"@, f, 0);
    reveal_strlit("true");
    lemma_differs("true"@, f, 0);
    reveal_strlit("false");
    lemma_differs("false"@, f, 0);
    reveal_strlit("check");
    lemma_differs("check"@, f, 1);
    reveal_strlit("transition");
    lemma_differs("transition"@, f, 0);
    reveal_strlit("}");
    lemma_differs("}"@, f, 0);
    reveal_strlit("{");
    lemma_differs("{"@, f, 0);
    assert(no_keyword_prefix(f));
    lemma_command_color_on(written_args(q));
}

proof fn lemma_command_absolute(pv: Seq<Seq<char>>)
    ensures
        super::behavior::command_v("absolute"@, pv) == super::behavior::BehaviorV::Absoulte((super::behavior::param_u8(pv, 0), super::behavior::param_u8(pv, 1))),
{
    reveal_strlit("absolute");
    reveal_strlit("label");
    assert("label"@.len() != "absolute"@.len());
    reveal_strlit("jmp");
    assert("jmp"@.len() != "absolute"@.len());
    reveal_strlit("read");
    assert("read"@.len() != "absolute"@.len());
    reveal_strlit("read-and");
    lemma_differs("read-and"@, "absolute"@, 0);
    reveal_strlit("read-or");
    assert("read-or"@.len() != "absolute"@.len());
    reveal_strlit("read-xor");
    lemma_differs("read-xor"@, "absolute"@, 0);
    reveal_strlit("write");
    assert("write"@.len() != "absolute"@.len());
    reveal_strlit("read-anchor");
    assert("read-anchor"@.len() != "absolute"@.len());
    reveal_strlit("write-anchor");
    assert("write-anchor"@.len() != "absolute"@.len());
    reveal_strlit("absolute-x");
    assert("absolute-x"@.len() != "absolute"@.len());
    reveal_strlit("absolute-y");
    assert("absolute-y"@.len() != "absolute"@.len());
    reveal_strlit("jne");
    assert("jne"@.len() != "absolute"@.len());
    reveal_strlit("repeat");
    assert("repeat"@.len() != "absolute"@.len());
    reveal_strlit("transition");
    assert("transition"@.len() != "absolute"@.len());
    reveal_strlit("color");
    assert("color"@.len() != "absolute"@.len());
    reveal_strlit("piece");
    assert("piece"@.len() != "absolute"@.len());
    reveal_strlit("set-state");
    assert("set-state"@.len() != "absolute"@.len());
    reveal_strlit("if-state");
    lemma_differs("if-state"@, "absolute"@, 0);
    reveal_strlit("piece-on");
    lemma_differs("piece-on"@, "absolute"@, 0);
    reveal_strlit("color-on");
    lemma_differs("color-on"@, "absolute"@, 0);
}

proof fn lemma_parse_absolute(q: Seq<char>)
    requires
        super::text::find_from(q, ')', 0) is Some,
    ensures
        super::behavior::parse_behavior("absolute("@ + q) == super::behavior::BehaviorV::Absoulte((super::behavior::param_u8(written_args(q), 0), super::behavior::param_u8(written_args(q), 1))),
{
    reveal_strlit("absolute(");
    reveal_strlit("absolute");
    let name = "absolute"@;
    let f = "absolute("@ + q;
    assert(f =~= name + seq!['('] + q);
    lemma_call_parts(name, q);
    reveal_strlit("end");
    lemma_differs("end"@, f, 0);
    reveal_strlit("while");
    lemma_differs("while"@, f, 0);
    reveal_strlit("do");
    lemma_differs("do"@, f, 0);
    reveal_strlit("not");
    lemma_differs("not"@, f, 0);
    reveal_strlit("true");
    lemma_differs("true"@, f, 0);
    reveal_strlit("false");
    lemma_differs("false"@, f, 0);
    reveal_strlit("check");
    lemma_differs("check"@, f, 0);
    reveal_strlit("transition");
    lemma_differs("transition"@, f, 0);
    reveal_strlit("}");
    lemma_differs("}"@, f, 0);
    reveal_strlit("{");
    lemma_differs("{"@, f, 0);
    assert(no_keyword_prefix(f));
    lemma_command_absolute(written_args(q));
}

/// A fragment that starts with a keyword is that keyword's instruction,
/// whatever follows: `end`, `while`, `do`, `not`, `true`, `false`, `check`,
/// `}` and `{`.
pub proof fn law_keywords_parse(q: Seq<char>)
    ensures
        super::behavior::parse_behavior("end"@ + q) == super::behavior::BehaviorV::End,
        super::behavior::parse_behavior("while"@ + q) == super::behavior::BehaviorV::While,
        super::behavior::parse_behavior("do"@ + q) == super::behavior::BehaviorV::Do,
        super::behavior::parse_behavior("not"@ + q) == super::behavior::BehaviorV::Not,
        super::behavior::parse_behavior("true"@ + q) == super::behavior::BehaviorV::True,
        super::behavior::parse_behavior("false"@ + q) == super::behavior::BehaviorV::False,
        super::behavior::parse_behavior("check"@ + q) == super::behavior::BehaviorV::Check,
        super::behavior::parse_behavior("}"@ + q) == super::behavior::BehaviorV::BlockClose,
        super::behavior::parse_behavior("{"@ + q) == super::behavior::BehaviorV::BlockOpen,
{
    reveal_strlit("end");
    let f_0 = "end"@ + q;
    assert("end"@.is_prefix_of(f_0)) by { assert(f_0.subrange(0, "end"@.len() as int) =~= "end"@); }
    reveal_strlit("while");
    let f_1 = "while"@ + q;
    assert("while"@.is_prefix_of(f_1)) by { assert(f_1.subrange(0, "while"@.len() as int) =~= "while"@); }
    reveal_strlit("end");
    lemma_differs("end"@, f_1, 0);
    reveal_strlit("do");
    let f_2 = "do"@ + q;
    assert("do"@.is_prefix_of(f_2)) by { assert(f_2.subrange(0, "do"@.len() as int) =~= "do"@); }
    reveal_strlit("end");
    lemma_differs("end"@, f_2, 0);
    reveal_strlit("while");
    lemma_differs("while"@, f_2, 0);
    reveal_strlit("not");
    let f_3 = "not"@ + q;
    assert("not"@.is_prefix_of(f_3)) by { assert(f_3.subrange(0, "not"@.len() as int) =~= "not"@); }
    reveal_strlit("end");
    lemma_differs("end"@, f_3, 0);
    reveal_strlit("while");
    lemma_differs("while"@, f_3, 0);
    reveal_strlit("do");
    lemma_differs("do"@, f_3, 0);
    reveal_strlit("true");
    let f_4 = "true"@ + q;
    assert("true"@.is_prefix_of(f_4)) by { assert(f_4.subrange(0, "true"@.len() as int) =~= "true"@); }
    reveal_strlit("end");
    lemma_differs("end"@, f_4, 0);
    reveal_strlit("while");
    lemma_differs("while"@, f_4, 0);
    reveal_strlit("do");
    lemma_differs("do"@, f_4, 0);
    reveal_strlit("not");
    lemma_differs("not"@, f_4, 0);
    reveal_strlit("false");
    let f_5 = "false"@ + q;
    assert("false"@.is_prefix_of(f_5)) by { assert(f_5.subrange(0, "false"@.len() as int) =~= "false"@); }
    reveal_strlit("end");
    lemma_differs("end"@, f_5, 0);
    reveal_strlit("while");
    lemma_differs("while"@, f_5, 0);
    reveal_strlit("do");
    lemma_differs("do"@, f_5, 0);
    reveal_strlit("not");
    lemma_differs("not"@, f_5, 0);
    reveal_strlit("true");
    lemma_differs("true"@, f_5, 0);
    reveal_strlit("check");
    let f_6 = "check"@ + q;
    assert("check"@.is_prefix_of(f_6)) by { assert(f_6.subrange(0, "check"@.len() as int) =~= "check"@); }
    reveal_strlit("end");
    lemma_differs("end"@, f_6, 0);
    reveal_strlit("while");
    lemma_differs("while"@, f_6, 0);
    reveal_strlit("do");
    lemma_differs("do"@, f_6, 0);
    reveal_strlit("not");
    lemma_differs("not"@, f_6, 0);
    reveal_strlit("true");
    lemma_differs("true"@, f_6, 0);
    reveal_strlit("false");
    lemma_differs("false"@, f_6, 0);
    reveal_strlit("}");
    let f_8 = "}"@ + q;
    assert("}"@.is_prefix_of(f_8)) by { assert(f_8.subrange(0, "}"@.len() as int) =~= "}"@); }
    reveal_strlit("end");
    lemma_differs("end"@, f_8, 0);
    reveal_strlit("while");
    lemma_differs("while"@, f_8, 0);
    reveal_strlit("do");
    lemma_differs("do"@, f_8, 0);
    reveal_strlit("not");
    lemma_differs("not"@, f_8, 0);
    reveal_strlit("true");
    lemma_differs("true"@, f_8, 0);
    reveal_strlit("false");
    lemma_differs("false"@, f_8, 0);
    reveal_strlit("check");
    lemma_differs("check"@, f_8, 0);
    reveal_strlit("transition");
    lemma_differs("transition"@, f_8, 0);
    reveal_strlit("{");
    let f_9 = "{"@ + q;
    assert("{"@.is_prefix_of(f_9)) by { assert(f_9.subrange(0, "{"@.len() as int) =~= "{"@); }
    reveal_strlit("end");
    lemma_differs("end"@, f_9, 0);
    reveal_strlit("while");
    lemma_differs("while"@, f_9, 0);
    reveal_strlit("do");
    lemma_differs("do"@, f_9, 0);
    reveal_strlit("not");
    lemma_differs("not"@, f_9, 0);
    reveal_strlit("true");
    lemma_differs("true"@, f_9, 0);
    reveal_strlit("false");
    lemma_differs("false"@, f_9, 0);
    reveal_strlit("check");
    lemma_differs("check"@, f_9, 0);
    reveal_strlit("transition");
    lemma_differs("transition"@, f_9, 0);
    reveal_strlit("}");
    lemma_differs("}"@, f_9, 0);
}

/// Each command without a displacement as its only argument parses to its
/// own instruction, reading its arguments in order: the jumps, labels,
/// register and anchor commands and `absolute-x`/`absolute-y` a number,
/// `repeat` a signed number, `transition`, `color` and `piece` a name,
/// `set-state`/`if-state` a name and a number, `piece-on`/`color-on` a name
/// and a displacement, `absolute` a square.
pub proof fn law_commands_parse(q: Seq<char>)
    requires
        super::text::find_from(q, ')', 0) is Some,
    ensures
        ({
            let pv = written_args(q);
            &&& super::behavior::parse_behavior("label("@ + q) == super::behavior::BehaviorV::Label(super::behavior::param_u8(pv, 0))
            &&& super::behavior::parse_behavior("jmp("@ + q) == super::behavior::BehaviorV::Jmp(super::behavior::param_u8(pv, 0))
            &&& super::behavior::parse_behavior("read("@ + q) == super::behavior::BehaviorV::Read(super::behavior::param_u8(pv, 0))
            &&& super::behavior::parse_behavior("read-and("@ + q) == super::behavior::BehaviorV::ReadAnd(super::behavior::param_u8(pv, 0))
            &&& super::behavior::parse_behavior("read-or("@ + q) == super::behavior::BehaviorV::ReadOr(super::behavior::param_u8(pv, 0))
            &&& super::behavior::parse_behavior("read-xor("@ + q) == super::behavior::BehaviorV::ReadXor(super::behavior::param_u8(pv, 0))
            &&& super::behavior::parse_behavior("write("@ + q) == super::behavior::BehaviorV::Write(super::behavior::param_u8(pv, 0))
            &&& super::behavior::parse_behavior("read-anchor("@ + q) == super::behavior::BehaviorV::ReadAnchor(super::behavior::param_u8(pv, 0))
            &&& super::behavior::parse_behavior("write-anchor("@ + q) == super::behavior::BehaviorV::WriteAnchor(super::behavior::param_u8(pv, 0))
            &&& super::behavior::parse_behavior("absolute-x("@ + q) == super::behavior::BehaviorV::AbsoulteX(super::behavior::param_u8(pv, 0))
            &&& super::behavior::parse_behavior("absolute-y("@ + q) == super::behavior::BehaviorV::AbsoulteY(super::behavior::param_u8(pv, 0))
            &&& super::behavior::parse_behavior("jne("@ + q) == super::behavior::BehaviorV::Jne(super::behavior::param_u8(pv, 0))
            &&& super::behavior::parse_behavior("repeat("@ + q) == super::behavior::BehaviorV::Repeat(super::behavior::param_i8(pv, 0))
            &&& super::behavior::parse_behavior("transition("@ + q) == super::behavior::BehaviorV::Transition(super::behavior::param_str(pv, 0))
            &&& super::behavior::parse_behavior("color("@ + q) == super::behavior::BehaviorV::Color(super::behavior::param_str(pv, 0))
            &&& super::behavior::parse_behavior("piece("@ + q) == super::behavior::BehaviorV::Piece(super::behavior::param_str(pv, 0))
            &&& super::behavior::parse_behavior("set-state("@ + q) == super::behavior::BehaviorV::SetState((super::behavior::param_str(pv, 0), super::behavior::param_u8(pv, 1)))
            &&& super::behavior::parse_behavior("if-state("@ + q) == super::behavior::BehaviorV::IfState((super::behavior::param_str(pv, 0), super::behavior::param_u8(pv, 1)))
            &&& super::behavior::parse_behavior("piece-on("@ + q) == super::behavior::BehaviorV::PieceOn((super::behavior::param_str(pv, 0), super::behavior::param_delta(pv, 1)))
            &&& super::behavior::parse_behavior("color-on("@ + q) == super::behavior::BehaviorV::ColorOn((super::behavior::param_str(pv, 0), super::behavior::param_delta(pv, 1)))
            &&& super::behavior::parse_behavior("absolute("@ + q) == super::behavior::BehaviorV::Absoulte((super::behavior::param_u8(pv, 0), super::behavior::param_u8(pv, 1)))
        }),
{
    lemma_parse_label(q);
    lemma_parse_jmp(q);
    lemma_parse_read(q);
    lemma_parse_read_and(q);
    lemma_parse_read_or(q);
    lemma_parse_read_xor(q);
    lemma_parse_write(q);
    lemma_parse_read_anchor(q);
    lemma_parse_write_anchor(q);
    lemma_parse_absolute_x(q);
    lemma_parse_absolute_y(q);
    lemma_parse_jne(q);
    lemma_parse_repeat(q);
    lemma_parse_transition(q);
    lemma_parse_color(q);
    lemma_parse_piece(q);
    lemma_parse_set_state(q);
    lemma_parse_if_state(q);
    lemma_parse_piece_on(q);
    lemma_parse_color_on(q);
    lemma_parse_absolute(q);
}

/// Each command that carries a displacement parses to its own instruction:
/// `enemy(dx, dy)` to the enemy test, `friendly(dx, dy)` to the friendly
/// test, `peek`, `observe`, `take-move`, `take`, `move`, `catch`, `jump`,
/// `shift`, `danger`, `anchor` and the wall tests to theirs; all carry the
/// same displacement, read from the same written arguments.
pub proof fn law_displacement_commands_parse(q: Seq<char>)
    requires
        super::text::find_from(q, ')', 0) is Some,
    ensures
        ({
            let d = super::behavior::param_delta(written_args(q), 0);
            &&& super::behavior::parse_behavior("take-move("@ + q) == super::behavior::BehaviorV::TakeMove(d)
            &&& super::behavior::parse_behavior("take("@ + q) == super::behavior::BehaviorV::Take(d)
            &&& super::behavior::parse_behavior("jump("@ + q) == super::behavior::BehaviorV::Jump(d)
            &&& super::behavior::parse_behavior("move("@ + q) == super::behavior::BehaviorV::Move(d)
            &&& super::behavior::parse_behavior("catch("@ + q) == super::behavior::BehaviorV::Catch(d)
            &&& super::behavior::parse_behavior("shift("@ + q) == super::behavior::BehaviorV::Shift(d)
            &&& super::behavior::parse_behavior("danger("@ + q) == super::behavior::BehaviorV::Danger(d)
            &&& super::behavior::parse_behavior("enemy("@ + q) == super::behavior::BehaviorV::Enemy(d)
            &&& super::behavior::parse_behavior("friendly("@ + q) == super::behavior::BehaviorV::Friendly(d)
            &&& super::behavior::parse_behavior("peek("@ + q) == super::behavior::BehaviorV::Peek(d)
            &&& super::behavior::parse_behavior("anchor("@ + q) == super::behavior::BehaviorV::Anchor(d)
            &&& super::behavior::parse_behavior("observe("@ + q) == super::behavior::BehaviorV::Observe(d)
            &&& super::behavior::parse_behavior("bound("@ + q) == super::behavior::BehaviorV::Bound(d)
            &&& super::behavior::parse_behavior("edge("@ + q) == super::behavior::BehaviorV::Edge(d)
            &&& super::behavior::parse_behavior("corner("@ + q) == super::behavior::BehaviorV::Corner(d)
            &&& super::behavior::parse_behavior("edge-left("@ + q) == super::behavior::BehaviorV::EdgeLeft(d)
            &&& super::behavior::parse_behavior("edge-right("@ + q) == super::behavior::BehaviorV::EdgeRight(d)
            &&& super::behavior::parse_behavior("edge-top("@ + q) == super::behavior::BehaviorV::EdgeTop(d)
            &&& super::behavior::parse_behavior("edge-bottom("@ + q) == super::behavior::BehaviorV::EdgeBottom(d)
            &&& super::behavior::parse_behavior("corner-top-left("@ + q) == super::behavior::BehaviorV::CornerTopLeft(d)
            &&& super::behavior::parse_behavior("corner-top-right("@ + q) == super::behavior::BehaviorV::CornerTopRight(d)
            &&& super::behavior::parse_behavior("corner-bottom-left("@ + q) == super::behavior::BehaviorV::CornerBottomLeft(d)
            &&& super::behavior::parse_behavior("corner-bottom-right("@ + q) == super::behavior::BehaviorV::CornerBottomRight(d)
        }),
{
    lemma_parse_take_move(q);
    lemma_parse_take(q);
    lemma_parse_jump(q);
    lemma_parse_move(q);
    lemma_parse_catch(q);
    lemma_parse_shift(q);
    lemma_parse_danger(q);
    lemma_parse_enemy(q);
    lemma_parse_friendly(q);
    lemma_parse_peek(q);
    lemma_parse_anchor(q);
    lemma_parse_observe(q);
    lemma_parse_bound(q);
    lemma_parse_edge(q);
    lemma_parse_corner(q);
    lemma_parse_edge_left(q);
    lemma_parse_edge_right(q);
    lemma_parse_edge_top(q);
    lemma_parse_edge_bottom(q);
    lemma_parse_corner_top_left(q);
    lemma_parse_corner_top_right(q);
    lemma_parse_corner_bottom_left(q);
    lemma_parse_corner_bottom_right(q);
}

proof fn lemma_find_none(s: Seq<char>, c: char, i: int)
    requires
        0 <= i,
        forall|t: int| i <= t < s.len() ==> s[t] != c,
    ensures
        super::text::find_from(s, c, i) is None,
    decreases s.len() - i,
{
    if i < s.len() {
        lemma_find_none(s, c, i + 1);
    }
}

/// The value of a written `i8` parameter (0 when it is not a number).
pub open spec fn i8_or_zero(t: Seq<char>) -> i8 {
    match super::text::parse_i8_v(t) {
        Some(v) => v,
        None => 0,
    }
}

/// Written as `(a, c)`, a displacement is the pair of numbers `a` and `c`
/// (each trimmed; 0 for a part that is not a number), whatever follows the
/// closing parenthesis; and the enemy test, the friendly test, `peek`,
/// `observe` and `take-move` carry exactly that pair.
pub proof fn law_displacement_is_written_pair(a: Seq<char>, c: Seq<char>, rest: Seq<char>)
    requires
        forall|t: int| 0 <= t < a.len() ==> a[t] != ',' && a[t] != ')',
        forall|t: int| 0 <= t < c.len() ==> c[t] != ',' && c[t] != ')',
    ensures
        ({
            let q = a + ","@ + c + ")"@ + rest;
            let d = (i8_or_zero(super::text::trim(a)), i8_or_zero(super::text::trim(c)));
            &&& written_args(q) == seq![super::text::trim(a), super::text::trim(c)]
            &&& super::behavior::parse_behavior("enemy("@ + q) == super::behavior::BehaviorV::Enemy(d)
            &&& super::behavior::parse_behavior("friendly("@ + q) == super::behavior::BehaviorV::Friendly(d)
            &&& super::behavior::parse_behavior("peek("@ + q) == super::behavior::BehaviorV::Peek(d)
            &&& super::behavior::parse_behavior("observe("@ + q) == super::behavior::BehaviorV::Observe(d)
            &&& super::behavior::parse_behavior("take-move("@ + q) == super::behavior::BehaviorV::TakeMove(d)
        }),
{
    reveal_strlit(",");
    reveal_strlit(")");
    let q = a + ","@ + c + ")"@ + rest;
    let inner = a + ","@ + c;
    let k = a.len() + 1 + c.len();
    assert(q[k as int] == ')');
    assert forall|t: int| 0 <= t < k implies q[t] != ')' by {
        if t < a.len() {
            assert(q[t] == a[t]);
        } else if t > a.len() {
            assert(q[t] == c[t - a.len() - 1]);
        }
    }
    lemma_find_first(q, ')', 0, k as int);
    assert(super::text::find_from(q, ')', 0) is Some);
    assert(q.subrange(0, k as int) =~= inner);
    assert(inner[a.len() as int] == ',');
    assert forall|t: int| 0 <= t < a.len() implies inner[t] != ',' by {
        assert(inner[t] == a[t]);
    }
    lemma_find_first(inner, ',', 0, a.len() as int);
    assert(inner.subrange(0, a.len() as int) =~= a);
    assert(inner.subrange(a.len() as int + 1, inner.len() as int) =~= c);
    lemma_find_none(c, ',', 0);
    assert(super::text::split(c, ',') == seq![c]);
    let parts = super::text::split(inner, ',');
    assert(parts =~= seq![a] + seq![c]);
    assert(parts.map_values(|p: Seq<char>| super::text::trim(p)) =~= seq![super::text::trim(a), super::text::trim(c)]);
    assert(written_args(q) == seq![super::text::trim(a), super::text::trim(c)]);
    lemma_parse_enemy(q);
    lemma_parse_friendly(q);
    lemma_parse_peek(q);
    lemma_parse_observe(q);
    lemma_parse_take_move(q);
}

} // verus!
