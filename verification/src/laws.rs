//! What holds of the library as a whole, proved over the models that the
//! functions' contracts speak of.

use vstd::prelude::*;
use crate::ast::Node;
use crate::machine::{
    added, finished, lemma_budget_only_shrinks, lemma_node_budget, moved, on_tape, run, run_loop,
    run_node, wrap, Fault, Outcome, State,
};
use crate::nesting::{
    balanced, block_end, depth, is_bracket, lemma_block_end_meaning, lemma_close_at_plain,
};
use crate::parser::{build, fused, nodes_of, parse_program, starts_with_clear, ParseError};
use crate::runs::{lemma_run_is, lemma_run_len, net, run_len, run_net};
use crate::tokens::{
    instructions, is_instruction, lemma_commentary_filters_away, lemma_instructions_pass,
};

verus! {

/// Tokens without loop brackets are balanced.
proof fn lemma_plain_is_balanced(t: Seq<char>)
    requires
        forall|i: int| 0 <= i < t.len() ==> !is_bracket(#[trigger] t[i]),
    ensures
        block_end(t) == t.len(),
        depth(t) == 0,
{
    lemma_close_at_plain(t, t.len() as int, 0);
    assert(t.skip(t.len() as int) =~= Seq::<char>::empty());
    assert(t.take(t.len() as int) =~= t);
}

/// A program's text parses to a tree exactly when the loop brackets among
/// its instructions are balanced.
pub proof fn law_parses_iff_balanced(text: Seq<char>)
    ensures
        parse_program(text) is Ok <==> balanced(instructions(text)),
{
    lemma_block_end_meaning(instructions(text));
}

/// A text that holds no instruction parses to the empty program.
pub proof fn law_commentary_is_the_empty_program(text: Seq<char>)
    requires
        forall|i: int| 0 <= i < text.len() ==> !is_instruction(text[i]),
    ensures
        parse_program(text) == Ok::<Node, ParseError>(Node::Do(Seq::empty())),
{
    lemma_commentary_filters_away(text);
    let t = instructions(text);
    lemma_plain_is_balanced(t);
    lemma_block_end_meaning(t);
}

/// A program that is one run of cell changes parses to one add node that
/// carries what the run amounts to: one for every `+`, minus one for
/// every `-`.
pub proof fn law_run_of_changes_is_one_node(text: Seq<char>)
    requires
        text.len() > 0,
        forall|i: int| 0 <= i < text.len() ==> text[i] == '+' || text[i] == '-',
    ensures
        parse_program(text) == Ok::<Node, ParseError>(
            Node::Do(seq![Node::Add(net(text, '+', '-'))]),
        ),
{
    lemma_instructions_pass(text);
    lemma_plain_is_balanced(text);
    lemma_block_end_meaning(text);
    lemma_run_is(text, text.len() as int, '+', '-');
    assert(text.take(text.len() as int) =~= text);
    assert(text.skip(text.len() as int) =~= Seq::<char>::empty());
    let one = seq![Node::Add(net(text, '+', '-'))];
    assert(Seq::<Node>::empty().push(Node::Add(net(text, '+', '-'))) =~= one);
    assert(build(text.skip(text.len() as int), one) == one);
}

/// A program that is one run of pointer moves parses to one move node
/// that carries what the run amounts to: one for every `>`, minus one for
/// every `<`.
pub proof fn law_run_of_moves_is_one_node(text: Seq<char>)
    requires
        text.len() > 0,
        forall|i: int| 0 <= i < text.len() ==> text[i] == '>' || text[i] == '<',
    ensures
        parse_program(text) == Ok::<Node, ParseError>(
            Node::Do(seq![Node::PointerAdd(net(text, '>', '<'))]),
        ),
{
    lemma_instructions_pass(text);
    lemma_plain_is_balanced(text);
    lemma_block_end_meaning(text);
    lemma_run_is(text, text.len() as int, '>', '<');
    assert(text.take(text.len() as int) =~= text);
    assert(text.skip(text.len() as int) =~= Seq::<char>::empty());
    let one = seq![Node::PointerAdd(net(text, '>', '<'))];
    assert(Seq::<Node>::empty().push(Node::PointerAdd(net(text, '>', '<'))) =~= one);
    assert(build(text.skip(text.len() as int), one) == one);
}

/// Wherever in a block a run of pointer moves is followed at once by a
/// run of cell changes, the two give one move-then-add node, and the
/// block goes on behind the second run.
pub proof fn law_move_then_add_fuses(t: Seq<char>, before: Seq<Node>)
    requires
        t.len() > 0,
        t[0] == '>' || t[0] == '<',
        run_len(t, '>', '<') < t.len(),
        t[run_len(t, '>', '<') as int] == '+' || t[run_len(t, '>', '<') as int] == '-',
    ensures
        ({
            let moves = run_len(t, '>', '<') as int;
            let changes = run_len(t.skip(moves), '+', '-') as int;
            build(t, before) == build(
                t.skip(moves + changes),
                before.push(Node::MovAdd(run_net(t, '>', '<'), run_net(t.skip(moves), '+', '-'))),
            )
        }),
{
    let moves = run_len(t, '>', '<') as int;
    let rest = t.skip(moves);
    let changes = run_len(rest, '+', '-') as int;
    let with_move = before.push(Node::PointerAdd(run_net(t, '>', '<')));
    lemma_run_len(t, '>', '<');
    lemma_run_len(rest, '+', '-');
    assert(build(t, before) == build(rest, with_move));
    assert(rest[0] == t[moves]);
    assert(with_move.drop_last() =~= before);
    assert(rest.skip(changes) =~= t.skip(moves + changes));
}

/// A program that is a run of pointer moves and then a run of cell
/// changes parses to one move-then-add node, not to two nodes.
pub proof fn law_move_then_add_is_one_node(moves: Seq<char>, changes: Seq<char>)
    requires
        moves.len() > 0,
        forall|i: int| 0 <= i < moves.len() ==> moves[i] == '>' || moves[i] == '<',
        changes.len() > 0,
        forall|i: int| 0 <= i < changes.len() ==> changes[i] == '+' || changes[i] == '-',
    ensures
        parse_program(moves + changes) == Ok::<Node, ParseError>(
            Node::Do(seq![Node::MovAdd(net(moves, '>', '<'), net(changes, '+', '-'))]),
        ),
{
    let t = moves + changes;
    let n = moves.len() as int;
    let m = changes.len() as int;
    let fused = Node::MovAdd(net(moves, '>', '<'), net(changes, '+', '-'));
    assert(instructions(t) == t && block_end(t) == t.len() && depth(t) == 0) by {
        assert forall|i: int| 0 <= i < t.len() implies is_instruction(t[i]) && !is_bracket(
            #[trigger] t[i],
        ) by {
            if i < n {
                assert(t[i] == moves[i]);
            } else {
                assert(t[i] == changes[i - n]);
            }
        }
        lemma_instructions_pass(t);
        lemma_plain_is_balanced(t);
    }
    assert(nodes_of(t) == seq![fused]) by {
        assert(run_len(t, '>', '<') == n) by {
            assert(t[n] == changes[0]);
            assert forall|i: int| 0 <= i < n implies #[trigger] t[i] == '>' || t[i] == '<' by {
                assert(t[i] == moves[i]);
            }
            lemma_run_is(t, n, '>', '<');
        }
        assert(t.take(n) =~= moves);
        assert(t.skip(n) =~= changes);
        assert(run_len(changes, '+', '-') == m) by {
            lemma_run_is(changes, m, '+', '-');
        }
        assert(changes.take(m) =~= changes);
        assert(t[n] == changes[0]);
        law_move_then_add_fuses(t, Seq::empty());
        assert(t.skip(n + m) =~= Seq::<char>::empty());
        assert(Seq::<Node>::empty().push(fused) =~= seq![fused]);
        assert(build(t.skip(n + m), seq![fused]) == seq![fused]);
    }
    lemma_block_end_meaning(t);
}

/// Whether no pointer move among `nodes`, nor in a loop below them,
/// stands directly before a cell change.
pub open spec fn fully_fused(nodes: Seq<Node>) -> bool
    decreases nodes,
{
    forall|i: int|
        0 <= i < nodes.len() ==> {
            &&& i + 1 < nodes.len() ==> !(#[trigger] nodes[i] is PointerAdd && nodes[i + 1] is Add)
            &&& nodes[i] matches Node::Loop(body) ==> fully_fused(body)
        }
}

/// A node that is no cell change may follow any fully fused block.
proof fn lemma_push_keeps_fused(before: Seq<Node>, node: Node)
    requires
        fully_fused(before),
        !(node is Add),
        node matches Node::Loop(body) ==> fully_fused(body),
    ensures
        fully_fused(before.push(node)),
{
    let after = before.push(node);
    assert forall|i: int| 0 <= i < after.len() implies {
        &&& i + 1 < after.len() ==> !(#[trigger] after[i] is PointerAdd && after[i + 1] is Add)
        &&& after[i] matches Node::Loop(body) ==> fully_fused(body)
    } by {
        if i < before.len() {
            assert(after[i] == before[i]);
            if i + 1 < before.len() {
                assert(after[i + 1] == before[i + 1]);
            }
        }
    }
}

/// The rule that joins a cell change to a block keeps the block fully
/// fused.
proof fn lemma_fused_keeps_fused(before: Seq<Node>, value: int)
    requires
        fully_fused(before),
    ensures
        fully_fused(fused(before, value)),
{
    let after = fused(before, value);
    assert forall|i: int| 0 <= i < after.len() implies {
        &&& i + 1 < after.len() ==> !(#[trigger] after[i] is PointerAdd && after[i + 1] is Add)
        &&& after[i] matches Node::Loop(body) ==> fully_fused(body)
    } by {
        if i + 1 < after.len() {
            assert(after[i] == before[i]);
            if i + 2 < after.len() {
                assert(after[i + 1] == before[i + 1]);
            }
        } else if i < before.len() {
            assert(before[i] is PointerAdd);
        }
    }
}

/// The parser fuses wherever it can: in the block that it builds, and in
/// every loop below it, no pointer move is left directly before a cell
/// change.
pub proof fn law_fusion_is_complete(t: Seq<char>, before: Seq<Node>)
    requires
        fully_fused(before),
    ensures
        fully_fused(build(t, before)),
    decreases t.len(),
{
    if t.len() == 0 || t[0] == ']' {
    } else if t[0] == '>' || t[0] == '<' {
        let n = run_len(t, '>', '<') as int;
        lemma_run_len(t, '>', '<');
        let next = before.push(Node::PointerAdd(run_net(t, '>', '<')));
        lemma_push_keeps_fused(before, Node::PointerAdd(run_net(t, '>', '<')));
        law_fusion_is_complete(t.skip(n), next);
    } else if t[0] == '+' || t[0] == '-' {
        let n = run_len(t, '+', '-') as int;
        lemma_run_len(t, '+', '-');
        lemma_fused_keeps_fused(before, run_net(t, '+', '-'));
        law_fusion_is_complete(t.skip(n), fused(before, run_net(t, '+', '-')));
    } else if t[0] == '.' {
        lemma_push_keeps_fused(before, Node::Output);
        law_fusion_is_complete(t.skip(1), before.push(Node::Output));
    } else if t[0] == ',' {
        lemma_push_keeps_fused(before, Node::Input);
        law_fusion_is_complete(t.skip(1), before.push(Node::Input));
    } else if t[0] == '[' {
        if starts_with_clear(t) {
            lemma_push_keeps_fused(before, Node::SetCell(0));
            law_fusion_is_complete(t.skip(3), before.push(Node::SetCell(0)));
        } else {
            let inner = t.skip(1);
            law_fusion_is_complete(inner, Seq::empty());
            let node = Node::Loop(build(inner, Seq::empty()));
            lemma_push_keeps_fused(before, node);
            if block_end(inner) < inner.len() {
                law_fusion_is_complete(inner.skip(block_end(inner) as int + 1), before.push(node));
            }
        }
    } else {
        law_fusion_is_complete(t.skip(1), before);
    }
}

/// Every tree that a program's text parses to is fully fused.
pub proof fn law_programs_are_fully_fused(text: Seq<char>)
    ensures
        parse_program(text) matches Ok(Node::Do(nodes)) ==> fully_fused(nodes),
{
    law_fusion_is_complete(instructions(text), Seq::empty());
}

/// Wherever in a block the three tokens `[-]` stand where a loop may
/// start, they give a node that writes zero, never a loop node, and the
/// block goes on behind them.
pub proof fn law_clear_is_a_write(t: Seq<char>, before: Seq<Node>)
    requires
        starts_with_clear(t),
    ensures
        build(t, before) == build(t.skip(3), before.push(Node::SetCell(0))),
{
}

/// A loop whose body clears the current cell, started on a cell that is
/// not zero with budget for one iteration, runs its body once and ends:
/// the cell is zero, one unit of the budget is spent, and nothing else
/// has changed.
pub proof fn law_clearing_loop_runs_once(s: State)
    requires
        on_tape(s),
        s.tape[s.pointer] != 0,
        s.steps > 0,
    ensures
        run_node(Node::Loop(seq![Node::SetCell(0)]), s) == finished(
            State { tape: s.tape.update(s.pointer, 0), steps: (s.steps - 1) as nat, ..s },
        ),
        run(seq![Node::Loop(seq![Node::SetCell(0)])], s) == finished(
            State { tape: s.tape.update(s.pointer, 0), steps: (s.steps - 1) as nat, ..s },
        ),
{
    let body = seq![Node::SetCell(0)];
    let entered = State { steps: (s.steps - 1) as nat, ..s };
    let cleared = State { tape: s.tape.update(s.pointer, 0), ..entered };
    assert(run_node(body[0], entered) == finished(cleared));
    assert(body.skip(1) =~= Seq::<Node>::empty());
    assert(run(body.skip(1), cleared) == finished(cleared));
    assert(run(body, entered) == finished(cleared));
    assert(run_loop(body, cleared) == finished(cleared));
    assert(run_loop(body, s) == finished(cleared));
    let program = seq![Node::Loop(body)];
    assert(program.skip(1) =~= Seq::<Node>::empty());
    assert(run(program.skip(1), cleared) == finished(cleared));
}

/// Adding to a cell twice is adding the sum once: a run of cell changes
/// does to a cell what the one node that it fuses to does.
pub proof fn law_adds_compose(cell: u8, first: int, second: int)
    ensures
        wrap(wrap(cell, first), second) == wrap(cell, first + second),
{
}

/// A move-then-add node does what the pointer move and the cell change
/// that it was fused from do one after the other.
pub proof fn law_fused_node_means_both(distance: int, delta: int, s: State)
    ensures
        run(seq![Node::MovAdd(distance, delta)], s) == run(
            seq![Node::PointerAdd(distance), Node::Add(delta)],
            s,
        ),
{
    let fused = seq![Node::MovAdd(distance, delta)];
    let both = seq![Node::PointerAdd(distance), Node::Add(delta)];
    let o = moved(s, distance);
    assert(run_node(both[0], s) == o);
    if o.fault is Some {
        assert(run_node(fused[0], s) == o);
    } else {
        let after = added(o.state, delta);
        assert(run_node(fused[0], s) == after);
        assert(fused.skip(1) =~= Seq::<Node>::empty());
        assert(run(fused.skip(1), after.state) == finished(after.state));
        assert(run(fused, s) == after);
        let last = both.skip(1);
        assert(last[0] == Node::Add(delta));
        assert(run_node(last[0], o.state) == after);
        assert(last.skip(1) =~= Seq::<Node>::empty());
        assert(run(last.skip(1), after.state) == finished(after.state));
        assert(run(last, o.state) == after);
        assert(run(both, s) == after);
    }
}

/// The loop that the clear idiom stands for, a loop that takes one from
/// the current cell, ends with the cell at zero when the budget covers
/// one iteration for each unit of the cell's value. The write of zero that
/// the parser puts in its place gives the same tape and spends no budget.
pub proof fn law_countdown_ends_at_zero(s: State)
    requires
        on_tape(s),
        s.steps >= s.tape[s.pointer],
    ensures
        run_loop(seq![Node::Add(-1)], s) == finished(
            State {
                tape: s.tape.update(s.pointer, 0),
                steps: (s.steps - s.tape[s.pointer]) as nat,
                ..s
            },
        ),
    decreases s.tape[s.pointer],
{
    let body = seq![Node::Add(-1)];
    let cell = s.tape[s.pointer];
    if cell == 0 {
        assert(s.tape.update(s.pointer, 0) =~= s.tape);
    } else {
        let entered = State { steps: (s.steps - 1) as nat, ..s };
        let less = State { tape: s.tape.update(s.pointer, (cell - 1) as u8), ..entered };
        assert(wrap(cell, -1) == (cell - 1) as u8);
        assert(run_node(body[0], entered) == finished(less));
        assert(body.skip(1) =~= Seq::<Node>::empty());
        assert(run(body.skip(1), less) == finished(less));
        assert(run(body, entered) == finished(less));
        law_countdown_ends_at_zero(less);
        assert(less.tape.update(less.pointer, 0) =~= s.tape.update(s.pointer, 0));
    }
}

/// A state with `extra` more budget.
pub open spec fn with_more(s: State, extra: nat) -> State {
    State { steps: s.steps + extra, ..s }
}

/// An outcome as it is when `extra` more budget was there from the start
/// and none of it was needed.
pub open spec fn spared(o: Outcome, extra: nat) -> Outcome {
    Outcome { state: with_more(o.state, extra), fault: o.fault }
}

/// The budget bounds a run and does nothing else to it: a block that runs
/// without using up its budget does the same with any larger budget, and
/// is left with as much more.
pub proof fn law_budget_only_bounds(nodes: Seq<Node>, s: State, extra: nat)
    requires
        run(nodes, s).fault != Some(Fault::StepLimit),
    ensures
        run(nodes, with_more(s, extra)) == spared(run(nodes, s), extra),
    decreases s.steps, nodes.len() + 2,
{
    if nodes.len() > 0 {
        let o = run_node(nodes[0], s);
        lemma_node_budget(nodes[0], s);
        law_node_budget_only_bounds(nodes[0], s, extra);
        if o.fault is None {
            law_budget_only_bounds(nodes.skip(1), o.state, extra);
        }
    }
}

/// What [`law_budget_only_bounds`] says of a block holds of one node.
pub proof fn law_node_budget_only_bounds(node: Node, s: State, extra: nat)
    requires
        run_node(node, s).fault != Some(Fault::StepLimit),
    ensures
        run_node(node, with_more(s, extra)) == spared(run_node(node, s), extra),
    decreases s.steps, 1nat,
{
    match node {
        Node::Loop(body) => law_loop_budget_only_bounds(body, s, extra),
        _ => {},
    }
}

/// What [`law_budget_only_bounds`] says of a block holds of a loop.
pub proof fn law_loop_budget_only_bounds(body: Seq<Node>, s: State, extra: nat)
    requires
        run_loop(body, s).fault != Some(Fault::StepLimit),
    ensures
        run_loop(body, with_more(s, extra)) == spared(run_loop(body, s), extra),
    decreases s.steps, 0nat,
{
    if on_tape(s) && s.tape[s.pointer] != 0 && s.steps > 0 {
        let entered = State { steps: (s.steps - 1) as nat, ..s };
        let o = run(body, entered);
        lemma_budget_only_shrinks(body, entered);
        assert(with_more(entered, extra) == State {
            steps: (with_more(s, extra).steps - 1) as nat,
            ..with_more(s, extra)
        });
        law_budget_only_bounds(body, entered, extra);
        if o.fault is None {
            law_loop_budget_only_bounds(body, o.state, extra);
        }
    }
}

} // verus!
