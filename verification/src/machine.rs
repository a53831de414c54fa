//! The interpreter: a tape of byte cells, a pointer, an output stream and a
//! budget of loop iterations, and what running a tree does to them.
//!
//! Running never panics and always ends. A pointer that is off the tape
//! when a cell is needed, an input instruction, and a budget that runs out
//! are reported as faults; the machine then holds the state in which the
//! fault was met.

use vstd::prelude::*;
use crate::ast::{view_nodes, Ast, Node};

verus! {

/// Why a run stopped before its end.
#[derive(Debug, Clone, Copy, PartialEq, Eq)]
pub enum Fault {
    /// A cell was needed while the pointer was off the tape, or a move took
    /// the pointer out of the range of `isize`.
    PointerOutOfRange,
    /// The program asked for input, which the machine does not have.
    InputUnsupported,
    /// A loop was about to start an iteration with no budget left.
    StepLimit,
}

/// The state of a machine, as the contracts see it.
pub struct State {
    /// The index of the current cell. It may lie off the tape as long as no
    /// cell is needed.
    pub pointer: int,
    /// The cells.
    pub tape: Seq<u8>,
    /// The characters written so far.
    pub output: Seq<char>,
    /// The loop iterations that may still be started.
    pub steps: nat,
}

/// How a run ended: the state it reached and, where it stopped early, why.
pub struct Outcome {
    pub state: State,
    pub fault: Option<Fault>,
}

/// A machine: the execution context that one run owns.
#[derive(Debug)]
pub struct Machine {
    /// The index of the current cell.
    pub pointer: isize,
    /// The tape.
    pub memory: Vec<u8>,
    /// The characters written so far.
    pub output: Vec<char>,
    /// The loop iterations that may still be started.
    pub steps: usize,
}

impl View for Machine {
    type V = State;

    open spec fn view(&self) -> State {
        State {
            pointer: self.pointer as int,
            tape: self.memory@,
            output: self.output@,
            steps: self.steps as nat,
        }
    }
}

/// A run that reached `s` without a fault.
pub open spec fn finished(s: State) -> Outcome {
    Outcome { state: s, fault: None }
}

/// A run that met the fault `f` in state `s`.
pub open spec fn faulted(s: State, f: Fault) -> Outcome {
    Outcome { state: s, fault: Some(f) }
}

/// Whether the pointer is on the tape.
pub open spec fn on_tape(s: State) -> bool {
    0 <= s.pointer < s.tape.len()
}

/// A cell's value after `delta` is added to it: the sum reduced to eight
/// bits. Adding 1 to 255 gives 0, taking 1 from 0 gives 255.
pub open spec fn wrap(cell: u8, delta: int) -> u8 {
    ((cell + delta) % 256) as u8
}

/// Moving the pointer by `distance`. The move itself looks at no cell;
/// it faults only where the pointer would leave the range of `isize`.
pub open spec fn moved(s: State, distance: int) -> Outcome {
    let to = s.pointer + distance;
    if isize::MIN <= to <= isize::MAX {
        finished(State { pointer: to, ..s })
    } else {
        faulted(s, Fault::PointerOutOfRange)
    }
}

/// Writing `value` to the current cell.
pub open spec fn written(s: State, value: u8) -> Outcome {
    if on_tape(s) {
        finished(State { tape: s.tape.update(s.pointer, value), ..s })
    } else {
        faulted(s, Fault::PointerOutOfRange)
    }
}

/// Adding `delta` to the current cell, wrapping at eight bits.
pub open spec fn added(s: State, delta: int) -> Outcome {
    if on_tape(s) {
        written(s, wrap(s.tape[s.pointer], delta))
    } else {
        faulted(s, Fault::PointerOutOfRange)
    }
}

/// Writing the current cell to the output, as the character with the
/// cell's value for its code point.
pub open spec fn printed(s: State) -> Outcome {
    if on_tape(s) {
        finished(State { output: s.output.push(s.tape[s.pointer] as char), ..s })
    } else {
        faulted(s, Fault::PointerOutOfRange)
    }
}

/// Running one node.
pub open spec fn run_node(node: Node, s: State) -> Outcome
    decreases s.steps, 1nat,
{
    match node {
        Node::MovAdd(distance, delta) => {
            let o = moved(s, distance);
            if o.fault is Some {
                o
            } else {
                added(o.state, delta)
            }
        },
        Node::PointerAdd(distance) => moved(s, distance),
        Node::Add(delta) => added(s, delta),
        Node::SetCell(value) => written(s, value),
        Node::Output => printed(s),
        Node::Input => faulted(s, Fault::InputUnsupported),
        Node::Loop(body) => run_loop(body, s),
        Node::Do(_) => finished(s),
    }
}

/// Running a loop: while the current cell is not zero, one unit of the
/// budget is spent and the body is run. The loop faults where the pointer
/// is off the tape when the cell is looked at, and where the cell is not
/// zero and the budget is spent.
///
/// The comparison of the budget after the body with the budget before it
/// serves the recursion alone: a run never adds to its budget
/// ([`lemma_budget_only_shrinks`]).
pub open spec fn run_loop(body: Seq<Node>, s: State) -> Outcome
    decreases s.steps, 0nat,
{
    if !on_tape(s) {
        faulted(s, Fault::PointerOutOfRange)
    } else if s.tape[s.pointer] == 0 {
        finished(s)
    } else if s.steps == 0 {
        faulted(s, Fault::StepLimit)
    } else {
        let o = run(body, State { steps: (s.steps - 1) as nat, ..s });
        if o.fault is Some || o.state.steps >= s.steps {
            o
        } else {
            run_loop(body, o.state)
        }
    }
}

/// Running a block: its nodes in their order, up to the first fault.
///
/// As in [`run_loop`], the comparison of the budgets serves the recursion
/// alone.
pub open spec fn run(nodes: Seq<Node>, s: State) -> Outcome
    decreases s.steps, nodes.len() + 2,
{
    if nodes.len() == 0 {
        finished(s)
    } else {
        let o = run_node(nodes[0], s);
        if o.fault is Some || o.state.steps > s.steps {
            o
        } else {
            run(nodes.skip(1), o.state)
        }
    }
}

/// A run never adds to its budget.
pub proof fn lemma_budget_only_shrinks(nodes: Seq<Node>, s: State)
    ensures
        run(nodes, s).state.steps <= s.steps,
    decreases s.steps, nodes.len() + 2,
{
    if nodes.len() > 0 {
        lemma_node_budget(nodes[0], s);
        let o = run_node(nodes[0], s);
        if o.fault is None {
            lemma_budget_only_shrinks(nodes.skip(1), o.state);
        }
    }
}

/// One node never adds to the budget.
pub proof fn lemma_node_budget(node: Node, s: State)
    ensures
        run_node(node, s).state.steps <= s.steps,
    decreases s.steps, 1nat,
{
    match node {
        Node::Loop(body) => lemma_loop_budget(body, s),
        _ => {},
    }
}

/// A loop never adds to the budget.
pub proof fn lemma_loop_budget(body: Seq<Node>, s: State)
    ensures
        run_loop(body, s).state.steps <= s.steps,
    decreases s.steps, 0nat,
{
    if on_tape(s) && s.tape[s.pointer] != 0 && s.steps > 0 {
        let entered = State { steps: (s.steps - 1) as nat, ..s };
        lemma_budget_only_shrinks(body, entered);
        let o = run(body, entered);
        if o.fault is None {
            lemma_loop_budget(body, o.state);
        }
    }
}

/// Whether a machine in state `m` that answered `r` has done what `o`
/// says: it holds the state of `o`, and `r` is the fault of `o` or, where
/// there is none, success.
pub open spec fn reports(r: Result<(), Fault>, m: State, o: Outcome) -> bool {
    &&& m =~= o.state
    &&& r == match o.fault {
        None => Ok::<(), Fault>(()),
        Some(f) => Err::<(), Fault>(f),
    }
}

/// A cell's value after `delta` is added to it, wrapping at eight bits.
pub fn wrapped(cell: u8, delta: isize) -> (r: u8)
    ensures
        r == wrap(cell, delta as int),
{
    if delta >= 0 {
        let k: usize = (delta as usize) % 256;
        cell.wrapping_add(k as u8)
    } else {
        let k: usize = ((-(delta + 1)) as usize % 256 + 1) % 256;
        cell.wrapping_sub(k as u8)
    }
}

impl Machine {
    /// A machine at its start: `cells` cells, all zero, the pointer on the
    /// first, nothing written, and a budget of `steps` loop iterations.
    pub fn new(cells: usize, steps: usize) -> (m: Machine)
        ensures
            m@ == (State {
                pointer: 0,
                tape: Seq::new(cells as nat, |i: int| 0u8),
                output: Seq::empty(),
                steps: steps as nat,
            }),
    {
        let memory: Vec<u8> = vec![0u8; cells];
        let m = Machine { pointer: 0, memory, output: Vec::new(), steps };
        assert(m@.tape =~= Seq::new(cells as nat, |i: int| 0u8));
        m
    }

    /// Whether the pointer is on the tape.
    pub fn on_tape(&self) -> (r: bool)
        ensures
            r == on_tape(self@),
    {
        self.pointer >= 0 && (self.pointer as usize) < self.memory.len()
    }

    /// Moves the pointer.
    pub fn shift(&mut self, distance: isize) -> (r: Result<(), Fault>)
        ensures
            reports(r, final(self)@, moved(old(self)@, distance as int)),
    {
        match self.pointer.checked_add(distance) {
            Some(to) => {
                self.pointer = to;
                Ok(())
            },
            None => Err(Fault::PointerOutOfRange),
        }
    }

    /// Writes a byte to the current cell.
    pub fn store(&mut self, value: u8) -> (r: Result<(), Fault>)
        ensures
            reports(r, final(self)@, written(old(self)@, value)),
    {
        if self.on_tape() {
            let at = self.pointer as usize;
            self.memory[at] = value;
            Ok(())
        } else {
            Err(Fault::PointerOutOfRange)
        }
    }

    /// Adds to the current cell, wrapping at eight bits.
    pub fn bump(&mut self, delta: isize) -> (r: Result<(), Fault>)
        ensures
            reports(r, final(self)@, added(old(self)@, delta as int)),
    {
        if self.on_tape() {
            let at = self.pointer as usize;
            let value = wrapped(self.memory[at], delta);
            self.memory[at] = value;
            Ok(())
        } else {
            Err(Fault::PointerOutOfRange)
        }
    }

    /// Writes the current cell to the output.
    pub fn print(&mut self) -> (r: Result<(), Fault>)
        ensures
            reports(r, final(self)@, printed(old(self)@)),
    {
        if self.on_tape() {
            let at = self.pointer as usize;
            let c = self.memory[at] as char;
            self.output.push(c);
            Ok(())
        } else {
            Err(Fault::PointerOutOfRange)
        }
    }
}

impl Ast {
    /// Runs a block on a machine. On success the machine holds the state
    /// after the block; on a fault it holds the state in which the fault
    /// was met, and the rest of the block has not been run.
    pub fn _exec(machine: &mut Machine, ast: &[Ast]) -> (r: Result<(), Fault>)
        ensures
            reports(r, final(machine)@, run(view_nodes(ast@), old(machine)@)),
        decreases old(machine).steps, 2nat,
    {
        let ghost nodes = view_nodes(ast@);
        let ghost start = machine@;
        let mut i: usize = 0;
        proof {
            assert(nodes.skip(0) =~= nodes);
        }
        while i < ast.len()
            invariant
                nodes == view_nodes(ast@),
                i <= ast@.len(),
                machine.steps <= start.steps,
                start == old(machine)@,
                run(nodes, start) == run(nodes.skip(i as int), machine@),
            decreases ast@.len() - i,
        {
            let ghost here = machine@;
            proof {
                lemma_node_budget(nodes[i as int], here);
                assert(nodes.skip(i as int).skip(1) =~= nodes.skip(i + 1));
                assert(nodes.skip(i as int)[0] == ast@[i as int]@);
            }
            match Ast::exec_node(machine, &ast[i]) {
                Ok(()) => {},
                Err(f) => {
                    return Err(f);
                },
            }
            i = i + 1;
        }
        Ok(())
    }

    /// Runs one node on a machine.
    pub fn exec_node(machine: &mut Machine, node: &Ast) -> (r: Result<(), Fault>)
        ensures
            reports(r, final(machine)@, run_node(node@, old(machine)@)),
        decreases old(machine).steps, 1nat,
    {
        match node {
            Ast::MovAdd(distance, delta) => {
                match machine.shift(*distance) {
                    Ok(()) => machine.bump(*delta),
                    Err(f) => Err(f),
                }
            },
            Ast::PointerAdd(distance) => machine.shift(*distance),
            Ast::Add(delta) => machine.bump(*delta),
            Ast::SetCell(value) => machine.store(*value),
            Ast::Output => machine.print(),
            Ast::Input => Err(Fault::InputUnsupported),
            Ast::Loop(body) => Ast::exec_loop(machine, body.as_slice()),
            Ast::Do(_) => Ok(()),
        }
    }

    /// Runs a loop on a machine: the body, again and again, while the
    /// current cell is not zero and the budget lasts.
    pub fn exec_loop(machine: &mut Machine, body: &[Ast]) -> (r: Result<(), Fault>)
        ensures
            reports(r, final(machine)@, run_loop(view_nodes(body@), old(machine)@)),
        decreases old(machine).steps, 0nat,
    {
        let ghost nodes = view_nodes(body@);
        let ghost start = machine@;
        loop
            invariant
                nodes == view_nodes(body@),
                machine.steps <= start.steps,
                start == old(machine)@,
                run_loop(nodes, start) == run_loop(nodes, machine@),
            decreases machine.steps,
        {
            if !machine.on_tape() {
                return Err(Fault::PointerOutOfRange);
            }
            if machine.memory[machine.pointer as usize] == 0 {
                return Ok(());
            }
            if machine.steps == 0 {
                return Err(Fault::StepLimit);
            }
            machine.steps = machine.steps - 1;
            proof {
                lemma_budget_only_shrinks(nodes, machine@);
            }
            match Ast::_exec(machine, body) {
                Ok(()) => {},
                Err(f) => {
                    return Err(f);
                },
            }
        }
    }
}

} // verus!
