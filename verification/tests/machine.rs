use bfir::machine::wrapped;
use bfir::{Ast, Fault, Machine, ParseError};

fn parsed(text: &str) -> Vec<Ast> {
    match Ast::new(text.to_string()) {
        Ok(Ast::Do(nodes)) => nodes,
        other => panic!("no program: {:?}", other),
    }
}

fn run_text(text: &str, cells: usize, steps: usize) -> (Result<(), Fault>, Machine) {
    let nodes = parsed(text);
    let mut machine = Machine::new(cells, steps);
    let result = Ast::_exec(&mut machine, &nodes);
    (result, machine)
}

fn written(machine: &Machine) -> String {
    machine.output.iter().collect()
}

#[test]
fn adding_one_to_255_gives_zero() {
    assert_eq!(wrapped(255, 1), 0);
    let mut machine = Machine::new(1, 0);
    machine.memory[0] = 255;
    assert_eq!(machine.bump(1), Ok(()));
    assert_eq!(machine.memory[0], 0);
}

#[test]
fn taking_one_from_zero_gives_255() {
    assert_eq!(wrapped(0, -1), 255);
    let mut machine = Machine::new(1, 0);
    assert_eq!(machine.bump(-1), Ok(()));
    assert_eq!(machine.memory[0], 255);
}

#[test]
fn wrapped_reduces_large_amounts() {
    assert_eq!(wrapped(10, 0), 10);
    assert_eq!(wrapped(10, 5), 15);
    assert_eq!(wrapped(10, -5), 5);
    assert_eq!(wrapped(10, 256), 10);
    assert_eq!(wrapped(10, -256), 10);
    assert_eq!(wrapped(10, 300), 54);
    assert_eq!(wrapped(10, -300), 222);
    assert_eq!(wrapped(200, 100), 44);
    assert_eq!(wrapped(7, isize::MIN), 7);
    assert_eq!(wrapped(0, isize::MAX), 255);
    assert_eq!(wrapped(1, isize::MAX), 0);
}

#[test]
fn a_new_machine_is_blank() {
    let machine = Machine::new(4, 10);
    assert_eq!(machine.pointer, 0);
    assert_eq!(machine.memory, vec![0u8; 4]);
    assert_eq!(machine.output, Vec::<char>::new());
    assert_eq!(machine.steps, 10);
    assert!(machine.on_tape());
    assert!(!Machine::new(0, 0).on_tape());
}

#[test]
fn the_canonical_program_writes_an_at_sign() {
    let (result, machine) = run_text("++++++++[>++++++++<-]>.", 30000, 1000);
    assert_eq!(result, Ok(()));
    assert_eq!(machine.output, vec![64u8 as char]);
    assert_eq!(written(&machine), "@");
    assert_eq!(machine.pointer, 1);
    assert_eq!(machine.memory[0], 0);
    assert_eq!(machine.memory[1], 64);
    assert_eq!(machine.steps, 992);
}

#[test]
fn a_loop_around_a_clear_runs_once() {
    let (result, machine) = run_text("+++[[-]]", 8, 100);
    assert_eq!(result, Ok(()));
    assert_eq!(machine.memory[0], 0);
    assert_eq!(machine.steps, 99);
    assert_eq!(machine.pointer, 0);
    assert_eq!(machine.output, Vec::<char>::new());
}

#[test]
fn a_loop_on_a_zero_cell_is_skipped() {
    let (result, machine) = run_text("[[-]]", 8, 0);
    assert_eq!(result, Ok(()));
    assert_eq!(machine.steps, 0);
    let (result, machine) = run_text("[.,<<<]", 8, 5);
    assert_eq!(result, Ok(()));
    assert_eq!(machine.steps, 5);
    assert_eq!(machine.pointer, 0);
}

#[test]
fn each_iteration_costs_one_step() {
    let (result, machine) = run_text("+++[>+<-]", 8, 10);
    assert_eq!(result, Ok(()));
    assert_eq!(machine.steps, 7);
    assert_eq!(machine.memory[0], 0);
    assert_eq!(machine.memory[1], 3);
    let (result, machine) = run_text("++[>++[>+<-]<-]", 8, 100);
    assert_eq!(result, Ok(()));
    assert_eq!(machine.steps, 94);
    assert_eq!(machine.memory[2], 4);
}

#[test]
fn a_budget_that_runs_out_is_a_fault() {
    let (result, machine) = run_text("+[]", 8, 5);
    assert_eq!(result, Err(Fault::StepLimit));
    assert_eq!(machine.steps, 0);
    assert_eq!(machine.memory[0], 1);
    let (result, machine) = run_text("+++[>+<-]", 8, 2);
    assert_eq!(result, Err(Fault::StepLimit));
    assert_eq!(machine.memory[0], 1);
    assert_eq!(machine.memory[1], 2);
    let (result, _) = run_text("+++[>+<-]", 8, 3);
    assert_eq!(result, Ok(()));
}

#[test]
fn input_is_a_fault() {
    let (result, machine) = run_text("+.,.", 8, 5);
    assert_eq!(result, Err(Fault::InputUnsupported));
    assert_eq!(machine.output, vec![1u8 as char]);
    assert_eq!(machine.memory[0], 1);
}

#[test]
fn a_cell_off_the_tape_is_a_fault() {
    let (result, machine) = run_text("<+", 8, 5);
    assert_eq!(result, Err(Fault::PointerOutOfRange));
    assert_eq!(machine.pointer, -1);
    assert_eq!(machine.memory, vec![0u8; 8]);
    let (result, _) = run_text("<.", 8, 5);
    assert_eq!(result, Err(Fault::PointerOutOfRange));
    let (result, _) = run_text("<[-]", 8, 5);
    assert_eq!(result, Err(Fault::PointerOutOfRange));
    let (result, _) = run_text("<[.]", 8, 5);
    assert_eq!(result, Err(Fault::PointerOutOfRange));
    let (result, machine) = run_text(">>.", 2, 5);
    assert_eq!(result, Err(Fault::PointerOutOfRange));
    assert_eq!(machine.pointer, 2);
    let (result, _) = run_text(">.", 2, 5);
    assert_eq!(result, Ok(()));
    let (result, _) = run_text(".", 0, 5);
    assert_eq!(result, Err(Fault::PointerOutOfRange));
}

#[test]
fn a_move_alone_looks_at_no_cell() {
    let (result, machine) = run_text("<", 8, 5);
    assert_eq!(result, Ok(()));
    assert_eq!(machine.pointer, -1);
    let (result, machine) = run_text("<<.>>", 8, 5);
    assert_eq!(result, Err(Fault::PointerOutOfRange));
    assert_eq!(machine.pointer, -2);
}

#[test]
fn a_pointer_beyond_isize_is_a_fault() {
    let mut machine = Machine::new(1, 0);
    machine.pointer = isize::MAX;
    assert_eq!(machine.shift(1), Err(Fault::PointerOutOfRange));
    assert_eq!(machine.pointer, isize::MAX);
    machine.pointer = isize::MIN;
    assert_eq!(machine.shift(-1), Err(Fault::PointerOutOfRange));
    assert_eq!(machine.shift(1), Ok(()));
    assert_eq!(machine.pointer, isize::MIN + 1);
    let nodes = vec![Ast::PointerAdd(isize::MAX), Ast::MovAdd(1, 1)];
    let mut machine = Machine::new(1, 0);
    assert_eq!(Ast::_exec(&mut machine, &nodes), Err(Fault::PointerOutOfRange));
    assert_eq!(machine.pointer, isize::MAX);
}

#[test]
fn a_fault_stops_the_run_where_it_is_met() {
    let (result, machine) = run_text("+.>+.<<.>>++.", 8, 5);
    assert_eq!(result, Err(Fault::PointerOutOfRange));
    assert_eq!(machine.output, vec![1u8 as char, 1u8 as char]);
    assert_eq!(machine.pointer, -1);
    assert_eq!(machine.memory[1], 1);
}

#[test]
fn output_is_the_character_with_the_cells_code_point() {
    let nodes = vec![Ast::SetCell(200), Ast::Output, Ast::SetCell(65), Ast::Output];
    let mut machine = Machine::new(1, 0);
    assert_eq!(Ast::_exec(&mut machine, &nodes), Ok(()));
    assert_eq!(machine.output, vec!['\u{c8}', 'A']);
}

#[test]
fn the_single_steps_do_what_the_nodes_do() {
    let mut machine = Machine::new(3, 0);
    assert_eq!(machine.shift(2), Ok(()));
    assert_eq!(machine.store(9), Ok(()));
    assert_eq!(machine.bump(-10), Ok(()));
    assert_eq!(machine.print(), Ok(()));
    assert_eq!(machine.memory, vec![0, 0, 255]);
    assert_eq!(machine.output, vec!['\u{ff}']);
    assert_eq!(machine.shift(1), Ok(()));
    assert_eq!(machine.store(9), Err(Fault::PointerOutOfRange));
    assert_eq!(machine.bump(1), Err(Fault::PointerOutOfRange));
    assert_eq!(machine.print(), Err(Fault::PointerOutOfRange));
    assert_eq!(machine.memory, vec![0, 0, 255]);
}

#[test]
fn exec_node_runs_every_kind_of_node() {
    let mut machine = Machine::new(3, 4);
    assert_eq!(Ast::exec_node(&mut machine, &Ast::Add(5)), Ok(()));
    assert_eq!(Ast::exec_node(&mut machine, &Ast::MovAdd(1, -1)), Ok(()));
    assert_eq!(Ast::exec_node(&mut machine, &Ast::PointerAdd(1)), Ok(()));
    assert_eq!(Ast::exec_node(&mut machine, &Ast::SetCell(66)), Ok(()));
    assert_eq!(Ast::exec_node(&mut machine, &Ast::Output), Ok(()));
    assert_eq!(Ast::exec_node(&mut machine, &Ast::Do(vec![Ast::Input])), Ok(()));
    assert_eq!(
        Ast::exec_node(&mut machine, &Ast::Loop(vec![Ast::Add(-33)])),
        Ok(())
    );
    assert_eq!(Ast::exec_node(&mut machine, &Ast::Input), Err(Fault::InputUnsupported));
    assert_eq!(machine.memory, vec![5, 255, 0]);
    assert_eq!(machine.output, vec!['B']);
    assert_eq!(machine.steps, 2);
    assert_eq!(machine.pointer, 2);
}

#[test]
fn exec_loop_runs_while_the_cell_is_not_zero() {
    let mut machine = Machine::new(2, 10);
    machine.memory[0] = 4;
    let body = vec![Ast::Add(-1), Ast::MovAdd(1, 2), Ast::PointerAdd(-1)];
    assert_eq!(Ast::exec_loop(&mut machine, &body), Ok(()));
    assert_eq!(machine.memory, vec![0, 8]);
    assert_eq!(machine.steps, 6);
    assert_eq!(Ast::exec_loop(&mut machine, &body), Ok(()));
    assert_eq!(machine.steps, 6);
}

#[test]
fn a_long_program_writes_its_greeting() {
    let text = "++++++++[>++++[>++>+++>+++>+<<<<-]>+>+>->>+[<]<-]>>.>---.+++++++..+++.>>.<-.<.+++.------.--------.>>+.>++.";
    let (result, machine) = run_text(text, 30000, 100000);
    assert_eq!(result, Ok(()));
    assert_eq!(written(&machine), "Hello World!\n");
}

#[test]
fn unbalanced_text_never_reaches_the_machine() {
    assert_eq!(Ast::new("+[".to_string()), Err(ParseError::UnclosedLoop));
}
