use bfir::codegen::{push_decimal, push_signed};
use bfir::Ast;

fn statements(nodes: Vec<Ast>) -> String {
    Ast::_compile(&nodes)
}

fn decimal_of(n: usize) -> String {
    let mut out = String::new();
    push_decimal(&mut out, n);
    out
}

fn signed_of(x: isize) -> String {
    let mut out = String::new();
    push_signed(&mut out, x);
    out
}

#[test]
fn decimal_digits_are_those_of_the_standard_library() {
    assert_eq!(decimal_of(0), "0");
    assert_eq!(decimal_of(7), "7");
    assert_eq!(decimal_of(9), "9");
    assert_eq!(decimal_of(10), "10");
    assert_eq!(decimal_of(255), "255");
    assert_eq!(decimal_of(1234567890), "1234567890");
    assert_eq!(decimal_of(usize::MAX), format!("{}", usize::MAX));
}

#[test]
fn signed_decimals_carry_their_sign() {
    assert_eq!(signed_of(0), "0");
    assert_eq!(signed_of(42), "42");
    assert_eq!(signed_of(-1), "-1");
    assert_eq!(signed_of(-300), "-300");
    assert_eq!(signed_of(isize::MAX), format!("{}", isize::MAX));
    assert_eq!(signed_of(isize::MIN), format!("{}", isize::MIN));
}

#[test]
fn push_decimal_appends() {
    let mut out = String::from("n = ");
    push_decimal(&mut out, 30);
    push_signed(&mut out, -4);
    assert_eq!(out, "n = 30-4");
}

#[test]
fn an_add_is_a_wrapping_add_or_sub() {
    assert_eq!(
        statements(vec![Ast::Add(3)]),
        "memory[ptr as usize] = memory[ptr as usize].wrapping_add(3u8);\n"
    );
    assert_eq!(
        statements(vec![Ast::Add(-2)]),
        "memory[ptr as usize] = memory[ptr as usize].wrapping_sub(2u8);\n"
    );
    assert_eq!(
        statements(vec![Ast::Add(0)]),
        "memory[ptr as usize] = memory[ptr as usize].wrapping_sub(0u8);\n"
    );
    assert_eq!(
        statements(vec![Ast::Add(255)]),
        "memory[ptr as usize] = memory[ptr as usize].wrapping_add(255u8);\n"
    );
}

#[test]
fn an_amount_beyond_a_byte_is_reduced_to_one() {
    assert_eq!(
        statements(vec![Ast::Add(300)]),
        "memory[ptr as usize] = memory[ptr as usize].wrapping_add(44u8);\n"
    );
    assert_eq!(
        statements(vec![Ast::Add(256)]),
        "memory[ptr as usize] = memory[ptr as usize].wrapping_add(0u8);\n"
    );
    assert_eq!(
        statements(vec![Ast::Add(-300)]),
        "memory[ptr as usize] = memory[ptr as usize].wrapping_sub(44u8);\n"
    );
    assert_eq!(
        statements(vec![Ast::Add(isize::MIN)]),
        "memory[ptr as usize] = memory[ptr as usize].wrapping_sub(0u8);\n"
    );
    assert_eq!(
        statements(vec![Ast::Add(isize::MAX)]),
        "memory[ptr as usize] = memory[ptr as usize].wrapping_add(255u8);\n"
    );
}

#[test]
fn a_pointer_move_is_an_addition_to_the_pointer() {
    assert_eq!(statements(vec![Ast::PointerAdd(4)]), "ptr +=4;\n");
    assert_eq!(statements(vec![Ast::PointerAdd(-3)]), "ptr +=-3;\n");
    assert_eq!(statements(vec![Ast::PointerAdd(0)]), "ptr +=0;\n");
    assert_eq!(
        statements(vec![Ast::PointerAdd(isize::MIN)]),
        format!("ptr +={};\n", isize::MIN)
    );
}

#[test]
fn a_move_then_add_is_both_on_one_line() {
    assert_eq!(
        statements(vec![Ast::MovAdd(2, 5)]),
        "ptr +=2;memory[ptr as usize] = memory[ptr as usize].wrapping_add(5u8);\n"
    );
    assert_eq!(
        statements(vec![Ast::MovAdd(-1, -1)]),
        "ptr +=-1;memory[ptr as usize] = memory[ptr as usize].wrapping_sub(1u8);\n"
    );
}

#[test]
fn a_cell_write_is_an_assignment() {
    assert_eq!(statements(vec![Ast::SetCell(0)]), "memory[ptr as usize] = 0;\n");
    assert_eq!(statements(vec![Ast::SetCell(255)]), "memory[ptr as usize] = 255;\n");
}

#[test]
fn output_prints_the_cell_as_a_character() {
    assert_eq!(
        statements(vec![Ast::Output]),
        "print!(\"{}\", memory[ptr as usize] as char);\n"
    );
}

#[test]
fn input_and_a_nested_root_give_no_text() {
    assert_eq!(statements(vec![Ast::Input]), "");
    assert_eq!(statements(vec![Ast::Do(vec![Ast::Output])]), "");
    assert_eq!(statements(vec![]), "");
    assert_eq!(
        statements(vec![Ast::Input, Ast::SetCell(1), Ast::Input]),
        "memory[ptr as usize] = 1;\n"
    );
}

#[test]
fn a_loop_is_a_while_loop_around_its_body() {
    assert_eq!(
        statements(vec![Ast::Loop(vec![])]),
        "while memory[ptr as usize] != 0 {\n};\n"
    );
    assert_eq!(
        statements(vec![Ast::Loop(vec![Ast::Add(-1), Ast::Loop(vec![Ast::Output])])]),
        "while memory[ptr as usize] != 0 {\n\
         memory[ptr as usize] = memory[ptr as usize].wrapping_sub(1u8);\n\
         while memory[ptr as usize] != 0 {\n\
         print!(\"{}\", memory[ptr as usize] as char);\n\
         };\n\
         };\n"
    );
}

#[test]
fn statements_follow_each_other_in_order() {
    assert_eq!(
        statements(vec![Ast::PointerAdd(1), Ast::SetCell(7), Ast::Output]),
        "ptr +=1;\nmemory[ptr as usize] = 7;\nprint!(\"{}\", memory[ptr as usize] as char);\n"
    );
}

#[test]
fn compile_wraps_the_statements_in_a_main() {
    assert_eq!(
        Ast::compile(&[]),
        "fn main() {let mut memory: Vec<u8> = vec![0;30000];let mut ptr: isize = 0;}"
    );
    assert_eq!(
        Ast::compile(&[Ast::Add(1), Ast::Output]),
        "fn main() {let mut memory: Vec<u8> = vec![0;30000];let mut ptr: isize = 0;\
         memory[ptr as usize] = memory[ptr as usize].wrapping_add(1u8);\n\
         print!(\"{}\", memory[ptr as usize] as char);\n}"
    );
}

#[test]
fn the_canonical_program_compiles_to_its_text() {
    let nodes = match Ast::new("++++++++[>++++++++<-]>.".to_string()) {
        Ok(Ast::Do(nodes)) => nodes,
        other => panic!("no program: {:?}", other),
    };
    assert_eq!(
        Ast::compile(&nodes),
        "fn main() {let mut memory: Vec<u8> = vec![0;30000];let mut ptr: isize = 0;\
         memory[ptr as usize] = memory[ptr as usize].wrapping_add(8u8);\n\
         while memory[ptr as usize] != 0 {\n\
         ptr +=1;memory[ptr as usize] = memory[ptr as usize].wrapping_add(8u8);\n\
         ptr +=-1;memory[ptr as usize] = memory[ptr as usize].wrapping_sub(1u8);\n\
         };\n\
         ptr +=1;\n\
         print!(\"{}\", memory[ptr as usize] as char);\n}"
    );
}
