//! The code generator: the tree written out as the text of a Rust program
//! that does, statement by statement, what the interpreter does node by
//! node.

use vstd::prelude::*;
use crate::ast::{view_nodes, Ast, Node};

verus! {

/// The character of a decimal digit.
pub open spec fn digit(d: int) -> char {
    if d == 0 {
        '0'
    } else if d == 1 {
        '1'
    } else if d == 2 {
        '2'
    } else if d == 3 {
        '3'
    } else if d == 4 {
        '4'
    } else if d == 5 {
        '5'
    } else if d == 6 {
        '6'
    } else if d == 7 {
        '7'
    } else if d == 8 {
        '8'
    } else {
        '9'
    }
}

/// A natural number in decimal digits, without leading zeros.
pub open spec fn decimal(n: nat) -> Seq<char>
    decreases n,
{
    if n < 10 {
        seq![digit(n as int)]
    } else {
        decimal(n / 10).push(digit((n % 10) as int))
    }
}

/// An integer in decimal digits, with a minus sign where it is negative.
pub open spec fn signed_decimal(x: int) -> Seq<char> {
    if x < 0 {
        seq!['-'] + decimal((-x) as nat)
    } else {
        decimal(x as nat)
    }
}

/// The statement that moves the pointer.
pub open spec fn move_text(distance: int) -> Seq<char> {
    "ptr +="@ + signed_decimal(distance) + ";"@
}

/// The statement that adds to the current cell. The amount is written as
/// a `u8` literal: its size reduced to eight bits, added where the amount
/// is positive and subtracted where it is not.
pub open spec fn add_text(delta: int) -> Seq<char> {
    if delta > 0 {
        "memory[ptr as usize] = memory[ptr as usize].wrapping_add("@ + decimal(
            (delta % 256) as nat,
        ) + "u8);\n"@
    } else {
        "memory[ptr as usize] = memory[ptr as usize].wrapping_sub("@ + decimal(
            ((-delta) % 256) as nat,
        ) + "u8);\n"@
    }
}

/// The statement that writes a byte to the current cell.
pub open spec fn set_text(value: u8) -> Seq<char> {
    "memory[ptr as usize] = "@ + decimal(value as nat) + ";\n"@
}

/// The statements of one node. An input instruction and a nested root
/// have none.
pub open spec fn node_text(node: Node) -> Seq<char>
    decreases node,
{
    match node {
        Node::MovAdd(distance, delta) => move_text(distance) + add_text(delta),
        Node::PointerAdd(distance) => move_text(distance) + "\n"@,
        Node::Add(delta) => add_text(delta),
        Node::SetCell(value) => set_text(value),
        Node::Output => "print!(\"{}\", memory[ptr as usize] as char);\n"@,
        Node::Input => Seq::empty(),
        Node::Loop(body) => "while memory[ptr as usize] != 0 {\n"@ + block_text(body) + "};\n"@,
        Node::Do(_) => Seq::empty(),
    }
}

/// The statements of a block: those of its nodes, in their order.
pub open spec fn block_text(nodes: Seq<Node>) -> Seq<char>
    decreases nodes,
{
    if nodes.len() == 0 {
        Seq::empty()
    } else {
        block_text(nodes.drop_last()) + node_text(nodes.last())
    }
}

/// The text of the program for a block: a `main` that makes a tape of
/// 30000 cells and a pointer, and then holds the block's statements.
pub open spec fn program_text(nodes: Seq<Node>) -> Seq<char> {
    "fn main() {let mut memory: Vec<u8> = vec![0;30000];let mut ptr: isize = 0;"@ + block_text(
        nodes,
    ) + "}"@
}

/// The text of a decimal digit.
fn digit_text(d: usize) -> (r: &'static str)
    requires
        d < 10,
    ensures
        r@ == seq![digit(d as int)],
{
    proof {
        reveal_strlit("0");
        reveal_strlit("1");
        reveal_strlit("2");
        reveal_strlit("3");
        reveal_strlit("4");
        reveal_strlit("5");
        reveal_strlit("6");
        reveal_strlit("7");
        reveal_strlit("8");
        reveal_strlit("9");
    }
    let r = if d == 0 {
        "0"
    } else if d == 1 {
        "1"
    } else if d == 2 {
        "2"
    } else if d == 3 {
        "3"
    } else if d == 4 {
        "4"
    } else if d == 5 {
        "5"
    } else if d == 6 {
        "6"
    } else if d == 7 {
        "7"
    } else if d == 8 {
        "8"
    } else {
        "9"
    };
    assert(r@ =~= seq![digit(d as int)]);
    r
}

/// The size of an integer.
fn magnitude(x: isize) -> (r: usize)
    ensures
        r == if x < 0 {
            -x
        } else {
            x as int
        },
{
    if x < 0 {
        (-(x + 1)) as usize + 1
    } else {
        x as usize
    }
}

/// Appends a natural number in decimal digits.
pub fn push_decimal(out: &mut String, n: usize)
    ensures
        final(out)@ == old(out)@ + decimal(n as nat),
    decreases n,
{
    if n >= 10 {
        push_decimal(out, n / 10);
    }
    out.append(digit_text(n % 10));
    proof {
        if n >= 10 {
            assert(old(out)@ + decimal((n / 10) as nat) + seq![digit((n % 10) as int)] =~= old(
                out,
            )@ + decimal((n / 10) as nat).push(digit((n % 10) as int)));
        }
    }
}

/// Appends an integer in decimal digits, with its sign where it is
/// negative.
pub fn push_signed(out: &mut String, x: isize)
    ensures
        final(out)@ == old(out)@ + signed_decimal(x as int),
{
    if x < 0 {
        proof {
            reveal_strlit("-");
        }
        out.append("-");
        push_decimal(out, magnitude(x));
        assert(out@ =~= old(out)@ + signed_decimal(x as int));
    } else {
        push_decimal(out, magnitude(x));
    }
}

/// Appends the statement that moves the pointer.
fn push_move(out: &mut String, distance: isize)
    ensures
        final(out)@ == old(out)@ + move_text(distance as int),
{
    out.append("ptr +=");
    push_signed(out, distance);
    out.append(";");
    assert(out@ =~= old(out)@ + move_text(distance as int));
}

/// Appends the statement that adds to the current cell.
fn push_add(out: &mut String, delta: isize)
    ensures
        final(out)@ == old(out)@ + add_text(delta as int),
{
    let size = magnitude(delta) % 256;
    if delta > 0 {
        out.append("memory[ptr as usize] = memory[ptr as usize].wrapping_add(");
    } else {
        out.append("memory[ptr as usize] = memory[ptr as usize].wrapping_sub(");
    }
    push_decimal(out, size);
    out.append("u8);\n");
    assert(out@ =~= old(out)@ + add_text(delta as int));
}

/// Appends the statement that writes a byte to the current cell.
fn push_set(out: &mut String, value: u8)
    ensures
        final(out)@ == old(out)@ + set_text(value),
{
    out.append("memory[ptr as usize] = ");
    push_decimal(out, value as usize);
    out.append(";\n");
    assert(out@ =~= old(out)@ + set_text(value));
}

impl Ast {
    /// Writes a block out as the text of a whole Rust program.
    pub fn compile(ast: &[Ast]) -> (text: String)
        ensures
            text@ == program_text(view_nodes(ast@)),
    {
        let mut text = String::new();
        text.append("fn main() {let mut memory: Vec<u8> = vec![0;30000];let mut ptr: isize = 0;");
        let body = Ast::_compile(ast);
        text.append(body.as_str());
        text.append("}");
        assert(text@ =~= program_text(view_nodes(ast@)));
        text
    }

    /// Writes a block out as Rust statements, one node after the other.
    pub fn _compile(ast: &[Ast]) -> (text: String)
        ensures
            text@ == block_text(view_nodes(ast@)),
        decreases ast@,
    {
        let ghost nodes = view_nodes(ast@);
        let mut output = String::new();
        let mut i: usize = 0;
        proof {
            assert(nodes.take(0) =~= Seq::<Node>::empty());
        }
        while i < ast.len()
            invariant
                nodes == view_nodes(ast@),
                i <= ast@.len(),
                output@ == block_text(nodes.take(i as int)),
            decreases ast@.len() - i,
        {
            let ghost before = output@;
            match &ast[i] {
                Ast::MovAdd(distance, delta) => {
                    push_move(&mut output, *distance);
                    push_add(&mut output, *delta);
                },
                Ast::PointerAdd(distance) => {
                    push_move(&mut output, *distance);
                    output.append("\n");
                },
                Ast::Add(delta) => {
                    push_add(&mut output, *delta);
                },
                Ast::SetCell(value) => {
                    push_set(&mut output, *value);
                },
                Ast::Output => {
                    output.append("print!(\"{}\", memory[ptr as usize] as char);\n");
                },
                Ast::Loop(body) => {
                    output.append("while memory[ptr as usize] != 0 {\n");
                    let inner = Ast::_compile(body.as_slice());
                    output.append(inner.as_str());
                    output.append("};\n");
                },
                _ => {},
            }
            proof {
                let next = nodes.take(i + 1);
                assert(next.drop_last() =~= nodes.take(i as int));
                assert(next.last() == ast@[i as int]@);
                assert(output@ =~= before + node_text(ast@[i as int]@));
            }
            i = i + 1;
        }
        proof {
            assert(nodes.take(ast@.len() as int) =~= nodes);
        }
        output
    }
}

} // verus!
