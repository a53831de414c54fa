//! The tree of instructions, as a value of the program and as a value of
//! the mathematics that the contracts speak of.

use vstd::prelude::*;

verus! {

/// A node of the tree as the contracts see it: the same shape as [`Ast`],
/// with unbounded integers and mathematical sequences.
pub enum Node {
    /// Move the pointer, then add to the cell it arrives at.
    MovAdd(int, int),
    /// Move the pointer by a signed distance.
    PointerAdd(int),
    /// Add a signed amount to the current cell, wrapping at eight bits.
    Add(int),
    /// Write a byte to the current cell.
    SetCell(u8),
    /// Emit the current cell as a character.
    Output,
    /// Read a byte into the current cell.
    Input,
    /// Repeat the body while the current cell is not zero.
    Loop(Seq<Node>),
    /// A whole program.
    Do(Seq<Node>),
}

/// A node of the tree. A block is a `Vec<Ast>`; a loop owns its body and
/// the root owns the program's block.
#[derive(Debug, PartialEq, Eq)]
pub enum Ast {
    /// Move the pointer, then add to the cell it arrives at.
    MovAdd(isize, isize),
    /// Move the pointer by a signed distance.
    PointerAdd(isize),
    /// Add a signed amount to the current cell, wrapping at eight bits.
    Add(isize),
    /// Write a byte to the current cell.
    SetCell(u8),
    /// Emit the current cell as a character.
    Output,
    /// Read a byte into the current cell.
    Input,
    /// Repeat the body while the current cell is not zero.
    Loop(Vec<Ast>),
    /// A whole program.
    Do(Vec<Ast>),
}

/// A block of nodes, each taken by its view.
pub open spec fn view_nodes(block: Seq<Ast>) -> Seq<Node>
    decreases block,
{
    Seq::new(
        block.len(),
        |i: int|
            if 0 <= i < block.len() {
                block[i]@
            } else {
                arbitrary()
            },
    )
}

impl View for Ast {
    type V = Node;

    open spec fn view(&self) -> Node
        decreases self,
    {
        match self {
            Ast::MovAdd(x, y) => Node::MovAdd(*x as int, *y as int),
            Ast::PointerAdd(x) => Node::PointerAdd(*x as int),
            Ast::Add(x) => Node::Add(*x as int),
            Ast::SetCell(v) => Node::SetCell(*v),
            Ast::Output => Node::Output,
            Ast::Input => Node::Input,
            Ast::Loop(body) => Node::Loop(view_nodes(body@)),
            Ast::Do(body) => Node::Do(view_nodes(body@)),
        }
    }
}

/// Appending a node to a block appends its view to the block's view.
pub proof fn lemma_view_push(block: Seq<Ast>, node: Ast)
    ensures
        view_nodes(block.push(node)) == view_nodes(block).push(node@),
{
    assert(view_nodes(block.push(node)) =~= view_nodes(block).push(node@));
}

/// Replacing the last node of a block replaces the last node of its view.
pub proof fn lemma_view_replace_last(block: Seq<Ast>, node: Ast)
    requires
        block.len() > 0,
    ensures
        view_nodes(block.update(block.len() - 1, node)) == view_nodes(block).drop_last().push(
            node@,
        ),
{
    assert(view_nodes(block.update(block.len() - 1, node)) =~= view_nodes(block).drop_last().push(
        node@,
    ));
}

} // verus!
