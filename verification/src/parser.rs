//! The parser: from tokens to the tree, fusing runs as it goes.
//!
//! A block is read from left to right. A run of pointer moves becomes one
//! node, a run of cell changes becomes one node or joins the pointer move
//! before it, the three tokens `[-]` become a cell write, and any other
//! loop becomes a node that owns the block between its brackets.

use vstd::prelude::*;
use vstd::slice::slice_subrange;
use crate::ast::{lemma_view_push, lemma_view_replace_last, view_nodes, Ast, Node};
use crate::nesting::{
    block_end, close_at, depth, is_bracket, leaves_loop_open, lemma_block_end_meaning,
    lemma_close_at, lemma_close_at_monotone, lemma_close_at_plain, lemma_close_at_split,
    lemma_depth_split, stray_close,
};
use crate::runs::{lemma_net_concat, lemma_run_len, run_len, run_net};
use crate::tokens::{filter, instructions, lemma_instructions_only};

verus! {

/// Why a program's text is no program.
#[derive(Debug, Clone, Copy, PartialEq, Eq)]
pub enum ParseError {
    /// A loop is opened and never closed.
    UnclosedLoop,
    /// A loop-close stands where no loop is open.
    UnexpectedClose,
}

/// The rule that joins a cell change to what was read before it: after a
/// pointer move the two become one node, after anything else the cell
/// change is a node of its own.
pub open spec fn fused(nodes: Seq<Node>, value: int) -> Seq<Node> {
    if nodes.len() == 0 {
        nodes.push(Node::Add(value))
    } else {
        match nodes.last() {
            Node::PointerAdd(x) => nodes.drop_last().push(Node::MovAdd(x, value)),
            _ => nodes.push(Node::Add(value)),
        }
    }
}

/// Whether `t` starts with the three tokens that clear a cell.
pub open spec fn starts_with_clear(t: Seq<char>) -> bool {
    t.len() >= 3 && t[0] == '[' && t[1] == '-' && t[2] == ']'
}

/// The nodes of the block that `t` starts with, appended to the nodes
/// `before` that the block has given so far. The block ends at the first
/// loop-close that is not a loop's own, or where `t` ends.
pub open spec fn build(t: Seq<char>, before: Seq<Node>) -> Seq<Node>
    decreases t.len(),
{
    if t.len() == 0 || t[0] == ']' {
        before
    } else if t[0] == '>' || t[0] == '<' {
        let n = run_len(t, '>', '<') as int;
        proof {
            lemma_run_len(t, '>', '<');
        }
        build(t.skip(n), before.push(Node::PointerAdd(run_net(t, '>', '<'))))
    } else if t[0] == '+' || t[0] == '-' {
        let n = run_len(t, '+', '-') as int;
        proof {
            lemma_run_len(t, '+', '-');
        }
        build(t.skip(n), fused(before, run_net(t, '+', '-')))
    } else if t[0] == '.' {
        build(t.skip(1), before.push(Node::Output))
    } else if t[0] == ',' {
        build(t.skip(1), before.push(Node::Input))
    } else if t[0] == '[' {
        if starts_with_clear(t) {
            build(t.skip(3), before.push(Node::SetCell(0)))
        } else {
            let inner = t.skip(1);
            let with_loop = before.push(Node::Loop(build(inner, Seq::empty())));
            if block_end(inner) < inner.len() {
                build(inner.skip(block_end(inner) as int + 1), with_loop)
            } else {
                with_loop
            }
        }
    } else {
        build(t.skip(1), before)
    }
}

/// The nodes of the block that `t` starts with.
pub open spec fn nodes_of(t: Seq<char>) -> Seq<Node> {
    build(t, Seq::empty())
}

/// What a program's text parses to: the tree of its instructions where
/// their loop brackets are balanced, and otherwise what is wrong with
/// them. A stray loop-close is reported before an unclosed loop.
pub open spec fn parse_program(text: Seq<char>) -> Result<Node, ParseError> {
    let t = instructions(text);
    if stray_close(t) {
        Err(ParseError::UnexpectedClose)
    } else if depth(t) > 0 {
        Err(ParseError::UnclosedLoop)
    } else {
        Ok(Node::Do(nodes_of(t)))
    }
}

/// Passing `n` tokens that are no brackets: the block ends where it did,
/// and the depth read so far stays.
proof fn lemma_pass_plain(t: Seq<char>, i: int, n: int)
    requires
        0 <= i,
        0 <= n,
        i + n <= t.len(),
        forall|j: int| 0 <= j < n ==> !is_bracket(#[trigger] t.skip(i)[j]),
    ensures
        block_end(t.skip(i)) == n + block_end(t.skip(i + n)),
        depth(t.take(i + n)) == depth(t.take(i)),
{
    let s = t.skip(i);
    lemma_close_at_plain(s, n, 0);
    assert(s.skip(n) =~= t.skip(i + n));
    lemma_depth_split(t, i, n);
}

/// Passing the three tokens that clear a cell.
proof fn lemma_pass_clear(t: Seq<char>, i: int)
    requires
        0 <= i <= t.len(),
        starts_with_clear(t.skip(i)),
    ensures
        block_end(t.skip(i)) == 3 + block_end(t.skip(i + 3)),
        depth(t.take(i + 3)) == depth(t.take(i)),
{
    let s = t.skip(i);
    let s1 = s.skip(1);
    let s2 = s1.skip(1);
    let s3 = s2.skip(1);
    assert(s1[0] == '-' && s2[0] == ']');
    assert(close_at(s, 0) == 1 + close_at(s1, 1));
    assert(close_at(s1, 1) == 1 + close_at(s2, 1));
    assert(close_at(s2, 1) == 1 + close_at(s3, 0));
    assert(s3 =~= t.skip(i + 3));
    lemma_depth_split(t, i, 3);
    let three = s.take(3);
    let two = three.skip(1);
    let one = two.skip(1);
    assert(one.skip(1) =~= Seq::<char>::empty());
    assert(depth(one.skip(1)) == 0);
    assert(depth(one) == -1);
    assert(depth(two) == -1);
    assert(depth(three) == 0);
}

/// Passing a loop whose body is closed: the block goes on behind the
/// loop's close, at the depth it had before the loop.
proof fn lemma_pass_loop(t: Seq<char>, i: int)
    requires
        0 <= i < t.len(),
        t[i] == '[',
        block_end(t.skip(i + 1)) < t.len() - i - 1,
    ensures
        block_end(t.skip(i)) == block_end(t.skip(i + 1)) + 2 + block_end(
            t.skip(i + block_end(t.skip(i + 1)) + 2),
        ),
        depth(t.take(i + block_end(t.skip(i + 1)) + 2)) == depth(t.take(i)),
{
    let s = t.skip(i);
    let inner = t.skip(i + 1);
    let m = block_end(inner) as int;
    assert(s.skip(1) =~= inner);
    assert(close_at(s, 0) == 1 + close_at(inner, 1));
    lemma_close_at_split(inner, 0, 0);
    assert(inner.skip(m + 1) =~= t.skip(i + m + 2));
    lemma_depth_split(t, i, m + 2);
    let through = s.take(m + 2);
    assert(through.skip(1) =~= inner.take(m + 1));
    lemma_close_at(inner, 0);
    lemma_depth_split(inner, m, 1);
    let close = inner.skip(m).take(1);
    assert(close.skip(1) =~= Seq::<char>::empty());
    assert(depth(close.skip(1)) == 0);
    assert(close[0] == ']');
    assert(depth(close) == -1);
    assert(depth(inner.take(m + 1)) == -1);
    assert(depth(through) == 0);
}

/// A loop whose body runs to the end of the tokens leaves the block that
/// holds it open as well.
proof fn lemma_loop_left_open(t: Seq<char>, i: int)
    requires
        0 <= i < t.len(),
        t[i] == '[',
        block_end(t.skip(i + 1)) == t.len() - i - 1,
        block_end(t) == i + block_end(t.skip(i)),
        depth(t.take(i)) == 0,
    ensures
        leaves_loop_open(t),
{
    let s = t.skip(i);
    let inner = t.skip(i + 1);
    assert(s.skip(1) =~= inner);
    assert(close_at(s, 0) == 1 + close_at(inner, 1));
    lemma_close_at_monotone(inner, 0, 1);
    lemma_close_at(inner, 1);
    lemma_close_at(inner, 0);
    assert(inner.take(inner.len() as int) =~= inner);
    assert(depth(inner) >= 0);
    assert(t =~= t.take(i) + s);
    lemma_net_concat(t.take(i), s, '[', ']');
    assert(depth(s) == 1 + depth(inner));
}

impl Ast {
    /// Joins a cell change to the block read so far: where the block's last
    /// node is a pointer move, that node becomes a move-then-add; otherwise
    /// the cell change is appended.
    pub fn fuse_add(output: &mut Vec<Ast>, value: isize)
        ensures
            view_nodes(final(output)@) == fused(view_nodes(old(output)@), value as int),
    {
        let n = output.len();
        if n > 0 {
            if let Ast::PointerAdd(x) = output[n - 1] {
                proof {
                    lemma_view_replace_last(output@, Ast::MovAdd(x, value));
                }
                output[n - 1] = Ast::MovAdd(x, value);
                return;
            }
        }
        proof {
            lemma_view_push(output@, Ast::Add(value));
        }
        output.push(Ast::Add(value));
    }

    /// Parses the block that `characters` starts with. Returns the block's
    /// nodes, the number of tokens consumed, the loop-close that ended the
    /// block among them, and whether there was one: `false` says that the
    /// block ran to the end of the tokens. Characters that are no
    /// instructions are passed over.
    ///
    /// Fails where the block runs to the end of the tokens with a loop
    /// still open. The tokens must be no more than `isize::MAX`, so that
    /// what a run amounts to fits the node that carries it.
    pub fn parse(characters: &[char]) -> (r: Result<(Vec<Ast>, usize, bool), ParseError>)
        requires
            characters@.len() <= isize::MAX,
        ensures
            r is Err <==> leaves_loop_open(characters@),
            r matches Err(e) ==> e == ParseError::UnclosedLoop,
            r matches Ok((nodes, consumed, closed)) ==> {
                &&& view_nodes(nodes@) == nodes_of(characters@)
                &&& closed == (block_end(characters@) < characters@.len())
                &&& consumed == block_end(characters@) + if closed {
                    1int
                } else {
                    0
                }
                &&& consumed <= characters@.len()
            },
        decreases characters@.len(),
    {
        let ghost t = characters@;
        let len = characters.len();
        let mut output: Vec<Ast> = Vec::new();
        let mut i: usize = 0;
        proof {
            assert(t.skip(0) =~= t);
            assert(t.take(0) =~= Seq::<char>::empty());
            assert(view_nodes(output@) =~= Seq::<Node>::empty());
        }
        while i < len
            invariant
                t == characters@,
                len == t.len(),
                len <= isize::MAX,
                i <= len,
                block_end(t) == i + block_end(t.skip(i as int)),
                depth(t.take(i as int)) == 0,
                nodes_of(t) == build(t.skip(i as int), view_nodes(output@)),
            decreases len - i,
        {
            let c = characters[i];
            let ghost s = t.skip(i as int);
            let ghost before = view_nodes(output@);
            assert(s.len() > 0 && s[0] == c);
            if c == '>' || c == '<' {
                let (value, length) = Ast::_runlength(slice_subrange(characters, i, len), '>', '<');
                proof {
                    lemma_run_len(s, '>', '<');
                    lemma_pass_plain(t, i as int, length as int);
                    lemma_view_push(output@, Ast::PointerAdd(value));
                    assert(s.skip(length as int) =~= t.skip(i + length));
                }
                output.push(Ast::PointerAdd(value));
                i = i + length;
            } else if c == '+' || c == '-' {
                let (value, length) = Ast::_runlength(slice_subrange(characters, i, len), '+', '-');
                proof {
                    lemma_run_len(s, '+', '-');
                    lemma_pass_plain(t, i as int, length as int);
                    assert(s.skip(length as int) =~= t.skip(i + length));
                }
                Ast::fuse_add(&mut output, value);
                i = i + length;
            } else if c == '.' {
                proof {
                    lemma_pass_plain(t, i as int, 1);
                    lemma_view_push(output@, Ast::Output);
                    assert(s.skip(1) =~= t.skip(i + 1));
                }
                output.push(Ast::Output);
                i = i + 1;
            } else if c == ',' {
                proof {
                    lemma_pass_plain(t, i as int, 1);
                    lemma_view_push(output@, Ast::Input);
                    assert(s.skip(1) =~= t.skip(i + 1));
                }
                output.push(Ast::Input);
                i = i + 1;
            } else if c == '[' {
                if i + 2 < len && characters[i + 1] == '-' && characters[i + 2] == ']' {
                    proof {
                        assert(s[1] == t[i + 1] && s[2] == t[i + 2]);
                        lemma_pass_clear(t, i as int);
                        lemma_view_push(output@, Ast::SetCell(0));
                        assert(s.skip(3) =~= t.skip(i + 3));
                    }
                    output.push(Ast::SetCell(0));
                    i = i + 3;
                } else {
                    let ghost inner = t.skip(i + 1);
                    proof {
                        assert(s.skip(1) =~= inner);
                        assert(!starts_with_clear(s)) by {
                            if s.len() >= 3 {
                                assert(s[1] == t[i + 1] && s[2] == t[i + 2]);
                            }
                        }
                        lemma_close_at(inner, 0);
                    }
                    match Ast::parse(slice_subrange(characters, i + 1, len)) {
                        Ok((parsed, consumed, closed)) => {
                            if !closed {
                                proof {
                                    lemma_loop_left_open(t, i as int);
                                }
                                return Err(ParseError::UnclosedLoop);
                            }
                            proof {
                                lemma_pass_loop(t, i as int);
                                lemma_view_push(output@, Ast::Loop(parsed));
                                assert(inner.skip(block_end(inner) as int + 1) =~= t.skip(
                                    i + 1 + consumed,
                                ));
                            }
                            output.push(Ast::Loop(parsed));
                            i = i + 1 + consumed;
                        },
                        Err(e) => {
                            proof {
                                lemma_loop_left_open(t, i as int);
                            }
                            return Err(e);
                        },
                    }
                }
            } else if c == ']' {
                return Ok((output, i + 1, true));
            } else {
                proof {
                    lemma_pass_plain(t, i as int, 1);
                    assert(s.skip(1) =~= t.skip(i + 1));
                }
                i = i + 1;
            }
        }
        proof {
            assert(t.take(len as int) =~= t);
        }
        Ok((output, len, false))
    }

    /// Parses a program's text. The text is reduced to its instructions and
    /// these are parsed as one block. Returns the tree under a root node
    /// where the loop brackets are balanced, and otherwise the reason why
    /// they are not. The text must be no longer than `isize::MAX`
    /// characters.
    pub fn new(program: String) -> (r: Result<Ast, ParseError>)
        requires
            program@.len() <= isize::MAX,
        ensures
            match r {
                Ok(ast) => parse_program(program@) == Ok::<Node, ParseError>(ast@),
                Err(e) => parse_program(program@) == Err::<Node, ParseError>(e),
            },
    {
        let chars = filter(program.as_str());
        proof {
            lemma_instructions_only(program@);
            lemma_block_end_meaning(chars@);
        }
        match Ast::parse(chars.as_slice()) {
            Ok((nodes, _, closed)) => {
                if closed {
                    Err(ParseError::UnexpectedClose)
                } else {
                    Ok(Ast::Do(nodes))
                }
            },
            Err(e) => Err(e),
        }
    }
}

} // verus!
