//! The instruction alphabet, and the filter that reduces program text to it.

use vstd::prelude::*;

verus! {

/// Whether a character is one of the eight instructions. Every other
/// character of a program's text is commentary.
pub open spec fn is_instruction(c: char) -> bool {
    c == '+' || c == '-' || c == '>' || c == '<' || c == '.' || c == ',' || c == '[' || c == ']'
}

/// The instructions of a text: its instruction characters in their order.
pub open spec fn instructions(text: Seq<char>) -> Seq<char> {
    text.filter(|c: char| is_instruction(c))
}

/// Tells an instruction from commentary.
pub fn instruction(c: char) -> (r: bool)
    ensures
        r == is_instruction(c),
{
    c == '+' || c == '-' || c == '>' || c == '<' || c == '.' || c == ',' || c == '[' || c == ']'
}

/// Strips everything but the instructions from a program's text, keeping
/// their order.
pub fn filter(program: &str) -> (tokens: Vec<char>)
    ensures
        tokens@ == instructions(program@),
{
    let mut tokens: Vec<char> = Vec::new();
    for c in chars: program.chars()
        invariant
            chars.seq() == program@,
            tokens@ == instructions(program@.take(chars.index())),
    {
        proof {
            let seen = program@.take(chars.index());
            let next = program@.take(chars.index() + 1);
            assert(next.drop_last() =~= seen);
            assert(next.last() == c);
            reveal(Seq::filter);
        }
        if instruction(c) {
            tokens.push(c);
        }
    }
    proof {
        assert(program@.take(program@.len() as int) =~= program@);
    }
    tokens
}

/// Filtering leaves only instructions, and no more characters than the
/// text had.
pub proof fn lemma_instructions_only(text: Seq<char>)
    ensures
        instructions(text).len() <= text.len(),
        forall|i: int| 0 <= i < instructions(text).len() ==> is_instruction(instructions(text)[i]),
    decreases text.len(),
{
    reveal(Seq::filter);
    if text.len() > 0 {
        lemma_instructions_only(text.drop_last());
    }
}

/// A text without instructions filters to nothing.
pub proof fn lemma_commentary_filters_away(text: Seq<char>)
    requires
        forall|i: int| 0 <= i < text.len() ==> !is_instruction(text[i]),
    ensures
        instructions(text) == Seq::<char>::empty(),
    decreases text.len(),
{
    reveal(Seq::filter);
    if text.len() > 0 {
        lemma_commentary_filters_away(text.drop_last());
    }
}

/// Instructions pass the filter unchanged.
pub proof fn lemma_instructions_pass(text: Seq<char>)
    requires
        forall|i: int| 0 <= i < text.len() ==> is_instruction(text[i]),
    ensures
        instructions(text) == text,
    decreases text.len(),
{
    reveal(Seq::filter);
    if text.len() > 0 {
        lemma_instructions_pass(text.drop_last());
        assert(text.drop_last().push(text.last()) =~= text);
    }
}

} // verus!
