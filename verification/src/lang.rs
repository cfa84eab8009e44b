//! The instruction language: operator bytes, the instruction type, and the
//! specification-level description of how raw source text is compiled into
//! a dense instruction stream.

use vstd::prelude::*;

verus! {

/// The eight operators of the language. A compiled program is a dense,
/// index-addressable sequence of these; the index in that sequence is the
/// program counter unit.
#[derive(Clone, Copy, Debug, PartialEq, Eq, Structural)]
pub enum Instruction {
    /// `>`: move the tape pointer one cell to the right, growing the tape.
    MoveRight,
    /// `<`: move the tape pointer one cell to the left.
    MoveLeft,
    /// `+`: add one to the current cell, wrapping 255 to 0.
    Inc,
    /// `-`: subtract one from the current cell, wrapping 0 to 255.
    Dec,
    /// `.`: emit the current cell to the output stream.
    Output,
    /// `,`: read one byte from the input stream into the current cell.
    Input,
    /// `[`: if the current cell is zero, jump past the matching partner.
    JumpIfZero,
    /// `]`: if the current cell is non-zero, jump back past the partner.
    JumpIfNonZero,
}

/// Whether a source byte denotes an operator. Every other byte is a
/// comment: it is skipped and occupies no position in the instruction
/// stream.
pub open spec fn is_op(b: u8) -> bool {
    b == ('>' as u8) || b == ('<' as u8) || b == ('+' as u8) || b == ('-' as u8) || b == ('.' as u8) || b == (',' as u8) || b == ('[' as u8)
        || b == (']' as u8)
}

/// The instruction denoted by an operator byte.
pub open spec fn instr_of(b: u8) -> Instruction {
    if b == ('>' as u8) {
        Instruction::MoveRight
    } else if b == ('<' as u8) {
        Instruction::MoveLeft
    } else if b == ('+' as u8) {
        Instruction::Inc
    } else if b == ('-' as u8) {
        Instruction::Dec
    } else if b == ('.' as u8) {
        Instruction::Output
    } else if b == (',' as u8) {
        Instruction::Input
    } else if b == ('[' as u8) {
        Instruction::JumpIfZero
    } else {
        Instruction::JumpIfNonZero
    }
}

/// Executable form of `is_op`.
pub fn is_op_byte(b: u8) -> (r: bool)
    ensures
        r == is_op(b),
{
    b == ('>' as u8) || b == ('<' as u8) || b == ('+' as u8) || b == ('-' as u8) || b == (
    '.' as u8) || b == (',' as u8) || b == ('[' as u8) || b == (']' as u8)
}

/// Executable form of `instr_of`.
pub fn instr_of_byte(b: u8) -> (r: Instruction)
    ensures
        r == instr_of(b),
{
    if b == ('>' as u8) {
        Instruction::MoveRight
    } else if b == ('<' as u8) {
        Instruction::MoveLeft
    } else if b == ('+' as u8) {
        Instruction::Inc
    } else if b == ('-' as u8) {
        Instruction::Dec
    } else if b == ('.' as u8) {
        Instruction::Output
    } else if b == (',' as u8) {
        Instruction::Input
    } else if b == ('[' as u8) {
        Instruction::JumpIfZero
    } else {
        Instruction::JumpIfNonZero
    }
}

/// The operator bytes of a source text, in order, with every comment byte
/// stripped.
pub open spec fn filtered(s: Seq<u8>) -> Seq<u8>
    decreases s.len(),
{
    if s.len() == 0 {
        Seq::empty()
    } else if is_op(s.last()) {
        filtered(s.drop_last()).push(s.last())
    } else {
        filtered(s.drop_last())
    }
}

/// The instruction stream compiled from a source text: its operator bytes,
/// in order, each translated to its instruction.
pub open spec fn instrs_of(s: Seq<u8>) -> Seq<Instruction> {
    filtered(s).map_values(|b: u8| instr_of(b))
}

/// Stripping the comment bytes of a source is idempotent: a source made of
/// operator bytes only is its own filtered form.
pub proof fn lemma_filtered_idempotent(s: Seq<u8>)
    ensures
        filtered(filtered(s)) == filtered(s),
    decreases s.len(),
{
    if s.len() > 0 {
        lemma_filtered_idempotent(s.drop_last());
        if is_op(s.last()) {
            let f = filtered(s.drop_last()).push(s.last());
            assert(f.drop_last() =~= filtered(s.drop_last()));
            assert(filtered(filtered(s)) =~= filtered(s));
        }
    }
}

/// A source with arbitrary comment bytes interleaved with its operators
/// compiles to the same instruction stream as that source with the comment
/// bytes stripped.
pub proof fn lemma_filtering(s: Seq<u8>)
    ensures
        instrs_of(filtered(s)) == instrs_of(s),
{
    lemma_filtered_idempotent(s);
}

/// The contribution of one source byte to the loop nesting depth: +1 for a
/// loop-open byte, -1 for a loop-close byte, 0 for anything else.
pub open spec fn bracket_delta(b: u8) -> int {
    if b == ('[' as u8) {
        1
    } else if b == (']' as u8) {
        -1
    } else {
        0
    }
}

/// The number of loop-open bytes of a source minus its loop-close bytes.
pub open spec fn net_depth(s: Seq<u8>) -> int
    decreases s.len(),
{
    if s.len() == 0 {
        0
    } else {
        net_depth(s.drop_last()) + bracket_delta(s.last())
    }
}

/// Brackets are balanced and non-overlapping: the loop-open and loop-close
/// bytes pair off exactly, and no prefix closes a loop it has not opened.
pub open spec fn balanced(s: Seq<u8>) -> bool {
    net_depth(s) == 0 && forall|i: int| 0 <= i <= s.len() ==> net_depth(#[trigger] s.take(i)) >= 0
}

/// How one more source byte extends the compiled prefix: an operator byte
/// appends its instruction, a comment byte appends nothing.
pub proof fn lemma_instrs_of_step(s: Seq<u8>, i: int)
    requires
        0 <= i < s.len(),
    ensures
        is_op(s[i]) ==> instrs_of(s.take(i + 1)) == instrs_of(s.take(i)).push(instr_of(s[i])),
        !is_op(s[i]) ==> instrs_of(s.take(i + 1)) == instrs_of(s.take(i)),
{
    assert(s.take(i + 1).drop_last() =~= s.take(i));
    assert(s.take(i + 1).last() == s[i]);
    if is_op(s[i]) {
        assert(filtered(s.take(i + 1)) == filtered(s.take(i)).push(s[i]));
        assert(instrs_of(s.take(i + 1)) =~= instrs_of(s.take(i)).push(instr_of(s[i])));
    }
}

/// How one more source byte changes the net depth of the prefix.
pub proof fn lemma_net_depth_step(s: Seq<u8>, i: int)
    requires
        0 <= i < s.len(),
    ensures
        net_depth(s.take(i + 1)) == net_depth(s.take(i)) + bracket_delta(s[i]),
{
    assert(s.take(i + 1).drop_last() =~= s.take(i));
    assert(s.take(i + 1).last() == s[i]);
}

} // verus!
