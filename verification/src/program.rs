//! The loader and the executor. `Program::new` compiles raw source bytes
//! into a dense instruction stream with a jump-resolved bracket table;
//! `Program::run` drives the compiled stream against a growable byte tape,
//! and is proved to return exactly what the small-step semantics of
//! [`crate::vm`] prescribes.

use crate::lang::{
    balanced, instr_of, instr_of_byte, instrs_of, is_op_byte, lemma_instrs_of_step,
    lemma_net_depth_step, net_depth, Instruction,
};
use crate::vm::{
    init_state, lemma_steps_add, lemma_terminal_fixed, step, steps, ErrorKind, InputPolicy, State,
    Status,
};
use vstd::prelude::*;

verus! {

/// The tape length a default configuration starts with.
pub const DEFAULT_TAPE_SIZE: usize = 8096;

/// The recognized options of one run: the tape's initial length (at least
/// one cell) and the policy on exhausted input.
#[derive(Clone, Copy, Debug)]
pub struct Config {
    /// The number of zeroed cells the tape starts with; must be at least 1.
    pub initial_tape_size: usize,
    /// What an input instruction does once the input stream is exhausted.
    pub on_input_exhausted: InputPolicy,
}

impl Default for Config {
    /// The documented default: a tape of `DEFAULT_TAPE_SIZE` zero cells,
    /// and an exhausted input stream reads as zero.
    fn default() -> (c: Config)
        ensures
            c.initial_tape_size == DEFAULT_TAPE_SIZE,
            c.on_input_exhausted is ZeroFill,
    {
        Config { initial_tape_size: DEFAULT_TAPE_SIZE, on_input_exhausted: InputPolicy::ZeroFill }
    }
}

/// What a run hands back: every byte emitted before the run ended, the
/// terminal status (or `Running`, if the step budget ran out first), and
/// the final tape for inspection.
pub struct RunResult {
    pub output: Vec<u8>,
    pub status: Status,
    pub tape: Vec<u8>,
}

/// A compiled program: the dense instruction stream and, for every bracket
/// instruction, the index of its matching partner. Both are produced once
/// by `new` and read-only for the remainder of execution.
#[derive(Debug)]
pub struct Program {
    instructions: Vec<Instruction>,
    jump_table: Vec<usize>,
}

impl Program {
    /// The compiled instruction stream.
    pub closed spec fn code(self) -> Seq<Instruction> {
        self.instructions@
    }

    /// The jump table: a flat array as long as the instruction stream,
    /// meaningful at the bracket indices.
    pub closed spec fn jumps(self) -> Seq<usize> {
        self.jump_table@
    }

    /// Well-formedness of the jump table: it is as long as the instruction
    /// stream, total over the bracket indices, and involutive — every
    /// loop-open's partner is a loop-close strictly to its right whose own
    /// partner is that loop-open, and the other way round — and the pairs
    /// are properly nested: no two spans partially overlap.
    pub open spec fn wf(self) -> bool {
        &&& self.jumps().len() == self.code().len()
        &&& forall|i: int|
            0 <= i < self.code().len() && self.code()[i] is JumpIfZero ==> i
                < #[trigger] self.jumps()[i] < self.code().len() && self.code()[self.jumps()[i] as int] is JumpIfNonZero
                && self.jumps()[self.jumps()[i] as int] == i
        &&& forall|i: int|
            0 <= i < self.code().len() && self.code()[i] is JumpIfNonZero ==> #[trigger] self.jumps()[i]
                < i && self.code()[self.jumps()[i] as int] is JumpIfZero && self.jumps()[self.jumps()[i] as int]
                == i
        &&& forall|i: int, j: int|
            #![trigger self.jumps()[i], self.jumps()[j]]
            0 <= i < j < self.code().len() && self.code()[i] is JumpIfZero
                && self.code()[j] is JumpIfZero && j < self.jumps()[i] ==> self.jumps()[j]
                < self.jumps()[i]
    }

    /// The jump table is involutive over every bracket index: following it
    /// twice from any bracket leads back to that bracket.
    pub proof fn lemma_jump_table_involutive(self, i: int)
        requires
            self.wf(),
            0 <= i < self.code().len(),
            self.code()[i] is JumpIfZero || self.code()[i] is JumpIfNonZero,
        ensures
            0 <= self.jumps()[i] < self.code().len(),
            self.jumps()[self.jumps()[i] as int] == i,
    {
    }

    /// Bracket spans never partially overlap: a loop-open that lies inside
    /// another pair's span closes inside that span too.
    pub proof fn lemma_jump_table_nested(self, i: int, j: int)
        requires
            self.wf(),
            0 <= i < j < self.code().len(),
            self.code()[i] is JumpIfZero,
            self.code()[j] is JumpIfZero,
            j < self.jumps()[i],
        ensures
            j < self.jumps()[j] < self.jumps()[i],
    {
    }

    /// The compiled instruction stream itself.
    pub fn instructions(&self) -> (r: &Vec<Instruction>)
        ensures
            r@ == self.code(),
    {
        &self.instructions
    }

    /// The jump table itself: meaningful at the bracket indices, where it
    /// holds the matching partner's position.
    pub fn jump_table(&self) -> (r: &Vec<usize>)
        ensures
            r@ == self.jumps(),
    {
        &self.jump_table
    }

    /// Compile raw source bytes. Every byte outside the operator set is
    /// skipped; each loop-open is resolved to its matching loop-close in a
    /// single left-to-right pass over an explicit stack of pending opens.
    /// Succeeds exactly on sources whose brackets are balanced; on any
    /// unmatched loop-close or leftover loop-open it fails with
    /// `UnbalancedBrackets` before anything executes.
    pub fn new(source: &[u8]) -> (r: Result<Program, ErrorKind>)
        ensures
            r is Ok <==> balanced(source@),
            r matches Ok(p) ==> p.wf() && p.code() == instrs_of(source@),
            r matches Err(e) ==> e is UnbalancedBrackets,
    {
        let n = source.len();
        let mut instructions: Vec<Instruction> = Vec::with_capacity(n);
        let mut jump_table: Vec<usize> = Vec::with_capacity(n);
        let mut stack: Vec<usize> = Vec::new();
        let mut idx: usize = 0;
        while idx < n
            invariant
                idx <= n,
                n == source@.len(),
                instructions@ == instrs_of(source@.take(idx as int)),
                jump_table@.len() == instructions@.len(),
                forall|k: int|
                    0 <= k < stack@.len() ==> #[trigger] stack@[k] < instructions@.len()
                        && instructions@[stack@[k] as int] is JumpIfZero,
                forall|k1: int, k2: int|
                    0 <= k1 < k2 < stack@.len() ==> stack@[k1] < stack@[k2],
                stack@.len() == net_depth(source@.take(idx as int)),
                forall|j: int| 0 <= j <= idx ==> net_depth(#[trigger] source@.take(j)) >= 0,
                forall|j: int|
                    0 <= j < instructions@.len() && instructions@[j] is JumpIfZero
                        && !stack@.contains(j as usize) ==> j < #[trigger] jump_table@[j]
                        < instructions@.len()
                        && instructions@[jump_table@[j] as int] is JumpIfNonZero
                        && jump_table@[jump_table@[j] as int] == j,
                forall|j: int|
                    0 <= j < instructions@.len() && instructions@[j] is JumpIfNonZero ==> #[trigger] jump_table@[j]
                        < j && instructions@[jump_table@[j] as int] is JumpIfZero
                        && jump_table@[jump_table@[j] as int] == j && !stack@.contains(
                        jump_table@[j],
                    ),
                // No completed pair straddles a pending open: it lies
                // wholly after it, or closed before it was pushed.
                forall|j: int, k: int|
                    #![trigger jump_table@[j], stack@[k]]
                    0 <= j < instructions@.len() && instructions@[j] is JumpIfZero
                        && !stack@.contains(j as usize) && 0 <= k < stack@.len() ==> stack@[k] < j
                        || jump_table@[j] < stack@[k],
                // Completed pairs are nested or disjoint, never partially
                // overlapping.
                forall|j1: int, j2: int|
                    #![trigger jump_table@[j1], jump_table@[j2]]
                    0 <= j1 < j2 < instructions@.len() && instructions@[j1] is JumpIfZero
                        && instructions@[j2] is JumpIfZero && !stack@.contains(j1 as usize)
                        && !stack@.contains(j2 as usize) && j2 < jump_table@[j1]
                        ==> jump_table@[j2] < jump_table@[j1],
            decreases n - idx,
        {
            let b = source[idx];
            proof {
                lemma_instrs_of_step(source@, idx as int);
                lemma_net_depth_step(source@, idx as int);
            }
            if b == (']' as u8) {
                let ghost old_stack = stack@;
                match stack.pop() {
                    None => {
                        // One loop-close too many: the prefix through this
                        // byte closes a loop nobody opened.
                        proof {
                            assert(net_depth(source@.take(idx + 1)) == -1);
                            assert(!balanced(source@));
                        }
                        return Err(ErrorKind::UnbalancedBrackets);
                    },
                    Some(left) => {
                        let ghost old_instr = instructions@;
                        let ghost old_jump = jump_table@;
                        let right = instructions.len();
                        instructions.push(Instruction::JumpIfNonZero);
                        jump_table.push(0);
                        jump_table.set(left, right);
                        jump_table.set(right, left);
                        proof {
                            assert(stack@ =~= old_stack.drop_last());
                            assert(instr_of(b) is JumpIfNonZero);
                            assert(old_stack[old_stack.len() - 1] == left);
                            assert(old_stack.contains(left));
                            assert(left < right);
                            assert forall|x: usize| stack@.contains(x) implies old_stack.contains(
                                x,
                            ) && x < left by {
                                let k = choose|k: int| 0 <= k < stack@.len() && stack@[k] == x;
                                assert(old_stack[k] == x);
                            }
                            assert forall|x: usize|
                                old_stack.contains(x) && x != left implies stack@.contains(x) by {
                                let k = choose|k: int|
                                    0 <= k < old_stack.len() && old_stack[k] == x;
                                assert(k < old_stack.len() - 1);
                                assert(stack@[k] == x);
                            }
                            assert(jump_table@[left as int] == right);
                            assert(jump_table@[right as int] == left);
                            assert forall|j: int|
                                0 <= j < old_instr.len() && j != left implies instructions@[j]
                                == old_instr[j] && jump_table@[j] == old_jump[j] by {}
                            assert forall|j: int|
                                0 <= j < instructions@.len() && instructions@[j] is JumpIfZero
                                    && !stack@.contains(j as usize) implies j
                                < #[trigger] jump_table@[j] < instructions@.len()
                                && instructions@[jump_table@[j] as int] is JumpIfNonZero
                                && jump_table@[jump_table@[j] as int] == j by {
                                if j == left {
                                } else {
                                    assert(j < old_instr.len());
                                    assert(!old_stack.contains(j as usize));
                                    assert(old_jump[j] != left);
                                    assert(old_jump[j] != right);
                                }
                            }
                            assert forall|j: int|
                                0 <= j < instructions@.len() && instructions@[j] is JumpIfNonZero implies #[trigger] jump_table@[j]
                                < j && instructions@[jump_table@[j] as int] is JumpIfZero
                                && jump_table@[jump_table@[j] as int] == j && !stack@.contains(
                                jump_table@[j],
                            ) by {
                                if j == right {
                                } else {
                                    assert(j < old_instr.len());
                                    assert(old_jump[j] != left);
                                    assert(old_jump[j] != right);
                                }
                            }
                            assert forall|j: int, k: int|
                                #![trigger jump_table@[j], stack@[k]]
                                0 <= j < instructions@.len() && instructions@[j] is JumpIfZero
                                    && !stack@.contains(j as usize) && 0 <= k
                                    < stack@.len() implies stack@[k] < j || jump_table@[j]
                                < stack@[k] by {
                                if j == left as int {
                                    assert(stack@[k] < left);
                                } else {
                                    assert(j < old_instr.len());
                                    assert(!old_stack.contains(j as usize));
                                    assert(stack@[k] == old_stack[k]);
                                    assert(jump_table@[j] == old_jump[j]);
                                }
                            }
                            assert forall|j1: int, j2: int|
                                #![trigger jump_table@[j1], jump_table@[j2]]
                                0 <= j1 < j2 < instructions@.len()
                                    && instructions@[j1] is JumpIfZero
                                    && instructions@[j2] is JumpIfZero && !stack@.contains(
                                    j1 as usize,
                                ) && !stack@.contains(j2 as usize) && j2
                                    < jump_table@[j1] implies jump_table@[j2]
                                < jump_table@[j1] by {
                                if j1 == left as int {
                                    // The other pair lies inside the new
                                    // span, so it closed before it opened.
                                    assert(j2 < old_instr.len());
                                    assert(!old_stack.contains(j2 as usize));
                                    assert(jump_table@[j2] == old_jump[j2]);
                                    assert(j2 < old_jump[j2] < old_instr.len());
                                } else if j2 == left as int {
                                    // An older pair cannot half-contain
                                    // the new opener: while it was still
                                    // pending, completed pairs either
                                    // followed it or closed before it.
                                    assert(j1 < old_instr.len());
                                    assert(!old_stack.contains(j1 as usize));
                                    assert(jump_table@[j1] == old_jump[j1]);
                                    assert(old_stack[old_stack.len() - 1] == left);
                                    assert(old_stack[old_stack.len() - 1] < j1 || old_jump[j1]
                                        < old_stack[old_stack.len() - 1]);
                                } else {
                                    assert(j1 < old_instr.len() && j2 < old_instr.len());
                                    assert(!old_stack.contains(j1 as usize) && !old_stack.contains(
                                        j2 as usize,
                                    ));
                                    assert(jump_table@[j1] == old_jump[j1] && jump_table@[j2]
                                        == old_jump[j2]);
                                }
                            }
                        }
                    },
                }
            } else if b == ('[' as u8) {
                let ghost old_instr = instructions@;
                let ghost old_stack = stack@;
                let opened = instructions.len();
                stack.push(opened);
                instructions.push(Instruction::JumpIfZero);
                jump_table.push(0);
                proof {
                    assert(instr_of(b) is JumpIfZero);
                    assert(stack@[stack@.len() - 1] == opened);
                    assert(stack@.contains(opened));
                    assert forall|x: usize| old_stack.contains(x) implies stack@.contains(x) by {
                        let k = choose|k: int| 0 <= k < old_stack.len() && old_stack[k] == x;
                        assert(stack@[k] == x);
                    }
                    assert forall|j: int|
                        0 <= j < instructions@.len() && instructions@[j] is JumpIfZero
                            && !stack@.contains(j as usize) implies j < #[trigger] jump_table@[j]
                        < instructions@.len()
                        && instructions@[jump_table@[j] as int] is JumpIfNonZero
                        && jump_table@[jump_table@[j] as int] == j by {
                        assert(j != opened);
                        assert(j < old_instr.len());
                        assert(!old_stack.contains(j as usize));
                    }
                }
            } else if is_op_byte(b) {
                let ghost old_instr = instructions@;
                instructions.push(instr_of_byte(b));
                jump_table.push(0);
                proof {
                    assert forall|j: int|
                        0 <= j < instructions@.len() && instructions@[j] is JumpIfZero
                            && !stack@.contains(j as usize) implies j < #[trigger] jump_table@[j]
                        < instructions@.len()
                        && instructions@[jump_table@[j] as int] is JumpIfNonZero
                        && jump_table@[jump_table@[j] as int] == j by {
                        assert(j < old_instr.len());
                    }
                }
            }
            idx = idx + 1;
        }
        proof {
            assert(source@.take(n as int) =~= source@);
        }
        if stack.len() > 0 {
            // A leftover loop-open: the source opens a loop it never closes.
            proof {
                assert(net_depth(source@) > 0);
            }
            Err(ErrorKind::UnbalancedBrackets)
        } else {
            proof {
                assert(balanced(source@));
            }
            Ok(Program { instructions, jump_table })
        }
    }

    /// Execute the single instruction at `*pc`: exactly one transition of
    /// [`crate::vm::step`] on the state `(pc, ptr, tape, inpos, output)`.
    /// `Ok` means the machine is still running; `Err` carries the fault the
    /// transition ended in, with every other component left as it was.
    pub fn run_byte(
        &self,
        pc: &mut usize,
        ptr: &mut usize,
        tape: &mut Vec<u8>,
        input: &[u8],
        inpos: &mut usize,
        output: &mut Vec<u8>,
        policy: InputPolicy,
    ) -> (r: Result<(), ErrorKind>)
        requires
            self.wf(),
            *old(pc) < self.code().len(),
            *old(ptr) < old(tape)@.len(),
            *old(inpos) <= input@.len(),
        ensures
            ({
                let s0 = State {
                    pc: *old(pc) as int,
                    ptr: *old(ptr) as int,
                    tape: old(tape)@,
                    inpos: *old(inpos) as int,
                    out: old(output)@,
                    status: Status::Running,
                };
                let s1 = step(self.code(), self.jumps(), policy, input@, s0);
                &&& *final(pc) as int == s1.pc
                &&& *final(ptr) as int == s1.ptr
                &&& final(tape)@ == s1.tape
                &&& *final(inpos) as int == s1.inpos
                &&& final(output)@ == s1.out
                &&& (r is Ok <==> s1.status is Running)
                &&& (r matches Err(e) ==> s1.status == Status::Faulted(e))
            }),
    {
        let code_len = self.instructions.len();
        let instr = self.instructions[*pc];
        match instr {
            Instruction::MoveRight => {
                let tape_len = tape.len();
                *ptr = *ptr + 1;
                if *ptr >= tape_len {
                    tape.push(0);
                }
                *pc = *pc + 1;
                Ok(())
            },
            Instruction::MoveLeft => {
                if *ptr == 0 {
                    return Err(ErrorKind::PointerUnderflow);
                }
                *ptr = *ptr - 1;
                *pc = *pc + 1;
                Ok(())
            },
            Instruction::Inc => {
                let c = tape[*ptr];
                tape.set(*ptr, if c == 255 { 0 } else { c + 1 });
                *pc = *pc + 1;
                Ok(())
            },
            Instruction::Dec => {
                let c = tape[*ptr];
                tape.set(*ptr, if c == 0 { 255 } else { c - 1 });
                *pc = *pc + 1;
                Ok(())
            },
            Instruction::Output => {
                output.push(tape[*ptr]);
                *pc = *pc + 1;
                Ok(())
            },
            Instruction::Input => {
                if *inpos < input.len() {
                    tape.set(*ptr, input[*inpos]);
                    *inpos = *inpos + 1;
                    *pc = *pc + 1;
                    Ok(())
                } else {
                    match policy {
                        InputPolicy::Fail => Err(ErrorKind::InputExhausted),
                        InputPolicy::ZeroFill => {
                            tape.set(*ptr, 0);
                            *pc = *pc + 1;
                            Ok(())
                        },
                    }
                }
            },
            Instruction::JumpIfZero => {
                if tape[*ptr] == 0 {
                    *pc = self.jump_table[*pc] + 1;
                } else {
                    *pc = *pc + 1;
                }
                Ok(())
            },
            Instruction::JumpIfNonZero => {
                if tape[*ptr] != 0 {
                    *pc = self.jump_table[*pc] + 1;
                } else {
                    *pc = *pc + 1;
                }
                Ok(())
            },
        }
    }

    /// Run the compiled program against the given input bytes, starting
    /// from a zeroed tape, for at most `max_steps` transitions. The result
    /// is exactly the state the small-step semantics reaches after
    /// `max_steps` transitions from the initial state (terminal states are
    /// fixed points, so a run that halts or faults earlier is unaffected by
    /// the budget): the output emitted, the status — `Halted`, `Faulted`,
    /// or still `Running` if the budget ran out first — and the final tape.
    /// Determinism is immediate: the semantics is a function.
    ///
    /// The step budget is the caller's: the language itself has programs
    /// that never terminate, and bounding them is the harness's business.
    pub fn run(&self, input: &[u8], config: Config, max_steps: u64) -> (r: RunResult)
        requires
            self.wf(),
            config.initial_tape_size >= 1,
        ensures
            ({
                let fin = steps(
                    self.code(),
                    self.jumps(),
                    config.on_input_exhausted,
                    input@,
                    init_state(config.initial_tape_size as nat),
                    max_steps as nat,
                );
                &&& r.output@ == fin.out
                &&& r.status == fin.status
                &&& r.tape@ == fin.tape
            }),
    {
        let ghost code = self.code();
        let ghost jumps = self.jumps();
        let ghost pol = config.on_input_exhausted;
        let ghost init = init_state(config.initial_tape_size as nat);

        let mut tape: Vec<u8> = Vec::with_capacity(config.initial_tape_size);
        let mut i: usize = 0;
        while i < config.initial_tape_size
            invariant
                i <= config.initial_tape_size,
                tape@.len() == i,
                forall|k: int| 0 <= k < i ==> tape@[k] == 0,
            decreases config.initial_tape_size - i,
        {
            tape.push(0);
            i = i + 1;
        }
        proof {
            assert(tape@ =~= init.tape);
        }

        let mut pc: usize = 0;
        let mut ptr: usize = 0;
        let mut inpos: usize = 0;
        let mut output: Vec<u8> = Vec::new();
        let mut status = Status::Running;
        let mut steps_done: u64 = 0;
        proof {
            assert(output@ =~= init.out);
        }
        while steps_done < max_steps && status == Status::Running
            invariant
                self.wf(),
                code == self.code(),
                jumps == self.jumps(),
                pol == config.on_input_exhausted,
                steps_done <= max_steps,
                pc <= self.code().len(),
                ptr < tape@.len(),
                inpos <= input@.len(),
                steps(code, jumps, pol, input@, init, steps_done as nat) == (State {
                    pc: pc as int,
                    ptr: ptr as int,
                    tape: tape@,
                    inpos: inpos as int,
                    out: output@,
                    status,
                }),
            decreases max_steps - steps_done,
        {
            let ghost cur = State {
                pc: pc as int,
                ptr: ptr as int,
                tape: tape@,
                inpos: inpos as int,
                out: output@,
                status,
            };
            if pc >= self.instructions.len() {
                status = Status::Halted;
            } else {
                match self.run_byte(
                    &mut pc,
                    &mut ptr,
                    &mut tape,
                    input,
                    &mut inpos,
                    &mut output,
                    config.on_input_exhausted,
                ) {
                    Ok(()) => {
                    },
                    Err(e) => {
                        status = Status::Faulted(e);
                    },
                }
            }
            steps_done = steps_done + 1;
            proof {
                assert(steps(code, jumps, pol, input@, init, steps_done as nat) == step(
                    code,
                    jumps,
                    pol,
                    input@,
                    cur,
                ));
            }
        }
        proof {
            let reached = steps(code, jumps, pol, input@, init, steps_done as nat);
            if steps_done < max_steps {
                lemma_steps_add(
                    code,
                    jumps,
                    pol,
                    input@,
                    init,
                    steps_done as nat,
                    (max_steps - steps_done) as nat,
                );
                lemma_terminal_fixed(
                    code,
                    jumps,
                    pol,
                    input@,
                    reached,
                    (max_steps - steps_done) as nat,
                );
            }
        }
        RunResult { output, status, tape }
    }
}

} // verus!
