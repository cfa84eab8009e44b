//! The small-step semantics of the virtual machine: the execution state, a
//! deterministic transition function over it, and the facts about single
//! transitions that the interpreter's contracts build on.

use crate::lang::Instruction;
use vstd::prelude::*;

verus! {

/// The kinds of failure a load or a run can end in. The caller always
/// receives the kind itself, never a generic failure.
#[derive(Clone, Copy, Debug, PartialEq, Eq, Structural)]
pub enum ErrorKind {
    /// Loop-open and loop-close bytes of the source do not pair off.
    /// Raised at load time; execution never starts.
    UnbalancedBrackets,
    /// A move left was attempted with the tape pointer at cell zero. The
    /// fixed policy of this library: such a move is a fatal fault, never a
    /// silent wrap or saturation.
    PointerUnderflow,
    /// An input instruction ran after the input stream was exhausted, under
    /// `InputPolicy::Fail`.
    InputExhausted,
    /// An underlying byte stream failed. The in-memory streams this library
    /// runs against never fail; the kind exists for callers that surface
    /// failures of real streams under it.
    IOError,
}

/// The state of one run: `Running` until the program counter leaves the
/// instruction stream (`Halted`) or a runtime error occurs (`Faulted`).
#[derive(Clone, Copy, Debug, PartialEq, Eq, Structural)]
pub enum Status {
    Running,
    Halted,
    Faulted(ErrorKind),
}

/// What an input instruction does when the input stream is exhausted:
/// fault with `InputExhausted`, or write zero and continue.
#[derive(Clone, Copy, Debug, PartialEq, Eq, Structural)]
pub enum InputPolicy {
    Fail,
    ZeroFill,
}

/// The whole execution state of one run, at specification level: program
/// counter, tape pointer, tape contents, how much of the input stream has
/// been consumed, the output emitted so far, and the run's status.
pub ghost struct State {
    pub pc: int,
    pub ptr: int,
    pub tape: Seq<u8>,
    pub inpos: int,
    pub out: Seq<u8>,
    pub status: Status,
}

/// A state the machine never leaves: halted or faulted.
pub open spec fn is_terminal(s: State) -> bool {
    !(s.status is Running)
}

/// One cell incremented with unsigned 8-bit wraparound: 255 becomes 0.
pub open spec fn wrap_inc(c: u8) -> u8 {
    if c == 255 {
        0
    } else {
        (c + 1) as u8
    }
}

/// One cell decremented with unsigned 8-bit wraparound: 0 becomes 255.
pub open spec fn wrap_dec(c: u8) -> u8 {
    if c == 0 {
        255
    } else {
        (c - 1) as u8
    }
}

/// The initial state of a run: program counter and tape pointer at zero, a
/// zeroed tape of the configured length, nothing read, nothing written.
pub open spec fn init_state(tape_len: nat) -> State {
    State {
        pc: 0,
        ptr: 0,
        tape: Seq::new(tape_len, |i: int| 0u8),
        inpos: 0,
        out: Seq::empty(),
        status: Status::Running,
    }
}

/// The deterministic transition function: what one instruction of the
/// program `(code, jump)` does to the state `s`, reading from `input`.
/// Terminal states are fixed points. The program counter advances by one
/// after every instruction except a taken jump, which lands one past the
/// matching partner.
pub open spec fn step(
    code: Seq<Instruction>,
    jump: Seq<usize>,
    policy: InputPolicy,
    input: Seq<u8>,
    s: State,
) -> State {
    if is_terminal(s) {
        s
    } else if !(0 <= s.pc < code.len()) {
        State { status: Status::Halted, ..s }
    } else {
        match code[s.pc] {
            Instruction::MoveRight => (State {
                pc: s.pc + 1,
                ptr: s.ptr + 1,
                tape: if s.ptr + 1 < s.tape.len() {
                    s.tape
                } else {
                    s.tape.push(0)
                },
                ..s
            }),
            Instruction::MoveLeft => if s.ptr == 0 {
                State { status: Status::Faulted(ErrorKind::PointerUnderflow), ..s }
            } else {
                State { pc: s.pc + 1, ptr: s.ptr - 1, ..s }
            },
            Instruction::Inc => (State {
                pc: s.pc + 1,
                tape: s.tape.update(s.ptr, wrap_inc(s.tape[s.ptr])),
                ..s
            }),
            Instruction::Dec => (State {
                pc: s.pc + 1,
                tape: s.tape.update(s.ptr, wrap_dec(s.tape[s.ptr])),
                ..s
            }),
            Instruction::Output => State { pc: s.pc + 1, out: s.out.push(s.tape[s.ptr]), ..s },
            Instruction::Input => if s.inpos < input.len() {
                State {
                    pc: s.pc + 1,
                    tape: s.tape.update(s.ptr, input[s.inpos]),
                    inpos: s.inpos + 1,
                    ..s
                }
            } else {
                match policy {
                    InputPolicy::Fail => (State {
                        status: Status::Faulted(ErrorKind::InputExhausted),
                        ..s
                    }),
                    InputPolicy::ZeroFill => (State {
                        pc: s.pc + 1,
                        tape: s.tape.update(s.ptr, 0),
                        ..s
                    }),
                }
            },
            Instruction::JumpIfZero => if s.tape[s.ptr] == 0 {
                State { pc: jump[s.pc] + 1, ..s }
            } else {
                State { pc: s.pc + 1, ..s }
            },
            Instruction::JumpIfNonZero => if s.tape[s.ptr] != 0 {
                State { pc: jump[s.pc] + 1, ..s }
            } else {
                State { pc: s.pc + 1, ..s }
            },
        }
    }
}

/// The state after `n` transitions from `s`.
pub open spec fn steps(
    code: Seq<Instruction>,
    jump: Seq<usize>,
    policy: InputPolicy,
    input: Seq<u8>,
    s: State,
    n: nat,
) -> State
    decreases n,
{
    if n == 0 {
        s
    } else {
        step(code, jump, policy, input, steps(code, jump, policy, input, s, (n - 1) as nat))
    }
}

/// A terminal state stays as it is under any number of transitions.
pub proof fn lemma_terminal_fixed(
    code: Seq<Instruction>,
    jump: Seq<usize>,
    policy: InputPolicy,
    input: Seq<u8>,
    s: State,
    n: nat,
)
    requires
        is_terminal(s),
    ensures
        steps(code, jump, policy, input, s, n) == s,
    decreases n,
{
    if n > 0 {
        lemma_terminal_fixed(code, jump, policy, input, s, (n - 1) as nat);
    }
}

/// Transitions compose: `m + n` transitions are `m` transitions followed by
/// `n` more.
pub proof fn lemma_steps_add(
    code: Seq<Instruction>,
    jump: Seq<usize>,
    policy: InputPolicy,
    input: Seq<u8>,
    s: State,
    m: nat,
    n: nat,
)
    ensures
        steps(code, jump, policy, input, s, m + n) == steps(
            code,
            jump,
            policy,
            input,
            steps(code, jump, policy, input, s, m),
            n,
        ),
    decreases n,
{
    if n > 0 {
        lemma_steps_add(code, jump, policy, input, s, m, (n - 1) as nat);
        assert(m + n - 1 == m + (n - 1) as nat);
    }
}

/// Incrementing wraps, never saturates: an increment instruction on a cell
/// holding 255 leaves that cell holding 0, in every state.
pub proof fn lemma_inc_wraps(
    code: Seq<Instruction>,
    jump: Seq<usize>,
    policy: InputPolicy,
    input: Seq<u8>,
    s: State,
)
    requires
        s.status is Running,
        0 <= s.pc < code.len(),
        code[s.pc] is Inc,
        0 <= s.ptr < s.tape.len(),
        s.tape[s.ptr] == 255,
    ensures
        step(code, jump, policy, input, s).tape[s.ptr] == 0,
{
}

/// Decrementing wraps, never saturates: a decrement instruction on a cell
/// holding 0 leaves that cell holding 255, in every state.
pub proof fn lemma_dec_wraps(
    code: Seq<Instruction>,
    jump: Seq<usize>,
    policy: InputPolicy,
    input: Seq<u8>,
    s: State,
)
    requires
        s.status is Running,
        0 <= s.pc < code.len(),
        code[s.pc] is Dec,
        0 <= s.ptr < s.tape.len(),
        s.tape[s.ptr] == 0,
    ensures
        step(code, jump, policy, input, s).tape[s.ptr] == 255,
{
}

/// Moving right off the end of the tape grows it by one zero cell, so the
/// tape is unbounded to the right and a freshly reached cell reads 0.
pub proof fn lemma_move_right_extends(
    code: Seq<Instruction>,
    jump: Seq<usize>,
    policy: InputPolicy,
    input: Seq<u8>,
    s: State,
)
    requires
        s.status is Running,
        0 <= s.pc < code.len(),
        code[s.pc] is MoveRight,
        s.ptr + 1 == s.tape.len(),
    ensures
        step(code, jump, policy, input, s).tape == s.tape.push(0),
        step(code, jump, policy, input, s).ptr == s.ptr + 1,
        step(code, jump, policy, input, s).tape[step(code, jump, policy, input, s).ptr] == 0,
{
}

} // verus!

