use brainfuck::lang::Instruction;
use brainfuck::program::{Config, Program};
use brainfuck::vm::{ErrorKind, InputPolicy, Status};

fn cfg(size: usize, policy: InputPolicy) -> Config {
    Config { initial_tape_size: size, on_input_exhausted: policy }
}

fn load(source: &[u8]) -> Program {
    Program::new(source).expect("source should load")
}

const BUDGET: u64 = 10_000_000;

#[test]
fn empty_source_halts_immediately() {
    let p = load(b"");
    let r = p.run(b"", Config::default(), BUDGET);
    assert_eq!(r.status, Status::Halted);
    assert!(r.output.is_empty());
}

#[test]
fn jump_table_is_total_and_involutive() {
    let p = load(b"[[][]][]");
    let instrs = p.instructions();
    let table = p.jump_table();
    assert_eq!(table.len(), instrs.len());
    for (i, instr) in instrs.iter().enumerate() {
        match instr {
            Instruction::JumpIfZero => {
                let j = table[i];
                assert!(j > i);
                assert_eq!(instrs[j], Instruction::JumpIfNonZero);
                assert_eq!(table[j], i);
            }
            Instruction::JumpIfNonZero => {
                let j = table[i];
                assert!(j < i);
                assert_eq!(instrs[j], Instruction::JumpIfZero);
                assert_eq!(table[j], i);
            }
            _ => {}
        }
    }
    assert_eq!(table[0], 5);
    assert_eq!(table[5], 0);
    assert_eq!(table[1], 2);
    assert_eq!(table[3], 4);
    assert_eq!(table[6], 7);
    assert_eq!(table[7], 6);
}

#[test]
fn excess_closer_fails_to_load() {
    assert_eq!(Program::new(b"+]+").unwrap_err(), ErrorKind::UnbalancedBrackets);
    assert_eq!(Program::new(b"]").unwrap_err(), ErrorKind::UnbalancedBrackets);
    assert_eq!(Program::new(b"[]]").unwrap_err(), ErrorKind::UnbalancedBrackets);
}

#[test]
fn leftover_opener_fails_to_load() {
    assert_eq!(Program::new(b"[").unwrap_err(), ErrorKind::UnbalancedBrackets);
    assert_eq!(Program::new(b"+[-[]").unwrap_err(), ErrorKind::UnbalancedBrackets);
}

#[test]
fn overlapping_brackets_fail_to_load() {
    // A prefix that closes more than it opened is refused even though the
    // bracket counts match overall.
    assert_eq!(Program::new(b"][").unwrap_err(), ErrorKind::UnbalancedBrackets);
    assert_eq!(Program::new(b"[]][").unwrap_err(), ErrorKind::UnbalancedBrackets);
}

#[test]
fn comment_bytes_are_filtered_out() {
    let noisy = load(b"hello +x+ world [\n-\t] 123!");
    let clean = load(b"++[-]");
    assert_eq!(noisy.instructions(), clean.instructions());
    assert_eq!(noisy.jump_table(), clean.jump_table());
    assert_eq!(
        noisy.instructions(),
        &vec![
            Instruction::Inc,
            Instruction::Inc,
            Instruction::JumpIfZero,
            Instruction::Dec,
            Instruction::JumpIfNonZero,
        ]
    );
}

#[test]
fn inc_wraps_255_to_0() {
    // 256 increments of one cell end where they began; the byte printed is 0.
    let mut src = vec![b'+'; 256];
    src.push(b'.');
    let p = load(&src);
    let r = p.run(b"", Config::default(), BUDGET);
    assert_eq!(r.status, Status::Halted);
    assert_eq!(r.output, vec![0u8]);
}

#[test]
fn dec_wraps_0_to_255() {
    let p = load(b"-.");
    let r = p.run(b"", Config::default(), BUDGET);
    assert_eq!(r.status, Status::Halted);
    assert_eq!(r.output, vec![255u8]);
}

#[test]
fn move_right_grows_the_tape_with_zero_cells() {
    // With a one-cell tape, each step right appends a zero cell; the newly
    // reached cell reads as zero.
    let p = load(b">>>.");
    let r = p.run(b"", cfg(1, InputPolicy::ZeroFill), BUDGET);
    assert_eq!(r.status, Status::Halted);
    assert_eq!(r.output, vec![0u8]);
    assert_eq!(r.tape, vec![0u8, 0, 0, 0]);
}

#[test]
fn move_left_at_cell_zero_faults() {
    let p = load(b"<");
    let r = p.run(b"", Config::default(), BUDGET);
    assert_eq!(r.status, Status::Faulted(ErrorKind::PointerUnderflow));
    assert!(r.output.is_empty());
}

#[test]
fn hello_world_prints_exactly_its_line() {
    let src = b"++++++++[>++++[>++>+++>+++>+<<<<-]>+>+>->>+[<]<-]>>.>---.+++++++..+++.>>.<-.<.+++.------.--------.>>+.>++.";
    let p = load(src);
    let r = p.run(b"", Config::default(), BUDGET);
    assert_eq!(r.status, Status::Halted);
    assert_eq!(r.output, b"Hello World!\n".to_vec());
}

#[test]
fn cat_copies_input_to_output_and_halts_under_zero_fill() {
    let p = load(b",[.,]");
    let input = b"echo this through the tape\x01\x02";
    let r = p.run(input, cfg(1, InputPolicy::ZeroFill), BUDGET);
    assert_eq!(r.status, Status::Halted);
    assert_eq!(r.output, input.to_vec());
}

#[test]
fn cat_faults_input_exhausted_under_fail_policy() {
    let p = load(b",[.,]");
    let input = b"abc";
    let r = p.run(input, cfg(1, InputPolicy::Fail), BUDGET);
    assert_eq!(r.status, Status::Faulted(ErrorKind::InputExhausted));
    // Every byte already echoed stays observable.
    assert_eq!(r.output, input.to_vec());
}

#[test]
fn input_on_empty_stream_zero_fills_under_default_config() {
    let p = load(b"+,.");
    let r = p.run(b"", Config::default(), BUDGET);
    assert_eq!(r.status, Status::Halted);
    assert_eq!(r.output, vec![0u8]);
}

#[test]
fn nested_loop_multiplication_leaves_twelve() {
    // 3 * 4 by repeated addition: the outer loop runs the multiplicand
    // down, the inner loop adds the multiplier into the target cell.
    let p = load(b"+++[>++++[>+<-]<-]");
    let r = p.run(b"", cfg(3, InputPolicy::ZeroFill), BUDGET);
    assert_eq!(r.status, Status::Halted);
    assert_eq!(r.tape[2], 12);
    assert_eq!(r.tape[0], 0);
    assert_eq!(r.tape[1], 0);
}

#[test]
fn loop_is_skipped_when_cell_is_zero() {
    let p = load(b"[.+.]-.");
    let r = p.run(b"", Config::default(), BUDGET);
    assert_eq!(r.status, Status::Halted);
    assert_eq!(r.output, vec![255u8]);
}

#[test]
fn run_out_of_budget_reports_still_running() {
    let p = load(b"+[]");
    let r = p.run(b"", Config::default(), 1_000);
    assert_eq!(r.status, Status::Running);
}

#[test]
fn identical_runs_are_deterministic() {
    let src = b"++[>+++[>++<-]<-]>>.,.";
    let input = b"Q";
    let a = load(src).run(input, cfg(2, InputPolicy::Fail), BUDGET);
    let b = load(src).run(input, cfg(2, InputPolicy::Fail), BUDGET);
    assert_eq!(a.status, b.status);
    assert_eq!(a.output, b.output);
    assert_eq!(a.tape, b.tape);
}

#[test]
fn run_byte_steps_one_instruction() {
    let p = load(b"+>");
    let mut pc = 0usize;
    let mut ptr = 0usize;
    let mut tape = vec![0u8];
    let mut inpos = 0usize;
    let mut output = Vec::new();
    let r = p.run_byte(
        &mut pc,
        &mut ptr,
        &mut tape,
        b"",
        &mut inpos,
        &mut output,
        InputPolicy::ZeroFill,
    );
    assert!(r.is_ok());
    assert_eq!(pc, 1);
    assert_eq!(tape, vec![1u8]);
    let r = p.run_byte(
        &mut pc,
        &mut ptr,
        &mut tape,
        b"",
        &mut inpos,
        &mut output,
        InputPolicy::ZeroFill,
    );
    assert!(r.is_ok());
    assert_eq!(pc, 2);
    assert_eq!(ptr, 1);
    assert_eq!(tape, vec![1u8, 0]);
}
