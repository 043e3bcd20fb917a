use tape_vm::{tokenize_source, Exit, Fault, CPU, DEFAULT_MEM_SIZE};

const BUDGET: u64 = 1_000_000;

fn engine(text: &str) -> CPU {
    CPU::new(tokenize_source(text))
}

#[test]
fn hello_program_prints_hello() {
    let mut cpu =
        engine("++++++++[>++++[>++>+++>+++>+<<<<-]>+>+>->>+[<]<-]>>.>---.+++++++..+++.");
    let run = cpu.run(&[], BUDGET);
    assert_eq!(run.exit, Exit::Finished);
    assert_eq!(run.output, b"Hello".to_vec());
    assert_eq!(run.output, vec![0x48, 0x65, 0x6c, 0x6c, 0x6f]);
    assert_eq!(run.consumed, 0);
    assert!(cpu.halted());
    assert_eq!(&cpu.memory()[..8], &[0, 0, 72, 111, 88, 32, 8, 0][..]);
    assert_eq!(cpu.data_pointer(), 3);
}

#[test]
fn hello_world_program_prints_hello_world() {
    let mut cpu = engine(
        "++++++++[>++++[>++>+++>+++>+<<<<-]>+>+>->>+[<]<-]>>.>---.+++++++..+++.\
         >>.<-.<.+++.------.--------.>>+.>++.",
    );
    let run = cpu.run(&[], BUDGET);
    assert_eq!(run.exit, Exit::Finished);
    assert_eq!(run.output, b"Hello World!\n".to_vec());
}

#[test]
fn echo_one_byte() {
    let mut cpu = engine(",.");
    let run = cpu.run(&[0x41], BUDGET);
    assert_eq!(run.exit, Exit::Finished);
    assert_eq!(run.output, vec![0x41]);
    assert_eq!(run.consumed, 1);
    assert_eq!(cpu.memory()[0], 0x41);
}

#[test]
fn input_on_empty_source_keeps_cell_and_finishes() {
    let mut cpu = engine(",");
    let run = cpu.run(&[], BUDGET);
    assert_eq!(run.exit, Exit::Finished);
    assert_eq!(run.output, Vec::<u8>::new());
    assert_eq!(run.consumed, 0);
    assert_eq!(cpu.memory()[0], 0);
    assert!(cpu.halted());
}

#[test]
fn input_on_exhausted_source_keeps_nonzero_cell() {
    let mut cpu = engine("+,");
    let run = cpu.run(&[], BUDGET);
    assert_eq!(run.exit, Exit::Finished);
    assert_eq!(cpu.memory()[0], 1);
}

#[test]
fn single_unmatched_opener_is_reported() {
    let mut cpu = engine("[");
    let run = cpu.run(&[], BUDGET);
    assert_eq!(run.exit, Exit::Aborted(Fault::UnmatchedBracket));
    assert_eq!(run.output, Vec::<u8>::new());
    assert_eq!(cpu.instruction_pointer(), 0);
    assert_eq!(cpu.memory()[0], 0);
}

#[test]
fn zeroing_idiom_leaves_cell_at_zero() {
    let mut cpu = engine("+[-]");
    let run = cpu.run(&[], BUDGET);
    assert_eq!(run.exit, Exit::Finished);
    assert_eq!(run.output, Vec::<u8>::new());
    assert_eq!(cpu.memory()[0], 0);
    assert_eq!(cpu.instruction_pointer(), 4);
}

#[test]
fn zeroing_idiom_clears_any_value() {
    let mut cpu = engine(",[-]");
    let run = cpu.run(&[200], BUDGET);
    assert_eq!(run.exit, Exit::Finished);
    assert_eq!(cpu.memory()[0], 0);
}

#[test]
fn empty_program_finishes_at_once() {
    let mut cpu = engine("");
    let run = cpu.run(&[1, 2, 3], BUDGET);
    assert_eq!(run.exit, Exit::Finished);
    assert_eq!(run.output, Vec::<u8>::new());
    assert_eq!(run.consumed, 0);
}

#[test]
fn empty_program_finishes_even_without_budget() {
    let mut cpu = engine("");
    assert_eq!(cpu.run(&[], 0).exit, Exit::Finished);
}

#[test]
fn unmatched_opener_is_ignored_while_cell_is_nonzero() {
    let mut cpu = engine("+[");
    let run = cpu.run(&[], BUDGET);
    assert_eq!(run.exit, Exit::Finished);
    assert_eq!(cpu.memory()[0], 1);
}

#[test]
fn unmatched_closer_is_ignored_while_cell_is_zero() {
    let mut cpu = engine("]");
    assert_eq!(cpu.run(&[], BUDGET).exit, Exit::Finished);
}

#[test]
fn unmatched_closer_is_reported_when_taken() {
    let mut cpu = engine("+.]");
    let run = cpu.run(&[], BUDGET);
    assert_eq!(run.exit, Exit::Aborted(Fault::UnmatchedBracket));
    assert_eq!(run.output, vec![1]);
    assert_eq!(cpu.instruction_pointer(), 2);
}

#[test]
fn underflow_stops_the_run_and_keeps_earlier_output() {
    let mut cpu = engine("+.<.");
    let run = cpu.run(&[], BUDGET);
    assert_eq!(run.exit, Exit::Aborted(Fault::TapeUnderflow));
    assert_eq!(run.output, vec![1]);
    assert_eq!(cpu.instruction_pointer(), 2);
    assert_eq!(cpu.data_pointer(), 0);
}

#[test]
fn running_off_the_right_edge_is_overflow() {
    let mut cpu = engine("+[>+]");
    let run = cpu.run(&[], BUDGET);
    assert_eq!(run.exit, Exit::Aborted(Fault::TapeOverflow));
    assert_eq!(cpu.data_pointer(), DEFAULT_MEM_SIZE - 1);
    assert_eq!(cpu.memory()[DEFAULT_MEM_SIZE - 1], 1);
    assert_eq!(cpu.instruction_pointer(), 2);
}

#[test]
fn last_cell_is_usable() {
    let text = format!("{}+.", ">".repeat(DEFAULT_MEM_SIZE - 1));
    let mut cpu = engine(&text);
    let run = cpu.run(&[], BUDGET);
    assert_eq!(run.exit, Exit::Finished);
    assert_eq!(run.output, vec![1]);
    assert_eq!(cpu.data_pointer(), DEFAULT_MEM_SIZE - 1);
}

#[test]
fn one_move_past_the_last_cell_is_overflow() {
    let text = ">".repeat(DEFAULT_MEM_SIZE);
    let mut cpu = engine(&text);
    let run = cpu.run(&[], BUDGET);
    assert_eq!(run.exit, Exit::Aborted(Fault::TapeOverflow));
    assert_eq!(cpu.data_pointer(), DEFAULT_MEM_SIZE - 1);
    assert_eq!(cpu.instruction_pointer(), DEFAULT_MEM_SIZE - 1);
}

#[test]
fn decrement_of_zero_prints_255() {
    let mut cpu = engine("-.");
    assert_eq!(cpu.run(&[], BUDGET).output, vec![255]);
}

#[test]
fn program_of_256_increments_returns_to_zero() {
    let text = "+".repeat(256);
    let mut cpu = engine(&text);
    assert_eq!(cpu.run(&[], BUDGET).exit, Exit::Finished);
    assert_eq!(cpu.memory()[0], 0);
}

#[test]
fn program_of_256_decrements_returns_to_start() {
    let text = format!(",{}.", "-".repeat(256));
    let mut cpu = engine(&text);
    assert_eq!(cpu.run(&[77], BUDGET).output, vec![77]);
}

#[test]
fn input_is_read_in_order_then_runs_dry() {
    let mut cpu = engine(",.,.,.");
    let run = cpu.run(b"ab", BUDGET);
    assert_eq!(run.exit, Exit::Finished);
    assert_eq!(run.output, b"abb".to_vec());
    assert_eq!(run.consumed, 2);
}

#[test]
fn unread_input_is_not_consumed() {
    let mut cpu = engine(",[.,]");
    let run = cpu.run(b"hi\0x", BUDGET);
    assert_eq!(run.exit, Exit::Finished);
    assert_eq!(run.output, b"hi".to_vec());
    assert_eq!(run.consumed, 3);
}

#[test]
fn nested_loops_multiply() {
    let mut cpu = engine("++[>+++[>+<-]<-]>>.");
    let run = cpu.run(&[], BUDGET);
    assert_eq!(run.exit, Exit::Finished);
    assert_eq!(run.output, vec![6]);
    assert_eq!(&cpu.memory()[..3], &[0, 0, 6][..]);
}

#[test]
fn endless_loop_is_suspended_when_budget_runs_out() {
    let mut cpu = engine("+[]");
    let run = cpu.run(&[], 1000);
    assert_eq!(run.exit, Exit::Suspended);
    assert_eq!(run.output, Vec::<u8>::new());
    assert_eq!(cpu.memory()[0], 1);
    assert!(!cpu.halted());
}

#[test]
fn zero_budget_executes_nothing() {
    let mut cpu = engine("+.");
    let run = cpu.run(&[], 0);
    assert_eq!(run.exit, Exit::Suspended);
    assert_eq!(cpu.instruction_pointer(), 0);
    assert_eq!(cpu.memory()[0], 0);
}

#[test]
fn budget_counts_executed_instructions() {
    let mut cpu = engine("+++.");
    let run = cpu.run(&[], 3);
    assert_eq!(run.exit, Exit::Suspended);
    assert_eq!(cpu.instruction_pointer(), 3);
    assert_eq!(run.output, Vec::<u8>::new());

    let mut cpu = engine("+++.");
    let run = cpu.run(&[], 4);
    assert_eq!(run.exit, Exit::Finished);
    assert_eq!(run.output, vec![3]);
}

#[test]
fn suspended_run_resumes_where_it_stopped() {
    let text = "+++[>,.<-]";
    let input = b"xy";

    let mut whole = engine(text);
    let expected = whole.run(input, BUDGET);
    assert_eq!(expected.exit, Exit::Finished);
    assert_eq!(expected.output, b"xyy".to_vec());
    assert_eq!(expected.consumed, 2);

    for first in 0..30u64 {
        let mut cpu = engine(text);
        let head = cpu.run(input, first);
        let tail = cpu.run(&input[head.consumed..], BUDGET);
        let mut output = head.output.clone();
        output.extend_from_slice(&tail.output);
        assert_eq!(tail.exit, Exit::Finished);
        assert_eq!(output, expected.output);
        assert_eq!(head.consumed + tail.consumed, expected.consumed);
        assert_eq!(cpu.memory(), whole.memory());
    }
}

#[test]
fn finished_run_does_not_depend_on_the_budget() {
    let text = "++[>+++[>+<-]<-]>>.";
    let mut exact = engine(text);
    let mut ample = engine(text);
    let a = exact.run(&[], 57);
    let b = ample.run(&[], BUDGET);
    assert_eq!(a.exit, Exit::Finished);
    assert_eq!(b.exit, Exit::Finished);
    assert_eq!(a.output, b.output);
    assert_eq!(exact.memory(), ample.memory());

    let mut short = engine(text);
    assert_eq!(short.run(&[], 56).exit, Exit::Suspended);
}

#[test]
fn stepping_by_hand_agrees_with_run() {
    let text = ",[.-]";
    let mut by_run = engine(text);
    let expected = by_run.run(&[3], BUDGET);

    let mut cpu = engine(text);
    let mut input = vec![3u8].into_iter();
    let mut output = Vec::new();
    while !cpu.halted() {
        let event = if cpu.awaits_input() { input.next() } else { None };
        if let Some(byte) = cpu.step(event).unwrap() {
            output.push(byte);
        }
    }
    assert_eq!(output, vec![3, 2, 1]);
    assert_eq!(output, expected.output);
    assert_eq!(cpu.memory(), by_run.memory());
}
