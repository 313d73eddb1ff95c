use brainfuck_interpreter::compiler::{Compiler, Instruction, InstructionList};
use brainfuck_interpreter::execution::context::{Context, InputStream, OutputStream};
use brainfuck_interpreter::execution::memory::{
    BoundPolicy, Memory, MemoryError, OverflowPolicy,
};
use brainfuck_interpreter::execution::processor::{
    Processor, ProcessorError, ProcessorState,
};

fn context_with_input(len: usize, input: Vec<i32>) -> Context {
    Context::new(
        Memory::new(len, 255, OverflowPolicy::Wrap, BoundPolicy::Strict),
        InputStream::new(input, 0),
        OutputStream::new(),
    )
}

fn run_source(source: &str, len: usize, input: Vec<i32>) -> (
    Result<(), ProcessorError>,
    Processor,
    Context,
) {
    let list = Compiler::new().compile(source).unwrap();
    let mut processor = Processor::new(list);
    let mut context = context_with_input(len, input);
    let r = processor.run(&mut context);
    (r, processor, context)
}

#[test]
fn three_increments_and_output_print_three() {
    let (r, processor, context) = run_source("+++.", 1, vec![]);
    assert_eq!(r, Ok(()));
    assert_eq!(processor.state(), ProcessorState::Halted);
    assert_eq!(context.out_stream.values(), &vec![3]);
}

#[test]
fn empty_program_is_rejected_with_empty() {
    let (r, processor, context) = run_source("just a comment", 1, vec![]);
    assert_eq!(r, Err(ProcessorError::Empty));
    assert_eq!(processor.state(), ProcessorState::Ready);
    assert!(context.out_stream.values().is_empty());
}

#[test]
fn halted_processor_rejects_another_run_untouched() {
    let (r, mut processor, mut context) = run_source("+++.", 1, vec![]);
    assert_eq!(r, Ok(()));
    assert_eq!(processor.run(&mut context), Err(ProcessorError::AlreadyHalted));
    assert_eq!(processor.state(), ProcessorState::Halted);
    assert_eq!(context.out_stream.values(), &vec![3]);
    assert_eq!(context.memory.cell_at(0), 3);
}

#[test]
fn failed_processor_rejects_another_run_untouched() {
    let (r, mut processor, mut context) = run_source(".<.", 3, vec![]);
    assert_eq!(
        r,
        Err(ProcessorError::Memory { source: MemoryError::OutOfBound })
    );
    assert_eq!(processor.state(), ProcessorState::Failed);
    assert_eq!(context.out_stream.values(), &vec![0]);
    assert_eq!(processor.run(&mut context), Err(ProcessorError::Failed));
    assert_eq!(processor.state(), ProcessorState::Failed);
    assert_eq!(context.out_stream.values(), &vec![0]);
}

#[test]
fn strict_overflow_fails_the_run() {
    let list = Compiler::new().compile("+.").unwrap();
    let mut processor = Processor::new(list);
    let mut context = Context::new(
        Memory::new(1, 0, OverflowPolicy::Strict, BoundPolicy::Strict),
        InputStream::new(vec![], 0),
        OutputStream::new(),
    );
    assert_eq!(
        processor.run(&mut context),
        Err(ProcessorError::Memory { source: MemoryError::Overflow })
    );
    assert_eq!(processor.state(), ProcessorState::Failed);
}

#[test]
fn input_feeds_cells_and_eof_yields_the_sentinel() {
    let (r, _, context) = run_source(",+.,.", 2, vec![41]);
    assert_eq!(r, Ok(()));
    // second read hits the end of the stream and yields the sentinel 0
    assert_eq!(context.out_stream.values(), &vec![42, 0]);
}

#[test]
fn plain_loop_runs_to_completion() {
    // counts cell 0 down while counting cell 1 up, via the jump form
    let (r, _, context) = run_source("+++[.-]", 1, vec![]);
    assert_eq!(r, Ok(()));
    assert_eq!(context.out_stream.values(), &vec![3, 2, 1]);
}

#[test]
fn optimized_loop_redistributes_and_clears() {
    let (r, _, context) = run_source("+++++[->++>+++<<]>.>.", 3, vec![]);
    assert_eq!(r, Ok(()));
    assert_eq!(context.out_stream.values(), &vec![10, 15]);
    assert_eq!(context.memory.cell_at(0), 0);
}

#[test]
fn clear_loop_zeroes_the_cell() {
    let (r, _, context) = run_source("+++[-].", 1, vec![]);
    assert_eq!(r, Ok(()));
    assert_eq!(context.out_stream.values(), &vec![0]);
}

#[test]
fn add_until_zero_matches_the_jump_form_single_offset() {
    // the optimized form of "[->+<]" after five increments
    let (r, _, optimized) = run_source("+++++[->+<]", 2, vec![]);
    assert_eq!(r, Ok(()));

    // the same loop written out as JumpIfZero / body / Jump
    let naive = InstructionList(vec![
        Instruction::Add { val: 5 },
        Instruction::JumpIfZero { target: 7 },
        Instruction::Add { val: -1 },
        Instruction::Seek { offset: 1 },
        Instruction::Add { val: 1 },
        Instruction::Seek { offset: -1 },
        Instruction::Jump { target: 1 },
        Instruction::Halt,
    ]);
    let mut processor = Processor::new(naive);
    let mut context = context_with_input(2, vec![]);
    assert_eq!(processor.run(&mut context), Ok(()));

    for i in 0..2 {
        assert_eq!(context.memory.cell_at(i), optimized.memory.cell_at(i));
    }
    assert_eq!(context.memory.cell_at(0), 0);
    assert_eq!(context.memory.cell_at(1), 5);
}

#[test]
fn add_until_zero_matches_the_jump_form_multi_offset() {
    let (r, _, optimized) = run_source("++++[->++>+++<<]", 3, vec![]);
    assert_eq!(r, Ok(()));

    let naive = InstructionList(vec![
        Instruction::Add { val: 4 },
        Instruction::JumpIfZero { target: 10 },
        Instruction::Add { val: -1 },
        Instruction::Seek { offset: 1 },
        Instruction::Add { val: 2 },
        Instruction::Seek { offset: 1 },
        Instruction::Add { val: 3 },
        Instruction::Seek { offset: -1 },
        Instruction::Seek { offset: -1 },
        Instruction::Jump { target: 1 },
        Instruction::Halt,
    ]);
    let mut processor = Processor::new(naive);
    let mut context = context_with_input(3, vec![]);
    assert_eq!(processor.run(&mut context), Ok(()));

    for i in 0..3 {
        assert_eq!(context.memory.cell_at(i), optimized.memory.cell_at(i));
    }
    assert_eq!(context.memory.cell_at(1), 8);
    assert_eq!(context.memory.cell_at(2), 12);
}

#[test]
fn add_until_zero_matches_the_jump_form_pure_clear() {
    let (r, _, optimized) = run_source("+++++++[-]", 1, vec![]);
    assert_eq!(r, Ok(()));

    let naive = InstructionList(vec![
        Instruction::Add { val: 7 },
        Instruction::JumpIfZero { target: 4 },
        Instruction::Add { val: -1 },
        Instruction::Jump { target: 1 },
        Instruction::Halt,
    ]);
    let mut processor = Processor::new(naive);
    let mut context = context_with_input(1, vec![]);
    assert_eq!(processor.run(&mut context), Ok(()));
    assert_eq!(context.memory.cell_at(0), 0);
    assert_eq!(optimized.memory.cell_at(0), 0);
}

#[test]
fn add_until_zero_skips_when_cell_is_zero() {
    // the loop body never runs: cell 1 stays zero
    let (r, _, context) = run_source("[->+<]>.", 2, vec![]);
    assert_eq!(r, Ok(()));
    assert_eq!(context.out_stream.values(), &vec![0]);
}

#[test]
fn wrapping_cells_wrap_during_a_run() {
    // 8-bit wrap: 255 + 1 == 0
    let list = Compiler::new().compile("-.").unwrap();
    let mut processor = Processor::new(list);
    let mut context = context_with_input(1, vec![]);
    assert_eq!(processor.run(&mut context), Ok(()));
    assert_eq!(context.out_stream.values(), &vec![255]);
}
