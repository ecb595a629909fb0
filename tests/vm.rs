use fhe_vm::air::{
    evaluate_transition, get_periodic_column_values, is_add, is_add2, is_mul, is_noop, is_push, is_read, is_read2,
    is_sadd, is_smul, Frame,
};
use fhe_vm::chiplets::Chiplets;
use fhe_vm::decoder::Decoder;
use fhe_vm::errors::{ChipletsError, ProcessorError, ProgramError, StackError, StackErrorKind};
use fhe_vm::fhe::{FheUInt8, LweParameters, ServerKey};
use fhe_vm::field::Felt;
use fhe_vm::opcodes::Operation;
use fhe_vm::processor::Processor;
use fhe_vm::program::Program;
use fhe_vm::rescue::Rescue128;
use fhe_vm::stack::{ProgramInputs, Stack};
use fhe_vm::system::System;

fn server_key() -> ServerKey {
    let plaintext_modulus: u32 = 8u32;
    let ciphertext_modulus: u32 = 128u32;
    let k: usize = 4;
    let std = 2.412_390_240_121_573e-5_f64;
    let parameters = LweParameters::new(plaintext_modulus, ciphertext_modulus, k, std.to_bits());
    ServerKey::new(parameters)
}

fn values(server_key: &ServerKey) -> ([u8; 2], [FheUInt8; 2]) {
    let clear_x = 33u8;
    let clear_y = 7u8;
    let a = 3u8;
    let b = 12u8;
    let x = server_key.encrypt(clear_x, 0);
    let y = server_key.encrypt(clear_y, 0);
    ([a, b], [x, y])
}

fn program_inputs() -> ProgramInputs {
    let key = server_key();
    let (public, secret) = values(&key);
    ProgramInputs::new(&public, &secret, &key)
}

fn empty_program_inputs() -> ProgramInputs {
    let key = server_key();
    ProgramInputs::new(&[], &[], &key)
}

fn to_element(value: u8) -> Felt {
    Felt::from_u8(value)
}

fn to_elements(arr: &[u8]) -> Vec<Felt> {
    arr.iter().map(|value| to_element(*value)).collect()
}

fn trace_state(clk: usize, trace: &[Vec<Felt>]) -> Vec<Felt> {
    let mut state = Vec::with_capacity(trace.len());
    for col in trace {
        state.push(col[clk]);
    }
    state
}

fn parts(words: &[&str]) -> Vec<Vec<u8>> {
    words.iter().map(|w| w.as_bytes().to_vec()).collect()
}

// ---------------------------------------------------------------- chiplets

#[test]
fn test_hash_operation() {
    let mut chiplets = Chiplets::new(8);
    let mut sponge = Rescue128::new();
    for _ in 0..14 {
        chiplets.hash_op(&Operation::push(2)).unwrap();
    }
    for _ in 0..2 {
        chiplets.hash_op(&Operation::noop()).unwrap();
    }
    let chiplets_trace = chiplets.into_trace(32).unwrap();
    for i in 0..14 {
        let trace = trace_state(i, &chiplets_trace);
        assert_eq!(trace[0], Felt::one());
        assert_eq!(trace[1..5].to_vec(), sponge.state());
        let op = Operation::push(2);
        sponge.update(op.code(), op.value());
    }
    for i in 0..2 {
        let trace = trace_state(14 + i, &chiplets_trace);
        assert_eq!(trace[0], Felt::one());
        assert_eq!(trace[1..5].to_vec(), sponge.state());
        let op = Operation::noop();
        sponge.update(op.code(), op.value());
    }
    let trace_row31 = trace_state(31, &chiplets_trace);
    assert_eq!(trace_row31[0], Felt::zero());
    assert_eq!(trace_row31[1..5].to_vec(), sponge.state());
}

#[test]
fn test_fill_trace_with_last_value() {
    let mut chiplets = Chiplets::new(8);
    for _ in 0..14 {
        chiplets.hash_op(&Operation::push(2)).unwrap();
    }
    for _ in 0..2 {
        chiplets.hash_op(&Operation::noop()).unwrap();
    }
    let chiplets_trace = chiplets.into_trace(32).unwrap();
    for i in 16..32 {
        let trace_row = trace_state(i, &chiplets_trace);
        assert_eq!(trace_row[0], Felt::zero());
        assert_eq!(trace_row[1..5].to_vec(), trace_state(i - 1, &chiplets_trace)[1..5].to_vec());
    }
}

#[test]
fn test_invalid_operation_error() {
    let mut chiplets = Chiplets::new(8);
    for _ in 0..14 {
        chiplets.hash_op(&Operation::push(2)).unwrap();
    }
    let op = Operation::push(2);
    let error = chiplets.hash_op(&op).unwrap_err();
    assert_eq!(error.to_string(), ChipletsError::invalid_operation(&op, 15).to_string());
    assert_eq!(error.to_string(), "chiplets error at 15: expected noop but was push(2)");
}

#[test]
fn test_invalid_trace_length_error() {
    let mut chiplets = Chiplets::new(8);
    for _ in 0..8 {
        chiplets.hash_op(&Operation::push(2)).unwrap();
    }
    let error = chiplets.into_trace(32).unwrap_err();
    assert_eq!(error.to_string(), ChipletsError::invalid_trace_length(16, 8, 8).to_string());
    assert_eq!(error.to_string(), "chiplets error at 8: trace length should be a multiple of 16, but was 8");
}

// ---------------------------------------------------------------- decoder

#[test]
fn test_decode_operation() {
    let mut decoder = Decoder::new(8);
    decoder.decode_op(&Operation::push(8));
    let decoder_trace = decoder.into_trace(8);
    assert_eq!(trace_state(0, &decoder_trace), to_elements(&[0, 0, 0, 0, 1]));
}

#[test]
fn decoder_test_fill_trace_with_noop() {
    let mut decoder = Decoder::new(8);
    decoder.decode_op(&Operation::push(8));
    let decoder_trace = decoder.into_trace(16);
    for i in 1..16 {
        assert_eq!(trace_state(i, &decoder_trace), to_elements(&[0, 0, 0, 0, 0]));
    }
}

#[test]
fn decoder_bits_of_each_opcode() {
    let ops = [
        (Operation::noop(), [0u8, 0, 0, 0, 0]),
        (Operation::add(), [0, 0, 0, 1, 0]),
        (Operation::mul(), [1, 0, 0, 1, 0]),
        (Operation::sadd(), [0, 1, 0, 1, 0]),
        (Operation::smul(), [0, 0, 1, 1, 0]),
        (Operation::add2(), [1, 1, 0, 1, 0]),
        (Operation::push(1), [0, 0, 0, 0, 1]),
        (Operation::read(), [1, 0, 0, 0, 1]),
        (Operation::read2(), [0, 1, 0, 0, 1]),
    ];
    for (op, bits) in ops.iter() {
        let mut decoder = Decoder::new(8);
        decoder.decode_op(op);
        assert_eq!(decoder.decoder_bits_state(0), to_elements(bits));
    }
}

// ---------------------------------------------------------------- system

#[test]
fn test_advance_clock() {
    let mut system = System::new(8);
    for _ in 0..8 {
        system.advance_step();
    }
    let clk_trace = system.into_trace(8)[0].to_vec();
    assert_eq!(clk_trace, to_elements(&[0, 1, 2, 3, 4, 5, 6, 7]));
}

#[test]
fn test_incremental_trace_fill() {
    let mut system = System::new(8);
    for _ in 0..16 {
        system.advance_step();
    }
    let clk_trace = system.into_trace(16);
    for i in 0..16 {
        assert_eq!(trace_state(i, &clk_trace), to_elements(&[i as u8]));
    }
}

// ---------------------------------------------------------------- stack

#[test]
fn stack_test_fill_trace_with_noop() {
    let mut stack = Stack::new(&program_inputs(), 8);
    for _ in 0..4 {
        stack.execute_op(&Operation::push(2)).unwrap();
        stack.execute_op(&Operation::push(2)).unwrap();
        stack.execute_op(&Operation::add()).unwrap();
    }
    let stack_trace = stack.into_trace(16);
    for i in 12..15 {
        assert_eq!(trace_state(i, &stack_trace), trace_state(i + 1, &stack_trace));
    }
}

#[test]
fn stack_test_operation_execution() {
    let mut stack = Stack::new(&program_inputs(), 8);
    stack.execute_op(&Operation::push(2)).unwrap();
    stack.execute_op(&Operation::push(2)).unwrap();
    stack.execute_op(&Operation::mul()).unwrap();
    let stack_trace = stack.into_trace(8);
    let trace_row2 = trace_state(2, &stack_trace);
    let trace_row3 = trace_state(3, &stack_trace);
    assert_eq!(trace_row2[0], to_element(2));
    assert_eq!(trace_row3[0], to_element(1));
    assert_eq!(trace_row3[1], to_element(4));
}

#[test]
fn stack_test_stack_underflow_error() {
    let mut stack = Stack::new(&program_inputs(), 8);
    stack.execute_op(&Operation::push(2)).unwrap();
    let op = Operation::mul();
    let error = stack.execute_op(&op).unwrap_err();
    assert_eq!(error.to_string(), StackError::stack_underflow(&op, 2).to_string());
    assert_eq!(error.to_string(), "stack error at 2: mul operation stack underflow");
}

#[test]
fn stack_add_operation_execution() {
    let mut stack = Stack::new(&program_inputs(), 8);
    stack.execute_op(&Operation::push(2)).unwrap();
    stack.execute_op(&Operation::push(2)).unwrap();
    stack.execute_op(&Operation::add()).unwrap();
    let stack_trace = stack.into_trace(8);
    let trace_row2 = trace_state(2, &stack_trace);
    let trace_row3 = trace_state(3, &stack_trace);
    assert_eq!(trace_row2[0], to_element(2));
    assert_eq!(trace_row3[0], to_element(1));
    assert_eq!(trace_row3[1], to_element(4));
}

#[test]
fn stack_add_underflow_error() {
    let mut stack = Stack::new(&program_inputs(), 8);
    stack.execute_op(&Operation::push(2)).unwrap();
    let op = Operation::add();
    let error = stack.execute_op(&op).unwrap_err();
    assert_eq!(error.to_string(), StackError::stack_underflow(&op, 2).to_string());
}

#[test]
fn stack_noop_operation_execution() {
    let mut stack = Stack::new(&program_inputs(), 8);
    stack.execute_op(&Operation::noop()).unwrap();
    let stack_trace = stack.into_trace(8);
    assert_eq!(trace_state(0, &stack_trace), trace_state(1, &stack_trace));
}

#[test]
fn stack_push_operation_execution() {
    let mut stack = Stack::new(&program_inputs(), 8);
    stack.execute_op(&Operation::push(5)).unwrap();
    let stack_trace = stack.into_trace(8);
    let trace_row0 = trace_state(0, &stack_trace);
    let trace_row1 = trace_state(1, &stack_trace);
    assert_eq!(trace_row0[0], to_element(0));
    assert_eq!(trace_row1[0], to_element(1));
    assert_eq!(trace_row1[1], to_element(5));
}

#[test]
fn stack_read_operation_execution() {
    let mut stack = Stack::new(&program_inputs(), 8);
    stack.execute_op(&Operation::read()).unwrap();
    let stack_trace = stack.into_trace(8);
    let trace_row0 = trace_state(0, &stack_trace);
    let trace_row1 = trace_state(1, &stack_trace);
    assert_eq!(trace_row0[0], to_element(0));
    assert_eq!(trace_row1[0], to_element(1));
    assert_eq!(trace_row1[1], to_element(3));
}

#[test]
fn stack_test_empty_inputs_error() {
    let mut stack = Stack::new(&empty_program_inputs(), 8);
    let op = Operation::read();
    let error = stack.execute_op(&op).unwrap_err();
    assert_eq!(error.to_string(), StackError::empty_inputs(&op, 1).to_string());
    assert_eq!(error.to_string(), "stack error at 1: no more inputs to read");
}

#[test]
fn stack_read2_operation_execution() {
    let inputs = program_inputs();
    let sct_inputs = inputs.secret().to_vec();
    let mut stack = Stack::new(&inputs, 8);
    stack.execute_op(&Operation::read2()).unwrap();
    let stack_trace = stack.into_trace(8);
    let trace_row0 = trace_state(0, &stack_trace);
    let trace_row1 = trace_state(1, &stack_trace);
    assert_eq!(trace_row0[0], to_element(0));
    assert_eq!(trace_row1[0], to_element(5));
    let input_ct = sct_inputs[0].ciphertext().to_vec();
    assert_eq!(trace_row1[1..6].to_vec(), input_ct);
}

#[test]
fn stack_read2_empty_inputs_error() {
    let mut stack = Stack::new(&empty_program_inputs(), 8);
    let op = Operation::read2();
    let error = stack.execute_op(&op).unwrap_err();
    assert_eq!(error.to_string(), StackError::empty_inputs(&op, 1).to_string());
}

#[test]
fn stack_sadd_operation_execution() {
    let inputs = program_inputs();
    let pub_inputs = inputs.public().to_vec();
    let sct_inputs = inputs.secret().to_vec();
    let mut stack = Stack::new(&inputs, 8);
    stack.execute_op(&Operation::read2()).unwrap();
    stack.execute_op(&Operation::read()).unwrap();
    stack.execute_op(&Operation::sadd()).unwrap();
    let stack_trace = stack.into_trace(8);
    let trace_row2 = trace_state(2, &stack_trace);
    let trace_row3 = trace_state(3, &stack_trace);
    assert_eq!(trace_row2[0], to_element(6));
    assert_eq!(trace_row3[0], to_element(5));
    let scalar = Felt::from_u8(pub_inputs[0]);
    let result = inputs.server_key().scalar_add(&scalar, &sct_inputs[0]);
    assert_eq!(trace_row3[1..6].to_vec(), result.ciphertext().to_vec());
}

#[test]
fn stack_sadd_underflow_error() {
    let mut stack = Stack::new(&program_inputs(), 8);
    stack.execute_op(&Operation::read2()).unwrap();
    let op = Operation::sadd();
    let error = stack.execute_op(&op).unwrap_err();
    assert_eq!(error.to_string(), StackError::stack_underflow(&op, 2).to_string());
}

#[test]
fn stack_smul_operation_execution() {
    let inputs = program_inputs();
    let pub_inputs = inputs.public().to_vec();
    let sct_inputs = inputs.secret().to_vec();
    let mut stack = Stack::new(&inputs, 8);
    stack.execute_op(&Operation::read2()).unwrap();
    stack.execute_op(&Operation::read()).unwrap();
    stack.execute_op(&Operation::smul()).unwrap();
    let stack_trace = stack.into_trace(8);
    let trace_row2 = trace_state(2, &stack_trace);
    let trace_row3 = trace_state(3, &stack_trace);
    assert_eq!(trace_row2[0], to_element(6));
    assert_eq!(trace_row3[0], to_element(5));
    let scalar = Felt::from_u8(pub_inputs[0]);
    let result = inputs.server_key().scalar_mul(&scalar, &sct_inputs[0]);
    assert_eq!(trace_row3[1..6].to_vec(), result.ciphertext().to_vec());
}

#[test]
fn stack_smul_underflow_error() {
    let mut stack = Stack::new(&program_inputs(), 8);
    stack.execute_op(&Operation::read2()).unwrap();
    let op = Operation::smul();
    let error = stack.execute_op(&op).unwrap_err();
    assert_eq!(error.to_string(), StackError::stack_underflow(&op, 2).to_string());
}

#[test]
fn stack_add2_operation_execution() {
    let inputs = program_inputs();
    let sct_inputs = inputs.secret().to_vec();
    let mut stack = Stack::new(&inputs, 8);
    stack.execute_op(&Operation::read2()).unwrap();
    stack.execute_op(&Operation::read2()).unwrap();
    stack.execute_op(&Operation::add2()).unwrap();
    let stack_trace = stack.into_trace(8);
    let trace_row2 = trace_state(2, &stack_trace);
    let trace_row3 = trace_state(3, &stack_trace);
    assert_eq!(trace_row2[0], to_element(10));
    assert_eq!(trace_row3[0], to_element(5));
    let result = inputs.server_key().add(&sct_inputs[0], &sct_inputs[1]);
    assert_eq!(trace_row3[1..6].to_vec(), result.ciphertext().to_vec());
}

#[test]
fn stack_add2_underflow_error() {
    let mut stack = Stack::new(&program_inputs(), 8);
    stack.execute_op(&Operation::read2()).unwrap();
    let op = Operation::add2();
    let error = stack.execute_op(&op).unwrap_err();
    assert_eq!(error.to_string(), StackError::stack_underflow(&op, 2).to_string());
}

#[test]
fn push_overflows_at_depth_sixteen() {
    let mut stack = Stack::new(&program_inputs(), 8);
    for i in 0..16 {
        stack.execute_op(&Operation::push(i)).unwrap();
    }
    assert_eq!(stack.depth, 16);
    let op = Operation::push(1);
    let error = stack.execute_op(&op).unwrap_err();
    assert_eq!(error.kind, StackErrorKind::StackOverflow);
    assert_eq!(error.step, 17);
    assert_eq!(error.to_string(), "stack error at 17: push(1) operation stack overflow");
}

#[test]
fn read_on_empty_tape_reports_its_clock() {
    let mut stack = Stack::new(&empty_program_inputs(), 8);
    stack.execute_op(&Operation::push(1)).unwrap();
    stack.execute_op(&Operation::noop()).unwrap();
    let error = stack.execute_op(&Operation::read()).unwrap_err();
    assert_eq!(error.kind, StackErrorKind::EmptyInput);
    assert_eq!(error.step, 3);
    let error = stack.execute_op(&Operation::read2()).unwrap_err();
    assert_eq!(error.kind, StackErrorKind::EmptyInput);
    assert_eq!(error.step, 3);
}

// ---------------------------------------------------------------- program

#[test]
fn mod_test_invalid_op() {
    let source = "push.1\npush.2\nad";
    let error = Program::compile(source).err().unwrap();
    assert_eq!(error.to_string(), ProgramError::invalid_op(&parts(&["ad"]), 3).to_string());
    assert_eq!(error.to_string(), "program error at 3: instruction ad is invalid");
}

#[test]
fn test_compile_program() {
    let source = "push.1\npush.2\nadd\nread\nmul";
    let program = Program::compile(source).ok().unwrap();
    assert_eq!(
        program.to_string(),
        String::from(
            "push(1) noop noop noop noop noop noop noop \
             push(2) add read mul noop noop noop noop"
        )
    );
}

#[test]
fn test_read_program_with_comments() {
    let source = "# Comment 1\npush.1\npush.2 # Comment 2\nadd\nread\nmul\n";
    let program = Program::compile(source).ok().unwrap();
    assert_eq!(
        program.to_string(),
        String::from(
            "push(1) noop noop noop noop noop noop noop \
             push(2) add read mul noop noop noop noop"
        )
    );
}

#[test]
fn test_program_padding() {
    let source = "push.1\npush.2\nadd\nread\nread\nread\nmul\nadd\nadd";
    let program = Program::compile(source).ok().unwrap();
    let code = program.code();
    assert_eq!(code.len() as u8 % 16, 0);
    assert_eq!(code[8], Operation::push(2));
    assert_eq!(code[14], Operation::noop());
    assert_eq!(code[15], Operation::noop());
}

#[test]
fn test_empty_program() {
    let source = "";
    let error = Program::compile(source).err().unwrap();
    assert_eq!(error.to_string(), ProgramError::empty_program().to_string());
    let error = Program::compile("  # only a comment\n\n").err().unwrap();
    assert_eq!(error.to_string(), ProgramError::empty_program().to_string());
}

#[test]
fn parsers_test_parse() {
    let cases = [
        ("add", Operation::add()),
        ("mul", Operation::mul()),
        ("smul", Operation::smul()),
        ("sadd", Operation::sadd()),
        ("add2", Operation::add2()),
        ("read", Operation::read()),
        ("read2", Operation::read2()),
        ("push.1", Operation::push(1)),
        ("noop", Operation::noop()),
    ];
    for (source, op) in cases.iter() {
        let program = Program::compile(source).ok().unwrap();
        assert_eq!(program.code()[0], *op);
    }
}

#[test]
fn parsers_test_extra_param_error() {
    let cases = [
        ("add.1", "add"),
        ("mul.1", "mul"),
        ("smul.1", "smul"),
        ("sadd.1", "sadd"),
        ("add2.1", "add2"),
        ("read.1", "read"),
        ("read2.1", "read2"),
        ("push.1.1", "push"),
    ];
    for (source, name) in cases.iter() {
        let error = Program::compile(source).err().unwrap();
        assert_eq!(error.to_string(), ProgramError::extra_param(&parts(&[name]), 1).to_string());
    }
}

#[test]
fn test_missing_param_error() {
    let source = "push";
    let error = Program::compile(source).err().unwrap();
    assert_eq!(error.to_string(), ProgramError::missing_param(&parts(&["push"]), 1).to_string());
    assert_eq!(error.to_string(), "program error at 1: malformed instruction push, parameter is missing");
}

#[test]
fn invalid_param_error() {
    for source in ["push.256", "push.x", "push.", "push.-1"].iter() {
        let error = Program::compile(source).err().unwrap();
        assert_eq!(error.kind, fhe_vm::errors::ProgramErrorKind::InvalidParam);
    }
    let error = Program::compile("push.abc").err().unwrap();
    assert_eq!(error.to_string(), "program error at 1: malformed instruction push, parameter 'abc' is invalid");
    let program = Program::compile("push.+7 push.007 push.255").ok().unwrap();
    assert_eq!(program.code()[0], Operation::push(7));
    assert_eq!(program.code()[8], Operation::push(7));
}

#[test]
fn parsers_test_invalid_op() {
    let source = "push.1 push.2 ad";
    let error = Program::compile(source).err().unwrap();
    assert_eq!(error.to_string(), ProgramError::invalid_op(&parts(&["ad"]), 3).to_string());
}

#[test]
fn test_extra_add_param() {
    let error = Program::compile("push.1 push.2 add.1").err().unwrap();
    assert_eq!(error.to_string(), ProgramError::extra_param(&parts(&["add"]), 3).to_string());
}

#[test]
fn test_extra_mul_param() {
    let error = Program::compile("push.1 push.2 mul.1").err().unwrap();
    assert_eq!(error.to_string(), ProgramError::extra_param(&parts(&["mul"]), 3).to_string());
}

#[test]
fn test_extra_read_param() {
    let error = Program::compile("push.1 push.2 read.1").err().unwrap();
    assert_eq!(error.to_string(), ProgramError::extra_param(&parts(&["read"]), 3).to_string());
}

#[test]
fn test_extra_push_param() {
    let error = Program::compile("push.1 push.2.2 read.1").err().unwrap();
    assert_eq!(error.to_string(), ProgramError::extra_param(&parts(&["push"]), 2).to_string());
}

#[test]
fn test_missing_push_param() {
    let error = Program::compile("push.1 push read.1").err().unwrap();
    assert_eq!(error.to_string(), ProgramError::missing_param(&parts(&["push"]), 2).to_string());
}

#[test]
fn formatting_does_not_change_the_digest() {
    let a = Program::compile("push.1 push.2 add").ok().unwrap();
    let b = Program::compile("# sum\n  push.1\n\tpush.2   # two\r\nadd\n").ok().unwrap();
    assert_eq!(a.hash(), b.hash());
    assert_eq!(a.code(), b.code());
    let c = Program::compile("push.1 push.3 add").ok().unwrap();
    assert_ne!(a.hash(), c.hash());
}

#[test]
fn push_is_aligned_after_eight_ops() {
    let program = Program::compile("read read read read read read read read push.9").ok().unwrap();
    assert_eq!(program.code()[8], Operation::push(9));
    let program = Program::compile("read push.9").ok().unwrap();
    assert_eq!(program.code()[8], Operation::push(9));
    for i in 1..8 {
        assert_eq!(program.code()[i], Operation::noop());
    }
    let program = Program::compile("read read read read read read read read read read read read read read read").ok().unwrap();
    assert_eq!(program.code()[14], Operation::noop());
    assert_eq!(program.code()[15], Operation::noop());
    assert_eq!(program.code()[16], Operation::read());
    assert_eq!(program.code().len(), 32);
}

#[test]
fn digest_absorbs_the_immediate() {
    let a = Program::compile("push.1").ok().unwrap();
    let b = Program::compile("push.2").ok().unwrap();
    assert_ne!(a.hash(), b.hash());
    let mut sponge = Rescue128::new();
    for op in a.code().iter() {
        sponge.update(op.code(), op.value());
    }
    assert_eq!(sponge.hash(), a.hash());
    assert_eq!(Rescue128::digest(a.code()), a.hash());
}

// ---------------------------------------------------------------- processor

fn run(source: &str, public: &[u8], secret: &[FheUInt8], key: &ServerKey) -> Result<(Program, Processor), ProcessorError> {
    let program = Program::compile(source).ok().unwrap();
    let inputs = ProgramInputs::new(public, secret, key);
    let processor = Processor::run(&program, &inputs)?;
    Ok((program, processor))
}

#[test]
fn trace_second_to_last_row() {
    let key = server_key();
    let (program, processor) = run("push.5\npush.3\nadd", &[], &[], &key).ok().unwrap();
    let trace = processor.trace().ok().unwrap();
    assert_eq!(trace.len(), 28);
    let len = trace[0].len();
    assert_eq!(len, 32);
    let row = trace_state(len - 2, &trace);
    assert_eq!(row[0], to_element(30));
    assert_eq!(row[1..6].to_vec(), to_elements(&[0, 0, 0, 0, 0]));
    assert_eq!(row[6], to_element(0));
    assert_eq!(row[7..9].to_vec(), program.hash().to_elements().to_vec());
    assert_eq!(row[9..11].to_vec(), vec![Felt::zero(), Felt::zero()]);
    assert_eq!(row[11], to_element(1));
    assert_eq!(row[12], to_element(8));
    for value in trace_state(len - 1, &trace) {
        assert_ne!(value, Felt::zero());
    }
}

#[test]
fn trace_invariants_hold_on_a_run() {
    let key = server_key();
    let x = key.encrypt(33, 0);
    let (program, processor) = run("read2 read sadd push.4 push.5 mul read smul", &[3, 2], &[x], &key).ok().unwrap();
    let n = program.code().len();
    let trace = processor.trace().ok().unwrap();
    let len = trace[0].len();
    assert!(len.is_power_of_two() && len >= n + 2);
    for i in 0..len - 1 {
        let row = trace_state(i, &trace);
        assert_eq!(row[0], Felt::from_usize(i));
        let b0 = row[5];
        let b1 = row[4];
        assert_eq!(b0.mul(b1), Felt::zero());
        let depth = row[11].as_int() as usize;
        assert!(depth <= 16);
        for j in depth..16 {
            assert_eq!(row[12 + j], Felt::zero());
        }
    }
    let row = trace_state(len - 2, &trace);
    assert_eq!(row[7..9].to_vec(), program.hash().to_elements().to_vec());
}

#[test]
fn end_to_end_add() {
    let key = server_key();
    let (program, processor) = run("push.1 push.2 add", &[], &[], &key).ok().unwrap();
    assert_eq!(processor.output()[0], to_element(3));
    let again = Program::compile("push.1 push.2 add").ok().unwrap();
    assert_eq!(program.hash(), again.hash());
}

#[test]
fn end_to_end_mul() {
    let key = server_key();
    let (_, processor) = run("push.1 push.2 mul", &[], &[], &key).ok().unwrap();
    assert_eq!(processor.output()[0], to_element(2));
}

fn decrypt_output(key: &ServerKey, processor: &Processor) -> u8 {
    let output = processor.output();
    key.decrypt(&FheUInt8::new(&output[..5].to_vec()))
}

#[test]
fn end_to_end_scalar_add() {
    let key = server_key();
    let x = key.encrypt(33, 0);
    let (_, processor) = run("read2 read sadd", &[3], &[x], &key).ok().unwrap();
    assert_eq!(decrypt_output(&key, &processor), 36);
}

#[test]
fn end_to_end_scalar_mul() {
    let key = server_key();
    let x = key.encrypt(33, 0);
    let (_, processor) = run("read2 read smul", &[2], &[x], &key).ok().unwrap();
    assert_eq!(decrypt_output(&key, &processor), 66);
}

#[test]
fn end_to_end_linear_form() {
    let key = server_key();
    let x = key.encrypt(33, 0);
    let (_, processor) = run("read2 read smul read sadd", &[2, 12], &[x], &key).ok().unwrap();
    assert_eq!(decrypt_output(&key, &processor), 78);
}

#[test]
fn end_to_end_four_features() {
    let key = server_key();
    let xs: Vec<FheUInt8> = [2u8, 3, 3, 2].iter().map(|x| key.encrypt(*x, 0)).collect();
    let source = "read2 push.3 smul read2 push.2 smul add2 read2 push.4 smul add2 read2 push.2 smul add2 read sadd";
    let (_, processor) = run(source, &[1, 3, 2, 4, 2], &xs, &key).ok().unwrap();
    assert_eq!(decrypt_output(&key, &processor), 1 + 6 + 6 + 12 + 4);
}

#[test]
fn processor_stops_on_the_first_error() {
    let key = server_key();
    let error = run("push.1 add", &[], &[], &key).err().unwrap();
    assert_eq!(error.to_string(), "stack error at 2: add operation stack underflow");
    let error = run("read", &[], &[], &key).err().unwrap();
    match error {
        ProcessorError::Stack(e) => {
            assert_eq!(e.kind, StackErrorKind::EmptyInput);
            assert_eq!(e.step, 1);
        }
        _ => panic!("expected a stack error"),
    }
}

#[test]
fn exactly_one_opcode_indicator_per_row() {
    let key = server_key();
    let x = key.encrypt(33, 0);
    let y = key.encrypt(7, 0);
    let source = "read2 read sadd read2 add2 push.4 smul push.1 push.2 mul add noop";
    let (_, processor) = run(source, &[3], &[x, y], &key).ok().unwrap();
    let trace = processor.trace().ok().unwrap();
    let len = trace[0].len();
    for i in 0..len - 2 {
        let frame = Frame::from_rows(trace_state(i, &trace), trace_state(i + 1, &trace));
        let flags = [
            is_noop(&frame),
            is_add(&frame),
            is_mul(&frame),
            is_sadd(&frame),
            is_smul(&frame),
            is_add2(&frame),
            is_push(&frame),
            is_read(&frame),
            is_read2(&frame),
        ];
        assert_eq!(flags.iter().filter(|f| **f == Felt::one()).count(), 1);
        assert_eq!(flags.iter().filter(|f| **f == Felt::zero()).count(), 8);
    }
}

#[test]
fn valid_trace_meets_every_constraint() {
    let key = server_key();
    let x = key.encrypt(33, 0);
    let (_, processor) = run("read2 read smul read sadd push.1 push.2 add", &[2, 12], &[x], &key).ok().unwrap();
    let trace = processor.trace().ok().unwrap();
    let len = trace[0].len();
    let periodic = get_periodic_column_values();
    for i in 0..len - 2 {
        let frame = Frame::from_rows(trace_state(i, &trace), trace_state(i + 1, &trace));
        let values: Vec<Felt> = periodic.iter().map(|col| col[i % 16]).collect();
        let result = evaluate_transition(&frame, &values, &key);
        assert_eq!(result, vec![Felt::zero(); 20], "row {i}");
    }
}

#[test]
fn hash_bytes_are_little_endian() {
    let hash = fhe_vm::rescue::Hash::new(Felt::from_u32(0x0102), Felt::from_u8(7));
    let bytes = hash.to_bytes();
    assert_eq!(bytes.len(), 32);
    assert_eq!(bytes[0], 0x02);
    assert_eq!(bytes[1], 0x01);
    assert_eq!(bytes[2], 0);
    assert_eq!(bytes[16], 7);
    assert_eq!(bytes[31], 0);
}
