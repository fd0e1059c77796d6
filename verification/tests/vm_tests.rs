use rlox::chunk::{Chunk, OpCode};
use rlox::vm::{InterpretResult, Pause, VM};

/// Drive the VM to a halt, computing the floating-point arithmetic it asks
/// for and handing the results back.
fn run_to_halt(vm: &mut VM, chunk: &Chunk) -> (InterpretResult, Option<f64>) {
    loop {
        match vm.run(chunk) {
            Pause::Binary { op, left, right } => {
                let a = f64::from_bits(left);
                let b = f64::from_bits(right);
                let result = match op {
                    OpCode::Add => a + b,
                    OpCode::Subtract => a - b,
                    OpCode::Multiply => a * b,
                    OpCode::Divide => a / b,
                    other => panic!("not an arithmetic opcode: {:?}", other),
                };
                vm.push(result.to_bits());
            }
            Pause::Halt { result, value } => {
                return (result, value.map(f64::from_bits));
            }
        }
    }
}

#[test]
fn vm_test() {
    let mut my_vm = VM::new();
    let mut my_chunk = Chunk::new_chunk();
    for i in 0..260 {
        my_chunk.write_constant(((i / 2) as f64).to_bits(), i / 2);
        if i % 2 == 0 {
            my_chunk.write_op_code(OpCode::Negate, i / 2);
        }
        if i % 4 == 3 {
            my_chunk.write_op_code(OpCode::Multiply, i / 2);
        }
        if i % 8 == 7 {
            my_chunk.write_op_code(OpCode::Add, i / 2);
        }
    }
    my_chunk.write_op_code(OpCode::Return, 1);
    let (result, _value) = run_to_halt(&mut my_vm, &my_chunk);
    println!("{:}", result.name());
}

#[test]
fn subtract_then_return_yields_six() {
    let mut chunk = Chunk::new_chunk();
    chunk.write_constant(10.0f64.to_bits(), 1);
    chunk.write_constant(4.0f64.to_bits(), 1);
    chunk.write_op_code(OpCode::Subtract, 1);
    chunk.write_op_code(OpCode::Return, 1);
    let mut vm = VM::new();
    let (result, value) = run_to_halt(&mut vm, &chunk);
    assert_eq!(result, InterpretResult::Success);
    assert_eq!(result.name(), "Ok");
    assert_eq!(value, Some(6.0));
}

#[test]
fn missing_return_yields_runtime_error() {
    let mut chunk = Chunk::new_chunk();
    chunk.write_constant(10.0f64.to_bits(), 1);
    chunk.write_constant(4.0f64.to_bits(), 1);
    chunk.write_op_code(OpCode::Subtract, 1);
    let mut vm = VM::new();
    let (result, value) = run_to_halt(&mut vm, &chunk);
    assert_eq!(result, InterpretResult::RuntimeError);
    assert_eq!(value, None);
}

#[test]
fn invalid_opcode_yields_runtime_error() {
    let mut chunk = Chunk::new_chunk();
    chunk.code.push(200);
    let mut vm = VM::new();
    let (result, _) = run_to_halt(&mut vm, &chunk);
    assert_eq!(result, InterpretResult::RuntimeError);
}

#[test]
fn truncated_operand_yields_runtime_error() {
    let mut chunk = Chunk::new_chunk();
    // A Constant opcode with its operand byte missing.
    chunk.code.push(OpCode::Constant.to_byte());
    let mut vm = VM::new();
    let (result, _) = run_to_halt(&mut vm, &chunk);
    assert_eq!(result, InterpretResult::RuntimeError);
}

#[test]
fn negate_flips_the_value_in_place() {
    let mut chunk = Chunk::new_chunk();
    chunk.write_constant(2.5f64.to_bits(), 1);
    chunk.write_op_code(OpCode::Negate, 1);
    chunk.write_op_code(OpCode::Return, 1);
    let mut vm = VM::new();
    let (result, value) = run_to_halt(&mut vm, &chunk);
    assert_eq!(result, InterpretResult::Success);
    assert_eq!(value, Some(-2.5));
}

#[test]
fn long_form_constants_are_pushed() {
    let mut chunk = Chunk::new_chunk();
    for n in 0..256u32 {
        chunk.write_constant((n as f64).to_bits(), 1);
    }
    chunk.write_op_code(OpCode::Return, 1);
    let mut vm = VM::new();
    let (result, value) = run_to_halt(&mut vm, &chunk);
    assert_eq!(result, InterpretResult::Success);
    // The value loaded through the long form (pool index 255) is on top.
    assert_eq!(value, Some(255.0));
}

#[test]
fn division_by_zero_follows_double_semantics() {
    let mut chunk = Chunk::new_chunk();
    chunk.write_constant(1.0f64.to_bits(), 1);
    chunk.write_constant(0.0f64.to_bits(), 1);
    chunk.write_op_code(OpCode::Divide, 1);
    chunk.write_op_code(OpCode::Return, 1);
    let mut vm = VM::new();
    let (result, value) = run_to_halt(&mut vm, &chunk);
    assert_eq!(result, InterpretResult::Success);
    assert_eq!(value, Some(f64::INFINITY));
}

#[test]
fn rewind_and_free_allow_reuse() {
    let mut chunk = Chunk::new_chunk();
    chunk.write_constant(1.5f64.to_bits(), 1);
    chunk.write_op_code(OpCode::Return, 1);
    let mut vm = VM::new();
    let (result, value) = run_to_halt(&mut vm, &chunk);
    assert_eq!(result, InterpretResult::Success);
    assert_eq!(value, Some(1.5));
    vm.free();
    vm.rewind();
    let (result, value) = run_to_halt(&mut vm, &chunk);
    assert_eq!(result, InterpretResult::Success);
    assert_eq!(value, Some(1.5));
}

#[test]
fn interpret_result_names() {
    assert_eq!(InterpretResult::Success.name(), "Ok");
    assert_eq!(InterpretResult::CompileError.name(), "CompileError");
    assert_eq!(InterpretResult::RuntimeError.name(), "RuntimeError");
}
