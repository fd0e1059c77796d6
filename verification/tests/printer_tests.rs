use rlox::chunk::{Chunk, OpCode};
use rlox::chunk_printer::{disassemble, disassemble_instruction, usize_to_dec};

/// One rendered text per constant-pool entry, as the printer expects.
fn rendered_values(chunk: &Chunk) -> Vec<String> {
    chunk
        .constants
        .iter()
        .map(|bits| format!("{:?}", f64::from_bits(*bits)))
        .collect()
}

#[test]
fn trace_matches_the_documented_layout() {
    let mut chunk = Chunk::new_chunk();
    chunk.write_constant(1.2f64.to_bits(), 123);
    chunk.write_op_code(OpCode::Return, 123);
    let texts = rendered_values(&chunk);
    let trace = disassemble(&chunk, "test", &texts);

    let mut expected = String::new();
    expected += &format!("== {} ==\n", "test");
    expected += &format!("{:04} ", 0);
    expected += &format!("{:4} ", 123);
    expected += &format!("{:16} {:4} '", "Constant", 0);
    expected += &format!("{:?}", 1.2f64);
    expected += "'\n";
    expected += &format!("{:04} ", 2);
    expected += "   | ";
    expected += "Return\n";
    assert_eq!(trace, expected);
}

#[test]
fn trace_is_byte_identical_across_runs() {
    let mut chunk = Chunk::new_chunk();
    for n in 0..300u32 {
        chunk.write_constant((n as f64 / 3.0).to_bits(), (n / 7) as usize);
    }
    chunk.write_op_code(OpCode::Negate, 43);
    chunk.write_op_code(OpCode::Return, 43);
    let texts = rendered_values(&chunk);
    let first = disassemble(&chunk, "golden", &texts);
    let second = disassemble(&chunk, "golden", &texts);
    assert_eq!(first.as_bytes(), second.as_bytes());
}

#[test]
fn long_form_instruction_line_shows_wide_index() {
    let mut chunk = Chunk::new_chunk();
    for n in 0..256u32 {
        chunk.write_constant((n as f64).to_bits(), 9);
    }
    let texts = rendered_values(&chunk);
    // The last instruction loads pool index 255 through the long form.
    let offset = 255 * 2;
    let (line, next) = disassemble_instruction(&chunk, offset, &texts);
    assert_eq!(next, offset + 4);
    let expected = format!("{:04} ", offset)
        + "   | "
        + &format!("{:16} {:12} '", "ConstantLong", 255)
        + &format!("{:?}", 255.0f64)
        + "'\n";
    assert_eq!(line, expected);
}

#[test]
fn decimal_rendering_matches_display() {
    for n in [0usize, 7, 10, 42, 99, 100, 255, 256, 4096, 65535, 1000000] {
        assert_eq!(usize_to_dec(n), format!("{}", n));
    }
}
